//! What becomes of the GPU's textures when commands are carried out.
use crate::gpu::{Command, MetalTexture};
use crate::tile::AtlasTextureId;
use vstd::prelude::*;

verus! {

/// The textures that a GPU has, by what they are used for.
pub type Device = Map<AtlasTextureId, MetalTexture>;

/// The GPU can carry out the command: a texture is made where there is none, and dropped or
/// written to where there is one, within its sides.
pub open spec fn is_runnable(device: Device, command: Command) -> bool {
    match command {
        Command::CreateTexture { id, texture } => !device.contains_key(id),
        Command::DropTexture { id } => device.contains_key(id),
        Command::ReplaceRegion { upload } => {
            &&& device.contains_key(upload.texture_id)
            &&& upload.area().fits(
                device[upload.texture_id].width as int,
                device[upload.texture_id].height as int,
            )
            &&& upload.bytes_per_row == upload.size.width
                * device[upload.texture_id].pixel_format.spec_bytes_per_pixel()
        },
        Command::CommitUploads { uploads } => forall|i: int|
            0 <= i < uploads.len() ==> {
                &&& device.contains_key((#[trigger] uploads[i]).texture_id)
                &&& uploads[i].fits(device[uploads[i].texture_id])
            },
    }
}

/// The textures once the command was carried out.
pub open spec fn after_command(device: Device, command: Command) -> Device {
    match command {
        Command::CreateTexture { id, texture } => device.insert(id, texture),
        Command::DropTexture { id } => device.remove(id),
        Command::ReplaceRegion { .. } => device,
        Command::CommitUploads { .. } => device,
    }
}

/// The textures once the commands were carried out, one after the other.
pub open spec fn after_commands(device: Device, commands: Seq<Command>) -> Device
    decreases commands.len(),
{
    if commands.len() == 0 {
        device
    } else {
        after_command(after_commands(device, commands.drop_last()), commands.last())
    }
}

/// The GPU can carry out the commands, one after the other.
pub open spec fn are_runnable(device: Device, commands: Seq<Command>) -> bool
    decreases commands.len(),
{
    if commands.len() == 0 {
        true
    } else {
        &&& are_runnable(device, commands.drop_last())
        &&& is_runnable(after_commands(device, commands.drop_last()), commands.last())
    }
}

/// Commands can be carried out in two parts.
pub proof fn lemma_after_both(device: Device, first: Seq<Command>, second: Seq<Command>)
    ensures
        after_commands(device, first + second) == after_commands(
            after_commands(device, first),
            second,
        ),
        are_runnable(device, first + second) <==> are_runnable(device, first) && are_runnable(
            after_commands(device, first),
            second,
        ),
    decreases second.len(),
{
    if second.len() == 0 {
        assert(first + second =~= first);
    } else {
        assert((first + second).drop_last() =~= first + second.drop_last());
        assert((first + second).last() == second.last());
        lemma_after_both(device, first, second.drop_last());
    }
}

/// One command is carried out like any list of them.
pub proof fn lemma_after_one(device: Device, command: Command)
    ensures
        after_commands(device, seq![command]) == after_command(device, command),
        are_runnable(device, seq![command]) <==> is_runnable(device, command),
{
    assert(seq![command].drop_last() =~= Seq::<Command>::empty());
    assert(after_commands(device, Seq::<Command>::empty()) == device);
    assert(are_runnable(device, Seq::<Command>::empty()));
}

} // verus!
