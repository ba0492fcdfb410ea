//! What is done to an atlas, as values: for statements about more than one call.
use crate::geometry::{Bounds, Size};
use crate::model::Textures;
use crate::state::{Atlas, InsertError};
use crate::tile::AtlasKey;
use vstd::prelude::*;

verus! {

/// A call that may change an atlas.
pub enum Operation<E> {
    /// A key's tile is asked for. `built` is what its renderer gives, should the key have none.
    Get { key: AtlasKey, built: Result<Option<(Size, Vec<u8>)>, E> },
    /// A part of a key's tile is overwritten.
    Update { key: AtlasKey, bounds: Bounds, bytes: Seq<u8> },
    /// The tile of a key is taken away.
    Remove { key: AtlasKey },
    /// The waiting uploads are handed over.
    EncodeUploads,
    /// The waiting uploads are committed.
    CommitUploads,
    /// The commands for the GPU are handed over.
    TakeCommands,
}

impl<E> Operation<E> {
    /// The operation may be done to the atlas.
    pub open spec fn is_admitted(self, atlas: Atlas) -> bool {
        match self {
            Operation::Get { key, built: Ok(Some((size, _))) } => {
                atlas.tiles.contains_key(key) || atlas.can_insert(key, size)
            },
            _ => true,
        }
    }

    /// The atlas once the operation was done.
    pub open spec fn after(self, atlas: Atlas) -> Atlas {
        match self {
            Operation::Get { key, built } => atlas.lookup(key, built).0,
            Operation::Update { key, bounds, bytes } => atlas.update(key, bounds, bytes).0,
            Operation::Remove { key } => atlas.removal(key),
            Operation::EncodeUploads => atlas.with_textures(atlas.textures.drained()),
            Operation::CommitUploads => if atlas.textures.pending.len() == 0 {
                atlas
            } else {
                atlas.with_textures(atlas.textures.flushed())
            },
            Operation::TakeCommands => atlas.with_textures(
                Textures { commands: Seq::empty(), ..atlas.textures },
            ),
        }
    }

    /// The operation asks for a tile that there is no place for. Such a request may leave a
    /// texture behind that no key uses.
    pub open spec fn is_refused(self, atlas: Atlas) -> bool {
        &&& self matches Operation::Get { key, built }
        &&& atlas.lookup(key, built).1 matches Err(InsertError::Atlas(_))
    }
}

/// An atlas went through the states by the operations, each of which may be done and none of
/// which spoils it.
pub open spec fn is_run<E>(states: Seq<Atlas>, operations: Seq<Operation<E>>) -> bool {
    &&& states.len() == operations.len() + 1
    &&& forall|i: int| 0 <= i < states.len() ==> (#[trigger] states[i]).wf()
    &&& forall|i: int|
        0 <= i < operations.len() ==> {
            &&& (#[trigger] operations[i]).is_admitted(states[i])
            &&& states[i + 1] == operations[i].after(states[i])
        }
}

} // verus!
