//! What the values mean that the other laws speak of.
use crate::allocator::allocator_history;
use crate::geometry::{Bounds, Size};
use crate::gpu::{
    command_views, upload_views, Command, GpuCommand, MetalTexture, PendingUpload, PixelFormat,
    StorageMode, TextureUsage, Upload,
};
use crate::model::{page_kind, page_size, square, Textures};
use crate::state::{Atlas, AtlasState};
use crate::texture::{tile_at, MetalAtlasTexture, Texture};
use crate::texture_list::{
    metal_texture_of, pixel_format_of, AtlasTextureList, TextureList, MAX_ATLAS_SIDE,
};
use crate::textures::MetalAtlasTextures;
use crate::tile::{AtlasKey, AtlasTextureId, AtlasTextureKind, AtlasTile, TileId};
use crate::upload::{bounds_in_texture, total_bytes};
use vstd::prelude::*;

verus! {

/// The bytes of a pixel of the textures of a kind: one of coverage, or four of colour.
pub open spec fn pixel_bytes(kind: AtlasTextureKind) -> int {
    if kind is Monochrome {
        1
    } else {
        4
    }
}

/// The kind of texture that a tile goes to: an image with sides of at most 256 pixels goes to
/// the small ones.
pub open spec fn home(kind: AtlasTextureKind, size: Size) -> AtlasTextureKind {
    if kind is Image && size.width.0 <= 256 && size.height.0 <= 256 {
        AtlasTextureKind::ImageSmall
    } else {
        kind
    }
}

/// The upload brings `bytes`, and no others, to the rectangle of a texture that begins in column
/// `x` and row `y` and has `size` pixels.
pub open spec fn brings(
    upload: Upload,
    id: AtlasTextureId,
    x: int,
    y: int,
    size: Size,
    bytes: Seq<u8>,
) -> bool {
    &&& upload.texture_id == id
    &&& upload.origin.x == x
    &&& upload.origin.y == y
    &&& upload.origin.z == 0
    &&& upload.size.width == size.width.0
    &&& upload.size.height == size.height.0
    &&& upload.size.depth == 1
    &&& upload.bytes_per_row == size.width.0 * pixel_bytes(id.kind)
    &&& upload.data == bytes
}

/// The texture has these sides and what its kind and the GPU ask for.
pub open spec fn is_made(
    texture: MetalTexture,
    kind: AtlasTextureKind,
    width: int,
    height: int,
    is_apple_gpu: bool,
) -> bool {
    &&& texture.width == width
    &&& texture.height == height
    &&& texture.pixel_format == if kind is Monochrome {
        PixelFormat::A8Unorm
    } else {
        PixelFormat::BGRA8Unorm
    }
    &&& texture.usage == TextureUsage::ShaderRead
    &&& texture.storage_mode == if is_apple_gpu {
        StorageMode::Shared
    } else {
        StorageMode::Managed
    }
}

/// An upload shows as what its fields hold.
pub proof fn uploads_show_their_fields(upload: PendingUpload)
    ensures
        upload@.texture_id == upload.texture_id,
        upload@.origin == upload.origin,
        upload@.size == upload.size,
        upload@.bytes_per_row == upload.bytes_per_row,
        upload@.data == upload.data@,
{
}

/// A list of uploads shows all of them, each at its place.
pub proof fn upload_lists_show_every_upload(uploads: Seq<PendingUpload>, index: int)
    ensures
        upload_views(uploads).len() == uploads.len(),
        0 <= index < uploads.len() ==> upload_views(uploads)[index] == uploads[index]@,
{
}

/// A command shows as what its fields hold.
pub proof fn commands_show_their_fields(command: GpuCommand, index: int)
    ensures
        match command {
            GpuCommand::CreateTexture { id, texture } => command@ == (Command::CreateTexture {
                id,
                texture,
            }),
            GpuCommand::DropTexture { id } => command@ == (Command::DropTexture { id }),
            GpuCommand::ReplaceRegion { upload } => command@ == (Command::ReplaceRegion {
                upload: upload@,
            }),
            GpuCommand::CommitUploads { uploads } => {
                &&& command@ matches Command::CommitUploads { uploads: shown }
                &&& shown.len() == uploads@.len()
                &&& 0 <= index < shown.len() ==> shown[index] == uploads@[index]@
            },
        },
{
}

/// A list of commands shows all of them, each at its place.
pub proof fn command_lists_show_every_command(commands: Seq<GpuCommand>, index: int)
    ensures
        command_views(commands).len() == commands.len(),
        0 <= index < commands.len() ==> command_views(commands)[index] == commands[index]@,
{
}

/// A texture, a list of textures and all lists show as what they hold.
pub proof fn textures_show_what_they_hold(
    texture: MetalAtlasTexture,
    list: AtlasTextureList,
    textures: MetalAtlasTextures,
    state: AtlasState,
    index: int,
)
    ensures
        texture@ == (Texture {
            id: texture.id,
            metal_texture: texture.metal_texture,
            history: allocator_history(texture.allocator),
            live_atlas_keys: texture.live_atlas_keys as int,
            count_rounds: texture.count_rounds as int,
        }),
        list@.free_list == list.free_list@,
        list@.textures.len() == list.textures@.len(),
        0 <= index < list.textures@.len() ==> match list.textures@[index] {
            None => list@.textures[index] is None,
            Some(slot) => list@.textures[index] == Some(slot@),
        },
        textures@.is_apple_gpu == textures.is_apple_gpu,
        textures@.monochrome == textures.monochrome_textures@,
        textures@.polychrome == textures.polychrome_textures@,
        textures@.image == textures.image_textures@,
        textures@.image_small == textures.image_small_textures@,
        textures@.pending == upload_views(textures.pending_uploads@),
        textures@.commands == command_views(textures.commands@),
        state@.textures == state.backend@,
        state@.tiles == state.tiles_by_key@,
{
}

/// Each kind has a list of textures of its own, in which a texture stands at its number. There
/// are none for the kind that a Metal atlas lacks.
pub proof fn numbers_name_textures(textures: Textures, id: AtlasTextureId)
    ensures
        textures.list(AtlasTextureKind::Monochrome) == textures.monochrome,
        textures.list(AtlasTextureKind::Polychrome) == textures.polychrome,
        textures.list(AtlasTextureKind::Image) == textures.image,
        textures.list(AtlasTextureKind::ImageSmall) == textures.image_small,
        textures.texture(id) == if !(id.kind is Subpixel) && id.index < textures.list(
            id.kind,
        ).textures.len() {
            textures.list(id.kind).textures[id.index as int]
        } else {
            None
        },
        TextureList::empty().textures.len() == 0,
        TextureList::empty().free_list.len() == 0,
{
}

/// The kind that a key asks for, and the kind that its tile goes to.
pub proof fn keys_ask_for_kinds(key: AtlasKey, kind: AtlasTextureKind, size: Size)
    ensures
        key.spec_texture_kind() == match key {
            AtlasKey::Image(_) => AtlasTextureKind::Image,
            AtlasKey::DynamicTexture(params) => params.texture_kind,
            AtlasKey::Resource(params) => params.texture_kind,
        },
        page_kind(kind, size) == home(kind, size),
{
}

/// Every pixel format has its number of bytes, and every kind its format.
pub proof fn kinds_have_formats(
    kind: AtlasTextureKind,
    width: u64,
    height: u64,
    is_apple_gpu: bool,
)
    ensures
        PixelFormat::A8Unorm.spec_bytes_per_pixel() == 1,
        PixelFormat::R8Unorm.spec_bytes_per_pixel() == 1,
        PixelFormat::RGBA8Unorm.spec_bytes_per_pixel() == 4,
        PixelFormat::BGRA8Unorm.spec_bytes_per_pixel() == 4,
        pixel_format_of(kind).spec_bytes_per_pixel() == pixel_bytes(kind),
        is_made(
            metal_texture_of(kind, width, height, is_apple_gpu),
            kind,
            width as int,
            height as int,
            is_apple_gpu,
        ),
{
}

/// Of two sizes, the lesser has the lesser of the widths and of the heights, and the greater
/// the greater ones. A size fits where both sides have a pixel and are not longer.
pub proof fn sizes_are_compared_side_by_side(a: Size, b: Size)
    ensures
        a.spec_min(b).width.0 <= a.width.0,
        a.spec_min(b).width.0 <= b.width.0,
        a.spec_min(b).width == a.width || a.spec_min(b).width == b.width,
        a.spec_min(b).height.0 <= a.height.0,
        a.spec_min(b).height.0 <= b.height.0,
        a.spec_min(b).height == a.height || a.spec_min(b).height == b.height,
        a.spec_max(b).width.0 >= a.width.0,
        a.spec_max(b).width.0 >= b.width.0,
        a.spec_max(b).width == a.width || a.spec_max(b).width == b.width,
        a.spec_max(b).height.0 >= a.height.0,
        a.spec_max(b).height.0 >= b.height.0,
        a.spec_max(b).height == a.height || a.spec_max(b).height == b.height,
        a.is_within(b) <==> 1 <= a.width.0 && a.width.0 <= b.width.0 && 1 <= a.height.0
            && a.height.0 <= b.height.0,
        a.is_within(square(MAX_ATLAS_SIDE)) <==> 1 <= a.width.0 <= 16384 && 1 <= a.height.0
            <= 16384,
{
}

/// A new texture is as large as the tile that it is made for, but not smaller than the sides of
/// its kind and not larger than a GPU allows.
pub proof fn pages_suit_their_tiles(min_size: Size, kind: AtlasTextureKind)
    ensures
        ({
            let page = page_size(min_size, kind);
            let side = if kind is Monochrome {
                1024int
            } else {
                512int
            };
            &&& page.width.0 == if min_size.width.0 < side {
                side
            } else if min_size.width.0 > 16384 {
                16384int
            } else {
                min_size.width.0 as int
            }
            &&& page.height.0 == if min_size.height.0 < side {
                side
            } else if min_size.height.0 > 16384 {
                16384int
            } else {
                min_size.height.0 as int
            }
        }),
{
}

/// An upload carries exactly the bytes that were handed in, in their order and whatever the
/// format, to the rectangle that was named.
pub proof fn uploads_carry_the_given_bytes(
    id: AtlasTextureId,
    bounds: Bounds,
    bytes: Seq<u8>,
    bytes_per_pixel: u8,
)
    ensures
        ({
            let upload = Upload::of(id, bounds, bytes, bytes_per_pixel);
            &&& upload.data == bytes
            &&& upload.texture_id == id
            &&& 0 <= bounds.origin.x.0 ==> upload.origin.x == bounds.origin.x.0
            &&& 0 <= bounds.origin.y.0 ==> upload.origin.y == bounds.origin.y.0
            &&& upload.origin.z == 0
            &&& 0 <= bounds.size.width.0 ==> upload.size.width == bounds.size.width.0
            &&& 0 <= bounds.size.height.0 ==> upload.size.height == bounds.size.height.0
            &&& upload.size.depth == 1
            &&& 0 <= bounds.size.width.0 ==> upload.bytes_per_row == bounds.size.width.0
                * bytes_per_pixel
        }),
{
    if 0 <= bounds.size.width.0 {
        let width = bounds.size.width.0;
        assert(0 <= width * bytes_per_pixel <= 0x7fff_ffff * 255) by (nonlinear_arith)
            requires
                0 <= width <= 0x7fff_ffff,
                0 <= bytes_per_pixel <= 255,
        ;
    }
}

/// An allocator's answer becomes a tile of the size that was asked for, at the corner and under
/// the number that were given, without padding.
pub proof fn answers_become_tiles(id: AtlasTextureId, size: Size, answer: (u32, i32, i32))
    ensures
        ({
            let tile = tile_at(id, size, answer);
            &&& tile.texture_id == id
            &&& tile.tile_id == TileId(answer.0)
            &&& tile.padding == 0
            &&& tile.bounds.origin.x.0 == answer.1
            &&& tile.bounds.origin.y.0 == answer.2
            &&& tile.bounds.size == size
        }),
{
}

/// A part of a tile lies in the texture where the tile does, moved by the part's own origin.
pub proof fn parts_move_with_their_tile(tile: AtlasTile, bounds: Bounds)
    requires
        i32::MIN <= tile.bounds.origin.x.0 + bounds.origin.x.0 <= i32::MAX,
        i32::MIN <= tile.bounds.origin.y.0 + bounds.origin.y.0 <= i32::MAX,
    ensures
        bounds_in_texture(tile, bounds).origin.x.0 == tile.bounds.origin.x.0 + bounds.origin.x.0,
        bounds_in_texture(tile, bounds).origin.y.0 == tile.bounds.origin.y.0 + bounds.origin.y.0,
        bounds_in_texture(tile, bounds).size == bounds.size,
{
}

/// The bytes of uploads add up: none has none, and one more adds its own.
pub proof fn bytes_add_up(uploads: Seq<Upload>, upload: Upload)
    ensures
        total_bytes(Seq::empty()) == 0,
        total_bytes(uploads.push(upload)) == total_bytes(uploads) + upload.data.len(),
{
    assert(uploads.push(upload).drop_last() =~= uploads);
}

/// A list can have one more texture while a number is free or fewer than 2^32 are used, and can be
/// asked for a tile while no texture has counted a bucket anew 15 times.
pub proof fn lists_tell_their_room(list: TextureList)
    ensures
        list.has_room() <==> list.free_list.len() > 0 || list.textures.len() < 0x1_0000_0000,
        list.can_allocate() <==> list.has_room() && (forall|i: int|
            0 <= i < list.textures.len() ==> (#[trigger] list.textures[i] matches Some(texture)
                ==> texture.count_rounds < 15)),
{
    assert(list.can_count() <==> (forall|i: int|
        0 <= i < list.textures.len() ==> (#[trigger] list.textures[i] matches Some(texture)
            ==> texture.count_rounds < 15)));
}

/// A tile can be taken for a key exactly where the atlas has textures of the kind, fewer than
/// 2^32 numbers for them are in use, and, unless the key gets a texture of its own, none of them
/// has counted a bucket anew 15 times. A size that no texture can have is refused to a dynamic
/// texture in any case.
pub proof fn room_is_told(atlas: Atlas, key: AtlasKey, size: Size)
    ensures
        ({
            let kind = home(key.spec_texture_kind(), size);
            let list = atlas.textures.list(kind);
            !(key is DynamicTexture) ==> (atlas.can_insert(key, size) <==> {
                &&& !(kind is Subpixel)
                &&& list.free_list.len() > 0 || list.textures.len() < 0x1_0000_0000
                &&& forall|i: int|
                    0 <= i < list.textures.len() ==> (#[trigger] list.textures[i] matches Some(
                        texture,
                    ) ==> texture.count_rounds < 15)
            })
        }),
        ({
            let kind = key.spec_texture_kind();
            let list = atlas.textures.list(kind);
            key is DynamicTexture ==> (atlas.can_insert(key, size) <==> {
                ||| !(1 <= size.width.0 <= 16384 && 1 <= size.height.0 <= 16384)
                ||| !(kind is Subpixel) && (list.free_list.len() > 0 || list.textures.len()
                    < 0x1_0000_0000)
            })
        }),
{
    let kind = home(key.spec_texture_kind(), size);
    let list = atlas.textures.list(kind);
    assert(list.can_count() <==> (forall|i: int|
        0 <= i < list.textures.len() ==> (#[trigger] list.textures[i] matches Some(texture)
            ==> texture.count_rounds < 15)));
}

} // verus!
