//! Which updates are accepted, how they wait, and how they reach the GPU.
use crate::error::AtlasError;
use crate::geometry::Bounds;
use crate::gpu::{Command, Upload};
use crate::laws::removal::to_others;
use crate::laws::tiles_lie_in_their_textures;
use crate::laws::values::{
    brings, kinds_have_formats, parts_move_with_their_tile, pixel_bytes,
    uploads_carry_the_given_bytes,
};
use crate::model::Textures;
use crate::operation::Operation;
use crate::state::Atlas;
use crate::texture_list::pixel_format_of;
use crate::tile::{AtlasKey, AtlasTile};
use crate::upload::{bounds_in_texture, total_bytes, upload_answer};
use vstd::prelude::*;

verus! {

/// The bounds lie inside a tile: they begin in it, have at least one pixel, and do not reach
/// beyond its right and lower edges.
pub open spec fn is_part_of(bounds: Bounds, tile: AtlasTile) -> bool {
    &&& bounds.origin.x.0 >= 0
    &&& bounds.origin.y.0 >= 0
    &&& bounds.size.width.0 > 0
    &&& bounds.size.height.0 > 0
    &&& bounds.origin.x.0 + bounds.size.width.0 <= tile.bounds.size.width.0
    &&& bounds.origin.y.0 + bounds.size.height.0 <= tile.bounds.size.height.0
}

/// The bounds are those of all of a tile.
pub open spec fn is_all_of(bounds: Bounds, tile: AtlasTile) -> bool {
    &&& bounds.origin.x.0 == 0
    &&& bounds.origin.y.0 == 0
    &&& bounds.size.width == tile.bounds.size.width
    &&& bounds.size.height == tile.bounds.size.height
}

/// Nothing but the queue and the commands differs.
pub open spec fn textures_stay(a: Textures, b: Textures) -> bool {
    &&& a.is_apple_gpu == b.is_apple_gpu
    &&& a.monochrome == b.monochrome
    &&& a.polychrome == b.polychrome
    &&& a.image == b.image
    &&& a.image_small == b.image_small
}

/// Pixels are accepted for any part of any tile if and only if there are exactly as many bytes as
/// the part has, and that number can be represented.
pub proof fn pixels_are_accepted_exactly(
    tile: AtlasTile,
    bounds: Bounds,
    len: nat,
    bytes_per_pixel: u8,
)
    requires
        len <= usize::MAX,
    ensures
        upload_answer(tile, bounds, len, bytes_per_pixel) is Ok <==> {
            &&& is_part_of(bounds, tile)
            &&& bounds.size.width.0 * bounds.size.height.0 <= usize::MAX
            &&& len == bounds.size.width.0 * bounds.size.height.0 * bytes_per_pixel
        },
{
}

/// Each reason to turn pixels down is given if and only if it holds and none before it does.
pub proof fn refusals_give_their_reason(
    tile: AtlasTile,
    bounds: Bounds,
    len: nat,
    bytes_per_pixel: u8,
)
    requires
        len <= usize::MAX,
    ensures
        ({
            let answer = upload_answer(tile, bounds, len, bytes_per_pixel);
            let x = bounds.origin.x.0;
            let y = bounds.origin.y.0;
            let width = bounds.size.width.0;
            let height = bounds.size.height.0;
            let begins = x >= 0 && y >= 0;
            let covers = begins && width > 0 && height > 0;
            let representable = covers && x + width <= i32::MAX && y + height <= i32::MAX;
            let counted = width * height <= usize::MAX && width * height * bytes_per_pixel
                <= usize::MAX;
            &&& answer == Err::<(), AtlasError>(AtlasError::NegativeOrigin) <==> !begins
            &&& answer == Err::<(), AtlasError>(AtlasError::NonPositiveSize) <==> begins
                && !covers
            &&& answer == Err::<(), AtlasError>(AtlasError::HorizontalBoundsOverflow) <==> covers
                && x + width > i32::MAX
            &&& answer == Err::<(), AtlasError>(AtlasError::VerticalBoundsOverflow) <==> covers
                && x + width <= i32::MAX && y + height > i32::MAX
            &&& answer == Err::<(), AtlasError>(AtlasError::ExceedsTile) <==> representable
                && !is_part_of(bounds, tile)
            &&& answer == Err::<(), AtlasError>(AtlasError::ByteSizeOverflow) <==> is_part_of(
                bounds,
                tile,
            ) && !counted
            &&& answer matches Err(AtlasError::ByteCount { actual, expected }) ==> actual == len
                && expected == width * height * bytes_per_pixel
            &&& (answer is Err && answer->Err_0 is ByteCount) <==> is_part_of(bounds, tile)
                && counted && len != width * height * bytes_per_pixel
        }),
{
}

/// The bytes of a part of a tile of an atlas can be counted.
proof fn lemma_countable(width: int, height: int, bytes: int)
    requires
        0 < width <= 16384,
        0 < height <= 16384,
        bytes == 1 || bytes == 4,
    ensures
        0 < width * height <= 0x1000_0000,
        0 < width * height * bytes <= 0x4000_0000,
        width * bytes <= 0x1_0000,
{
    assert(0 < width * height <= 16384 * 16384) by (nonlinear_arith)
        requires
            0 < width <= 16384,
            0 < height <= 16384,
    ;
}

/// An update of a key's tile is accepted if and only if it is for a part of the tile and brings
/// exactly the bytes of that part. All of a tile can always be updated. A refused update, and one
/// for a key without a tile, changes nothing.
pub proof fn updates_are_accepted_exactly(
    atlas: Atlas,
    key: AtlasKey,
    bounds: Bounds,
    bytes: Seq<u8>,
)
    requires
        atlas.wf(),
        bytes.len() <= usize::MAX,
    ensures
        ({
            let (next, answer) = atlas.update(key, bounds, bytes);
            let tile = atlas.tiles[key];
            let expected = bounds.size.width.0 * bounds.size.height.0 * pixel_bytes(
                tile.texture_id.kind,
            );
            &&& !atlas.tiles.contains_key(key) ==> answer is Ok && next == atlas
            &&& atlas.tiles.contains_key(key) ==> (answer is Ok <==> is_part_of(bounds, tile)
                && bytes.len() == expected)
            &&& atlas.tiles.contains_key(key) && is_all_of(bounds, tile) && bytes.len() == expected
                ==> answer is Ok
            &&& answer is Err ==> next == atlas
        }),
{
    if atlas.tiles.contains_key(key) {
        let tile = atlas.tiles[key];
        let kind = tile.texture_id.kind;
        tiles_lie_in_their_textures(atlas, key);
        kinds_have_formats(kind, 0, 0, true);
        pixels_are_accepted_exactly(
            tile,
            bounds,
            bytes.len(),
            pixel_format_of(kind).spec_bytes_per_pixel(),
        );
        if is_part_of(bounds, tile) {
            lemma_countable(
                bounds.size.width.0 as int,
                bounds.size.height.0 as int,
                pixel_bytes(kind),
            );
        }
    }
}

/// An accepted update waits as the last of all, with exactly the bytes that were handed in and
/// for the pixels of the tile that they were handed in for. What waited before still does, but
/// for what waited for the same texture where all of the tile is updated. Where more than 64 MiB
/// would wait, the GPU is told to copy all of it, in the same order, and nothing waits. Nothing
/// else changes.
pub proof fn accepted_updates_wait_or_are_committed(
    atlas: Atlas,
    key: AtlasKey,
    bounds: Bounds,
    bytes: Seq<u8>,
)
    requires
        atlas.wf(),
        bytes.len() <= usize::MAX,
        atlas.tiles.contains_key(key),
        is_part_of(bounds, atlas.tiles[key]),
        bytes.len() == bounds.size.width.0 * bounds.size.height.0 * pixel_bytes(
            atlas.tiles[key].texture_id.kind,
        ),
    ensures
        ({
            let next = atlas.update(key, bounds, bytes).0;
            let tile = atlas.tiles[key];
            let kept = if is_all_of(bounds, tile) {
                to_others(atlas.textures.pending, tile.texture_id)
            } else {
                atlas.textures.pending
            };
            let waits = next.textures.commands.len() == atlas.textures.commands.len();
            let uploads = if waits {
                next.textures.pending
            } else {
                next.textures.commands.last()->uploads
            };
            &&& next.tiles == atlas.tiles
            &&& textures_stay(atlas.textures, next.textures)
            &&& uploads.len() == kept.len() + 1
            &&& uploads.take(kept.len() as int) == kept
            &&& brings(
                uploads[kept.len() as int],
                tile.texture_id,
                tile.bounds.origin.x.0 + bounds.origin.x.0,
                tile.bounds.origin.y.0 + bounds.origin.y.0,
                bounds.size,
                bytes,
            )
            &&& waits <==> total_bytes(kept) + bytes.len() <= 67108864
            &&& if waits {
                next.textures.commands == atlas.textures.commands
            } else {
                &&& next.textures.commands == atlas.textures.commands.push(
                    Command::CommitUploads { uploads },
                )
                &&& next.textures.pending.len() == 0
            }
        }),
{
    let tile = atlas.tiles[key];
    let kind = tile.texture_id.kind;
    let bytes_per_pixel = pixel_format_of(kind).spec_bytes_per_pixel();
    let place = bounds_in_texture(tile, bounds);
    let next = atlas.update(key, bounds, bytes).0;
    let kept = if is_all_of(bounds, tile) {
        to_others(atlas.textures.pending, tile.texture_id)
    } else {
        atlas.textures.pending
    };
    tiles_lie_in_their_textures(atlas, key);
    assert(atlas.textures.holds(tile));
    atlas.textures.lemma_holds(tile);
    kinds_have_formats(kind, 0, 0, true);
    updates_are_accepted_exactly(atlas, key, bounds, bytes);
    lemma_countable(bounds.size.width.0 as int, bounds.size.height.0 as int, pixel_bytes(kind));
    parts_move_with_their_tile(tile, bounds);
    uploads_carry_the_given_bytes(tile.texture_id, place, bytes, bytes_per_pixel);
    let upload = Upload::of(tile.texture_id, place, bytes, bytes_per_pixel);
    assert(upload.fits(atlas.textures.texture(tile.texture_id)->0.metal_texture));
    uploads_queue_up(atlas.textures, tile, place, bytes, bytes_per_pixel);
    assert(place == tile.bounds <==> is_all_of(bounds, tile));
    assert(kept.push(upload).take(kept.len() as int) =~= kept);
    let waiting = Textures { pending: kept.push(upload), ..atlas.textures };
    atlas.textures.lemma_enqueue(tile, place, bytes, bytes_per_pixel);
    assert(waiting.pending == atlas.textures.queued(tile, place, bytes, bytes_per_pixel));
    waiting.lemma_encodable();
}

/// An upload waits behind the others, or all of them are committed where more than 64 MiB would
/// wait. One for all of its tile takes the place of what waited for the same texture. Of what is
/// committed, uploads for textures that are gone are left out.
pub proof fn uploads_queue_up(
    textures: Textures,
    tile: AtlasTile,
    bounds: Bounds,
    bytes: Seq<u8>,
    bytes_per_pixel: u8,
)
    ensures
        ({
            let next = textures.enqueue(tile, bounds, bytes, bytes_per_pixel);
            let upload = Upload::of(tile.texture_id, bounds, bytes, bytes_per_pixel);
            let kept = if bounds.origin == tile.bounds.origin && bounds.size == tile.bounds.size {
                to_others(textures.pending, tile.texture_id)
            } else {
                textures.pending
            };
            let queued = kept.push(upload);
            &&& textures_stay(textures, next)
            &&& upload.data == bytes
            &&& upload.texture_id == tile.texture_id
            &&& if total_bytes(kept) + bytes.len() <= 67108864 {
                &&& next.pending == queued
                &&& next.commands == textures.commands
            } else {
                &&& next.pending.len() == 0
                &&& next.commands == textures.commands.push(
                    Command::CommitUploads {
                        uploads: queued.filter(
                            |upload: Upload| textures.texture(upload.texture_id) is Some,
                        ),
                    },
                )
            }
        }),
{
    let upload = Upload::of(tile.texture_id, bounds, bytes, bytes_per_pixel);
    let kept = if bounds.origin == tile.bounds.origin && bounds.size == tile.bounds.size {
        to_others(textures.pending, tile.texture_id)
    } else {
        textures.pending
    };
    assert(kept.push(upload).drop_last() =~= kept);
    let next = Textures { pending: kept.push(upload), ..textures };
    assert(next.pending == textures.queued(tile, bounds, bytes, bytes_per_pixel));
    assert((|upload: Upload| next.texture(upload.texture_id) is Some) =~= (|upload: Upload|
        textures.texture(upload.texture_id) is Some));
}

/// A commit tells the GPU to copy everything that waited, and in the order in which it came.
/// Nothing waits any more, and nothing else changes. Where nothing waited, the GPU is told
/// nothing.
pub proof fn commits_leave_nothing_out<E>(atlas: Atlas)
    requires
        atlas.wf(),
    ensures
        ({
            let next = Operation::<E>::CommitUploads.after(atlas);
            let count = atlas.textures.commands.len() as int;
            &&& next.tiles == atlas.tiles
            &&& textures_stay(atlas.textures, next.textures)
            &&& next.textures.pending.len() == 0
            &&& if atlas.textures.pending.len() == 0 {
                next.textures.commands == atlas.textures.commands
            } else {
                &&& next.textures.commands.len() == count + 1
                &&& next.textures.commands.take(count) == atlas.textures.commands
                &&& next.textures.commands[count] == (Command::CommitUploads {
                    uploads: atlas.textures.pending,
                })
            }
        }),
{
    let next = Operation::<E>::CommitUploads.after(atlas);
    atlas.textures.lemma_encodable();
    assert(atlas.textures.pending.len() > 0 ==> next.textures.commands.take(
        atlas.textures.commands.len() as int,
    ) =~= atlas.textures.commands);
}

/// Handing the uploads over empties the queue and changes nothing else. Handing the commands over
/// empties their list and changes nothing else.
pub proof fn handing_over_changes_nothing_else<E>(atlas: Atlas)
    ensures
        ({
            let next = Operation::<E>::EncodeUploads.after(atlas);
            &&& next.tiles == atlas.tiles
            &&& textures_stay(atlas.textures, next.textures)
            &&& next.textures.pending.len() == 0
            &&& next.textures.commands == atlas.textures.commands
        }),
        ({
            let next = Operation::<E>::TakeCommands.after(atlas);
            &&& next.tiles == atlas.tiles
            &&& textures_stay(atlas.textures, next.textures)
            &&& next.textures.pending == atlas.textures.pending
            &&& next.textures.commands.len() == 0
        }),
{
}

/// Of the uploads that wait, those whose texture exists are copied, in their order, and those
/// whose texture is gone are not. Committing them empties the queue and tells the GPU so once.
pub proof fn uploads_of_lost_textures_are_skipped(textures: Textures)
    ensures
        ({
            let copied = textures.pending.filter(
                |upload: Upload| textures.texture(upload.texture_id) is Some,
            );
            let next = textures.flushed();
            &&& textures.encodable() == copied
            &&& textures_stay(textures, next)
            &&& next.pending.len() == 0
            &&& next.commands == textures.commands.push(
                Command::CommitUploads { uploads: copied },
            )
            &&& textures_stay(textures, textures.drained())
            &&& textures.drained().pending.len() == 0
            &&& textures.drained().commands == textures.commands
        }),
{
}

} // verus!
