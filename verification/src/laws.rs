//! What holds of the atlas as a whole.
use crate::geometry::{Bounds, DevicePixels, Point, Size};
use crate::gpu::{Command, Upload};
use crate::model::{page_kind, page_size, square, Textures, SMALL_IMAGE_TILE_MAX};
use crate::operation::{is_run, Operation};
use crate::state::{Atlas, InsertError};
use crate::texture_list::{pixel_format_of, MAX_ATLAS_SIDE};
use crate::tile::{AtlasKey, AtlasTextureId, AtlasTextureKind, AtlasTile};
use crate::upload::{bounds_in_texture, lemma_uploads_except, total_bytes, uploads_except};
use vstd::prelude::*;

pub mod insertion;
pub mod removal;
pub mod updates;
pub mod values;

verus! {

/// Another key than `key` has a tile in the texture that `id` names.
pub open spec fn is_shared(atlas: Atlas, key: AtlasKey, id: AtlasTextureId) -> bool {
    exists|other: AtlasKey|
        other != key && #[trigger] atlas.tiles.contains_key(other)
            && atlas.tiles[other].texture_id == id
}

/// The tile of every key lies in a texture that exists, within its sides, which are no longer
/// than a GPU allows.
pub proof fn tiles_lie_in_their_textures(atlas: Atlas, key: AtlasKey)
    requires
        atlas.wf(),
        atlas.tiles.contains_key(key),
    ensures
        ({
            let tile = atlas.tiles[key];
            &&& atlas.textures.texture(tile.texture_id) matches Some(texture)
            &&& texture.metal_texture.width <= MAX_ATLAS_SIDE
            &&& texture.metal_texture.height <= MAX_ATLAS_SIDE
            &&& tile.bounds.area().fits(
                texture.metal_texture.width as int,
                texture.metal_texture.height as int,
            )
        }),
{
    assert(atlas.textures.holds(atlas.tiles[key]));
    atlas.textures.lemma_holds(atlas.tiles[key]);
}

/// The tiles of two keys have no pixel of a texture in common.
pub proof fn tiles_do_not_overlap(atlas: Atlas, a: AtlasKey, b: AtlasKey)
    requires
        atlas.wf(),
        atlas.tiles.contains_key(a),
        atlas.tiles.contains_key(b),
        a != b,
        atlas.tiles[a].texture_id == atlas.tiles[b].texture_id,
    ensures
        atlas.tiles[a].bounds.area().is_disjoint(atlas.tiles[b].bounds.area()),
{
    assert(atlas.textures.holds(atlas.tiles[a]));
    assert(atlas.textures.holds(atlas.tiles[b]));
    atlas.textures.lemma_holds(atlas.tiles[a]);
    let texture = atlas.textures.texture(atlas.tiles[a].texture_id)->0;
    assert(texture.live()[atlas.tiles[a].tile_id.0].is_disjoint(
        texture.live()[atlas.tiles[b].tile_id.0],
    ));
}

/// A dynamic texture has its GPU texture to itself.
pub proof fn dynamic_textures_are_alone(atlas: Atlas, key: AtlasKey, other: AtlasKey)
    requires
        atlas.wf(),
        atlas.tiles.contains_key(key),
        key is DynamicTexture,
        atlas.tiles.contains_key(other),
        other != key,
    ensures
        atlas.tiles[other].texture_id != atlas.tiles[key].texture_id,
{
    if atlas.tiles[other].texture_id == atlas.tiles[key].texture_id {
        assert(atlas.is_placed(key));
        tiles_lie_in_their_textures(atlas, other);
        tiles_do_not_overlap(atlas, key, other);
        let area = atlas.tiles[other].bounds.area();
        assert(area.covers(area.x, area.y));
        assert(atlas.tiles[key].bounds.area().covers(area.x, area.y));
    }
}

/// Small images and large ones have different textures, so that neither keeps a texture of the
/// other's alive.
pub proof fn small_images_are_kept_apart(atlas: Atlas, small: AtlasKey, large: AtlasKey)
    requires
        atlas.wf(),
        atlas.tiles.contains_key(small),
        atlas.tiles.contains_key(large),
        small is Image,
        large is Image,
        atlas.tiles[small].bounds.size.is_within(square(SMALL_IMAGE_TILE_MAX)),
        !atlas.tiles[large].bounds.size.is_within(square(SMALL_IMAGE_TILE_MAX)),
    ensures
        atlas.tiles[small].texture_id.kind == AtlasTextureKind::ImageSmall,
        atlas.tiles[large].texture_id.kind == AtlasTextureKind::Image,
        atlas.tiles[small].texture_id != atlas.tiles[large].texture_id,
{
    assert(atlas.is_placed(small) && atlas.is_placed(large));
    tiles_lie_in_their_textures(atlas, large);
}

/// A key that was given a tile has that tile, and all other keys have theirs still.
pub proof fn insertion_is_remembered<E>(
    atlas: Atlas,
    key: AtlasKey,
    built: Result<Option<(Size, Vec<u8>)>, E>,
    other: AtlasKey,
)
    ensures
        ({
            let (next, answer) = atlas.insertion(key, built);
            &&& answer matches Ok(Some(tile)) ==> next.tiles.contains_key(key) && next.tiles[key]
                == tile
            &&& !(answer matches Ok(Some(_))) ==> next.tiles == atlas.tiles
            &&& other != key ==> (next.tiles.contains_key(other) <==> atlas.tiles.contains_key(
                other,
            ))
            &&& other != key && atlas.tiles.contains_key(other) ==> next.tiles[other]
                == atlas.tiles[other]
        }),
{
}

/// A key whose tile was taken away has none, and all other keys have theirs still.
pub proof fn removal_is_remembered(atlas: Atlas, key: AtlasKey, other: AtlasKey)
    ensures
        !atlas.removal(key).tiles.contains_key(key),
        other != key ==> (atlas.removal(key).tiles.contains_key(other)
            <==> atlas.tiles.contains_key(other)),
        other != key && atlas.tiles.contains_key(other) ==> atlas.removal(key).tiles[other]
            == atlas.tiles[other],
{
}

/// Taking away the tile of a key that has none changes nothing; so does doing it twice.
pub proof fn removal_of_nothing_is_a_noop(atlas: Atlas, key: AtlasKey)
    ensures
        !atlas.tiles.contains_key(key) ==> atlas.removal(key) == atlas,
        atlas.removal(key).removal(key) == atlas.removal(key),
{
}

/// Taking away a key that was just given a tile leaves the keys as they were.
pub proof fn removal_undoes_insertion<E>(
    atlas: Atlas,
    key: AtlasKey,
    built: Result<Option<(Size, Vec<u8>)>, E>,
)
    requires
        !atlas.tiles.contains_key(key),
    ensures
        atlas.insertion(key, built).0.removal(key).tiles == atlas.tiles,
{
    assert(atlas.insertion(key, built).0.removal(key).tiles =~= atlas.tiles);
}

/// A texture stays while a key has a tile in it, and goes with the last of them.
pub proof fn textures_go_with_their_last_tile(atlas: Atlas, key: AtlasKey)
    requires
        atlas.wf(),
        atlas.tiles.contains_key(key),
    ensures
        ({
            let id = atlas.tiles[key].texture_id;
            let next = atlas.removal(key).textures;
            &&& next.texture(id) is Some <==> is_shared(atlas, key, id)
            &&& next.texture(id) matches Some(texture) ==> texture.metal_texture
                == atlas.textures.texture(id)->0.metal_texture
        }),
{
    let tile = atlas.tiles[key];
    let id = tile.texture_id;
    assert(atlas.textures.holds(tile));
    atlas.textures.lemma_release(tile);
    let texture = atlas.textures.texture(id)->0;
    let next = texture.without_tile(tile.tile_id);
    if is_shared(atlas, key, id) {
        let other = choose|other: AtlasKey|
            other != key && #[trigger] atlas.tiles.contains_key(other)
                && atlas.tiles[other].texture_id == id;
        assert(atlas.textures.holds(atlas.tiles[other]));
        assert(atlas.tiles[other].tile_id != atlas.tiles[key].tile_id);
        assert(next.live().dom().contains(atlas.tiles[other].tile_id.0));
        assert(next.live().len() > 0);
    } else if next.live_atlas_keys != 0 {
        assert(next.live().dom().len() > 0);
        let number = next.live().dom().choose();
        assert(next.live().dom().contains(number));
        assert(texture.live().contains_key(number));
        assert(atlas.textures.is_live(id, number));
        let other = choose|other: AtlasKey| #[trigger] atlas.owns(other, id, number);
        assert(atlas.tiles.contains_key(other));
    }
}

/// The number of a texture that goes is the number of the next texture of its kind.
pub proof fn texture_numbers_are_given_again(atlas: Atlas, key: AtlasKey, size: Size)
    requires
        atlas.wf(),
        atlas.tiles.contains_key(key),
        !is_shared(atlas, key, atlas.tiles[key].texture_id),
    ensures
        atlas.removal(key).textures.new_texture(size, atlas.tiles[key].texture_id.kind).id
            == atlas.tiles[key].texture_id,
{
    let tile = atlas.tiles[key];
    assert(atlas.textures.holds(tile));
    atlas.textures.lemma_holds(tile);
    atlas.textures.lemma_release(tile);
    textures_go_with_their_last_tile(atlas, key);
    let next = atlas.removal(key).textures;
    assert(next == atlas.textures.without_texture(tile.texture_id));
    assert(next.list(tile.texture_id.kind).free_list.last() == tile.texture_id.index as usize);
}

/// Every operation but a refused request for a tile leaves every texture with a tile in it, if
/// that was so before.
pub proof fn no_texture_becomes_idle<E>(atlas: Atlas, operation: Operation<E>)
    requires
        atlas.wf(),
        atlas.has_no_idle_texture(),
        operation.is_admitted(atlas),
        !operation.is_refused(atlas),
    ensures
        operation.after(atlas).has_no_idle_texture(),
{
    let next = operation.after(atlas);
    assert forall|id: AtlasTextureId| #[trigger] next.textures.texture(id) is Some implies
        next.has_tile_in(id) by {
        match operation {
            Operation::Get { key, built } => {
                let answer = atlas.lookup(key, built).1;
                if !atlas.tiles.contains_key(key) && answer matches Ok(Some(tile)) {
                    only_the_texture_of_a_new_tile_changes(atlas, key, built);
                    assert(next.tiles.contains_key(key));
                    if id != next.tiles[key].texture_id {
                        assert(atlas.textures.texture(id) is Some);
                        lemma_has_tile_in(atlas, next, key, id);
                    }
                } else {
                    assert(next == atlas);
                }
            },
            Operation::Remove { key } => {
                if atlas.tiles.contains_key(key) {
                    textures_go_with_their_last_tile(atlas, key);
                    assert(atlas.textures.holds(atlas.tiles[key]));
                    atlas.textures.lemma_release(atlas.tiles[key]);
                    if id == atlas.tiles[key].texture_id {
                        let other = choose|other: AtlasKey|
                            other != key && #[trigger] atlas.tiles.contains_key(other)
                                && atlas.tiles[other].texture_id == id;
                        assert(next.tiles.contains_key(other));
                    } else {
                        lemma_has_tile_in(atlas, next, key, id);
                    }
                }
            },
            _ => {
                assert(next.textures.texture(id) == atlas.textures.texture(id));
                assert(next.tiles == atlas.tiles);
                assert(atlas.has_tile_in(id));
            },
        }
    }
}

/// A tile in another texture than that of a changed key stays.
proof fn lemma_has_tile_in(atlas: Atlas, next: Atlas, key: AtlasKey, id: AtlasTextureId)
    requires
        atlas.has_tile_in(id),
        atlas.tiles.contains_key(key) ==> atlas.tiles[key].texture_id != id,
        forall|other: AtlasKey|
            other != key && #[trigger] atlas.tiles.contains_key(other) ==> next.tiles.contains_key(
                other,
            ) && next.tiles[other] == atlas.tiles[other],
    ensures
        next.has_tile_in(id),
{
    let other = choose|other: AtlasKey| #[trigger]
        atlas.tiles.contains_key(other) && atlas.tiles[other].texture_id == id;
    assert(next.tiles.contains_key(other));
}

/// A key that gets a tile changes the texture that the tile is in, or has it made, and no other.
pub proof fn only_the_texture_of_a_new_tile_changes<E>(
    atlas: Atlas,
    key: AtlasKey,
    built: Result<Option<(Size, Vec<u8>)>, E>,
)
    requires
        atlas.wf(),
        !atlas.tiles.contains_key(key),
        built matches Ok(Some((size, _))) ==> atlas.can_insert(key, size),
    ensures
        ({
            let (next, answer) = atlas.insertion(key, built);
            match answer {
                Ok(Some(tile)) => atlas.textures.changes(next.textures, tile.texture_id),
                _ => atlas.textures.keeps(next.textures),
            }
        }),
{
    if let Ok(Some((size, _))) = built {
        let kind = key.spec_texture_kind();
        if key is DynamicTexture {
            if size.is_within(square(MAX_ATLAS_SIDE)) {
                atlas.textures.lemma_place_in_new(size, kind, size);
            }
        } else {
            atlas.textures.lemma_allocation(size, kind);
            let next = atlas.textures.allocation(size, kind).0;
            next.lemma_same_textures(atlas.insertion(key, built).0.textures);
        }
    }
}

/// A texture that a tile is in exists, and every texture that exists goes by its own number.
pub proof fn tiles_have_textures(atlas: Atlas, id: AtlasTextureId)
    requires
        atlas.wf(),
    ensures
        atlas.has_tile_in(id) ==> atlas.textures.texture(id) is Some,
        atlas.textures.texture(id) matches Some(texture) ==> texture.id == id,
{
    if atlas.has_tile_in(id) {
        let key = choose|key: AtlasKey| #[trigger]
            atlas.tiles.contains_key(key) && atlas.tiles[key].texture_id == id;
        tiles_lie_in_their_textures(atlas, key);
    }
    assert(atlas.textures.list(id.kind).wf(id.kind, atlas.textures.is_apple_gpu));
    if let Some(texture) = atlas.textures.texture(id) {
        assert(atlas.textures.list(id.kind).textures[id.index as int] == Some(texture));
    }
}

/// As long as no request for a tile is refused, a texture exists exactly while some key has a
/// tile in it. The first state may be that of a new atlas.
pub proof fn textures_exist_while_they_have_tiles<E>(
    states: Seq<Atlas>,
    operations: Seq<Operation<E>>,
    id: AtlasTextureId,
)
    requires
        is_run(states, operations),
        states[0].has_no_idle_texture(),
        forall|i: int|
            0 <= i < operations.len() ==> !(#[trigger] operations[i]).is_refused(states[i]),
    ensures
        states.last().has_no_idle_texture(),
        states.last().textures.texture(id) is Some <==> states.last().has_tile_in(id),
        states.last().textures.texture(id) matches Some(texture) ==> texture.id == id,
    decreases operations.len(),
{
    let last = states.last();
    if operations.len() > 0 {
        let count = operations.len() - 1;
        lemma_shorter_run(states, operations);
        assert forall|i: int| 0 <= i < count implies !(
        #[trigger] operations.drop_last()[i]).is_refused(states.drop_last()[i]) by {
            assert(!operations[i].is_refused(states[i]));
        }
        textures_exist_while_they_have_tiles(states.drop_last(), operations.drop_last(), id);
        assert(states[count].wf() && !operations[count].is_refused(states[count]));
        no_texture_becomes_idle(states[count], operations[count]);
    }
    assert(last.wf());
    tiles_have_textures(last, id);
}

/// A texture that an operation leaves is the one that was made for its number.
pub proof fn textures_stay_as_they_were_made<E>(
    atlas: Atlas,
    operation: Operation<E>,
    id: AtlasTextureId,
)
    requires
        atlas.wf(),
        operation.is_admitted(atlas),
    ensures
        atlas.textures.texture(id) matches Some(before) ==> (
        operation.after(atlas).textures.texture(id) matches Some(texture)
            ==> texture.metal_texture == before.metal_texture),
{
    match operation {
        Operation::Get { key, built } => {
            if !atlas.tiles.contains_key(key) {
                only_the_texture_of_a_new_tile_changes(atlas, key, built);
            }
        },
        Operation::Remove { key } => {
            if atlas.tiles.contains_key(key) {
                assert(atlas.textures.holds(atlas.tiles[key]));
                atlas.textures.lemma_release(atlas.tiles[key]);
            }
        },
        _ => {},
    }
}

/// Whatever else is done, a key keeps its tile until it is taken away: asked for again, it gets
/// the same tile, whatever its renderer would give, and the atlas stays as it is.
pub proof fn tiles_are_kept_until_removed<E>(
    states: Seq<Atlas>,
    operations: Seq<Operation<E>>,
    key: AtlasKey,
    built: Result<Option<(Size, Vec<u8>)>, E>,
)
    requires
        is_run(states, operations),
        states[0].tiles.contains_key(key),
        forall|i: int|
            0 <= i < operations.len() ==> #[trigger] operations[i] != (Operation::<E>::Remove {
                key,
            }),
    ensures
        states.last().tiles.contains_key(key),
        states.last().tiles[key] == states[0].tiles[key],
        states.last().lookup(key, built) == (
            states.last(),
            Ok::<Option<AtlasTile>, InsertError<E>>(Some(states[0].tiles[key])),
        ),
    decreases operations.len(),
{
    if operations.len() > 0 {
        let count = operations.len() - 1;
        lemma_shorter_run(states, operations);
        assert forall|i: int| 0 <= i < count implies #[trigger] operations.drop_last()[i] != (
        Operation::<E>::Remove { key }) by {
            assert(operations[i] != (Operation::<E>::Remove { key }));
        }
        tiles_are_kept_until_removed(states.drop_last(), operations.drop_last(), key, built);
        assert(operations[count] != (Operation::<E>::Remove { key }));
        assert(states[count].tiles.contains_key(key));
    }
}

/// A key whose tile was taken away has none, whatever else is done, until it is asked for: its
/// renderer is then called again, and what it gives decides.
pub proof fn removed_keys_are_built_again<E>(
    states: Seq<Atlas>,
    operations: Seq<Operation<E>>,
    key: AtlasKey,
    built: Result<Option<(Size, Vec<u8>)>, E>,
)
    requires
        is_run(states, operations),
        operations.len() > 0,
        operations[0] == (Operation::<E>::Remove { key }),
        forall|i: int|
            0 <= i < operations.len() ==> (#[trigger] operations[i] matches Operation::Get {
                key: asked,
                ..
            } ==> asked != key),
    ensures
        !states.last().tiles.contains_key(key),
        states.last().lookup(key, built) == states.last().insertion(key, built),
    decreases operations.len(),
{
    let count = operations.len() - 1;
    assert(operations[count].is_admitted(states[count]));
    if count > 0 {
        lemma_shorter_run(states, operations);
        assert forall|i: int| 0 <= i < count implies (
        #[trigger] operations.drop_last()[i] matches Operation::Get { key: asked, .. }
            ==> asked != key) by {
            assert(operations[i] matches Operation::Get { key: asked, .. } ==> asked != key);
        }
        removed_keys_are_built_again(states.drop_last(), operations.drop_last(), key, built);
        assert(!states[count].tiles.contains_key(key));
    }
}

/// Without its last operation, a run is one.
proof fn lemma_shorter_run<E>(states: Seq<Atlas>, operations: Seq<Operation<E>>)
    requires
        is_run(states, operations),
        operations.len() > 0,
    ensures
        is_run(states.drop_last(), operations.drop_last()),
        states.drop_last().last() == states[operations.len() - 1],
        operations.last().is_admitted(states[operations.len() - 1]),
        states.last() == operations.last().after(states[operations.len() - 1]),
{
    let count = operations.len() - 1;
    assert forall|i: int| 0 <= i < count implies {
        &&& (#[trigger] operations.drop_last()[i]).is_admitted(states.drop_last()[i])
        &&& states.drop_last()[i + 1] == operations.drop_last()[i].after(states.drop_last()[i])
    } by {
        assert(operations[i].is_admitted(states[i]));
    }
    assert(operations[count].is_admitted(states[count]));
}

/// What a key leaves behind is used again: where it had a texture to itself, and no other texture
/// of the kind has room, the next tile of the kind goes to a texture in its place.
pub proof fn removed_space_is_used_again<E>(
    atlas: Atlas,
    key: AtlasKey,
    next: AtlasKey,
    size: Size,
    bytes: Vec<u8>,
)
    requires
        atlas.wf(),
        atlas.tiles.contains_key(key),
        !is_shared(atlas, key, atlas.tiles[key].texture_id),
        if next is DynamicTexture {
            next.spec_texture_kind() == atlas.tiles[key].texture_id.kind
        } else {
            let kind = page_kind(next.spec_texture_kind(), size);
            &&& kind == atlas.tiles[key].texture_id.kind
            &&& atlas.removal(key).textures.list(kind).tile_for(size) is None
        },
    ensures
        atlas.removal(key).insertion::<E>(next, Ok(Some((size, bytes)))).1 matches Ok(Some(tile))
            ==> tile.texture_id == atlas.tiles[key].texture_id,
{
    texture_numbers_are_given_again(atlas, key, size);
    texture_numbers_are_given_again(
        atlas,
        key,
        page_size(size, page_kind(next.spec_texture_kind(), size)),
    );
}

/// The uploads that wait take at most 64 MiB, and each of them has exactly the bytes of a
/// rectangle of a texture that exists.
pub proof fn uploads_fit_their_textures(atlas: Atlas, index: int)
    requires
        atlas.wf(),
        0 <= index < atlas.textures.pending.len(),
    ensures
        total_bytes(atlas.textures.pending) <= 64 * 1024 * 1024,
        atlas.textures.texture(atlas.textures.pending[index].texture_id) matches Some(texture)
            && atlas.textures.pending[index].fits(texture.metal_texture),
{
    assert(atlas.textures.accepts(atlas.textures.pending[index]));
}

/// An update that is accepted overwrites pixels of its key's tile only, and so no pixel of any
/// other key's.
pub proof fn updates_stay_in_their_tile(
    atlas: Atlas,
    key: AtlasKey,
    bounds: Bounds,
    bytes: Seq<u8>,
    other: AtlasKey,
)
    requires
        atlas.wf(),
        atlas.tiles.contains_key(key),
        atlas.update(key, bounds, bytes).1 is Ok,
    ensures
        ({
            let tile = atlas.tiles[key];
            let upload = Upload::of(
                tile.texture_id,
                bounds_in_texture(tile, bounds),
                bytes,
                pixel_format_of(tile.texture_id.kind).spec_bytes_per_pixel(),
            );
            &&& upload.area().is_inside(tile.bounds.area())
            &&& upload.area().x == tile.bounds.area().x + bounds.area().x
            &&& upload.area().y == tile.bounds.area().y + bounds.area().y
            &&& other != key && atlas.tiles.contains_key(other) && atlas.tiles[other].texture_id
                == tile.texture_id ==> upload.area().is_disjoint(atlas.tiles[other].bounds.area())
        }),
{
    let tile = atlas.tiles[key];
    tiles_lie_in_their_textures(atlas, key);
    let upload = Upload::of(
        tile.texture_id,
        bounds_in_texture(tile, bounds),
        bytes,
        pixel_format_of(tile.texture_id.kind).spec_bytes_per_pixel(),
    );
    if other != key && atlas.tiles.contains_key(other) && atlas.tiles[other].texture_id
        == tile.texture_id {
        tiles_do_not_overlap(atlas, key, other);
        assert forall|x: int, y: int|
            !(#[trigger] upload.area().covers(x, y)
                && #[trigger] atlas.tiles[other].bounds.area().covers(x, y)) by {
            assert(upload.area().covers(x, y) ==> tile.bounds.area().covers(x, y));
        }
    }
}

/// An update that is accepted waits behind what waits already, or the GPU is told to carry it out
/// behind that. Of what waits already, an update of a part of a tile leaves nothing out. One of a
/// whole tile leaves out everything for the same texture: also what waits for other tiles of it,
/// which the update does not overwrite.
pub proof fn accepted_updates_are_queued(
    atlas: Atlas,
    key: AtlasKey,
    bounds: Bounds,
    bytes: Seq<u8>,
    index: int,
)
    requires
        atlas.wf(),
        atlas.tiles.contains_key(key),
        atlas.update(key, bounds, bytes).1 is Ok,
    ensures
        ({
            let tile = atlas.tiles[key];
            let place = bounds_in_texture(tile, bounds);
            let bytes_per_pixel = pixel_format_of(tile.texture_id.kind).spec_bytes_per_pixel();
            let queued = atlas.textures.queued(tile, place, bytes, bytes_per_pixel);
            let next = atlas.update(key, bounds, bytes).0.textures;
            &&& queued.last() == Upload::of(tile.texture_id, place, bytes, bytes_per_pixel)
            &&& queued.drop_last() == if place == tile.bounds {
                uploads_except(atlas.textures.pending, tile.texture_id)
            } else {
                atlas.textures.pending
            }
            &&& 0 <= index < atlas.textures.pending.len() ==> (queued.drop_last().contains(
                atlas.textures.pending[index],
            ) <==> place != tile.bounds || atlas.textures.pending[index].texture_id
                != tile.texture_id)
            &&& if total_bytes(queued) <= 64 * 1024 * 1024 {
                &&& next.pending == queued
                &&& next.commands == atlas.textures.commands
            } else {
                &&& next.pending == Seq::<Upload>::empty()
                &&& next.commands == atlas.textures.commands.push(
                    Command::CommitUploads { uploads: queued },
                )
            }
        }),
{
    let tile = atlas.tiles[key];
    let place = bounds_in_texture(tile, bounds);
    let bytes_per_pixel = pixel_format_of(tile.texture_id.kind).spec_bytes_per_pixel();
    let queued = atlas.textures.queued(tile, place, bytes, bytes_per_pixel);
    let waiting = Textures { pending: queued, ..atlas.textures };
    tiles_lie_in_their_textures(atlas, key);
    atlas.textures.lemma_holds(tile);
    atlas.textures.lemma_enqueue(tile, place, bytes, bytes_per_pixel);
    waiting.lemma_encodable();
    lemma_uploads_except(atlas.textures.pending, tile.texture_id);
    if 0 <= index < atlas.textures.pending.len() {
        assert(atlas.textures.pending.contains(atlas.textures.pending[index]));
    }
    assert(queued.drop_last() =~= if place == tile.bounds {
        uploads_except(atlas.textures.pending, tile.texture_id)
    } else {
        atlas.textures.pending
    });
}

/// An update of a whole tile loses what waits for another key with a tile in the same texture,
/// although it overwrites none of that: the other key's update, accepted before, neither waits
/// any more nor is the GPU told to carry it out. Dynamic textures are not concerned, since no
/// other key has a tile in theirs.
pub proof fn full_updates_lose_those_of_other_keys(
    atlas: Atlas,
    key: AtlasKey,
    bytes: Seq<u8>,
    other: AtlasKey,
    index: int,
)
    requires
        atlas.wf(),
        atlas.tiles.contains_key(key),
        atlas.tiles.contains_key(other),
        other != key,
        atlas.tiles[other].texture_id == atlas.tiles[key].texture_id,
        0 <= index < atlas.textures.pending.len(),
        atlas.textures.pending[index].texture_id == atlas.tiles[other].texture_id,
        atlas.textures.pending[index].area().is_inside(atlas.tiles[other].bounds.area()),
        atlas.update(key, whole(atlas.tiles[key]), bytes).1 is Ok,
    ensures
        ({
            let tile = atlas.tiles[key];
            let earlier = atlas.textures.pending[index];
            let next = atlas.update(key, whole(tile), bytes).0.textures;
            &&& earlier.area().is_disjoint(tile.bounds.area())
            &&& !next.pending.contains(earlier)
            &&& next.commands == atlas.textures.commands || {
                &&& next.commands.drop_last() == atlas.textures.commands
                &&& next.commands.last() matches Command::CommitUploads { uploads }
                &&& !uploads.contains(earlier)
            }
        }),
{
    let tile = atlas.tiles[key];
    let earlier = atlas.textures.pending[index];
    let bytes_per_pixel = pixel_format_of(tile.texture_id.kind).spec_bytes_per_pixel();
    let place = bounds_in_texture(tile, whole(tile));
    let queued = atlas.textures.queued(tile, place, bytes, bytes_per_pixel);
    let next = atlas.update(key, whole(tile), bytes).0.textures;
    accepted_updates_are_queued(atlas, key, whole(tile), bytes, index);
    tiles_do_not_overlap(atlas, key, other);
    tiles_lie_in_their_textures(atlas, key);
    assert(place == tile.bounds);
    assert(atlas.textures.accepts(earlier));
    assert forall|x: int, y: int|
        !(#[trigger] earlier.area().covers(x, y) && #[trigger] tile.bounds.area().covers(x, y)) by {
        assert(earlier.area().covers(x, y) ==> atlas.tiles[other].bounds.area().covers(x, y));
    }
    assert(earlier.area().covers(earlier.area().x, earlier.area().y));
    assert(queued.last().area() == tile.bounds.area());
    assert(!queued.contains(earlier)) by {
        if queued.contains(earlier) {
            let i = choose|i: int| 0 <= i < queued.len() && queued[i] == earlier;
            if i < queued.len() - 1 {
                assert(queued.drop_last()[i] == earlier);
            }
        }
    }
    assert(next.commands == atlas.textures.commands || next.commands.drop_last()
        =~= atlas.textures.commands);
}

/// The bounds of all of a tile, as an update gives them.
pub open spec fn whole(tile: AtlasTile) -> Bounds {
    Bounds { origin: Point { x: DevicePixels(0), y: DevicePixels(0) }, size: tile.bounds.size }
}

/// An update of all of a dynamic texture takes the place of everything that waits for it: what
/// is dropped lies in the pixels that the update overwrites, and nothing that waits for another
/// texture is lost.
pub proof fn full_updates_supersede(
    atlas: Atlas,
    key: AtlasKey,
    bounds: Bounds,
    bytes: Seq<u8>,
    bytes_per_pixel: u8,
    index: int,
)
    requires
        atlas.wf(),
        atlas.tiles.contains_key(key),
        key is DynamicTexture,
        bounds.origin.x.0 == 0,
        bounds.origin.y.0 == 0,
        bounds.size == atlas.tiles[key].bounds.size,
        0 <= index < atlas.textures.pending.len(),
    ensures
        ({
            let tile = atlas.tiles[key];
            let place = bounds_in_texture(tile, bounds);
            let earlier = atlas.textures.pending[index];
            let upload = Upload::of(tile.texture_id, place, bytes, bytes_per_pixel);
            let queued = atlas.textures.queued(tile, place, bytes, bytes_per_pixel);
            &&& queued.last() == upload
            &&& if earlier.texture_id == tile.texture_id {
                &&& !queued.drop_last().contains(earlier)
                &&& earlier.area().is_inside(upload.area())
            } else {
                queued.contains(earlier)
            }
        }),
{
    let tile = atlas.tiles[key];
    let earlier = atlas.textures.pending[index];
    let kept = uploads_except(atlas.textures.pending, tile.texture_id);
    assert(bounds_in_texture(tile, bounds) == tile.bounds);
    let queued = atlas.textures.queued(tile, tile.bounds, bytes, bytes_per_pixel);
    lemma_uploads_except(atlas.textures.pending, tile.texture_id);
    assert(atlas.textures.accepts(earlier));
    assert(atlas.is_placed(key));
    tiles_lie_in_their_textures(atlas, key);
    assert(queued.drop_last() =~= kept);
    assert(atlas.textures.pending.contains(earlier));
    if earlier.texture_id != tile.texture_id {
        assert(kept.contains(earlier));
        let i = choose|i: int| 0 <= i < kept.len() && kept[i] == earlier;
        assert(queued[i] == earlier);
    }
}

} // verus!
