//! What is given back with a key's tile, and what stays.
use crate::allocator::AllocatorEvent;
use crate::gpu::{Command, Upload};
use crate::laws::insertion::{other_kinds_stay, other_numbers_stay};
use crate::laws::{is_shared, textures_go_with_their_last_tile};
use crate::model::Textures;
use crate::state::Atlas;
use crate::texture::Texture;
use crate::tile::{AtlasKey, AtlasTextureId, AtlasTile};
use crate::upload::lemma_filter_all;
use vstd::prelude::*;

verus! {

/// A texture got a rectangle back, and is else what it was.
pub open spec fn got_back(before: Texture, after: Texture, number: u32) -> bool {
    &&& after.id == before.id
    &&& after.metal_texture == before.metal_texture
    &&& after.history == before.history.push(AllocatorEvent::Released { id: number })
    &&& after.live_atlas_keys == before.live_atlas_keys - 1
    &&& after.count_rounds == before.count_rounds
}

/// The uploads that do not go to the texture that `id` names, in their order.
pub open spec fn to_others(uploads: Seq<Upload>, id: AtlasTextureId) -> Seq<Upload> {
    uploads.filter(|upload: Upload| upload.texture_id != id)
}

/// A tile that is given back leaves its texture with one rectangle less, and the queue and the
/// GPU as they are, unless it was the last: then the texture goes, its number becomes the next to
/// be given, the GPU is told to drop it, and what waited for it is dropped. A tile of a texture
/// that is gone changes nothing.
pub proof fn tiles_are_given_back(textures: Textures, tile: AtlasTile)
    requires
        textures.wf(),
        textures.texture(tile.texture_id) matches Some(texture) ==> texture.live().contains_key(
            tile.tile_id.0,
        ),
    ensures
        textures.texture(tile.texture_id) is None ==> textures.release(tile) == textures,
        textures.texture(tile.texture_id) matches Some(texture) ==> {
            let next = textures.release(tile);
            let id = tile.texture_id;
            let number = id.index as int;
            let before = textures.list(id.kind);
            let after = next.list(id.kind);
            &&& other_kinds_stay(textures, next, id.kind)
            &&& other_numbers_stay(before, after, number)
            &&& after.textures.len() == before.textures.len()
            &&& if texture.live_atlas_keys == 1 {
                &&& after.textures[number] is None
                &&& after.free_list == before.free_list.push(id.index as usize)
                &&& next.commands == textures.commands.push(Command::DropTexture { id })
                &&& next.pending == to_others(textures.pending, id)
            } else {
                &&& after.textures[number] matches Some(changed)
                &&& got_back(texture, changed, tile.tile_id.0)
                &&& after.free_list == before.free_list
                &&& next.commands == textures.commands
                &&& next.pending == textures.pending
            }
        },
{
    let id = tile.texture_id;
    assert(textures.list(id.kind).wf(id.kind, textures.is_apple_gpu));
    if let Some(texture) = textures.texture(id) {
        assert(textures.list(id.kind).textures[id.index as int] == Some(texture));
    }
}

/// After a removal, the uploads that wait are exactly those that waited before and whose texture
/// still exists, in the same order: no removal loses an upload for a texture that stays, and none
/// leaves one for a texture that is gone.
pub proof fn removals_keep_the_uploads_of_textures_that_stay(atlas: Atlas, key: AtlasKey)
    requires
        atlas.wf(),
    ensures
        ({
            let next = atlas.removal(key).textures;
            &&& next.pending == atlas.textures.pending.filter(
                |upload: Upload| next.texture(upload.texture_id) is Some,
            )
            &&& atlas.tiles.contains_key(key) && is_shared(
                atlas,
                key,
                atlas.tiles[key].texture_id,
            ) ==> next.pending == atlas.textures.pending
        }),
{
    let next = atlas.removal(key).textures;
    let pending = atlas.textures.pending;
    let stays = |upload: Upload| next.texture(upload.texture_id) is Some;
    assert forall|i: int| 0 <= i < pending.len() implies atlas.textures.texture(
        (#[trigger] pending[i]).texture_id,
    ) is Some by {
        assert(atlas.textures.accepts(pending[i]));
    }
    if atlas.tiles.contains_key(key) {
        let tile = atlas.tiles[key];
        let id = tile.texture_id;
        assert(atlas.textures.holds(tile));
        atlas.textures.lemma_release(tile);
        tiles_are_given_back(atlas.textures, tile);
        textures_go_with_their_last_tile(atlas, key);
        if is_shared(atlas, key, id) {
            assert forall|i: int| 0 <= i < pending.len() implies stays(#[trigger] pending[i]) by {}
            lemma_filter_all(pending, stays);
        } else {
            lemma_same_choice(pending, |upload: Upload| upload.texture_id != id, stays);
        }
    } else {
        assert forall|i: int| 0 <= i < pending.len() implies stays(#[trigger] pending[i]) by {}
        lemma_filter_all(pending, stays);
    }
}

/// Two selections that agree on every upload of a list take the same of it.
proof fn lemma_same_choice(
    uploads: Seq<Upload>,
    one: spec_fn(Upload) -> bool,
    other: spec_fn(Upload) -> bool,
)
    requires
        forall|i: int| 0 <= i < uploads.len() ==> one(#[trigger] uploads[i]) == other(uploads[i]),
    ensures
        uploads.filter(one) == uploads.filter(other),
    decreases uploads.len(),
{
    reveal(Seq::filter);
    if uploads.len() > 0 {
        let rest = uploads.drop_last();
        assert forall|i: int| 0 <= i < rest.len() implies one(#[trigger] rest[i]) == other(
            rest[i],
        ) by {
            assert(rest[i] == uploads[i]);
        }
        lemma_same_choice(rest, one, other);
        assert(one(uploads[uploads.len() - 1]) == other(uploads[uploads.len() - 1]));
    }
}

/// A removal takes the key's tile and no other, and gives its rectangle back. Where another key
/// has a tile in the texture, the texture stays and neither the queue nor the GPU learns of it.
/// Otherwise the texture goes, and the GPU is told just that. A key without a tile is left alone.
pub proof fn removals_take_one_tile(atlas: Atlas, key: AtlasKey)
    requires
        atlas.wf(),
    ensures
        !atlas.tiles.contains_key(key) ==> atlas.removal(key) == atlas,
        atlas.tiles.contains_key(key) ==> {
            let tile = atlas.tiles[key];
            let id = tile.texture_id;
            let next = atlas.removal(key);
            let before = atlas.textures.list(id.kind);
            let after = next.textures.list(id.kind);
            let number = id.index as int;
            &&& next.tiles == atlas.tiles.remove(key)
            &&& other_kinds_stay(atlas.textures, next.textures, id.kind)
            &&& other_numbers_stay(before, after, number)
            &&& after.textures.len() == before.textures.len()
            &&& before.textures[number] matches Some(texture)
            &&& if is_shared(atlas, key, id) {
                &&& after.textures[number] matches Some(changed)
                &&& got_back(texture, changed, tile.tile_id.0)
                &&& after.free_list == before.free_list
                &&& next.textures.commands == atlas.textures.commands
                &&& next.textures.pending == atlas.textures.pending
            } else {
                &&& after.textures[number] is None
                &&& after.free_list == before.free_list.push(id.index as usize)
                &&& next.textures.commands == atlas.textures.commands.push(
                    Command::DropTexture { id },
                )
                &&& next.textures.pending == to_others(atlas.textures.pending, id)
            }
        },
{
    if atlas.tiles.contains_key(key) {
        let tile = atlas.tiles[key];
        let id = tile.texture_id;
        assert(atlas.textures.holds(tile));
        atlas.textures.lemma_release(tile);
        tiles_are_given_back(atlas.textures, tile);
        textures_go_with_their_last_tile(atlas, key);
    }
}

} // verus!
