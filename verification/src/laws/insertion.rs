//! Where a tile goes, which textures are made for it, and what is written to them.
use crate::allocator::{placement, AllocatorEvent};
use crate::error::AtlasError;
use crate::geometry::{Area, Size};
use crate::gpu::{Command, Upload};
use crate::laws::values::{
    answers_become_tiles, brings, home, is_made, kinds_have_formats,
    pages_suit_their_tiles, sizes_are_compared_side_by_side,
    uploads_carry_the_given_bytes,
};
use crate::model::{page_size, Textures};
use crate::state::{Atlas, InsertError};
use crate::texture::Texture;
use crate::texture_list::{pixel_format_of, TextureList};
use crate::tile::{AtlasKey, AtlasTextureId, AtlasTextureKind, AtlasTile, TileId};
use vstd::prelude::*;

verus! {

/// There is a texture at `index`, and its allocator has room for `size` pixels.
pub open spec fn has_space(list: TextureList, index: int, size: Size) -> bool {
    &&& 0 <= index < list.textures.len()
    &&& list.textures[index] matches Some(texture)
    &&& placement(texture.history, size.width.0, size.height.0) is Some
}

/// The number that the next texture gets: the one that became free last, or one more than there
/// are.
pub open spec fn next_number(list: TextureList) -> int {
    if list.free_list.len() > 0 {
        list.free_list[list.free_list.len() - 1] as int
    } else {
        list.textures.len() as int
    }
}

/// A side of a new texture for a tile with this side.
pub open spec fn page_side(side: int, kind: AtlasTextureKind) -> int {
    if kind is Monochrome && side < 1024 {
        1024
    } else if side < 512 {
        512
    } else if side > 16384 {
        16384
    } else {
        side
    }
}

/// The textures of the other kinds are the same in both, and so is the GPU.
pub open spec fn other_kinds_stay(a: Textures, b: Textures, kind: AtlasTextureKind) -> bool {
    &&& a.is_apple_gpu == b.is_apple_gpu
    &&& kind is Monochrome || a.monochrome == b.monochrome
    &&& kind is Polychrome || a.polychrome == b.polychrome
    &&& kind is Image || a.image == b.image
    &&& kind is ImageSmall || a.image_small == b.image_small
}

/// The lists hold the same textures at all numbers but `number`, where the one may end.
pub open spec fn other_numbers_stay(a: TextureList, b: TextureList, number: int) -> bool {
    forall|i: int|
        0 <= i < a.textures.len() && i != number ==> {
            &&& i < b.textures.len()
            &&& #[trigger] b.textures[i] == a.textures[i]
        }
}

/// The tile has the number and the corner that an allocator answered, and the size that was asked
/// for.
pub open spec fn is_tile(
    tile: AtlasTile,
    id: AtlasTextureId,
    size: Size,
    answer: (u32, i32, i32),
) -> bool {
    &&& tile.texture_id == id
    &&& tile.tile_id == TileId(answer.0)
    &&& tile.padding == 0
    &&& tile.bounds.origin.x.0 == answer.1
    &&& tile.bounds.origin.y.0 == answer.2
    &&& tile.bounds.size == size
}

/// What an allocator remembers of an answer.
pub open spec fn placed(size: Size, answer: (u32, i32, i32)) -> AllocatorEvent {
    AllocatorEvent::Placed {
        id: answer.0,
        area: Area {
            x: answer.1 as int,
            y: answer.2 as int,
            width: size.width.0 as int,
            height: size.height.0 as int,
        },
    }
}

/// A texture gave out a rectangle, and is else what it was.
pub open spec fn gave_out(
    before: Texture,
    after: Texture,
    size: Size,
    answer: (u32, i32, i32),
) -> bool {
    &&& after.id == before.id
    &&& after.metal_texture == before.metal_texture
    &&& after.history == before.history.push(placed(size, answer))
    &&& after.live_atlas_keys == before.live_atlas_keys + 1
    &&& after.count_rounds == before.count_rounds + if (answer.0 / 4096) % 4096 == 0 {
        1int
    } else {
        0int
    }
}

/// The list has one more texture, with these sides, at the number that is due, and the GPU was
/// told to make it. Where the texture has room, it gave out its first rectangle.
pub open spec fn makes_texture(
    before: Textures,
    after: Textures,
    kind: AtlasTextureKind,
    width: int,
    height: int,
    size: Size,
    command: Command,
) -> bool {
    let list = before.list(kind);
    let next = after.list(kind);
    let number = next_number(list);
    let created = seq![AllocatorEvent::Created { width, height }];
    let answer = placement(created, size.width.0, size.height.0);
    &&& other_kinds_stay(before, after, kind)
    &&& other_numbers_stay(list, next, number)
    &&& next.textures.len() == list.textures.len() + if list.free_list.len() > 0 {
        0int
    } else {
        1int
    }
    &&& next.free_list == if list.free_list.len() > 0 {
        list.free_list.take(list.free_list.len() - 1)
    } else {
        list.free_list
    }
    &&& next.textures[number] matches Some(texture)
    &&& texture.id == (AtlasTextureId { index: number as u32, kind })
    &&& is_made(texture.metal_texture, kind, width, height, before.is_apple_gpu)
    &&& texture.history == match answer {
        None => created,
        Some(answer) => created.push(placed(size, answer)),
    }
    &&& texture.live_atlas_keys == if answer is Some {
        1int
    } else {
        0int
    }
    &&& texture.count_rounds == match answer {
        Some((id, _, _)) if (id / 4096) % 4096 == 0 => 1int,
        _ => 0int,
    }
    &&& command == (Command::CreateTexture { id: texture.id, texture: texture.metal_texture })
}

/// A request for a tile is met by the existing texture of its kind with the greatest number that
/// has room. No texture is made or dropped, and nothing but that texture changes.
pub proof fn requests_go_to_the_last_texture_with_room(
    textures: Textures,
    kind: AtlasTextureKind,
    size: Size,
    index: int,
)
    requires
        textures.wf(),
        !(kind is Subpixel),
        has_space(textures.list(home(kind, size)), index, size),
        forall|later: int|
            index < later ==> !#[trigger] has_space(
                textures.list(home(kind, size)),
                later,
                size,
            ),
    ensures
        ({
            let (next, tile) = textures.allocation(size, kind);
            let kind = home(kind, size);
            let before = textures.list(kind);
            let after = next.list(kind);
            let texture = before.textures[index]->0;
            let answer = placement(texture.history, size.width.0, size.height.0)->0;
            &&& tile matches Some(tile)
            &&& is_tile(tile, AtlasTextureId { index: index as u32, kind }, size, answer)
            &&& next.commands == textures.commands
            &&& next.pending == textures.pending
            &&& other_kinds_stay(textures, next, kind)
            &&& other_numbers_stay(before, after, index)
            &&& after.textures.len() == before.textures.len()
            &&& after.free_list == before.free_list
            &&& after.textures[index] matches Some(changed)
            &&& gave_out(texture, changed, size, answer)
        }),
{
    let kind = home(kind, size);
    let list = textures.list(kind);
    let texture = list.textures[index]->0;
    assert(list.wf(kind, textures.is_apple_gpu));
    assert(list.admits(index, size));
    assert forall|later: int| index < later implies !#[trigger] list.admits(later, size) by {
        assert(!has_space(list, later, size));
    }
    assert(list.is_last_with_room(index, size));
    let chosen = choose|i: int| list.is_last_with_room(i, size);
    assert(list.admits(chosen, size));
    assert(chosen == index);
    let answer = placement(texture.history, size.width.0, size.height.0)->0;
    answers_become_tiles(texture.id, size, answer);
    assert(texture.id == (AtlasTextureId { index: index as u32, kind }));
}

/// A new texture is made for a request only where no existing one of its kind has room. It is
/// made once, as large as the tile or the kind asks for, under the number that is due.
pub proof fn textures_are_made_where_none_has_room(
    textures: Textures,
    kind: AtlasTextureKind,
    size: Size,
)
    requires
        textures.wf(),
        !(kind is Subpixel),
        textures.list(home(kind, size)).has_room(),
        forall|i: int| !#[trigger] has_space(textures.list(home(kind, size)), i, size),
    ensures
        ({
            let (next, tile) = textures.allocation(size, kind);
            let kind = home(kind, size);
            let width = page_side(size.width.0 as int, kind);
            let height = page_side(size.height.0 as int, kind);
            let created = seq![AllocatorEvent::Created { width, height }];
            let number = next_number(textures.list(kind));
            &&& next.commands.len() == textures.commands.len() + 1
            &&& next.commands.take(textures.commands.len() as int) == textures.commands
            &&& next.pending == textures.pending
            &&& makes_texture(textures, next, kind, width, height, size, next.commands.last())
            &&& match placement(created, size.width.0, size.height.0) {
                None => tile is None,
                Some(answer) => {
                    &&& tile matches Some(tile)
                    &&& is_tile(tile, AtlasTextureId { index: number as u32, kind }, size, answer)
                },
            }
        }),
{
    let kind = home(kind, size);
    let list = textures.list(kind);
    assert(list.tile_for(size) is None) by {
        if exists|i: int| list.is_last_with_room(i, size) {
            let i = choose|i: int| list.is_last_with_room(i, size);
            assert(list.admits(i, size));
            assert(has_space(list, i, size));
        }
    }
    pages_suit_their_tiles(size, kind);
    lemma_made(textures, page_size(size, kind), kind, size);
}

/// What `allocation_in_new` comes to.
proof fn lemma_made(textures: Textures, page: Size, kind: AtlasTextureKind, size: Size)
    requires
        textures.wf(),
        !(kind is Subpixel),
        textures.list(kind).has_room(),
        1 <= page.width.0 <= 16384,
        1 <= page.height.0 <= 16384,
    ensures
        ({
            let (next, tile) = textures.allocation_in_new(page, kind, size);
            let width = page.width.0 as int;
            let height = page.height.0 as int;
            let created = seq![AllocatorEvent::Created { width, height }];
            let number = next_number(textures.list(kind));
            &&& next.commands.len() == textures.commands.len() + 1
            &&& next.commands.take(textures.commands.len() as int) == textures.commands
            &&& next.pending == textures.pending
            &&& makes_texture(textures, next, kind, width, height, size, next.commands.last())
            &&& match placement(created, size.width.0, size.height.0) {
                None => tile is None,
                Some(answer) => {
                    &&& tile matches Some(tile)
                    &&& is_tile(tile, AtlasTextureId { index: number as u32, kind }, size, answer)
                },
            }
        }),
{
    let (next, tile) = textures.allocation_in_new(page, kind, size);
    let list = textures.list(kind);
    let number = next_number(list);
    let texture = textures.new_texture(page, kind);
    let pushed = textures.with_new_texture(page, kind);
    assert(list.wf(kind, textures.is_apple_gpu));
    if list.free_list.len() > 0 {
        assert(list.free_list[list.free_list.len() - 1] < list.textures.len());
    }
    assert(number == list.next_index());
    kinds_have_formats(kind, page.width.0 as u64, page.height.0 as u64, textures.is_apple_gpu);
    assert(texture.id == (AtlasTextureId { index: number as u32, kind }));
    assert(pushed.list(kind).textures[number] == Some(texture));
    assert(next.commands.take(textures.commands.len() as int) =~= textures.commands);
    assert(list.free_list.len() > 0 ==> next.list(kind).free_list =~= list.free_list.take(
        list.free_list.len() - 1,
    ));
    if let Some(answer) = placement(texture.history, size.width.0, size.height.0) {
        answers_become_tiles(texture.id, size, answer);
        assert(next.list(kind).textures[number] == Some(texture.with_tile(tile->0)));
    }
}

/// A request for a texture of its own makes one of exactly that size, if a texture can have it,
/// and asks no existing one. Any other request changes nothing.
pub proof fn own_textures_have_the_size_that_is_asked_for(
    textures: Textures,
    kind: AtlasTextureKind,
    size: Size,
)
    requires
        textures.wf(),
        1 <= size.width.0 <= 16384 && 1 <= size.height.0 <= 16384 ==> !(kind is Subpixel)
            && textures.list(kind).has_room(),
    ensures
        ({
            let (next, tile) = textures.dedicated_allocation(size, kind);
            let width = size.width.0 as int;
            let height = size.height.0 as int;
            let created = seq![AllocatorEvent::Created { width, height }];
            let number = next_number(textures.list(kind));
            if 1 <= width <= 16384 && 1 <= height <= 16384 {
                &&& next.commands.len() == textures.commands.len() + 1
                &&& next.commands.take(textures.commands.len() as int) == textures.commands
                &&& next.pending == textures.pending
                &&& makes_texture(textures, next, kind, width, height, size, next.commands.last())
                &&& match placement(created, size.width.0, size.height.0) {
                    None => tile is None,
                    Some(answer) => {
                        &&& tile matches Some(tile)
                        &&& is_tile(
                            tile,
                            AtlasTextureId { index: number as u32, kind },
                            size,
                            answer,
                        )
                    },
                }
            } else {
                &&& next == textures
                &&& tile is None
            }
        }),
{
    sizes_are_compared_side_by_side(size, size);
    if 1 <= size.width.0 <= 16384 && 1 <= size.height.0 <= 16384 {
        lemma_made(textures, size, kind, size);
    }
}

/// A key that shares its texture gets its tile in the existing texture of its kind with the
/// greatest number that has room, whatever the kind: no texture is made, and the GPU is told one
/// thing, to write exactly the rendered bytes to the tile.
pub proof fn keys_are_packed_together<E>(
    atlas: Atlas,
    key: AtlasKey,
    size: Size,
    bytes: Vec<u8>,
    index: int,
)
    requires
        atlas.wf(),
        !atlas.tiles.contains_key(key),
        !(key is DynamicTexture),
        atlas.can_insert(key, size),
        atlas.insertion::<E>(key, Ok(Some((size, bytes)))).0.wf(),
        has_space(atlas.textures.list(home(key.spec_texture_kind(), size)), index, size),
        forall|later: int|
            index < later ==> !#[trigger] has_space(
                atlas.textures.list(home(key.spec_texture_kind(), size)),
                later,
                size,
            ),
    ensures
        ({
            let (next, answer) = atlas.insertion::<E>(key, Ok(Some((size, bytes))));
            let kind = home(key.spec_texture_kind(), size);
            let id = AtlasTextureId { index: index as u32, kind };
            let before = atlas.textures.list(kind);
            let after = next.textures.list(kind);
            let texture = before.textures[index]->0;
            let place = placement(texture.history, size.width.0, size.height.0)->0;
            let count = atlas.textures.commands.len() as int;
            &&& answer matches Ok(Some(tile))
            &&& is_tile(tile, id, size, place)
            &&& next.tiles == atlas.tiles.insert(key, tile)
            &&& other_kinds_stay(atlas.textures, next.textures, kind)
            &&& other_numbers_stay(before, after, index)
            &&& after.textures.len() == before.textures.len()
            &&& after.free_list == before.free_list
            &&& after.textures[index] matches Some(changed)
            &&& gave_out(texture, changed, size, place)
            &&& next.textures.pending == atlas.textures.pending
            &&& next.textures.commands.len() == count + 1
            &&& next.textures.commands.take(count) == atlas.textures.commands
            &&& next.textures.commands[count] matches Command::ReplaceRegion { upload }
            &&& brings(upload, id, place.1 as int, place.2 as int, size, bytes@)
        }),
{
    let kind = key.spec_texture_kind();
    let (next, answer) = atlas.insertion::<E>(key, Ok(Some((size, bytes))));
    requests_go_to_the_last_texture_with_room(atlas.textures, kind, size, index);
    let tile = atlas.textures.allocation(size, kind).1->0;
    lemma_written(next, key, tile, bytes@);
    let count = atlas.textures.commands.len() as int;
    assert(next.textures.commands.take(count) =~= atlas.textures.commands);
}

/// Of the textures with room, one has the greatest number.
proof fn lemma_last_with_space(list: TextureList, index: int, size: Size) -> (last: int)
    requires
        has_space(list, index, size),
    ensures
        index <= last,
        has_space(list, last, size),
        forall|later: int| last < later ==> !#[trigger] has_space(list, later, size),
    decreases list.textures.len() - index,
{
    if exists|later: int| index < later && #[trigger] has_space(list, later, size) {
        let later = choose|later: int| index < later && #[trigger] has_space(list, later, size);
        lemma_last_with_space(list, later, size)
    } else {
        index
    }
}

/// As long as any texture of its kind has room, a key that shares its texture has none made and
/// gets a tile. The same numbers are in use before and after, in every kind.
pub proof fn no_texture_is_made_in_vain<E>(
    atlas: Atlas,
    key: AtlasKey,
    size: Size,
    bytes: Vec<u8>,
    index: int,
    id: AtlasTextureId,
)
    requires
        atlas.wf(),
        !atlas.tiles.contains_key(key),
        !(key is DynamicTexture),
        atlas.can_insert(key, size),
        atlas.insertion::<E>(key, Ok(Some((size, bytes)))).0.wf(),
        has_space(atlas.textures.list(home(key.spec_texture_kind(), size)), index, size),
    ensures
        ({
            let (next, answer) = atlas.insertion::<E>(key, Ok(Some((size, bytes))));
            let count = atlas.textures.commands.len() as int;
            &&& answer matches Ok(Some(tile))
            &&& tile.texture_id.kind == home(key.spec_texture_kind(), size)
            &&& tile.texture_id.index >= index
            &&& atlas.textures.texture(tile.texture_id) is Some
            &&& next.textures.texture(id) is Some <==> atlas.textures.texture(id) is Some
            &&& next.textures.commands.len() == count + 1
            &&& next.textures.commands[count] is ReplaceRegion
        }),
{
    let kind = home(key.spec_texture_kind(), size);
    let list = atlas.textures.list(kind);
    let last = lemma_last_with_space(list, index, size);
    assert(list.wf(kind, atlas.textures.is_apple_gpu));
    keys_are_packed_together::<E>(atlas, key, size, bytes, last);
    let next = atlas.insertion::<E>(key, Ok(Some((size, bytes)))).0;
    if id.kind == kind && id.index < list.textures.len() && id.index != last {
        assert(next.textures.list(kind).textures[id.index as int]
            == list.textures[id.index as int]);
    }
}

/// What is written for a tile that a key got.
proof fn lemma_written(next: Atlas, key: AtlasKey, tile: AtlasTile, bytes: Seq<u8>)
    requires
        next.wf(),
        next.tiles.contains_key(key),
        next.tiles[key] == tile,
    ensures
        !(tile.texture_id.kind is Subpixel),
        0 <= tile.bounds.origin.x.0,
        0 <= tile.bounds.origin.y.0,
        0 < tile.bounds.size.width.0 <= 16384,
        0 < tile.bounds.size.height.0 <= 16384,
        brings(
            Upload::of(
                tile.texture_id,
                tile.bounds,
                bytes,
                pixel_format_of(
                    tile.texture_id.kind,
                ).spec_bytes_per_pixel(),
            ),
            tile.texture_id,
            tile.bounds.origin.x.0 as int,
            tile.bounds.origin.y.0 as int,
            tile.bounds.size,
            bytes,
        ),
{
    assert(next.textures.holds(next.tiles[key]));
    next.textures.lemma_holds(tile);
    kinds_have_formats(tile.texture_id.kind, 0, 0, true);
    uploads_carry_the_given_bytes(
        tile.texture_id,
        tile.bounds,
        bytes,
        pixel_format_of(tile.texture_id.kind).spec_bytes_per_pixel(),
    );
}

/// Where no existing texture of its kind has room, a key that shares its texture has one texture
/// made. The GPU is told to make it and then to write exactly the rendered bytes to the tile. A
/// key for which there is no place even there gets no tile, and the texture stays.
pub proof fn keys_get_a_new_texture_where_none_has_room<E>(
    atlas: Atlas,
    key: AtlasKey,
    size: Size,
    bytes: Vec<u8>,
)
    requires
        atlas.wf(),
        !atlas.tiles.contains_key(key),
        !(key is DynamicTexture),
        atlas.can_insert(key, size),
        atlas.insertion::<E>(key, Ok(Some((size, bytes)))).0.wf(),
        forall|i: int|
            !#[trigger] has_space(
                atlas.textures.list(home(key.spec_texture_kind(), size)),
                i,
                size,
            ),
    ensures
        ({
            let (next, answer) = atlas.insertion::<E>(key, Ok(Some((size, bytes))));
            let kind = home(key.spec_texture_kind(), size);
            let width = page_side(size.width.0 as int, kind);
            let height = page_side(size.height.0 as int, kind);
            let created = seq![AllocatorEvent::Created { width, height }];
            let id = AtlasTextureId {
                index: next_number(atlas.textures.list(kind)) as u32,
                kind,
            };
            let count = atlas.textures.commands.len() as int;
            &&& makes_texture(
                atlas.textures,
                next.textures,
                kind,
                width,
                height,
                size,
                next.textures.commands[count],
            )
            &&& next.textures.commands.take(count) == atlas.textures.commands
            &&& next.textures.pending == atlas.textures.pending
            &&& match placement(created, size.width.0, size.height.0) {
                None => {
                    &&& answer == Err::<Option<AtlasTile>, InsertError<E>>(
                        InsertError::Atlas(AtlasError::Allocation),
                    )
                    &&& next.tiles == atlas.tiles
                    &&& next.textures.commands.len() == count + 1
                },
                Some(place) => {
                    &&& answer matches Ok(Some(tile))
                    &&& is_tile(tile, id, size, place)
                    &&& next.tiles == atlas.tiles.insert(key, tile)
                    &&& next.textures.commands.len() == count + 2
                    &&& next.textures.commands[count + 1] matches Command::ReplaceRegion { upload }
                    &&& brings(upload, id, place.1 as int, place.2 as int, size, bytes@)
                },
            }
        }),
{
    let kind = key.spec_texture_kind();
    let (next, answer) = atlas.insertion::<E>(key, Ok(Some((size, bytes))));
    let count = atlas.textures.commands.len() as int;
    textures_are_made_where_none_has_room(atlas.textures, kind, size);
    let made = atlas.textures.allocation(size, kind).0;
    assert(made.commands.last() == made.commands[count]);
    if let Some(tile) = atlas.textures.allocation(size, kind).1 {
        lemma_written(next, key, tile, bytes@);
        assert(next.textures.commands.take(count) =~= made.commands.take(count));
        assert(next.textures.list(home(kind, size)) == made.list(home(kind, size)));
    }
}

/// A dynamic texture has a texture made of exactly its size, of which it gets all, and nothing is
/// written to it yet. A size that no texture can have is refused, and nothing changes.
pub proof fn dynamic_keys_get_a_texture_of_their_size<E>(
    atlas: Atlas,
    key: AtlasKey,
    size: Size,
    bytes: Vec<u8>,
)
    requires
        atlas.wf(),
        !atlas.tiles.contains_key(key),
        key is DynamicTexture,
        atlas.can_insert(key, size),
        atlas.insertion::<E>(key, Ok(Some((size, bytes)))).0.wf(),
    ensures
        ({
            let (next, answer) = atlas.insertion::<E>(key, Ok(Some((size, bytes))));
            let kind = key.spec_texture_kind();
            let width = size.width.0 as int;
            let height = size.height.0 as int;
            let created = seq![AllocatorEvent::Created { width, height }];
            let id = AtlasTextureId {
                index: next_number(atlas.textures.list(kind)) as u32,
                kind,
            };
            let count = atlas.textures.commands.len() as int;
            if 1 <= width <= 16384 && 1 <= height <= 16384 {
                &&& makes_texture(
                    atlas.textures,
                    next.textures,
                    kind,
                    width,
                    height,
                    size,
                    next.textures.commands[count],
                )
                &&& next.textures.commands.len() == count + 1
                &&& next.textures.commands.take(count) == atlas.textures.commands
                &&& next.textures.pending == atlas.textures.pending
                &&& match placement(created, size.width.0, size.height.0) {
                    None => {
                        &&& answer == Err::<Option<AtlasTile>, InsertError<E>>(
                            InsertError::Atlas(AtlasError::DedicatedAllocation),
                        )
                        &&& next.tiles == atlas.tiles
                    },
                    Some(place) => {
                        &&& answer matches Ok(Some(tile))
                        &&& is_tile(tile, id, size, place)
                        &&& place.1 == 0
                        &&& place.2 == 0
                        &&& next.tiles == atlas.tiles.insert(key, tile)
                    },
                }
            } else {
                &&& answer == Err::<Option<AtlasTile>, InsertError<E>>(
                    InsertError::Atlas(AtlasError::DedicatedAllocation),
                )
                &&& next == atlas
            }
        }),
{
    let kind = key.spec_texture_kind();
    let (next, answer) = atlas.insertion::<E>(key, Ok(Some((size, bytes))));
    let count = atlas.textures.commands.len() as int;
    sizes_are_compared_side_by_side(size, size);
    own_textures_have_the_size_that_is_asked_for(atlas.textures, kind, size);
    if answer is Ok {
        assert(next.tiles.contains_key(key));
        assert(next.is_placed(key));
    }
}

/// Where rendering fails, or there is nothing to show, the caller learns just that, and nothing
/// changes.
pub proof fn nothing_rendered_changes_nothing<E>(atlas: Atlas, key: AtlasKey, error: E)
    ensures
        atlas.insertion::<E>(key, Ok(None)) == (
            atlas,
            Ok::<Option<AtlasTile>, InsertError<E>>(None),
        ),
        atlas.insertion::<E>(key, Err(error)) == (
            atlas,
            Err::<Option<AtlasTile>, InsertError<E>>(InsertError::Build(error)),
        ),
{
}

/// A key that has a tile gets it, whatever would be rendered, and nothing changes. A key that has
/// none is treated as one that was never asked for.
pub proof fn known_keys_get_their_tile<E>(
    atlas: Atlas,
    key: AtlasKey,
    built: Result<Option<(Size, Vec<u8>)>, E>,
)
    ensures
        atlas.lookup(key, built) == if atlas.tiles.contains_key(key) {
            (atlas, Ok::<Option<AtlasTile>, InsertError<E>>(Some(atlas.tiles[key])))
        } else {
            atlas.insertion(key, built)
        },
{
}

/// A texture gives a tile exactly where its allocator finds room, and then that of the
/// allocator's answer. What it remembers of tiles given out and given back is just that.
pub proof fn textures_answer_as_their_allocators(
    texture: Texture,
    size: Size,
    tile: AtlasTile,
    number: TileId,
)
    ensures
        match placement(texture.history, size.width.0, size.height.0) {
            None => texture.tile_for(size) is None,
            Some(answer) => {
                &&& texture.tile_for(size) matches Some(tile)
                &&& is_tile(tile, texture.id, size, answer)
            },
        },
        gave_out(
            texture,
            texture.with_tile(tile),
            tile.bounds.size,
            (tile.tile_id.0, tile.bounds.origin.x.0, tile.bounds.origin.y.0),
        ),
        texture.without_tile(number) == (Texture {
            history: texture.history.push(AllocatorEvent::Released { id: number.0 }),
            live_atlas_keys: texture.live_atlas_keys - 1,
            ..texture
        }),
{
}

/// A key is given a tile, or the atlas other textures, and nothing else.
pub proof fn parts_are_replaced_alone(
    atlas: Atlas,
    key: AtlasKey,
    tile: AtlasTile,
    textures: Textures,
)
    ensures
        atlas.with_key(key, tile).tiles == atlas.tiles.insert(key, tile),
        atlas.with_key(key, tile).textures == atlas.textures,
        atlas.with_textures(textures).tiles == atlas.tiles,
        atlas.with_textures(textures).textures == textures,
{
}

/// A new texture for a kind has the number that is due and has given out nothing.
pub proof fn new_textures_are_empty(textures: Textures, size: Size, kind: AtlasTextureKind)
    requires
        textures.wf(),
        !(kind is Subpixel),
        textures.list(kind).has_room(),
        1 <= size.width.0 <= 16384,
        1 <= size.height.0 <= 16384,
    ensures
        ({
            let texture = textures.new_texture(size, kind);
            let next = textures.with_new_texture(size, kind);
            let number = next_number(textures.list(kind));
            let width = size.width.0 as int;
            let height = size.height.0 as int;
            &&& texture.id.index == number
            &&& texture.id.kind == kind
            &&& is_made(texture.metal_texture, kind, width, height, textures.is_apple_gpu)
            &&& texture.history == seq![AllocatorEvent::Created { width, height }]
            &&& texture.live_atlas_keys == 0
            &&& texture.count_rounds == 0
            &&& next.pending == textures.pending
            &&& next.commands == textures.commands.push(
                Command::CreateTexture { id: texture.id, texture: texture.metal_texture },
            )
            &&& other_kinds_stay(textures, next, kind)
            &&& other_numbers_stay(textures.list(kind), next.list(kind), number)
            &&& next.list(kind).textures[number] == Some(texture)
            &&& next.list(kind).textures.len() == textures.list(kind).textures.len()
                + if textures.list(kind).free_list.len() > 0 {
                0int
            } else {
                1int
            }
        }),
{
    let list = textures.list(kind);
    assert(list.wf(kind, textures.is_apple_gpu));
    if list.free_list.len() > 0 {
        assert(list.free_list[list.free_list.len() - 1] < list.textures.len());
    }
    assert(next_number(list) == list.next_index());
    kinds_have_formats(kind, size.width.0 as u64, size.height.0 as u64, textures.is_apple_gpu);
}

} // verus!
