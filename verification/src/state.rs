//! The atlas: which key has which tile.
use crate::error::AtlasError;
use crate::geometry::{Area, Bounds, Size};
use crate::gpu::{Command, Upload};
use crate::model::{page_kind, square, Textures};
use crate::texture_list::{pixel_format_of, MAX_ATLAS_SIDE};
use crate::textures::MetalAtlasTextures;
use crate::tile::{AtlasKey, AtlasTextureId, AtlasTextureKind, AtlasTile};
use crate::tile_map::TileMap;
use crate::upload::{bounds_in_texture, upload_answer};
use vstd::prelude::*;

verus! {

/// Why there is no tile for a key: it could not be rendered, or the atlas has no place for it.
#[derive(Debug, PartialEq, Eq)]
pub enum InsertError<E> {
    /// What the renderer of the key's pixels reported.
    Build(E),
    /// What the atlas reported.
    Atlas(AtlasError),
}

/// The textures, and the tiles in them by key.
pub struct AtlasState {
    pub backend: MetalAtlasTextures,
    pub tiles_by_key: TileMap,
}

/// What an [`AtlasState`] is.
pub struct Atlas {
    pub textures: Textures,
    pub tiles: Map<AtlasKey, AtlasTile>,
}

impl View for AtlasState {
    type V = Atlas;

    open spec fn view(&self) -> Atlas {
        Atlas { textures: self.backend@, tiles: self.tiles_by_key@ }
    }
}

impl Atlas {
    /// The key has a tile with this number in this texture.
    pub open spec fn owns(self, key: AtlasKey, id: AtlasTextureId, number: u32) -> bool {
        &&& self.tiles.contains_key(key)
        &&& self.tiles[key].texture_id == id
        &&& self.tiles[key].tile_id.0 == number
    }

    /// The tile stands where its key belongs: a dynamic texture takes all of a texture of its
    /// kind, and anything else a part of a texture of the kind that its size asks for.
    pub open spec fn is_placed(self, key: AtlasKey) -> bool {
        let tile = self.tiles[key];
        if key is DynamicTexture {
            &&& tile.texture_id.kind == key.spec_texture_kind()
            &&& self.textures.texture(tile.texture_id) matches Some(texture)
            &&& tile.bounds.area() == (Area {
                x: 0,
                y: 0,
                width: texture.metal_texture.width as int,
                height: texture.metal_texture.height as int,
            })
        } else {
            tile.texture_id.kind == page_kind(key.spec_texture_kind(), tile.bounds.size)
        }
    }

    /// Every key's tile is in use, at its place and that key's alone, and every tile in use is
    /// some key's.
    pub open spec fn wf(self) -> bool {
        &&& self.textures.wf()
        &&& forall|key: AtlasKey| #[trigger]
            self.tiles.contains_key(key) ==> self.textures.holds(self.tiles[key])
                && self.is_placed(key)
        &&& forall|a: AtlasKey, b: AtlasKey|
            #![trigger self.tiles[a], self.tiles[b]]
            self.tiles.contains_key(a) && self.tiles.contains_key(b) && a != b
                ==> self.tiles[a].texture_id != self.tiles[b].texture_id || self.tiles[a].tile_id
                != self.tiles[b].tile_id
        &&& forall|id: AtlasTextureId, number: u32|
            #[trigger] self.textures.is_live(id, number) ==> exists|key: AtlasKey| #[trigger]
                self.owns(key, id, number)
    }

    /// Some key has a tile in the texture that `id` names.
    pub open spec fn has_tile_in(self, id: AtlasTextureId) -> bool {
        exists|key: AtlasKey| #[trigger]
            self.tiles.contains_key(key) && self.tiles[key].texture_id == id
    }

    /// Every texture has a tile of some key in it. A texture without one is what an insertion
    /// leaves behind that found no place even in a new texture.
    pub open spec fn has_no_idle_texture(self) -> bool {
        forall|id: AtlasTextureId| #[trigger]
            self.textures.texture(id) is Some ==> self.has_tile_in(id)
    }

    /// A tile of this size may be taken for the key: the atlas has textures of its kind, a number
    /// for one more of them, and none of those that would be asked is near the end of a counter.
    pub open spec fn can_insert(self, key: AtlasKey, size: Size) -> bool {
        let kind = key.spec_texture_kind();
        if key is DynamicTexture {
            size.is_within(square(MAX_ATLAS_SIDE)) ==> kind != AtlasTextureKind::Subpixel
                && self.textures.list(kind).has_room()
        } else {
            kind != AtlasTextureKind::Subpixel && self.textures.list(
                page_kind(kind, size),
            ).can_allocate()
        }
    }

    /// The same with a tile for a key.
    pub open spec fn with_key(self, key: AtlasKey, tile: AtlasTile) -> Atlas {
        Atlas { tiles: self.tiles.insert(key, tile), ..self }
    }

    /// The same with other textures.
    pub open spec fn with_textures(self, textures: Textures) -> Atlas {
        Atlas { textures, ..self }
    }

    /// What becomes of a key that gets a texture to itself. Its pixels come later.
    pub open spec fn dedicated_insertion(self, key: AtlasKey, size: Size) -> (Atlas, Result<
        AtlasTile,
        AtlasError,
    >) {
        match self.textures.dedicated_allocation(size, key.spec_texture_kind()) {
            (next, None) => (self.with_textures(next), Err(AtlasError::DedicatedAllocation)),
            (next, Some(tile)) => (self.with_textures(next).with_key(key, tile), Ok(tile)),
        }
    }

    /// What becomes of a key that shares a texture with others. Its pixels are written at
    /// once.
    pub open spec fn shared_insertion(self, key: AtlasKey, size: Size, bytes: Seq<u8>) -> (
        Atlas,
        Result<AtlasTile, AtlasError>,
    ) {
        match self.textures.allocation(size, key.spec_texture_kind()) {
            (next, None) => (self.with_textures(next), Err(AtlasError::Allocation)),
            (next, Some(tile)) => {
                let upload = Upload::of(
                    tile.texture_id,
                    tile.bounds,
                    bytes,
                    pixel_format_of(tile.texture_id.kind).spec_bytes_per_pixel(),
                );
                (
                    self.with_textures(
                        next.with_command(Command::ReplaceRegion { upload }),
                    ).with_key(key, tile),
                    Ok(tile),
                )
            },
        }
    }

    /// What becomes of a key without a tile, once its pixels were rendered.
    pub open spec fn insertion<E>(
        self,
        key: AtlasKey,
        built: Result<Option<(Size, Vec<u8>)>, E>,
    ) -> (Atlas, Result<Option<AtlasTile>, InsertError<E>>) {
        match built {
            Err(error) => (self, Err(InsertError::Build(error))),
            Ok(None) => (self, Ok(None)),
            Ok(Some((size, bytes))) => {
                let (next, inserted) = if key is DynamicTexture {
                    self.dedicated_insertion(key, size)
                } else {
                    self.shared_insertion(key, size, bytes@)
                };
                (
                    next,
                    match inserted {
                        Err(error) => Err(InsertError::Atlas(error)),
                        Ok(tile) => Ok(Some(tile)),
                    },
                )
            },
        }
    }

    /// What becomes of a key that is asked for: it gets its tile, or one is found for what was
    /// rendered.
    pub open spec fn lookup<E>(
        self,
        key: AtlasKey,
        built: Result<Option<(Size, Vec<u8>)>, E>,
    ) -> (Atlas, Result<Option<AtlasTile>, InsertError<E>>) {
        if self.tiles.contains_key(key) {
            (self, Ok(Some(self.tiles[key])))
        } else {
            self.insertion(key, built)
        }
    }

    /// The same without the tile of a key.
    pub open spec fn removal(self, key: AtlasKey) -> Atlas {
        if self.tiles.contains_key(key) {
            Atlas {
                textures: self.textures.release(self.tiles[key]),
                tiles: self.tiles.remove(key),
            }
        } else {
            self
        }
    }

    /// What becomes of new pixels for the part `bounds` of a key's tile. A key without a tile
    /// has no pixels to change.
    pub open spec fn update(self, key: AtlasKey, bounds: Bounds, bytes: Seq<u8>) -> (Atlas, Result<
        (),
        AtlasError,
    >) {
        if self.tiles.contains_key(key) {
            let tile = self.tiles[key];
            let bytes_per_pixel = pixel_format_of(tile.texture_id.kind).spec_bytes_per_pixel();
            match upload_answer(tile, bounds, bytes.len(), bytes_per_pixel) {
                Err(error) => (self, Err(error)),
                Ok(()) => (
                    self.with_textures(
                        self.textures.enqueue(
                            tile,
                            bounds_in_texture(tile, bounds),
                            bytes,
                            bytes_per_pixel,
                        ),
                    ),
                    Ok(()),
                ),
            }
        } else {
            (self, Ok(()))
        }
    }

    /// Textures with the same tiles in use serve the same keys.
    pub proof fn lemma_with_textures(self, next: Textures)
        requires
            self.wf(),
            next.wf(),
            self.textures.adds_nothing(next),
        ensures
            self.with_textures(next).wf(),
    {
        let after = self.with_textures(next);
        assert forall|key: AtlasKey| #[trigger] after.tiles.contains_key(key) implies next.holds(
            after.tiles[key],
        ) && after.is_placed(key) by {
            assert(self.textures.holds(self.tiles[key]) && self.is_placed(key));
            assert(next.texture(self.tiles[key].texture_id) is Some);
        }
        assert forall|id: AtlasTextureId, number: u32| #[trigger]
            next.is_live(id, number) implies exists|key: AtlasKey| #[trigger]
            after.owns(key, id, number) by {
            assert(self.textures.is_live(id, number));
            let key = choose|key: AtlasKey| #[trigger] self.owns(key, id, number);
            assert(after.owns(key, id, number));
        }
    }

    /// One more tile serves one more key.
    pub proof fn lemma_with_key(self, next: Textures, key: AtlasKey, tile: AtlasTile)
        requires
            self.wf(),
            next.wf(),
            !self.tiles.contains_key(key),
            self.textures.adds(next, tile),
            self.with_textures(next).with_key(key, tile).is_placed(key),
        ensures
            self.with_textures(next).with_key(key, tile).wf(),
    {
        let after = self.with_textures(next).with_key(key, tile);
        assert forall|other: AtlasKey| #[trigger] after.tiles.contains_key(other) implies
            next.holds(after.tiles[other]) && after.is_placed(other) by {
            if other != key {
                assert(self.textures.holds(self.tiles[other]) && self.is_placed(other));
                assert(next.texture(self.tiles[other].texture_id) is Some);
            }
        }
        assert forall|a: AtlasKey, b: AtlasKey|
            #![trigger after.tiles[a], after.tiles[b]]
            after.tiles.contains_key(a) && after.tiles.contains_key(b) && a != b implies
            after.tiles[a].texture_id != after.tiles[b].texture_id || after.tiles[a].tile_id
            != after.tiles[b].tile_id by {
            if a != key && b != key {
                assert(self.tiles[a] == after.tiles[a] && self.tiles[b] == after.tiles[b]);
            } else {
                let other = if a == key {
                    b
                } else {
                    a
                };
                assert(self.tiles.contains_key(other));
                assert(self.textures.holds(self.tiles[other]));
                assert(self.textures.is_live(
                    self.tiles[other].texture_id,
                    self.tiles[other].tile_id.0,
                ));
            }
        }
        assert forall|id: AtlasTextureId, number: u32| #[trigger]
            next.is_live(id, number) implies exists|other: AtlasKey| #[trigger]
            after.owns(other, id, number) by {
            if self.textures.is_live(id, number) {
                let other = choose|other: AtlasKey| #[trigger] self.owns(other, id, number);
                assert(after.owns(other, id, number));
            } else {
                assert(after.owns(key, id, number));
            }
        }
    }

    /// Taking a key's tile away leaves all other keys as they are.
    pub proof fn lemma_removal(self, key: AtlasKey)
        requires
            self.wf(),
        ensures
            self.removal(key).wf(),
    {
        let after = self.removal(key);
        if self.tiles.contains_key(key) {
            let tile = self.tiles[key];
            let id = tile.texture_id;
            assert(self.textures.holds(tile));
            self.textures.lemma_release(tile);
            let texture = self.textures.texture(id)->0;
            let next = texture.without_tile(tile.tile_id);
            assert forall|other: AtlasKey| #[trigger] after.tiles.contains_key(other) implies
                after.textures.holds(after.tiles[other]) && after.is_placed(other) by {
                assert(self.tiles.contains_key(other));
                assert(self.textures.holds(self.tiles[other]) && self.is_placed(other));
                if self.tiles[other].texture_id == id {
                    assert(self.tiles[other].tile_id != self.tiles[key].tile_id);
                    assert(next.live().contains_key(self.tiles[other].tile_id.0));
                    assert(next.live().dom().contains(self.tiles[other].tile_id.0));
                    assert(next.live().len() > 0);
                } else {
                    assert(after.textures.texture(self.tiles[other].texture_id)
                        == self.textures.texture(self.tiles[other].texture_id));
                }
            }
            assert forall|a: AtlasKey, b: AtlasKey|
                #![trigger after.tiles[a], after.tiles[b]]
                after.tiles.contains_key(a) && after.tiles.contains_key(b) && a != b implies
                after.tiles[a].texture_id != after.tiles[b].texture_id || after.tiles[a].tile_id
                != after.tiles[b].tile_id by {
                assert(self.tiles[a] == after.tiles[a] && self.tiles[b] == after.tiles[b]);
            }
            assert forall|other: AtlasTextureId, number: u32| #[trigger]
                after.textures.is_live(other, number) implies exists|owner: AtlasKey| #[trigger]
                after.owns(owner, other, number) by {
                assert(after.textures.texture(other) is Some);
                assert(self.textures.is_live(other, number));
                let owner = choose|owner: AtlasKey| #[trigger] self.owns(owner, other, number);
                assert(after.owns(owner, other, number));
            }
        }
    }
}

impl AtlasState {
    /// The textures are well formed, and serve the keys.
    pub open spec fn wf(&self) -> bool {
        &&& self.backend.wf()
        &&& self@.wf()
    }

    /// No key has a tile.
    pub fn new(backend: MetalAtlasTextures) -> (state: AtlasState)
        ensures
            state.backend == backend,
            state@ == (Atlas { textures: backend@, tiles: Map::empty() }),
    {
        AtlasState { backend, tiles_by_key: TileMap::new() }
    }

    /// Whether a key has a tile.
    pub fn contains(&self, key: &AtlasKey) -> (contained: bool)
        ensures
            contained == self@.tiles.contains_key(*key),
    {
        self.tiles_by_key.get(key).is_some()
    }

    /// The tile of a key.
    pub fn tile_for(&self, key: &AtlasKey) -> (tile: Option<&AtlasTile>)
        ensures
            match tile {
                None => !self@.tiles.contains_key(*key),
                Some(tile) => self@.tiles.contains_key(*key) && self@.tiles[*key] == *tile,
            },
    {
        self.tiles_by_key.get(key)
    }

    /// Gives a key a tile.
    pub fn insert_tile(&mut self, key: AtlasKey, tile: AtlasTile)
        ensures
            final(self)@ == old(self)@.with_key(key, tile),
            final(self).backend == old(self).backend,
    {
        self.tiles_by_key.insert(key, tile);
    }

    /// Takes the tile of a key away, if it has one.
    pub fn remove(&mut self, key: &AtlasKey)
        requires
            old(self).wf(),
        ensures
            final(self).wf(),
            final(self)@ == old(self)@.removal(*key),
            old(self)@.textures.is_in_step(final(self)@.textures),
    {
        proof {
            self@.lemma_removal(*key);
            self@.textures.lemma_in_step_without(self@.textures);
            if self@.tiles.contains_key(*key) {
                assert(self@.textures.holds(self@.tiles[*key]));
                self@.textures.lemma_holds(self@.tiles[*key]);
            }
        }
        let removed = self.tiles_by_key.remove(key);
        if let Some(tile) = removed {
            self.backend.remove(tile);
        } else {
            assert(self@.tiles =~= old(self)@.tiles);
        }
    }
}

} // verus!
