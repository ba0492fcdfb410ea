//! The atlas as a renderer uses it.
use crate::error::AtlasError;
use crate::geometry::{Bounds, Size};
use crate::gpu::{
    command_views, upload_views, Command, GpuCommand, MetalTexture, PendingUpload, Upload,
};
use crate::laws::{no_texture_becomes_idle, tiles_have_textures};
use crate::model::{square, Textures};
use crate::operation::Operation;
use crate::state::{Atlas, AtlasState, InsertError};
use crate::texture_list::{TextureList, MAX_ATLAS_SIDE};
use crate::textures::{max_atlas_size, MetalAtlasTextures};
use crate::tile::{AtlasKey, AtlasTextureId, AtlasTextureKind, AtlasTile};
use crate::upload::{upload_bounds, validate_upload};
use vstd::prelude::*;

verus! {

/// A texture atlas.
pub struct MetalAtlas(AtlasState);

impl View for MetalAtlas {
    type V = Atlas;

    closed spec fn view(&self) -> Atlas {
        self.0@
    }
}

impl MetalAtlas {
    /// The bytes that wait are counted.
    pub closed spec fn is_counted(&self) -> bool {
        self.0.backend.wf()
    }

    /// The textures are well formed, and serve the keys.
    pub open spec fn wf(&self) -> bool {
        &&& self@.wf()
        &&& self.is_counted()
    }

    /// An atlas without textures.
    pub fn new(is_apple_gpu: bool) -> (atlas: MetalAtlas)
        ensures
            atlas.wf(),
            atlas@ == (Atlas {
                textures: Textures {
                    is_apple_gpu,
                    monochrome: TextureList::empty(),
                    polychrome: TextureList::empty(),
                    image: TextureList::empty(),
                    image_small: TextureList::empty(),
                    pending: Seq::empty(),
                    commands: Seq::empty(),
                },
                tiles: Map::empty(),
            }),
            atlas@.has_no_idle_texture(),
    {
        MetalAtlas(AtlasState::new(MetalAtlasTextures::new(is_apple_gpu)))
    }

    /// The GPU texture that `id` names, or `None` once every tile in it has been removed. A
    /// scene can still refer to such a texture when a view is drawn again from before the
    /// removal: its sprites are skipped. A texture without tiles exists only where an insertion
    /// failed that had it made.
    pub fn metal_texture(&self, id: AtlasTextureId) -> (texture: Option<MetalTexture>)
        requires
            id.kind != AtlasTextureKind::Subpixel,
        ensures
            texture == match self@.textures.texture(id) {
                None => None,
                Some(texture) => Some(texture.metal_texture),
            },
            self.wf() && self@.has_no_idle_texture() ==> (texture is Some <==> self@.has_tile_in(
                id,
            )),
    {
        proof {
            if self.wf() {
                tiles_have_textures(self@, id);
            }
        }
        match self.0.backend.texture(id) {
            None => None,
            Some(texture) => Some(texture.metal_texture),
        }
    }

    /// Hands over the waiting uploads, in the order in which they came. The caller records
    /// them on a command buffer, so that they come after the frames submitted before and
    /// cannot race one that still reads a texture.
    pub fn encode_pending_uploads(&mut self) -> (uploads: Vec<PendingUpload>)
        requires
            old(self).wf(),
        ensures
            final(self).wf(),
            upload_views(uploads@) == old(self)@.textures.pending,
            final(self)@ == old(self)@.with_textures(old(self)@.textures.drained()),
            old(self)@.textures.is_in_step(final(self)@.textures),
            old(self)@.has_no_idle_texture() ==> final(self)@.has_no_idle_texture(),
    {
        proof {
            if self@.has_no_idle_texture() {
                no_texture_becomes_idle(self@, Operation::<()>::EncodeUploads);
            }
            self@.textures.lemma_drained();
            self@.lemma_with_textures(self@.textures.drained());
        }
        self.0.backend.encode_pending_locked()
    }

    /// Commits the waiting uploads on a command buffer of their own. A later error that drops
    /// the frame's command buffer then cannot lose them, and they still come before the frame
    /// that reads the textures.
    pub fn commit_pending_uploads(&mut self)
        requires
            old(self).wf(),
        ensures
            final(self).wf(),
            final(self)@ == if old(self)@.textures.pending.len() == 0 {
                old(self)@
            } else {
                old(self)@.with_textures(old(self)@.textures.flushed())
            },
            final(self)@.textures.pending == Seq::<Upload>::empty(),
            old(self)@.textures.pending.len() > 0 ==> final(self)@.textures.commands == old(
                self,
            )@.textures.commands.push(
                Command::CommitUploads { uploads: old(self)@.textures.pending },
            ),
            old(self)@.textures.is_in_step(final(self)@.textures),
            old(self)@.has_no_idle_texture() ==> final(self)@.has_no_idle_texture(),
    {
        proof {
            if self@.has_no_idle_texture() {
                no_texture_becomes_idle(self@, Operation::<()>::CommitUploads);
            }
        }
        if self.0.backend.pending_uploads.is_empty() {
            assert(self@.textures.pending =~= Seq::<Upload>::empty());
            proof {
                self@.textures.lemma_in_step_without(self@.textures);
            }
            return;
        }
        proof {
            let before = self@.textures;
            before.lemma_encodable();
            before.lemma_flushed();
            self@.lemma_with_textures(before.flushed());
        }
        self.0.backend.commit_pending_locked();
    }

    /// The tile of a key. Where the key has none, `build` renders its pixels and says how many
    /// there are, or that there is nothing to show; `build` is not called otherwise.
    pub fn get_or_insert_with<E, F: FnOnce() -> Result<Option<(Size, Vec<u8>)>, E>>(
        &mut self,
        key: AtlasKey,
        build: F,
    ) -> (tile: Result<Option<AtlasTile>, InsertError<E>>)
        requires
            old(self).wf(),
            !old(self)@.tiles.contains_key(key) ==> build.requires(()),
            forall|built: Result<Option<(Size, Vec<u8>)>, E>|
                !old(self)@.tiles.contains_key(key) && #[trigger] build.ensures((), built) ==> (
                built matches Ok(Some((size, _))) ==> old(self)@.can_insert(key, size)),
        ensures
            final(self).wf(),
            tile matches Ok(Some(tile)) ==> {
                &&& final(self)@.tiles.contains_key(key)
                &&& final(self)@.tiles[key] == tile
            },
            old(self)@.tiles.contains_key(key) ==> {
                &&& tile == Ok::<Option<AtlasTile>, InsertError<E>>(Some(old(self)@.tiles[key]))
                &&& final(self)@ == old(self)@
            },
            !old(self)@.tiles.contains_key(key) ==> exists|
                built: Result<Option<(Size, Vec<u8>)>, E>,
            |
                {
                    &&& #[trigger] build.ensures((), built)
                    &&& (final(self)@, tile) == old(self)@.insertion(key, built)
                    &&& built matches Ok(Some((size, _))) ==> (tile is Ok <==> size.is_within(
                        square(MAX_ATLAS_SIDE),
                    ))
                    &&& built matches Ok(Some((size, _))) ==> (tile is Ok <==> 1 <= size.width.0
                        <= 16384 && 1 <= size.height.0 <= 16384)
                },
            old(self)@.textures.is_in_step(final(self)@.textures),
            old(self)@.has_no_idle_texture() && !(tile matches Err(
                InsertError::Atlas(AtlasError::Allocation),
            )) ==> final(self)@.has_no_idle_texture(),
    {
        proof {
            self@.textures.lemma_in_step_without(self@.textures);
        }
        if let Some(tile) = self.0.tile_for(&key) {
            return Ok(Some(*tile));
        }
        let built = build();
        self.insert_built(key, built)
    }

    /// Whether a key can be given a tile of this size: whether the atlas has textures of its
    /// kind, a number for one more of them, and none that is near the end of a counter.
    pub fn can_insert(&self, key: &AtlasKey, size: Size) -> (possible: bool)
        ensures
            possible == self@.can_insert(*key, size),
    {
        let kind = key.texture_kind();
        match key {
            AtlasKey::DynamicTexture(_) => {
                !size.fits_in(&max_atlas_size()) || self.0.backend.has_room(kind)
            },
            _ => self.0.backend.can_allocate(MetalAtlasTextures::page_kind(kind, size)),
        }
    }

    /// The tile of a key.
    pub fn tile_for(&self, key: &AtlasKey) -> (tile: Option<AtlasTile>)
        ensures
            tile == if self@.tiles.contains_key(*key) {
                Some(self@.tiles[*key])
            } else {
                None
            },
    {
        match self.0.tile_for(key) {
            None => None,
            Some(tile) => Some(*tile),
        }
    }

    /// Finds a tile for a key that has none, once its pixels were rendered. Dynamic textures
    /// get a texture sized exactly to them, so that later updates of a part of it never spill
    /// into another tile.
    pub fn insert_built<E>(
        &mut self,
        key: AtlasKey,
        built: Result<Option<(Size, Vec<u8>)>, E>,
    ) -> (tile: Result<Option<AtlasTile>, InsertError<E>>)
        requires
            old(self).wf(),
            !old(self)@.tiles.contains_key(key),
            built matches Ok(Some((size, _))) ==> old(self)@.can_insert(key, size),
        ensures
            final(self).wf(),
            (final(self)@, tile) == old(self)@.insertion(key, built),
            tile matches Ok(Some(tile)) ==> {
                &&& final(self)@.tiles.contains_key(key)
                &&& final(self)@.tiles[key] == tile
            },
            old(self)@.textures.is_in_step(final(self)@.textures),
            built matches Ok(Some((size, _))) ==> (tile is Ok <==> size.is_within(
                square(MAX_ATLAS_SIDE),
            )),
            built matches Ok(Some((size, _))) ==> (tile is Ok <==> 1 <= size.width.0 <= 16384 && 1
                <= size.height.0 <= 16384),
            old(self)@.has_no_idle_texture() && !(tile matches Err(
                InsertError::Atlas(AtlasError::Allocation),
            )) ==> final(self)@.has_no_idle_texture(),
    {
        let ghost before = self@;
        proof {
            before.textures.lemma_in_step_without(before.textures);
            let get = Operation::Get { key, built };
            if before.has_no_idle_texture() && !get.is_refused(before) {
                no_texture_becomes_idle(before, get);
            }
        }
        let (size, bytes) = match built {
            Err(error) => {
                return Err(InsertError::Build(error));
            },
            Ok(None) => {
                return Ok(None);
            },
            Ok(Some(rendered)) => rendered,
        };
        let kind = key.texture_kind();
        let inserted = match key {
            AtlasKey::DynamicTexture(_) => self.0.backend.insert_dedicated(kind, size),
            _ => self.0.backend.insert(kind, size, bytes.as_slice()),
        };
        match inserted {
            Err(error) => {
                proof {
                    before.lemma_with_textures(self@.textures);
                }
                Err(InsertError::Atlas(error))
            },
            Ok(tile) => {
                proof {
                    before.lemma_with_key(self@.textures, key, tile);
                }
                self.0.insert_tile(key, tile);
                Ok(Some(tile))
            },
        }
    }

    /// Overwrites the part `bounds` of a key's tile before the next frame. A key without a tile
    /// has no pixels to change. An update of a whole tile drops what waits for its texture, also
    /// for other keys that have a tile in it.
    pub fn update(&mut self, key: &AtlasKey, bounds: Bounds, bytes: &[u8]) -> (answer: Result<
        (),
        AtlasError,
    >)
        requires
            old(self).wf(),
        ensures
            final(self).wf(),
            (final(self)@, answer) == old(self)@.update(*key, bounds, bytes@),
            old(self)@.textures.is_in_step(final(self)@.textures),
            old(self)@.has_no_idle_texture() ==> final(self)@.has_no_idle_texture(),
    {
        proof {
            if self@.has_no_idle_texture() {
                no_texture_becomes_idle(
                    self@,
                    Operation::<()>::Update { key: *key, bounds, bytes: bytes@ },
                );
            }
            self@.textures.lemma_in_step_without(self@.textures);
        }
        let tile: AtlasTile = match self.0.tile_for(key) {
            None => {
                return Ok(());
            },
            Some(tile) => *tile,
        };
        proof {
            assert(self@.textures.holds(tile));
            self@.textures.lemma_holds(tile);
        }
        let bytes_per_pixel: u8 = match self.0.backend.texture(tile.texture_id) {
            None => vstd::pervasive::unreached(),
            Some(texture) => texture.bytes_per_pixel(),
        };
        if let Err(error) = validate_upload(tile, bounds, bytes, bytes_per_pixel) {
            return Err(error);
        }
        let upload_bounds = match upload_bounds(tile, bounds) {
            Err(error) => {
                return Err(error);
            },
            Ok(upload_bounds) => upload_bounds,
        };
        proof {
            let before = self@.textures;
            let next = before.enqueue(tile, upload_bounds, bytes@, bytes_per_pixel);
            before.lemma_enqueue(tile, upload_bounds, bytes@, bytes_per_pixel);
            self@.lemma_with_textures(next);
        }
        self.0.backend.queue_upload(tile, upload_bounds, bytes, bytes_per_pixel);
        Ok(())
    }

    /// How often the atlas lost its GPU resources: never.
    pub fn resource_generation(&self) -> (generation: u64)
        ensures
            generation == 0,
    {
        0
    }

    /// The largest tile that the atlas can hold.
    pub fn max_texture_size(&self) -> (size: Option<Size>)
        ensures
            size == Some(square(MAX_ATLAS_SIDE)),
            size matches Some(size) && size.width.0 == 16384 && size.height.0 == 16384,
    {
        Some(max_atlas_size())
    }

    /// Takes the tile of a key away, if it has one.
    pub fn remove(&mut self, key: &AtlasKey)
        requires
            old(self).wf(),
        ensures
            final(self).wf(),
            final(self)@ == old(self)@.removal(*key),
            old(self)@.textures.is_in_step(final(self)@.textures),
            old(self)@.has_no_idle_texture() ==> final(self)@.has_no_idle_texture(),
    {
        proof {
            if self@.has_no_idle_texture() {
                no_texture_becomes_idle(self@, Operation::<()>::Remove { key: *key });
            }
        }
        self.0.remove(key);
    }

    /// Hands over the commands that the GPU has yet to be given, oldest first.
    pub fn take_commands(&mut self) -> (commands: Vec<GpuCommand>)
        requires
            old(self).wf(),
        ensures
            final(self).wf(),
            command_views(commands@) == old(self)@.textures.commands,
            final(self)@ == old(self)@.with_textures(
                Textures { commands: Seq::empty(), ..old(self)@.textures },
            ),
            old(self)@.has_no_idle_texture() ==> final(self)@.has_no_idle_texture(),
    {
        let ghost before = self@;
        proof {
            if before.has_no_idle_texture() {
                no_texture_becomes_idle(before, Operation::<()>::TakeCommands);
            }
        }
        let mut commands: Vec<GpuCommand> = Vec::new();
        std::mem::swap(&mut commands, &mut self.0.backend.commands);
        assert(self@.textures.commands =~= Seq::<Command>::empty());
        proof {
            before.textures.lemma_same_textures(self@.textures);
            before.lemma_with_textures(self@.textures);
        }
        commands
    }
}

} // verus!
