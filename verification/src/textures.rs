//! All textures of the atlas, and the uploads that wait for them.
use crate::allocator::{deallocate_area, new_allocator};
use crate::error::AtlasError;
use crate::geometry::{Bounds, DevicePixels, Point, Size};
use crate::gpu::{
    command_views, upload_views, Command, GpuCommand, MetalTexture, PendingUpload, PixelFormat,
    StorageMode, TextureExtent, TextureOrigin, TextureUsage, Upload,
};
use crate::model::{
    page_kind, page_size, square, Textures, DEFAULT_ATLAS_SIDE, DEFAULT_COLOR_ATLAS_SIDE,
    SMALL_IMAGE_TILE_MAX,
};
use crate::texture::MetalAtlasTexture;
use crate::texture_list::{
    lemma_slot_views, pixel_format_of, slot_view, AtlasTextureList, TextureList, MAX_ATLAS_SIDE,
};
use crate::tile::{AtlasTextureId, AtlasTextureKind, AtlasTile};
use crate::upload::{
    lemma_filter_step, lemma_total_push, lemma_total_take, lemma_uploads_except, total_bytes,
    uploads_except, MAX_PENDING_UPLOAD_BYTES,
};
use vstd::prelude::*;
use vstd::slice::slice_to_vec;

verus! {

/// The textures of every kind, the uploads that wait to be copied to them, and the commands
/// that the GPU has yet to be given.
pub struct MetalAtlasTextures {
    pub is_apple_gpu: bool,
    pub monochrome_textures: AtlasTextureList,
    pub polychrome_textures: AtlasTextureList,
    pub image_textures: AtlasTextureList,
    pub image_small_textures: AtlasTextureList,
    pub pending_uploads: Vec<PendingUpload>,
    pub pending_upload_bytes: usize,
    pub commands: Vec<GpuCommand>,
}

impl View for MetalAtlasTextures {
    type V = Textures;

    open spec fn view(&self) -> Textures {
        Textures {
            is_apple_gpu: self.is_apple_gpu,
            monochrome: self.monochrome_textures@,
            polychrome: self.polychrome_textures@,
            image: self.image_textures@,
            image_small: self.image_small_textures@,
            pending: upload_views(self.pending_uploads@),
            commands: command_views(self.commands@),
        }
    }
}

impl MetalAtlasTextures {
    /// The textures are well formed, and the bytes that wait are counted.
    pub open spec fn wf(&self) -> bool {
        &&& self@.wf()
        &&& self.pending_upload_bytes == total_bytes(self@.pending)
    }

    /// No texture, nothing that waits.
    pub fn new(is_apple_gpu: bool) -> (textures: MetalAtlasTextures)
        ensures
            textures.wf(),
            textures@ == (Textures {
                is_apple_gpu,
                monochrome: TextureList::empty(),
                polychrome: TextureList::empty(),
                image: TextureList::empty(),
                image_small: TextureList::empty(),
                pending: Seq::empty(),
                commands: Seq::empty(),
            }),
    {
        let textures = MetalAtlasTextures {
            is_apple_gpu,
            monochrome_textures: AtlasTextureList::new(),
            polychrome_textures: AtlasTextureList::new(),
            image_textures: AtlasTextureList::new(),
            image_small_textures: AtlasTextureList::new(),
            pending_uploads: Vec::new(),
            pending_upload_bytes: 0,
            commands: Vec::new(),
        };
        assert(textures@.pending =~= Seq::<Upload>::empty());
        assert(textures@.commands =~= Seq::<Command>::empty());
        textures
    }

    /// The textures of a kind, to be changed.
    fn list_mut(&mut self, kind: AtlasTextureKind) -> (list: &mut AtlasTextureList)
        requires
            kind != AtlasTextureKind::Subpixel,
        ensures
            list@ == old(self)@.list(kind),
            final(self)@ == old(self)@.with_list(kind, final(list)@),
            final(self).pending_upload_bytes == old(self).pending_upload_bytes,
    {
        match kind {
            AtlasTextureKind::Monochrome => &mut self.monochrome_textures,
            AtlasTextureKind::Polychrome => &mut self.polychrome_textures,
            AtlasTextureKind::Image => &mut self.image_textures,
            AtlasTextureKind::ImageSmall | AtlasTextureKind::Subpixel =>
                &mut self.image_small_textures,
        }
    }

    /// Makes a texture of exactly this size.
    pub fn push_texture_with_size(&mut self, size: Size, kind: AtlasTextureKind) -> (texture:
        &mut MetalAtlasTexture)
        requires
            old(self).wf(),
            kind != AtlasTextureKind::Subpixel,
            old(self)@.list(kind).has_room(),
            size.is_within(square(MAX_ATLAS_SIDE)),
        ensures
            texture@ == old(self)@.new_texture(size, kind),
            texture@.wf(),
            final(self)@ == old(self)@.with_new_texture(size, kind).with_texture(
                old(self)@.new_texture(size, kind).id,
                final(texture)@,
            ),
            final(self).pending_upload_bytes == old(self).pending_upload_bytes,
    {
        let ghost before = self@;
        proof {
            before.lemma_with_new_texture(size, kind);
        }
        let (pixel_format, usage) = match kind {
            AtlasTextureKind::Monochrome => (PixelFormat::A8Unorm, TextureUsage::ShaderRead),
            AtlasTextureKind::Polychrome
            | AtlasTextureKind::Image
            | AtlasTextureKind::ImageSmall
            | AtlasTextureKind::Subpixel => (PixelFormat::BGRA8Unorm, TextureUsage::ShaderRead),
        };
        let metal_texture = MetalTexture {
            width: size.width.to_u64(),
            height: size.height.to_u64(),
            pixel_format,
            usage,
            storage_mode: if self.is_apple_gpu {
                StorageMode::Shared
            } else {
                StorageMode::Managed
            },
        };
        assert(before.list(kind).wf(kind, before.is_apple_gpu));
        let texture_list = self.list_mut(kind);
        let index = texture_list.free_list.pop();
        assert(index is Some ==> index->0 == before.list(kind).free_list[before.list(
            kind,
        ).free_list.len() - 1]);
        let slot: usize = match index {
            Some(index) => index,
            None => texture_list.textures.len(),
        };
        let id = AtlasTextureId { index: slot as u32, kind };
        let atlas_texture = MetalAtlasTexture {
            id,
            allocator: new_allocator(size.width.0, size.height.0),
            metal_texture,
            live_atlas_keys: 0,
            count_rounds: 0,
        };
        let ghost texture = atlas_texture@;
        if index.is_some() {
            texture_list.textures[slot] = Some(atlas_texture);
        } else {
            texture_list.textures.push(Some(atlas_texture));
        }
        assert(texture == before.new_texture(size, kind));
        assert(texture_list@.textures =~= before.list(kind).with_new(texture).textures);
        self.commands.push(GpuCommand::CreateTexture { id, texture: metal_texture });
        assert(self@.commands =~= before.with_new_texture(size, kind).commands);
        assert(self@ == before.with_new_texture(size, kind));
        let texture_list = self.list_mut(kind);
        proof {
            lemma_slot_views(texture_list.textures@, slot as int);
        }
        match &mut texture_list.textures[slot] {
            Some(texture) => texture,
            None => vstd::pervasive::unreached(),
        }
    }

    /// Makes a texture for a tile of at least `min_size`, as far as textures go.
    pub fn push_texture(&mut self, min_size: Size, kind: AtlasTextureKind) -> (texture:
        &mut MetalAtlasTexture)
        requires
            old(self).wf(),
            kind != AtlasTextureKind::Subpixel,
            old(self)@.list(kind).has_room(),
        ensures
            texture@ == old(self)@.new_texture(page_size(min_size, kind), kind),
            texture@.wf(),
            final(self)@ == old(self)@.with_new_texture(
                page_size(min_size, kind),
                kind,
            ).with_texture(
                old(self)@.new_texture(page_size(min_size, kind), kind).id,
                final(texture)@,
            ),
            final(self).pending_upload_bytes == old(self).pending_upload_bytes,
    {
        let default_side: i32 = match kind {
            AtlasTextureKind::Polychrome
            | AtlasTextureKind::Image
            | AtlasTextureKind::ImageSmall
            | AtlasTextureKind::Subpixel => DEFAULT_COLOR_ATLAS_SIDE,
            AtlasTextureKind::Monochrome => DEFAULT_ATLAS_SIDE,
        };
        let default_size = Size {
            width: DevicePixels(default_side),
            height: DevicePixels(default_side),
        };
        let size = min_size.min(&max_atlas_size()).max(&default_size);
        self.push_texture_with_size(size, kind)
    }

    /// The kind of texture that a tile goes to: small images are kept apart.
    pub fn page_kind(kind: AtlasTextureKind, size: Size) -> (page: AtlasTextureKind)
        ensures
            page == page_kind(kind, size),
    {
        if kind == AtlasTextureKind::Image && size.width.0 <= SMALL_IMAGE_TILE_MAX
            && size.height.0 <= SMALL_IMAGE_TILE_MAX {
            AtlasTextureKind::ImageSmall
        } else {
            kind
        }
    }

    /// Whether a texture of the kind can be made.
    pub fn has_room(&self, kind: AtlasTextureKind) -> (room: bool)
        ensures
            room == (kind != AtlasTextureKind::Subpixel && self@.list(kind).has_room()),
    {
        match kind {
            AtlasTextureKind::Monochrome => self.monochrome_textures.has_room(),
            AtlasTextureKind::Polychrome => self.polychrome_textures.has_room(),
            AtlasTextureKind::Image => self.image_textures.has_room(),
            AtlasTextureKind::ImageSmall => self.image_small_textures.has_room(),
            AtlasTextureKind::Subpixel => false,
        }
    }

    /// Whether the textures of the kind can be asked for a tile, and one more of them made.
    pub fn can_allocate(&self, kind: AtlasTextureKind) -> (possible: bool)
        ensures
            possible == (kind != AtlasTextureKind::Subpixel && self@.list(kind).can_allocate()),
    {
        match kind {
            AtlasTextureKind::Monochrome => self.monochrome_textures.can_allocate(),
            AtlasTextureKind::Polychrome => self.polychrome_textures.can_allocate(),
            AtlasTextureKind::Image => self.image_textures.can_allocate(),
            AtlasTextureKind::ImageSmall => self.image_small_textures.can_allocate(),
            AtlasTextureKind::Subpixel => false,
        }
    }

    /// Takes `size` pixels of a texture of the kind, and makes a texture where there is no
    /// room left. Succeeds for every size that a texture can have.
    pub fn allocate(&mut self, size: Size, texture_kind: AtlasTextureKind) -> (tile: Option<
        AtlasTile,
    >)
        requires
            old(self).wf(),
            texture_kind != AtlasTextureKind::Subpixel,
            old(self)@.list(page_kind(texture_kind, size)).can_allocate(),
        ensures
            final(self).wf(),
            (final(self)@, tile) == old(self)@.allocation(size, texture_kind),
            old(self)@.is_in_step(final(self)@),
            tile is Some <==> size.is_within(square(MAX_ATLAS_SIDE)),
            tile is Some <==> 1 <= size.width.0 <= 16384 && 1 <= size.height.0 <= 16384,
            tile matches Some(tile) ==> {
                &&& tile.texture_id.kind == page_kind(texture_kind, size)
                &&& tile.bounds.size == size
                &&& old(self)@.adds(final(self)@, tile)
            },
            tile is None ==> old(self)@.adds_nothing(final(self)@),
    {
        let ghost before = self@;
        let kind = Self::page_kind(texture_kind, size);
        assert(before.list(kind).wf(kind, before.is_apple_gpu));
        let found = self.list_mut(kind).allocate(size, Ghost(kind), Ghost(before.is_apple_gpu));
        if let Some(tile) = found {
            proof {
                before.lemma_with_tile(tile);
            }
            return Some(tile);
        }
        let texture = self.push_texture(size, kind);
        let tile = texture.allocate(size);
        proof {
            before.lemma_allocation_in_new(page_size(size, kind), kind, size, texture@);
        }
        tile
    }

    /// Makes a texture of exactly `size` pixels, and takes all of it.
    pub fn allocate_dedicated(&mut self, size: Size, texture_kind: AtlasTextureKind) -> (tile:
        Option<AtlasTile>)
        requires
            old(self).wf(),
            size.is_within(square(MAX_ATLAS_SIDE)) ==> texture_kind != AtlasTextureKind::Subpixel
                && old(self)@.list(texture_kind).has_room(),
        ensures
            final(self).wf(),
            (final(self)@, tile) == old(self)@.dedicated_allocation(size, texture_kind),
            old(self)@.is_in_step(final(self)@),
            tile is Some <==> size.is_within(square(MAX_ATLAS_SIDE)),
            tile is Some <==> 1 <= size.width.0 <= 16384 && 1 <= size.height.0 <= 16384,
            tile matches Some(tile) ==> {
                &&& tile.texture_id == old(self)@.new_texture(size, texture_kind).id
                &&& tile.bounds == (Bounds {
                    origin: Point { x: DevicePixels(0), y: DevicePixels(0) },
                    size,
                })
                &&& old(self)@.adds(final(self)@, tile)
                &&& final(self)@.texture(tile.texture_id)->0.metal_texture == old(
                    self,
                )@.new_texture(size, texture_kind).metal_texture
            },
    {
        if !size.fits_in(&max_atlas_size()) {
            proof {
                self@.lemma_in_step_without(self@);
            }
            return None;
        }
        let ghost before = self@;
        let texture = self.push_texture_with_size(size, texture_kind);
        let tile = texture.allocate(size);
        proof {
            before.lemma_allocation_in_new(size, texture_kind, size, texture@);
        }
        tile
    }

    /// Makes a texture of exactly `size` pixels for a dynamic texture alone.
    pub fn insert_dedicated(&mut self, kind: AtlasTextureKind, size: Size) -> (tile: Result<
        AtlasTile,
        AtlasError,
    >)
        requires
            old(self).wf(),
            size.is_within(square(MAX_ATLAS_SIDE)) ==> kind != AtlasTextureKind::Subpixel && old(
                self,
            )@.list(kind).has_room(),
        ensures
            final(self).wf(),
            final(self)@ == old(self)@.dedicated_allocation(size, kind).0,
            old(self)@.is_in_step(final(self)@),
            tile == match old(self)@.dedicated_allocation(size, kind).1 {
                None => Err(AtlasError::DedicatedAllocation),
                Some(tile) => Ok(tile),
            },
            tile is Ok <==> size.is_within(square(MAX_ATLAS_SIDE)),
            tile is Ok <==> 1 <= size.width.0 <= 16384 && 1 <= size.height.0 <= 16384,
            tile matches Ok(tile) ==> {
                &&& tile.texture_id == old(self)@.new_texture(size, kind).id
                &&& tile.bounds == (Bounds {
                    origin: Point { x: DevicePixels(0), y: DevicePixels(0) },
                    size,
                })
                &&& old(self)@.adds(final(self)@, tile)
                &&& final(self)@.texture(tile.texture_id)->0.metal_texture == old(
                    self,
                )@.new_texture(size, kind).metal_texture
            },
    {
        match self.allocate_dedicated(size, kind) {
            None => Err(AtlasError::DedicatedAllocation),
            Some(tile) => Ok(tile),
        }
    }
}

impl MetalAtlasTextures {
    /// The texture that `id` names, if there is one.
    pub fn texture(&self, id: AtlasTextureId) -> (texture: Option<&MetalAtlasTexture>)
        requires
            id.kind != AtlasTextureKind::Subpixel,
        ensures
            match texture {
                None => self@.texture(id) is None,
                Some(texture) => self@.texture(id) == Some(texture@),
            },
    {
        let list = match id.kind {
            AtlasTextureKind::Monochrome => &self.monochrome_textures,
            AtlasTextureKind::Polychrome => &self.polychrome_textures,
            AtlasTextureKind::Image => &self.image_textures,
            AtlasTextureKind::ImageSmall | AtlasTextureKind::Subpixel =>
                &self.image_small_textures,
        };
        let index: usize = id.index as usize;
        if index < list.textures.len() {
            assert(list@.textures[index as int] == slot_view(list.textures@[index as int]));
            list.textures[index].as_ref()
        } else {
            None
        }
    }

    /// Takes a tile, and has its pixels overwritten with `bytes`.
    pub fn insert(&mut self, kind: AtlasTextureKind, size: Size, bytes: &[u8]) -> (tile: Result<
        AtlasTile,
        AtlasError,
    >)
        requires
            old(self).wf(),
            kind != AtlasTextureKind::Subpixel,
            old(self)@.list(page_kind(kind, size)).can_allocate(),
        ensures
            final(self).wf(),
            match old(self)@.allocation(size, kind) {
                (next, None) => {
                    &&& tile == Err::<AtlasTile, AtlasError>(AtlasError::Allocation)
                    &&& final(self)@ == next
                },
                (next, Some(allocated)) => {
                    &&& tile == Ok::<AtlasTile, AtlasError>(allocated)
                    &&& final(self)@ == next.with_command(
                        Command::ReplaceRegion {
                            upload: Upload::of(
                                allocated.texture_id,
                                allocated.bounds,
                                bytes@,
                                pixel_format_of(allocated.texture_id.kind).spec_bytes_per_pixel(),
                            ),
                        },
                    )
                },
            },
            old(self)@.is_in_step(final(self)@),
            tile is Ok <==> size.is_within(square(MAX_ATLAS_SIDE)),
            tile is Ok <==> 1 <= size.width.0 <= 16384 && 1 <= size.height.0 <= 16384,
            tile matches Ok(tile) ==> {
                &&& tile.texture_id.kind == page_kind(kind, size)
                &&& tile.bounds.size == size
                &&& old(self)@.adds(final(self)@, tile)
            },
            tile is Err ==> old(self)@.adds_nothing(final(self)@),
    {
        let tile = match self.allocate(size, kind) {
            None => {
                return Err(AtlasError::Allocation);
            },
            Some(tile) => tile,
        };
        let ghost next = self@;
        proof {
            next.lemma_holds(tile);
        }
        let command = match self.texture(tile.texture_id) {
            None => vstd::pervasive::unreached(),
            Some(texture) => texture.upload(tile.bounds, bytes),
        };
        self.commands.push(command);
        assert(self@.commands =~= next.with_command(command@).commands);
        proof {
            next.lemma_with_command(command@);
            old(self)@.lemma_in_step_twice(next, self@);
        }
        Ok(tile)
    }

    /// Drops the uploads that wait for a texture.
    fn drop_uploads(&mut self, id: AtlasTextureId)
        requires
            total_bytes(old(self)@.pending) <= usize::MAX,
        ensures
            final(self)@ == (Textures {
                pending: uploads_except(old(self)@.pending, id),
                ..old(self)@
            }),
            final(self).pending_upload_bytes == total_bytes(final(self)@.pending),
    {
        let ghost before = self@.pending;
        let mut uploads: Vec<PendingUpload> = Vec::new();
        std::mem::swap(&mut uploads, &mut self.pending_uploads);
        let ghost all = uploads@;
        let mut kept: Vec<PendingUpload> = Vec::new();
        let mut bytes: usize = 0;
        for upload in it: uploads
            invariant
                it.seq() == all,
                before == upload_views(all),
                total_bytes(before) <= usize::MAX,
                upload_views(kept@) == uploads_except(before.take(it.index()), id),
                bytes == total_bytes(upload_views(kept@)),
        {
            let ghost index = it.index() as int;
            let ghost kept_before = upload_views(kept@);
            proof {
                assert(before[index] == upload@);
                lemma_filter_step(before, index, |upload: Upload| upload.texture_id != id);
                lemma_uploads_except(before.take(index + 1), id);
                lemma_total_take(before, index + 1);
                lemma_total_push(kept_before, upload@);
            }
            if upload.texture_id != id {
                bytes += upload.data.len();
                kept.push(upload);
                assert(upload_views(kept@) =~= kept_before.push(upload@));
            }
        }
        assert(before.take(all.len() as int) =~= before);
        self.pending_uploads = kept;
        self.pending_upload_bytes = bytes;
    }
}

impl MetalAtlasTextures {
    /// Gives back a tile that is in use. A texture goes with its last tile, and the uploads
    /// that wait for it go too. A tile of a texture that is gone is gone already.
    pub fn remove(&mut self, tile: AtlasTile)
        requires
            old(self).wf(),
            tile.texture_id.kind != AtlasTextureKind::Subpixel,
            old(self)@.texture(tile.texture_id) matches Some(texture)
                ==> texture.live().contains_key(tile.tile_id.0),
        ensures
            final(self).wf(),
            final(self)@ == old(self)@.release(tile),
            old(self)@.is_in_step(final(self)@),
    {
        let ghost before = self@;
        let id = tile.texture_id;
        let mut freed = false;
        let ghost list = before.list(id.kind);
        proof {
            before.lemma_release(tile);
        }
        assert(list.wf(id.kind, before.is_apple_gpu));
        let textures = self.list_mut(id.kind);
        let slot: usize = id.index as usize;
        if slot >= textures.textures.len() {
            return;
        }
        proof {
            lemma_slot_views(textures.textures@, slot as int);
        }
        assert(textures@.textures[slot as int] == slot_view(textures.textures@[slot as int]));
        if let Some(mut texture) = textures.textures[slot].take() {
            deallocate_area(&mut texture.allocator, tile.tile_id.0);
            texture.decrement_ref_count();
            if texture.is_unreferenced() {
                textures.free_list.push(slot);
                freed = true;
                assert(textures@.textures =~= list.without_texture(slot as int).textures);
            } else {
                textures.textures[slot] = Some(texture);
                assert(textures@.textures =~= list.with_texture(slot as int, texture@).textures);
            }
        } else {
            assert(textures@.textures =~= list.textures);
        }
        if freed {
            // The texture is gone, and what waits to be copied to it is of no use.
            self.drop_uploads(id);
            self.commands.push(GpuCommand::DropTexture { id });
            assert(self@.commands =~= before.release(tile).commands);
        }
    }
}

impl MetalAtlasTextures {
    /// Has an upload wait until the next frame. Where too many bytes would wait, all uploads
    /// are committed at once instead, however many bytes there are. An upload to all of `tile`
    /// drops every earlier one for its texture, those for other tiles of it among them.
    pub fn queue_upload(
        &mut self,
        tile: AtlasTile,
        bounds: Bounds,
        bytes: &[u8],
        bytes_per_pixel: u8,
    )
        requires
            old(self).pending_upload_bytes == total_bytes(old(self)@.pending),
            old(self)@.kinds_wf(),
            tile.texture_id.kind != AtlasTextureKind::Subpixel,
            0 <= bounds.size.width.0,
            bounds.size.width.0 * bytes_per_pixel <= u32::MAX,
        ensures
            final(self)@ == old(self)@.enqueue(tile, bounds, bytes@, bytes_per_pixel),
            final(self).pending_upload_bytes == total_bytes(final(self)@.pending),
            final(self).pending_upload_bytes <= MAX_PENDING_UPLOAD_BYTES,
            final(self)@.kinds_wf(),
            old(self).wf() && old(self)@.accepts(
                Upload::of(tile.texture_id, bounds, bytes@, bytes_per_pixel),
            ) ==> final(self).wf() && old(self)@.is_in_step(final(self)@),
    {
        let ghost before = self@;
        proof {
            if before.wf() && before.accepts(
                Upload::of(tile.texture_id, bounds, bytes@, bytes_per_pixel),
            ) {
                before.lemma_enqueue(tile, bounds, bytes@, bytes_per_pixel);
            }
            before.lemma_kinds_except(tile.texture_id);
        }
        let is_full_update = bounds.origin == tile.bounds.origin && bounds.size
            == tile.bounds.size;
        if is_full_update {
            // What waits for the texture would be overwritten.
            self.drop_uploads(tile.texture_id);
        }
        let ghost kept = self@.pending;
        self.pending_upload_bytes = self.pending_upload_bytes.saturating_add(bytes.len());
        let upload = PendingUpload {
            texture_id: tile.texture_id,
            origin: TextureOrigin {
                x: bounds.origin.x.0 as u64,
                y: bounds.origin.y.0 as u64,
                z: 0,
            },
            size: TextureExtent {
                width: bounds.size.width.0 as u64,
                height: bounds.size.height.0 as u64,
                depth: 1,
            },
            bytes_per_row: bounds.size.width.to_bytes(bytes_per_pixel) as u64,
            data: slice_to_vec(bytes),
        };
        let ghost queued = upload@;
        self.pending_uploads.push(upload);
        proof {
            assert(self@.pending =~= kept.push(queued));
            lemma_total_push(kept, queued);
            assert(queued == Upload::of(tile.texture_id, bounds, bytes@, bytes_per_pixel));
        }
        assert(self@.kinds_wf()) by {
            assert forall|i: int| 0 <= i < self@.pending.len() implies (
            #[trigger] self@.pending[i]).texture_id.kind != AtlasTextureKind::Subpixel by {
                if i < kept.len() {
                    assert(self@.pending[i] == kept[i]);
                }
            }
        }
        if self.pending_upload_bytes > MAX_PENDING_UPLOAD_BYTES {
            self.commit_pending_locked();
        }
    }

    /// Hands over the uploads that wait, in the order in which they came, to be copied to
    /// their textures on a command buffer of the caller's. Those whose texture is gone are
    /// left out, and nothing waits any more.
    pub fn encode_pending_locked(&mut self) -> (uploads: Vec<PendingUpload>)
        requires
            old(self)@.kinds_wf(),
        ensures
            upload_views(uploads@) == old(self)@.encodable(),
            old(self)@.uploads_wf() ==> upload_views(uploads@) == old(self)@.pending,
            final(self)@ == old(self)@.drained(),
            final(self).pending_upload_bytes == 0,
    {
        let ghost before = self@;
        let mut pending_uploads: Vec<PendingUpload> = Vec::new();
        std::mem::swap(&mut pending_uploads, &mut self.pending_uploads);
        self.pending_upload_bytes = 0;
        assert(self@.pending =~= Seq::<Upload>::empty());
        let ghost all = pending_uploads@;
        let ghost selects = |upload: Upload| before.texture(upload.texture_id) is Some;
        let mut uploads: Vec<PendingUpload> = Vec::new();
        assert(upload_views(uploads@) =~= before.pending.take(0).filter(selects)) by {
            reveal(Seq::filter);
        }
        for upload in it: pending_uploads
            invariant
                it.seq() == all,
                before.pending == upload_views(all),
                before.kinds_wf(),
                self@ == before.drained(),
                selects == (|upload: Upload| before.texture(upload.texture_id) is Some),
                upload_views(uploads@) == before.pending.take(it.index()).filter(selects),
        {
            let ghost index = it.index() as int;
            let ghost taken = upload_views(uploads@);
            assert(before.pending[index] == upload@);
            assert(self@.texture(upload.texture_id) == before.texture(upload.texture_id));
            proof {
                lemma_filter_step(before.pending, index, selects);
            }
            // Where the texture is gone, nobody needs the pixels any more.
            if self.texture(upload.texture_id).is_some() {
                uploads.push(upload);
                assert(upload_views(uploads@) =~= taken.push(upload@));
            }
        }
        proof {
            assert(before.pending.take(all.len() as int) =~= before.pending);
            if before.uploads_wf() {
                before.lemma_encodable();
            }
        }
        uploads
    }

    /// Commits the uploads that wait on a command buffer of their own.
    pub fn commit_pending_locked(&mut self)
        requires
            old(self)@.kinds_wf(),
        ensures
            final(self)@ == old(self)@.flushed(),
            final(self).pending_upload_bytes == 0,
    {
        let ghost before = self@;
        let uploads = self.encode_pending_locked();
        self.commands.push(GpuCommand::CommitUploads { uploads });
        assert(self@.commands =~= before.flushed().commands);
    }
}

/// The largest texture on all modern Apple GPUs. A larger one crashes in the driver's
/// validation.
pub fn max_atlas_size() -> (size: Size)
    ensures
        size == square(MAX_ATLAS_SIDE),
{
    Size { width: DevicePixels(MAX_ATLAS_SIDE), height: DevicePixels(MAX_ATLAS_SIDE) }
}

} // verus!
