//! One texture of the atlas.
use crate::allocator::{
    allocate_area, allocator_history, begins_round, count_rounds, history_height, history_width,
    is_free_area, is_history_of, live_areas, placement, point_from_etagere, size_to_etagere,
    AllocatorEvent, MAX_ROUNDS,
};
use crate::geometry::{Area, Bounds, DevicePixels, Point, Size};
use crate::gpu::{
    Command, GpuCommand, MetalTexture, PendingUpload, PixelFormat, TextureExtent, TextureOrigin,
    Upload,
};
use crate::tile::{AtlasTextureId, AtlasTile, TileId};
use etagere::BucketedAtlasAllocator;
use vstd::prelude::*;
use vstd::slice::slice_to_vec;

verus! {

/// A texture, with the allocator that says which of its pixels are in use.
pub struct MetalAtlasTexture {
    pub id: AtlasTextureId,
    pub allocator: BucketedAtlasAllocator,
    pub metal_texture: MetalTexture,
    pub live_atlas_keys: u32,
    /// How often the allocator counted the rectangles of a bucket anew.
    pub count_rounds: u32,
}

/// What a [`MetalAtlasTexture`] is: its GPU texture, and what became of its pixels.
pub struct Texture {
    pub id: AtlasTextureId,
    pub metal_texture: MetalTexture,
    pub history: Seq<AllocatorEvent>,
    pub live_atlas_keys: int,
    pub count_rounds: int,
}

impl View for MetalAtlasTexture {
    type V = Texture;

    open spec fn view(&self) -> Texture {
        Texture {
            id: self.id,
            metal_texture: self.metal_texture,
            history: allocator_history(self.allocator),
            live_atlas_keys: self.live_atlas_keys as int,
            count_rounds: self.count_rounds as int,
        }
    }
}

impl Texture {
    /// The pixels in use, by tile.
    pub open spec fn live(self) -> Map<u32, Area> {
        live_areas(self.history)
    }

    /// The tiles in use lie in the texture, do not overlap, and are as many as the
    /// texture has keys; the rounds of its allocator are counted.
    pub open spec fn wf(self) -> bool {
        &&& is_history_of(
            self.history,
            self.metal_texture.width as int,
            self.metal_texture.height as int,
        )
        &&& self.live().dom().finite()
        &&& self.live_atlas_keys == self.live().len()
        &&& self.count_rounds == count_rounds(self.history)
        &&& forall|id: u32| #[trigger]
            self.live().contains_key(id) ==> self.live()[id].fits(
                self.metal_texture.width as int,
                self.metal_texture.height as int,
            )
        &&& forall|a: u32, b: u32|
            #![trigger self.live()[a], self.live()[b]]
            self.live().contains_key(a) && self.live().contains_key(b) && a != b
                ==> self.live()[a].is_disjoint(self.live()[b])
    }

    /// The texture may be asked for a tile: its allocator is not near the end of a counter.
    pub open spec fn can_count(self) -> bool {
        self.count_rounds < MAX_ROUNDS
    }

    /// The tile is one of this texture's, and in use.
    pub open spec fn holds(self, tile: AtlasTile) -> bool {
        &&& tile.texture_id == self.id
        &&& self.live().contains_key(tile.tile_id.0)
        &&& self.live()[tile.tile_id.0] == tile.bounds.area()
    }

    /// The tile lies in the texture, its number is not in use, and neither is any of its
    /// pixels.
    pub open spec fn has_free(self, tile: AtlasTile) -> bool {
        &&& tile.texture_id == self.id
        &&& is_free_area(self.history, tile.tile_id.0, tile.bounds.area())
    }

    /// The tile that the texture gives for a request, if any.
    pub open spec fn tile_for(self, size: Size) -> Option<AtlasTile> {
        match placement(self.history, size.width.0, size.height.0) {
            None => None,
            Some(allocation) => Some(tile_at(self.id, size, allocation)),
        }
    }

    /// The texture once it has given a tile.
    pub open spec fn with_tile(self, tile: AtlasTile) -> Texture {
        Texture {
            history: self.history.push(
                AllocatorEvent::Placed { id: tile.tile_id.0, area: tile.bounds.area() },
            ),
            live_atlas_keys: self.live_atlas_keys + 1,
            count_rounds: self.count_rounds + if begins_round(tile.tile_id.0) {
                1int
            } else {
                0int
            },
            ..self
        }
    }

    /// The texture once a tile was given back.
    pub open spec fn without_tile(self, tile_id: TileId) -> Texture {
        Texture {
            history: self.history.push(AllocatorEvent::Released { id: tile_id.0 }),
            live_atlas_keys: self.live_atlas_keys - 1,
            ..self
        }
    }

    /// Giving a tile that is free keeps the texture well formed, and puts the tile in use.
    pub proof fn lemma_with_tile(self, tile: AtlasTile)
        requires
            self.wf(),
            self.has_free(tile),
        ensures
            self.with_tile(tile).wf(),
            self.with_tile(tile).holds(tile),
            self.with_tile(tile).live() == self.live().insert(tile.tile_id.0, tile.bounds.area()),
    {
        let next = self.with_tile(tile);
        assert(next.history.drop_last() =~= self.history);
        assert(next.live() == self.live().insert(tile.tile_id.0, tile.bounds.area()));
        assert(next.live().dom() =~= self.live().dom().insert(tile.tile_id.0));
        assert(history_width(self.history) == self.metal_texture.width);
        assert(history_height(self.history) == self.metal_texture.height);
        assert forall|a: u32, b: u32|
            #![trigger next.live()[a], next.live()[b]]
            next.live().contains_key(a) && next.live().contains_key(b) && a != b implies
            next.live()[a].is_disjoint(next.live()[b]) by {
            if a != tile.tile_id.0 && b != tile.tile_id.0 {
                assert(self.live()[a].is_disjoint(self.live()[b]));
            }
        }
    }

    /// Giving a tile back keeps the texture well formed.
    pub proof fn lemma_without_tile(self, tile_id: TileId)
        requires
            self.wf(),
            self.live().contains_key(tile_id.0),
        ensures
            self.without_tile(tile_id).wf(),
            self.without_tile(tile_id).live() == self.live().remove(tile_id.0),
            self.live_atlas_keys > 0,
    {
        let next = self.without_tile(tile_id);
        assert(next.history.drop_last() =~= self.history);
        assert(next.live() == self.live().remove(tile_id.0));
        assert(next.live().dom() =~= self.live().dom().remove(tile_id.0));
        assert forall|a: u32, b: u32|
            #![trigger next.live()[a], next.live()[b]]
            next.live().contains_key(a) && next.live().contains_key(b) && a != b implies
            next.live()[a].is_disjoint(next.live()[b]) by {
            assert(self.live()[a].is_disjoint(self.live()[b]));
        }
    }
}

/// The tile of a texture that an allocator's answer stands for.
pub open spec fn tile_at(
    texture_id: AtlasTextureId,
    size: Size,
    allocation: (u32, i32, i32),
) -> AtlasTile {
    let (id, x, y) = allocation;
    AtlasTile {
        texture_id,
        tile_id: TileId(id),
        padding: 0,
        bounds: Bounds { origin: Point { x: DevicePixels(x), y: DevicePixels(y) }, size },
    }
}

impl MetalAtlasTexture {
    /// The tile of a texture that an allocator's answer to a request for `size` pixels stands
    /// for: the number of a rectangle, and its upper left corner.
    pub fn tile_at(texture_id: AtlasTextureId, size: Size, allocation: (u32, i32, i32)) -> (tile:
        AtlasTile)
        ensures
            tile == tile_at(texture_id, size, allocation),
    {
        let (id, x, y) = allocation;
        AtlasTile {
            texture_id,
            tile_id: TileId(id),
            padding: 0,
            bounds: Bounds { origin: point_from_etagere((x, y)), size },
        }
    }

    /// Takes `size` pixels of the texture, where its allocator finds room for them.
    pub fn allocate(&mut self, size: Size) -> (tile: Option<AtlasTile>)
        requires
            old(self)@.wf(),
            old(self)@.can_count(),
        ensures
            final(self)@.wf(),
            tile == old(self)@.tile_for(size),
            match tile {
                None => final(self)@ == old(self)@,
                Some(tile) => {
                    &&& old(self)@.has_free(tile)
                    &&& final(self)@ == old(self)@.with_tile(tile)
                },
            },
            old(self)@.history.len() == 1 && 0 < size.width.0 <= old(self)@.metal_texture.width && 0
                < size.height.0 <= old(self)@.metal_texture.height ==> tile is Some,
    {
        let ghost before = self@;
        let (width, height) = size_to_etagere(size);
        let allocation = match allocate_area(&mut self.allocator, width, height) {
            None => {
                return None;
            },
            Some(allocation) => allocation,
        };
        let tile = Self::tile_at(self.id, size, allocation);
        proof {
            before.lemma_with_tile(tile);
        }
        self.live_atlas_keys += 1;
        if tile.tile_id.0 / 4096 % 4096 == 0 {
            self.count_rounds += 1;
        }
        Some(tile)
    }

    /// The command that overwrites the rectangle `bounds` of the texture at once.
    pub fn upload(&self, bounds: Bounds, bytes: &[u8]) -> (command: GpuCommand)
        requires
            0 <= bounds.origin.x.0,
            0 <= bounds.origin.y.0,
            0 <= bounds.size.width.0,
            0 <= bounds.size.height.0,
            bounds.size.width.0 * self@.metal_texture.pixel_format.spec_bytes_per_pixel()
                <= u32::MAX,
        ensures
            command@ == (Command::ReplaceRegion {
                upload: Upload::of(
                    self@.id,
                    bounds,
                    bytes@,
                    self@.metal_texture.pixel_format.spec_bytes_per_pixel(),
                ),
            }),
            command matches GpuCommand::ReplaceRegion { upload } && upload.data@ == bytes@,
    {
        GpuCommand::ReplaceRegion {
            upload: PendingUpload {
                texture_id: self.id,
                origin: TextureOrigin {
                    x: bounds.origin.x.to_u64(),
                    y: bounds.origin.y.to_u64(),
                    z: 0,
                },
                size: TextureExtent {
                    width: bounds.size.width.to_u64(),
                    height: bounds.size.height.to_u64(),
                    depth: 1,
                },
                bytes_per_row: bounds.size.width.to_bytes(self.bytes_per_pixel()) as u64,
                data: slice_to_vec(bytes),
            },
        }
    }

    /// Counts one key less.
    pub fn decrement_ref_count(&mut self)
        requires
            old(self).live_atlas_keys > 0,
        ensures
            final(self)@ == (Texture {
                live_atlas_keys: old(self)@.live_atlas_keys - 1,
                ..old(self)@
            }),
    {
        self.live_atlas_keys -= 1;
    }

    /// No key has a tile of the texture.
    pub fn is_unreferenced(&self) -> (unreferenced: bool)
        ensures
            unreferenced == (self@.live_atlas_keys == 0),
    {
        self.live_atlas_keys == 0
    }

    /// Whether the texture may be asked for a tile.
    pub fn can_count(&self) -> (possible: bool)
        ensures
            possible == self@.can_count(),
    {
        self.count_rounds < MAX_ROUNDS
    }

    /// The bytes of a pixel of the texture.
    pub fn bytes_per_pixel(&self) -> (bytes: u8)
        ensures
            bytes == self@.metal_texture.pixel_format.spec_bytes_per_pixel(),
    {
        match self.metal_texture.pixel_format {
            PixelFormat::A8Unorm | PixelFormat::R8Unorm => 1,
            PixelFormat::RGBA8Unorm | PixelFormat::BGRA8Unorm => 4,
        }
    }
}

} // verus!
