//! The textures of one kind.
use crate::geometry::Size;
use crate::gpu::{MetalTexture, PixelFormat, StorageMode, TextureUsage};
use crate::texture::{MetalAtlasTexture, Texture};
use crate::tile::{AtlasTextureKind, AtlasTile};
use vstd::prelude::*;

verus! {

/// The longest side of a texture on all modern Apple GPUs.
pub const MAX_ATLAS_SIDE: i32 = 16384;

/// The number of textures that a kind can have: their numbers have 32 bits.
pub const MAX_TEXTURES: u64 = 0x1_0000_0000;

/// The format of the textures of a kind.
pub open spec fn pixel_format_of(kind: AtlasTextureKind) -> PixelFormat {
    if kind == AtlasTextureKind::Monochrome {
        PixelFormat::A8Unorm
    } else {
        PixelFormat::BGRA8Unorm
    }
}

/// The texture of a kind with these sides. Only an Apple GPU shares its memory with the
/// CPU.
pub open spec fn metal_texture_of(
    kind: AtlasTextureKind,
    width: u64,
    height: u64,
    is_apple_gpu: bool,
) -> MetalTexture {
    MetalTexture {
        width,
        height,
        pixel_format: pixel_format_of(kind),
        usage: TextureUsage::ShaderRead,
        storage_mode: if is_apple_gpu {
            StorageMode::Shared
        } else {
            StorageMode::Managed
        },
    }
}

/// The textures of one kind. A texture stands at its number; where there is none any more,
/// the number waits to be given again.
pub struct AtlasTextureList {
    pub textures: Vec<Option<MetalAtlasTexture>>,
    pub free_list: Vec<usize>,
}

/// What an [`AtlasTextureList`] is.
pub struct TextureList {
    pub textures: Seq<Option<Texture>>,
    pub free_list: Seq<usize>,
}

/// What a slot of the list holds.
pub open spec fn slot_view(slot: Option<MetalAtlasTexture>) -> Option<Texture> {
    match slot {
        None => None,
        Some(texture) => Some(texture@),
    }
}

/// What the slots of the list hold.
pub open spec fn slot_views(slots: Seq<Option<MetalAtlasTexture>>) -> Seq<Option<Texture>> {
    slots.map_values(|slot: Option<MetalAtlasTexture>| slot_view(slot))
}

/// A changed slot shows in the view of the list at its place alone.
pub proof fn lemma_slot_views(slots: Seq<Option<MetalAtlasTexture>>, index: int)
    requires
        0 <= index < slots.len(),
    ensures
        forall|slot: Option<MetalAtlasTexture>| #[trigger]
            slot_views(slots.update(index, slot)) == slot_views(slots).update(
                index,
                slot_view(slot),
            ),
{
    assert forall|slot: Option<MetalAtlasTexture>| #[trigger]
        slot_views(slots.update(index, slot)) == slot_views(slots).update(
            index,
            slot_view(slot),
        ) by {
        assert(slot_views(slots.update(index, slot)) =~= slot_views(slots).update(
            index,
            slot_view(slot),
        ));
    }
}

impl View for AtlasTextureList {
    type V = TextureList;

    open spec fn view(&self) -> TextureList {
        TextureList {
            textures: slot_views(self.textures@),
            free_list: self.free_list@,
        }
    }
}

impl TextureList {
    /// The list without any texture.
    pub open spec fn empty() -> TextureList {
        TextureList { textures: Seq::empty(), free_list: Seq::empty() }
    }

    /// The texture with this number.
    pub open spec fn get(self, index: int) -> Option<Texture> {
        if 0 <= index < self.textures.len() {
            self.textures[index]
        } else {
            None
        }
    }

    /// A texture that may stand at `index` in the list of its kind.
    pub open spec fn texture_wf(
        texture: Texture,
        index: int,
        kind: AtlasTextureKind,
        is_apple_gpu: bool,
    ) -> bool {
        &&& texture.wf()
        &&& texture.id.index == index
        &&& texture.id.kind == kind
        &&& 0 < texture.metal_texture.width <= MAX_ATLAS_SIDE
        &&& 0 < texture.metal_texture.height <= MAX_ATLAS_SIDE
        &&& texture.metal_texture == metal_texture_of(
            kind,
            texture.metal_texture.width,
            texture.metal_texture.height,
            is_apple_gpu,
        )
    }

    /// Every texture stands at its number, and the free numbers are those without one,
    /// each once.
    pub open spec fn wf(self, kind: AtlasTextureKind, is_apple_gpu: bool) -> bool {
        &&& self.textures.len() <= MAX_TEXTURES
        &&& forall|i: int|
            0 <= i < self.textures.len() ==> (#[trigger] self.textures[i] matches Some(texture)
                ==> Self::texture_wf(texture, i, kind, is_apple_gpu))
        &&& forall|j: int|
            0 <= j < self.free_list.len() ==> #[trigger] self.free_list[j] < self.textures.len()
                && self.textures[self.free_list[j] as int] is None
        &&& self.free_list.no_duplicates()
        &&& forall|i: int|
            0 <= i < self.textures.len() && #[trigger] self.textures[i] is None
                ==> self.free_list.contains(i as usize)
    }

    /// There is a number for one more texture.
    pub open spec fn has_room(self) -> bool {
        self.free_list.len() > 0 || self.textures.len() < MAX_TEXTURES
    }

    /// Every texture may be asked for a tile.
    pub open spec fn can_count(self) -> bool {
        forall|i: int|
            0 <= i < self.textures.len() ==> (#[trigger] self.textures[i] matches Some(texture)
                ==> texture.can_count())
    }

    /// The list can be asked for a tile, and can have one more texture if none has room.
    pub open spec fn can_allocate(self) -> bool {
        self.has_room() && self.can_count()
    }

    /// The number that the next texture gets: the one that became free last, or a new one.
    pub open spec fn next_index(self) -> int {
        if self.free_list.len() > 0 {
            self.free_list.last() as int
        } else {
            self.textures.len() as int
        }
    }

    /// The list with one more texture.
    pub open spec fn with_new(self, texture: Texture) -> TextureList {
        if self.free_list.len() > 0 {
            TextureList {
                textures: self.textures.update(self.next_index(), Some(texture)),
                free_list: self.free_list.drop_last(),
            }
        } else {
            TextureList { textures: self.textures.push(Some(texture)), ..self }
        }
    }

    /// The list with another texture at a number that has one.
    pub open spec fn with_texture(self, index: int, texture: Texture) -> TextureList {
        TextureList { textures: self.textures.update(index, Some(texture)), ..self }
    }

    /// The list without the texture at `index`.
    pub open spec fn without_texture(self, index: int) -> TextureList {
        TextureList {
            textures: self.textures.update(index, None),
            free_list: self.free_list.push(index as usize),
        }
    }

    /// There is a texture at `index`, and it has room for `size`.
    pub open spec fn admits(self, index: int, size: Size) -> bool {
        self.get(index) matches Some(texture) && texture.tile_for(size) is Some
    }

    /// The last texture that has room for `size`.
    pub open spec fn is_last_with_room(self, index: int, size: Size) -> bool {
        &&& self.admits(index, size)
        &&& forall|later: int| index < later ==> !#[trigger] self.admits(later, size)
    }

    /// The tile that the list gives for a request: that of the last texture that has room.
    pub open spec fn tile_for(self, size: Size) -> Option<AtlasTile> {
        if exists|index: int| self.is_last_with_room(index, size) {
            let index = choose|index: int| self.is_last_with_room(index, size);
            self.get(index)->0.tile_for(size)
        } else {
            None
        }
    }

    /// Only one texture is the last with room, so that the list gives its tile.
    proof fn lemma_last_with_room(self, index: int, size: Size)
        requires
            self.is_last_with_room(index, size),
        ensures
            self.tile_for(size) == self.get(index)->0.tile_for(size),
    {
        let chosen = choose|index: int| self.is_last_with_room(index, size);
        assert(self.is_last_with_room(chosen, size));
        assert(self.admits(chosen, size) && self.admits(index, size));
    }
}

impl AtlasTextureList {
    /// The list without any texture.
    pub fn new() -> (list: AtlasTextureList)
        ensures
            list@ == TextureList::empty(),
    {
        let list = AtlasTextureList { textures: Vec::new(), free_list: Vec::new() };
        assert(list@.textures =~= Seq::<Option<Texture>>::empty());
        list
    }

    /// Whether there is a number for one more texture.
    pub fn has_room(&self) -> (room: bool)
        ensures
            room == self@.has_room(),
    {
        self.free_list.len() > 0 || (self.textures.len() as u64) < MAX_TEXTURES
    }

    /// Whether the list can be asked for a tile, and can have one more texture.
    pub fn can_allocate(&self) -> (possible: bool)
        ensures
            possible == self@.can_allocate(),
    {
        if !self.has_room() {
            return false;
        }
        for i in 0..self.textures.len()
            invariant
                forall|j: int|
                    0 <= j < i ==> (#[trigger] self@.textures[j] matches Some(texture)
                        ==> texture.can_count()),
        {
            assert(self@.textures[i as int] == slot_view(self.textures@[i as int]));
            if let Some(texture) = &self.textures[i] {
                if !texture.can_count() {
                    return false;
                }
            }
        }
        true
    }

    /// Takes `size` pixels of the last texture that has room for them.
    pub(crate) fn allocate(
        &mut self,
        size: Size,
        Ghost(kind): Ghost<AtlasTextureKind>,
        Ghost(is_apple_gpu): Ghost<bool>,
    ) -> (tile: Option<AtlasTile>)
        requires
            old(self)@.wf(kind, is_apple_gpu),
            old(self)@.can_count(),
        ensures
            final(self)@.wf(kind, is_apple_gpu),
            tile == old(self)@.tile_for(size),
            match tile {
                None => final(self)@ == old(self)@,
                Some(tile) => {
                    &&& tile.texture_id.kind == kind
                    &&& tile.bounds.size == size
                    &&& old(self)@.get(tile.texture_id.index as int) matches Some(texture)
                    &&& texture.has_free(tile)
                    &&& final(self)@ == old(self)@.with_texture(
                        tile.texture_id.index as int,
                        texture.with_tile(tile),
                    )
                },
            },
    {
        let ghost before = self@;
        let mut i: usize = self.textures.len();
        while i > 0
            invariant
                before == old(self)@,
                self@ == before,
                before.wf(kind, is_apple_gpu),
                before.can_count(),
                i <= self.textures.len(),
                forall|later: int| i <= later ==> !#[trigger] before.admits(later, size),
            decreases i,
        {
            i -= 1;
            assert(self@.textures[i as int] == slot_view(self.textures@[i as int]));
            if let Some(texture) = &mut self.textures[i] {
                if let Some(tile) = texture.allocate(size) {
                    assert(self@.textures =~= before.with_texture(
                        i as int,
                        before.textures[i as int]->0.with_tile(tile),
                    ).textures);
                    proof {
                        before.lemma_last_with_room(i as int, size);
                    }
                    return Some(tile);
                }
            }
            assert(self@.textures =~= before.textures);
        }
        None
    }
}

} // verus!
