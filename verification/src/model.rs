//! The textures of the atlas as mathematical values, and what the operations make of them.
use crate::allocator::{count_rounds, live_areas, AllocatorEvent};
use crate::device::{
    after_command, after_commands, are_runnable, is_runnable, lemma_after_both, lemma_after_one,
    Device,
};
use crate::geometry::{Bounds, DevicePixels, Size};
use crate::gpu::{Command, Upload};
use crate::texture::Texture;
use crate::texture_list::{metal_texture_of, pixel_format_of, TextureList, MAX_ATLAS_SIDE};
use crate::tile::{AtlasTextureId, AtlasTextureKind, AtlasTile};
use crate::upload::{
    lemma_filter_all, lemma_uploads_except, total_bytes, uploads_except, MAX_PENDING_UPLOAD_BYTES,
};
use vstd::prelude::*;

verus! {

/// The sides of a texture, unless it is one of colour or a tile needs more.
pub const DEFAULT_ATLAS_SIDE: i32 = 1024;

/// The sides of a texture of colour, unless a tile needs more. Image tiles are sparse, and a
/// larger first texture wastes memory where there are many icons and little text.
pub const DEFAULT_COLOR_ATLAS_SIDE: i32 = 512;

/// The longest side of a small image. Small images have textures of their own, so that a
/// large one does not evict a whole texture of icons.
pub const SMALL_IMAGE_TILE_MAX: i32 = 256;

/// A size with two equal sides.
pub open spec fn square(side: i32) -> Size {
    Size { width: DevicePixels(side), height: DevicePixels(side) }
}

/// The kind of texture that a tile goes to: small images are kept apart.
pub open spec fn page_kind(kind: AtlasTextureKind, size: Size) -> AtlasTextureKind {
    if kind == AtlasTextureKind::Image && size.width.0 <= SMALL_IMAGE_TILE_MAX && size.height.0
        <= SMALL_IMAGE_TILE_MAX {
        AtlasTextureKind::ImageSmall
    } else {
        kind
    }
}

/// The size of a new texture for a tile of at least `min_size`.
pub open spec fn page_size(min_size: Size, kind: AtlasTextureKind) -> Size {
    min_size.spec_min(square(MAX_ATLAS_SIDE)).spec_max(
        square(
            if kind == AtlasTextureKind::Monochrome {
                DEFAULT_ATLAS_SIDE
            } else {
                DEFAULT_COLOR_ATLAS_SIDE
            },
        ),
    )
}

/// What a [`MetalAtlasTextures`](crate::textures::MetalAtlasTextures) is: the textures of every
/// kind, the uploads that wait to be copied to them, and the commands that the GPU has yet to be
/// given.
pub struct Textures {
    pub is_apple_gpu: bool,
    pub monochrome: TextureList,
    pub polychrome: TextureList,
    pub image: TextureList,
    pub image_small: TextureList,
    pub pending: Seq<Upload>,
    pub commands: Seq<Command>,
}

impl Textures {
    /// The textures of a kind.
    pub open spec fn list(self, kind: AtlasTextureKind) -> TextureList {
        match kind {
            AtlasTextureKind::Monochrome => self.monochrome,
            AtlasTextureKind::Polychrome => self.polychrome,
            AtlasTextureKind::Image => self.image,
            AtlasTextureKind::ImageSmall => self.image_small,
            AtlasTextureKind::Subpixel => TextureList::empty(),
        }
    }

    /// The same with other textures of a kind.
    pub open spec fn with_list(self, kind: AtlasTextureKind, list: TextureList) -> Textures {
        match kind {
            AtlasTextureKind::Monochrome => Textures { monochrome: list, ..self },
            AtlasTextureKind::Polychrome => Textures { polychrome: list, ..self },
            AtlasTextureKind::Image => Textures { image: list, ..self },
            AtlasTextureKind::ImageSmall => Textures { image_small: list, ..self },
            AtlasTextureKind::Subpixel => self,
        }
    }

    /// The texture that `id` names, if there is one.
    pub open spec fn texture(self, id: AtlasTextureId) -> Option<Texture> {
        self.list(id.kind).get(id.index as int)
    }

    /// The same with one more command for the GPU.
    pub open spec fn with_command(self, command: Command) -> Textures {
        Textures { commands: self.commands.push(command), ..self }
    }

    /// The upload goes to pixels of a texture that exists.
    pub open spec fn accepts(self, upload: Upload) -> bool {
        self.texture(upload.texture_id) matches Some(texture) && upload.fits(texture.metal_texture)
    }

    /// The lists of all kinds are well formed.
    pub open spec fn lists_wf(self) -> bool {
        forall|kind: AtlasTextureKind| #[trigger] self.list(kind).wf(kind, self.is_apple_gpu)
    }

    /// Every waiting upload goes to pixels of a texture that exists.
    pub open spec fn uploads_wf(self) -> bool {
        forall|i: int| 0 <= i < self.pending.len() ==> self.accepts(#[trigger] self.pending[i])
    }

    /// Every waiting upload goes to a texture of a kind that the atlas has, which may be gone.
    pub open spec fn kinds_wf(self) -> bool {
        forall|i: int|
            0 <= i < self.pending.len() ==> (#[trigger] self.pending[i]).texture_id.kind
                != AtlasTextureKind::Subpixel
    }

    /// The lists of all kinds are well formed, every waiting upload goes to pixels of a
    /// texture that exists, and no more bytes wait than may.
    pub open spec fn wf(self) -> bool {
        &&& self.lists_wf()
        &&& self.uploads_wf()
        &&& total_bytes(self.pending) <= MAX_PENDING_UPLOAD_BYTES
    }

    /// The texture that is made next for a kind, with these sides.
    pub open spec fn new_texture(self, size: Size, kind: AtlasTextureKind) -> Texture {
        Texture {
            id: AtlasTextureId { index: self.list(kind).next_index() as u32, kind },
            metal_texture: metal_texture_of(
                kind,
                size.width.0 as u64,
                size.height.0 as u64,
                self.is_apple_gpu,
            ),
            history: seq![
                AllocatorEvent::Created {
                    width: size.width.0 as int,
                    height: size.height.0 as int,
                },
            ],
            live_atlas_keys: 0,
            count_rounds: 0,
        }
    }

    /// The same with a new texture, which the GPU is told to make.
    pub open spec fn with_new_texture(self, size: Size, kind: AtlasTextureKind) -> Textures {
        let texture = self.new_texture(size, kind);
        self.with_command(
            Command::CreateTexture { id: texture.id, texture: texture.metal_texture },
        ).with_list(kind, self.list(kind).with_new(texture))
    }

    /// The same with another state of the texture that `id` names.
    pub open spec fn with_texture(self, id: AtlasTextureId, texture: Texture) -> Textures {
        self.with_list(id.kind, self.list(id.kind).with_texture(id.index as int, texture))
    }

    /// The same once a tile of a texture was given out.
    pub open spec fn with_tile(self, tile: AtlasTile) -> Textures {
        self.with_texture(
            tile.texture_id,
            self.texture(tile.texture_id)->0.with_tile(tile),
        )
    }

    /// The tile is a free part of a texture that exists.
    pub open spec fn has_free(self, tile: AtlasTile) -> bool {
        self.texture(tile.texture_id) matches Some(texture) && texture.has_free(tile)
    }

    /// The tile is a part of a texture that exists, and in use.
    pub open spec fn holds(self, tile: AtlasTile) -> bool {
        self.texture(tile.texture_id) matches Some(texture) && texture.holds(tile)
    }

    /// The textures that the GPU has for the atlas once it has carried out every command.
    pub open spec fn device(self) -> Device {
        Map::new(
            |id: AtlasTextureId| self.texture(id) is Some,
            |id: AtlasTextureId| self.texture(id)->0.metal_texture,
        )
    }

    /// On the way to `next`, the GPU was given commands that take it from the textures of the
    /// one to those of the other, and that it can carry out.
    pub open spec fn is_in_step(self, next: Textures) -> bool {
        exists|commands: Seq<Command>| #[trigger] self.is_led_by(commands, next)
    }

    /// The commands take the GPU from the textures of the one to those of the other.
    pub open spec fn is_led_by(self, commands: Seq<Command>, next: Textures) -> bool {
        &&& next.commands == self.commands + commands
        &&& are_runnable(self.device(), commands)
        &&& after_commands(self.device(), commands) == next.device()
    }

    /// The tile with this number is in use in the texture that `id` names.
    pub open spec fn is_live(self, id: AtlasTextureId, number: u32) -> bool {
        self.texture(id) matches Some(texture) && texture.live().contains_key(number)
    }

    /// No texture was dropped and no tile given back on the way to `next`.
    pub open spec fn keeps(self, next: Textures) -> bool {
        forall|id: AtlasTextureId|
            self.texture(id) is Some ==> {
                &&& #[trigger] next.texture(id) is Some
                &&& next.texture(id)->0.id == self.texture(id)->0.id
                &&& next.texture(id)->0.metal_texture == self.texture(id)->0.metal_texture
                &&& self.texture(id)->0.live().submap_of(next.texture(id)->0.live())
            }
    }

    /// In `next`, the texture that `id` names exists, made of the same as before if it did, and
    /// every other texture is as it was.
    pub open spec fn changes(self, next: Textures, id: AtlasTextureId) -> bool {
        &&& next.texture(id) matches Some(texture)
        &&& self.texture(id) matches Some(before) ==> texture.metal_texture == before.metal_texture
        &&& forall|other: AtlasTextureId|
            other != id ==> #[trigger] next.texture(other) == self.texture(other)
    }

    /// The tiles in use are the same in `next`.
    pub open spec fn adds_nothing(self, next: Textures) -> bool {
        &&& self.keeps(next)
        &&& forall|id: AtlasTextureId, number: u32| #[trigger]
            next.is_live(id, number) == self.is_live(id, number)
    }

    /// In `next`, one more tile is in use.
    pub open spec fn adds(self, next: Textures, tile: AtlasTile) -> bool {
        &&& self.keeps(next)
        &&& next.holds(tile)
        &&& !self.is_live(tile.texture_id, tile.tile_id.0)
        &&& forall|id: AtlasTextureId, number: u32| #[trigger]
            next.is_live(id, number) == (self.is_live(id, number) || (id == tile.texture_id
                && number == tile.tile_id.0))
    }

    /// What becomes of a request for `size` pixels of a new texture of size `page`.
    pub open spec fn allocation_in_new(self, page: Size, kind: AtlasTextureKind, size: Size) -> (
        Textures,
        Option<AtlasTile>,
    ) {
        let next = self.with_new_texture(page, kind);
        match self.new_texture(page, kind).tile_for(size) {
            None => (next, None),
            Some(tile) => (next.with_tile(tile), Some(tile)),
        }
    }

    /// What becomes of a request for `size` pixels: they are taken from the last texture of
    /// the kind that has room, or else from a new one.
    pub open spec fn allocation(self, size: Size, kind: AtlasTextureKind) -> (
        Textures,
        Option<AtlasTile>,
    ) {
        let kind = page_kind(kind, size);
        match self.list(kind).tile_for(size) {
            Some(tile) => (self.with_tile(tile), Some(tile)),
            None => self.allocation_in_new(page_size(size, kind), kind, size),
        }
    }

    /// What becomes of a request for a texture of `size` pixels that nothing else goes to.
    pub open spec fn dedicated_allocation(self, size: Size, kind: AtlasTextureKind) -> (
        Textures,
        Option<AtlasTile>,
    ) {
        if size.is_within(square(MAX_ATLAS_SIDE)) {
            self.allocation_in_new(size, kind, size)
        } else {
            (self, None)
        }
    }

    /// The same without the texture that `id` names, and without the uploads that wait for
    /// it.
    pub open spec fn without_texture(self, id: AtlasTextureId) -> Textures {
        Textures {
            pending: uploads_except(self.pending, id),
            ..self.with_command(Command::DropTexture { id })
        }.with_list(id.kind, self.list(id.kind).without_texture(id.index as int))
    }

    /// The same once a tile was given back. A texture goes with its last tile.
    pub open spec fn release(self, tile: AtlasTile) -> Textures {
        match self.texture(tile.texture_id) {
            None => self,
            Some(texture) => {
                let next = texture.without_tile(tile.tile_id);
                if next.live_atlas_keys == 0 {
                    self.without_texture(tile.texture_id)
                } else {
                    self.with_texture(tile.texture_id, next)
                }
            },
        }
    }

    /// The waiting uploads whose texture exists.
    pub open spec fn encodable(self) -> Seq<Upload> {
        self.pending.filter(|upload: Upload| self.texture(upload.texture_id) is Some)
    }

    /// The same with nothing waiting.
    pub open spec fn drained(self) -> Textures {
        Textures { pending: Seq::empty(), ..self }
    }

    /// The same once the waiting uploads were committed on their own.
    pub open spec fn flushed(self) -> Textures {
        self.drained().with_command(Command::CommitUploads { uploads: self.encodable() })
    }

    /// The uploads that wait once one more does. An upload of a whole tile takes the place of
    /// all earlier ones for its texture, whichever tile of it they are for.
    pub open spec fn queued(
        self,
        tile: AtlasTile,
        bounds: Bounds,
        data: Seq<u8>,
        bytes_per_pixel: u8,
    ) -> Seq<Upload> {
        let kept = if bounds == tile.bounds {
            uploads_except(self.pending, tile.texture_id)
        } else {
            self.pending
        };
        kept.push(Upload::of(tile.texture_id, bounds, data, bytes_per_pixel))
    }

    /// The same with one more upload waiting, or with all of them committed where they are
    /// too many bytes to wait.
    pub open spec fn enqueue(
        self,
        tile: AtlasTile,
        bounds: Bounds,
        data: Seq<u8>,
        bytes_per_pixel: u8,
    ) -> Textures {
        let next = Textures {
            pending: self.queued(tile, bounds, data, bytes_per_pixel),
            ..self
        };
        if total_bytes(next.pending) > MAX_PENDING_UPLOAD_BYTES {
            next.flushed()
        } else {
            next
        }
    }

    /// Two steps that the GPU follows are one.
    pub proof fn lemma_in_step_twice(self, middle: Textures, next: Textures)
        requires
            self.is_in_step(middle),
            middle.is_in_step(next),
        ensures
            self.is_in_step(next),
    {
        let first = choose|commands: Seq<Command>| #[trigger] self.is_led_by(commands, middle);
        let second = choose|commands: Seq<Command>| #[trigger] middle.is_led_by(commands, next);
        lemma_after_both(self.device(), first, second);
        assert(next.commands =~= self.commands + (first + second));
        assert(self.is_led_by(first + second, next));
    }

    /// Where the GPU keeps its textures, there is no step to follow.
    pub proof fn lemma_in_step_without(self, next: Textures)
        requires
            next.commands == self.commands,
            next.device() =~= self.device(),
        ensures
            self.is_in_step(next),
    {
        assert(next.commands =~= self.commands + Seq::<Command>::empty());
        assert(after_commands(self.device(), Seq::<Command>::empty()) == self.device());
        assert(are_runnable(self.device(), Seq::<Command>::empty()));
        assert(self.is_led_by(Seq::empty(), next));
    }

    /// The GPU follows one command.
    pub proof fn lemma_in_step_with(self, command: Command, next: Textures)
        requires
            next.commands == self.commands.push(command),
            is_runnable(self.device(), command),
            next.device() =~= after_command(self.device(), command),
        ensures
            self.is_in_step(next),
    {
        lemma_after_one(self.device(), command);
        assert(next.commands =~= self.commands + seq![command]);
        assert(self.is_led_by(seq![command], next));
    }

    /// Another state of a texture keeps the lists well formed, and all other textures as
    /// they are.
    pub proof fn lemma_with_texture(self, id: AtlasTextureId, texture: Texture)
        requires
            self.wf(),
            self.texture(id) is Some,
            texture.wf(),
            texture.id == self.texture(id)->0.id,
            texture.metal_texture == self.texture(id)->0.metal_texture,
        ensures
            self.with_texture(id, texture).wf(),
            self.is_in_step(self.with_texture(id, texture)),
            forall|other: AtlasTextureId| #[trigger]
                self.with_texture(id, texture).texture(other) == if other == id {
                    Some(texture)
                } else {
                    self.texture(other)
                },
    {
        let list = self.list(id.kind);
        let next_list = list.with_texture(id.index as int, texture);
        let next = self.with_texture(id, texture);
        assert(list.wf(id.kind, self.is_apple_gpu));
        assert(list.textures[id.index as int] is Some);
        assert(next_list.wf(id.kind, self.is_apple_gpu)) by {
            assert forall|i: int|
                0 <= i < next_list.textures.len() && #[trigger] next_list.textures[i] is None
                implies next_list.free_list.contains(i as usize) by {
                assert(list.textures[i] is None);
            }
        }
        assert forall|kind: AtlasTextureKind| #[trigger]
            next.list(kind).wf(kind, next.is_apple_gpu) by {
            assert(self.list(kind).wf(kind, self.is_apple_gpu));
        }
        assert forall|i: int| 0 <= i < next.pending.len() implies next.accepts(
            #[trigger] next.pending[i],
        ) by {
            assert(self.accepts(self.pending[i]));
        }
        self.lemma_in_step_without(next);
    }

    /// Giving out a free tile keeps everything well formed, and all other textures as they
    /// are.
    pub proof fn lemma_with_tile(self, tile: AtlasTile)
        requires
            self.wf(),
            self.has_free(tile),
        ensures
            self.with_tile(tile).wf(),
            self.adds(self.with_tile(tile), tile),
            self.is_in_step(self.with_tile(tile)),
    {
        let texture = self.texture(tile.texture_id)->0;
        assert(self.list(tile.texture_id.kind).wf(tile.texture_id.kind, self.is_apple_gpu));
        assert(self.list(tile.texture_id.kind).textures[tile.texture_id.index as int] == Some(
            texture,
        ));
        texture.lemma_with_tile(tile);
        self.lemma_with_texture(tile.texture_id, texture.with_tile(tile));
    }

    /// A tile in use lies in its texture, which is one of an existing kind and size.
    pub proof fn lemma_holds(self, tile: AtlasTile)
        requires
            self.lists_wf(),
            self.holds(tile),
        ensures
            tile.texture_id.kind != AtlasTextureKind::Subpixel,
            ({
                let texture = self.texture(tile.texture_id)->0;
                &&& texture.wf()
                &&& texture.id == tile.texture_id
                &&& 0 < texture.metal_texture.width <= MAX_ATLAS_SIDE
                &&& 0 < texture.metal_texture.height <= MAX_ATLAS_SIDE
                &&& texture.metal_texture.pixel_format == pixel_format_of(tile.texture_id.kind)
                &&& tile.bounds.area().fits(
                    texture.metal_texture.width as int,
                    texture.metal_texture.height as int,
                )
            }),
    {
        let list = self.list(tile.texture_id.kind);
        assert(list.wf(tile.texture_id.kind, self.is_apple_gpu));
        assert(list.textures[tile.texture_id.index as int] is Some);
    }

    /// The textures stay as they are where no list of them changes.
    pub proof fn lemma_same_textures(self, next: Textures)
        requires
            next.is_apple_gpu == self.is_apple_gpu,
            next.monochrome == self.monochrome,
            next.polychrome == self.polychrome,
            next.image == self.image,
            next.image_small == self.image_small,
        ensures
            self.adds_nothing(next),
            next.device() == self.device(),
            next.commands == self.commands ==> self.is_in_step(next),
            forall|id: AtlasTextureId| #[trigger] next.texture(id) == self.texture(id),
            self.lists_wf() ==> next.lists_wf(),
            self.wf() && (forall|i: int|
                0 <= i < next.pending.len() ==> self.accepts(#[trigger] next.pending[i]))
                && total_bytes(next.pending) <= MAX_PENDING_UPLOAD_BYTES ==> next.wf(),
    {
        assert forall|kind: AtlasTextureKind| self.lists_wf() implies #[trigger] next.list(kind).wf(
            kind,
            next.is_apple_gpu,
        ) by {
            assert(self.list(kind).wf(kind, self.is_apple_gpu));
        }
        assert forall|id: AtlasTextureId| #[trigger] next.texture(id) == self.texture(id) by {}
        assert forall|i: int|
            0 <= i < next.pending.len() && self.accepts(next.pending[i]) implies next.accepts(
            #[trigger] next.pending[i],
        ) by {}
        assert(next.device() =~= self.device());
        if next.commands == self.commands {
            self.lemma_in_step_without(next);
        }
    }

    /// A command changes no texture.
    pub proof fn lemma_with_command(self, command: Command)
        ensures
            self.wf() ==> self.with_command(command).wf(),
            self.adds_nothing(self.with_command(command)),
            after_command(self.device(), command) == self.device() && is_runnable(
                self.device(),
                command,
            ) ==> self.is_in_step(self.with_command(command)),
    {
        self.lemma_same_textures(self.with_command(command));
        if after_command(self.device(), command) == self.device() && is_runnable(
            self.device(),
            command,
        ) {
            self.lemma_in_step_with(command, self.with_command(command));
        }
    }

    /// With nothing waiting, everything stays well formed.
    pub proof fn lemma_drained(self)
        requires
            self.wf(),
        ensures
            self.drained().wf(),
            self.adds_nothing(self.drained()),
            self.is_in_step(self.drained()),
    {
        self.lemma_same_textures(self.drained());
    }

    /// Committing what waits keeps the textures well formed.
    pub proof fn lemma_flushed(self)
        requires
            self.lists_wf(),
            self.uploads_wf(),
        ensures
            self.flushed().wf(),
            self.adds_nothing(self.flushed()),
            self.is_in_step(self.flushed()),
    {
        let command = Command::CommitUploads { uploads: self.encodable() };
        self.lemma_same_textures(self.flushed());
        self.lemma_encodable();
        assert forall|kind: AtlasTextureKind| #[trigger]
            self.flushed().list(kind).wf(kind, self.flushed().is_apple_gpu) by {
            assert(self.list(kind).wf(kind, self.is_apple_gpu));
        }
        assert(is_runnable(self.device(), command)) by {
            assert forall|i: int| 0 <= i < self.pending.len() implies self.device().contains_key(
                (#[trigger] self.pending[i]).texture_id,
            ) && self.pending[i].fits(self.device()[self.pending[i].texture_id]) by {
                assert(self.accepts(self.pending[i]));
            }
        }
        self.lemma_in_step_with(command, self.flushed());
    }

    /// A new texture keeps the lists well formed.
    pub proof fn lemma_with_new_texture(self, size: Size, kind: AtlasTextureKind)
        requires
            self.wf(),
            kind != AtlasTextureKind::Subpixel,
            self.list(kind).has_room(),
            size.is_within(square(MAX_ATLAS_SIDE)),
        ensures
            self.with_new_texture(size, kind).wf(),
            self.with_new_texture(size, kind).texture(self.new_texture(size, kind).id) == Some(
                self.new_texture(size, kind),
            ),
            self.texture(self.new_texture(size, kind).id) is None,
            forall|id: AtlasTextureId|
                id != self.new_texture(size, kind).id ==> #[trigger] self.with_new_texture(
                    size,
                    kind,
                ).texture(id) == self.texture(id),
            self.adds_nothing(self.with_new_texture(size, kind)),
            self.is_in_step(self.with_new_texture(size, kind)),
    {
        let list = self.list(kind);
        let texture = self.new_texture(size, kind);
        let next_list = list.with_new(texture);
        let next = self.with_new_texture(size, kind);
        let index = list.next_index();
        assert(list.wf(kind, self.is_apple_gpu));
        assert(texture.history.drop_last() =~= Seq::<AllocatorEvent>::empty());
        assert(live_areas(texture.history) =~= Map::empty());
        assert(count_rounds(texture.history) == 0);
        assert(texture.live().dom() =~= Set::empty());
        assert(texture.wf());
        if list.free_list.len() > 0 {
            assert(list.free_list[list.free_list.len() - 1] == index);
        }
        assert(TextureList::texture_wf(texture, index, kind, self.is_apple_gpu));
        assert(next_list.wf(kind, self.is_apple_gpu)) by {
            assert forall|i: int|
                0 <= i < next_list.textures.len() && #[trigger] next_list.textures[i] is None
                implies next_list.free_list.contains(i as usize) by {
                assert(list.textures[i] is None);
                let j = choose|j: int|
                    0 <= j < list.free_list.len() && list.free_list[j] == i as usize;
                assert(next_list.free_list[j] == i as usize);
            }
        }
        assert forall|other: AtlasTextureKind| #[trigger]
            next.list(other).wf(other, next.is_apple_gpu) by {
            assert(self.list(other).wf(other, self.is_apple_gpu));
        }
        assert forall|id: AtlasTextureId| id != texture.id implies #[trigger] next.texture(id)
            == self.texture(id) by {}
        assert forall|i: int| 0 <= i < next.pending.len() implies next.accepts(
            #[trigger] next.pending[i],
        ) by {
            assert(self.accepts(self.pending[i]));
        }
        self.lemma_in_step_with(
            Command::CreateTexture { id: texture.id, texture: texture.metal_texture },
            next,
        );
    }
}

impl Textures {
    /// Asking a new texture for a tile keeps everything well formed, and all other textures
    /// as they are.
    pub proof fn lemma_allocation_in_new(
        self,
        page: Size,
        kind: AtlasTextureKind,
        size: Size,
        asked: Texture,
    )
        requires
            self.wf(),
            kind != AtlasTextureKind::Subpixel,
            self.list(kind).has_room(),
            page.is_within(square(MAX_ATLAS_SIDE)),
            match self.new_texture(page, kind).tile_for(size) {
                None => asked == self.new_texture(page, kind),
                Some(tile) => {
                    &&& self.new_texture(page, kind).has_free(tile)
                    &&& asked == self.new_texture(page, kind).with_tile(tile)
                },
            },
        ensures
            ({
                let (next, tile) = self.allocation_in_new(page, kind, size);
                &&& next == self.with_new_texture(page, kind).with_texture(asked.id, asked)
                &&& next.wf()
                &&& self.is_in_step(next)
                &&& match tile {
                    None => self.adds_nothing(next),
                    Some(tile) => {
                        &&& self.adds(next, tile)
                        &&& next.texture(tile.texture_id)->0.metal_texture == asked.metal_texture
                    },
                }
            }),
    {
        let pushed = self.with_new_texture(page, kind);
        self.lemma_with_new_texture(page, kind);
        match self.new_texture(page, kind).tile_for(size) {
            None => {
                assert(pushed.with_texture(asked.id, asked).list(kind).textures =~= pushed.list(
                    kind,
                ).textures);
            },
            Some(tile) => {
                pushed.lemma_with_tile(tile);
                self.lemma_in_step_twice(pushed, pushed.with_tile(tile));
            },
        }
    }

    /// A request that is met changes the texture that the tile is in, or makes it, and no other.
    pub proof fn lemma_allocation(self, size: Size, kind: AtlasTextureKind)
        requires
            self.wf(),
            kind != AtlasTextureKind::Subpixel,
            self.list(page_kind(kind, size)).has_room(),
        ensures
            self.allocation(size, kind) matches (next, Some(tile)) ==> self.changes(
                next,
                tile.texture_id,
            ),
            self.allocation(size, kind) matches (next, None) ==> self.keeps(next),
    {
        let kind = page_kind(kind, size);
        let list = self.list(kind);
        assert(list.wf(kind, self.is_apple_gpu));
        if let Some(tile) = list.tile_for(size) {
            let index = choose|index: int| list.is_last_with_room(index, size);
            assert(list.textures[index] is Some);
            assert(tile.texture_id == (AtlasTextureId { index: index as u32, kind }));
        } else {
            self.lemma_place_in_new(page_size(size, kind), kind, size);
        }
    }

    /// A request for a tile of a new texture makes that texture, and changes no other.
    pub proof fn lemma_place_in_new(self, page: Size, kind: AtlasTextureKind, size: Size)
        requires
            self.wf(),
            kind != AtlasTextureKind::Subpixel,
            self.list(kind).has_room(),
            page.is_within(square(MAX_ATLAS_SIDE)),
        ensures
            self.allocation_in_new(page, kind, size) matches (next, Some(tile)) ==> self.changes(
                next,
                tile.texture_id,
            ),
            self.allocation_in_new(page, kind, size) matches (next, None) ==> self.keeps(next),
    {
        let pushed = self.with_new_texture(page, kind);
        let texture = self.new_texture(page, kind);
        self.lemma_with_new_texture(page, kind);
        if let Some(tile) = texture.tile_for(size) {
            let next = pushed.with_tile(tile);
            assert(tile.texture_id == texture.id);
            assert forall|other: AtlasTextureId| other != texture.id implies
                #[trigger] next.texture(other) == self.texture(other) by {
                assert(pushed.texture(other) == self.texture(other));
            }
        }
    }

    /// Dropping a texture keeps everything well formed, and all other textures as they are.
    pub proof fn lemma_without_texture(self, id: AtlasTextureId)
        requires
            self.wf(),
            self.texture(id) is Some,
        ensures
            self.without_texture(id).wf(),
            self.is_in_step(self.without_texture(id)),
            forall|other: AtlasTextureId| #[trigger]
                self.without_texture(id).texture(other) == if other == id {
                    None
                } else {
                    self.texture(other)
                },
    {
        let list = self.list(id.kind);
        let next_list = list.without_texture(id.index as int);
        let next = self.without_texture(id);
        assert(list.wf(id.kind, self.is_apple_gpu));
        assert(list.textures[id.index as int] is Some);
        assert(next_list.wf(id.kind, self.is_apple_gpu)) by {
            assert(next_list.free_list.no_duplicates());
            assert forall|i: int|
                0 <= i < next_list.textures.len() && #[trigger] next_list.textures[i] is None
                implies next_list.free_list.contains(i as usize) by {
                if i == id.index {
                    assert(next_list.free_list.last() == i as usize);
                } else {
                    assert(list.textures[i] is None);
                    let j = choose|j: int|
                        0 <= j < list.free_list.len() && list.free_list[j] == i as usize;
                    assert(next_list.free_list[j] == i as usize);
                }
            }
        }
        assert forall|kind: AtlasTextureKind| #[trigger]
            next.list(kind).wf(kind, next.is_apple_gpu) by {
            assert(self.list(kind).wf(kind, self.is_apple_gpu));
        }
        lemma_uploads_except(self.pending, id);
        assert forall|i: int| 0 <= i < next.pending.len() implies next.accepts(
            #[trigger] next.pending[i],
        ) by {
            let upload = next.pending[i];
            assert(uploads_except(self.pending, id).contains(upload));
            let j = choose|j: int| 0 <= j < self.pending.len() && self.pending[j] == upload;
            assert(self.accepts(self.pending[j]));
        }
        self.lemma_in_step_with(Command::DropTexture { id }, next);
    }

    /// Giving back a tile that is in use keeps everything well formed, and all other textures
    /// as they are.
    pub proof fn lemma_release(self, tile: AtlasTile)
        requires
            self.wf(),
            self.texture(tile.texture_id) matches Some(texture) ==> texture.live().contains_key(
                tile.tile_id.0,
            ),
        ensures
            self.release(tile).wf(),
            self.is_in_step(self.release(tile)),
            self.texture(tile.texture_id) matches Some(texture) ==> {
                let next = texture.without_tile(tile.tile_id);
                &&& texture.live_atlas_keys > 0
                &&& next.wf()
                &&& next.live() == texture.live().remove(tile.tile_id.0)
                &&& self.release(tile).texture(tile.texture_id) == if next.live_atlas_keys == 0 {
                    None
                } else {
                    Some(next)
                }
            },
            forall|other: AtlasTextureId|
                other != tile.texture_id ==> #[trigger] self.release(tile).texture(other)
                    == self.texture(other),
    {
        if let Some(texture) = self.texture(tile.texture_id) {
            let list = self.list(tile.texture_id.kind);
            assert(list.wf(tile.texture_id.kind, self.is_apple_gpu));
            assert(list.textures[tile.texture_id.index as int] == Some(texture));
            texture.lemma_without_tile(tile.tile_id);
            let next = texture.without_tile(tile.tile_id);
            if next.live_atlas_keys == 0 {
                self.lemma_without_texture(tile.texture_id);
            } else {
                self.lemma_with_texture(tile.texture_id, next);
            }
        } else {
            self.lemma_in_step_without(self);
        }
    }

    /// Leaving uploads out leaves those for a kind that the atlas has.
    pub proof fn lemma_kinds_except(self, id: AtlasTextureId)
        requires
            self.kinds_wf(),
        ensures
            (Textures { pending: uploads_except(self.pending, id), ..self }).kinds_wf(),
    {
        let kept = uploads_except(self.pending, id);
        lemma_uploads_except(self.pending, id);
        assert forall|i: int| 0 <= i < kept.len() implies (#[trigger] kept[i]).texture_id.kind
            != AtlasTextureKind::Subpixel by {
            assert(kept.contains(kept[i]));
            let j = choose|j: int| 0 <= j < self.pending.len() && self.pending[j] == kept[i];
            assert(self.pending[j].texture_id.kind != AtlasTextureKind::Subpixel);
        }
    }

    /// Where no upload waits for a texture that is gone, all of them can be copied.
    pub proof fn lemma_encodable(self)
        requires
            self.uploads_wf(),
        ensures
            self.encodable() == self.pending,
            self.kinds_wf(),
    {
        let selects = |upload: Upload| self.texture(upload.texture_id) is Some;
        assert forall|i: int| 0 <= i < self.pending.len() implies selects(
            #[trigger] self.pending[i],
        ) by {
            assert(self.accepts(self.pending[i]));
        }
        lemma_filter_all(self.pending, selects);
    }

    /// One more upload that goes to pixels of an existing texture keeps everything well
    /// formed, and all textures as they are.
    pub proof fn lemma_enqueue(
        self,
        tile: AtlasTile,
        bounds: Bounds,
        data: Seq<u8>,
        bytes_per_pixel: u8,
    )
        requires
            self.wf(),
            self.accepts(Upload::of(tile.texture_id, bounds, data, bytes_per_pixel)),
        ensures
            (Textures {
                pending: self.queued(tile, bounds, data, bytes_per_pixel),
                ..self
            }).uploads_wf(),
            self.enqueue(tile, bounds, data, bytes_per_pixel).wf(),
            self.adds_nothing(self.enqueue(tile, bounds, data, bytes_per_pixel)),
            self.is_in_step(self.enqueue(tile, bounds, data, bytes_per_pixel)),
    {
        let next = Textures { pending: self.queued(tile, bounds, data, bytes_per_pixel), ..self };
        let after = self.enqueue(tile, bounds, data, bytes_per_pixel);
        lemma_uploads_except(self.pending, tile.texture_id);
        assert forall|i: int| 0 <= i < next.pending.len() implies next.accepts(
            #[trigger] next.pending[i],
        ) by {
            let upload = next.pending[i];
            if i < next.pending.len() - 1 {
                if bounds == tile.bounds {
                    assert(uploads_except(self.pending, tile.texture_id)[i] == upload);
                    assert(uploads_except(self.pending, tile.texture_id).contains(upload));
                    let j = choose|j: int| 0 <= j < self.pending.len() && self.pending[j] == upload;
                    assert(self.accepts(self.pending[j]));
                } else {
                    assert(self.accepts(self.pending[i]));
                }
            }
        }
        self.lemma_same_textures(next);
        if total_bytes(next.pending) > MAX_PENDING_UPLOAD_BYTES {
            next.lemma_flushed();
            self.lemma_in_step_twice(next, after);
        }
        self.lemma_same_textures(after);
    }
}

} // verus!
