//! What an atlas tile is, and what names it.
use crate::geometry::Bounds;
use vstd::prelude::*;

verus! {

/// What the textures of a group hold. Each kind has textures of its own.
#[derive(Clone, Copy, Debug, PartialEq, Eq, Hash, Structural)]
pub enum AtlasTextureKind {
    /// One byte of coverage for each pixel.
    Monochrome,
    /// Four bytes of colour for each pixel.
    Polychrome,
    /// Images, in colour.
    Image,
    /// Images with short sides, in colour, kept apart from the larger ones.
    ImageSmall,
    /// Coverage for each colour channel. A Metal atlas has no such textures.
    Subpixel,
}

/// Names a texture of the atlas. A number is given again once its texture is gone.
#[derive(Clone, Copy, Debug, PartialEq, Eq, Hash, Structural)]
pub struct AtlasTextureId {
    pub index: u32,
    pub kind: AtlasTextureKind,
}

/// Names a tile among those of one texture.
#[derive(Clone, Copy, Debug, PartialEq, Eq, Hash, Structural)]
pub struct TileId(pub u32);

/// A part of an atlas texture.
#[derive(Clone, Copy, Debug, PartialEq, Eq, Hash, Structural)]
pub struct AtlasTile {
    pub texture_id: AtlasTextureId,
    pub tile_id: TileId,
    pub padding: u32,
    pub bounds: Bounds,
}

/// Names an image.
#[derive(Clone, Copy, Debug, PartialEq, Eq, Hash, Structural)]
pub struct ImageId(pub usize);

/// A frame of an image.
#[derive(Clone, Copy, Debug, PartialEq, Eq, Hash, Structural)]
pub struct RenderImageParams {
    pub image_id: ImageId,
    pub frame_index: usize,
}

/// A texture that its owner rewrites while it is shown.
#[derive(Clone, Copy, Debug, PartialEq, Eq, Hash, Structural)]
pub struct DynamicTextureParams {
    pub texture_id: u64,
    /// The kind of texture that the owner's pixels need.
    pub texture_kind: AtlasTextureKind,
}

/// Anything else that the renderer draws, such as a glyph, under a number of its owner's.
#[derive(Clone, Copy, Debug, PartialEq, Eq, Hash, Structural)]
pub struct ResourceParams {
    pub resource_id: u64,
    /// The kind of texture that the resource is rendered for.
    pub texture_kind: AtlasTextureKind,
}

/// What a tile shows: the name under which the atlas finds it again.
#[derive(Clone, Copy, Debug, PartialEq, Eq, Hash, Structural)]
pub enum AtlasKey {
    Image(RenderImageParams),
    DynamicTexture(DynamicTextureParams),
    Resource(ResourceParams),
}

impl AtlasKey {
    /// The kind of texture that a tile for this key is asked for.
    pub open spec fn spec_texture_kind(self) -> AtlasTextureKind {
        match self {
            AtlasKey::Image(_) => AtlasTextureKind::Image,
            AtlasKey::DynamicTexture(params) => params.texture_kind,
            AtlasKey::Resource(params) => params.texture_kind,
        }
    }

    /// The kind of texture that a tile for this key is asked for.
    pub fn texture_kind(&self) -> (kind: AtlasTextureKind)
        ensures
            kind == self.spec_texture_kind(),
    {
        match self {
            AtlasKey::Image(_) => AtlasTextureKind::Image,
            AtlasKey::DynamicTexture(params) => params.texture_kind,
            AtlasKey::Resource(params) => params.texture_kind,
        }
    }
}

} // verus!
