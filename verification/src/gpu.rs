//! What the GPU is asked to do.
use crate::geometry::{Area, Bounds};
use crate::tile::AtlasTextureId;
use vstd::prelude::*;

verus! {

/// How a texture stores a pixel.
#[derive(Clone, Copy, Debug, PartialEq, Eq, Hash, Structural)]
pub enum PixelFormat {
    A8Unorm,
    R8Unorm,
    RGBA8Unorm,
    BGRA8Unorm,
}

impl PixelFormat {
    /// The number of bytes that a pixel takes.
    pub open spec fn spec_bytes_per_pixel(self) -> u8 {
        match self {
            PixelFormat::A8Unorm | PixelFormat::R8Unorm => 1,
            PixelFormat::RGBA8Unorm | PixelFormat::BGRA8Unorm => 4,
        }
    }
}

/// What shaders may do with a texture.
#[derive(Clone, Copy, Debug, PartialEq, Eq, Hash, Structural)]
pub enum TextureUsage {
    ShaderRead,
}

/// Which memory a texture lives in.
#[derive(Clone, Copy, Debug, PartialEq, Eq, Hash, Structural)]
pub enum StorageMode {
    /// Memory that the CPU and the GPU both use. Apple GPUs only.
    Shared,
    /// A copy for the CPU and one for the GPU.
    Managed,
}

/// A GPU texture, by what it was made from.
#[derive(Clone, Copy, Debug, PartialEq, Eq, Hash, Structural)]
pub struct MetalTexture {
    pub width: u64,
    pub height: u64,
    pub pixel_format: PixelFormat,
    pub usage: TextureUsage,
    pub storage_mode: StorageMode,
}

/// A pixel of a texture, counted from its first.
#[derive(Clone, Copy, Debug, PartialEq, Eq, Hash, Structural)]
pub struct TextureOrigin {
    pub x: u64,
    pub y: u64,
    pub z: u64,
}

/// The number of pixels in each direction.
#[derive(Clone, Copy, Debug, PartialEq, Eq, Hash, Structural)]
pub struct TextureExtent {
    pub width: u64,
    pub height: u64,
    pub depth: u64,
}

/// Bytes for a rectangle of a texture.
#[derive(Debug, PartialEq, Eq)]
pub struct PendingUpload {
    pub texture_id: AtlasTextureId,
    /// Where the rectangle begins in the texture, in device pixels.
    pub origin: TextureOrigin,
    pub size: TextureExtent,
    pub bytes_per_row: u64,
    pub data: Vec<u8>,
}

/// What a [`PendingUpload`] holds.
pub struct Upload {
    pub texture_id: AtlasTextureId,
    pub origin: TextureOrigin,
    pub size: TextureExtent,
    pub bytes_per_row: u64,
    pub data: Seq<u8>,
}

impl View for PendingUpload {
    type V = Upload;

    open spec fn view(&self) -> Upload {
        Upload {
            texture_id: self.texture_id,
            origin: self.origin,
            size: self.size,
            bytes_per_row: self.bytes_per_row,
            data: self.data@,
        }
    }
}

impl Upload {
    /// The upload of `data`, row by row, to the rectangle `bounds` of a texture.
    pub open spec fn of(
        texture_id: AtlasTextureId,
        bounds: Bounds,
        data: Seq<u8>,
        bytes_per_pixel: u8,
    ) -> Upload {
        Upload {
            texture_id,
            origin: TextureOrigin {
                x: bounds.origin.x.0 as u64,
                y: bounds.origin.y.0 as u64,
                z: 0,
            },
            size: TextureExtent {
                width: bounds.size.width.0 as u64,
                height: bounds.size.height.0 as u64,
                depth: 1,
            },
            bytes_per_row: (bounds.size.width.0 * bytes_per_pixel) as u64,
            data,
        }
    }

    /// The pixels that the upload overwrites.
    pub open spec fn area(self) -> Area {
        Area {
            x: self.origin.x as int,
            y: self.origin.y as int,
            width: self.size.width as int,
            height: self.size.height as int,
        }
    }

    /// The upload overwrites pixels of `texture` only, and brings exactly their bytes.
    pub open spec fn fits(self, texture: MetalTexture) -> bool {
        let bytes_per_pixel = texture.pixel_format.spec_bytes_per_pixel();
        &&& self.area().fits(texture.width as int, texture.height as int)
        &&& self.origin.z == 0
        &&& self.size.depth == 1
        &&& self.bytes_per_row == self.size.width * bytes_per_pixel
        &&& self.data.len() == self.size.width * self.size.height * bytes_per_pixel
    }
}

/// What the uploads of a list hold.
pub open spec fn upload_views(uploads: Seq<PendingUpload>) -> Seq<Upload> {
    uploads.map_values(|upload: PendingUpload| upload@)
}

/// Work for the GPU. Commands are carried out in the order in which they were given.
#[derive(Debug, PartialEq, Eq)]
pub enum GpuCommand {
    /// Make a texture, and use it for `id` from now on.
    CreateTexture { id: AtlasTextureId, texture: MetalTexture },
    /// Drop the texture that was made for `id`.
    DropTexture { id: AtlasTextureId },
    /// Overwrite a part of a texture at once, from the CPU.
    ReplaceRegion { upload: PendingUpload },
    /// Copy the uploads to their textures on a command buffer of their own, and commit it.
    CommitUploads { uploads: Vec<PendingUpload> },
}

/// What a [`GpuCommand`] holds.
pub enum Command {
    CreateTexture { id: AtlasTextureId, texture: MetalTexture },
    DropTexture { id: AtlasTextureId },
    ReplaceRegion { upload: Upload },
    CommitUploads { uploads: Seq<Upload> },
}

impl View for GpuCommand {
    type V = Command;

    open spec fn view(&self) -> Command {
        match *self {
            GpuCommand::CreateTexture { id, texture } => Command::CreateTexture { id, texture },
            GpuCommand::DropTexture { id } => Command::DropTexture { id },
            GpuCommand::ReplaceRegion { upload } => Command::ReplaceRegion { upload: upload@ },
            GpuCommand::CommitUploads { uploads } => Command::CommitUploads {
                uploads: upload_views(uploads@),
            },
        }
    }
}

/// What the commands of a list hold.
pub open spec fn command_views(commands: Seq<GpuCommand>) -> Seq<Command> {
    commands.map_values(|command: GpuCommand| command@)
}

} // verus!
