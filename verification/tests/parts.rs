use metal_atlas::allocator::{point_from_etagere, size_to_etagere};
use metal_atlas::error::AtlasError;
use metal_atlas::geometry::{Bounds, DevicePixels, Point, Size};
use metal_atlas::gpu::{GpuCommand, PendingUpload, PixelFormat, TextureExtent, TextureOrigin};
use metal_atlas::state::AtlasState;
use metal_atlas::texture::MetalAtlasTexture;
use metal_atlas::textures::{max_atlas_size, MetalAtlasTextures};
use metal_atlas::tile::{
    AtlasKey, AtlasTextureId, AtlasTextureKind, AtlasTile, ImageId, RenderImageParams, TileId,
};
use metal_atlas::tile_map::TileMap;
use metal_atlas::upload::{upload_bounds, validate_upload, MAX_PENDING_UPLOAD_BYTES};

fn size(width: i32, height: i32) -> Size {
    Size { width: DevicePixels(width), height: DevicePixels(height) }
}

fn bounds(x: i32, y: i32, width: i32, height: i32) -> Bounds {
    Bounds { origin: Point { x: DevicePixels(x), y: DevicePixels(y) }, size: size(width, height) }
}

fn tile(bounds: Bounds) -> AtlasTile {
    AtlasTile {
        texture_id: AtlasTextureId { index: 0, kind: AtlasTextureKind::Image },
        tile_id: TileId(1),
        padding: 0,
        bounds,
    }
}

#[test]
fn sizes_are_compared_side_by_side() {
    assert_eq!(size(3, 9).min(&size(5, 4)), size(3, 4));
    assert_eq!(size(3, 9).max(&size(5, 4)), size(5, 9));
    assert!(size(5, 4).fits_in(&size(5, 4)));
    assert!(!size(6, 4).fits_in(&size(5, 4)));
    assert!(!size(5, 5).fits_in(&size(5, 4)));
    assert!(!size(0, 4).fits_in(&size(5, 4)));
    assert!(!size(5, -1).fits_in(&size(5, 4)));
    assert_eq!(max_atlas_size(), size(16384, 16384));
}

#[test]
fn pixels_are_converted() {
    assert_eq!(DevicePixels(16384).to_bytes(4), 65536);
    assert_eq!(DevicePixels(0).to_bytes(4), 0);
    assert_eq!(DevicePixels(7).to_u64(), 7);
    assert_eq!(size_to_etagere(size(3, 4)), (3, 4));
    assert_eq!(
        point_from_etagere((3, 4)),
        Point { x: DevicePixels(3), y: DevicePixels(4) }
    );
}

#[test]
fn upload_is_checked_in_order() {
    let t = tile(bounds(100, 100, 10, 10));
    assert_eq!(validate_upload(t, bounds(0, 0, 10, 10), &[0; 400], 4), Ok(()));
    assert_eq!(validate_upload(t, bounds(9, 9, 1, 1), &[0], 1), Ok(()));
    assert_eq!(
        validate_upload(t, bounds(0, -1, 0, 0), &[], 4),
        Err(AtlasError::NegativeOrigin)
    );
    assert_eq!(
        validate_upload(t, bounds(0, 0, 1, -1), &[], 4),
        Err(AtlasError::NonPositiveSize)
    );
    assert_eq!(
        validate_upload(t, bounds(i32::MAX, i32::MAX, 1, 1), &[], 4),
        Err(AtlasError::HorizontalBoundsOverflow)
    );
    assert_eq!(
        validate_upload(t, bounds(0, i32::MAX, 20, 1), &[], 4),
        Err(AtlasError::VerticalBoundsOverflow)
    );
    assert_eq!(
        validate_upload(t, bounds(0, 1, 10, 10), &[], 4),
        Err(AtlasError::ExceedsTile)
    );
    assert_eq!(
        validate_upload(t, bounds(0, 0, 10, 10), &[], 4),
        Err(AtlasError::ByteCount { actual: 0, expected: 400 })
    );
}

#[test]
fn upload_byte_count_can_overflow() {
    let t = tile(bounds(0, 0, i32::MAX, i32::MAX));
    assert_eq!(
        validate_upload(t, bounds(0, 0, i32::MAX, i32::MAX), &[], 255),
        Err(AtlasError::ByteSizeOverflow)
    );
}

#[test]
fn upload_is_moved_to_the_tile() {
    let t = tile(bounds(100, 200, 10, 10));
    assert_eq!(upload_bounds(t, bounds(1, 2, 3, 4)), Ok(bounds(101, 202, 3, 4)));
    assert_eq!(
        upload_bounds(t, bounds(i32::MAX - 99, i32::MAX, 3, 4)),
        Err(AtlasError::HorizontalOriginOverflow)
    );
    assert_eq!(
        upload_bounds(t, bounds(0, i32::MAX - 199, 3, 4)),
        Err(AtlasError::VerticalOriginOverflow)
    );
    assert_eq!(MAX_PENDING_UPLOAD_BYTES, 67108864);
}

#[test]
fn allocation_becomes_a_tile() {
    let id = AtlasTextureId { index: 9, kind: AtlasTextureKind::Monochrome };
    assert_eq!(
        MetalAtlasTexture::tile_at(id, size(5, 6), (77, 11, 12)),
        AtlasTile {
            texture_id: id,
            tile_id: TileId(77),
            padding: 0,
            bounds: bounds(11, 12, 5, 6),
        }
    );
}

#[test]
fn texture_counts_its_keys() {
    let mut textures = MetalAtlasTextures::new(true);
    let texture = textures.push_texture_with_size(size(100, 50), AtlasTextureKind::Monochrome);
    assert_eq!(texture.id, AtlasTextureId { index: 0, kind: AtlasTextureKind::Monochrome });
    assert_eq!(texture.bytes_per_pixel(), 1);
    assert!(texture.is_unreferenced());
    let first = texture.allocate(size(100, 20)).unwrap();
    let second = texture.allocate(size(100, 20)).unwrap();
    assert_ne!(first.bounds.origin, second.bounds.origin);
    assert_ne!(first.tile_id, second.tile_id);
    assert_eq!(texture.allocate(size(101, 1)), None);
    assert_eq!(texture.allocate(size(100, 40)), None);
    assert_eq!(texture.live_atlas_keys, 2);
    texture.decrement_ref_count();
    assert_eq!(texture.live_atlas_keys, 1);
    assert!(!texture.is_unreferenced());
    match texture.upload(bounds(3, 4, 5, 1), &[1, 2, 3, 4, 5]) {
        GpuCommand::ReplaceRegion { upload } => {
            assert_eq!(upload.texture_id, texture.id);
            assert_eq!(upload.origin, TextureOrigin { x: 3, y: 4, z: 0 });
            assert_eq!(upload.size, TextureExtent { width: 5, height: 1, depth: 1 });
            assert_eq!(upload.bytes_per_row, 5);
            assert_eq!(upload.data, vec![1, 2, 3, 4, 5]);
        }
        other => panic!("unexpected command {:?}", other),
    }
}

#[test]
fn released_space_is_used_again() {
    let mut textures = MetalAtlasTextures::new(true);
    let whole = size(512, 512);
    let tall = textures.allocate(size(512, 300), AtlasTextureKind::Polychrome).unwrap();
    let flat = textures.allocate(size(512, 100), AtlasTextureKind::Polychrome).unwrap();
    assert_eq!(tall.texture_id, flat.texture_id);
    textures.remove(flat);
    let again = textures.allocate(size(512, 100), AtlasTextureKind::Polychrome).unwrap();
    assert_eq!(again.texture_id, flat.texture_id);
    assert_eq!(again.bounds, flat.bounds);
    textures.remove(again);
    textures.remove(tall);
    assert!(textures.texture(tall.texture_id).is_none());
    // A tile of a texture that is gone is gone already.
    textures.remove(tall);
    let all = textures.allocate(whole, AtlasTextureKind::Polychrome).unwrap();
    assert_eq!(all.bounds, bounds(0, 0, 512, 512));
    assert_eq!(all.texture_id, tall.texture_id);
}

#[test]
fn pushed_textures_take_the_default_size() {
    let mut textures = MetalAtlasTextures::new(true);
    let texture = textures.push_texture(size(1, 2000), AtlasTextureKind::Image);
    assert_eq!((texture.metal_texture.width, texture.metal_texture.height), (512, 2000));
    assert_eq!(texture.metal_texture.pixel_format, PixelFormat::BGRA8Unorm);
    assert_eq!(texture.bytes_per_pixel(), 4);
    let texture = textures.push_texture(size(20000, -4), AtlasTextureKind::Monochrome);
    assert_eq!((texture.metal_texture.width, texture.metal_texture.height), (16384, 1024));
    assert!(textures.has_room(AtlasTextureKind::Image));
    assert!(!textures.has_room(AtlasTextureKind::Subpixel));
    assert!(textures.can_allocate(AtlasTextureKind::Image));
    assert!(!textures.can_allocate(AtlasTextureKind::Subpixel));
}

#[test]
fn dedicated_textures_are_refused_by_size() {
    let mut textures = MetalAtlasTextures::new(true);
    let kind = AtlasTextureKind::Image;
    assert_eq!(textures.allocate_dedicated(size(0, 1), kind), None);
    assert_eq!(
        textures.insert_dedicated(kind, size(1, 16385)),
        Err(AtlasError::DedicatedAllocation)
    );
    assert_eq!(textures.commands, vec![]);
    let tile = textures.insert_dedicated(kind, size(3, 5)).unwrap();
    assert_eq!(tile.bounds, bounds(0, 0, 3, 5));
    assert_eq!(tile.texture_id.kind, kind);
    assert_eq!(
        MetalAtlasTextures::page_kind(kind, size(256, 256)),
        AtlasTextureKind::ImageSmall
    );
    assert_eq!(MetalAtlasTextures::page_kind(kind, size(256, 257)), kind);
}

#[test]
fn waiting_bytes_are_counted() {
    let mut textures = MetalAtlasTextures::new(true);
    let tile = textures.insert_dedicated(AtlasTextureKind::Polychrome, size(2, 2)).unwrap();
    textures.queue_upload(tile, bounds(0, 0, 1, 1), &[1; 4], 4);
    textures.queue_upload(tile, bounds(0, 1, 2, 1), &[2; 8], 4);
    assert_eq!(textures.pending_upload_bytes, 12);
    textures.queue_upload(tile, bounds(0, 0, 2, 2), &[3; 16], 4);
    assert_eq!(textures.pending_upload_bytes, 16);
    textures.commit_pending_locked();
    assert_eq!(textures.pending_upload_bytes, 0);
    assert_eq!(textures.commands.len(), 2);
    textures.queue_upload(tile, bounds(0, 0, 1, 1), &[4; 4], 4);
    textures.remove(tile);
    assert_eq!(textures.pending_upload_bytes, 0);
    assert_eq!(textures.encode_pending_locked(), vec![]);
}

#[test]
fn keys_find_their_tiles() {
    let key = |image_id: usize, frame_index: usize| {
        AtlasKey::Image(RenderImageParams { image_id: ImageId(image_id), frame_index })
    };
    let a = tile(bounds(0, 0, 1, 1));
    let b = tile(bounds(1, 0, 1, 1));
    let mut tiles = TileMap::new();
    tiles.insert(key(usize::MAX, usize::MAX), a);
    tiles.insert(key(0, 1), b);
    assert_eq!(tiles.get(&key(usize::MAX, usize::MAX)), Some(&a));
    assert_eq!(tiles.get(&key(1, 0)), None);
    tiles.insert(key(0, 1), a);
    assert_eq!(tiles.remove(&key(0, 1)), Some(a));
    assert_eq!(tiles.remove(&key(0, 1)), None);

    let mut state = AtlasState::new(MetalAtlasTextures::new(true));
    assert!(!state.contains(&key(1, 1)));
    state.insert_tile(key(1, 1), b);
    assert!(state.contains(&key(1, 1)));
    assert_eq!(state.tile_for(&key(1, 1)), Some(&b));
    assert_eq!(key(1, 1).texture_kind(), AtlasTextureKind::Image);
}

fn upload_to(index: u32, byte: u8) -> PendingUpload {
    PendingUpload {
        texture_id: AtlasTextureId { index, kind: AtlasTextureKind::Polychrome },
        origin: TextureOrigin { x: 0, y: 0, z: 0 },
        size: TextureExtent { width: 1, height: 1, depth: 1 },
        bytes_per_row: 4,
        data: vec![byte; 4],
    }
}

#[test]
fn uploads_for_textures_that_are_gone_are_skipped() {
    let kind = AtlasTextureKind::Polychrome;
    let mut textures = MetalAtlasTextures::new(true);
    textures.insert_dedicated(kind, size(2, 2)).unwrap();
    let gone = textures.insert_dedicated(kind, size(2, 2)).unwrap();
    textures.insert_dedicated(kind, size(2, 2)).unwrap();
    textures.remove(gone);
    for index in 0..3 {
        textures.pending_uploads.push(upload_to(index, index as u8));
    }
    textures.pending_upload_bytes = 12;
    assert_eq!(textures.encode_pending_locked(), vec![upload_to(0, 0), upload_to(2, 2)]);
    assert_eq!(textures.pending_uploads, vec![]);
    assert_eq!(textures.pending_upload_bytes, 0);

    textures.commands.clear();
    textures.pending_uploads.push(upload_to(1, 1));
    textures.pending_uploads.push(upload_to(2, 2));
    textures.pending_upload_bytes = 8;
    textures.commit_pending_locked();
    assert_eq!(
        textures.commands,
        vec![GpuCommand::CommitUploads { uploads: vec![upload_to(2, 2)] }]
    );
}

#[test]
fn any_number_of_bytes_can_be_queued() {
    let mut textures = MetalAtlasTextures::new(true);
    let tile = textures.insert_dedicated(AtlasTextureKind::Polychrome, size(2, 2)).unwrap();
    textures.commands.clear();
    textures.queue_upload(tile, bounds(0, 0, 1, 1), &[1; 3], 4);
    assert_eq!(textures.pending_upload_bytes, 3);
    let many = vec![2; MAX_PENDING_UPLOAD_BYTES + 1];
    textures.queue_upload(tile, bounds(1, 0, 1, 1), &many, 4);
    assert_eq!(textures.pending_upload_bytes, 0);
    assert_eq!(textures.pending_uploads, vec![]);
    match &textures.commands[0] {
        GpuCommand::CommitUploads { uploads } => {
            assert_eq!(uploads.len(), 2);
            assert_eq!(uploads[1].data.len(), MAX_PENDING_UPLOAD_BYTES + 1);
        }
        other => panic!("unexpected command {:?}", other),
    }
}
