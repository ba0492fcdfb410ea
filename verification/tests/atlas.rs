use metal_atlas::atlas::MetalAtlas;
use metal_atlas::error::AtlasError;
use metal_atlas::geometry::{Bounds, DevicePixels, Point, Size};
use metal_atlas::gpu::{
    GpuCommand, MetalTexture, PixelFormat, StorageMode, TextureExtent, TextureOrigin, TextureUsage,
};
use metal_atlas::state::InsertError;
use metal_atlas::tile::{
    AtlasKey, AtlasTextureId, AtlasTextureKind, AtlasTile, DynamicTextureParams, ImageId,
    RenderImageParams, ResourceParams,
};

fn create_atlas() -> MetalAtlas {
    MetalAtlas::new(true)
}

fn size(width: i32, height: i32) -> Size {
    Size { width: DevicePixels(width), height: DevicePixels(height) }
}

fn bounds(x: i32, y: i32, width: i32, height: i32) -> Bounds {
    Bounds { origin: Point { x: DevicePixels(x), y: DevicePixels(y) }, size: size(width, height) }
}

fn make_image_key(image_id: usize, frame_index: usize) -> AtlasKey {
    AtlasKey::Image(RenderImageParams { image_id: ImageId(image_id), frame_index })
}

fn dynamic_key(texture_id: u64) -> AtlasKey {
    AtlasKey::DynamicTexture(DynamicTextureParams {
        texture_id,
        texture_kind: AtlasTextureKind::Polychrome,
    })
}

fn glyph_key(resource_id: u64) -> AtlasKey {
    AtlasKey::Resource(ResourceParams { resource_id, texture_kind: AtlasTextureKind::Monochrome })
}

fn try_insert(
    atlas: &mut MetalAtlas,
    key: AtlasKey,
    size: Size,
) -> Result<Option<AtlasTile>, InsertError<String>> {
    atlas.get_or_insert_with(key, || {
        let byte_count = (size.width.0.max(0) as usize) * (size.height.0.max(0) as usize) * 4;
        Ok(Some((size, vec![0u8; byte_count])))
    })
}

fn insert_tile(atlas: &mut MetalAtlas, key: AtlasKey, size: Size) -> AtlasTile {
    try_insert(atlas, key, size)
        .expect("allocation should succeed")
        .expect("callback returns Some")
}

fn overlap(a: Bounds, b: Bounds) -> bool {
    a.origin.x.0 < b.origin.x.0 + b.size.width.0
        && b.origin.x.0 < a.origin.x.0 + a.size.width.0
        && a.origin.y.0 < b.origin.y.0 + b.size.height.0
        && b.origin.y.0 < a.origin.y.0 + a.size.height.0
}

#[test]
fn test_remove_clears_stale_keys_from_tiles_by_key() {
    let mut atlas = create_atlas();

    let small = size(64, 64);

    let key_a = make_image_key(1, 0);
    let key_b = make_image_key(2, 0);
    let key_c = make_image_key(3, 0);

    let tile_a = insert_tile(&mut atlas, key_a, small);
    let tile_b = insert_tile(&mut atlas, key_b, small);
    let tile_c = insert_tile(&mut atlas, key_c, small);

    assert_eq!(tile_a.texture_id.kind, AtlasTextureKind::ImageSmall);
    assert_eq!(tile_a.texture_id, tile_b.texture_id);
    assert_eq!(tile_b.texture_id, tile_c.texture_id);

    // The texture still has B and C, so it stays, but A is forgotten.
    atlas.remove(&key_a);

    // The texture still has C.
    atlas.remove(&key_b);

    // The texture is unreferenced and goes.
    atlas.remove(&key_c);

    // A gets a fresh tile on a new texture, not the stale one.
    let tile_a2 = insert_tile(&mut atlas, key_a, small);

    assert!(atlas.metal_texture(tile_a2.texture_id).is_some());
}

#[test]
fn test_metal_texture_is_none_after_last_tile_removed() {
    let mut atlas = create_atlas();

    let key = make_image_key(1, 0);
    let tile = insert_tile(&mut atlas, key, size(64, 64));
    assert!(atlas.metal_texture(tile.texture_id).is_some());

    // A scene from before the removal may still carry the tile.
    atlas.remove(&key);
    assert!(atlas.metal_texture(tile.texture_id).is_none());
}

#[test]
fn test_remove_deallocates_tile_space_for_reuse() {
    let mut atlas = create_atlas();

    let big = size(700, 700);

    let big_key_a = make_image_key(2, 0);
    let big_key_b = make_image_key(3, 0);

    let tile_a = insert_tile(&mut atlas, big_key_a, big);
    assert_eq!(tile_a.texture_id.kind, AtlasTextureKind::Image);

    atlas.remove(&big_key_a);
    let tile_b = insert_tile(&mut atlas, big_key_b, big);
    assert_eq!(tile_b.texture_id, tile_a.texture_id);
}

#[test]
fn test_remove_nonexistent_key_is_noop() {
    let mut atlas = create_atlas();
    let key = make_image_key(999, 0);
    atlas.remove(&key);
    assert_eq!(atlas.take_commands(), vec![]);
}

#[test]
fn first_tile_makes_a_texture_and_writes_to_it() {
    let mut atlas = create_atlas();
    let tile = insert_tile(&mut atlas, make_image_key(1, 0), size(64, 32));
    let id = AtlasTextureId { index: 0, kind: AtlasTextureKind::ImageSmall };
    assert_eq!(tile.texture_id, id);
    assert_eq!(tile.padding, 0);
    assert_eq!(tile.bounds.size, size(64, 32));

    let commands = atlas.take_commands();
    assert_eq!(commands.len(), 2);
    let texture = MetalTexture {
        width: 512,
        height: 512,
        pixel_format: PixelFormat::BGRA8Unorm,
        usage: TextureUsage::ShaderRead,
        storage_mode: StorageMode::Shared,
    };
    assert_eq!(commands[0], GpuCommand::CreateTexture { id, texture });
    match &commands[1] {
        GpuCommand::ReplaceRegion { upload } => {
            assert_eq!(upload.texture_id, id);
            assert_eq!(
                upload.origin,
                TextureOrigin {
                    x: tile.bounds.origin.x.0 as u64,
                    y: tile.bounds.origin.y.0 as u64,
                    z: 0
                }
            );
            assert_eq!(upload.size, TextureExtent { width: 64, height: 32, depth: 1 });
            assert_eq!(upload.bytes_per_row, 256);
            assert_eq!(upload.data.len(), 64 * 32 * 4);
        }
        other => panic!("unexpected command {:?}", other),
    }
    assert_eq!(atlas.metal_texture(id), Some(texture));
    assert_eq!(atlas.take_commands(), vec![]);
}

#[test]
fn textures_follow_the_kind_and_the_gpu() {
    let mut atlas = MetalAtlas::new(false);
    let glyph = insert_tile(&mut atlas, glyph_key(7), size(10, 12));
    assert_eq!(
        glyph.texture_id,
        AtlasTextureId { index: 0, kind: AtlasTextureKind::Monochrome }
    );
    assert_eq!(
        atlas.metal_texture(glyph.texture_id),
        Some(MetalTexture {
            width: 1024,
            height: 1024,
            pixel_format: PixelFormat::A8Unorm,
            usage: TextureUsage::ShaderRead,
            storage_mode: StorageMode::Managed,
        })
    );
    match &atlas.take_commands()[1] {
        GpuCommand::ReplaceRegion { upload } => assert_eq!(upload.bytes_per_row, 10),
        other => panic!("unexpected command {:?}", other),
    }
}

#[test]
fn new_textures_are_as_large_as_their_tile_needs() {
    let mut atlas = create_atlas();
    let big = insert_tile(&mut atlas, make_image_key(1, 0), size(700, 300));
    let texture = atlas.metal_texture(big.texture_id).unwrap();
    assert_eq!((texture.width, texture.height), (700, 512));
    let wide = insert_tile(&mut atlas, make_image_key(2, 0), size(16384, 1));
    let texture = atlas.metal_texture(wide.texture_id).unwrap();
    assert_eq!((texture.width, texture.height), (16384, 512));
    assert_ne!(big.texture_id, wide.texture_id);
}

#[test]
fn image_size_decides_the_kind() {
    let mut atlas = create_atlas();
    let small = insert_tile(&mut atlas, make_image_key(1, 0), size(256, 256));
    let wide = insert_tile(&mut atlas, make_image_key(2, 0), size(257, 1));
    let tall = insert_tile(&mut atlas, make_image_key(3, 0), size(1, 257));
    assert_eq!(small.texture_id.kind, AtlasTextureKind::ImageSmall);
    assert_eq!(wide.texture_id.kind, AtlasTextureKind::Image);
    assert_eq!(tall.texture_id.kind, AtlasTextureKind::Image);
    let dynamic = insert_tile(&mut atlas, dynamic_key(1), size(16, 16));
    assert_eq!(dynamic.texture_id.kind, AtlasTextureKind::Polychrome);
}

#[test]
fn frames_of_an_image_are_different_keys() {
    let mut atlas = create_atlas();
    let first = insert_tile(&mut atlas, make_image_key(5, 0), size(8, 8));
    let second = insert_tile(&mut atlas, make_image_key(5, 1), size(8, 8));
    let swapped = insert_tile(&mut atlas, make_image_key(1, 5), size(8, 8));
    assert_ne!(first, second);
    assert_ne!(second, swapped);
    assert_eq!(atlas.tile_for(&make_image_key(5, 0)), Some(first));
    assert_eq!(atlas.tile_for(&make_image_key(5, 1)), Some(second));
    assert_eq!(atlas.tile_for(&make_image_key(5, 2)), None);
    let a = AtlasKey::DynamicTexture(DynamicTextureParams {
        texture_id: 3,
        texture_kind: AtlasTextureKind::Monochrome,
    });
    let b = AtlasKey::Resource(ResourceParams {
        resource_id: 3,
        texture_kind: AtlasTextureKind::Monochrome,
    });
    let tile = insert_tile(&mut atlas, a, size(8, 8));
    assert_eq!(atlas.tile_for(&b), None);
    assert_eq!(atlas.tile_for(&a), Some(tile));
}

#[test]
fn cached_tiles_are_not_built_again() {
    let mut atlas = create_atlas();
    let key = make_image_key(1, 0);
    let tile = insert_tile(&mut atlas, key, size(64, 64));
    atlas.take_commands();
    let again: Result<Option<AtlasTile>, InsertError<String>> =
        atlas.get_or_insert_with(key, || panic!("must not be called"));
    assert_eq!(again, Ok(Some(tile)));
    let dynamic = insert_tile(&mut atlas, dynamic_key(1), size(64, 64));
    atlas.take_commands();
    let again: Result<Option<AtlasTile>, InsertError<String>> =
        atlas.get_or_insert_with(dynamic_key(1), || panic!("must not be called"));
    assert_eq!(again, Ok(Some(dynamic)));
    assert_eq!(atlas.take_commands(), vec![]);
}

#[test]
fn nothing_to_show_takes_no_tile() {
    let mut atlas = create_atlas();
    let key = make_image_key(1, 0);
    let none: Result<Option<AtlasTile>, InsertError<String>> =
        atlas.get_or_insert_with(key, || Ok(None));
    assert_eq!(none, Ok(None));
    let failed = atlas.get_or_insert_with(key, || Err("no font".to_string()));
    assert_eq!(failed, Err(InsertError::Build("no font".to_string())));
    let failed = atlas.get_or_insert_with(dynamic_key(1), || Err(5u8));
    assert_eq!(failed, Err(InsertError::Build(5u8)));
    assert_eq!(atlas.tile_for(&key), None);
    assert_eq!(atlas.take_commands(), vec![]);
}

#[test]
fn tiles_without_a_place_are_refused() {
    let mut atlas = create_atlas();
    let key = make_image_key(1, 0);
    for refused in [size(0, 5), size(5, 0), size(-1, 5), size(16385, 1), size(1, 16385)] {
        assert_eq!(
            try_insert(&mut atlas, key, refused),
            Err(InsertError::Atlas(AtlasError::Allocation))
        );
        // A texture was made in vain.
        let commands = atlas.take_commands();
        assert_eq!(commands.len(), 1);
        assert!(matches!(commands[0], GpuCommand::CreateTexture { .. }));
        assert_eq!(atlas.tile_for(&key), None);
        assert_eq!(
            try_insert(&mut atlas, dynamic_key(1), refused),
            Err(InsertError::Atlas(AtlasError::DedicatedAllocation))
        );
        assert_eq!(atlas.take_commands(), vec![]);
    }
    assert_eq!(atlas.max_texture_size(), Some(size(16384, 16384)));
    assert_eq!(atlas.resource_generation(), 0);
    insert_tile(&mut atlas, dynamic_key(1), size(16384, 1));
}

#[test]
fn last_texture_with_room_is_used() {
    let mut atlas = create_atlas();
    let first = insert_tile(&mut atlas, make_image_key(1, 0), size(512, 300));
    let second = insert_tile(&mut atlas, make_image_key(2, 0), size(512, 400));
    assert_eq!(first.texture_id.index, 0);
    assert_eq!(second.texture_id.index, 1);
    // Both have room for this one.
    let third = insert_tile(&mut atlas, make_image_key(3, 0), size(512, 90));
    assert_eq!(third.texture_id.index, 1);
    // Only the first has room for this one.
    let fourth = insert_tile(&mut atlas, make_image_key(4, 0), size(512, 150));
    assert_eq!(fourth.texture_id.index, 0);
}

#[test]
fn texture_numbers_are_given_again_last_first() {
    let mut atlas = create_atlas();
    for id in 0..3 {
        let tile = insert_tile(&mut atlas, dynamic_key(id), size(32, 32));
        assert_eq!(tile.texture_id.index as u64, id);
    }
    atlas.remove(&dynamic_key(0));
    atlas.remove(&dynamic_key(2));
    atlas.take_commands();
    assert_eq!(insert_tile(&mut atlas, dynamic_key(3), size(8, 8)).texture_id.index, 2);
    assert_eq!(insert_tile(&mut atlas, dynamic_key(4), size(8, 8)).texture_id.index, 0);
    assert_eq!(insert_tile(&mut atlas, dynamic_key(5), size(8, 8)).texture_id.index, 3);
    assert_eq!(atlas.take_commands().len(), 3);
}

#[test]
fn removal_tells_the_gpu_to_drop_the_texture() {
    let mut atlas = create_atlas();
    let a = insert_tile(&mut atlas, make_image_key(1, 0), size(64, 64));
    insert_tile(&mut atlas, make_image_key(2, 0), size(64, 64));
    atlas.take_commands();
    atlas.remove(&make_image_key(1, 0));
    assert_eq!(atlas.take_commands(), vec![]);
    atlas.remove(&make_image_key(1, 0));
    assert_eq!(atlas.take_commands(), vec![]);
    atlas.remove(&make_image_key(2, 0));
    assert_eq!(atlas.take_commands(), vec![GpuCommand::DropTexture { id: a.texture_id }]);
    assert_eq!(atlas.tile_for(&make_image_key(2, 0)), None);
}

#[test]
fn dynamic_textures_have_a_texture_of_their_size_to_themselves() {
    let mut atlas = create_atlas();
    let first = insert_tile(&mut atlas, dynamic_key(1), size(100, 60));
    let second = insert_tile(&mut atlas, dynamic_key(2), size(100, 60));
    assert_ne!(first.texture_id, second.texture_id);
    assert_eq!(first.bounds, bounds(0, 0, 100, 60));
    let texture = atlas.metal_texture(first.texture_id).unwrap();
    assert_eq!((texture.width, texture.height), (100, 60));
    // Only the textures are made; the pixels come with the updates.
    let commands = atlas.take_commands();
    assert_eq!(commands.len(), 2);
    assert!(commands.iter().all(|c| matches!(c, GpuCommand::CreateTexture { .. })));
    // Another tile of the kind does not go there, however small.
    let icon = AtlasKey::Resource(ResourceParams {
        resource_id: 1,
        texture_kind: AtlasTextureKind::Polychrome,
    });
    let tile = insert_tile(&mut atlas, icon, size(1, 1));
    assert_eq!(tile.texture_id.index, 2);
}

#[test]
fn subpixel_textures_are_not_available() {
    let atlas = create_atlas();
    let key = AtlasKey::Resource(ResourceParams {
        resource_id: 1,
        texture_kind: AtlasTextureKind::Subpixel,
    });
    assert!(!atlas.can_insert(&key, size(8, 8)));
    assert!(atlas.can_insert(&glyph_key(1), size(8, 8)));
    assert!(atlas.can_insert(&dynamic_key(1), size(8, 8)));
    let dynamic = AtlasKey::DynamicTexture(DynamicTextureParams {
        texture_id: 1,
        texture_kind: AtlasTextureKind::Subpixel,
    });
    assert!(!atlas.can_insert(&dynamic, size(8, 8)));
    assert!(atlas.can_insert(&dynamic, size(0, 8)));
}

#[test]
fn updates_wait_in_order() {
    let mut atlas = create_atlas();
    let tile = insert_tile(&mut atlas, dynamic_key(1), size(4, 4));
    atlas.take_commands();
    assert_eq!(atlas.update(&dynamic_key(1), bounds(1, 2, 2, 1), &[7; 8]), Ok(()));
    assert_eq!(atlas.update(&dynamic_key(1), bounds(3, 3, 1, 1), &[9; 4]), Ok(()));
    let uploads = atlas.encode_pending_uploads();
    assert_eq!(uploads.len(), 2);
    assert_eq!(uploads[0].texture_id, tile.texture_id);
    assert_eq!(uploads[0].origin, TextureOrigin { x: 1, y: 2, z: 0 });
    assert_eq!(uploads[0].size, TextureExtent { width: 2, height: 1, depth: 1 });
    assert_eq!(uploads[0].bytes_per_row, 8);
    assert_eq!(uploads[0].data, vec![7; 8]);
    assert_eq!(uploads[1].data, vec![9; 4]);
    assert_eq!(atlas.encode_pending_uploads(), vec![]);
    assert_eq!(atlas.take_commands(), vec![]);
}

#[test]
fn updates_of_a_shared_texture_are_moved_to_the_tile() {
    let mut atlas = create_atlas();
    let key = make_image_key(1, 0);
    let tile = insert_tile(&mut atlas, key, size(64, 64));
    assert_eq!(atlas.update(&key, bounds(5, 6, 1, 1), &[1, 2, 3, 4]), Ok(()));
    let uploads = atlas.encode_pending_uploads();
    assert_eq!(
        uploads[0].origin,
        TextureOrigin {
            x: tile.bounds.origin.x.0 as u64 + 5,
            y: tile.bounds.origin.y.0 as u64 + 6,
            z: 0
        }
    );
}

#[test]
fn updates_without_a_tile_are_ignored() {
    let mut atlas = create_atlas();
    assert_eq!(atlas.update(&dynamic_key(1), bounds(-1, -1, -1, -1), &[]), Ok(()));
    assert_eq!(atlas.encode_pending_uploads(), vec![]);
}

#[test]
fn refused_updates_do_not_wait() {
    let mut atlas = create_atlas();
    let key = dynamic_key(1);
    insert_tile(&mut atlas, key, size(4, 4));
    assert_eq!(
        atlas.update(&key, bounds(-1, 0, 1, 1), &[0; 4]),
        Err(AtlasError::NegativeOrigin)
    );
    assert_eq!(
        atlas.update(&key, bounds(0, 0, 0, 1), &[]),
        Err(AtlasError::NonPositiveSize)
    );
    assert_eq!(
        atlas.update(&key, bounds(2, 0, 3, 1), &[0; 12]),
        Err(AtlasError::ExceedsTile)
    );
    assert_eq!(
        atlas.update(&key, bounds(0, 0, 2, 2), &[0; 15]),
        Err(AtlasError::ByteCount { actual: 15, expected: 16 })
    );
    assert_eq!(atlas.encode_pending_uploads(), vec![]);
}

#[test]
fn full_updates_replace_what_waits() {
    let mut atlas = create_atlas();
    insert_tile(&mut atlas, dynamic_key(1), size(2, 2));
    insert_tile(&mut atlas, dynamic_key(2), size(2, 2));
    atlas.update(&dynamic_key(1), bounds(0, 0, 1, 1), &[1; 4]).unwrap();
    atlas.update(&dynamic_key(2), bounds(0, 0, 1, 1), &[2; 4]).unwrap();
    atlas.update(&dynamic_key(1), bounds(1, 0, 1, 1), &[3; 4]).unwrap();
    atlas.update(&dynamic_key(1), bounds(0, 0, 2, 2), &[4; 16]).unwrap();
    let uploads = atlas.encode_pending_uploads();
    assert_eq!(uploads.len(), 2);
    assert_eq!(uploads[0].data, vec![2; 4]);
    assert_eq!(uploads[1].data, vec![4; 16]);
}

#[test]
fn removal_drops_what_waits_for_the_texture() {
    let mut atlas = create_atlas();
    insert_tile(&mut atlas, dynamic_key(1), size(2, 2));
    insert_tile(&mut atlas, dynamic_key(2), size(2, 2));
    atlas.update(&dynamic_key(1), bounds(0, 0, 1, 1), &[1; 4]).unwrap();
    atlas.update(&dynamic_key(2), bounds(0, 0, 1, 1), &[2; 4]).unwrap();
    atlas.remove(&dynamic_key(1));
    let uploads = atlas.encode_pending_uploads();
    assert_eq!(uploads.len(), 1);
    assert_eq!(uploads[0].data, vec![2; 4]);
}

#[test]
fn commit_hands_the_uploads_to_the_gpu() {
    let mut atlas = create_atlas();
    insert_tile(&mut atlas, dynamic_key(1), size(2, 2));
    atlas.take_commands();
    atlas.commit_pending_uploads();
    assert_eq!(atlas.take_commands(), vec![]);
    atlas.update(&dynamic_key(1), bounds(0, 0, 1, 1), &[1; 4]).unwrap();
    atlas.commit_pending_uploads();
    let commands = atlas.take_commands();
    assert_eq!(commands.len(), 1);
    match &commands[0] {
        GpuCommand::CommitUploads { uploads } => assert_eq!(uploads[0].data, vec![1; 4]),
        other => panic!("unexpected command {:?}", other),
    }
    assert_eq!(atlas.encode_pending_uploads(), vec![]);
}

#[test]
fn too_many_bytes_do_not_wait() {
    let mut atlas = create_atlas();
    let key = dynamic_key(1);
    insert_tile(&mut atlas, key, size(4096, 4096));
    atlas.take_commands();
    // Exactly as many as may wait.
    let all = vec![1u8; 64 * 1024 * 1024];
    atlas.update(&key, bounds(0, 0, 4096, 4096), &all).unwrap();
    assert_eq!(atlas.take_commands(), vec![]);
    atlas.update(&key, bounds(0, 0, 1, 1), &[2; 4]).unwrap();
    let commands = atlas.take_commands();
    assert_eq!(commands.len(), 1);
    match &commands[0] {
        GpuCommand::CommitUploads { uploads } => {
            assert_eq!(uploads.len(), 2);
            assert_eq!(uploads[0].data.len(), 64 * 1024 * 1024);
            assert_eq!(uploads[1].data, vec![2; 4]);
        }
        other => panic!("unexpected command {:?}", other),
    }
    assert_eq!(atlas.encode_pending_uploads(), vec![]);
    // The count starts again.
    atlas.update(&key, bounds(0, 0, 1, 1), &[3; 4]).unwrap();
    assert_eq!(atlas.take_commands(), vec![]);
    assert_eq!(atlas.encode_pending_uploads().len(), 1);
}

#[test]
fn tiles_never_overlap() {
    let mut atlas = create_atlas();
    let mut tiles: Vec<(AtlasKey, AtlasTile)> = Vec::new();
    let mut seed: u64 = 12345;
    for step in 0..3000 {
        seed = seed.wrapping_mul(6364136223846793005).wrapping_add(1442695040888963407);
        let random = (seed >> 33) as i32;
        if random % 5 < 2 && !tiles.is_empty() {
            let (key, _) = tiles.swap_remove(random as usize % tiles.len());
            atlas.remove(&key);
            assert_eq!(atlas.tile_for(&key), None);
        } else {
            let key = make_image_key(step, 0);
            let tile =
                insert_tile(&mut atlas, key, size(1 + random % 90, 1 + (random / 128) % 90));
            let texture = atlas.metal_texture(tile.texture_id).unwrap();
            let b = tile.bounds;
            assert!(b.origin.x.0 >= 0 && b.origin.y.0 >= 0);
            assert!((b.origin.x.0 + b.size.width.0) as u64 <= texture.width);
            assert!((b.origin.y.0 + b.size.height.0) as u64 <= texture.height);
            for (_, other) in &tiles {
                assert!(other.texture_id != tile.texture_id || !overlap(other.bounds, b));
                assert!(
                    other.texture_id != tile.texture_id || other.tile_id != tile.tile_id
                );
            }
            tiles.push((key, tile));
        }
        atlas.take_commands();
    }
    for (key, tile) in &tiles {
        assert_eq!(atlas.tile_for(key), Some(*tile));
        assert!(atlas.metal_texture(tile.texture_id).is_some());
    }
}

#[test]
fn full_update_of_a_shared_texture_drops_the_updates_of_other_keys() {
    let mut atlas = create_atlas();
    let a = insert_tile(&mut atlas, make_image_key(1, 0), size(8, 8));
    let b = insert_tile(&mut atlas, make_image_key(2, 0), size(8, 8));
    assert_eq!(a.texture_id, b.texture_id);
    atlas.update(&make_image_key(1, 0), bounds(0, 0, 1, 1), &[1; 4]).unwrap();
    atlas.update(&make_image_key(2, 0), bounds(0, 0, 2, 1), &[2; 8]).unwrap();
    atlas.update(&make_image_key(2, 0), bounds(0, 0, 8, 8), &[3; 256]).unwrap();
    let uploads = atlas.encode_pending_uploads();
    assert_eq!(uploads.len(), 1);
    assert_eq!(uploads[0].data, vec![3; 256]);
}

#[test]
fn tiles_are_kept_until_they_are_removed() {
    let mut atlas = create_atlas();
    let key = make_image_key(1, 0);
    let tile = insert_tile(&mut atlas, key, size(30, 30));
    insert_tile(&mut atlas, make_image_key(2, 0), size(30, 30));
    insert_tile(&mut atlas, dynamic_key(3), size(5, 5));
    atlas.update(&key, bounds(0, 0, 30, 30), &vec![1; 3600]).unwrap();
    atlas.remove(&make_image_key(2, 0));
    atlas.commit_pending_uploads();
    atlas.encode_pending_uploads();
    atlas.take_commands();
    let again: Result<Option<AtlasTile>, InsertError<String>> =
        atlas.get_or_insert_with(key, || panic!("must not be called"));
    assert_eq!(again, Ok(Some(tile)));
    atlas.remove(&key);
    insert_tile(&mut atlas, make_image_key(4, 0), size(30, 30));
    let failed = atlas.get_or_insert_with(key, || Err(6u8));
    assert_eq!(failed, Err(InsertError::Build(6u8)));
    let larger = insert_tile(&mut atlas, key, size(40, 40));
    assert_eq!(larger.bounds.size, size(40, 40));
}

#[test]
fn textures_exist_exactly_while_they_have_tiles() {
    let mut atlas = create_atlas();
    let kind = AtlasTextureKind::Image;
    let id = |index: u32| AtlasTextureId { index, kind };
    assert!(atlas.metal_texture(id(0)).is_none());
    for number in 0..3 {
        insert_tile(&mut atlas, make_image_key(number, 0), size(600 + number as i32, 500));
    }
    for index in 0..3 {
        assert_eq!(atlas.metal_texture(id(index)).unwrap().width, 600 + index as u64);
    }
    assert!(atlas.metal_texture(id(3)).is_none());
    atlas.remove(&make_image_key(1, 0));
    assert!(atlas.metal_texture(id(0)).is_some());
    assert!(atlas.metal_texture(id(1)).is_none());
    assert!(atlas.metal_texture(id(2)).is_some());
    // An insertion that fails leaves a texture without tiles.
    assert!(try_insert(&mut atlas, make_image_key(9, 0), size(20000, 1)).is_err());
    assert!(atlas.metal_texture(id(1)).is_some());
}

#[test]
fn tiles_are_counted_before_a_counter_overflows() {
    let mut atlas = create_atlas();
    let icon = |resource_id: u64| {
        AtlasKey::Resource(ResourceParams {
            resource_id,
            texture_kind: AtlasTextureKind::Polychrome,
        })
    };
    let place = |atlas: &mut MetalAtlas, key: AtlasKey, height: i32| {
        let built: Result<Option<(Size, Vec<u8>)>, String> =
            Ok(Some((size(512, height), Vec::new())));
        assert!(atlas.can_insert(&key, size(512, height)));
        atlas.insert_built(key, built).unwrap().unwrap()
    };
    // Three shelves fill the texture, and the upper one stays in use.
    place(&mut atlas, icon(0), 256);
    place(&mut atlas, icon(1), 128);
    place(&mut atlas, icon(2), 128);
    atlas.remove(&icon(0));
    atlas.remove(&icon(1));
    for count in 2..=15 * 4096 {
        let tile = place(&mut atlas, icon(0), 256);
        assert_eq!(tile.texture_id.index, 0);
        assert_eq!(tile.tile_id.0 / 4096 % 4096, count % 4096);
        atlas.remove(&icon(0));
        atlas.take_commands();
    }
    assert!(!atlas.can_insert(&icon(0), size(512, 256)));
    assert!(atlas.can_insert(&glyph_key(0), size(512, 256)));
    assert!(atlas.can_insert(&dynamic_key(0), size(512, 256)));
    // The texture goes with its last tile, and its counters with it.
    atlas.remove(&icon(2));
    assert!(atlas.can_insert(&icon(0), size(512, 256)));
    place(&mut atlas, icon(0), 256);
}
