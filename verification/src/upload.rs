//! Uploads: which are accepted, and the queue that they wait in.
use crate::error::AtlasError;
use crate::geometry::{Bounds, DevicePixels, Point};
use crate::gpu::Upload;
use crate::tile::{AtlasTextureId, AtlasTile};
use vstd::prelude::*;

verus! {

/// Upper bound on the bytes of the uploads that wait on the CPU. Uploads of whole textures
/// replace one another, so that only partial ones add up while no frame is drawn.
pub const MAX_PENDING_UPLOAD_BYTES: usize = 64 * 1024 * 1024;

/// The bytes of all uploads together.
pub open spec fn total_bytes(uploads: Seq<Upload>) -> nat
    decreases uploads.len(),
{
    if uploads.len() == 0 {
        0
    } else {
        total_bytes(uploads.drop_last()) + uploads.last().data.len()
    }
}

/// The uploads that go to other textures than `id`, in the same order.
pub open spec fn uploads_except(uploads: Seq<Upload>, id: AtlasTextureId) -> Seq<Upload> {
    uploads.filter(|upload: Upload| upload.texture_id != id)
}

/// The answer to an update of the part `bounds` of a tile with `len` bytes: the origin must
/// be non-negative, the sides positive, the part inside the tile, and the bytes exactly
/// those of the part. The first of these that fails is reported.
pub open spec fn upload_answer(
    tile: AtlasTile,
    bounds: Bounds,
    len: nat,
    bytes_per_pixel: u8,
) -> Result<(), AtlasError> {
    let area = bounds.area();
    let expected = area.width * area.height * bytes_per_pixel;
    if area.x < 0 || area.y < 0 {
        Err(AtlasError::NegativeOrigin)
    } else if area.width <= 0 || area.height <= 0 {
        Err(AtlasError::NonPositiveSize)
    } else if area.x + area.width > i32::MAX {
        Err(AtlasError::HorizontalBoundsOverflow)
    } else if area.y + area.height > i32::MAX {
        Err(AtlasError::VerticalBoundsOverflow)
    } else if area.x + area.width > tile.bounds.size.width.0 || area.y + area.height
        > tile.bounds.size.height.0 {
        Err(AtlasError::ExceedsTile)
    } else if area.width * area.height > usize::MAX || expected > usize::MAX {
        Err(AtlasError::ByteSizeOverflow)
    } else if len != expected {
        Err(AtlasError::ByteCount { actual: len as usize, expected: expected as usize })
    } else {
        Ok(())
    }
}

/// The place in the texture of the part `bounds` of a tile.
pub open spec fn bounds_in_texture(tile: AtlasTile, bounds: Bounds) -> Bounds {
    Bounds {
        origin: Point {
            x: DevicePixels((tile.bounds.origin.x.0 + bounds.origin.x.0) as i32),
            y: DevicePixels((tile.bounds.origin.y.0 + bounds.origin.y.0) as i32),
        },
        size: bounds.size,
    }
}

/// Checks an update of a part of a tile: its origin must be non-negative, its sides
/// positive, the part inside the tile, and the byte count exactly that of the part.
pub fn validate_upload(
    tile: AtlasTile,
    bounds: Bounds,
    bytes: &[u8],
    bytes_per_pixel: u8,
) -> (answer: Result<(), AtlasError>)
    ensures
        answer == upload_answer(tile, bounds, bytes@.len(), bytes_per_pixel),
{
    if bounds.origin.x.0 < 0 || bounds.origin.y.0 < 0 {
        return Err(AtlasError::NegativeOrigin);
    }
    if bounds.size.width.0 <= 0 || bounds.size.height.0 <= 0 {
        return Err(AtlasError::NonPositiveSize);
    }
    let right: i32 = match bounds.origin.x.0.checked_add(bounds.size.width.0) {
        Some(right) => right,
        None => {
            return Err(AtlasError::HorizontalBoundsOverflow);
        },
    };
    let bottom: i32 = match bounds.origin.y.0.checked_add(bounds.size.height.0) {
        Some(bottom) => bottom,
        None => {
            return Err(AtlasError::VerticalBoundsOverflow);
        },
    };
    if right > tile.bounds.size.width.0 || bottom > tile.bounds.size.height.0 {
        return Err(AtlasError::ExceedsTile);
    }
    let width: usize = bounds.size.width.0 as usize;
    let height: usize = bounds.size.height.0 as usize;
    let pixels: usize = match width.checked_mul(height) {
        Some(pixels) => pixels,
        None => {
            return Err(AtlasError::ByteSizeOverflow);
        },
    };
    let expected: usize = match pixels.checked_mul(bytes_per_pixel as usize) {
        Some(expected) => expected,
        None => {
            return Err(AtlasError::ByteSizeOverflow);
        },
    };
    if bytes.len() != expected {
        return Err(AtlasError::ByteCount { actual: bytes.len(), expected });
    }
    Ok(())
}

/// Finds the place in the texture of the part `bounds` of a tile.
pub fn upload_bounds(tile: AtlasTile, bounds: Bounds) -> (answer: Result<Bounds, AtlasError>)
    ensures
        answer == if tile.bounds.origin.x.0 + bounds.origin.x.0 > i32::MAX
            || tile.bounds.origin.x.0 + bounds.origin.x.0 < i32::MIN {
            Err(AtlasError::HorizontalOriginOverflow)
        } else if tile.bounds.origin.y.0 + bounds.origin.y.0 > i32::MAX
            || tile.bounds.origin.y.0 + bounds.origin.y.0 < i32::MIN {
            Err(AtlasError::VerticalOriginOverflow)
        } else {
            Ok(bounds_in_texture(tile, bounds))
        },
{
    let x: i32 = match tile.bounds.origin.x.0.checked_add(bounds.origin.x.0) {
        Some(x) => x,
        None => {
            return Err(AtlasError::HorizontalOriginOverflow);
        },
    };
    let y: i32 = match tile.bounds.origin.y.0.checked_add(bounds.origin.y.0) {
        Some(y) => y,
        None => {
            return Err(AtlasError::VerticalOriginOverflow);
        },
    };
    Ok(Bounds { origin: Point { x: DevicePixels(x), y: DevicePixels(y) }, size: bounds.size })
}

/// Leaving uploads out leaves out their bytes and keeps the others.
pub proof fn lemma_uploads_except(uploads: Seq<Upload>, id: AtlasTextureId)
    ensures
        total_bytes(uploads_except(uploads, id)) <= total_bytes(uploads),
        forall|upload: Upload| #[trigger]
            uploads_except(uploads, id).contains(upload) <==> uploads.contains(upload)
                && upload.texture_id != id,
    decreases uploads.len(),
{
    broadcast use vstd::seq_lib::group_seq_properties;

    reveal(Seq::filter);
    if uploads.len() > 0 {
        let rest = uploads.drop_last();
        let last = uploads.last();
        lemma_uploads_except(rest, id);
        assert(uploads == rest.push(last));
        if last.texture_id != id {
            assert(uploads_except(uploads, id) == uploads_except(rest, id).push(last));
            assert(uploads_except(uploads, id).drop_last() =~= uploads_except(rest, id));
        } else {
            assert(uploads_except(uploads, id) == uploads_except(rest, id));
        }
    }
}

/// One more upload adds its bytes.
pub proof fn lemma_total_push(uploads: Seq<Upload>, upload: Upload)
    ensures
        total_bytes(uploads.push(upload)) == total_bytes(uploads) + upload.data.len(),
{
    assert(uploads.push(upload).drop_last() =~= uploads);
}

/// A part of the uploads has no more bytes than all of them.
pub proof fn lemma_total_take(uploads: Seq<Upload>, count: int)
    requires
        0 <= count <= uploads.len(),
    ensures
        total_bytes(uploads.take(count)) <= total_bytes(uploads),
    decreases uploads.len(),
{
    if count == uploads.len() {
        assert(uploads.take(count) =~= uploads);
    } else {
        lemma_total_take(uploads.drop_last(), count);
        assert(uploads.drop_last().take(count) =~= uploads.take(count));
    }
}

/// Of one more upload, a selection takes that upload or nothing.
pub proof fn lemma_filter_step(
    uploads: Seq<Upload>,
    index: int,
    selects: spec_fn(Upload) -> bool,
)
    requires
        0 <= index < uploads.len(),
    ensures
        uploads.take(index + 1).filter(selects) == if selects(uploads[index]) {
            uploads.take(index).filter(selects).push(uploads[index])
        } else {
            uploads.take(index).filter(selects)
        },
{
    reveal(Seq::filter);
    assert(uploads.take(index + 1).drop_last() =~= uploads.take(index));
}

/// A selection that takes every upload takes the list as it is.
pub proof fn lemma_filter_all(uploads: Seq<Upload>, selects: spec_fn(Upload) -> bool)
    requires
        forall|i: int| 0 <= i < uploads.len() ==> selects(#[trigger] uploads[i]),
    ensures
        uploads.filter(selects) == uploads,
    decreases uploads.len(),
{
    reveal(Seq::filter);
    if uploads.len() > 0 {
        let rest = uploads.drop_last();
        assert forall|i: int| 0 <= i < rest.len() implies selects(#[trigger] rest[i]) by {
            assert(rest[i] == uploads[i]);
        }
        lemma_filter_all(rest, selects);
        assert(rest.push(uploads.last()) =~= uploads);
    }
}

} // verus!
