//! Why the atlas turns a request down.
use vstd::prelude::*;

verus! {

/// Why an operation on the atlas failed.
#[derive(Clone, Copy, Debug, PartialEq, Eq, Structural)]
pub enum AtlasError {
    /// Failed to allocate a tile.
    Allocation,
    /// Failed to allocate a texture for a dynamic texture alone.
    DedicatedAllocation,
    /// The origin of a texture update must be non-negative.
    NegativeOrigin,
    /// The size of a texture update must be positive.
    NonPositiveSize,
    /// The right edge of a texture update cannot be represented.
    HorizontalBoundsOverflow,
    /// The lower edge of a texture update cannot be represented.
    VerticalBoundsOverflow,
    /// A texture update exceeds the allocated tile.
    ExceedsTile,
    /// The number of bytes of a texture update cannot be represented.
    ByteSizeOverflow,
    /// A texture update contains `actual` bytes where its region takes `expected`.
    ByteCount { actual: usize, expected: usize },
    /// The column of a texture update in its texture cannot be represented.
    HorizontalOriginOverflow,
    /// The row of a texture update in its texture cannot be represented.
    VerticalOriginOverflow,
}

} // verus!
