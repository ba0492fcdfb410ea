//! Points, sizes and rectangles in device pixels.
use vstd::prelude::*;

verus! {

/// A length in physical pixels.
#[derive(Clone, Copy, Debug, PartialEq, Eq, PartialOrd, Ord, Hash, Structural)]
pub struct DevicePixels(pub i32);

impl DevicePixels {
    /// The number of bytes that a row of this many pixels takes.
    pub fn to_bytes(self, bytes_per_pixel: u8) -> (bytes: u32)
        requires
            0 <= self.0,
            self.0 * bytes_per_pixel <= u32::MAX,
        ensures
            bytes == self.0 * bytes_per_pixel,
    {
        self.0 as u32 * bytes_per_pixel as u32
    }

    /// The same length as an unsigned 64-bit number.
    pub fn to_u64(self) -> (pixels: u64)
        requires
            0 <= self.0,
        ensures
            pixels == self.0,
    {
        self.0 as u64
    }
}

/// A position in a texture.
#[derive(Clone, Copy, Debug, PartialEq, Eq, Hash, Structural)]
pub struct Point {
    pub x: DevicePixels,
    pub y: DevicePixels,
}

/// A width and a height.
#[derive(Clone, Copy, Debug, PartialEq, Eq, Hash, Structural)]
pub struct Size {
    pub width: DevicePixels,
    pub height: DevicePixels,
}

impl Size {
    /// The size with the smaller width and the smaller height of the two.
    pub open spec fn spec_min(self, other: Size) -> Size {
        Size {
            width: if self.width.0 <= other.width.0 {
                self.width
            } else {
                other.width
            },
            height: if self.height.0 <= other.height.0 {
                self.height
            } else {
                other.height
            },
        }
    }

    /// The size with the larger width and the larger height of the two.
    pub open spec fn spec_max(self, other: Size) -> Size {
        Size {
            width: if self.width.0 >= other.width.0 {
                self.width
            } else {
                other.width
            },
            height: if self.height.0 >= other.height.0 {
                self.height
            } else {
                other.height
            },
        }
    }

    /// Both sides are at least one pixel and at most those of `limit`.
    pub open spec fn is_within(self, limit: Size) -> bool {
        &&& 0 < self.width.0 <= limit.width.0
        &&& 0 < self.height.0 <= limit.height.0
    }

    /// Whether both sides are at least one pixel and at most those of `limit`.
    pub fn fits_in(&self, limit: &Size) -> (fits: bool)
        ensures
            fits == self.is_within(*limit),
    {
        0 < self.width.0 && self.width.0 <= limit.width.0 && 0 < self.height.0 && self.height.0
            <= limit.height.0
    }

    /// Takes the smaller width and the smaller height.
    pub fn min(&self, other: &Size) -> (size: Size)
        ensures
            size == self.spec_min(*other),
    {
        Size {
            width: if self.width.0 <= other.width.0 {
                self.width
            } else {
                other.width
            },
            height: if self.height.0 <= other.height.0 {
                self.height
            } else {
                other.height
            },
        }
    }

    /// Takes the larger width and the larger height.
    pub fn max(&self, other: &Size) -> (size: Size)
        ensures
            size == self.spec_max(*other),
    {
        Size {
            width: if self.width.0 >= other.width.0 {
                self.width
            } else {
                other.width
            },
            height: if self.height.0 >= other.height.0 {
                self.height
            } else {
                other.height
            },
        }
    }
}

/// A rectangle, given by its upper left corner and its size.
#[derive(Clone, Copy, Debug, PartialEq, Eq, Hash, Structural)]
pub struct Bounds {
    pub origin: Point,
    pub size: Size,
}

impl Bounds {
    /// The pixels that the rectangle covers.
    pub open spec fn area(self) -> Area {
        Area {
            x: self.origin.x.0 as int,
            y: self.origin.y.0 as int,
            width: self.size.width.0 as int,
            height: self.size.height.0 as int,
        }
    }
}

/// A rectangle of pixels over the mathematical integers.
pub struct Area {
    pub x: int,
    pub y: int,
    pub width: int,
    pub height: int,
}

impl Area {
    /// The pixel in column `x` and row `y` belongs to the rectangle.
    pub open spec fn covers(self, x: int, y: int) -> bool {
        &&& self.x <= x < self.x + self.width
        &&& self.y <= y < self.y + self.height
    }

    /// The two rectangles have no pixel in common.
    pub open spec fn is_disjoint(self, other: Area) -> bool {
        forall|x: int, y: int| !(#[trigger] self.covers(x, y) && #[trigger] other.covers(x, y))
    }

    /// The rectangle has at least one pixel, and all of its pixels lie in a texture of
    /// `width` times `height` pixels.
    pub open spec fn fits(self, width: int, height: int) -> bool {
        &&& 0 <= self.x
        &&& 0 <= self.y
        &&& 0 < self.width
        &&& 0 < self.height
        &&& self.x + self.width <= width
        &&& self.y + self.height <= height
    }

    /// Every pixel of this rectangle is one of `other`.
    pub open spec fn is_inside(self, other: Area) -> bool {
        &&& other.x <= self.x
        &&& other.y <= self.y
        &&& self.x + self.width <= other.x + other.width
        &&& self.y + self.height <= other.y + other.height
    }
}

} // verus!
