//! Integer vectors and texel rectangles.
use vstd::prelude::*;

verus! {

/// A pair of unsigned integers: a texel position or a size in texels.
#[derive(Clone, Copy, Debug, PartialEq, Eq, Structural)]
pub struct UVec2 {
    pub x: u32,
    pub y: u32,
}

/// A rectangle of texels, `min` inclusive and `max` exclusive.
#[derive(Clone, Copy, Debug, PartialEq, Eq, Structural)]
pub struct URect {
    pub min: UVec2,
    pub max: UVec2,
}

impl URect {
    /// The rectangle's `(width, height)`.
    pub open spec fn spec_size(self) -> (int, int) {
        (self.max.x - self.min.x, self.max.y - self.min.y)
    }
}

/// Two texel rectangles share no texel.
pub open spec fn urects_disjoint(a: URect, b: URect) -> bool {
    a.max.x <= b.min.x || b.max.x <= a.min.x || a.max.y <= b.min.y || b.max.y <= a.min.y
}

} // verus!
