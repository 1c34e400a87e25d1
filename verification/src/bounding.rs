//! Axis-aligned boxes and the overlap test between them.

use vstd::prelude::*;
use crate::vector::Vec2;

verus! {

/// An axis-aligned box, given by its lowest and highest corner. A box built by
/// `Aabb2d::new` has `min_x <= max_x` and `min_y <= max_y`.
#[derive(Clone, Copy, PartialEq, Eq, Debug, Structural)]
pub struct Aabb2d {
    pub min_x: i64,
    pub min_y: i64,
    pub max_x: i64,
    pub max_y: i64,
}

/// The box that reaches `half_width` to either side of `center` and
/// `half_height` above and below it.
pub open spec fn box_around(center: Vec2, half_width: int, half_height: int) -> Aabb2d {
    Aabb2d {
        min_x: (center.x - half_width) as i64,
        min_y: (center.y - half_height) as i64,
        max_x: (center.x + half_width) as i64,
        max_y: (center.y + half_height) as i64,
    }
}

/// Whether two boxes share a point. Boxes that only touch do overlap.
pub open spec fn overlaps(a: Aabb2d, b: Aabb2d) -> bool {
    &&& a.min_x <= b.max_x
    &&& a.max_x >= b.min_x
    &&& a.min_y <= b.max_y
    &&& a.max_y >= b.min_y
}

impl Aabb2d {
    /// The box with the given centre and half extents.
    pub fn new(center: Vec2, half_width: u32, half_height: u32) -> (b: Aabb2d)
        ensures
            b == box_around(center, half_width as int, half_height as int),
            b.min_x == center.x - half_width,
            b.max_x == center.x + half_width,
            b.min_y == center.y - half_height,
            b.max_y == center.y + half_height,
    {
        Aabb2d {
            min_x: center.x as i64 - half_width as i64,
            min_y: center.y as i64 - half_height as i64,
            max_x: center.x as i64 + half_width as i64,
            max_y: center.y as i64 + half_height as i64,
        }
    }

    /// Whether this box and `other` share a point.
    pub fn intersects(&self, other: &Aabb2d) -> (r: bool)
        ensures
            r == overlaps(*self, *other),
    {
        let x_overlaps: bool = self.min_x <= other.max_x && self.max_x >= other.min_x;
        let y_overlaps: bool = self.min_y <= other.max_y && self.max_y >= other.min_y;
        x_overlaps && y_overlaps
    }
}

} // verus!
