use vstd::prelude::*;

use crate::vector::Vector;

verus! {

/// Largest magnitude a coordinate may have for the geometric predicates.
///
/// With every coordinate within this bound, the in-circumcircle determinant
/// (a sum of three products of degree four) fits in an `i128`.
pub const COORD_LIMIT: i64 = 536870912;

/// A position in the plane, on an integer grid.
///
/// Coordinates are exact, so equality of points is identity of vertices and
/// every orientation and circumcircle test is decided without rounding.
#[derive(Debug, Clone, Copy, PartialEq, Eq, Structural)]
pub struct Point {
    pub x: i64,
    pub y: i64,
}

impl Point {
    /// Both coordinates lie within `COORD_LIMIT`.
    pub open spec fn in_range(self) -> bool {
        -COORD_LIMIT <= self.x <= COORD_LIMIT && -COORD_LIMIT <= self.y <= COORD_LIMIT
    }

    /// The displacement from `self` to `other`, that is `other - self`.
    pub fn segment_to(&self, other: &Point) -> (r: Vector)
        requires
            i64::MIN <= other.x - self.x <= i64::MAX,
            i64::MIN <= other.y - self.y <= i64::MAX,
        ensures
            r.x == other.x - self.x,
            r.y == other.y - self.y,
    {
        Vector { x: other.x - self.x, y: other.y - self.y }
    }

    /// Coordinate-wise sum of two points.
    pub fn add(&self, other: &Point) -> (r: Point)
        requires
            i64::MIN <= self.x + other.x <= i64::MAX,
            i64::MIN <= self.y + other.y <= i64::MAX,
        ensures
            r.x == self.x + other.x,
            r.y == self.y + other.y,
    {
        Point { x: self.x + other.x, y: self.y + other.y }
    }

    /// Coordinate-wise difference of two points.
    pub fn sub(&self, other: &Point) -> (r: Point)
        requires
            i64::MIN <= self.x - other.x <= i64::MAX,
            i64::MIN <= self.y - other.y <= i64::MAX,
        ensures
            r.x == self.x - other.x,
            r.y == self.y - other.y,
    {
        Point { x: self.x - other.x, y: self.y - other.y }
    }

    /// Sum of the products of the coordinates, as if both were vectors.
    pub fn dot(&self, other: &Point) -> (r: i128)
        requires
            i128::MIN <= self.x * other.x + self.y * other.y <= i128::MAX,
        ensures
            r == self.x * other.x + self.y * other.y,
    {
        proof {
            crate::vector::lemma_i64_product(self.x as int, other.x as int);
            crate::vector::lemma_i64_product(self.y as int, other.y as int);
        }
        (self.x as i128) * (other.x as i128) + (self.y as i128) * (other.y as i128)
    }

    /// Both coordinates multiplied by `k`.
    pub fn scale(&self, k: i64) -> (r: Point)
        requires
            i64::MIN <= self.x * k <= i64::MAX,
            i64::MIN <= self.y * k <= i64::MAX,
        ensures
            r.x == self.x * k,
            r.y == self.y * k,
    {
        Point { x: self.x * k, y: self.y * k }
    }
}

/// Creates a point.
pub fn build_point(x: i64, y: i64) -> (r: Point)
    ensures
        r.x == x,
        r.y == y,
{
    Point { x, y }
}

} // verus!
