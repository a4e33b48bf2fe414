use vstd::prelude::*;

verus! {

/// A displacement in the plane, with integer components.
#[derive(Debug, Clone, Copy, PartialEq, Eq, Structural)]
pub struct Vector {
    pub x: i64,
    pub y: i64,
}

/// A product of two 64-bit integers fits in 127 bits.
pub proof fn lemma_i64_product(a: int, c: int)
    requires
        i64::MIN <= a <= i64::MAX,
        i64::MIN <= c <= i64::MAX,
    ensures
        -0x4000_0000_0000_0000_0000_0000_0000_0000 <= a * c <= 0x4000_0000_0000_0000_0000_0000_0000_0000,
{
    assert(-0x8000_0000_0000_0000 * 0x8000_0000_0000_0000 <= a * c <= 0x8000_0000_0000_0000 * 0x8000_0000_0000_0000) by (nonlinear_arith)
        requires
            -0x8000_0000_0000_0000 <= a <= 0x8000_0000_0000_0000,
            -0x8000_0000_0000_0000 <= c <= 0x8000_0000_0000_0000;
}

impl Vector {
    /// Component-wise sum.
    pub fn add(&self, other: &Vector) -> (r: Vector)
        requires
            i64::MIN <= self.x + other.x <= i64::MAX,
            i64::MIN <= self.y + other.y <= i64::MAX,
        ensures
            r.x == self.x + other.x,
            r.y == self.y + other.y,
    {
        Vector { x: self.x + other.x, y: self.y + other.y }
    }

    /// Component-wise difference.
    pub fn sub(&self, other: &Vector) -> (r: Vector)
        requires
            i64::MIN <= self.x - other.x <= i64::MAX,
            i64::MIN <= self.y - other.y <= i64::MAX,
        ensures
            r.x == self.x - other.x,
            r.y == self.y - other.y,
    {
        Vector { x: self.x - other.x, y: self.y - other.y }
    }

    /// Dot product, exact in 128 bits.
    pub fn dot_product(&self, other: &Vector) -> (r: i128)
        requires
            i128::MIN <= self.x * other.x + self.y * other.y <= i128::MAX,
        ensures
            r == self.x * other.x + self.y * other.y,
    {
        proof {
            lemma_i64_product(self.x as int, other.x as int);
            lemma_i64_product(self.y as int, other.y as int);
        }
        (self.x as i128) * (other.x as i128) + (self.y as i128) * (other.y as i128)
    }

    /// Both components multiplied by `k`.
    pub fn scale(&self, k: i64) -> (r: Vector)
        requires
            i64::MIN <= self.x * k <= i64::MAX,
            i64::MIN <= self.y * k <= i64::MAX,
        ensures
            r.x == self.x * k,
            r.y == self.y * k,
    {
        Vector { x: self.x * k, y: self.y * k }
    }

    /// The vector turned by a quarter turn clockwise, `(y, -x)`; with the
    /// z axis pointing away from the drawing this is the outward normal of
    /// an edge of a counter-clockwise triangle.
    pub fn orthogonal_vector(&self) -> (r: Vector)
        requires
            self.x > i64::MIN,
        ensures
            r.x == self.y,
            r.y == -self.x,
    {
        Vector { x: self.y, y: -self.x }
    }
}

/// Creates a vector.
pub fn build_vector(x: i64, y: i64) -> (r: Vector)
    ensures
        r.x == x,
        r.y == y,
{
    Vector { x, y }
}

} // verus!
