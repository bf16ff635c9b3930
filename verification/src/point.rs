//! Points of the plane with integer coordinates.

use vstd::prelude::*;

verus! {

/// Largest magnitude of a coordinate for which the distance between two
/// points is computed: `2^61`.
pub const LENGTH_LIMIT: i64 = 0x2000_0000_0000_0000;

/// A point `(x, y)` of the plane.
#[derive(Clone, Copy, Debug, PartialEq, Eq, Structural)]
pub struct Point {
    pub x: i64,
    pub y: i64,
}

/// The square of an integer of bounded magnitude is bounded by the square
/// of the bound.
pub proof fn lemma_square_bound(a: int, m: int)
    by (nonlinear_arith)
    requires
        -m <= a <= m,
    ensures
        0 <= a * a <= m * m,
{
}

/// The product of a bounded integer with a bounded natural number.
pub proof fn lemma_product_bound(a: int, b: int, m: int, n: int)
    by (nonlinear_arith)
    requires
        -m <= a <= m,
        0 <= b <= n,
    ensures
        -(m * n) <= a * b <= m * n,
{
}

impl Point {
    /// Both coordinates are within `LENGTH_LIMIT` of zero.
    pub open spec fn bounded(self) -> bool {
        &&& -LENGTH_LIMIT <= self.x <= LENGTH_LIMIT
        &&& -LENGTH_LIMIT <= self.y <= LENGTH_LIMIT
    }

    /// The squared Euclidean norm `x² + y²`.
    pub open spec fn spec_norm_sq(self) -> int {
        self.x * self.x + self.y * self.y
    }

    /// The squared Euclidean distance to `other`.
    pub open spec fn spec_dist_sq(self, other: Point) -> int {
        (other.x - self.x) * (other.x - self.x) + (other.y - self.y) * (other.y - self.y)
    }

    pub fn new(x: i64, y: i64) -> (p: Point)
        ensures
            p.x == x,
            p.y == y,
    {
        Point { x, y }
    }

    /// The componentwise sum.
    pub fn add(self, other: Point) -> (r: Point)
        requires
            i64::MIN <= self.x + other.x <= i64::MAX,
            i64::MIN <= self.y + other.y <= i64::MAX,
        ensures
            r.x == self.x + other.x,
            r.y == self.y + other.y,
    {
        Point { x: self.x + other.x, y: self.y + other.y }
    }

    /// The componentwise difference `self - other`.
    pub fn sub(self, other: Point) -> (r: Point)
        requires
            i64::MIN <= self.x - other.x <= i64::MAX,
            i64::MIN <= self.y - other.y <= i64::MAX,
        ensures
            r.x == self.x - other.x,
            r.y == self.y - other.y,
    {
        Point { x: self.x - other.x, y: self.y - other.y }
    }

    /// The point scaled by the factor `k`.
    pub fn scale(self, k: i64) -> (r: Point)
        requires
            i64::MIN <= k * self.x <= i64::MAX,
            i64::MIN <= k * self.y <= i64::MAX,
        ensures
            r.x == k * self.x,
            r.y == k * self.y,
    {
        Point { x: k * self.x, y: k * self.y }
    }

    /// The componentwise product.
    pub fn mul(self, other: Point) -> (r: Point)
        requires
            i64::MIN <= self.x * other.x <= i64::MAX,
            i64::MIN <= self.y * other.y <= i64::MAX,
        ensures
            r.x == self.x * other.x,
            r.y == self.y * other.y,
    {
        Point { x: self.x * other.x, y: self.y * other.y }
    }

    /// The squared Euclidean norm. It is exact for every point: the square
    /// of a 64-bit coordinate is below `2^126`.
    pub fn norm_sq(self) -> (r: u128)
        ensures
            r == self.spec_norm_sq(),
    {
        let x: i128 = self.x as i128;
        let y: i128 = self.y as i128;
        proof {
            lemma_square_bound(x as int, 0x8000_0000_0000_0000);
            lemma_square_bound(y as int, 0x8000_0000_0000_0000);
        }
        let xx: i128 = x * x;
        let yy: i128 = y * y;
        (xx as u128) + (yy as u128)
    }

    /// The squared Euclidean distance between two bounded points.
    pub fn dist_sq(self, other: Point) -> (r: u128)
        requires
            self.bounded(),
            other.bounded(),
        ensures
            r == self.spec_dist_sq(other),
    {
        let dx: i128 = other.x as i128 - self.x as i128;
        let dy: i128 = other.y as i128 - self.y as i128;
        proof {
            lemma_square_bound(dx as int, 0x4000_0000_0000_0000);
            lemma_square_bound(dy as int, 0x4000_0000_0000_0000);
        }
        let xx: i128 = dx * dx;
        let yy: i128 = dy * dy;
        (xx as u128) + (yy as u128)
    }
}

} // verus!
