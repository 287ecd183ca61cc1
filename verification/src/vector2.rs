use vstd::prelude::*;

verus! {

/// A 2D vector on the integer grid.
///
/// Any pair of coordinates is a valid vector; operations state their own
/// overflow-freedom preconditions where the result must fit back into `i64`.
#[derive(Debug, Clone, Copy, PartialEq, Eq, Structural)]
pub struct Vector2 {
    pub x: i64,
    pub y: i64,
}

/// Dot product of two vectors, as an unbounded integer.
pub open spec fn dot_spec(a: Vector2, b: Vector2) -> int {
    a.x * b.x + a.y * b.y
}

/// The product of two `i64`-bounded integers stays well inside `i128`.
pub proof fn lemma_i64_mul_fits(a: int, b: int)
    by (nonlinear_arith)
    requires
        i64::MIN <= a <= i64::MAX,
        i64::MIN <= b <= i64::MAX,
    ensures
        -0x4000_0000_0000_0000_0000_0000_0000_0000 <= a * b
            <= 0x4000_0000_0000_0000_0000_0000_0000_0000,
        a == b ==> a * b >= 0,
{
}

/// A product is bounded by the product of the factors' bounds.
pub proof fn lemma_mul_bound(a: int, ma: int, b: int, mb: int)
    by (nonlinear_arith)
    requires
        -ma <= a <= ma,
        -mb <= b <= mb,
        0 <= ma,
        0 <= mb,
    ensures
        -(ma * mb) <= a * b <= ma * mb,
{
}

/// A square grows monotonically with the magnitude of its root.
pub proof fn lemma_square_le(a: int, m: int)
    by (nonlinear_arith)
    requires
        -m <= a <= m,
    ensures
        0 <= a * a <= m * m,
{
}

/// The product of two `u64`-bounded integers fits into `u128`.
pub proof fn lemma_u64_mul_fits(a: int, b: int)
    by (nonlinear_arith)
    requires
        0 <= a <= u64::MAX,
        0 <= b <= u64::MAX,
    ensures
        0 <= a * b <= u128::MAX,
{
}

impl Vector2 {
    pub fn new(x: i64, y: i64) -> (v: Vector2)
        ensures
            v.x == x,
            v.y == y,
    {
        Vector2 { x, y }
    }

    pub fn from_array(values: [i64; 2]) -> (v: Vector2)
        ensures
            v.x == values[0],
            v.y == values[1],
    {
        Vector2 { x: values[0], y: values[1] }
    }

    /// The 90-degree counter-clockwise rotation of `self`: `(-y, x)`.
    pub fn orthogonal(&self) -> (v: Vector2)
        requires
            self.y != i64::MIN,
        ensures
            v.x == -self.y,
            v.y == self.x,
    {
        Vector2 { x: -self.y, y: self.x }
    }

    /// Euclidean length rounded down to the integer grid:
    /// the greatest `r` with `r * r <= x * x + y * y`.
    pub fn length(&self) -> (r: u64)
        ensures
            r * r <= dot_spec(*self, *self),
            dot_spec(*self, *self) < (r + 1) * (r + 1),
    {
        proof {
            lemma_i64_mul_fits(self.x as int, self.x as int);
            lemma_i64_mul_fits(self.y as int, self.y as int);
        }
        let xx: u128 = ((self.x as i128) * (self.x as i128)) as u128;
        let yy: u128 = ((self.y as i128) * (self.y as i128)) as u128;
        isqrt_u128(xx + yy)
    }

    /// Dot product; the mathematical result must fit into `i64`.
    pub fn dot(&self, other: &Vector2) -> (r: i64)
        requires
            i64::MIN <= dot_spec(*self, *other) <= i64::MAX,
        ensures
            r == dot_spec(*self, *other),
    {
        proof {
            lemma_i64_mul_fits(self.x as int, other.x as int);
            lemma_i64_mul_fits(self.y as int, other.y as int);
        }
        let d: i128 = (self.x as i128) * (other.x as i128) + (self.y as i128) * (other.y as i128);
        d as i64
    }

    /// Componentwise sum.
    pub fn add(&self, other: &Vector2) -> (v: Vector2)
        requires
            i64::MIN <= self.x + other.x <= i64::MAX,
            i64::MIN <= self.y + other.y <= i64::MAX,
        ensures
            v.x == self.x + other.x,
            v.y == self.y + other.y,
    {
        let x: i128 = (self.x as i128) + (other.x as i128);
        let y: i128 = (self.y as i128) + (other.y as i128);
        Vector2 { x: x as i64, y: y as i64 }
    }

    /// Componentwise difference.
    pub fn sub(&self, other: &Vector2) -> (v: Vector2)
        requires
            i64::MIN <= self.x - other.x <= i64::MAX,
            i64::MIN <= self.y - other.y <= i64::MAX,
        ensures
            v.x == self.x - other.x,
            v.y == self.y - other.y,
    {
        let x: i128 = (self.x as i128) - (other.x as i128);
        let y: i128 = (self.y as i128) - (other.y as i128);
        Vector2 { x: x as i64, y: y as i64 }
    }

    /// Multiplication by an integer scalar.
    pub fn scale(&self, k: i64) -> (v: Vector2)
        requires
            i64::MIN <= k * self.x <= i64::MAX,
            i64::MIN <= k * self.y <= i64::MAX,
        ensures
            v.x == k * self.x,
            v.y == k * self.y,
    {
        proof {
            lemma_i64_mul_fits(k as int, self.x as int);
            lemma_i64_mul_fits(k as int, self.y as int);
        }
        let x: i128 = (k as i128) * (self.x as i128);
        let y: i128 = (k as i128) * (self.y as i128);
        Vector2 { x: x as i64, y: y as i64 }
    }

    /// Indexed component access; only indices 0 and 1 exist.
    pub fn get(&self, i: usize) -> (r: i64)
        requires
            i < 2,
        ensures
            r == if i == 0 { self.x } else { self.y },
    {
        if i == 0 {
            self.x
        } else {
            self.y
        }
    }

    /// Overwrite both components.
    pub fn set(&mut self, x: i64, y: i64)
        ensures
            final(self).x == x,
            final(self).y == y,
    {
        self.x = x;
        self.y = y;
    }
}

/// Integer square root, rounded down: the greatest `r` with `r * r <= d`.
fn isqrt_u128(d: u128) -> (r: u64)
    ensures
        r * r <= d,
        d < (r + 1) * (r + 1),
{
    let mut lo: u64 = 0;
    let mut hi: u64 = u64::MAX;
    while lo < hi
        invariant
            lo <= hi,
            lo * lo <= d,
            d < (hi + 1) * (hi + 1),
        decreases hi - lo,
    {
        let mid: u64 = lo + (hi - lo) / 2 + 1;
        proof {
            lemma_u64_mul_fits(mid as int, mid as int);
        }
        if (mid as u128) * (mid as u128) <= d {
            lo = mid;
        } else {
            hi = mid - 1;
        }
    }
    lo
}

} // verus!
