//! Fixed-point points and the integer arithmetic the rest of the crate is
//! built from.

use vstd::arithmetic::div_mod::lemma_fundamental_div_mod;
use vstd::arithmetic::div_mod::lemma_fundamental_div_mod_converse;
use vstd::prelude::*;

verus! {

/// Steps per world unit.
pub const UNIT: i32 = 1000;

/// A point or vector on the ground plane.
#[derive(Clone, Copy, Debug, PartialEq, Eq, Structural)]
pub struct Point2 {
    pub x: i32,
    pub y: i32,
}

/// A point in the world; `y` is elevation.
#[derive(Clone, Copy, Debug, PartialEq, Eq, Structural)]
pub struct Point3 {
    pub x: i32,
    pub y: i32,
    pub z: i32,
}

/// Squared distance between two ground-plane points.
pub open spec fn dist_sq2(a: Point2, b: Point2) -> int {
    (a.x - b.x) * (a.x - b.x) + (a.y - b.y) * (a.y - b.y)
}

/// Squared distance between two points in space.
pub open spec fn dist_sq3(a: Point3, b: Point3) -> int {
    (a.x - b.x) * (a.x - b.x) + (a.y - b.y) * (a.y - b.y) + (a.z - b.z) * (a.z - b.z)
}

/// The nearest `i32` to `v`.
pub open spec fn clamp_i32(v: int) -> i32 {
    if v < i32::MIN {
        i32::MIN
    } else if v > i32::MAX {
        i32::MAX
    } else {
        v as i32
    }
}

/// The square of a difference of two 32-bit values fits 64 bits.
pub proof fn lemma_square_bound(d: int)
    by (nonlinear_arith)
    requires
        -0x1_0000_0000 < d < 0x1_0000_0000,
    ensures
        0 <= d * d < 0x1_0000_0000_0000_0000,
{
}

/// The product of two bounded magnitudes is bounded by the product of the bounds.
pub proof fn lemma_product_bound(a: int, b: int, ma: int, mb: int)
    by (nonlinear_arith)
    requires
        -ma <= a <= ma,
        -mb <= b <= mb,
    ensures
        -(ma * mb) <= a * b <= ma * mb,
{
}

/// Saturates a wide value to 32 bits.
pub fn saturate(v: i128) -> (r: i32)
    ensures
        r == clamp_i32(v as int),
{
    if v < i32::MIN as i128 {
        i32::MIN
    } else if v > i32::MAX as i128 {
        i32::MAX
    } else {
        v as i32
    }
}

/// Division rounding toward negative infinity.
pub fn floor_div(n: i128, d: i128) -> (q: i128)
    requires
        d > 0,
    ensures
        q == n as int / d as int,
{
    if n >= 0 {
        n / d
    } else {
        let m: i128 = -(n + 1);
        let t: i128 = m / d;
        proof {
            let rem = m as int % d as int;
            lemma_fundamental_div_mod(m as int, d as int);
            assert(m as int == d as int * t as int + rem);
            assert(d as int * t as int == t as int * d as int) by (nonlinear_arith);
            assert((-(t as int) - 1) * d as int == -(t as int * d as int) - d as int)
                by (nonlinear_arith);
            assert(0 <= t) by (nonlinear_arith)
                requires
                    m as int == d as int * t as int + rem,
                    0 <= rem < d,
                    m >= 0,
                    d > 0,
            ;
            assert(t <= m) by (nonlinear_arith)
                requires
                    m as int == d as int * t as int + rem,
                    0 <= rem < d,
                    t >= 0,
                    d > 0,
            ;
            lemma_fundamental_div_mod_converse(
                n as int,
                d as int,
                -(t as int) - 1,
                d as int - rem - 1,
            );
        }
        -t - 1
    }
}

/// Whether `r` is the integer square root of `n`.
pub open spec fn is_sqrt(n: int, r: int) -> bool {
    0 <= r && r * r <= n < (r + 1) * (r + 1)
}

/// The integer square root of `n`.
pub open spec fn sqrt_floor(n: int) -> int {
    choose|r: int| is_sqrt(n, r)
}

/// Only one number is the integer square root of `n`.
pub proof fn lemma_sqrt_unique(n: int, r: int, s: int)
    by (nonlinear_arith)
    requires
        is_sqrt(n, r),
        is_sqrt(n, s),
    ensures
        r == s,
{
}

/// The integer square root, rounded down.
pub fn isqrt(n: u128) -> (r: u64)
    ensures
        is_sqrt(n as int, r as int),
        r == sqrt_floor(n as int),
{
    let mut lo: u128 = 0;
    let mut hi: u128 = 0x1_0000_0000_0000_0000;
    assert(hi * hi > n) by (nonlinear_arith)
        requires
            hi == 0x1_0000_0000_0000_0000,
            n <= u128::MAX,
    ;
    while hi - lo > 1
        invariant
            lo < hi <= 0x1_0000_0000_0000_0000,
            lo * lo <= n < hi * hi,
        decreases hi - lo,
    {
        let mid: u128 = lo + (hi - lo) / 2;
        assert(mid * mid <= 0xffff_ffff_ffff_ffff * 0xffff_ffff_ffff_ffff) by (nonlinear_arith)
            requires
                0 <= mid <= 0xffff_ffff_ffff_ffff,
        ;
        if mid * mid <= n {
            lo = mid;
        } else {
            hi = mid;
        }
    }
    proof {
        assert(is_sqrt(n as int, lo as int));
        lemma_sqrt_unique(n as int, lo as int, sqrt_floor(n as int));
    }
    lo as u64
}

impl Point2 {
    pub fn distance_squared(&self, other: &Point2) -> (r: i128)
        ensures
            r == dist_sq2(*self, *other),
    {
        let dx: i128 = self.x as i128 - other.x as i128;
        let dy: i128 = self.y as i128 - other.y as i128;
        proof {
            lemma_square_bound(dx as int);
            lemma_square_bound(dy as int);
        }
        dx * dx + dy * dy
    }
}

impl Point3 {
    /// The point's shadow on the ground plane: world `x` and `z`.
    pub open spec fn ground(self) -> Point2 {
        Point2 { x: self.x, y: self.z }
    }

    pub fn xz(&self) -> (r: Point2)
        ensures
            r == self.ground(),
    {
        Point2 { x: self.x, y: self.z }
    }

    pub fn distance_squared(&self, other: &Point3) -> (r: i128)
        ensures
            r == dist_sq3(*self, *other),
    {
        let dx: i128 = self.x as i128 - other.x as i128;
        let dy: i128 = self.y as i128 - other.y as i128;
        let dz: i128 = self.z as i128 - other.z as i128;
        proof {
            lemma_square_bound(dx as int);
            lemma_square_bound(dy as int);
            lemma_square_bound(dz as int);
        }
        dx * dx + dy * dy + dz * dz
    }
}

} // verus!
