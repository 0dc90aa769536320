//! Fixed-point quantities and the integer arithmetic the simulation is made of.
//!
//! Lengths are counted in micro-units (a million to one world unit), time in
//! milliseconds, velocities in micro-units per millisecond (so one unit per
//! millisecond is one world unit per second), and forces in micro-units per
//! square millisecond times mass (one world unit per square second).
use vstd::prelude::*;

verus! {

/// Fixed-point scale: micro-units in one world unit.
pub const UNIT: i64 = 1_000_000;

/// Largest magnitude a coordinate or an angle may take; positions saturate here.
pub const COORD_LIMIT: i64 = 0x100_0000_0000;

/// Largest magnitude a velocity component may take; velocities saturate here.
pub const VEL_LIMIT: i64 = 0x4000_0000;

/// Largest magnitude of a force, a radius or a per-mille multiplier.
pub const FORCE_LIMIT: i64 = 0x4000_0000;

/// Largest mass.
pub const MASS_LIMIT: i64 = 0x4000_0000;

/// Longest tick, in milliseconds.
pub const MAX_DT: u32 = 1000;

/// A two-dimensional integer vector.
#[derive(Clone, Copy, Debug, PartialEq, Eq, Structural, Hash)]
pub struct Vec2 {
    pub x: i64,
    pub y: i64,
}

/// `x` limited to the closed range `[-lim, lim]`.
pub open spec fn clamp_spec(x: int, lim: int) -> int {
    if x > lim {
        lim
    } else if x < -lim {
        -lim
    } else {
        x
    }
}

/// Division of `a` by a positive `b`, rounded toward zero.
pub open spec fn div_trunc(a: int, b: int) -> int {
    if a >= 0 {
        a / b
    } else {
        -((-a) / b)
    }
}

/// Squared length of a vector given by its components.
pub open spec fn norm2(x: int, y: int) -> int {
    x * x + y * y
}

/// Whether `r` is the integer square root of `n`, rounded down.
pub open spec fn is_floor_sqrt(n: int, r: int) -> bool {
    0 <= r && r * r <= n && n < (r + 1) * (r + 1)
}

/// Whether `r` is the square root of `n`, rounded up.
pub open spec fn is_ceil_sqrt(n: int, r: int) -> bool {
    0 <= r && n <= r * r && (r == 0 || (r - 1) * (r - 1) < n)
}

/// The square root of `n >= 0`, rounded up.
pub open spec fn isqrt_ceil(n: int) -> int {
    choose|r: int| is_ceil_sqrt(n, r)
}

/// At most one integer is the rounded-up square root of `n`.
pub proof fn lemma_ceil_sqrt_unique(n: int, a: int, b: int)
    requires
        is_ceil_sqrt(n, a),
        is_ceil_sqrt(n, b),
    ensures
        a == b,
{
    if a < b {
        assert(a * a <= (b - 1) * (b - 1)) by (nonlinear_arith)
            requires
                0 <= a <= b - 1,
        ;
    } else if b < a {
        assert(b * b <= (a - 1) * (a - 1)) by (nonlinear_arith)
            requires
                0 <= b <= a - 1,
        ;
    }
}

/// Bound under which the square roots below operate.
pub const SQRT_DOMAIN: u128 = 0x1_0000_0000_0000_0000_0000_0000;

impl Vec2 {
    /// The zero vector.
    pub fn zero() -> (r: Vec2)
        ensures
            r.x == 0 && r.y == 0,
    {
        Vec2 { x: 0, y: 0 }
    }

    /// Whether both components lie within `[-lim, lim]`.
    pub open spec fn within(self, lim: int) -> bool {
        -lim <= self.x <= lim && -lim <= self.y <= lim
    }
}

/// `x` limited to the closed range `[-lim, lim]`.
pub fn clamp(x: i128, lim: i64) -> (r: i64)
    requires
        lim >= 0,
    ensures
        r == clamp_spec(x as int, lim as int),
{
    if x > lim as i128 {
        lim
    } else if x < -(lim as i128) {
        -lim
    } else {
        x as i64
    }
}

/// Sum of two velocities, each component saturating at the velocity limit.
pub fn add_velocity(a: Vec2, b: Vec2) -> (r: Vec2)
    ensures
        r.x == clamp_spec(a.x + b.x, VEL_LIMIT as int),
        r.y == clamp_spec(a.y + b.y, VEL_LIMIT as int),
        r.within(VEL_LIMIT as int),
{
    Vec2 {
        x: clamp(a.x as i128 + b.x as i128, VEL_LIMIT),
        y: clamp(a.y as i128 + b.y as i128, VEL_LIMIT),
    }
}

/// Division of `a` by a positive `b`, rounded toward zero.
pub fn trunc_div(a: i128, b: i128) -> (r: i128)
    requires
        b > 0,
        a > i128::MIN,
    ensures
        r == div_trunc(a as int, b as int),
{
    if a >= 0 {
        a / b
    } else {
        -((-a) / b)
    }
}

/// The magnitude of a truncated quotient is at most `bound` when `|a| <= bound * b`.
pub proof fn lemma_div_trunc_bound(a: int, b: int, bound: int)
    requires
        b > 0,
        bound >= 0,
        -bound * b <= a <= bound * b,
    ensures
        -bound <= div_trunc(a, b) <= bound,
        a >= 0 ==> 0 <= div_trunc(a, b),
        a <= 0 ==> div_trunc(a, b) <= 0,
{
    if a >= 0 {
        assert(a / b <= bound) by (nonlinear_arith)
            requires
                b > 0,
                0 <= a <= bound * b,
        ;
        assert(a / b >= 0) by (nonlinear_arith)
            requires
                b > 0,
                0 <= a,
        ;
    } else {
        assert(-a <= bound * b) by (nonlinear_arith)
            requires
                -bound * b <= a,
        ;
        assert((-a) / b <= bound) by (nonlinear_arith)
            requires
                b > 0,
                0 <= -a <= bound * b,
        ;
        assert((-a) / b >= 0) by (nonlinear_arith)
            requires
                b > 0,
                0 <= -a,
        ;
    }
}

/// A product of bounded factors is bounded by the product of the bounds.
pub proof fn lemma_mul_bound(a: int, b: int, la: int, lb: int)
    requires
        -la <= a <= la,
        -lb <= b <= lb,
    ensures
        -(la * lb) <= a * b <= la * lb,
{
    assert(-(la * lb) <= a * b <= la * lb) by (nonlinear_arith)
        requires
            -la <= a <= la,
            -lb <= b <= lb,
    ;
}

/// Dividing a value bounded by `bound` by a positive divisor keeps it within `bound`.
pub proof fn lemma_div_trunc_bound_by(a: int, b: int, bound: int)
    requires
        b >= 1,
        -bound <= a <= bound,
    ensures
        -bound <= div_trunc(a, b) <= bound,
        a >= 0 ==> 0 <= div_trunc(a, b),
        a <= 0 ==> div_trunc(a, b) <= 0,
{
    if a >= 0 {
        assert(a / b <= a) by (nonlinear_arith)
            requires
                b >= 1,
                a >= 0,
        ;
        assert(a / b >= 0) by (nonlinear_arith)
            requires
                b >= 1,
                a >= 0,
        ;
    } else {
        assert((-a) / b <= -a) by (nonlinear_arith)
            requires
                b >= 1,
                -a >= 0,
        ;
        assert((-a) / b >= 0) by (nonlinear_arith)
            requires
                b >= 1,
                -a >= 0,
        ;
    }
}

/// A truncated quotient times the divisor does not exceed the dividend in magnitude.
pub proof fn lemma_div_trunc_mul(a: int, b: int)
    requires
        b > 0,
    ensures
        a >= 0 ==> 0 <= div_trunc(a, b) * b <= a,
        a < 0 ==> a <= div_trunc(a, b) * b <= 0,
{
    if a >= 0 {
        assert(0 <= (a / b) * b <= a) by (nonlinear_arith)
            requires
                b > 0,
                a >= 0,
        ;
    } else {
        let q = (-a) / b;
        assert(0 <= q * b <= -a) by (nonlinear_arith)
            requires
                b > 0,
                -a >= 0,
                q == (-a) / b,
        ;
        assert(div_trunc(a, b) * b == -(q * b)) by (nonlinear_arith)
            requires
                div_trunc(a, b) == -q,
        ;
    }
}

/// Integer square root of `n`, rounded down.
pub fn floor_sqrt(n: u128) -> (r: u128)
    requires
        n < SQRT_DOMAIN,
    ensures
        is_floor_sqrt(n as int, r as int),
        r < 0x1_0000_0000_0000,
{
    let mut lo: u128 = 0;
    let mut hi: u128 = 0x1_0000_0000_0000;
    assert(hi * hi == SQRT_DOMAIN) by (nonlinear_arith)
        requires
            hi == 0x1_0000_0000_0000,
    ;
    while hi - lo > 1
        invariant
            lo < hi <= 0x1_0000_0000_0000,
            lo * lo <= n,
            n < hi * hi,
        decreases hi - lo,
    {
        let mid: u128 = lo + (hi - lo) / 2;
        assert(mid * mid <= 0x1_0000_0000_0000 * 0x1_0000_0000_0000) by (nonlinear_arith)
            requires
                mid < 0x1_0000_0000_0000,
        ;
        if mid * mid <= n {
            lo = mid;
        } else {
            hi = mid;
        }
    }
    assert(hi == lo + 1);
    lo
}

/// Integer square root of `n`, rounded up.
pub fn ceil_sqrt(n: u128) -> (r: u128)
    requires
        n < SQRT_DOMAIN,
    ensures
        is_ceil_sqrt(n as int, r as int),
        r == isqrt_ceil(n as int),
        r <= 0x1_0000_0000_0000,
{
    let f = floor_sqrt(n);
    let r = if f * f == n {
        assert(f == 0 || (f - 1) * (f - 1) < f * f) by (nonlinear_arith);
        f
    } else {
        let r = f + 1;
        assert((r - 1) * (r - 1) == f * f);
        assert(n <= r * r);
        r
    };
    proof {
        assert(is_ceil_sqrt(n as int, r as int));
        let c = isqrt_ceil(n as int);
        assert(is_ceil_sqrt(n as int, c));
        lemma_ceil_sqrt_unique(n as int, c, r as int);
    }
    r
}

} // verus!
