//! Motion of a single body: integration, damping, the speed cap, and the
//! velocity changes made by a charge field and by a knockback.
use vstd::prelude::*;

use crate::components::{
    ChargeSender, PhysicsDamping, Position, IMPULSE_MS, PER_MILLE, PPM,
};
use crate::fixed::{
    ceil_sqrt, clamp, clamp_spec, div_trunc, is_ceil_sqrt, isqrt_ceil, lemma_div_trunc_bound,
    lemma_div_trunc_mul, norm2, trunc_div, Vec2, COORD_LIMIT, FORCE_LIMIT, MASS_LIMIT, MAX_DT,
    VEL_LIMIT,
};

verus! {

/// Distance at or below which two entities are too close for a charge
/// field to have a direction: a tenth of a world unit.
pub const CHARGE_EPSILON: i64 = 100_000;

/// Absolute value.
pub open spec fn magnitude(x: int) -> int {
    if x >= 0 {
        x
    } else {
        -x
    }
}

/// A coordinate moved at velocity `v` for `dt` milliseconds, saturating at the coordinate limit.
pub open spec fn advanced(p: int, v: int, dt: int) -> int {
    clamp_spec(p + v * dt, COORD_LIMIT as int)
}

/// Moves a coordinate at velocity `v` for `dt` milliseconds.
pub fn advance(p: i64, v: i64, dt: u32) -> (r: i64)
    ensures
        r == advanced(p as int, v as int, dt as int),
{
    proof {
        assert(-0x8000_0000_0000_0000 * 0x1_0000_0000 <= v * dt <= 0x8000_0000_0000_0000
            * 0x1_0000_0000) by (nonlinear_arith)
            requires
                -0x8000_0000_0000_0000 <= v < 0x8000_0000_0000_0000,
                0 <= dt < 0x1_0000_0000,
        ;
    }
    clamp(p as i128 + v as i128 * dt as i128, COORD_LIMIT)
}

/// A velocity component after `n` milliseconds of keeping `m` parts per
/// million of itself each millisecond, rounding toward zero every millisecond.
pub open spec fn decay(v: int, m: int, n: nat) -> int
    decreases n,
{
    if n == 0 {
        v
    } else {
        div_trunc(decay(v, m, (n - 1) as nat) * m, PPM as int)
    }
}

/// One millisecond of decay never grows a component nor flips its sign, and
/// shrinks a nonzero one when less than all of it is kept.
pub proof fn lemma_decay_step(v: int, m: int)
    requires
        0 <= m <= PPM,
    ensures
        magnitude(div_trunc(v * m, PPM as int)) <= magnitude(v),
        v >= 0 ==> div_trunc(v * m, PPM as int) >= 0,
        v <= 0 ==> div_trunc(v * m, PPM as int) <= 0,
        m < PPM && v != 0 ==> magnitude(div_trunc(v * m, PPM as int)) < magnitude(v),
{
    let p = PPM as int;
    if v >= 0 {
        assert(0 <= v * m <= v * p) by (nonlinear_arith)
            requires
                v >= 0,
                0 <= m <= p,
        ;
        lemma_div_trunc_bound(v * m, p, v);
        if m < p && v != 0 {
            assert((v * m) / p < v) by (nonlinear_arith)
                requires
                    v > 0,
                    0 <= m < p,
            ;
        }
    } else {
        assert(v * p <= v * m <= 0) by (nonlinear_arith)
            requires
                v < 0,
                0 <= m <= p,
        ;
        lemma_div_trunc_bound(v * m, p, -v);
        if m < p {
            assert((-(v * m)) / p < -v) by (nonlinear_arith)
                requires
                    v < 0,
                    0 <= m < p,
            ;
        }
    }
}

/// Decays one velocity component over `dt` milliseconds.
fn decay_component(v: i64, m: u32, dt: u32) -> (r: i64)
    requires
        m <= PPM,
    ensures
        r == decay(v as int, m as int, dt as nat),
        magnitude(r as int) <= magnitude(v as int),
{
    let mut x = v;
    let mut k: u32 = 0;
    while k < dt
        invariant
            k <= dt,
            m <= PPM,
            x == decay(v as int, m as int, k as nat),
            magnitude(x as int) <= magnitude(v as int),
        decreases dt - k,
    {
        proof {
            lemma_decay_step(x as int, m as int);
            assert(-0x8000_0000_0000_0000 * 0x1_0000_0000 <= x * m <= 0x8000_0000_0000_0000
                * 0x1_0000_0000) by (nonlinear_arith)
                requires
                    -0x8000_0000_0000_0000 <= x < 0x8000_0000_0000_0000,
                    0 <= m < 0x1_0000_0000,
            ;
        }
        x = trunc_div(x as i128 * m as i128, PPM as i128) as i64;
        k = k + 1;
    }
    x
}

/// A velocity after `dt` milliseconds of damping: first the exponential
/// decay, then, if the squared speed is at most the flat factor, a full stop;
/// otherwise the speed is lowered by `flat_factor * dt` along the current
/// direction, stopping rather than reversing.
pub open spec fn damped(vx: int, vy: int, d: PhysicsDamping, dt: nat) -> (int, int) {
    let x = decay(vx, d.mul_factor as int, dt);
    let y = decay(vy, d.mul_factor as int, dt);
    let n = norm2(x, y);
    if n <= d.flat_factor {
        (0, 0)
    } else {
        let s = d.flat_factor * dt;
        let l = isqrt_ceil(n);
        if s >= l {
            (0, 0)
        } else {
            (x - div_trunc(s * x, l), y - div_trunc(s * y, l))
        }
    }
}

/// Subtracting a same-signed smaller part keeps a component's sign and shrinks it.
pub(crate) proof fn lemma_shrink(x: int, s: int, l: int)
    requires
        0 <= s < l,
    ensures
        magnitude(x - div_trunc(s * x, l)) <= magnitude(x),
        x >= 0 ==> x - div_trunc(s * x, l) >= 0,
        x <= 0 ==> x - div_trunc(s * x, l) <= 0,
{
    let m = magnitude(x);
    assert(-m * l <= s * x <= m * l) by (nonlinear_arith)
        requires
            0 <= s < l,
            m == magnitude(x),
    ;
    assert(x >= 0 ==> s * x >= 0) by (nonlinear_arith)
        requires
            s >= 0,
    ;
    assert(x <= 0 ==> s * x <= 0) by (nonlinear_arith)
        requires
            s >= 0,
    ;
    lemma_div_trunc_bound(s * x, l, m);
}

/// Applies `dt` milliseconds of damping to a velocity.
pub fn damp_velocity(vel: Vec2, damping: PhysicsDamping, dt: u32) -> (r: Vec2)
    requires
        vel.within(VEL_LIMIT as int),
        damping.wf(),
        dt <= MAX_DT,
    ensures
        (r.x as int, r.y as int) == damped(vel.x as int, vel.y as int, damping, dt as nat),
        magnitude(r.x as int) <= magnitude(vel.x as int),
        magnitude(r.y as int) <= magnitude(vel.y as int),
{
    let x = decay_component(vel.x, damping.mul_factor, dt);
    let y = decay_component(vel.y, damping.mul_factor, dt);
    let xi = x as i128;
    let yi = y as i128;
    proof {
        assert(xi * xi <= 0x10_0000_0000_0000_0000 && yi * yi <= 0x10_0000_0000_0000_0000)
            by (nonlinear_arith)
            requires
                -0x4000_0000 <= xi <= 0x4000_0000,
                -0x4000_0000 <= yi <= 0x4000_0000,
        ;
        assert(xi * xi >= 0 && yi * yi >= 0) by (nonlinear_arith);
    }
    let n: i128 = xi * xi + yi * yi;
    if n <= damping.flat_factor as i128 {
        return Vec2::zero();
    }
    proof {
        assert(0 <= damping.flat_factor * dt <= VEL_LIMIT * MAX_DT) by (nonlinear_arith)
            requires
                0 <= damping.flat_factor <= VEL_LIMIT,
                0 <= dt <= MAX_DT,
        ;
    }
    let s: i128 = damping.flat_factor as i128 * dt as i128;
    let l = ceil_sqrt(n as u128) as i128;
    if s >= l {
        return Vec2::zero();
    }
    proof {
        lemma_shrink(x as int, s as int, l as int);
        lemma_shrink(y as int, s as int, l as int);
        assert(-VEL_LIMIT * (VEL_LIMIT * MAX_DT) <= s * x <= VEL_LIMIT * (VEL_LIMIT * MAX_DT))
            by (nonlinear_arith)
            requires
                -VEL_LIMIT <= x <= VEL_LIMIT,
                0 <= s <= VEL_LIMIT * MAX_DT,
        ;
        assert(-VEL_LIMIT * (VEL_LIMIT * MAX_DT) <= s * y <= VEL_LIMIT * (VEL_LIMIT * MAX_DT))
            by (nonlinear_arith)
            requires
                -VEL_LIMIT <= y <= VEL_LIMIT,
                0 <= s <= VEL_LIMIT * MAX_DT,
        ;
    }
    let rx = x as i128 - trunc_div(s * x as i128, l);
    let ry = y as i128 - trunc_div(s * y as i128, l);
    Vec2 { x: rx as i64, y: ry as i64 }
}

/// A velocity limited to speed `cap`: rescaled by `cap / l`, rounding each
/// component toward zero, where `l` is its length rounded up; unchanged when
/// already within the cap.
pub open spec fn capped(x: int, y: int, cap: int) -> (int, int) {
    let n = norm2(x, y);
    if n > cap * cap {
        let l = isqrt_ceil(n);
        (div_trunc(x * cap, l), div_trunc(y * cap, l))
    } else {
        (x, y)
    }
}

/// When `n > cap * cap` and `l` is the rounded-up root of `n`, then `cap < l`.
pub(crate) proof fn lemma_cap_below_root(n: int, l: int, cap: int)
    requires
        cap >= 0,
        n > cap * cap,
        is_ceil_sqrt(n, l),
    ensures
        cap < l,
{
    if l <= cap {
        assert(l * l <= cap * cap) by (nonlinear_arith)
            requires
                0 <= l <= cap,
        ;
    }
}

/// A component scaled by `cap / l` with `cap < l` keeps its sign and does not grow.
pub(crate) proof fn lemma_scale_down(x: int, cap: int, l: int)
    requires
        0 <= cap < l,
    ensures
        magnitude(div_trunc(x * cap, l)) <= magnitude(x),
        x >= 0 ==> div_trunc(x * cap, l) >= 0,
        x <= 0 ==> div_trunc(x * cap, l) <= 0,
{
    let m = magnitude(x);
    assert(-m * l <= x * cap <= m * l) by (nonlinear_arith)
        requires
            0 <= cap < l,
            m == magnitude(x),
    ;
    assert(x >= 0 ==> x * cap >= 0) by (nonlinear_arith)
        requires
            cap >= 0,
    ;
    assert(x <= 0 ==> x * cap <= 0) by (nonlinear_arith)
        requires
            cap >= 0,
    ;
    lemma_div_trunc_bound(x * cap, l, m);
}

/// Limits a velocity to speed `cap`, keeping its direction.
pub fn cap_velocity(vel: Vec2, cap: i64) -> (r: Vec2)
    requires
        vel.within(VEL_LIMIT as int),
        0 <= cap <= VEL_LIMIT,
    ensures
        (r.x as int, r.y as int) == capped(vel.x as int, vel.y as int, cap as int),
        magnitude(r.x as int) <= magnitude(vel.x as int),
        magnitude(r.y as int) <= magnitude(vel.y as int),
{
    let xi = vel.x as i128;
    let yi = vel.y as i128;
    proof {
        assert(xi * xi <= 0x10_0000_0000_0000_0000 && yi * yi <= 0x10_0000_0000_0000_0000)
            by (nonlinear_arith)
            requires
                -0x4000_0000 <= xi <= 0x4000_0000,
                -0x4000_0000 <= yi <= 0x4000_0000,
        ;
        assert(xi * xi >= 0 && yi * yi >= 0) by (nonlinear_arith);
        assert(cap * cap <= 0x10_0000_0000_0000_0000) by (nonlinear_arith)
            requires
                0 <= cap <= 0x4000_0000,
        ;
    }
    let n: i128 = xi * xi + yi * yi;
    if n > cap as i128 * cap as i128 {
        let l = ceil_sqrt(n as u128) as i128;
        proof {
            lemma_cap_below_root(n as int, l as int, cap as int);
            lemma_scale_down(vel.x as int, cap as int, l as int);
            lemma_scale_down(vel.y as int, cap as int, l as int);
            assert(-VEL_LIMIT * VEL_LIMIT <= vel.x * cap <= VEL_LIMIT * VEL_LIMIT) by (nonlinear_arith)
                requires
                    vel.within(VEL_LIMIT as int),
                    0 <= cap <= VEL_LIMIT,
            ;
            assert(-VEL_LIMIT * VEL_LIMIT <= vel.y * cap <= VEL_LIMIT * VEL_LIMIT) by (nonlinear_arith)
                requires
                    vel.within(VEL_LIMIT as int),
                    0 <= cap <= VEL_LIMIT,
            ;
        }
        let rx = trunc_div(vel.x as i128 * cap as i128, l);
        let ry = trunc_div(vel.y as i128 * cap as i128, l);
        Vec2 { x: rx as i64, y: ry as i64 }
    } else {
        vel
    }
}

/// Once clamped, a velocity's squared length is at most `cap * cap`; and
/// when clamping happens, both components are scaled by the same factor
/// `cap / l` (rounded toward zero) and keep their signs, so the direction is
/// kept up to rounding.
pub proof fn lemma_cap_bounds_speed(x: int, y: int, cap: int)
    requires
        cap >= 0,
    ensures
        norm2(capped(x, y, cap).0, capped(x, y, cap).1) <= cap * cap,
        norm2(x, y) > cap * cap ==> {
            let l = isqrt_ceil(norm2(x, y));
            &&& cap < l
            &&& capped(x, y, cap) == (div_trunc(x * cap, l), div_trunc(y * cap, l))
            &&& (x >= 0 ==> capped(x, y, cap).0 >= 0) && (x <= 0 ==> capped(x, y, cap).0 <= 0)
            &&& (y >= 0 ==> capped(x, y, cap).1 >= 0) && (y <= 0 ==> capped(x, y, cap).1 <= 0)
        },
{
    let n = norm2(x, y);
    if n > cap * cap {
        lemma_sqrt_exists(n);
        let l = isqrt_ceil(n);
        lemma_cap_below_root(n, l, cap);
        lemma_scale_down(x, cap, l);
        lemma_scale_down(y, cap, l);
        let qx = div_trunc(x * cap, l);
        let qy = div_trunc(y * cap, l);
        lemma_div_trunc_mul(x * cap, l);
        lemma_div_trunc_mul(y * cap, l);
        assert((qx * l) * (qx * l) <= (x * cap) * (x * cap)) by (nonlinear_arith)
            requires
                (x * cap >= 0 ==> 0 <= qx * l <= x * cap),
                (x * cap < 0 ==> x * cap <= qx * l <= 0),
        ;
        assert((qy * l) * (qy * l) <= (y * cap) * (y * cap)) by (nonlinear_arith)
            requires
                (y * cap >= 0 ==> 0 <= qy * l <= y * cap),
                (y * cap < 0 ==> y * cap <= qy * l <= 0),
        ;
        assert((qx * l) * (qx * l) == (qx * qx) * (l * l)) by (nonlinear_arith);
        assert((qy * l) * (qy * l) == (qy * qy) * (l * l)) by (nonlinear_arith);
        assert((x * cap) * (x * cap) == (x * x) * (cap * cap)) by (nonlinear_arith);
        assert((y * cap) * (y * cap) == (y * y) * (cap * cap)) by (nonlinear_arith);
        assert((qx * qx + qy * qy) * (l * l) == (qx * qx) * (l * l) + (qy * qy) * (l * l))
            by (nonlinear_arith);
        assert((x * x + y * y) * (cap * cap) == (x * x) * (cap * cap) + (y * y) * (cap * cap))
            by (nonlinear_arith);
        assert((x * x + y * y) * (cap * cap) <= (l * l) * (cap * cap)) by (nonlinear_arith)
            requires
                x * x + y * y <= l * l,
        ;
        assert(qx * qx + qy * qy <= cap * cap) by (nonlinear_arith)
            requires
                (qx * qx + qy * qy) * (l * l) <= (l * l) * (cap * cap),
                l > 0,
        ;
    }
}

/// Every `n >= 0` has a rounded-up square root.
pub proof fn lemma_sqrt_exists(n: int)
    requires
        n >= 0,
    ensures
        is_ceil_sqrt(n, isqrt_ceil(n)),
{
    let r = lemma_ceil_sqrt_witness(n, 0);
    assert(is_ceil_sqrt(n, r));
}

/// Searches upward from `k` for the rounded-up square root of `n`.
proof fn lemma_ceil_sqrt_witness(n: int, k: int) -> (r: int)
    requires
        n >= 0,
        k >= 0,
        k == 0 || (k - 1) * (k - 1) < n,
    ensures
        is_ceil_sqrt(n, r),
    decreases n - k + 1,
{
    if n <= k * k {
        k
    } else {
        assert(k <= n) by (nonlinear_arith)
            requires
                k >= 0,
                n > k * k,
        ;
        lemma_ceil_sqrt_witness(n, k + 1)
    }
}

/// Decay over any number of milliseconds never grows a component nor flips
/// its sign, and over at least one millisecond shrinks a nonzero one when
/// less than all of it is kept.
pub proof fn lemma_decay_shrinks(v: int, m: int, n: nat)
    requires
        0 <= m <= PPM,
    ensures
        magnitude(decay(v, m, n)) <= magnitude(v),
        v >= 0 ==> decay(v, m, n) >= 0,
        v <= 0 ==> decay(v, m, n) <= 0,
        m < PPM && n >= 1 && v != 0 ==> magnitude(decay(v, m, n)) < magnitude(v),
    decreases n,
{
    if n > 0 {
        lemma_decay_shrinks(v, m, (n - 1) as nat);
        lemma_decay_step(decay(v, m, (n - 1) as nat), m);
    }
}

/// A velocity damped `k` times in a row, each time for `dt` milliseconds.
pub open spec fn damped_repeatedly(x: int, y: int, d: PhysicsDamping, dt: nat, k: nat) -> (int, int)
    decreases k,
{
    if k == 0 {
        (x, y)
    } else {
        let p = damped_repeatedly(x, y, d, dt, (k - 1) as nat);
        damped(p.0, p.1, d, dt)
    }
}

/// One damping step lowers `|x| + |y|` by at least one unless the velocity is
/// already zero, which stays zero.
proof fn lemma_damped_step(x: int, y: int, d: PhysicsDamping, dt: nat)
    requires
        d.wf(),
        d.mul_factor < PPM,
        dt >= 1,
    ensures
        x == 0 && y == 0 ==> damped(x, y, d, dt) == (0int, 0int),
        !(x == 0 && y == 0) ==> magnitude(damped(x, y, d, dt).0) + magnitude(damped(x, y, d, dt).1)
            < magnitude(x) + magnitude(y),
{
    let m = d.mul_factor as int;
    lemma_decay_shrinks(x, m, dt);
    lemma_decay_shrinks(y, m, dt);
    let a = decay(x, m, dt);
    let b = decay(y, m, dt);
    let n = norm2(a, b);
    assert(n >= 0) by (nonlinear_arith)
        requires
            n == a * a + b * b,
    ;
    if n > d.flat_factor {
        let s = d.flat_factor * dt;
        lemma_sqrt_exists(n);
        let l = isqrt_ceil(n);
        if s < l {
            assert(s >= 0) by (nonlinear_arith)
                requires
                    d.flat_factor >= 0,
                    dt >= 1,
                    s == d.flat_factor * dt,
            ;
            lemma_shrink(a, s, l);
            lemma_shrink(b, s, l);
        }
    }
}

/// Damping stops a body outright once its decayed squared speed is at most
/// the flat factor; and with a multiplicative factor below one, repeated
/// ticks of at least one millisecond bring any velocity to exactly zero,
/// within `|x| + |y|` ticks.
pub proof fn lemma_damping_converges(x: int, y: int, d: PhysicsDamping, dt: nat, k: nat)
    requires
        d.wf(),
        d.mul_factor < PPM,
        dt >= 1,
        k >= magnitude(x) + magnitude(y),
    ensures
        norm2(decay(x, d.mul_factor as int, dt), decay(y, d.mul_factor as int, dt))
            <= d.flat_factor ==> damped(x, y, d, dt) == (0int, 0int),
        damped_repeatedly(x, y, d, dt, k) == (0int, 0int),
{
    lemma_damping_progress(x, y, d, dt, k);
}

/// After `k` damping steps `|x| + |y|` has dropped by `k`, or reached zero.
proof fn lemma_damping_progress(x: int, y: int, d: PhysicsDamping, dt: nat, k: nat)
    requires
        d.wf(),
        d.mul_factor < PPM,
        dt >= 1,
    ensures
        ({
            let p = damped_repeatedly(x, y, d, dt, k);
            &&& magnitude(p.0) + magnitude(p.1) <= magnitude(x) + magnitude(y) - k || (p.0 == 0
                && p.1 == 0)
        }),
    decreases k,
{
    if k > 0 {
        lemma_damping_progress(x, y, d, dt, (k - 1) as nat);
        let p = damped_repeatedly(x, y, d, dt, (k - 1) as nat);
        lemma_damped_step(p.0, p.1, d, dt);
    }
}

/// Force felt at distance `d` in the falloff band: linear from full strength
/// at `full_radius` down to zero at `no_radius`, rounded toward zero.
pub open spec fn falloff(s: ChargeSender, d: int) -> int {
    div_trunc(s.force * (s.no_radius - d), s.no_radius - s.full_radius)
}

/// Strength of the field of `s` at squared distance `n`: `None` when too
/// close for a direction or at least `no_radius` away; full strength up to
/// `full_radius`; the falloff in between, at the distance rounded up.
pub open spec fn charge_magnitude(s: ChargeSender, n: int) -> Option<int> {
    if n <= CHARGE_EPSILON * CHARGE_EPSILON || n >= s.no_radius * s.no_radius {
        None
    } else if n > s.full_radius * s.full_radius {
        Some(falloff(s, isqrt_ceil(n)))
    } else {
        Some(s.force as int)
    }
}

/// The two formulas agree where the bands meet: the falloff gives full
/// strength at `full_radius` and zero at `no_radius`, and any distance past
/// the epsilon up to `full_radius` feels exactly the full force.
pub proof fn lemma_charge_continuity(s: ChargeSender)
    requires
        s.wf(),
        s.full_radius < s.no_radius,
    ensures
        falloff(s, s.full_radius as int) == s.force,
        falloff(s, s.no_radius as int) == 0,
        forall|d: int|
            CHARGE_EPSILON < d <= s.full_radius ==> #[trigger] charge_magnitude(s, d * d) == Some(
                s.force as int,
            ),
{
    let w = s.no_radius - s.full_radius;
    assert((s.force * w) / w == s.force && (-(s.force * w)) / w == -s.force) by (nonlinear_arith)
        requires
            w > 0,
    ;
    assert forall|d: int| CHARGE_EPSILON < d <= s.full_radius implies #[trigger] charge_magnitude(
        s,
        d * d,
    ) == Some(s.force as int) by {
        assert(CHARGE_EPSILON * CHARGE_EPSILON < d * d <= s.full_radius * s.full_radius)
            by (nonlinear_arith)
            requires
                0 < CHARGE_EPSILON < d <= s.full_radius,
        ;
        assert(d * d < s.no_radius * s.no_radius) by (nonlinear_arith)
            requires
                0 < d < s.no_radius,
        ;
    }
}

/// Within the falloff band the felt force lies between zero and full strength.
proof fn lemma_falloff_bound(s: ChargeSender, d: int)
    requires
        s.wf(),
        s.full_radius <= d <= s.no_radius,
        s.full_radius < s.no_radius,
    ensures
        -FORCE_LIMIT <= falloff(s, d) <= FORCE_LIMIT,
{
    let w = s.no_radius - s.full_radius;
    lemma_mul_le_scaled(s.force as int, s.no_radius - d, w, FORCE_LIMIT as int);
    crate::fixed::lemma_div_trunc_bound(s.force * (s.no_radius - d), w, FORCE_LIMIT as int);
}

/// `|a * b| <= lim * w` when `|a| <= lim` and `0 <= b <= w`.
proof fn lemma_mul_le_scaled(a: int, b: int, w: int, lim: int)
    requires
        -lim <= a <= lim,
        0 <= b <= w,
    ensures
        -lim * w <= a * b <= lim * w,
{
    assert(-lim * w <= a * b <= lim * w) by (nonlinear_arith)
        requires
            -lim <= a <= lim,
            0 <= b <= w,
    ;
}

/// A component whose square is at most `l * l` has magnitude at most `l`.
proof fn lemma_component_le_root(c: int, n: int, l: int)
    requires
        l >= 0,
        c * c <= n <= l * l,
    ensures
        -l <= c <= l,
{
    if c > l {
        assert(c * c > l * l) by (nonlinear_arith)
            requires
                c > l >= 0,
        ;
    }
    if c < -l {
        assert(c * c > l * l) by (nonlinear_arith)
            requires
                -c > l >= 0,
        ;
    }
}

/// Strength of a charge field at squared distance `dist2`.
pub fn charge_strength(s: &ChargeSender, dist2: u128) -> (r: Option<i64>)
    requires
        s.wf(),
        dist2 < crate::fixed::SQRT_DOMAIN,
    ensures
        r matches Some(f) ==> charge_magnitude(*s, dist2 as int) == Some(f as int),
        r is None ==> charge_magnitude(*s, dist2 as int) is None,
        r matches Some(f) ==> -FORCE_LIMIT <= f <= FORCE_LIMIT,
{
    let eps = CHARGE_EPSILON as u128;
    let no = s.no_radius as u128;
    let full = s.full_radius as u128;
    proof {
        assert(no * no <= 0x1_0000_0000_0000_0000_0000 && full * full <= 0x1_0000_0000_0000_0000_0000)
            by (nonlinear_arith)
            requires
                no <= 0x100_0000_0000,
                full <= 0x100_0000_0000,
        ;
    }
    if dist2 <= eps * eps || dist2 >= no * no {
        None
    } else if dist2 > full * full {
        let d = ceil_sqrt(dist2);
        proof {
            assert(full < no) by (nonlinear_arith)
                requires
                    full * full < dist2 < no * no,
                    full >= 0,
                    no >= 0,
            ;
            lemma_cap_below_root(dist2 as int, d as int, full as int);
            if d > no {
                assert((d - 1) * (d - 1) >= no * no) by (nonlinear_arith)
                    requires
                        d - 1 >= no >= 0,
                ;
            }
            lemma_falloff_bound(*s, d as int);
            lemma_mul_le_scaled(
                s.force as int,
                s.no_radius - d,
                s.no_radius - s.full_radius,
                FORCE_LIMIT as int,
            );
        }
        let num = s.force as i128 * (s.no_radius as i128 - d as i128);
        let f = trunc_div(num, s.no_radius as i128 - s.full_radius as i128);
        Some(f as i64)
    } else {
        Some(s.force)
    }
}

/// Largest magnitude of the velocity change one sender makes on one
/// receiver in one tick.
pub const CHARGE_DELTA_LIMIT: i128 = 0x1000_0000_0000_0000;

/// Velocity change that the field of sender `s` at `sp` makes on a receiver
/// at `rp` with per-mille multiplier `mult` and mass `mass` over `dt`
/// milliseconds: the strength times the multiplier along the unit normal from
/// sender to receiver (the offset over its length rounded up), held for `dt`,
/// over the mass, rounded toward zero.
pub open spec fn charge_delta(
    rp: Position,
    mult: int,
    mass: int,
    dt: int,
    s: ChargeSender,
    sp: Position,
) -> (int, int) {
    let dx = rp.x - sp.x;
    let dy = rp.y - sp.y;
    let n = norm2(dx, dy);
    match charge_magnitude(s, n) {
        Some(f) => {
            let den = PER_MILLE * isqrt_ceil(n) * mass;
            (div_trunc(mult * f * dt * dx, den), div_trunc(mult * f * dt * dy, den))
        },
        None => (0, 0),
    }
}

/// Bounds of one component of a charge velocity change.
proof fn lemma_charge_component(mult: int, f: int, dt: int, c: int, l: int, mass: int)
    requires
        -FORCE_LIMIT <= mult <= FORCE_LIMIT,
        -FORCE_LIMIT <= f <= FORCE_LIMIT,
        0 <= dt <= MAX_DT,
        -l <= c <= l,
        1 <= l <= 0x1_0000_0000_0000,
        1 <= mass,
    ensures
        -0x100_0000_0000_0000_0000_0000_0000_0000 <= mult * f * dt * c
            <= 0x100_0000_0000_0000_0000_0000_0000_0000,
        -0x1_0000_0000_0000_0000_0000 <= mult * f * dt <= 0x1_0000_0000_0000_0000_0000,
        -0x1_0000_0000_0000_0000 <= mult * f <= 0x1_0000_0000_0000_0000,
        -CHARGE_DELTA_LIMIT <= div_trunc(mult * f * dt * c, PER_MILLE * l * mass)
            <= CHARGE_DELTA_LIMIT,
{
    let fl = FORCE_LIMIT as int;
    crate::fixed::lemma_mul_bound(mult, f, fl, fl);
    crate::fixed::lemma_mul_bound(mult * f, dt, fl * fl, MAX_DT as int);
    crate::fixed::lemma_mul_bound(mult * f * dt, c, fl * fl * MAX_DT, l);
    assert(fl * fl * MAX_DT * l <= 0x100_0000_0000_0000_0000_0000_0000_0000) by (nonlinear_arith)
        requires
            fl == 0x4000_0000,
            MAX_DT == 1000,
            1 <= l <= 0x1_0000_0000_0000,
    ;
    let den = PER_MILLE * l * mass;
    assert(fl * fl * MAX_DT * l <= (fl * fl) * den) by (nonlinear_arith)
        requires
            fl >= 0,
            l >= 1,
            mass >= 1,
            den == 1000 * l * mass,
            MAX_DT == 1000,
    ;
    assert(den >= 1) by (nonlinear_arith)
        requires
            l >= 1,
            mass >= 1,
            den == 1000 * l * mass,
    ;
    assert(-(fl * fl) * den == -((fl * fl) * den));
    lemma_div_trunc_bound(mult * f * dt * c, den, fl * fl);
}

/// Velocity change on a receiver from one sender's field.
pub fn charge_velocity_delta(
    rp: Position,
    mult: i64,
    mass: i64,
    dt: u32,
    s: &ChargeSender,
    sp: Position,
) -> (r: (i128, i128))
    requires
        rp.wf(),
        sp.wf(),
        s.wf(),
        -FORCE_LIMIT <= mult <= FORCE_LIMIT,
        1 <= mass <= MASS_LIMIT,
        dt <= MAX_DT,
    ensures
        (r.0 as int, r.1 as int) == charge_delta(rp, mult as int, mass as int, dt as int, *s, sp),
        -CHARGE_DELTA_LIMIT <= r.0 <= CHARGE_DELTA_LIMIT,
        -CHARGE_DELTA_LIMIT <= r.1 <= CHARGE_DELTA_LIMIT,
{
    let dx = rp.x as i128 - sp.x as i128;
    let dy = rp.y as i128 - sp.y as i128;
    proof {
        lemma_norm2_bound(dx as int, dy as int);
    }
    let n = dx * dx + dy * dy;
    match charge_strength(s, n as u128) {
        None => (0, 0),
        Some(f) => {
            let l = ceil_sqrt(n as u128) as i128;
            proof {
                assert(dx * dx <= n && dy * dy <= n) by (nonlinear_arith)
                    requires
                        n == dx * dx + dy * dy,
                ;
                assert(l >= 1) by (nonlinear_arith)
                    requires
                        n > CHARGE_EPSILON * CHARGE_EPSILON,
                        n <= l * l,
                        l >= 0,
                ;
                lemma_component_le_root(dx as int, n as int, l as int);
                lemma_component_le_root(dy as int, n as int, l as int);
                lemma_charge_component(mult as int, f as int, dt as int, dx as int, l as int, mass as int);
                lemma_charge_component(mult as int, f as int, dt as int, dy as int, l as int, mass as int);
                assert(PER_MILLE * l * mass <= 1000 * 0x1_0000_0000_0000 * MASS_LIMIT) by (nonlinear_arith)
                    requires
                        1 <= l <= 0x1_0000_0000_0000,
                        1 <= mass <= MASS_LIMIT,
                ;
                assert(PER_MILLE * l * mass >= 1) by (nonlinear_arith)
                    requires
                        1 <= l,
                        1 <= mass,
                ;
            }
            let den = PER_MILLE as i128 * l * mass as i128;
            let k = mult as i128 * f as i128 * dt as i128;
            (trunc_div(k * dx, den), trunc_div(k * dy, den))
        },
    }
}

/// Squared lengths of offsets between valid positions stay within the square-root domain.
proof fn lemma_norm2_bound(dx: int, dy: int)
    requires
        -2 * COORD_LIMIT <= dx <= 2 * COORD_LIMIT,
        -2 * COORD_LIMIT <= dy <= 2 * COORD_LIMIT,
    ensures
        0 <= dx * dx <= 0x10_0000_0000_0000_0000_0000,
        0 <= dy * dy <= 0x10_0000_0000_0000_0000_0000,
        0 <= dx * dx + dy * dy < crate::fixed::SQRT_DOMAIN,
{
    assert(0 <= dx * dx <= 0x10_0000_0000_0000_0000_0000) by (nonlinear_arith)
        requires
            -0x200_0000_0000 <= dx <= 0x200_0000_0000,
    ;
    assert(0 <= dy * dy <= 0x10_0000_0000_0000_0000_0000) by (nonlinear_arith)
        requires
            -0x200_0000_0000 <= dy <= 0x200_0000_0000,
    ;
}

/// Largest magnitude of the velocity change of one knockback.
pub const KNOCKBACK_DELTA_LIMIT: i128 = 0x100_0000_0000;

/// Velocity change that a knockback of strength `force` from a dealer at
/// `dp` makes on a victim of mass `mass` at `vp`: one impulse along the unit
/// normal from dealer to victim (the offset over its length rounded up), over
/// the mass, rounded toward zero; nothing when the two coincide.
pub open spec fn knockback_delta(vp: Position, dp: Position, force: int, mass: int) -> (int, int) {
    let dx = vp.x - dp.x;
    let dy = vp.y - dp.y;
    let n = norm2(dx, dy);
    if n == 0 {
        (0, 0)
    } else {
        let den = isqrt_ceil(n) * mass;
        (div_trunc(force * IMPULSE_MS * dx, den), div_trunc(force * IMPULSE_MS * dy, den))
    }
}

/// Bounds of one component of a knockback velocity change.
proof fn lemma_knockback_component(force: int, c: int, l: int, mass: int)
    requires
        -FORCE_LIMIT <= force <= FORCE_LIMIT,
        -l <= c <= l,
        1 <= l <= 0x1_0000_0000_0000,
        1 <= mass,
    ensures
        -0x1_0000_0000_0000_0000_0000_0000 <= force * IMPULSE_MS * c
            <= 0x1_0000_0000_0000_0000_0000_0000,
        -KNOCKBACK_DELTA_LIMIT <= div_trunc(force * IMPULSE_MS * c, l * mass)
            <= KNOCKBACK_DELTA_LIMIT,
{
    let b = FORCE_LIMIT * IMPULSE_MS;
    crate::fixed::lemma_mul_bound(force, IMPULSE_MS as int, FORCE_LIMIT as int, IMPULSE_MS as int);
    crate::fixed::lemma_mul_bound(force * IMPULSE_MS, c, b, l);
    assert(b * l <= 0x1_0000_0000_0000_0000_0000_0000) by (nonlinear_arith)
        requires
            b == 0x4000_0000 * 1000,
            1 <= l <= 0x1_0000_0000_0000,
    ;
    assert(b * l <= b * (l * mass)) by (nonlinear_arith)
        requires
            b >= 0,
            l >= 1,
            mass >= 1,
    ;
    assert(l * mass >= 1) by (nonlinear_arith)
        requires
            l >= 1,
            mass >= 1,
    ;
    assert(-b * (l * mass) == -(b * (l * mass)));
    lemma_div_trunc_bound(force * IMPULSE_MS * c, l * mass, b);
}

/// Velocity change of one knockback.
pub fn knockback_velocity_delta(vp: Position, dp: Position, force: i64, mass: i64) -> (r: (
    i128,
    i128,
))
    requires
        vp.wf(),
        dp.wf(),
        -FORCE_LIMIT <= force <= FORCE_LIMIT,
        1 <= mass <= MASS_LIMIT,
    ensures
        (r.0 as int, r.1 as int) == knockback_delta(vp, dp, force as int, mass as int),
        -KNOCKBACK_DELTA_LIMIT <= r.0 <= KNOCKBACK_DELTA_LIMIT,
        -KNOCKBACK_DELTA_LIMIT <= r.1 <= KNOCKBACK_DELTA_LIMIT,
{
    let dx = vp.x as i128 - dp.x as i128;
    let dy = vp.y as i128 - dp.y as i128;
    proof {
        lemma_norm2_bound(dx as int, dy as int);
    }
    let n = dx * dx + dy * dy;
    if n == 0 {
        return (0, 0);
    }
    let l = ceil_sqrt(n as u128) as i128;
    proof {
        assert(dx * dx <= n && dy * dy <= n) by (nonlinear_arith)
            requires
                n == dx * dx + dy * dy,
        ;
        assert(l >= 1) by (nonlinear_arith)
            requires
                n >= 1,
                n <= l * l,
                l >= 0,
        ;
        lemma_component_le_root(dx as int, n as int, l as int);
        lemma_component_le_root(dy as int, n as int, l as int);
        lemma_knockback_component(force as int, dx as int, l as int, mass as int);
        lemma_knockback_component(force as int, dy as int, l as int, mass as int);
        assert(l * mass <= 0x1_0000_0000_0000 * MASS_LIMIT) by (nonlinear_arith)
            requires
                1 <= l <= 0x1_0000_0000_0000,
                1 <= mass <= MASS_LIMIT,
        ;
        assert(l * mass >= 1) by (nonlinear_arith)
            requires
                1 <= l,
                1 <= mass,
        ;
    }
    let den = l * mass as i128;
    let k = force as i128 * IMPULSE_MS as i128;
    (trunc_div(k * dx, den), trunc_div(k * dy, den))
}

/// The rounded-up root of a perfect square is exact.
pub proof fn lemma_isqrt_ceil_square(r: int)
    requires
        r >= 0,
    ensures
        isqrt_ceil(r * r) == r,
{
    assert(r * r >= 0) by (nonlinear_arith)
        requires
            r >= 0,
    ;
    if r > 0 {
        assert((r - 1) * (r - 1) < r * r) by (nonlinear_arith)
            requires
                r > 0,
        ;
    }
    assert(is_ceil_sqrt(r * r, r));
    lemma_sqrt_exists(r * r);
    crate::fixed::lemma_ceil_sqrt_unique(r * r, isqrt_ceil(r * r), r);
}

/// A charge felt at exactly `full_radius` (past the epsilon) is the full
/// force along the offset over `full_radius`; at `no_radius` or beyond it is
/// nothing: the two bands of the field meet without a jump.
pub proof fn lemma_charge_delta_at_radii(
    rp: Position,
    mult: int,
    mass: int,
    dt: int,
    s: ChargeSender,
    sp: Position,
)
    requires
        s.wf(),
    ensures
        ({
            let dx = rp.x - sp.x;
            let dy = rp.y - sp.y;
            norm2(dx, dy) == s.full_radius * s.full_radius && CHARGE_EPSILON < s.full_radius
                < s.no_radius ==> charge_delta(rp, mult, mass, dt, s, sp) == (
                div_trunc(mult * s.force * dt * dx, PER_MILLE * s.full_radius * mass),
                div_trunc(mult * s.force * dt * dy, PER_MILLE * s.full_radius * mass),
            )
        }),
        norm2(rp.x - sp.x, rp.y - sp.y) >= s.no_radius * s.no_radius ==> charge_delta(
            rp,
            mult,
            mass,
            dt,
            s,
            sp,
        ) == (0int, 0int),
{
    let f = s.full_radius as int;
    let n = norm2(rp.x - sp.x, rp.y - sp.y);
    if n == f * f && CHARGE_EPSILON < f < s.no_radius {
        lemma_charge_continuity(s);
        assert(charge_magnitude(s, f * f) == Some(s.force as int));
        lemma_isqrt_ceil_square(f);
    }
}

/// A knockback along an axis changes the victim's speed by exactly the
/// force's one-second impulse over the mass, rounded toward zero, whatever
/// the tick length (the change takes no tick length at all).
pub proof fn lemma_knockback_along_axis(vp: Position, dp: Position, force: int, mass: int)
    requires
        vp.y == dp.y,
        vp.x > dp.x,
        mass >= 1,
    ensures
        knockback_delta(vp, dp, force, mass) == (div_trunc(force * IMPULSE_MS, mass), 0int),
{
    let dx = vp.x - dp.x;
    let a = force * IMPULSE_MS;
    assert(norm2(dx, 0) == dx * dx);
    assert(dx * dx > 0) by (nonlinear_arith)
        requires
            dx > 0,
    ;
    lemma_isqrt_ceil_square(dx);
    lemma_div_scaled(a, mass, dx);
    lemma_div_scaled(-a, mass, dx);
    assert(a * dx == -((-a) * dx)) by (nonlinear_arith);
    assert(dx * mass == mass * dx) by (nonlinear_arith);
    assert(dx * mass >= 1) by (nonlinear_arith)
        requires
            dx >= 1,
            mass >= 1,
    ;
}

/// Scaling dividend and divisor alike keeps a non-negative quotient.
proof fn lemma_div_scaled(a: int, b: int, c: int)
    requires
        b >= 1,
        c >= 1,
    ensures
        a >= 0 ==> (a * c) / (b * c) == a / b,
{
    if a >= 0 {
        let q = a / b;
        let r = a % b;
        assert(a == q * b + r && 0 <= r < b) by (nonlinear_arith)
            requires
                b >= 1,
                q == a / b,
                r == a % b,
        ;
        assert(a * c == q * (b * c) + r * c && 0 <= r * c < b * c) by (nonlinear_arith)
            requires
                a == q * b + r,
                0 <= r < b,
                c >= 1,
        ;
        vstd::arithmetic::div_mod::lemma_fundamental_div_mod_converse(a * c, b * c, q, r * c);
    }
}

/// Damping never grows either component of a velocity.
pub proof fn lemma_damped_bounded(x: int, y: int, d: PhysicsDamping, dt: nat)
    requires
        d.wf(),
    ensures
        magnitude(damped(x, y, d, dt).0) <= magnitude(x),
        magnitude(damped(x, y, d, dt).1) <= magnitude(y),
{
    let m = d.mul_factor as int;
    lemma_decay_shrinks(x, m, dt);
    lemma_decay_shrinks(y, m, dt);
    let a = decay(x, m, dt);
    let b = decay(y, m, dt);
    let n = norm2(a, b);
    if n > d.flat_factor {
        let s = d.flat_factor * dt;
        assert(s >= 0) by (nonlinear_arith)
            requires
                d.flat_factor >= 0,
                s == d.flat_factor * dt,
        ;
        assert(n >= 0) by (nonlinear_arith)
            requires
                n == a * a + b * b,
        ;
        lemma_sqrt_exists(n);
        let l = isqrt_ceil(n);
        if s < l {
            lemma_shrink(a, s, l);
            lemma_shrink(b, s, l);
        }
    }
}

} // verus!
