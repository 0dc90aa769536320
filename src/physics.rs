//! The motion integrator and the force-field resolver, as passes over the
//! entities of a tick.
use vstd::prelude::*;

use crate::components::{
    Body, ChargeDisable, PhysicsMotion, Position, Rotation,
};
use crate::entity::{all_wf, Entry};
use crate::fixed::{clamp, clamp_spec, isqrt_ceil, norm2, Vec2, MAX_DT, VEL_LIMIT};
use crate::motion::{
    advance, advanced, cap_velocity, capped, charge_delta, charge_velocity_delta, damp_velocity,
    damped, damped_repeatedly, decay, lemma_cap_below_root, lemma_cap_bounds_speed,
    lemma_damped_bounded, lemma_damping_converges, lemma_scale_down, lemma_sqrt_exists, magnitude,
    CHARGE_DELTA_LIMIT,
};
use crate::components::PPM;

verus! {

/// A body after `dt` milliseconds of motion: linear motion and physics motion
/// each move the position by their velocity, linear torque turns the rotation.
pub open spec fn moved_body(b: Body, dt: int) -> Body {
    let after_linear = match (b.linear, b.pos) {
        (Some(l), Some(p)) => Some(
            Position {
                x: advanced(p.x as int, l.vel.x as int, dt) as i64,
                y: advanced(p.y as int, l.vel.y as int, dt) as i64,
            },
        ),
        _ => b.pos,
    };
    let after_physics = match (b.physics, after_linear) {
        (Some(m), Some(p)) => Some(
            Position {
                x: advanced(p.x as int, m.vel.x as int, dt) as i64,
                y: advanced(p.y as int, m.vel.y as int, dt) as i64,
            },
        ),
        _ => after_linear,
    };
    let r = match (b.torgue, b.rotation) {
        (Some(t), Some(r)) => Some(Rotation { angle: advanced(r.angle as int, t.speed as int, dt) as i64 }),
        _ => b.rotation,
    };
    Body { pos: after_physics, rotation: r, ..b }
}

/// Moves one body for `dt` milliseconds.
fn move_body(b: Body, dt: u32) -> (r: Body)
    requires
        b.wf(),
    ensures
        r == moved_body(b, dt as int),
        r.wf(),
{
    let mut out = b;
    if let (Some(l), Some(p)) = (b.linear, out.pos) {
        out.pos = Some(Position { x: advance(p.x, l.vel.x, dt), y: advance(p.y, l.vel.y, dt) });
    }
    if let (Some(m), Some(p)) = (b.physics, out.pos) {
        out.pos = Some(Position { x: advance(p.x, m.vel.x, dt), y: advance(p.y, m.vel.y, dt) });
    }
    if let (Some(t), Some(r)) = (b.torgue, b.rotation) {
        out.rotation = Some(Rotation { angle: advance(r.angle, t.speed, dt) });
    }
    out
}

/// An entry after the motion pass.
pub open spec fn moved_entry(e: Entry, dt: int) -> Entry {
    Entry { id: e.id, body: moved_body(e.body, dt) }
}

/// Advances every entity's position and rotation by its velocities over `dt` milliseconds.
pub fn apply_motion(entries: &mut Vec<Entry>, dt: u32)
    requires
        all_wf(old(entries)@),
    ensures
        final(entries)@ == old(entries)@.map_values(|e: Entry| moved_entry(e, dt as int)),
        all_wf(final(entries)@),
{
    let ghost s = entries@;
    let n = entries.len();
    let mut i: usize = 0;
    while i < n
        invariant
            n == s.len(),
            entries@.len() == n,
            i <= n,
            all_wf(s),
            forall|k: int| 0 <= k < i ==> entries@[k] == moved_entry(#[trigger] s[k], dt as int),
            forall|k: int| i <= k < n ==> entries@[k] == s[k],
        decreases n - i,
    {
        let e = entries[i];
        proof {
            assert(s[i as int].body.wf());
        }
        let body = move_body(e.body, dt);
        entries.set(i, Entry { id: e.id, body });
        i = i + 1;
    }
    proof {
        assert(entries@ =~= s.map_values(|e: Entry| moved_entry(e, dt as int)));
        assert forall|k: int| 0 <= k < entries@.len() implies (#[trigger] entries@[k]).body.wf() by {
            assert(s[k].body.wf());
            assert(entries@[k] == moved_entry(s[k], dt as int));
        }
    }
}

/// A body after the damping phase: damped if it has physics motion and
/// damping, then capped if it has physics motion and a speed limit.
pub open spec fn damped_body(b: Body, dt: nat) -> Body {
    let m1 = match (b.physics, b.damping) {
        (Some(m), Some(d)) => {
            let v = damped(m.vel.x as int, m.vel.y as int, d, dt);
            Some(PhysicsMotion { vel: Vec2 { x: v.0 as i64, y: v.1 as i64 }, ..m })
        },
        _ => b.physics,
    };
    let m2 = match (m1, b.max_velocity) {
        (Some(m), Some(c)) => {
            let v = capped(m.vel.x as int, m.vel.y as int, c.max_velocity as int);
            Some(PhysicsMotion { vel: Vec2 { x: v.0 as i64, y: v.1 as i64 }, ..m })
        },
        _ => m1,
    };
    Body { physics: m2, ..b }
}

/// Damps and caps one body.
fn damp_body(b: Body, dt: u32) -> (r: Body)
    requires
        b.wf(),
        dt <= MAX_DT,
    ensures
        r == damped_body(b, dt as nat),
        r.wf(),
{
    let mut out = b;
    if let (Some(m), Some(d)) = (out.physics, b.damping) {
        let v = damp_velocity(m.vel, d, dt);
        out.physics = Some(PhysicsMotion { vel: v, ..m });
    }
    if let (Some(m), Some(c)) = (out.physics, b.max_velocity) {
        let v = cap_velocity(m.vel, c.max_velocity);
        out.physics = Some(PhysicsMotion { vel: v, ..m });
    }
    out
}

/// Whether an entry emits a charge field: it has a charge sender and a position.
pub open spec fn is_sender(e: Entry) -> bool {
    e.body.charge_sender is Some && e.body.pos is Some
}

/// Sum of the velocity changes that the senders of `s`, other than the entity
/// with identity `id`, make on a receiver, in the order of `s`.
pub open spec fn charge_sum(
    id: u64,
    rp: Position,
    mult: int,
    mass: int,
    dt: int,
    s: Seq<Entry>,
) -> (int, int)
    decreases s.len(),
{
    if s.len() == 0 {
        (0, 0)
    } else {
        let prev = charge_sum(id, rp, mult, mass, dt, s.drop_last());
        let e = s.last();
        if e.id != id && is_sender(e) {
            let d = charge_delta(rp, mult, mass, dt, e.body.charge_sender.unwrap(), e.body.pos.unwrap());
            (prev.0 + d.0, prev.1 + d.1)
        } else {
            prev
        }
    }
}

/// A body after the charge phase, against the senders of `s`: a receiver with
/// physics motion and a position first counts its charge immunity down by
/// `dt` (stopping at zero); if immunity is left, it feels nothing; otherwise
/// its velocity gains the sum of the senders' changes, saturating at the
/// velocity limit. Any other body is unchanged.
pub open spec fn charged_body(id: u64, b: Body, s: Seq<Entry>, dt: nat) -> Body {
    match (b.charge_receiver, b.physics, b.pos) {
        (Some(c), Some(m), Some(p)) => {
            let timer = match b.charge_disable {
                Some(d) => if d.timer >= dt { (d.timer - dt) as u64 } else { 0u64 },
                None => 0u64,
            };
            let disable = match b.charge_disable {
                Some(d) => Some(ChargeDisable { timer }),
                None => None,
            };
            if timer > 0 {
                Body { charge_disable: disable, ..b }
            } else {
                let sum = charge_sum(id, p, c.multiplier as int, m.mass as int, dt as int, s);
                let vel = Vec2 {
                    x: clamp_spec(m.vel.x + sum.0, VEL_LIMIT as int) as i64,
                    y: clamp_spec(m.vel.y + sum.1, VEL_LIMIT as int) as i64,
                };
                Body { charge_disable: disable, physics: Some(PhysicsMotion { vel, ..m }), ..b }
            }
        },
        _ => b,
    }
}

/// Bound of the summed charge velocity changes on one receiver.
pub const CHARGE_SUM_LIMIT: i128 = 0x1000_0000_0000_0000_0000_0000_0000_0000;

/// Sums the charge velocity changes on one receiver.
fn sum_charges(
    entries: &Vec<Entry>,
    id: u64,
    rp: Position,
    mult: i64,
    mass: i64,
    dt: u32,
) -> (r: (i128, i128))
    requires
        all_wf(entries@),
        rp.wf(),
        -crate::fixed::FORCE_LIMIT <= mult <= crate::fixed::FORCE_LIMIT,
        1 <= mass <= crate::fixed::MASS_LIMIT,
        dt <= MAX_DT,
    ensures
        (r.0 as int, r.1 as int) == charge_sum(id, rp, mult as int, mass as int, dt as int, entries@),
        -CHARGE_SUM_LIMIT <= r.0 <= CHARGE_SUM_LIMIT,
        -CHARGE_SUM_LIMIT <= r.1 <= CHARGE_SUM_LIMIT,
{
    let ghost s = entries@;
    let n = entries.len();
    let mut sx: i128 = 0;
    let mut sy: i128 = 0;
    let mut j: usize = 0;
    while j < n
        invariant
            n == s.len(),
            s == entries@,
            all_wf(s),
            rp.wf(),
            -crate::fixed::FORCE_LIMIT <= mult <= crate::fixed::FORCE_LIMIT,
            1 <= mass <= crate::fixed::MASS_LIMIT,
            dt <= MAX_DT,
            j <= n,
            (sx as int, sy as int) == charge_sum(id, rp, mult as int, mass as int, dt as int, s.take(j as int)),
            -(CHARGE_DELTA_LIMIT * j) <= sx <= CHARGE_DELTA_LIMIT * j,
            -(CHARGE_DELTA_LIMIT * j) <= sy <= CHARGE_DELTA_LIMIT * j,
        decreases n - j,
    {
        let e = &entries[j];
        proof {
            assert(s.take(j as int + 1).drop_last() =~= s.take(j as int));
            assert(s.take(j as int + 1).last() == s[j as int]);
            assert(s[j as int].body.wf());
            assert(j < 0x1_0000_0000_0000_0000);
            assert(CHARGE_DELTA_LIMIT * (j + 1) == CHARGE_DELTA_LIMIT * j + CHARGE_DELTA_LIMIT)
                by (nonlinear_arith);
            assert(CHARGE_DELTA_LIMIT * (j + 1) <= CHARGE_SUM_LIMIT) by (nonlinear_arith)
                requires
                    0 <= j < 0x1_0000_0000_0000_0000,
                    CHARGE_DELTA_LIMIT == 0x1000_0000_0000_0000,
                    CHARGE_SUM_LIMIT == 0x1000_0000_0000_0000_0000_0000_0000_0000,
            ;
        }
        if e.id != id {
            if let (Some(snd), Some(sp)) = (e.body.charge_sender, e.body.pos) {
                let d = charge_velocity_delta(rp, mult, mass, dt, &snd, sp);
                sx = sx + d.0;
                sy = sy + d.1;
            }
        }
        j = j + 1;
    }
    proof {
        assert(s.take(n as int) =~= s);
        assert(CHARGE_DELTA_LIMIT * n <= CHARGE_SUM_LIMIT) by (nonlinear_arith)
            requires
                0 <= n < 0x1_0000_0000_0000_0000,
                CHARGE_DELTA_LIMIT == 0x1000_0000_0000_0000,
                CHARGE_SUM_LIMIT == 0x1000_0000_0000_0000_0000_0000_0000_0000,
        ;
    }
    (sx, sy)
}

/// Applies the charge phase to one body.
fn charge_body(entries: &Vec<Entry>, id: u64, b: Body, dt: u32) -> (r: Body)
    requires
        all_wf(entries@),
        b.wf(),
        dt <= MAX_DT,
    ensures
        r == charged_body(id, b, entries@, dt as nat),
        r.wf(),
{
    match (b.charge_receiver, b.physics, b.pos) {
        (Some(c), Some(m), Some(p)) => {
            let timer: u64 = match b.charge_disable {
                Some(d) => d.timer.saturating_sub(dt as u64),
                None => 0,
            };
            let disable = match b.charge_disable {
                Some(_) => Some(ChargeDisable { timer }),
                None => None,
            };
            if timer > 0 {
                Body { charge_disable: disable, ..b }
            } else {
                let sum = sum_charges(entries, id, p, c.multiplier, m.mass, dt);
                let vel = Vec2 {
                    x: clamp(m.vel.x as i128 + sum.0, VEL_LIMIT),
                    y: clamp(m.vel.y as i128 + sum.1, VEL_LIMIT),
                };
                Body { charge_disable: disable, physics: Some(PhysicsMotion { vel, ..m }), ..b }
            }
        },
        _ => b,
    }
}

/// An entry after the damping phase.
pub open spec fn damped_entry(e: Entry, dt: nat) -> Entry {
    Entry { id: e.id, body: damped_body(e.body, dt) }
}

/// An entry after the charge phase against `s`.
pub open spec fn charged_entry(e: Entry, s: Seq<Entry>, dt: nat) -> Entry {
    Entry { id: e.id, body: charged_body(e.id, e.body, s, dt) }
}

/// The entities after the force-field resolver: every body damped and
/// capped, then every receiver charged against the damped entities.
pub open spec fn physics_pass(s: Seq<Entry>, dt: nat) -> Seq<Entry> {
    let d = s.map_values(|e: Entry| damped_entry(e, dt));
    d.map_values(|e: Entry| charged_entry(e, d, dt))
}

/// Advances the force field over `dt` milliseconds: damping and speed
/// limits first, then the pairwise charge forces, which every receiver feels
/// from every other sender.
///
/// A tick lasts at most `MAX_DT` (one second), the span over which the
/// fixed-point arithmetic is bounded; the laws about this pass
/// (`lemma_physics_pass_damping`, `lemma_physics_pass_caps`) hold for any
/// tick length.
pub fn apply_physics(entries: &mut Vec<Entry>, dt: u32)
    requires
        all_wf(old(entries)@),
        dt <= MAX_DT,
    ensures
        final(entries)@ == physics_pass(old(entries)@, dt as nat),
        all_wf(final(entries)@),
{
    let ghost s = entries@;
    let n = entries.len();
    let mut i: usize = 0;
    while i < n
        invariant
            n == s.len(),
            entries@.len() == n,
            i <= n,
            all_wf(s),
            dt <= MAX_DT,
            forall|k: int| 0 <= k < i ==> entries@[k] == damped_entry(#[trigger] s[k], dt as nat),
            forall|k: int| 0 <= k < i ==> (#[trigger] entries@[k]).body.wf(),
            forall|k: int| i <= k < n ==> entries@[k] == s[k],
        decreases n - i,
    {
        let e = entries[i];
        proof {
            assert(s[i as int].body.wf());
        }
        let body = damp_body(e.body, dt);
        entries.set(i, Entry { id: e.id, body });
        i = i + 1;
    }
    let ghost d = entries@;
    proof {
        assert(d =~= s.map_values(|e: Entry| damped_entry(e, dt as nat)));
        assert forall|k: int| 0 <= k < d.len() implies (#[trigger] d[k]).body.wf() by {
            assert(s[k].body.wf());
        }
    }
    let snapshot = entries.clone();
    let mut i: usize = 0;
    while i < n
        invariant
            n == d.len(),
            snapshot@ == d,
            entries@.len() == n,
            i <= n,
            all_wf(d),
            dt <= MAX_DT,
            forall|k: int| 0 <= k < i ==> entries@[k] == charged_entry(#[trigger] d[k], d, dt as nat),
            forall|k: int| 0 <= k < i ==> (#[trigger] entries@[k]).body.wf(),
            forall|k: int| i <= k < n ==> entries@[k] == d[k],
        decreases n - i,
    {
        let e = entries[i];
        proof {
            assert(d[i as int].body.wf());
        }
        let body = charge_body(&snapshot, e.id, e.body, dt);
        entries.set(i, Entry { id: e.id, body });
        i = i + 1;
    }
    proof {
        assert(entries@ =~= d.map_values(|e: Entry| charged_entry(e, d, dt as nat)));
    }
}

/// A body that feels no charge field leaves the force-field pass exactly
/// damped and capped.
pub proof fn lemma_physics_pass_uncharged(s: Seq<Entry>, dt: nat, i: int)
    requires
        0 <= i < s.len(),
        s[i].body.charge_receiver is None,
    ensures
        physics_pass(s, dt).len() == s.len(),
        physics_pass(s, dt)[i] == damped_entry(s[i], dt),
{
    let d = s.map_values(|e: Entry| damped_entry(e, dt));
    assert(d[i] == damped_entry(s[i], dt));
    assert(physics_pass(s, dt)[i] == charged_entry(d[i], d, dt));
}

/// The force-field pass applied `k` times in a row.
pub open spec fn physics_repeatedly(s: Seq<Entry>, dt: nat, k: nat) -> Seq<Entry>
    decreases k,
{
    if k == 0 {
        s
    } else {
        physics_pass(physics_repeatedly(s, dt, (k - 1) as nat), dt)
    }
}

/// A damped body that feels no charge field and has no speed limit.
pub open spec fn freely_damped(b: Body) -> bool {
    &&& b.physics is Some
    &&& b.damping matches Some(d) && d.wf()
    &&& b.max_velocity is None
    &&& b.charge_receiver is None
    &&& b.physics.unwrap().vel.within(VEL_LIMIT as int)
}

/// Damping in the force-field pass: a freely damped body whose decayed
/// squared speed is at most the flat factor ends the pass at rest; a body at
/// rest stays at rest; and with a multiplicative factor below one, repeated
/// passes of at least one millisecond bring it to rest within `|vx| + |vy|`
/// passes, after which it stays at rest.
pub proof fn lemma_physics_pass_damping(s: Seq<Entry>, dt: nat, i: int, k: nat)
    requires
        0 <= i < s.len(),
        freely_damped(s[i].body),
    ensures
        ({
            let m = s[i].body.physics.unwrap();
            let d = s[i].body.damping.unwrap();
            let v = physics_pass(s, dt)[i].body.physics.unwrap().vel;
            &&& norm2(decay(m.vel.x as int, d.mul_factor as int, dt), decay(m.vel.y as int, d.mul_factor as int, dt))
                <= d.flat_factor ==> v.x == 0 && v.y == 0
            &&& m.vel.x == 0 && m.vel.y == 0 ==> v.x == 0 && v.y == 0
            &&& d.mul_factor < PPM && dt >= 1 && k >= magnitude(m.vel.x as int) + magnitude(m.vel.y as int)
                ==> physics_repeatedly(s, dt, k)[i].body.physics.unwrap().vel == Vec2 { x: 0, y: 0 }
        }),
{
    let m = s[i].body.physics.unwrap();
    let d = s[i].body.damping.unwrap();
    lemma_physics_pass_uncharged(s, dt, i);
    lemma_damped_bounded(m.vel.x as int, m.vel.y as int, d, dt);
    if m.vel.x == 0 && m.vel.y == 0 {
        crate::motion::lemma_decay_shrinks(0, d.mul_factor as int, dt);
        assert(norm2(0, 0) == 0);
    }
    lemma_repeat_tracks(s, dt, i, k);
    if d.mul_factor < PPM && dt >= 1 && k >= magnitude(m.vel.x as int) + magnitude(m.vel.y as int) {
        lemma_damping_converges(m.vel.x as int, m.vel.y as int, d, dt, k);
    }
}

/// Over repeated passes a freely damped body's velocity follows repeated
/// damping, and its other components stay as they were.
proof fn lemma_repeat_tracks(s: Seq<Entry>, dt: nat, i: int, k: nat)
    requires
        0 <= i < s.len(),
        freely_damped(s[i].body),
    ensures
        ({
            let m = s[i].body.physics.unwrap();
            let r = damped_repeatedly(m.vel.x as int, m.vel.y as int, s[i].body.damping.unwrap(), dt, k);
            let e = physics_repeatedly(s, dt, k);
            &&& e.len() == s.len()
            &&& magnitude(r.0) <= magnitude(m.vel.x as int)
            &&& magnitude(r.1) <= magnitude(m.vel.y as int)
            &&& e[i].body == (Body {
                physics: Some(PhysicsMotion { vel: Vec2 { x: r.0 as i64, y: r.1 as i64 }, ..m }),
                ..s[i].body
            })
        }),
    decreases k,
{
    if k > 0 {
        lemma_repeat_tracks(s, dt, i, (k - 1) as nat);
        let m = s[i].body.physics.unwrap();
        let d = s[i].body.damping.unwrap();
        let p = physics_repeatedly(s, dt, (k - 1) as nat);
        let r = damped_repeatedly(m.vel.x as int, m.vel.y as int, d, dt, (k - 1) as nat);
        assert(p[i].body.charge_receiver is None);
        lemma_physics_pass_uncharged(p, dt, i);
        assert((r.0 as i64) as int == r.0);
        assert((r.1 as i64) as int == r.1);
        lemma_damped_bounded(r.0, r.1, d, dt);
    }
}

/// The speed limit in the force-field pass: a body with physics motion and a
/// speed limit that feels no charge field ends the pass with squared speed
/// at most the limit squared, whatever its speed before.
pub proof fn lemma_physics_pass_caps(s: Seq<Entry>, dt: nat, i: int)
    requires
        0 <= i < s.len(),
        s[i].body.wf(),
        s[i].body.physics is Some,
        s[i].body.max_velocity is Some,
        s[i].body.charge_receiver is None,
    ensures
        ({
            let v = physics_pass(s, dt)[i].body.physics.unwrap().vel;
            let c = s[i].body.max_velocity.unwrap().max_velocity;
            norm2(v.x as int, v.y as int) <= c * c
        }),
{
    lemma_physics_pass_uncharged(s, dt, i);
    let b = s[i].body;
    let m = b.physics.unwrap();
    let c = b.max_velocity.unwrap().max_velocity as int;
    let m1 = match (b.physics, b.damping) {
        (Some(m), Some(d)) => {
            let v = damped(m.vel.x as int, m.vel.y as int, d, dt);
            lemma_damped_bounded(m.vel.x as int, m.vel.y as int, d, dt);
            assert((v.0 as i64) as int == v.0 && (v.1 as i64) as int == v.1);
            PhysicsMotion { vel: Vec2 { x: v.0 as i64, y: v.1 as i64 }, ..m }
        },
        _ => m,
    };
    let x = m1.vel.x as int;
    let y = m1.vel.y as int;
    lemma_cap_bounds_speed(x, y, c);
    let n = norm2(x, y);
    if n > c * c {
        lemma_sqrt_exists(n);
        lemma_cap_below_root(n, isqrt_ceil(n), c);
        lemma_scale_down(x, c, isqrt_ceil(n));
        lemma_scale_down(y, c, isqrt_ceil(n));
    }
    let r = capped(x, y, c);
    assert((r.0 as i64) as int == r.0 && (r.1 as i64) as int == r.1);
}

} // verus!
