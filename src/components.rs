//! Components: the plain data records attached to entities.
use vstd::prelude::*;

use crate::fixed::{
    clamp, clamp_spec, div_trunc, lemma_div_trunc_bound_by, lemma_mul_bound, trunc_div, Vec2, COORD_LIMIT, FORCE_LIMIT,
    MASS_LIMIT, MAX_DT, VEL_LIMIT,
};
use crate::team::Team;

verus! {

/// Largest magnitude of a health value or a damage amount; health saturates here.
pub const HP_LIMIT: i64 = 0x1000_0000_0000_0000;

/// Length of a knockback impulse, in milliseconds: a knockback is applied
/// as one second's worth of its force, whatever the tick length.
pub const IMPULSE_MS: i64 = 1000;

/// Scale of per-mille quantities.
pub const PER_MILLE: i64 = 1000;

/// Scale of parts-per-million quantities.
pub const PPM: u32 = 1_000_000;

/// Position of an entity's center, in micro-units.
#[derive(Clone, Copy, Debug, PartialEq, Eq, Structural)]
pub struct Position {
    pub x: i64,
    pub y: i64,
}

/// Rotation of an entity about its center, in micro-radians.
#[derive(Clone, Copy, Debug, PartialEq, Eq, Structural)]
pub struct Rotation {
    pub angle: i64,
}

/// Constant-velocity motion, unaffected by forces.
#[derive(Clone, Copy, Debug, PartialEq, Eq, Structural)]
pub struct LinearMotion {
    pub vel: Vec2,
}

/// Constant rotation, in micro-radians per millisecond.
#[derive(Clone, Copy, Debug, PartialEq, Eq, Structural)]
pub struct LinearTorgue {
    pub speed: i64,
}

/// Mass-based motion, subject to forces.
#[derive(Clone, Copy, Debug, PartialEq, Eq, Structural)]
pub struct PhysicsMotion {
    pub vel: Vec2,
    pub mass: i64,
}

/// Exponential and linear decay of a [`PhysicsMotion`]'s velocity.
#[derive(Clone, Copy, Debug, PartialEq, Eq, Structural)]
pub struct PhysicsDamping {
    /// Share of the velocity kept over each millisecond, in parts per million.
    pub mul_factor: u32,
    /// Speed lost per millisecond; a velocity whose squared length is at most
    /// this is stopped outright.
    pub flat_factor: i64,
}

/// Speed limit of a [`PhysicsMotion`].
#[derive(Clone, Copy, Debug, PartialEq, Eq, Structural)]
pub struct MaxVelocity {
    pub max_velocity: i64,
}

/// Source of a radial charge field.
#[derive(Clone, Copy, Debug, PartialEq, Eq, Structural)]
pub struct ChargeSender {
    /// Force at full strength; its sign is the field's polarity.
    pub force: i64,
    /// Distance up to which the force is at full strength.
    pub full_radius: i64,
    /// Distance from which on the force is zero.
    pub no_radius: i64,
}

/// Makes an entity feel charge fields.
#[derive(Clone, Copy, Debug, PartialEq, Eq, Structural)]
pub struct ChargeReceiver {
    /// Scale of the felt force, per mille; its sign is the polarity.
    pub multiplier: i64,
}

/// Temporary immunity to charge fields.
#[derive(Clone, Copy, Debug, PartialEq, Eq, Structural)]
pub struct ChargeDisable {
    /// Milliseconds left before charges are felt again.
    pub timer: u64,
}

/// Pushes away whatever it collides with.
#[derive(Clone, Copy, Debug, PartialEq, Eq, Structural)]
pub struct KnockbackDealer {
    pub force: i64,
}

/// Circle inside which an entity can be hit: marks a potential victim.
#[derive(Clone, Copy, Debug, PartialEq, Eq, Structural)]
pub struct HitBox {
    pub radius: i64,
}

/// Circle inside which an entity hits others: marks a potential attacker.
#[derive(Clone, Copy, Debug, PartialEq, Eq, Structural)]
pub struct HurtBox {
    pub radius: i64,
}

/// Damage dealt on a hit.
#[derive(Clone, Copy, Debug, PartialEq, Eq, Structural)]
pub struct DamageDealer {
    pub dmg: i64,
}

/// Health; an entity whose `hp` is at most zero is dead.
#[derive(Clone, Copy, Debug, PartialEq, Eq, Structural)]
pub struct Health {
    pub max_hp: i64,
    pub hp: i64,
}

/// Boundary policy: the entity reappears at the opposite edge.
#[derive(Clone, Copy, Debug, PartialEq, Eq, Structural)]
pub struct Wrapped;

/// Boundary policy: the entity is destroyed once well outside the field.
#[derive(Clone, Copy, Debug, PartialEq, Eq, Structural)]
pub struct DeleteOnWarp {
    /// Largest side of the entity's drawn footprint, when known.
    pub footprint: Option<i64>,
}

/// Marker of enemies.
#[derive(Clone, Copy, Debug, PartialEq, Eq, Structural)]
pub struct Enemy;

/// Marker of projectiles, which vanish after a hit that can hurt.
#[derive(Clone, Copy, Debug, PartialEq, Eq, Structural)]
pub struct Projectile;

/// Experience orb, absorbed by the player on contact.
#[derive(Clone, Copy, Debug, PartialEq, Eq, Structural)]
pub struct XpOrb {
    pub amount: u32,
}

/// State of the player entity.
#[derive(Clone, Copy, Debug, PartialEq, Eq, Structural)]
pub struct Player {
    /// Milliseconds before another shot can be fired.
    pub fire_timer: u64,
    /// Milliseconds of invulnerability left.
    pub invul_timer: u64,
    /// Charge of the player: 1 or -1.
    pub polarity: i8,
    /// Score gathered this game.
    pub xp: u32,
}

impl Position {
    pub open spec fn wf(self) -> bool {
        -COORD_LIMIT <= self.x <= COORD_LIMIT && -COORD_LIMIT <= self.y <= COORD_LIMIT
    }
}

impl Rotation {
    pub open spec fn wf(self) -> bool {
        -COORD_LIMIT <= self.angle <= COORD_LIMIT
    }
}

impl LinearMotion {
    pub open spec fn wf(self) -> bool {
        self.vel.within(VEL_LIMIT as int)
    }
}

impl LinearTorgue {
    pub open spec fn wf(self) -> bool {
        -VEL_LIMIT <= self.speed <= VEL_LIMIT
    }
}

/// Velocity change from a force held for `dt` milliseconds on a mass.
pub open spec fn force_delta(f: int, dt: int, mass: int) -> int {
    div_trunc(f * dt, mass)
}

impl PhysicsMotion {
    pub open spec fn wf(self) -> bool {
        &&& self.vel.within(VEL_LIMIT as int)
        &&& 1 <= self.mass <= MASS_LIMIT
    }

    /// Adds to the velocity the change that `force` held for `dt`
    /// milliseconds makes on this mass, saturating at the velocity limit.
    pub fn apply_force(&mut self, force: Vec2, dt: u32)
        requires
            old(self).wf(),
            force.within(FORCE_LIMIT as int),
            dt <= MAX_DT,
        ensures
            final(self).wf(),
            final(self).mass == old(self).mass,
            final(self).vel.x == clamp_spec(
                old(self).vel.x + force_delta(force.x as int, dt as int, old(self).mass as int),
                VEL_LIMIT as int,
            ),
            final(self).vel.y == clamp_spec(
                old(self).vel.y + force_delta(force.y as int, dt as int, old(self).mass as int),
                VEL_LIMIT as int,
            ),
    {
        proof {
            lemma_mul_bound(force.x as int, dt as int, FORCE_LIMIT as int, MAX_DT as int);
            lemma_mul_bound(force.y as int, dt as int, FORCE_LIMIT as int, MAX_DT as int);
            lemma_div_trunc_bound_by(force.x * dt, self.mass as int, FORCE_LIMIT * MAX_DT);
            lemma_div_trunc_bound_by(force.y * dt, self.mass as int, FORCE_LIMIT * MAX_DT);
        }
        let dx = trunc_div(force.x as i128 * dt as i128, self.mass as i128);
        let dy = trunc_div(force.y as i128 * dt as i128, self.mass as i128);
        self.vel = Vec2 {
            x: clamp(self.vel.x as i128 + dx, VEL_LIMIT),
            y: clamp(self.vel.y as i128 + dy, VEL_LIMIT),
        };
    }
}

impl PhysicsDamping {
    pub open spec fn wf(self) -> bool {
        self.mul_factor <= PPM && 0 <= self.flat_factor <= VEL_LIMIT
    }
}

impl MaxVelocity {
    pub open spec fn wf(self) -> bool {
        0 <= self.max_velocity <= VEL_LIMIT
    }
}

impl ChargeSender {
    pub open spec fn wf(self) -> bool {
        &&& -FORCE_LIMIT <= self.force <= FORCE_LIMIT
        &&& 0 <= self.full_radius <= COORD_LIMIT
        &&& 0 <= self.no_radius <= COORD_LIMIT
    }
}

impl ChargeReceiver {
    pub open spec fn wf(self) -> bool {
        -FORCE_LIMIT <= self.multiplier <= FORCE_LIMIT
    }
}

impl KnockbackDealer {
    pub open spec fn wf(self) -> bool {
        -FORCE_LIMIT <= self.force <= FORCE_LIMIT
    }
}

impl HitBox {
    pub open spec fn wf(self) -> bool {
        0 <= self.radius <= COORD_LIMIT
    }
}

impl HurtBox {
    pub open spec fn wf(self) -> bool {
        0 <= self.radius <= COORD_LIMIT
    }
}

impl DamageDealer {
    pub open spec fn wf(self) -> bool {
        -HP_LIMIT <= self.dmg <= HP_LIMIT
    }
}

impl DeleteOnWarp {
    pub open spec fn wf(self) -> bool {
        match self.footprint {
            Some(f) => 0 <= f <= COORD_LIMIT,
            None => true,
        }
    }
}

/// `hp` after healing by `amount`: raised by it, but not above `max_hp`.
pub open spec fn healed(hp: int, max_hp: int, amount: int) -> int {
    if hp + amount > max_hp {
        max_hp
    } else {
        hp + amount
    }
}

impl Health {
    pub open spec fn wf(self) -> bool {
        -HP_LIMIT <= self.hp <= HP_LIMIT && -HP_LIMIT <= self.max_hp <= HP_LIMIT
    }

    /// Raises `hp` by `amount`, without going over `max_hp`.
    pub fn heal(&mut self, amount: u64)
        requires
            old(self).wf(),
        ensures
            final(self).wf(),
            final(self).max_hp == old(self).max_hp,
            final(self).hp == healed(old(self).hp as int, old(self).max_hp as int, amount as int),
    {
        let sum: i128 = self.hp as i128 + amount as i128;
        if sum > self.max_hp as i128 {
            self.hp = self.max_hp;
        } else {
            self.hp = sum as i64;
        }
    }
}

impl Player {
    /// A fresh player: no cooldowns, positive polarity, no score.
    pub fn new() -> (r: Player)
        ensures
            r.fire_timer == 0 && r.invul_timer == 0 && r.polarity == 1 && r.xp == 0,
    {
        Player { fire_timer: 0, invul_timer: 0, polarity: 1, xp: 0 }
    }
}

/// An entity's components; `None` where the entity lacks one.
#[derive(Clone, Copy, Debug, PartialEq, Eq, Structural)]
pub struct Body {
    pub pos: Option<Position>,
    pub rotation: Option<Rotation>,
    pub team: Option<Team>,
    pub linear: Option<LinearMotion>,
    pub torgue: Option<LinearTorgue>,
    pub physics: Option<PhysicsMotion>,
    pub damping: Option<PhysicsDamping>,
    pub max_velocity: Option<MaxVelocity>,
    pub charge_sender: Option<ChargeSender>,
    pub charge_receiver: Option<ChargeReceiver>,
    pub charge_disable: Option<ChargeDisable>,
    pub knockback: Option<KnockbackDealer>,
    pub hit_box: Option<HitBox>,
    pub hurt_box: Option<HurtBox>,
    pub damage: Option<DamageDealer>,
    pub health: Option<Health>,
    pub wrapped: Option<Wrapped>,
    pub delete_on_warp: Option<DeleteOnWarp>,
    pub enemy: Option<Enemy>,
    pub projectile: Option<Projectile>,
    pub xp_orb: Option<XpOrb>,
    pub player: Option<Player>,
}

/// Whether an optional component is absent or satisfies `wf`.
pub open spec fn opt_wf<T>(o: Option<T>, wf: spec_fn(T) -> bool) -> bool {
    match o {
        Some(c) => wf(c),
        None => true,
    }
}

impl Body {
    /// Every component present is within its limits; the two boundary
    /// policies exclude each other.
    pub open spec fn wf(self) -> bool {
        &&& opt_wf(self.pos, |c: Position| c.wf())
        &&& opt_wf(self.rotation, |c: Rotation| c.wf())
        &&& opt_wf(self.linear, |c: LinearMotion| c.wf())
        &&& opt_wf(self.torgue, |c: LinearTorgue| c.wf())
        &&& opt_wf(self.physics, |c: PhysicsMotion| c.wf())
        &&& opt_wf(self.damping, |c: PhysicsDamping| c.wf())
        &&& opt_wf(self.max_velocity, |c: MaxVelocity| c.wf())
        &&& opt_wf(self.charge_sender, |c: ChargeSender| c.wf())
        &&& opt_wf(self.charge_receiver, |c: ChargeReceiver| c.wf())
        &&& opt_wf(self.knockback, |c: KnockbackDealer| c.wf())
        &&& opt_wf(self.hit_box, |c: HitBox| c.wf())
        &&& opt_wf(self.hurt_box, |c: HurtBox| c.wf())
        &&& opt_wf(self.damage, |c: DamageDealer| c.wf())
        &&& opt_wf(self.health, |c: Health| c.wf())
        &&& opt_wf(self.delete_on_warp, |c: DeleteOnWarp| c.wf())
        &&& !(self.wrapped is Some && self.delete_on_warp is Some)
    }

    /// Whether every component present is within its limits and the two
    /// boundary policies do not meet.
    pub fn check(&self) -> (r: bool)
        ensures
            r == self.wf(),
    {
        let c = COORD_LIMIT;
        let v = VEL_LIMIT;
        let f = FORCE_LIMIT;
        let pos = match self.pos {
            Some(p) => -c <= p.x && p.x <= c && -c <= p.y && p.y <= c,
            None => true,
        };
        let rotation = match self.rotation {
            Some(r) => -c <= r.angle && r.angle <= c,
            None => true,
        };
        let linear = match self.linear {
            Some(l) => -v <= l.vel.x && l.vel.x <= v && -v <= l.vel.y && l.vel.y <= v,
            None => true,
        };
        let torgue = match self.torgue {
            Some(t) => -v <= t.speed && t.speed <= v,
            None => true,
        };
        let physics = match self.physics {
            Some(m) => -v <= m.vel.x && m.vel.x <= v && -v <= m.vel.y && m.vel.y <= v && 1 <= m.mass
                && m.mass <= MASS_LIMIT,
            None => true,
        };
        let damping = match self.damping {
            Some(d) => d.mul_factor <= PPM && 0 <= d.flat_factor && d.flat_factor <= v,
            None => true,
        };
        let max_velocity = match self.max_velocity {
            Some(m) => 0 <= m.max_velocity && m.max_velocity <= v,
            None => true,
        };
        let sender = match self.charge_sender {
            Some(s) => -f <= s.force && s.force <= f && 0 <= s.full_radius && s.full_radius <= c && 0
                <= s.no_radius && s.no_radius <= c,
            None => true,
        };
        let receiver = match self.charge_receiver {
            Some(r) => -f <= r.multiplier && r.multiplier <= f,
            None => true,
        };
        let knockback = match self.knockback {
            Some(k) => -f <= k.force && k.force <= f,
            None => true,
        };
        let hit_box = match self.hit_box {
            Some(h) => 0 <= h.radius && h.radius <= c,
            None => true,
        };
        let hurt_box = match self.hurt_box {
            Some(h) => 0 <= h.radius && h.radius <= c,
            None => true,
        };
        let damage = match self.damage {
            Some(d) => -HP_LIMIT <= d.dmg && d.dmg <= HP_LIMIT,
            None => true,
        };
        let health = match self.health {
            Some(h) => -HP_LIMIT <= h.hp && h.hp <= HP_LIMIT && -HP_LIMIT <= h.max_hp && h.max_hp
                <= HP_LIMIT,
            None => true,
        };
        let delete = match self.delete_on_warp {
            Some(d) => match d.footprint {
                Some(fp) => 0 <= fp && fp <= c,
                None => true,
            },
            None => true,
        };
        let exclusive = !(self.wrapped.is_some() && self.delete_on_warp.is_some());
        pos && rotation && linear && torgue && physics && damping && max_velocity && sender && receiver
            && knockback && hit_box && hurt_box && damage && health && delete && exclusive
    }

    /// Whether the entity is dead: it has health, at most zero.
    pub fn is_dead(&self) -> (r: bool)
        ensures
            r == (self.health matches Some(h) && h.hp <= 0),
    {
        match self.health {
            Some(h) => h.hp <= 0,
            None => false,
        }
    }

    /// An entity with no components.
    pub fn new() -> (r: Body)
        ensures
            r.wf(),
            r.pos is None && r.rotation is None && r.team is None && r.linear is None,
            r.torgue is None && r.physics is None && r.damping is None,
            r.max_velocity is None && r.charge_sender is None && r.charge_receiver is None,
            r.charge_disable is None && r.knockback is None && r.hit_box is None,
            r.hurt_box is None && r.damage is None && r.health is None && r.wrapped is None,
            r.delete_on_warp is None && r.enemy is None && r.projectile is None,
            r.xp_orb is None && r.player is None,
    {
        Body {
            pos: None,
            rotation: None,
            team: None,
            linear: None,
            torgue: None,
            physics: None,
            damping: None,
            max_velocity: None,
            charge_sender: None,
            charge_receiver: None,
            charge_disable: None,
            knockback: None,
            hit_box: None,
            hurt_box: None,
            damage: None,
            health: None,
            wrapped: None,
            delete_on_warp: None,
            enemy: None,
            projectile: None,
            xp_orb: None,
            player: None,
        }
    }
}

} // verus!
