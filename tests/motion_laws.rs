use magnet_fury::components::{
    Body, ChargeReceiver, ChargeSender, Health, PhysicsDamping, PhysicsMotion, Player, Position,
};
use magnet_fury::player::{weapons, PLAYER_CHARGE_FORCE, PLAYER_FIRE_COOLDOWN};
use magnet_fury::fixed::{add_velocity, ceil_sqrt, floor_sqrt, Vec2, VEL_LIMIT};
use magnet_fury::motion::{
    advance, cap_velocity, charge_strength, charge_velocity_delta, damp_velocity,
    knockback_velocity_delta,
};
use magnet_fury::persist::Persistent;

#[test]
fn square_roots_round_as_stated() {
    assert_eq!(floor_sqrt(0), 0);
    assert_eq!(floor_sqrt(24), 4);
    assert_eq!(floor_sqrt(25), 5);
    assert_eq!(ceil_sqrt(24), 5);
    assert_eq!(ceil_sqrt(25), 5);
    assert_eq!(ceil_sqrt(26), 6);
    assert_eq!(floor_sqrt(1u128 << 80), 1u128 << 40);
}

#[test]
fn advance_moves_by_velocity_times_time() {
    assert_eq!(advance(1_000, 250, 16), 5_000);
    assert_eq!(advance(0, -3, 10), -30);
}

#[test]
fn apply_force_divides_by_mass() {
    let mut m = PhysicsMotion { vel: Vec2 { x: 100, y: 0 }, mass: 4 };
    m.apply_force(Vec2 { x: 1000, y: -1000 }, 10);
    assert_eq!(m.vel, Vec2 { x: 2_600, y: -2_500 });
    assert_eq!(m.mass, 4);
}

#[test]
fn apply_force_saturates_at_velocity_limit() {
    let mut m = PhysicsMotion { vel: Vec2 { x: VEL_LIMIT - 1, y: 0 }, mass: 1 };
    m.apply_force(Vec2 { x: 1_000, y: 0 }, 1_000);
    assert_eq!(m.vel.x, VEL_LIMIT);
}

#[test]
fn heal_stops_at_max() {
    let mut h = Health { max_hp: 10, hp: 7 };
    h.heal(2);
    assert_eq!(h.hp, 9);
    h.heal(5);
    assert_eq!(h.hp, 10);
}

#[test]
fn damping_stops_small_velocities() {
    let d = PhysicsDamping { mul_factor: 1_000_000, flat_factor: 25 };
    let v = damp_velocity(Vec2 { x: 3, y: 4 }, d, 16);
    assert_eq!(v, Vec2 { x: 0, y: 0 });
}

#[test]
fn damping_decays_then_subtracts_flat() {
    // Half kept each millisecond over one millisecond, then 10 off the length.
    let d = PhysicsDamping { mul_factor: 500_000, flat_factor: 10 };
    let v = damp_velocity(Vec2 { x: 600, y: 800 }, d, 1);
    // Decayed to (300, 400), length 500; 10 * 300 / 500 = 6, 10 * 400 / 500 = 8.
    assert_eq!(v, Vec2 { x: 294, y: 392 });
}

#[test]
fn damping_converges_to_zero() {
    let d = PhysicsDamping { mul_factor: 999_000, flat_factor: 4 };
    let mut v = Vec2 { x: 5_000, y: -7_000 };
    let mut ticks = 0;
    while v != (Vec2 { x: 0, y: 0 }) {
        v = damp_velocity(v, d, 16);
        ticks += 1;
        assert!(ticks <= 12_000);
    }
    assert_eq!(damp_velocity(v, d, 16), Vec2 { x: 0, y: 0 });
}

#[test]
fn damping_never_reverses() {
    let d = PhysicsDamping { mul_factor: 1_000_000, flat_factor: 1_000 };
    let v = damp_velocity(Vec2 { x: 30_000, y: -40_000 }, d, 100);
    assert_eq!(v, Vec2 { x: 0, y: 0 });
}

#[test]
fn cap_rescales_keeping_direction() {
    let v = cap_velocity(Vec2 { x: 3_000_000, y: -4_000_000 }, 1_000_000);
    assert_eq!(v, Vec2 { x: 600_000, y: -800_000 });
    let again = cap_velocity(v, 1_000_000);
    assert_eq!(again, v);
}

#[test]
fn cap_leaves_slow_velocities() {
    let v = Vec2 { x: 30, y: 40 };
    assert_eq!(cap_velocity(v, 50), v);
    assert_eq!(cap_velocity(v, 49), Vec2 { x: 29, y: 39 });
}

#[test]
fn cap_result_within_cap() {
    let cap: i64 = 777;
    let v = cap_velocity(Vec2 { x: 123_457, y: 98_765 }, cap);
    let n = (v.x as i128) * (v.x as i128) + (v.y as i128) * (v.y as i128);
    assert!(n <= (cap as i128) * (cap as i128));
    assert!(v.x > 0 && v.y > 0);
}

fn sender() -> ChargeSender {
    ChargeSender { force: 200, full_radius: 100_000_000, no_radius: 300_000_000 }
}

#[test]
fn charge_is_full_up_to_full_radius() {
    let s = sender();
    assert_eq!(charge_strength(&s, 100_000_000u128 * 100_000_000), Some(200));
    assert_eq!(charge_strength(&s, 50_000_000u128 * 50_000_000), Some(200));
}

#[test]
fn charge_falls_off_linearly() {
    let s = sender();
    assert_eq!(charge_strength(&s, 200_000_000u128 * 200_000_000), Some(100));
    assert_eq!(charge_strength(&s, 250_000_000u128 * 250_000_000), Some(50));
}

#[test]
fn charge_vanishes_at_no_radius() {
    let s = sender();
    assert_eq!(charge_strength(&s, 300_000_000u128 * 300_000_000), None);
    assert_eq!(charge_strength(&s, 400_000_000u128 * 400_000_000), None);
}

#[test]
fn charge_skips_coincident_entities() {
    let s = sender();
    assert_eq!(charge_strength(&s, 0), None);
    assert_eq!(charge_strength(&s, 100_000u128 * 100_000), None);
    assert_eq!(charge_strength(&s, 100_001u128 * 100_001), Some(200));
}

#[test]
fn charge_delta_points_from_sender_to_receiver() {
    let s = sender();
    let r = Position { x: 50_000_000, y: 0 };
    let o = Position { x: 0, y: 0 };
    // 1000 per mille, force 200, 16 ms, mass 2: 200 * 16 / 2 = 1600 along +x.
    assert_eq!(charge_velocity_delta(r, 1000, 2, 16, &s, o), (1600, 0));
    // Negative multiplier attracts.
    assert_eq!(charge_velocity_delta(r, -500, 2, 16, &s, o), (-800, 0));
}

#[test]
fn knockback_impulse_is_force_over_mass() {
    // Force 500 over mass 10 is 50 world units per second: 50_000 here.
    let victim = Position { x: 10_000_000, y: 0 };
    let dealer = Position { x: 0, y: 0 };
    assert_eq!(knockback_velocity_delta(victim, dealer, 500, 10), (50_000, 0));
    let above = Position { x: 0, y: -3_000_000 };
    assert_eq!(knockback_velocity_delta(above, dealer, 500, 10), (0, -50_000));
}

#[test]
fn knockback_of_coincident_entities_is_zero() {
    let p = Position { x: 7, y: 7 };
    assert_eq!(knockback_velocity_delta(p, p, 500, 10), (0, 0));
}

#[test]
fn high_score_keeps_the_best() {
    let mut p = Persistent::new();
    p.record_score(12);
    assert_eq!(p.high_score, 12);
    p.record_score(5);
    assert_eq!(p.high_score, 12);
    p.record_score(40);
    assert_eq!(p.high_score, 40);
}

#[test]
fn weapons_fire_on_cooldown_and_switch_polarity() {
    let mut b = Body::new();
    b.player = Some(Player::new());
    b.charge_sender = Some(ChargeSender { force: PLAYER_CHARGE_FORCE, full_radius: 1, no_radius: 2 });
    b.charge_receiver = Some(ChargeReceiver { multiplier: 1000 });
    assert!(weapons(&mut b, 16, true, false));
    assert_eq!(b.player.unwrap().fire_timer, PLAYER_FIRE_COOLDOWN);
    assert!(!weapons(&mut b, 100, true, false));
    assert_eq!(b.player.unwrap().fire_timer, 50);
    assert!(!weapons(&mut b, 16, false, true));
    assert_eq!(b.player.unwrap().polarity, -1);
    assert_eq!(b.charge_sender.unwrap().force, -PLAYER_CHARGE_FORCE);
    assert_eq!(b.charge_receiver.unwrap().multiplier, -1000);
    assert!(weapons(&mut b, 40, true, true));
    assert_eq!(b.player.unwrap().polarity, 1);
}

#[test]
fn velocity_sums_saturate() {
    assert_eq!(add_velocity(Vec2 { x: 3, y: -4 }, Vec2 { x: 10, y: 1 }), Vec2 { x: 13, y: -3 });
    let r = add_velocity(Vec2 { x: VEL_LIMIT, y: -VEL_LIMIT }, Vec2 { x: 1, y: -9 });
    assert_eq!(r, Vec2 { x: VEL_LIMIT, y: -VEL_LIMIT });
}
