use magnet_fury::boundary::{
    ensure_wrapping, exits_field, wrap_position, DEFAULT_MARGIN, FIELD_HEIGHT, FIELD_WIDTH,
};
use magnet_fury::collision::{ensure_damage, overlaps, HitEvent};
use magnet_fury::components::{
    Body, ChargeDisable, ChargeReceiver, ChargeSender, DamageDealer, DeleteOnWarp, Enemy, Health,
    HitBox, HurtBox, KnockbackDealer, LinearMotion, LinearTorgue, PhysicsMotion, Player, Position,
    Projectile, Rotation, Wrapped, XpOrb,
};
use magnet_fury::entity::Entry;
use magnet_fury::fixed::Vec2;
use magnet_fury::game::{end_frame, GameState, Inputs};
use magnet_fury::journal::{Command, Journal};
use magnet_fury::knockback::apply_knockback;
use magnet_fury::physics::{apply_motion, apply_physics};
use magnet_fury::team::Team;

const U: i64 = 1_000_000;

fn at(x: i64, y: i64) -> Body {
    let mut b = Body::new();
    b.pos = Some(Position { x, y });
    b
}

fn player_at(x: i64, y: i64) -> Body {
    let mut b = at(x, y);
    b.player = Some(Player::new());
    b.team = Some(Team::Player);
    b.hit_box = Some(HitBox { radius: 7 * U });
    b.health = Some(Health { max_hp: 10 * U, hp: 10 * U });
    b
}

fn enemy_at(x: i64, y: i64) -> Body {
    let mut b = at(x, y);
    b.enemy = Some(Enemy);
    b.team = Some(Team::Enemy);
    b.hurt_box = Some(HurtBox { radius: 10 * U });
    b.damage = Some(DamageDealer { dmg: 2 * U });
    b
}

#[test]
fn teams_hurt_only_other_teams() {
    assert!(Team::Enemy.can_hurt(&Team::Player));
    assert!(Team::Neutral.can_hurt(&Team::Enemy));
    assert!(!Team::Player.can_hurt(&Team::Player));
    assert_eq!(Team::default(), Team::Neutral);
}

#[test]
fn touching_circles_do_not_overlap() {
    let a = Position { x: 0, y: 0 };
    let b = Position { x: 3 * U, y: 4 * U };
    assert!(!overlaps(a, HitBox { radius: 2 * U }, b, HurtBox { radius: 3 * U }));
    assert!(overlaps(a, HitBox { radius: 2 * U }, b, HurtBox { radius: 3 * U + 1 }));
    let c = Position { x: 3 * U, y: 4 * U - 1 };
    assert!(overlaps(a, HitBox { radius: 2 * U }, c, HurtBox { radius: 3 * U }));
}

#[test]
fn detection_yields_player_hit_by_enemy() {
    let entries = vec![
        Entry { id: 1, body: player_at(0, 0) },
        Entry { id: 2, body: enemy_at(5 * U, 0) },
    ];
    let mut events = Vec::new();
    ensure_damage(&entries, &mut events);
    assert_eq!(events, vec![HitEvent { who: 1, by: 2, can_hurt: true }]);
}

#[test]
fn detection_marks_same_team_hits_harmless() {
    let mut ally = enemy_at(5 * U, 0);
    ally.team = Some(Team::Player);
    let entries = vec![Entry { id: 1, body: player_at(0, 0) }, Entry { id: 2, body: ally }];
    let mut events = Vec::new();
    ensure_damage(&entries, &mut events);
    assert_eq!(events, vec![HitEvent { who: 1, by: 2, can_hurt: false }]);
}

#[test]
fn detection_includes_self_pairs() {
    let mut b = at(0, 0);
    b.team = Some(Team::Enemy);
    b.hit_box = Some(HitBox { radius: U });
    b.hurt_box = Some(HurtBox { radius: U });
    let entries = vec![Entry { id: 9, body: b }];
    let mut events = Vec::new();
    ensure_damage(&entries, &mut events);
    assert_eq!(events, vec![HitEvent { who: 9, by: 9, can_hurt: false }]);
}

#[test]
fn detection_needs_a_team() {
    let mut e = enemy_at(5 * U, 0);
    e.team = None;
    let entries = vec![Entry { id: 1, body: player_at(0, 0) }, Entry { id: 2, body: e }];
    let mut events = Vec::new();
    ensure_damage(&entries, &mut events);
    assert!(events.is_empty());
}

#[test]
fn wrap_keeps_inside_positions() {
    let p = Position { x: 10, y: FIELD_HEIGHT - 1 };
    assert_eq!(wrap_position(p), p);
    assert_eq!(wrap_position(wrap_position(p)), p);
}

#[test]
fn wrap_sends_width_to_zero() {
    assert_eq!(wrap_position(Position { x: FIELD_WIDTH, y: 5 }), Position { x: 0, y: 5 });
    assert_eq!(wrap_position(Position { x: 5, y: FIELD_HEIGHT + 9 }), Position { x: 5, y: 0 });
}

#[test]
fn wrap_sends_negative_to_far_edge() {
    let w = wrap_position(Position { x: -1, y: -3 * FIELD_HEIGHT });
    assert_eq!(w, Position { x: FIELD_WIDTH, y: FIELD_HEIGHT });
}

#[test]
fn wrap_resets_to_edge_not_modulo() {
    let w = wrap_position(Position { x: 5 * FIELD_WIDTH, y: FIELD_HEIGHT + 1 });
    assert_eq!(w, Position { x: 0, y: 0 });
}

#[test]
fn exit_uses_footprint_or_default() {
    let p = Position { x: FIELD_WIDTH + DEFAULT_MARGIN + 1, y: 0 };
    assert!(exits_field(p, None));
    assert!(!exits_field(Position { x: FIELD_WIDTH + DEFAULT_MARGIN, y: 0 }, None));
    assert!(!exits_field(p, Some(100 * U)));
    assert!(exits_field(Position { x: -(20 * U) - 1, y: 0 }, Some(15 * U)));
}

#[test]
fn wrapping_pass_wraps_and_schedules_exits() {
    let mut w = at(FIELD_WIDTH + 3, 10);
    w.wrapped = Some(Wrapped);
    let mut d = at(0, FIELD_HEIGHT + DEFAULT_MARGIN + 1);
    d.delete_on_warp = Some(DeleteOnWarp { footprint: None });
    let mut entries = vec![Entry { id: 1, body: w }, Entry { id: 2, body: d }];
    let mut journal = Journal::new();
    ensure_wrapping(&mut entries, &mut journal);
    assert_eq!(entries[0].body.pos, Some(Position { x: 0, y: 10 }));
    assert_eq!(entries[1].body.pos, Some(Position { x: 0, y: FIELD_HEIGHT + DEFAULT_MARGIN + 1 }));
    assert_eq!(journal.commands(), &vec![Command::Despawn(2)]);
}

#[test]
fn motion_pass_integrates_all_motions() {
    let mut b = at(0, 0);
    b.linear = Some(LinearMotion { vel: Vec2 { x: 10, y: 0 } });
    b.physics = Some(PhysicsMotion { vel: Vec2 { x: 0, y: -5 }, mass: 1 });
    b.rotation = Some(Rotation { angle: 100 });
    b.torgue = Some(LinearTorgue { speed: 3 });
    let mut entries = vec![Entry { id: 1, body: b }];
    apply_motion(&mut entries, 20);
    assert_eq!(entries[0].body.pos, Some(Position { x: 200, y: -100 }));
    assert_eq!(entries[0].body.rotation, Some(Rotation { angle: 160 }));
}

fn charged_pair(disable: Option<u64>) -> Vec<Entry> {
    let mut src = at(0, 0);
    src.charge_sender = Some(ChargeSender { force: 200, full_radius: 100 * U, no_radius: 300 * U });
    let mut rcv = at(50 * U, 0);
    rcv.charge_receiver = Some(ChargeReceiver { multiplier: 1000 });
    rcv.physics = Some(PhysicsMotion { vel: Vec2 { x: 0, y: 0 }, mass: 2 });
    rcv.charge_disable = disable.map(|timer| ChargeDisable { timer });
    vec![Entry { id: 1, body: src }, Entry { id: 2, body: rcv }]
}

#[test]
fn physics_pass_applies_charge_forces() {
    let mut entries = charged_pair(None);
    apply_physics(&mut entries, 16);
    let m = entries[1].body.physics.unwrap();
    assert_eq!(m.vel, Vec2 { x: 1600, y: 0 });
    assert_eq!(entries[0].body, charged_pair(None)[0].body);
}

#[test]
fn charge_disable_shields_then_expires() {
    let mut entries = charged_pair(Some(20));
    apply_physics(&mut entries, 16);
    assert_eq!(entries[1].body.physics.unwrap().vel, Vec2 { x: 0, y: 0 });
    assert_eq!(entries[1].body.charge_disable, Some(ChargeDisable { timer: 4 }));
    apply_physics(&mut entries, 16);
    assert_eq!(entries[1].body.physics.unwrap().vel, Vec2 { x: 1600, y: 0 });
    assert_eq!(entries[1].body.charge_disable, Some(ChargeDisable { timer: 0 }));
}

#[test]
fn sender_does_not_push_itself() {
    let mut b = at(0, 0);
    b.charge_sender = Some(ChargeSender { force: 200, full_radius: 100 * U, no_radius: 300 * U });
    b.charge_receiver = Some(ChargeReceiver { multiplier: 1000 });
    b.physics = Some(PhysicsMotion { vel: Vec2 { x: 7, y: 7 }, mass: 1 });
    let mut entries = vec![Entry { id: 1, body: b }];
    apply_physics(&mut entries, 16);
    assert_eq!(entries[0].body.physics.unwrap().vel, Vec2 { x: 7, y: 7 });
}

fn knock_pair() -> Vec<Entry> {
    let mut dealer = at(0, 0);
    dealer.knockback = Some(KnockbackDealer { force: 500 });
    let mut victim = at(10 * U, 0);
    victim.physics = Some(PhysicsMotion { vel: Vec2 { x: 0, y: 0 }, mass: 10 });
    vec![Entry { id: 1, body: dealer }, Entry { id: 2, body: victim }]
}

#[test]
fn knockback_adds_one_impulse() {
    let mut entries = knock_pair();
    apply_knockback(&mut entries, &vec![HitEvent { who: 2, by: 1, can_hurt: true }]);
    assert_eq!(entries[1].body.physics.unwrap().vel, Vec2 { x: 50_000, y: 0 });
}

#[test]
fn knockback_ignores_team_flag() {
    let mut a = knock_pair();
    let mut b = knock_pair();
    apply_knockback(&mut a, &vec![HitEvent { who: 2, by: 1, can_hurt: true }]);
    apply_knockback(&mut b, &vec![HitEvent { who: 2, by: 1, can_hurt: false }]);
    assert_eq!(a, b);
}

#[test]
fn knockback_skips_self_and_missing() {
    let mut entries = knock_pair();
    apply_knockback(
        &mut entries,
        &vec![HitEvent { who: 2, by: 2, can_hurt: true }, HitEvent { who: 2, by: 77, can_hurt: true }],
    );
    assert_eq!(entries, knock_pair());
}

#[test]
fn player_takes_one_hit_then_is_invulnerable() {
    let mut entries = vec![
        Entry { id: 1, body: player_at(0, 0) },
        Entry { id: 2, body: enemy_at(5 * U, 0) },
        Entry { id: 3, body: enemy_at(5 * U, 0) },
    ];
    let events = vec![HitEvent { who: 1, by: 2, can_hurt: true }, HitEvent { who: 1, by: 3, can_hurt: true }];
    magnet_fury::player::health(&mut entries, &events, 16);
    assert_eq!(entries[0].body.health.unwrap().hp, 8 * U);
    assert_eq!(entries[0].body.player.unwrap().invul_timer, 1000);
    magnet_fury::player::health(&mut entries, &events, 16);
    assert_eq!(entries[0].body.health.unwrap().hp, 8 * U);
    assert_eq!(entries[0].body.player.unwrap().invul_timer, 984);
}

#[test]
fn player_regenerates_when_not_invulnerable() {
    let mut p = player_at(0, 0);
    p.health = Some(Health { max_hp: 10 * U, hp: 5 * U });
    let mut entries = vec![Entry { id: 1, body: p }];
    magnet_fury::player::health(&mut entries, &vec![], 10);
    assert_eq!(entries[0].body.health.unwrap().hp, 5 * U + 3_000);
}

#[test]
fn player_ignores_harmless_hits() {
    let mut entries = vec![Entry { id: 1, body: player_at(0, 0) }, Entry { id: 2, body: enemy_at(0, 0) }];
    magnet_fury::player::health(&mut entries, &vec![HitEvent { who: 1, by: 2, can_hurt: false }], 16);
    assert_eq!(entries[0].body.health.unwrap().hp, 10 * U);
    assert_eq!(entries[0].body.player.unwrap().invul_timer, 0);
}

#[test]
fn enemies_take_every_hit_and_die() {
    let mut victim = enemy_at(0, 0);
    victim.health = Some(Health { max_hp: 3 * U, hp: 3 * U });
    let mut shot = at(0, 0);
    shot.damage = Some(DamageDealer { dmg: 2 * U });
    shot.projectile = Some(Projectile);
    let mut entries = vec![Entry { id: 4, body: victim }, Entry { id: 5, body: shot }];
    let events = vec![HitEvent { who: 4, by: 5, can_hurt: true }, HitEvent { who: 4, by: 5, can_hurt: true }];
    let mut journal = Journal::new();
    magnet_fury::enemy::health(&mut entries, &events, &mut journal);
    assert_eq!(entries[0].body.health.unwrap().hp, -U);
    assert_eq!(journal.commands(), &vec![Command::Despawn(4)]);
}

#[test]
fn spent_projectiles_are_removed_once() {
    let mut shot = at(0, 0);
    shot.projectile = Some(Projectile);
    let entries = vec![Entry { id: 5, body: shot }, Entry { id: 6, body: shot }];
    let events = vec![
        HitEvent { who: 4, by: 5, can_hurt: true },
        HitEvent { who: 3, by: 5, can_hurt: true },
        HitEvent { who: 4, by: 6, can_hurt: false },
    ];
    let mut journal = Journal::new();
    magnet_fury::projectile::on_hurt(&entries, &events, &mut journal);
    assert_eq!(journal.commands(), &vec![Command::Despawn(5)]);
}

#[test]
fn orbs_are_absorbed_by_the_player() {
    let mut orb = at(0, 0);
    orb.xp_orb = Some(XpOrb { amount: 7 });
    let mut entries = vec![Entry { id: 1, body: player_at(0, 0) }, Entry { id: 8, body: orb }];
    let mut journal = Journal::new();
    magnet_fury::xp::xp_absorbtion(&mut entries, &vec![HitEvent { who: 1, by: 8, can_hurt: false }], &mut journal);
    assert_eq!(entries[0].body.player.unwrap().xp, 7);
    assert_eq!(journal.commands(), &vec![Command::Despawn(8)]);
}

#[test]
fn enemies_ignore_harmless_hits() {
    let mut victim = enemy_at(0, 0);
    victim.health = Some(Health { max_hp: 3 * U, hp: 3 * U });
    let mut entries = vec![Entry { id: 4, body: victim }, Entry { id: 5, body: enemy_at(0, 0) }];
    let mut journal = Journal::new();
    magnet_fury::enemy::health(&mut entries, &vec![HitEvent { who: 4, by: 5, can_hurt: false }], &mut journal);
    assert_eq!(entries[0].body.health.unwrap().hp, 3 * U);
    assert!(journal.commands().is_empty());
}

#[test]
fn game_state_follows_inputs() {
    let quiet = Inputs { start: false, escape: false, player_dead: false };
    let mut s = GameState::MainMenu;
    s.update(quiet);
    assert_eq!(s, GameState::MainMenu);
    s.update(Inputs { start: true, ..quiet });
    assert_eq!(s, GameState::Running);
    s.update(Inputs { escape: true, ..quiet });
    assert_eq!(s, GameState::Paused);
    s.update(Inputs { escape: true, ..quiet });
    assert_eq!(s, GameState::Running);
    s.update(Inputs { escape: true, player_dead: true, ..quiet });
    assert_eq!(s, GameState::GameOver);
    s.update(quiet);
    assert_eq!(s, GameState::GameOver);
    s.update(Inputs { escape: true, ..quiet });
    assert_eq!(s, GameState::MainMenu);
}

#[test]
fn charge_at_full_radius_is_full_strength() {
    let mut entries = charged_pair(None);
    entries[1].body.pos = Some(Position { x: 100 * U, y: 0 });
    apply_physics(&mut entries, 16);
    // 1000 per mille * 200 * 16 ms * 100 units / (1000 * 100 units * mass 2) = 1600.
    assert_eq!(entries[1].body.physics.unwrap().vel, Vec2 { x: 1600, y: 0 });
}

#[test]
fn charge_at_no_radius_is_nothing() {
    let mut entries = charged_pair(None);
    entries[1].body.pos = Some(Position { x: 0, y: 300 * U });
    apply_physics(&mut entries, 16);
    assert_eq!(entries[1].body.physics.unwrap().vel, Vec2 { x: 0, y: 0 });
}

#[test]
fn frame_end_records_score_on_death() {
    let quiet = Inputs { start: false, escape: false, player_dead: false };
    let mut state = GameState::Running;
    let mut progress = magnet_fury::persist::Persistent { high_score: 3 };
    assert!(!end_frame(&mut state, quiet, 9, &mut progress));
    assert_eq!(progress.high_score, 3);
    assert_eq!(state, GameState::Running);
    assert!(end_frame(&mut state, Inputs { player_dead: true, ..quiet }, 9, &mut progress));
    assert_eq!(progress.high_score, 9);
    assert_eq!(state, GameState::GameOver);
    assert!(!end_frame(&mut state, Inputs { player_dead: true, ..quiet }, 20, &mut progress));
    assert_eq!(progress.high_score, 9);
}
