use magnet_fury::collision::HitEvent;
use magnet_fury::components::{
    Body, DamageDealer, Enemy, Health, HitBox, HurtBox, PhysicsMotion, Player, Position, Projectile,
};
use magnet_fury::fixed::{Vec2, COORD_LIMIT};
use magnet_fury::journal::Journal;
use magnet_fury::store::{flush, snapshot, write_back};
use magnet_fury::team::Team;
use magnet_fury::tick::{tick, TickError};

const U: i64 = 1_000_000;

fn player_at(x: i64, y: i64) -> Body {
    let mut b = Body::new();
    b.pos = Some(Position { x, y });
    b.player = Some(Player::new());
    b.team = Some(Team::Player);
    b.hit_box = Some(HitBox { radius: 7 * U });
    b.health = Some(Health { max_hp: 10 * U, hp: 10 * U });
    b
}

fn enemy_at(x: i64, y: i64) -> Body {
    let mut b = Body::new();
    b.pos = Some(Position { x, y });
    b.enemy = Some(Enemy);
    b.team = Some(Team::Enemy);
    b.hurt_box = Some(HurtBox { radius: 10 * U });
    b.damage = Some(DamageDealer { dmg: 2 * U });
    b
}

fn body_of(world: &hecs::World, e: hecs::Entity) -> Body {
    *world.get::<&Body>(e).unwrap()
}

#[test]
fn end_to_end_hit_and_invulnerability() {
    let mut world = hecs::World::new();
    let player = world.spawn((player_at(0, 0),));
    let enemy = world.spawn((enemy_at(5 * U, 0),));
    let mut events = Vec::new();
    let mut journal = Journal::new();

    let r = tick(&mut world, &mut events, &mut journal, 16).unwrap();
    let p = player.to_bits().get();
    let e = enemy.to_bits().get();
    assert_eq!(events, vec![HitEvent { who: p, by: e, can_hurt: true }]);
    assert_eq!(r.health.unwrap().hp, 8 * U);
    assert_eq!(r.player.unwrap().invul_timer, 1000);
    assert_eq!(body_of(&world, player).health.unwrap().hp, 8 * U);

    let r2 = tick(&mut world, &mut events, &mut journal, 16).unwrap();
    assert_eq!(events, vec![HitEvent { who: p, by: e, can_hurt: true }]);
    assert_eq!(r2.health.unwrap().hp, 8 * U);
    assert_eq!(body_of(&world, player).health.unwrap().hp, 8 * U);
    assert_eq!(body_of(&world, player).player.unwrap().invul_timer, 984);
}

#[test]
fn tick_requires_exactly_one_player() {
    let mut world = hecs::World::new();
    world.spawn((enemy_at(0, 0),));
    let mut events = vec![HitEvent { who: 1, by: 2, can_hurt: true }];
    let mut journal = Journal::new();
    assert_eq!(tick(&mut world, &mut events, &mut journal, 16), Err(TickError::NoSinglePlayer));
    assert!(events.is_empty());
    world.spawn((player_at(0, 0),));
    world.spawn((player_at(9 * U, 0),));
    assert_eq!(tick(&mut world, &mut events, &mut journal, 16), Err(TickError::NoSinglePlayer));
}

#[test]
fn tick_rejects_invalid_bodies() {
    let mut world = hecs::World::new();
    world.spawn((player_at(0, 0),));
    let mut bad = enemy_at(0, 0);
    bad.pos = Some(Position { x: COORD_LIMIT + 1, y: 0 });
    let e = world.spawn((bad,));
    let mut events = Vec::new();
    let mut journal = Journal::new();
    assert_eq!(tick(&mut world, &mut events, &mut journal, 16), Err(TickError::InvalidBody));
    assert_eq!(body_of(&world, e), bad);
}

#[test]
fn tick_moves_bodies_in_the_store() {
    let mut world = hecs::World::new();
    let mut p = player_at(100 * U, 100 * U);
    p.physics = Some(PhysicsMotion { vel: Vec2 { x: 1_000, y: -2_000 }, mass: 10 });
    let pe = world.spawn((p,));
    let mut events = Vec::new();
    let mut journal = Journal::new();
    tick(&mut world, &mut events, &mut journal, 10).unwrap();
    assert_eq!(body_of(&world, pe).pos, Some(Position { x: 100 * U + 10_000, y: 100 * U - 20_000 }));
}

#[test]
fn dead_enemies_and_spent_shots_leave_the_store() {
    let mut world = hecs::World::new();
    world.spawn((player_at(500 * U, 500 * U),));
    let mut victim = enemy_at(0, 0);
    victim.hurt_box = None;
    victim.hit_box = Some(HitBox { radius: U });
    victim.health = Some(Health { max_hp: U, hp: U });
    let v = world.spawn((victim,));
    let mut shot = Body::new();
    shot.pos = Some(Position { x: U, y: 0 });
    shot.team = Some(Team::Player);
    shot.hurt_box = Some(HurtBox { radius: U });
    shot.damage = Some(DamageDealer { dmg: 2 * U });
    shot.projectile = Some(Projectile);
    let s = world.spawn((shot,));
    let mut events = Vec::new();
    let mut journal = Journal::new();
    tick(&mut world, &mut events, &mut journal, 16).unwrap();
    assert!(!world.contains(v));
    assert!(!world.contains(s));
    assert_eq!(world.len(), 1);
}

#[test]
fn journal_spawns_join_the_store() {
    let mut world = hecs::World::new();
    world.spawn((player_at(0, 0),));
    let mut journal = Journal::new();
    journal.spawn(enemy_at(300 * U, 300 * U));
    let mut events = Vec::new();
    tick(&mut world, &mut events, &mut journal, 16).unwrap();
    assert_eq!(world.len(), 2);
    assert!(journal.commands().is_empty());
}

#[test]
fn snapshot_and_write_back_round_trip() {
    let mut world = hecs::World::new();
    let a = world.spawn((player_at(1, 2),));
    let b = world.spawn((enemy_at(3, 4),));
    world.spawn((7u32,));
    let mut entries = snapshot(&mut world);
    assert_eq!(entries.len(), 2);
    for e in entries.iter_mut() {
        if let Some(p) = e.body.pos {
            e.body.pos = Some(Position { x: p.x + 10, y: p.y });
        }
    }
    write_back(&mut world, &entries);
    assert_eq!(body_of(&world, a).pos, Some(Position { x: 11, y: 2 }));
    assert_eq!(body_of(&world, b).pos, Some(Position { x: 13, y: 4 }));
}

#[test]
fn flush_applies_despawns_and_spawns() {
    let mut world = hecs::World::new();
    let a = world.spawn((player_at(1, 2),));
    let mut journal = Journal::new();
    journal.despawn(a.to_bits().get());
    journal.despawn(a.to_bits().get());
    journal.spawn(enemy_at(0, 0));
    flush(&mut world, &mut journal);
    assert!(!world.contains(a));
    assert_eq!(world.len(), 1);
    let entries = snapshot(&mut world);
    assert_eq!(entries[0].body, enemy_at(0, 0));
}

#[test]
fn tick_rejects_player_without_health() {
    let mut world = hecs::World::new();
    let mut p = player_at(0, 0);
    p.health = None;
    world.spawn((p,));
    let mut events = Vec::new();
    let mut journal = Journal::new();
    assert_eq!(tick(&mut world, &mut events, &mut journal, 16), Err(TickError::NoSinglePlayer));
}

#[test]
fn death_is_health_at_most_zero() {
    let mut p = player_at(0, 0);
    assert!(!p.is_dead());
    p.health = Some(Health { max_hp: 10, hp: 0 });
    assert!(p.is_dead());
    p.health = None;
    assert!(!p.is_dead());
}
