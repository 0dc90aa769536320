//! One simulation tick over the entity store: motion, force field, wrap,
//! collision detection, knockback, damage, and the journal flush.
use vstd::prelude::*;

use crate::boundary::{ensure_wrapping, exit_despawns, wrap_entry};
use crate::collision::{detect, ensure_damage, HitEvent};
use crate::components::Body;
use crate::enemy::{dead_enemies, enemy_hits};
use crate::player::player_health_pass;
use crate::projectile::{on_hurt, spent_projectiles};
use crate::xp::{absorb, xp_absorbtion};
use crate::entity::{all_wf, find_player, snapshot_wf, sole_player, unique_ids, Entry};
use crate::fixed::MAX_DT;
use crate::journal::{Command, Journal};
use crate::knockback::{apply_knockback, knockback_pass};
use crate::physics::{apply_motion, apply_physics, moved_entry, physics_pass};
use crate::store::{
    applied, bodies, entries_map, flush, lemma_index_of, lemma_index_of_found, snapshot,
    snapshot_of, write_back,
};

verus! {

/// Why a tick did not run.
#[derive(Clone, Copy, Debug, PartialEq, Eq, Structural)]
pub enum TickError {
    /// Some entity's components are outside their limits.
    InvalidBody,
    /// The store does not hold exactly one player, or that player has no health.
    NoSinglePlayer,
}

/// Every body of the store is within its limits.
pub open spec fn map_wf(m: Map<u64, Body>) -> bool {
    forall|id: u64| #[trigger] m.contains_key(id) ==> m[id].wf()
}

/// The store holds exactly one player, and that player has health.
pub open spec fn has_sole_player(m: Map<u64, Body>) -> bool {
    exists|id: u64|
        #[trigger] m.contains_key(id) && m[id].player is Some && m[id].health is Some && forall|
            j: u64,
        | #[trigger] m.contains_key(j) && j != id ==> m[j].player is None
}

/// Entry `pi` is the sole player, and it has health.
pub open spec fn sole_healthy_player(s: Seq<Entry>, pi: int) -> bool {
    sole_player(s, pi) && s[pi].body.health is Some
}

/// The entities after the first passes of a tick of `dt` milliseconds:
/// motion, then the force field, then the wrap.
#[verifier::opaque]
pub open spec fn early_spec(s: Seq<Entry>, dt: nat) -> Seq<Entry> {
    physics_pass(s.map_values(|e: Entry| moved_entry(e, dt as int)), dt).map_values(
        |e: Entry| wrap_entry(e),
    )
}

/// Destructions requested by the first passes: entities well outside the field.
#[verifier::opaque]
pub open spec fn early_commands(s: Seq<Entry>, dt: nat) -> Seq<Command> {
    exit_despawns(physics_pass(s.map_values(|e: Entry| moved_entry(e, dt as int)), dt))
}

/// The entities, events and requested changes of the last passes over `s`,
/// whose player is `s[pi]`: collision detection, knockback, the player's and
/// the enemies' damage (with destruction of dead enemies), spent projectiles
/// and absorbed orbs.
#[verifier::opaque]
pub open spec fn late_spec(s: Seq<Entry>, pi: int, dt: nat) -> (Seq<Entry>, Seq<HitEvent>, Seq<
    Command,
>) {
    let evs = detect(s, s);
    let s4 = knockback_pass(s, evs);
    let s5 = player_health_pass(s4, pi, evs, dt);
    let s6 = enemy_hits(s5, evs);
    let ab = absorb(s6, pi, evs);
    (ab.0, evs, dead_enemies(s6) + spent_projectiles(s6, evs) + ab.1)
}

/// The entities, the events and the requested changes after one tick of `dt`
/// milliseconds over the snapshot `s` whose player is `s[pi]`.
#[verifier::opaque]
pub open spec fn tick_spec(s: Seq<Entry>, pi: int, dt: nat) -> (Seq<Entry>, Seq<HitEvent>, Seq<
    Command,
>) {
    let l = late_spec(early_spec(s, dt), pi, dt);
    (l.0, l.1, early_commands(s, dt) + l.2)
}

/// For a snapshot, validity of every entry and of every stored body agree,
/// and so do having exactly one player.
proof fn lemma_snapshot_predicates(s: Seq<Entry>, m: Map<u64, Body>)
    requires
        snapshot_of(s, m),
    ensures
        all_wf(s) <==> map_wf(m),
        (exists|pi: int| sole_healthy_player(s, pi)) <==> has_sole_player(m),
{
    if all_wf(s) {
        assert forall|id: u64| #[trigger] m.contains_key(id) implies m[id].wf() by {
            lemma_index_of_found(s, id);
            let k = crate::entity::index_of(s, id).unwrap();
            assert(s[k].body.wf());
        }
    }
    if map_wf(m) {
        assert forall|k: int| 0 <= k < s.len() implies (#[trigger] s[k]).body.wf() by {
            lemma_index_of(s, k);
            assert(m.contains_key(s[k].id));
        }
    }
    if exists|pi: int| sole_healthy_player(s, pi) {
        let pi = choose|pi: int| sole_healthy_player(s, pi);
        let id = s[pi].id;
        lemma_index_of(s, pi);
        assert(m.contains_key(id));
        assert forall|j: u64| #[trigger] m.contains_key(j) && j != id implies m[j].player is None by {
            lemma_index_of_found(s, j);
            let k = crate::entity::index_of(s, j).unwrap();
            assert(s[k].id == j);
            assert(k != pi);
        }
    }
    if has_sole_player(m) {
        let id = choose|id: u64|
            #[trigger] m.contains_key(id) && m[id].player is Some && m[id].health is Some && forall|
                j: u64,
            | #[trigger] m.contains_key(j) && j != id ==> m[j].player is None;
        lemma_index_of_found(s, id);
        let pi = crate::entity::index_of(s, id).unwrap();
        assert forall|k: int| 0 <= k < s.len() && k != pi implies (#[trigger] s[k]).body.player is None by {
            assert(s[k].id != s[pi].id);
            lemma_index_of(s, k);
            assert(m.contains_key(s[k].id));
        }
        assert(sole_healthy_player(s, pi));
    }
}

/// Two snapshots with the same identities at the same places describe the
/// same set of identities.
proof fn lemma_same_ids(a: Seq<Entry>, b: Seq<Entry>)
    requires
        unique_ids(a),
        a.len() == b.len(),
        forall|k: int| 0 <= k < a.len() ==> (#[trigger] b[k]).id == a[k].id,
    ensures
        unique_ids(b),
        entries_map(b).dom() == entries_map(a).dom(),
{
    assert forall|p: int, q: int| 0 <= p < b.len() && 0 <= q < b.len() && p != q implies b[p].id
        != b[q].id by {
        assert(b[p].id == a[p].id && b[q].id == a[q].id);
    }
    assert forall|id: u64| #[trigger] entries_map(b).contains_key(id) <==> entries_map(a).contains_key(
        id,
    ) by {
        if entries_map(b).contains_key(id) {
            lemma_index_of_found(b, id);
            let k = crate::entity::index_of(b, id).unwrap();
            assert(a[k].id == id);
        }
        if entries_map(a).contains_key(id) {
            lemma_index_of_found(a, id);
            let k = crate::entity::index_of(a, id).unwrap();
            assert(b[k].id == id);
        }
    }
    assert(entries_map(b).dom() =~= entries_map(a).dom());
}

/// Keeping every entry's player component keeps the sole player.
proof fn lemma_players_kept(a: Seq<Entry>, b: Seq<Entry>, pi: int)
    requires
        sole_player(a, pi),
        a.len() == b.len(),
        forall|k: int| 0 <= k < a.len() ==> (#[trigger] b[k]).body.player == a[k].body.player,
    ensures
        sole_player(b, pi),
{
    assert(b[pi].body.player == a[pi].body.player);
    assert forall|k: int| 0 <= k < b.len() && k != pi implies (#[trigger] b[k]).body.player is None by {
        assert(a[k].body.player is None);
    }
}

/// Runs motion, the force field and the wrap.
fn early_passes(entries: &mut Vec<Entry>, journal: &mut Journal, dt: u32)
    requires
        snapshot_wf(old(entries)@),
        dt <= MAX_DT,
    ensures
        final(entries)@ == early_spec(old(entries)@, dt as nat),
        final(journal)@ == old(journal)@ + early_commands(old(entries)@, dt as nat),
        snapshot_wf(final(entries)@),
        final(entries)@.len() == old(entries)@.len(),
        forall|q: int|
            0 <= q < old(entries)@.len() ==> (#[trigger] final(entries)@[q]).id == old(entries)@[q].id
                && final(entries)@[q].body.player == old(entries)@[q].body.player
                && final(entries)@[q].body.health == old(entries)@[q].body.health,
{
    let ghost s = entries@;
    proof {
        reveal(early_spec);
        reveal(early_commands);
    }
    apply_motion(entries, dt);
    let ghost s1 = entries@;
    proof {
        assert forall|q: int| 0 <= q < s.len() implies (#[trigger] s1[q]).id == s[q].id
            && s1[q].body.player == s[q].body.player && s1[q].body.health == s[q].body.health by {
            assert(s1[q] == moved_entry(s[q], dt as int));
        }
    }
    apply_physics(entries, dt);
    let ghost s2 = entries@;
    proof {
        let d = s1.map_values(|e: Entry| crate::physics::damped_entry(e, dt as nat));
        assert forall|q: int| 0 <= q < s.len() implies (#[trigger] s2[q]).id == s[q].id
            && s2[q].body.player == s[q].body.player && s2[q].body.health == s[q].body.health by {
            assert(d[q] == crate::physics::damped_entry(s1[q], dt as nat));
            assert(s2[q] == crate::physics::charged_entry(d[q], d, dt as nat));
        }
    }
    ensure_wrapping(entries, journal);
    let ghost s3 = entries@;
    proof {
        assert forall|q: int| 0 <= q < s.len() implies (#[trigger] s3[q]).id == s[q].id
            && s3[q].body.player == s[q].body.player && s3[q].body.health == s[q].body.health by {
            assert(s3[q] == wrap_entry(s2[q]));
        }
        lemma_same_ids(s, s3);
    }
}

/// Runs collision detection, knockback and the damage resolvers.
fn late_passes(entries: &mut Vec<Entry>, events: &mut Vec<HitEvent>, journal: &mut Journal, dt: u32)
    requires
        snapshot_wf(old(entries)@),
        exists|pi: int| sole_healthy_player(old(entries)@, pi),
        old(events)@ == Seq::<HitEvent>::empty(),
    ensures
        forall|pi: int|
            sole_player(old(entries)@, pi) ==> {
                &&& final(entries)@ == late_spec(old(entries)@, pi, dt as nat).0
                &&& final(events)@ == late_spec(old(entries)@, pi, dt as nat).1
                &&& final(journal)@ == old(journal)@ + late_spec(old(entries)@, pi, dt as nat).2
            },
        unique_ids(final(entries)@),
        final(entries)@.len() == old(entries)@.len(),
        forall|q: int|
            0 <= q < old(entries)@.len() ==> (#[trigger] final(entries)@[q]).id == old(entries)@[q].id,
{
    let ghost s3 = entries@;
    let ghost j0 = journal@;
    proof {
        reveal(late_spec);
    }
    ensure_damage(entries, events);
    proof {
        assert(events@ =~= detect(s3, s3));
    }
    apply_knockback(entries, events);
    let ghost s4 = entries@;
    proof {
        let pi = choose|pi: int| sole_healthy_player(s3, pi);
        lemma_players_kept(s3, s4, pi);
        assert forall|p: int| sole_player(s4, p) implies sole_player(s3, p) by {
            lemma_players_kept(s4, s3, p);
        }
        assert forall|p: int| sole_player(s4, p) implies s4[p].body.health is Some by {
            lemma_players_kept(s4, s3, p);
            if p != pi {
                assert(s3[p].body.player is None);
            }
        }
    }
    crate::player::health(entries, events, dt);
    let ghost s5 = entries@;
    crate::enemy::health(entries, events, journal);
    let ghost s6 = entries@;
    let ghost j6 = journal@;
    proof {
        assert forall|p: int| sole_player(s5, p) implies sole_player(s6, p) by {
            lemma_players_kept(s5, s6, p);
        }
    }
    on_hurt(entries, events, journal);
    xp_absorbtion(entries, events, journal);
    proof {
        assert forall|pi: int| sole_player(s3, pi) implies {
            &&& entries@ == late_spec(s3, pi, dt as nat).0
            &&& journal@ == j0 + late_spec(s3, pi, dt as nat).2
        } by {
            lemma_players_kept(s3, s4, pi);
            assert(s5 == player_health_pass(s4, pi, events@, dt as nat));
            lemma_players_kept(s5, s6, pi);
            assert(journal@ =~= j0 + late_spec(s3, pi, dt as nat).2);
        }
    }
}

/// Whether every entry's components are within their limits.
fn all_valid(entries: &Vec<Entry>) -> (r: bool)
    ensures
        r == all_wf(entries@),
{
    let mut k: usize = 0;
    while k < entries.len()
        invariant
            k <= entries@.len(),
            forall|q: int| 0 <= q < k ==> (#[trigger] entries@[q]).body.wf(),
        decreases entries@.len() - k,
    {
        if !entries[k].body.check() {
            proof {
                assert(!entries@[k as int].body.wf());
            }
            return false;
        }
        k = k + 1;
    }
    true
}

/// Runs one tick of `dt` milliseconds on the store. The event bus is cleared
/// first and then holds this tick's collisions; the journal's requested
/// changes, those queued before the tick and those the tick adds, are
/// applied to the store at the end. Returns the player's components.
///
/// A tick lasts at most `MAX_DT` (one second): the fixed-point arithmetic
/// is bounded for that span, so a longer frame must be run as several ticks.
///
/// Fails, changing neither the store nor the journal, when some body is
/// outside its limits or when the store does not hold exactly one player.
#[verifier::rlimit(40)]
pub fn tick(world: &mut hecs::World, events: &mut Vec<HitEvent>, journal: &mut Journal, dt: u32) -> (r:
    Result<Body, TickError>)
    requires
        dt <= MAX_DT,
    ensures
        r == Err::<Body, TickError>(TickError::InvalidBody) <==> !map_wf(bodies(*old(world))),
        r == Err::<Body, TickError>(TickError::NoSinglePlayer) <==> map_wf(bodies(*old(world)))
            && !has_sole_player(bodies(*old(world))),
        r is Err ==> bodies(*final(world)) == bodies(*old(world)) && final(journal)@ == old(
            journal,
        )@ && final(events)@ == Seq::<HitEvent>::empty(),
        r is Ok ==> exists|s: Seq<Entry>, pi: int|
            {
                &&& snapshot_of(s, bodies(*old(world)))
                &&& sole_healthy_player(s, pi)
                &&& final(events)@ == tick_spec(s, pi, dt as nat).1
                &&& applied(
                    entries_map(tick_spec(s, pi, dt as nat).0),
                    old(journal)@ + tick_spec(s, pi, dt as nat).2,
                    bodies(*final(world)),
                )
                &&& r == Ok::<Body, TickError>(tick_spec(s, pi, dt as nat).0[pi].body)
            },
        r is Ok ==> final(journal)@ == Seq::<Command>::empty(),
{
    events.clear();
    let mut entries = snapshot(world);
    proof {
        assert(bodies(*world) == bodies(*old(world)));
    }
    let ghost s = entries@;
    let ghost m = bodies(*world);
    proof {
        lemma_snapshot_predicates(s, m);
    }
    if !all_valid(&entries) {
        proof {
            lemma_snapshot_predicates(s, m);
        }
        return Err(TickError::InvalidBody);
    }
    proof {
        lemma_snapshot_predicates(s, m);
    }
    let pi = match find_player(&entries) {
        Some(i) => i,
        None => {
            return Err(TickError::NoSinglePlayer);
        },
    };
    if entries[pi].body.health.is_none() {
        proof {
            assert forall|i: int| !sole_healthy_player(s, i) by {
                if sole_healthy_player(s, i) && i != pi as int {
                    assert(s[i].body.player is None);
                }
            }
        }
        return Err(TickError::NoSinglePlayer);
    }
    let ghost j0 = journal@;
    early_passes(&mut entries, journal, dt);
    let ghost s3 = entries@;
    let ghost j3 = journal@;
    proof {
        assert(sole_healthy_player(s, pi as int));
        lemma_players_kept(s, s3, pi as int);
        assert(s3[pi as int].body.health == s[pi as int].body.health);
        assert(sole_healthy_player(s3, pi as int));
    }
    late_passes(&mut entries, events, journal, dt);
    let ghost s7 = entries@;
    proof {
        reveal(tick_spec);
        assert(s7 == tick_spec(s, pi as int, dt as nat).0);
        assert(journal@ =~= j0 + tick_spec(s, pi as int, dt as nat).2);
        assert forall|q: int| 0 <= q < s.len() implies (#[trigger] s7[q]).id == s[q].id by {
            assert(s7[q].id == s3[q].id);
        }
        lemma_same_ids(s, s7);
        assert(has_sole_player(m));
    }
    let player = entries[pi].body;
    write_back(world, &entries);
    flush(world, journal);
    Ok(player)
}

} // verus!
