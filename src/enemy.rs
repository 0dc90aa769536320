//! The generic enemies' damage resolver: no invulnerability, and immediate
//! destruction once health is gone.
use vstd::prelude::*;

use crate::collision::HitEvent;
use crate::components::{Body, Health};
use crate::damage::{hp_after_damage, lemma_health_update_keeps, take_damage};
use crate::entity::{all_wf, find, index_of, unique_ids, Entry};
use crate::journal::{Command, Journal};

verus! {

/// The entities after one event reaches the enemies: a hit that can hurt on
/// an enemy with health, from an attacker with a damage dealer, lowers the
/// enemy's health by the damage.
pub open spec fn enemy_hit(s: Seq<Entry>, ev: HitEvent) -> Seq<Entry> {
    if !ev.can_hurt {
        s
    } else {
        match (index_of(s, ev.who), index_of(s, ev.by)) {
            (Some(v), Some(a)) => match (s[v].body.enemy, s[v].body.health, s[a].body.damage) {
                (Some(_), Some(h), Some(d)) => s.update(
                    v,
                    Entry {
                        id: s[v].id,
                        body: Body {
                            health: Some(
                                Health { hp: hp_after_damage(h.hp as int, d.dmg as int) as i64, ..h },
                            ),
                            ..s[v].body
                        },
                    },
                ),
                _ => s,
            },
            _ => s,
        }
    }
}

/// The entities after every event, in order, reaches the enemies.
pub open spec fn enemy_hits(s: Seq<Entry>, evs: Seq<HitEvent>) -> Seq<Entry>
    decreases evs.len(),
{
    if evs.len() == 0 {
        s
    } else {
        enemy_hit(enemy_hits(s, evs.drop_last()), evs.last())
    }
}

/// Whether an entity is a dead enemy: an enemy whose health is at most zero.
pub open spec fn dead_enemy(b: Body) -> bool {
    b.enemy is Some && (b.health matches Some(h) && h.hp <= 0)
}

/// Destructions of the dead enemies of `s`, in order.
pub open spec fn dead_enemies(s: Seq<Entry>) -> Seq<Command>
    decreases s.len(),
{
    if s.len() == 0 {
        Seq::empty()
    } else if dead_enemy(s.last().body) {
        dead_enemies(s.drop_last()).push(Command::Despawn(s.last().id))
    } else {
        dead_enemies(s.drop_last())
    }
}

/// Resolves enemy damage: every hit that can hurt lowers the victim enemy's
/// health by the attacker's damage; then every enemy at or below zero health
/// is scheduled for destruction.
pub fn health(entries: &mut Vec<Entry>, events: &Vec<HitEvent>, journal: &mut Journal)
    requires
        unique_ids(old(entries)@),
        all_wf(old(entries)@),
    ensures
        final(entries)@ == enemy_hits(old(entries)@, events@),
        final(journal)@ == old(journal)@ + dead_enemies(final(entries)@),
        unique_ids(final(entries)@),
        all_wf(final(entries)@),
        final(entries)@.len() == old(entries)@.len(),
        forall|k: int| 0 <= k < old(entries)@.len() ==> (#[trigger] final(entries)@[k]).id == old(
            entries,
        )@[k].id,
        forall|k: int|
            0 <= k < old(entries)@.len() ==> (#[trigger] final(entries)@[k]).body.player == old(
                entries,
            )@[k].body.player,
{
    let ghost s0 = entries@;
    let mut i: usize = 0;
    while i < events.len()
        invariant
            i <= events@.len(),
            entries@ == enemy_hits(s0, events@.take(i as int)),
            unique_ids(entries@),
            all_wf(entries@),
            entries@.len() == s0.len(),
            forall|k: int| 0 <= k < s0.len() ==> (#[trigger] entries@[k]).id == s0[k].id,
            forall|k: int| 0 <= k < s0.len() ==> (#[trigger] entries@[k]).body.player == s0[k].body.player,
        decreases events@.len() - i,
    {
        let ev = events[i];
        let ghost before = entries@;
        proof {
            assert(events@.take(i as int + 1).drop_last() =~= events@.take(i as int));
            assert(events@.take(i as int + 1).last() == ev);
        }
        if ev.can_hurt {
            if let (Some(v), Some(a)) = (find(entries, ev.who), find(entries, ev.by)) {
                let vb = entries[v].body;
                if let (Some(_), Some(h), Some(d)) = (vb.enemy, vb.health, entries[a].body.damage) {
                    let nb = Body { health: Some(take_damage(h, d.dmg)), ..vb };
                    let id = entries[v].id;
                    proof {
                        assert(before[v as int].body.wf());
                        lemma_health_update_keeps(before, v as int, Entry { id, body: nb });
                    }
                    entries.set(v, Entry { id, body: nb });
                }
            }
        }
        proof {
            assert(entries@ =~= enemy_hit(before, ev));
        }
        i = i + 1;
    }
    proof {
        assert(events@.take(events@.len() as int) =~= events@);
    }
    let ghost s1 = entries@;
    let mut j: usize = 0;
    while j < entries.len()
        invariant
            entries@ == s1,
            j <= s1.len(),
            journal@ == old(journal)@ + dead_enemies(s1.take(j as int)),
        decreases s1.len() - j,
    {
        proof {
            assert(s1.take(j as int + 1).drop_last() =~= s1.take(j as int));
            assert(s1.take(j as int + 1).last() == s1[j as int]);
        }
        let b = entries[j].body;
        if let (Some(_), Some(h)) = (b.enemy, b.health) {
            if h.hp <= 0 {
                journal.despawn(entries[j].id);
            }
        }
        j = j + 1;
    }
    proof {
        assert(s1.take(s1.len() as int) =~= s1);
    }
}

} // verus!
