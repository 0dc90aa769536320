//! The knockback resolver: every collision pushes its victim away from a
//! knockback dealer, whatever their teams.
use vstd::prelude::*;

use crate::collision::HitEvent;
use crate::components::{Body, PhysicsMotion};
use crate::entity::{all_wf, find, index_of, unique_ids, Entry};
use crate::fixed::{clamp, clamp_spec, Vec2, VEL_LIMIT};
use crate::motion::{knockback_delta, knockback_velocity_delta};

verus! {

/// The entities after one event's knockback: when the attacker is another
/// entity with a knockback dealer and a position, and the victim has physics
/// motion and a position, the victim's velocity gains one impulse away from
/// the attacker, saturating at the velocity limit. The event's `can_hurt` is
/// not read.
pub open spec fn knock_one(s: Seq<Entry>, ev: HitEvent) -> Seq<Entry> {
    if ev.who == ev.by {
        s
    } else {
        match (index_of(s, ev.by), index_of(s, ev.who)) {
            (Some(a), Some(v)) => {
                let ab = s[a].body;
                let vb = s[v].body;
                match (ab.knockback, ab.pos, vb.physics, vb.pos) {
                    (Some(k), Some(ap), Some(m), Some(vp)) => {
                        let d = knockback_delta(vp, ap, k.force as int, m.mass as int);
                        let vel = Vec2 {
                            x: clamp_spec(m.vel.x + d.0, VEL_LIMIT as int) as i64,
                            y: clamp_spec(m.vel.y + d.1, VEL_LIMIT as int) as i64,
                        };
                        s.update(
                            v,
                            Entry {
                                id: s[v].id,
                                body: Body { physics: Some(PhysicsMotion { vel, ..m }), ..vb },
                            },
                        )
                    },
                    _ => s,
                }
            },
            _ => s,
        }
    }
}

/// The entities after the knockback of every event, in order.
pub open spec fn knockback_pass(s: Seq<Entry>, evs: Seq<HitEvent>) -> Seq<Entry>
    decreases evs.len(),
{
    if evs.len() == 0 {
        s
    } else {
        knock_one(knockback_pass(s, evs.drop_last()), evs.last())
    }
}

/// Two event lists that differ at most in their `can_hurt` flags.
pub open spec fn same_but_flags(a: Seq<HitEvent>, b: Seq<HitEvent>) -> bool {
    &&& a.len() == b.len()
    &&& forall|k: int| 0 <= k < a.len() ==> a[k].who == b[k].who && a[k].by == b[k].by
}

/// Knockback does not depend on whether a collision can hurt: event lists
/// that differ only in their `can_hurt` flags push every entity alike.
pub proof fn lemma_knockback_ignores_teams(s: Seq<Entry>, a: Seq<HitEvent>, b: Seq<HitEvent>)
    requires
        same_but_flags(a, b),
    ensures
        knockback_pass(s, a) == knockback_pass(s, b),
    decreases a.len(),
{
    if a.len() > 0 {
        assert(same_but_flags(a.drop_last(), b.drop_last()));
        lemma_knockback_ignores_teams(s, a.drop_last(), b.drop_last());
        assert(a.last().who == b.last().who && a.last().by == b.last().by);
    }
}

/// One event's knockback keeps every identity and keeps components valid.
proof fn lemma_knock_one_keeps(s: Seq<Entry>, ev: HitEvent)
    requires
        unique_ids(s),
        all_wf(s),
    ensures
        knock_one(s, ev).len() == s.len(),
        forall|k: int| 0 <= k < s.len() ==> (#[trigger] knock_one(s, ev)[k]).id == s[k].id,
        all_wf(knock_one(s, ev)),
{
    let r = knock_one(s, ev);
    assert forall|k: int| 0 <= k < r.len() implies (#[trigger] r[k]).body.wf() by {
        assert(s[k].body.wf());
    }
}

/// Applies knockback for every event, in order: each victim with physics
/// motion is pushed away from an attacker that deals knockback, by one
/// impulse that does not depend on the tick length. Events of an entity with
/// itself, and events whose entities are gone or lack those components, are
/// skipped.
pub fn apply_knockback(entries: &mut Vec<Entry>, events: &Vec<HitEvent>)
    requires
        unique_ids(old(entries)@),
        all_wf(old(entries)@),
    ensures
        final(entries)@ == knockback_pass(old(entries)@, events@),
        unique_ids(final(entries)@),
        all_wf(final(entries)@),
        final(entries)@.len() == old(entries)@.len(),
        forall|k: int| 0 <= k < old(entries)@.len() ==> (#[trigger] final(entries)@[k]).id == old(
            entries,
        )@[k].id,
        forall|k: int|
            0 <= k < old(entries)@.len() ==> (#[trigger] final(entries)@[k]).body.player == old(
                entries,
            )@[k].body.player && final(entries)@[k].body.health == old(entries)@[k].body.health,
{
    let ghost s0 = entries@;
    let mut i: usize = 0;
    while i < events.len()
        invariant
            i <= events@.len(),
            entries@ == knockback_pass(s0, events@.take(i as int)),
            unique_ids(entries@),
            all_wf(entries@),
            entries@.len() == s0.len(),
            forall|k: int| 0 <= k < s0.len() ==> (#[trigger] entries@[k]).id == s0[k].id,
            forall|k: int|
                0 <= k < s0.len() ==> (#[trigger] entries@[k]).body.player == s0[k].body.player
                    && entries@[k].body.health == s0[k].body.health,
        decreases events@.len() - i,
    {
        let ev = events[i];
        let ghost before = entries@;
        proof {
            assert(events@.take(i as int + 1).drop_last() =~= events@.take(i as int));
            assert(events@.take(i as int + 1).last() == ev);
            lemma_knock_one_keeps(before, ev);
        }
        if ev.who != ev.by {
            match (find(entries, ev.by), find(entries, ev.who)) {
                (Some(a), Some(v)) => {
                    let ab = entries[a].body;
                    let vb = entries[v].body;
                    proof {
                        assert(before[a as int].body.wf() && before[v as int].body.wf());
                    }
                    match (ab.knockback, ab.pos, vb.physics, vb.pos) {
                        (Some(k), Some(ap), Some(m), Some(vp)) => {
                            let d = knockback_velocity_delta(vp, ap, k.force, m.mass);
                            let vel = Vec2 {
                                x: clamp(m.vel.x as i128 + d.0, VEL_LIMIT),
                                y: clamp(m.vel.y as i128 + d.1, VEL_LIMIT),
                            };
                            let id = entries[v].id;
                            entries.set(
                                v,
                                Entry {
                                    id,
                                    body: Body { physics: Some(PhysicsMotion { vel, ..m }), ..vb },
                                },
                            );
                        },
                        _ => {},
                    }
                },
                _ => {},
            }
        }
        proof {
            assert(entries@ =~= knock_one(before, ev));
            assert forall|p: int, q: int|
                0 <= p < entries@.len() && 0 <= q < entries@.len() && p != q implies entries@[p].id
                != entries@[q].id by {
                assert(entries@[p].id == before[p].id);
                assert(entries@[q].id == before[q].id);
            }
        }
        i = i + 1;
    }
    proof {
        assert(events@.take(events@.len() as int) =~= events@);
    }
}

} // verus!
