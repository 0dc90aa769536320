//! Experience orbs are absorbed into the player on contact.
use vstd::prelude::*;

use crate::collision::HitEvent;
use crate::components::{Body, Player};
use crate::damage::{find_sole_player, lemma_update_keeps};
use crate::entity::{all_wf, find, index_of, sole_player, unique_ids, Entry};
use crate::journal::{Command, Journal};

verus! {

/// Score after absorbing an orb, saturating at the largest score.
pub open spec fn xp_after(xp: u32, amount: u32) -> u32 {
    if xp + amount > u32::MAX {
        u32::MAX
    } else {
        (xp + amount) as u32
    }
}

/// One event's absorption: when the player `s[pi]` is touched by an
/// experience orb, the player gains the orb's amount and the orb is destroyed.
pub open spec fn absorb_one(s: Seq<Entry>, pi: int, ev: HitEvent) -> (Seq<Entry>, bool) {
    if ev.who == s[pi].id {
        match index_of(s, ev.by) {
            Some(o) => match s[o].body.xp_orb {
                Some(orb) => {
                    let pb = s[pi].body;
                    let p = pb.player.unwrap();
                    let nb = Body { player: Some(Player { xp: xp_after(p.xp, orb.amount), ..p }), ..pb };
                    (s.update(pi, Entry { id: s[pi].id, body: nb }), true)
                },
                None => (s, false),
            },
            None => (s, false),
        }
    } else {
        (s, false)
    }
}

/// The entities and requested destructions after every event, in order, is
/// checked for an orb touching the player.
pub open spec fn absorb(s: Seq<Entry>, pi: int, evs: Seq<HitEvent>) -> (Seq<Entry>, Seq<Command>)
    decreases evs.len(),
{
    if evs.len() == 0 {
        (s, Seq::empty())
    } else {
        let prev = absorb(s, pi, evs.drop_last());
        let step = absorb_one(prev.0, pi, evs.last());
        if step.1 {
            (step.0, prev.1.push(Command::Despawn(evs.last().by)))
        } else {
            (step.0, prev.1)
        }
    }
}

/// Absorbs into the player every experience orb that touches it: the score
/// grows by the orb's amount and the orb is scheduled for destruction.
pub fn xp_absorbtion(entries: &mut Vec<Entry>, events: &Vec<HitEvent>, journal: &mut Journal)
    requires
        unique_ids(old(entries)@),
        all_wf(old(entries)@),
        exists|i: int| sole_player(old(entries)@, i),
    ensures
        forall|i: int|
            sole_player(old(entries)@, i) ==> {
                &&& final(entries)@ == absorb(old(entries)@, i, events@).0
                &&& final(journal)@ == old(journal)@ + absorb(old(entries)@, i, events@).1
            },
        unique_ids(final(entries)@),
        all_wf(final(entries)@),
        final(entries)@.len() == old(entries)@.len(),
        forall|k: int| 0 <= k < old(entries)@.len() ==> (#[trigger] final(entries)@[k]).id == old(
            entries,
        )@[k].id,
        forall|i: int| sole_player(old(entries)@, i) ==> sole_player(final(entries)@, i),
{
    let ghost s0 = entries@;
    let pi = match find_sole_player(entries) {
        Some(i) => i,
        None => {
            return ;
        },
    };
    proof {
        assert forall|i: int| sole_player(s0, i) implies i == pi as int by {
            if i != pi as int {
                assert(s0[i].body.player is None);
            }
        }
    }
    let mut i: usize = 0;
    while i < events.len()
        invariant
            i <= events@.len(),
            pi < entries@.len(),
            entries@ == absorb(s0, pi as int, events@.take(i as int)).0,
            journal@ == old(journal)@ + absorb(s0, pi as int, events@.take(i as int)).1,
            unique_ids(entries@),
            all_wf(entries@),
            sole_player(entries@, pi as int),
            entries@.len() == s0.len(),
            forall|k: int| 0 <= k < s0.len() ==> (#[trigger] entries@[k]).id == s0[k].id,
        decreases events@.len() - i,
    {
        let ev = events[i];
        let ghost before = entries@;
        proof {
            assert(events@.take(i as int + 1).drop_last() =~= events@.take(i as int));
            assert(events@.take(i as int + 1).last() == ev);
        }
        let pe = entries[pi];
        if ev.who == pe.id {
            if let Some(o) = find(entries, ev.by) {
                if let Some(orb) = entries[o].body.xp_orb {
                    let pl = pe.body.player.unwrap();
                    let nb = Body {
                        player: Some(Player { xp: pl.xp.saturating_add(orb.amount), ..pl }),
                        ..pe.body
                    };
                    proof {
                        assert(before[pi as int].body.wf());
                        lemma_update_keeps(before, pi as int, Entry { id: pe.id, body: nb }, pi as int);
                    }
                    entries.set(pi, Entry { id: pe.id, body: nb });
                    journal.despawn(ev.by);
                }
            }
        }
        proof {
            assert(entries@ =~= absorb_one(before, pi as int, ev).0);
        }
        i = i + 1;
    }
    proof {
        assert(events@.take(events@.len() as int) =~= events@);
    }
}

} // verus!
