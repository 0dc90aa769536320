//! Projectiles vanish after a hit that can hurt.
use vstd::prelude::*;

use crate::collision::HitEvent;
use crate::entity::Entry;
use crate::journal::{Command, Journal};

verus! {

/// Whether some event that can hurt has `id` as its attacker.
pub open spec fn hurt_by(evs: Seq<HitEvent>, id: u64) -> bool {
    exists|k: int| 0 <= k < evs.len() && evs[k].can_hurt && evs[k].by == id
}

/// Destructions of the projectiles of `s` that hurt something, in order.
pub open spec fn spent_projectiles(s: Seq<Entry>, evs: Seq<HitEvent>) -> Seq<Command>
    decreases s.len(),
{
    if s.len() == 0 {
        Seq::empty()
    } else if s.last().body.projectile is Some && hurt_by(evs, s.last().id) {
        spent_projectiles(s.drop_last(), evs).push(Command::Despawn(s.last().id))
    } else {
        spent_projectiles(s.drop_last(), evs)
    }
}

/// Schedules for destruction every projectile that hit something it can
/// hurt, once each.
pub fn on_hurt(entries: &Vec<Entry>, events: &Vec<HitEvent>, journal: &mut Journal)
    ensures
        final(journal)@ == old(journal)@ + spent_projectiles(entries@, events@),
{
    let ghost s = entries@;
    let mut j: usize = 0;
    while j < entries.len()
        invariant
            s == entries@,
            j <= s.len(),
            journal@ == old(journal)@ + spent_projectiles(s.take(j as int), events@),
        decreases s.len() - j,
    {
        proof {
            assert(s.take(j as int + 1).drop_last() =~= s.take(j as int));
            assert(s.take(j as int + 1).last() == s[j as int]);
        }
        if entries[j].body.projectile.is_some() {
            let id = entries[j].id;
            let mut k: usize = 0;
            let mut hit = false;
            while k < events.len()
                invariant
                    k <= events@.len(),
                    hit == exists|q: int| 0 <= q < k && events@[q].can_hurt && events@[q].by == id,
                decreases events@.len() - k,
            {
                if events[k].can_hurt && events[k].by == id {
                    hit = true;
                }
                k = k + 1;
            }
            if hit {
                journal.despawn(id);
            }
        }
        j = j + 1;
    }
    proof {
        assert(s.take(s.len() as int) =~= s);
    }
}

} // verus!
