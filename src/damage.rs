//! Shared pieces of the damage resolvers, and the gating of damage by the
//! events' `can_hurt` flag.
use vstd::prelude::*;

use crate::collision::HitEvent;
use crate::components::{Health, HP_LIMIT};
use crate::enemy::enemy_hit;
use crate::entity::{all_wf, sole_player, unique_ids, Entry};
use crate::fixed::{clamp, clamp_spec};
use crate::player::player_hit;

verus! {

/// Health after taking `dmg`, saturating at the health limit.
pub open spec fn hp_after_damage(hp: int, dmg: int) -> int {
    clamp_spec(hp - dmg, HP_LIMIT as int)
}

/// Health lowered by a dealer's damage.
pub(crate) fn take_damage(h: Health, dmg: i64) -> (r: Health)
    ensures
        r == (Health { hp: hp_after_damage(h.hp as int, dmg as int) as i64, ..h }),
{
    Health { hp: clamp(h.hp as i128 - dmg as i128, HP_LIMIT), ..h }
}

/// An update of one entry that keeps its identity keeps every lookup and the
/// sole player.
pub(crate) proof fn lemma_update_keeps(s: Seq<Entry>, i: int, e: Entry, pi: int)
    requires
        0 <= i < s.len(),
        e.id == s[i].id,
        unique_ids(s),
        all_wf(s),
        e.body.wf(),
        sole_player(s, pi),
        i == pi ==> e.body.player is Some,
        i != pi ==> e.body.player is None,
    ensures
        unique_ids(s.update(i, e)),
        all_wf(s.update(i, e)),
        sole_player(s.update(i, e), pi),
        forall|k: int| 0 <= k < s.len() ==> (#[trigger] s.update(i, e)[k]).id == s[k].id,
{
    let r = s.update(i, e);
    assert forall|p: int, q: int| 0 <= p < r.len() && 0 <= q < r.len() && p != q implies r[p].id
        != r[q].id by {
        assert(r[p].id == s[p].id && r[q].id == s[q].id);
    }
    assert forall|k: int| 0 <= k < r.len() implies (#[trigger] r[k]).body.wf() by {
        assert(s[k].body.wf());
    }
    assert forall|k: int| 0 <= k < r.len() && k != pi implies (#[trigger] r[k]).body.player is None by {
        assert(s[k].body.player is None);
    }
}

/// The player's index, when there is exactly one player.
pub(crate) fn find_sole_player(entries: &Vec<Entry>) -> (r: Option<usize>)
    requires
        exists|i: int| sole_player(entries@, i),
    ensures
        r matches Some(i) && sole_player(entries@, i as int),
{
    let r = crate::entity::find_player(entries);
    r
}

/// An update of one entry's health keeps identities and validity.
pub(crate) proof fn lemma_health_update_keeps(s: Seq<Entry>, i: int, e: Entry)
    requires
        0 <= i < s.len(),
        e.id == s[i].id,
        unique_ids(s),
        all_wf(s),
        e.body.wf(),
    ensures
        unique_ids(s.update(i, e)),
        all_wf(s.update(i, e)),
        forall|k: int| 0 <= k < s.len() ==> (#[trigger] s.update(i, e)[k]).id == s[k].id,
{
    let r = s.update(i, e);
    assert forall|p: int, q: int| 0 <= p < r.len() && 0 <= q < r.len() && p != q implies r[p].id
        != r[q].id by {
        assert(r[p].id == s[p].id && r[q].id == s[q].id);
    }
    assert forall|k: int| 0 <= k < r.len() implies (#[trigger] r[k]).body.wf() by {
        assert(s[k].body.wf());
    }
}

/// Damage is gated by the event's flag: an event that cannot hurt changes
/// neither the player's nor an enemy's health, whoever took part in it.
pub proof fn lemma_damage_needs_can_hurt(s: Seq<Entry>, pi: int, ev: HitEvent)
    requires
        !ev.can_hurt,
    ensures
        player_hit(s, pi, ev) == s,
        enemy_hit(s, ev) == s,
{
}

} // verus!
