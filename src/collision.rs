//! Collision detection: brute-force circle overlap between the entities that
//! can be hit and those that hit, producing one event per overlapping pair.
use vstd::prelude::*;

use crate::components::{HitBox, HurtBox, Position};
use crate::entity::{snapshot_wf, unique_ids, Entry};
use crate::fixed::norm2;

verus! {

/// A collision: `who` (with a hit box) was touched by `by` (with a hurt box).
/// `can_hurt` is fixed at detection from the two teams.
#[derive(Clone, Copy, Debug, PartialEq, Eq, Structural)]
pub struct HitEvent {
    pub who: u64,
    pub by: u64,
    pub can_hurt: bool,
}

/// Whether circles of radius `ra` at `a` and radius `rb` at `b` overlap: the
/// squared distance of the centers is below the squared sum of the radii.
pub open spec fn overlap(a: Position, ra: int, b: Position, rb: int) -> bool {
    norm2(a.x - b.x, a.y - b.y) < (ra + rb) * (ra + rb)
}

/// Whether a victim's hit box and an attacker's hurt box overlap.
pub fn overlaps(victim: Position, hit: HitBox, attacker: Position, hurt: HurtBox) -> (r: bool)
    requires
        victim.wf(),
        attacker.wf(),
        hit.wf(),
        hurt.wf(),
    ensures
        r == overlap(victim, hit.radius as int, attacker, hurt.radius as int),
{
    let dx = victim.x as i128 - attacker.x as i128;
    let dy = victim.y as i128 - attacker.y as i128;
    let rs = hit.radius as i128 + hurt.radius as i128;
    proof {
        assert(0 <= dx * dx <= 0x10_0000_0000_0000_0000_0000) by (nonlinear_arith)
            requires
                -0x200_0000_0000 <= dx <= 0x200_0000_0000,
        ;
        assert(0 <= dy * dy <= 0x10_0000_0000_0000_0000_0000) by (nonlinear_arith)
            requires
                -0x200_0000_0000 <= dy <= 0x200_0000_0000,
        ;
        assert(0 <= rs * rs <= 0x10_0000_0000_0000_0000_0000) by (nonlinear_arith)
            requires
                0 <= rs <= 0x200_0000_0000,
        ;
    }
    dx * dx + dy * dy < rs * rs
}

/// Whether an entry can be hit: it has a position, a hit box and a team.
pub open spec fn hittable(e: Entry) -> bool {
    e.body.pos is Some && e.body.hit_box is Some && e.body.team is Some
}

/// Whether an entry hits others: it has a position, a hurt box and a team.
pub open spec fn hurting(e: Entry) -> bool {
    e.body.pos is Some && e.body.hurt_box is Some && e.body.team is Some
}

/// The event that victim `v` and attacker `a` produce, if any.
pub open spec fn hit_event(v: Entry, a: Entry) -> Option<HitEvent> {
    if hittable(v) && hurting(a) && overlap(
        v.body.pos.unwrap(),
        v.body.hit_box.unwrap().radius as int,
        a.body.pos.unwrap(),
        a.body.hurt_box.unwrap().radius as int,
    ) {
        Some(
            HitEvent {
                who: v.id,
                by: a.id,
                can_hurt: a.body.team.unwrap() != v.body.team.unwrap(),
            },
        )
    } else {
        None
    }
}

/// Events of victim `v` against each attacker of `s`, in the order of `s`.
pub open spec fn victim_events(v: Entry, s: Seq<Entry>) -> Seq<HitEvent>
    decreases s.len(),
{
    if s.len() == 0 {
        Seq::empty()
    } else {
        let prev = victim_events(v, s.drop_last());
        match hit_event(v, s.last()) {
            Some(e) => prev.push(e),
            None => prev,
        }
    }
}

/// Events of each victim of `vs` against each attacker of `s`: victims in
/// the outer order, attackers in the inner. A victim may meet itself.
pub open spec fn detect(vs: Seq<Entry>, s: Seq<Entry>) -> Seq<HitEvent>
    decreases vs.len(),
{
    if vs.len() == 0 {
        Seq::empty()
    } else {
        detect(vs.drop_last(), s) + victim_events(vs.last(), s)
    }
}

/// Tests every ordered pair (victim, attacker) of `entries` for overlap and
/// appends an event for each overlapping pair to `events`. Pairs of an entity
/// with itself are tested too; resolvers decide what such an event means.
pub fn ensure_damage(entries: &Vec<Entry>, events: &mut Vec<HitEvent>)
    requires
        snapshot_wf(entries@),
    ensures
        final(events)@ == old(events)@ + detect(entries@, entries@),
{
    let ghost s = entries@;
    let n = entries.len();
    let mut i: usize = 0;
    while i < n
        invariant
            n == s.len(),
            s == entries@,
            snapshot_wf(s),
            i <= n,
            events@ == old(events)@ + detect(s.take(i as int), s),
        decreases n - i,
    {
        let v = &entries[i];
        let mut j: usize = 0;
        while j < n
            invariant
                n == s.len(),
                s == entries@,
                snapshot_wf(s),
                i < n,
                j <= n,
                *v == s[i as int],
                events@ == old(events)@ + detect(s.take(i as int), s) + victim_events(
                    s[i as int],
                    s.take(j as int),
                ),
            decreases n - j,
        {
            let a = &entries[j];
            proof {
                assert(s.take(j as int + 1).drop_last() =~= s.take(j as int));
                assert(s.take(j as int + 1).last() == s[j as int]);
                assert(s[i as int].body.wf() && s[j as int].body.wf());
            }
            match (v.body.pos, v.body.hit_box, v.body.team, a.body.pos, a.body.hurt_box, a.body.team) {
                (Some(vp), Some(hb), Some(vt), Some(ap), Some(hu), Some(at)) => {
                    if overlaps(vp, hb, ap, hu) {
                        events.push(HitEvent { who: v.id, by: a.id, can_hurt: at.can_hurt(&vt) });
                    }
                },
                _ => {},
            }
            j = j + 1;
        }
        proof {
            assert(s.take(n as int) =~= s);
            assert(s.take(i as int + 1).drop_last() =~= s.take(i as int));
            assert(s.take(i as int + 1).last() == s[i as int]);
        }
        i = i + 1;
    }
    proof {
        assert(s.take(n as int) =~= s);
    }
}

/// Every event of `victim_events(v, s)` comes from `v` and some attacker of `s`,
/// and every overlapping attacker contributes its event.
proof fn lemma_victim_events_members(v: Entry, s: Seq<Entry>)
    ensures
        forall|e: HitEvent| #[trigger]
            victim_events(v, s).contains(e) ==> exists|j: int|
                0 <= j < s.len() && hit_event(v, s[j]) == Some(e),
        forall|j: int| #![trigger s[j]]
            0 <= j < s.len() && hit_event(v, s[j]) is Some ==> victim_events(v, s).contains(
                hit_event(v, s[j]).unwrap(),
            ),
    decreases s.len(),
{
    if s.len() > 0 {
        let p = s.drop_last();
        lemma_victim_events_members(v, p);
        assert forall|e: HitEvent| #[trigger] victim_events(v, s).contains(e) implies exists|j: int|
            0 <= j < s.len() && hit_event(v, s[j]) == Some(e) by {
            let k = choose|k: int| 0 <= k < victim_events(v, s).len() && victim_events(v, s)[k] == e;
            if k < victim_events(v, p).len() {
                assert(victim_events(v, p)[k] == e);
                assert(victim_events(v, p).contains(e));
                let j = choose|j: int| 0 <= j < p.len() && hit_event(v, p[j]) == Some(e);
                assert(s[j] == p[j]);
            } else {
                assert(hit_event(v, s[s.len() - 1]) == Some(e));
            }
        }
        assert forall|j: int| #![trigger s[j]]
            0 <= j < s.len() && hit_event(v, s[j]) is Some implies victim_events(v, s).contains(
            hit_event(v, s[j]).unwrap(),
        ) by {
            let e = hit_event(v, s[j]).unwrap();
            if j < s.len() - 1 {
                assert(p[j] == s[j]);
                let q = victim_events(v, p);
                assert(q.contains(e));
                let k = choose|k: int| 0 <= k < q.len() && q[k] == e;
                assert(victim_events(v, s)[k] == e);
            } else {
                let q = victim_events(v, s);
                assert(q[q.len() - 1] == e);
            }
        }
    }
}

/// Every event of `detect(vs, s)` comes from a victim of `vs` and an attacker
/// of `s`, and every such overlapping pair contributes its event.
proof fn lemma_detect_members(vs: Seq<Entry>, s: Seq<Entry>)
    ensures
        forall|e: HitEvent| #[trigger]
            detect(vs, s).contains(e) ==> exists|i: int, j: int|
                0 <= i < vs.len() && 0 <= j < s.len() && hit_event(vs[i], s[j]) == Some(e),
        forall|i: int, j: int|
            0 <= i < vs.len() && 0 <= j < s.len() && (#[trigger] hit_event(vs[i], s[j])) is Some
                ==> detect(vs, s).contains(hit_event(vs[i], s[j]).unwrap()),
    decreases vs.len(),
{
    if vs.len() > 0 {
        let p = vs.drop_last();
        let v = vs.last();
        lemma_detect_members(p, s);
        lemma_victim_events_members(v, s);
        let d = detect(vs, s);
        let dp = detect(p, s);
        let ve = victim_events(v, s);
        assert(d == dp + ve);
        assert forall|e: HitEvent| #[trigger] d.contains(e) implies exists|i: int, j: int|
            0 <= i < vs.len() && 0 <= j < s.len() && hit_event(vs[i], s[j]) == Some(e) by {
            let k = choose|k: int| 0 <= k < d.len() && d[k] == e;
            if k < dp.len() {
                assert(dp[k] == e);
                assert(dp.contains(e));
                let (i, j) = choose|i: int, j: int|
                    0 <= i < p.len() && 0 <= j < s.len() && hit_event(p[i], s[j]) == Some(e);
                assert(vs[i] == p[i]);
            } else {
                assert(ve[k - dp.len()] == e);
                assert(ve.contains(e));
                let j = choose|j: int| 0 <= j < s.len() && hit_event(v, s[j]) == Some(e);
                assert(vs[vs.len() - 1] == v);
            }
        }
        assert forall|i: int, j: int|
            0 <= i < vs.len() && 0 <= j < s.len() && (#[trigger] hit_event(vs[i], s[j])) is Some
                implies d.contains(hit_event(vs[i], s[j]).unwrap()) by {
            let e = hit_event(vs[i], s[j]).unwrap();
            if i < vs.len() - 1 {
                assert(p[i] == vs[i]);
                assert(hit_event(p[i], s[j]) is Some);
                assert(dp.contains(e));
                let k = choose|k: int| 0 <= k < dp.len() && dp[k] == e;
                assert(d[k] == e);
            } else {
                assert(s[j] == s[j]);
                assert(ve.contains(e));
                let k = choose|k: int| 0 <= k < ve.len() && ve[k] == e;
                assert(d[dp.len() + k] == e);
            }
        }
    }
}

/// Detection over a snapshot with unique identities: a victim `s[i]` (with a
/// hit box) and an attacker `s[j]` (with a hurt box) produce an event exactly
/// when the squared distance of their centers is below the squared sum of
/// their radii (so touching circles produce none); and every event produced
/// carries `can_hurt` equal to whether the attacker's team differs from the
/// victim's.
pub proof fn lemma_detection_exact(s: Seq<Entry>, i: int, j: int)
    requires
        unique_ids(s),
        0 <= i < s.len(),
        0 <= j < s.len(),
        hittable(s[i]),
        hurting(s[j]),
    ensures
        (exists|e: HitEvent|
            #[trigger] detect(s, s).contains(e) && e.who == s[i].id && e.by == s[j].id) <==> overlap(
            s[i].body.pos.unwrap(),
            s[i].body.hit_box.unwrap().radius as int,
            s[j].body.pos.unwrap(),
            s[j].body.hurt_box.unwrap().radius as int,
        ),
        forall|e: HitEvent| #[trigger]
            detect(s, s).contains(e) && e.who == s[i].id && e.by == s[j].id ==> e.can_hurt == (
            s[j].body.team.unwrap() != s[i].body.team.unwrap()),
{
    lemma_detect_members(s, s);
    assert forall|e: HitEvent| #[trigger]
        detect(s, s).contains(e) && e.who == s[i].id && e.by == s[j].id implies hit_event(s[i], s[j])
        == Some(e) by {
        let (a, b) = choose|a: int, b: int|
            0 <= a < s.len() && 0 <= b < s.len() && hit_event(s[a], s[b]) == Some(e);
        assert(s[a].id == e.who && s[b].id == e.by);
        if a != i {
            assert(s[a].id != s[i].id);
        }
        if b != j {
            assert(s[b].id != s[j].id);
        }
    }
    if hit_event(s[i], s[j]) is Some {
        let e = hit_event(s[i], s[j]).unwrap();
        assert(detect(s, s).contains(e));
    }
}

} // verus!
