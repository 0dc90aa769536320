//! The player's damage resolver: an invulnerability window after each hit,
//! and regeneration while not invulnerable.
use vstd::prelude::*;

use crate::collision::HitEvent;
use crate::components::{healed, Body, ChargeReceiver, ChargeSender, Health, Player, PER_MILLE};
use crate::damage::{find_sole_player, hp_after_damage, lemma_update_keeps, take_damage};
use crate::entity::{all_wf, find, index_of, sole_player, unique_ids, Entry};

verus! {

/// Milliseconds of invulnerability after the player takes damage.
pub const PLAYER_INVUL_COOLDOWN: u64 = 1000;

/// Health the player regains per millisecond while not invulnerable.
pub const PLAYER_HP_REGEN: u64 = 300;

/// The entities after one event reaches the player `s[pi]`: while the player
/// is not invulnerable, a hit on it that can hurt, from an attacker with a
/// damage dealer, lowers its health by the damage and starts the
/// invulnerability cooldown; anything else changes nothing.
pub open spec fn player_hit(s: Seq<Entry>, pi: int, ev: HitEvent) -> Seq<Entry> {
    let pb = s[pi].body;
    let p = pb.player.unwrap();
    if p.invul_timer == 0 && ev.who == s[pi].id && ev.can_hurt {
        match (pb.health, index_of(s, ev.by)) {
            (Some(h), Some(a)) => match s[a].body.damage {
                Some(d) => s.update(
                    pi,
                    Entry {
                        id: s[pi].id,
                        body: Body {
                            health: Some(
                                Health { hp: hp_after_damage(h.hp as int, d.dmg as int) as i64, ..h },
                            ),
                            player: Some(Player { invul_timer: PLAYER_INVUL_COOLDOWN, ..p }),
                            ..pb
                        },
                    },
                ),
                None => s,
            },
            _ => s,
        }
    } else {
        s
    }
}

/// The entities after every event, in order, reaches the player.
pub open spec fn player_hits(s: Seq<Entry>, pi: int, evs: Seq<HitEvent>) -> Seq<Entry>
    decreases evs.len(),
{
    if evs.len() == 0 {
        s
    } else {
        player_hit(player_hits(s, pi, evs.drop_last()), pi, evs.last())
    }
}

/// The entities after the player's damage pass over `dt` milliseconds: the
/// invulnerability timer counts down (stopping at zero); while it is still
/// running nothing else happens; otherwise the player regenerates, then
/// takes the hits of the events.
pub open spec fn player_health_pass(s: Seq<Entry>, pi: int, evs: Seq<HitEvent>, dt: nat) -> Seq<
    Entry,
> {
    let pb = s[pi].body;
    let p = pb.player.unwrap();
    let t: u64 = if p.invul_timer >= dt {
        (p.invul_timer - dt) as u64
    } else {
        0
    };
    let b1 = Body { player: Some(Player { invul_timer: t, ..p }), ..pb };
    if t > 0 {
        s.update(pi, Entry { id: s[pi].id, body: b1 })
    } else {
        let b2 = match pb.health {
            Some(h) => Body {
                health: Some(
                    Health { hp: healed(h.hp as int, h.max_hp as int, PLAYER_HP_REGEN * dt) as i64, ..h },
                ),
                ..b1
            },
            None => b1,
        };
        player_hits(s.update(pi, Entry { id: s[pi].id, body: b2 }), pi, evs)
    }
}

/// Resolves the player's damage for this tick (the player must have
/// health: a player without it is a broken store, not a case to skip): counts the invulnerability
/// down by `dt`, and when it has run out regenerates health and takes the
/// hits of the events addressed to the player that can hurt; the first such
/// hit restarts the invulnerability, which shields from the rest.
pub fn health(entries: &mut Vec<Entry>, events: &Vec<HitEvent>, dt: u32)
    requires
        unique_ids(old(entries)@),
        all_wf(old(entries)@),
        exists|i: int| sole_player(old(entries)@, i),
        forall|i: int| sole_player(old(entries)@, i) ==> old(entries)@[i].body.health is Some,
    ensures
        forall|i: int|
            sole_player(old(entries)@, i) ==> final(entries)@ == player_health_pass(
                old(entries)@,
                i,
                events@,
                dt as nat,
            ),
        unique_ids(final(entries)@),
        all_wf(final(entries)@),
        final(entries)@.len() == old(entries)@.len(),
        forall|k: int| 0 <= k < old(entries)@.len() ==> (#[trigger] final(entries)@[k]).id == old(
            entries,
        )@[k].id,
        forall|i: int| sole_player(old(entries)@, i) ==> sole_player(final(entries)@, i),
{
    let ghost s0 = entries@;
    let pi = match find_sole_player(entries) {
        Some(i) => i,
        None => {
            return ;
        },
    };
    proof {
        assert forall|i: int| sole_player(s0, i) implies i == pi as int by {
            if i != pi as int {
                assert(s0[i].body.player is None);
            }
        }
    }
    let e = entries[pi];
    let p = e.body.player.unwrap();
    let t = p.invul_timer.saturating_sub(dt as u64);
    let mut body = Body { player: Some(Player { invul_timer: t, ..p }), ..e.body };
    if t == 0 {
        if let Some(h) = body.health {
            let mut h2 = h;
            proof {
                assert(s0[pi as int].body.wf());
            }
            h2.heal(PLAYER_HP_REGEN * dt as u64);
            body = Body { health: Some(h2), ..body };
        }
    }
    proof {
        assert(s0[pi as int].body.wf());
        lemma_update_keeps(s0, pi as int, Entry { id: e.id, body }, pi as int);
    }
    entries.set(pi, Entry { id: e.id, body });
    if t > 0 {
        return ;
    }
    let ghost s1 = entries@;
    let mut i: usize = 0;
    while i < events.len()
        invariant
            i <= events@.len(),
            pi < entries@.len(),
            entries@ == player_hits(s1, pi as int, events@.take(i as int)),
            unique_ids(entries@),
            all_wf(entries@),
            sole_player(entries@, pi as int),
            entries@.len() == s0.len(),
            forall|k: int| 0 <= k < s0.len() ==> (#[trigger] entries@[k]).id == s0[k].id,
        decreases events@.len() - i,
    {
        let ev = events[i];
        let ghost before = entries@;
        proof {
            assert(events@.take(i as int + 1).drop_last() =~= events@.take(i as int));
            assert(events@.take(i as int + 1).last() == ev);
        }
        let pe = entries[pi];
        let pl = pe.body.player.unwrap();
        if pl.invul_timer == 0 && ev.who == pe.id && ev.can_hurt {
            if let (Some(h), Some(a)) = (pe.body.health, find(entries, ev.by)) {
                if let Some(d) = entries[a].body.damage {
                    let nb = Body {
                        health: Some(take_damage(h, d.dmg)),
                        player: Some(Player { invul_timer: PLAYER_INVUL_COOLDOWN, ..pl }),
                        ..pe.body
                    };
                    proof {
                        assert(before[pi as int].body.wf());
                        lemma_update_keeps(before, pi as int, Entry { id: pe.id, body: nb }, pi as int);
                    }
                    entries.set(pi, Entry { id: pe.id, body: nb });
                }
            }
        }
        proof {
            assert(entries@ =~= player_hit(before, pi as int, ev));
        }
        i = i + 1;
    }
    proof {
        assert(events@.take(events@.len() as int) =~= events@);
    }
}

/// Milliseconds between two shots of the player.
pub const PLAYER_FIRE_COOLDOWN: u64 = 150;

/// Strength of the player's own charge field.
pub const PLAYER_CHARGE_FORCE: i64 = 200;

/// The player's weapons after `dt` milliseconds, given whether the fire
/// button is held and whether the polarity switch was pressed: the fire
/// cooldown counts down (stopping at zero); a shot is fired when it has run
/// out while the button is held, which restarts it; the switch flips the
/// polarity and with it the player's charge field and charge response.
pub open spec fn weapons_spec(b: Body, dt: nat, fire_held: bool, switch_pressed: bool) -> (Body, bool) {
    let p = b.player.unwrap();
    let t: u64 = if p.fire_timer >= dt {
        (p.fire_timer - dt) as u64
    } else {
        0
    };
    let fire = t == 0 && fire_held;
    let timer = if fire {
        PLAYER_FIRE_COOLDOWN
    } else {
        t
    };
    if switch_pressed {
        let pol: i8 = if p.polarity == 1 {
            -1i8
        } else {
            1i8
        };
        let sender = match b.charge_sender {
            Some(s) => Some(ChargeSender { force: (PLAYER_CHARGE_FORCE * pol) as i64, ..s }),
            None => None,
        };
        let receiver = match b.charge_receiver {
            Some(r) => Some(ChargeReceiver { multiplier: (PER_MILLE * pol) as i64 }),
            None => None,
        };
        (
            Body {
                player: Some(Player { fire_timer: timer, polarity: pol, ..p }),
                charge_sender: sender,
                charge_receiver: receiver,
                ..b
            },
            fire,
        )
    } else {
        (Body { player: Some(Player { fire_timer: timer, ..p }), ..b }, fire)
    }
}

/// Advances the player's weapons by `dt` milliseconds; returns whether a
/// shot is fired now.
pub fn weapons(body: &mut Body, dt: u32, fire_held: bool, switch_pressed: bool) -> (fire: bool)
    requires
        old(body).player is Some,
    ensures
        (*final(body), fire) == weapons_spec(*old(body), dt as nat, fire_held, switch_pressed),
{
    let p = body.player.unwrap();
    let t = p.fire_timer.saturating_sub(dt as u64);
    let fire = t == 0 && fire_held;
    let timer = if fire {
        PLAYER_FIRE_COOLDOWN
    } else {
        t
    };
    if switch_pressed {
        let pol: i8 = if p.polarity == 1 {
            -1
        } else {
            1
        };
        let sender = match body.charge_sender {
            Some(s) => Some(ChargeSender { force: PLAYER_CHARGE_FORCE * pol as i64, ..s }),
            None => None,
        };
        let receiver = match body.charge_receiver {
            Some(_) => Some(ChargeReceiver { multiplier: PER_MILLE * pol as i64 }),
            None => None,
        };
        *body = Body {
            player: Some(Player { fire_timer: timer, polarity: pol, ..p }),
            charge_sender: sender,
            charge_receiver: receiver,
            ..*body
        };
    } else {
        *body = Body { player: Some(Player { fire_timer: timer, ..p }), ..*body };
    }
    fire
}

} // verus!
