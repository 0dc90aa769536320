//! The boundary manager: wraps entities that leave the playfield, or
//! requests the destruction of those well outside it.
use vstd::prelude::*;

use crate::components::{Body, Position};
use crate::entity::{all_wf, Entry};
use crate::fixed::COORD_LIMIT;
use crate::journal::{Command, Journal};

verus! {

/// Width of the playfield, in micro-units.
pub const FIELD_WIDTH: i64 = 1_280_000_000;

/// Height of the playfield, in micro-units.
pub const FIELD_HEIGHT: i64 = 720_000_000;

/// Margin past the playfield beyond which an entity of unknown footprint is destroyed.
pub const DEFAULT_MARGIN: i64 = 50_000_000;

/// Margin added to an entity's footprint before it is destroyed.
pub const FOOTPRINT_PAD: i64 = 5_000_000;

/// One coordinate wrapped to the opposite edge: at or past `w` it is reset
/// to 0, below 0 it is reset to `w`; inside `[0, w)` it stays. The reset is to
/// the edge, however far the coordinate overshot.
pub open spec fn wrap_axis(x: int, w: int) -> int {
    if x >= w {
        0
    } else if x < 0 {
        w
    } else {
        x
    }
}

/// A position wrapped into the playfield.
pub open spec fn wrapped_position(p: Position) -> Position {
    Position {
        x: wrap_axis(p.x as int, FIELD_WIDTH as int) as i64,
        y: wrap_axis(p.y as int, FIELD_HEIGHT as int) as i64,
    }
}

/// Whether a position lies in the playfield, `[0, width) x [0, height)`.
pub open spec fn inside_field(p: Position) -> bool {
    0 <= p.x < FIELD_WIDTH && 0 <= p.y < FIELD_HEIGHT
}

/// Wraps a position into the playfield.
pub fn wrap_position(p: Position) -> (r: Position)
    ensures
        r == wrapped_position(p),
{
    let x = if p.x >= FIELD_WIDTH {
        0
    } else if p.x < 0 {
        FIELD_WIDTH
    } else {
        p.x
    };
    let y = if p.y >= FIELD_HEIGHT {
        0
    } else if p.y < 0 {
        FIELD_HEIGHT
    } else {
        p.y
    };
    Position { x, y }
}

/// Wrapping leaves a position inside the playfield alone, sends one at
/// exactly the width (or height) to 0 and one below 0 to the width (or
/// height), and always lands within the closed field `[0, width] x [0, height]`.
pub proof fn lemma_wrap_idempotent(p: Position)
    ensures
        inside_field(p) ==> wrapped_position(p) == p,
        p.x == FIELD_WIDTH ==> wrapped_position(p).x == 0,
        p.y == FIELD_HEIGHT ==> wrapped_position(p).y == 0,
        p.x < 0 ==> wrapped_position(p).x == FIELD_WIDTH,
        p.y < 0 ==> wrapped_position(p).y == FIELD_HEIGHT,
        0 <= wrapped_position(p).x <= FIELD_WIDTH,
        0 <= wrapped_position(p).y <= FIELD_HEIGHT,
{
}

/// How far past the playfield an entity may go before it is destroyed: its
/// footprint plus a pad when known, a fixed default otherwise.
pub open spec fn exit_margin(footprint: Option<i64>) -> int {
    match footprint {
        Some(f) => f + FOOTPRINT_PAD,
        None => DEFAULT_MARGIN as int,
    }
}

/// Whether a position is farther than `m` past the playfield on some side.
pub open spec fn beyond(p: Position, m: int) -> bool {
    p.x > FIELD_WIDTH + m || p.x < -m || p.y > FIELD_HEIGHT + m || p.y < -m
}

/// Whether an entity is well outside the playfield.
pub fn exits_field(p: Position, footprint: Option<i64>) -> (r: bool)
    requires
        p.wf(),
        footprint matches Some(f) ==> 0 <= f <= COORD_LIMIT,
    ensures
        r == beyond(p, exit_margin(footprint)),
{
    let m: i64 = match footprint {
        Some(f) => f + FOOTPRINT_PAD,
        None => DEFAULT_MARGIN,
    };
    p.x > FIELD_WIDTH + m || p.x < -m || p.y > FIELD_HEIGHT + m || p.y < -m
}

/// An entity after the wrap pass: a wrapped entity with a position is moved
/// into the playfield; any other is unchanged.
pub open spec fn wrap_body(b: Body) -> Body {
    if b.wrapped is Some && b.pos is Some {
        Body { pos: Some(wrapped_position(b.pos.unwrap())), ..b }
    } else {
        b
    }
}

/// Whether the delete-on-exit pass destroys an entity.
pub open spec fn leaves_field(b: Body) -> bool {
    b.delete_on_warp is Some && b.pos is Some && beyond(
        b.pos.unwrap(),
        exit_margin(b.delete_on_warp.unwrap().footprint),
    )
}

/// Destructions requested by the delete-on-exit pass, in the order of `s`.
pub open spec fn exit_despawns(s: Seq<Entry>) -> Seq<Command>
    decreases s.len(),
{
    if s.len() == 0 {
        Seq::empty()
    } else if leaves_field(s.last().body) {
        exit_despawns(s.drop_last()).push(Command::Despawn(s.last().id))
    } else {
        exit_despawns(s.drop_last())
    }
}

/// An entry after the wrap pass.
pub open spec fn wrap_entry(e: Entry) -> Entry {
    Entry { id: e.id, body: wrap_body(e.body) }
}

/// Wraps every wrapped entity into the playfield, and requests the
/// destruction of every delete-on-exit entity well outside it.
pub fn ensure_wrapping(entries: &mut Vec<Entry>, journal: &mut Journal)
    requires
        all_wf(old(entries)@),
    ensures
        final(entries)@ == old(entries)@.map_values(|e: Entry| wrap_entry(e)),
        final(journal)@ == old(journal)@ + exit_despawns(old(entries)@),
        all_wf(final(entries)@),
{
    let ghost s = entries@;
    let n = entries.len();
    let mut i: usize = 0;
    while i < n
        invariant
            n == s.len(),
            entries@.len() == n,
            i <= n,
            all_wf(s),
            forall|k: int| 0 <= k < i ==> entries@[k] == wrap_entry(#[trigger] s[k]),
            forall|k: int| i <= k < n ==> entries@[k] == s[k],
            journal@ == old(journal)@ + exit_despawns(s.take(i as int)),
        decreases n - i,
    {
        let e = entries[i];
        proof {
            assert(s.take(i as int + 1).drop_last() =~= s.take(i as int));
            assert(s.take(i as int + 1).last() == s[i as int]);
            assert(s[i as int].body.wf());
        }
        match (e.body.delete_on_warp, e.body.pos) {
            (Some(d), Some(p)) => {
                if exits_field(p, d.footprint) {
                    journal.despawn(e.id);
                }
            },
            _ => {},
        }
        match (e.body.wrapped, e.body.pos) {
            (Some(_), Some(p)) => {
                let body = Body { pos: Some(wrap_position(p)), ..e.body };
                entries.set(i, Entry { id: e.id, body });
            },
            _ => {},
        }
        i = i + 1;
    }
    proof {
        assert(s.take(n as int) =~= s);
        assert(entries@ =~= s.map_values(|e: Entry| wrap_entry(e)));
        assert forall|k: int| 0 <= k < entries@.len() implies (#[trigger] entries@[k]).body.wf() by {
            assert(s[k].body.wf());
        }
    }
}

} // verus!
