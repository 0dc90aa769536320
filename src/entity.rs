//! Entities as the simulation sees them during a tick: an identity and its components.
use vstd::prelude::*;

use crate::components::Body;

verus! {

/// An entity: its identity in the entity store and its components.
#[derive(Clone, Copy, Debug, PartialEq, Eq, Structural)]
pub struct Entry {
    pub id: u64,
    pub body: Body,
}

/// No two entries share an identity.
pub open spec fn unique_ids(s: Seq<Entry>) -> bool {
    forall|i: int, j: int| 0 <= i < s.len() && 0 <= j < s.len() && i != j ==> s[i].id != s[j].id
}

/// Every entry's components are within their limits.
pub open spec fn all_wf(s: Seq<Entry>) -> bool {
    forall|i: int| 0 <= i < s.len() ==> (#[trigger] s[i]).body.wf()
}

/// A well-formed snapshot: unique identities, valid components.
pub open spec fn snapshot_wf(s: Seq<Entry>) -> bool {
    unique_ids(s) && all_wf(s)
}

/// Index of the entry with identity `id`, if any.
pub open spec fn index_of(s: Seq<Entry>, id: u64) -> Option<int> {
    if exists|i: int| 0 <= i < s.len() && s[i].id == id {
        Some(choose|i: int| 0 <= i < s.len() && s[i].id == id)
    } else {
        None
    }
}

/// Finds the entry with identity `id`.
pub fn find(entries: &Vec<Entry>, id: u64) -> (r: Option<usize>)
    requires
        unique_ids(entries@),
    ensures
        r matches Some(i) ==> index_of(entries@, id) == Some(i as int),
        r is None ==> index_of(entries@, id) is None,
        r matches Some(i) ==> i < entries@.len() && entries@[i as int].id == id,
{
    let mut i: usize = 0;
    while i < entries.len()
        invariant
            i <= entries@.len(),
            unique_ids(entries@),
            forall|k: int| 0 <= k < i ==> entries@[k].id != id,
        decreases entries@.len() - i,
    {
        if entries[i].id == id {
            proof {
                assert(0 <= i < entries@.len() && entries@[i as int].id == id);
                let c = choose|k: int| 0 <= k < entries@.len() && entries@[k].id == id;
                assert(entries@[c].id == id);
                if c != i as int {
                    assert(entries@[c].id != entries@[i as int].id);
                }
            }
            return Some(i);
        }
        i = i + 1;
    }
    None
}

/// Entry `i` is the player, and no other entry is.
pub open spec fn sole_player(s: Seq<Entry>, i: int) -> bool {
    &&& 0 <= i < s.len()
    &&& s[i].body.player is Some
    &&& forall|k: int| 0 <= k < s.len() && k != i ==> (#[trigger] s[k]).body.player is None
}

/// Finds the player entity, when there is exactly one.
pub fn find_player(entries: &Vec<Entry>) -> (r: Option<usize>)
    ensures
        r matches Some(i) ==> sole_player(entries@, i as int),
        r is None ==> forall|i: int| !sole_player(entries@, i),
{
    let mut found: Option<usize> = None;
    let mut i: usize = 0;
    while i < entries.len()
        invariant
            i <= entries@.len(),
            found matches Some(f) ==> f < i && entries@[f as int].body.player is Some && forall|
                k: int,
            | 0 <= k < i && k != f ==> (#[trigger] entries@[k]).body.player is None,
            found is None ==> forall|k: int| 0 <= k < i ==> (#[trigger] entries@[k]).body.player is None,
        decreases entries@.len() - i,
    {
        if entries[i].body.player.is_some() {
            if found.is_some() {
                proof {
                    let f = found.unwrap();
                    assert forall|j: int| !sole_player(entries@, j) by {
                        if sole_player(entries@, j) {
                            if j == f as int {
                                assert(entries@[i as int].body.player is None);
                            } else {
                                assert(entries@[f as int].body.player is None);
                            }
                        }
                    }
                }
                return None;
            }
            found = Some(i);
        }
        i = i + 1;
    }
    match found {
        Some(f) => Some(f),
        None => {
            proof {
                assert forall|j: int| !sole_player(entries@, j) by {
                    if sole_player(entries@, j) {
                        assert(entries@[j].body.player is None);
                    }
                }
            }
            None
        },
    }
}

} // verus!
