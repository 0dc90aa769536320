//! The entity store: a `hecs::World` whose simulated entities each carry one
//! [`Body`] component. The simulation reads a snapshot of the bodies, runs
//! its passes on it, writes the bodies back, and then applies the journal.
use vstd::prelude::*;

use crate::components::Body;
use crate::entity::{index_of, unique_ids, Entry};
use crate::journal::{Command, Journal};

verus! {

/// The hecs entity store, held opaquely.
#[verifier::external_type_specification]
#[verifier::external_body]
pub struct ExWorld(hecs::World);

/// The body of each live entity of `w` that has one, by the entity's bits.
pub uninterp spec fn bodies(w: hecs::World) -> Map<u64, Body>;

/// Relies on `hecs::World::spawn`: the new entity's handle differs from
/// every live one, and the entity holds exactly the given body.
#[verifier::external_body]
fn spawn_body(w: &mut hecs::World, b: Body) -> (id: u64)
    ensures
        !bodies(*old(w)).contains_key(id),
        bodies(*final(w)) == bodies(*old(w)).insert(id, b),
{
    w.spawn((b,)).to_bits().get()
}

/// Relies on `hecs::Entity::from_bits` and `hecs::World::despawn`: the
/// entity with these bits, if live, is destroyed with its components; an
/// unknown handle changes nothing.
#[verifier::external_body]
fn despawn_body(w: &mut hecs::World, id: u64)
    ensures
        bodies(*final(w)) == bodies(*old(w)).remove(id),
{
    if let Some(e) = hecs::Entity::from_bits(id) {
        let _ = w.despawn(e);
    }
}

/// Relies on `hecs::Entity::from_bits` and `hecs::World::query_one_mut`
/// over `&Body`: reads the body of the live entity with these bits. The
/// unique borrow of the store rules out any conflicting borrow statically, and
/// the store is left as it was.
#[verifier::external_body]
fn get_body(w: &mut hecs::World, id: u64) -> (r: Option<Body>)
    ensures
        bodies(*final(w)) == bodies(*old(w)),
        bodies(*old(w)).contains_key(id) ==> r == Some(bodies(*old(w))[id]),
        !bodies(*old(w)).contains_key(id) ==> r is None,
{
    match hecs::Entity::from_bits(id) {
        Some(e) => w.query_one_mut::<&Body>(e).ok().map(|b| *b),
        None => None,
    }
}

/// Relies on `hecs::Entity::from_bits` and `hecs::World::query_one_mut`:
/// replaces the body of the live entity with these bits; nothing else changes.
#[verifier::external_body]
fn set_body(w: &mut hecs::World, id: u64, b: Body)
    ensures
        bodies(*old(w)).contains_key(id) ==> bodies(*final(w)) == bodies(*old(w)).insert(id, b),
        !bodies(*old(w)).contains_key(id) ==> bodies(*final(w)) == bodies(*old(w)),
{
    if let Some(e) = hecs::Entity::from_bits(id) {
        if let Ok(slot) = w.query_one_mut::<&mut Body>(e) {
            *slot = b;
        }
    }
}

/// Relies on `hecs::World::query_mut` over `&Body`: visits each live entity
/// with a body exactly once, in an order the store chooses. The unique borrow
/// of the store rules out any conflicting borrow statically, and the store is
/// left as it was.
#[verifier::external_body]
fn body_ids(w: &mut hecs::World) -> (r: Vec<u64>)
    ensures
        bodies(*final(w)) == bodies(*old(w)),
        r@.no_duplicates(),
        forall|id: u64| #[trigger] bodies(*old(w)).contains_key(id) <==> r@.contains(id),
{
    w.query_mut::<&Body>().into_iter().map(|(e, _)| e.to_bits().get()).collect()
}

/// The bodies of a snapshot, by identity.
pub open spec fn entries_map(s: Seq<Entry>) -> Map<u64, Body> {
    Map::new(|id: u64| index_of(s, id) is Some, |id: u64| s[index_of(s, id).unwrap()].body)
}

/// `s` lists every body of `m` once, each with its identity.
pub open spec fn snapshot_of(s: Seq<Entry>, m: Map<u64, Body>) -> bool {
    unique_ids(s) && entries_map(s) == m
}

/// With unique identities, the entry found for an identity is the one that has it.
pub proof fn lemma_index_of(s: Seq<Entry>, i: int)
    requires
        unique_ids(s),
        0 <= i < s.len(),
    ensures
        index_of(s, s[i].id) == Some(i),
{
    let id = s[i].id;
    assert(exists|k: int| 0 <= k < s.len() && s[k].id == id);
    let c = choose|k: int| 0 <= k < s.len() && s[k].id == id;
    if c != i {
        assert(s[c].id != s[i].id);
    }
}

/// Reads every body of the store, leaving it as it was.
pub fn snapshot(w: &mut hecs::World) -> (r: Vec<Entry>)
    ensures
        bodies(*final(w)) == bodies(*old(w)),
        snapshot_of(r@, bodies(*old(w))),
{
    let ids = body_ids(w);
    let mut out: Vec<Entry> = Vec::new();
    let mut i: usize = 0;
    while i < ids.len()
        invariant
            i <= ids@.len(),
            bodies(*w) == bodies(*old(w)),
            ids@.no_duplicates(),
            forall|id: u64| #[trigger] bodies(*w).contains_key(id) <==> ids@.contains(id),
            out@.len() == i,
            forall|k: int| 0 <= k < i ==> (#[trigger] out@[k]).id == ids@[k],
            forall|k: int| 0 <= k < i ==> bodies(*w).contains_key(out@[k].id) && (#[trigger] out@[k]).body
                == bodies(*w)[out@[k].id],
        decreases ids@.len() - i,
    {
        let id = ids[i];
        proof {
            assert(ids@.contains(id));
        }
        match get_body(w, id) {
            Some(b) => {
                out.push(Entry { id, body: b });
            },
            None => {
                proof {
                    assert(false);
                }
            },
        }
        i = i + 1;
    }
    proof {
        let s = out@;
        assert forall|p: int, q: int| 0 <= p < s.len() && 0 <= q < s.len() && p != q implies s[p].id
            != s[q].id by {
            assert(s[p].id == ids@[p] && s[q].id == ids@[q]);
        }
        let m = bodies(*w);
        assert forall|id: u64| #[trigger] entries_map(s).contains_key(id) <==> m.contains_key(id) by {
            if m.contains_key(id) {
                assert(ids@.contains(id));
                let k = choose|k: int| 0 <= k < ids@.len() && ids@[k] == id;
                assert(s[k].id == id);
                lemma_index_of(s, k);
            }
            if entries_map(s).contains_key(id) {
                let k = index_of(s, id).unwrap();
                lemma_index_of_found(s, id);
                assert(s[k].id == id);
            }
        }
        assert forall|id: u64| #[trigger] entries_map(s).contains_key(id) implies entries_map(s)[id]
            == m[id] by {
            lemma_index_of_found(s, id);
        }
        assert(entries_map(s) =~= m);
    }
    out
}

/// A found index points at an entry with the sought identity.
pub proof fn lemma_index_of_found(s: Seq<Entry>, id: u64)
    ensures
        index_of(s, id) matches Some(k) ==> 0 <= k < s.len() && s[k].id == id,
{
}

/// Writes back the bodies of a snapshot of the store.
pub fn write_back(w: &mut hecs::World, entries: &Vec<Entry>)
    requires
        unique_ids(entries@),
        entries_map(entries@).dom() == bodies(*old(w)).dom(),
    ensures
        bodies(*final(w)) == entries_map(entries@),
{
    let ghost s = entries@;
    let ghost m0 = bodies(*w);
    let mut i: usize = 0;
    while i < entries.len()
        invariant
            s == entries@,
            unique_ids(s),
            i <= s.len(),
            bodies(*w).dom() == m0.dom(),
            m0.dom() == entries_map(s).dom(),
            forall|k: int| 0 <= k < i ==> bodies(*w)[(#[trigger] s[k]).id] == s[k].body,
            forall|id: u64|
                #[trigger] bodies(*w).contains_key(id) && (forall|k: int| 0 <= k < i ==> s[k].id != id)
                    ==> bodies(*w)[id] == m0[id],
        decreases s.len() - i,
    {
        let e = entries[i];
        proof {
            lemma_index_of(s, i as int);
            assert(entries_map(s).contains_key(e.id));
            assert(m0.contains_key(e.id));
        }
        set_body(w, e.id, e.body);
        proof {
            assert forall|k: int| 0 <= k < i implies bodies(*w)[(#[trigger] s[k]).id] == s[k].body by {
                assert(s[k].id != s[i as int].id);
            }
            assert(bodies(*w).dom() =~= m0.dom());
        }
        i = i + 1;
    }
    proof {
        assert forall|id: u64| #[trigger] bodies(*w).contains_key(id) implies bodies(*w)[id]
            == entries_map(s)[id] by {
            assert(entries_map(s).contains_key(id));
            let k = index_of(s, id).unwrap();
            lemma_index_of_found(s, id);
            assert(bodies(*w)[s[k].id] == s[k].body);
        }
        assert(bodies(*w) =~= entries_map(s));
    }
}

/// The store after applying `cmds` in order to `m`, where `ids[k]` is the
/// identity given to the entity that the `k`-th command creates.
pub open spec fn apply_commands(m: Map<u64, Body>, cmds: Seq<Command>, ids: Seq<u64>) -> Map<u64, Body>
    decreases cmds.len(),
{
    if cmds.len() == 0 {
        m
    } else {
        let mid = apply_commands(m, cmds.drop_last(), ids);
        match cmds.last() {
            Command::Despawn(id) => mid.remove(id),
            Command::Spawn(b) => mid.insert(ids[cmds.len() - 1], b),
        }
    }
}

/// Every created entity gets an identity not in use at its creation.
pub open spec fn fresh_ids(m: Map<u64, Body>, cmds: Seq<Command>, ids: Seq<u64>) -> bool {
    &&& ids.len() == cmds.len()
    &&& forall|k: int|
        0 <= k < cmds.len() && (#[trigger] cmds[k]) is Spawn ==> !apply_commands(
            m,
            cmds.take(k),
            ids,
        ).contains_key(ids[k])
}

/// Whether `r` is a possible store after applying `cmds` in order to `m`:
/// a destruction removes the identity, a creation adds the body under an
/// identity not in use.
pub open spec fn applied(m: Map<u64, Body>, cmds: Seq<Command>, r: Map<u64, Body>) -> bool {
    exists|ids: Seq<u64>| fresh_ids(m, cmds, ids) && r == apply_commands(m, cmds, ids)
}

/// Commands applied with identities that agree on a prefix agree on that prefix.
proof fn lemma_apply_prefix(m: Map<u64, Body>, cmds: Seq<Command>, a: Seq<u64>, b: Seq<u64>)
    requires
        a.len() >= cmds.len(),
        b.len() >= cmds.len(),
        forall|k: int| 0 <= k < cmds.len() ==> a[k] == b[k],
    ensures
        apply_commands(m, cmds, a) == apply_commands(m, cmds, b),
    decreases cmds.len(),
{
    if cmds.len() > 0 {
        lemma_apply_prefix(m, cmds.drop_last(), a, b);
    }
}

/// Applies the journal's requested changes to the store, in order, and
/// leaves the journal empty.
pub fn flush(w: &mut hecs::World, journal: &mut Journal)
    ensures
        applied(bodies(*old(w)), old(journal)@, bodies(*final(w))),
        final(journal)@ == Seq::<Command>::empty(),
{
    let ghost m0 = bodies(*w);
    let ghost cmds = journal@;
    let ghost mut ids: Seq<u64> = Seq::empty();
    let mut i: usize = 0;
    let n = journal.commands().len();
    while i < n
        invariant
            cmds == journal@,
            n == cmds.len(),
            i <= n,
            ids.len() == i,
            fresh_ids(m0, cmds.take(i as int), ids),
            bodies(*w) == apply_commands(m0, cmds.take(i as int), ids),
        decreases n - i,
    {
        let c = journal.commands()[i];
        let ghost t = cmds.take(i as int + 1);
        let ghost old_ids = ids;
        proof {
            assert(t.drop_last() =~= cmds.take(i as int));
            assert(t.last() == c);
        }
        match c {
            Command::Despawn(id) => {
                despawn_body(w, id);
                proof {
                    ids = ids.push(0);
                }
            },
            Command::Spawn(b) => {
                let id = spawn_body(w, b);
                proof {
                    ids = ids.push(id);
                }
            },
        }
        proof {
            lemma_apply_prefix(m0, cmds.take(i as int), old_ids, ids);
            assert forall|k: int| 0 <= k < t.len() && (#[trigger] t[k]) is Spawn implies !apply_commands(
                m0,
                t.take(k),
                ids,
            ).contains_key(ids[k]) by {
                if k < i {
                    assert(t.take(k) =~= cmds.take(i as int).take(k));
                    assert(cmds.take(i as int)[k] == t[k]);
                    lemma_apply_prefix(m0, t.take(k), old_ids, ids);
                } else {
                    assert(t.take(k) =~= cmds.take(i as int));
                }
            }
        }
        i = i + 1;
    }
    proof {
        assert(cmds.take(n as int) =~= cmds);
    }
    *journal = Journal::new();
}

} // verus!
