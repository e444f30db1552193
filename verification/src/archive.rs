//! Update engine state: a container materialized into a path-keyed mapping,
//! where the most recent write for a path wins. Mutations are an upsert or a
//! removal; the mapping re-serializes in its own entry order.

use crate::container::{entries_model, entries_wf};
use crate::entry::{entry_wf, ArchiveEntry, EntryModel};
use vstd::prelude::*;

verus! {

/// No two entries of the sequence name the same path.
pub open spec fn paths_unique(es: Seq<EntryModel>) -> bool {
    forall|i: int, j: int| 0 <= i < j < es.len() ==> es[i].path != es[j].path
}

/// The mapping induced by an entry sequence: keyed by path, the most recent
/// (rightmost) record wins.
pub open spec fn seq_to_map(es: Seq<EntryModel>) -> Map<Seq<u8>, EntryModel>
    decreases es.len(),
{
    if es.len() == 0 {
        Map::empty()
    } else {
        seq_to_map(es.drop_last()).insert(es.last().path, es.last())
    }
}

/// A path is in the induced mapping exactly when some entry names it.
pub proof fn lemma_seq_to_map_contains(es: Seq<EntryModel>, p: Seq<u8>)
    ensures
        seq_to_map(es).contains_key(p) <==> (exists|i: int|
            0 <= i < es.len() && es[i].path == p),
    decreases es.len(),
{
    if es.len() == 0 {
    } else {
        lemma_seq_to_map_contains(es.drop_last(), p);
        if es.last().path == p {
            assert(es[es.len() - 1].path == p);
        } else {
            if seq_to_map(es).contains_key(p) {
                let i = choose|i: int| 0 <= i < es.drop_last().len() && es.drop_last()[i].path
                    == p;
                assert(es[i].path == p);
            }
            if exists|i: int| 0 <= i < es.len() && es[i].path == p {
                let i = choose|i: int| 0 <= i < es.len() && es[i].path == p;
                assert(i < es.len() - 1);
                assert(es.drop_last()[i].path == p);
            }
        }
    }
}

/// An entry that no later entry overrides is what its path maps to.
pub proof fn lemma_seq_to_map_last_wins(es: Seq<EntryModel>, i: int)
    requires
        0 <= i < es.len(),
        forall|j: int| i < j < es.len() ==> es[j].path != es[i].path,
    ensures
        seq_to_map(es).contains_key(es[i].path),
        seq_to_map(es)[es[i].path] == es[i],
    decreases es.len(),
{
    if i == es.len() - 1 {
    } else {
        assert(es.drop_last()[i] == es[i]);
        lemma_seq_to_map_last_wins(es.drop_last(), i);
        assert(es.last().path != es[i].path);
    }
}

/// Replacing the entry at `i` by one with the same path updates the induced
/// mapping at that path.
pub proof fn lemma_seq_to_map_update(es: Seq<EntryModel>, i: int, e: EntryModel)
    requires
        paths_unique(es),
        0 <= i < es.len(),
        e.path == es[i].path,
    ensures
        seq_to_map(es.update(i, e)) == seq_to_map(es).insert(e.path, e),
    decreases es.len(),
{
    let es2 = es.update(i, e);
    if i == es.len() - 1 {
        assert(es2.drop_last() =~= es.drop_last());
        assert(es2.last() == e);
        assert(seq_to_map(es.drop_last()).insert(es.last().path, es.last()).insert(e.path, e)
            =~= seq_to_map(es.drop_last()).insert(e.path, e));
    } else {
        assert(es2.drop_last() =~= es.drop_last().update(i, e));
        assert(es2.last() == es.last());
        assert(forall|a: int, b: int|
            0 <= a < b < es.drop_last().len() ==> es.drop_last()[a].path
                != es.drop_last()[b].path);
        lemma_seq_to_map_update(es.drop_last(), i, e);
        assert(es.last().path != e.path);
        assert(seq_to_map(es.drop_last()).insert(e.path, e).insert(es.last().path, es.last())
            =~= seq_to_map(es.drop_last()).insert(es.last().path, es.last()).insert(e.path, e));
    }
}

/// Removing the entry at `i` removes its path from the induced mapping.
pub proof fn lemma_seq_to_map_remove(es: Seq<EntryModel>, i: int)
    requires
        paths_unique(es),
        0 <= i < es.len(),
    ensures
        seq_to_map(es.remove(i)) == seq_to_map(es).remove(es[i].path),
    decreases es.len(),
{
    let p = es[i].path;
    if i == es.len() - 1 {
        assert(es.remove(i) =~= es.drop_last());
        lemma_seq_to_map_contains(es.drop_last(), p);
        assert(forall|j: int|
            0 <= j < es.drop_last().len() ==> es.drop_last()[j] == es[j] && es[j].path != p);
        assert(!seq_to_map(es.drop_last()).contains_key(p));
        assert(seq_to_map(es.drop_last()).insert(p, es.last()).remove(p) =~= seq_to_map(
            es.drop_last(),
        ));
    } else {
        assert(es.remove(i).drop_last() =~= es.drop_last().remove(i));
        assert(es.remove(i).last() == es.last());
        assert(forall|a: int, b: int|
            0 <= a < b < es.drop_last().len() ==> es.drop_last()[a].path
                != es.drop_last()[b].path);
        assert(es.drop_last()[i] == es[i]);
        lemma_seq_to_map_remove(es.drop_last(), i);
        assert(es.last().path != p);
        assert(seq_to_map(es.drop_last()).remove(p).insert(es.last().path, es.last())
            =~= seq_to_map(es.drop_last()).insert(es.last().path, es.last()).remove(p));
    }
}

/// Removing a path that no entry names leaves the induced mapping unchanged.
pub proof fn lemma_seq_to_map_remove_absent(es: Seq<EntryModel>, p: Seq<u8>)
    requires
        forall|i: int| 0 <= i < es.len() ==> (#[trigger] es[i]).path != p,
    ensures
        seq_to_map(es).remove(p) == seq_to_map(es),
{
    lemma_seq_to_map_contains(es, p);
    assert(seq_to_map(es).remove(p) =~= seq_to_map(es));
}

/// Removing a path twice yields the same mapping as removing it once: the
/// second removal finds nothing to delete.
pub proof fn lemma_remove_idempotent(m: Map<Seq<u8>, EntryModel>, p: Seq<u8>)
    ensures
        m.remove(p).remove(p) == m.remove(p),
{
    assert(m.remove(p).remove(p) =~= m.remove(p));
}

/// In a sequence with unique paths, a path that the induced mapping knows is
/// named by exactly one entry, and that entry is the mapping's value.
pub proof fn lemma_unique_listing(es: Seq<EntryModel>, p: Seq<u8>)
    requires
        paths_unique(es),
        seq_to_map(es).contains_key(p),
    ensures
        exists|i: int| 0 <= i < es.len() && es[i].path == p,
        forall|i: int, j: int|
            (0 <= i < es.len() && 0 <= j < es.len() && es[i].path == p && es[j].path == p) ==> i
                == j,
        forall|i: int| 0 <= i < es.len() && (#[trigger] es[i]).path == p ==> seq_to_map(es)[p]
            == es[i],
{
    lemma_seq_to_map_contains(es, p);
    assert forall|i: int| 0 <= i < es.len() && (#[trigger] es[i]).path == p implies seq_to_map(
        es,
    )[p] == es[i] by {
        lemma_seq_to_map_last_wins(es, i);
    }
}

/// Byte-for-byte comparison of two slices.
pub fn bytes_eq(a: &[u8], b: &[u8]) -> (r: bool)
    ensures
        r == (a@ == b@),
{
    if a.len() != b.len() {
        assert(a@.len() != b@.len());
        return false;
    }
    let n = a.len();
    let mut i: usize = 0;
    while i < n
        invariant
            i <= n,
            a@.len() == n,
            b@.len() == n,
            forall|k: int| 0 <= k < i ==> a@[k] == b@[k],
        decreases n - i,
    {
        if a[i] != b[i] {
            return false;
        }
        i = i + 1;
    }
    assert(a@ =~= b@);
    true
}

/// A container materialized as a path-keyed mapping. The entry order is an
/// implementation detail; the meaning of the value is `as_map()`.
pub struct ArchiveMap {
    entries: Vec<ArchiveEntry>,
}

impl ArchiveMap {
    /// The entries in their current serialization order.
    pub closed spec fn models(&self) -> Seq<EntryModel> {
        entries_model(self.entries@)
    }

    /// The mapping this value stands for.
    pub open spec fn as_map(&self) -> Map<Seq<u8>, EntryModel> {
        seq_to_map(self.models())
    }

    /// Paths are unique and every entry fits the format's length fields.
    pub closed spec fn wf(&self) -> bool {
        &&& paths_unique(self.models())
        &&& entries_wf(self.models())
    }

    /// The empty mapping.
    pub fn new() -> (r: ArchiveMap)
        ensures
            r.wf(),
            r.as_map() == Map::<Seq<u8>, EntryModel>::empty(),
    {
        let r = ArchiveMap { entries: Vec::new() };
        proof {
            assert(r.models() =~= Seq::<EntryModel>::empty());
        }
        r
    }

    /// Index of the entry naming `path`, if any.
    fn find(&self, path: &[u8]) -> (r: Option<usize>)
        ensures
            match r {
                Some(i) => i < self.models().len() && self.models()[i as int].path == path@,
                None => forall|i: int|
                    0 <= i < self.models().len() ==> (#[trigger] self.models()[i]).path != path@,
            },
    {
        let mut i: usize = 0;
        let n = self.entries.len();
        while i < n
            invariant
                i <= n,
                n == self.entries@.len(),
                forall|k: int| 0 <= k < i ==> (#[trigger] self.models()[k]).path != path@,
            decreases n - i,
        {
            if bytes_eq(self.entries[i].path.as_slice(), path) {
                assert(self.models()[i as int].path == path@);
                return Some(i);
            }
            i = i + 1;
        }
        None
    }

    /// Inserts the entry, overwriting whatever its path previously mapped to.
    pub fn upsert(&mut self, e: ArchiveEntry)
        requires
            old(self).wf(),
            entry_wf(e@),
        ensures
            final(self).wf(),
            final(self).as_map() == old(self).as_map().insert(e@.path, e@),
    {
        let ghost before = self.models();
        let ghost em = e@;
        match self.find(e.path.as_slice()) {
            Some(i) => {
                self.entries[i] = e;
                proof {
                    assert(self.models() =~= before.update(i as int, em));
                    lemma_seq_to_map_update(before, i as int, em);
                }
            },
            None => {
                self.entries.push(e);
                proof {
                    assert(self.models() =~= before.push(em));
                    assert(self.models().drop_last() =~= before);
                }
            },
        }
    }

    /// Deletes the mapping entry for `path` if present; absence is not an
    /// error.
    pub fn remove(&mut self, path: &[u8])
        requires
            old(self).wf(),
        ensures
            final(self).wf(),
            final(self).as_map() == old(self).as_map().remove(path@),
    {
        let ghost before = self.models();
        match self.find(path) {
            Some(i) => {
                self.entries.remove(i);
                proof {
                    assert(self.models() =~= before.remove(i as int));
                    lemma_seq_to_map_remove(before, i as int);
                }
            },
            None => {
                proof {
                    lemma_seq_to_map_remove_absent(before, path@);
                }
            },
        }
    }

    /// Materializes a decoded container. Later records override earlier ones
    /// that name the same path.
    pub fn from_entries(entries: Vec<ArchiveEntry>) -> (r: ArchiveMap)
        requires
            entries_wf(entries_model(entries@)),
        ensures
            r.wf(),
            r.as_map() == seq_to_map(entries_model(entries@)),
    {
        let ghost all = entries_model(entries@);
        let mut r = ArchiveMap::new();
        let mut rest = entries;
        proof {
            assert(entries_model(rest@) =~= all.skip(0));
            assert(all.take(0) =~= Seq::<EntryModel>::empty());
        }
        // Consume from the front so that later records override earlier ones.
        while rest.len() > 0
            invariant
                r.wf(),
                entries_wf(all),
                rest@.len() <= all.len(),
                entries_model(rest@) == all.skip(all.len() - rest@.len()),
                r.as_map() == seq_to_map(all.take(all.len() - rest@.len())),
            decreases rest@.len(),
        {
            let ghost k = all.len() - rest@.len();
            let ghost prevseq = rest@;
            let e = rest.remove(0);
            proof {
                assert(entries_model(prevseq) == all.skip(k));
                assert(e@ == entries_model(prevseq)[0]);
                assert(e@ == all[k]);
                assert(entry_wf(all[k]));
                assert(entries_model(rest@) =~= entries_model(prevseq).skip(1));
                assert(all.skip(k).skip(1) =~= all.skip(k + 1));
            }
            r.upsert(e);
            proof {
                assert(all.take(k + 1).drop_last() =~= all.take(k));
                assert(all.take(k + 1).last() == all[k]);
            }
        }
        proof {
            assert(all.take(all.len() as int) =~= all);
        }
        r
    }

    /// Hands the mapping back as an entry sequence, ready to re-serialize.
    /// The order is mapping-defined, not necessarily the original container
    /// order; the induced mapping is exactly this value's mapping.
    pub fn into_entries(self) -> (r: Vec<ArchiveEntry>)
        requires
            self.wf(),
        ensures
            paths_unique(entries_model(r@)),
            entries_wf(entries_model(r@)),
            seq_to_map(entries_model(r@)) == self.as_map(),
    {
        self.entries
    }
}

} // verus!
