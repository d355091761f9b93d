//! The in-memory key-value primitive beneath each index of the storage
//! backend: a committed association list plus a staging area implementing the
//! atomic-batch protocol.
//!
//! Keys are the numeric values of the fixed-width identifiers this layer
//! indexes by. While a batch is open, writes are staged in order and readers
//! see only the committed entries; `finish_atomic` applies the staged
//! operations as one unit, and `abort_atomic` discards them all.

use vstd::prelude::*;

verus! {

/// The map described by an association list, later entries overriding
/// earlier ones.
pub open spec fn assoc_map<V>(s: Seq<(u128, V)>) -> Map<u128, V>
    decreases s.len(),
{
    if s.len() == 0 {
        Map::empty()
    } else {
        assoc_map(s.drop_last()).insert(s.last().0, s.last().1)
    }
}

/// One staged operation applied to a map: `Some` is an insertion, `None` a
/// removal.
pub open spec fn apply_op<V>(m: Map<u128, V>, op: (u128, Option<V>)) -> Map<u128, V> {
    match op.1 {
        Some(v) => m.insert(op.0, v),
        None => m.remove(op.0),
    }
}

/// A sequence of staged operations applied in order.
pub open spec fn apply_ops<V>(m: Map<u128, V>, ops: Seq<(u128, Option<V>)>) -> Map<u128, V>
    decreases ops.len(),
{
    if ops.len() == 0 {
        m
    } else {
        apply_op(apply_ops(m, ops.drop_last()), ops.last())
    }
}

/// No two entries of the association list share a key.
pub open spec fn distinct_keys<V>(s: Seq<(u128, V)>) -> bool {
    forall|i: int, j: int| 0 <= i < j < s.len() ==> s[i].0 != s[j].0
}

pub proof fn lemma_assoc_map_index<V>(s: Seq<(u128, V)>, i: int)
    requires
        distinct_keys(s),
        0 <= i < s.len(),
    ensures
        assoc_map(s).contains_key(s[i].0),
        assoc_map(s)[s[i].0] == s[i].1,
    decreases s.len(),
{
    if i < s.len() - 1 {
        lemma_assoc_map_index(s.drop_last(), i);
        assert(s.drop_last()[i] == s[i]);
        assert(s.last().0 != s[i].0);
    }
}

pub proof fn lemma_assoc_map_absent<V>(s: Seq<(u128, V)>, k: u128)
    requires
        forall|i: int| 0 <= i < s.len() ==> s[i].0 != k,
    ensures
        !assoc_map(s).contains_key(k),
    decreases s.len(),
{
    if s.len() > 0 {
        lemma_assoc_map_absent(s.drop_last(), k);
    }
}

/// The domain of the described map is exactly the set of listed keys.
pub proof fn lemma_assoc_map_dom<V>(s: Seq<(u128, V)>)
    ensures
        forall|k: u128|
            assoc_map(s).contains_key(k) <==> exists|i: int| 0 <= i < s.len() && s[i].0 == k,
    decreases s.len(),
{
    if s.len() > 0 {
        lemma_assoc_map_dom(s.drop_last());
        assert(assoc_map(s) == assoc_map(s.drop_last()).insert(s.last().0, s.last().1));
        assert forall|k: u128| assoc_map(s).contains_key(k) implies exists|i: int|
            0 <= i < s.len() && s[i].0 == k by {
            if k == s.last().0 {
                assert(0 <= s.len() - 1 < s.len() && s[s.len() - 1].0 == k);
            } else {
                assert(assoc_map(s.drop_last()).contains_key(k));
                let i = choose|i: int| 0 <= i < s.drop_last().len() && s.drop_last()[i].0 == k;
                assert(s.drop_last()[i] == s[i]);
                assert(0 <= i < s.len() && s[i].0 == k);
            }
        }
        assert forall|k: u128| exists|i: int| 0 <= i < s.len() && s[i].0 == k implies assoc_map(
            s,
        ).contains_key(k) by {
            let i = choose|i: int| 0 <= i < s.len() && s[i].0 == k;
            if i < s.len() - 1 {
                assert(s.drop_last()[i] == s[i]);
                assert(0 <= i < s.drop_last().len() && s.drop_last()[i].0 == k);
                assert(assoc_map(s.drop_last()).contains_key(k));
            }
        }
    }
}

/// Overwriting an entry in place keeps the keys distinct.
proof fn lemma_distinct_update<V>(s: Seq<(u128, V)>, i: int, value: V)
    requires
        distinct_keys(s),
        0 <= i < s.len(),
    ensures
        distinct_keys(s.update(i, (s[i].0, value))),
{
    let t = s.update(i, (s[i].0, value));
    assert forall|a: int, b: int| 0 <= a < b < t.len() implies t[a].0 != t[b].0 by {
        assert(s[a].0 != s[b].0);
        assert(t[a].0 == s[a].0);
        assert(t[b].0 == s[b].0);
    }
}

/// Deleting an entry keeps the keys distinct.
proof fn lemma_distinct_remove<V>(s: Seq<(u128, V)>, i: int)
    requires
        distinct_keys(s),
        0 <= i < s.len(),
    ensures
        distinct_keys(s.remove(i)),
{
    s.remove_ensures(i);
    let t = s.remove(i);
    assert forall|a: int, b: int| 0 <= a < b < t.len() implies t[a].0 != t[b].0 by {
        if a < i {
            assert(t[a] == s[a]);
        } else {
            assert(t[a] == s[a + 1]);
        }
        if b < i {
            assert(t[b] == s[b]);
        } else {
            assert(t[b] == s[b + 1]);
        }
    }
}

/// Overwriting the entry that holds a key describes the same map as
/// inserting over it.
proof fn lemma_assoc_update_in_place<V>(s: Seq<(u128, V)>, i: int, value: V)
    requires
        distinct_keys(s),
        0 <= i < s.len(),
    ensures
        assoc_map(s.update(i, (s[i].0, value))) == assoc_map(s).insert(s[i].0, value),
    decreases s.len(),
{
    let key = s[i].0;
    let t = s.update(i, (key, value));
    if i == s.len() - 1 {
        assert(t.drop_last() =~= s.drop_last());
        assert(t.last() == (key, value));
    } else {
        lemma_assoc_update_in_place(s.drop_last(), i, value);
        assert(s.drop_last()[i] == s[i]);
        assert(t.drop_last() =~= s.drop_last().update(i, (key, value)));
        assert(t.last() == s.last());
        assert(s.last().0 != key);
        assert(assoc_map(t) == assoc_map(s.drop_last()).insert(key, value).insert(
            s.last().0,
            s.last().1,
        ));
        assert(assoc_map(s.drop_last()).insert(key, value).insert(s.last().0, s.last().1)
            =~= assoc_map(s.drop_last()).insert(s.last().0, s.last().1).insert(key, value));
    }
}

/// Deleting the entry that holds a key describes the same map as removing
/// the key.
proof fn lemma_assoc_remove_at<V>(s: Seq<(u128, V)>, i: int)
    requires
        distinct_keys(s),
        0 <= i < s.len(),
    ensures
        assoc_map(s.remove(i)) == assoc_map(s).remove(s[i].0),
    decreases s.len(),
{
    let key = s[i].0;
    let t = s.remove(i);
    s.remove_ensures(i);
    if i == s.len() - 1 {
        assert(t =~= s.drop_last());
        assert forall|j: int| 0 <= j < s.drop_last().len() implies s.drop_last()[j].0 != key by {
            assert(s[j] == s.drop_last()[j]);
        }
        lemma_assoc_map_absent(s.drop_last(), key);
        assert(assoc_map(s.drop_last()) =~= assoc_map(s).remove(key));
    } else {
        lemma_assoc_remove_at(s.drop_last(), i);
        assert(s.drop_last()[i] == s[i]);
        s.drop_last().remove_ensures(i);
        assert(t.drop_last() =~= s.drop_last().remove(i));
        assert(t.last() == s.last());
        assert(s.last().0 != key);
        assert(assoc_map(t) == assoc_map(s.drop_last()).remove(key).insert(
            s.last().0,
            s.last().1,
        ));
        assert(assoc_map(s.drop_last()).remove(key).insert(s.last().0, s.last().1) =~= assoc_map(
            s.drop_last(),
        ).insert(s.last().0, s.last().1).remove(key));
    }
}

/// One key-value index of the storage backend.
#[derive(Clone)]
pub struct MemoryMap<V> {
    entries: Vec<(u128, V)>,
    staged: Vec<(u128, Option<V>)>,
    batching: bool,
}

impl<V> MemoryMap<V> {
    /// The entries visible to readers.
    pub closed spec fn committed(&self) -> Map<u128, V> {
        assoc_map(self.entries@)
    }

    /// The writes staged by an open batch, in order.
    pub closed spec fn staged_ops(&self) -> Seq<(u128, Option<V>)> {
        self.staged@
    }

    /// Whether an atomic batch is open.
    pub closed spec fn in_batch(&self) -> bool {
        self.batching
    }

    /// The map that committing the staged writes would produce.
    pub open spec fn pending(&self) -> Map<u128, V> {
        apply_ops(self.committed(), self.staged_ops())
    }

    /// The committed entries in the map's native order.
    pub closed spec fn entry_seq(&self) -> Seq<(u128, V)> {
        self.entries@
    }

    pub closed spec fn wf(&self) -> bool {
        &&& distinct_keys(self.entries@)
        &&& (!self.batching ==> self.staged@.len() == 0)
    }

    /// While no batch is open nothing is staged, so the pending map is the
    /// committed map.
    pub proof fn lemma_idle_pending(&self)
        requires
            self.wf(),
            !self.in_batch(),
        ensures
            self.pending() == self.committed(),
            self.staged_ops() == Seq::<(u128, Option<V>)>::empty(),
    {
        assert(self.staged@ =~= Seq::<(u128, Option<V>)>::empty());
    }

    /// Every committed entry is in the committed map, and every key of the
    /// committed map is listed by some committed entry.
    pub proof fn lemma_entries_characterize(&self)
        requires
            self.wf(),
        ensures
            forall|i: int|
                0 <= i < self.entry_seq().len() ==> #[trigger] self.committed().contains_key(
                    self.entry_seq()[i].0,
                ) && self.committed()[self.entry_seq()[i].0] == self.entry_seq()[i].1,
            forall|k: u128|
                self.committed().contains_key(k) <==> exists|i: int|
                    0 <= i < self.entry_seq().len() && self.entry_seq()[i].0 == k,
    {
        let s = self.entries@;
        lemma_assoc_map_dom(s);
        assert(self.committed() == assoc_map(s));
        assert(self.entry_seq() == s);
        assert forall|i: int| 0 <= i < self.entry_seq().len() implies #[trigger] self.committed()
            .contains_key(self.entry_seq()[i].0) && self.committed()[self.entry_seq()[i].0]
            == self.entry_seq()[i].1 by {
            lemma_assoc_map_index(s, i);
            assert(assoc_map(s).contains_key(s[i].0));
            assert(assoc_map(s)[s[i].0] == s[i].1);
        }
        assert forall|k: u128| self.committed().contains_key(k) implies exists|i: int|
            0 <= i < self.entry_seq().len() && self.entry_seq()[i].0 == k by {
            assert(assoc_map(s).contains_key(k));
            let i = choose|i: int| 0 <= i < s.len() && s[i].0 == k;
            assert(0 <= i < self.entry_seq().len() && self.entry_seq()[i].0 == k);
        }
        assert forall|k: u128| exists|i: int|
            0 <= i < self.entry_seq().len() && self.entry_seq()[i].0 == k implies self.committed()
            .contains_key(k) by {
            let i = choose|i: int|
                0 <= i < self.entry_seq().len() && self.entry_seq()[i].0 == k;
            assert(0 <= i < s.len() && s[i].0 == k);
            assert(assoc_map(s).contains_key(k));
        }
    }

    pub fn new() -> (r: MemoryMap<V>)
        ensures
            r.wf(),
            r.committed() == Map::<u128, V>::empty(),
            r.staged_ops() == Seq::<(u128, Option<V>)>::empty(),
            !r.in_batch(),
    {
        MemoryMap { entries: Vec::new(), staged: Vec::new(), batching: false }
    }

    /// Looks a key up among the committed entries; staged writes are not
    /// visible to readers.
    pub fn get(&self, key: u128) -> (r: Option<&V>)
        requires
            self.wf(),
        ensures
            match r {
                Some(v) => self.committed().contains_key(key) && *v == self.committed()[key],
                None => !self.committed().contains_key(key),
            },
    {
        let n = self.entries.len();
        let mut i: usize = 0;
        while i < n
            invariant
                n == self.entries.len(),
                0 <= i <= n,
                self.wf(),
                forall|j: int| 0 <= j < i ==> self.entries@[j].0 != key,
            decreases n - i,
        {
            if self.entries[i].0 == key {
                proof {
                    lemma_assoc_map_index(self.entries@, i as int);
                }
                return Some(&self.entries[i].1);
            }
            i += 1;
        }
        proof {
            lemma_assoc_map_absent(self.entries@, key);
        }
        None
    }

    /// Reports whether this map is buffering writes.
    pub fn is_atomic_in_progress(&self) -> (r: bool)
        ensures
            r == self.in_batch(),
    {
        self.batching
    }

    pub fn contains_key(&self, key: u128) -> (r: bool)
        requires
            self.wf(),
        ensures
            r == self.committed().contains_key(key),
    {
        self.get(key).is_some()
    }

    /// Writes a key-value pair directly into the committed entries,
    /// leaving the staging area and the batch flag alone.
    fn commit_insert(&mut self, key: u128, value: V)
        requires
            distinct_keys(old(self).entries@),
        ensures
            distinct_keys(final(self).entries@),
            assoc_map(final(self).entries@) == assoc_map(old(self).entries@).insert(key, value),
            final(self).staged@ == old(self).staged@,
            final(self).batching == old(self).batching,
    {
        let n = self.entries.len();
        let mut i: usize = 0;
        while i < n
            invariant
                n == self.entries.len(),
                0 <= i <= n,
                self.entries@ == old(self).entries@,
                self.staged@ == old(self).staged@,
                self.batching == old(self).batching,
                distinct_keys(self.entries@),
                forall|j: int| 0 <= j < i ==> self.entries@[j].0 != key,
            decreases n - i,
        {
            if self.entries[i].0 == key {
                self.entries[i] = (key, value);
                proof {
                    let s_old = old(self).entries@;
                    let s_new = self.entries@;
                    assert(s_new == s_old.update(i as int, (key, value)));
                    assert((key, value) == (s_old[i as int].0, value));
                    lemma_distinct_update(s_old, i as int, value);
                    lemma_assoc_update_in_place(s_old, i as int, value);
                }
                return ;
            }
            i += 1;
        }
        self.entries.push((key, value));
        proof {
            assert(self.entries@.drop_last() =~= old(self).entries@);
            assert(self.entries@.last() == (key, value));
            assert(distinct_keys(self.entries@));
        }
    }

    /// Deletes a key directly from the committed entries, leaving the
    /// staging area and the batch flag alone.
    fn commit_remove(&mut self, key: u128)
        requires
            distinct_keys(old(self).entries@),
        ensures
            distinct_keys(final(self).entries@),
            assoc_map(final(self).entries@) == assoc_map(old(self).entries@).remove(key),
            final(self).staged@ == old(self).staged@,
            final(self).batching == old(self).batching,
    {
        let n = self.entries.len();
        let mut i: usize = 0;
        while i < n
            invariant
                n == self.entries.len(),
                0 <= i <= n,
                self.entries@ == old(self).entries@,
                self.staged@ == old(self).staged@,
                self.batching == old(self).batching,
                distinct_keys(self.entries@),
                forall|j: int| 0 <= j < i ==> self.entries@[j].0 != key,
            decreases n - i,
        {
            if self.entries[i].0 == key {
                self.entries.remove(i);
                proof {
                    let s_old = old(self).entries@;
                    let s_new = self.entries@;
                    assert(s_new == s_old.remove(i as int));
                    lemma_distinct_remove(s_old, i as int);
                    lemma_assoc_remove_at(s_old, i as int);
                }
                return ;
            }
            i += 1;
        }
        proof {
            lemma_assoc_map_absent(self.entries@, key);
            assert(assoc_map(self.entries@) =~= assoc_map(old(self).entries@).remove(key));
        }
    }

    /// Inserts a key-value pair: staged while a batch is open, committed
    /// directly otherwise. Either way the pair lands in the pending map.
    pub fn insert(&mut self, key: u128, value: V)
        requires
            old(self).wf(),
        ensures
            final(self).wf(),
            final(self).in_batch() == old(self).in_batch(),
            final(self).pending() == old(self).pending().insert(key, value),
            old(self).in_batch() ==> final(self).committed() == old(self).committed()
                && final(self).staged_ops() == old(self).staged_ops().push((key, Some(value))),
            !old(self).in_batch() ==> final(self).committed() == old(self).committed().insert(
                key,
                value,
            ) && final(self).staged_ops() == old(self).staged_ops(),
    {
        if self.batching {
            self.staged.push((key, Some(value)));
            proof {
                assert(self.staged@.drop_last() =~= old(self).staged@);
                assert(self.staged@.last() == (key, Some(value)));
            }
        } else {
            self.commit_insert(key, value);
        }
    }

    /// Removes a key: staged while a batch is open, committed directly
    /// otherwise. Either way the key leaves the pending map.
    pub fn remove(&mut self, key: u128)
        requires
            old(self).wf(),
        ensures
            final(self).wf(),
            final(self).in_batch() == old(self).in_batch(),
            final(self).pending() == old(self).pending().remove(key),
            old(self).in_batch() ==> final(self).committed() == old(self).committed()
                && final(self).staged_ops() == old(self).staged_ops().push((key, None)),
            !old(self).in_batch() ==> final(self).committed() == old(self).committed().remove(key)
                && final(self).staged_ops() == old(self).staged_ops(),
    {
        if self.batching {
            self.staged.push((key, None));
            proof {
                assert(self.staged@.drop_last() =~= old(self).staged@);
                assert(self.staged@.last() == (key, None::<V>));
            }
        } else {
            self.commit_remove(key);
        }
    }

    /// Switches the map into buffering mode. Starting again while a batch is
    /// already open keeps the batch as it is.
    pub fn start_atomic(&mut self)
        requires
            old(self).wf(),
        ensures
            final(self).wf(),
            final(self).in_batch(),
            final(self).committed() == old(self).committed(),
            final(self).staged_ops() == old(self).staged_ops(),
    {
        self.batching = true;
    }

    /// Discards all staged writes and closes the batch.
    pub fn abort_atomic(&mut self)
        requires
            old(self).wf(),
        ensures
            final(self).wf(),
            !final(self).in_batch(),
            final(self).committed() == old(self).committed(),
            final(self).staged_ops() == Seq::<(u128, Option<V>)>::empty(),
    {
        self.staged.clear();
        self.batching = false;
    }

    /// Applies all staged writes to the committed entries as one unit and
    /// closes the batch. A no-op when no batch is open.
    pub fn finish_atomic(&mut self)
        requires
            old(self).wf(),
        ensures
            final(self).wf(),
            !final(self).in_batch(),
            final(self).committed() == old(self).pending(),
            final(self).staged_ops() == Seq::<(u128, Option<V>)>::empty(),
    {
        let ghost committed0 = assoc_map(self.entries@);
        let ghost ops = self.staged@;
        while self.staged.len() > 0
            invariant
                distinct_keys(self.entries@),
                self.staged@.len() <= ops.len(),
                self.staged@ =~= ops.skip(ops.len() - self.staged@.len()),
                assoc_map(self.entries@) == apply_ops(
                    committed0,
                    ops.take(ops.len() - self.staged@.len()),
                ),
            decreases self.staged@.len(),
    {
            let ghost k = ops.len() - self.staged@.len();
            let op = self.staged.remove(0);
            proof {
                ops.skip(k).remove_ensures(0);
                assert(op == ops[k]);
                assert(self.staged@ =~= ops.skip(k + 1));
                assert(ops.take(k + 1).drop_last() =~= ops.take(k));
                assert(ops.take(k + 1).last() == ops[k]);
            }
            match op {
                (key, Some(value)) => {
                    self.commit_insert(key, value);
                },
                (key, None) => {
                    self.commit_remove(key);
                },
            }
        }
        proof {
            assert(ops.take(ops.len() - 0) =~= ops);
        }
        self.batching = false;
    }

    /// Returns the number of committed entries.
    pub fn num_entries(&self) -> (r: usize)
        ensures
            r == self.entry_seq().len(),
    {
        self.entries.len()
    }

    /// Returns the committed entry at a position of the native order.
    pub fn entry_at(&self, i: usize) -> (r: &(u128, V))
        requires
            i < self.entry_seq().len(),
        ensures
            *r == self.entry_seq()[i as int],
    {
        &self.entries[i]
    }

    /// Returns the committed keys in the map's native order.
    pub fn key_vec(&self) -> (r: Vec<u128>)
        requires
            self.wf(),
        ensures
            r@.no_duplicates(),
            forall|k: u128| r@.contains(k) <==> self.committed().contains_key(k),
    {
        let n = self.entries.len();
        let mut out: Vec<u128> = Vec::new();
        let mut i: usize = 0;
        while i < n
            invariant
                n == self.entries.len(),
                0 <= i <= n,
                self.wf(),
                out@.len() == i,
                forall|j: int| 0 <= j < i ==> out@[j] == self.entries@[j].0,
            decreases n - i,
        {
            out.push(self.entries[i].0);
            i += 1;
        }
        proof {
            self.lemma_entries_characterize();
            assert(out@.no_duplicates()) by {
                assert forall|a: int, b: int|
                    0 <= a < b < out@.len() implies out@[a] != out@[b] by {
                    assert(out@[a] == self.entries@[a].0);
                    assert(out@[b] == self.entries@[b].0);
                }
            }
            assert forall|k: u128| out@.contains(k) implies self.committed().contains_key(k) by {
                let j = choose|j: int| 0 <= j < out@.len() && out@[j] == k;
                assert(self.committed().contains_key(self.entry_seq()[j].0));
            }
            assert forall|k: u128| self.committed().contains_key(k) implies out@.contains(k) by {
                let j = choose|j: int|
                    0 <= j < self.entry_seq().len() && self.entry_seq()[j].0 == k;
                assert(out@[j] == k);
            }
        }
        out
    }
}

} // verus!
