//! Small maps kept as lists of entries with distinct keys, for the
//! bookkeeping of a connection (running subagents, their last words, the
//! built-in calls waiting for their steps to finish).

use vstd::prelude::*;
use crate::types::str_equal;

verus! {

/// Keys that can be compared by their views.
pub trait KeyEq: View + Sized {
    fn key_eq(&self, other: &Self) -> (r: bool)
        ensures
            r == (self@ == other@);
}

impl KeyEq for String {
    fn key_eq(&self, other: &Self) -> (r: bool) {
        str_equal(self.as_str(), other.as_str())
    }
}

impl KeyEq for (String, u32) {
    fn key_eq(&self, other: &Self) -> (r: bool) {
        str_equal(self.0.as_str(), other.0.as_str()) && self.1 == other.1
    }
}

/// The map that a list of entries stands for; later entries win.
pub open spec fn entries_map<K: View, V>(entries: Seq<(K, V)>) -> Map<K::V, V>
    decreases entries.len(),
{
    if entries.len() == 0 {
        Map::empty()
    } else {
        entries_map(entries.drop_last()).insert(entries.last().0@, entries.last().1)
    }
}

/// No key occurs twice.
pub open spec fn distinct_keys<K: View, V>(entries: Seq<(K, V)>) -> bool {
    forall|i: int, j: int| 0 <= i < j < entries.len() ==> (#[trigger] entries[i]).0@ != (#[trigger] entries[j]).0@
}

proof fn lemma_map_at<K: View, V>(entries: Seq<(K, V)>, i: int)
    requires
        0 <= i < entries.len(),
        distinct_keys(entries),
    ensures
        entries_map(entries).contains_key(entries[i].0@),
        entries_map(entries)[entries[i].0@] == entries[i].1,
    decreases entries.len(),
{
    let d = entries.drop_last();
    if i < entries.len() - 1 {
        assert(d[i] == entries[i]);
        assert(entries.last().0@ != entries[i].0@);
        lemma_map_at(d, i);
    }
}

proof fn lemma_map_absent<K: View, V>(entries: Seq<(K, V)>, key: K::V)
    requires
        forall|k: int| 0 <= k < entries.len() ==> entries[k].0@ != key,
    ensures
        !entries_map(entries).contains_key(key),
    decreases entries.len(),
{
    if entries.len() > 0 {
        let d = entries.drop_last();
        assert forall|k: int| 0 <= k < d.len() implies d[k].0@ != key by {
            assert(d[k] == entries[k]);
        }
        lemma_map_absent(d, key);
    }
}

proof fn lemma_map_update<K: View, V>(entries: Seq<(K, V)>, i: int, e: (K, V))
    requires
        0 <= i < entries.len(),
        entries[i].0@ == e.0@,
        distinct_keys(entries),
    ensures
        distinct_keys(entries.update(i, e)),
        entries_map(entries.update(i, e)) == entries_map(entries).insert(e.0@, e.1),
    decreases entries.len(),
{
    let u = entries.update(i, e);
    let d = entries.drop_last();
    assert forall|a: int, b: int| 0 <= a < b < u.len() implies (#[trigger] u[a]).0@ != (#[trigger] u[b]).0@ by {
        assert(u[a].0@ == entries[a].0@ && u[b].0@ == entries[b].0@);
    }
    if i == entries.len() - 1 {
        assert(u.drop_last() =~= d);
        assert(entries_map(u) =~= entries_map(entries).insert(e.0@, e.1));
    } else {
        assert(u.drop_last() =~= d.update(i, e));
        assert forall|a: int, b: int| 0 <= a < b < d.len() implies (#[trigger] d[a]).0@ != (#[trigger] d[b]).0@ by {
            assert(d[a] == entries[a] && d[b] == entries[b]);
        }
        assert(d[i] == entries[i]);
        lemma_map_update(d, i, e);
        assert(entries.last().0@ != e.0@);
        assert(u.last() == entries.last());
        assert(entries_map(u) =~= entries_map(entries).insert(e.0@, e.1));
    }
}

proof fn lemma_map_remove<K: View, V>(entries: Seq<(K, V)>, i: int)
    requires
        0 <= i < entries.len(),
        distinct_keys(entries),
    ensures
        distinct_keys(entries.remove(i)),
        entries_map(entries.remove(i)) == entries_map(entries).remove(entries[i].0@),
    decreases entries.len(),
{
    let r = entries.remove(i);
    let d = entries.drop_last();
    assert forall|a: int, b: int| 0 <= a < b < r.len() implies (#[trigger] r[a]).0@ != (#[trigger] r[b]).0@ by {
        let a2 = if a < i { a } else { a + 1 };
        let b2 = if b < i { b } else { b + 1 };
        assert(r[a] == entries[a2] && r[b] == entries[b2]);
    }
    if i == entries.len() - 1 {
        assert(r =~= d);
        assert forall|k: int| 0 <= k < d.len() implies d[k].0@ != entries[i].0@ by {
            assert(d[k] == entries[k]);
        }
        lemma_map_absent(d, entries[i].0@);
        assert(entries_map(r) =~= entries_map(entries).remove(entries[i].0@));
    } else {
        assert(r.drop_last() =~= d.remove(i));
        assert(r.last() == entries.last());
        assert forall|a: int, b: int| 0 <= a < b < d.len() implies (#[trigger] d[a]).0@ != (#[trigger] d[b]).0@ by {
            assert(d[a] == entries[a] && d[b] == entries[b]);
        }
        assert(d[i] == entries[i]);
        lemma_map_remove(d, i);
        assert(entries.last().0@ != entries[i].0@);
        assert(entries_map(r) =~= entries_map(entries).remove(entries[i].0@));
    }
}

/// A map from keys to values, with distinct keys.
pub struct KeyedMap<K, V> {
    entries: Vec<(K, V)>,
}

impl<K: KeyEq, V> KeyedMap<K, V> {
    /// The map held.
    pub closed spec fn map(&self) -> Map<K::V, V> {
        entries_map(self.entries@)
    }

    /// Keys are distinct.
    pub closed spec fn wf(&self) -> bool {
        distinct_keys(self.entries@)
    }

    /// An empty map.
    pub fn new() -> (m: Self)
        ensures
            m.wf(),
            m.map() == Map::<K::V, V>::empty(),
    {
        KeyedMap { entries: Vec::new() }
    }

    fn find(&self, key: &K) -> (r: Option<usize>)
        requires
            self.wf(),
        ensures
            match r {
                Some(i) => i < self.entries@.len() && self.entries@[i as int].0@ == key@,
                None => forall|k: int| 0 <= k < self.entries@.len() ==> self.entries@[k].0@ != key@,
            },
    {
        let mut i: usize = 0;
        while i < self.entries.len()
            invariant
                i <= self.entries@.len(),
                forall|k: int| 0 <= k < i ==> self.entries@[k].0@ != key@,
            decreases self.entries@.len() - i,
        {
            if self.entries[i].0.key_eq(key) {
                return Some(i);
            }
            i = i + 1;
        }
        None
    }

    /// The value under `key`.
    pub fn get(&self, key: &K) -> (r: Option<&V>)
        requires
            self.wf(),
        ensures
            match r {
                Some(v) => self.map().contains_key(key@) && *v == self.map()[key@],
                None => !self.map().contains_key(key@),
            },
    {
        match self.find(key) {
            Some(i) => {
                proof { lemma_map_at(self.entries@, i as int); }
                Some(&self.entries[i].1)
            },
            None => {
                proof { lemma_map_absent(self.entries@, key@); }
                None
            },
        }
    }

    /// Whether the map is empty.
    pub fn is_empty(&self) -> (b: bool)
        requires
            self.wf(),
        ensures
            b == self.map().dom().is_empty(),
    {
        if self.entries.len() == 0 {
            assert(self.map().dom() =~= Set::<K::V>::empty());
            true
        } else {
            proof {
                lemma_map_at(self.entries@, 0);
                assert(self.map().dom().contains(self.entries@[0].0@));
            }
            false
        }
    }

    /// Stores `value` under `key`, replacing what was there.
    pub fn insert(&mut self, key: K, value: V)
        requires
            old(self).wf(),
        ensures
            final(self).wf(),
            final(self).map() == old(self).map().insert(key@, value),
    {
        match self.find(&key) {
            Some(i) => {
                proof { lemma_map_update(self.entries@, i as int, (key, value)); }
                self.entries.set(i, (key, value));
            },
            None => {
                let ghost old_entries = self.entries@;
                self.entries.push((key, value));
                proof {
                    assert(self.entries@.drop_last() == old_entries);
                    assert forall|a: int, b: int| 0 <= a < b < self.entries@.len() implies
                        (#[trigger] self.entries@[a]).0@ != (#[trigger] self.entries@[b]).0@ by {
                        assert(self.entries@[a] == old_entries[a]);
                        if b < old_entries.len() {
                            assert(self.entries@[b] == old_entries[b]);
                        }
                    }
                }
            },
        }
    }

    /// Takes the value under `key` out of the map.
    pub fn remove(&mut self, key: &K) -> (r: Option<V>)
        requires
            old(self).wf(),
        ensures
            final(self).wf(),
            final(self).map() == old(self).map().remove(key@),
            match r {
                Some(v) => old(self).map().contains_key(key@) && v == old(self).map()[key@],
                None => !old(self).map().contains_key(key@),
            },
    {
        match self.find(key) {
            Some(i) => {
                proof {
                    lemma_map_at(self.entries@, i as int);
                    lemma_map_remove(self.entries@, i as int);
                }
                let (_, v) = self.entries.remove(i);
                Some(v)
            },
            None => {
                proof {
                    lemma_map_absent(self.entries@, key@);
                    assert(self.map().remove(key@) =~= self.map());
                }
                None
            },
        }
    }

    /// Empties the map.
    pub fn clear(&mut self)
        ensures
            final(self).wf(),
            final(self).map() == Map::<K::V, V>::empty(),
    {
        self.entries.clear();
        assert(self.map() =~= Map::<K::V, V>::empty());
    }
}

} // verus!
