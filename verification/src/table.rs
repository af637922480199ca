//! A mapping from cell names to values, backed by a vector of entries with
//! pairwise-distinct keys. Both the cell store and the dependency graph are
//! instances of it; each is viewed as a `Map` from name to value view.

use vstd::prelude::*;
use crate::text::str_eq;

verus! {

/// `entries` holds no two pairs with the same key.
pub open spec fn distinct_keys<T>(entries: Seq<(String, T)>) -> bool {
    forall|i: int, j: int|
        0 <= i < j < entries.len() ==> entries[i].0@ != entries[j].0@
}

/// The map an entry sequence denotes: later entries win.
pub open spec fn map_of<T: View>(entries: Seq<(String, T)>) -> Map<Seq<char>, T::V>
    decreases entries.len(),
{
    if entries.len() == 0 {
        Map::empty()
    } else {
        map_of(entries.drop_last()).insert(entries.last().0@, entries.last().1@)
    }
}

pub proof fn lemma_map_of_contains<T: View>(entries: Seq<(String, T)>, k: Seq<char>)
    ensures
        map_of(entries).contains_key(k) <==> exists|i: int|
            0 <= i < entries.len() && entries[i].0@ == k,
    decreases entries.len(),
{
    if entries.len() > 0 {
        let pre = entries.drop_last();
        lemma_map_of_contains(pre, k);
        if entries.last().0@ == k {
            assert(entries[entries.len() - 1].0@ == k);
        } else {
            if map_of(entries).contains_key(k) {
                let i = choose|i: int| 0 <= i < pre.len() && pre[i].0@ == k;
                assert(entries[i].0@ == k);
            }
            if exists|i: int| 0 <= i < entries.len() && entries[i].0@ == k {
                let i = choose|i: int| 0 <= i < entries.len() && entries[i].0@ == k;
                assert(pre[i].0@ == k);
            }
        }
    }
}

pub proof fn lemma_map_of_get<T: View>(entries: Seq<(String, T)>, i: int)
    requires
        distinct_keys(entries),
        0 <= i < entries.len(),
    ensures
        map_of(entries).contains_key(entries[i].0@),
        map_of(entries)[entries[i].0@] == entries[i].1@,
    decreases entries.len(),
{
    if i < entries.len() - 1 {
        let pre = entries.drop_last();
        lemma_map_of_get(pre, i);
        assert(entries.last().0@ != entries[i].0@);
    }
}

pub proof fn lemma_map_of_dom_finite<T: View>(entries: Seq<(String, T)>)
    ensures
        map_of(entries).dom().finite(),
    decreases entries.len(),
{
    if entries.len() > 0 {
        lemma_map_of_dom_finite(entries.drop_last());
    }
}

proof fn lemma_map_of_update<T: View>(entries: Seq<(String, T)>, i: int, pair: (String, T))
    requires
        distinct_keys(entries),
        0 <= i < entries.len(),
        pair.0@ == entries[i].0@,
    ensures
        distinct_keys(entries.update(i, pair)),
        map_of(entries.update(i, pair)) == map_of(entries).insert(pair.0@, pair.1@),
    decreases entries.len(),
{
    let upd = entries.update(i, pair);
    if i == entries.len() - 1 {
        assert(upd.drop_last() =~= entries.drop_last());
        assert(map_of(upd) =~= map_of(entries).insert(pair.0@, pair.1@));
    } else {
        let pre = entries.drop_last();
        lemma_map_of_update(pre, i, pair);
        assert(upd.drop_last() =~= pre.update(i, pair));
        assert(upd.last() == entries.last());
        assert(entries.last().0@ != pair.0@);
        assert(map_of(upd) =~= map_of(entries).insert(pair.0@, pair.1@));
    }
}

proof fn lemma_map_of_remove<T: View>(entries: Seq<(String, T)>, i: int)
    requires
        distinct_keys(entries),
        0 <= i < entries.len(),
    ensures
        distinct_keys(entries.remove(i)),
        map_of(entries.remove(i)) == map_of(entries).remove(entries[i].0@),
    decreases entries.len(),
{
    let k = entries[i].0@;
    let rem = entries.remove(i);
    if i == entries.len() - 1 {
        assert(rem =~= entries.drop_last());
        lemma_map_of_contains(entries.drop_last(), k);
        assert(map_of(rem) =~= map_of(entries).remove(k));
    } else {
        let pre = entries.drop_last();
        lemma_map_of_remove(pre, i);
        assert(rem.drop_last() =~= pre.remove(i));
        assert(rem.last() == entries.last());
        assert(entries.last().0@ != k);
        assert(map_of(rem) =~= map_of(entries).remove(k));
    }
}

/// A name-to-value table with distinct keys, viewed as a `Map`.
pub struct Table<V> {
    entries: Vec<(String, V)>,
}

impl<V: View> View for Table<V> {
    type V = Map<Seq<char>, <V as View>::V>;

    closed spec fn view(&self) -> Map<Seq<char>, <V as View>::V> {
        map_of(self.entries@)
    }
}

impl<V: View> Table<V> {
    /// The keys of the backing vector are pairwise distinct.
    pub closed spec fn wf(&self) -> bool {
        distinct_keys(self.entries@)
    }

    /// The table's key set is finite.
    pub proof fn lemma_dom_finite(&self)
        ensures
            self@.dom().finite(),
    {
        lemma_map_of_dom_finite(self.entries@);
    }

    /// An empty table.
    pub fn new() -> (t: Table<V>)
        ensures
            t.wf(),
            t@ == Map::<Seq<char>, <V as View>::V>::empty(),
    {
        Table { entries: Vec::new() }
    }

    fn index_of(&self, name: &str) -> (r: Option<usize>)
        ensures
            match r {
                Some(i) => i < self.entries@.len() && self.entries@[i as int].0@ == name@,
                None => forall|i: int|
                    0 <= i < self.entries@.len() ==> self.entries@[i].0@ != name@,
            },
    {
        let mut i: usize = 0;
        while i < self.entries.len()
            invariant
                i <= self.entries@.len(),
                forall|k: int| 0 <= k < i ==> self.entries@[k].0@ != name@,
            decreases self.entries@.len() - i,
        {
            if str_eq(self.entries[i].0.as_str(), name) {
                return Some(i);
            }
            i += 1;
        }
        None
    }

    /// Looks a name up; absent names yield `None`.
    pub fn get(&self, name: &str) -> (r: Option<&V>)
        requires
            self.wf(),
        ensures
            match r {
                Some(v) => self@.contains_key(name@) && v@ == self@[name@],
                None => !self@.contains_key(name@),
            },
    {
        proof {
            lemma_map_of_contains(self.entries@, name@);
        }
        match self.index_of(name) {
            Some(i) => {
                proof {
                    lemma_map_of_get(self.entries@, i as int);
                }
                Some(&self.entries[i].1)
            },
            None => None,
        }
    }

    /// Binds `name` to `v`, overwriting any earlier binding.
    pub fn set(&mut self, name: String, v: V)
        requires
            old(self).wf(),
        ensures
            final(self).wf(),
            final(self)@ == old(self)@.insert(name@, v@),
    {
        match self.index_of(name.as_str()) {
            Some(i) => {
                proof {
                    lemma_map_of_update(self.entries@, i as int, (name, v));
                }
                let ghost pre = self.entries@;
                let _ = self.entries.remove(i);
                self.entries.insert(i, (name, v));
                proof {
                    assert(self.entries@ =~= pre.update(i as int, (name, v)));
                }
            },
            None => {
                let ghost pre = self.entries@;
                self.entries.push((name, v));
                proof {
                    assert(self.entries@.drop_last() =~= pre);
                    assert(forall|i: int, j: int|
                        0 <= i < j < self.entries@.len() ==> self.entries@[i].0@
                            != self.entries@[j].0@);
                }
            },
        }
    }

    /// Removes and returns the binding of `name`, if any.
    pub fn remove_entry(&mut self, name: &str) -> (r: Option<V>)
        requires
            old(self).wf(),
        ensures
            final(self).wf(),
            match r {
                Some(v) => old(self)@.contains_key(name@) && v@ == old(self)@[name@]
                    && final(self)@ == old(self)@.remove(name@),
                None => !old(self)@.contains_key(name@) && final(self)@ == old(self)@,
            },
    {
        proof {
            lemma_map_of_contains(self.entries@, name@);
        }
        match self.index_of(name) {
            Some(i) => {
                proof {
                    lemma_map_of_get(self.entries@, i as int);
                    lemma_map_of_remove(self.entries@, i as int);
                }
                let (_, v) = self.entries.remove(i);
                Some(v)
            },
            None => None,
        }
    }
}

} // verus!
