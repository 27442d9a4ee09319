//! A table keyed by `NodeKey`: each key occurs at most once, entries keep
//! the order in which their keys were first inserted, and inserting an
//! existing key replaces its value in place.

use vstd::prelude::*;

use crate::model::{KeyView, NodeKey};

verus! {

/// The value stored under `k` in `entries`, if any (the last entry with
/// that key; with distinct keys, the only one).
pub open spec fn lookup<V>(entries: Seq<(KeyView, V)>, k: KeyView) -> Option<V>
    decreases entries.len(),
{
    if entries.len() == 0 {
        None
    } else if entries.last().0 == k {
        Some(entries.last().1)
    } else {
        lookup(entries.drop_last(), k)
    }
}

/// No key occurs twice in `entries`.
pub open spec fn distinct_keys<V>(entries: Seq<(KeyView, V)>) -> bool {
    forall|i: int, j: int|
        0 <= i < entries.len() && 0 <= j < entries.len() && i != j ==> entries[i].0
            != entries[j].0
}

/// With distinct keys, the value looked up for the key of entry `i` is the
/// value of entry `i`; and a key that no entry carries is looked up as `None`.
pub proof fn lemma_lookup<V>(entries: Seq<(KeyView, V)>, k: KeyView)
    requires
        distinct_keys(entries),
    ensures
        forall|i: int|
            0 <= i < entries.len() && entries[i].0 == k ==> lookup(entries, k) == Some(
                entries[i].1,
            ),
        (forall|i: int| 0 <= i < entries.len() ==> entries[i].0 != k) ==> lookup(entries, k)
            is None,
        lookup(entries, k) is Some ==> exists|i: int|
            0 <= i < entries.len() && entries[i].0 == k,
    decreases entries.len(),
{
    if entries.len() > 0 {
        let prefix = entries.drop_last();
        assert(distinct_keys(prefix)) by {
            assert forall|i: int, j: int|
                0 <= i < prefix.len() && 0 <= j < prefix.len() && i != j implies prefix[i].0
                != prefix[j].0 by {
                assert(prefix[i] == entries[i]);
                assert(prefix[j] == entries[j]);
            }
        }
        lemma_lookup(prefix, k);
        assert forall|i: int|
            0 <= i < entries.len() && entries[i].0 == k implies lookup(entries, k) == Some(
            entries[i].1,
        ) by {
            if i < entries.len() - 1 {
                assert(prefix[i] == entries[i]);
                assert(entries.last().0 != k);
            }
        }
        if lookup(entries, k) is Some && entries.last().0 != k {
            let j = choose|j: int| 0 <= j < prefix.len() && prefix[j].0 == k;
            assert(entries[j] == prefix[j]);
        }
        if forall|i: int| 0 <= i < entries.len() ==> entries[i].0 != k {
            assert forall|i: int| 0 <= i < prefix.len() implies prefix[i].0 != k by {
                assert(prefix[i] == entries[i]);
            }
        }
    }
}

/// Replacing the value of an existing entry changes what is looked up for
/// its key only.
pub proof fn lemma_lookup_update<V>(entries: Seq<(KeyView, V)>, i: int, v: V, k: KeyView)
    requires
        distinct_keys(entries),
        0 <= i < entries.len(),
    ensures
        distinct_keys(entries.update(i, (entries[i].0, v))),
        lookup(entries.update(i, (entries[i].0, v)), k) == if k == entries[i].0 {
            Some(v)
        } else {
            lookup(entries, k)
        },
{
    let updated = entries.update(i, (entries[i].0, v));
    assert(distinct_keys(updated)) by {
        assert forall|a: int, b: int|
            0 <= a < updated.len() && 0 <= b < updated.len() && a != b implies updated[a].0
            != updated[b].0 by {
            assert(updated[a].0 == entries[a].0);
            assert(updated[b].0 == entries[b].0);
        }
    }
    lemma_lookup(entries, k);
    lemma_lookup(updated, k);
    if k == entries[i].0 {
        assert(updated[i].0 == k);
    } else if lookup(entries, k) is Some {
        let j = choose|j: int| 0 <= j < entries.len() && entries[j].0 == k;
        assert(updated[j] == entries[j]);
    } else {
        assert forall|j: int| 0 <= j < updated.len() implies updated[j].0 != k by {
            if j != i {
                assert(updated[j] == entries[j]);
            }
        }
    }
}


/// The position of the first entry whose key is `k`, searching from `i`.
pub open spec fn key_index_from<V>(entries: Seq<(KeyView, V)>, k: KeyView, i: int) -> Option<int>
    decreases entries.len() - i,
{
    if i < 0 || i >= entries.len() {
        None
    } else if entries[i].0 == k {
        Some(i)
    } else {
        key_index_from(entries, k, i + 1)
    }
}

/// The position of the first entry whose key is `k`.
pub open spec fn key_index<V>(entries: Seq<(KeyView, V)>, k: KeyView) -> Option<int> {
    key_index_from(entries, k, 0)
}

/// The entries after storing `v` under `k`: the entry with that key takes
/// the new value in its place, or a new entry is appended.
pub open spec fn insert_entry<V>(entries: Seq<(KeyView, V)>, k: KeyView, v: V) -> Seq<(KeyView, V)> {
    match key_index(entries, k) {
        Some(i) => entries.update(i, (k, v)),
        None => entries.push((k, v)),
    }
}

/// The search from `i` finds the first entry at or after `i` with key `k`.
pub proof fn lemma_key_index_from<V>(entries: Seq<(KeyView, V)>, k: KeyView, i: int)
    requires
        0 <= i,
    ensures
        key_index_from(entries, k, i) matches Some(j) ==> {
            &&& i <= j < entries.len()
            &&& entries[j].0 == k
            &&& forall|m: int| i <= m < j ==> entries[m].0 != k
        },
        key_index_from(entries, k, i) is None ==> forall|m: int|
            i <= m < entries.len() ==> entries[m].0 != k,
    decreases entries.len() - i,
{
    if i < entries.len() && entries[i].0 != k {
        lemma_key_index_from(entries, k, i + 1);
    }
}

/// Storing `v` under `k` keeps the keys distinct and changes what is looked
/// up for `k` only, to `v`.
pub proof fn lemma_insert_entry<V>(entries: Seq<(KeyView, V)>, k: KeyView, v: V)
    requires
        distinct_keys(entries),
    ensures
        distinct_keys(insert_entry(entries, k, v)),
        forall|k2: KeyView|
            #[trigger] lookup(insert_entry(entries, k, v), k2) == if k2 == k {
                Some(v)
            } else {
                lookup(entries, k2)
            },
{
    lemma_key_index_from(entries, k, 0);
    match key_index(entries, k) {
        Some(i) => {
            assert(entries.update(i, (k, v)) == entries.update(i, (entries[i].0, v)));
            assert forall|k2: KeyView|
                #[trigger] lookup(insert_entry(entries, k, v), k2) == if k2 == k {
                    Some(v)
                } else {
                    lookup(entries, k2)
                } by {
                lemma_lookup_update(entries, i, v, k2);
            }
            lemma_lookup_update(entries, i, v, k);
        },
        None => {
            let pushed = entries.push((k, v));
            assert(distinct_keys(pushed)) by {
                assert forall|a: int, b: int|
                    0 <= a < pushed.len() && 0 <= b < pushed.len() && a != b implies pushed[a].0
                    != pushed[b].0 by {
                    if a < entries.len() {
                        assert(pushed[a] == entries[a]);
                    }
                    if b < entries.len() {
                        assert(pushed[b] == entries[b]);
                    }
                }
            }
            assert forall|k2: KeyView|
                #[trigger] lookup(insert_entry(entries, k, v), k2) == if k2 == k {
                    Some(v)
                } else {
                    lookup(entries, k2)
                } by {
                assert(pushed.drop_last() =~= entries);
            }
        },
    }
}

/// A table from `NodeKey` to `V` in which every key occurs at most once.
pub struct KeyTable<V: View> {
    entries: Vec<(NodeKey, V)>,
}

impl<V: View> KeyTable<V> {
    /// The entries in table order, keys and values taken by their views.
    pub closed spec fn pairs(&self) -> Seq<(KeyView, V::V)> {
        self.entries@.map_values(|e: (NodeKey, V)| (e.0@, e.1@))
    }

    #[verifier::type_invariant]
    spec fn keys_are_distinct(&self) -> bool {
        distinct_keys(self.pairs())
    }

    /// The value stored under `k`, if any.
    pub open spec fn get_spec(&self, k: KeyView) -> Option<V::V> {
        lookup(self.pairs(), k)
    }

    /// The table as a map from key to value.
    pub open spec fn map_view(&self) -> Map<KeyView, V::V> {
        Map::new(|k: KeyView| self.get_spec(k) is Some, |k: KeyView| self.get_spec(k)->0)
    }

    /// An empty table.
    pub fn new() -> (res: Self)
        ensures
            res.pairs() == Seq::<(KeyView, V::V)>::empty(),
    {
        let res = KeyTable { entries: Vec::new() };
        assert(res.pairs() =~= Seq::<(KeyView, V::V)>::empty());
        res
    }

    /// The number of entries; and a reminder that no key repeats.
    pub fn len(&self) -> (res: usize)
        ensures
            res == self.pairs().len(),
            distinct_keys(self.pairs()),
    {
        proof {
            use_type_invariant(self);
        }
        self.entries.len()
    }

    /// The key of entry `i`.
    pub fn key_at(&self, i: usize) -> (res: &NodeKey)
        requires
            i < self.pairs().len(),
        ensures
            res@ == self.pairs()[i as int].0,
    {
        &self.entries[i].0
    }

    /// The value of entry `i`.
    pub fn value_at(&self, i: usize) -> (res: &V)
        requires
            i < self.pairs().len(),
        ensures
            res@ == self.pairs()[i as int].1,
    {
        &self.entries[i].1
    }

    /// The position of the entry whose key is `key`, if any.
    pub fn position(&self, key: &NodeKey) -> (res: Option<usize>)
        ensures
            res matches Some(i) ==> key_index(self.pairs(), key@) == Some(i as int),
            res is None ==> key_index(self.pairs(), key@) is None,
    {
        let n = self.entries.len();
        let mut i: usize = 0;
        while i < n
            invariant
                n == self.pairs().len(),
                i <= n,
                key_index(self.pairs(), key@) == key_index_from(self.pairs(), key@, i as int),
            decreases n - i,
        {
            let k = &self.entries[i].0;
            assert(self.pairs()[i as int].0 == k@);
            if k.0 == key.0 && k.1 == key.1 {
                return Some(i);
            }
            i = i + 1;
        }
        None
    }

    /// Whether some entry has the key `key`.
    pub fn contains_key(&self, key: &NodeKey) -> (res: bool)
        ensures
            res == (self.get_spec(key@) is Some),
            res == self.map_view().contains_key(key@),
    {
        proof {
            use_type_invariant(self);
            lemma_lookup(self.pairs(), key@);
            lemma_key_index_from(self.pairs(), key@, 0);
        }
        self.position(key).is_some()
    }

    /// The value stored under `key`, if any.
    pub fn get(&self, key: &NodeKey) -> (res: Option<&V>)
        ensures
            res matches Some(v) ==> self.get_spec(key@) == Some(v@),
            res is None ==> self.get_spec(key@) is None,
    {
        proof {
            use_type_invariant(self);
            lemma_lookup(self.pairs(), key@);
            lemma_key_index_from(self.pairs(), key@, 0);
        }
        match self.position(key) {
            Some(i) => Some(&self.entries[i].1),
            None => None,
        }
    }

    /// Stores `value` under `key`: an existing entry with that key keeps its
    /// place and takes the new value; otherwise the entry is appended.
    pub fn insert(&mut self, key: NodeKey, value: V)
        ensures
            final(self).pairs() == insert_entry(old(self).pairs(), key@, value@),
            forall|k: KeyView|
                #[trigger] final(self).get_spec(k) == if k == key@ {
                    Some(value@)
                } else {
                    old(self).get_spec(k)
                },
    {
        proof {
            use_type_invariant(&*self);
        }
        let ghost before = self.pairs();
        let ghost kv = key@;
        let ghost vv = value@;
        proof {
            lemma_key_index_from(before, kv, 0);
        }
        match self.position(&key) {
            Some(i) => {
                proof {
                    assert forall|k: KeyView|
                        lookup(before.update(i as int, (before[i as int].0, vv)), k) == if k
                            == kv {
                            Some(vv)
                        } else {
                            lookup(before, k)
                        } by {
                        lemma_lookup_update(before, i as int, vv, k);
                    }
                    lemma_lookup_update(before, i as int, vv, kv);
                }
                let mut entries: Vec<(NodeKey, V)> = Vec::new();
                std::mem::swap(&mut entries, &mut self.entries);
                entries.set(i, (key, value));
                assert(entries@.map_values(|e: (NodeKey, V)| (e.0@, e.1@)) =~= before.update(
                    i as int,
                    (before[i as int].0, vv),
                ));
                self.entries = entries;
            },
            None => {
                let ghost pushed = before.push((kv, vv));
                proof {
                    assert(distinct_keys(pushed)) by {
                        assert forall|a: int, b: int|
                            0 <= a < pushed.len() && 0 <= b < pushed.len() && a != b implies pushed[a].0
                            != pushed[b].0 by {
                            if a < before.len() {
                                assert(pushed[a] == before[a]);
                            }
                            if b < before.len() {
                                assert(pushed[b] == before[b]);
                            }
                        }
                    }
                    assert forall|k: KeyView|
                        lookup(pushed, k) == if k == kv {
                            Some(vv)
                        } else {
                            lookup(before, k)
                        } by {
                        assert(pushed.drop_last() =~= before);
                    }
                }
                let mut entries: Vec<(NodeKey, V)> = Vec::new();
                std::mem::swap(&mut entries, &mut self.entries);
                entries.push((key, value));
                assert(entries@.map_values(|e: (NodeKey, V)| (e.0@, e.1@)) =~= pushed);
                self.entries = entries;
            },
        }
    }
}

} // verus!
