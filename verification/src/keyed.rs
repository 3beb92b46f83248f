//! A map with identifiers as keys.

use vstd::prelude::*;

use crate::ident::{first_position, lemma_found, position, Ident};

verus! {

/// A map from identifiers to plain values.
pub struct KeyedMap<K: Ident, V: Copy> {
    entries: Vec<(K, V)>,
}

/// The keys of the entries.
spec fn keys_of<K: Ident, V: Copy>(entries: Seq<(K, V)>) -> Seq<K::V> {
    Seq::new(entries.len(), |i: int| entries[i].0@)
}

/// What the entries map to what: the first one of a key counts.
spec fn map_of<K: Ident, V: Copy>(entries: Seq<(K, V)>) -> Map<K::V, V> {
    Map::new(
        |k: K::V| position(keys_of(entries), k) is Some,
        |k: K::V| entries[position(keys_of(entries), k)->0].1,
    )
}

impl<K: Ident, V: Copy> View for KeyedMap<K, V> {
    type V = Map<K::V, V>;

    closed spec fn view(&self) -> Map<K::V, V> {
        map_of(self.entries@)
    }
}

/// The first position is where the key is and was not before.
proof fn lemma_position_is<T>(items: Seq<T>, item: T, i: int)
    requires
        0 <= i < items.len(),
        items[i] == item,
        forall|j: int| 0 <= j < i ==> items[j] != item,
    ensures
        position(items, item) == Some(i),
{
    lemma_found(items, item, items.len() as int);
}

impl<K: Ident, V: Copy> KeyedMap<K, V> {
    /// An empty map.
    pub fn new() -> (r: Self)
        ensures
            r@ == Map::<K::V, V>::empty(),
    {
        let r = KeyedMap { entries: Vec::new() };
        proof {
            assert forall|k: K::V| !r@.contains_key(k) by {
                lemma_found(keys_of(r.entries@), k, 0);
            }
            assert(r@ =~= Map::<K::V, V>::empty());
        }
        r
    }

    /// Where the key is.
    fn find(&self, key: &K) -> (r: Option<usize>)
        ensures
            match r {
                Some(i) => i < self.entries@.len() && position(keys_of(self.entries@), key@) == Some(i as int),
                None => position(keys_of(self.entries@), key@) is None,
            },
    {
        let n: usize = self.entries.len();
        let mut i: usize = 0;
        while i < n
            invariant
                i <= n,
                n == self.entries@.len(),
                forall|j: int| 0 <= j < i ==> keys_of(self.entries@)[j] != key@,
            decreases n - i,
        {
            assert(keys_of(self.entries@)[i as int] == self.entries@[i as int].0@);
            if self.entries[i].0.same(key) {
                proof {
                    lemma_position_is(keys_of(self.entries@), key@, i as int);
                }
                return Some(i);
            }
            i = i + 1;
        }
        proof {
            lemma_found(keys_of(self.entries@), key@, n as int);
        }
        None
    }

    /// The value of a key.
    pub fn get(&self, key: &K) -> (r: Option<V>)
        ensures
            r == if self@.contains_key(key@) {
                Some(self@[key@])
            } else {
                None
            },
    {
        match self.find(key) {
            Some(i) => Some(self.entries[i].1),
            None => None,
        }
    }

    /// Whether the map has the key.
    pub fn contains_key(&self, key: &K) -> (r: bool)
        ensures
            r == self@.contains_key(key@),
    {
        match self.find(key) {
            Some(_) => true,
            None => false,
        }
    }

    /// Sets the value of a key.
    pub fn insert(&mut self, key: K, value: V)
        ensures
            final(self)@ == old(self)@.insert(key@, value),
    {
        let ghost before = self.entries@;
        let ghost old_keys = keys_of(before);
        match self.find(&key) {
            Some(i) => {
                proof {
                    lemma_found(old_keys, key@, before.len() as int);
                }
                self.entries.set(i, (key, value));
                proof {
                    let after = self.entries@;
                    assert(keys_of(after) =~= old_keys);
                    assert forall|k: K::V| #[trigger] map_of(after).contains_key(k) implies map_of(after)[k]
                        == map_of(before).insert(key@, value)[k] by {
                        lemma_found(old_keys, k, before.len() as int);
                    }
                    assert(map_of(after) =~= map_of(before).insert(key@, value));
                }
            },
            None => {
                self.entries.push((key, value));
                proof {
                    lemma_push(before, (key, value));
                }
            },
        }
    }

    /// Another value for the same map.
    pub fn duplicate(&self) -> (r: Self)
        ensures
            r@ == self@,
    {
        let mut entries: Vec<(K, V)> = Vec::new();
        let mut i: usize = 0;
        while i < self.entries.len()
            invariant
                i <= self.entries@.len(),
                entries@.len() == i,
                forall|j: int|
                    #![trigger entries@[j]]
                    0 <= j < i ==> entries@[j].0@ == self.entries@[j].0@ && entries@[j].1 == self.entries@[j].1,
            decreases self.entries@.len() - i,
        {
            entries.push((self.entries[i].0.duplicate(), self.entries[i].1));
            i = i + 1;
        }
        let r = KeyedMap { entries };
        proof {
            assert(keys_of(r.entries@) =~= keys_of(self.entries@));
            assert forall|k: K::V| #[trigger] r@.contains_key(k) implies r@[k] == self@[k] by {
                lemma_found(keys_of(self.entries@), k, self.entries@.len() as int);
                let i = position(keys_of(self.entries@), k)->0;
                assert(r.entries@[i].1 == self.entries@[i].1);
            }
            assert(r@ =~= self@);
        }
        r
    }

    /// Takes a key out of the map.
    pub fn remove(&mut self, key: &K) -> (r: Option<V>)
        ensures
            final(self)@ == old(self)@.remove(key@),
            r == if old(self)@.contains_key(key@) {
                Some(old(self)@[key@])
            } else {
                None
            },
    {
        let found: Option<V> = self.get(key);
        let ghost before = self.entries@;
        let ghost old_keys = keys_of(before);
        let mut kept: KeyedMap<K, V> = KeyedMap::new();
        let n: usize = self.entries.len();
        let mut i: usize = n;
        while i > 0
            invariant
                i <= n,
                n == before.len(),
                before == self.entries@,
                old_keys == keys_of(before),
                kept@ == map_of(before.subrange(i as int, n as int)).remove(key@),
            decreases i,
        {
            let ghost tail = before.subrange(i as int, n as int);
            let ghost longer = before.subrange(i - 1, n as int);
            proof {
                lemma_cons(before[i - 1], tail);
                assert(longer =~= seq![before[i - 1]] + tail);
            }
            let k: &K = &self.entries[i - 1].0;
            if !k.same(key) {
                kept.insert(k.duplicate(), self.entries[i - 1].1);
            }
            proof {
                let b = before[i - 1];
                assert(map_of(longer) == map_of(tail).insert(b.0@, b.1));
                if b.0@ == key@ {
                    assert(map_of(longer).remove(key@) =~= map_of(tail).remove(key@));
                } else {
                    assert(map_of(longer).remove(key@) =~= map_of(tail).remove(key@).insert(b.0@, b.1));
                }
            }
            i = i - 1;
        }
        proof {
            assert(before.subrange(0, n as int) =~= before);
        }
        *self = kept;
        found
    }

    /// Whether the map has no key.
    pub fn is_empty(&self) -> (r: bool)
        ensures
            r == (self@ == Map::<K::V, V>::empty()),
    {
        proof {
            if self.entries@.len() > 0 {
                let k = self.entries@[0].0@;
                lemma_position_is(keys_of(self.entries@), k, 0);
                assert(self@.contains_key(k));
            } else {
                assert forall|k: K::V| !self@.contains_key(k) by {
                    lemma_found(keys_of(self.entries@), k, 0);
                }
                assert(self@ =~= Map::<K::V, V>::empty());
            }
        }
        self.entries.len() == 0
    }
}

/// What a key maps to with an entry behind others that do not have it.
proof fn lemma_push_at<K: Ident, V: Copy>(entries: Seq<(K, V)>, entry: (K, V), k: K::V)
    requires
        position(keys_of(entries), entry.0@) is None,
    ensures
        ({
            let after = map_of(entries.push(entry));
            let goal = map_of(entries).insert(entry.0@, entry.1);
            after.contains_key(k) == goal.contains_key(k) && (after.contains_key(k) ==> after[k] == goal[k])
        }),
{
    let n = entries.len() as int;
    let old_keys = keys_of(entries);
    let keys = keys_of(entries.push(entry));
    assert(keys =~= old_keys.push(entry.0@));
    lemma_found(old_keys, entry.0@, n);
    lemma_found(old_keys, k, n);
    lemma_found(keys, k, n + 1);
    if k == entry.0@ {
        lemma_position_is(keys, k, n);
    } else if position(old_keys, k) is Some {
        let i = position(old_keys, k)->0;
        assert forall|j: int| 0 <= j < i implies keys[j] != k by {
            assert(old_keys[j] != k);
        }
        lemma_position_is(keys, k, i);
    } else {
        match first_position(keys, k, n + 1) {
            Some(i) => {
                if i < n {
                    assert(old_keys[i] == k);
                }
            },
            None => {},
        }
    }
}

/// An entry behind others that do not have its key adds it.
proof fn lemma_push<K: Ident, V: Copy>(entries: Seq<(K, V)>, entry: (K, V))
    requires
        position(keys_of(entries), entry.0@) is None,
    ensures
        map_of(entries.push(entry)) == map_of(entries).insert(entry.0@, entry.1),
{
    let after = map_of(entries.push(entry));
    let goal = map_of(entries).insert(entry.0@, entry.1);
    assert forall|k: K::V| #[trigger] after.dom().contains(k) == goal.dom().contains(k) by {
        lemma_push_at(entries, entry, k);
    }
    assert forall|k: K::V| after.dom().contains(k) implies #[trigger] after[k] == goal[k] by {
        lemma_push_at(entries, entry, k);
    }
    assert(after =~= goal);
}

/// What a key maps to with an entry in front of others.
proof fn lemma_cons_at<K: Ident, V: Copy>(entry: (K, V), entries: Seq<(K, V)>, k: K::V)
    ensures
        ({
            let after = map_of(seq![entry] + entries);
            let goal = map_of(entries).insert(entry.0@, entry.1);
            after.contains_key(k) == goal.contains_key(k) && (after.contains_key(k) ==> after[k] == goal[k])
        }),
{
    let all = seq![entry] + entries;
    let keys = keys_of(all);
    let rest = keys_of(entries);
    assert(keys =~= seq![entry.0@] + rest);
    lemma_found(keys, k, keys.len() as int);
    lemma_found(rest, k, rest.len() as int);
    if k == entry.0@ {
        lemma_position_is(keys, k, 0);
    } else if position(rest, k) is Some {
        let i = position(rest, k)->0;
        assert forall|j: int| 0 <= j < i + 1 implies keys[j] != k by {
            if j > 0 {
                assert(rest[j - 1] != k);
            }
        }
        assert(keys[i + 1] == rest[i]);
        lemma_position_is(keys, k, i + 1);
    } else {
        match position(keys, k) {
            Some(i) => {
                assert(keys[i] == k);
                if i > 0 {
                    assert(rest[i - 1] == k);
                }
            },
            None => {},
        }
    }
}

/// An entry in front of others takes precedence.
proof fn lemma_cons<K: Ident, V: Copy>(entry: (K, V), entries: Seq<(K, V)>)
    ensures
        map_of(seq![entry] + entries) == map_of(entries).insert(entry.0@, entry.1),
{
    let after = map_of(seq![entry] + entries);
    let goal = map_of(entries).insert(entry.0@, entry.1);
    assert forall|k: K::V| #[trigger] after.dom().contains(k) == goal.dom().contains(k) by {
        lemma_cons_at(entry, entries, k);
    }
    assert forall|k: K::V| after.dom().contains(k) implies #[trigger] after[k] == goal[k] by {
        lemma_cons_at(entry, entries, k);
    }
    assert(after =~= goal);
}

} // verus!
