//! A map keyed by strings that remembers the order in which keys arrived.
//!
//! The map is a vector of entries in which no key occurs twice. Its view is a
//! `Map` from the key's characters to the value's view; `keys` gives the keys
//! in arrival order, in which the entries can be walked by index.

use vstd::prelude::*;
use crate::text::str_eq;

verus! {

#[derive(Debug)]
struct Entry<V> {
    key: String,
    value: V,
}

#[derive(Debug)]
pub struct StringMap<V> {
    entries: Vec<Entry<V>>,
}

/// The least index at which `k` occurs in `keys`.
pub open spec fn first_index(keys: Seq<Seq<char>>, k: Seq<char>) -> int {
    choose|i: int|
        0 <= i < keys.len() && keys[i] == k && forall|j: int| 0 <= j < i ==> keys[j] != k
}

proof fn lemma_first_index(keys: Seq<Seq<char>>, k: Seq<char>, i: int)
    requires
        0 <= i < keys.len(),
        keys[i] == k,
        forall|j: int| 0 <= j < i ==> keys[j] != k,
    ensures
        first_index(keys, k) == i,
{
    let c = first_index(keys, k);
    assert(0 <= c < keys.len() && keys[c] == k && forall|j: int| 0 <= j < c ==> keys[j] != k);
    if c < i {
        assert(keys[c] != k);
    }
    if i < c {
        assert(keys[i] != k);
    }
}

/// The map that sends each key to the value at the key's first position.
pub open spec fn entries_map<T>(keys: Seq<Seq<char>>, values: Seq<T>) -> Map<Seq<char>, T> {
    Map::new(|k: Seq<char>| keys.contains(k), |k: Seq<char>| values[first_index(keys, k)])
}

proof fn lemma_entries_map_update<T>(keys: Seq<Seq<char>>, values: Seq<T>, i: int, v: T)
    requires
        0 <= i < keys.len(),
        keys.len() == values.len(),
        keys.no_duplicates(),
    ensures
        entries_map(keys, values.update(i, v)) == entries_map(keys, values).insert(keys[i], v),
{
    let left = entries_map(keys, values.update(i, v));
    let right = entries_map(keys, values).insert(keys[i], v);
    assert(keys.contains(keys[i]));
    assert forall|q: Seq<char>| keys.contains(q) implies #[trigger] left[q] == right[q] by {
        let w = choose|w: int| 0 <= w < keys.len() && keys[w] == q;
        lemma_first_index_unique(keys, w);
    }
    assert(left =~= right);
}

/// Appending a key that `keys` lacks adds that key to the map. `values` may be
/// longer than `keys`: only the first `keys.len()` of them are read.
proof fn lemma_entries_map_push<T>(keys: Seq<Seq<char>>, values: Seq<T>, k: Seq<char>, v: T)
    requires
        keys.len() < values.len() ==> values[keys.len() as int] == v,
        keys.len() <= values.len(),
        keys.no_duplicates(),
        !keys.contains(k),
    ensures
        keys.len() < values.len() ==> entries_map(keys.push(k), values) == entries_map(
            keys,
            values,
        ).insert(k, v),
        entries_map(keys.push(k), values.take(keys.len() as int).push(v)) == entries_map(
            keys,
            values,
        ).insert(k, v),
{
    let more = keys.push(k);
    let vals = values.take(keys.len() as int).push(v);
    let right = entries_map(keys, values).insert(k, v);
    assert forall|i: int, j: int| 0 <= i < more.len() && 0 <= j < more.len() && i != j implies more[i]
        != more[j] by {
        if i < keys.len() {
            assert(keys.contains(more[i]));
        }
        if j < keys.len() {
            assert(keys.contains(more[j]));
        }
    }
    assert forall|q: Seq<char>| more.contains(q) <==> (keys.contains(q) || q == k) by {
        if keys.contains(q) {
            let w = choose|w: int| 0 <= w < keys.len() && keys[w] == q;
            assert(more[w] == q);
        }
        if q == k {
            assert(more[keys.len() as int] == q);
        }
    }
    assert forall|q: Seq<char>| more.contains(q) implies #[trigger] entries_map(more, vals)[q]
        == right[q] && (keys.len() < values.len() ==> entries_map(more, values)[q] == right[q]) by {
        let w = choose|w: int| 0 <= w < more.len() && more[w] == q;
        lemma_first_index_unique(more, w);
        if w < keys.len() {
            lemma_first_index_unique(keys, w);
        }
    }
    assert(entries_map(more, vals) =~= right);
    if keys.len() < values.len() {
        assert(entries_map(more, values) =~= right);
    }
}

proof fn lemma_first_index_unique(keys: Seq<Seq<char>>, i: int)
    requires
        0 <= i < keys.len(),
        keys.no_duplicates(),
    ensures
        first_index(keys, keys[i]) == i,
{
    lemma_first_index(keys, keys[i], i);
}

impl<V> StringMap<V> {
    #[verifier::type_invariant]
    spec fn no_key_twice(&self) -> bool {
        forall|i: int, j: int|
            0 <= i < self.entries@.len() && 0 <= j < self.entries@.len() && i != j
                ==> self.entries@[i].key@ != self.entries@[j].key@
    }

    /// The keys in the order in which they were first inserted.
    pub closed spec fn keys(&self) -> Seq<Seq<char>> {
        Seq::new(self.entries@.len(), |i: int| self.entries@[i].key@)
    }

    /// The values themselves, in the order of `keys`.
    pub closed spec fn items(&self) -> Seq<V> {
        Seq::new(self.entries@.len(), |i: int| self.entries@[i].value)
    }
}

impl<V: View> StringMap<V> {
    /// The values in the order of `keys`.
    pub closed spec fn values(&self) -> Seq<V::V> {
        Seq::new(self.entries@.len(), |i: int| self.entries@[i].value@)
    }

    /// The map of the first `n` entries, in arrival order.
    pub open spec fn prefix(&self, n: int) -> Map<Seq<char>, V::V> {
        entries_map(self.keys().take(n), self.values())
    }

    /// `keys` and `values` have one length, and the whole map is the map of
    /// all entries.
    pub proof fn lemma_entries(&self)
        ensures
            self.keys().len() == self.values().len(),
            self.prefix(0) == Map::<Seq<char>, V::V>::empty(),
            self.prefix(self.keys().len() as int) == self@,
            forall|k: Seq<char>| self@.contains_key(k) <==> self.keys().contains(k),
    {
        assert(self.keys().take(self.keys().len() as int) == self.keys());
        assert(self.keys().take(0) == Seq::<Seq<char>>::empty());
        assert(self.prefix(0) =~= Map::<Seq<char>, V::V>::empty());
    }

    pub fn new() -> (r: Self)
        ensures
            r@ == Map::<Seq<char>, V::V>::empty(),
            r.keys() == Seq::<Seq<char>>::empty(),
    {
        let r = StringMap { entries: Vec::new() };
        assert(r.keys() =~= Seq::<Seq<char>>::empty());
        assert(r@ =~= Map::<Seq<char>, V::V>::empty());
        r
    }

    /// The number of entries. No key occurs twice among them.
    pub fn len(&self) -> (r: usize)
        ensures
            r == self.keys().len(),
            r == self.values().len(),
            r == self@.len(),
            self.keys().no_duplicates(),
            self@.dom().finite(),
    {
        proof {
            use_type_invariant(self);
            self.keys().unique_seq_to_set();
            assert(self@.dom() =~= self.keys().to_set());
        }
        self.entries.len()
    }

    pub fn is_empty(&self) -> (r: bool)
        ensures
            r == (self.keys().len() == 0),
            r == (self@ == Map::<Seq<char>, V::V>::empty()),
    {
        proof {
            if self.keys().len() == 0 {
                assert(self@ =~= Map::<Seq<char>, V::V>::empty());
            } else {
                assert(self.keys().contains(self.keys()[0]));
                assert(self@.contains_key(self.keys()[0]));
            }
        }
        self.entries.len() == 0
    }

    fn position(&self, key: &str) -> (r: Option<usize>)
        ensures
            match r {
                Some(i) => i < self.keys().len() && self.keys()[i as int] == key@
                    && self.keys().contains(key@),
                None => !self.keys().contains(key@),
            },
    {
        let mut i: usize = 0;
        while i < self.entries.len()
            invariant
                0 <= i <= self.entries.len(),
                forall|j: int| 0 <= j < i ==> self.keys()[j] != key@,
            decreases self.entries.len() - i,
        {
            if str_eq(self.entries[i].key.as_str(), key) {
                assert(self.keys()[i as int] == key@);
                return Some(i);
            }
            i = i + 1;
        }
        None
    }

    pub fn contains_key(&self, key: &str) -> (r: bool)
        ensures
            r == self@.contains_key(key@),
    {
        self.position(key).is_some()
    }

    pub fn get(&self, key: &str) -> (r: Option<&V>)
        ensures
            match r {
                Some(v) => self@.contains_key(key@) && self@[key@] == v@,
                None => !self@.contains_key(key@),
            },
    {
        proof {
            use_type_invariant(self);
        }
        match self.position(key) {
            Some(i) => {
                proof {
                    assert(self.keys().no_duplicates());
                    lemma_first_index_unique(self.keys(), i as int);
                }
                Some(&self.entries[i].value)
            },
            None => None,
        }
    }

    /// Sets the value under `key`. A key that the map already has keeps its
    /// place in the order; a new key goes last.
    pub fn insert(&mut self, key: String, value: V)
        ensures
            final(self)@ == old(self)@.insert(key@, value@),
            final(self).keys() == if old(self)@.contains_key(key@) {
                old(self).keys()
            } else {
                old(self).keys().push(key@)
            },
    {
        proof {
            use_type_invariant(&*self);
        }
        let found = self.position(key.as_str());
        let ghost old_keys = self.keys();
        let ghost old_values = self.values();
        let ghost old_map = self@;
        let ghost k = key@;
        let ghost v = value@;
        assert(old_keys.no_duplicates());
        assert(old_map == entries_map(old_keys, old_values));
        let mut entries: Vec<Entry<V>> = Vec::new();
        std::mem::swap(&mut entries, &mut self.entries);
        assert(old_keys == Seq::new(entries@.len(), |i: int| entries@[i].key@));
        assert(old_values == Seq::new(entries@.len(), |i: int| entries@[i].value@));
        match found {
            Some(i) => {
                entries.set(i, Entry { key, value });
            },
            None => {
                entries.push(Entry { key, value });
            },
        }
        let ghost new_keys = Seq::new(entries@.len(), |i: int| entries@[i].key@);
        let ghost new_values = Seq::new(entries@.len(), |i: int| entries@[i].value@);
        proof {
            match found {
                Some(i) => {
                    assert(new_keys =~= old_keys);
                    assert(new_values =~= old_values.update(i as int, v));
                    lemma_entries_map_update(old_keys, old_values, i as int, v);
                },
                None => {
                    assert(new_keys =~= old_keys.push(k));
                    assert(new_values =~= old_values.push(v));
                    lemma_entries_map_push(old_keys, old_values, k, v);
                    assert forall|i: int, j: int|
                        0 <= i < new_keys.len() && 0 <= j < new_keys.len() && i != j implies new_keys[i]
                        != new_keys[j] by {
                        if i < old_keys.len() {
                            assert(old_keys.contains(new_keys[i]));
                        }
                        if j < old_keys.len() {
                            assert(old_keys.contains(new_keys[j]));
                        }
                    }
                },
            }
            assert forall|i: int, j: int|
                0 <= i < entries@.len() && 0 <= j < entries@.len() && i != j implies entries@[i].key@
                != entries@[j].key@ by {
                assert(new_keys[i] != new_keys[j]);
            }
        }
        self.entries = entries;
        assert(self.keys() == new_keys);
        assert(self.values() == new_values);
    }

    /// The entries in arrival order, each as its key and its value.
    pub fn into_entries(self) -> (r: Vec<(String, V)>)
        ensures
            r.len() == self.keys().len(),
            forall|i: int| 0 <= i < r.len() ==> (#[trigger] r@[i]).0@ == self.keys()[i],
            forall|i: int| 0 <= i < r.len() ==> (#[trigger] r@[i]).1@ == self.values()[i],
    {
        let ghost keys = self.keys();
        let ghost values = self.values();
        let ghost entries = self.entries@;
        let mut out: Vec<(String, V)> = Vec::new();
        for entry in it: self.entries
            invariant
                it.seq() == entries,
                keys == Seq::new(entries.len(), |i: int| entries[i].key@),
                values == Seq::new(entries.len(), |i: int| entries[i].value@),
                out.len() == it.index(),
                forall|i: int| 0 <= i < out.len() ==> (#[trigger] out@[i]).0@ == keys[i],
                forall|i: int| 0 <= i < out.len() ==> (#[trigger] out@[i]).1@ == values[i],
        {
            let Entry { key, value } = entry;
            out.push((key, value));
        }
        out
    }

    /// The key of the entry at position `i` in arrival order.
    pub fn key_at(&self, i: usize) -> (r: &String)
        requires
            i < self.keys().len(),
        ensures
            r@ == self.keys()[i as int],
    {
        &self.entries[i].key
    }

    /// The value of the entry at position `i` in arrival order.
    pub fn value_at(&self, i: usize) -> (r: &V)
        requires
            i < self.keys().len(),
        ensures
            r@ == self.values()[i as int],
            self@.contains_key(self.keys()[i as int]),
            self@[self.keys()[i as int]] == r@,
            self.prefix(i + 1) == self.prefix(i as int).insert(self.keys()[i as int], r@),
    {
        proof {
            use_type_invariant(self);
            let keys = self.keys();
            assert(keys.no_duplicates());
            assert(keys.contains(keys[i as int]));
            lemma_first_index_unique(keys, i as int);
            let a = keys.take(i as int);
            assert(keys.take(i + 1) =~= a.push(keys[i as int]));
            assert(!a.contains(keys[i as int]));
            lemma_entries_map_push(a, self.values(), keys[i as int], self.values()[i as int]);
        }
        &self.entries[i].value
    }
}

impl<V: Clone> Clone for StringMap<V> {
    /// A copy with the same keys in the same order, each value a clone of
    /// the value in its place.
    fn clone(&self) -> (r: Self)
        ensures
            r.keys() == self.keys(),
            r.items().len() == self.items().len(),
            forall|i: int|
                0 <= i < self.items().len() ==> cloned::<V>(self.items()[i], #[trigger] r.items()[i]),
    {
        proof {
            use_type_invariant(self);
        }
        let mut entries: Vec<Entry<V>> = Vec::new();
        let mut i: usize = 0;
        while i < self.entries.len()
            invariant
                0 <= i <= self.entries.len(),
                entries.len() == i,
                forall|k: int| 0 <= k < i ==> (#[trigger] entries@[k]).key@ == self.entries@[k].key@,
                forall|k: int|
                    0 <= k < i ==> cloned::<V>(self.entries@[k].value, (#[trigger] entries@[k]).value),
            decreases self.entries.len() - i,
        {
            let key = self.entries[i].key.clone();
            let value = self.entries[i].value.clone();
            entries.push(Entry { key, value });
            i = i + 1;
        }
        let r = StringMap { entries };
        assert(r.keys() =~= self.keys());
        r
    }
}

impl<V: View> View for StringMap<V> {
    type V = Map<Seq<char>, V::V>;

    closed spec fn view(&self) -> Map<Seq<char>, V::V> {
        entries_map(self.keys(), self.values())
    }
}

} // verus!
