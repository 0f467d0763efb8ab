//! A finite map from `u64` keys to values that carry their own key, held in
//! a vector without duplicate keys.
use vstd::prelude::*;

use crate::model::Duplicate;

verus! {

/// A value that names its own key.
pub trait Keyed {
    spec fn key(&self) -> u64;

    fn get_key(&self) -> (k: u64)
        ensures
            k == self.key(),
    ;
}

/// No two elements of `s` carry the same key.
pub open spec fn keys_unique<T: Keyed>(s: Seq<T>) -> bool {
    forall|i: int, j: int|
        0 <= i < s.len() && 0 <= j < s.len() && i != j ==> #[trigger] s[i].key() != #[trigger] s[j].key()
}

/// Some element of `s` carries the key `k`.
pub open spec fn has_key<T: Keyed>(s: Seq<T>, k: u64) -> bool {
    exists|i: int| 0 <= i < s.len() && #[trigger] s[i].key() == k
}

/// The position of an element of `s` with key `k`.
pub open spec fn index_of_key<T: Keyed>(s: Seq<T>, k: u64) -> int {
    choose|i: int| 0 <= i < s.len() && #[trigger] s[i].key() == k
}

/// The map from keys to elements that `s` holds.
pub open spec fn seq_map<T: Keyed>(s: Seq<T>) -> Map<u64, T> {
    Map::new(|k: u64| has_key(s, k), |k: u64| s[index_of_key(s, k)])
}

/// With unique keys, the map sends the key of each element to that element.
pub proof fn lemma_seq_map_at<T: Keyed>(s: Seq<T>, i: int)
    requires
        keys_unique(s),
        0 <= i < s.len(),
    ensures
        seq_map(s).contains_key(s[i].key()),
        seq_map(s)[s[i].key()] == s[i],
{
    let k = s[i].key();
    assert(has_key(s, k));
    let j = index_of_key(s, k);
    assert(s[j].key() == k);
}

/// The map of `s` is finite and sends each key to an element carrying it.
pub proof fn lemma_seq_map_finite<T: Keyed>(s: Seq<T>)
    ensures
        seq_map(s).dom().finite(),
        forall|k: u64| #[trigger] seq_map(s).contains_key(k) ==> seq_map(s)[k].key() == k,
{
    let ks = s.map_values(|x: T| x.key());
    assert forall|k: u64| seq_map(s).dom().contains(k) implies ks.to_set().contains(k) by {
        let i = index_of_key(s, k);
        assert(ks[i] == k);
    }
    assert forall|k: u64| #[trigger] seq_map(s).contains_key(k) implies seq_map(s)[k].key() == k by {
        let i = index_of_key(s, k);
    }
    vstd::seq_lib::seq_to_set_is_finite(ks);
    vstd::set_lib::lemma_len_subset(seq_map(s).dom(), ks.to_set());
}

/// Applying `f` to every element (keeping keys) applies it to every value of the map.
pub proof fn lemma_seq_map_values<T: Keyed>(s: Seq<T>, t: Seq<T>, f: spec_fn(T) -> T)
    requires
        keys_unique(s),
        s.len() == t.len(),
        forall|i: int| 0 <= i < s.len() ==> #[trigger] t[i] == f(s[i]),
        forall|i: int| 0 <= i < s.len() ==> #[trigger] f(s[i]).key() == s[i].key(),
    ensures
        keys_unique(t),
        seq_map(t) == Map::new(|k: u64| seq_map(s).contains_key(k), |k: u64| f(seq_map(s)[k])),
{
    assert forall|i: int, j: int|
        0 <= i < t.len() && 0 <= j < t.len() && i != j implies #[trigger] t[i].key() != #[trigger] t[j].key() by {
        assert(t[i] == f(s[i]));
        assert(t[j] == f(s[j]));
        assert(s[i].key() != s[j].key());
    }
    let m = Map::new(|k: u64| seq_map(s).contains_key(k), |k: u64| f(seq_map(s)[k]));
    assert forall|k: u64| #[trigger] seq_map(t).contains_key(k) <==> m.contains_key(k) by {
        if has_key(t, k) {
            let i = index_of_key(t, k);
            assert(t[i] == f(s[i]));
            assert(s[i].key() == k);
            assert(has_key(s, k));
        }
        if has_key(s, k) {
            let i = index_of_key(s, k);
            assert(t[i] == f(s[i]));
            assert(t[i].key() == k);
            assert(has_key(t, k));
        }
    }
    assert forall|k: u64| #[trigger] seq_map(t).contains_key(k) implies seq_map(t)[k] == m[k] by {
        let i = index_of_key(t, k);
        assert(t[i] == f(s[i]));
        lemma_seq_map_at(t, i);
        lemma_seq_map_at(s, i);
    }
    assert(seq_map(t) =~= m);
}

/// Map from `u64` keys to values carrying those keys.
#[derive(Debug)]
pub struct IdVec<T: Keyed> {
    items: Vec<T>,
}

impl<T: Keyed> IdVec<T> {
    #[verifier::type_invariant]
    spec fn unique(self) -> bool {
        keys_unique(self.items@)
    }

    /// The elements in their stored order.
    pub closed spec fn items(self) -> Seq<T> {
        self.items@
    }

    /// The map from keys to values.
    pub open spec fn view(self) -> Map<u64, T> {
        seq_map(self.items())
    }

    /// An empty map.
    pub fn new() -> (r: Self)
        ensures
            r.items() == Seq::<T>::empty(),
            r.view() == Map::<u64, T>::empty(),
    {
        let r = IdVec { items: Vec::new() };
        assert(r.view() =~= Map::<u64, T>::empty());
        r
    }

    /// Number of entries.
    pub fn len(&self) -> (n: usize)
        ensures
            n == self.items().len(),
            keys_unique(self.items()),
    {
        proof {
            use_type_invariant(self);
        }
        self.items.len()
    }

    /// Whether the map has no entry.
    pub fn is_empty(&self) -> (r: bool)
        ensures
            r == (self.items().len() == 0),
            r == (self.view() == Map::<u64, T>::empty()),
            r == (forall|k: u64| !self.view().contains_key(k)),
    {
        proof {
            use_type_invariant(self);
            if self.items@.len() == 0 {
                assert(self.view() =~= Map::<u64, T>::empty());
            } else {
                lemma_seq_map_at(self.items@, 0);
                assert(self.view().contains_key(self.items@[0].key()));
            }
        }
        self.items.len() == 0
    }

    /// The element at position `i` of the stored order.
    pub fn at(&self, i: usize) -> (r: &T)
        requires
            i < self.items().len(),
        ensures
            *r == self.items()[i as int],
    {
        &self.items[i]
    }

    /// Position of the element with key `k`, if any.
    pub fn find(&self, k: u64) -> (r: Option<usize>)
        ensures
            r matches Some(i) ==> i < self.items().len() && self.items()[i as int].key() == k
                && self.view()[k] == self.items()[i as int],
            r is None ==> !self.view().contains_key(k),
            r is Some <==> self.view().contains_key(k),
    {
        proof {
            use_type_invariant(self);
        }
        let mut i: usize = 0;
        while i < self.items.len()
            invariant
                i <= self.items@.len(),
                keys_unique(self.items@),
                forall|j: int| 0 <= j < i ==> #[trigger] self.items@[j].key() != k,
            decreases self.items@.len() - i,
        {
            if self.items[i].get_key() == k {
                assert(has_key(self.items@, k));
                proof {
                    lemma_seq_map_at(self.items@, i as int);
                }
                return Some(i);
            }
            i = i + 1;
        }
        None
    }

    /// The value under key `k`, if any.
    pub fn get(&self, k: u64) -> (r: Option<&T>)
        ensures
            r matches Some(v) ==> self.view().contains_key(k) && *v == self.view()[k],
            r is None ==> !self.view().contains_key(k),
    {
        proof {
            use_type_invariant(self);
        }
        match self.find(k) {
            Some(i) => {
                proof {
                    lemma_seq_map_at(self.items@, i as int);
                }
                Some(&self.items[i])
            },
            None => None,
        }
    }

    /// Replaces the element at position `i` by `v`, which carries the same key.
    pub fn set(&mut self, i: usize, v: T)
        requires
            i < old(self).items().len(),
            v.key() == old(self).items()[i as int].key(),
        ensures
            final(self).items() == old(self).items().update(i as int, v),
    {
        proof {
            use_type_invariant(&*self);
        }
        let mut items = Vec::new();
        std::mem::swap(&mut items, &mut self.items);
        items.set(i, v);
        proof {
            assert forall|a: int, b: int|
                0 <= a < items@.len() && 0 <= b < items@.len() && a != b implies #[trigger] items@[a].key()
                != #[trigger] items@[b].key() by {
                assert(old(self).items@[a].key() != old(self).items@[b].key());
            }
        }
        self.items = items;
    }

    /// Inserts `v` under its key, replacing a value already there.
    pub fn insert(&mut self, v: T)
        ensures
            final(self).view() == old(self).view().insert(v.key(), v),
    {
        proof {
            use_type_invariant(&*self);
        }
        let k = v.get_key();
        let ghost before = self.items@;
        match self.find(k) {
            Some(i) => {
                self.set(i, v);
                proof {
                    use_type_invariant(&*self);
                    let after = self.items@;
                    assert forall|key: u64| #[trigger] seq_map(after).contains_key(key) <==> seq_map(before).insert(k, v).contains_key(key) by {
                        if has_key(before, key) {
                            let j = index_of_key(before, key);
                            if j == i { assert(after[j].key() == key); } else { assert(after[j] == before[j]); }
                            assert(has_key(after, key));
                        }
                        if has_key(after, key) {
                            let j = index_of_key(after, key);
                            if j != i { assert(after[j] == before[j]); assert(has_key(before, key)); }
                        }
                    }
                    assert forall|key: u64| #[trigger] seq_map(after).contains_key(key) implies seq_map(after)[key] == seq_map(before).insert(k, v)[key] by {
                        let j = index_of_key(after, key);
                        lemma_seq_map_at(after, j);
                        if j != i {
                            assert(after[j] == before[j]);
                            lemma_seq_map_at(before, j);
                        }
                    }
                    assert(seq_map(after) =~= seq_map(before).insert(k, v));
                }
            },
            None => {
                let mut items = Vec::new();
                std::mem::swap(&mut items, &mut self.items);
                items.push(v);
                proof {
                    assert(!has_key(before, k));
                    assert forall|a: int, b: int|
                        0 <= a < items@.len() && 0 <= b < items@.len() && a != b implies #[trigger] items@[a].key()
                        != #[trigger] items@[b].key() by {
                        if a == before.len() {
                            assert(before[b].key() == items@[b].key());
                        } else if b == before.len() {
                            assert(before[a].key() == items@[a].key());
                        }
                    }
                }
                self.items = items;
                proof {
                    let after = self.items@;
                    assert(after == before.push(v));
                    assert forall|key: u64| #[trigger] seq_map(after).contains_key(key) <==> seq_map(before).insert(k, v).contains_key(key) by {
                        if has_key(before, key) {
                            let j = index_of_key(before, key);
                            assert(after[j] == before[j]);
                        }
                        if key == k {
                            assert(after[before.len() as int] == v);
                        }
                        if has_key(after, key) {
                            let j = index_of_key(after, key);
                            if j < before.len() { assert(after[j] == before[j]); }
                        }
                    }
                    assert forall|key: u64| #[trigger] seq_map(after).contains_key(key) implies seq_map(after)[key] == seq_map(before).insert(k, v)[key] by {
                        let j = index_of_key(after, key);
                        lemma_seq_map_at(after, j);
                        if j < before.len() {
                            assert(after[j] == before[j]);
                            lemma_seq_map_at(before, j);
                        }
                    }
                    assert(seq_map(after) =~= seq_map(before).insert(k, v));
                }
            },
        }
    }

    /// Removes the entry under key `k`, if any, keeping the order of the others.
    pub fn remove(&mut self, k: u64)
        ensures
            final(self).view() == old(self).view().remove(k),
    {
        proof {
            use_type_invariant(&*self);
        }
        let ghost before = self.items@;
        match self.find(k) {
            Some(i) => {
                let mut items = Vec::new();
                std::mem::swap(&mut items, &mut self.items);
                items.remove(i);
                proof {
                    assert(items@ == before.remove(i as int));
                    assert forall|a: int, b: int|
                        0 <= a < items@.len() && 0 <= b < items@.len() && a != b implies #[trigger] items@[a].key()
                        != #[trigger] items@[b].key() by {
                        let a0 = if a < i { a } else { a + 1 };
                        let b0 = if b < i { b } else { b + 1 };
                        assert(items@[a] == before[a0]);
                        assert(items@[b] == before[b0]);
                    }
                }
                self.items = items;
                proof {
                    let after = self.items@;
                    assert forall|key: u64| #[trigger] seq_map(after).contains_key(key) <==> seq_map(before).remove(k).contains_key(key) by {
                        if has_key(before, key) && key != k {
                            let j = index_of_key(before, key);
                            assert(j != i);
                            let j1 = if j < i { j } else { j - 1 };
                            assert(after[j1] == before[j]);
                            assert(has_key(after, key));
                        }
                        if has_key(after, key) {
                            let j = index_of_key(after, key);
                            let j0 = if j < i { j } else { j + 1 };
                            assert(after[j] == before[j0]);
                            assert(has_key(before, key));
                            assert(j0 != i);
                        }
                    }
                    assert forall|key: u64| #[trigger] seq_map(after).contains_key(key) implies seq_map(after)[key] == seq_map(before).remove(k)[key] by {
                        let j = index_of_key(after, key);
                        lemma_seq_map_at(after, j);
                        let j0 = if j < i { j } else { j + 1 };
                        assert(after[j] == before[j0]);
                        lemma_seq_map_at(before, j0);
                    }
                    assert(seq_map(after) =~= seq_map(before).remove(k));
                }
            },
            None => {
                assert(seq_map(before) =~= seq_map(before).remove(k));
            },
        }
    }

    /// A copy of this map, element by element.
    pub fn duplicate(&self) -> (r: Self)
        where T: Duplicate
        ensures
            r.items() == self.items(),
    {
        proof {
            use_type_invariant(self);
        }
        let mut items: Vec<T> = Vec::new();
        let mut i: usize = 0;
        while i < self.items.len()
            invariant
                i <= self.items@.len(),
                items@ == self.items@.take(i as int),
            decreases self.items@.len() - i,
        {
            items.push(self.items[i].duplicate());
            i = i + 1;
            assert(items@ =~= self.items@.take(i as int));
        }
        assert(items@ =~= self.items@);
        IdVec { items }
    }

    /// Removes every entry.
    pub fn clear(&mut self)
        ensures
            final(self).view() == Map::<u64, T>::empty(),
            final(self).items() == Seq::<T>::empty(),
    {
        self.items = Vec::new();
        assert(self.view() =~= Map::<u64, T>::empty());
    }
}

} // verus!
