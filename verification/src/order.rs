//! Selecting the entries of an `IdVec` that satisfy a predicate, ordered by
//! a sort key that tells apart any two entries with different keys.
use vstd::prelude::*;

use crate::idvec::{IdVec, Keyed, keys_unique, lemma_seq_map_at};

verus! {

/// A strict order on values, total on values with different keys.
pub trait SortKey: Keyed + Sized {
    spec fn before(&self, other: &Self) -> bool;

    fn is_before(&self, other: &Self) -> (b: bool)
        ensures
            b == self.before(other),
    ;

    proof fn before_irreflexive(a: Self)
        ensures
            !a.before(&a),
    ;

    proof fn before_transitive(a: Self, b: Self, c: Self)
        requires
            a.before(&b),
            b.before(&c),
        ensures
            a.before(&c),
    ;

    proof fn before_total(a: Self, b: Self)
        requires
            a.key() != b.key(),
        ensures
            a.before(&b) || b.before(&a),
    ;
}

/// `s` is strictly increasing in the sort order.
pub open spec fn strictly_sorted<T: SortKey>(s: Seq<T>) -> bool {
    forall|i: int, j: int| 0 <= i < j < s.len() ==> #[trigger] s[i].before(&#[trigger] s[j])
}

/// `s` lists, in the sort order, exactly the values of `m` that satisfy `sel`.
pub open spec fn ordered_selection<T: SortKey>(s: Seq<T>, m: Map<u64, T>, sel: spec_fn(T) -> bool) -> bool {
    &&& strictly_sorted(s)
    &&& forall|i: int| 0 <= i < s.len() ==> m.contains_key(#[trigger] s[i].key()) && m[s[i].key()] == s[i] && sel(s[i])
    &&& forall|k: u64| m.contains_key(k) && sel(m[k]) ==> #[trigger] s.contains(m[k])
}

/// The values of `m` that satisfy `sel`, in the sort order.
pub open spec fn selection<T: SortKey>(m: Map<u64, T>, sel: spec_fn(T) -> bool) -> Seq<T> {
    choose|s: Seq<T>| ordered_selection(s, m, sel)
}

/// The selection of a finite map exists: sorting the selected values gives it.
pub proof fn lemma_selection_exists<T: SortKey>(m: Map<u64, T>, sel: spec_fn(T) -> bool)
    requires
        m.dom().finite(),
        forall|k: u64| #[trigger] m.contains_key(k) ==> m[k].key() == k,
    ensures
        ordered_selection(selection(m, sel), m, sel),
    decreases m.dom().len(),
{
    lemma_selection_witness(m, sel);
}

/// A selection of a finite map has no more entries than the map.
pub proof fn lemma_selection_len<T: SortKey>(s: Seq<T>, m: Map<u64, T>, sel: spec_fn(T) -> bool)
    requires
        m.dom().finite(),
        ordered_selection(s, m, sel),
    ensures
        s.len() <= m.dom().len(),
{
    let ks = s.map_values(|x: T| x.key());
    assert forall|i: int, j: int| 0 <= i < ks.len() && 0 <= j < ks.len() && i != j implies ks[i] != ks[j] by {
        if ks[i] == ks[j] {
            assert(m[s[i].key()] == s[i] && m[s[j].key()] == s[j]);
            T::before_irreflexive(s[i]);
            if i < j {
                assert(s[i].before(&s[j]));
            } else {
                assert(s[j].before(&s[i]));
            }
        }
    }
    assert(ks.no_duplicates());
    ks.unique_seq_to_set();
    assert forall|k: u64| ks.to_set().contains(k) implies m.dom().contains(k) by {
        let i = choose|i: int| 0 <= i < ks.len() && ks[i] == k;
        assert(m.contains_key(s[i].key()));
    }
    vstd::set_lib::lemma_len_subset(ks.to_set(), m.dom());
}

/// `x` inserted into the sorted `s` at the first position whose element does
/// not come before it.
pub open spec fn insert_sorted<T: SortKey>(s: Seq<T>, x: T) -> Seq<T>
    decreases s.len(),
{
    if s.len() == 0 {
        seq![x]
    } else if s[0].before(&x) {
        seq![s[0]] + insert_sorted(s.drop_first(), x)
    } else {
        seq![x] + s
    }
}

proof fn lemma_insert_sorted<T: SortKey>(s: Seq<T>, x: T)
    requires
        strictly_sorted(s),
        forall|i: int| 0 <= i < s.len() ==> (#[trigger] s[i]).key() != x.key(),
    ensures
        strictly_sorted(insert_sorted(s, x)),
        forall|y: T| #[trigger] insert_sorted(s, x).contains(y) <==> (s.contains(y) || y == x),
    decreases s.len(),
{
    let r = insert_sorted(s, x);
    if s.len() == 0 {
        assert forall|y: T| r.contains(y) <==> (s.contains(y) || y == x) by {
            if r.contains(y) {
                assert(r[0] == x);
            }
            if y == x {
                assert(r[0] == x);
            }
        }
    } else if s[0].before(&x) {
        let t = s.drop_first();
        assert forall|i: int, j: int| 0 <= i < j < t.len() implies #[trigger] t[i].before(&#[trigger] t[j]) by {
            assert(s[i + 1].before(&s[j + 1]));
        }
        assert forall|i: int| 0 <= i < t.len() implies (#[trigger] t[i]).key() != x.key() by {
            assert(t[i] == s[i + 1]);
        }
        lemma_insert_sorted(t, x);
        let q = insert_sorted(t, x);
        assert(r == seq![s[0]] + q);
        assert forall|i: int, j: int| 0 <= i < j < r.len() implies #[trigger] r[i].before(&#[trigger] r[j]) by {
            if i == 0 {
                assert(r[j] == q[j - 1]);
                assert(q.contains(q[j - 1]));
                if q[j - 1] == x {
                } else {
                    assert(t.contains(q[j - 1]));
                    let a = choose|a: int| 0 <= a < t.len() && t[a] == q[j - 1];
                    assert(s[0].before(&s[a + 1]));
                }
            } else {
                assert(r[i] == q[i - 1] && r[j] == q[j - 1]);
            }
        }
        assert forall|y: T| r.contains(y) <==> (s.contains(y) || y == x) by {
            if r.contains(y) {
                let a = choose|a: int| 0 <= a < r.len() && r[a] == y;
                if a == 0 {
                    assert(s[0] == y);
                } else {
                    assert(q[a - 1] == y);
                    assert(q.contains(y));
                    if t.contains(y) {
                        let b = choose|b: int| 0 <= b < t.len() && t[b] == y;
                        assert(s[b + 1] == y);
                    }
                }
            }
            if s.contains(y) {
                let a = choose|a: int| 0 <= a < s.len() && s[a] == y;
                if a == 0 {
                    assert(r[0] == y);
                } else {
                    assert(t[a - 1] == y);
                    assert(t.contains(y));
                    assert(q.contains(y));
                    let b = choose|b: int| 0 <= b < q.len() && q[b] == y;
                    assert(r[b + 1] == y);
                }
            }
            if y == x {
                assert(q.contains(x));
                let b = choose|b: int| 0 <= b < q.len() && q[b] == y;
                assert(r[b + 1] == y);
            }
        }
    } else {
        assert(r == seq![x] + s);
        T::before_total(s[0], x);
        assert forall|i: int, j: int| 0 <= i < j < r.len() implies #[trigger] r[i].before(&#[trigger] r[j]) by {
            if i == 0 {
                assert(r[j] == s[j - 1]);
                if j > 1 {
                    assert(s[0].before(&s[j - 1]));
                    T::before_transitive(x, s[0], s[j - 1]);
                }
            } else {
                assert(r[i] == s[i - 1] && r[j] == s[j - 1]);
            }
        }
        assert forall|y: T| r.contains(y) <==> (s.contains(y) || y == x) by {
            if r.contains(y) {
                let a = choose|a: int| 0 <= a < r.len() && r[a] == y;
                if a > 0 {
                    assert(s[a - 1] == y);
                }
            }
            if s.contains(y) {
                let a = choose|a: int| 0 <= a < s.len() && s[a] == y;
                assert(r[a + 1] == y);
            }
            if y == x {
                assert(r[0] == y);
            }
        }
    }
}

proof fn lemma_selection_witness<T: SortKey>(m: Map<u64, T>, sel: spec_fn(T) -> bool)
    requires
        m.dom().finite(),
        forall|k: u64| #[trigger] m.contains_key(k) ==> m[k].key() == k,
    ensures
        exists|s: Seq<T>| ordered_selection(s, m, sel),
    decreases m.dom().len(),
{
    if m.dom().len() == 0 {
        let s = Seq::<T>::empty();
        assert forall|k: u64| m.contains_key(k) && sel(m[k]) implies #[trigger] s.contains(m[k]) by {
            assert(m.dom().contains(k));
        }
        assert(ordered_selection(s, m, sel));
    } else {
        let k = m.dom().choose();
        assert(m.dom().contains(k));
        let m2 = m.remove(k);
        assert(m2.dom() =~= m.dom().remove(k));
        lemma_selection_witness(m2, sel);
        let s2 = choose|s: Seq<T>| ordered_selection(s, m2, sel);
        if sel(m[k]) {
            let x = m[k];
            assert forall|i: int| 0 <= i < s2.len() implies (#[trigger] s2[i]).key() != x.key() by {
                assert(m2.contains_key(s2[i].key()));
            }
            lemma_insert_sorted(s2, x);
            let s = insert_sorted(s2, x);
            assert forall|i: int| 0 <= i < s.len() implies m.contains_key(#[trigger] s[i].key()) && m[s[i].key()] == s[i] && sel(s[i]) by {
                assert(s.contains(s[i]));
                if s[i] != x {
                    assert(s2.contains(s[i]));
                    let a = choose|a: int| 0 <= a < s2.len() && s2[a] == s[i];
                    assert(m2.contains_key(s2[a].key()) && m2[s2[a].key()] == s2[a] && sel(s2[a]));
                }
            }
            assert forall|k2: u64| m.contains_key(k2) && sel(m[k2]) implies #[trigger] s.contains(m[k2]) by {
                if k2 != k {
                    assert(m2.contains_key(k2));
                    assert(s2.contains(m2[k2]));
                } else {
                    assert(insert_sorted(s2, x).contains(x));
                }
            }
            assert(ordered_selection(s, m, sel));
        } else {
            assert forall|i: int| 0 <= i < s2.len() implies m.contains_key(#[trigger] s2[i].key()) && m[s2[i].key()] == s2[i] && sel(s2[i]) by {
                assert(m2.contains_key(s2[i].key()) && m2[s2[i].key()] == s2[i]);
            }
            assert forall|k2: u64| m.contains_key(k2) && sel(m[k2]) implies #[trigger] s2.contains(m[k2]) by {
                if k2 != k {
                    assert(m2.contains_key(k2));
                    assert(s2.contains(m2[k2]));
                }
            }
            assert(ordered_selection(s2, m, sel));
        }
    }
}

/// Two strictly sorted sequences with the same elements are equal.
pub proof fn lemma_sorted_unique<T: SortKey>(s1: Seq<T>, s2: Seq<T>)
    requires
        strictly_sorted(s1),
        strictly_sorted(s2),
        forall|x: T| s1.contains(x) <==> s2.contains(x),
    ensures
        s1 == s2,
    decreases s1.len(),
{
    if s1.len() == 0 {
        if s2.len() > 0 {
            assert(s2.contains(s2[0]));
        }
        assert(s1 =~= s2);
    } else {
        assert(s1.contains(s1[0]));
        assert(s2.contains(s2[0]));
        let j = choose|j: int| 0 <= j < s2.len() && s2[j] == s1[0];
        let i = choose|i: int| 0 <= i < s1.len() && s1[i] == s2[0];
        if j > 0 {
            assert(s2[0].before(&s2[j]));
            if i > 0 {
                assert(s1[0].before(&s1[i]));
                T::before_transitive(s1[0], s2[0], s1[0]);
                T::before_irreflexive(s1[0]);
            } else {
                T::before_irreflexive(s1[0]);
            }
        }
        assert(s1[0] == s2[0]);
        let t1 = s1.drop_first();
        let t2 = s2.drop_first();
        assert forall|x: T| t1.contains(x) <==> t2.contains(x) by {
            if t1.contains(x) {
                let a = choose|a: int| 0 <= a < t1.len() && t1[a] == x;
                assert(s1[0].before(&s1[a + 1]));
                T::before_irreflexive(x);
                assert(s1.contains(x));
                let b = choose|b: int| 0 <= b < s2.len() && s2[b] == x;
                assert(b != 0);
                assert(t2[b - 1] == x);
            }
            if t2.contains(x) {
                let a = choose|a: int| 0 <= a < t2.len() && t2[a] == x;
                assert(s2[0].before(&s2[a + 1]));
                T::before_irreflexive(x);
                assert(s2.contains(x));
                let b = choose|b: int| 0 <= b < s1.len() && s1[b] == x;
                assert(b != 0);
                assert(t1[b - 1] == x);
            }
        }
        lemma_sorted_unique(t1, t2);
        assert forall|i: int| 0 <= i < s1.len() implies s1[i] == s2[i] by {
            if i > 0 {
                assert(s1[i] == t1[i - 1]);
                assert(s2[i] == t2[i - 1]);
            }
        }
        assert(s1 =~= s2);
    }
}

/// An ordered selection is the selection.
pub proof fn lemma_selection_is<T: SortKey>(s: Seq<T>, m: Map<u64, T>, sel: spec_fn(T) -> bool)
    requires
        ordered_selection(s, m, sel),
    ensures
        selection(m, sel) == s,
{
    let t = selection(m, sel);
    assert(ordered_selection(t, m, sel));
    assert forall|x: T| s.contains(x) <==> t.contains(x) by {
        if s.contains(x) {
            let a = choose|a: int| 0 <= a < s.len() && s[a] == x;
            assert(m.contains_key(s[a].key()) && m[s[a].key()] == s[a] && sel(s[a]));
            assert(t.contains(m[s[a].key()]));
        }
        if t.contains(x) {
            let a = choose|a: int| 0 <= a < t.len() && t[a] == x;
            assert(m.contains_key(t[a].key()) && m[t[a].key()] == t[a] && sel(t[a]));
            assert(s.contains(m[t[a].key()]));
        }
    }
    lemma_sorted_unique(s, t);
}

/// The elements at the positions `idx` of `items`.
pub open spec fn pick<T>(items: Seq<T>, idx: Seq<usize>) -> Seq<T> {
    idx.map_values(|i: usize| items[i as int])
}

/// Positions of the entries of `v` marked in `mask`, ordered by the sort
/// order of the entries.
pub fn sort_selected<T: SortKey>(v: &IdVec<T>, mask: &Vec<bool>, sel: Ghost<spec_fn(T) -> bool>) -> (idx: Vec<usize>)
    requires
        mask@.len() == v.items().len(),
        forall|i: int| 0 <= i < mask@.len() ==> #[trigger] mask@[i] == sel@(v.items()[i]),
    ensures
        forall|a: int| 0 <= a < idx@.len() ==> #[trigger] idx@[a] < v.items().len(),
        ordered_selection(pick(v.items(), idx@), v.view(), sel@),
        selection(v.view(), sel@) == pick(v.items(), idx@),
{
    let n = v.len();
    let ghost items = v.items();
    let mut idx: Vec<usize> = Vec::new();
    let mut j: usize = 0;
    while j < n
        invariant
            n == items.len(),
            items == v.items(),
            keys_unique(items),
            mask@.len() == n,
            j <= n,
            forall|a: int| 0 <= a < idx@.len() ==> #[trigger] idx@[a] < j,
            strictly_sorted(pick(items, idx@)),
            forall|a: int| 0 <= a < idx@.len() ==> mask@[#[trigger] idx@[a] as int],
            forall|b: int| 0 <= b < j && mask@[b] ==> #[trigger] idx@.contains(b as usize),
        decreases n - j,
    {
        if mask[j] {
            let x = v.at(j);
            let mut p: usize = 0;
            while p < idx.len() && v.at(idx[p]).is_before(x)
                invariant
                    n == items.len(),
                    items == v.items(),
                    j < n,
                    *x == items[j as int],
                    p <= idx@.len(),
                    forall|a: int| 0 <= a < idx@.len() ==> #[trigger] idx@[a] < j,
                    forall|a: int| 0 <= a < p ==> #[trigger] items[idx@[a] as int].before(x),
                decreases idx@.len() - p,
            {
                p = p + 1;
            }
            let ghost old_idx = idx@;
            idx.insert(p, j);
            proof {
                let s_old = pick(items, old_idx);
                let s_new = pick(items, idx@);
                assert(idx@ == old_idx.insert(p as int, j));
                // elements after p are after x
                assert forall|a: int| p <= a < old_idx.len() implies #[trigger] x.before(&items[old_idx[a] as int]) by {
                    let y = items[old_idx[a] as int];
                    assert(old_idx[a] != j);
                    assert(y.key() != x.key());
                    T::before_total(*x, y);
                    if y.before(x) {
                        if a == p {
                        } else {
                            assert(s_old[p as int].before(&s_old[a]));
                            T::before_transitive(s_old[p as int], y, *x);
                        }
                        assert(!items[old_idx[p as int] as int].before(x) || p == old_idx.len());
                    }
                }
                assert forall|a: int, b: int| 0 <= a < b < s_new.len() implies #[trigger] s_new[a].before(&#[trigger] s_new[b]) by {
                    if b < p {
                        assert(s_new[a] == s_old[a] && s_new[b] == s_old[b]);
                    } else if b == p {
                        assert(s_new[a] == s_old[a]);
                        assert(s_new[b] == *x);
                    } else if a < p {
                        assert(s_new[a] == s_old[a] && s_new[b] == s_old[b - 1]);
                        if a < p && p < old_idx.len() {
                            assert(items[old_idx[a] as int].before(x));
                            T::before_transitive(s_old[a], *x, s_old[b - 1]);
                        }
                    } else if a == p {
                        assert(s_new[a] == *x && s_new[b] == s_old[b - 1]);
                    } else {
                        assert(s_new[a] == s_old[a - 1] && s_new[b] == s_old[b - 1]);
                    }
                }
                assert forall|b: int| 0 <= b < j + 1 && mask@[b] implies #[trigger] idx@.contains(b as usize) by {
                    if b < j {
                        assert(old_idx.contains(b as usize));
                        let a = choose|a: int| 0 <= a < old_idx.len() && old_idx[a] == b as usize;
                        if a < p { assert(idx@[a] == b as usize); } else { assert(idx@[a + 1] == b as usize); }
                    } else {
                        assert(idx@[p as int] == j);
                    }
                }
            }
        }
        j = j + 1;
    }
    proof {
        let s = pick(items, idx@);
        let m = v.view();
        assert forall|i: int| 0 <= i < s.len() implies m.contains_key(#[trigger] s[i].key()) && m[s[i].key()] == s[i] && sel@(s[i]) by {
            lemma_seq_map_at(items, idx@[i] as int);
        }
        assert forall|k: u64| m.contains_key(k) && sel@(m[k]) implies #[trigger] s.contains(m[k]) by {
            assert(crate::idvec::has_key(items, k));
            let b = choose|b: int| 0 <= b < items.len() && #[trigger] items[b].key() == k;
            lemma_seq_map_at(items, b);
            assert(mask@[b]);
            assert(idx@.contains(b as usize));
            let a = choose|a: int| 0 <= a < idx@.len() && idx@[a] == b as usize;
            assert(s[a] == m[k]);
        }
        lemma_selection_is(s, m, sel@);
    }
    idx
}

} // verus!
