//! Orderings of integer tuples, and the stable sort that applies them.

use vstd::prelude::*;
use std::cmp::Ordering;
use itertools::Itertools;

verus! {

/// Orders two dock entries `(position, priority, length)` so that the higher
/// priority comes first.
pub fn by_priority_desc(a: &(usize, u32, i32), b: &(usize, u32, i32)) -> (o: Ordering)
    ensures
        (o == Ordering::Less) <==> a.1 > b.1,
        (o == Ordering::Greater) <==> a.1 < b.1,
        (o == Ordering::Equal) <==> a.1 == b.1,
{
    if a.1 > b.1 {
        Ordering::Less
    } else if a.1 < b.1 {
        Ordering::Greater
    } else {
        Ordering::Equal
    }
}

/// `Itertools::sorted_by` with [`by_priority_desc`]: the entries, highest
/// priority first. The crate's source collects the items into a `Vec` and
/// calls the stable `slice::sort_by` on it, so the result is a permutation of
/// the input in which entries of equal priority keep their relative order.
#[verifier::external_body]
pub(crate) fn sorted_by_priority_desc(v: Vec<(usize, u32, i32)>) -> (r: Vec<(usize, u32, i32)>)
    ensures
        r@.to_multiset() == v@.to_multiset(),
        forall|i: int, j: int| 0 <= i < j < r@.len() ==> r@[i].1 >= r@[j].1,
        forall|i: int, j: int|
            0 <= i < j < r@.len() && r@[i].1 == r@[j].1 ==> exists|p: int, q: int|
                0 <= p < q < v@.len() && v@[p] == r@[i] && v@[q] == r@[j],
{
    v.into_iter().sorted_by(|a, b| by_priority_desc(a, b)).collect()
}


/// Orders two keyed entries `(key, index)` by key, ascending or descending.
pub fn by_key(a: &(i64, usize), b: &(i64, usize), descending: bool) -> (o: Ordering)
    ensures
        (o == Ordering::Less) <==> (if descending { a.0 > b.0 } else { a.0 < b.0 }),
        (o == Ordering::Greater) <==> (if descending { a.0 < b.0 } else { a.0 > b.0 }),
        (o == Ordering::Equal) <==> a.0 == b.0,
{
    if a.0 == b.0 {
        Ordering::Equal
    } else if (a.0 < b.0) != descending {
        Ordering::Less
    } else {
        Ordering::Greater
    }
}

/// Whether `a` may stand before `b` after sorting by key in the given
/// direction.
pub open spec fn key_ordered(a: (i64, usize), b: (i64, usize), descending: bool) -> bool {
    if descending { a.0 >= b.0 } else { a.0 <= b.0 }
}

/// `slice::sort_by` with [`by_key`]: the entries sorted by key. std
/// documents this sort as stable, so the result is a permutation of the
/// input in which entries of equal key keep their relative order.
#[verifier::external_body]
pub(crate) fn sort_by_key_stable(v: &mut Vec<(i64, usize)>, descending: bool)
    ensures
        final(v)@.to_multiset() == old(v)@.to_multiset(),
        forall|i: int, j: int| 0 <= i < j < final(v)@.len() ==> key_ordered(final(v)@[i], final(v)@[j], descending),
        forall|i: int, j: int|
            0 <= i < j < final(v)@.len() && final(v)@[i].0 == final(v)@[j].0 ==> exists|p: int, q: int|
                0 <= p < q < old(v)@.len() && old(v)@[p] == final(v)@[i] && old(v)@[q] == final(v)@[j],
{
    v.sort_by(|a, b| by_key(a, b, descending))
}


/// Whether some entry of `r` carries the index `p`.
pub open spec fn index_present(r: Seq<(i64, usize)>, p: int) -> bool {
    exists|k: int| 0 <= k < r.len() && r[k].1 == p
}

pub(crate) proof fn lemma_sorted_keys(v: Seq<(i64, usize)>, r: Seq<(i64, usize)>, descending: bool)
    requires
        v.len() <= usize::MAX,
        forall|p: int| 0 <= p < v.len() ==> (#[trigger] v[p]).1 == p,
        r.to_multiset() == v.to_multiset(),
        forall|i: int, j: int| 0 <= i < j < r.len() ==> key_ordered(r[i], r[j], descending),
        forall|i: int, j: int|
            0 <= i < j < r.len() && r[i].0 == r[j].0 ==> exists|p: int, q: int|
                0 <= p < q < v.len() && v[p] == r[i] && v[q] == r[j],
    ensures
        r.len() == v.len(),
        forall|k: int| 0 <= k < r.len() ==> (#[trigger] r[k]).1 < v.len() && r[k] == v[r[k].1 as int],
        forall|p: int| 0 <= p < v.len() ==> #[trigger] index_present(r, p),
        forall|i: int, j: int| 0 <= i < j < r.len() ==> (if descending { (#[trigger] r[i]).0 > (#[trigger] r[j]).0 } else { r[i].0 < r[j].0 }) || (r[i].0 == r[j].0 && r[i].1 < r[j].1),
{
    broadcast use vstd::seq_lib::group_to_multiset_ensures;
    assert(r.len() == v.len()) by {
        assert(r.to_multiset().len() == r.len());
        assert(v.to_multiset().len() == v.len());
    }
    assert forall|k: int| 0 <= k < r.len() implies (#[trigger] r[k]).1 < v.len() && r[k] == v[r[k].1 as int] by {
        assert(r.contains(r[k]));
        assert(r.to_multiset().count(r[k]) > 0);
        assert(v.to_multiset().count(r[k]) > 0);
        assert(v.contains(r[k]));
        let p = choose|p: int| 0 <= p < v.len() && v[p] == r[k];
        assert(v[p].1 == p);
    }
    assert forall|p: int| 0 <= p < v.len() implies #[trigger] index_present(r, p) by {
        assert(v.contains(v[p]));
        assert(v.to_multiset().count(v[p]) > 0);
        assert(r.to_multiset().count(v[p]) > 0);
        assert(r.contains(v[p]));
        let k = choose|k: int| 0 <= k < r.len() && r[k] == v[p];
        assert(0 <= k < r.len() && r[k] == v[p]);
        assert(v[p].1 == p);
        assert(r[k].1 == p);
    }
    assert forall|i: int, j: int| 0 <= i < j < r.len() implies (if descending { (#[trigger] r[i]).0 > (#[trigger] r[j]).0 } else { r[i].0 < r[j].0 }) || (r[i].0 == r[j].0 && r[i].1 < r[j].1) by {
        assert(key_ordered(r[i], r[j], descending));
        if r[i].0 == r[j].0 {
            let (p, q) = choose|p: int, q: int| 0 <= p < q < v.len() && v[p] == r[i] && v[q] == r[j];
            assert(v[p].1 == p && v[q].1 == q);
        }
    }
}

/// Whether `idx` lists the positions of `keys` in the order of a stable
/// sort by key: each position once, by ascending key and, at equal keys, in
/// the order of the positions.
pub open spec fn stably_sorted(idx: Seq<usize>, keys: Seq<i64>) -> bool {
    &&& idx.len() == keys.len()
    &&& forall|i: int| 0 <= i < idx.len() ==> (#[trigger] idx[i]) < keys.len()
    &&& forall|p: usize| p < keys.len() ==> #[trigger] idx.contains(p)
    &&& forall|i: int, j: int| 0 <= i < j < idx.len() ==>
        keys[#[trigger] idx[i] as int] < keys[#[trigger] idx[j] as int]
        || (keys[idx[i] as int] == keys[idx[j] as int] && idx[i] < idx[j])
}

/// The order of a stable sort of `keys` by key, ascending; there is exactly
/// one (see [`lemma_stably_sorted_unique`]).
pub open spec fn stable_order_of(keys: Seq<i64>) -> Seq<usize> {
    choose|idx: Seq<usize>| stably_sorted(idx, keys)
}

/// The positions of `keys` in the order of a stable sort by key, ascending.
pub fn stable_order(keys: &Vec<i64>) -> (idx: Vec<usize>)
    ensures
        stably_sorted(idx@, keys@),
        idx@ == stable_order_of(keys@),
{
    let mut v: Vec<(i64, usize)> = Vec::new();
    let mut p: usize = 0;
    while p < keys.len()
        invariant
            p <= keys@.len(),
            v@.len() == p,
            forall|q: int| 0 <= q < p ==> (#[trigger] v@[q]) == (keys@[q], q as usize),
        decreases keys@.len() - p,
    {
        v.push((keys[p], p));
        p = p + 1;
    }
    let ghost v0 = v@;
    sort_by_key_stable(&mut v, false);
    proof {
        lemma_sorted_keys(v0, v@, false);
    }
    let mut idx: Vec<usize> = Vec::new();
    let mut k: usize = 0;
    while k < v.len()
        invariant
            k <= v@.len(),
            v@.len() == keys@.len(),
            v0.len() == keys@.len(),
            forall|q: int| 0 <= q < v0.len() ==> (#[trigger] v0[q]) == (keys@[q], q as usize),
            forall|x: int| 0 <= x < v@.len() ==> (#[trigger] v@[x]).1 < v0.len() && v@[x] == v0[v@[x].1 as int],
            idx@.len() == k,
            forall|x: int| 0 <= x < k ==> #[trigger] idx@[x] == v@[x].1,
        decreases v@.len() - k,
    {
        idx.push(v[k].1);
        k = k + 1;
    }
    proof {
        let r = v@;
        assert forall|q: usize| q < keys@.len() implies #[trigger] idx@.contains(q) by {
            assert(index_present(r, q as int));
            let kk = choose|kk: int| 0 <= kk < r.len() && r[kk].1 == q;
            assert(idx@[kk] == q);
        }
        assert forall|i: int, j: int| 0 <= i < j < idx@.len() implies
            keys@[#[trigger] idx@[i] as int] < keys@[#[trigger] idx@[j] as int]
            || (keys@[idx@[i] as int] == keys@[idx@[j] as int] && idx@[i] < idx@[j]) by {
            assert(r[i] == v0[r[i].1 as int]);
            assert(r[j] == v0[r[j].1 as int]);
        }
        assert(stably_sorted(idx@, keys@));
        lemma_stably_sorted_unique(idx@, stable_order_of(keys@), keys@);
    }
    idx
}


proof fn lemma_stably_sorted_prefix(a: Seq<usize>, b: Seq<usize>, keys: Seq<i64>, k: int)
    requires
        stably_sorted(a, keys),
        stably_sorted(b, keys),
        0 <= k <= a.len(),
    ensures
        forall|i: int| 0 <= i < k ==> a[i] == b[i],
    decreases k,
{
    if k > 0 {
        lemma_stably_sorted_prefix(a, b, keys, k - 1);
        let x = k - 1;
        assert(b.contains(a[x]));
        let m = choose|m: int| 0 <= m < b.len() && b[m] == a[x];
        assert(a.contains(b[x]));
        let m2 = choose|m2: int| 0 <= m2 < a.len() && a[m2] == b[x];
        if m < x {
            assert(b[m] == a[m]);
            assert(a[m] == a[x]);
        }
        if m2 < x {
            assert(a[m2] == b[m2]);
            assert(b[m2] == b[x]);
        }
        if m != x && m2 != x {
            assert(b[x] != b[m]);
        }
    }
}

/// A stable sort has one outcome: two orders that both sort the same keys
/// stably are the same order.
pub proof fn lemma_stably_sorted_unique(a: Seq<usize>, b: Seq<usize>, keys: Seq<i64>)
    requires
        stably_sorted(a, keys),
        stably_sorted(b, keys),
    ensures
        a == b,
{
    lemma_stably_sorted_prefix(a, b, keys, a.len() as int);
    assert(a =~= b);
}

/// Keys always have a stable sort order, so [`stable_order_of`] is one.
pub proof fn lemma_stable_order_exists(keys: Seq<i64>)
    requires
        keys.len() <= usize::MAX,
    ensures
        stably_sorted(stable_order_of(keys), keys),
{
    broadcast use vstd::seq_lib::group_to_multiset_ensures;
    let n = keys.len();
    let ids = Seq::new(n, |i: int| i as usize);
    let leq = |a: usize, b: usize| keys[a as int] < keys[b as int] || (keys[a as int] == keys[b as int] && a <= b);
    assert(vstd::relations::reflexive(leq));
    assert(vstd::relations::antisymmetric(leq));
    assert(vstd::relations::transitive(leq));
    assert(vstd::relations::strongly_connected(leq));
    ids.lemma_sort_by_ensures(leq);
    let r = ids.sort_by(leq);
    assert(ids.no_duplicates());
    ids.lemma_multiset_has_no_duplicates();
    r.lemma_multiset_has_no_duplicates_conv();
    assert(r.len() == n) by {
        assert(r.to_multiset().len() == ids.to_multiset().len());
    }
    assert forall|i: int| 0 <= i < r.len() implies (#[trigger] r[i]) < n by {
        assert(r.contains(r[i]));
        assert(r.to_multiset().count(r[i]) > 0);
        assert(ids.contains(r[i]));
        let j = choose|j: int| 0 <= j < ids.len() && ids[j] == r[i];
    }
    assert forall|p: usize| p < n implies #[trigger] r.contains(p) by {
        assert(ids[p as int] == p);
        assert(ids.contains(p));
        assert(r.to_multiset().count(p) > 0);
    }
    assert forall|i: int, j: int| 0 <= i < j < r.len() implies
        keys[#[trigger] r[i] as int] < keys[#[trigger] r[j] as int]
        || (keys[r[i] as int] == keys[r[j] as int] && r[i] < r[j]) by {
        assert(leq(r[i], r[j]));
        assert(r[i] != r[j]);
    }
    assert(stably_sorted(r, keys));
}

} // verus!
