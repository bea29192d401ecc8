//! Stable ordering by an integer key, as the planners use it.
//!
//! `stable_sort` is insertion sort written as a spec function: elements
//! with equal keys keep the order in which they came. The executable side
//! inserts each element at the position that [`lemma_insert_at`] names.

use vstd::prelude::*;

verus! {

broadcast use vstd::seq_lib::group_to_multiset_ensures;

/// `s` with `x` inserted after every element whose key is at most `x`'s,
/// scanning from the back.
pub open spec fn insert_sorted<T>(s: Seq<T>, x: T, key: spec_fn(T) -> int) -> Seq<T>
    decreases s.len(),
{
    if s.len() == 0 {
        seq![x]
    } else if key(s.last()) <= key(x) {
        s.push(x)
    } else {
        insert_sorted(s.drop_last(), x, key).push(s.last())
    }
}

/// `s` ordered by ascending key; equal keys keep their relative order.
pub open spec fn stable_sort<T>(s: Seq<T>, key: spec_fn(T) -> int) -> Seq<T>
    decreases s.len(),
{
    if s.len() == 0 {
        s
    } else {
        insert_sorted(stable_sort(s.drop_last(), key), s.last(), key)
    }
}

pub open spec fn sorted_by<T>(s: Seq<T>, key: spec_fn(T) -> int) -> bool {
    forall|i: int, j: int| 0 <= i <= j < s.len() ==> key(#[trigger] s[i]) <= key(#[trigger] s[j])
}

/// Inserting at the first position from the back whose predecessor's key
/// is at most `key(x)` is what `insert_sorted` does.
pub proof fn lemma_insert_at<T>(s: Seq<T>, x: T, key: spec_fn(T) -> int, p: int)
    requires
        0 <= p <= s.len(),
        forall|k: int| p <= k < s.len() ==> key(x) < key(#[trigger] s[k]),
        p == 0 || key(s[p - 1]) <= key(x),
    ensures
        insert_sorted(s, x, key) == s.insert(p, x),
    decreases s.len(),
{
    if s.len() == 0 {
        assert(s.insert(p, x) =~= seq![x]);
    } else if key(s.last()) <= key(x) {
        if p < s.len() {
            assert(key(x) < key(s[s.len() - 1]));
        }
        assert(s.insert(p, x) =~= s.push(x));
    } else {
        assert(p < s.len());
        lemma_insert_at(s.drop_last(), x, key, p);
        assert(s.insert(p, x) =~= s.drop_last().insert(p, x).push(s.last()));
    }
}

/// `insert_sorted` adds exactly `x`.
pub proof fn lemma_insert_sorted_multiset<T>(s: Seq<T>, x: T, key: spec_fn(T) -> int)
    ensures
        insert_sorted(s, x, key).to_multiset() == s.to_multiset().insert(x),
    decreases s.len(),
{
    if s.len() == 0 {
        assert(seq![x] =~= Seq::<T>::empty().push(x));
        assert(s =~= Seq::<T>::empty());
    } else if key(s.last()) <= key(x) {
    } else {
        lemma_insert_sorted_multiset(s.drop_last(), x, key);
        assert(s.drop_last().push(s.last()) =~= s);
        assert(s.drop_last().to_multiset().insert(s.last()) == s.to_multiset());
        assert(s.drop_last().to_multiset().insert(x).insert(s.last()) =~= s.drop_last().to_multiset().insert(
            s.last(),
        ).insert(x));
    }
}

proof fn lemma_insert_bound<T>(s: Seq<T>, x: T, key: spec_fn(T) -> int, b: int)
    requires
        forall|i: int| 0 <= i < s.len() ==> key(#[trigger] s[i]) <= b,
        key(x) <= b,
    ensures
        forall|i: int|
            0 <= i < insert_sorted(s, x, key).len() ==> key(#[trigger] insert_sorted(s, x, key)[i]) <= b,
        insert_sorted(s, x, key).len() == s.len() + 1,
    decreases s.len(),
{
    if s.len() == 0 {
    } else if key(s.last()) <= key(x) {
    } else {
        lemma_insert_bound(s.drop_last(), x, key, b);
    }
}

/// Inserting into a sorted sequence keeps it sorted.
pub proof fn lemma_insert_sorted_keeps_order<T>(s: Seq<T>, x: T, key: spec_fn(T) -> int)
    requires
        sorted_by(s, key),
    ensures
        sorted_by(insert_sorted(s, x, key), key),
    decreases s.len(),
{
    if s.len() == 0 {
    } else if key(s.last()) <= key(x) {
        let t = s.push(x);
        assert forall|i: int, j: int| 0 <= i <= j < t.len() implies key(#[trigger] t[i]) <= key(
            #[trigger] t[j],
        ) by {
            if j == s.len() {
                if i < s.len() {
                    assert(key(s[i]) <= key(s[s.len() - 1]));
                }
            }
        }
    } else {
        let d = s.drop_last();
        assert(sorted_by(d, key));
        lemma_insert_sorted_keeps_order(d, x, key);
        assert forall|i: int| 0 <= i < d.len() implies key(#[trigger] d[i]) <= key(s.last()) by {
            assert(key(s[i]) <= key(s[s.len() - 1]));
        }
        lemma_insert_bound(d, x, key, key(s.last()));
        let u = insert_sorted(d, x, key);
        let t = u.push(s.last());
        assert forall|i: int, j: int| 0 <= i <= j < t.len() implies key(#[trigger] t[i]) <= key(
            #[trigger] t[j],
        ) by {
            if j == u.len() {
                if i < u.len() {
                    assert(key(u[i]) <= key(s.last()));
                }
            } else {
                assert(key(u[i]) <= key(u[j]));
            }
        }
    }
}

/// The result of `stable_sort` is ordered by key.
pub proof fn lemma_stable_sort_sorted<T>(s: Seq<T>, key: spec_fn(T) -> int)
    ensures
        sorted_by(stable_sort(s, key), key),
    decreases s.len(),
{
    if s.len() > 0 {
        lemma_stable_sort_sorted(s.drop_last(), key);
        lemma_insert_sorted_keeps_order(stable_sort(s.drop_last(), key), s.last(), key);
    }
}

/// `stable_sort` rearranges its input: same elements, same multiplicities.
pub proof fn lemma_stable_sort_permutes<T>(s: Seq<T>, key: spec_fn(T) -> int)
    ensures
        stable_sort(s, key).to_multiset() == s.to_multiset(),
        stable_sort(s, key).len() == s.len(),
    decreases s.len(),
{
    if s.len() > 0 {
        lemma_stable_sort_permutes(s.drop_last(), key);
        lemma_insert_sorted_multiset(stable_sort(s.drop_last(), key), s.last(), key);
        assert(s.drop_last().push(s.last()) =~= s);
    }
    assert(stable_sort(s, key).to_multiset().len() == s.to_multiset().len());
}

/// `s` with `x` inserted after every element `e` with `le(e, x)`,
/// scanning from the back.
pub open spec fn insert_by<T>(s: Seq<T>, x: T, le: spec_fn(T, T) -> bool) -> Seq<T>
    decreases s.len(),
{
    if s.len() == 0 {
        seq![x]
    } else if le(s.last(), x) {
        s.push(x)
    } else {
        insert_by(s.drop_last(), x, le).push(s.last())
    }
}

/// Insertion sort by the relation `le`.
pub open spec fn sort_by<T>(s: Seq<T>, le: spec_fn(T, T) -> bool) -> Seq<T>
    decreases s.len(),
{
    if s.len() == 0 {
        s
    } else {
        insert_by(sort_by(s.drop_last(), le), s.last(), le)
    }
}

/// Inserting at the first position from the back whose predecessor is
/// `le` to `x` is what `insert_by` does.
pub proof fn lemma_insert_by_at<T>(s: Seq<T>, x: T, le: spec_fn(T, T) -> bool, p: int)
    requires
        0 <= p <= s.len(),
        forall|k: int| p <= k < s.len() ==> !le(#[trigger] s[k], x),
        p == 0 || le(s[p - 1], x),
    ensures
        insert_by(s, x, le) == s.insert(p, x),
    decreases s.len(),
{
    if s.len() == 0 {
        assert(s.insert(p, x) =~= seq![x]);
    } else if le(s.last(), x) {
        if p < s.len() {
            assert(!le(s[s.len() - 1], x));
        }
        assert(s.insert(p, x) =~= s.push(x));
    } else {
        assert(p < s.len());
        lemma_insert_by_at(s.drop_last(), x, le, p);
        assert(s.insert(p, x) =~= s.drop_last().insert(p, x).push(s.last()));
    }
}

} // verus!
