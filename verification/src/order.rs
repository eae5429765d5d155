//! Sequences sorted by a string key, and the stable sort that the
//! configuration and the backup retention rely on.

use vstd::prelude::*;
use vstd::multiset::Multiset;
use crate::text::{
    lemma_lex_asymmetric, lemma_lex_irreflexive, lemma_lex_le_transitive,
    lex_le, lex_lt,
};

verus! {

/// The keys of `s` never decrease.
pub open spec fn sorted_by<T>(s: Seq<T>, key: spec_fn(T) -> Seq<char>) -> bool {
    forall|i: int, j: int| 0 <= i < j < s.len() ==> lex_le(key(#[trigger] s[i]), key(#[trigger] s[j]))
}

/// The predicate of the items whose key is `k`.
pub open spec fn key_is<T>(key: spec_fn(T) -> Seq<char>, k: Seq<char>) -> spec_fn(T) -> bool {
    |x: T| key(x) == k
}

/// `r` is `s` sorted by `key`, where items of equal key keep the order
/// they had in `s` (what a stable sort such as `slice::sort_by` gives).
pub open spec fn is_stable_sort_of<T>(r: Seq<T>, s: Seq<T>, key: spec_fn(T) -> Seq<char>) -> bool {
    &&& r.len() == s.len()
    &&& sorted_by(r, key)
    &&& forall|k: Seq<char>| #[trigger] r.filter(key_is(key, k)) == s.filter(key_is(key, k))
}

pub proof fn lemma_filter_push<T>(s: Seq<T>, x: T, p: spec_fn(T) -> bool)
    ensures
        s.push(x).filter(p) == (if p(x) { s.filter(p).push(x) } else { s.filter(p) }),
{
    reveal(Seq::filter);
    assert(s.push(x).drop_last() =~= s);
}

pub proof fn lemma_filter_none<T>(s: Seq<T>, p: spec_fn(T) -> bool)
    requires
        forall|i: int| 0 <= i < s.len() ==> !p(#[trigger] s[i]),
    ensures
        s.filter(p) == Seq::<T>::empty(),
    decreases s.len(),
{
    reveal(Seq::filter);
    if s.len() > 0 {
        lemma_filter_none(s.drop_last(), p);
    }
}

/// The empty sequence is the stable sort of itself.
pub proof fn lemma_empty_stable_sort<T>(key: spec_fn(T) -> Seq<char>)
    ensures
        is_stable_sort_of(Seq::<T>::empty(), Seq::<T>::empty(), key),
{
    assert forall|k: Seq<char>| #[trigger] Seq::<T>::empty().filter(key_is(key, k))
        == Seq::<T>::empty().filter(key_is(key, k)) by {}
}

/// Inserting `x` after every item whose key is not above its own and before
/// every item whose key is above it extends a stable sort of `s` to one of
/// `s.push(x)`.
pub proof fn lemma_insert_stable_sort<T>(o: Seq<T>, s: Seq<T>, x: T, p: int, key: spec_fn(T) -> Seq<char>)
    requires
        is_stable_sort_of(o, s, key),
        0 <= p <= o.len(),
        p > 0 ==> lex_le(key(o[p - 1]), key(x)),
        forall|q: int| p <= q < o.len() ==> lex_lt(key(x), key(#[trigger] o[q])),
    ensures
        is_stable_sort_of(o.insert(p, x), s.push(x), key),
{
    let n = o.insert(p, x);
    assert forall|i: int, j: int| 0 <= i < j < n.len() implies lex_le(key(#[trigger] n[i]), key(#[trigger] n[j])) by {
        if j < p {
            assert(n[i] == o[i] && n[j] == o[j]);
        } else if j == p {
            if i < p - 1 {
                lemma_lex_le_transitive(key(o[i]), key(o[p - 1]), key(x));
            }
        } else if i < p {
            assert(n[j] == o[j - 1]);
            lemma_lex_le_transitive(key(o[i]), key(o[p - 1]), key(x));
            lemma_lex_le_transitive(key(o[i]), key(x), key(o[j - 1]));
        } else if i == p {
            assert(n[j] == o[j - 1]);
        } else {
            assert(n[i] == o[i - 1] && n[j] == o[j - 1]);
        }
    }
    let front = o.take(p);
    let back = o.skip(p);
    assert(o =~= front + back);
    assert(n =~= front + seq![x] + back);
    assert forall|k: Seq<char>| #[trigger] n.filter(key_is(key, k)) == s.push(x).filter(key_is(key, k)) by {
        let pk = key_is(key, k);
        Seq::filter_distributes_over_add(front, back, pk);
        Seq::filter_distributes_over_add(front + seq![x], back, pk);
        Seq::filter_distributes_over_add(front, seq![x], pk);
        lemma_filter_push(s, x, pk);
        lemma_filter_push(Seq::<T>::empty(), x, pk);
        assert(Seq::<T>::empty().push(x) =~= seq![x]);
        reveal(Seq::filter);
        assert(Seq::<T>::empty().filter(pk) =~= Seq::<T>::empty());
        if key(x) == k {
            assert forall|q: int| 0 <= q < back.len() implies !pk(#[trigger] back[q]) by {
                assert(back[q] == o[p + q]);
                lemma_lex_irreflexive(key(x));
            }
            lemma_filter_none(back, pk);
            assert(front.filter(pk) + seq![x] =~= front.filter(pk).push(x));
            assert(front.filter(pk) + back.filter(pk) =~= front.filter(pk));
        } else {
            assert(front.filter(pk) + Seq::<T>::empty() =~= front.filter(pk));
        }
    }
}


proof fn lemma_filter_witness<T>(s: Seq<T>, p: spec_fn(T) -> bool)
    requires
        s.filter(p).len() > 0,
    ensures
        exists|i: int| 0 <= i < s.len() && p(#[trigger] s[i]),
    decreases s.len(),
{
    reveal(Seq::filter);
    if s.len() > 0 && !p(s.last()) {
        lemma_filter_witness(s.drop_last(), p);
        let i: int = choose|i: int| 0 <= i < s.drop_last().len() && p(#[trigger] s.drop_last()[i]);
        assert(s[i] == s.drop_last()[i]);
    }
}

/// Two sequences sorted by `key` that hold, key by key, the same items in
/// the same order are equal.
pub proof fn lemma_sorted_same_groups_equal<T>(r1: Seq<T>, r2: Seq<T>, key: spec_fn(T) -> Seq<char>)
    requires
        r1.len() == r2.len(),
        sorted_by(r1, key),
        sorted_by(r2, key),
        forall|k: Seq<char>| #[trigger] r1.filter(key_is(key, k)) == r2.filter(key_is(key, k)),
    ensures
        r1 == r2,
    decreases r1.len(),
{
    if r1.len() == 0 {
        assert(r1 =~= r2);
    } else {
        let a1 = r1.drop_last();
        let a2 = r2.drop_last();
        let x1 = r1.last();
        let x2 = r2.last();
        let k1 = key(x1);
        let k2 = key(x2);
        assert(r1 =~= a1.push(x1));
        assert(r2 =~= a2.push(x2));
        lemma_filter_push(a1, x1, key_is(key, k1));
        lemma_filter_push(a2, x2, key_is(key, k2));
        lemma_filter_witness(r2, key_is(key, k1));
        let i: int = choose|i: int| 0 <= i < r2.len() && key_is(key, k1)(#[trigger] r2[i]);
        assert(lex_le(k1, k2)) by {
            if i < r2.len() - 1 {
                assert(lex_le(key(r2[i]), key(r2[r2.len() - 1])));
            }
        }
        lemma_filter_witness(r1, key_is(key, k2));
        let j: int = choose|j: int| 0 <= j < r1.len() && key_is(key, k2)(#[trigger] r1[j]);
        assert(lex_le(k2, k1)) by {
            if j < r1.len() - 1 {
                assert(lex_le(key(r1[j]), key(r1[r1.len() - 1])));
            }
        }
        lemma_lex_asymmetric(k1, k2);
        assert(k1 == k2);
        let pk = key_is(key, k1);
        assert(r1.filter(pk) == r2.filter(pk));
        assert(r1.filter(pk) == a1.filter(pk).push(x1));
        assert(r2.filter(pk) == a2.filter(pk).push(x2));
        assert(a1.filter(pk).push(x1).last() == x1);
        assert(a2.filter(pk).push(x2).last() == x2);
        assert(x1 == x2);
        assert forall|i: int, j: int| 0 <= i < j < a1.len() implies lex_le(key(#[trigger] a1[i]), key(#[trigger] a1[j])) by {
            assert(a1[i] == r1[i] && a1[j] == r1[j]);
        }
        assert forall|i: int, j: int| 0 <= i < j < a2.len() implies lex_le(key(#[trigger] a2[i]), key(#[trigger] a2[j])) by {
            assert(a2[i] == r2[i] && a2[j] == r2[j]);
        }
        assert forall|k: Seq<char>| #[trigger] a1.filter(key_is(key, k)) == a2.filter(key_is(key, k)) by {
            lemma_filter_push(a1, x1, key_is(key, k));
            lemma_filter_push(a2, x2, key_is(key, k));
            assert(r1.filter(key_is(key, k)) == r2.filter(key_is(key, k)));
            if k == k1 {
                assert(a1.filter(key_is(key, k)) =~= r1.filter(key_is(key, k)).drop_last());
                assert(a2.filter(key_is(key, k)) =~= r2.filter(key_is(key, k)).drop_last());
            }
        }
        lemma_sorted_same_groups_equal(a1, a2, key);
    }
}

/// A stable sort is unique: two stable sorts of the same sequence by the
/// same key are equal.
pub proof fn lemma_stable_sort_unique<T>(r1: Seq<T>, r2: Seq<T>, s: Seq<T>, key: spec_fn(T) -> Seq<char>)
    requires
        is_stable_sort_of(r1, s, key),
        is_stable_sort_of(r2, s, key),
    ensures
        r1 == r2,
{
    assert forall|k: Seq<char>| #[trigger] r1.filter(key_is(key, k)) == r2.filter(key_is(key, k)) by {
        assert(r1.filter(key_is(key, k)) == s.filter(key_is(key, k)));
        assert(r2.filter(key_is(key, k)) == s.filter(key_is(key, k)));
    }
    lemma_sorted_same_groups_equal(r1, r2, key);
}


/// No two items of `s` share a key.
pub open spec fn distinct_keys<T>(s: Seq<T>, key: spec_fn(T) -> Seq<char>) -> bool {
    forall|i: int, j: int| 0 <= i < j < s.len() ==> key(#[trigger] s[i]) != key(#[trigger] s[j])
}

proof fn lemma_filter_count<T>(s: Seq<T>, p: spec_fn(T) -> bool, y: T)
    ensures
        s.filter(p).to_multiset().count(y) == (if p(y) { s.to_multiset().count(y) } else { 0 }),
    decreases s.len(),
{
    broadcast use vstd::multiset::group_multiset_axioms;
    reveal(Seq::filter);
    if s.len() == 0 {
        assert(s.to_multiset() =~= Multiset::<T>::empty()) by {
            broadcast use vstd::seq_lib::group_to_multiset_ensures;
        }
        assert(s.filter(p) =~= Seq::<T>::empty());
        assert(s.filter(p).to_multiset() =~= Multiset::<T>::empty()) by {
            broadcast use vstd::seq_lib::group_to_multiset_ensures;
        }
    } else {
        let t = s.drop_last();
        let x = s.last();
        lemma_filter_count(t, p, y);
        assert(s =~= t.push(x));
        vstd::seq_lib::to_multiset_build(t, x);
        if p(x) {
            vstd::seq_lib::to_multiset_build(t.filter(p), x);
        }
    }
}

proof fn lemma_distinct_filter_len<T>(s: Seq<T>, key: spec_fn(T) -> Seq<char>, k: Seq<char>)
    requires
        distinct_keys(s, key),
    ensures
        s.filter(key_is(key, k)).len() <= 1,
    decreases s.len(),
{
    reveal(Seq::filter);
    if s.len() > 0 {
        let t = s.drop_last();
        assert forall|i: int, j: int| 0 <= i < j < t.len() implies key(#[trigger] t[i]) != key(#[trigger] t[j]) by {
            assert(t[i] == s[i] && t[j] == s[j]);
        }
        lemma_distinct_filter_len(t, key, k);
        if key(s.last()) == k && t.filter(key_is(key, k)).len() > 0 {
            lemma_filter_witness(t, key_is(key, k));
            let i: int = choose|i: int| 0 <= i < t.len() && key_is(key, k)(#[trigger] t[i]);
            assert(s[i] == t[i]);
            assert(key(s[i]) != key(s[s.len() - 1]));
        }
    }
}

/// Two sequences with the same items, where no two items share a key, hold
/// the same items key by key.
pub proof fn lemma_same_items_same_groups<T>(s1: Seq<T>, s2: Seq<T>, key: spec_fn(T) -> Seq<char>)
    requires
        s1.to_multiset() == s2.to_multiset(),
        distinct_keys(s1, key),
    ensures
        forall|k: Seq<char>| #[trigger] s1.filter(key_is(key, k)) == s2.filter(key_is(key, k)),
{
    broadcast use vstd::seq_lib::group_to_multiset_ensures;
    assert forall|k: Seq<char>| #[trigger] s1.filter(key_is(key, k)) == s2.filter(key_is(key, k)) by {
        let p = key_is(key, k);
        let f1 = s1.filter(p);
        let f2 = s2.filter(p);
        assert forall|y: T| f1.to_multiset().count(y) == f2.to_multiset().count(y) by {
            lemma_filter_count(s1, p, y);
            lemma_filter_count(s2, p, y);
        }
        assert(f1.to_multiset() =~= f2.to_multiset());
        lemma_distinct_filter_len(s1, key, k);
        vstd::seq_lib::to_multiset_len(f1);
        vstd::seq_lib::to_multiset_len(f2);
        assert(f1.len() == f2.len());
        if f1.len() == 1 {
            assert(f1.contains(f1[0]));
            vstd::seq_lib::to_multiset_contains(f1, f1[0]);
            vstd::seq_lib::to_multiset_contains(f2, f1[0]);
            assert(f2.contains(f1[0]));
        }
        assert(f1 =~= f2);
    }
}

} // verus!
