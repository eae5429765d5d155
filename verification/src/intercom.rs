//! Intercoms as the directory lists them, and the normalised, sorted list
//! that the configuration is generated from.

use vstd::prelude::*;
use crate::mac::{normalize_mac, spec_normalize_mac};
use crate::order::{
    distinct_keys, is_stable_sort_of, key_is, lemma_empty_stable_sort, lemma_insert_stable_sort,
    lemma_same_items_same_groups, lemma_sorted_same_groups_equal,
};
use crate::text::{lemma_lex_total, lex_le, lex_lt, str_lt};

verus! {

/// An intercom: its directory id and its MAC address.
pub struct Intercom {
    pub id: String,
    pub mac: String,
}

impl View for Intercom {
    type V = (Seq<char>, Seq<char>);

    open spec fn view(&self) -> (Seq<char>, Seq<char>) {
        (self.id@, self.mac@)
    }
}

impl DeepView for Intercom {
    type V = (Seq<char>, Seq<char>);

    open spec fn deep_view(&self) -> (Seq<char>, Seq<char>) {
        self@
    }
}

impl Intercom {
    pub fn new(id: String, mac: String) -> (r: Intercom)
        ensures
            r@ == (id@, mac@),
    {
        Intercom { id, mac }
    }
}

/// The MAC address of an intercom's view.
pub open spec fn mac_key() -> spec_fn((Seq<char>, Seq<char>)) -> Seq<char> {
    |e: (Seq<char>, Seq<char>)| e.1
}

/// The intercoms of `raw` whose MAC address normalises, in their order,
/// each with its normalised address.
pub open spec fn normalized_entries(raw: Seq<(Seq<char>, Seq<char>)>) -> Seq<(Seq<char>, Seq<char>)>
    decreases raw.len(),
{
    if raw.len() == 0 {
        Seq::empty()
    } else {
        let rest = normalized_entries(raw.drop_last());
        match spec_normalize_mac(raw.last().1) {
            Some(m) => rest.push((raw.last().0, m)),
            None => rest,
        }
    }
}

/// Inserts `x` into `out`, which is sorted by MAC address, after every
/// entry whose address is not above its own.
fn insert_by_mac(out: &mut Vec<Intercom>, x: Intercom, Ghost(s): Ghost<Seq<(Seq<char>, Seq<char>)>>)
    requires
        is_stable_sort_of(old(out).deep_view(), s, mac_key()),
    ensures
        is_stable_sort_of(final(out).deep_view(), s.push(x@), mac_key()),
        final(out).deep_view().to_multiset() == old(out).deep_view().to_multiset().insert(x@),
{
    let ghost o = out.deep_view();
    let mut p: usize = out.len();
    while p > 0 && str_lt(x.mac.as_str(), out[p - 1].mac.as_str())
        invariant
            p <= out.len(),
            out.deep_view() == o,
            forall|q: int| p <= q < o.len() ==> lex_lt(x@.1, #[trigger] o[q].1),
        decreases p,
    {
        p = p - 1;
    }
    proof {
        if p > 0 {
            lemma_lex_total(o[p - 1].1, x@.1);
        }
        lemma_insert_stable_sort(o, s, x@, p as int, mac_key());
    }
    let ghost xv = x@;
    out.insert(p, x);
    assert(out.deep_view() =~= o.insert(p as int, xv));
    proof {
        vstd::seq_lib::to_multiset_insert(o, p as int, xv);
    }
}

/// The intercoms of `raw` whose MAC address normalises, with the address
/// normalised and the list sorted by it (stably: intercoms with the same
/// address keep their order), and the number of intercoms dropped for an
/// invalid address.
pub fn normalize_intercoms(raw: &Vec<Intercom>) -> (r: (Vec<Intercom>, usize))
    ensures
        is_stable_sort_of(r.0.deep_view(), normalized_entries(raw.deep_view()), mac_key()),
        r.1 == raw.len() - normalized_entries(raw.deep_view()).len(),
        forall|i: int, j: int| 0 <= i < j < r.0.len() ==> lex_le(r.0@[i].mac@, r.0@[j].mac@),
        r.0.deep_view().to_multiset() == normalized_entries(raw.deep_view()).to_multiset(),
        forall|i: int|
            0 <= i < r.0.len() ==> exists|j: int|
                0 <= j < raw.len() && raw@[j].id@ == (#[trigger] r.0@[i]).id@
                    && spec_normalize_mac(raw@[j].mac@) == Some(r.0@[i].mac@),
{
    let mut out: Vec<Intercom> = Vec::new();
    let mut dropped: usize = 0;
    let ghost src = raw.deep_view();
    proof {
        lemma_empty_stable_sort(mac_key());
        assert(src.take(0) =~= Seq::<(Seq<char>, Seq<char>)>::empty());
        assert(out.deep_view() =~= Seq::<(Seq<char>, Seq<char>)>::empty());
    }
    let mut i: usize = 0;
    while i < raw.len()
        invariant
            i <= raw.len(),
            src == raw.deep_view(),
            is_stable_sort_of(out.deep_view(), normalized_entries(src.take(i as int)), mac_key()),
            out.deep_view().to_multiset() == normalized_entries(src.take(i as int)).to_multiset(),
            dropped == i - normalized_entries(src.take(i as int)).len(),
            normalized_entries(src.take(i as int)).len() <= i,
        decreases raw.len() - i,
    {
        assert(src.take(i + 1).drop_last() =~= src.take(i as int));
        assert(src.take(i + 1).last() == raw@[i as int]@);
        match normalize_mac(raw[i].mac.as_str()) {
            Some(m) => {
                let entry = Intercom::new(raw[i].id.clone(), m);
                proof {
                    vstd::seq_lib::to_multiset_build(normalized_entries(src.take(i as int)), entry@);
                }
                insert_by_mac(&mut out, entry, Ghost(normalized_entries(src.take(i as int))));
            },
            None => {
                dropped = dropped + 1;
            },
        }
        i = i + 1;
    }
    assert(src.take(raw.len() as int) =~= src);
    proof {
        let r = out.deep_view();
        let n = normalized_entries(src);
        lemma_normalized_list_sorted_by_mac(r, n);
        lemma_normalized_entries_origin(src);
        assert forall|i: int, j: int| 0 <= i < j < out.len() implies lex_le(out@[i].mac@, out@[j].mac@) by {
            assert(r[i] == out@[i]@ && r[j] == out@[j]@);
        }
        assert forall|i: int| 0 <= i < out.len() implies exists|j: int|
            0 <= j < raw.len() && raw@[j].id@ == (#[trigger] out@[i]).id@
                && spec_normalize_mac(raw@[j].mac@) == Some(out@[i].mac@) by {
            assert(r[i] == out@[i]@);
            vstd::seq_lib::to_multiset_contains(r, r[i]);
            vstd::seq_lib::to_multiset_contains(n, r[i]);
            let k: int = choose|k: int| 0 <= k < n.len() && n[k] == r[i];
            let j: int = choose|j: int| 0 <= j < src.len() && n[k].0 == src[j].0
                && spec_normalize_mac(src[j].1) == Some(n[k].1);
            assert(src[j] == raw@[j]@);
        }
    }
    (out, dropped)
}

/// The normalised list is ordered by the whole normalised MAC address.
pub proof fn lemma_normalized_list_sorted_by_mac(r: Seq<(Seq<char>, Seq<char>)>, s: Seq<(Seq<char>, Seq<char>)>)
    requires
        is_stable_sort_of(r, s, mac_key()),
    ensures
        forall|i: int, j: int| 0 <= i < j < r.len() ==> lex_le(r[i].1, r[j].1),
{
    assert forall|i: int, j: int| 0 <= i < j < r.len() implies lex_le(r[i].1, r[j].1) by {
        assert(lex_le(mac_key()(r[i]), mac_key()(r[j])));
    }
}

/// Every entry of the normalised list comes from an intercom of the raw
/// list: same id, and its address is that intercom's address normalised.
pub proof fn lemma_normalized_entries_origin(raw: Seq<(Seq<char>, Seq<char>)>)
    ensures
        forall|i: int|
            0 <= i < normalized_entries(raw).len() ==> exists|j: int|
                0 <= j < raw.len() && (#[trigger] normalized_entries(raw)[i]).0 == raw[j].0
                    && spec_normalize_mac(raw[j].1) == Some(normalized_entries(raw)[i].1),
    decreases raw.len(),
{
    if raw.len() > 0 {
        let t = raw.drop_last();
        lemma_normalized_entries_origin(t);
        let n = normalized_entries(raw);
        let nt = normalized_entries(t);
        assert forall|i: int| 0 <= i < n.len() implies exists|j: int|
            0 <= j < raw.len() && (#[trigger] n[i]).0 == raw[j].0
                && spec_normalize_mac(raw[j].1) == Some(n[i].1) by {
            if i < nt.len() {
                assert(n[i] == nt[i]);
                let j: int = choose|j: int| 0 <= j < t.len() && nt[i].0 == t[j].0
                    && spec_normalize_mac(t[j].1) == Some(nt[i].1);
                assert(t[j] == raw[j]);
            } else {
                assert(raw[raw.len() - 1] == raw.last());
            }
        }
    }
}

/// Every intercom of the raw list whose address normalises is in the
/// normalised list, with its id and normalised address.
pub proof fn lemma_valid_intercoms_kept(raw: Seq<(Seq<char>, Seq<char>)>, j: int)
    requires
        0 <= j < raw.len(),
        spec_normalize_mac(raw[j].1) is Some,
    ensures
        normalized_entries(raw).contains((raw[j].0, spec_normalize_mac(raw[j].1).unwrap())),
    decreases raw.len(),
{
    let t = raw.drop_last();
    let n = normalized_entries(raw);
    if j < raw.len() - 1 {
        assert(t[j] == raw[j]);
        lemma_valid_intercoms_kept(t, j);
        let nt = normalized_entries(t);
        let k: int = choose|k: int| 0 <= k < nt.len() && nt[k] == (raw[j].0, spec_normalize_mac(raw[j].1).unwrap());
        assert(n[k] == nt[k]);
    } else {
        assert(n[n.len() - 1] == (raw[j].0, spec_normalize_mac(raw[j].1).unwrap()));
    }
}


proof fn lemma_normalized_entries_concat(a: Seq<(Seq<char>, Seq<char>)>, b: Seq<(Seq<char>, Seq<char>)>)
    ensures
        normalized_entries(a + b) == normalized_entries(a) + normalized_entries(b),
    decreases b.len(),
{
    if b.len() == 0 {
        assert(a + b =~= a);
        assert(normalized_entries(a) + normalized_entries(b) =~= normalized_entries(a));
    } else {
        let b1 = b.drop_last();
        lemma_normalized_entries_concat(a, b1);
        assert((a + b).drop_last() =~= a + b1);
        assert((a + b).last() == b.last());
        match spec_normalize_mac(b.last().1) {
            Some(m) => {
                assert(normalized_entries(a) + normalized_entries(b1).push((b.last().0, m))
                    =~= (normalized_entries(a) + normalized_entries(b1)).push((b.last().0, m)));
            },
            None => {},
        }
    }
}

proof fn lemma_normalized_entries_same_items(s1: Seq<(Seq<char>, Seq<char>)>, s2: Seq<(Seq<char>, Seq<char>)>)
    requires
        s1.to_multiset() == s2.to_multiset(),
    ensures
        normalized_entries(s1).to_multiset() == normalized_entries(s2).to_multiset(),
    decreases s1.len(),
{
    broadcast use vstd::seq_lib::group_to_multiset_ensures;
    broadcast use vstd::multiset::group_multiset_axioms;
    vstd::seq_lib::to_multiset_len(s1);
    vstd::seq_lib::to_multiset_len(s2);
    if s1.len() == 0 {
        assert(s2.len() == 0);
        assert(s1 =~= s2);
    } else {
        let x = s1.last();
        let t1 = s1.drop_last();
        assert(s1 =~= t1.push(x));
        assert(s1.to_multiset().count(x) > 0);
        assert(s2.contains(x));
        let j: int = choose|j: int| 0 <= j < s2.len() && s2[j] == x;
        let t2 = s2.remove(j);
        assert(t2.to_multiset() =~= t1.to_multiset());
        lemma_normalized_entries_same_items(t1, t2);
        let front = s2.take(j);
        let back = s2.skip(j + 1);
        assert(s2 =~= front + seq![x] + back);
        assert(t2 =~= front + back);
        lemma_normalized_entries_concat(front + seq![x], back);
        lemma_normalized_entries_concat(front, seq![x]);
        lemma_normalized_entries_concat(front, back);
        lemma_normalized_entries_concat(t1, seq![x]);
        assert(t1 + seq![x] =~= s1);
        let nx = normalized_entries(seq![x]);
        assert(seq![x].drop_last() =~= Seq::<(Seq<char>, Seq<char>)>::empty());
        vstd::seq_lib::lemma_multiset_commutative(normalized_entries(front) + nx, normalized_entries(back));
        vstd::seq_lib::lemma_multiset_commutative(normalized_entries(front), nx);
        vstd::seq_lib::lemma_multiset_commutative(normalized_entries(front), normalized_entries(back));
        vstd::seq_lib::lemma_multiset_commutative(normalized_entries(t1), nx);
        assert(normalized_entries(s1).to_multiset() =~= normalized_entries(s2).to_multiset());
    }
}

/// The normalised MAC addresses of `entries` are pairwise different.
pub open spec fn distinct_macs(entries: Seq<(Seq<char>, Seq<char>)>) -> bool {
    distinct_keys(entries, mac_key())
}

/// The list the configuration is generated from does not depend on the
/// order in which the directory lists the intercoms, as long as no two
/// valid intercoms share a MAC address: the normalised, sorted lists of two
/// listings of the same intercoms are equal.
pub proof fn lemma_normalized_list_order_independent(
    raw1: Seq<(Seq<char>, Seq<char>)>,
    raw2: Seq<(Seq<char>, Seq<char>)>,
    r1: Seq<(Seq<char>, Seq<char>)>,
    r2: Seq<(Seq<char>, Seq<char>)>,
)
    requires
        raw1.to_multiset() == raw2.to_multiset(),
        distinct_macs(normalized_entries(raw1)),
        is_stable_sort_of(r1, normalized_entries(raw1), mac_key()),
        is_stable_sort_of(r2, normalized_entries(raw2), mac_key()),
    ensures
        r1 == r2,
{
    let n1 = normalized_entries(raw1);
    let n2 = normalized_entries(raw2);
    lemma_normalized_entries_same_items(raw1, raw2);
    lemma_same_items_same_groups(n1, n2, mac_key());
    vstd::seq_lib::to_multiset_len(n1);
    vstd::seq_lib::to_multiset_len(n2);
    assert forall|k: Seq<char>| #[trigger] r1.filter(key_is(mac_key(), k)) == r2.filter(key_is(mac_key(), k)) by {
        assert(r1.filter(key_is(mac_key(), k)) == n1.filter(key_is(mac_key(), k)));
        assert(r2.filter(key_is(mac_key(), k)) == n2.filter(key_is(mac_key(), k)));
        assert(n1.filter(key_is(mac_key(), k)) == n2.filter(key_is(mac_key(), k)));
    }
    lemma_sorted_same_groups_equal(r1, r2, mac_key());
}

} // verus!
