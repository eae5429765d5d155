//! Normalisation of intercom MAC addresses into the SIP user names of the
//! generated configuration.

use vstd::prelude::*;
use crate::order::lemma_filter_push;
use crate::text::{
    ascii_lower, ascii_lower_char, chars_of, is_hex_digit, is_hex_digit_char, is_whitespace, lower_all,
    string_of, trim, trim_bounds, trim_end, trim_start,
};

verus! {

/// The predicate that keeps every character but `':'`.
pub open spec fn not_colon() -> spec_fn(char) -> bool {
    |c: char| c != ':'
}

/// The address after trimming, lower-casing and removing every `':'`.
pub open spec fn clean_mac(mac: Seq<char>) -> Seq<char> {
    lower_all(trim(mac)).filter(not_colon())
}

/// Exactly twelve hexadecimal digits.
pub open spec fn is_mac_form(s: Seq<char>) -> bool {
    &&& s.len() == 12
    &&& forall|i: int| 0 <= i < s.len() ==> is_hex_digit(#[trigger] s[i])
}

/// The normalised form of `mac`, where there is one.
pub open spec fn spec_normalize_mac(mac: Seq<char>) -> Option<Seq<char>> {
    let c = clean_mac(mac);
    if is_mac_form(c) {
        Some(c)
    } else {
        None
    }
}

/// Normalises a MAC address: surrounding whitespace is trimmed, ASCII
/// letters are lower-cased and every `':'` is removed; the result is kept
/// only when it is exactly twelve hexadecimal digits.
pub fn normalize_mac(mac: &str) -> (r: Option<String>)
    ensures
        r.deep_view() == spec_normalize_mac(mac@),
{
    let v = chars_of(mac);
    let (a, b) = trim_bounds(&v);
    let mut out: Vec<char> = Vec::new();
    let mut i: usize = a;
    assert(lower_all(v@.subrange(a as int, a as int)) =~= Seq::<char>::empty());
    proof {
        reveal(Seq::filter);
    }
    while i < b
        invariant
            a <= i <= b <= v.len(),
            out@ == lower_all(v@.subrange(a as int, i as int)).filter(not_colon()),
        decreases b - i,
    {
        let c = ascii_lower_char(v[i]);
        proof {
            let prev = lower_all(v@.subrange(a as int, i as int));
            assert(lower_all(v@.subrange(a as int, i + 1)) =~= prev.push(c));
            lemma_filter_push(prev, c, not_colon());
        }
        if c != ':' {
            out.push(c);
        }
        i = i + 1;
    }
    assert(out@ == clean_mac(mac@));
    if out.len() != 12 {
        return None;
    }
    let mut j: usize = 0;
    while j < out.len()
        invariant
            j <= out.len(),
            out@ == clean_mac(mac@),
            forall|k: int| 0 <= k < j ==> is_hex_digit(#[trigger] out@[k]),
        decreases out.len() - j,
    {
        if !is_hex_digit_char(out[j]) {
            assert(!is_hex_digit(out@[j as int]));
            return None;
        }
        j = j + 1;
    }
    Some(string_of(&out))
}

proof fn lemma_filter_all<A>(s: Seq<A>, p: spec_fn(A) -> bool)
    requires
        forall|i: int| 0 <= i < s.len() ==> p(#[trigger] s[i]),
    ensures
        s.filter(p) == s,
    decreases s.len(),
{
    reveal(Seq::filter);
    if s.len() > 0 {
        lemma_filter_all(s.drop_last(), p);
        assert(s.drop_last().push(s.last()) =~= s);
    }
}

proof fn lemma_filter_keeps<A>(s: Seq<A>, p: spec_fn(A) -> bool, q: spec_fn(A) -> bool)
    requires
        forall|i: int| 0 <= i < s.len() ==> q(#[trigger] s[i]),
    ensures
        forall|i: int| 0 <= i < s.filter(p).len() ==> q(#[trigger] s.filter(p)[i]),
    decreases s.len(),
{
    reveal(Seq::filter);
    if s.len() > 0 {
        lemma_filter_keeps(s.drop_last(), p, q);
        let f = s.drop_last().filter(p);
        assert forall|i: int| 0 <= i < s.filter(p).len() implies q(#[trigger] s.filter(p)[i]) by {
            if i < f.len() {
                assert(s.filter(p)[i] == f[i]);
            }
        }
    }
}

/// Normalising a normalised address gives it back unchanged.
pub proof fn lemma_normalize_mac_idempotent(mac: Seq<char>)
    requires
        spec_normalize_mac(mac) is Some,
    ensures
        spec_normalize_mac(spec_normalize_mac(mac).unwrap()) == spec_normalize_mac(mac),
{
    let m = spec_normalize_mac(mac).unwrap();
    let l = lower_all(trim(mac));
    let not_upper = |c: char| !('A' <= c && c <= 'Z');
    lemma_filter_keeps(l, not_colon(), not_upper);
    assert(!is_whitespace(m[0]));
    assert(!is_whitespace(m.last()));
    assert(trim_start(m) == m);
    assert(trim_end(m) == m);
    assert(lower_all(m) =~= m);
    assert forall|i: int| 0 <= i < m.len() implies #[trigger] not_colon()(m[i]) by {
        assert(is_hex_digit(m[i]));
    }
    lemma_filter_all(m, not_colon());
}

/// A normalised address holds twelve hexadecimal digits, none of them an
/// upper-case letter.
pub proof fn lemma_normalized_mac_form(mac: Seq<char>)
    requires
        spec_normalize_mac(mac) is Some,
    ensures
        is_mac_form(spec_normalize_mac(mac).unwrap()),
        forall|i: int|
            0 <= i < 12 ==> {
                let c = #[trigger] spec_normalize_mac(mac).unwrap()[i];
                ('0' <= c && c <= '9') || ('a' <= c && c <= 'f')
            },
{
    let l = lower_all(trim(mac));
    let not_upper = |c: char| !('A' <= c && c <= 'Z');
    lemma_filter_keeps(l, not_colon(), not_upper);
}


/// Every character of `w` is whitespace.
pub open spec fn all_whitespace(w: Seq<char>) -> bool {
    forall|i: int| 0 <= i < w.len() ==> is_whitespace(#[trigger] w[i])
}

proof fn lemma_trim_start_whitespace(w: Seq<char>)
    requires
        all_whitespace(w),
    ensures
        trim_start(w) == Seq::<char>::empty(),
    decreases w.len(),
{
    if w.len() > 0 {
        let t = w.drop_first();
        assert forall|i: int| 0 <= i < t.len() implies is_whitespace(#[trigger] t[i]) by {
            assert(t[i] == w[i + 1]);
        }
        lemma_trim_start_whitespace(t);
    } else {
        assert(w =~= Seq::<char>::empty());
    }
}

proof fn lemma_trim_start_prefix(w: Seq<char>, m: Seq<char>)
    requires
        all_whitespace(w),
    ensures
        trim_start(w + m) == trim_start(m),
    decreases w.len(),
{
    if w.len() == 0 {
        assert(w + m =~= m);
    } else {
        let t = w.drop_first();
        assert forall|i: int| 0 <= i < t.len() implies is_whitespace(#[trigger] t[i]) by {
            assert(t[i] == w[i + 1]);
        }
        assert((w + m)[0] == w[0]);
        assert((w + m).drop_first() =~= t + m);
        lemma_trim_start_prefix(t, m);
    }
}

proof fn lemma_trim_end_suffix(m: Seq<char>, w: Seq<char>)
    requires
        all_whitespace(w),
    ensures
        trim_end(m + w) == trim_end(m),
    decreases w.len(),
{
    if w.len() == 0 {
        assert(m + w =~= m);
    } else {
        let t = w.drop_last();
        assert forall|i: int| 0 <= i < t.len() implies is_whitespace(#[trigger] t[i]) by {
            assert(t[i] == w[i]);
        }
        assert((m + w).last() == w.last());
        assert(is_whitespace(w[w.len() - 1]));
        assert((m + w).drop_last() =~= m + t);
        lemma_trim_end_suffix(m, t);
    }
}

proof fn lemma_trim_suffix(m: Seq<char>, w: Seq<char>)
    requires
        all_whitespace(w),
    ensures
        trim(m + w) == trim(m),
    decreases m.len(),
{
    if m.len() == 0 {
        assert(m + w =~= w);
        lemma_trim_start_whitespace(w);
    } else if is_whitespace(m[0]) {
        assert((m + w)[0] == m[0]);
        assert((m + w).drop_first() =~= m.drop_first() + w);
        lemma_trim_suffix(m.drop_first(), w);
    } else {
        assert((m + w)[0] == m[0]);
        lemma_trim_end_suffix(m, w);
    }
}

/// Whitespace around an address does not change its normalised form.
pub proof fn lemma_normalize_mac_ignores_surrounding_whitespace(w1: Seq<char>, mac: Seq<char>, w2: Seq<char>)
    requires
        all_whitespace(w1),
        all_whitespace(w2),
    ensures
        spec_normalize_mac(w1 + mac + w2) == spec_normalize_mac(mac),
{
    lemma_trim_start_prefix(w1, mac + w2);
    assert(w1 + mac + w2 =~= w1 + (mac + w2));
    lemma_trim_suffix(mac, w2);
}

proof fn lemma_lower_keeps_whitespace(c: char)
    ensures
        is_whitespace(ascii_lower(c)) == is_whitespace(c),
        (ascii_lower(c) == ':') == (c == ':'),
        !('A' <= ascii_lower(c) && ascii_lower(c) <= 'Z'),
{
    if 'A' <= c && c <= 'Z' {
        let l = ((c as u32) + 32) as char;
        assert('a' <= l && l <= 'z');
    }
}

proof fn lemma_trim_lower(s: Seq<char>)
    ensures
        trim(lower_all(s)) == lower_all(trim(s)),
        trim_start(lower_all(s)) == lower_all(trim_start(s)),
    decreases s.len(),
{
    if s.len() > 0 {
        lemma_lower_keeps_whitespace(s[0]);
        assert(lower_all(s)[0] == ascii_lower(s[0]));
        assert(lower_all(s).drop_first() =~= lower_all(s.drop_first()));
        lemma_trim_lower(s.drop_first());
    }
    lemma_trim_end_lower(trim_start(s));
}

proof fn lemma_trim_end_lower(s: Seq<char>)
    ensures
        trim_end(lower_all(s)) == lower_all(trim_end(s)),
    decreases s.len(),
{
    if s.len() > 0 {
        lemma_lower_keeps_whitespace(s.last());
        assert(lower_all(s).last() == ascii_lower(s.last()));
        assert(lower_all(s).drop_last() =~= lower_all(s.drop_last()));
        lemma_trim_end_lower(s.drop_last());
    } else {
        assert(lower_all(s) =~= s);
    }
}

/// The normalised form ignores ASCII case.
pub proof fn lemma_normalize_mac_ignores_case(mac: Seq<char>)
    ensures
        spec_normalize_mac(lower_all(mac)) == spec_normalize_mac(mac),
{
    lemma_trim_lower(mac);
    crate::text::lemma_lower_all_idempotent(trim(mac));
}

proof fn lemma_lower_filter_colons(s: Seq<char>)
    ensures
        lower_all(s).filter(not_colon()) == lower_all(s.filter(not_colon())),
    decreases s.len(),
{
    reveal(Seq::filter);
    if s.len() > 0 {
        let t = s.drop_last();
        let c = s.last();
        lemma_lower_filter_colons(t);
        lemma_lower_keeps_whitespace(c);
        assert(lower_all(s) =~= lower_all(t).push(ascii_lower(c)));
        lemma_filter_push(lower_all(t), ascii_lower(c), not_colon());
        assert(s =~= t.push(c));
        lemma_filter_push(t, c, not_colon());
        if c != ':' {
            assert(lower_all(t.filter(not_colon()).push(c)) =~= lower_all(t.filter(not_colon())).push(ascii_lower(c)));
        }
    } else {
        assert(lower_all(s) =~= s);
    }
}

/// In an address without whitespace, the `:` separators do not matter: the
/// address with all of them removed has the same normalised form.
pub proof fn lemma_normalize_mac_ignores_colons(mac: Seq<char>)
    requires
        forall|i: int| 0 <= i < mac.len() ==> !is_whitespace(#[trigger] mac[i]),
    ensures
        spec_normalize_mac(mac.filter(not_colon())) == spec_normalize_mac(mac),
{
    let f = mac.filter(not_colon());
    let not_ws = |c: char| !is_whitespace(c);
    lemma_filter_keeps(mac, not_colon(), not_ws);
    assert forall|i: int| 0 <= i < f.len() implies #[trigger] not_colon()(f[i]) by {
        mac.lemma_filter_pred(not_colon(), i);
    }
    if mac.len() > 0 {
        assert(!is_whitespace(mac[0]));
        assert(!is_whitespace(mac.last()));
    }
    assert(trim_start(mac) == mac);
    assert(trim_end(mac) == mac);
    if f.len() > 0 {
        assert(not_ws(f[0]));
        assert(not_ws(f[f.len() - 1]));
    }
    assert(trim_start(f) == f);
    assert(trim_end(f) == f);
    lemma_lower_filter_colons(mac);
    lemma_lower_filter_colons(f);
    lemma_filter_all(f, not_colon());
}

} // verus!
