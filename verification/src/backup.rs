//! Names of configuration backups and which backups the retention policy
//! removes.

use vstd::prelude::*;
use vstd::string::StringExecFns;
use crate::order::{is_stable_sort_of, key_is, sorted_by, lemma_empty_stable_sort, lemma_filter_push, lemma_insert_stable_sort};
use crate::text::{
    chars_of, decimal, lemma_decimal_fixed_digits, lemma_fixed_digits_order,
    lemma_lex_asymmetric, lemma_lex_irreflexive, lemma_lex_lt_common_prefix, lemma_lex_lt_extend,
    lemma_lex_total, lex_le, lex_lt, push_decimal,
    str_lt,
};

verus! {

/// The active configuration, in the base directory.
pub const PJSIP_FILE_NAME: &'static str = "pjsip.conf";

/// The copy of the last configuration that was active before an apply, in
/// the base directory.
pub const LAST_GOOD_FILE_NAME: &'static str = "pjsip.conf.last-good";

/// How many backups the retention policy keeps.
pub const BACKUPS_TO_KEEP: usize = 20;

/// Every backup file name starts with this.
pub const BACKUP_PREFIX: &'static str = "pjsip.conf.";

/// The backups that the agent takes end with this.
pub const BACKUP_SUFFIX: &'static str = ".bak";

/// Whether `name` is the name of a configuration backup.
pub open spec fn has_backup_prefix(name: Seq<char>) -> bool {
    BACKUP_PREFIX@.is_prefix_of(name)
}

/// The name of the backup taken at `ts` (seconds since the Unix epoch).
pub open spec fn spec_backup_file_name(ts: nat) -> Seq<char> {
    BACKUP_PREFIX@ + decimal(ts) + BACKUP_SUFFIX@
}

/// The name of the backup taken at `ts`: `pjsip.conf.<ts>.bak`.
pub fn backup_file_name(ts: u64) -> (r: String)
    ensures
        r@ == spec_backup_file_name(ts as nat),
{
    let mut out = String::new();
    out.append(BACKUP_PREFIX);
    push_decimal(&mut out, ts);
    out.append(BACKUP_SUFFIX);
    out
}

/// Whether `name` is the name of a configuration backup.
pub fn is_backup_name(name: &str) -> (r: bool)
    ensures
        r == has_backup_prefix(name@),
{
    let p = chars_of(BACKUP_PREFIX);
    let v = chars_of(name);
    if v.len() < p.len() {
        return false;
    }
    let mut i: usize = 0;
    while i < p.len()
        invariant
            i <= p.len() <= v.len(),
            p@ == BACKUP_PREFIX@,
            v@ == name@,
            forall|k: int| 0 <= k < i ==> p@[k] == v@[k],
        decreases p.len() - i,
    {
        if p[i] != v[i] {
            return false;
        }
        i = i + 1;
    }
    assert(p@ =~= v@.subrange(0, p@.len() as int));
    true
}

/// The predicate of backup names.
pub open spec fn backup_pred() -> spec_fn(Seq<char>) -> bool {
    |n: Seq<char>| has_backup_prefix(n)
}

/// The names that order backups: the names themselves.
pub open spec fn name_key() -> spec_fn(Seq<char>) -> Seq<char> {
    |n: Seq<char>| n
}

/// How many of `count` backups go when `keep` are kept.
pub open spec fn removal_count(count: nat, keep: nat) -> nat {
    if count > keep {
        (count - keep) as nat
    } else {
        0
    }
}

fn insert_by_name(out: &mut Vec<String>, x: String, Ghost(s): Ghost<Seq<Seq<char>>>)
    requires
        is_stable_sort_of(old(out).deep_view(), s, name_key()),
    ensures
        is_stable_sort_of(final(out).deep_view(), s.push(x@), name_key()),
{
    let ghost o = out.deep_view();
    let mut p: usize = out.len();
    while p > 0 && str_lt(x.as_str(), out[p - 1].as_str())
        invariant
            p <= out.len(),
            out.deep_view() == o,
            forall|q: int| p <= q < o.len() ==> lex_lt(x@, #[trigger] o[q]),
        decreases p,
    {
        p = p - 1;
    }
    proof {
        if p > 0 {
            lemma_lex_total(o[p - 1], x@);
        }
        lemma_insert_stable_sort(o, s, x@, p as int, name_key());
    }
    let ghost xv = x@;
    out.insert(p, x);
    assert(out.deep_view() =~= o.insert(p as int, xv));
}

/// The backups among `names` that go so that the `keep` last in name order
/// stay: the backup names (those that start with `BACKUP_PREFIX`) in name
/// order, of which the first `count - keep` go (none when there are at most
/// `keep`). For the backups that the agent takes, name order is time order
/// (see `lemma_agent_backups_in_time_order`).
pub fn backups_to_remove(names: &Vec<String>, keep: usize) -> (r: Vec<String>)
    ensures
        exists|sorted: Seq<Seq<char>>|
            {
                &&& is_stable_sort_of(sorted, names.deep_view().filter(backup_pred()), name_key())
                &&& r.deep_view() == sorted.take(
                    removal_count(names.deep_view().filter(backup_pred()).len(), keep as nat) as int,
                )
            },
        r.len() == removal_count(names.deep_view().filter(backup_pred()).len(), keep as nat),
        forall|i: int|
            0 <= i < r.len() ==> has_backup_prefix(#[trigger] r.deep_view()[i])
                && names.deep_view().contains(r.deep_view()[i]),
        forall|i: int, j: int| 0 <= i < j < r.len() ==> lex_le(r.deep_view()[i], r.deep_view()[j]),
        forall|i: int, k: int|
            0 <= i < r.len() && 0 <= k < names.len() && has_backup_prefix(names@[k]@) && lex_lt(
                #[trigger] names@[k]@,
                #[trigger] r.deep_view()[i],
            ) ==> r.deep_view().contains(names@[k]@),
{
    let ghost src = names.deep_view();
    let mut sorted: Vec<String> = Vec::new();
    proof {
        lemma_empty_stable_sort(name_key());
        reveal(Seq::filter);
        assert(src.take(0) =~= Seq::<Seq<char>>::empty());
        assert(sorted.deep_view() =~= Seq::<Seq<char>>::empty());
    }
    let mut i: usize = 0;
    while i < names.len()
        invariant
            i <= names.len(),
            src == names.deep_view(),
            is_stable_sort_of(sorted.deep_view(), src.take(i as int).filter(backup_pred()), name_key()),
        decreases names.len() - i,
    {
        proof {
            assert(src.take(i + 1) =~= src.take(i as int).push(src[i as int]));
            lemma_filter_push(src.take(i as int), src[i as int], backup_pred());
        }
        if is_backup_name(names[i].as_str()) {
            insert_by_name(&mut sorted, names[i].clone(), Ghost(src.take(i as int).filter(backup_pred())));
        }
        i = i + 1;
    }
    assert(src.take(names.len() as int) =~= src);
    let count: usize = if sorted.len() > keep {
        sorted.len() - keep
    } else {
        0
    };
    let mut r: Vec<String> = Vec::new();
    let mut j: usize = 0;
    while j < count
        invariant
            j <= count <= sorted.len(),
            r.deep_view() == sorted.deep_view().take(j as int),
        decreases count - j,
    {
        let c = sorted[j].clone();
        let ghost before = r.deep_view();
        r.push(c);
        assert(r.deep_view() =~= before.push(sorted@[j as int]@));
        assert(r.deep_view() =~= sorted.deep_view().take(j + 1));
        j = j + 1;
    }
    proof {
        lemma_removal_is_oldest(src, sorted.deep_view(), keep as nat);
        let rv = r.deep_view();
        assert forall|i: int, k: int|
            0 <= i < r.len() && 0 <= k < names.len() && has_backup_prefix(names@[k]@) && lex_lt(
                #[trigger] names@[k]@,
                #[trigger] rv[i],
            ) implies rv.contains(names@[k]@) by {
            assert(src[k] == names@[k]@);
        }
    }
    r
}

/// The removed backups are backups among the given names, in name order,
/// and every backup that sorts before a removed one is removed too.
pub proof fn lemma_removal_is_oldest(names: Seq<Seq<char>>, sorted: Seq<Seq<char>>, keep: nat)
    requires
        is_stable_sort_of(sorted, names.filter(backup_pred()), name_key()),
    ensures
        ({
            let r = sorted.take(removal_count(names.filter(backup_pred()).len(), keep) as int);
            &&& r.len() == removal_count(names.filter(backup_pred()).len(), keep)
            &&& forall|i: int| 0 <= i < r.len() ==> has_backup_prefix(#[trigger] r[i]) && names.contains(r[i])
            &&& forall|i: int, j: int| 0 <= i < j < r.len() ==> lex_le(r[i], r[j])
            &&& forall|i: int, k: int|
                0 <= i < r.len() && 0 <= k < names.len() && has_backup_prefix(names[k]) && lex_lt(
                    #[trigger] names[k],
                    #[trigger] r[i],
                ) ==> r.contains(names[k])
        }),
{
    let f = names.filter(backup_pred());
    let c = removal_count(f.len(), keep) as int;
    let r = sorted.take(c);
    assert forall|i: int| 0 <= i < r.len() implies has_backup_prefix(#[trigger] r[i]) && names.contains(r[i]) by {
        let y = r[i];
        assert(y == sorted[i]);
        let p = key_is(name_key(), y);
        sorted.lemma_filter_contains(p, i);
        assert(sorted.filter(p) == f.filter(p));
        f.lemma_filter_contains_rev(p, y);
        let m: int = choose|m: int| 0 <= m < f.len() && f[m] == y;
        names.lemma_filter_pred(backup_pred(), m);
        assert(f.contains(y));
        names.lemma_filter_contains_rev(backup_pred(), y);
    }
    assert forall|i: int, j: int| 0 <= i < j < r.len() implies lex_le(r[i], r[j]) by {
        assert(lex_le(name_key()(sorted[i]), name_key()(sorted[j])));
    }
    assert forall|i: int, k: int|
        0 <= i < r.len() && 0 <= k < names.len() && has_backup_prefix(names[k]) && lex_lt(
            #[trigger] names[k],
            #[trigger] r[i],
        ) implies r.contains(names[k]) by {
        let y = names[k];
        let p = key_is(name_key(), y);
        names.lemma_filter_contains(backup_pred(), k);
        let m0: int = choose|m: int| 0 <= m < f.len() && f[m] == y;
        f.lemma_filter_contains(p, m0);
        assert(sorted.filter(p) == f.filter(p));
        sorted.lemma_filter_contains_rev(p, y);
        let m: int = choose|m: int| 0 <= m < sorted.len() && sorted[m] == y;
        if m >= c {
            assert(lex_le(name_key()(sorted[i]), name_key()(sorted[m])));
            lemma_lex_asymmetric(y, sorted[i]);
            lemma_lex_irreflexive(y);
        }
        assert(r[m] == y);
    }
}

/// A backup taken by the agent carries a name that the retention policy
/// recognises as a backup.
pub proof fn lemma_backup_file_name_is_backup(ts: nat)
    ensures
        has_backup_prefix(spec_backup_file_name(ts)),
{
    let n = spec_backup_file_name(ts);
    assert(BACKUP_PREFIX@ =~= n.subrange(0, BACKUP_PREFIX@.len() as int));
}

/// For the backups that the agent takes, name order is time order as long
/// as the two time stamps have the same number of digits (every time
/// stamp from 2001 to 2286 has ten): the older backup sorts first.
pub proof fn lemma_agent_backups_in_time_order(t1: nat, t2: nat)
    requires
        t1 < t2,
        decimal(t1).len() == decimal(t2).len(),
    ensures
        lex_lt(spec_backup_file_name(t1), spec_backup_file_name(t2)),
{
    let w = decimal(t2).len();
    lemma_decimal_fixed_digits(t1);
    lemma_decimal_fixed_digits(t2);
    lemma_fixed_digits_order(t1, t2, w);
    lemma_lex_lt_extend(decimal(t1), decimal(t2), BACKUP_SUFFIX@, BACKUP_SUFFIX@);
    lemma_lex_lt_common_prefix(BACKUP_PREFIX@, decimal(t1) + BACKUP_SUFFIX@, decimal(t2) + BACKUP_SUFFIX@);
    assert(spec_backup_file_name(t1) =~= BACKUP_PREFIX@ + (decimal(t1) + BACKUP_SUFFIX@));
    assert(spec_backup_file_name(t2) =~= BACKUP_PREFIX@ + (decimal(t2) + BACKUP_SUFFIX@));
}

/// Retention keeps the last backups in name order: of the backups sorted by
/// name, the removed ones come first, none of them after a kept one, and
/// `min(count, keep)` backups stay.
pub proof fn lemma_retention_keeps_newest(sorted: Seq<Seq<char>>, keep: nat)
    requires
        sorted_by(sorted, name_key()),
    ensures
        ({
            let c = removal_count(sorted.len(), keep) as int;
            &&& c <= sorted.len()
            &&& sorted.len() - c == (if sorted.len() < keep { sorted.len() } else { keep })
            &&& forall|i: int, j: int| 0 <= i < c <= j < sorted.len() ==> lex_le(sorted[i], sorted[j])
        }),
{
    let c: int = removal_count(sorted.len(), keep) as int;
    assert forall|i: int, j: int| 0 <= i < c <= j < sorted.len() implies lex_le(sorted[i], sorted[j]) by {
        assert(lex_le(name_key()(sorted[i]), name_key()(sorted[j])));
    }
}

} // verus!
