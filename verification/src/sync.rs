//! The decisions of a synchronisation run: whether the generated file
//! differs from the active one, and what follows each step of the run.

use std::collections::hash_map::DefaultHasher;
use std::hash::{Hash, Hasher};
use vstd::prelude::*;
use vstd::std_specs::hash::DefaultHasherAdditionalSpecFns;
use crate::render::{intercom_sections, preamble_text, spec_render_pjsip_conf, GENERATED_STAMP};
use crate::text::{chars_of, decimal, lemma_decimal_digits, string_of};

verus! {

/// What `<str as Hash>::hash` writes into a `DefaultHasher` for the string
/// `s`, in the model of `DefaultHasher` that vstd gives (the sequence of
/// byte strings written so far).
pub uninterp spec fn spec_str_hash_writes(s: Seq<char>) -> Seq<Seq<u8>>;

/// Feeds `value` into `hasher` with `<str as Hash>::hash`. The contract
/// claims that this adds to what the hasher has been fed a sequence of
/// writes that depends on the string's characters alone; it says nothing of
/// which bytes they are.
#[verifier::external_body]
fn feed_str(value: &str, hasher: &mut DefaultHasher)
    ensures
        final(hasher)@ == old(hasher)@ + spec_str_hash_writes(value@),
{
    value.hash(hasher);
}

/// The 64-bit hash that a `DefaultHasher` made by `new` gives a string.
pub open spec fn spec_hash_str(s: Seq<char>) -> u64 {
    DefaultHasher::spec_finish(spec_str_hash_writes(s))
}

/// Hashes `value` with a `DefaultHasher` made by `DefaultHasher::new`.
fn hash_str(value: &str) -> (h: u64)
    ensures
        h == spec_hash_str(value@),
{
    let mut hasher = DefaultHasher::new();
    feed_str(value, &mut hasher);
    assert(hasher@ =~= spec_str_hash_writes(value@));
    hasher.finish()
}

/// The part of a configuration after its first line, if it has a line break.
pub open spec fn after_first_line(s: Seq<char>) -> Option<Seq<char>>
    decreases s.len(),
{
    if s.len() == 0 {
        None
    } else if s[0] == '\n' {
        Some(s.drop_first())
    } else {
        after_first_line(s.drop_first())
    }
}

/// A configuration without the line that stamps its generation time: a
/// content whose first line starts with `GENERATED_STAMP` loses that line;
/// any other content is kept whole.
pub open spec fn without_stamp(s: Seq<char>) -> Seq<char> {
    if GENERATED_STAMP@.is_prefix_of(s) {
        match after_first_line(s) {
            Some(rest) => rest,
            None => Seq::empty(),
        }
    } else {
        s
    }
}

/// Whether newly generated content replaces the active file.
pub open spec fn spec_should_apply(existing: Option<Seq<char>>, new_content: Seq<char>) -> bool {
    match existing {
        None => true,
        Some(e) => spec_hash_str(without_stamp(e)) != spec_hash_str(without_stamp(new_content)),
    }
}

/// The content `s` without its generation stamp line.
pub fn strip_stamp(s: &str) -> (r: String)
    ensures
        r@ == without_stamp(s@),
{
    let v = chars_of(s);
    let p = chars_of(GENERATED_STAMP);
    let mut stamped = p.len() <= v.len();
    let mut k: usize = 0;
    while stamped && k < p.len()
        invariant
            k <= p.len(),
            v@ == s@,
            p@ == GENERATED_STAMP@,
            stamped ==> p.len() <= v.len() && forall|q: int| 0 <= q < k ==> p@[q] == v@[q],
            !stamped ==> !GENERATED_STAMP@.is_prefix_of(s@),
        decreases p.len() - k + (if stamped { 1int } else { 0 }),
    {
        if p[k] != v[k] {
            stamped = false;
        } else {
            k = k + 1;
        }
    }
    if !stamped {
        return string_of(&v);
    }
    assert(p@ =~= v@.subrange(0, p@.len() as int));
    let mut i: usize = 0;
    assert(v@.skip(0) =~= v@);
    while i < v.len() && v[i] != '\n'
        invariant
            i <= v.len(),
            after_first_line(v@) == after_first_line(v@.skip(i as int)),
        decreases v.len() - i,
    {
        assert(v@.skip(i as int).drop_first() =~= v@.skip(i + 1));
        i = i + 1;
    }
    let mut out: Vec<char> = Vec::new();
    if i < v.len() {
        assert(v@.skip(i as int).drop_first() =~= v@.skip(i + 1));
        let mut j: usize = i + 1;
        while j < v.len()
            invariant
                i < j <= v.len(),
                out@ == v@.subrange(i + 1, j as int),
            decreases v.len() - j,
        {
            out.push(v[j]);
            assert(out@ =~= v@.subrange(i + 1, j + 1));
            j = j + 1;
        }
        assert(out@ =~= v@.skip(i + 1));
    } else {
        assert(v@.skip(i as int) =~= Seq::<char>::empty());
    }
    string_of(&out)
}

/// Whether `new_content` replaces the active file, whose content is
/// `existing` (absent when there is no such file): always when there is
/// none, else when the hashes of the two contents, each without its
/// generation stamp line, differ.
pub fn should_apply(existing: Option<&str>, new_content: &str) -> (r: bool)
    ensures
        r == spec_should_apply(existing.deep_view(), new_content@),
{
    match existing {
        None => true,
        Some(e) => {
            let old_body = strip_stamp(e);
            let new_body = strip_stamp(new_content);
            hash_str(old_body.as_str()) != hash_str(new_body.as_str())
        },
    }
}

/// Equal strings hash equally.
pub proof fn lemma_equal_strings_hash_equal(a: Seq<char>, b: Seq<char>)
    requires
        a == b,
    ensures
        spec_hash_str(a) == spec_hash_str(b),
{
}

/// Content that is already active is never applied again.
pub proof fn lemma_unchanged_content_is_skipped(content: Seq<char>)
    ensures
        !spec_should_apply(Some(content), content),
{
}

proof fn lemma_after_line_break(a: Seq<char>, b: Seq<char>)
    requires
        forall|i: int| 0 <= i < a.len() ==> #[trigger] a[i] != '\n',
    ensures
        after_first_line(a + seq!['\n'] + b) == Some(b),
    decreases a.len(),
{
    if a.len() == 0 {
        assert(a + seq!['\n'] + b =~= seq!['\n'] + b);
        assert((seq!['\n'] + b).drop_first() =~= b);
    } else {
        let t = a.drop_first();
        assert forall|i: int| 0 <= i < t.len() implies #[trigger] t[i] != '\n' by {
            assert(t[i] == a[i + 1]);
        }
        lemma_after_line_break(t, b);
        assert((a + seq!['\n'] + b).drop_first() =~= t + seq!['\n'] + b);
        assert(a[0] != '\n');
    }
}

/// The length of the stamp line, line break included, of a configuration
/// rendered at `t`.
pub open spec fn stamp_line_len(t: nat) -> int {
    (GENERATED_STAMP@.len() + decimal(t).len() + 1) as int
}

/// Leaving out the stamp of a rendered configuration leaves exactly the
/// text after its stamp line.
pub proof fn lemma_without_stamp_of_render(entries: Seq<(Seq<char>, Seq<char>)>, t: nat)
    ensures
        without_stamp(spec_render_pjsip_conf(entries, t)) == spec_render_pjsip_conf(entries, t).skip(stamp_line_len(t)),
        without_stamp(spec_render_pjsip_conf(entries, t)) == "; Intercom count: "@ + decimal(entries.len())
            + "\n\n"@ + preamble_text() + intercom_sections(entries),
{
    let rest = "; Intercom count: "@ + decimal(entries.len()) + "\n\n"@ + preamble_text()
        + intercom_sections(entries);
    let a = GENERATED_STAMP@ + decimal(t);
    reveal_strlit("; Generated by intercom-sync-agent at unix=");
    reveal_strlit("\n");
    lemma_decimal_digits(t);
    assert forall|i: int| 0 <= i < a.len() implies #[trigger] a[i] != '\n' by {
        if i >= GENERATED_STAMP@.len() {
            assert(a[i] == decimal(t)[i - GENERATED_STAMP@.len()]);
        }
    }
    lemma_after_line_break(a, rest);
    let r = spec_render_pjsip_conf(entries, t);
    assert(r =~= a + seq!['\n'] + rest);
    assert(GENERATED_STAMP@ =~= r.subrange(0, GENERATED_STAMP@.len() as int));
    assert(r.skip(stamp_line_len(t)) =~= rest);
}

/// Two runs over the same intercom list skip the second apply: the
/// configurations rendered at any two times differ only in the generation
/// stamp line, which the comparison leaves out.
pub proof fn lemma_rerender_is_skipped(entries: Seq<(Seq<char>, Seq<char>)>, t1: nat, t2: nat)
    ensures
        !spec_should_apply(Some(spec_render_pjsip_conf(entries, t1)), spec_render_pjsip_conf(entries, t2)),
{
    lemma_without_stamp_of_render(entries, t1);
    lemma_without_stamp_of_render(entries, t2);
}

/// The whole configuration after the stamp line takes part in the
/// comparison: of two rendered configurations, the new one is applied
/// whenever the hashes of their entire texts after the stamp line differ
/// (so a change anywhere there is applied unless the hash collides), and is
/// skipped when those texts are equal.
pub proof fn lemma_rendered_change_is_applied(
    e1: Seq<(Seq<char>, Seq<char>)>,
    t1: nat,
    e2: Seq<(Seq<char>, Seq<char>)>,
    t2: nat,
)
    ensures
        ({
            let c1 = spec_render_pjsip_conf(e1, t1);
            let c2 = spec_render_pjsip_conf(e2, t2);
            let b1 = c1.skip(stamp_line_len(t1));
            let b2 = c2.skip(stamp_line_len(t2));
            &&& DefaultHasher::spec_finish(spec_str_hash_writes(b1)) != DefaultHasher::spec_finish(
                spec_str_hash_writes(b2),
            ) ==> spec_should_apply(Some(c1), c2)
            &&& b1 == b2 ==> !spec_should_apply(Some(c1), c2)
        }),
{
    lemma_without_stamp_of_render(e1, t1);
    lemma_without_stamp_of_render(e2, t2);
}

/// Without an active file the new configuration is always applied; between
/// two contents that carry no generation stamp the whole texts are compared.
pub proof fn lemma_should_apply_plain(existing: Seq<char>, new_content: Seq<char>)
    ensures
        spec_should_apply(None, new_content),
        !GENERATED_STAMP@.is_prefix_of(existing) && !GENERATED_STAMP@.is_prefix_of(new_content) ==> (
        spec_should_apply(Some(existing), new_content) == (DefaultHasher::spec_finish(
            spec_str_hash_writes(existing),
        ) != DefaultHasher::spec_finish(spec_str_hash_writes(new_content)))),
{
}

/// Where a synchronisation run stands. The agent performs the step of each
/// unfinished phase and reports how it went:
/// - `Fetching`: fetch the intercom list and render the configuration;
/// - `Comparing`: compare it with the active file (`should_apply`);
/// - `Writing`: back up the active file and write the new one;
/// - `Reloading`: ask Asterisk to reload PJSIP (`pjsip reload`);
/// - `ReloadingModule`: the fallback, reload the PJSIP module
///   (`module reload res_pjsip.so`);
/// - `Restoring`: put the last good file back;
/// - `Restarting`: restart the Asterisk container.
/// The run ends in `Unchanged`, `Applied` or `Failed`.
#[derive(Clone, Copy, PartialEq, Eq, Debug, Structural)]
pub enum SyncPhase {
    Fetching,
    Comparing,
    Writing,
    Reloading,
    ReloadingModule,
    Restoring,
    Restarting,
    Unchanged,
    Applied,
    Failed,
}

/// How a step went. `NoChange` is the report of a comparison that found
/// nothing to apply; elsewhere it counts as `Succeeded`.
#[derive(Clone, Copy, PartialEq, Eq, Debug, Structural)]
pub enum StepResult {
    Succeeded,
    NoChange,
    Failed,
}

/// The phase that follows `phase` when its step ends with `result`.
pub open spec fn spec_sync_step(phase: SyncPhase, result: StepResult) -> SyncPhase {
    match phase {
        SyncPhase::Fetching => if result == StepResult::Failed {
            SyncPhase::Failed
        } else {
            SyncPhase::Comparing
        },
        SyncPhase::Comparing => match result {
            StepResult::Failed => SyncPhase::Failed,
            StepResult::NoChange => SyncPhase::Unchanged,
            StepResult::Succeeded => SyncPhase::Writing,
        },
        SyncPhase::Writing => if result == StepResult::Failed {
            SyncPhase::Failed
        } else {
            SyncPhase::Reloading
        },
        SyncPhase::Reloading => if result == StepResult::Failed {
            SyncPhase::ReloadingModule
        } else {
            SyncPhase::Applied
        },
        SyncPhase::ReloadingModule => if result == StepResult::Failed {
            SyncPhase::Restoring
        } else {
            SyncPhase::Applied
        },
        SyncPhase::Restoring => if result == StepResult::Failed {
            SyncPhase::Failed
        } else {
            SyncPhase::Restarting
        },
        SyncPhase::Restarting => if result == StepResult::Failed {
            SyncPhase::Failed
        } else {
            SyncPhase::Applied
        },
        _ => phase,
    }
}

/// The run is over.
pub open spec fn is_finished(phase: SyncPhase) -> bool {
    phase == SyncPhase::Unchanged || phase == SyncPhase::Applied || phase == SyncPhase::Failed
}

/// The phase that follows `phase` when its step ends with `result`: a failed
/// step ends the run as failed, except a failed reload, which is followed
/// by the module reload, and a failed module reload, which is followed by
/// restoring the last good file and restarting Asterisk; a comparison
/// that finds nothing new ends the run without writing.
pub fn sync_step(phase: SyncPhase, result: StepResult) -> (r: SyncPhase)
    ensures
        r == spec_sync_step(phase, result),
{
    let failed = match result {
        StepResult::Failed => true,
        _ => false,
    };
    match phase {
        SyncPhase::Fetching => if failed {
            SyncPhase::Failed
        } else {
            SyncPhase::Comparing
        },
        SyncPhase::Comparing => match result {
            StepResult::Failed => SyncPhase::Failed,
            StepResult::NoChange => SyncPhase::Unchanged,
            StepResult::Succeeded => SyncPhase::Writing,
        },
        SyncPhase::Writing => if failed {
            SyncPhase::Failed
        } else {
            SyncPhase::Reloading
        },
        SyncPhase::Reloading => if failed {
            SyncPhase::ReloadingModule
        } else {
            SyncPhase::Applied
        },
        SyncPhase::ReloadingModule => if failed {
            SyncPhase::Restoring
        } else {
            SyncPhase::Applied
        },
        SyncPhase::Restoring => if failed {
            SyncPhase::Failed
        } else {
            SyncPhase::Restarting
        },
        SyncPhase::Restarting => if failed {
            SyncPhase::Failed
        } else {
            SyncPhase::Applied
        },
        _ => phase,
    }
}

/// Whether the run is over.
pub fn sync_finished(phase: SyncPhase) -> (r: bool)
    ensures
        r == is_finished(phase),
{
    match phase {
        SyncPhase::Unchanged | SyncPhase::Applied | SyncPhase::Failed => true,
        _ => false,
    }
}

/// Whether a finished run counts as a success (the run reports no error).
pub fn sync_succeeded(phase: SyncPhase) -> (r: bool)
    ensures
        r == (phase == SyncPhase::Unchanged || phase == SyncPhase::Applied),
{
    match phase {
        SyncPhase::Unchanged | SyncPhase::Applied => true,
        _ => false,
    }
}

/// How many steps a run can still take from `phase`.
pub open spec fn phase_rank(phase: SyncPhase) -> nat {
    match phase {
        SyncPhase::Fetching => 7,
        SyncPhase::Comparing => 6,
        SyncPhase::Writing => 5,
        SyncPhase::Reloading => 4,
        SyncPhase::ReloadingModule => 3,
        SyncPhase::Restoring => 2,
        SyncPhase::Restarting => 1,
        _ => 0,
    }
}

/// Every run ends: each step of an unfinished run lowers the number of
/// steps left, and a finished run stays as it is.
pub proof fn lemma_sync_terminates(phase: SyncPhase, result: StepResult)
    ensures
        !is_finished(phase) ==> phase_rank(spec_sync_step(phase, result)) < phase_rank(phase),
        is_finished(phase) ==> spec_sync_step(phase, result) == phase,
        is_finished(phase) <==> phase_rank(phase) == 0,
{
}

/// A run writes the configuration only after a comparison found it
/// changed; a failed reload falls back to the module reload; the last good
/// file is restored only after both reloads failed, and a run that restored
/// it ends as applied only by way of the restart.
pub proof fn lemma_sync_order(phase: SyncPhase, result: StepResult)
    ensures
        spec_sync_step(phase, result) == SyncPhase::Writing ==> phase == SyncPhase::Comparing
            && result == StepResult::Succeeded,
        spec_sync_step(phase, result) == SyncPhase::ReloadingModule ==> phase == SyncPhase::Reloading
            && result == StepResult::Failed,
        spec_sync_step(phase, result) == SyncPhase::Restoring ==> phase == SyncPhase::ReloadingModule
            && result == StepResult::Failed,
        spec_sync_step(phase, result) == SyncPhase::Restarting ==> phase == SyncPhase::Restoring,
        spec_sync_step(phase, result) == SyncPhase::Applied && phase != SyncPhase::Applied
            ==> phase == SyncPhase::Reloading || phase == SyncPhase::ReloadingModule
            || phase == SyncPhase::Restarting,
{
}

} // verus!
