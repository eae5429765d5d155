//! The generated `pjsip.conf`: a fixed transport and template preamble and
//! one endpoint, auth and AOR section per intercom.

use vstd::prelude::*;
use vstd::string::StringExecFns;
use crate::intercom::Intercom;
use crate::text::{decimal, push_decimal};

verus! {

/// The password that every generated auth section carries.
pub const SHARED_PASSWORD: &'static str = "Sentrics2026";

/// The start of the first line, which stamps the generation time.
pub const GENERATED_STAMP: &'static str = "; Generated by intercom-sync-agent at unix=";

/// The first two comment lines: the generation time and the intercom count.
pub open spec fn header_text(generated_at: nat, count: nat) -> Seq<char> {
    GENERATED_STAMP@ + decimal(generated_at) + "\n"@
        + "; Intercom count: "@ + decimal(count) + "\n\n"@
}

/// The UDP transport and the endpoint, auth and AOR templates.
pub open spec fn preamble_text() -> Seq<char> {
    "[transport-udp]\ntype=transport\nprotocol=udp\nbind=0.0.0.0:5060\n\n"@
        + "[endpoint-template](!)\ntype=endpoint\ncontext=internal\ndisallow=all\nallow=ulaw\nallow=alaw\n\n"@
        + "[auth-template](!)\ntype=auth\nauth_type=userpass\n\n"@
        + "[aor-template](!)\ntype=aor\nmax_contacts=1\n\n"@
}

/// The sections of one intercom, whose SIP user name is its MAC address.
pub open spec fn intercom_section(id: Seq<char>, mac: Seq<char>) -> Seq<char> {
    "; Intercom "@ + id + "\n"@
        + "["@ + mac + "](endpoint-template)\n"@
        + "auth="@ + mac + "-auth\n"@
        + "aors="@ + mac + "\n\n"@
        + "["@ + mac + "-auth](auth-template)\n"@
        + "username="@ + mac + "\n"@
        + "password="@ + SHARED_PASSWORD@ + "\n\n"@
        + "["@ + mac + "](aor-template)\n\n"@
}

/// The sections of the intercoms of `entries`, in their order.
pub open spec fn intercom_sections(entries: Seq<(Seq<char>, Seq<char>)>) -> Seq<char>
    decreases entries.len(),
{
    if entries.len() == 0 {
        Seq::empty()
    } else {
        intercom_sections(entries.drop_last()) + intercom_section(entries.last().0, entries.last().1)
    }
}

/// The whole configuration for `entries`, generated at `generated_at`.
pub open spec fn spec_render_pjsip_conf(entries: Seq<(Seq<char>, Seq<char>)>, generated_at: nat) -> Seq<char> {
    header_text(generated_at, entries.len()) + preamble_text() + intercom_sections(entries)
}

fn append_intercom_section(out: &mut String, i: &Intercom)
    ensures
        final(out)@ == old(out)@ + intercom_section(i.id@, i.mac@),
{
    let ext = i.mac.as_str();
    out.append("; Intercom ");
    out.append(i.id.as_str());
    out.append("\n");
    out.append("[");
    out.append(ext);
    out.append("](endpoint-template)\n");
    out.append("auth=");
    out.append(ext);
    out.append("-auth\n");
    out.append("aors=");
    out.append(ext);
    out.append("\n\n");
    out.append("[");
    out.append(ext);
    out.append("-auth](auth-template)\n");
    out.append("username=");
    out.append(ext);
    out.append("\n");
    out.append("password=");
    out.append(SHARED_PASSWORD);
    out.append("\n\n");
    out.append("[");
    out.append(ext);
    out.append("](aor-template)\n\n");
    assert(out@ =~= old(out)@ + intercom_section(i.id@, i.mac@));
}

/// Renders the configuration for `intercoms`, in their order, stamped with
/// the generation time `generated_at` (seconds since the Unix epoch).
pub fn render_pjsip_conf(intercoms: &Vec<Intercom>, generated_at: u64) -> (r: String)
    ensures
        r@ == spec_render_pjsip_conf(intercoms.deep_view(), generated_at as nat),
{
    let mut out = String::new();
    out.append(GENERATED_STAMP);
    push_decimal(&mut out, generated_at);
    out.append("\n");
    out.append("; Intercom count: ");
    push_decimal(&mut out, intercoms.len() as u64);
    out.append("\n\n");
    out.append("[transport-udp]\ntype=transport\nprotocol=udp\nbind=0.0.0.0:5060\n\n");
    out.append("[endpoint-template](!)\ntype=endpoint\ncontext=internal\ndisallow=all\nallow=ulaw\nallow=alaw\n\n");
    out.append("[auth-template](!)\ntype=auth\nauth_type=userpass\n\n");
    out.append("[aor-template](!)\ntype=aor\nmax_contacts=1\n\n");
    let ghost entries = intercoms.deep_view();
    let ghost prefix = header_text(generated_at as nat, entries.len()) + preamble_text();
    assert(out@ =~= prefix);
    assert(entries.take(0) =~= Seq::<(Seq<char>, Seq<char>)>::empty());
    assert(out@ =~= prefix + intercom_sections(entries.take(0)));
    let mut i: usize = 0;
    while i < intercoms.len()
        invariant
            i <= intercoms.len(),
            entries == intercoms.deep_view(),
            out@ == prefix + intercom_sections(entries.take(i as int)),
        decreases intercoms.len() - i,
    {
        append_intercom_section(&mut out, &intercoms[i]);
        assert(entries.take(i + 1).drop_last() =~= entries.take(i as int));
        assert(out@ =~= prefix + intercom_sections(entries.take(i + 1)));
        i = i + 1;
    }
    assert(entries.take(intercoms.len() as int) =~= entries);
    out
}


/// `w` occurs in `s` as a contiguous piece.
pub open spec fn occurs_in(w: Seq<char>, s: Seq<char>) -> bool {
    exists|k: int| 0 <= k && k + w.len() <= s.len() && #[trigger] s.subrange(k, k + w.len()) == w
}

/// The auth section of the intercom with MAC address `mac`: its SIP user
/// name is the address and its password the shared one.
pub open spec fn auth_lines(mac: Seq<char>) -> Seq<char> {
    "["@ + mac + "-auth](auth-template)\n"@ + "username="@ + mac + "\n"@ + "password="@
        + "Sentrics2026"@ + "\n\n"@
}

proof fn lemma_occurs_in_concat(w: Seq<char>, a: Seq<char>, b: Seq<char>)
    ensures
        occurs_in(w, a) ==> occurs_in(w, a + b),
        occurs_in(w, b) ==> occurs_in(w, a + b),
{
    if occurs_in(w, a) {
        let k: int = choose|k: int| 0 <= k && k + w.len() <= a.len() && #[trigger] a.subrange(k, k + w.len()) == w;
        assert((a + b).subrange(k, k + w.len()) =~= a.subrange(k, k + w.len()));
    }
    if occurs_in(w, b) {
        let k: int = choose|k: int| 0 <= k && k + w.len() <= b.len() && #[trigger] b.subrange(k, k + w.len()) == w;
        assert((a + b).subrange(a.len() + k, a.len() + k + w.len()) =~= b.subrange(k, k + w.len()));
    }
}

proof fn lemma_section_lines(id: Seq<char>, mac: Seq<char>)
    ensures
        occurs_in("; Intercom "@ + id + "\n"@, intercom_section(id, mac)),
        occurs_in(auth_lines(mac), intercom_section(id, mac)),
{
    let head = "; Intercom "@ + id + "\n"@;
    let mid = "["@ + mac + "](endpoint-template)\n"@ + "auth="@ + mac + "-auth\n"@ + "aors="@ + mac + "\n\n"@;
    let tail = "["@ + mac + "](aor-template)\n\n"@;
    assert(SHARED_PASSWORD@ == "Sentrics2026"@);
    assert(intercom_section(id, mac) =~= head + (mid + auth_lines(mac) + tail));
    assert(occurs_in(head, head)) by {
        assert(head.subrange(0int, 0int + head.len()) =~= head);
    }
    assert(occurs_in(auth_lines(mac), auth_lines(mac) + tail)) by {
        assert((auth_lines(mac) + tail).subrange(0int, 0int + auth_lines(mac).len()) =~= auth_lines(mac));
    }
    assert(head + (mid + auth_lines(mac) + tail) =~= (head + mid) + (auth_lines(mac) + tail));
    lemma_occurs_in_concat(head, head, mid + auth_lines(mac) + tail);
    lemma_occurs_in_concat(auth_lines(mac), auth_lines(mac), tail);
    lemma_occurs_in_concat(auth_lines(mac), head + mid, auth_lines(mac) + tail);
}

/// Every intercom has its sections in the configuration: a comment with its
/// id, and an auth section whose user name is its MAC address and whose
/// password is the shared one; and the configuration starts with the
/// generation stamp and gives the number of intercoms.
pub proof fn lemma_render_lists_every_intercom(entries: Seq<(Seq<char>, Seq<char>)>, t: nat)
    ensures
        forall|i: int|
            0 <= i < entries.len() ==> occurs_in(
                auth_lines(#[trigger] entries[i].1),
                spec_render_pjsip_conf(entries, t),
            ) && occurs_in("; Intercom "@ + entries[i].0 + "\n"@, spec_render_pjsip_conf(entries, t)),
        GENERATED_STAMP@ + decimal(t) + "\n"@ + "; Intercom count: "@ + decimal(entries.len()) + "\n\n"@
            == spec_render_pjsip_conf(entries, t).take(
            (GENERATED_STAMP@ + decimal(t) + "\n"@ + "; Intercom count: "@ + decimal(entries.len())
                + "\n\n"@).len() as int,
        ),
    decreases entries.len(),
{
    let r = spec_render_pjsip_conf(entries, t);
    let h = header_text(t, entries.len()) + preamble_text();
    assert(r == h + intercom_sections(entries));
    lemma_sections_list_every_intercom(entries);
    assert forall|i: int| 0 <= i < entries.len() implies occurs_in(auth_lines(#[trigger] entries[i].1), r)
        && occurs_in("; Intercom "@ + entries[i].0 + "\n"@, r) by {
        lemma_occurs_in_concat(auth_lines(entries[i].1), h, intercom_sections(entries));
        lemma_occurs_in_concat("; Intercom "@ + entries[i].0 + "\n"@, h, intercom_sections(entries));
    }
    let first = header_text(t, entries.len());
    assert(r =~= first + (preamble_text() + intercom_sections(entries)));
    assert(r.take(first.len() as int) =~= first);
}

proof fn lemma_sections_list_every_intercom(entries: Seq<(Seq<char>, Seq<char>)>)
    ensures
        forall|i: int|
            0 <= i < entries.len() ==> occurs_in(auth_lines(#[trigger] entries[i].1), intercom_sections(entries))
                && occurs_in("; Intercom "@ + entries[i].0 + "\n"@, intercom_sections(entries)),
    decreases entries.len(),
{
    if entries.len() > 0 {
        let t = entries.drop_last();
        let x = entries.last();
        lemma_sections_list_every_intercom(t);
        lemma_section_lines(x.0, x.1);
        let a = intercom_sections(t);
        let b = intercom_section(x.0, x.1);
        assert forall|i: int| 0 <= i < entries.len() implies occurs_in(auth_lines(#[trigger] entries[i].1), a + b)
            && occurs_in("; Intercom "@ + entries[i].0 + "\n"@, a + b) by {
            if i < t.len() {
                assert(entries[i] == t[i]);
            }
            lemma_occurs_in_concat(auth_lines(entries[i].1), a, b);
            lemma_occurs_in_concat("; Intercom "@ + entries[i].0 + "\n"@, a, b);
        }
    }
}

} // verus!
