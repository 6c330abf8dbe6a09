//! Reporter logic — the buckets in reviewable order, the text report as styled
//! pieces, and the exit code.
//!
//! The text report is a sequence of spans, each a piece of text with a style
//! (bold, dimmed, a color); painting them is left to the terminal front end.
//! It holds a one-line scope caveat header, the ranked `Dead` list, the
//! `Suspect` list, the per-language blind summary, a count line, an optional
//! budget line and an optional audit block.
//!
//! Exit policy is `fail_on`: `never` → 0; `dead` → 1 when the dead keys exceed
//! the budget; `dead-or-blind` → 1 when they do or any blind site exists.
//! `Suspect` never affects the exit code: it is a review hint, not a failure.

use vstd::prelude::*;

use crate::audit::{AuditReport, AuditView, Trace};
use crate::config::FailOn;
use crate::liveness::{
    blind_view, spec_blind_total, spec_count_alive, spec_count_status, spec_with_status,
    verdicts_view, AliveVia, KeyVerdict, LivenessReport, Status,
};
use crate::liveness::lemma_with_status_members;
use crate::order::{lemma_sort_by_key, sort_by_key, spec_key_lt, spec_sort_by_key};
use crate::po::{keys_view, KeyView, PoKey};
use crate::text::{decimal, push_str, spec_decimal};

verus! {

/// One-line caveat printed on every report: static analysis cannot see
/// external consumers, so a `Dead` key may still be used outside the scanned
/// roots.
pub open spec fn scope_caveat() -> Seq<char> {
    "scope = scanned source roots only; external consumers (DB/config, other services, email/cron templates) are invisible — verify in your TMS before deleting."@
}

/// The scope caveat.
pub fn scope_caveat_str() -> (r: &'static str)
    ensures
        r@ == scope_caveat(),
{
    "scope = scanned source roots only; external consumers (DB/config, other services, email/cron templates) are invisible — verify in your TMS before deleting."
}

/// The label of an alive reason.
pub open spec fn spec_alive_via_str(via: AliveVia) -> Seq<char> {
    match via {
        AliveVia::Literal => "literal"@,
        AliveVia::Guard => "guard"@,
        AliveVia::Whitelist => "whitelist"@,
    }
}

/// The label of an alive reason.
pub fn alive_via_str(via: AliveVia) -> (r: &'static str)
    ensures
        r@ == spec_alive_via_str(via),
{
    match via {
        AliveVia::Literal => "literal",
        AliveVia::Guard => "guard",
        AliveVia::Whitelist => "whitelist",
    }
}

/// The label of an audit tier.
pub open spec fn spec_trace_str(t: Trace) -> Seq<char> {
    match t {
        Trace::Substring => "substring"@,
        Trace::Skeleton => "skeleton"@,
        Trace::NoTrace => "none"@,
    }
}

/// The label of an audit tier.
pub fn trace_str(t: Trace) -> (r: &'static str)
    ensures
        r@ == spec_trace_str(t),
{
    match t {
        Trace::Substring => "substring",
        Trace::Skeleton => "skeleton",
        Trace::NoTrace => "none",
    }
}

/// Keys paired with nothing, for sorting.
pub open spec fn spec_unit_keyed(ks: Seq<KeyView>) -> Seq<(KeyView, ())> {
    ks.map_values(|k: KeyView| (k, ()))
}

/// The keys of keyed entries.
pub open spec fn spec_keys_of<T>(s: Seq<(KeyView, T)>) -> Seq<KeyView> {
    s.map_values(|p: (KeyView, T)| p.0)
}

/// The keys with a status, sorted by `(msgctxt, msgid)`, ties in verdict order.
pub open spec fn spec_sorted_with_status(v: Seq<(KeyView, Status)>, s: Status) -> Seq<KeyView> {
    spec_keys_of(
        spec_sort_by_key(spec_unit_keyed(spec_with_status(v, s).map_values(|x: (KeyView, Status)| x.0))),
    )
}

/// The keys of the verdicts with status `s`, sorted for stable, reviewable
/// output.
fn sorted_with_status(report: &LivenessReport, s: Status) -> (r: Vec<PoKey>)
    ensures
        keys_view(r@) == spec_sorted_with_status(verdicts_view(report.verdicts@), s),
{
    let ghost vv = verdicts_view(report.verdicts@);
    let mut pairs: Vec<(PoKey, ())> = Vec::new();
    let mut i: usize = 0;
    let ghost picked = spec_with_status(vv, s).map_values(|x: (KeyView, Status)| x.0);
    while i < report.verdicts.len()
        invariant
            vv == verdicts_view(report.verdicts@),
            i <= report.verdicts.len(),
            crate::order::keyed_view(pairs@) == spec_unit_keyed(
                spec_with_status(vv.take(i as int), s).map_values(|x: (KeyView, Status)| x.0),
            ),
        decreases report.verdicts.len() - i,
    {
        let v = &report.verdicts[i];
        assert(vv[i as int] == v@);
        assert(vv.take(i + 1).drop_last() =~= vv.take(i as int));
        assert(vv.take(i + 1).last() == v@);
        let ghost before = crate::order::keyed_view(pairs@);
        if v.status == s {
            pairs.push((v.key.copy(), ()));
            assert(crate::order::keyed_view(pairs@) =~= before.push((v.key@, ())));
        }
        proof {
            let prev = spec_with_status(vv.take(i as int), s);
            assert(spec_unit_keyed(prev.map_values(|x: (KeyView, Status)| x.0)) == before);
            if v.status == s {
                assert(spec_with_status(vv.take(i + 1), s) =~= prev.push(v@));
                assert(spec_with_status(vv.take(i + 1), s).map_values(|x: (KeyView, Status)| x.0)
                    =~= prev.map_values(|x: (KeyView, Status)| x.0).push(v.key@));
                assert(spec_unit_keyed(
                    spec_with_status(vv.take(i + 1), s).map_values(|x: (KeyView, Status)| x.0),
                ) =~= before.push((v.key@, ())));
            } else {
                assert(spec_with_status(vv.take(i + 1), s) =~= prev);
            }
        }
        i = i + 1;
    }
    assert(vv.take(report.verdicts.len() as int) =~= vv);
    let sorted = sort_by_key(pairs);
    let mut out: Vec<PoKey> = Vec::new();
    let ghost sv = crate::order::keyed_view(sorted@);
    let mut j: usize = 0;
    while j < sorted.len()
        invariant
            sv == crate::order::keyed_view(sorted@),
            j <= sorted.len(),
            keys_view(out@) == spec_keys_of(sv.take(j as int)),
        decreases sorted.len() - j,
    {
        let ghost before = keys_view(out@);
        out.push(sorted[j].0.copy());
        assert(sv[j as int] == (sorted@[j as int].0@, ()));
        assert(keys_view(out@) =~= before.push(sv[j as int].0));
        assert(spec_keys_of(sv.take(j + 1)) =~= spec_keys_of(sv.take(j as int)).push(sv[j as int].0));
        j = j + 1;
    }
    assert(sv.take(sorted.len() as int) =~= sv);
    out
}

/// Dead keys sorted for stable, reviewable output.
pub fn sorted_dead(report: &LivenessReport) -> (r: Vec<PoKey>)
    ensures
        keys_view(r@) == spec_sorted_with_status(verdicts_view(report.verdicts@), Status::Dead),
{
    sorted_with_status(report, Status::Dead)
}

/// Suspect keys sorted for stable output.
pub fn sorted_suspect(report: &LivenessReport) -> (r: Vec<PoKey>)
    ensures
        keys_view(r@) == spec_sorted_with_status(verdicts_view(report.verdicts@), Status::Suspect),
{
    sorted_with_status(report, Status::Suspect)
}

/// The alive keys with their reason, in verdict order.
pub open spec fn spec_alive_keys(v: Seq<(KeyView, Status)>) -> Seq<(KeyView, AliveVia)>
    decreases v.len(),
{
    if v.len() == 0 {
        Seq::empty()
    } else {
        let prev = spec_alive_keys(v.drop_last());
        match v.last().1 {
            Status::Alive(via) => prev.push((v.last().0, via)),
            _ => prev,
        }
    }
}

/// The alive keys with their reason, in verdict order.
pub fn alive_keys(report: &LivenessReport) -> (r: Vec<(PoKey, AliveVia)>)
    ensures
        crate::order::keyed_view(r@) == spec_alive_keys(verdicts_view(report.verdicts@)),
{
    let ghost vv = verdicts_view(report.verdicts@);
    let mut out: Vec<(PoKey, AliveVia)> = Vec::new();
    let mut i: usize = 0;
    while i < report.verdicts.len()
        invariant
            vv == verdicts_view(report.verdicts@),
            i <= report.verdicts.len(),
            crate::order::keyed_view(out@) == spec_alive_keys(vv.take(i as int)),
        decreases report.verdicts.len() - i,
    {
        let v = &report.verdicts[i];
        assert(vv[i as int] == v@);
        assert(vv.take(i + 1).drop_last() =~= vv.take(i as int));
        assert(vv.take(i + 1).last() == v@);
        match v.status {
            Status::Alive(via) => {
                let ghost before = crate::order::keyed_view(out@);
                out.push((v.key.copy(), via));
                assert(crate::order::keyed_view(out@) =~= before.push((v.key@, via)));
            },
            _ => {},
        }
        i = i + 1;
    }
    assert(vv.take(report.verdicts.len() as int) =~= vv);
    out
}

/// A key for display: `[ctxt] msgid`, then `  / plural` for plural keys.
pub open spec fn spec_display_key(k: KeyView) -> Seq<char> {
    let head = match k.0 {
        Some(c) => "["@ + c + "] "@,
        None => Seq::empty(),
    };
    let tail = match k.2 {
        Some(p) => "  / "@ + p,
        None => Seq::empty(),
    };
    head + k.1 + tail
}

/// Render a key for display: `[ctxt] msgid (+ plural)`.
pub fn display_key(key: &PoKey) -> (r: String)
    ensures
        r@ == spec_display_key(key@),
{
    let mut s = String::new();
    if let Some(ctxt) = &key.msgctxt {
        push_str(&mut s, "[");
        push_str(&mut s, ctxt.as_str());
        push_str(&mut s, "] ");
    }
    push_str(&mut s, key.msgid.as_str());
    if let Some(plural) = &key.msgid_plural {
        push_str(&mut s, "  / ");
        push_str(&mut s, plural.as_str());
    }
    assert(s@ =~= spec_display_key(key@));
    s
}

/// `label=count` entries, joined with `, `.
pub open spec fn spec_blind_entries(b: Seq<(Seq<char>, nat)>) -> Seq<char>
    decreases b.len(),
{
    if b.len() == 0 {
        Seq::empty()
    } else {
        let prev = spec_blind_entries(b.drop_last());
        let entry = b.last().0 + "="@ + spec_decimal(b.last().1);
        if b.len() == 1 {
            entry
        } else {
            prev + ", "@ + entry
        }
    }
}

/// The blind summary line.
pub open spec fn spec_blind_line(b: Seq<(Seq<char>, nat)>) -> Seq<char> {
    if b.len() == 0 {
        "Blind spots: none"@
    } else {
        "Blind spots (unverifiable call sites): "@ + spec_blind_entries(b)
    }
}

/// The per-language blind summary line, in label order.
pub fn blind_line(blind: &Vec<(String, usize)>) -> (r: String)
    ensures
        r@ == spec_blind_line(blind_view(blind@)),
{
    let ghost bv = blind_view(blind@);
    if blind.len() == 0 {
        return "Blind spots: none".to_owned();
    }
    let mut s = String::new();
    push_str(&mut s, "Blind spots (unverifiable call sites): ");
    let ghost head = s@;
    let mut i: usize = 0;
    while i < blind.len()
        invariant
            bv == blind_view(blind@),
            i <= blind.len(),
            s@ == head + spec_blind_entries(bv.take(i as int)),
        decreases blind.len() - i,
    {
        assert(bv[i as int] == (blind@[i as int].0@, blind@[i as int].1 as nat));
        assert(bv.take(i + 1).drop_last() =~= bv.take(i as int));
        assert(bv.take(i + 1).last() == bv[i as int]);
        if i > 0 {
            push_str(&mut s, ", ");
        }
        push_str(&mut s, blind[i].0.as_str());
        push_str(&mut s, "=");
        push_str(&mut s, decimal(blind[i].1).as_str());
        assert(s@ =~= head + spec_blind_entries(bv.take(i + 1)));
        i = i + 1;
    }
    assert(bv.take(blind.len() as int) =~= bv);
    s
}

/// Whether the dead keys exceed an absolute budget.
pub open spec fn spec_count_exceeded(dead: nat, max: nat) -> bool {
    dead > max
}

/// The budget line of an absolute budget: the headroom, or the overage.
pub open spec fn spec_count_budget_line(dead: nat, max: nat) -> Seq<char> {
    if dead > max {
        "Budget: "@ + spec_decimal(dead) + " / "@ + spec_decimal(max) + " dead allowed — OVER by "@
            + spec_decimal((dead - max) as nat) + "."@
    } else {
        "Budget: "@ + spec_decimal(dead) + " / "@ + spec_decimal(max)
            + " dead allowed — within budget ("@ + spec_decimal((max - dead) as nat)
            + " headroom)."@
    }
}

/// The budget line of an absolute budget `max` with `dead` dead keys, and
/// whether the budget is exceeded.
pub fn count_budget_line(dead: usize, max: usize) -> (r: (String, bool))
    ensures
        r.0@ == spec_count_budget_line(dead as nat, max as nat),
        r.1 == spec_count_exceeded(dead as nat, max as nat),
{
    let mut s = String::new();
    push_str(&mut s, "Budget: ");
    push_str(&mut s, decimal(dead).as_str());
    push_str(&mut s, " / ");
    push_str(&mut s, decimal(max).as_str());
    if dead > max {
        push_str(&mut s, " dead allowed — OVER by ");
        push_str(&mut s, decimal(dead - max).as_str());
        push_str(&mut s, ".");
        assert(s@ =~= spec_count_budget_line(dead as nat, max as nat));
        (s, true)
    } else {
        push_str(&mut s, " dead allowed — within budget (");
        push_str(&mut s, decimal(max - dead).as_str());
        push_str(&mut s, " headroom).");
        assert(s@ =~= spec_count_budget_line(dead as nat, max as nat));
        (s, false)
    }
}

/// The exit code under `fail_on`, given whether the dead keys exceed the
/// budget and the blind summary.
pub open spec fn spec_exit_code(fail_on: FailOn, dead_over: bool, blind_total: nat) -> int {
    match fail_on {
        FailOn::Never => 0,
        FailOn::Dead => if dead_over {
            1
        } else {
            0
        },
        FailOn::DeadOrBlind => if dead_over || blind_total > 0 {
            1
        } else {
            0
        },
    }
}

/// Whether any blind site is recorded.
fn any_blind(blind: &Vec<(String, usize)>) -> (r: bool)
    ensures
        r == (spec_blind_total(blind_view(blind@)) > 0),
{
    let ghost bv = blind_view(blind@);
    let mut i: usize = blind.len();
    assert(bv.skip(i as int).len() == 0);
    while i > 0
        invariant
            bv == blind_view(blind@),
            i <= blind.len(),
            spec_blind_total(bv.skip(i as int)) == 0,
        decreases i,
    {
        assert(bv.skip(i - 1).drop_first() =~= bv.skip(i as int));
        assert(bv.skip(i - 1)[0] == bv[i - 1]);
        assert(bv[i - 1] == (blind@[i - 1].0@, blind@[i - 1].1 as nat));
        if blind[i - 1].1 > 0 {
            proof {
                lemma_total_at_least_suffix(bv, i - 1);
            }
            return true;
        }
        i = i - 1;
    }
    assert(bv.skip(0) =~= bv);
    false
}

/// A suffix's total never exceeds the whole total.
proof fn lemma_total_at_least_suffix(b: Seq<(Seq<char>, nat)>, i: int)
    requires
        0 <= i <= b.len(),
    ensures
        spec_blind_total(b.skip(i)) <= spec_blind_total(b),
    decreases i,
{
    if i > 0 {
        lemma_total_at_least_suffix(b.drop_first(), i - 1);
        assert(b.drop_first().skip(i - 1) =~= b.skip(i));
    } else {
        assert(b.skip(0) =~= b);
    }
}

/// The process exit code implied by the report under `fail_on`, with the dead
/// gate decided by `dead_over` (whether the dead keys exceed the budget; with
/// the default budget, whether any key is dead). Operational errors (code 2)
/// are the caller's.
pub fn exit_code(report: &LivenessReport, fail_on: FailOn, dead_over: bool) -> (r: i32)
    ensures
        r == spec_exit_code(fail_on, dead_over, spec_blind_total(blind_view(report.blind@))),
{
    match fail_on {
        FailOn::Never => 0,
        FailOn::Dead => if dead_over {
            1
        } else {
            0
        },
        FailOn::DeadOrBlind => if dead_over || any_blind(&report.blind) {
            1
        } else {
            0
        },
    }
}

/// How a piece of the text report is painted.
#[derive(Debug, Clone, Copy, PartialEq, Eq, Structural)]
pub enum Style {
    Plain,
    Bold,
    Dimmed,
    Red,
    Green,
    Yellow,
}

/// A piece of the text report.
#[derive(Debug, Clone, PartialEq, Eq)]
pub struct Span {
    pub text: String,
    pub style: Style,
}

/// The views of report pieces.
pub open spec fn spans_view(v: Seq<Span>) -> Seq<(Seq<char>, Style)> {
    v.map_values(|x: Span| (x.text@, x.style))
}

/// The lines listing keys: indented, painted in `style`.
pub open spec fn spec_key_lines(keys: Seq<KeyView>, style: Style) -> Seq<(Seq<char>, Style)>
    decreases keys.len(),
{
    if keys.len() == 0 {
        Seq::empty()
    } else {
        spec_key_lines(keys.drop_last(), style) + seq![
            ("  "@, Style::Plain),
            (spec_display_key(keys.last()), style),
            ("\n"@, Style::Plain),
        ]
    }
}

/// The dead section: a headline and the sorted dead keys, or the all-clear.
pub open spec fn spec_dead_section(dead: Seq<KeyView>) -> Seq<(Seq<char>, Style)> {
    if dead.len() == 0 {
        seq![("No dead keys found.\n"@, Style::Green)]
    } else {
        seq![
            ("Dead keys ("@ + spec_decimal(dead.len()) + "):"@, Style::Bold),
            ("\n"@, Style::Plain),
        ] + spec_key_lines(dead, Style::Red)
    }
}

/// The note under the suspect headline.
pub open spec fn suspect_note() -> Seq<char> {
    "literal present in source but no modeled call — verify, don't delete"@
}

/// The suspect section, shown only when some key is suspect.
pub open spec fn spec_suspect_section(suspect: Seq<KeyView>) -> Seq<(Seq<char>, Style)> {
    if suspect.len() == 0 {
        Seq::empty()
    } else {
        seq![
            ("\n"@, Style::Plain),
            ("Suspect ("@ + spec_decimal(suspect.len()) + "):"@, Style::Bold),
            (" "@, Style::Plain),
            (suspect_note(), Style::Dimmed),
            ("\n"@, Style::Plain),
        ] + spec_key_lines(suspect, Style::Yellow)
    }
}

/// The count line.
pub open spec fn spec_summary_line(total: nat, alive: nat, suspect: nat, dead: nat, blind: nat) -> Seq<
    char,
> {
    "Summary: "@ + spec_decimal(total) + " keys, "@ + spec_decimal(alive) + " alive, "@
        + spec_decimal(suspect) + " suspect, "@ + spec_decimal(dead) + " dead, "@ + spec_decimal(
        blind,
    ) + " blind\n"@
}

/// The advisory dead-bucket trust block: the headline counts, and a pointer to
/// the recheck list when some dead key still leaves a trace.
pub open spec fn spec_audit_block(a: AuditView) -> Seq<(Seq<char>, Style)> {
    seq![
        (
            "Audit (dead-bucket trust): "@ + spec_decimal(a.0) + " dead — "@ + spec_decimal(a.1)
                + " no trace (high-confidence), "@ + spec_decimal(a.2) + " substring, "@
                + spec_decimal(a.3) + " skeleton — recheck before deleting.\n"@,
            Style::Plain,
        ),
    ] + if a.4.len() > 0 {
        seq![
            (
                "  "@ + spec_decimal(a.4.len())
                    + " dead keys still trace to source — see --format json for the list."@,
                Style::Dimmed,
            ),
            ("\n"@, Style::Plain),
        ]
    } else {
        Seq::empty()
    }
}

/// The text report: header with the scope caveat, dead section, suspect
/// section, blind summary, count line, the budget line when one is given (red
/// when exceeded, green otherwise), and the audit block when an audit ran.
pub open spec fn spec_text_report(
    v: Seq<(KeyView, Status)>,
    blind: Seq<(Seq<char>, nat)>,
    audit: Option<AuditView>,
    budget: Option<(Seq<char>, bool)>,
) -> Seq<(Seq<char>, Style)> {
    seq![
        ("dead-poets"@, Style::Bold),
        (" "@, Style::Plain),
        (scope_caveat(), Style::Dimmed),
        ("\n\n"@, Style::Plain),
    ] + spec_dead_section(spec_sorted_with_status(v, Status::Dead)) + spec_suspect_section(
        spec_sorted_with_status(v, Status::Suspect),
    ) + seq![("\n"@, Style::Plain), (spec_blind_line(blind), Style::Plain), ("\n"@, Style::Plain)]
        + seq![
        (
            spec_summary_line(
                v.len(),
                spec_count_alive(v),
                spec_count_status(v, Status::Suspect),
                spec_count_status(v, Status::Dead),
                spec_blind_total(blind),
            ),
            Style::Plain,
        ),
    ] + match budget {
        Some(b) => seq![(b.0, if b.1 {
            Style::Red
        } else {
            Style::Green
        }), ("\n"@, Style::Plain)],
        None => Seq::empty(),
    } + match audit {
        Some(a) => seq![("\n"@, Style::Plain)] + spec_audit_block(a),
        None => Seq::empty(),
    }
}

/// Append a piece.
fn push_span(v: &mut Vec<Span>, text: String, style: Style)
    ensures
        spans_view(final(v)@) == spans_view(old(v)@).push((text@, style)),
{
    let ghost before = v@;
    v.push(Span { text, style });
    assert(spans_view(v@) =~= spans_view(before).push((text@, style)));
}

/// Append the lines listing `keys`.
fn push_key_lines(v: &mut Vec<Span>, keys: &Vec<PoKey>, style: Style)
    ensures
        spans_view(final(v)@) == spans_view(old(v)@) + spec_key_lines(keys_view(keys@), style),
{
    let ghost start = spans_view(v@);
    let ghost kv = keys_view(keys@);
    let mut i: usize = 0;
    while i < keys.len()
        invariant
            kv == keys_view(keys@),
            i <= keys.len(),
            spans_view(v@) == start + spec_key_lines(kv.take(i as int), style),
        decreases keys.len() - i,
    {
        assert(kv.take(i + 1).drop_last() =~= kv.take(i as int));
        assert(kv.take(i + 1).last() == keys@[i as int]@);
        push_span(v, "  ".to_owned(), Style::Plain);
        push_span(v, display_key(&keys[i]), style);
        push_span(v, "\n".to_owned(), Style::Plain);
        assert(spans_view(v@) =~= start + spec_key_lines(kv.take(i + 1), style));
        i = i + 1;
    }
    assert(kv.take(keys.len() as int) =~= kv);
}

/// The number in parentheses after a headline: `title (n):`.
fn headline(title: &str, n: usize) -> (r: String)
    ensures
        r@ == title@ + spec_decimal(n as nat) + "):"@,
{
    let mut s = String::new();
    push_str(&mut s, title);
    push_str(&mut s, decimal(n).as_str());
    push_str(&mut s, "):");
    assert(s@ =~= title@ + spec_decimal(n as nat) + "):"@);
    s
}

/// The count line.
fn summary_line(total: usize, alive: usize, suspect: usize, dead: usize, blind: usize) -> (r: String)
    ensures
        r@ == spec_summary_line(total as nat, alive as nat, suspect as nat, dead as nat, blind as nat),
{
    let mut s = String::new();
    push_str(&mut s, "Summary: ");
    push_str(&mut s, decimal(total).as_str());
    push_str(&mut s, " keys, ");
    push_str(&mut s, decimal(alive).as_str());
    push_str(&mut s, " alive, ");
    push_str(&mut s, decimal(suspect).as_str());
    push_str(&mut s, " suspect, ");
    push_str(&mut s, decimal(dead).as_str());
    push_str(&mut s, " dead, ");
    push_str(&mut s, decimal(blind).as_str());
    push_str(&mut s, " blind\n");
    assert(s@ =~= spec_summary_line(total as nat, alive as nat, suspect as nat, dead as nat, blind as nat));
    s
}

/// The advisory dead-bucket trust block.
pub fn audit_block(audit: &AuditReport) -> (r: Vec<Span>)
    ensures
        spans_view(r@) == spec_audit_block(audit@),
{
    let mut s = String::new();
    push_str(&mut s, "Audit (dead-bucket trust): ");
    push_str(&mut s, decimal(audit.dead_total).as_str());
    push_str(&mut s, " dead — ");
    push_str(&mut s, decimal(audit.no_trace).as_str());
    push_str(&mut s, " no trace (high-confidence), ");
    push_str(&mut s, decimal(audit.substring).as_str());
    push_str(&mut s, " substring, ");
    push_str(&mut s, decimal(audit.skeleton).as_str());
    push_str(&mut s, " skeleton — recheck before deleting.\n");
    let mut out: Vec<Span> = Vec::new();
    push_span(&mut out, s, Style::Plain);
    if audit.traced.len() > 0 {
        let mut t = String::new();
        push_str(&mut t, "  ");
        push_str(&mut t, decimal(audit.traced.len()).as_str());
        push_str(&mut t, " dead keys still trace to source — see --format json for the list.");
        push_span(&mut out, t, Style::Dimmed);
        push_span(&mut out, "\n".to_owned(), Style::Plain);
    }
    assert(spans_view(out@) =~= spec_audit_block(audit@));
    out
}

/// The header pieces.
fn header_spans() -> (r: Vec<Span>)
    ensures
        spans_view(r@) == seq![
            ("dead-poets"@, Style::Bold),
            (" "@, Style::Plain),
            (scope_caveat(), Style::Dimmed),
            ("\n\n"@, Style::Plain),
        ],
{
    let mut out: Vec<Span> = Vec::new();
    push_span(&mut out, "dead-poets".to_owned(), Style::Bold);
    push_span(&mut out, " ".to_owned(), Style::Plain);
    push_span(&mut out, scope_caveat_str().to_owned(), Style::Dimmed);
    push_span(&mut out, "\n\n".to_owned(), Style::Plain);
    assert(spans_view(out@) =~= seq![
        ("dead-poets"@, Style::Bold),
        (" "@, Style::Plain),
        (scope_caveat(), Style::Dimmed),
        ("\n\n"@, Style::Plain),
    ]);
    out
}

/// The dead section pieces.
fn dead_section(dead: &Vec<PoKey>) -> (r: Vec<Span>)
    ensures
        spans_view(r@) == spec_dead_section(keys_view(dead@)),
{
    let mut out: Vec<Span> = Vec::new();
    if dead.len() == 0 {
        push_span(&mut out, "No dead keys found.\n".to_owned(), Style::Green);
    } else {
        push_span(&mut out, headline("Dead keys (", dead.len()), Style::Bold);
        push_span(&mut out, "\n".to_owned(), Style::Plain);
        push_key_lines(&mut out, dead, Style::Red);
    }
    assert(spans_view(out@) =~= spec_dead_section(keys_view(dead@)));
    out
}

/// The suspect section pieces.
fn suspect_section(suspect: &Vec<PoKey>) -> (r: Vec<Span>)
    ensures
        spans_view(r@) == spec_suspect_section(keys_view(suspect@)),
{
    let mut out: Vec<Span> = Vec::new();
    if suspect.len() > 0 {
        push_span(&mut out, "\n".to_owned(), Style::Plain);
        push_span(&mut out, headline("Suspect (", suspect.len()), Style::Bold);
        push_span(&mut out, " ".to_owned(), Style::Plain);
        push_span(
            &mut out,
            "literal present in source but no modeled call — verify, don't delete".to_owned(),
            Style::Dimmed,
        );
        push_span(&mut out, "\n".to_owned(), Style::Plain);
        push_key_lines(&mut out, suspect, Style::Yellow);
    }
    assert(spans_view(out@) =~= spec_suspect_section(keys_view(suspect@)));
    out
}

/// The blind summary and count line pieces.
fn summary_spans(report: &LivenessReport) -> (r: Vec<Span>)
    requires
        spec_blind_total(blind_view(report.blind@)) <= usize::MAX,
    ensures
        spans_view(r@) == seq![
            ("\n"@, Style::Plain),
            (spec_blind_line(blind_view(report.blind@)), Style::Plain),
            ("\n"@, Style::Plain),
            (
                spec_summary_line(
                    verdicts_view(report.verdicts@).len(),
                    spec_count_alive(verdicts_view(report.verdicts@)),
                    spec_count_status(verdicts_view(report.verdicts@), Status::Suspect),
                    spec_count_status(verdicts_view(report.verdicts@), Status::Dead),
                    spec_blind_total(blind_view(report.blind@)),
                ),
                Style::Plain,
            ),
        ],
{
    let mut out: Vec<Span> = Vec::new();
    push_span(&mut out, "\n".to_owned(), Style::Plain);
    push_span(&mut out, blind_line(&report.blind), Style::Plain);
    push_span(&mut out, "\n".to_owned(), Style::Plain);
    let line = summary_line(
        report.verdicts.len(),
        report.alive_count(),
        report.suspect_count(),
        report.dead_count(),
        report.total_blind(),
    );
    push_span(&mut out, line, Style::Plain);
    assert(verdicts_view(report.verdicts@).len() == report.verdicts.len());
    assert(spans_view(out@) =~= seq![
        ("\n"@, Style::Plain),
        (spec_blind_line(blind_view(report.blind@)), Style::Plain),
        ("\n"@, Style::Plain),
        (
            spec_summary_line(
                verdicts_view(report.verdicts@).len(),
                spec_count_alive(verdicts_view(report.verdicts@)),
                spec_count_status(verdicts_view(report.verdicts@), Status::Suspect),
                spec_count_status(verdicts_view(report.verdicts@), Status::Dead),
                spec_blind_total(blind_view(report.blind@)),
            ),
            Style::Plain,
        ),
    ]);
    out
}

/// The budget line pieces, if any.
fn budget_spans(budget: Option<(String, bool)>) -> (r: Vec<Span>)
    ensures
        spans_view(r@) == match budget {
            Some(b) => seq![(b.0@, if b.1 {
                Style::Red
            } else {
                Style::Green
            }), ("\n"@, Style::Plain)],
            None => Seq::<(Seq<char>, Style)>::empty(),
        },
{
    let mut out: Vec<Span> = Vec::new();
    let ghost b0 = budget;
    match budget {
        Some((text, over)) => {
            push_span(&mut out, text, if over {
                Style::Red
            } else {
                Style::Green
            });
            push_span(&mut out, "\n".to_owned(), Style::Plain);
        },
        None => {},
    }
    assert(spans_view(out@) =~= match b0 {
        Some(b) => seq![(b.0@, if b.1 {
            Style::Red
        } else {
            Style::Green
        }), ("\n"@, Style::Plain)],
        None => Seq::<(Seq<char>, Style)>::empty(),
    });
    out
}

/// The audit pieces, if an audit ran.
fn audit_spans(audit: Option<&AuditReport>) -> (r: Vec<Span>)
    ensures
        spans_view(r@) == match audit {
            Some(a) => seq![("\n"@, Style::Plain)] + spec_audit_block(a@),
            None => Seq::<(Seq<char>, Style)>::empty(),
        },
{
    let mut out: Vec<Span> = Vec::new();
    match audit {
        Some(a) => {
            push_span(&mut out, "\n".to_owned(), Style::Plain);
            let mut block = audit_block(a);
            let ghost before = out@;
            out.append(&mut block);
            assert(spans_view(out@) =~= spans_view(before) + spec_audit_block(a@));
        },
        None => {
            assert(spans_view(out@) =~= Seq::<(Seq<char>, Style)>::empty());
        },
    }
    out
}

/// Render the text report as styled pieces. `budget` is the budget line and
/// whether the budget is exceeded, when a non-default budget is set.
pub fn text_report(report: &LivenessReport, audit: Option<&AuditReport>, budget: Option<(String, bool)>) -> (r: Vec<Span>)
    requires
        spec_blind_total(blind_view(report.blind@)) <= usize::MAX,
    ensures
        spans_view(r@) == spec_text_report(
            verdicts_view(report.verdicts@),
            blind_view(report.blind@),
            match audit {
                Some(a) => Some(a@),
                None => None,
            },
            match budget {
                Some(b) => Some((b.0@, b.1)),
                None => None,
            },
        ),
{
    let mut out = header_spans();
    let ghost s0 = spans_view(out@);
    let dead = sorted_dead(report);
    let mut part = dead_section(&dead);
    let ghost p1 = spans_view(part@);
    out.append(&mut part);
    assert(spans_view(out@) =~= s0 + p1);
    let ghost s1 = spans_view(out@);
    let suspect = sorted_suspect(report);
    let mut part = suspect_section(&suspect);
    let ghost p2 = spans_view(part@);
    out.append(&mut part);
    assert(spans_view(out@) =~= s1 + p2);
    let ghost s2 = spans_view(out@);
    let mut part = summary_spans(report);
    let ghost p3 = spans_view(part@);
    out.append(&mut part);
    assert(spans_view(out@) =~= s2 + p3);
    let ghost s3 = spans_view(out@);
    let mut part = budget_spans(budget);
    let ghost p4 = spans_view(part@);
    out.append(&mut part);
    assert(spans_view(out@) =~= s3 + p4);
    let ghost s4 = spans_view(out@);
    let mut part = audit_spans(audit);
    let ghost p5 = spans_view(part@);
    out.append(&mut part);
    assert(spans_view(out@) =~= s4 + p5);
    assert(spans_view(out@) =~= s0 + p1 + p2 + p3 + p4 + p5);
    out
}

/// A bucket as the report lists it: exactly the keys with that status (as
/// many as the count), in `(msgctxt, msgid)` order.
pub proof fn lemma_sorted_bucket(v: Seq<(KeyView, Status)>, s: Status)
    ensures
        spec_sorted_with_status(v, s).len() == spec_count_status(v, s),
        forall|i: int, j: int|
            0 <= i < j < spec_sorted_with_status(v, s).len() ==> !spec_key_lt(
                #[trigger] spec_sorted_with_status(v, s)[j],
                #[trigger] spec_sorted_with_status(v, s)[i],
            ),
        forall|i: int|
            0 <= i < spec_sorted_with_status(v, s).len() ==> v.contains(
                (#[trigger] spec_sorted_with_status(v, s)[i], s),
            ),
{
    broadcast use vstd::seq_lib::to_multiset_contains;

    let picked = spec_with_status(v, s);
    let keys = picked.map_values(|x: (KeyView, Status)| x.0);
    let unit = spec_unit_keyed(keys);
    let sorted = spec_sort_by_key(unit);
    let r = spec_sorted_with_status(v, s);
    lemma_with_status_members(v, s);
    lemma_sort_by_key(unit);
    assert(r.len() == sorted.len());
    assert forall|i: int, j: int| 0 <= i < j < r.len() implies !spec_key_lt(
        #[trigger] r[j],
        #[trigger] r[i],
    ) by {
        assert(r[i] == sorted[i].0 && r[j] == sorted[j].0);
    }
    assert forall|i: int| 0 <= i < r.len() implies v.contains((#[trigger] r[i], s)) by {
        assert(r[i] == sorted[i].0);
        assert(sorted.to_multiset().count(sorted[i]) > 0);
        assert(unit.to_multiset().count(sorted[i]) > 0);
        assert(unit.contains(sorted[i]));
        let k = choose|k: int| 0 <= k < unit.len() && unit[k] == sorted[i];
        assert(unit[k] == (keys[k], ()));
        assert(keys[k] == picked[k].0);
        assert(picked[k].1 == s);
        assert(picked[k] == (r[i], s));
    }
}

} // verus!
