//! Dead-bucket audit — an opt-in trust score over the `Dead` list.
//!
//! Every dead msgid is searched for in the raw source text (comments, HTML,
//! heredocs, substrings — not just string literals) and each key is bucketed by
//! the strongest residual trace it leaves:
//!
//! - `Substring` — the full msgid occurs verbatim somewhere.
//! - `Skeleton` — only for keys carrying printf/brace placeholders and only
//!   without a substring hit: the static fragments around the placeholders (each
//!   at least `min_guard_len` characters) all occur — the mark of a
//!   `sprintf`-assembled key.
//! - `NoTrace` — no trace of any kind: high-confidence dead.
//!
//! The audit is advisory: it never reclassifies a key. All patterns are
//! searched in one multi-pattern pass per source text (Aho–Corasick); what
//! counts is only whether a pattern occurs in some text, so the result does
//! not depend on the order the texts come in.

use vstd::prelude::*;

use crate::order::{keyed_view, lemma_sort_by_key, sort_by_key, spec_sort_by_key, spec_sorted_by_key};
use crate::pattern::{find_all, regex_find_all, spans_view};
use crate::po::{keys_view, KeyView, PoKey};
use crate::syntax::{byte_text, spec_byte_text};
use crate::text::{chars_of, spec_contains_seq, strings_view};

verus! {

/// The placeholder grammar: python-named `%(name)s`, printf
/// `%[argnum$][flags][width][.prec]conv`, and brace `{0}` / `{name}`.
pub open spec fn placeholder_pattern() -> Seq<char> {
    "%\\([^)]+\\)[a-zA-Z]|%(?:\\d+\\$)?[-+ 0#']*\\d*(?:\\.\\d+)?[a-zA-Z]|\\{[^}]*\\}"@
}

fn placeholder_pattern_str() -> (r: &'static str)
    ensures
        r@ == placeholder_pattern(),
{
    "%\\([^)]+\\)[a-zA-Z]|%(?:\\d+\\$)?[-+ 0#']*\\d*(?:\\.\\d+)?[a-zA-Z]|\\{[^}]*\\}"
}

/// Where the piece before match `k` starts: the end of the previous match.
pub open spec fn spec_prev_end(spans: Seq<(int, int)>, k: int) -> int {
    if k <= 0 {
        0
    } else {
        spans[k - 1].1
    }
}

/// The pieces of `s` before each of the first `k` matches.
pub open spec fn spec_pieces_upto(s: Seq<char>, spans: Seq<(int, int)>, k: int) -> Seq<Seq<char>>
    decreases k,
{
    if k <= 0 {
        Seq::empty()
    } else {
        spec_pieces_upto(s, spans, k - 1).push(
            spec_byte_text(s, spec_prev_end(spans, k - 1), spans[k - 1].0),
        )
    }
}

/// `s` split around the matches: the piece before each match, then the rest.
pub open spec fn spec_split_pieces(s: Seq<char>, spans: Seq<(int, int)>) -> Seq<Seq<char>> {
    spec_pieces_upto(s, spans, spans.len() as int).push(
        spec_byte_text(
            s,
            spec_prev_end(spans, spans.len() as int),
            vstd::utf8::encode_utf8(s).len() as int,
        ),
    )
}

/// The pieces of at least `min_len` characters, in order.
pub open spec fn spec_keep_long(pieces: Seq<Seq<char>>, min_len: nat) -> Seq<Seq<char>>
    decreases pieces.len(),
{
    if pieces.len() == 0 {
        Seq::empty()
    } else {
        let rest = spec_keep_long(pieces.drop_last(), min_len);
        if pieces.last().len() >= min_len {
            rest.push(pieces.last())
        } else {
            rest
        }
    }
}

/// The pieces of `msgid` around the placeholder matches at `spans`, keeping
/// those of at least `min_len` characters; none when there is no match.
pub open spec fn spec_fragments_around(msgid: Seq<char>, spans: Seq<(int, int)>, min_len: nat) -> Seq<
    Seq<char>,
> {
    if spans.len() > 0 {
        spec_keep_long(spec_split_pieces(msgid, spans), min_len)
    } else {
        Seq::empty()
    }
}

/// The static fragments of a msgid around its placeholders, keeping those of
/// at least `min_len` characters; none when it carries no placeholder.
pub open spec fn spec_skeleton_fragments(msgid: Seq<char>, min_len: nat) -> Seq<Seq<char>> {
    match regex_find_all(placeholder_pattern(), msgid) {
        Some(spans) => spec_fragments_around(msgid, spans, min_len),
        None => Seq::empty(),
    }
}

/// Split a msgid into its static fragments around placeholders, keeping only
/// fragments of at least `min_len` characters. Empty when the msgid carries no
/// placeholder at all — the skeleton tier applies only to such keys.
pub fn skeleton_fragments(msgid: &str, min_len: usize) -> (r: Vec<String>)
    ensures
        strings_view(r@) == spec_skeleton_fragments(msgid@, min_len as nat),
{
    match find_all(placeholder_pattern_str(), msgid) {
        None => Vec::new(),
        Some(spans) => fragments_around(msgid, &spans, min_len),
    }
}

/// Split `msgid` around the placeholder matches at the byte ranges `spans`
/// (in order), keeping the pieces of at least `min_len` characters: the piece
/// before each match, then the rest. Empty when there is no match.
pub fn fragments_around(msgid: &str, spans: &Vec<(usize, usize)>, min_len: usize) -> (r: Vec<String>)
    ensures
        strings_view(r@) == spec_fragments_around(msgid@, spans_view(spans@), min_len as nat),
{
    if spans.len() == 0 {
        return Vec::new();
    }
    let ghost sv = spans_view(spans@);
    let mut out: Vec<String> = Vec::new();
    let mut last: usize = 0;
    let mut k: usize = 0;
    while k < spans.len()
        invariant
            sv == spans_view(spans@),
            k <= spans.len(),
            last as int == spec_prev_end(sv, k as int),
            strings_view(out@) == spec_keep_long(
                spec_pieces_upto(msgid@, sv, k as int),
                min_len as nat,
            ),
        decreases spans.len() - k,
    {
        let (start, end) = spans[k];
        assert(sv[k as int] == (start as int, end as int));
        let piece = byte_text(msgid, last, start);
        let ghost pieces = spec_pieces_upto(msgid@, sv, k + 1);
        assert(pieces.drop_last() =~= spec_pieces_upto(msgid@, sv, k as int));
        if chars_of(piece.as_str()).len() >= min_len {
            let ghost before = out@;
            out.push(piece);
            assert(strings_view(out@) =~= strings_view(before).push(pieces.last()));
        }
        last = end;
        k = k + 1;
    }
    let total = msgid.as_bytes().len();
    let piece = byte_text(msgid, last, total);
    let ghost pieces = spec_split_pieces(msgid@, sv);
    assert(pieces.drop_last() =~= spec_pieces_upto(msgid@, sv, sv.len() as int));
    if chars_of(piece.as_str()).len() >= min_len {
        let ghost before = out@;
        out.push(piece);
        assert(strings_view(out@) =~= strings_view(before).push(pieces.last()));
    }
    out
}

#[verifier::external_type_specification]
#[verifier::external_body]
pub struct ExAhoCorasick(aho_corasick::AhoCorasick);

#[verifier::external_type_specification]
#[verifier::external_body]
pub struct ExBuildError(aho_corasick::BuildError);

/// The patterns an automaton was built from, in pattern-id order.
pub uninterp spec fn ac_patterns(ac: aho_corasick::AhoCorasick) -> Seq<Seq<char>>;

/// Whether `AhoCorasick::new` builds an automaton over these patterns (it
/// fails past its internal size limits).
pub uninterp spec fn ac_builds(patterns: Seq<Seq<char>>) -> bool;

/// `AhoCorasick::new` over the patterns, with the default (standard) match
/// semantics. Claims that success is a function of the patterns alone (named
/// `ac_builds`; the limits themselves are not stated) and that a built
/// automaton holds exactly these patterns, in order.
#[verifier::external_body]
fn automaton_new(patterns: &Vec<String>) -> (r: Result<aho_corasick::AhoCorasick, aho_corasick::BuildError>)
    ensures
        r is Ok <==> ac_builds(strings_view(patterns@)),
        r matches Ok(ac) ==> ac_patterns(ac) == strings_view(patterns@),
{
    aho_corasick::AhoCorasick::new(patterns)
}

/// `AhoCorasick::find_overlapping_iter`: every match at every position, of
/// which only the pattern ids are kept. Claims what its documentation states:
/// a pattern's id is reported exactly when the pattern occurs in the text.
#[verifier::external_body]
fn automaton_matched_ids(ac: &aho_corasick::AhoCorasick, haystack: &str) -> (r: Vec<usize>)
    ensures
        forall|k: int| 0 <= k < r.len() ==> #[trigger] r@[k] < ac_patterns(*ac).len(),
        forall|p: int|
            0 <= p < ac_patterns(*ac).len() ==> (r@.contains(p as usize) <==> spec_contains_seq(
                haystack@,
                #[trigger] ac_patterns(*ac)[p],
            )),
{
    ac.find_overlapping_iter(haystack).map(|m| m.pattern().as_usize()).collect()
}

/// The strongest residual trace a dead key leaves in source.
#[derive(Debug, Clone, Copy, PartialEq, Eq, Structural)]
pub enum Trace {
    /// The full msgid appears as a raw substring somewhere in source.
    Substring,
    /// A placeholder key whose static fragments all appear in source.
    Skeleton,
    /// No trace of any kind — high-confidence dead.
    NoTrace,
}

/// Aggregated audit result over the `Dead` bucket.
#[derive(Debug)]
pub struct AuditReport {
    pub dead_total: usize,
    pub no_trace: usize,
    pub substring: usize,
    pub skeleton: usize,
    /// The keys that left a trace (the recheck list) with their tier, sorted by
    /// `(msgctxt, msgid)`. Keys without a trace are omitted.
    pub traced: Vec<(PoKey, Trace)>,
}

/// The mathematical value of an audit report.
pub type AuditView = (nat, nat, nat, nat, Seq<(KeyView, Trace)>);

impl View for AuditReport {
    type V = AuditView;

    open spec fn view(&self) -> AuditView {
        (
            self.dead_total as nat,
            self.no_trace as nat,
            self.substring as nat,
            self.skeleton as nat,
            keyed_view(self.traced@),
        )
    }
}

/// Why an audit could not run.
#[derive(Debug, Clone, Copy, PartialEq, Eq, Structural)]
pub enum AuditError {
    /// The search automaton over the dead keys' patterns could not be built.
    PatternSetTooLarge,
}

/// `p` occurs in one of the source texts.
pub open spec fn spec_occurs_in(sources: Seq<Seq<char>>, p: Seq<char>) -> bool {
    exists|f: int| 0 <= f < sources.len() && spec_contains_seq(#[trigger] sources[f], p)
}

/// The search patterns of a key: its msgid, then its skeleton fragments; none
/// for an empty msgid.
pub open spec fn spec_key_patterns(msgid: Seq<char>, min_len: nat) -> Seq<Seq<char>> {
    if msgid.len() == 0 {
        Seq::empty()
    } else {
        seq![msgid] + spec_skeleton_fragments(msgid, min_len)
    }
}

/// The search patterns of the first `k` keys, in order.
pub open spec fn spec_patterns_upto(dead: Seq<KeyView>, min_len: nat, k: int) -> Seq<Seq<char>>
    decreases k,
{
    if k <= 0 {
        Seq::empty()
    } else {
        spec_patterns_upto(dead, min_len, k - 1) + spec_key_patterns(dead[k - 1].1, min_len)
    }
}

/// The skeleton fragments of a key's msgid; none for an empty msgid.
pub open spec fn spec_key_fragments(msgid: Seq<char>, min_len: nat) -> Seq<Seq<char>> {
    if msgid.len() == 0 {
        Seq::empty()
    } else {
        spec_skeleton_fragments(msgid, min_len)
    }
}

/// Every one of the texts `ps` occurs in one of the source texts.
pub open spec fn spec_all_occur(sources: Seq<Seq<char>>, ps: Seq<Seq<char>>) -> bool {
    forall|j: int| 0 <= j < ps.len() ==> spec_occurs_in(sources, #[trigger] ps[j])
}

/// The trace a msgid leaves in the source texts.
pub open spec fn spec_trace(msgid: Seq<char>, sources: Seq<Seq<char>>, min_len: nat) -> Trace {
    let frags = spec_key_fragments(msgid, min_len);
    if msgid.len() > 0 && spec_occurs_in(sources, msgid) {
        Trace::Substring
    } else if frags.len() > 0 && spec_all_occur(sources, frags) {
        Trace::Skeleton
    } else {
        Trace::NoTrace
    }
}

/// How many of the first `k` keys leave trace `t`.
pub open spec fn spec_count_trace(
    dead: Seq<KeyView>,
    sources: Seq<Seq<char>>,
    min_len: nat,
    t: Trace,
    k: int,
) -> nat
    decreases k,
{
    if k <= 0 {
        0
    } else {
        spec_count_trace(dead, sources, min_len, t, k - 1) + if spec_trace(
            dead[k - 1].1,
            sources,
            min_len,
        ) == t {
            1nat
        } else {
            0nat
        }
    }
}

/// The first `k` keys that leave a trace, with their tier, in input order.
pub open spec fn spec_traced_upto(
    dead: Seq<KeyView>,
    sources: Seq<Seq<char>>,
    min_len: nat,
    k: int,
) -> Seq<(KeyView, Trace)>
    decreases k,
{
    if k <= 0 {
        Seq::empty()
    } else {
        let prev = spec_traced_upto(dead, sources, min_len, k - 1);
        let t = spec_trace(dead[k - 1].1, sources, min_len);
        if t == Trace::NoTrace {
            prev
        } else {
            prev.push((dead[k - 1], t))
        }
    }
}

/// The audit of the dead keys against the source texts: the number of dead
/// keys, how many leave no trace, a substring trace, a skeleton trace, and
/// the traced keys with their tier, sorted by `(msgctxt, msgid)`.
pub open spec fn spec_audit(dead: Seq<KeyView>, sources: Seq<Seq<char>>, min_len: nat) -> AuditView {
    let n = dead.len() as int;
    (
        dead.len(),
        spec_count_trace(dead, sources, min_len, Trace::NoTrace, n),
        spec_count_trace(dead, sources, min_len, Trace::Substring, n),
        spec_count_trace(dead, sources, min_len, Trace::Skeleton, n),
        spec_sort_by_key(spec_traced_upto(dead, sources, min_len, n)),
    )
}

/// The patterns of the first `k` keys are a prefix of those of the first `m`.
pub proof fn lemma_patterns_prefix(dead: Seq<KeyView>, min_len: nat, k: int, m: int)
    requires
        0 <= k <= m,
    ensures
        spec_patterns_upto(dead, min_len, k) =~= spec_patterns_upto(dead, min_len, m).take(
            spec_patterns_upto(dead, min_len, k).len() as int,
        ),
        spec_patterns_upto(dead, min_len, k).len() <= spec_patterns_upto(dead, min_len, m).len(),
    decreases m - k,
{
    if k < m {
        lemma_patterns_prefix(dead, min_len, k, m - 1);
    }
}

/// Every key's search patterns, with the position where each key's run
/// starts.
fn collect_patterns(dead: &[PoKey], min_guard_len: usize) -> (r: (Vec<String>, Vec<usize>, Vec<usize>))
    ensures
        strings_view(r.0@) == spec_patterns_upto(keys_view(dead@), min_guard_len as nat, dead.len() as int),
        r.1.len() == dead.len(),
        r.2.len() == dead.len(),
        forall|i: int|
            0 <= i < dead.len() ==> #[trigger] r.2@[i] == spec_key_patterns(
                keys_view(dead@)[i].1,
                min_guard_len as nat,
            ).len(),
        forall|i: int|
            0 <= i < dead.len() ==> #[trigger] r.1@[i] == spec_patterns_upto(
                keys_view(dead@),
                min_guard_len as nat,
                i,
            ).len(),
{
    let ghost dv = keys_view(dead@);
    let ghost min = min_guard_len as nat;
    let mut patterns: Vec<String> = Vec::new();
    let mut starts: Vec<usize> = Vec::new();
    let mut counts: Vec<usize> = Vec::new();
    let mut i: usize = 0;
    while i < dead.len()
        invariant
            dv == keys_view(dead@),
            min == min_guard_len as nat,
            i <= dead.len(),
            strings_view(patterns@) == spec_patterns_upto(dv, min, i as int),
            starts.len() == i,
            counts.len() == i,
            forall|j: int|
                0 <= j < i ==> #[trigger] starts@[j] == spec_patterns_upto(dv, min, j).len(),
            forall|j: int|
                0 <= j < i ==> #[trigger] counts@[j] == spec_key_patterns(dv[j].1, min).len(),
        decreases dead.len() - i,
    {
        assert(dv[i as int] == dead@[i as int]@);
        let start = patterns.len();
        starts.push(start);
        let msgid = &dead[i].msgid;
        if !msgid.as_str().is_empty() {
            let ghost before = strings_view(patterns@);
            patterns.push(msgid.clone());
            let frags = skeleton_fragments(msgid.as_str(), min_guard_len);
            let mut j: usize = 0;
            while j < frags.len()
                invariant
                    j <= frags.len(),
                    strings_view(patterns@) == before + seq![msgid@] + strings_view(frags@).take(
                        j as int,
                    ),
                decreases frags.len() - j,
            {
                let ghost mid = strings_view(patterns@);
                patterns.push(frags[j].clone());
                assert(strings_view(patterns@) =~= mid.push(frags@[j as int]@));
                assert(strings_view(frags@).take(j + 1) =~= strings_view(frags@).take(j as int).push(
                    frags@[j as int]@,
                ));
                j = j + 1;
            }
            assert(strings_view(frags@).take(frags.len() as int) =~= strings_view(frags@));
            assert(strings_view(patterns@) =~= spec_patterns_upto(dv, min, i + 1));
        } else {
            assert(spec_patterns_upto(dv, min, i + 1) =~= spec_patterns_upto(dv, min, i as int));
        }
        counts.push(patterns.len() - start);
        i = i + 1;
    }
    (patterns, starts, counts)
}

/// For each pattern, whether it occurs in one of the source texts.
fn occurrences(ac: &aho_corasick::AhoCorasick, n: usize, sources: &[String]) -> (r: Vec<bool>)
    requires
        n == ac_patterns(*ac).len(),
    ensures
        r.len() == n,
        forall|p: int|
            0 <= p < n ==> #[trigger] r@[p] == spec_occurs_in(strings_view(sources@), ac_patterns(*ac)[p]),
{
    let ghost pats = ac_patterns(*ac);
    let ghost sv = strings_view(sources@);
    let mut hit: Vec<bool> = Vec::new();
    let mut p: usize = 0;
    while p < n
        invariant
            p <= n,
            hit.len() == p,
            forall|q: int| 0 <= q < p ==> !#[trigger] hit@[q],
        decreases n - p,
    {
        hit.push(false);
        p = p + 1;
    }
    let mut f: usize = 0;
    while f < sources.len()
        invariant
            pats == ac_patterns(*ac),
            n == pats.len(),
            sv == strings_view(sources@),
            f <= sources.len(),
            hit.len() == n,
            forall|q: int|
                0 <= q < n ==> #[trigger] hit@[q] == spec_occurs_in(sv.take(f as int), pats[q]),
        decreases sources.len() - f,
    {
        let ids = automaton_matched_ids(ac, sources[f].as_str());
        let ghost before = hit@;
        let mut k: usize = 0;
        while k < ids.len()
            invariant
                hit.len() == n,
                n == pats.len(),
                pats == ac_patterns(*ac),
                k <= ids.len(),
                forall|m: int| 0 <= m < ids.len() ==> #[trigger] ids@[m] < n,
                forall|q: int|
                    0 <= q < n ==> #[trigger] hit@[q] == (before[q] || ids@.take(k as int).contains(
                        q as usize,
                    )),
            decreases ids.len() - k,
        {
            let id = ids[k];
            hit.set(id, true);
            proof {
                let t0 = ids@.take(k as int);
                let t1 = ids@.take(k + 1);
                assert(t1 =~= t0.push(id));
                assert forall|q: int| 0 <= q < n implies #[trigger] hit@[q] == (before[q]
                    || t1.contains(q as usize)) by {
                    if t0.contains(q as usize) {
                        let m = choose|m: int| 0 <= m < t0.len() && #[trigger] t0[m] == q as usize;
                        assert(t1[m] == q as usize);
                    }
                    if t1.contains(q as usize) && !t0.contains(q as usize) {
                        let m = choose|m: int| 0 <= m < t1.len() && #[trigger] t1[m] == q as usize;
                        if m < k {
                            assert(t0[m] == q as usize);
                        }
                    }
                    if q == id as int {
                        assert(t1[k as int] == id);
                    }
                }
            }
            k = k + 1;
        }
        proof {
            assert(ids@.take(ids.len() as int) =~= ids@);
            assert forall|q: int| 0 <= q < n implies #[trigger] hit@[q] == spec_occurs_in(
                sv.take(f + 1),
                pats[q],
            ) by {
                assert(sv.take(f + 1)[f as int] == sources@[f as int]@);
                if spec_occurs_in(sv.take(f + 1), pats[q]) {
                    let g = choose|g: int|
                        0 <= g < sv.take(f + 1).len() && spec_contains_seq(
                            #[trigger] sv.take(f + 1)[g],
                            pats[q],
                        );
                    if g < f {
                        assert(sv.take(f as int)[g] == sv.take(f + 1)[g]);
                    }
                }
                if spec_occurs_in(sv.take(f as int), pats[q]) {
                    let g = choose|g: int|
                        0 <= g < sv.take(f as int).len() && spec_contains_seq(
                            #[trigger] sv.take(f as int)[g],
                            pats[q],
                        );
                    assert(sv.take(f + 1)[g] == sv.take(f as int)[g]);
                }
            }
        }
        f = f + 1;
    }
    assert(sv.take(sources.len() as int) =~= sv);
    hit
}

/// Whether auditing these dead keys fails: there are patterns to search for
/// and no automaton can be built over them.
pub open spec fn spec_audit_fails(dead: Seq<KeyView>, min_len: nat) -> bool {
    let p = spec_patterns_upto(dead, min_len, dead.len() as int);
    p.len() > 0 && !ac_builds(p)
}

/// Audit the dead keys against the raw source texts (one text per source
/// file that could be read). Pure measurement: verdicts are untouched. Fails
/// only when there are patterns to search for and the search automaton over
/// them cannot be built.
pub fn audit(dead: &[PoKey], sources: &[String], min_guard_len: usize) -> (r: Result<
    AuditReport,
    AuditError,
>)
    ensures
        r matches Ok(rep) ==> rep@ == spec_audit(
            keys_view(dead@),
            strings_view(sources@),
            min_guard_len as nat,
        ),
        r is Err <==> spec_audit_fails(keys_view(dead@), min_guard_len as nat),
{
    let ghost dv = keys_view(dead@);
    let ghost sv = strings_view(sources@);
    let ghost min = min_guard_len as nat;
    let (patterns, starts, counts) = collect_patterns(dead, min_guard_len);
    let ghost pv = strings_view(patterns@);
    let occurs: Vec<bool> = if patterns.len() == 0 {
        Vec::new()
    } else {
        let ac = match automaton_new(&patterns) {
            Ok(a) => a,
            Err(_) => return Err(AuditError::PatternSetTooLarge),
        };
        occurrences(&ac, patterns.len(), sources)
    };
    assert(occurs.len() == pv.len());
    assert(forall|p: int| 0 <= p < pv.len() ==> #[trigger] occurs@[p] == spec_occurs_in(sv, pv[p]));
    let n = dead.len();
    let mut no_trace: usize = 0;
    let mut substring: usize = 0;
    let mut skeleton: usize = 0;
    let mut traced: Vec<(PoKey, Trace)> = Vec::new();
    let mut i: usize = 0;
    while i < n
        invariant
            n == dead.len(),
            dv == keys_view(dead@),
            sv == strings_view(sources@),
            min == min_guard_len as nat,
            pv == strings_view(patterns@),
            pv == spec_patterns_upto(dv, min, n as int),
            starts.len() == n,
            counts.len() == n,
            forall|j: int| 0 <= j < n ==> #[trigger] starts@[j] == spec_patterns_upto(dv, min, j).len(),
            forall|j: int| 0 <= j < n ==> #[trigger] counts@[j] == spec_key_patterns(dv[j].1, min).len(),
            occurs.len() == pv.len(),
            forall|p: int| 0 <= p < pv.len() ==> #[trigger] occurs@[p] == spec_occurs_in(sv, pv[p]),
            i <= n,
            no_trace <= i,
            substring <= i,
            skeleton <= i,
            no_trace == spec_count_trace(dv, sv, min, Trace::NoTrace, i as int),
            substring == spec_count_trace(dv, sv, min, Trace::Substring, i as int),
            skeleton == spec_count_trace(dv, sv, min, Trace::Skeleton, i as int),
            keyed_view(traced@) == spec_traced_upto(dv, sv, min, i as int),
        decreases n - i,
    {
        let ghost msgid = dv[i as int].1;
        let ghost kp = spec_key_patterns(msgid, min);
        assert(dv[i as int] == dead@[i as int]@);
        let s = starts[i];
        let c = counts[i];
        proof {
            lemma_patterns_prefix(dv, min, i + 1, n as int);
            assert(spec_patterns_upto(dv, min, i + 1) == spec_patterns_upto(dv, min, i as int) + kp);
            assert forall|m: int| 0 <= m < kp.len() implies #[trigger] pv[s + m] == kp[m] by {
                assert(spec_patterns_upto(dv, min, i + 1)[s + m] == kp[m]);
            }
        }
        let trace = if dead[i].msgid.as_str().is_empty() {
            assert(msgid.len() == 0);
            assert(Trace::NoTrace == spec_trace(msgid, sv, min));
            Trace::NoTrace
        } else if occurs[s] {
            assert(kp =~= seq![msgid] + spec_skeleton_fragments(msgid, min));
            assert(kp[0] == msgid);
            assert(pv[s + 0] == kp[0]);
            assert(spec_occurs_in(sv, msgid));
            assert(Trace::Substring == spec_trace(msgid, sv, min));
            Trace::Substring
        } else {
            let ghost frags = spec_skeleton_fragments(msgid, min);
            assert(kp =~= seq![msgid] + frags);
            assert(kp[0] == msgid);
            assert(pv[s + 0] == kp[0]);
            assert(!spec_occurs_in(sv, msgid));
            let fc = c - 1;
            let mut all = fc > 0;
            let mut j: usize = 0;
            while j < fc
                invariant
                    fc == frags.len(),
                    kp == seq![msgid] + frags,
                    j <= fc,
                    s + c <= pv.len(),
                    c == kp.len(),
                    occurs.len() == pv.len(),
                    forall|p: int| 0 <= p < pv.len() ==> #[trigger] occurs@[p] == spec_occurs_in(sv, pv[p]),
                    forall|m: int| 0 <= m < kp.len() ==> #[trigger] pv[s + m] == kp[m],
                    all == (fc > 0 && forall|jj: int| 0 <= jj < j ==> spec_occurs_in(sv, #[trigger] frags[jj])),
                decreases fc - j,
            {
                assert(pv[s + (j + 1)] == kp[j + 1]);
                assert(kp[j + 1] == frags[j as int]);
                if !occurs[s + 1 + j] {
                    all = false;
                }
                j = j + 1;
            }
            assert(msgid.len() > 0);
            if all {
                assert(Trace::Skeleton == spec_trace(msgid, sv, min));
                Trace::Skeleton
            } else {
                proof {
                    if fc > 0 {
                        let jj = choose|jj: int|
                            0 <= jj < fc && !spec_occurs_in(sv, #[trigger] frags[jj]);
                        assert(!spec_occurs_in(sv, frags[jj]));
                    }
                }
                assert(Trace::NoTrace == spec_trace(msgid, sv, min));
                Trace::NoTrace
            }
        };
        assert(trace == spec_trace(msgid, sv, min));
        match trace {
            Trace::NoTrace => {
                no_trace = no_trace + 1;
            },
            Trace::Substring => {
                substring = substring + 1;
                traced.push((dead[i].copy(), trace));
            },
            Trace::Skeleton => {
                skeleton = skeleton + 1;
                traced.push((dead[i].copy(), trace));
            },
        }
        i = i + 1;
    }
    let sorted = sort_by_key(traced);
    Ok(AuditReport { dead_total: n, no_trace, substring, skeleton, traced: sorted })
}

/// The three tiers split the keys, and exactly the traced keys are listed.
proof fn lemma_tiers_split(dead: Seq<KeyView>, sources: Seq<Seq<char>>, min_len: nat, k: int)
    requires
        0 <= k <= dead.len(),
    ensures
        spec_count_trace(dead, sources, min_len, Trace::NoTrace, k) + spec_count_trace(
            dead,
            sources,
            min_len,
            Trace::Substring,
            k,
        ) + spec_count_trace(dead, sources, min_len, Trace::Skeleton, k) == k,
        spec_traced_upto(dead, sources, min_len, k).len() == spec_count_trace(
            dead,
            sources,
            min_len,
            Trace::Substring,
            k,
        ) + spec_count_trace(dead, sources, min_len, Trace::Skeleton, k),
        forall|i: int|
            0 <= i < spec_traced_upto(dead, sources, min_len, k).len() ==> #[trigger] spec_traced_upto(
                dead,
                sources,
                min_len,
                k,
            )[i].1 != Trace::NoTrace,
    decreases k,
{
    if k > 0 {
        lemma_tiers_split(dead, sources, min_len, k - 1);
    }
}

/// Audit accounting: every dead key lands in exactly one tier (no trace,
/// substring, skeleton); the recheck list holds exactly the keys that left a
/// trace — each with its tier, none without one — sorted by
/// `(msgctxt, msgid)`.
pub proof fn lemma_audit_accounting(dead: Seq<KeyView>, sources: Seq<Seq<char>>, min_len: nat)
    ensures
        spec_audit(dead, sources, min_len).1 + spec_audit(dead, sources, min_len).2 + spec_audit(
            dead,
            sources,
            min_len,
        ).3 == spec_audit(dead, sources, min_len).0,
        spec_audit(dead, sources, min_len).4.len() == spec_audit(dead, sources, min_len).2
            + spec_audit(dead, sources, min_len).3,
        spec_audit(dead, sources, min_len).4.to_multiset() =~= spec_traced_upto(
            dead,
            sources,
            min_len,
            dead.len() as int,
        ).to_multiset(),
        spec_sorted_by_key(spec_audit(dead, sources, min_len).4),
        forall|i: int|
            0 <= i < spec_audit(dead, sources, min_len).4.len() ==> #[trigger] spec_audit(
                dead,
                sources,
                min_len,
            ).4[i].1 != Trace::NoTrace,
{
    let n = dead.len() as int;
    let t = spec_traced_upto(dead, sources, min_len, n);
    lemma_tiers_split(dead, sources, min_len, n);
    lemma_sort_by_key(t);
    let r = spec_sort_by_key(t);
    assert forall|i: int| 0 <= i < r.len() implies #[trigger] r[i].1 != Trace::NoTrace by {
        assert(r.to_multiset().count(r[i]) > 0) by {
            vstd::seq_lib::to_multiset_contains(r, r[i]);
        }
        vstd::seq_lib::to_multiset_contains(t, r[i]);
        let j = choose|j: int| 0 <= j < t.len() && t[j] == r[i];
        assert(t[j].1 != Trace::NoTrace);
    }
}

/// Source texts with the same occurrences give the same traces, counts and
/// recheck list, up to `k` keys.
proof fn lemma_same_occurrences_same_audit(
    dead: Seq<KeyView>,
    s1: Seq<Seq<char>>,
    s2: Seq<Seq<char>>,
    min_len: nat,
    k: int,
)
    requires
        forall|p: Seq<char>| spec_occurs_in(s1, p) == spec_occurs_in(s2, p),
    ensures
        forall|t: Trace|
            #[trigger] spec_count_trace(dead, s1, min_len, t, k) == spec_count_trace(
                dead,
                s2,
                min_len,
                t,
                k,
            ),
        spec_traced_upto(dead, s1, min_len, k) == spec_traced_upto(dead, s2, min_len, k),
    decreases k,
{
    if k > 0 {
        lemma_same_occurrences_same_audit(dead, s1, s2, min_len, k - 1);
        let m = dead[k - 1].1;
        let frags = spec_key_fragments(m, min_len);
        assert(spec_all_occur(s1, frags) == spec_all_occur(s2, frags));
        assert(spec_trace(m, s1, min_len) == spec_trace(m, s2, min_len));
        assert forall|t: Trace| #[trigger]
            spec_count_trace(dead, s1, min_len, t, k) == spec_count_trace(dead, s2, min_len, t, k) by {
            assert(spec_count_trace(dead, s1, min_len, t, k - 1) == spec_count_trace(
                dead,
                s2,
                min_len,
                t,
                k - 1,
            ));
        }
    }
}

/// The audit depends only on which source texts there are: their order and
/// repetitions do not change it.
pub proof fn lemma_audit_ignores_source_order(
    dead: Seq<KeyView>,
    s1: Seq<Seq<char>>,
    s2: Seq<Seq<char>>,
    min_len: nat,
)
    requires
        s1.to_set() == s2.to_set(),
    ensures
        spec_audit(dead, s1, min_len) == spec_audit(dead, s2, min_len),
{
    assert forall|p: Seq<char>| spec_occurs_in(s1, p) == spec_occurs_in(s2, p) by {
        if spec_occurs_in(s1, p) {
            let f = choose|f: int| 0 <= f < s1.len() && spec_contains_seq(#[trigger] s1[f], p);
            assert(s1.to_set().contains(s1[f]));
            assert(s2.to_set().contains(s1[f]));
            let g = choose|g: int| 0 <= g < s2.len() && s2[g] == s1[f];
            assert(spec_contains_seq(s2[g], p));
        }
        if spec_occurs_in(s2, p) {
            let f = choose|f: int| 0 <= f < s2.len() && spec_contains_seq(#[trigger] s2[f], p);
            assert(s2.to_set().contains(s2[f]));
            assert(s1.to_set().contains(s2[f]));
            let g = choose|g: int| 0 <= g < s1.len() && s1[g] == s2[f];
            assert(spec_contains_seq(s1[g], p));
        }
    }
    lemma_same_occurrences_same_audit(dead, s1, s2, min_len, dead.len() as int);
}


/// Some source text contains `p`.
pub open spec fn spec_in_some_source(sources: Seq<Seq<char>>, p: Seq<char>) -> bool {
    exists|f: int| 0 <= f < sources.len() && spec_contains_seq(#[trigger] sources[f], p)
}

/// The audit tiers, as documented: a key leaves a substring trace exactly
/// when its (non-empty) msgid occurs in some source text; a skeleton trace
/// exactly when it does not, yet its msgid has at least one skeleton
/// fragment and every one of those fragments occurs in some source text —
/// one fragment alone is not enough; otherwise no trace.
pub proof fn lemma_trace_tiers(msgid: Seq<char>, sources: Seq<Seq<char>>, min_len: nat)
    ensures
        spec_trace(msgid, sources, min_len) == Trace::Substring <==> (msgid.len() > 0
            && spec_in_some_source(sources, msgid)),
        spec_trace(msgid, sources, min_len) == Trace::Skeleton <==> ({
            let frags = spec_skeleton_fragments(msgid, min_len);
            &&& msgid.len() > 0
            &&& !spec_in_some_source(sources, msgid)
            &&& frags.len() > 0
            &&& forall|j: int| 0 <= j < frags.len() ==> spec_in_some_source(sources, #[trigger] frags[j])
        }),
        spec_trace(msgid, sources, min_len) == Trace::Skeleton ==> forall|j: int|
            0 <= j < spec_skeleton_fragments(msgid, min_len).len() ==> spec_in_some_source(
                sources,
                #[trigger] spec_skeleton_fragments(msgid, min_len)[j],
            ),
{
}

/// Every entry of the first `k` traced keys is one of the dead keys, with
/// the trace that key leaves.
proof fn lemma_traced_entries(dead: Seq<KeyView>, sources: Seq<Seq<char>>, min_len: nat, k: int)
    requires
        0 <= k <= dead.len(),
    ensures
        forall|i: int|
            0 <= i < spec_traced_upto(dead, sources, min_len, k).len() ==> dead.contains(
                (#[trigger] spec_traced_upto(dead, sources, min_len, k)[i]).0,
            ) && spec_traced_upto(dead, sources, min_len, k)[i].1 == spec_trace(
                spec_traced_upto(dead, sources, min_len, k)[i].0.1,
                sources,
                min_len,
            ),
    decreases k,
{
    if k > 0 {
        lemma_traced_entries(dead, sources, min_len, k - 1);
        let prev = spec_traced_upto(dead, sources, min_len, k - 1);
        let cur = spec_traced_upto(dead, sources, min_len, k);
        assert forall|i: int| 0 <= i < cur.len() implies dead.contains((#[trigger] cur[i]).0)
            && cur[i].1 == spec_trace(cur[i].0.1, sources, min_len) by {
            if i < prev.len() {
                assert(cur[i] == prev[i]);
            } else {
                assert(cur[i].0 == dead[k - 1]);
            }
        }
    }
}

/// What the recheck list of an audit promises of each entry: it is a dead
/// key; a substring entry's msgid occurs in some source text; a skeleton
/// entry's msgid occurs in none, and every one of its skeleton fragments
/// (there is at least one) occurs in some source text.
pub proof fn lemma_audit_tiers(dead: Seq<KeyView>, sources: Seq<Seq<char>>, min_len: nat)
    ensures
        forall|i: int|
            0 <= i < spec_audit(dead, sources, min_len).4.len() ==> {
                let (k, t) = #[trigger] spec_audit(dead, sources, min_len).4[i];
                let frags = spec_skeleton_fragments(k.1, min_len);
                &&& dead.contains(k)
                &&& t == Trace::Substring ==> spec_in_some_source(sources, k.1)
                &&& t == Trace::Skeleton ==> {
                    &&& !spec_in_some_source(sources, k.1)
                    &&& frags.len() > 0
                    &&& forall|j: int| 0 <= j < frags.len() ==> spec_in_some_source(
                        sources,
                        #[trigger] frags[j],
                    )
                }
            },
{
    broadcast use vstd::seq_lib::to_multiset_contains;

    let n = dead.len() as int;
    let tr = spec_traced_upto(dead, sources, min_len, n);
    let rep = spec_audit(dead, sources, min_len);
    lemma_audit_accounting(dead, sources, min_len);
    lemma_traced_entries(dead, sources, min_len, n);
    assert forall|i: int| 0 <= i < rep.4.len() implies {
        let (k, t) = #[trigger] rep.4[i];
        let frags = spec_skeleton_fragments(k.1, min_len);
        &&& dead.contains(k)
        &&& t == Trace::Substring ==> spec_in_some_source(sources, k.1)
        &&& t == Trace::Skeleton ==> {
            &&& !spec_in_some_source(sources, k.1)
            &&& frags.len() > 0
            &&& forall|j: int| 0 <= j < frags.len() ==> spec_in_some_source(sources, #[trigger] frags[j])
        }
    } by {
        let e = rep.4[i];
        assert(rep.4.to_multiset().count(e) > 0);
        assert(tr.to_multiset().count(e) > 0);
        assert(tr.contains(e));
        let p = choose|p: int| 0 <= p < tr.len() && tr[p] == e;
        assert(e.1 == spec_trace(e.0.1, sources, min_len));
        lemma_trace_tiers(e.0.1, sources, min_len);
    }
}

} // verus!
