//! Twig adapter — regular expressions, not a tree. A literal `'key'|filter` is a
//! resolved key, any other use of the filter is a blind site, and every quoted
//! string feeds the Suspect tier.

use vstd::prelude::*;

use crate::config::{calls_view, CallKind, CallSpec, CallSpecView};
use crate::pattern::{
    captures_all, find_all, groups_view, regex_captures, regex_escape, regex_find_all,
    spec_regex_escape,
};
use crate::syntax::{byte_text, spec_byte_text};
use crate::text::{chars_of, contains_seq, push_str, spec_contains_seq};

use super::{insert_string, spec_insert_str, ExtractResult, ExtractView};

verus! {

/// Every quoted string of a template: its content is group 1 (single quotes)
/// or group 2 (double quotes).
pub open spec fn twig_strings_pattern() -> Seq<char> {
    "'([^'\\n]*)'|\"([^\"\\n]*)\""@
}

fn twig_strings_pattern_str() -> (r: &'static str)
    ensures
        r@ == twig_strings_pattern(),
{
    "'([^'\\n]*)'|\"([^\"\\n]*)\""
}

/// Any use of the filter `esc` (already escaped): `|name` at a word end.
pub open spec fn spec_total_pattern(esc: Seq<char>) -> Seq<char> {
    "\\|\\s*"@ + esc + "\\b"@
}

/// A quoted literal piped into the filter `esc`; group 1 is the key.
pub open spec fn spec_literal_pattern(esc: Seq<char>) -> Seq<char> {
    "['\"]([^'\"]*)['\"]\\s*\\|\\s*"@ + esc + "\\b"@
}

/// The text of group `k` of a match, if that group took part.
pub open spec fn spec_group_text(src: Seq<char>, g: Seq<Option<(int, int)>>, k: int) -> Option<
    Seq<char>,
> {
    if 0 <= k < g.len() {
        match g[k] {
            Some(p) => Some(spec_byte_text(src, p.0, p.1)),
            None => None,
        }
    } else {
        None
    }
}

/// The content of a quoted-string match: group 1, else group 2.
pub open spec fn spec_string_content(src: Seq<char>, g: Seq<Option<(int, int)>>) -> Option<Seq<char>> {
    match spec_group_text(src, g, 1) {
        Some(t) => Some(t),
        None => spec_group_text(src, g, 2),
    }
}

/// A text holds a Twig interpolation (`#{`).
pub open spec fn spec_interpolates(s: Seq<char>) -> bool {
    spec_contains_seq(s, seq!['#', '{'])
}

/// Add the static, non-empty contents of the quoted-string matches `ms`.
pub open spec fn spec_twig_source_literals(
    r: Seq<Seq<char>>,
    src: Seq<char>,
    ms: Seq<Seq<Option<(int, int)>>>,
) -> Seq<Seq<char>>
    decreases ms.len(),
{
    if ms.len() == 0 {
        r
    } else {
        let prev = spec_twig_source_literals(r, src, ms.drop_last());
        match spec_string_content(src, ms.last()) {
            Some(s) => if s.len() > 0 && !spec_interpolates(s) {
                spec_insert_str(prev, s)
            } else {
                prev
            },
            None => prev,
        }
    }
}

/// The static keys of the literal-filter matches `ms`, in order.
pub open spec fn spec_twig_keys(src: Seq<char>, ms: Seq<Seq<Option<(int, int)>>>) -> Seq<Seq<char>>
    decreases ms.len(),
{
    if ms.len() == 0 {
        Seq::empty()
    } else {
        let prev = spec_twig_keys(src, ms.drop_last());
        match spec_group_text(src, ms.last(), 1) {
            Some(k) => if !spec_interpolates(k) {
                prev.push(k)
            } else {
                prev
            },
            None => prev,
        }
    }
}

/// Add each of `ks`, in order, to a list of distinct strings.
pub open spec fn spec_insert_all(v: Seq<Seq<char>>, ks: Seq<Seq<char>>) -> Seq<Seq<char>>
    decreases ks.len(),
{
    if ks.len() == 0 {
        v
    } else {
        spec_insert_str(spec_insert_all(v, ks.drop_last()), ks.last())
    }
}

/// `a - b`, or 0 when `b` exceeds `a`.
pub open spec fn spec_sat_sub(a: nat, b: nat) -> nat {
    if a > b {
        (a - b) as nat
    } else {
        0
    }
}

/// `a + b`, capped at `usize::MAX`.
pub open spec fn spec_sat_add(a: nat, b: nat) -> nat {
    if a + b > usize::MAX {
        usize::MAX as nat
    } else {
        a + b
    }
}

/// One filter, given how many times it is used in all (`total`) and its
/// literal-use matches `ms`: the static keys join the literals, and every use
/// not resolved to a key is one more blind site.
pub open spec fn spec_twig_filter_apply(
    r: ExtractView,
    src: Seq<char>,
    total: nat,
    ms: Seq<Seq<Option<(int, int)>>>,
) -> ExtractView {
    let keys = spec_twig_keys(src, ms);
    (spec_insert_all(r.0, keys), r.1, spec_sat_add(r.2, spec_sat_sub(total, keys.len())), r.3)
}

/// One filter: its literal uses become keys; every other use is blind.
pub open spec fn spec_twig_filter(r: ExtractView, src: Seq<char>, name: Seq<char>) -> ExtractView {
    let esc = spec_regex_escape(name);
    let total: nat = match regex_find_all(spec_total_pattern(esc), src) {
        Some(ms) => ms.len(),
        None => 0,
    };
    let ms = match regex_captures(spec_literal_pattern(esc), src) {
        Some(ms) => ms,
        None => Seq::empty(),
    };
    spec_twig_filter_apply(r, src, total, ms)
}

/// Apply every filter spec among `calls`, in order.
pub open spec fn spec_twig_filters(r: ExtractView, src: Seq<char>, calls: Seq<CallSpecView>) -> ExtractView
    decreases calls.len(),
{
    if calls.len() == 0 {
        r
    } else {
        let prev = spec_twig_filters(r, src, calls.drop_last());
        if calls.last().kind == CallKind::Filter {
            spec_twig_filter(prev, src, calls.last().name)
        } else {
            prev
        }
    }
}

/// What a Twig template contributes: every static quoted string as a source
/// literal, then the keys and blind sites of each filter spec.
pub open spec fn spec_extract_twig(src: Seq<char>, calls: Seq<CallSpecView>) -> ExtractView {
    let ms = match regex_captures(twig_strings_pattern(), src) {
        Some(ms) => ms,
        None => Seq::empty(),
    };
    spec_twig_filters((Seq::empty(), Seq::empty(), 0, spec_twig_source_literals(Seq::empty(), src, ms)), src, calls)
}

/// The text of group `k` of a match, if that group took part.
fn group_text(src: &str, g: &Vec<Option<(usize, usize)>>, k: usize) -> (r: Option<String>)
    ensures
        match r {
            Some(t) => spec_group_text(src@, groups_view(g@), k as int) == Some(t@),
            None => spec_group_text(src@, groups_view(g@), k as int) is None,
        },
{
    if k < g.len() {
        match g[k] {
            Some(p) => Some(byte_text(src, p.0, p.1)),
            None => None,
        }
    } else {
        None
    }
}

/// Whether a text holds a Twig interpolation.
fn interpolates(s: &String) -> (r: bool)
    ensures
        r == spec_interpolates(s@),
{
    let marker: Vec<char> = vec!['#', '{'];
    contains_seq(chars_of(s.as_str()).as_slice(), marker.as_slice())
}

/// Apply one filter spec to a template.
fn twig_filter(res: &mut ExtractResult, src: &str, name: &str)
    ensures
        final(res)@ == spec_twig_filter(old(res)@, src@, name@),
{
    let esc = regex_escape(name);
    let mut total_pat = String::new();
    push_str(&mut total_pat, "\\|\\s*");
    push_str(&mut total_pat, esc.as_str());
    push_str(&mut total_pat, "\\b");
    let mut lit_pat = String::new();
    push_str(&mut lit_pat, "['\"]([^'\"]*)['\"]\\s*\\|\\s*");
    push_str(&mut lit_pat, esc.as_str());
    push_str(&mut lit_pat, "\\b");
    proof {
        assert(total_pat@ =~= spec_total_pattern(esc@));
        assert(lit_pat@ =~= spec_literal_pattern(esc@));
    }
    let total: usize = match find_all(total_pat.as_str(), src) {
        Some(ms) => ms.len(),
        None => 0,
    };
    let ms = match captures_all(lit_pat.as_str(), src) {
        None => Vec::new(),
        Some(ms) => ms,
    };
    proof {
        if regex_captures(spec_literal_pattern(esc@), src@) is None {
            assert(crate::pattern::captures_view(ms@) =~= Seq::<Seq<Option<(int, int)>>>::empty());
        }
    }
    apply_twig_filter_matches(res, src, total, &ms);
}

/// Apply one filter to a template, given the number of its uses (`total`)
/// and the capture groups of its literal uses (`matches`, group 1 the key):
/// each static key joins the literals, and the uses left unresolved are
/// added to the blind count (saturating).
pub fn apply_twig_filter_matches(
    res: &mut ExtractResult,
    src: &str,
    total: usize,
    matches: &Vec<Vec<Option<(usize, usize)>>>,
)
    ensures
        final(res)@ == spec_twig_filter_apply(
            old(res)@,
            src@,
            total as nat,
            crate::pattern::captures_view(matches@),
        ),
{
    let ms = matches;
    let ghost mut keys: Seq<Seq<char>> = Seq::empty();
    let ghost r0 = res@;
    let ghost lits0 = res@.0;
    let mut kept: usize = 0;
    let ghost mv = crate::pattern::captures_view(ms@);
    let mut i: usize = 0;
    while i < ms.len()
        invariant
            mv == crate::pattern::captures_view(ms@),
            i <= ms.len(),
            keys == spec_twig_keys(src@, mv.take(i as int)),
            kept == keys.len(),
            kept <= i,
            res@.0 == spec_insert_all(lits0, keys),
            res@.1 == r0.1,
            res@.2 == r0.2,
            res@.3 == r0.3,
        decreases ms.len() - i,
    {
        assert(mv.take(i + 1).drop_last() =~= mv.take(i as int));
        assert(mv.take(i + 1).last() == groups_view(ms@[i as int]@));
        match group_text(src, &ms[i], 1) {
            Some(k) => {
                if !interpolates(&k) {
                    proof {
                        assert(keys.push(k@).drop_last() =~= keys);
                        keys = keys.push(k@);
                    }
                    insert_string(&mut res.literals, k);
                    kept = kept + 1;
                }
            },
            None => {},
        }
        i = i + 1;
    }
    assert(mv.take(ms.len() as int) =~= mv);
    let extra = total.saturating_sub(kept);
    res.blind = res.blind.saturating_add(extra);
}

/// The static, non-empty, non-interpolated contents of the quoted-string
/// matches `matches` (group 1 for single quotes, else group 2), each once, in
/// order of first appearance.
pub fn twig_source_literals(source: &str, matches: &Vec<Vec<Option<(usize, usize)>>>) -> (r: Vec<String>)
    ensures
        crate::text::strings_view(r@) == spec_twig_source_literals(
            Seq::empty(),
            source@,
            crate::pattern::captures_view(matches@),
        ),
{
    let ms = matches;
    let mut out: Vec<String> = Vec::new();
    let ghost mv = crate::pattern::captures_view(ms@);
    let mut i: usize = 0;
    while i < ms.len()
        invariant
            mv == crate::pattern::captures_view(ms@),
            i <= ms.len(),
            crate::text::strings_view(out@) == spec_twig_source_literals(Seq::empty(), source@, mv.take(i as int)),
        decreases ms.len() - i,
    {
        assert(mv.take(i + 1).drop_last() =~= mv.take(i as int));
        assert(mv.take(i + 1).last() == groups_view(ms@[i as int]@));
        let content = match group_text(source, &ms[i], 1) {
            Some(t) => Some(t),
            None => group_text(source, &ms[i], 2),
        };
        match content {
            Some(s) => {
                if !s.as_str().is_empty() && !interpolates(&s) {
                    insert_string(&mut out, s);
                }
            },
            None => {},
        }
        i = i + 1;
    }
    assert(mv.take(ms.len() as int) =~= mv);
    out
}

/// Extract from a Twig template: source literals from every quoted string,
/// then the filter specs among `calls`.
pub fn extract_twig(source: &str, calls: &[CallSpec]) -> (r: ExtractResult)
    ensures
        r@ == spec_extract_twig(source@, calls_view(calls@)),
{
    let ms = match captures_all(twig_strings_pattern_str(), source) {
        None => Vec::new(),
        Some(ms) => ms,
    };
    proof {
        if regex_captures(twig_strings_pattern(), source@) is None {
            assert(crate::pattern::captures_view(ms@) =~= Seq::<Seq<Option<(int, int)>>>::empty());
        }
    }
    let mut res = ExtractResult::empty();
    res.source_literals = twig_source_literals(source, &ms);
    let ghost start = res@;
    let ghost cv = calls_view(calls@);
    let mut j: usize = 0;
    while j < calls.len()
        invariant
            cv == calls_view(calls@),
            j <= calls.len(),
            res@ == spec_twig_filters(start, source@, cv.take(j as int)),
        decreases calls.len() - j,
    {
        assert(cv.take(j + 1).drop_last() =~= cv.take(j as int));
        assert(cv.take(j + 1).last() == calls@[j as int]@);
        if calls[j].kind == CallKind::Filter {
            twig_filter(&mut res, source, calls[j].name.as_str());
        }
        j = j + 1;
    }
    assert(cv.take(calls.len() as int) =~= cv);
    res
}

/// Twig's string lists stay distinct through every step.
pub proof fn lemma_twig_distinct(src: Seq<char>, calls: Seq<CallSpecView>)
    ensures
        spec_extract_twig(src, calls).0.no_duplicates(),
        spec_extract_twig(src, calls).3.no_duplicates(),
{
    let ms = match regex_captures(twig_strings_pattern(), src) {
        Some(ms) => ms,
        None => Seq::empty(),
    };
    let lits = spec_twig_source_literals(Seq::empty(), src, ms);
    lemma_source_literals_distinct(Seq::empty(), src, ms);
    lemma_filters_distinct((Seq::empty(), Seq::empty(), 0, lits), src, calls);
}

proof fn lemma_source_literals_distinct(r: Seq<Seq<char>>, src: Seq<char>, ms: Seq<Seq<Option<(int, int)>>>)
    requires
        r.no_duplicates(),
    ensures
        spec_twig_source_literals(r, src, ms).no_duplicates(),
    decreases ms.len(),
{
    if ms.len() > 0 {
        lemma_source_literals_distinct(r, src, ms.drop_last());
        let prev = spec_twig_source_literals(r, src, ms.drop_last());
        if let Some(s) = spec_string_content(src, ms.last()) {
            super::lemma_insert_str(prev, s);
        }
    }
}

proof fn lemma_insert_all_distinct(v: Seq<Seq<char>>, ks: Seq<Seq<char>>)
    requires
        v.no_duplicates(),
    ensures
        spec_insert_all(v, ks).no_duplicates(),
    decreases ks.len(),
{
    if ks.len() > 0 {
        lemma_insert_all_distinct(v, ks.drop_last());
        super::lemma_insert_str(spec_insert_all(v, ks.drop_last()), ks.last());
    }
}

proof fn lemma_filters_distinct(r: ExtractView, src: Seq<char>, calls: Seq<CallSpecView>)
    requires
        r.0.no_duplicates(),
        r.3.no_duplicates(),
    ensures
        spec_twig_filters(r, src, calls).0.no_duplicates(),
        spec_twig_filters(r, src, calls).3.no_duplicates(),
    decreases calls.len(),
{
    if calls.len() > 0 {
        lemma_filters_distinct(r, src, calls.drop_last());
        let prev = spec_twig_filters(r, src, calls.drop_last());
        if calls.last().kind == CallKind::Filter {
            let esc = spec_regex_escape(calls.last().name);
            let ms = match regex_captures(spec_literal_pattern(esc), src) {
                Some(ms) => ms,
                None => Seq::empty(),
            };
            lemma_insert_all_distinct(prev.0, spec_twig_keys(src, ms));
        }
    }
}

} // verus!
