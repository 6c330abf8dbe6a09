//! Regular-expression matching, as plain data.
//!
//! The `regex` crate runs the patterns; this module hands back, for every
//! successive non-overlapping match, the byte ranges of its capture groups
//! (group 0 being the whole match). It also escapes text so it matches
//! literally inside a pattern, exactly as `regex::escape` does.

use vstd::prelude::*;

use crate::text::{chars_of, push_char};

verus! {

/// For each successive match of `pattern` in `haystack`, the byte range of
/// each capture group (group 0 first; `None` for a group that did not take
/// part); `None` when `pattern` does not compile.
pub uninterp spec fn regex_captures(pattern: Seq<char>, haystack: Seq<char>) -> Option<
    Seq<Seq<Option<(int, int)>>>,
>;

/// The byte ranges of one match's groups, as integers.
pub open spec fn groups_view(g: Seq<Option<(usize, usize)>>) -> Seq<Option<(int, int)>> {
    g.map_values(
        |x: Option<(usize, usize)>|
            match x {
                Some(p) => Some((p.0 as int, p.1 as int)),
                None => None,
            },
    )
}

/// The byte ranges of every match's groups, as integers.
pub open spec fn captures_view(v: Seq<Vec<Option<(usize, usize)>>>) -> Seq<Seq<Option<(int, int)>>> {
    v.map_values(|c: Vec<Option<(usize, usize)>>| groups_view(c@))
}

/// `Regex::new` then `Regex::captures_iter`: the group ranges of every
/// successive non-overlapping match. Claims only that the outcome is a
/// function of the pattern and the text (named above).
#[verifier::external_body]
pub(crate) fn captures_all(pattern: &str, haystack: &str) -> (r: Option<
    Vec<Vec<Option<(usize, usize)>>>,
>)
    ensures
        match r {
            None => regex_captures(pattern@, haystack@) is None,
            Some(v) => regex_captures(pattern@, haystack@) == Some(captures_view(v@)),
        },
{
    let re = regex::Regex::new(pattern).ok()?;
    Some(
        re.captures_iter(haystack).map(
            |c| c.iter().map(|g| g.map(|m| (m.start(), m.end()))).collect(),
        ).collect(),
    )
}

/// The byte range of each successive non-overlapping match of `pattern` in
/// `haystack`; `None` when `pattern` does not compile.
pub uninterp spec fn regex_find_all(pattern: Seq<char>, haystack: Seq<char>) -> Option<Seq<(int, int)>>;

/// Byte ranges as integers.
pub open spec fn spans_view(v: Seq<(usize, usize)>) -> Seq<(int, int)> {
    v.map_values(|p: (usize, usize)| (p.0 as int, p.1 as int))
}

/// `Regex::new` then `Regex::find_iter`: the byte range of every successive
/// non-overlapping match. Claims only that the outcome is a function of the
/// pattern and the text (named above).
#[verifier::external_body]
pub(crate) fn find_all(pattern: &str, haystack: &str) -> (r: Option<Vec<(usize, usize)>>)
    ensures
        match r {
            None => regex_find_all(pattern@, haystack@) is None,
            Some(v) => regex_find_all(pattern@, haystack@) == Some(spans_view(v@)),
        },
{
    let re = regex::Regex::new(pattern).ok()?;
    Some(re.find_iter(haystack).map(|m| (m.start(), m.end())).collect())
}

/// The characters with a meaning in a regular expression.
pub open spec fn spec_is_meta(c: char) -> bool {
    c == '\\' || c == '.' || c == '+' || c == '*' || c == '?' || c == '(' || c == ')' || c == '|'
        || c == '[' || c == ']' || c == '{' || c == '}' || c == '^' || c == '$' || c == '#' || c
        == '&' || c == '-' || c == '~'
}

/// A text with every meta character preceded by a backslash.
pub open spec fn spec_regex_escape(s: Seq<char>) -> Seq<char>
    decreases s.len(),
{
    if s.len() == 0 {
        Seq::empty()
    } else {
        let rest = spec_regex_escape(s.drop_last());
        if spec_is_meta(s.last()) {
            rest + seq!['\\', s.last()]
        } else {
            rest.push(s.last())
        }
    }
}

/// Whether a character has a meaning in a regular expression.
pub fn is_meta(c: char) -> (r: bool)
    ensures
        r == spec_is_meta(c),
{
    c == '\\' || c == '.' || c == '+' || c == '*' || c == '?' || c == '(' || c == ')' || c == '|'
        || c == '[' || c == ']' || c == '{' || c == '}' || c == '^' || c == '$' || c == '#' || c
        == '&' || c == '-' || c == '~'
}

/// Escape `text` so that it matches literally inside a pattern.
pub fn regex_escape(text: &str) -> (r: String)
    ensures
        r@ == spec_regex_escape(text@),
{
    let cs = chars_of(text);
    let mut out = String::new();
    let mut i: usize = 0;
    while i < cs.len()
        invariant
            cs@ == text@,
            i <= cs.len(),
            out@ == spec_regex_escape(cs@.take(i as int)),
        decreases cs.len() - i,
    {
        let c = cs[i];
        assert(cs@.take(i + 1).drop_last() =~= cs@.take(i as int));
        assert(cs@.take(i + 1).last() == c);
        let ghost before = out@;
        if is_meta(c) {
            push_char(&mut out, '\\');
        }
        push_char(&mut out, c);
        assert(spec_is_meta(c) ==> out@ =~= before + seq!['\\', c]);
        i = i + 1;
    }
    assert(cs@.take(cs.len() as int) =~= cs@);
    out
}

} // verus!
