//! Guard layer — the central correctness invariant.
//!
//! A dynamic key argument (template string, concatenation, interpolated
//! double-quote) is an ordered list of [`Segment`]s: decoded static text
//! interleaved with [`Segment::Hole`]s. Adjacent static segments are joined into
//! maximal fragments, and from those we emit guards: a fragment at the very
//! start is a [`Guard::Prefix`], at the very end a [`Guard::Suffix`], anywhere
//! else a [`Guard::Contains`].
//!
//! A guard is never empty and never shorter than `min_guard_len`; a call site
//! that yields no qualifying fragment is a blind spot, never silently dropped.
//! Matching is prefix/suffix/substring against the decoded msgid.

use vstd::prelude::*;

use crate::text::{
    chars_of, contains_seq, ends_with, push_str, spec_contains_seq, spec_ends_with, spec_starts_with,
    starts_with,
};

verus! {

/// One piece of a dynamic key argument: decoded static text, or a hole.
#[derive(Debug, Clone, PartialEq, Eq)]
pub enum Segment {
    Static(String),
    Hole,
}

impl View for Segment {
    /// `Some(text)` for static text, `None` for a hole.
    type V = Option<Seq<char>>;

    open spec fn view(&self) -> Option<Seq<char>> {
        match self {
            Segment::Static(t) => Some(t@),
            Segment::Hole => None,
        }
    }
}

/// Where a guard's fragment sits in the dynamic key.
#[derive(Debug, Clone, Copy, PartialEq, Eq, Structural)]
pub enum GuardPos {
    Prefix,
    Suffix,
    Contains,
}

/// A keep-it-alive guard derived from a static fragment.
#[derive(Debug, Clone, PartialEq, Eq)]
pub enum Guard {
    Prefix(String),
    Suffix(String),
    Contains(String),
}

impl View for Guard {
    type V = (GuardPos, Seq<char>);

    open spec fn view(&self) -> (GuardPos, Seq<char>) {
        match self {
            Guard::Prefix(t) => (GuardPos::Prefix, t@),
            Guard::Suffix(t) => (GuardPos::Suffix, t@),
            Guard::Contains(t) => (GuardPos::Contains, t@),
        }
    }
}

/// The views of a sequence of segments.
pub open spec fn segments_view(s: Seq<Segment>) -> Seq<Option<Seq<char>>> {
    s.map_values(|x: Segment| x@)
}

/// The views of a sequence of guards.
pub open spec fn guards_view(g: Seq<Guard>) -> Seq<(GuardPos, Seq<char>)> {
    g.map_values(|x: Guard| x@)
}

/// Whether a guard matches a decoded msgid.
pub open spec fn spec_guard_matches(g: (GuardPos, Seq<char>), msgid: Seq<char>) -> bool {
    match g.0 {
        GuardPos::Prefix => spec_starts_with(msgid, g.1),
        GuardPos::Suffix => spec_ends_with(msgid, g.1),
        GuardPos::Contains => spec_contains_seq(msgid, g.1),
    }
}

impl Guard {
    /// Whether this guard matches a decoded msgid.
    pub fn matches(&self, msgid: &str) -> (r: bool)
        ensures
            r == spec_guard_matches(self@, msgid@),
    {
        let m = chars_of(msgid);
        match self {
            Guard::Prefix(p) => starts_with(&m, &chars_of(p.as_str())),
            Guard::Suffix(s) => ends_with(&m, &chars_of(s.as_str())),
            Guard::Contains(c) => contains_seq(&m, &chars_of(c.as_str())),
        }
    }
}

/// The guards (possibly none) and blind-spot flag for one dynamic call site.
#[derive(Debug, Clone, PartialEq, Eq, Default)]
pub struct GuardExtraction {
    pub guards: Vec<Guard>,
    /// `true` when no fragment qualified — the site could not be checked at all.
    pub blind: bool,
}

/// The position of a maximal static fragment covering segments `start..end`
/// of `n`: at the very start a prefix, at the very end a suffix, anywhere else
/// (or spanning the whole list, with no hole at all) a substring.
pub open spec fn spec_run_pos(start: int, end: int, n: int) -> GuardPos {
    if start == 0 && end == n {
        GuardPos::Contains
    } else if start == 0 {
        GuardPos::Prefix
    } else if end == n {
        GuardPos::Suffix
    } else {
        GuardPos::Contains
    }
}

/// Close a maximal fragment: it becomes a guard when it is non-empty and at
/// least `min_len` characters long.
pub open spec fn spec_emit(
    g: Seq<(GuardPos, Seq<char>)>,
    start: int,
    end: int,
    n: int,
    text: Seq<char>,
    min_len: nat,
) -> Seq<(GuardPos, Seq<char>)> {
    if text.len() > 0 && text.len() >= min_len {
        g.push((spec_run_pos(start, end, n), text))
    } else {
        g
    }
}

/// The scan of the first `k` segments: the guards of the maximal fragments
/// closed so far, and the fragment still open (its first index and its text,
/// the adjacent static segments joined).
pub open spec fn spec_scan(segs: Seq<Option<Seq<char>>>, min_len: nat, k: int) -> (
    Seq<(GuardPos, Seq<char>)>,
    Option<(int, Seq<char>)>,
)
    decreases k,
{
    if k <= 0 {
        (Seq::empty(), None)
    } else {
        let (g, open) = spec_scan(segs, min_len, k - 1);
        match segs[k - 1] {
            Some(t) => match open {
                Some((s, acc)) => (g, Some((s, acc + t))),
                None => (g, Some((k - 1, t))),
            },
            None => match open {
                Some((s, acc)) => (spec_emit(g, s, k - 1, segs.len() as int, acc, min_len), None),
                None => (g, None),
            },
        }
    }
}

/// The guards of a whole segment list: one per maximal run of adjacent static
/// segments whose joined text is non-empty and at least `min_len` long, in order.
pub open spec fn spec_guards(segs: Seq<Option<Seq<char>>>, min_len: nat) -> Seq<
    (GuardPos, Seq<char>),
> {
    let n = segs.len() as int;
    let (g, open) = spec_scan(segs, min_len, n);
    match open {
        Some((s, acc)) => spec_emit(g, s, n, n, acc, min_len),
        None => g,
    }
}

/// Close the fragment `text` covering segments `start..end` of `n`.
fn emit_guard(guards: &mut Vec<Guard>, start: usize, end: usize, n: usize, text: String, min_len: usize)
    ensures
        guards_view(final(guards)@) == spec_emit(
            guards_view(old(guards)@),
            start as int,
            end as int,
            n as int,
            text@,
            min_len as nat,
        ),
{
    let count = chars_of(text.as_str()).len();
    if count > 0 && count >= min_len {
        let ghost before = guards@;
        let g = if start == 0 && end == n {
            Guard::Contains(text)
        } else if start == 0 {
            Guard::Prefix(text)
        } else if end == n {
            Guard::Suffix(text)
        } else {
            Guard::Contains(text)
        };
        guards.push(g);
        proof {
            assert(guards_view(guards@) =~= guards_view(before).push(g@));
        }
    }
}

/// Build guards from a dynamic argument's segments: adjacent static segments
/// are joined into maximal fragments, and each non-empty fragment of at least
/// `min_guard_len` characters becomes a guard. The site is blind exactly when
/// no guard results.
pub fn guards_from_segments(segments: &[Segment], min_guard_len: usize) -> (r: GuardExtraction)
    ensures
        guards_view(r.guards@) == spec_guards(segments_view(segments@), min_guard_len as nat),
        r.blind == (r.guards@.len() == 0),
{
    let n = segments.len();
    let ghost sv = segments_view(segments@);
    let mut guards: Vec<Guard> = Vec::new();
    let mut open = false;
    let mut start: usize = 0;
    let mut acc = String::new();
    let mut i: usize = 0;
    while i < n
        invariant
            n == segments.len(),
            sv == segments_view(segments@),
            sv.len() == n,
            i <= n,
            spec_scan(sv, min_guard_len as nat, i as int) == (
                guards_view(guards@),
                if open {
                    Some((start as int, acc@))
                } else {
                    None
                },
            ),
        decreases n - i,
    {
        match &segments[i] {
            Segment::Static(text) => {
                if open {
                    push_str(&mut acc, text.as_str());
                } else {
                    open = true;
                    start = i;
                    acc = text.clone();
                }
            },
            Segment::Hole => {
                if open {
                    let done = acc;
                    acc = String::new();
                    emit_guard(&mut guards, start, i, n, done, min_guard_len);
                    open = false;
                }
            },
        }
        i = i + 1;
    }
    if open {
        emit_guard(&mut guards, start, n, n, acc, min_guard_len);
    }
    let blind = guards.len() == 0;
    GuardExtraction { guards, blind }
}

/// What the scan of the first `k` segments keeps: every guard so far is
/// non-empty and at least `min_len` long; a non-empty static segment of at
/// least `min_len` characters has produced a guard or sits in the open
/// fragment, whose text is then at least as long; and anything produced comes
/// from some non-empty static segment.
pub proof fn lemma_scan_facts(segs: Seq<Option<Seq<char>>>, min_len: nat, k: int)
    requires
        0 <= k <= segs.len(),
    ensures
        forall|j: int|
            0 <= j < spec_scan(segs, min_len, k).0.len() ==> #[trigger] spec_scan(
                segs,
                min_len,
                k,
            ).0[j].1.len() > 0 && spec_scan(segs, min_len, k).0[j].1.len() >= min_len,
        forall|i: int|
            0 <= i < k && (#[trigger] segs[i] matches Some(t) && t.len() > 0 && t.len()
                >= min_len) ==> spec_scan(segs, min_len, k).0.len() > 0 || (spec_scan(
                segs,
                min_len,
                k,
            ).1 matches Some(o) && o.1.len() >= segs[i]->0.len()),
        (spec_scan(segs, min_len, k).0.len() > 0 || (spec_scan(segs, min_len, k).1 matches Some(
            o,
        ) && o.1.len() > 0)) ==> exists|i: int|
            0 <= i < k && (#[trigger] segs[i] matches Some(t) && t.len() > 0),
    decreases k,
{
    if k > 0 {
        lemma_scan_facts(segs, min_len, k - 1);
        let (g, open) = spec_scan(segs, min_len, k - 1);
        let (g2, open2) = spec_scan(segs, min_len, k);
        assert forall|j: int| 0 <= j < g2.len() implies #[trigger] g2[j].1.len() > 0 && g2[j].1.len()
            >= min_len by {
            if j < g.len() {
                assert(g2[j] == g[j]);
            }
        }
        assert forall|i: int|
            0 <= i < k && (#[trigger] segs[i] matches Some(t) && t.len() > 0 && t.len()
                >= min_len) implies g2.len() > 0 || (open2 matches Some(o) && o.1.len()
            >= segs[i]->0.len()) by {
            if i < k - 1 {
                assert(g.len() > 0 || (open matches Some(o) && o.1.len() >= segs[i]->0.len()));
            }
        }
        if g2.len() > 0 || (open2 matches Some(o) && o.1.len() > 0) {
            if g.len() > 0 || (open matches Some(o) && o.1.len() > 0) {
                let w = choose|i: int| 0 <= i < k - 1 && (#[trigger] segs[i] matches Some(t) && t.len()
                    > 0);
                assert(0 <= w < k && (segs[w] matches Some(t) && t.len() > 0));
            } else {
                assert(segs[k - 1] matches Some(t) && t.len() > 0);
            }
        }
    }
}

/// The guard invariant: no guard is empty or shorter than `min_guard_len`,
/// whatever the minimum; a non-empty static segment of at least
/// `min_guard_len` characters always yields a guard (its maximal fragment is
/// at least as long); and a site with no non-empty static text yields none,
/// so it is blind.
pub proof fn lemma_guard_invariant(segments: Seq<Segment>, min_guard_len: nat)
    ensures
        forall|j: int|
            0 <= j < spec_guards(segments_view(segments), min_guard_len).len() ==> #[trigger] spec_guards(
                segments_view(segments),
                min_guard_len,
            )[j].1.len() > 0 && spec_guards(segments_view(segments), min_guard_len)[j].1.len()
                >= min_guard_len,
        (exists|i: int|
            0 <= i < segments.len() && (#[trigger] segments[i] matches Segment::Static(t) && t@.len()
                > 0 && t@.len() >= min_guard_len)) ==> spec_guards(
            segments_view(segments),
            min_guard_len,
        ).len() > 0,
        spec_guards(segments_view(segments), min_guard_len).len() > 0 ==> exists|i: int|
            0 <= i < segments.len() && (#[trigger] segments[i] matches Segment::Static(t) && t@.len()
                > 0),
{
    let sv = segments_view(segments);
    let n = sv.len() as int;
    lemma_scan_facts(sv, min_guard_len, n);
    let (g, open) = spec_scan(sv, min_guard_len, n);
    let r = spec_guards(sv, min_guard_len);
    assert forall|j: int| 0 <= j < r.len() implies #[trigger] r[j].1.len() > 0 && r[j].1.len()
        >= min_guard_len by {
        if j < g.len() {
            assert(r[j] == g[j]);
        }
    }
    if exists|i: int|
        0 <= i < segments.len() && (#[trigger] segments[i] matches Segment::Static(t) && t@.len() > 0
            && t@.len() >= min_guard_len) {
        let i = choose|i: int|
            0 <= i < segments.len() && (#[trigger] segments[i] matches Segment::Static(t) && t@.len()
                > 0 && t@.len() >= min_guard_len);
        assert(sv[i] matches Some(t) && t.len() > 0 && t.len() >= min_guard_len);
    }
    if r.len() > 0 {
        assert(g.len() > 0 || (open matches Some(o) && o.1.len() > 0));
        let w = choose|i: int| 0 <= i < n && (#[trigger] sv[i] matches Some(t) && t.len() > 0);
        assert(segments[w] matches Segment::Static(t) && t@.len() > 0);
    }
}

} // verus!
