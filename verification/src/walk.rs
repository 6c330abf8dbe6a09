//! File discovery policy — what the walk keeps, and in which order.
//!
//! The walk itself (one per root, honouring `.gitignore`, pruning
//! `ignore_dirs` by directory name) is the caller's. What it found is handed
//! here: files accepted more than once (overlapping roots) are kept once, by
//! their first sighting, and the result is sorted by path — the determinism
//! every later fold relies on.
//!
//! Paths compare as `std::path::Path` does on Unix: by their components —
//! the root, `.` at the start of a relative path, `..`, and named components —
//! with repeated and trailing separators and inner `.` components ignored.

use vstd::prelude::*;

use crate::order::{
    lemma_text_lt_irreflexive, lemma_text_lt_total, lemma_text_lt_transitive, spec_text_lt, text_lt,
};
use crate::text::{chars_of, str_eq, string_of};

verus! {

/// A file the walk found, in the three views a caller might need: the root it
/// was found under, its path relative to that root, and its full path.
#[derive(Debug, Clone)]
pub struct FileEntry {
    pub root: String,
    pub rel: String,
    pub abs: String,
}

/// One component of a path.
#[derive(Debug, Clone, PartialEq, Eq)]
pub enum Component {
    /// The root of an absolute path.
    Root,
    /// A `.` starting a relative path.
    Cur,
    /// `..`.
    Parent,
    /// A named component.
    Normal(String),
}

/// The mathematical value of a component.
pub enum CompView {
    Root,
    Cur,
    Parent,
    Normal(Seq<char>),
}

impl View for Component {
    type V = CompView;

    open spec fn view(&self) -> CompView {
        match self {
            Component::Root => CompView::Root,
            Component::Cur => CompView::Cur,
            Component::Parent => CompView::Parent,
            Component::Normal(s) => CompView::Normal(s@),
        }
    }
}

/// The views of components.
pub open spec fn comps_view(v: Seq<Component>) -> Seq<CompView> {
    v.map_values(|c: Component| c@)
}

/// The pieces of a text between `/` separators (empty pieces included).
pub open spec fn spec_split_slash(p: Seq<char>) -> Seq<Seq<char>>
    decreases p.len(),
{
    if p.len() == 0 {
        seq![Seq::empty()]
    } else {
        let r = spec_split_slash(p.drop_last());
        if p.last() == '/' {
            r.push(Seq::empty())
        } else {
            r.update(r.len() - 1, r.last().push(p.last()))
        }
    }
}

/// The components named by pieces after the first: empty and `.` pieces
/// vanish, `..` is the parent, anything else a named component.
pub open spec fn spec_inner_comps(pieces: Seq<Seq<char>>) -> Seq<CompView>
    decreases pieces.len(),
{
    if pieces.len() == 0 {
        Seq::empty()
    } else {
        let prev = spec_inner_comps(pieces.drop_last());
        let q = pieces.last();
        if q.len() == 0 || q == seq!['.'] {
            prev
        } else if q == seq!['.', '.'] {
            prev.push(CompView::Parent)
        } else {
            prev.push(CompView::Normal(q))
        }
    }
}

/// The components of a path: the root of an absolute path or a leading `.` of
/// a relative one, then its other pieces.
pub open spec fn spec_components(p: Seq<char>) -> Seq<CompView> {
    let pieces = spec_split_slash(p);
    if pieces[0].len() == 0 && p.len() > 0 {
        seq![CompView::Root] + spec_inner_comps(pieces.drop_first())
    } else if pieces[0] == seq!['.'] {
        seq![CompView::Cur] + spec_inner_comps(pieces.drop_first())
    } else {
        spec_inner_comps(pieces)
    }
}

/// The rank of a component's kind: root, `.`, `..`, then named ones.
pub open spec fn spec_comp_rank(c: CompView) -> int {
    match c {
        CompView::Root => 0,
        CompView::Cur => 1,
        CompView::Parent => 2,
        CompView::Normal(_) => 3,
    }
}

/// Component `a` sorts strictly before `b`.
pub open spec fn spec_comp_lt(a: CompView, b: CompView) -> bool {
    match (a, b) {
        (CompView::Normal(x), CompView::Normal(y)) => spec_text_lt(x, y),
        _ => spec_comp_rank(a) < spec_comp_rank(b),
    }
}

/// Component lists compare lexicographically, a shorter prefix first.
pub open spec fn spec_comps_lt(a: Seq<CompView>, b: Seq<CompView>) -> bool
    decreases a.len(),
{
    if a.len() == 0 {
        b.len() > 0
    } else if b.len() == 0 {
        false
    } else if a[0] != b[0] {
        spec_comp_lt(a[0], b[0])
    } else {
        spec_comps_lt(a.drop_first(), b.drop_first())
    }
}

/// Path `a` sorts strictly before path `b`.
pub open spec fn spec_path_lt(a: Seq<char>, b: Seq<char>) -> bool {
    spec_comps_lt(spec_components(a), spec_components(b))
}

/// Two texts name the same path.
pub open spec fn spec_same_path(a: Seq<char>, b: Seq<char>) -> bool {
    spec_components(a) == spec_components(b)
}

/// The pieces of a text between `/` separators.
fn split_slash(p: &str) -> (r: Vec<Vec<char>>)
    ensures
        r@.map_values(|l: Vec<char>| l@) == spec_split_slash(p@),
        r.len() >= 1,
{
    let cs = chars_of(p);
    let mut out: Vec<Vec<char>> = Vec::new();
    out.push(Vec::new());
    let mut i: usize = 0;
    assert(cs@.take(0) =~= Seq::<char>::empty());
    assert(out@.map_values(|l: Vec<char>| l@) =~= spec_split_slash(Seq::<char>::empty()));
    while i < cs.len()
        invariant
            cs@ == p@,
            i <= cs.len(),
            out.len() >= 1,
            out@.map_values(|l: Vec<char>| l@) == spec_split_slash(cs@.take(i as int)),
        decreases cs.len() - i,
    {
        let c = cs[i];
        let ghost prev = out@.map_values(|l: Vec<char>| l@);
        assert(cs@.take(i + 1).drop_last() =~= cs@.take(i as int));
        assert(cs@.take(i + 1).last() == c);
        if c == '/' {
            out.push(Vec::new());
            assert(out@.map_values(|l: Vec<char>| l@) =~= prev.push(Seq::<char>::empty()));
        } else {
            let last = out.len() - 1;
            let mut line = out.pop().unwrap();
            let ghost old_line = line@;
            line.push(c);
            out.push(line);
            assert(out@.map_values(|l: Vec<char>| l@) =~= prev.update(last as int, old_line.push(c)));
        }
        i = i + 1;
    }
    assert(cs@.take(cs.len() as int) =~= cs@);
    out
}

/// Whether a piece is `.`.
fn is_dot(q: &Vec<char>) -> (r: bool)
    ensures
        r == (q@ == seq!['.']),
{
    let r = q.len() == 1 && q[0] == '.';
    assert(r ==> q@ =~= seq!['.']);
    r
}

/// Whether a piece is `..`.
fn is_dot_dot(q: &Vec<char>) -> (r: bool)
    ensures
        r == (q@ == seq!['.', '.']),
{
    let r = q.len() == 2 && q[0] == '.' && q[1] == '.';
    assert(r ==> q@ =~= seq!['.', '.']);
    r
}

/// The components of a path.
pub fn components(p: &str) -> (r: Vec<Component>)
    ensures
        comps_view(r@) == spec_components(p@),
{
    let pieces = split_slash(p);
    let ghost pv = pieces@.map_values(|l: Vec<char>| l@);
    let mut out: Vec<Component> = Vec::new();
    let mut start: usize = 0;
    let absolute = pieces[0].len() == 0 && chars_of(p).len() > 0;
    if absolute {
        out.push(Component::Root);
        start = 1;
    } else if is_dot(&pieces[0]) {
        out.push(Component::Cur);
        start = 1;
    }
    let ghost head = comps_view(out@);
    let ghost rest = pv.skip(start as int);
    let mut i: usize = start;
    assert(rest.take(0) =~= Seq::<Seq<char>>::empty());
    while i < pieces.len()
        invariant
            pv == pieces@.map_values(|l: Vec<char>| l@),
            start <= i <= pieces.len(),
            rest == pv.skip(start as int),
            comps_view(out@) == head + spec_inner_comps(rest.take(i - start)),
        decreases pieces.len() - i,
    {
        let ghost before = comps_view(out@);
        assert(rest.take(i - start + 1).drop_last() =~= rest.take(i - start));
        assert(rest.take(i - start + 1).last() == pieces@[i as int]@);
        let q = &pieces[i];
        if q.len() == 0 || is_dot(q) {
        } else if is_dot_dot(q) {
            out.push(Component::Parent);
            assert(comps_view(out@) =~= before.push(CompView::Parent));
        } else {
            out.push(Component::Normal(string_of(q.as_slice())));
            assert(comps_view(out@) =~= before.push(CompView::Normal(q@)));
        }
        i = i + 1;
    }
    assert(rest.take(pieces.len() - start) =~= rest);
    proof {
        if absolute || pv[0] == seq!['.'] {
            assert(rest =~= pv.drop_first());
        } else {
            assert(rest =~= pv);
        }
    }
    out
}

/// Component `a` sorts strictly before `b`.
fn comp_lt(a: &Component, b: &Component) -> (r: bool)
    ensures
        r == spec_comp_lt(a@, b@),
{
    match (a, b) {
        (Component::Normal(x), Component::Normal(y)) => text_lt(x.as_str(), y.as_str()),
        _ => rank(a) < rank(b),
    }
}

fn rank(c: &Component) -> (r: u8)
    ensures
        r as int == spec_comp_rank(c@),
{
    match c {
        Component::Root => 0,
        Component::Cur => 1,
        Component::Parent => 2,
        Component::Normal(_) => 3,
    }
}

/// Whether two components are equal.
fn comp_eq(a: &Component, b: &Component) -> (r: bool)
    ensures
        r == (a@ == b@),
{
    match (a, b) {
        (Component::Normal(x), Component::Normal(y)) => str_eq(x.as_str(), y.as_str()),
        (Component::Root, Component::Root) => true,
        (Component::Cur, Component::Cur) => true,
        (Component::Parent, Component::Parent) => true,
        _ => false,
    }
}

/// Whether component list `a` sorts strictly before `b`.
fn comps_lt(a: &Vec<Component>, b: &Vec<Component>) -> (r: bool)
    ensures
        r == spec_comps_lt(comps_view(a@), comps_view(b@)),
{
    let ghost av = comps_view(a@);
    let ghost bv = comps_view(b@);
    let mut i: usize = 0;
    assert(av.skip(0) =~= av);
    assert(bv.skip(0) =~= bv);
    while i < a.len() && i < b.len() && comp_eq(&a[i], &b[i])
        invariant
            av == comps_view(a@),
            bv == comps_view(b@),
            i <= a.len(),
            i <= b.len(),
            spec_comps_lt(av, bv) == spec_comps_lt(av.skip(i as int), bv.skip(i as int)),
        decreases a.len() - i,
    {
        assert(av.skip(i as int).drop_first() =~= av.skip(i + 1));
        assert(bv.skip(i as int).drop_first() =~= bv.skip(i + 1));
        assert(av.skip(i as int)[0] == a@[i as int]@);
        assert(bv.skip(i as int)[0] == b@[i as int]@);
        i = i + 1;
    }
    if i == a.len() {
        i < b.len()
    } else if i == b.len() {
        false
    } else {
        assert(av.skip(i as int)[0] == a@[i as int]@);
        assert(bv.skip(i as int)[0] == b@[i as int]@);
        comp_lt(&a[i], &b[i])
    }
}

/// Whether two component lists are equal.
fn comps_eq(a: &Vec<Component>, b: &Vec<Component>) -> (r: bool)
    ensures
        r == (comps_view(a@) == comps_view(b@)),
{
    if a.len() != b.len() {
        return false;
    }
    let mut i: usize = 0;
    while i < a.len()
        invariant
            a.len() == b.len(),
            i <= a.len(),
            forall|k: int| 0 <= k < i ==> a@[k]@ == b@[k]@,
        decreases a.len() - i,
    {
        if !comp_eq(&a[i], &b[i]) {
            assert(comps_view(a@)[i as int] != comps_view(b@)[i as int]);
            return false;
        }
        i = i + 1;
    }
    assert(comps_view(a@) =~= comps_view(b@));
    true
}

/// Whether path `a` sorts strictly before path `b`.
pub fn path_lt(a: &str, b: &str) -> (r: bool)
    ensures
        r == spec_path_lt(a@, b@),
{
    comps_lt(&components(a), &components(b))
}

/// Whether two texts name the same path.
pub fn same_path(a: &str, b: &str) -> (r: bool)
    ensures
        r == spec_same_path(a@, b@),
{
    comps_eq(&components(a), &components(b))
}

/// The views of entries keyed by path.
pub open spec fn pathed_view<T>(v: Seq<(String, T)>) -> Seq<(Seq<char>, T)> {
    v.map_values(|p: (String, T)| (p.0@, p.1))
}

/// `s` holds an entry for the same path as `p`.
pub open spec fn spec_has_path<T>(s: Seq<(Seq<char>, T)>, p: Seq<char>) -> bool {
    exists|i: int| 0 <= i < s.len() && spec_same_path(#[trigger] s[i].0, p)
}

/// Keep the first entry for each path, in order.
pub open spec fn spec_dedup_paths<T>(s: Seq<(Seq<char>, T)>) -> Seq<(Seq<char>, T)>
    decreases s.len(),
{
    if s.len() == 0 {
        s
    } else {
        let prev = spec_dedup_paths(s.drop_last());
        if spec_has_path(prev, s.last().0) {
            prev
        } else {
            prev.push(s.last())
        }
    }
}

/// Insert `x` after every entry whose path does not sort strictly after it
/// (scanning from the end): equal paths keep their order.
pub open spec fn spec_insert_by_path<T>(s: Seq<(Seq<char>, T)>, x: (Seq<char>, T)) -> Seq<(Seq<char>, T)>
    decreases s.len(),
{
    if s.len() == 0 || !spec_path_lt(x.0, s.last().0) {
        s.push(x)
    } else {
        spec_insert_by_path(s.drop_last(), x).push(s.last())
    }
}

/// Stable insertion sort by path.
pub open spec fn spec_sort_by_path<T>(s: Seq<(Seq<char>, T)>) -> Seq<(Seq<char>, T)>
    decreases s.len(),
{
    if s.len() == 0 {
        s
    } else {
        spec_insert_by_path(spec_sort_by_path(s.drop_last()), s.last())
    }
}

/// Keep the first sighting of each path, then sort by path (stably).
pub fn dedup_sort_files<T>(found: Vec<(String, T)>) -> (r: Vec<(String, T)>)
    ensures
        pathed_view(r@) == spec_sort_by_path(spec_dedup_paths(pathed_view(found@))),
{
    let ghost fv = pathed_view(found@);
    let mut rest = found;
    let mut kept: Vec<(String, T)> = Vec::new();
    let mut i: usize = 0;
    let n = rest.len();
    assert(fv.take(0) =~= Seq::<(Seq<char>, T)>::empty());
    while rest.len() > 0
        invariant
            i + rest.len() == n,
            n == fv.len(),
            pathed_view(rest@) == fv.skip(i as int),
            pathed_view(kept@) == spec_dedup_paths(fv.take(i as int)),
        decreases rest.len(),
    {
        let ghost rv = pathed_view(rest@);
        let x = rest.remove(0);
        proof {
            assert(rv[0] == (x.0@, x.1));
            assert(pathed_view(rest@) =~= rv.drop_first());
            assert(fv.skip(i as int).drop_first() =~= fv.skip(i + 1));
            assert(fv.take(i + 1).drop_last() =~= fv.take(i as int));
            assert(fv.take(i + 1).last() == fv.skip(i as int)[0]);
        }
        let ghost kv = pathed_view(kept@);
        let mut j: usize = 0;
        let mut seen = false;
        while j < kept.len()
            invariant
                kv == pathed_view(kept@),
                j <= kept.len(),
                seen == (exists|m: int| 0 <= m < j && spec_same_path(#[trigger] kv[m].0, x.0@)),
            decreases kept.len() - j,
        {
            assert(kv[j as int] == (kept@[j as int].0@, kept@[j as int].1));
            let ghost was = seen;
            if same_path(kept[j].0.as_str(), x.0.as_str()) {
                seen = true;
            }
            proof {
                if was {
                    let m = choose|m: int| 0 <= m < j && spec_same_path(#[trigger] kv[m].0, x.0@);
                    assert(0 <= m < j + 1 && spec_same_path(kv[m].0, x.0@));
                }
                if seen && !was {
                    assert(spec_same_path(kv[j as int].0, x.0@));
                }
            }
            j = j + 1;
        }
        if !seen {
            let ghost xv = (x.0@, x.1);
            kept.push(x);
            assert(pathed_view(kept@) =~= kv.push(xv));
        }
        i = i + 1;
    }
    assert(fv.take(n as int) =~= fv);
    let ghost dv = pathed_view(kept@);
    let mut out: Vec<(String, T)> = Vec::new();
    let mut k: usize = 0;
    let m = kept.len();
    assert(dv.take(0) =~= Seq::<(Seq<char>, T)>::empty());
    while kept.len() > 0
        invariant
            k + kept.len() == m,
            m == dv.len(),
            pathed_view(kept@) == dv.skip(k as int),
            pathed_view(out@) == spec_sort_by_path(dv.take(k as int)),
        decreases kept.len(),
    {
        let ghost rv = pathed_view(kept@);
        let x = kept.remove(0);
        proof {
            assert(rv[0] == (x.0@, x.1));
            assert(pathed_view(kept@) =~= rv.drop_first());
            assert(dv.skip(k as int).drop_first() =~= dv.skip(k + 1));
            assert(dv.take(k + 1).drop_last() =~= dv.take(k as int));
            assert(dv.take(k + 1).last() == dv.skip(k as int)[0]);
        }
        let ghost s = pathed_view(out@);
        let ghost xv = (x.0@, x.1);
        let mut p: usize = out.len();
        assert(s.take(p as int) =~= s);
        assert(s.skip(p as int) =~= Seq::<(Seq<char>, T)>::empty());
        while p > 0 && path_lt(x.0.as_str(), out[p - 1].0.as_str())
            invariant
                p <= out.len(),
                s == pathed_view(out@),
                xv == (x.0@, x.1),
                spec_insert_by_path(s, xv) == spec_insert_by_path(s.take(p as int), xv) + s.skip(
                    p as int,
                ),
            decreases p,
        {
            proof {
                assert(s[p - 1] == (out@[p - 1].0@, out@[p - 1].1));
                assert(s.take(p as int).drop_last() =~= s.take(p - 1));
                assert(s.take(p as int).last() == s[p - 1]);
                assert(spec_insert_by_path(s.take(p - 1), xv).push(s[p - 1]) + s.skip(p as int)
                    =~= spec_insert_by_path(s.take(p - 1), xv) + s.skip(p - 1));
            }
            p = p - 1;
        }
        proof {
            if p > 0 {
                assert(s[p - 1] == (out@[p - 1].0@, out@[p - 1].1));
                assert(s.take(p as int).last() == s[p - 1]);
            }
        }
        out.insert(p, x);
        proof {
            assert(pathed_view(out@) =~= s.take(p as int).push(xv) + s.skip(p as int));
        }
        k = k + 1;
    }
    assert(dv.take(m as int) =~= dv);
    out
}

proof fn lemma_comp_lt_irreflexive(a: CompView)
    ensures
        !spec_comp_lt(a, a),
{
    if let CompView::Normal(x) = a {
        lemma_text_lt_irreflexive(x);
    }
}

proof fn lemma_comp_lt_transitive(a: CompView, b: CompView, c: CompView)
    requires
        spec_comp_lt(a, b),
        spec_comp_lt(b, c),
    ensures
        spec_comp_lt(a, c),
{
    if let (CompView::Normal(x), CompView::Normal(y), CompView::Normal(z)) = (a, b, c) {
        lemma_text_lt_transitive(x, y, z);
    }
}

proof fn lemma_comp_lt_total(a: CompView, b: CompView)
    ensures
        spec_comp_lt(a, b) || spec_comp_lt(b, a) || a == b,
{
    if let (CompView::Normal(x), CompView::Normal(y)) = (a, b) {
        lemma_text_lt_total(x, y);
    }
}

proof fn lemma_comps_lt_irreflexive(a: Seq<CompView>)
    ensures
        !spec_comps_lt(a, a),
    decreases a.len(),
{
    if a.len() > 0 {
        lemma_comps_lt_irreflexive(a.drop_first());
    }
}

proof fn lemma_comps_lt_transitive(a: Seq<CompView>, b: Seq<CompView>, c: Seq<CompView>)
    requires
        spec_comps_lt(a, b),
        spec_comps_lt(b, c),
    ensures
        spec_comps_lt(a, c),
    decreases a.len(),
{
    if a.len() > 0 && b.len() > 0 && c.len() > 0 {
        if a[0] == b[0] && b[0] == c[0] {
            lemma_comps_lt_transitive(a.drop_first(), b.drop_first(), c.drop_first());
        } else if a[0] != b[0] && b[0] != c[0] {
            lemma_comp_lt_transitive(a[0], b[0], c[0]);
            if a[0] == c[0] {
                lemma_comp_lt_transitive(a[0], b[0], a[0]);
                lemma_comp_lt_irreflexive(a[0]);
            }
        }
    }
}

proof fn lemma_comps_lt_total(a: Seq<CompView>, b: Seq<CompView>)
    ensures
        spec_comps_lt(a, b) || spec_comps_lt(b, a) || a == b,
    decreases a.len(),
{
    if a.len() > 0 && b.len() > 0 {
        if a[0] == b[0] {
            lemma_comps_lt_total(a.drop_first(), b.drop_first());
            if a.drop_first() == b.drop_first() {
                assert(a =~= seq![a[0]] + a.drop_first());
                assert(b =~= seq![b[0]] + b.drop_first());
            }
        } else {
            lemma_comp_lt_total(a[0], b[0]);
        }
    } else if a.len() == 0 && b.len() == 0 {
        assert(a =~= b);
    }
}

/// Path order, as a strict order that is total up to naming the same path.
proof fn lemma_path_order(a: Seq<char>, b: Seq<char>, c: Seq<char>)
    ensures
        !spec_path_lt(a, a),
        spec_path_lt(a, b) && spec_path_lt(b, c) ==> spec_path_lt(a, c),
        spec_path_lt(a, b) || spec_path_lt(b, a) || spec_same_path(a, b),
{
    lemma_comps_lt_irreflexive(spec_components(a));
    if spec_path_lt(a, b) && spec_path_lt(b, c) {
        lemma_comps_lt_transitive(spec_components(a), spec_components(b), spec_components(c));
    }
    lemma_comps_lt_total(spec_components(a), spec_components(b));
}

/// Entries are in path order: none sorts strictly before an earlier one.
pub open spec fn spec_sorted_by_path<T>(s: Seq<(Seq<char>, T)>) -> bool {
    forall|i: int, j: int| 0 <= i < j < s.len() ==> !spec_path_lt(#[trigger] s[j].0, #[trigger] s[i].0)
}

/// No two entries name the same path.
pub open spec fn spec_distinct_paths<T>(s: Seq<(Seq<char>, T)>) -> bool {
    forall|i: int, j: int| 0 <= i < j < s.len() ==> !spec_same_path(#[trigger] s[i].0, #[trigger] s[j].0)
}

proof fn lemma_insert_by_path<T>(s: Seq<(Seq<char>, T)>, x: (Seq<char>, T))
    ensures
        spec_insert_by_path(s, x).to_multiset() =~= s.to_multiset().insert(x),
        spec_insert_by_path(s, x).len() == s.len() + 1,
        spec_sorted_by_path(s) ==> spec_sorted_by_path(spec_insert_by_path(s, x)),
    decreases s.len(),
{
    broadcast use vstd::seq_lib::to_multiset_build, vstd::seq_lib::to_multiset_contains;

    let r = spec_insert_by_path(s, x);
    if s.len() == 0 || !spec_path_lt(x.0, s.last().0) {
        if s.len() > 0 && spec_sorted_by_path(s) {
            assert forall|i: int, j: int| 0 <= i < j < r.len() implies !spec_path_lt(
                #[trigger] r[j].0,
                #[trigger] r[i].0,
            ) by {
                if j == s.len() {
                    let l = s.last();
                    assert(s[s.len() - 1] == l);
                    if i < s.len() - 1 {
                        assert(!spec_path_lt(s[s.len() - 1].0, s[i].0));
                    }
                    lemma_path_order(x.0, l.0, s[i].0);
                    lemma_path_order(l.0, x.0, s[i].0);
                    if spec_path_lt(x.0, s[i].0) && spec_same_path(x.0, l.0) {
                        assert(spec_components(x.0) == spec_components(l.0));
                        assert(spec_path_lt(l.0, s[i].0));
                        if i == s.len() - 1 {
                            lemma_path_order(l.0, l.0, l.0);
                        }
                    }
                } else {
                    assert(r[i] == s[i] && r[j] == s[j]);
                }
            }
        }
    } else {
        let init = s.drop_last();
        let l = s.last();
        lemma_insert_by_path(init, x);
        let mid = spec_insert_by_path(init, x);
        assert(s =~= init.push(l));
        assert(r =~= mid.push(l));
        assert(mid.push(l).to_multiset() =~= mid.to_multiset().insert(l));
        assert(init.push(l).to_multiset() =~= init.to_multiset().insert(l));
        if spec_sorted_by_path(s) {
            assert(spec_sorted_by_path(init)) by {
                assert forall|i: int, j: int| 0 <= i < j < init.len() implies !spec_path_lt(
                    #[trigger] init[j].0,
                    #[trigger] init[i].0,
                ) by {
                    assert(init[i] == s[i] && init[j] == s[j]);
                }
            }
            assert forall|i: int, j: int| 0 <= i < j < r.len() implies !spec_path_lt(
                #[trigger] r[j].0,
                #[trigger] r[i].0,
            ) by {
                if j == r.len() - 1 {
                    let e = mid[i];
                    assert(mid.contains(e));
                    assert(mid.to_multiset().count(e) > 0);
                    if e == x {
                        lemma_path_order(l.0, x.0, l.0);
                        lemma_path_order(x.0, l.0, x.0);
                    } else {
                        assert(init.to_multiset().count(e) > 0);
                        assert(init.contains(e));
                        let k = choose|k: int| 0 <= k < init.len() && init[k] == e;
                        assert(s[k] == e);
                        assert(s[s.len() - 1] == l);
                        assert(!spec_path_lt(s[s.len() - 1].0, s[k].0));
                    }
                } else {
                    assert(r[i] == mid[i] && r[j] == mid[j]);
                }
            }
        }
    }
}

proof fn lemma_sort_by_path<T>(s: Seq<(Seq<char>, T)>)
    ensures
        spec_sort_by_path(s).to_multiset() =~= s.to_multiset(),
        spec_sort_by_path(s).len() == s.len(),
        spec_sorted_by_path(spec_sort_by_path(s)),
    decreases s.len(),
{
    broadcast use vstd::seq_lib::to_multiset_build;

    if s.len() > 0 {
        lemma_sort_by_path(s.drop_last());
        lemma_insert_by_path(spec_sort_by_path(s.drop_last()), s.last());
        assert(s =~= s.drop_last().push(s.last()));
    }
}

/// Deduplication keeps the first entry of each path: no two kept entries name
/// the same path, every kept entry was found, and every found path is kept.
proof fn lemma_dedup_paths<T>(s: Seq<(Seq<char>, T)>)
    ensures
        spec_distinct_paths(spec_dedup_paths(s)),
        forall|i: int|
            0 <= i < spec_dedup_paths(s).len() ==> s.contains(#[trigger] spec_dedup_paths(s)[i]),
        forall|i: int| 0 <= i < s.len() ==> spec_has_path(spec_dedup_paths(s), #[trigger] s[i].0),
    decreases s.len(),
{
    if s.len() > 0 {
        let init = s.drop_last();
        let x = s.last();
        lemma_dedup_paths(init);
        let prev = spec_dedup_paths(init);
        let r = spec_dedup_paths(s);
        assert forall|i: int| 0 <= i < r.len() implies s.contains(#[trigger] r[i]) by {
            if i < prev.len() {
                assert(init.contains(prev[i]));
                let k = choose|k: int| 0 <= k < init.len() && init[k] == prev[i];
                assert(s[k] == prev[i]);
            } else {
                assert(s[s.len() - 1] == x);
            }
        }
        assert forall|i: int| 0 <= i < s.len() implies spec_has_path(r, #[trigger] s[i].0) by {
            if i < init.len() {
                assert(init[i] == s[i]);
                assert(spec_has_path(prev, init[i].0));
                let k = choose|k: int| 0 <= k < prev.len() && spec_same_path(#[trigger] prev[k].0, init[i].0);
                assert(r[k] == prev[k]);
            } else {
                if spec_has_path(prev, x.0) {
                } else {
                    assert(r[prev.len() as int] == x);
                    assert(spec_same_path(r[prev.len() as int].0, x.0));
                }
            }
        }
        if !spec_has_path(prev, x.0) {
            assert forall|i: int, j: int| 0 <= i < j < r.len() implies !spec_same_path(
                #[trigger] r[i].0,
                #[trigger] r[j].0,
            ) by {
                if j == prev.len() {
                    assert(r[j] == x);
                    assert(r[i] == prev[i]);
                    if spec_same_path(prev[i].0, x.0) {
                        assert(spec_has_path(prev, x.0));
                    }
                } else {
                    assert(r[i] == prev[i] && r[j] == prev[j]);
                }
            }
        }
    }
}

/// What a walk keeps: every found path exactly once (by its first sighting),
/// no two entries naming the same path, in strictly increasing path order.
pub proof fn lemma_dedup_sort_files<T>(found: Seq<(Seq<char>, T)>)
    ensures
        spec_distinct_paths(spec_sort_by_path(spec_dedup_paths(found))),
        forall|i: int, j: int|
            0 <= i < j < spec_sort_by_path(spec_dedup_paths(found)).len() ==> spec_path_lt(
                #[trigger] spec_sort_by_path(spec_dedup_paths(found))[i].0,
                #[trigger] spec_sort_by_path(spec_dedup_paths(found))[j].0,
            ),
        forall|i: int|
            0 <= i < spec_sort_by_path(spec_dedup_paths(found)).len() ==> found.contains(
                #[trigger] spec_sort_by_path(spec_dedup_paths(found))[i],
            ),
        forall|i: int|
            0 <= i < found.len() ==> spec_has_path(
                spec_sort_by_path(spec_dedup_paths(found)),
                #[trigger] found[i].0,
            ),
{
    broadcast use vstd::seq_lib::to_multiset_contains;

    let d = spec_dedup_paths(found);
    let r = spec_sort_by_path(d);
    lemma_dedup_paths(found);
    lemma_sort_by_path(d);
    assert forall|i: int| 0 <= i < r.len() implies d.contains(#[trigger] r[i]) by {
        assert(r.to_multiset().count(r[i]) > 0);
    }
    assert forall|i: int, j: int| 0 <= i < j < r.len() implies !spec_same_path(
        #[trigger] r[i].0,
        #[trigger] r[j].0,
    ) by {
        assert(d.contains(r[i]));
        assert(d.contains(r[j]));
        let a = choose|a: int| 0 <= a < d.len() && d[a] == r[i];
        let b = choose|b: int| 0 <= b < d.len() && d[b] == r[j];
        if a == b {
            // The same entry of `d` would appear twice in `r`, but the sort
            // keeps multiplicities and `d` holds it once.
            assert(r.to_multiset().count(r[i]) == d.to_multiset().count(r[i]));
            lemma_entry_once(d, a);
            lemma_count_two(r, i, j);
        } else if a < b {
            assert(!spec_same_path(d[a].0, d[b].0));
        } else {
            assert(!spec_same_path(d[b].0, d[a].0));
            if spec_same_path(r[i].0, r[j].0) {
                assert(spec_components(d[b].0) == spec_components(d[a].0));
            }
        }
    }
    assert forall|i: int, j: int| 0 <= i < j < r.len() implies spec_path_lt(
        #[trigger] r[i].0,
        #[trigger] r[j].0,
    ) by {
        assert(!spec_path_lt(r[j].0, r[i].0));
        assert(!spec_same_path(r[i].0, r[j].0));
        lemma_path_order(r[i].0, r[j].0, r[i].0);
    }
    assert forall|i: int| 0 <= i < r.len() implies found.contains(#[trigger] r[i]) by {
        assert(d.contains(r[i]));
        let a = choose|a: int| 0 <= a < d.len() && d[a] == r[i];
        assert(found.contains(d[a]));
    }
    assert forall|i: int| 0 <= i < found.len() implies spec_has_path(r, #[trigger] found[i].0) by {
        assert(spec_has_path(d, found[i].0));
        let a = choose|a: int| 0 <= a < d.len() && spec_same_path(#[trigger] d[a].0, found[i].0);
        assert(d.to_multiset().count(d[a]) > 0);
        assert(r.to_multiset().count(d[a]) > 0);
        assert(r.contains(d[a]));
        let b = choose|b: int| 0 <= b < r.len() && r[b] == d[a];
        assert(spec_same_path(r[b].0, found[i].0));
    }
}

/// An entry of a list with distinct paths occurs in it once.
proof fn lemma_entry_once<T>(d: Seq<(Seq<char>, T)>, a: int)
    requires
        spec_distinct_paths(d),
        0 <= a < d.len(),
    ensures
        d.to_multiset().count(d[a]) == 1,
    decreases d.len(),
{
    broadcast use vstd::seq_lib::to_multiset_build, vstd::seq_lib::to_multiset_contains;

    let init = d.drop_last();
    assert(d =~= init.push(d.last()));
    assert(spec_distinct_paths(init)) by {
        assert forall|i: int, j: int| 0 <= i < j < init.len() implies !spec_same_path(
            #[trigger] init[i].0,
            #[trigger] init[j].0,
        ) by {
            assert(init[i] == d[i] && init[j] == d[j]);
        }
    }
    if a == d.len() - 1 {
        if init.contains(d[a]) {
            let k = choose|k: int| 0 <= k < init.len() && init[k] == d[a];
            assert(d[k] == d[a]);
            assert(!spec_same_path(d[k].0, d[a].0));
        }
        assert(init.to_multiset().count(d[a]) == 0);
    } else {
        lemma_entry_once(init, a);
        assert(init[a] == d[a]);
        if d.last() == d[a] {
            assert(!spec_same_path(d[a].0, d[d.len() - 1].0));
        }
    }
}

/// Two positions holding the same entry count it at least twice.
proof fn lemma_count_two<T>(r: Seq<T>, i: int, j: int)
    requires
        0 <= i < j < r.len(),
        r[i] == r[j],
    ensures
        r.to_multiset().count(r[i]) >= 2,
    decreases r.len(),
{
    broadcast use vstd::seq_lib::to_multiset_build, vstd::seq_lib::to_multiset_contains;

    let init = r.drop_last();
    assert(r =~= init.push(r.last()));
    if j == r.len() - 1 {
        assert(init[i] == r[i]);
        assert(init.contains(r[i]));
    } else {
        lemma_count_two(init, i, j);
        assert(init[i] == r[i]);
    }
}

/// Two lists, each in strictly increasing path order, that hold the same
/// entries are equal.
proof fn lemma_strictly_sorted_same_entries<T>(a: Seq<(Seq<char>, T)>, b: Seq<(Seq<char>, T)>)
    requires
        forall|i: int, j: int| 0 <= i < j < a.len() ==> spec_path_lt(#[trigger] a[i].0, #[trigger] a[j].0),
        forall|i: int, j: int| 0 <= i < j < b.len() ==> spec_path_lt(#[trigger] b[i].0, #[trigger] b[j].0),
        forall|x: (Seq<char>, T)| #![trigger a.contains(x)] #![trigger b.contains(x)] a.contains(x) <==> b.contains(x),
    ensures
        a == b,
    decreases a.len(),
{
    if a.len() == 0 {
        if b.len() > 0 {
            assert(b.contains(b[0]));
        }
        assert(a =~= b);
    } else {
        assert(a.contains(a[0]));
        let k = choose|k: int| 0 <= k < b.len() && b[k] == a[0];
        assert(b.contains(b[0]));
        let m = choose|m: int| 0 <= m < a.len() && a[m] == b[0];
        if k > 0 {
            assert(spec_path_lt(b[0].0, b[k].0));
            lemma_path_order(a[0].0, b[0].0, a[0].0);
            if m > 0 {
                assert(spec_path_lt(a[0].0, a[m].0));
            }
        }
        assert(a[0] == b[0]);
        let a1 = a.drop_first();
        let b1 = b.drop_first();
        assert forall|x: (Seq<char>, T)| #[trigger] a1.contains(x) implies b1.contains(x) by {
            let i = choose|i: int| 0 <= i < a1.len() && a1[i] == x;
            assert(a[i + 1] == x);
            assert(a.contains(x));
            let j = choose|j: int| 0 <= j < b.len() && b[j] == x;
            assert(spec_path_lt(a[0].0, a[i + 1].0));
            lemma_path_order(x.0, x.0, x.0);
            assert(j != 0);
            assert(b1[j - 1] == x);
        }
        assert forall|x: (Seq<char>, T)| #[trigger] b1.contains(x) implies a1.contains(x) by {
            let j = choose|j: int| 0 <= j < b1.len() && b1[j] == x;
            assert(b[j + 1] == x);
            assert(b.contains(x));
            let i = choose|i: int| 0 <= i < a.len() && a[i] == x;
            assert(spec_path_lt(b[0].0, b[j + 1].0));
            lemma_path_order(x.0, x.0, x.0);
            assert(i != 0);
            assert(a1[i - 1] == x);
        }
        assert forall|i: int, j: int| 0 <= i < j < a1.len() implies spec_path_lt(
            #[trigger] a1[i].0,
            #[trigger] a1[j].0,
        ) by {
            assert(a1[i] == a[i + 1] && a1[j] == a[j + 1]);
        }
        assert forall|i: int, j: int| 0 <= i < j < b1.len() implies spec_path_lt(
            #[trigger] b1[i].0,
            #[trigger] b1[j].0,
        ) by {
            assert(b1[i] == b[i + 1] && b1[j] == b[j + 1]);
        }
        lemma_strictly_sorted_same_entries(a1, b1);
        assert(a =~= seq![a[0]] + a1);
        assert(b =~= seq![b[0]] + b1);
    }
}

/// What one walk keeps, the other keeps too, when both found the same
/// entries and `f` (holding all of them) never has two entries for one path.
proof fn lemma_kept_in_other<T>(fa: Seq<(Seq<char>, T)>, fb: Seq<(Seq<char>, T)>, f: Seq<(Seq<char>, T)>)
    requires
        forall|x: (Seq<char>, T)| #![trigger fa.contains(x)] #![trigger fb.contains(x)] fa.contains(x) <==> fb.contains(x),
        forall|x: (Seq<char>, T)| #[trigger] fa.contains(x) ==> f.contains(x),
        forall|i: int, j: int|
            0 <= i < f.len() && 0 <= j < f.len() && spec_same_path(#[trigger] f[i].0, #[trigger] f[j].0)
                ==> f[i] == f[j],
    ensures
        forall|x: (Seq<char>, T)| #[trigger] spec_sort_by_path(spec_dedup_paths(fa)).contains(x)
            ==> spec_sort_by_path(spec_dedup_paths(fb)).contains(x),
{
    let ra = spec_sort_by_path(spec_dedup_paths(fa));
    let rb = spec_sort_by_path(spec_dedup_paths(fb));
    assert forall|x: (Seq<char>, T)| #[trigger] ra.contains(x) implies rb.contains(x) by {
        let i = choose|i: int| 0 <= i < ra.len() && ra[i] == x;
        assert(fa.contains(x)) by {
            lemma_dedup_sort_files(fa);
        }
        assert(fb.contains(x));
        let p = choose|p: int| 0 <= p < fb.len() && fb[p] == x;
        assert(spec_has_path(rb, x.0)) by {
            lemma_dedup_sort_files(fb);
            assert(spec_has_path(rb, fb[p].0));
        }
        let b = choose|b: int| 0 <= b < rb.len() && spec_same_path(#[trigger] rb[b].0, x.0);
        let y = rb[b];
        assert(fb.contains(y)) by {
            lemma_dedup_sort_files(fb);
        }
        assert(fa.contains(y));
        assert(f.contains(y));
        assert(f.contains(x));
        let i1 = choose|i1: int| 0 <= i1 < f.len() && f[i1] == x;
        let i2 = choose|i2: int| 0 <= i2 < f.len() && f[i2] == y;
        assert(spec_same_path(f[i2].0, f[i1].0));
        assert(f[i2] == f[i1]);
        assert(rb.contains(y));
    }
}

/// The order of discovery does not matter: two walks that found the same
/// entries, in any order and with any repetition, keep the same files in the
/// same order — provided each path was always found with the same entry
/// (what is kept for a file depends on its path alone, spelt one way).
pub proof fn lemma_walk_order_independent<T>(f1: Seq<(Seq<char>, T)>, f2: Seq<(Seq<char>, T)>)
    requires
        forall|x: (Seq<char>, T)| #![trigger f1.contains(x)] #![trigger f2.contains(x)] f1.contains(x) <==> f2.contains(x),
        forall|i: int, j: int|
            0 <= i < f1.len() && 0 <= j < f1.len() && spec_same_path(#[trigger] f1[i].0, #[trigger] f1[j].0)
                ==> f1[i] == f1[j],
    ensures
        spec_sort_by_path(spec_dedup_paths(f1)) == spec_sort_by_path(spec_dedup_paths(f2)),
{
    let r1 = spec_sort_by_path(spec_dedup_paths(f1));
    let r2 = spec_sort_by_path(spec_dedup_paths(f2));
    lemma_kept_in_other(f1, f2, f1);
    lemma_kept_in_other(f2, f1, f1);
    assert forall|i: int, j: int| 0 <= i < j < r1.len() implies spec_path_lt(
        #[trigger] r1[i].0,
        #[trigger] r1[j].0,
    ) by {
        lemma_dedup_sort_files(f1);
    }
    assert forall|i: int, j: int| 0 <= i < j < r2.len() implies spec_path_lt(
        #[trigger] r2[i].0,
        #[trigger] r2[j].0,
    ) by {
        lemma_dedup_sort_files(f2);
    }
    lemma_strictly_sorted_same_entries(r1, r2);
}

} // verus!
