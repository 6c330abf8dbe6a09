//! The orders behind stable, reviewable output.
//!
//! Text compares character by character, a shorter prefix first — which is
//! how `String` orders its UTF-8 bytes. An absent text comes before a present
//! one. Keys compare by `(msgctxt, msgid)`. Lists of keyed entries are sorted
//! stably: entries with equal sort keys keep their order.

use vstd::prelude::*;

use crate::po::{KeyView, PoKey};

verus! {

/// `a` comes strictly before `b`, character by character.
pub open spec fn spec_text_lt(a: Seq<char>, b: Seq<char>) -> bool
    decreases a.len(),
{
    if a.len() == 0 {
        b.len() > 0
    } else if b.len() == 0 {
        false
    } else if a[0] != b[0] {
        a[0] < b[0]
    } else {
        spec_text_lt(a.drop_first(), b.drop_first())
    }
}

/// An absent text comes first; present texts compare as text.
pub open spec fn spec_opt_text_lt(a: Option<Seq<char>>, b: Option<Seq<char>>) -> bool {
    match (a, b) {
        (None, Some(_)) => true,
        (Some(x), Some(y)) => spec_text_lt(x, y),
        _ => false,
    }
}

/// Key `a` sorts strictly before key `b`: by context, then by msgid.
pub open spec fn spec_key_lt(a: KeyView, b: KeyView) -> bool {
    spec_opt_text_lt(a.0, b.0) || (a.0 == b.0 && spec_text_lt(a.1, b.1))
}

/// Whether `a` comes strictly before `b`.
pub fn text_lt(a: &str, b: &str) -> (r: bool)
    ensures
        r == spec_text_lt(a@, b@),
{
    let x = crate::text::chars_of(a);
    let y = crate::text::chars_of(b);
    let mut i: usize = 0;
    assert(x@.skip(0) =~= x@);
    assert(y@.skip(0) =~= y@);
    while i < x.len() && i < y.len() && x[i] == y[i]
        invariant
            i <= x.len(),
            i <= y.len(),
            spec_text_lt(a@, b@) == spec_text_lt(x@.skip(i as int), y@.skip(i as int)),
            x@ == a@,
            y@ == b@,
        decreases x.len() - i,
    {
        assert(x@.skip(i as int).drop_first() =~= x@.skip(i + 1));
        assert(y@.skip(i as int).drop_first() =~= y@.skip(i + 1));
        i = i + 1;
    }
    if i == x.len() {
        i < y.len()
    } else if i == y.len() {
        false
    } else {
        assert(x@.skip(i as int)[0] == x[i as int]);
        assert(y@.skip(i as int)[0] == y[i as int]);
        x[i] < y[i]
    }
}

/// Whether key `a` sorts strictly before key `b`.
pub fn key_lt(a: &PoKey, b: &PoKey) -> (r: bool)
    ensures
        r == spec_key_lt(a@, b@),
{
    let ctx_lt = match (&a.msgctxt, &b.msgctxt) {
        (None, Some(_)) => true,
        (Some(x), Some(y)) => text_lt(x.as_str(), y.as_str()),
        _ => false,
    };
    if ctx_lt {
        return true;
    }
    let same_ctx = crate::text::opt_string_eq(&a.msgctxt, &b.msgctxt);
    same_ctx && text_lt(a.msgid.as_str(), b.msgid.as_str())
}

/// The views of keyed entries.
pub open spec fn keyed_view<T>(v: Seq<(PoKey, T)>) -> Seq<(KeyView, T)> {
    v.map_values(|p: (PoKey, T)| (p.0@, p.1))
}

/// Insert `x` into `s` after every entry that does not sort strictly after
/// it (scanning from the end): equal keys keep their order.
pub open spec fn spec_insert_by_key<T>(s: Seq<(KeyView, T)>, x: (KeyView, T)) -> Seq<(KeyView, T)>
    decreases s.len(),
{
    if s.len() == 0 || !spec_key_lt(x.0, s.last().0) {
        s.push(x)
    } else {
        spec_insert_by_key(s.drop_last(), x).push(s.last())
    }
}

/// Stable insertion sort by key.
pub open spec fn spec_sort_by_key<T>(s: Seq<(KeyView, T)>) -> Seq<(KeyView, T)>
    decreases s.len(),
{
    if s.len() == 0 {
        s
    } else {
        spec_insert_by_key(spec_sort_by_key(s.drop_last()), s.last())
    }
}

/// Sort keyed entries by key, stably.
pub fn sort_by_key<T>(v: Vec<(PoKey, T)>) -> (r: Vec<(PoKey, T)>)
    ensures
        keyed_view(r@) == spec_sort_by_key(keyed_view(v@)),
{
    let ghost sv = keyed_view(v@);
    let mut rest = v;
    let mut out: Vec<(PoKey, T)> = Vec::new();
    let mut i: usize = 0;
    let n = rest.len();
    assert(sv.take(0) =~= Seq::<(KeyView, T)>::empty());
    while rest.len() > 0
        invariant
            i + rest.len() == n,
            n == sv.len(),
            keyed_view(rest@) == sv.skip(i as int),
            keyed_view(out@) == spec_sort_by_key(sv.take(i as int)),
        decreases rest.len(),
    {
        let ghost rv = keyed_view(rest@);
        let x = rest.remove(0);
        proof {
            assert(rv[0] == (x.0@, x.1));
            assert(keyed_view(rest@) =~= rv.drop_first());
            assert(sv.skip(i as int).drop_first() =~= sv.skip(i + 1));
            assert(sv.take(i + 1).drop_last() =~= sv.take(i as int));
            assert(sv.take(i + 1).last() == sv.skip(i as int)[0]);
        }
        let ghost s = keyed_view(out@);
        let ghost xv = (x.0@, x.1);
        let mut p: usize = out.len();
        assert(s.take(p as int) =~= s);
        assert(s.skip(p as int) =~= Seq::<(KeyView, T)>::empty());
        while p > 0 && key_lt(&x.0, &out[p - 1].0)
            invariant
                p <= out.len(),
                s == keyed_view(out@),
                xv == (x.0@, x.1),
                spec_insert_by_key(s, xv) == spec_insert_by_key(s.take(p as int), xv) + s.skip(
                    p as int,
                ),
            decreases p,
        {
            proof {
                assert(s[p - 1] == (out@[p - 1].0@, out@[p - 1].1));
                assert(s.take(p as int).drop_last() =~= s.take(p - 1));
                assert(s.take(p as int).last() == s[p - 1]);
                assert(spec_insert_by_key(s.take(p - 1), xv).push(s[p - 1]) + s.skip(p as int)
                    =~= spec_insert_by_key(s.take(p - 1), xv) + s.skip(p - 1));
            }
            p = p - 1;
        }
        proof {
            if p > 0 {
                assert(s[p - 1] == (out@[p - 1].0@, out@[p - 1].1));
                assert(s.take(p as int).last() == s[p - 1]);
            }
        }
        out.insert(p, x);
        proof {
            assert(keyed_view(out@) =~= s.take(p as int).push(xv) + s.skip(p as int));
        }
        i = i + 1;
    }
    assert(sv.take(n as int) =~= sv);
    out
}

/// No text comes strictly before itself.
pub proof fn lemma_text_lt_irreflexive(a: Seq<char>)
    ensures
        !spec_text_lt(a, a),
    decreases a.len(),
{
    if a.len() > 0 {
        lemma_text_lt_irreflexive(a.drop_first());
    }
}

/// The text order is transitive.
pub proof fn lemma_text_lt_transitive(a: Seq<char>, b: Seq<char>, c: Seq<char>)
    requires
        spec_text_lt(a, b),
        spec_text_lt(b, c),
    ensures
        spec_text_lt(a, c),
    decreases a.len(),
{
    if a.len() > 0 && b.len() > 0 && c.len() > 0 && a[0] == b[0] && b[0] == c[0] {
        lemma_text_lt_transitive(a.drop_first(), b.drop_first(), c.drop_first());
    }
}

/// Any two different texts are ordered one way or the other.
pub proof fn lemma_text_lt_total(a: Seq<char>, b: Seq<char>)
    ensures
        spec_text_lt(a, b) || spec_text_lt(b, a) || a == b,
    decreases a.len(),
{
    if a.len() > 0 && b.len() > 0 {
        if a[0] == b[0] {
            lemma_text_lt_total(a.drop_first(), b.drop_first());
            if a.drop_first() == b.drop_first() {
                assert(a =~= seq![a[0]] + a.drop_first());
                assert(b =~= seq![b[0]] + b.drop_first());
            }
        }
    } else if a.len() == 0 && b.len() == 0 {
        assert(a =~= b);
    }
}

/// No key sorts strictly before itself.
pub proof fn lemma_key_lt_irreflexive(a: KeyView)
    ensures
        !spec_key_lt(a, a),
{
    lemma_text_lt_irreflexive(a.1);
    if let Some(x) = a.0 {
        lemma_text_lt_irreflexive(x);
    }
}

/// The key order is transitive.
pub proof fn lemma_key_lt_transitive(a: KeyView, b: KeyView, c: KeyView)
    requires
        spec_key_lt(a, b),
        spec_key_lt(b, c),
    ensures
        spec_key_lt(a, c),
{
    if let Some(x) = a.0 {
        lemma_text_lt_irreflexive(x);
    }
    if let Some(y) = b.0 {
        lemma_text_lt_irreflexive(y);
    }
    match (a.0, b.0, c.0) {
        (Some(x), Some(y), Some(z)) => {
            if spec_text_lt(x, y) && spec_text_lt(y, z) {
                lemma_text_lt_transitive(x, y, z);
            }
        },
        _ => {},
    }
    if a.0 == b.0 && b.0 == c.0 {
        lemma_text_lt_transitive(a.1, b.1, c.1);
    }
}

/// Two keys either compare strictly or agree on `(msgctxt, msgid)`.
pub proof fn lemma_key_lt_total(a: KeyView, b: KeyView)
    ensures
        spec_key_lt(a, b) || spec_key_lt(b, a) || (a.0 == b.0 && a.1 == b.1),
{
    lemma_text_lt_total(a.1, b.1);
    if let (Some(x), Some(y)) = (a.0, b.0) {
        lemma_text_lt_total(x, y);
    }
}

/// Entries are in key order: no entry sorts strictly before an earlier one.
pub open spec fn spec_sorted_by_key<T>(s: Seq<(KeyView, T)>) -> bool {
    forall|i: int, j: int| 0 <= i < j < s.len() ==> !spec_key_lt(#[trigger] s[j].0, #[trigger] s[i].0)
}

/// Inserting keeps the entries and adds `x`; into a sorted list, it keeps the
/// list sorted.
pub proof fn lemma_insert_by_key<T>(s: Seq<(KeyView, T)>, x: (KeyView, T))
    ensures
        spec_insert_by_key(s, x).to_multiset() =~= s.to_multiset().insert(x),
        spec_insert_by_key(s, x).len() == s.len() + 1,
        spec_sorted_by_key(s) ==> spec_sorted_by_key(spec_insert_by_key(s, x)),
    decreases s.len(),
{
    broadcast use vstd::seq_lib::to_multiset_build, vstd::seq_lib::to_multiset_contains;

    let r = spec_insert_by_key(s, x);
    if s.len() == 0 || !spec_key_lt(x.0, s.last().0) {
        if s.len() > 0 && spec_sorted_by_key(s) {
            assert forall|i: int, j: int| 0 <= i < j < r.len() implies !spec_key_lt(
                #[trigger] r[j].0,
                #[trigger] r[i].0,
            ) by {
                if j == s.len() {
                    let l = s.last();
                    assert(s[s.len() - 1] == l);
                    if i < s.len() - 1 {
                        assert(!spec_key_lt(s[s.len() - 1].0, s[i].0));
                    }
                    lemma_key_lt_total(x.0, l.0);
                    if spec_key_lt(x.0, s[i].0) {
                        if spec_key_lt(l.0, x.0) {
                            lemma_key_lt_transitive(l.0, x.0, s[i].0);
                            if i == s.len() - 1 {
                                lemma_key_lt_irreflexive(l.0);
                            }
                        } else if i == s.len() - 1 {
                            assert(spec_key_lt(x.0, l.0));
                        }
                    }
                } else {
                    assert(r[i] == s[i] && r[j] == s[j]);
                }
            }
        }
    } else {
        let init = s.drop_last();
        let l = s.last();
        lemma_insert_by_key(init, x);
        let mid = spec_insert_by_key(init, x);
        assert(s =~= init.push(l));
        assert(r =~= mid.push(l));
        assert(mid.push(l).to_multiset() =~= mid.to_multiset().insert(l));
        assert(init.push(l).to_multiset() =~= init.to_multiset().insert(l));
        if spec_sorted_by_key(s) {
            assert(spec_sorted_by_key(init)) by {
                assert forall|i: int, j: int| 0 <= i < j < init.len() implies !spec_key_lt(
                    #[trigger] init[j].0,
                    #[trigger] init[i].0,
                ) by {
                    assert(init[i] == s[i] && init[j] == s[j]);
                }
            }
            assert forall|i: int, j: int| 0 <= i < j < r.len() implies !spec_key_lt(
                #[trigger] r[j].0,
                #[trigger] r[i].0,
            ) by {
                if j == r.len() - 1 {
                    let e = mid[i];
                    assert(mid.contains(e));
                    assert(mid.to_multiset().count(e) > 0);
                    if e == x {
                        if spec_key_lt(l.0, x.0) {
                            lemma_key_lt_transitive(x.0, l.0, x.0);
                            lemma_key_lt_irreflexive(x.0);
                        }
                    } else {
                        assert(init.to_multiset().count(e) > 0);
                        assert(init.contains(e));
                        let k = choose|k: int| 0 <= k < init.len() && init[k] == e;
                        assert(s[k] == e);
                        assert(s[s.len() - 1] == l);
                        assert(!spec_key_lt(s[s.len() - 1].0, s[k].0));
                    }
                } else {
                    assert(r[i] == mid[i] && r[j] == mid[j]);
                }
            }
        }
    }
}

/// Sorting keeps every entry (with its multiplicity) and puts them in key
/// order.
pub proof fn lemma_sort_by_key<T>(s: Seq<(KeyView, T)>)
    ensures
        spec_sort_by_key(s).to_multiset() =~= s.to_multiset(),
        spec_sort_by_key(s).len() == s.len(),
        spec_sorted_by_key(spec_sort_by_key(s)),
    decreases s.len(),
{
    broadcast use vstd::seq_lib::to_multiset_build;

    if s.len() > 0 {
        lemma_sort_by_key(s.drop_last());
        lemma_insert_by_key(spec_sort_by_key(s.drop_last()), s.last());
        assert(s =~= s.drop_last().push(s.last()));
    }
}

} // verus!
