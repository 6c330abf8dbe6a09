//! Source scanning — which files count as source, and the fold of the
//! per-file results into one `Usage`.
//!
//! Files are folded in the order they are given (the walk hands them over
//! sorted by path), so the aggregate never depends on how the per-file work
//! was scheduled.

use vstd::prelude::*;

use crate::config::{calls_view, CallSpec, CallSpecView};
use crate::extract::{extract, spec_extract, spec_lang_of_extension, ExtractResult, ExtractView, SourceLang};
use crate::liveness::{
    lemma_blind_add_sorted, spec_labels_sorted, spec_union_strs, spec_usage_add, Usage, UsageView,
};
use crate::extract::lemma_insert_str;
use crate::text::{chars_of, lowercase, str_eq, str_to_lowercase, string_of, strings_view};
use crate::walk::{dedup_sort_files, pathed_view, spec_dedup_paths, spec_sort_by_path, FileEntry};

verus! {

/// The final component of a `/`-separated path.
pub open spec fn spec_file_name(path: Seq<char>) -> Seq<char>
    decreases path.len(),
{
    if path.len() == 0 {
        path
    } else if path.last() == '/' {
        Seq::empty()
    } else {
        spec_file_name(path.drop_last()).push(path.last())
    }
}

/// The extension of a file name (`Path::extension`): the part after its last
/// `.`; none without a `.`, or when the only `.` starts the name.
pub open spec fn spec_extension(name: Seq<char>) -> Option<Seq<char>> {
    if exists|i: int| 0 < i < name.len() && name[i] == '.' {
        let k = choose|k: int|
            0 < k < name.len() && name[k] == '.' && (forall|j: int| k < j < name.len() ==> name[j] != '.');
        Some(name.subrange(k + 1, name.len() as int))
    } else {
        None
    }
}

/// The extension of the last component of a path.
pub fn extension_of(path: &str) -> (r: Option<String>)
    ensures
        match r {
            Some(e) => spec_extension(spec_file_name(path@)) == Some(e@),
            None => spec_extension(spec_file_name(path@)) is None,
        },
{
    let cs = chars_of(path);
    let mut name: Vec<char> = Vec::new();
    let mut i: usize = 0;
    assert(cs@.take(0) =~= Seq::<char>::empty());
    while i < cs.len()
        invariant
            cs@ == path@,
            i <= cs.len(),
            name@ == spec_file_name(cs@.take(i as int)),
        decreases cs.len() - i,
    {
        assert(cs@.take(i + 1).drop_last() =~= cs@.take(i as int));
        assert(cs@.take(i + 1).last() == cs[i as int]);
        if cs[i] == '/' {
            name = Vec::new();
        } else {
            name.push(cs[i]);
        }
        i = i + 1;
    }
    assert(cs@.take(cs.len() as int) =~= cs@);
    let ghost n = name@;
    let mut k: usize = name.len();
    while k > 0 && name[k - 1] != '.'
        invariant
            n == name@,
            k <= name.len(),
            forall|j: int| k <= j < name.len() ==> name@[j] != '.',
        decreases k,
    {
        k = k - 1;
    }
    if k <= 1 {
        proof {
            if exists|i: int| 0 < i < n.len() && n[i] == '.' {
                let i = choose|i: int| 0 < i < n.len() && n[i] == '.';
                assert(false);
            }
        }
        return None;
    }
    let dot = k - 1;
    let mut ext: Vec<char> = Vec::new();
    let mut j: usize = k;
    while j < name.len()
        invariant
            k <= j <= name.len(),
            n == name@,
            ext@ == n.subrange(k as int, j as int),
        decreases name.len() - j,
    {
        ext.push(name[j]);
        assert(ext@ =~= n.subrange(k as int, j + 1));
        j = j + 1;
    }
    proof {
        assert(0 < dot < n.len() && n[dot as int] == '.');
        let c = choose|c: int|
            0 < c < n.len() && n[c] == '.' && (forall|j: int| c < j < n.len() ==> n[j] != '.');
        if c != dot {
            if c < dot {
                assert(n[dot as int] != '.');
            } else {
                assert(n[c] != '.');
            }
        }
    }
    Some(string_of(ext.as_slice()))
}

/// The lowercase forms of the configured extensions.
pub open spec fn spec_lowered(exts: Seq<Seq<char>>) -> Seq<Seq<char>> {
    exts.map_values(|e: Seq<char>| str_to_lowercase(e))
}

/// The source language of a file: its extension, lowercased, must be one of
/// the configured extensions (compared lowercased) and name a language.
#[verifier::opaque]
pub open spec fn spec_source_lang(path: Seq<char>, exts: Seq<Seq<char>>) -> Option<SourceLang> {
    match spec_extension(spec_file_name(path)) {
        None => None,
        Some(e) => {
            let lower = str_to_lowercase(e);
            if spec_lowered(exts).contains(lower) {
                spec_lang_of_extension(str_to_lowercase(lower))
            } else {
                None
            }
        },
    }
}

/// Whether a file is scannable source, and in which language.
pub fn source_lang_of(path: &str, source_extensions: &[String]) -> (r: Option<SourceLang>)
    ensures
        r == spec_source_lang(path@, strings_view(source_extensions@)),
{
    reveal(spec_source_lang);
    let ghost ev = strings_view(source_extensions@);
    let ext = match extension_of(path) {
        None => return None,
        Some(e) => e,
    };
    let lower = lowercase(ext.as_str());
    let mut i: usize = 0;
    let mut listed = false;
    while i < source_extensions.len()
        invariant
            ev == strings_view(source_extensions@),
            i <= source_extensions.len(),
            listed == spec_lowered(ev).take(i as int).contains(lower@),
        decreases source_extensions.len() - i,
    {
        let l = lowercase(source_extensions[i].as_str());
        assert(spec_lowered(ev)[i as int] == l@);
        assert(spec_lowered(ev).take(i + 1) =~= spec_lowered(ev).take(i as int).push(l@));
        if str_eq(l.as_str(), lower.as_str()) {
            listed = true;
        }
        proof {
            let t0 = spec_lowered(ev).take(i as int);
            let t1 = spec_lowered(ev).take(i + 1);
            if t1.contains(lower@) && !t0.contains(lower@) {
                let m = choose|m: int| 0 <= m < t1.len() && t1[m] == lower@;
                if m < i {
                    assert(t0[m] == lower@);
                }
            }
            if t0.contains(lower@) {
                let m = choose|m: int| 0 <= m < t0.len() && t0[m] == lower@;
                assert(t1[m] == lower@);
            }
            if l@ == lower@ {
                assert(t1[i as int] == lower@);
            }
        }
        i = i + 1;
    }
    assert(spec_lowered(ev).take(source_extensions.len() as int) =~= spec_lowered(ev));
    if !listed {
        return None;
    }
    SourceLang::from_extension(lower.as_str())
}

/// The empty usage aggregate.
pub open spec fn spec_empty_usage() -> UsageView {
    (Seq::empty(), Seq::empty(), Seq::empty(), Seq::empty())
}

/// Fold per-file results, in order, into a usage aggregate.
pub open spec fn spec_fold_results(results: Seq<(SourceLang, ExtractView)>) -> UsageView
    decreases results.len(),
{
    if results.len() == 0 {
        spec_empty_usage()
    } else {
        let prev = spec_fold_results(results.drop_last());
        spec_usage_add(prev, results.last().0.spec_family_label(), results.last().1)
    }
}

/// The views of per-file results.
pub open spec fn results_view(v: Seq<(SourceLang, ExtractResult)>) -> Seq<(SourceLang, ExtractView)> {
    v.map_values(|p: (SourceLang, ExtractResult)| (p.0, p.1@))
}

/// Fold per-file extraction results, in the order given, into one `Usage`,
/// attributing each file's blind sites to its language family.
pub fn fold_results(results: Vec<(SourceLang, ExtractResult)>) -> (r: Usage)
    ensures
        r@ == spec_fold_results(results_view(results@)),
{
    let ghost rv = results_view(results@);
    let mut usage = Usage::new();
    assert(usage@ =~= spec_empty_usage());
    let mut rest = results;
    let mut i: usize = 0;
    let n = rest.len();
    while rest.len() > 0
        invariant
            i + rest.len() == n,
            n == rv.len(),
            results_view(rest@) == rv.skip(i as int),
            usage@ == spec_fold_results(rv.take(i as int)),
        decreases rest.len(),
    {
        let ghost before = results_view(rest@);
        let (lang, res) = rest.remove(0);
        proof {
            assert(before[0] == (lang, res@));
            assert(results_view(rest@) =~= before.drop_first());
            assert(rv.skip(i as int).drop_first() =~= rv.skip(i + 1));
            assert(rv.take(i + 1).drop_last() =~= rv.take(i as int));
            assert(rv.take(i + 1).last() == rv.skip(i as int)[0]);
        }
        usage.add(lang.family_label(), res);
        i = i + 1;
    }
    assert(rv.take(n as int) =~= rv);
    usage
}

/// What each source file, given with its language and text, contributes.
pub open spec fn spec_file_results(
    files: Seq<(SourceLang, Seq<char>)>,
    calls: Seq<CallSpecView>,
    min_len: nat,
) -> Seq<(SourceLang, ExtractView)> {
    files.map_values(|f: (SourceLang, Seq<char>)| (f.0, spec_extract(f.0, f.1, calls, min_len)))
}

/// The views of source files with their language.
pub open spec fn files_view(v: Seq<(SourceLang, String)>) -> Seq<(SourceLang, Seq<char>)> {
    v.map_values(|p: (SourceLang, String)| (p.0, p.1@))
}

/// Extract from each source file, in order, and fold the results into one
/// `Usage`.
pub fn aggregate(files: &[(SourceLang, String)], calls: &[CallSpec], min_guard_len: usize) -> (r:
    Usage)
    ensures
        r@ == spec_fold_results(
            spec_file_results(files_view(files@), calls_view(calls@), min_guard_len as nat),
        ),
{
    let ghost fv = spec_file_results(files_view(files@), calls_view(calls@), min_guard_len as nat);
    let mut results: Vec<(SourceLang, ExtractResult)> = Vec::new();
    let mut i: usize = 0;
    while i < files.len()
        invariant
            fv == spec_file_results(files_view(files@), calls_view(calls@), min_guard_len as nat),
            i <= files.len(),
            results_view(results@) == fv.take(i as int),
        decreases files.len() - i,
    {
        let lang = files[i].0;
        let res = extract(lang, files[i].1.as_str(), calls, min_guard_len);
        assert(fv[i as int] == (lang, res@));
        let ghost before = results_view(results@);
        results.push((lang, res));
        assert(results_view(results@) =~= before.push((lang, res@)));
        assert(fv.take(i + 1) =~= fv.take(i as int).push(fv[i as int]));
        i = i + 1;
    }
    assert(fv.take(files.len() as int) =~= fv);
    fold_results(results)
}

/// The source files among the first `k` found files, by full path, with
/// their language.
pub open spec fn spec_source_entries(
    entries: Seq<Seq<char>>,
    exts: Seq<Seq<char>>,
    k: int,
) -> Seq<(Seq<char>, SourceLang)>
    decreases k,
{
    if k <= 0 {
        Seq::empty()
    } else {
        let prev = spec_source_entries(entries, exts, k - 1);
        match spec_source_lang(entries[k - 1], exts) {
            Some(lang) => prev.push((entries[k - 1], lang)),
            None => prev,
        }
    }
}

/// The full paths of found files.
pub open spec fn abs_view(v: Seq<FileEntry>) -> Seq<Seq<char>> {
    v.map_values(|e: FileEntry| e.abs@)
}

/// The scannable source files among the found files, with their language:
/// each kept once, in path order.
pub open spec fn spec_select_sources(entries: Seq<Seq<char>>, exts: Seq<Seq<char>>) -> Seq<
    (Seq<char>, SourceLang),
> {
    spec_sort_by_path(spec_dedup_paths(spec_source_entries(entries, exts, entries.len() as int)))
}

/// Pick the scannable source files among the files a walk found, mapped to
/// their language, each kept once, in path order.
pub fn select_source_files(entries: &Vec<FileEntry>, source_extensions: &[String]) -> (r: Vec<
    (String, SourceLang),
>)
    ensures
        pathed_view(r@) == spec_select_sources(abs_view(entries@), strings_view(source_extensions@)),
{
    let ghost av = abs_view(entries@);
    let ghost xv = strings_view(source_extensions@);
    let mut found: Vec<(String, SourceLang)> = Vec::new();
    let mut i: usize = 0;
    while i < entries.len()
        invariant
            av == abs_view(entries@),
            xv == strings_view(source_extensions@),
            i <= entries.len(),
            pathed_view(found@) == spec_source_entries(av, xv, i as int),
        decreases entries.len() - i,
    {
        let e = &entries[i];
        assert(av[i as int] == e.abs@);
        match source_lang_of(e.abs.as_str(), source_extensions) {
            Some(lang) => {
                let ghost before = pathed_view(found@);
                found.push((e.abs.clone(), lang));
                assert(pathed_view(found@) =~= before.push((e.abs@, lang)));
            },
            None => {},
        }
        i = i + 1;
    }
    dedup_sort_files(found)
}

/// Folding strings in set-wise keeps the list distinct and yields exactly the
/// strings of both.
pub proof fn lemma_union_strs(a: Seq<Seq<char>>, b: Seq<Seq<char>>)
    requires
        a.no_duplicates(),
    ensures
        spec_union_strs(a, b).no_duplicates(),
        forall|t: Seq<char>| #[trigger] spec_union_strs(a, b).contains(t) <==> (a.contains(t) || b.contains(t)),
    decreases b.len(),
{
    if b.len() > 0 {
        let a2 = crate::extract::spec_insert_str(a, b[0]);
        lemma_insert_str(a, b[0]);
        lemma_union_strs(a2, b.drop_first());
        assert forall|t: Seq<char>| #[trigger] spec_union_strs(a, b).contains(t) <==> (a.contains(t)
            || b.contains(t)) by {
            if b.drop_first().contains(t) {
                let i = choose|i: int| 0 <= i < b.drop_first().len() && b.drop_first()[i] == t;
                assert(b[i + 1] == t);
            }
            if b.contains(t) && t != b[0] {
                let i = choose|i: int| 0 <= i < b.len() && b[i] == t;
                assert(b.drop_first()[i - 1] == t);
            }
            if t == b[0] {
                assert(b.contains(t));
            }
        }
    }
}

/// Some file's result among `rs` holds `t` among its literal keys.
pub open spec fn spec_some_literal(rs: Seq<(SourceLang, ExtractView)>, t: Seq<char>) -> bool {
    exists|i: int| 0 <= i < rs.len() && (#[trigger] rs[i]).1.0.contains(t)
}

/// Some file's result among `rs` holds `t` among its source literals.
pub open spec fn spec_some_source_literal(rs: Seq<(SourceLang, ExtractView)>, t: Seq<char>) -> bool {
    exists|i: int| 0 <= i < rs.len() && (#[trigger] rs[i]).1.3.contains(t)
}

/// The aggregate is the union of the files' contributions: its literal keys
/// and source literals are exactly those of some file, each listed once, its
/// guards are the files' guards in file order, and its blind summary lists
/// each language label once, in label order.
pub proof fn lemma_fold_results(rs: Seq<(SourceLang, ExtractView)>)
    ensures
        spec_fold_results(rs).0.no_duplicates(),
        spec_fold_results(rs).3.no_duplicates(),
        forall|t: Seq<char>| #[trigger] spec_fold_results(rs).0.contains(t) <==> spec_some_literal(rs, t),
        forall|t: Seq<char>| #[trigger] spec_fold_results(rs).3.contains(t) <==> spec_some_source_literal(rs, t),
        spec_labels_sorted(spec_fold_results(rs).2),
    decreases rs.len(),
{
    if rs.len() > 0 {
        let init = rs.drop_last();
        let last = rs.last();
        lemma_fold_results(init);
        let prev = spec_fold_results(init);
        lemma_union_strs(prev.0, last.1.0);
        lemma_union_strs(prev.3, last.1.3);
        if last.1.2 > 0 {
            lemma_blind_add_sorted(prev.2, last.0.spec_family_label(), last.1.2);
        }
        assert forall|t: Seq<char>| #[trigger] spec_fold_results(rs).0.contains(t)
            <==> spec_some_literal(rs, t) by {
            if spec_some_literal(init, t) {
                let i = choose|i: int| 0 <= i < init.len() && (#[trigger] init[i]).1.0.contains(t);
                assert(rs[i] == init[i]);
            }
            if spec_some_literal(rs, t) && !last.1.0.contains(t) {
                let i = choose|i: int| 0 <= i < rs.len() && (#[trigger] rs[i]).1.0.contains(t);
                if i < init.len() {
                    assert(init[i] == rs[i]);
                }
            }
            if last.1.0.contains(t) {
                assert(rs[rs.len() - 1] == last);
            }
        }
        assert forall|t: Seq<char>| #[trigger] spec_fold_results(rs).3.contains(t)
            <==> spec_some_source_literal(rs, t) by {
            if spec_some_source_literal(init, t) {
                let i = choose|i: int| 0 <= i < init.len() && (#[trigger] init[i]).1.3.contains(t);
                assert(rs[i] == init[i]);
            }
            if spec_some_source_literal(rs, t) && !last.1.3.contains(t) {
                let i = choose|i: int| 0 <= i < rs.len() && (#[trigger] rs[i]).1.3.contains(t);
                if i < init.len() {
                    assert(init[i] == rs[i]);
                }
            }
            if last.1.3.contains(t) {
                assert(rs[rs.len() - 1] == last);
            }
        }
    }
}

} // verus!
