//! PO key universe — the set of keys checked for liveness.
//!
//! The universe is the union of msgids across all locales. A key is
//! `(msgctxt?, msgid, msgid_plural?)`, so context and plural catalogs are
//! supported generically. Obsolete (`#~`) entries never reach this module (the
//! catalog parser treats them as comments); fuzzy entries and the metadata
//! header (empty msgid) are skipped here. msgids arrive already decoded.

use vstd::prelude::*;

use crate::text::{copy_opt_string, copy_strings, opt_string_eq, string_eq, strings_view};
use crate::walk::{dedup_sort_files, pathed_view, spec_dedup_paths, spec_sort_by_path, FileEntry};

verus! {

/// A PO catalog key. Two entries with the same triple are the same key.
#[derive(Debug, Clone, PartialEq, Eq, Hash)]
pub struct PoKey {
    pub msgctxt: Option<String>,
    pub msgid: String,
    pub msgid_plural: Option<String>,
}

/// The mathematical value of a key.
pub type KeyView = (Option<Seq<char>>, Seq<char>, Option<Seq<char>>);

impl View for PoKey {
    type V = KeyView;

    open spec fn view(&self) -> KeyView {
        (self.msgctxt.deep_view(), self.msgid@, self.msgid_plural.deep_view())
    }
}

impl PoKey {
    /// A field-for-field copy.
    pub fn copy(&self) -> (r: PoKey)
        ensures
            r@ == self@,
    {
        PoKey {
            msgctxt: copy_opt_string(&self.msgctxt),
            msgid: self.msgid.clone(),
            msgid_plural: copy_opt_string(&self.msgid_plural),
        }
    }

    /// Whether two keys are the same triple.
    pub fn same_key(&self, other: &PoKey) -> (r: bool)
        ensures
            r == (self@ == other@),
    {
        opt_string_eq(&self.msgctxt, &other.msgctxt) && string_eq(&self.msgid, &other.msgid)
            && opt_string_eq(&self.msgid_plural, &other.msgid_plural)
    }
}

/// One message as a catalog parser reports it: its key fields and whether it
/// carries the `fuzzy` flag. `msgid_plural` is present only on plural entries.
#[derive(Debug, Clone, PartialEq, Eq)]
pub struct PoMessage {
    pub msgctxt: Option<String>,
    pub msgid: String,
    pub msgid_plural: Option<String>,
    pub fuzzy: bool,
}

/// The mathematical value of a catalog message.
pub type MessageView = (KeyView, bool);

impl View for PoMessage {
    type V = MessageView;

    open spec fn view(&self) -> MessageView {
        (
            (self.msgctxt.deep_view(), self.msgid@, self.msgid_plural.deep_view()),
            self.fuzzy,
        )
    }
}

/// The views of a sequence of keys.
pub open spec fn keys_view(k: Seq<PoKey>) -> Seq<KeyView> {
    k.map_values(|x: PoKey| x@)
}

/// The views of a catalog's messages.
pub open spec fn messages_view(m: Seq<PoMessage>) -> Seq<MessageView> {
    m.map_values(|x: PoMessage| x@)
}

/// No key occurs twice.
pub open spec fn keys_unique(k: Seq<KeyView>) -> bool {
    forall|i: int, j: int| 0 <= i < j < k.len() ==> k[i] != k[j]
}

/// Add a key to a key sequence unless it is already there.
pub open spec fn spec_insert_key(keys: Seq<KeyView>, k: KeyView) -> Seq<KeyView> {
    if keys.contains(k) {
        keys
    } else {
        keys.push(k)
    }
}

/// A message enters the universe unless it is fuzzy or the metadata header
/// (empty msgid).
pub open spec fn message_counts(m: MessageView) -> bool {
    !m.1 && m.0.1.len() > 0
}

/// Fold the first `j` messages of a catalog into a key sequence.
pub open spec fn spec_add_messages(keys: Seq<KeyView>, msgs: Seq<MessageView>, j: int) -> Seq<
    KeyView,
>
    decreases j,
{
    if j <= 0 {
        keys
    } else {
        let before = spec_add_messages(keys, msgs, j - 1);
        if message_counts(msgs[j - 1]) {
            spec_insert_key(before, msgs[j - 1].0)
        } else {
            before
        }
    }
}

/// Fold the first `i` catalogs into a key sequence, starting from nothing.
pub open spec fn spec_build_upto(cats: Seq<Seq<MessageView>>, i: int) -> Seq<KeyView>
    decreases i,
{
    if i <= 0 {
        Seq::empty()
    } else {
        let before = spec_build_upto(cats, i - 1);
        spec_add_messages(before, cats[i - 1], cats[i - 1].len() as int)
    }
}

/// The key universe of a list of catalogs, in first-seen order.
pub open spec fn spec_build_index(cats: Seq<Seq<MessageView>>) -> Seq<KeyView> {
    spec_build_upto(cats, cats.len() as int)
}

/// The views of a list of catalogs.
pub open spec fn catalogs_view(c: Seq<Vec<PoMessage>>) -> Seq<Seq<MessageView>> {
    c.map_values(|x: Vec<PoMessage>| messages_view(x@))
}

/// The key `k` is carried by a counted message of some catalog.
pub open spec fn key_from_catalogs(cats: Seq<Seq<MessageView>>, k: KeyView) -> bool {
    exists|i: int, j: int|
        0 <= i < cats.len() && 0 <= j < cats[i].len() && message_counts(#[trigger] cats[i][j])
            && cats[i][j].0 == k
}

/// A key carries `msgid` as its singular or plural form.
pub open spec fn key_has_form(k: KeyView, msgid: Seq<char>) -> bool {
    k.1 == msgid || k.2 == Some(msgid)
}

/// The deduplicated key universe.
#[derive(Debug, Default)]
pub struct PoIndex {
    keys: Vec<PoKey>,
}

impl View for PoIndex {
    type V = Seq<KeyView>;

    closed spec fn view(&self) -> Seq<KeyView> {
        keys_view(self.keys@)
    }
}

impl PoIndex {
    #[verifier::type_invariant]
    spec fn unique(&self) -> bool {
        keys_unique(keys_view(self.keys@))
    }

    /// Number of distinct keys.
    pub fn len(&self) -> (r: usize)
        ensures
            r == self@.len(),
            keys_unique(self@),
    {
        proof {
            use_type_invariant(self);
        }
        self.keys.len()
    }

    /// Whether the universe is empty.
    pub fn is_empty(&self) -> (r: bool)
        ensures
            r == (self@.len() == 0),
    {
        self.keys.len() == 0
    }

    /// The unique keys, in first-seen order: no key occurs twice.
    pub fn keys(&self) -> (r: &[PoKey])
        ensures
            keys_view(r@) == self@,
            keys_unique(self@),
    {
        proof {
            use_type_invariant(self);
        }
        self.keys.as_slice()
    }

    /// Whether any key carries this exact msgid (singular or plural form).
    pub fn contains_msgid(&self, msgid: &str) -> (r: bool)
        ensures
            r == exists|i: int| 0 <= i < self@.len() && key_has_form(#[trigger] self@[i], msgid@),
    {
        let target = msgid.to_owned();
        let mut i: usize = 0;
        while i < self.keys.len()
            invariant
                i <= self.keys.len(),
                target@ == msgid@,
                forall|j: int| 0 <= j < i ==> !key_has_form(#[trigger] self@[j], msgid@),
            decreases self.keys.len() - i,
        {
            let k = &self.keys[i];
            let hit = string_eq(&k.msgid, &target) || match &k.msgid_plural {
                Some(p) => string_eq(p, &target),
                None => false,
            };
            if hit {
                assert(self@[i as int] == k@);
                return true;
            }
            assert(self@[i as int] == k@);
            i = i + 1;
        }
        false
    }

    /// Whether the universe already holds a key.
    fn has_key(&self, key: &PoKey) -> (r: bool)
        ensures
            r == self@.contains(key@),
    {
        let mut i: usize = 0;
        while i < self.keys.len()
            invariant
                i <= self.keys.len(),
                forall|j: int| 0 <= j < i ==> self@[j] != key@,
            decreases self.keys.len() - i,
        {
            if self.keys[i].same_key(key) {
                assert(self@[i as int] == key@);
                return true;
            }
            i = i + 1;
        }
        false
    }

    /// Add a key unless it is already present.
    fn insert(&mut self, key: PoKey)
        ensures
            final(self)@ == spec_insert_key(old(self)@, key@),
    {
        proof {
            use_type_invariant(&*self);
        }
        if !self.has_key(&key) {
            let ghost old_keys = self.keys@;
            let mut keys = Vec::new();
            std::mem::swap(&mut keys, &mut self.keys);
            keys.push(key);
            proof {
                assert(keys_view(keys@) =~= keys_view(old_keys).push(key@));
            }
            self.keys = keys;
        }
    }

    /// An index over the given keys, duplicates merged (first occurrence kept).
    pub fn from_keys(keys: Vec<PoKey>) -> (r: PoIndex)
        ensures
            r@ == spec_from_keys(keys_view(keys@), keys@.len() as int),
    {
        let mut index = PoIndex { keys: Vec::new() };
        assert(keys_view(index.keys@) =~= Seq::<KeyView>::empty());
        let mut i: usize = 0;
        while i < keys.len()
            invariant
                i <= keys.len(),
                index@ == spec_from_keys(keys_view(keys@), i as int),
            decreases keys.len() - i,
        {
            index.insert(keys[i].copy());
            i = i + 1;
        }
        index
    }
}

/// Insert the first `i` keys of `ks` one by one into an empty universe.
pub open spec fn spec_from_keys(ks: Seq<KeyView>, i: int) -> Seq<KeyView>
    decreases i,
{
    if i <= 0 {
        Seq::empty()
    } else {
        spec_insert_key(spec_from_keys(ks, i - 1), ks[i - 1])
    }
}

/// Build the key universe from the messages of each catalog: every message that
/// is neither fuzzy nor the metadata header contributes its key, once.
pub fn build_index(catalogs: &Vec<Vec<PoMessage>>) -> (r: PoIndex)
    ensures
        r@ == spec_build_index(catalogs_view(catalogs@)),
{
    let ghost cats = catalogs_view(catalogs@);
    let mut index = PoIndex { keys: Vec::new() };
    assert(keys_view(index.keys@) =~= Seq::<KeyView>::empty());
    let mut i: usize = 0;
    while i < catalogs.len()
        invariant
            i <= catalogs.len(),
            cats == catalogs_view(catalogs@),
            index@ == spec_build_upto(cats, i as int),
        decreases catalogs.len() - i,
    {
        let cat = &catalogs[i];
        let ghost start = index@;
        let ghost msgs = messages_view(cat@);
        assert(cats[i as int] == msgs);
        let mut j: usize = 0;
        while j < cat.len()
            invariant
                i < catalogs.len(),
                cat == &catalogs[i as int],
                msgs == messages_view(cat@),
                j <= cat.len(),
                index@ == spec_add_messages(start, msgs, j as int),
            decreases cat.len() - j,
        {
            let m = &cat[j];
            assert(msgs[j as int] == m@);
            if !m.fuzzy && !m.msgid.as_str().is_empty() {
                index.insert(PoKey {
                    msgctxt: copy_opt_string(&m.msgctxt),
                    msgid: m.msgid.clone(),
                    msgid_plural: copy_opt_string(&m.msgid_plural),
                });
            }
            j = j + 1;
        }
        i = i + 1;
    }
    index
}

/// Inserting a key keeps a sequence duplicate-free and adds exactly that key.
proof fn lemma_insert_key(keys: Seq<KeyView>, k: KeyView)
    ensures
        forall|x: KeyView| #[trigger] spec_insert_key(keys, k).contains(x) <==> (keys.contains(x) || x == k),
        keys_unique(keys) ==> keys_unique(spec_insert_key(keys, k)),
{
    if !keys.contains(k) {
        let r = keys.push(k);
        assert forall|x: KeyView| #[trigger] r.contains(x) <==> (keys.contains(x) || x == k) by {
            if r.contains(x) {
                let i = choose|i: int| 0 <= i < r.len() && r[i] == x;
                if i < keys.len() {
                    assert(keys[i] == x);
                }
            }
            if keys.contains(x) {
                let i = choose|i: int| 0 <= i < keys.len() && keys[i] == x;
                assert(r[i] == x);
            }
            if x == k {
                assert(r[keys.len() as int] == x);
            }
        }
        if keys_unique(keys) {
            assert forall|i: int, j: int| 0 <= i < j < r.len() implies r[i] != r[j] by {
                if j == keys.len() {
                    assert(r[i] == keys[i]);
                }
            }
        }
    }
}

/// Folding messages adds exactly the keys of the counted ones, without
/// duplicates.
proof fn lemma_add_messages(keys: Seq<KeyView>, msgs: Seq<MessageView>, j: int)
    requires
        0 <= j <= msgs.len(),
    ensures
        forall|x: KeyView| #[trigger] spec_add_messages(keys, msgs, j).contains(x) <==> (keys.contains(x)
            || exists|jj: int| 0 <= jj < j && message_counts(#[trigger] msgs[jj]) && msgs[jj].0 == x),
        keys_unique(keys) ==> keys_unique(spec_add_messages(keys, msgs, j)),
    decreases j,
{
    if j > 0 {
        lemma_add_messages(keys, msgs, j - 1);
        let before = spec_add_messages(keys, msgs, j - 1);
        if message_counts(msgs[j - 1]) {
            lemma_insert_key(before, msgs[j - 1].0);
        }
        assert forall|x: KeyView| #[trigger] spec_add_messages(keys, msgs, j).contains(x) <==> (
        keys.contains(x) || exists|jj: int|
            0 <= jj < j && message_counts(#[trigger] msgs[jj]) && msgs[jj].0 == x) by {
            if exists|jj: int| 0 <= jj < j && message_counts(#[trigger] msgs[jj]) && msgs[jj].0 == x {
                let jj = choose|jj: int| 0 <= jj < j && message_counts(#[trigger] msgs[jj]) && msgs[jj].0 == x;
                if jj < j - 1 {
                    assert(before.contains(x));
                }
            }
        }
    }
}

/// The universe of the first `i` catalogs holds exactly their counted keys,
/// each once.
proof fn lemma_build_upto(cats: Seq<Seq<MessageView>>, i: int)
    requires
        0 <= i <= cats.len(),
    ensures
        forall|x: KeyView| #[trigger] spec_build_upto(cats, i).contains(x) <==> exists|ii: int, jj: int|
            0 <= ii < i && 0 <= jj < cats[ii].len() && message_counts(#[trigger] cats[ii][jj])
                && cats[ii][jj].0 == x,
        keys_unique(spec_build_upto(cats, i)),
    decreases i,
{
    if i > 0 {
        lemma_build_upto(cats, i - 1);
        let before = spec_build_upto(cats, i - 1);
        lemma_add_messages(before, cats[i - 1], cats[i - 1].len() as int);
        assert forall|x: KeyView| #[trigger] spec_build_upto(cats, i).contains(x) <==> exists|ii: int, jj: int|
            0 <= ii < i && 0 <= jj < cats[ii].len() && message_counts(#[trigger] cats[ii][jj])
                && cats[ii][jj].0 == x by {
            if exists|ii: int, jj: int|
                0 <= ii < i && 0 <= jj < cats[ii].len() && message_counts(#[trigger] cats[ii][jj])
                    && cats[ii][jj].0 == x {
                let (ii, jj) = choose|ii: int, jj: int|
                    0 <= ii < i && 0 <= jj < cats[ii].len() && message_counts(#[trigger] cats[ii][jj])
                        && cats[ii][jj].0 == x;
                if ii < i - 1 {
                    assert(before.contains(x));
                }
            }
        }
    } else {
        assert(spec_build_upto(cats, i) =~= Seq::<KeyView>::empty());
    }
}

/// The key universe is the union of the catalogs: a key is in it exactly when
/// some catalog carries it on a message that is neither fuzzy nor the metadata
/// header, and no key appears twice however many locales repeat it.
pub proof fn lemma_universe_is_union(catalogs: Seq<Vec<PoMessage>>)
    ensures
        forall|k: KeyView| #[trigger] spec_build_index(catalogs_view(catalogs)).contains(k)
            <==> key_from_catalogs(catalogs_view(catalogs), k),
        keys_unique(spec_build_index(catalogs_view(catalogs))),
{
    let cats = catalogs_view(catalogs);
    lemma_build_upto(cats, cats.len() as int);
}

/// Why the universe could not be loaded.
#[derive(Debug, Clone, PartialEq, Eq)]
pub enum PoError {
    /// No catalog file matched the configured patterns under the roots.
    NoCatalogs { patterns: Vec<String>, roots: Vec<String> },
    /// A `po_patterns` entry is not a valid glob.
    InvalidPattern { pattern: String, message: String },
    /// The glob set over the patterns could not be built.
    GlobSet { message: String },
}

/// Whether `e` reports that no catalog matched these patterns under these roots.
pub open spec fn spec_no_catalogs(e: PoError, patterns: Seq<Seq<char>>, roots: Seq<Seq<char>>) -> bool {
    e matches PoError::NoCatalogs { patterns: p, roots: q } && strings_view(p@) == patterns
        && strings_view(q@) == roots
}

/// Build the universe from already-parsed catalogs, failing when no catalog
/// was found at all. `patterns` and `roots` only label the error.
pub fn load_index(catalogs: &Vec<Vec<PoMessage>>, patterns: &Vec<String>, roots: &Vec<String>) -> (r:
    Result<PoIndex, PoError>)
    ensures
        catalogs@.len() == 0 <==> r is Err,
        r matches Ok(index) ==> index@ == spec_build_index(catalogs_view(catalogs@)),
        r matches Err(e) ==> spec_no_catalogs(e, strings_view(patterns@), strings_view(roots@)),
{
    if catalogs.len() == 0 {
        return Err(PoError::NoCatalogs { patterns: copy_strings(patterns), roots: copy_strings(roots) });
    }
    Ok(build_index(catalogs))
}

#[verifier::external_type_specification]
#[verifier::external_body]
pub struct ExGlobSet(globset::GlobSet);

/// The glob patterns a set was built from, in order.
pub uninterp spec fn glob_set_patterns(set: globset::GlobSet) -> Seq<Seq<char>>;

/// Whether every pattern compiles and the set over them builds.
pub uninterp spec fn glob_set_builds(patterns: Seq<Seq<char>>) -> bool;

/// Whether some pattern of the set matches the path (on Unix, where `/` is the
/// only separator).
pub uninterp spec fn glob_set_matches(patterns: Seq<Seq<char>>, path: Seq<char>) -> bool;

/// Why a glob set could not be built.
pub enum GlobFailure {
    /// The pattern at this position is not a valid glob.
    Invalid { index: usize, message: String },
    /// The set over valid patterns could not be built.
    Build { message: String },
}

/// `Glob::new` for each pattern, `GlobSetBuilder::add`, then
/// `GlobSetBuilder::build`, with each failure's message (`Display`). Claims
/// only that success is a function of the patterns (named above), that a
/// built set holds exactly these patterns in order, and that a failing
/// pattern's position is one of the patterns'.
#[verifier::external_body]
fn glob_set_new(patterns: &Vec<String>) -> (r: Result<globset::GlobSet, GlobFailure>)
    ensures
        r is Ok <==> glob_set_builds(strings_view(patterns@)),
        r matches Ok(set) ==> glob_set_patterns(set) == strings_view(patterns@),
        r matches Err(GlobFailure::Invalid { index, .. }) ==> index < patterns.len(),
{
    let mut builder = globset::GlobSetBuilder::new();
    for (index, p) in patterns.iter().enumerate() {
        let glob = globset::Glob::new(p).map_err(
            |e| GlobFailure::Invalid { index, message: e.to_string() },
        )?;
        builder.add(glob);
    }
    builder.build().map_err(|e| GlobFailure::Build { message: e.to_string() })
}

/// `GlobSet::is_match`: whether some glob of the set matches the path.
#[verifier::external_body]
fn glob_set_is_match(set: &globset::GlobSet, path: &str) -> (r: bool)
    ensures
        r == glob_set_matches(glob_set_patterns(*set), path@),
{
    set.is_match(path)
}

/// A found file counts as a catalog when a pattern matches its path relative
/// to its root, or its full path.
pub open spec fn spec_is_catalog(patterns: Seq<Seq<char>>, rel: Seq<char>, abs: Seq<char>) -> bool {
    glob_set_matches(patterns, rel) || glob_set_matches(patterns, abs)
}

/// The catalog files among the first `k` found files, by full path.
pub open spec fn spec_catalog_entries(
    patterns: Seq<Seq<char>>,
    entries: Seq<(Seq<char>, Seq<char>)>,
    k: int,
) -> Seq<(Seq<char>, ())>
    decreases k,
{
    if k <= 0 {
        Seq::empty()
    } else {
        let prev = spec_catalog_entries(patterns, entries, k - 1);
        let e = entries[k - 1];
        if spec_is_catalog(patterns, e.0, e.1) {
            prev.push((e.1, ()))
        } else {
            prev
        }
    }
}

/// The `(rel, abs)` views of found files.
pub open spec fn entries_view(v: Seq<FileEntry>) -> Seq<(Seq<char>, Seq<char>)> {
    v.map_values(|e: FileEntry| (e.rel@, e.abs@))
}

/// The paths of path-keyed entries.
pub open spec fn spec_paths_of(s: Seq<(Seq<char>, ())>) -> Seq<Seq<char>> {
    s.map_values(|p: (Seq<char>, ())| p.0)
}

/// The catalog files among the found files: each kept once, sorted by path.
pub open spec fn spec_select_catalogs(patterns: Seq<Seq<char>>, entries: Seq<(Seq<char>, Seq<char>)>) -> Seq<
    Seq<char>,
> {
    spec_paths_of(
        spec_sort_by_path(spec_dedup_paths(spec_catalog_entries(patterns, entries, entries.len() as int))),
    )
}

/// Pick the PO/POT catalogs among the files a walk found: those a pattern
/// matches (relative to their root, else by full path), each kept once, in
/// path order. Fails when the patterns do not form a glob set.
pub fn select_po_files(patterns: &Vec<String>, entries: &Vec<FileEntry>) -> (r: Result<Vec<String>, PoError>)
    ensures
        r is Ok <==> glob_set_builds(strings_view(patterns@)),
        r matches Ok(files) ==> strings_view(files@) == spec_select_catalogs(
            strings_view(patterns@),
            entries_view(entries@),
        ),
{
    let set = match glob_set_new(patterns) {
        Ok(s) => s,
        Err(GlobFailure::Invalid { index, message }) => {
            return Err(PoError::InvalidPattern { pattern: patterns[index].clone(), message });
        },
        Err(GlobFailure::Build { message }) => {
            return Err(PoError::GlobSet { message });
        },
    };
    let ghost pv = strings_view(patterns@);
    let ghost ev = entries_view(entries@);
    let mut found: Vec<(String, ())> = Vec::new();
    let mut i: usize = 0;
    while i < entries.len()
        invariant
            pv == strings_view(patterns@),
            ev == entries_view(entries@),
            glob_set_patterns(set) == pv,
            i <= entries.len(),
            pathed_view(found@) == spec_catalog_entries(pv, ev, i as int),
        decreases entries.len() - i,
    {
        let e = &entries[i];
        assert(ev[i as int] == (e.rel@, e.abs@));
        if glob_set_is_match(&set, e.rel.as_str()) || glob_set_is_match(&set, e.abs.as_str()) {
            let ghost before = pathed_view(found@);
            found.push((e.abs.clone(), ()));
            assert(pathed_view(found@) =~= before.push((e.abs@, ())));
        }
        i = i + 1;
    }
    let sorted = dedup_sort_files(found);
    let ghost sv = pathed_view(sorted@);
    let mut out: Vec<String> = Vec::new();
    let mut j: usize = 0;
    while j < sorted.len()
        invariant
            sv == pathed_view(sorted@),
            j <= sorted.len(),
            strings_view(out@) == spec_paths_of(sv.take(j as int)),
        decreases sorted.len() - j,
    {
        let ghost before = strings_view(out@);
        out.push(sorted[j].0.clone());
        assert(sv[j as int] == (sorted@[j as int].0@, ()));
        assert(strings_view(out@) =~= before.push(sv[j as int].0));
        assert(spec_paths_of(sv.take(j + 1)) =~= spec_paths_of(sv.take(j as int)).push(sv[j as int].0));
        j = j + 1;
    }
    assert(sv.take(sorted.len() as int) =~= sv);
    Ok(out)
}

} // verus!
