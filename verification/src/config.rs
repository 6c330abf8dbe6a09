//! Configuration model (`dead-poets.toml`).
//!
//! Everything project-specific lives here, never in code: the PO and source
//! locations, the generalized `[[calls]]` model (function / method+receiver /
//! filter / index), the guard threshold, the exit-gate policy and the
//! whitelist. Reading and deserializing the file is the caller's job; this
//! module holds the model, its documented defaults, and the pure rules that
//! act on it (whitelist merging, the `--format` name).

use vstd::prelude::*;

use crate::text::{
    copy_strings, lowercase, spec_trim_ws, str_eq, str_to_lowercase, strings_view, trim_ws,
};

verus! {

/// What kind of call site a `[[calls]]` entry describes.
#[derive(Debug, Clone, Copy, PartialEq, Eq, Structural)]
pub enum CallKind {
    /// Free function: `i18n('key')`.
    Function,
    /// Method with a receiver constraint: `$i18n->get('key')`.
    Method,
    /// Twig filter: `{{ 'key'|i18n }}`.
    Filter,
    /// Index access into a translation map: `locale['key']`. `name` holds the
    /// indexed object; the subscript is the key.
    Index,
}

/// A single translation call site descriptor (`[[calls]]`).
#[derive(Debug, Clone)]
pub struct CallSpec {
    /// Language this matcher applies to (`php`, `js`, `twig`, ...).
    pub lang: String,
    pub kind: CallKind,
    /// Function / method / filter name, or the indexed object for `index`.
    pub name: String,
    /// For `method`: allowed (normalized) receivers, e.g. `["i18n", "this.i18n"]`.
    pub receiver: Option<Vec<String>>,
    /// Which argument holds the key (0-based).
    pub key_arg_index: usize,
}

/// The mathematical value of a call spec.
pub struct CallSpecView {
    pub lang: Seq<char>,
    pub kind: CallKind,
    pub name: Seq<char>,
    pub receiver: Option<Seq<Seq<char>>>,
    pub key_arg_index: nat,
}

impl View for CallSpec {
    type V = CallSpecView;

    open spec fn view(&self) -> CallSpecView {
        CallSpecView {
            lang: self.lang@,
            kind: self.kind,
            name: self.name@,
            receiver: match self.receiver {
                Some(v) => Some(strings_view(v@)),
                None => None,
            },
            key_arg_index: self.key_arg_index as nat,
        }
    }
}

/// The views of a list of call specs.
pub open spec fn calls_view(v: Seq<CallSpec>) -> Seq<CallSpecView> {
    v.map_values(|c: CallSpec| c@)
}

impl CallSpec {
    /// An equal copy of this call spec.
    pub fn copy(&self) -> (r: CallSpec)
        ensures
            r@ == self@,
    {
        let receiver = match &self.receiver {
            Some(v) => Some(copy_strings(v.as_slice())),
            None => None,
        };
        CallSpec {
            lang: self.lang.clone(),
            kind: self.kind,
            name: self.name.clone(),
            receiver,
            key_arg_index: self.key_arg_index,
        }
    }
}

/// `[scan]` — where to find PO files and source.
#[derive(Debug, Clone)]
pub struct Scan {
    /// Glob patterns for PO/POT catalogs.
    pub po_patterns: Vec<String>,
    /// Source file extensions to scan.
    pub source_extensions: Vec<String>,
    /// Extra directories to ignore (on top of `.gitignore`).
    pub ignore_dirs: Vec<String>,
    /// Source roots; always a list, so multi-repo coverage is a config change.
    pub source_roots: Vec<String>,
}

/// The text of a literal string.
fn owned(s: &str) -> (r: String)
    ensures
        r@ == s@,
{
    s.to_owned()
}

impl Default for Scan {
    fn default() -> (r: Scan)
        ensures
            strings_view(r.po_patterns@) == seq!["**/*.po"@, "**/*.pot"@],
            strings_view(r.source_extensions@) == seq![
                "php"@,
                "twig"@,
                "js"@,
                "ts"@,
                "jsx"@,
                "tsx"@,
            ],
            strings_view(r.ignore_dirs@) == seq!["vendor"@, "node_modules"@, "cache"@, "var"@],
            strings_view(r.source_roots@) == seq!["."@],
    {
        let po_patterns = vec![owned("**/*.po"), owned("**/*.pot")];
        let source_extensions = vec![
            owned("php"),
            owned("twig"),
            owned("js"),
            owned("ts"),
            owned("jsx"),
            owned("tsx"),
        ];
        let ignore_dirs = vec![owned("vendor"), owned("node_modules"), owned("cache"), owned("var")];
        let source_roots = vec![owned(".")];
        let r = Scan { po_patterns, source_extensions, ignore_dirs, source_roots };
        assert(strings_view(r.po_patterns@) =~= seq!["**/*.po"@, "**/*.pot"@]);
        assert(strings_view(r.source_extensions@) =~= seq![
            "php"@,
            "twig"@,
            "js"@,
            "ts"@,
            "jsx"@,
            "tsx"@,
        ]);
        assert(strings_view(r.ignore_dirs@) =~= seq![
            "vendor"@,
            "node_modules"@,
            "cache"@,
            "var"@,
        ]);
        assert(strings_view(r.source_roots@) =~= seq!["."@]);
        r
    }
}

/// `[guard]` — the guard layer's threshold.
#[derive(Debug, Clone, Copy)]
pub struct GuardConfig {
    /// Shortest static fragment that may form a guard.
    pub min_len: usize,
}

impl Default for GuardConfig {
    fn default() -> (r: GuardConfig)
        ensures
            r.min_len == 3,
    {
        GuardConfig { min_len: 3 }
    }
}

/// Output mode. Only `review` exists.
#[derive(Debug, Clone, Copy, PartialEq, Eq, Structural)]
pub enum OutputMode {
    Review,
}

/// Report format.
#[derive(Debug, Clone, Copy, PartialEq, Eq, Structural)]
pub enum OutputFormat {
    Text,
    Json,
}

/// Exit-code policy: which buckets fail the run.
#[derive(Debug, Clone, Copy, PartialEq, Eq, Structural)]
pub enum FailOn {
    Never,
    Dead,
    DeadOrBlind,
}

impl Default for OutputMode {
    fn default() -> (r: OutputMode)
        ensures
            r == OutputMode::Review,
    {
        OutputMode::Review
    }
}

impl Default for OutputFormat {
    fn default() -> (r: OutputFormat)
        ensures
            r == OutputFormat::Text,
    {
        OutputFormat::Text
    }
}

impl Default for FailOn {
    fn default() -> (r: FailOn)
        ensures
            r == FailOn::Dead,
    {
        FailOn::Dead
    }
}

/// `[output]` — reporting and exit-gate policy. The dead-key budget as a share
/// of the universe is a fraction and is handled by the caller; the absolute
/// budget lives here.
#[derive(Debug, Clone, Copy)]
pub struct Output {
    pub mode: OutputMode,
    pub format: OutputFormat,
    pub fail_on: FailOn,
    /// Absolute dead-key budget: the run fails when more keys are dead.
    pub max_dead: Option<usize>,
}

impl Default for Output {
    fn default() -> (r: Output)
        ensures
            r.mode == OutputMode::Review,
            r.format == OutputFormat::Text,
            r.fail_on == FailOn::Dead,
            r.max_dead is None,
    {
        Output {
            mode: OutputMode::Review,
            format: OutputFormat::Text,
            fail_on: FailOn::Dead,
            max_dead: None,
        }
    }
}

/// `[whitelist]` — keys always treated as alive (runtime-only keys static
/// analysis cannot see).
#[derive(Debug, Clone)]
pub struct Whitelist {
    /// Path to a file with one key per line (relative to the config dir).
    pub file: Option<String>,
    /// Inline keys.
    pub keys: Vec<String>,
}

impl Default for Whitelist {
    fn default() -> (r: Whitelist)
        ensures
            r.file is None,
            r.keys@.len() == 0,
    {
        Whitelist { file: None, keys: Vec::new() }
    }
}

/// The whole configuration. Missing tables fall back to their defaults.
#[derive(Debug, Clone)]
pub struct Config {
    pub scan: Scan,
    /// Translation call sites to look for (`[[calls]]`).
    pub calls: Vec<CallSpec>,
    pub guard: GuardConfig,
    pub output: Output,
    pub whitelist: Whitelist,
}

impl Default for Config {
    fn default() -> (r: Config)
        ensures
            strings_view(r.scan.po_patterns@) == seq!["**/*.po"@, "**/*.pot"@],
            strings_view(r.scan.source_roots@) == seq!["."@],
            r.calls@.len() == 0,
            r.guard.min_len == 3,
            r.output.fail_on == FailOn::Dead,
            r.output.format == OutputFormat::Text,
            r.output.max_dead is None,
            r.whitelist.file is None,
            r.whitelist.keys@.len() == 0,
    {
        Config {
            scan: Scan::default(),
            calls: Vec::new(),
            guard: GuardConfig::default(),
            output: Output::default(),
            whitelist: Whitelist::default(),
        }
    }
}

/// The report format a lowercased `--format` value names.
pub open spec fn spec_format_named(lower: Seq<char>) -> Option<OutputFormat> {
    if lower == "text"@ {
        Some(OutputFormat::Text)
    } else if lower == "json"@ {
        Some(OutputFormat::Json)
    } else {
        None
    }
}

/// The report format named by an already lowercased value; the value itself
/// is handed back when it names none.
pub fn format_named(lower: &str) -> (r: Result<OutputFormat, String>)
    ensures
        match r {
            Ok(f) => spec_format_named(lower@) == Some(f),
            Err(v) => spec_format_named(lower@) is None && v@ == lower@,
        },
{
    if str_eq(lower, "text") {
        Ok(OutputFormat::Text)
    } else if str_eq(lower, "json") {
        Ok(OutputFormat::Json)
    } else {
        Err(lower.to_owned())
    }
}

/// Parse a `--format` value, case-insensitively: `text` or `json`. An unknown
/// value is handed back, lowercased, in the error.
pub fn parse_format(s: &str) -> (r: Result<OutputFormat, String>)
    ensures
        match r {
            Ok(f) => spec_format_named(str_to_lowercase(s@)) == Some(f),
            Err(v) => spec_format_named(str_to_lowercase(s@)) is None && v@ == str_to_lowercase(
                s@,
            ),
        },
{
    let lower = lowercase(s);
    format_named(lower.as_str())
}

/// Add a string to a list of distinct strings unless it is already there.
pub open spec fn spec_add_distinct(v: Seq<Seq<char>>, s: Seq<char>) -> Seq<Seq<char>> {
    if v.contains(s) {
        v
    } else {
        v.push(s)
    }
}

/// Add each of `keys`, in order, to a list of distinct strings.
pub open spec fn spec_add_all(v: Seq<Seq<char>>, keys: Seq<Seq<char>>) -> Seq<Seq<char>>
    decreases keys.len(),
{
    if keys.len() == 0 {
        v
    } else {
        spec_add_distinct(spec_add_all(v, keys.drop_last()), keys.last())
    }
}

/// The lines of a text: the pieces between line feeds (a final empty piece
/// after a trailing line feed included; the rules below drop it).
pub open spec fn spec_lines(s: Seq<char>) -> Seq<Seq<char>>
    decreases s.len(),
{
    if s.len() == 0 {
        seq![Seq::empty()]
    } else {
        let rest = spec_lines(s.drop_last());
        if s.last() == '\n' {
            rest.push(Seq::empty())
        } else {
            rest.update(rest.len() - 1, rest.last().push(s.last()))
        }
    }
}

/// The keys a whitelist file lists: each line trimmed of white space, blank
/// lines and `#` comment lines skipped.
pub open spec fn spec_file_keys(lines: Seq<Seq<char>>) -> Seq<Seq<char>>
    decreases lines.len(),
{
    if lines.len() == 0 {
        Seq::empty()
    } else {
        let rest = spec_file_keys(lines.drop_last());
        let k = spec_trim_ws(lines.last());
        if k.len() == 0 || k[0] == '#' {
            rest
        } else {
            rest.push(k)
        }
    }
}

/// The whitelist: the inline keys, then the keys of the file (if one was
/// read), each kept once.
pub open spec fn spec_whitelist(keys: Seq<Seq<char>>, file_text: Option<Seq<char>>) -> Seq<Seq<char>> {
    let inline = spec_add_all(Seq::empty(), keys);
    match file_text {
        Some(t) => spec_add_all(inline, spec_file_keys(spec_lines(t))),
        None => inline,
    }
}

/// Adding to a list of distinct strings keeps it distinct and adds exactly the
/// new strings.
pub proof fn lemma_add_all(v: Seq<Seq<char>>, keys: Seq<Seq<char>>)
    requires
        v.no_duplicates(),
    ensures
        spec_add_all(v, keys).no_duplicates(),
        forall|s: Seq<char>| #[trigger]
            spec_add_all(v, keys).contains(s) <==> (v.contains(s) || keys.contains(s)),
    decreases keys.len(),
{
    if keys.len() > 0 {
        lemma_add_all(v, keys.drop_last());
        let prev = spec_add_all(v, keys.drop_last());
        let k = keys.last();
        assert forall|s: Seq<char>| #[trigger]
            spec_add_all(v, keys).contains(s) <==> (v.contains(s) || keys.contains(s)) by {
            if keys.contains(s) && !keys.drop_last().contains(s) {
                let j = choose|j: int| 0 <= j < keys.len() && keys[j] == s;
                if j < keys.len() - 1 {
                    assert(keys.drop_last()[j] == s);
                }
            }
            if keys.drop_last().contains(s) {
                let j = choose|j: int| 0 <= j < keys.drop_last().len() && keys.drop_last()[j] == s;
                assert(keys[j] == s);
            }
            if !prev.contains(k) {
                if spec_add_all(v, keys).contains(s) && s != k {
                    let j = choose|j: int| 0 <= j < prev.push(k).len() && prev.push(k)[j] == s;
                    assert(prev[j] == s);
                }
                if prev.contains(s) {
                    let j = choose|j: int| 0 <= j < prev.len() && prev[j] == s;
                    assert(prev.push(k)[j] == s);
                }
                assert(prev.push(k)[prev.len() as int] == k);
            }
            assert(keys[keys.len() - 1] == k);
        }
    }
}

/// Append a string to a list of distinct strings unless an equal one is there.
fn add_distinct(v: &mut Vec<String>, s: String)
    ensures
        strings_view(final(v)@) == spec_add_distinct(strings_view(old(v)@), s@),
{
    let mut i: usize = 0;
    let ghost sv = strings_view(v@);
    while i < v.len()
        invariant
            sv == strings_view(v@),
            i <= v.len(),
            forall|j: int| 0 <= j < i ==> sv[j] != s@,
        decreases v.len() - i,
    {
        if str_eq(v[i].as_str(), s.as_str()) {
            assert(sv[i as int] == s@);
            return;
        }
        i = i + 1;
    }
    proof {
        if sv.contains(s@) {
            let j = choose|j: int| 0 <= j < sv.len() && sv[j] == s@;
        }
    }
    let ghost before = v@;
    v.push(s);
    assert(strings_view(v@) =~= strings_view(before).push(s@));
}

/// Split a text into its lines (pieces between line feeds).
fn split_lines(text: &str) -> (r: Vec<Vec<char>>)
    ensures
        r@.map_values(|l: Vec<char>| l@) == spec_lines(text@),
{
    let cs = crate::text::chars_of(text);
    let mut out: Vec<Vec<char>> = Vec::new();
    out.push(Vec::new());
    let mut i: usize = 0;
    assert(cs@.take(0) =~= Seq::<char>::empty());
    assert(out@.map_values(|l: Vec<char>| l@) =~= spec_lines(Seq::<char>::empty()));
    while i < cs.len()
        invariant
            cs@ == text@,
            i <= cs.len(),
            out.len() >= 1,
            out@.map_values(|l: Vec<char>| l@) == spec_lines(cs@.take(i as int)),
        decreases cs.len() - i,
    {
        let c = cs[i];
        let ghost prev = out@.map_values(|l: Vec<char>| l@);
        assert(cs@.take(i + 1).drop_last() =~= cs@.take(i as int));
        assert(cs@.take(i + 1).last() == c);
        if c == '\n' {
            out.push(Vec::new());
            assert(out@.map_values(|l: Vec<char>| l@) =~= prev.push(Seq::<char>::empty()));
        } else {
            let last = out.len() - 1;
            let mut line = out.pop().unwrap();
            let ghost old_line = line@;
            line.push(c);
            out.push(line);
            assert(out@.map_values(|l: Vec<char>| l@) =~= prev.update(
                last as int,
                old_line.push(c),
            ));
        }
        i = i + 1;
    }
    assert(cs@.take(cs.len() as int) =~= cs@);
    out
}

/// Merge the inline whitelist keys with the keys listed in the whitelist file's
/// text (when the caller read one): each line is trimmed, blank and `#` lines
/// are skipped, and every key is kept once.
pub fn resolve_whitelist(wl: &Whitelist, file_text: Option<&str>) -> (r: Vec<String>)
    ensures
        strings_view(r@) == spec_whitelist(
            strings_view(wl.keys@),
            match file_text {
                Some(t) => Some(t@),
                None => None,
            },
        ),
{
    let mut out: Vec<String> = Vec::new();
    let ghost kv = strings_view(wl.keys@);
    let mut i: usize = 0;
    while i < wl.keys.len()
        invariant
            kv == strings_view(wl.keys@),
            i <= wl.keys.len(),
            strings_view(out@) == spec_add_all(Seq::empty(), kv.take(i as int)),
        decreases wl.keys.len() - i,
    {
        assert(kv.take(i + 1).drop_last() =~= kv.take(i as int));
        assert(kv.take(i + 1).last() == kv[i as int]);
        add_distinct(&mut out, wl.keys[i].clone());
        i = i + 1;
    }
    assert(kv.take(wl.keys.len() as int) =~= kv);
    match file_text {
        None => {},
        Some(t) => {
            let lines = split_lines(t);
            let ghost lv = lines@.map_values(|l: Vec<char>| l@);
            let ghost inline = strings_view(out@);
            let ghost mut keys_so_far: Seq<Seq<char>> = Seq::empty();
            let mut j: usize = 0;
            while j < lines.len()
                invariant
                    lv == lines@.map_values(|l: Vec<char>| l@),
                    j <= lines.len(),
                    keys_so_far == spec_file_keys(lv.take(j as int)),
                    strings_view(out@) == spec_add_all(inline, keys_so_far),
                decreases lines.len() - j,
            {
                assert(lv.take(j + 1).drop_last() =~= lv.take(j as int));
                assert(lv.take(j + 1).last() == lines@[j as int]@);
                let k = trim_ws(&lines[j]);
                if k.len() > 0 && k[0] != '#' {
                    let ks = crate::text::string_of(k.as_slice());
                    add_distinct(&mut out, ks);
                    proof {
                        assert(keys_so_far.push(k@).drop_last() =~= keys_so_far);
                        keys_so_far = keys_so_far.push(k@);
                    }
                }
                j = j + 1;
            }
            assert(lv.take(lines.len() as int) =~= lv);
        },
    }
    out
}

/// The whitelist merges the inline keys and the file's keys into one set: each
/// key once, and exactly the keys listed in either place.
pub proof fn lemma_whitelist_merge(keys: Seq<Seq<char>>, file_text: Option<Seq<char>>)
    ensures
        spec_whitelist(keys, file_text).no_duplicates(),
        forall|k: Seq<char>| #[trigger]
            spec_whitelist(keys, file_text).contains(k) <==> (keys.contains(k) || match file_text {
                Some(t) => spec_file_keys(spec_lines(t)).contains(k),
                None => false,
            }),
{
    let empty = Seq::<Seq<char>>::empty();
    lemma_add_all(empty, keys);
    let inline = spec_add_all(empty, keys);
    if let Some(t) = file_text {
        lemma_add_all(inline, spec_file_keys(spec_lines(t)));
    }
}

} // verus!
