//! Extractor — per-language adapters behind one invariant driver.
//!
//! `extract(lang, source, calls, min_guard_len)` produces the literal keys, the
//! keep-alive guards, the count of blind call sites, and every static string
//! literal seen in the file. What varies per grammar (classifying a node as a
//! call site, decoding a value node into segments, recognising a string) sits
//! in the PHP and JS adapters; what is invariant — matching a classified call
//! against the `[[calls]]` specs, selecting `key_arg_index`, and routing a
//! static argument to a literal and a dynamic one to the guard layer — is
//! written once. Twig has no tree: it is a separate regex adapter.

use vstd::prelude::*;

use crate::guard::{
    guards_from_segments, guards_view, segments_view, spec_guards, GuardPos, Guard, Segment,
};
use crate::config::{calls_view, CallKind, CallSpec, CallSpecView};
use crate::syntax::{
    children, ints_view, lemma_children_after, node_text, nodes_view, spec_children,
    spec_node_text, NodeInfo, NodeView,
};
use crate::syntax::{parse_nodes, tree_sitter_parse, Grammar};
use crate::text::{chars_of, lowercase, str_to_lowercase};

use self::twig::{extract_twig, lemma_twig_distinct, spec_extract_twig};

use self::js::{js_classify, js_literal, js_segments, spec_js_classify, spec_js_literal, spec_js_segments};
use self::php::{
    php_classify, php_literal, php_segments, spec_php_classify, spec_php_literal, spec_php_segments,
};
use crate::text::{contains_string, push_str, str_eq, strings_view};

pub mod php;
pub mod js;
pub mod twig;

verus! {

/// What one source file contributed: resolved literal keys, keep-alive guards,
/// the count of blind (unresolvable) call sites, and every static string
/// literal seen anywhere in the file. `literals` and `source_literals` never
/// hold a string twice.
#[derive(Debug, Default, Clone, PartialEq, Eq)]
pub struct ExtractResult {
    pub literals: Vec<String>,
    pub guards: Vec<Guard>,
    pub blind: usize,
    /// Every fully-static, non-empty string literal seen anywhere in the file,
    /// not only in translation calls. Feeds the `Suspect` tier.
    pub source_literals: Vec<String>,
}

/// The mathematical value of an extraction result.
pub type ExtractView = (Seq<Seq<char>>, Seq<(GuardPos, Seq<char>)>, nat, Seq<Seq<char>>);

impl View for ExtractResult {
    type V = ExtractView;

    open spec fn view(&self) -> ExtractView {
        (strings_view(self.literals@), guards_view(self.guards@), self.blind as nat, strings_view(
            self.source_literals@,
        ))
    }
}

/// Add a string to a string sequence unless it is already there.
pub open spec fn spec_insert_str(v: Seq<Seq<char>>, s: Seq<char>) -> Seq<Seq<char>> {
    if v.contains(s) {
        v
    } else {
        v.push(s)
    }
}

/// The concatenation of the static fragments of a segment list.
pub open spec fn spec_join_statics(segs: Seq<Option<Seq<char>>>) -> Seq<char>
    decreases segs.len(),
{
    if segs.len() == 0 {
        Seq::empty()
    } else {
        let before = spec_join_statics(segs.drop_last());
        match segs.last() {
            Some(t) => before + t,
            None => before,
        }
    }
}

/// The segment list holds a hole.
pub open spec fn spec_has_hole(segs: Seq<Option<Seq<char>>>) -> bool {
    exists|i: int| 0 <= i < segs.len() && segs[i] is None
}

/// Route one key argument: a fully static one joins into a single literal; a
/// dynamic one yields its guards, or a blind site when none qualifies.
pub open spec fn spec_record(r: ExtractView, segs: Seq<Option<Seq<char>>>, min_len: nat) -> ExtractView {
    if !spec_has_hole(segs) {
        (spec_insert_str(r.0, spec_join_statics(segs)), r.1, r.2, r.3)
    } else {
        let g = spec_guards(segs, min_len);
        (r.0, r.1 + g, if g.len() == 0 { r.2 + 1 } else { r.2 }, r.3)
    }
}

/// Record a literal seen anywhere in the source: only fully static, non-empty
/// literals are kept.
pub open spec fn spec_record_source_literal(r: ExtractView, segs: Seq<Option<Seq<char>>>) -> ExtractView {
    if spec_has_hole(segs) || spec_join_statics(segs).len() == 0 {
        r
    } else {
        (r.0, r.1, r.2, spec_insert_str(r.3, spec_join_statics(segs)))
    }
}

/// Insert a string into a list unless an equal one is present.
pub fn insert_string(v: &mut Vec<String>, s: String)
    ensures
        strings_view(final(v)@) == spec_insert_str(strings_view(old(v)@), s@),
{
    if !contains_string(v.as_slice(), &s) {
        let ghost before = v@;
        v.push(s);
        proof {
            assert(strings_view(v@) =~= strings_view(before).push(s@));
        }
    }
}

/// Whether a segment list holds a hole.
pub fn has_hole(segments: &[Segment]) -> (r: bool)
    ensures
        r == spec_has_hole(segments_view(segments@)),
{
    let mut i: usize = 0;
    while i < segments.len()
        invariant
            i <= segments.len(),
            forall|k: int| 0 <= k < i ==> segments_view(segments@)[k] is Some,
        decreases segments.len() - i,
    {
        match &segments[i] {
            Segment::Hole => {
                assert(segments_view(segments@)[i as int] is None);
                return true;
            },
            Segment::Static(_) => {},
        }
        i = i + 1;
    }
    false
}

/// The concatenation of the static fragments.
pub fn join_statics(segments: &[Segment]) -> (r: String)
    ensures
        r@ == spec_join_statics(segments_view(segments@)),
{
    let mut out = String::new();
    let mut i: usize = 0;
    while i < segments.len()
        invariant
            i <= segments.len(),
            out@ == spec_join_statics(segments_view(segments@).take(i as int)),
        decreases segments.len() - i,
    {
        let ghost sv = segments_view(segments@);
        proof {
            assert(sv.take(i + 1).drop_last() =~= sv.take(i as int));
            assert(sv.take(i + 1).last() == sv[i as int]);
        }
        match &segments[i] {
            Segment::Static(t) => {
                push_str(&mut out, t.as_str());
            },
            Segment::Hole => {},
        }
        i = i + 1;
    }
    assert(segments_view(segments@).take(segments.len() as int) =~= segments_view(segments@));
    out
}

impl ExtractResult {
    /// An empty result.
    pub fn empty() -> (r: ExtractResult)
        ensures
            r@ == (Seq::<Seq<char>>::empty(), Seq::<(GuardPos, Seq<char>)>::empty(), 0nat, Seq::<
                Seq<char>,
            >::empty()),
    {
        let r = ExtractResult {
            literals: Vec::new(),
            guards: Vec::new(),
            blind: 0,
            source_literals: Vec::new(),
        };
        assert(r@.0 =~= Seq::<Seq<char>>::empty());
        assert(r@.1 =~= Seq::<(GuardPos, Seq<char>)>::empty());
        assert(r@.3 =~= Seq::<Seq<char>>::empty());
        r
    }

    /// Route one key argument: fully static → one literal; dynamic → guards,
    /// or one more blind site when no fragment qualifies.
    pub fn record(&mut self, segments: Vec<Segment>, min_guard_len: usize)
        requires
            old(self).blind < usize::MAX,
        ensures
            final(self)@ == spec_record(old(self)@, segments_view(segments@), min_guard_len as nat),
    {
        if !has_hole(segments.as_slice()) {
            let literal = join_statics(segments.as_slice());
            insert_string(&mut self.literals, literal);
        } else {
            let ext = guards_from_segments(segments.as_slice(), min_guard_len);
            let ghost before = self.guards@;
            let mut gs = ext.guards;
            self.guards.append(&mut gs);
            proof {
                assert(guards_view(self.guards@) =~= guards_view(before) + guards_view(ext.guards@));
            }
            if ext.blind {
                self.blind = self.blind + 1;
            }
        }
    }

    /// Record a string literal seen in the source (any context); only fully
    /// static, non-empty literals are kept.
    pub fn record_source_literal(&mut self, segments: &[Segment])
        ensures
            final(self)@ == spec_record_source_literal(old(self)@, segments_view(segments@)),
    {
        if has_hole(segments) {
            return;
        }
        let literal = join_statics(segments);
        if literal.as_str().is_empty() {
            return;
        }
        insert_string(&mut self.source_literals, literal);
    }
}

/// A classified call site, as plain values: the callee's name and (for a
/// method) its normalized receiver, with the argument nodes; or an index
/// access with its normalized object and subscript node.
pub enum ShapeView {
    Function { name: Seq<char>, args: Seq<int> },
    Method { name: Seq<char>, receiver: Seq<char>, args: Seq<int> },
    Index { object: Seq<char>, key: int },
}

/// A classified call site: enough to match a `[[calls]]` spec and locate the
/// key argument. Nodes are positions in the file's node sequence.
pub enum CallShape {
    /// Free function: `i18n('key')`.
    Function { name: String, args: Vec<usize> },
    /// Method with a normalized receiver: `$i18n->get('key')`.
    Method { name: String, receiver: String, args: Vec<usize> },
    /// Index access: `locale['key']`.
    Index { object: String, key: usize },
}

impl View for CallShape {
    type V = ShapeView;

    open spec fn view(&self) -> ShapeView {
        match self {
            CallShape::Function { name, args } => ShapeView::Function {
                name: name@,
                args: ints_view(args@),
            },
            CallShape::Method { name, receiver, args } => ShapeView::Method {
                name: name@,
                receiver: receiver@,
                args: ints_view(args@),
            },
            CallShape::Index { object, key } => ShapeView::Index { object: object@, key: *key as int },
        }
    }
}

/// A spec admits a receiver: any receiver when it lists none.
pub open spec fn spec_receiver_ok(c: CallSpecView, receiver: Seq<char>) -> bool {
    match c.receiver {
        Some(list) => list.contains(receiver),
        None => true,
    }
}

/// A call spec describes a classified call site.
pub open spec fn spec_spec_matches(c: CallSpecView, shape: ShapeView) -> bool {
    match shape {
        ShapeView::Function { name, .. } => c.kind == CallKind::Function && c.name == name,
        ShapeView::Method { name, receiver, .. } => c.kind == CallKind::Method && c.name == name
            && spec_receiver_ok(c, receiver),
        ShapeView::Index { object, .. } => c.kind == CallKind::Index && c.name == object,
    }
}

/// The first spec (by position) among `calls[from..]` that describes the site.
pub open spec fn spec_match_from(calls: Seq<CallSpecView>, shape: ShapeView, from: int) -> Option<int>
    decreases calls.len() - from,
{
    if from < 0 || from >= calls.len() {
        None
    } else if spec_spec_matches(calls[from], shape) {
        Some(from)
    } else {
        spec_match_from(calls, shape, from + 1)
    }
}

/// The first spec that describes the site.
pub open spec fn spec_match_spec(calls: Seq<CallSpecView>, shape: ShapeView) -> Option<int> {
    spec_match_from(calls, shape, 0)
}

/// The key-argument node a site carries for a spec: the `key_arg_index`-th
/// argument of a call, or the subscript of an index access.
pub open spec fn spec_key_arg(shape: ShapeView, c: CallSpecView) -> Option<int> {
    match shape {
        ShapeView::Function { args, .. } => if c.key_arg_index < args.len() {
            Some(args[c.key_arg_index as int])
        } else {
            None
        },
        ShapeView::Method { args, .. } => if c.key_arg_index < args.len() {
            Some(args[c.key_arg_index as int])
        } else {
            None
        },
        ShapeView::Index { key, .. } => Some(key),
    }
}

/// Whether a spec admits a receiver.
pub fn receiver_ok(spec: &CallSpec, receiver: &str) -> (r: bool)
    ensures
        r == spec_receiver_ok(spec@, receiver@),
{
    match &spec.receiver {
        None => true,
        Some(list) => {
            let ghost lv = strings_view(list@);
            let mut i: usize = 0;
            while i < list.len()
                invariant
                    lv == strings_view(list@),
                    spec@.receiver == Some(lv),
                    i <= list.len(),
                    forall|k: int| 0 <= k < i ==> lv[k] != receiver@,
                decreases list.len() - i,
            {
                if str_eq(list[i].as_str(), receiver) {
                    assert(lv[i as int] == receiver@);
                    assert(lv.contains(receiver@));
                    return true;
                }
                i = i + 1;
            }
            proof {
                if lv.contains(receiver@) {
                    let k = choose|k: int| 0 <= k < lv.len() && lv[k] == receiver@;
                }
            }
            false
        },
    }
}

/// Whether a spec describes a classified site.
fn spec_matches(c: &CallSpec, shape: &CallShape) -> (r: bool)
    ensures
        r == spec_spec_matches(c@, shape@),
{
    match shape {
        CallShape::Function { name, .. } => c.kind == CallKind::Function && str_eq(
            c.name.as_str(),
            name.as_str(),
        ),
        CallShape::Method { name, receiver, .. } => c.kind == CallKind::Method && str_eq(
            c.name.as_str(),
            name.as_str(),
        ) && receiver_ok(c, receiver.as_str()),
        CallShape::Index { object, .. } => c.kind == CallKind::Index && str_eq(
            c.name.as_str(),
            object.as_str(),
        ),
    }
}

/// Resolve a classified site against the applicable specs: the position of
/// the first spec that describes it.
pub fn match_spec(calls: &[CallSpec], shape: &CallShape) -> (r: Option<usize>)
    ensures
        match r {
            Some(i) => spec_match_spec(calls_view(calls@), shape@) == Some(i as int) && i
                < calls.len(),
            None => spec_match_spec(calls_view(calls@), shape@) is None,
        },
{
    let ghost cv = calls_view(calls@);
    let mut i: usize = 0;
    while i < calls.len()
        invariant
            cv == calls_view(calls@),
            i <= calls.len(),
            spec_match_spec(cv, shape@) == spec_match_from(cv, shape@, i as int),
        decreases calls.len() - i,
    {
        assert(cv[i as int] == calls@[i as int]@);
        if spec_matches(&calls[i], shape) {
            return Some(i);
        }
        i = i + 1;
    }
    None
}

/// The key-argument node of a site for a spec.
pub fn key_arg(shape: &CallShape, spec: &CallSpec) -> (r: Option<usize>)
    ensures
        match r {
            Some(k) => spec_key_arg(shape@, spec@) == Some(k as int),
            None => spec_key_arg(shape@, spec@) is None,
        },
        match shape {
            CallShape::Function { args, .. } | CallShape::Method { args, .. } => if spec.key_arg_index
                < args.len() {
                r == Some(args@[spec.key_arg_index as int])
            } else {
                r is None
            },
            CallShape::Index { key, .. } => r == Some(*key),
        },
{
    match shape {
        CallShape::Function { args, .. } | CallShape::Method { args, .. } => {
            if spec.key_arg_index < args.len() {
                Some(args[spec.key_arg_index])
            } else {
                None
            }
        },
        CallShape::Index { key, .. } => Some(*key),
    }
}

/// Every node a classified site names lies in a tree of `n` nodes.
pub open spec fn shape_nodes_in(shape: ShapeView, n: int) -> bool {
    match shape {
        ShapeView::Function { args, .. } => forall|k: int| 0 <= k < args.len() ==> 0 <= #[trigger] args[k] < n,
        ShapeView::Method { args, .. } => forall|k: int| 0 <= k < args.len() ==> 0 <= #[trigger] args[k] < n,
        ShapeView::Index { key, .. } => 0 <= key < n,
    }
}

/// The first unnamed node among `cs`.
pub open spec fn spec_first_unnamed(tv: Seq<NodeView>, cs: Seq<int>) -> Option<int>
    decreases cs.len(),
{
    if cs.len() == 0 {
        None
    } else if !tv[cs[0]].named {
        Some(cs[0])
    } else {
        spec_first_unnamed(tv, cs.drop_first())
    }
}

/// The operator token of a binary expression: the text of its first unnamed
/// child.
pub open spec fn spec_binary_operator(tv: Seq<NodeView>, src: Seq<char>, i: int) -> Option<Seq<char>> {
    match spec_first_unnamed(tv, spec_children(tv, i)) {
        Some(c) => Some(spec_node_text(tv, src, c)),
        None => None,
    }
}

/// Whether the operator token of node `i` is the single character `op`.
pub fn binary_operator_is(t: &Vec<NodeInfo>, src: &str, i: usize, op: char) -> (r: bool)
    requires
        i < t.len(),
    ensures
        r == (spec_binary_operator(nodes_view(t@), src@, i as int) == Some(seq![op])),
{
    let ghost tv = nodes_view(t@);
    let cs = children(t, i);
    let ghost csv = ints_view(cs@);
    proof {
        lemma_children_after(tv, i as int);
    }
    let mut k: usize = 0;
    assert(csv.skip(0) =~= csv);
    while k < cs.len()
        invariant
            tv == nodes_view(t@),
            csv == ints_view(cs@),
            csv == spec_children(tv, i as int),
            forall|m: int| 0 <= m < csv.len() ==> i < #[trigger] csv[m] < t.len(),
            k <= cs.len(),
            spec_first_unnamed(tv, csv) == spec_first_unnamed(tv, csv.skip(k as int)),
        decreases cs.len() - k,
    {
        let c = cs[k];
        assert(csv[k as int] == c as int);
        assert(csv.skip(k as int)[0] == c as int);
        assert(csv.skip(k as int).drop_first() =~= csv.skip(k + 1));
        assert(tv[c as int] == t@[c as int]@);
        if !t[c].named {
            let text = chars_of(node_text(t, src, c).as_str());
            let hit = text.len() == 1 && text[0] == op;
            assert(hit == (text@ =~= seq![op]));
            return hit;
        }
        k = k + 1;
    }
    false
}

/// The adapter families: the PHP grammar, the JS family of grammars, and
/// Twig, which has no tree.
#[derive(Debug, Clone, Copy, PartialEq, Eq, Structural)]
pub enum Family {
    Php,
    Js,
    Twig,
}

/// A call site the family's adapter recognises at node `i`.
pub open spec fn spec_classify(fam: Family, tv: Seq<NodeView>, src: Seq<char>, i: int) -> Option<ShapeView> {
    match fam {
        Family::Php => spec_php_classify(tv, src, i),
        Family::Js => spec_js_classify(tv, src, i),
        Family::Twig => None,
    }
}

/// The key segments the family's adapter decodes from value node `i`.
pub open spec fn spec_segments(fam: Family, tv: Seq<NodeView>, src: Seq<char>, i: int) -> Seq<
    Option<Seq<char>>,
> {
    match fam {
        Family::Php => spec_php_segments(tv, src, i),
        Family::Js => spec_js_segments(tv, src, i),
        Family::Twig => seq![None],
    }
}

/// The segments of node `i` if the family's adapter sees a string literal.
pub open spec fn spec_literal(fam: Family, tv: Seq<NodeView>, src: Seq<char>, i: int) -> Option<
    Seq<Option<Seq<char>>>,
> {
    match fam {
        Family::Php => spec_php_literal(tv, src, i),
        Family::Js => spec_js_literal(tv, src, i),
        Family::Twig => None,
    }
}

/// The empty extraction result.
pub open spec fn spec_empty_result() -> ExtractView {
    (Seq::empty(), Seq::empty(), 0, Seq::empty())
}

/// Visit node `i`: if it is a call site a spec describes and it carries the
/// key argument, record that argument; then, if it is a string literal,
/// record it as a source literal.
pub open spec fn spec_visit(
    fam: Family,
    tv: Seq<NodeView>,
    src: Seq<char>,
    calls: Seq<CallSpecView>,
    min_len: nat,
    r: ExtractView,
    i: int,
) -> ExtractView {
    let r1 = match spec_classify(fam, tv, src, i) {
        Some(shape) => match spec_match_spec(calls, shape) {
            Some(ci) => match spec_key_arg(shape, calls[ci]) {
                Some(arg) => spec_record(r, spec_segments(fam, tv, src, arg), min_len),
                None => r,
            },
            None => r,
        },
        None => r,
    };
    match spec_literal(fam, tv, src, i) {
        Some(segs) => spec_record_source_literal(r1, segs),
        None => r1,
    }
}

/// The result after visiting the first `k` nodes, in document order.
pub open spec fn spec_extract_upto(
    fam: Family,
    tv: Seq<NodeView>,
    src: Seq<char>,
    calls: Seq<CallSpecView>,
    min_len: nat,
    k: int,
) -> ExtractView
    decreases k,
{
    if k <= 0 {
        spec_empty_result()
    } else {
        spec_visit(fam, tv, src, calls, min_len, spec_extract_upto(fam, tv, src, calls, min_len, k - 1), k - 1)
    }
}

/// The result of visiting every node of a parsed file.
pub open spec fn spec_extract_nodes(
    fam: Family,
    tv: Seq<NodeView>,
    src: Seq<char>,
    calls: Seq<CallSpecView>,
    min_len: nat,
) -> ExtractView {
    spec_extract_upto(fam, tv, src, calls, min_len, tv.len() as int)
}

/// Classify node `i` with the family's adapter.
fn classify_node(fam: Family, t: &Vec<NodeInfo>, src: &str, i: usize) -> (r: Option<CallShape>)
    requires
        i < t.len(),
    ensures
        match r {
            Some(s) => spec_classify(fam, nodes_view(t@), src@, i as int) == Some(s@)
                && shape_nodes_in(s@, t.len() as int),
            None => spec_classify(fam, nodes_view(t@), src@, i as int) is None,
        },
{
    match fam {
        Family::Php => php_classify(t, src, i),
        Family::Js => js_classify(t, src, i),
        Family::Twig => None,
    }
}

/// Decode value node `i` with the family's adapter.
fn segments_of(fam: Family, t: &Vec<NodeInfo>, src: &str, i: usize) -> (r: Vec<Segment>)
    requires
        i < t.len(),
    ensures
        segments_view(r@) == spec_segments(fam, nodes_view(t@), src@, i as int),
{
    match fam {
        Family::Php => php_segments(t, src, i),
        Family::Js => js_segments(t, src, i),
        Family::Twig => {
            let r = vec![Segment::Hole];
            assert(segments_view(r@) =~= seq![None::<Seq<char>>]);
            r
        },
    }
}

/// The literal segments of node `i`, if the family's adapter sees a string.
fn literal_of(fam: Family, t: &Vec<NodeInfo>, src: &str, i: usize) -> (r: Option<Vec<Segment>>)
    requires
        i < t.len(),
    ensures
        match r {
            Some(v) => spec_literal(fam, nodes_view(t@), src@, i as int) == Some(segments_view(v@)),
            None => spec_literal(fam, nodes_view(t@), src@, i as int) is None,
        },
{
    match fam {
        Family::Php => php_literal(t, src, i),
        Family::Js => js_literal(t, src, i),
        Family::Twig => None,
    }
}

/// Walk every node of a parsed file once, in document order, driving the
/// family's adapter: record the key argument of each call site a spec
/// describes, and collect every string literal for the Suspect tier.
pub fn extract_nodes(
    fam: Family,
    t: &Vec<NodeInfo>,
    src: &str,
    calls: &[CallSpec],
    min_guard_len: usize,
) -> (r: ExtractResult)
    ensures
        r@ == spec_extract_nodes(fam, nodes_view(t@), src@, calls_view(calls@), min_guard_len as nat),
{
    let ghost tv = nodes_view(t@);
    let ghost cv = calls_view(calls@);
    let mut res = ExtractResult::empty();
    let mut i: usize = 0;
    while i < t.len()
        invariant
            tv == nodes_view(t@),
            cv == calls_view(calls@),
            i <= t.len(),
            res.blind <= i,
            res@ == spec_extract_upto(fam, tv, src@, cv, min_guard_len as nat, i as int),
        decreases t.len() - i,
    {
        if let Some(shape) = classify_node(fam, t, src, i) {
            if let Some(ci) = match_spec(calls, &shape) {
                assert(cv[ci as int] == calls@[ci as int]@);
                if let Some(arg) = key_arg(&shape, &calls[ci]) {
                    let segs = segments_of(fam, t, src, arg);
                    res.record(segs, min_guard_len);
                }
            }
        }
        if let Some(segs) = literal_of(fam, t, src, i) {
            res.record_source_literal(segs.as_slice());
        }
        i = i + 1;
    }
    res
}

/// The source language of a file, selecting grammar (or the Twig path).
#[derive(Debug, Clone, Copy, PartialEq, Eq, Structural)]
pub enum SourceLang {
    Php,
    Js,
    Jsx,
    Ts,
    Tsx,
    Twig,
}

/// The language a lowercased file extension names.
pub open spec fn spec_lang_of_extension(lower: Seq<char>) -> Option<SourceLang> {
    if lower == "php"@ {
        Some(SourceLang::Php)
    } else if lower == "twig"@ {
        Some(SourceLang::Twig)
    } else if lower == "js"@ || lower == "mjs"@ || lower == "cjs"@ {
        Some(SourceLang::Js)
    } else if lower == "jsx"@ {
        Some(SourceLang::Jsx)
    } else if lower == "ts"@ || lower == "mts"@ || lower == "cts"@ {
        Some(SourceLang::Ts)
    } else if lower == "tsx"@ {
        Some(SourceLang::Tsx)
    } else {
        None
    }
}

/// The language an already lowercased file extension names.
pub fn lang_of_lowercase_extension(lower: &str) -> (r: Option<SourceLang>)
    ensures
        r == spec_lang_of_extension(lower@),
{
    if str_eq(lower, "php") {
        Some(SourceLang::Php)
    } else if str_eq(lower, "twig") {
        Some(SourceLang::Twig)
    } else if str_eq(lower, "js") || str_eq(lower, "mjs") || str_eq(lower, "cjs") {
        Some(SourceLang::Js)
    } else if str_eq(lower, "jsx") {
        Some(SourceLang::Jsx)
    } else if str_eq(lower, "ts") || str_eq(lower, "mts") || str_eq(lower, "cts") {
        Some(SourceLang::Ts)
    } else if str_eq(lower, "tsx") {
        Some(SourceLang::Tsx)
    } else {
        None
    }
}

impl SourceLang {
    /// Map a file extension (any case) to a source language.
    pub fn from_extension(ext: &str) -> (r: Option<SourceLang>)
        ensures
            r == spec_lang_of_extension(str_to_lowercase(ext@)),
    {
        let lower = lowercase(ext);
        lang_of_lowercase_extension(lower.as_str())
    }

    /// The coarse family label used in the per-language blind summary.
    pub open spec fn spec_family_label(self) -> Seq<char> {
        match self {
            SourceLang::Php => "php"@,
            SourceLang::Twig => "twig"@,
            _ => "js"@,
        }
    }

    /// Coarse family label used in the per-language blind summary.
    pub fn family_label(&self) -> (r: &'static str)
        ensures
            r@ == self.spec_family_label(),
    {
        match self {
            SourceLang::Php => "php",
            SourceLang::Twig => "twig",
            SourceLang::Js | SourceLang::Jsx | SourceLang::Ts | SourceLang::Tsx => "js",
        }
    }

    /// The adapter family of a language.
    pub open spec fn spec_family(self) -> Family {
        match self {
            SourceLang::Php => Family::Php,
            SourceLang::Twig => Family::Twig,
            _ => Family::Js,
        }
    }

    /// The adapter family of this language.
    pub fn family(&self) -> (r: Family)
        ensures
            r == self.spec_family(),
    {
        match self {
            SourceLang::Php => Family::Php,
            SourceLang::Twig => Family::Twig,
            _ => Family::Js,
        }
    }

    /// The tree-sitter grammar of a language; Twig has none.
    pub open spec fn spec_grammar(self) -> Option<Grammar> {
        match self {
            SourceLang::Php => Some(Grammar::Php),
            SourceLang::Js | SourceLang::Jsx => Some(Grammar::JavaScript),
            SourceLang::Ts => Some(Grammar::TypeScript),
            SourceLang::Tsx => Some(Grammar::Tsx),
            SourceLang::Twig => None,
        }
    }

    /// The tree-sitter grammar for this language (Twig is handled by regular
    /// expressions and has none).
    pub fn grammar(&self) -> (r: Option<Grammar>)
        ensures
            r == self.spec_grammar(),
    {
        match self {
            SourceLang::Php => Some(Grammar::Php),
            SourceLang::Js | SourceLang::Jsx => Some(Grammar::JavaScript),
            SourceLang::Ts => Some(Grammar::TypeScript),
            SourceLang::Tsx => Some(Grammar::Tsx),
            SourceLang::Twig => None,
        }
    }
}

/// Whether a lowercased `lang` label of a call spec applies to a language.
pub open spec fn spec_lang_applies(lower: Seq<char>, lang: SourceLang) -> bool {
    match lang {
        SourceLang::Php => lower == "php"@,
        SourceLang::Twig => lower == "twig"@,
        _ => lower == "js"@ || lower == "jsx"@ || lower == "ts"@ || lower == "tsx"@ || lower
            == "javascript"@ || lower == "typescript"@,
    }
}

/// Whether an already lowercased `lang` label applies to a language.
pub fn lang_label_applies(lower: &str, lang: SourceLang) -> (r: bool)
    ensures
        r == spec_lang_applies(lower@, lang),
{
    match lang {
        SourceLang::Php => str_eq(lower, "php"),
        SourceLang::Twig => str_eq(lower, "twig"),
        _ => str_eq(lower, "js") || str_eq(lower, "jsx") || str_eq(lower, "ts") || str_eq(
            lower,
            "tsx",
        ) || str_eq(lower, "javascript") || str_eq(lower, "typescript"),
    }
}

/// A call spec applies to a language when its `lang` label (any case) does.
pub open spec fn spec_call_applies(c: CallSpecView, lang: SourceLang) -> bool {
    spec_lang_applies(str_to_lowercase(c.lang), lang)
}

/// Whether a call spec's `lang` applies to this source language.
pub fn call_applies(call: &CallSpec, lang: SourceLang) -> (r: bool)
    ensures
        r == spec_call_applies(call@, lang),
{
    let lower = lowercase(call.lang.as_str());
    lang_label_applies(lower.as_str(), lang)
}

/// The call specs that apply to a language, in order.
pub open spec fn spec_applicable(calls: Seq<CallSpecView>, lang: SourceLang) -> Seq<CallSpecView>
    decreases calls.len(),
{
    if calls.len() == 0 {
        Seq::empty()
    } else {
        let prev = spec_applicable(calls.drop_last(), lang);
        if spec_call_applies(calls.last(), lang) {
            prev.push(calls.last())
        } else {
            prev
        }
    }
}

/// The call specs that apply to a language.
pub fn applicable_calls(calls: &[CallSpec], lang: SourceLang) -> (r: Vec<CallSpec>)
    ensures
        calls_view(r@) == spec_applicable(calls_view(calls@), lang),
{
    let ghost cv = calls_view(calls@);
    let mut out: Vec<CallSpec> = Vec::new();
    let mut i: usize = 0;
    while i < calls.len()
        invariant
            cv == calls_view(calls@),
            i <= calls.len(),
            calls_view(out@) == spec_applicable(cv.take(i as int), lang),
        decreases calls.len() - i,
    {
        assert(cv.take(i + 1).drop_last() =~= cv.take(i as int));
        assert(cv.take(i + 1).last() == calls@[i as int]@);
        if call_applies(&calls[i], lang) {
            let c = calls[i].copy();
            let ghost before = out@;
            out.push(c);
            assert(calls_view(out@) =~= calls_view(before).push(c@));
        }
        i = i + 1;
    }
    assert(cv.take(calls.len() as int) =~= cv);
    out
}

/// What one source file contributes: Twig goes through its regular
/// expressions; every other language is parsed with its grammar (nothing
/// comes of a file tree-sitter produces no tree for) and its nodes are
/// visited with the language's adapter. Only the call specs that apply to
/// the language take part.
pub open spec fn spec_extract(
    lang: SourceLang,
    src: Seq<char>,
    calls: Seq<CallSpecView>,
    min_len: nat,
) -> ExtractView {
    let app = spec_applicable(calls, lang);
    match lang.spec_grammar() {
        None => spec_extract_twig(src, app),
        Some(g) => match tree_sitter_parse(g, src) {
            None => spec_empty_result(),
            Some(tv) => spec_extract_nodes(lang.spec_family(), tv, src, app, min_len),
        },
    }
}

/// Extract translation keys from one source file. Source-literal collection
/// runs on every file, also when no call spec applies.
pub fn extract(lang: SourceLang, source: &str, calls: &[CallSpec], min_guard_len: usize) -> (r:
    ExtractResult)
    ensures
        r@ == spec_extract(lang, source@, calls_view(calls@), min_guard_len as nat),
{
    let applicable = applicable_calls(calls, lang);
    match lang.grammar() {
        None => extract_twig(source, applicable.as_slice()),
        Some(g) => match parse_nodes(g, source) {
            None => ExtractResult::empty(),
            Some(nodes) => extract_nodes(lang.family(), &nodes, source, applicable.as_slice(), min_guard_len),
        },
    }
}

/// Adding a string to a list of distinct strings keeps it distinct and adds
/// exactly that string.
pub proof fn lemma_insert_str(v: Seq<Seq<char>>, s: Seq<char>)
    ensures
        v.no_duplicates() ==> spec_insert_str(v, s).no_duplicates(),
        forall|t: Seq<char>| #[trigger] spec_insert_str(v, s).contains(t) <==> (v.contains(t) || t == s),
{
    let r = spec_insert_str(v, s);
    if !v.contains(s) {
        assert(r[v.len() as int] == s);
        assert forall|t: Seq<char>| #[trigger] r.contains(t) <==> (v.contains(t) || t == s) by {
            if r.contains(t) {
                let i = choose|i: int| 0 <= i < r.len() && r[i] == t;
                if i < v.len() {
                    assert(v[i] == t);
                }
            }
            if v.contains(t) {
                let i = choose|i: int| 0 <= i < v.len() && v[i] == t;
                assert(r[i] == t);
            }
        }
    }
}

/// Walking a parsed file keeps its string lists distinct.
proof fn lemma_extract_upto_distinct(
    fam: Family,
    tv: Seq<NodeView>,
    src: Seq<char>,
    calls: Seq<CallSpecView>,
    min_len: nat,
    k: int,
)
    ensures
        spec_extract_upto(fam, tv, src, calls, min_len, k).0.no_duplicates(),
        spec_extract_upto(fam, tv, src, calls, min_len, k).3.no_duplicates(),
    decreases k,
{
    if k > 0 {
        lemma_extract_upto_distinct(fam, tv, src, calls, min_len, k - 1);
        let r = spec_extract_upto(fam, tv, src, calls, min_len, k - 1);
        let i = k - 1;
        let r1 = match spec_classify(fam, tv, src, i) {
            Some(shape) => match spec_match_spec(calls, shape) {
                Some(ci) => match spec_key_arg(shape, calls[ci]) {
                    Some(arg) => spec_record(r, spec_segments(fam, tv, src, arg), min_len),
                    None => r,
                },
                None => r,
            },
            None => r,
        };
        if let Some(shape) = spec_classify(fam, tv, src, i) {
            if let Some(ci) = spec_match_spec(calls, shape) {
                if let Some(arg) = spec_key_arg(shape, calls[ci]) {
                    let segs = spec_segments(fam, tv, src, arg);
                    lemma_insert_str(r.0, spec_join_statics(segs));
                }
            }
        }
        if let Some(segs) = spec_literal(fam, tv, src, i) {
            lemma_insert_str(r1.3, spec_join_statics(segs));
        }
    }
}

/// What a file contributes lists each literal key, and each source literal,
/// once (they are sets, whatever the language).
pub proof fn lemma_extract_distinct(lang: SourceLang, src: Seq<char>, calls: Seq<CallSpecView>, min_len: nat)
    ensures
        spec_extract(lang, src, calls, min_len).0.no_duplicates(),
        spec_extract(lang, src, calls, min_len).3.no_duplicates(),
{
    let app = spec_applicable(calls, lang);
    match lang.spec_grammar() {
        None => lemma_twig_distinct(src, app),
        Some(g) => match tree_sitter_parse(g, src) {
            None => {},
            Some(tv) => lemma_extract_upto_distinct(lang.spec_family(), tv, src, app, min_len, tv.len() as int),
        },
    }
}


/// The argument nodes of a call site; none for an index access.
pub open spec fn spec_call_args(shape: ShapeView) -> Option<Seq<int>> {
    match shape {
        ShapeView::Function { args, .. } => Some(args),
        ShapeView::Method { args, .. } => Some(args),
        ShapeView::Index { .. } => None,
    }
}

/// The key argument of a call is the one `key_arg_index` names, counting
/// from 0, whatever the other arguments are; past the last argument there is
/// none. An index access's key is its subscript.
pub proof fn lemma_key_arg_index(shape: ShapeView, c: CallSpecView)
    ensures
        spec_call_args(shape) matches Some(args) ==> (c.key_arg_index < args.len()
            ==> spec_key_arg(shape, c) == Some(args[c.key_arg_index as int])),
        spec_call_args(shape) matches Some(args) ==> (c.key_arg_index >= args.len()
            ==> spec_key_arg(shape, c) is None),
        shape matches ShapeView::Index { key, .. } ==> spec_key_arg(shape, c) == Some(key),
{
}

/// Visiting a call site that a spec describes records, as a literal key,
/// the fully static argument at the spec's `key_arg_index`: with
/// `key_arg_index` 1, `f(a0, 'k')` records `k`.
pub proof fn lemma_visit_records_key_arg(
    fam: Family,
    tv: Seq<NodeView>,
    src: Seq<char>,
    calls: Seq<CallSpecView>,
    min_len: nat,
    r: ExtractView,
    i: int,
    shape: ShapeView,
    ci: int,
    args: Seq<int>,
)
    requires
        spec_classify(fam, tv, src, i) == Some(shape),
        spec_match_spec(calls, shape) == Some(ci),
        spec_call_args(shape) == Some(args),
        calls[ci].key_arg_index < args.len(),
        !spec_has_hole(spec_segments(fam, tv, src, args[calls[ci].key_arg_index as int])),
    ensures
        spec_visit(fam, tv, src, calls, min_len, r, i).0.contains(
            spec_join_statics(spec_segments(fam, tv, src, args[calls[ci].key_arg_index as int])),
        ),
{
    let segs = spec_segments(fam, tv, src, args[calls[ci].key_arg_index as int]);
    lemma_key_arg_index(shape, calls[ci]);
    lemma_insert_str(r.0, spec_join_statics(segs));
}

/// File extensions name languages as documented: `php`; `twig`; `js`, `mjs`
/// and `cjs` are JavaScript; `jsx`; `ts`, `mts` and `cts` are TypeScript;
/// `tsx`; any other extension names none.
pub proof fn lemma_extension_languages(lower: Seq<char>)
    ensures
        spec_lang_of_extension(lower) == Some(SourceLang::Php) <==> lower == "php"@,
        spec_lang_of_extension(lower) == Some(SourceLang::Twig) <==> lower == "twig"@,
        spec_lang_of_extension(lower) == Some(SourceLang::Js) <==> (lower == "js"@ || lower == "mjs"@
            || lower == "cjs"@),
        spec_lang_of_extension(lower) == Some(SourceLang::Jsx) <==> lower == "jsx"@,
        spec_lang_of_extension(lower) == Some(SourceLang::Ts) <==> (lower == "ts"@ || lower == "mts"@
            || lower == "cts"@),
        spec_lang_of_extension(lower) == Some(SourceLang::Tsx) <==> lower == "tsx"@,
        spec_lang_of_extension(lower) is None <==> !(lower == "php"@ || lower == "twig"@ || lower
            == "js"@ || lower == "mjs"@ || lower == "cjs"@ || lower == "jsx"@ || lower == "ts"@
            || lower == "mts"@ || lower == "cts"@ || lower == "tsx"@),
{
    reveal_strlit("php");
    reveal_strlit("twig");
    reveal_strlit("js");
    reveal_strlit("mjs");
    reveal_strlit("cjs");
    reveal_strlit("jsx");
    reveal_strlit("ts");
    reveal_strlit("mts");
    reveal_strlit("cts");
    reveal_strlit("tsx");
    assert("php"@ =~= seq!['p', 'h', 'p']);
    assert("twig"@ =~= seq!['t', 'w', 'i', 'g']);
    assert("js"@ =~= seq!['j', 's']);
    assert("mjs"@ =~= seq!['m', 'j', 's']);
    assert("cjs"@ =~= seq!['c', 'j', 's']);
    assert("jsx"@ =~= seq!['j', 's', 'x']);
    assert("ts"@ =~= seq!['t', 's']);
    assert("mts"@ =~= seq!['m', 't', 's']);
    assert("cts"@ =~= seq!['c', 't', 's']);
    assert("tsx"@ =~= seq!['t', 's', 'x']);
    assert("php"@.len() != "twig"@.len());
    assert("php"@.len() != "js"@.len());
    assert("php"@[0] != "mjs"@[0]);
    assert("php"@[0] != "cjs"@[0]);
    assert("php"@[0] != "jsx"@[0]);
    assert("php"@.len() != "ts"@.len());
    assert("php"@[0] != "mts"@[0]);
    assert("php"@[0] != "cts"@[0]);
    assert("php"@[0] != "tsx"@[0]);
    assert("twig"@.len() != "js"@.len());
    assert("twig"@.len() != "mjs"@.len());
    assert("twig"@.len() != "cjs"@.len());
    assert("twig"@.len() != "jsx"@.len());
    assert("twig"@.len() != "ts"@.len());
    assert("twig"@.len() != "mts"@.len());
    assert("twig"@.len() != "cts"@.len());
    assert("twig"@.len() != "tsx"@.len());
    assert("js"@.len() != "mjs"@.len());
    assert("js"@.len() != "cjs"@.len());
    assert("js"@.len() != "jsx"@.len());
    assert("js"@[0] != "ts"@[0]);
    assert("js"@.len() != "mts"@.len());
    assert("js"@.len() != "cts"@.len());
    assert("js"@.len() != "tsx"@.len());
    assert("mjs"@[0] != "cjs"@[0]);
    assert("mjs"@[0] != "jsx"@[0]);
    assert("mjs"@.len() != "ts"@.len());
    assert("mjs"@[1] != "mts"@[1]);
    assert("mjs"@[0] != "cts"@[0]);
    assert("mjs"@[0] != "tsx"@[0]);
    assert("cjs"@[0] != "jsx"@[0]);
    assert("cjs"@.len() != "ts"@.len());
    assert("cjs"@[0] != "mts"@[0]);
    assert("cjs"@[1] != "cts"@[1]);
    assert("cjs"@[0] != "tsx"@[0]);
    assert("jsx"@.len() != "ts"@.len());
    assert("jsx"@[0] != "mts"@[0]);
    assert("jsx"@[0] != "cts"@[0]);
    assert("jsx"@[0] != "tsx"@[0]);
    assert("ts"@.len() != "mts"@.len());
    assert("ts"@.len() != "cts"@.len());
    assert("ts"@.len() != "tsx"@.len());
    assert("mts"@[0] != "cts"@[0]);
    assert("mts"@[0] != "tsx"@[0]);
    assert("cts"@[0] != "tsx"@[0]);
}

/// The JS family of languages, which share one adapter.
pub open spec fn spec_js_family(lang: SourceLang) -> bool {
    lang == SourceLang::Js || lang == SourceLang::Jsx || lang == SourceLang::Ts || lang
        == SourceLang::Tsx
}

/// Call-spec language labels, as documented: `php` applies to PHP, `twig` to
/// Twig, and each of `js`, `jsx`, `ts`, `tsx`, `javascript` and `typescript`
/// to every language of the JS family alike — and nothing else applies. A
/// spec's label is compared whatever its case (it is lowercased first).
pub proof fn lemma_lang_labels(lower: Seq<char>, lang: SourceLang, other: SourceLang, c: CallSpecView)
    ensures
        lang == SourceLang::Php ==> (spec_lang_applies(lower, lang) <==> lower == "php"@),
        lang == SourceLang::Twig ==> (spec_lang_applies(lower, lang) <==> lower == "twig"@),
        spec_js_family(lang) ==> (spec_lang_applies(lower, lang) <==> (lower == "js"@ || lower
            == "jsx"@ || lower == "ts"@ || lower == "tsx"@ || lower == "javascript"@ || lower
            == "typescript"@)),
        spec_js_family(lang) && spec_js_family(other) ==> spec_lang_applies(lower, lang)
            == spec_lang_applies(lower, other),
        spec_call_applies(c, lang) == spec_lang_applies(str_to_lowercase(c.lang), lang),
{
}

} // verus!
