//! Syntax trees from tree-sitter, as plain data.
//!
//! A source file is parsed by tree-sitter with the grammar of its language and
//! the tree is read back as its nodes in pre-order (tree-sitter's descendant
//! order): each node's kind, whether it is named, the field it fills in its
//! parent, its depth below the root, and its byte range in the source. The
//! extractor works on that sequence only. The children of a node are the nodes
//! of its subtree (the run that follows it at a greater depth) one level
//! deeper than it.

use vstd::prelude::*;

use vstd::string::StringSliceAdditionalSpecFns;

use crate::text::str_eq;

verus! {

/// The tree-sitter grammars the extractor parses with.
#[derive(Debug, Clone, Copy, PartialEq, Eq, Structural)]
pub enum Grammar {
    /// PHP mixed with HTML (the HTML-aware PHP grammar).
    Php,
    /// JavaScript and JSX.
    JavaScript,
    /// TypeScript.
    TypeScript,
    /// TypeScript with JSX.
    Tsx,
}

/// One node of a parsed tree.
#[derive(Debug, Clone, PartialEq, Eq)]
pub struct NodeInfo {
    /// The grammar's node kind (`"call_expression"`, `"string"`, `"("`, …).
    pub kind: String,
    /// Named nodes are grammar rules; unnamed ones are literal tokens.
    pub named: bool,
    /// The field this node fills in its parent, if any.
    pub field: Option<String>,
    /// Depth below the root (the root has depth 0).
    pub depth: usize,
    /// First byte of the node in the source.
    pub start: usize,
    /// One past the last byte of the node in the source.
    pub end: usize,
}

/// The mathematical value of a node.
pub struct NodeView {
    pub kind: Seq<char>,
    pub named: bool,
    pub field: Option<Seq<char>>,
    pub depth: nat,
    pub start: nat,
    pub end: nat,
}

impl View for NodeInfo {
    type V = NodeView;

    open spec fn view(&self) -> NodeView {
        NodeView {
            kind: self.kind@,
            named: self.named,
            field: self.field.deep_view(),
            depth: self.depth as nat,
            start: self.start as nat,
            end: self.end as nat,
        }
    }
}

/// Node positions as integers.
pub open spec fn ints_view(v: Seq<usize>) -> Seq<int> {
    v.map_values(|x: usize| x as int)
}

/// The views of a node sequence.
pub open spec fn nodes_view(v: Seq<NodeInfo>) -> Seq<NodeView> {
    v.map_values(|x: NodeInfo| x@)
}

#[verifier::external_type_specification]
#[verifier::external_body]
pub struct ExTree(tree_sitter::Tree);

/// The nodes, in pre-order, of the tree tree-sitter builds for `source` with
/// `grammar`; `None` when tree-sitter produces no tree.
pub uninterp spec fn tree_sitter_parse(grammar: Grammar, source: Seq<char>) -> Option<Seq<NodeView>>;

/// The nodes, in pre-order, that a parsed tree holds.
pub uninterp spec fn tree_nodes(tree: tree_sitter::Tree) -> Seq<NodeView>;

/// Parse `source` with a fresh tree-sitter parser set to `grammar`
/// (`Parser::new`, `Parser::set_language`, `Parser::parse`). Claims only that
/// parsing is a function of the grammar and the text: the tree comes back
/// exactly when the name above has one, and holds its nodes. No tree results
/// when the grammar cannot be loaded.
#[verifier::external_body]
fn parse_tree(grammar: Grammar, source: &str) -> (r: Option<tree_sitter::Tree>)
    ensures
        r is None <==> tree_sitter_parse(grammar, source@) is None,
        r matches Some(t) ==> tree_sitter_parse(grammar, source@) == Some(tree_nodes(t)),
{
    let language: tree_sitter::Language = match grammar {
        Grammar::Php => tree_sitter_php::LANGUAGE_PHP.into(),
        Grammar::JavaScript => tree_sitter_javascript::LANGUAGE.into(),
        Grammar::TypeScript => tree_sitter_typescript::LANGUAGE_TYPESCRIPT.into(),
        Grammar::Tsx => tree_sitter_typescript::LANGUAGE_TSX.into(),
    };
    let mut parser = tree_sitter::Parser::new();
    parser.set_language(&language).ok()?;
    parser.parse(source, None)
}

/// `Node::descendant_count` of the root: how many nodes the tree holds.
#[verifier::external_body]
fn tree_node_count(tree: &tree_sitter::Tree) -> (r: usize)
    ensures
        r == tree_nodes(*tree).len(),
{
    tree.root_node().descendant_count()
}

/// The `index`-th node in pre-order, read through a cursor moved there with
/// `TreeCursor::goto_descendant`: its kind, namedness, field name, depth and
/// byte range.
#[verifier::external_body]
fn tree_node_at(tree: &tree_sitter::Tree, index: usize) -> (r: NodeInfo)
    requires
        index < tree_nodes(*tree).len(),
    ensures
        r@ == tree_nodes(*tree)[index as int],
{
    let mut cursor = tree.walk();
    cursor.goto_descendant(index);
    let node = cursor.node();
    NodeInfo {
        kind: node.kind().to_string(),
        named: node.is_named(),
        field: cursor.field_name().map(|f| f.to_string()),
        depth: cursor.depth() as usize,
        start: node.start_byte(),
        end: node.end_byte(),
    }
}

/// Parse a source file and read back its nodes in pre-order.
pub fn parse_nodes(grammar: Grammar, source: &str) -> (r: Option<Vec<NodeInfo>>)
    ensures
        match r {
            None => tree_sitter_parse(grammar, source@) is None,
            Some(v) => tree_sitter_parse(grammar, source@) == Some(nodes_view(v@)),
        },
{
    let tree = match parse_tree(grammar, source) {
        None => return None,
        Some(t) => t,
    };
    let n = tree_node_count(&tree);
    let mut out: Vec<NodeInfo> = Vec::new();
    let mut i: usize = 0;
    while i < n
        invariant
            n == tree_nodes(tree).len(),
            i <= n,
            nodes_view(out@) == tree_nodes(tree).take(i as int),
        decreases n - i,
    {
        let node = tree_node_at(&tree, i);
        let ghost before = out@;
        out.push(node);
        assert(nodes_view(out@) =~= nodes_view(before).push(node@));
        assert(nodes_view(out@) =~= tree_nodes(tree).take(i + 1));
        i = i + 1;
    }
    assert(tree_nodes(tree).take(n as int) =~= tree_nodes(tree));
    Some(out)
}

/// The children of `p` found at or after position `j`: the nodes of `p`'s
/// subtree one level deeper than `p`, in order.
pub open spec fn spec_children_from(t: Seq<NodeView>, p: int, j: int) -> Seq<int>
    decreases t.len() - j,
{
    if j < 0 || j >= t.len() || p < 0 || p >= t.len() || t[j].depth <= t[p].depth {
        Seq::empty()
    } else if t[j].depth == t[p].depth + 1 {
        seq![j] + spec_children_from(t, p, j + 1)
    } else {
        spec_children_from(t, p, j + 1)
    }
}

/// The children of node `p`, in order.
pub open spec fn spec_children(t: Seq<NodeView>, p: int) -> Seq<int> {
    spec_children_from(t, p, p + 1)
}

/// Every child found from position `j` lies after `j` - 1 and inside the tree.
pub proof fn lemma_children_from_bounds(t: Seq<NodeView>, p: int, j: int)
    ensures
        forall|k: int|
            0 <= k < spec_children_from(t, p, j).len() ==> j <= #[trigger] spec_children_from(
                t,
                p,
                j,
            )[k] < t.len(),
    decreases t.len() - j,
{
    if j < 0 || j >= t.len() || p < 0 || p >= t.len() || t[j].depth <= t[p].depth {
    } else {
        lemma_children_from_bounds(t, p, j + 1);
        let rest = spec_children_from(t, p, j + 1);
        if t[j].depth == t[p].depth + 1 {
            assert forall|k: int| 0 <= k < spec_children_from(t, p, j).len() implies j
                <= #[trigger] spec_children_from(t, p, j)[k] < t.len() by {
                if k > 0 {
                    assert(spec_children_from(t, p, j)[k] == rest[k - 1]);
                }
            }
        }
    }
}

/// Every child of `p` comes after `p` in the tree.
pub proof fn lemma_children_after(t: Seq<NodeView>, p: int)
    ensures
        forall|k: int|
            0 <= k < spec_children(t, p).len() ==> p < #[trigger] spec_children(t, p)[k] < t.len(),
{
    lemma_children_from_bounds(t, p, p + 1);
}

/// The children of node `p`.
pub fn children(t: &Vec<NodeInfo>, p: usize) -> (r: Vec<usize>)
    requires
        p < t.len(),
    ensures
        ints_view(r@) == spec_children(nodes_view(t@), p as int),
{
    let ghost tv = nodes_view(t@);
    let mut out: Vec<usize> = Vec::new();
    let d = t[p].depth;
    let mut j: usize = p + 1;
    while j < t.len() && t[j].depth > d
        invariant
            tv == nodes_view(t@),
            p < j <= t.len(),
            d == tv[p as int].depth,
            spec_children(tv, p as int) == ints_view(out@) + spec_children_from(
                tv,
                p as int,
                j as int,
            ),
        decreases t.len() - j,
    {
        assert(tv[j as int] == t@[j as int]@);
        if t[j].depth == d + 1 {
            let ghost before = out@;
            out.push(j);
            assert(ints_view(out@) =~= ints_view(before)
                + seq![j as int]);
        }
        j = j + 1;
    }
    proof {
        if j < t.len() {
            assert(tv[j as int] == t@[j as int]@);
        }
        assert(spec_children_from(tv, p as int, j as int) =~= Seq::<int>::empty());
        assert(ints_view(out@) + Seq::<int>::empty() =~= ints_view(out@));
    }
    out
}

/// The first node of `cs` that fills field `f`.
pub open spec fn spec_first_with_field(t: Seq<NodeView>, cs: Seq<int>, f: Seq<char>) -> Option<int>
    decreases cs.len(),
{
    if cs.len() == 0 {
        None
    } else if t[cs[0]].field == Some(f) {
        Some(cs[0])
    } else {
        spec_first_with_field(t, cs.drop_first(), f)
    }
}

/// The first child of `p` filling field `f` (tree-sitter's
/// `child_by_field_name`).
pub open spec fn spec_field_child(t: Seq<NodeView>, p: int, f: Seq<char>) -> Option<int> {
    spec_first_with_field(t, spec_children(t, p), f)
}

/// A node found by field lies among the given candidates.
pub proof fn lemma_first_with_field_in(t: Seq<NodeView>, cs: Seq<int>, f: Seq<char>)
    ensures
        spec_first_with_field(t, cs, f) matches Some(c) ==> cs.contains(c),
    decreases cs.len(),
{
    if cs.len() > 0 && t[cs[0]].field != Some(f) {
        lemma_first_with_field_in(t, cs.drop_first(), f);
        if let Some(c) = spec_first_with_field(t, cs.drop_first(), f) {
            let k = choose|k: int| 0 <= k < cs.drop_first().len() && cs.drop_first()[k] == c;
            assert(cs[k + 1] == c);
        }
    } else if cs.len() > 0 {
        assert(cs[0] == cs[0]);
    }
}

/// A child found by field comes after its parent.
pub proof fn lemma_field_child_after(t: Seq<NodeView>, p: int, f: Seq<char>)
    ensures
        spec_field_child(t, p, f) matches Some(c) ==> p < c < t.len(),
{
    lemma_children_after(t, p);
    lemma_first_with_field_in(t, spec_children(t, p), f);
}

/// The first child of `p` filling field `f`.
pub fn field_child(t: &Vec<NodeInfo>, p: usize, f: &str) -> (r: Option<usize>)
    requires
        p < t.len(),
    ensures
        r matches Some(c) ==> spec_field_child(nodes_view(t@), p as int, f@) == Some(c as int),
        r is None ==> spec_field_child(nodes_view(t@), p as int, f@) is None,
{
    let ghost tv = nodes_view(t@);
    let cs = children(t, p);
    let ghost csv = ints_view(cs@);
    proof {
        lemma_children_after(tv, p as int);
    }
    let mut k: usize = 0;
    assert(csv.skip(0) =~= csv);
    while k < cs.len()
        invariant
            tv == nodes_view(t@),
            csv == ints_view(cs@),
            csv == spec_children(tv, p as int),
            forall|m: int| 0 <= m < csv.len() ==> p < #[trigger] csv[m] < t.len(),
            k <= cs.len(),
            spec_field_child(tv, p as int, f@) == spec_first_with_field(tv, csv.skip(k as int), f@),
        decreases cs.len() - k,
    {
        let c = cs[k];
        assert(csv[k as int] == c as int);
        assert(csv.skip(k as int)[0] == c as int);
        assert(csv.skip(k as int).drop_first() =~= csv.skip(k + 1));
        assert(tv[c as int] == t@[c as int]@);
        let hit = match &t[c].field {
            Some(name) => str_eq(name.as_str(), f),
            None => false,
        };
        if hit {
            return Some(c);
        }
        k = k + 1;
    }
    None
}

/// The named nodes among `cs`, in order.
pub open spec fn spec_named_only(t: Seq<NodeView>, cs: Seq<int>) -> Seq<int>
    decreases cs.len(),
{
    if cs.len() == 0 {
        Seq::empty()
    } else {
        let rest = spec_named_only(t, cs.drop_last());
        if t[cs.last()].named {
            rest.push(cs.last())
        } else {
            rest
        }
    }
}

/// The named children of `p`, in order.
pub open spec fn spec_named_children(t: Seq<NodeView>, p: int) -> Seq<int> {
    spec_named_only(t, spec_children(t, p))
}

/// Filtering keeps only members of the input.
pub proof fn lemma_named_only_in(t: Seq<NodeView>, cs: Seq<int>)
    ensures
        forall|k: int|
            0 <= k < spec_named_only(t, cs).len() ==> cs.contains(#[trigger] spec_named_only(t, cs)[k]),
    decreases cs.len(),
{
    if cs.len() > 0 {
        lemma_named_only_in(t, cs.drop_last());
        let rest = spec_named_only(t, cs.drop_last());
        assert forall|k: int| 0 <= k < spec_named_only(t, cs).len() implies cs.contains(
            #[trigger] spec_named_only(t, cs)[k],
        ) by {
            if k < rest.len() {
                let x = rest[k];
                assert(cs.drop_last().contains(x));
                let m = choose|m: int| 0 <= m < cs.drop_last().len() && cs.drop_last()[m] == x;
                assert(cs[m] == x);
            } else {
                assert(cs[cs.len() - 1] == cs.last());
            }
        }
    }
}

/// Named children come after their parent.
pub proof fn lemma_named_children_after(t: Seq<NodeView>, p: int)
    ensures
        forall|k: int|
            0 <= k < spec_named_children(t, p).len() ==> p < #[trigger] spec_named_children(t, p)[k]
                < t.len(),
{
    lemma_children_after(t, p);
    lemma_named_only_in(t, spec_children(t, p));
    assert forall|k: int| 0 <= k < spec_named_children(t, p).len() implies p
        < #[trigger] spec_named_children(t, p)[k] < t.len() by {
        let x = spec_named_children(t, p)[k];
        let m = choose|m: int| 0 <= m < spec_children(t, p).len() && spec_children(t, p)[m] == x;
    }
}

/// The named children of `p`.
pub fn named_children(t: &Vec<NodeInfo>, p: usize) -> (r: Vec<usize>)
    requires
        p < t.len(),
    ensures
        ints_view(r@) == spec_named_children(nodes_view(t@), p as int),
{
    let ghost tv = nodes_view(t@);
    let cs = children(t, p);
    let ghost csv = ints_view(cs@);
    proof {
        lemma_children_after(tv, p as int);
    }
    let mut out: Vec<usize> = Vec::new();
    let mut k: usize = 0;
    while k < cs.len()
        invariant
            tv == nodes_view(t@),
            csv == ints_view(cs@),
            csv == spec_children(tv, p as int),
            forall|m: int| 0 <= m < csv.len() ==> p < #[trigger] csv[m] < t.len(),
            k <= cs.len(),
            ints_view(out@) == spec_named_only(tv, csv.take(k as int)),
        decreases cs.len() - k,
    {
        let c = cs[k];
        assert(csv[k as int] == c as int);
        assert(csv.take(k + 1).drop_last() =~= csv.take(k as int));
        assert(csv.take(k + 1).last() == c as int);
        assert(tv[c as int] == t@[c as int]@);
        if t[c].named {
            let ghost before = out@;
            out.push(c);
            assert(ints_view(out@) =~= ints_view(before).push(
                c as int,
            ));
        }
        k = k + 1;
    }
    assert(csv.take(cs.len() as int) =~= csv);
    out
}

/// The text of the bytes `start..end` of `s`, or the empty text when that range
/// is out of bounds or does not fall on character boundaries.
pub open spec fn spec_byte_text(s: Seq<char>, start: int, end: int) -> Seq<char> {
    let b = vstd::utf8::encode_utf8(s);
    if 0 <= start <= end <= b.len() && vstd::utf8::is_char_boundary(b, start)
        && vstd::utf8::is_char_boundary(b, end) {
        vstd::utf8::decode_utf8(b.subrange(start, end))
    } else {
        Seq::empty()
    }
}

/// The text of a node.
pub open spec fn spec_node_text(t: Seq<NodeView>, src: Seq<char>, i: int) -> Seq<char> {
    spec_byte_text(src, t[i].start as int, t[i].end as int)
}

/// The text of the bytes `start..end` of `s` (empty when the range is not a
/// valid character range of `s`).
pub fn byte_text(s: &str, start: usize, end: usize) -> (r: String)
    ensures
        r@ == spec_byte_text(s@, start as int, end as int),
{
    let len = s.as_bytes().len();
    if start <= end && end <= len && s.is_char_boundary(start) && s.is_char_boundary(end) {
        let ghost b = s.spec_bytes();
        let (_, tail) = s.split_at(start);
        let ghost tb = tail.spec_bytes();
        proof {
            vstd::utf8::encode_utf8_valid_utf8(s@);
            vstd::utf8::valid_utf8_split(b, start as int);
            assert(tb =~= b.subrange(start as int, b.len() as int));
            if end < b.len() {
                vstd::utf8::is_char_boundary_iff_not_is_continuation_byte(b, end as int);
                vstd::utf8::is_char_boundary_iff_not_is_continuation_byte(tb, (end - start) as int);
                assert(tb[(end - start) as int] == b[end as int]);
            } else {
                vstd::utf8::is_char_boundary_start_end_of_seq(tb);
            }
        }
        let (mid, _) = tail.split_at(end - start);
        proof {
            assert(mid.spec_bytes() =~= b.subrange(start as int, end as int));
            vstd::utf8::encode_utf8_decode_utf8(mid@);
            assert(mid@ == vstd::utf8::decode_utf8(b.subrange(start as int, end as int)));
            assert(b == vstd::utf8::encode_utf8(s@));
        }
        let r = mid.to_owned();
        assert(r@ == mid@);
        r
    } else {
        let r = String::new();
        assert(r@ == Seq::<char>::empty());
        r
    }
}

/// The text of node `i`.
pub fn node_text(t: &Vec<NodeInfo>, src: &str, i: usize) -> (r: String)
    requires
        i < t.len(),
    ensures
        r@ == spec_node_text(nodes_view(t@), src@, i as int),
{
    assert(nodes_view(t@)[i as int] == t@[i as int]@);
    byte_text(src, t[i].start, t[i].end)
}

/// Whether node `i` has the given kind.
pub fn kind_is(t: &Vec<NodeInfo>, i: usize, kind: &str) -> (r: bool)
    requires
        i < t.len(),
    ensures
        r == (nodes_view(t@)[i as int].kind == kind@),
{
    assert(nodes_view(t@)[i as int] == t@[i as int]@);
    str_eq(t[i].kind.as_str(), kind)
}

} // verus!
