//! PHP adapter — classify call sites, decode key arguments, recognise literals.
//!
//! Calls: `function_call_expression` (bare name), `member_call_expression` and
//! `scoped_call_expression` (method, matched later on a normalized receiver:
//! `$i18n` → `i18n`, `$this->i18n` → `this.i18n`, `Container::get_i18n()` →
//! `get_i18n()`). PHP has no index form. Strings decode per single/double-quote
//! rules; `'a' . $x` flattens to segments.

use vstd::prelude::*;

use crate::decode::{decode_token, spec_decode_escapes, spec_decode_token, unescape_php_double, Decoded, EscapeFlavor, Lang};
use crate::guard::{segments_view, Segment};
use crate::syntax::{
    field_child, ints_view, kind_is, lemma_field_child_after, lemma_named_children_after,
    named_children, node_text, nodes_view, spec_field_child, spec_named_children, spec_node_text,
    NodeInfo, NodeView,
};
use crate::text::{push_char, push_str, spec_trim_start_char, trim_start_char};

use super::{binary_operator_is, shape_nodes_in, spec_binary_operator, CallShape, ShapeView};

verus! {

/// The argument values among the named children `cs` of an argument list:
/// the last named child of each `argument` node that has one.
pub open spec fn spec_php_arg_values_of(tv: Seq<NodeView>, cs: Seq<int>) -> Seq<int>
    decreases cs.len(),
{
    if cs.len() == 0 {
        Seq::empty()
    } else {
        let rest = spec_php_arg_values_of(tv, cs.drop_last());
        let c = cs.last();
        let nc = spec_named_children(tv, c);
        if tv[c].kind == "argument"@ && nc.len() > 0 {
            rest.push(nc.last())
        } else {
            rest
        }
    }
}

/// The argument values of the argument list `a`.
pub open spec fn spec_php_arg_values(tv: Seq<NodeView>, a: int) -> Seq<int> {
    spec_php_arg_values_of(tv, spec_named_children(tv, a))
}

/// A node's text without its leading `$`s.
pub open spec fn spec_php_bare(tv: Seq<NodeView>, src: Seq<char>, i: int) -> Seq<char> {
    spec_trim_start_char(spec_node_text(tv, src, i), '$')
}

/// The normalized receiver of a method call: `$i18n` → `i18n`,
/// `$this->i18n` → `this.i18n`, a factory call → its callee's name and `()`.
pub open spec fn spec_php_receiver(tv: Seq<NodeView>, src: Seq<char>, i: int) -> Seq<char>
    decreases tv.len() - i,
{
    let k = tv[i].kind;
    if k == "variable_name"@ {
        spec_php_bare(tv, src, i)
    } else if k == "name"@ {
        spec_node_text(tv, src, i)
    } else if k == "member_access_expression"@ {
        match (spec_field_child(tv, i, "object"@), spec_field_child(tv, i, "name"@)) {
            (Some(o), Some(n)) => if i < o < tv.len() {
                spec_php_receiver(tv, src, o) + seq!['.'] + spec_node_text(tv, src, n)
            } else {
                spec_php_bare(tv, src, i)
            },
            _ => spec_php_bare(tv, src, i),
        }
    } else if k == "function_call_expression"@ || k == "scoped_call_expression"@ || k
        == "member_call_expression"@ {
        let f = if k == "function_call_expression"@ {
            "function"@
        } else {
            "name"@
        };
        match spec_field_child(tv, i, f) {
            Some(c) => spec_node_text(tv, src, c) + seq!['(', ')'],
            None => spec_php_bare(tv, src, i),
        }
    } else {
        spec_php_bare(tv, src, i)
    }
}

/// A PHP call site, if node `i` is one.
pub open spec fn spec_php_classify(tv: Seq<NodeView>, src: Seq<char>, i: int) -> Option<ShapeView> {
    let k = tv[i].kind;
    if k == "function_call_expression"@ {
        match (spec_field_child(tv, i, "function"@), spec_field_child(tv, i, "arguments"@)) {
            (Some(f), Some(a)) => if tv[f].kind == "name"@ {
                Some(
                    ShapeView::Function {
                        name: spec_node_text(tv, src, f),
                        args: spec_php_arg_values(tv, a),
                    },
                )
            } else {
                None
            },
            _ => None,
        }
    } else if k == "member_call_expression"@ {
        match (
            spec_field_child(tv, i, "name"@),
            spec_field_child(tv, i, "object"@),
            spec_field_child(tv, i, "arguments"@),
        ) {
            (Some(n), Some(o), Some(a)) => Some(
                ShapeView::Method {
                    name: spec_node_text(tv, src, n),
                    receiver: spec_php_receiver(tv, src, o),
                    args: spec_php_arg_values(tv, a),
                },
            ),
            _ => None,
        }
    } else if k == "scoped_call_expression"@ {
        match (
            spec_field_child(tv, i, "name"@),
            spec_field_child(tv, i, "scope"@),
            spec_field_child(tv, i, "arguments"@),
        ) {
            (Some(n), Some(s), Some(a)) => Some(
                ShapeView::Method {
                    name: spec_node_text(tv, src, n),
                    receiver: spec_php_bare(tv, src, s),
                    args: spec_php_arg_values(tv, a),
                },
            ),
            _ => None,
        }
    } else {
        None
    }
}

/// The segments of the named children `cs` of a double-quoted string: text
/// and escapes are static, anything else (an interpolation) is a hole.
pub open spec fn spec_php_encapsed_of(tv: Seq<NodeView>, src: Seq<char>, cs: Seq<int>) -> Seq<
    Option<Seq<char>>,
>
    decreases cs.len(),
{
    if cs.len() == 0 {
        Seq::empty()
    } else {
        let rest = spec_php_encapsed_of(tv, src, cs.drop_last());
        let c = cs.last();
        let seg = if tv[c].kind == "string_content"@ {
            Some(spec_node_text(tv, src, c))
        } else if tv[c].kind == "escape_sequence"@ {
            Some(spec_decode_escapes(spec_node_text(tv, src, c), EscapeFlavor::PhpDouble))
        } else {
            None
        };
        rest.push(seg)
    }
}

/// The key segments of a PHP value node: a string decodes per its quotes, a
/// `.` concatenation flattens, anything else is a hole.
pub open spec fn spec_php_segments(tv: Seq<NodeView>, src: Seq<char>, i: int) -> Seq<
    Option<Seq<char>>,
>
    decreases tv.len() - i,
{
    let k = tv[i].kind;
    if k == "string"@ {
        seq![spec_decode_token(Lang::Php, spec_node_text(tv, src, i))]
    } else if k == "encapsed_string"@ {
        let segs = spec_php_encapsed_of(tv, src, spec_named_children(tv, i));
        if segs.len() == 0 {
            seq![Some(Seq::empty())]
        } else {
            segs
        }
    } else if k == "binary_expression"@ && spec_binary_operator(tv, src, i) == Some(seq!['.']) {
        let left = match spec_field_child(tv, i, "left"@) {
            Some(c) => if i < c < tv.len() {
                spec_php_segments(tv, src, c)
            } else {
                Seq::empty()
            },
            None => Seq::empty(),
        };
        let right = match spec_field_child(tv, i, "right"@) {
            Some(c) => if i < c < tv.len() {
                spec_php_segments(tv, src, c)
            } else {
                Seq::empty()
            },
            None => Seq::empty(),
        };
        left + right
    } else {
        seq![None]
    }
}

/// The segments of node `i` if it is a string literal.
pub open spec fn spec_php_literal(tv: Seq<NodeView>, src: Seq<char>, i: int) -> Option<
    Seq<Option<Seq<char>>>,
> {
    if tv[i].kind == "string"@ || tv[i].kind == "encapsed_string"@ {
        Some(spec_php_segments(tv, src, i))
    } else {
        None
    }
}

/// Collect the argument values of the argument list `a`.
pub fn php_arg_values(t: &Vec<NodeInfo>, a: usize) -> (r: Vec<usize>)
    requires
        a < t.len(),
    ensures
        ints_view(r@) == spec_php_arg_values(nodes_view(t@), a as int),
        forall|k: int| 0 <= k < r.len() ==> #[trigger] r@[k] < t.len(),
{
    let ghost tv = nodes_view(t@);
    let cs = named_children(t, a);
    let ghost csv = ints_view(cs@);
    proof {
        lemma_named_children_after(tv, a as int);
    }
    let mut out: Vec<usize> = Vec::new();
    let mut k: usize = 0;
    while k < cs.len()
        invariant
            tv == nodes_view(t@),
            csv == ints_view(cs@),
            csv == spec_named_children(tv, a as int),
            forall|m: int| 0 <= m < csv.len() ==> a < #[trigger] csv[m] < t.len(),
            k <= cs.len(),
            ints_view(out@) == spec_php_arg_values_of(tv, csv.take(k as int)),
            forall|m: int| 0 <= m < out.len() ==> #[trigger] out@[m] < t.len(),
        decreases cs.len() - k,
    {
        let c = cs[k];
        assert(csv[k as int] == c as int);
        assert(csv.take(k + 1).drop_last() =~= csv.take(k as int));
        assert(csv.take(k + 1).last() == c as int);
        if kind_is(t, c, "argument") {
            let nc = named_children(t, c);
            proof {
                lemma_named_children_after(tv, c as int);
            }
            if nc.len() > 0 {
                let v = nc[nc.len() - 1];
                assert(ints_view(nc@)[nc.len() - 1] == v as int);
                let ghost before = out@;
                out.push(v);
                assert(ints_view(out@) =~= ints_view(before).push(v as int));
            }
        }
        k = k + 1;
    }
    assert(csv.take(cs.len() as int) =~= csv);
    out
}

/// A node's text without its leading `$`s.
fn php_bare(t: &Vec<NodeInfo>, src: &str, i: usize) -> (r: String)
    requires
        i < t.len(),
    ensures
        r@ == spec_php_bare(nodes_view(t@), src@, i as int),
{
    trim_start_char(node_text(t, src, i).as_str(), '$')
}

/// The normalized receiver of a method call.
pub fn php_receiver(t: &Vec<NodeInfo>, src: &str, i: usize) -> (r: String)
    requires
        i < t.len(),
    ensures
        r@ == spec_php_receiver(nodes_view(t@), src@, i as int),
    decreases t.len() - i,
{
    let ghost tv = nodes_view(t@);
    if kind_is(t, i, "variable_name") {
        php_bare(t, src, i)
    } else if kind_is(t, i, "name") {
        node_text(t, src, i)
    } else if kind_is(t, i, "member_access_expression") {
        proof {
            lemma_field_child_after(tv, i as int, "object"@);
            lemma_field_child_after(tv, i as int, "name"@);
        }
        match (field_child(t, i, "object"), field_child(t, i, "name")) {
            (Some(o), Some(n)) => {
                let mut s = php_receiver(t, src, o);
                push_char(&mut s, '.');
                push_str(&mut s, node_text(t, src, n).as_str());
                s
            },
            _ => php_bare(t, src, i),
        }
    } else if kind_is(t, i, "function_call_expression") || kind_is(t, i, "scoped_call_expression")
        || kind_is(t, i, "member_call_expression") {
        let is_fn = kind_is(t, i, "function_call_expression");
        let f = if is_fn {
            "function"
        } else {
            "name"
        };
        proof {
            lemma_field_child_after(tv, i as int, f@);
        }
        match field_child(t, i, f) {
            Some(c) => {
                let mut s = node_text(t, src, c);
                push_char(&mut s, '(');
                push_char(&mut s, ')');
                assert(s@ =~= spec_node_text(tv, src@, c as int) + seq!['(', ')']);
                s
            },
            None => php_bare(t, src, i),
        }
    } else {
        php_bare(t, src, i)
    }
}

/// Classify node `i` as a PHP call site, if it is one.
pub fn php_classify(t: &Vec<NodeInfo>, src: &str, i: usize) -> (r: Option<CallShape>)
    requires
        i < t.len(),
    ensures
        match r {
            Some(s) => spec_php_classify(nodes_view(t@), src@, i as int) == Some(s@)
                && shape_nodes_in(s@, t.len() as int),
            None => spec_php_classify(nodes_view(t@), src@, i as int) is None,
        },
{
    let ghost tv = nodes_view(t@);
    if kind_is(t, i, "function_call_expression") {
        proof {
            lemma_field_child_after(tv, i as int, "function"@);
            lemma_field_child_after(tv, i as int, "arguments"@);
        }
        match (field_child(t, i, "function"), field_child(t, i, "arguments")) {
            (Some(f), Some(a)) => {
                if kind_is(t, f, "name") {
                    let args = php_arg_values(t, a);
                    Some(CallShape::Function { name: node_text(t, src, f), args })
                } else {
                    None
                }
            },
            _ => None,
        }
    } else if kind_is(t, i, "member_call_expression") {
        proof {
            lemma_field_child_after(tv, i as int, "name"@);
            lemma_field_child_after(tv, i as int, "object"@);
            lemma_field_child_after(tv, i as int, "arguments"@);
        }
        match (field_child(t, i, "name"), field_child(t, i, "object"), field_child(t, i, "arguments")) {
            (Some(n), Some(o), Some(a)) => {
                let args = php_arg_values(t, a);
                Some(
                    CallShape::Method {
                        name: node_text(t, src, n),
                        receiver: php_receiver(t, src, o),
                        args,
                    },
                )
            },
            _ => None,
        }
    } else if kind_is(t, i, "scoped_call_expression") {
        proof {
            lemma_field_child_after(tv, i as int, "name"@);
            lemma_field_child_after(tv, i as int, "scope"@);
            lemma_field_child_after(tv, i as int, "arguments"@);
        }
        match (field_child(t, i, "name"), field_child(t, i, "scope"), field_child(t, i, "arguments")) {
            (Some(n), Some(s), Some(a)) => {
                let args = php_arg_values(t, a);
                Some(
                    CallShape::Method {
                        name: node_text(t, src, n),
                        receiver: php_bare(t, src, s),
                        args,
                    },
                )
            },
            _ => None,
        }
    } else {
        None
    }
}

/// The segments of a double-quoted string's parts.
fn php_encapsed(t: &Vec<NodeInfo>, src: &str, i: usize) -> (r: Vec<Segment>)
    requires
        i < t.len(),
    ensures
        segments_view(r@) == spec_php_encapsed_of(
            nodes_view(t@),
            src@,
            spec_named_children(nodes_view(t@), i as int),
        ),
{
    let ghost tv = nodes_view(t@);
    let cs = named_children(t, i);
    let ghost csv = ints_view(cs@);
    proof {
        lemma_named_children_after(tv, i as int);
    }
    let mut out: Vec<Segment> = Vec::new();
    let mut k: usize = 0;
    while k < cs.len()
        invariant
            tv == nodes_view(t@),
            csv == ints_view(cs@),
            csv == spec_named_children(tv, i as int),
            forall|m: int| 0 <= m < csv.len() ==> i < #[trigger] csv[m] < t.len(),
            k <= cs.len(),
            segments_view(out@) == spec_php_encapsed_of(tv, src@, csv.take(k as int)),
        decreases cs.len() - k,
    {
        let c = cs[k];
        assert(csv[k as int] == c as int);
        assert(csv.take(k + 1).drop_last() =~= csv.take(k as int));
        assert(csv.take(k + 1).last() == c as int);
        let seg = if kind_is(t, c, "string_content") {
            Segment::Static(node_text(t, src, c))
        } else if kind_is(t, c, "escape_sequence") {
            Segment::Static(unescape_php_double(node_text(t, src, c).as_str()))
        } else {
            Segment::Hole
        };
        let ghost before = out@;
        out.push(seg);
        assert(segments_view(out@) =~= segments_view(before).push(seg@));
        k = k + 1;
    }
    assert(csv.take(cs.len() as int) =~= csv);
    out
}

/// The key segments of a PHP value node.
pub fn php_segments(t: &Vec<NodeInfo>, src: &str, i: usize) -> (r: Vec<Segment>)
    requires
        i < t.len(),
    ensures
        segments_view(r@) == spec_php_segments(nodes_view(t@), src@, i as int),
    decreases t.len() - i,
{
    let ghost tv = nodes_view(t@);
    if kind_is(t, i, "string") {
        let seg = match decode_token(Lang::Php, node_text(t, src, i).as_str()) {
            Decoded::Literal(s) => Segment::Static(s),
            Decoded::Dynamic => Segment::Hole,
        };
        let r = vec![seg];
        assert(segments_view(r@) =~= seq![seg@]);
        r
    } else if kind_is(t, i, "encapsed_string") {
        let segs = php_encapsed(t, src, i);
        if segs.len() == 0 {
            let r = vec![Segment::Static(String::new())];
            assert(segments_view(r@) =~= seq![Some(Seq::<char>::empty())]);
            r
        } else {
            segs
        }
    } else if kind_is(t, i, "binary_expression") && binary_operator_is(t, src, i, '.') {
        proof {
            lemma_field_child_after(tv, i as int, "left"@);
            lemma_field_child_after(tv, i as int, "right"@);
        }
        let mut out: Vec<Segment> = match field_child(t, i, "left") {
            Some(c) => php_segments(t, src, c),
            None => Vec::new(),
        };
        let ghost left = segments_view(out@);
        assert(left == segments_view(out@));
        let mut right = match field_child(t, i, "right") {
            Some(c) => php_segments(t, src, c),
            None => Vec::new(),
        };
        let ghost rv = segments_view(right@);
        out.append(&mut right);
        assert(segments_view(out@) =~= left + rv);
        out
    } else {
        let r = vec![Segment::Hole];
        assert(segments_view(r@) =~= seq![None::<Seq<char>>]);
        r
    }
}

/// The segments of node `i` if it is a string literal.
pub fn php_literal(t: &Vec<NodeInfo>, src: &str, i: usize) -> (r: Option<Vec<Segment>>)
    requires
        i < t.len(),
    ensures
        match r {
            Some(v) => spec_php_literal(nodes_view(t@), src@, i as int) == Some(segments_view(v@)),
            None => spec_php_literal(nodes_view(t@), src@, i as int) is None,
        },
{
    if kind_is(t, i, "string") || kind_is(t, i, "encapsed_string") {
        Some(php_segments(t, src, i))
    } else {
        None
    }
}

} // verus!
