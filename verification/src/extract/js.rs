//! JS/TS adapter — shared by the JS, JSX, TS and TSX grammars (the grammar is
//! chosen by the source language; the matching behaviour is identical).
//!
//! Calls: `call_expression` on a bare `identifier` (function) or a
//! `member_expression` (method, matched later on a normalized receiver).
//! Index: `subscript_expression` — `locale['key']` — with the object normalized
//! the same way. Strings decode per quote/template rules; `'a' + x` flattens to
//! segments.

use vstd::prelude::*;

use crate::decode::{decode_token, spec_decode_escapes, spec_decode_token, unescape_js, Decoded, EscapeFlavor, Lang};
use crate::guard::{segments_view, Segment};
use crate::syntax::{
    field_child, ints_view, kind_is, lemma_field_child_after, lemma_named_children_after,
    named_children, node_text, nodes_view, spec_field_child, spec_named_children, spec_node_text,
    NodeInfo, NodeView,
};
use crate::text::{push_char, push_str};

use super::{binary_operator_is, shape_nodes_in, spec_binary_operator, CallShape, ShapeView};

verus! {

/// The call arguments among the named children `cs` of an argument list:
/// every one but comments.
pub open spec fn spec_js_arg_values_of(tv: Seq<NodeView>, cs: Seq<int>) -> Seq<int>
    decreases cs.len(),
{
    if cs.len() == 0 {
        Seq::empty()
    } else {
        let rest = spec_js_arg_values_of(tv, cs.drop_last());
        if tv[cs.last()].kind == "comment"@ {
            rest
        } else {
            rest.push(cs.last())
        }
    }
}

/// The call arguments of the argument list `a`.
pub open spec fn spec_js_arg_values(tv: Seq<NodeView>, a: int) -> Seq<int> {
    spec_js_arg_values_of(tv, spec_named_children(tv, a))
}

/// The normalized receiver (or indexed object): identifiers as written,
/// `this`, and member chains joined with `.`.
pub open spec fn spec_js_receiver(tv: Seq<NodeView>, src: Seq<char>, i: int) -> Seq<char>
    decreases tv.len() - i,
{
    let k = tv[i].kind;
    if k == "identifier"@ || k == "property_identifier"@ {
        spec_node_text(tv, src, i)
    } else if k == "this"@ {
        "this"@
    } else if k == "member_expression"@ {
        match (spec_field_child(tv, i, "object"@), spec_field_child(tv, i, "property"@)) {
            (Some(o), Some(p)) => if i < o < tv.len() {
                spec_js_receiver(tv, src, o) + seq!['.'] + spec_node_text(tv, src, p)
            } else {
                spec_node_text(tv, src, i)
            },
            _ => spec_node_text(tv, src, i),
        }
    } else {
        spec_node_text(tv, src, i)
    }
}

/// A JS call site or index access, if node `i` is one.
pub open spec fn spec_js_classify(tv: Seq<NodeView>, src: Seq<char>, i: int) -> Option<ShapeView> {
    let k = tv[i].kind;
    if k == "call_expression"@ {
        match spec_field_child(tv, i, "function"@) {
            None => None,
            Some(f) => if tv[f].kind == "identifier"@ {
                match spec_field_child(tv, i, "arguments"@) {
                    Some(a) => Some(
                        ShapeView::Function {
                            name: spec_node_text(tv, src, f),
                            args: spec_js_arg_values(tv, a),
                        },
                    ),
                    None => None,
                }
            } else if tv[f].kind == "member_expression"@ {
                match (
                    spec_field_child(tv, f, "property"@),
                    spec_field_child(tv, f, "object"@),
                    spec_field_child(tv, i, "arguments"@),
                ) {
                    (Some(p), Some(o), Some(a)) => Some(
                        ShapeView::Method {
                            name: spec_node_text(tv, src, p),
                            receiver: spec_js_receiver(tv, src, o),
                            args: spec_js_arg_values(tv, a),
                        },
                    ),
                    _ => None,
                }
            } else {
                None
            },
        }
    } else if k == "subscript_expression"@ {
        match (spec_field_child(tv, i, "object"@), spec_field_child(tv, i, "index"@)) {
            (Some(o), Some(x)) => Some(
                ShapeView::Index { object: spec_js_receiver(tv, src, o), key: x },
            ),
            _ => None,
        }
    } else {
        None
    }
}

/// The segments of the named children `cs` of a template string:
/// substitutions are holes, escapes decode, anything else is raw text.
pub open spec fn spec_js_template_of(tv: Seq<NodeView>, src: Seq<char>, cs: Seq<int>) -> Seq<
    Option<Seq<char>>,
>
    decreases cs.len(),
{
    if cs.len() == 0 {
        Seq::empty()
    } else {
        let rest = spec_js_template_of(tv, src, cs.drop_last());
        let c = cs.last();
        let seg = if tv[c].kind == "template_substitution"@ {
            None
        } else if tv[c].kind == "escape_sequence"@ {
            Some(spec_decode_escapes(spec_node_text(tv, src, c), EscapeFlavor::Js))
        } else {
            Some(spec_node_text(tv, src, c))
        };
        rest.push(seg)
    }
}

/// The key segments of a JS value node: a string decodes per its quotes, a
/// template splits at substitutions, a `+` concatenation flattens, anything
/// else is a hole.
pub open spec fn spec_js_segments(tv: Seq<NodeView>, src: Seq<char>, i: int) -> Seq<
    Option<Seq<char>>,
>
    decreases tv.len() - i,
{
    let k = tv[i].kind;
    if k == "string"@ {
        seq![spec_decode_token(Lang::Js, spec_node_text(tv, src, i))]
    } else if k == "template_string"@ {
        let segs = spec_js_template_of(tv, src, spec_named_children(tv, i));
        if segs.len() == 0 {
            seq![Some(Seq::empty())]
        } else {
            segs
        }
    } else if k == "binary_expression"@ && spec_binary_operator(tv, src, i) == Some(seq!['+']) {
        let left = match spec_field_child(tv, i, "left"@) {
            Some(c) => if i < c < tv.len() {
                spec_js_segments(tv, src, c)
            } else {
                Seq::empty()
            },
            None => Seq::empty(),
        };
        let right = match spec_field_child(tv, i, "right"@) {
            Some(c) => if i < c < tv.len() {
                spec_js_segments(tv, src, c)
            } else {
                Seq::empty()
            },
            None => Seq::empty(),
        };
        left + right
    } else {
        seq![None]
    }
}

/// The segments of node `i` if it is a string or template literal.
pub open spec fn spec_js_literal(tv: Seq<NodeView>, src: Seq<char>, i: int) -> Option<
    Seq<Option<Seq<char>>>,
> {
    if tv[i].kind == "string"@ || tv[i].kind == "template_string"@ {
        Some(spec_js_segments(tv, src, i))
    } else {
        None
    }
}

/// Collect the call arguments of the argument list `a`, skipping comments.
pub fn js_arg_values(t: &Vec<NodeInfo>, a: usize) -> (r: Vec<usize>)
    requires
        a < t.len(),
    ensures
        ints_view(r@) == spec_js_arg_values(nodes_view(t@), a as int),
        forall|k: int| 0 <= k < r.len() ==> #[trigger] r@[k] < t.len(),
{
    let ghost tv = nodes_view(t@);
    let cs = named_children(t, a);
    let ghost csv = ints_view(cs@);
    proof {
        lemma_named_children_after(tv, a as int);
    }
    let mut out: Vec<usize> = Vec::new();
    let mut k: usize = 0;
    while k < cs.len()
        invariant
            tv == nodes_view(t@),
            csv == ints_view(cs@),
            csv == spec_named_children(tv, a as int),
            forall|m: int| 0 <= m < csv.len() ==> a < #[trigger] csv[m] < t.len(),
            k <= cs.len(),
            ints_view(out@) == spec_js_arg_values_of(tv, csv.take(k as int)),
            forall|m: int| 0 <= m < out.len() ==> #[trigger] out@[m] < t.len(),
        decreases cs.len() - k,
    {
        let c = cs[k];
        assert(csv[k as int] == c as int);
        assert(csv.take(k + 1).drop_last() =~= csv.take(k as int));
        assert(csv.take(k + 1).last() == c as int);
        if !kind_is(t, c, "comment") {
            let ghost before = out@;
            out.push(c);
            assert(ints_view(out@) =~= ints_view(before).push(c as int));
        }
        k = k + 1;
    }
    assert(csv.take(cs.len() as int) =~= csv);
    out
}

/// The normalized receiver (or indexed object) of node `i`.
pub fn js_receiver(t: &Vec<NodeInfo>, src: &str, i: usize) -> (r: String)
    requires
        i < t.len(),
    ensures
        r@ == spec_js_receiver(nodes_view(t@), src@, i as int),
    decreases t.len() - i,
{
    let ghost tv = nodes_view(t@);
    if kind_is(t, i, "identifier") || kind_is(t, i, "property_identifier") {
        node_text(t, src, i)
    } else if kind_is(t, i, "this") {
        "this".to_owned()
    } else if kind_is(t, i, "member_expression") {
        proof {
            lemma_field_child_after(tv, i as int, "object"@);
            lemma_field_child_after(tv, i as int, "property"@);
        }
        match (field_child(t, i, "object"), field_child(t, i, "property")) {
            (Some(o), Some(p)) => {
                let mut s = js_receiver(t, src, o);
                push_char(&mut s, '.');
                push_str(&mut s, node_text(t, src, p).as_str());
                s
            },
            _ => node_text(t, src, i),
        }
    } else {
        node_text(t, src, i)
    }
}

/// Classify node `i` as a JS call site or index access, if it is one.
pub fn js_classify(t: &Vec<NodeInfo>, src: &str, i: usize) -> (r: Option<CallShape>)
    requires
        i < t.len(),
    ensures
        match r {
            Some(s) => spec_js_classify(nodes_view(t@), src@, i as int) == Some(s@)
                && shape_nodes_in(s@, t.len() as int),
            None => spec_js_classify(nodes_view(t@), src@, i as int) is None,
        },
{
    let ghost tv = nodes_view(t@);
    if kind_is(t, i, "call_expression") {
        proof {
            lemma_field_child_after(tv, i as int, "function"@);
            lemma_field_child_after(tv, i as int, "arguments"@);
        }
        match field_child(t, i, "function") {
            None => None,
            Some(f) => {
                if kind_is(t, f, "identifier") {
                    match field_child(t, i, "arguments") {
                        Some(a) => {
                            let args = js_arg_values(t, a);
                            Some(CallShape::Function { name: node_text(t, src, f), args })
                        },
                        None => None,
                    }
                } else if kind_is(t, f, "member_expression") {
                    proof {
                        lemma_field_child_after(tv, f as int, "property"@);
                        lemma_field_child_after(tv, f as int, "object"@);
                    }
                    match (
                        field_child(t, f, "property"),
                        field_child(t, f, "object"),
                        field_child(t, i, "arguments"),
                    ) {
                        (Some(p), Some(o), Some(a)) => {
                            let args = js_arg_values(t, a);
                            Some(
                                CallShape::Method {
                                    name: node_text(t, src, p),
                                    receiver: js_receiver(t, src, o),
                                    args,
                                },
                            )
                        },
                        _ => None,
                    }
                } else {
                    None
                }
            },
        }
    } else if kind_is(t, i, "subscript_expression") {
        proof {
            lemma_field_child_after(tv, i as int, "object"@);
            lemma_field_child_after(tv, i as int, "index"@);
        }
        match (field_child(t, i, "object"), field_child(t, i, "index")) {
            (Some(o), Some(x)) => Some(CallShape::Index { object: js_receiver(t, src, o), key: x }),
            _ => None,
        }
    } else {
        None
    }
}

/// The segments of a template string's parts.
fn js_template(t: &Vec<NodeInfo>, src: &str, i: usize) -> (r: Vec<Segment>)
    requires
        i < t.len(),
    ensures
        segments_view(r@) == spec_js_template_of(
            nodes_view(t@),
            src@,
            spec_named_children(nodes_view(t@), i as int),
        ),
{
    let ghost tv = nodes_view(t@);
    let cs = named_children(t, i);
    let ghost csv = ints_view(cs@);
    proof {
        lemma_named_children_after(tv, i as int);
    }
    let mut out: Vec<Segment> = Vec::new();
    let mut k: usize = 0;
    while k < cs.len()
        invariant
            tv == nodes_view(t@),
            csv == ints_view(cs@),
            csv == spec_named_children(tv, i as int),
            forall|m: int| 0 <= m < csv.len() ==> i < #[trigger] csv[m] < t.len(),
            k <= cs.len(),
            segments_view(out@) == spec_js_template_of(tv, src@, csv.take(k as int)),
        decreases cs.len() - k,
    {
        let c = cs[k];
        assert(csv[k as int] == c as int);
        assert(csv.take(k + 1).drop_last() =~= csv.take(k as int));
        assert(csv.take(k + 1).last() == c as int);
        let seg = if kind_is(t, c, "template_substitution") {
            Segment::Hole
        } else if kind_is(t, c, "escape_sequence") {
            Segment::Static(unescape_js(node_text(t, src, c).as_str()))
        } else {
            Segment::Static(node_text(t, src, c))
        };
        let ghost before = out@;
        out.push(seg);
        assert(segments_view(out@) =~= segments_view(before).push(seg@));
        k = k + 1;
    }
    assert(csv.take(cs.len() as int) =~= csv);
    out
}

/// The key segments of a JS value node.
pub fn js_segments(t: &Vec<NodeInfo>, src: &str, i: usize) -> (r: Vec<Segment>)
    requires
        i < t.len(),
    ensures
        segments_view(r@) == spec_js_segments(nodes_view(t@), src@, i as int),
    decreases t.len() - i,
{
    let ghost tv = nodes_view(t@);
    if kind_is(t, i, "string") {
        let seg = match decode_token(Lang::Js, node_text(t, src, i).as_str()) {
            Decoded::Literal(s) => Segment::Static(s),
            Decoded::Dynamic => Segment::Hole,
        };
        let r = vec![seg];
        assert(segments_view(r@) =~= seq![seg@]);
        r
    } else if kind_is(t, i, "template_string") {
        let segs = js_template(t, src, i);
        if segs.len() == 0 {
            let r = vec![Segment::Static(String::new())];
            assert(segments_view(r@) =~= seq![Some(Seq::<char>::empty())]);
            r
        } else {
            segs
        }
    } else if kind_is(t, i, "binary_expression") && binary_operator_is(t, src, i, '+') {
        proof {
            lemma_field_child_after(tv, i as int, "left"@);
            lemma_field_child_after(tv, i as int, "right"@);
        }
        let mut out: Vec<Segment> = match field_child(t, i, "left") {
            Some(c) => js_segments(t, src, c),
            None => Vec::new(),
        };
        let ghost left = segments_view(out@);
        let mut right = match field_child(t, i, "right") {
            Some(c) => js_segments(t, src, c),
            None => Vec::new(),
        };
        let ghost rv = segments_view(right@);
        out.append(&mut right);
        assert(segments_view(out@) =~= left + rv);
        out
    } else {
        let r = vec![Segment::Hole];
        assert(segments_view(r@) =~= seq![None::<Seq<char>>]);
        r
    }
}

/// The segments of node `i` if it is a string or template literal.
pub fn js_literal(t: &Vec<NodeInfo>, src: &str, i: usize) -> (r: Option<Vec<Segment>>)
    requires
        i < t.len(),
    ensures
        match r {
            Some(v) => spec_js_literal(nodes_view(t@), src@, i as int) == Some(segments_view(v@)),
            None => spec_js_literal(nodes_view(t@), src@, i as int) is None,
        },
{
    if kind_is(t, i, "string") || kind_is(t, i, "template_string") {
        Some(js_segments(t, src, i))
    } else {
        None
    }
}

} // verus!
