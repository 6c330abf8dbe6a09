use dead_poets::extract::js::{js_classify, js_segments};
use dead_poets::extract::php::{php_classify, php_segments};
use dead_poets::extract::CallShape;
use dead_poets::guard::Segment;
use dead_poets::syntax::{parse_nodes, Grammar, NodeInfo};

fn nodes(grammar: Grammar, src: &str) -> Vec<NodeInfo> {
    parse_nodes(grammar, src).expect("grammar loads and parses")
}

#[test]
fn php_grammar_loads() {
    assert!(parse_nodes(Grammar::Php, "<?php __('hello'); ?>").is_some());
}

#[test]
fn javascript_grammar_loads() {
    assert!(parse_nodes(Grammar::JavaScript, "i18n('hello');").is_some());
}

#[test]
fn typescript_grammar_loads() {
    assert!(parse_nodes(Grammar::TypeScript, "const x: string = i18n('h');").is_some());
}

#[test]
fn tsx_grammar_loads() {
    assert!(parse_nodes(Grammar::Tsx, "const e = <div>{i18n('h')}</div>;").is_some());
}

/// The PHP adapter classifies a method call straight to a shape with its name
/// and normalized receiver.
#[test]
fn classify_method_normalizes_receiver() {
    let src = "<?php $this->i18n->get('k'); ?>";
    let t = nodes(Grammar::Php, src);
    let shape = (0..t.len()).find_map(|i| php_classify(&t, src, i));
    match shape {
        Some(CallShape::Method { name, receiver, .. }) => {
            assert_eq!(name, "get");
            assert_eq!(receiver, "this.i18n");
        }
        _ => panic!("expected Method shape"),
    }
}

/// The JS adapter classifies an index access to its normalized object.
#[test]
fn classify_index_normalizes_object() {
    let src = "this.locale['Delete email'];";
    let t = nodes(Grammar::JavaScript, src);
    let shape = (0..t.len()).find_map(|i| js_classify(&t, src, i));
    match shape {
        Some(CallShape::Index { object, .. }) => assert_eq!(object, "this.locale"),
        _ => panic!("expected Index shape"),
    }
}

/// Single-quote escaping is the PHP adapter's concern; `\n` stays literal.
#[test]
fn segments_single_quote_keeps_backslash_n() {
    let src = "<?php $x = 'a\\nb'; ?>";
    let t = nodes(Grammar::Php, src);
    let i = (0..t.len()).find(|&i| t[i].kind == "string").unwrap();
    assert_eq!(php_segments(&t, src, i), vec![Segment::Static("a\\nb".to_string())]);
}

/// Template interpolation becomes a hole; the static prefix stays a fragment.
#[test]
fn segments_template_prefix_and_hole() {
    let src = "const k = `cf_${x}`;";
    let t = nodes(Grammar::JavaScript, src);
    let i = (0..t.len()).find(|&i| t[i].kind == "template_string").unwrap();
    assert_eq!(
        js_segments(&t, src, i),
        vec![Segment::Static("cf_".to_string()), Segment::Hole]
    );
}

/// Nodes come in pre-order: the root first, at depth 0, spanning the source.
#[test]
fn nodes_in_preorder() {
    let src = "f(1);";
    let t = nodes(Grammar::JavaScript, src);
    assert_eq!(t[0].depth, 0);
    assert_eq!(t[0].start, 0);
    assert_eq!(t[0].end, src.len());
    assert!(t.iter().skip(1).all(|n| n.depth >= 1));
}
