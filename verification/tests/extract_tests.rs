use dead_poets::config::{CallKind, CallSpec};
use dead_poets::extract::{extract, ExtractResult, SourceLang};
use dead_poets::extract::twig::{apply_twig_filter_matches, twig_source_literals};
use dead_poets::guard::Guard;

fn func(lang: &str, name: &str) -> CallSpec {
    CallSpec {
        lang: lang.to_string(),
        kind: CallKind::Function,
        name: name.to_string(),
        receiver: None,
        key_arg_index: 0,
    }
}

fn method(lang: &str, name: &str, receiver: &[&str]) -> CallSpec {
    CallSpec {
        lang: lang.to_string(),
        kind: CallKind::Method,
        name: name.to_string(),
        receiver: Some(receiver.iter().map(|s| s.to_string()).collect()),
        key_arg_index: 0,
    }
}

fn filter(name: &str) -> CallSpec {
    CallSpec {
        lang: "twig".to_string(),
        kind: CallKind::Filter,
        name: name.to_string(),
        receiver: None,
        key_arg_index: 0,
    }
}

fn index(lang: &str, name: &str) -> CallSpec {
    CallSpec {
        lang: lang.to_string(),
        kind: CallKind::Index,
        name: name.to_string(),
        receiver: None,
        key_arg_index: 0,
    }
}

fn lit(res: &ExtractResult) -> Vec<String> {
    let mut v: Vec<String> = res.literals.clone();
    v.sort();
    v
}

fn has_source_literal(res: &ExtractResult, s: &str) -> bool {
    res.source_literals.iter().any(|x| x == s)
}

#[test]
fn extract_php_function_matcher() {
    let src = "<?php i18n('hello'); notI18n('skip'); ?>";
    let res = extract(SourceLang::Php, src, &[func("php", "i18n")], 3);
    assert_eq!(lit(&res), vec!["hello".to_string()]);
}

#[test]
fn extract_php_method_matcher_with_receiver() {
    let src = "<?php $i18n->get('k1'); $this->i18n->get('k2'); $other->get('nope'); ?>";
    let res = extract(
        SourceLang::Php,
        src,
        &[method("php", "get", &["i18n", "this.i18n"])],
        3,
    );
    assert_eq!(lit(&res), vec!["k1".to_string(), "k2".to_string()]);
}

#[test]
fn extract_php_factory_call_receiver() {
    let src = "<?php Container::get_i18n()->get('k1'); get_i18n()->get('k2'); \
               $other->build()->get('nope'); ?>";
    let res = extract(
        SourceLang::Php,
        src,
        &[method("php", "get", &["get_i18n()"])],
        3,
    );
    assert_eq!(lit(&res), vec!["k1".to_string(), "k2".to_string()]);
}

#[test]
fn extract_php_concatenation_of_two_literals() {
    let src = "<?php i18n('Hello, ' . 'World'); ?>";
    let res = extract(SourceLang::Php, src, &[func("php", "i18n")], 3);
    assert_eq!(lit(&res), vec!["Hello, World".to_string()]);
}

#[test]
fn extract_php_concatenation_with_variable_yields_prefix_guard() {
    let src = "<?php i18n('Hello, ' . $x); ?>";
    let res = extract(SourceLang::Php, src, &[func("php", "i18n")], 3);
    assert!(res.literals.is_empty());
    assert_eq!(res.guards, vec![Guard::Prefix("Hello, ".to_string())]);
    assert_eq!(res.blind, 0);
}

#[test]
fn extract_php_double_quote_interpolation_is_dynamic() {
    // "role_$x" -> Prefix("role_")
    let src = "<?php i18n(\"role_$x\"); ?>";
    let res = extract(SourceLang::Php, src, &[func("php", "i18n")], 3);
    assert!(res.literals.is_empty());
    assert_eq!(res.guards, vec![Guard::Prefix("role_".to_string())]);
}

#[test]
fn extract_js_function_and_template_guard() {
    let src = "i18n('k1'); i18n(`cf_${sub}`); i18n($x);";
    let res = extract(SourceLang::Js, src, &[func("js", "i18n")], 3);
    assert_eq!(lit(&res), vec!["k1".to_string()]);
    assert_eq!(res.guards, vec![Guard::Prefix("cf_".to_string())]);
    assert_eq!(res.blind, 1, "i18n($x) is a blind site");
}

#[test]
fn extract_js_short_fragment_template_is_blind_not_alive() {
    let src = "i18n(`${a}_${b}`);";
    let res = extract(SourceLang::Js, src, &[func("js", "i18n")], 3);
    assert!(res.guards.is_empty());
    assert_eq!(res.blind, 1);
}

#[test]
fn extract_js_method_matcher() {
    let src = "i18n.t('k'); other.t('nope');";
    let res = extract(SourceLang::Js, src, &[method("js", "t", &["i18n"])], 3);
    assert_eq!(lit(&res), vec!["k".to_string()]);
}

#[test]
fn extract_js_index_matcher_literal_dynamic_and_mismatch() {
    // locale['Delete email'] -> literal; locale[varKey] -> blind;
    // other['x'] -> ignored (object name mismatch).
    let src = "locale['Delete email']; locale[varKey]; other['x'];";
    let res = extract(SourceLang::Js, src, &[index("js", "locale")], 3);
    assert_eq!(lit(&res), vec!["Delete email".to_string()]);
    assert_eq!(res.blind, 1, "locale[varKey] is a blind site");
}

#[test]
fn extract_js_index_matcher_guard_and_member_object() {
    let src = "this.locale[`cf_subtype_${k}`];";
    let res = extract(SourceLang::Js, src, &[index("js", "this.locale")], 3);
    assert!(res.literals.is_empty());
    assert_eq!(res.guards, vec![Guard::Prefix("cf_subtype_".to_string())]);
}

#[test]
fn extract_twig_filter_literal_and_blind() {
    let src = "{{ 'k'|i18n }} and {{ var|i18n }}";
    let res = extract(SourceLang::Twig, src, &[filter("i18n")], 3);
    assert_eq!(lit(&res), vec!["k".to_string()]);
    assert_eq!(res.blind, 1, "{{ var|i18n }} is blind");
}

#[test]
fn extract_php_mixed_html_parses() {
    let src = "<html><body><?php i18n('mixed'); ?></body></html>";
    let res = extract(SourceLang::Php, src, &[func("php", "i18n")], 3);
    assert_eq!(lit(&res), vec!["mixed".to_string()]);
}

#[test]
fn extract_tsx_grammar_extracts() {
    let src = "const e = <div>{i18n('tsx_key')}</div>;";
    let res = extract(SourceLang::Tsx, src, &[func("ts", "i18n")], 3);
    assert_eq!(lit(&res), vec!["tsx_key".to_string()]);
}

#[test]
fn extract_collects_source_literals_outside_calls() {
    let src = "<?php const X = 'industry_retail_ecommerce'; \
               $a = [RPI::T => 'Count of income calls']; \
               $b = \"role_$x\"; ?>";
    // No applicable calls at all — collection must still run.
    let res = extract(SourceLang::Php, src, &[], 3);
    assert!(has_source_literal(&res, "industry_retail_ecommerce"));
    assert!(has_source_literal(&res, "Count of income calls"));
    // Interpolated string is not a static literal.
    assert!(!res.source_literals.iter().any(|s| s.contains("role_")));
}

#[test]
fn extract_js_source_literals_include_template_and_plain() {
    let src = "i18n('called_key'); const m = {'bare_key': 1};";
    let res = extract(SourceLang::Js, src, &[func("js", "i18n")], 3);
    assert!(has_source_literal(&res, "called_key"));
    assert!(has_source_literal(&res, "bare_key"));
}

#[test]
fn mod_php_function_matcher() {
    let src = "<?php i18n('hello'); notI18n('skip'); ?>";
    let res = extract(SourceLang::Php, src, &[func("php", "i18n")], 3);
    assert_eq!(lit(&res), vec!["hello".to_string()]);
}

#[test]
fn mod_php_method_matcher_with_receiver() {
    let src = "<?php $i18n->get('k1'); $this->i18n->get('k2'); $other->get('nope'); ?>";
    let res = extract(
        SourceLang::Php,
        src,
        &[method("php", "get", &["i18n", "this.i18n"])],
        3,
    );
    assert_eq!(lit(&res), vec!["k1".to_string(), "k2".to_string()]);
}

#[test]
fn mod_php_factory_call_receiver() {
    let src = "<?php Container::get_i18n()->get('k1'); get_i18n()->get('k2'); \
               $other->build()->get('nope'); ?>";
    let res = extract(
        SourceLang::Php,
        src,
        &[method("php", "get", &["get_i18n()"])],
        3,
    );
    assert_eq!(lit(&res), vec!["k1".to_string(), "k2".to_string()]);
}

#[test]
fn mod_php_concatenation_of_two_literals() {
    let src = "<?php i18n('Hello, ' . 'World'); ?>";
    let res = extract(SourceLang::Php, src, &[func("php", "i18n")], 3);
    assert_eq!(lit(&res), vec!["Hello, World".to_string()]);
}

#[test]
fn mod_php_concatenation_with_variable_yields_prefix_guard() {
    let src = "<?php i18n('Hello, ' . $x); ?>";
    let res = extract(SourceLang::Php, src, &[func("php", "i18n")], 3);
    assert!(res.literals.is_empty());
    assert_eq!(res.guards, vec![Guard::Prefix("Hello, ".to_string())]);
    assert_eq!(res.blind, 0);
}

#[test]
fn mod_php_double_quote_interpolation_is_dynamic() {
    // "role_$x" -> Prefix("role_")
    let src = "<?php i18n(\"role_$x\"); ?>";
    let res = extract(SourceLang::Php, src, &[func("php", "i18n")], 3);
    assert!(res.literals.is_empty());
    assert_eq!(res.guards, vec![Guard::Prefix("role_".to_string())]);
}

#[test]
fn mod_js_function_and_template_guard() {
    let src = "i18n('k1'); i18n(`cf_${sub}`); i18n($x);";
    let res = extract(SourceLang::Js, src, &[func("js", "i18n")], 3);
    assert_eq!(lit(&res), vec!["k1".to_string()]);
    assert_eq!(res.guards, vec![Guard::Prefix("cf_".to_string())]);
    assert_eq!(res.blind, 1, "i18n($x) is a blind site");
}

#[test]
fn mod_js_short_fragment_template_is_blind_not_alive() {
    let src = "i18n(`${a}_${b}`);";
    let res = extract(SourceLang::Js, src, &[func("js", "i18n")], 3);
    assert!(res.guards.is_empty());
    assert_eq!(res.blind, 1);
}

#[test]
fn mod_js_method_matcher() {
    let src = "i18n.t('k'); other.t('nope');";
    let res = extract(SourceLang::Js, src, &[method("js", "t", &["i18n"])], 3);
    assert_eq!(lit(&res), vec!["k".to_string()]);
}

#[test]
fn mod_js_index_matcher_literal_dynamic_and_mismatch() {
    // locale['Delete email'] -> literal; locale[varKey] -> blind;
    // other['x'] -> ignored (object name mismatch).
    let src = "locale['Delete email']; locale[varKey]; other['x'];";
    let res = extract(SourceLang::Js, src, &[index("js", "locale")], 3);
    assert_eq!(lit(&res), vec!["Delete email".to_string()]);
    assert_eq!(res.blind, 1, "locale[varKey] is a blind site");
}

#[test]
fn mod_js_index_matcher_guard_and_member_object() {
    let src = "this.locale[`cf_subtype_${k}`];";
    let res = extract(SourceLang::Js, src, &[index("js", "this.locale")], 3);
    assert!(res.literals.is_empty());
    assert_eq!(res.guards, vec![Guard::Prefix("cf_subtype_".to_string())]);
}

#[test]
fn mod_twig_filter_literal_and_blind() {
    let src = "{{ 'k'|i18n }} and {{ var|i18n }}";
    let res = extract(SourceLang::Twig, src, &[filter("i18n")], 3);
    assert_eq!(lit(&res), vec!["k".to_string()]);
    assert_eq!(res.blind, 1, "{{ var|i18n }} is blind");
}

#[test]
fn mod_php_mixed_html_parses() {
    let src = "<html><body><?php i18n('mixed'); ?></body></html>";
    let res = extract(SourceLang::Php, src, &[func("php", "i18n")], 3);
    assert_eq!(lit(&res), vec!["mixed".to_string()]);
}

#[test]
fn mod_tsx_grammar_extracts() {
    let src = "const e = <div>{i18n('tsx_key')}</div>;";
    let res = extract(SourceLang::Tsx, src, &[func("ts", "i18n")], 3);
    assert_eq!(lit(&res), vec!["tsx_key".to_string()]);
}

#[test]
fn mod_collects_source_literals_outside_calls() {
    let src = "<?php const X = 'industry_retail_ecommerce'; \
               $a = [RPI::T => 'Count of income calls']; \
               $b = \"role_$x\"; ?>";
    // No applicable calls at all — collection must still run.
    let res = extract(SourceLang::Php, src, &[], 3);
    assert!(has_source_literal(&res, "industry_retail_ecommerce"));
    assert!(has_source_literal(&res, "Count of income calls"));
    // Interpolated string is not a static literal.
    assert!(!res.source_literals.iter().any(|s| s.contains("role_")));
}

#[test]
fn mod_js_source_literals_include_template_and_plain() {
    let src = "i18n('called_key'); const m = {'bare_key': 1};";
    let res = extract(SourceLang::Js, src, &[func("js", "i18n")], 3);
    assert!(has_source_literal(&res, "called_key"));
    assert!(has_source_literal(&res, "bare_key"));
}

/// Quoted-string captures become source literals: static, non-empty,
/// non-interpolated, each once.
#[test]
fn twig_source_literals_from_captures() {
    let src = "{{ 'a_key' }} {{ \"\" }} {{ \"x#{y}\" }} {{ 'a_key' }} {{ \"dq\" }}";
    // Group 1 for single quotes, group 2 for double quotes.
    let m = |open: usize, close: usize, single: bool| {
        if single {
            vec![Some((open - 1, close + 1)), Some((open, close)), None]
        } else {
            vec![Some((open - 1, close + 1)), None, Some((open, close))]
        }
    };
    let a = src.find("a_key").unwrap();
    let e = src.find("\"\"").unwrap() + 1;
    let x = src.find("x#{y}").unwrap();
    let a2 = src.rfind("a_key").unwrap();
    let d = src.find("dq").unwrap();
    let caps = vec![
        m(a, a + 5, true),
        m(e, e, false),
        m(x, x + 5, false),
        m(a2, a2 + 5, true),
        m(d, d + 2, false),
    ];
    assert_eq!(twig_source_literals(src, &caps), vec!["a_key".to_string(), "dq".to_string()]);
}

/// A filter's literal uses become keys; unresolved uses are blind.
#[test]
fn twig_filter_matches_applied() {
    let src = "{{ 'k1'|trans }} {{ name|trans }} {{ 'k1'|trans }}";
    let k = src.find("k1").unwrap();
    let k2 = src.rfind("k1").unwrap();
    let caps = vec![
        vec![Some((k - 1, k + 10)), Some((k, k + 2))],
        vec![Some((k2 - 1, k2 + 10)), Some((k2, k2 + 2))],
    ];
    let mut res = ExtractResult::empty();
    apply_twig_filter_matches(&mut res, src, 3, &caps);
    assert_eq!(res.literals, vec!["k1".to_string()]);
    assert_eq!(res.blind, 1);
}
