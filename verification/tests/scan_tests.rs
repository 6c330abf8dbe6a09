use dead_poets::config::{CallKind, CallSpec};
use dead_poets::extract::{extract, SourceLang};
use dead_poets::guard::Guard;
use dead_poets::liveness::Usage;
use dead_poets::scan::{aggregate, extension_of, fold_results, select_source_files, source_lang_of};
use dead_poets::walk::FileEntry;

fn calls() -> Vec<CallSpec> {
    vec![
        CallSpec {
            lang: "php".into(),
            kind: CallKind::Function,
            name: "i18n".into(),
            receiver: None,
            key_arg_index: 0,
        },
        CallSpec {
            lang: "php".into(),
            kind: CallKind::Method,
            name: "get".into(),
            receiver: Some(vec!["i18n".into()]),
            key_arg_index: 0,
        },
        CallSpec {
            lang: "js".into(),
            kind: CallKind::Function,
            name: "i18n".into(),
            receiver: None,
            key_arg_index: 0,
        },
        CallSpec {
            lang: "twig".into(),
            kind: CallKind::Filter,
            name: "i18n".into(),
            receiver: None,
            key_arg_index: 0,
        },
    ]
}

/// Normalize a Usage into a comparable, order-independent shape.
fn normalize(u: &Usage) -> (Vec<String>, Vec<String>, Vec<(String, usize)>) {
    let mut lits: Vec<String> = u.literals.clone();
    lits.sort();
    let mut guards: Vec<String> = u.guards.iter().map(|g| format!("{g:?}")).collect();
    guards.sort();
    let blind: Vec<(String, usize)> = u.blind.clone();
    (lits, guards, blind)
}

fn files() -> Vec<(SourceLang, String)> {
    let mut files = Vec::new();
    for i in 0..4 {
        files.push((
            SourceLang::Php,
            format!("<?php i18n('php_{i}'); $i18n->get('get_{i}'); i18n(\"role_$x\"); ?>"),
        ));
        files.push((
            SourceLang::Js,
            format!("i18n('js_{i}'); i18n(`cf_${{x}}`); i18n($y);"),
        ));
        files.push((SourceLang::Twig, "{{ 'tw'|i18n }} {{ var|i18n }}".to_string()));
    }
    files
}

/// Folding the per-file results gives the same aggregate whether the results
/// were computed one after the other or handed over already computed (as a
/// parallel caller does).
#[test]
fn single_and_multi_threaded_identical() {
    let files = files();
    let calls = calls();

    let sequential = aggregate(&files, &calls, 3);
    let precomputed: Vec<_> = files
        .iter()
        .map(|(lang, text)| (*lang, extract(*lang, text, &calls, 3)))
        .collect();
    let folded = fold_results(precomputed);

    assert_eq!(normalize(&sequential), normalize(&folded));

    // Sanity: content is what we expect, not empty.
    let (lits, guards, blind) = normalize(&sequential);
    assert!(lits.contains(&"php_0".to_string()));
    assert!(lits.contains(&"js_0".to_string()));
    assert!(lits.contains(&"tw".to_string()));
    assert!(guards.iter().any(|g| g.contains("cf_")));
    assert!(guards.iter().any(|g| g.contains("role_")));
    // js blind: i18n($y) x4 ; twig blind: {{ var|i18n }} x4
    assert_eq!(blind, vec![("js".to_string(), 4), ("twig".to_string(), 4)]);
}

/// File selection respects the configured extensions.
#[test]
fn collect_respects_extensions_and_ignores() {
    let entries = vec![
        FileEntry { root: "/d".into(), rel: "keep.php".into(), abs: "/d/keep.php".into() },
        FileEntry { root: "/d".into(), rel: "skip.txt".into(), abs: "/d/skip.txt".into() },
        FileEntry { root: "/d".into(), rel: "page.TWIG".into(), abs: "/d/page.TWIG".into() },
        FileEntry { root: "/d".into(), rel: "app.js".into(), abs: "/d/app.js".into() },
    ];
    let files = select_source_files(&entries, &["php".to_string(), "twig".to_string()]);
    assert_eq!(files.len(), 2);
    assert!(files[0].0.ends_with("keep.php"));
    assert_eq!(files[0].1, SourceLang::Php);
    assert_eq!(files[1].1, SourceLang::Twig);
}

/// The extension is the part after the last dot of the file name.
#[test]
fn extension_follows_path_rules() {
    assert_eq!(extension_of("/a/b.tar.gz").as_deref(), Some("gz"));
    assert_eq!(extension_of("/a/.hidden"), None);
    assert_eq!(extension_of("/a.d/noext"), None);
    assert_eq!(extension_of("x."), Some(String::new()));
    assert_eq!(source_lang_of("/w/x.MJS", &["mjs".to_string()]), Some(SourceLang::Js));
    assert_eq!(source_lang_of("/w/x.mjs", &["js".to_string()]), None);
}

/// Literal keys are kept once across files.
#[test]
fn literals_are_a_set_across_files() {
    let calls = calls();
    let files = vec![
        (SourceLang::Php, "<?php i18n('same'); ?>".to_string()),
        (SourceLang::Js, "i18n('same');".to_string()),
    ];
    let usage = aggregate(&files, &calls, 3);
    assert_eq!(usage.literals, vec!["same".to_string()]);
    assert!(usage.guards.is_empty());
    let _ = Guard::Prefix(String::new());
}
