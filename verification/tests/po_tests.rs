use dead_poets::po::{build_index, load_index, select_po_files, PoError, PoIndex, PoKey, PoMessage};
use dead_poets::walk::FileEntry;

fn msg(msgid: &str) -> PoMessage {
    PoMessage {
        msgctxt: None,
        msgid: msgid.to_string(),
        msgid_plural: None,
        fuzzy: false,
    }
}

fn header() -> PoMessage {
    msg("")
}

fn entry(root: &str, rel: &str) -> FileEntry {
    FileEntry {
        root: root.to_string(),
        rel: rel.to_string(),
        abs: format!("{root}/{rel}"),
    }
}

/// Three locales: each file selected; a key in only one locale still lands in
/// the index (union semantics); a plural key keeps both forms.
#[test]
fn union_across_three_locales() {
    let entries = vec![
        entry("/repo", "fr/LC_MESSAGES/messages.po"),
        entry("/repo", "de/LC_MESSAGES/messages.po"),
        entry("/repo", "es/LC_MESSAGES/messages.po"),
        entry("/repo", "src/app.php"),
    ];
    let files = select_po_files(&vec!["**/*.po".to_string()], &entries).unwrap();
    assert_eq!(files.len(), 3, "all three locale files collected");
    assert_eq!(files[0], "/repo/de/LC_MESSAGES/messages.po");

    let fr = vec![header(), msg("shared")];
    let de = vec![header(), msg("shared"), msg("only_de")];
    let es = vec![
        header(),
        PoMessage {
            msgctxt: None,
            msgid: "1 apple".to_string(),
            msgid_plural: Some("%d apples".to_string()),
            fuzzy: false,
        },
    ];
    let index = build_index(&vec![fr, de, es]);

    assert!(index.contains_msgid("shared"));
    assert!(index.contains_msgid("only_de"));
    let plural = index
        .keys()
        .iter()
        .find(|k| k.msgid == "1 apple")
        .expect("plural key present");
    assert_eq!(plural.msgid_plural.as_deref(), Some("%d apples"));
    assert!(index.contains_msgid("%d apples"));
    assert_eq!(index.len(), 3);
}

/// Fuzzy entries and the metadata header are excluded; active entries remain.
#[test]
fn skips_obsolete_and_fuzzy() {
    let mut fuzzy = msg("fuzzy_key");
    fuzzy.fuzzy = true;
    let index = build_index(&vec![vec![header(), msg("active"), fuzzy]]);
    assert!(index.contains_msgid("active"));
    assert!(!index.contains_msgid("fuzzy_key"), "fuzzy excluded");
    assert_eq!(index.len(), 1);
}

/// No catalog at all is an error naming the patterns and roots.
#[test]
fn no_catalogs_is_an_error() {
    let err = load_index(&vec![], &vec!["**/*.po".to_string()], &vec!["/repo".to_string()])
        .unwrap_err();
    match err {
        PoError::NoCatalogs { patterns, roots } => {
            assert_eq!(patterns, vec!["**/*.po".to_string()]);
            assert_eq!(roots, vec!["/repo".to_string()]);
        }
        _ => panic!("expected NoCatalogs"),
    }
    assert!(load_index(&vec![vec![]], &vec![], &vec![]).is_ok());
}

/// An invalid glob is reported with the offending pattern.
#[test]
fn invalid_pattern_is_reported() {
    let err = select_po_files(&vec!["ok/*.po".to_string(), "a[".to_string()], &vec![]).unwrap_err();
    match err {
        PoError::InvalidPattern { pattern, .. } => assert_eq!(pattern, "a["),
        _ => panic!("expected InvalidPattern"),
    }
}

/// A pattern matches the path relative to the root, or else the full path.
#[test]
fn patterns_match_relative_or_absolute() {
    let entries = vec![entry("/r", "locale/x.pot"), entry("/r", "other/y.po")];
    let rel_only = select_po_files(&vec!["locale/*.pot".to_string()], &entries).unwrap();
    assert_eq!(rel_only, vec!["/r/locale/x.pot".to_string()]);
    let abs = select_po_files(&vec!["/r/other/*.po".to_string()], &entries).unwrap();
    assert_eq!(abs, vec!["/r/other/y.po".to_string()]);
}

/// The same key in two catalogs is one key; keys with different contexts are
/// different keys.
#[test]
fn context_distinguishes_keys() {
    let mut with_ctx = msg("Open");
    with_ctx.msgctxt = Some("menu".to_string());
    let index = build_index(&vec![vec![msg("Open"), with_ctx.clone()], vec![msg("Open"), with_ctx]]);
    assert_eq!(index.len(), 2);
    let from = PoIndex::from_keys(vec![
        PoKey { msgctxt: None, msgid: "a".into(), msgid_plural: None },
        PoKey { msgctxt: None, msgid: "a".into(), msgid_plural: None },
    ]);
    assert_eq!(from.len(), 1);
    assert!(!from.is_empty());
}
