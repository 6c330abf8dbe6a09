use dead_poets::config::{CallKind, CallSpec, Config};
use dead_poets::engine::{analyze, RunError};
use dead_poets::extract::SourceLang;
use dead_poets::po::PoMessage;

fn msg(msgid: &str) -> PoMessage {
    PoMessage {
        msgctxt: None,
        msgid: msgid.to_string(),
        msgid_plural: None,
        fuzzy: false,
    }
}

fn config() -> Config {
    let mut cfg = Config::default();
    cfg.scan.source_extensions = vec!["php".to_string()];
    cfg.calls = vec![CallSpec {
        lang: "php".to_string(),
        kind: CallKind::Function,
        name: "i18n".to_string(),
        receiver: None,
        key_arg_index: 0,
    }];
    cfg
}

/// One catalog, one PHP file: `used` is referenced, `gone` is not; the audit
/// runs only when asked for.
#[test]
fn run_classifies_used_and_dead() {
    let cfg = config();
    let catalogs = vec![vec![msg(""), msg("used"), msg("gone")]];
    let sources = vec![(SourceLang::Php, "<?php i18n('used'); ?>".to_string())];

    let (report, audit) = analyze(&cfg, &catalogs, &sources, None, None, &vec![]).unwrap();
    assert_eq!(report.alive_count(), 1);
    assert_eq!(report.dead_count(), 1);
    assert!(report.dead().iter().any(|v| v.key.msgid == "gone"));
    assert!(audit.is_none(), "no audit without run_audit");

    let texts: Vec<String> = sources.iter().map(|(_, t)| t.clone()).collect();
    let (_, audit) = analyze(&cfg, &catalogs, &sources, None, Some(&texts), &vec![]).unwrap();
    let audit = audit.expect("run_audit populates the audit");
    assert_eq!(audit.dead_total, 1);
    assert_eq!(audit.no_trace, 1);
}

/// Without any catalog the run fails.
#[test]
fn run_without_catalogs_fails() {
    let err = analyze(&config(), &vec![], &[], None, None, &vec![".".to_string()]).unwrap_err();
    assert!(matches!(err, RunError::Po(_)));
}

/// The example-repo shape produces the four outcomes together: a literal hit,
/// a guard hit, a blind site, and a truly dead key.
#[test]
fn example_repo_shape_produces_all_four_outcomes() {
    let mut cfg = config();
    cfg.calls.push(CallSpec {
        lang: "js".to_string(),
        kind: CallKind::Function,
        name: "i18n".to_string(),
        receiver: None,
        key_arg_index: 0,
    });
    cfg.whitelist.keys = vec!["from.db".to_string()];
    let catalogs = vec![vec![
        msg(""),
        msg("save_button"),
        msg("cf_subtype_red"),
        msg("totally_unused_key"),
        msg("from.db"),
        msg("data_key"),
    ]];
    let sources = vec![(
        SourceLang::Js,
        "i18n('save_button'); i18n(`cf_subtype_${x}`); i18n(varKey); const t = {k: 'data_key'};"
            .to_string(),
    )];
    let (report, _) = analyze(&cfg, &catalogs, &sources, None, None, &vec![]).unwrap();
    assert_eq!(report.alive_count(), 3);
    assert_eq!(report.suspect_count(), 1);
    assert_eq!(report.dead_count(), 1);
    assert_eq!(report.dead()[0].key.msgid, "totally_unused_key");
    assert_eq!(report.blind_get("js"), Some(1));
}
