use dead_poets::extract::ExtractResult;
use dead_poets::guard::Guard;
use dead_poets::liveness::{classify, AliveVia, Status, Usage};
use dead_poets::po::{PoIndex, PoKey};

fn key(msgid: &str) -> PoKey {
    PoKey {
        msgctxt: None,
        msgid: msgid.to_string(),
        msgid_plural: None,
    }
}

fn plural_key(msgid: &str, plural: &str) -> PoKey {
    PoKey {
        msgctxt: None,
        msgid: msgid.to_string(),
        msgid_plural: Some(plural.to_string()),
    }
}

/// literal hit -> Alive/Literal; guard-only hit -> Alive/Guard; no match -> Dead.
#[test]
fn classifies_three_cases() {
    let index = PoIndex::from_keys(vec![
        key("used_literal"),
        key("cf_subtype_color"),
        key("truly_dead"),
    ]);
    let mut usage = Usage::default();
    usage.literals.push("used_literal".to_string());
    usage.guards.push(Guard::Prefix("cf_subtype_".to_string()));

    let report = classify(&index, &usage, &Vec::new());

    let verdict = |id: &str| {
        report
            .verdicts
            .iter()
            .find(|v| v.key.msgid == id)
            .unwrap()
            .status
    };
    assert_eq!(verdict("used_literal"), Status::Alive(AliveVia::Literal));
    assert_eq!(verdict("cf_subtype_color"), Status::Alive(AliveVia::Guard));
    assert_eq!(verdict("truly_dead"), Status::Dead);
    assert_eq!(report.dead_count(), 1);
    assert_eq!(report.alive_count(), 2);
}

/// A key with no modeled call but whose msgid appears as a source literal is
/// `Suspect`, not `Dead` — and a literal/guard hit still wins over Suspect.
#[test]
fn source_literal_only_is_suspect() {
    let index = PoIndex::from_keys(vec![
        key("data_table_key"),
        key("never_anywhere"),
        key("also_called"),
    ]);
    let mut usage = Usage::default();
    usage
        .source_literals
        .extend(["data_table_key".to_string(), "also_called".to_string()]);
    usage.literals.push("also_called".to_string());

    let report = classify(&index, &usage, &Vec::new());
    let verdict = |id: &str| {
        report
            .verdicts
            .iter()
            .find(|v| v.key.msgid == id)
            .unwrap()
            .status
    };
    assert_eq!(verdict("data_table_key"), Status::Suspect);
    assert_eq!(verdict("never_anywhere"), Status::Dead);
    assert_eq!(verdict("also_called"), Status::Alive(AliveVia::Literal));
    assert_eq!(report.suspect_count(), 1);
    assert_eq!(report.dead_count(), 1);
    assert_eq!(report.alive_count(), 1);
}

/// A whitelisted key is Alive via Whitelist even with no code reference.
#[test]
fn whitelist_keeps_key_alive() {
    let index = PoIndex::from_keys(vec![key("dynamic.from.db")]);
    let usage = Usage::default();
    let whitelist: Vec<String> = vec!["dynamic.from.db".to_string()];

    let report = classify(&index, &usage, &whitelist);
    assert_eq!(
        report.verdicts[0].status,
        Status::Alive(AliveVia::Whitelist)
    );
}

/// A plural key is Alive if either form is referenced.
#[test]
fn plural_key_alive_via_plural_form() {
    let index = PoIndex::from_keys(vec![plural_key("1 apple", "%d apples")]);
    let mut usage = Usage::default();
    usage.literals.push("%d apples".to_string());

    let report = classify(&index, &usage, &Vec::new());
    assert_eq!(report.verdicts[0].status, Status::Alive(AliveVia::Literal));
}

/// Blind sites aggregate per language and are never hidden.
#[test]
fn blind_summary_aggregates_per_language() {
    let mut usage = Usage::default();
    usage.add(
        "js",
        ExtractResult {
            blind: 1,
            ..Default::default()
        },
    );
    usage.add(
        "js",
        ExtractResult {
            blind: 1,
            ..Default::default()
        },
    );
    usage.add(
        "twig",
        ExtractResult {
            blind: 1,
            ..Default::default()
        },
    );

    let report = classify(&PoIndex::from_keys(vec![]), &usage, &Vec::new());
    assert_eq!(report.blind_get("js"), Some(2));
    assert_eq!(report.blind_get("twig"), Some(1));
    assert_eq!(report.total_blind(), 3);
}

/// The whitelist wins over every other signal.
#[test]
fn whitelist_beats_literal_and_guard() {
    let index = PoIndex::from_keys(vec![key("both")]);
    let mut usage = Usage::default();
    usage.literals.push("both".to_string());
    usage.guards.push(Guard::Prefix("bot".to_string()));
    let report = classify(&index, &usage, &vec!["both".to_string()]);
    assert_eq!(report.verdicts[0].status, Status::Alive(AliveVia::Whitelist));
}

/// Blind labels come out in label order, each once, whatever order files came in.
#[test]
fn blind_labels_sorted_and_unique() {
    let mut usage = Usage::default();
    for label in ["twig", "js", "php", "js"] {
        usage.add(
            label,
            ExtractResult {
                blind: 2,
                ..Default::default()
            },
        );
    }
    assert_eq!(
        usage.blind,
        vec![
            ("js".to_string(), 4),
            ("php".to_string(), 2),
            ("twig".to_string(), 2)
        ]
    );
}

/// A result without blind sites leaves the blind summary untouched.
#[test]
fn no_blind_sites_no_label() {
    let mut usage = Usage::default();
    usage.add("php", ExtractResult::default());
    assert!(usage.blind.is_empty());
}

/// A key listed twice is kept once in the index and judged once.
#[test]
fn duplicate_keys_get_one_verdict() {
    let index = PoIndex::from_keys(vec![key("dup"), key("other"), key("dup")]);
    assert_eq!(index.len(), 2);
    let report = classify(&index, &Usage::default(), &Vec::new());
    assert_eq!(report.verdicts.len(), 2);
    assert_eq!(report.verdicts.iter().filter(|v| v.key.msgid == "dup").count(), 1);
}
