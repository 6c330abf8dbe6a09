use dead_poets::audit::{audit, fragments_around, skeleton_fragments, Trace};
use dead_poets::po::PoKey;

fn key(msgid: &str) -> PoKey {
    PoKey {
        msgctxt: None,
        msgid: msgid.to_string(),
        msgid_plural: None,
    }
}

/// printf, python-named, and brace placeholders all split into the surrounding
/// static fragments; a placeholder-free msgid yields no fragments.
#[test]
fn skeleton_fragments_split_on_placeholders() {
    assert_eq!(
        skeleton_fragments("Deleted %d contacts", 3),
        vec!["Deleted ".to_string(), " contacts".to_string()]
    );
    assert_eq!(
        skeleton_fragments("%1$s reacted to message", 3),
        vec![" reacted to message".to_string()]
    );
    assert_eq!(
        skeleton_fragments("Welcome {name} home", 3),
        vec!["Welcome ".to_string(), " home".to_string()]
    );
    // No placeholder -> empty (skeleton tier does not apply).
    assert!(skeleton_fragments("plain key", 3).is_empty());
    // Fragments below the threshold are dropped (" : " is too short here).
    assert!(skeleton_fragments("%s: %s", 3).is_empty());
}

/// One key per tier: substring (verbatim in a comment), skeleton (placeholder
/// fragments present, msgid itself absent), and none (no trace at all).
#[test]
fn audit_buckets_each_tier() {
    let sources = vec![
        "<?php // note: Verbatim dead phrase here\n\
         $x = 'Deleted ' . $n . ' contacts now';\n\
         notADeadKey('whatever'); ?>"
            .to_string(),
    ];

    let k_sub = key("Verbatim dead phrase");
    let k_skel = key("Deleted %d contacts");
    let k_none = key("Nowhere To Be Found");
    let dead = vec![k_sub, k_skel, k_none];

    let report = audit(&dead, &sources, 3).unwrap();

    assert_eq!(report.dead_total, 3);
    assert_eq!(report.substring, 1);
    assert_eq!(report.skeleton, 1);
    assert_eq!(report.no_trace, 1);

    let tier = |id: &str| report.traced.iter().find(|(k, _)| k.msgid == id).map(|(_, t)| *t);
    assert_eq!(tier("Verbatim dead phrase"), Some(Trace::Substring));
    assert_eq!(tier("Deleted %d contacts"), Some(Trace::Skeleton));
    // Keys without a trace are omitted from the recheck list.
    assert_eq!(tier("Nowhere To Be Found"), None);
}

/// A substring hit wins over a skeleton hit for the same key.
#[test]
fn substring_beats_skeleton() {
    // The full msgid (with %d) appears verbatim, e.g. in a data table.
    let sources = vec!["<?php $m = 'Deleted %d contacts'; ?>".to_string()];
    let k = key("Deleted %d contacts");
    let report = audit(&[k], &sources, 3).unwrap();
    assert_eq!(report.substring, 1);
    assert_eq!(report.skeleton, 0);
}

/// Only whether a pattern occurs in some text counts, so the order in which the
/// source texts come in does not change the report.
#[test]
fn deterministic_across_thread_counts() {
    let sources: Vec<String> = (0..6).map(|i| format!("<?php $a = 'trace key {i}'; ?>")).collect();
    let keys: Vec<PoKey> = (0..6).map(|i| key(&format!("trace key {i}"))).collect();
    let mut reversed = sources.clone();
    reversed.reverse();

    let forward = audit(&keys, &sources, 3).unwrap();
    let backward = audit(&keys, &reversed, 3).unwrap();
    assert_eq!(forward.substring, backward.substring);
    assert_eq!(forward.no_trace, backward.no_trace);
    assert_eq!(forward.substring, 6);
}

/// The recheck list is sorted by (msgctxt, msgid), keys without a context first.
#[test]
fn traced_keys_come_sorted_by_context_then_msgid() {
    let sources = vec!["zeta alpha beta".to_string()];
    let mut with_ctx = key("alpha");
    with_ctx.msgctxt = Some("menu".to_string());
    let dead = vec![key("zeta"), with_ctx, key("beta"), key("alpha")];
    let report = audit(&dead, &sources, 3).unwrap();
    let order: Vec<(Option<String>, String)> = report
        .traced
        .iter()
        .map(|(k, _)| (k.msgctxt.clone(), k.msgid.clone()))
        .collect();
    assert_eq!(
        order,
        vec![
            (None, "alpha".to_string()),
            (None, "beta".to_string()),
            (None, "zeta".to_string()),
            (Some("menu".to_string()), "alpha".to_string()),
        ]
    );
}

/// An empty msgid is never searched for and counts as leaving no trace.
#[test]
fn empty_msgid_leaves_no_trace() {
    let report = audit(&[key("")], &["anything".to_string()], 3).unwrap();
    assert_eq!(report.dead_total, 1);
    assert_eq!(report.no_trace, 1);
    assert!(report.traced.is_empty());
}

/// The pieces around given placeholder spans, short ones dropped.
#[test]
fn fragments_around_given_spans() {
    // "Hello %s, dear world": the placeholder `%s` is bytes 6..8.
    let msgid = "Hello %s, dear world";
    let got = fragments_around(msgid, &vec![(6, 8)], 3);
    assert_eq!(got, vec!["Hello ".to_string(), ", dear world".to_string()]);
    let short = fragments_around(msgid, &vec![(6, 8)], 7);
    assert_eq!(short, vec![", dear world".to_string()]);
    assert!(fragments_around(msgid, &vec![], 1).is_empty());
}
