use dead_poets::guard::{guards_from_segments, Guard, Segment};

fn s(text: &str) -> Segment {
    Segment::Static(text.to_string())
}

/// `` `cf_subtype_${x}` `` -> Prefix("cf_subtype_").
#[test]
fn leading_fragment_becomes_prefix() {
    let segs = [s("cf_subtype_"), Segment::Hole];
    let ext = guards_from_segments(&segs, 3);
    assert_eq!(ext.guards, vec![Guard::Prefix("cf_subtype_".to_string())]);
    assert!(!ext.blind);
}

/// `` `${x}_delete_confirm_1` `` -> Suffix("_delete_confirm_1").
#[test]
fn trailing_fragment_becomes_suffix() {
    let segs = [Segment::Hole, s("_delete_confirm_1")];
    let ext = guards_from_segments(&segs, 3);
    assert_eq!(ext.guards, vec![Guard::Suffix("_delete_confirm_1".to_string())]);
    assert!(!ext.blind);
}

/// Interior fragment -> Contains.
#[test]
fn interior_fragment_becomes_contains() {
    let segs = [Segment::Hole, s("_middle_"), Segment::Hole];
    let ext = guards_from_segments(&segs, 3);
    assert_eq!(ext.guards, vec![Guard::Contains("_middle_".to_string())]);
}

/// `` `${a}_${b}` `` — only a one-char `"_"` fragment -> NO guard, blind.
/// Must never mark the whole catalog Alive.
#[test]
fn short_fragment_yields_no_guard_and_is_blind() {
    let segs = [Segment::Hole, s("_"), Segment::Hole];
    let ext = guards_from_segments(&segs, 3);
    assert!(ext.guards.is_empty());
    assert!(ext.blind);
}

/// `i18n($x)` — no static part at all -> blind.
#[test]
fn pure_variable_is_blind() {
    let segs = [Segment::Hole];
    let ext = guards_from_segments(&segs, 3);
    assert!(ext.guards.is_empty());
    assert!(ext.blind);
}

/// Threshold is inclusive: a fragment exactly `min_guard_len` long is kept.
#[test]
fn fragment_at_threshold_is_kept() {
    let segs = [s("cf_"), Segment::Hole];
    let ext = guards_from_segments(&segs, 3);
    assert_eq!(ext.guards, vec![Guard::Prefix("cf_".to_string())]);
}

/// Guard matching against decoded msgids.
#[test]
fn guard_matching() {
    let prefix = Guard::Prefix("cf_subtype_".to_string());
    assert!(prefix.matches("cf_subtype_foo"));
    assert!(!prefix.matches("other_key"));

    let suffix = Guard::Suffix("_delete_confirm_1".to_string());
    assert!(suffix.matches("entity_delete_confirm_1"));
    assert!(!suffix.matches("entity_delete_confirm_2"));

    let contains = Guard::Contains("_middle_".to_string());
    assert!(contains.matches("a_middle_b"));
    assert!(!contains.matches("a_b"));
}

/// Both ends static around a hole: a prefix and a suffix guard, in order.
#[test]
fn prefix_and_suffix_around_a_hole() {
    let segs = [s("btn_"), Segment::Hole, s("_label")];
    let ext = guards_from_segments(&segs, 3);
    assert_eq!(
        ext.guards,
        vec![
            Guard::Prefix("btn_".to_string()),
            Guard::Suffix("_label".to_string())
        ]
    );
    assert!(!ext.blind);
}

/// `'Hello, ' . 'World' . $x`: adjacent statics form one maximal fragment.
#[test]
fn adjacent_statics_join_into_one_prefix() {
    let segs = [s("Hello, "), s("World"), Segment::Hole];
    let ext = guards_from_segments(&segs, 3);
    assert_eq!(ext.guards, vec![Guard::Prefix("Hello, World".to_string())]);
    assert!(!ext.blind);
}

/// Two short statics that only qualify once joined.
#[test]
fn short_statics_qualify_when_joined() {
    let segs = [Segment::Hole, s("a_"), s("b"), Segment::Hole];
    let ext = guards_from_segments(&segs, 3);
    assert_eq!(ext.guards, vec![Guard::Contains("a_b".to_string())]);
}

/// An empty fragment never becomes a guard, even with no minimum.
#[test]
fn empty_fragment_is_never_a_guard() {
    let segs = [s(""), Segment::Hole];
    let ext = guards_from_segments(&segs, 0);
    assert!(ext.guards.is_empty());
    assert!(ext.blind);
}
