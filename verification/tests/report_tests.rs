use dead_poets::audit::{AuditReport, Trace};
use dead_poets::config::FailOn;
use dead_poets::liveness::{AliveVia, KeyVerdict, LivenessReport, Status};
use dead_poets::po::PoKey;
use dead_poets::report::{
    alive_keys, blind_line, count_budget_line, display_key, exit_code, sorted_dead,
    sorted_suspect, text_report, Span, Style,
};

fn key(msgid: &str) -> PoKey {
    PoKey {
        msgctxt: None,
        msgid: msgid.to_string(),
        msgid_plural: None,
    }
}

fn report() -> LivenessReport {
    LivenessReport {
        verdicts: vec![
            KeyVerdict {
                key: key("alive_lit"),
                status: Status::Alive(AliveVia::Literal),
            },
            KeyVerdict {
                key: key("alive_grd"),
                status: Status::Alive(AliveVia::Guard),
            },
            KeyVerdict {
                key: key("dead_two"),
                status: Status::Dead,
            },
            KeyVerdict {
                key: key("dead_one"),
                status: Status::Dead,
            },
        ],
        blind: vec![("js".to_string(), 2), ("twig".to_string(), 1)],
    }
}

/// The text of the pieces, unpainted.
fn plain(spans: &[Span]) -> String {
    spans.iter().map(|s| s.text.as_str()).collect()
}

/// The dead gate of the default budget: any dead key.
fn any_dead(r: &LivenessReport) -> bool {
    r.dead_count() > 0
}

#[test]
fn text_prints_only_dead_and_scope_header() {
    let text = plain(&text_report(&report(), None, None));
    // header carries the scope caveat
    assert!(text.contains("external consumers"));
    // both dead keys present, sorted
    let one = text.find("dead_one").unwrap();
    let two = text.find("dead_two").unwrap();
    assert!(one < two, "dead keys are sorted");
    // alive keys are NOT listed
    assert!(!text.contains("alive_lit"));
    assert!(!text.contains("alive_grd"));
    // blind summary present
    assert!(text.contains("js=2"));
    assert!(text.contains("twig=1"));
}

/// The buckets handed to the JSON renderer: sorted dead keys, and the alive
/// keys with their reason.
#[test]
fn json_is_valid_and_dead_count_matches_text() {
    let r = report();
    let dead = sorted_dead(&r);
    assert_eq!(dead.len(), r.dead_count());
    assert_eq!(dead[0].msgid, "dead_one");
    let alive = alive_keys(&r);
    assert_eq!(alive.len(), 2);
    let vias: Vec<AliveVia> = alive.iter().map(|(_, v)| *v).collect();
    assert!(vias.contains(&AliveVia::Literal));
    assert!(vias.contains(&AliveVia::Guard));
    assert_eq!(r.blind_get("js"), Some(2));
}

/// Suspect keys get their own labelled section and do not affect the exit code.
#[test]
fn suspect_rendered_and_exit_neutral() {
    let report = LivenessReport {
        verdicts: vec![
            KeyVerdict {
                key: key("suspect_key"),
                status: Status::Suspect,
            },
            KeyVerdict {
                key: key("dead_key"),
                status: Status::Dead,
            },
        ],
        blind: vec![],
    };

    let text = plain(&text_report(&report, None, None));
    assert!(text.contains("Suspect (1)"));
    assert!(text.contains("suspect_key"));
    assert!(text.contains("1 suspect"));
    assert_eq!(sorted_suspect(&report)[0].msgid, "suspect_key");
    assert!(alive_keys(&report).is_empty());

    // Suspect alone (no dead) must not fail the default `dead` gate.
    let suspect_only = LivenessReport {
        verdicts: vec![KeyVerdict {
            key: key("s"),
            status: Status::Suspect,
        }],
        blind: vec![],
    };
    assert_eq!(exit_code(&suspect_only, FailOn::Dead, any_dead(&suspect_only)), 0);
}

/// With an audit attached, the trust block appears; the exit code is unaffected.
#[test]
fn audit_rendered_and_exit_neutral() {
    let r = report(); // 2 dead
    let audit = AuditReport {
        dead_total: 2,
        no_trace: 1,
        substring: 1,
        skeleton: 0,
        traced: vec![(key("dead_one"), Trace::Substring)],
    };

    let text = plain(&text_report(&r, Some(&audit), None));
    assert!(text.contains("Audit (dead-bucket trust): 2 dead"));
    assert!(text.contains("1 no trace"));
    assert!(text.contains("1 substring"));
    assert!(text.contains("1 dead keys still trace to source"));

    // No audit -> no block.
    assert!(!plain(&text_report(&r, None, None)).contains("Audit (dead-bucket trust)"));

    // Audit never changes the exit code.
    assert_eq!(exit_code(&r, FailOn::Dead, any_dead(&r)), 1);
}

#[test]
fn exit_codes_follow_fail_on() {
    let r = report(); // 2 dead, 3 blind
    assert_eq!(exit_code(&r, FailOn::Dead, any_dead(&r)), 1);
    assert_eq!(exit_code(&r, FailOn::Never, any_dead(&r)), 0);
    assert_eq!(exit_code(&r, FailOn::DeadOrBlind, any_dead(&r)), 1);

    // a clean report
    let clean = LivenessReport {
        verdicts: vec![KeyVerdict {
            key: key("ok"),
            status: Status::Alive(AliveVia::Literal),
        }],
        blind: vec![],
    };
    assert_eq!(exit_code(&clean, FailOn::Dead, any_dead(&clean)), 0);
    assert_eq!(exit_code(&clean, FailOn::DeadOrBlind, any_dead(&clean)), 0);

    // clean of dead but has blind
    let blindish = LivenessReport {
        verdicts: vec![],
        blind: vec![("js".to_string(), 1)],
    };
    assert_eq!(exit_code(&blindish, FailOn::Dead, any_dead(&blindish)), 0);
    assert_eq!(exit_code(&blindish, FailOn::DeadOrBlind, any_dead(&blindish)), 1);
}

/// An absolute budget relaxes the Dead gate: dead at/under the cap passes,
/// over the cap fails; `Never` ignores the budget entirely.
#[test]
fn budget_count_relaxes_dead_gate() {
    let r = report(); // 2 dead, 3 blind, 4 total
    let over = |max: usize| count_budget_line(r.dead_count(), max).1;
    assert_eq!(exit_code(&r, FailOn::Dead, over(2)), 0);
    assert_eq!(exit_code(&r, FailOn::Dead, over(3)), 0);
    assert_eq!(exit_code(&r, FailOn::Dead, over(1)), 1);
    // dead-or-blind still fails on blind even when dead is within budget.
    assert_eq!(exit_code(&r, FailOn::DeadOrBlind, over(2)), 1);
    // Never never fails, budget or not.
    assert_eq!(exit_code(&r, FailOn::Never, over(0)), 0);
}

/// The budget line shows only when a budget is given.
#[test]
fn budget_reported_only_when_set() {
    let r = report(); // 2 dead, 4 total

    // within an absolute budget -> headroom line, painted green.
    let line = count_budget_line(r.dead_count(), 5);
    assert!(!line.1);
    let spans = text_report(&r, None, Some(line));
    let text = plain(&spans);
    assert!(text.contains("Budget: 2 / 5 dead allowed"));
    assert!(text.contains("within budget (3 headroom)"));
    assert!(spans.iter().any(|s| s.text.starts_with("Budget:") && s.style == Style::Green));

    // over the budget -> overage line, painted red.
    let over = count_budget_line(r.dead_count(), 1);
    assert!(over.1);
    let spans = text_report(&r, None, Some(over));
    assert!(plain(&spans).contains("OVER by 1"));
    assert!(spans.iter().any(|s| s.text.starts_with("Budget:") && s.style == Style::Red));

    // no budget -> no budget line at all.
    assert!(!plain(&text_report(&r, None, None)).contains("Budget:"));
}

#[test]
fn display_key_shows_context_and_plural() {
    let k = PoKey {
        msgctxt: Some("menu".to_string()),
        msgid: "Open".to_string(),
        msgid_plural: Some("Opens".to_string()),
    };
    assert_eq!(display_key(&k), "[menu] Open  / Opens");
    assert_eq!(display_key(&key("x")), "x");
}

#[test]
fn blind_line_formats() {
    assert_eq!(blind_line(&vec![]), "Blind spots: none");
    assert_eq!(
        blind_line(&vec![("js".to_string(), 12), ("php".to_string(), 0)]),
        "Blind spots (unverifiable call sites): js=12, php=0"
    );
}

#[test]
fn summary_line_counts_every_bucket() {
    let text = plain(&text_report(&report(), None, None));
    assert!(text.contains("Summary: 4 keys, 2 alive, 0 suspect, 2 dead, 3 blind\n"));
    let clean = LivenessReport { verdicts: vec![], blind: vec![] };
    let text = plain(&text_report(&clean, None, None));
    assert!(text.contains("No dead keys found."));
    assert!(text.contains("Blind spots: none"));
}
