use dead_poets::config::{parse_format, resolve_whitelist, Config, FailOn, OutputFormat, OutputMode, Whitelist};

/// Omitted fields fall back to documented defaults.
#[test]
fn defaults_apply_when_fields_missing() {
    let cfg = Config::default();
    assert_eq!(cfg.guard.min_len, 3);
    assert_eq!(cfg.output.fail_on, FailOn::Dead);
    assert_eq!(cfg.output.format, OutputFormat::Text);
    assert_eq!(cfg.output.mode, OutputMode::Review);
    assert_eq!(cfg.output.max_dead, None);
    assert_eq!(cfg.scan.source_roots, vec![".".to_string()]);
    assert_eq!(cfg.scan.po_patterns, vec!["**/*.po".to_string(), "**/*.pot".to_string()]);
    assert_eq!(
        cfg.scan.source_extensions,
        vec!["php", "twig", "js", "ts", "jsx", "tsx"]
    );
    assert_eq!(cfg.scan.ignore_dirs, vec!["vendor", "node_modules", "cache", "var"]);
    assert!(cfg.calls.is_empty());
}

/// File keys and inline keys merge into one set.
#[test]
fn whitelist_merges_file_and_inline() {
    let wl = Whitelist {
        file: Some("wl.txt".to_string()),
        keys: vec!["inline.1".to_string()],
    };
    let set = resolve_whitelist(&wl, Some("from.file.1\n# comment\n\nfrom.file.2\n"));
    assert_eq!(set.len(), 3);
    assert!(set.contains(&"from.file.1".to_string()));
    assert!(set.contains(&"from.file.2".to_string()));
    assert!(set.contains(&"inline.1".to_string()));
}

/// Lines are trimmed, duplicates kept once, `#` lines skipped.
#[test]
fn whitelist_lines_trimmed_and_deduplicated() {
    let wl = Whitelist {
        file: None,
        keys: vec!["a".to_string(), "a".to_string()],
    };
    assert_eq!(resolve_whitelist(&wl, None), vec!["a".to_string()]);
    let set = resolve_whitelist(&wl, Some("  b \r\n\t#c\n a\n\u{a0}d\u{a0}"));
    assert_eq!(set, vec!["a".to_string(), "b".to_string(), "d".to_string()]);
}

/// `--format` is case-insensitive; anything else is refused.
#[test]
fn format_names() {
    assert_eq!(parse_format("text"), Ok(OutputFormat::Text));
    assert_eq!(parse_format("JSON"), Ok(OutputFormat::Json));
    assert_eq!(parse_format("Yaml"), Err("yaml".to_string()));
}
