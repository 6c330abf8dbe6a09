use dead_poets::scan::select_source_files;
use dead_poets::walk::{components, dedup_sort_files, path_lt, same_path, Component, FileEntry};

fn entry(root: &str, rel: &str) -> FileEntry {
    FileEntry {
        root: root.to_string(),
        rel: rel.to_string(),
        abs: format!("{root}/{rel}"),
    }
}

/// Overlapping roots yield each file once, in sorted order.
#[test]
fn dedups_overlapping_roots_and_sorts() {
    // `/p` and `/p/nested` overlap: nested/m.php is reachable from both.
    let found = vec![
        ("/p/z.php".to_string(), "z.php"),
        ("/p/a.php".to_string(), "a.php"),
        ("/p/nested/m.php".to_string(), "m.php"),
        ("/p/nested/m.php".to_string(), "m.php (again)"),
    ];
    let names: Vec<&str> = dedup_sort_files(found).into_iter().map(|(_, n)| n).collect();
    // a.php < nested/m.php < z.php by full path; the first sighting wins.
    assert_eq!(names, vec!["a.php", "m.php", "z.php"]);
}

/// Only accepted files come through: the extension decides.
#[test]
fn accept_selects_and_ignore_dirs_prune() {
    let entries = vec![entry("/r", "keep.php"), entry("/r", "skip.txt")];
    let hits = select_source_files(&entries, &["php".to_string()]);
    assert_eq!(hits.len(), 1);
    assert!(hits[0].0.ends_with("keep.php"));
}

/// Paths compare by components, not as raw text: `a/b` sorts before `a-b`
/// although `/` is after `-` as a character.
#[test]
fn paths_compare_by_components() {
    assert!(path_lt("/x/a/b", "/x/a-b"));
    assert!(!path_lt("/x/a-b", "/x/a/b"));
    // Repeated separators, trailing separators and inner `.` do not count.
    assert!(same_path("/x//a/./b/", "/x/a/b"));
    assert!(!same_path("./a", "a"));
}

/// The components of a path, as `std::path::Path` names them.
#[test]
fn components_of_paths() {
    assert_eq!(
        components("/usr/./lib/../x/"),
        vec![
            Component::Root,
            Component::Normal("usr".to_string()),
            Component::Normal("lib".to_string()),
            Component::Parent,
            Component::Normal("x".to_string())
        ]
    );
    assert_eq!(
        components("./a"),
        vec![Component::Cur, Component::Normal("a".to_string())]
    );
    assert!(components("").is_empty());
}

/// Walking the roots in another order keeps the same files, in the same order.
#[test]
fn discovery_order_does_not_matter() {
    let a = vec![
        ("/r/b.php".to_string(), 2),
        ("/r/a.php".to_string(), 1),
        ("/s/c.js".to_string(), 3),
        ("/r/a.php".to_string(), 1),
    ];
    let b = vec![
        ("/s/c.js".to_string(), 3),
        ("/r/a.php".to_string(), 1),
        ("/r/b.php".to_string(), 2),
    ];
    assert_eq!(dedup_sort_files(a), dedup_sort_files(b));
}
