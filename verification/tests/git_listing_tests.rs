use betcode_daemon::completion::PathKind;
use betcode_daemon::git_listing::{index_from_listing, listing_paths};

#[test]
fn listing_lines_are_trimmed_and_blank_ones_dropped() {
    let paths = listing_paths("README.md\n  src/main.rs \r\n\n\tdocs/a b.md\n");
    assert_eq!(paths, vec!["README.md", "src/main.rs", "docs/a b.md"]);
    assert!(listing_paths("").is_empty());
    assert_eq!(listing_paths("one"), vec!["one"]);
}

#[test]
fn index_lists_parent_directories_once_before_files() {
    let paths: Vec<String> = vec!["src/lib.rs".into(), "src/a/b.rs".into(), "README.md".into()];
    let kinds = vec![PathKind::File, PathKind::File, PathKind::Symlink];
    let entries = index_from_listing(&paths, &kinds, 100);
    let got: Vec<(&str, PathKind)> = entries.iter().map(|e| (e.path.as_str(), e.kind)).collect();
    assert_eq!(
        got,
        vec![
            ("src", PathKind::Directory),
            ("src/lib.rs", PathKind::File),
            ("src/a", PathKind::Directory),
            ("src/a/b.rs", PathKind::File),
            ("README.md", PathKind::Symlink),
        ]
    );
}

#[test]
fn index_respects_max_entries() {
    let paths: Vec<String> = vec!["a/b/c.rs".into(), "d.rs".into()];
    let kinds = vec![PathKind::File, PathKind::File];
    let entries = index_from_listing(&paths, &kinds, 2);
    let got: Vec<&str> = entries.iter().map(|e| e.path.as_str()).collect();
    assert_eq!(got, vec!["a", "a/b"]);
    assert!(index_from_listing(&paths, &kinds, 0).is_empty());
}
