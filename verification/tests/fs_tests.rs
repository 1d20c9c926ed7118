use aibundle::gitignore::gitignored_paths;
use aibundle::fs::normalize_path;

#[test]
fn test_path_normalization_edge_cases() {
    assert_eq!(normalize_path("path\\to\\file"), "path/to/file");
    assert_eq!(normalize_path("path\\to/file"), "path/to/file");
    assert_eq!(normalize_path("пуäth\\tö\\файл"), "пуäth/tö/файл");
    assert_eq!(normalize_path("path with spaces\\to\\file!@#"), "path with spaces/to/file!@#");
    assert_eq!(normalize_path(""), "");
    assert_eq!(normalize_path("path/to/file"), "path/to/file");
    assert_eq!(normalize_path("\\\\server\\share"), "//server/share");
    assert_eq!(normalize_path(".\\path\\to\\file"), "./path/to/file");
    assert_eq!(normalize_path("..\\path\\to\\file"), "../path/to/file");
}

use aibundle::fs::{
    is_binary_by_content, is_binary_by_extension, is_path_ignored_iterative, is_path_ignored_in_state,
    is_path_ignored_iterative_cached, wildcard_to_regex, name_matches_pattern, is_excluded, list_files,
    count_selection_items, collect_all_subdirs, collect_folder_descendants,
};
use aibundle::models::IgnoreConfig;
use aibundle::output::snapshot::{EntryKind, FsEntry};
use aibundle::output::directory::WalkError;
use aibundle::tui::state::PathSet;

fn file_entry(path: &str) -> FsEntry {
    FsEntry { path: path.to_string(), kind: EntryKind::File, content: Some(String::new()), listing: None }
}

fn dir_entry(path: &str, listing: &[&str]) -> FsEntry {
    FsEntry {
        path: path.to_string(),
        kind: EntryKind::Dir,
        content: None,
        listing: Some(listing.iter().map(|s| s.to_string()).collect()),
    }
}

fn ignores(default: bool, gitignore: bool, extra: &[&str]) -> IgnoreConfig {
    IgnoreConfig {
        use_default_ignores: default,
        use_gitignore: gitignore,
        include_binary_files: false,
        extra_ignore_patterns: extra.iter().map(|s| s.to_string()).collect(),
    }
}

fn disk() -> Vec<FsEntry> {
    vec![
        dir_entry("/d", &["/d/a.txt", "/d/sub", "/d/target"]),
        file_entry("/d/a.txt"),
        dir_entry("/d/sub", &["/d/sub/b.txt", "/d/sub/deep"]),
        file_entry("/d/sub/b.txt"),
        dir_entry("/d/sub/deep", &[]),
        dir_entry("/d/target", &["/d/target/out.bin"]),
        file_entry("/d/target/out.bin"),
    ]
}

#[test]
fn test_binary_file_detection_by_content() {
    assert!(!is_binary_by_content(b""));
    assert!(is_binary_by_content(b"abc\0def"));
    assert!(is_binary_by_content(b"\x89PNG\r\n\x1a\nrest"));
    assert!(!is_binary_by_content("Hello 世界 🌍\n".as_bytes()));
    assert!(!is_binary_by_content(b"Hello World\nThis is a text file\n"));
    assert!(is_binary_by_extension("x.PDF"));
    assert!(!is_binary_by_extension("x.txt"));
}

#[test]
fn ignore_rules() {
    let none = ignores(false, false, &[]);
    assert!(!is_path_ignored_iterative("/d/node_modules", &none, true));
    let defaults = ignores(true, false, &[]);
    assert!(is_path_ignored_iterative("/d/node_modules", &defaults, false));
    assert!(!is_path_ignored_iterative("/d/src", &defaults, true));
    let extra_only = ignores(false, false, &["secret.txt"]);
    assert!(is_path_ignored_iterative("/d/secret.txt", &extra_only, false));
    assert!(!is_path_ignored_in_state("/d/secret.txt", &extra_only, false));
    let git = ignores(false, true, &[]);
    assert!(is_path_ignored_iterative("/d/app.log", &git, true));
    assert!(!is_path_ignored_iterative("/d/app.log", &git, false));
    let wild = ignores(true, false, &["*.log", "temp?.dat"]);
    assert!(is_path_ignored_iterative_cached("/d/app.log", &wild, false));
    assert!(is_path_ignored_iterative_cached("/d/temp1.dat", &wild, false));
    assert!(!is_path_ignored_iterative_cached("/d/temp12.dat", &wild, false));
}

#[test]
fn wildcard_patterns() {
    assert_eq!(wildcard_to_regex("*.log"), "^.*.log$");
    assert!(name_matches_pattern("test?.txt", "test5.txt"));
    assert!(!name_matches_pattern("test?.txt", "test55.txt"));
}

#[test]
fn excluded_components() {
    assert!(is_excluded("a/node_modules/b.js"));
    assert!(is_excluded("/x/.git/config"));
    assert!(!is_excluded("a/targets/b"));
}

#[test]
fn listing_every_file_below_a_directory() {
    let all = list_files("/d", &disk());
    let expected: Vec<String> = ["/d/a.txt", "/d/sub", "/d/target", "/d/target/out.bin", "/d/sub/b.txt", "/d/sub/deep"]
        .iter()
        .map(|s| s.to_string())
        .collect();
    assert_eq!(all, expected);
    let looped = vec![dir_entry("/l", &["/l/x", "/l"])];
    assert_eq!(list_files("/l", &looped), vec!["/l/x".to_string(), "/l".to_string()]);
}

#[test]
fn counting_a_selection() {
    let cfg = ignores(true, false, &[]);
    assert_eq!(count_selection_items("/d/a.txt", &cfg, 100, &disk(), &Vec::new()), Ok(1));
    assert_eq!(count_selection_items("/d/missing", &cfg, 100, &disk(), &Vec::new()), Ok(0));
    assert_eq!(count_selection_items("/d", &cfg, 100, &disk(), &Vec::new()), Ok(5));
    assert_eq!(count_selection_items("/d", &cfg, 2, &disk(), &Vec::new()), Ok(3));
    let broken = vec![FsEntry { path: "/b".to_string(), kind: EntryKind::Dir, content: None, listing: None }];
    assert_eq!(count_selection_items("/b", &cfg, 100, &broken, &Vec::new()), Err(WalkError::UnreadableDirectory));
}

#[test]
fn collecting_subdirectories() {
    let cfg = ignores(true, false, &[]);
    let dirs = match collect_all_subdirs("/d", &cfg, &disk(), &Vec::new()) {
        Ok(d) => d,
        Err(_) => panic!("collecting subdirectories does not fail"),
    };
    assert!(dirs.contains("/d") && dirs.contains("/d/sub") && dirs.contains("/d/sub/deep"));
    assert!(!dirs.contains("/d/target"));
    assert_eq!(dirs.len(), 3);
}

#[test]
fn test_folder_descendants_edge_cases() {
    let cfg = ignores(true, false, &[]);
    let mut set = PathSet::new();
    assert!(collect_folder_descendants("/d/sub/deep", &cfg, &disk(), &Vec::new(), &mut set).is_ok());
    assert_eq!(set.len(), 0);
    assert!(collect_folder_descendants("/d", &cfg, &disk(), &Vec::new(), &mut set).is_ok());
    assert!(set.contains("/d/a.txt") && set.contains("/d/sub/b.txt") && set.contains("/d/sub/deep"));
    assert!(!set.contains("/d/target") && !set.contains("/d/target/out.bin"));
    assert_eq!(set.len(), 4);
    let many: Vec<String> = (0..100).map(|i| format!("/m/file_{}.txt", i)).collect();
    let mut snap = vec![FsEntry { path: "/m".to_string(), kind: EntryKind::Dir, content: None, listing: Some(many.clone()) }];
    for p in &many {
        snap.push(file_entry(p));
    }
    let mut found = PathSet::new();
    assert!(collect_folder_descendants("/m", &cfg, &snap, &Vec::new(), &mut found).is_ok());
    assert_eq!(found.len(), 100);
    let broken = vec![FsEntry { path: "/b".to_string(), kind: EntryKind::Dir, content: None, listing: None }];
    let mut none = PathSet::new();
    assert_eq!(collect_folder_descendants("/b", &cfg, &broken, &Vec::new(), &mut none), Err(WalkError::UnreadableDirectory));
}

#[test]
fn normalizing_twice_changes_nothing() {
    for p in ["a\\b\\c", "x/y", "\\\\srv\\share", ""] {
        let once = normalize_path(p);
        assert!(!once.contains('\\'));
        assert_eq!(normalize_path(&once), once);
    }
}

#[test]
fn gitignore_rules_come_from_the_snapshot() {
    let snap = vec![
        aibundle::output::snapshot::FsEntry {
            path: "/g".to_string(),
            kind: aibundle::output::snapshot::EntryKind::Dir,
            content: None,
            listing: Some(vec!["/g/.gitignore".to_string(), "/g/a.log".to_string(), "/g/b.rs".to_string(), "/g/out".to_string()]),
        },
        aibundle::output::snapshot::FsEntry {
            path: "/g/.gitignore".to_string(),
            kind: aibundle::output::snapshot::EntryKind::File,
            content: Some("# comment\n*.log\nout/\n".to_string()),
            listing: None,
        },
        aibundle::output::snapshot::FsEntry { path: "/g/a.log".to_string(), kind: aibundle::output::snapshot::EntryKind::File, content: Some(String::new()), listing: None },
        aibundle::output::snapshot::FsEntry { path: "/g/b.rs".to_string(), kind: aibundle::output::snapshot::EntryKind::File, content: Some(String::new()), listing: None },
        aibundle::output::snapshot::FsEntry { path: "/g/out".to_string(), kind: aibundle::output::snapshot::EntryKind::Dir, content: None, listing: Some(Vec::new()) },
    ];
    assert_eq!(gitignored_paths(&snap, "/g"), vec!["/g/a.log".to_string(), "/g/out".to_string()]);
    let mut without_rules = snap;
    without_rules.remove(1);
    assert!(gitignored_paths(&without_rules, "/g").is_empty());
}
