use deja_vu::source::SourceFile;
use deja_vu::utils::{
    accepts_file, collect_action, detect_language, file_statistics, filter_by_language,
    is_hidden, is_test_file, should_include_file, should_skip_directory, visits_entry,
    CollectAction, EntryKind, FileStats,
};

#[test]
fn test_detect_language() {
    assert_eq!(detect_language("test.py"), "python");
    assert_eq!(detect_language("test.js"), "javascript");
    assert_eq!(detect_language("test.rs"), "rust");
    assert_eq!(detect_language("test.unknown"), "unknown");
}

#[test]
fn test_is_hidden() {
    assert!(is_hidden(".hidden"));
    assert!(!is_hidden("visible"));
}

#[test]
fn test_should_skip_directory() {
    assert!(should_skip_directory("node_modules"));
    assert!(should_skip_directory(".git"));
    assert!(should_skip_directory("__pycache__"));
    assert!(!should_skip_directory("src"));
}

#[test]
fn test_should_include_file() {
    assert!(should_include_file("test.py", &["py"]));
    assert!(!should_include_file("test.js", &["py"]));
    assert!(should_include_file("test.py", &[])); // Empty = include all
}

#[test]
fn test_is_test_file() {
    assert!(is_test_file("test_example.py"));
    assert!(is_test_file("example_test.py"));
    assert!(is_test_file("TEST_CAPS.py"));
    assert!(is_test_file("MyTestFile.py"));
    assert!(!is_test_file("example.py"));
    assert!(!is_test_file("main.py"));
}

#[test]
fn test_file_stats_summary() {
    let mut stats = FileStats::default();
    stats.total_files = 10;
    stats.total_lines = 1000;
    stats.total_bytes = 50000;
    stats.by_language.insert("python".to_string(), 7);
    stats.by_language.insert("rust".to_string(), 3);

    let summary = stats.summary();
    assert!(summary.contains("10 files"));
    assert!(summary.contains("1000 lines"));
    assert!(summary.contains("python: 7"));
}

#[test]
fn file_stats_summary_exact() {
    let mut stats = FileStats::default();
    assert_eq!(stats.summary(), "0 files, 0 lines, 0 bytes");
    stats.total_files = 3;
    stats.total_lines = 12;
    stats.total_bytes = 345;
    stats.by_language.insert("rust".to_string(), 1);
    stats.by_language.insert("python".to_string(), 2);
    assert_eq!(
        stats.summary(),
        "3 files, 12 lines, 345 bytes, Languages: python: 2, rust: 1"
    );
}

#[test]
fn detect_language_table() {
    for (name, lang) in [
        ("a.pyi", "python"),
        ("a.pyw", "python"),
        ("a.jsx", "javascript"),
        ("a.ts", "typescript"),
        ("a.tsx", "typescript"),
        ("a.go", "go"),
        ("a.java", "java"),
        ("a.c", "c"),
        ("a.h", "header"),
        ("a.hpp", "header"),
        ("a.cc", "cpp"),
        ("a.cpp", "cpp"),
        ("Makefile", "unknown"),
        (".py", "unknown"),
    ] {
        assert_eq!(detect_language(name), lang, "{}", name);
    }
}

#[test]
fn extension_rules() {
    // The extension is what follows the last dot, and a leading dot alone
    // does not start one.
    assert!(should_include_file("archive.tar.py", &["py"]));
    assert!(!should_include_file(".py", &["py"]));
    assert!(!should_include_file("noext", &["py"]));
    assert!(should_include_file("x.rs", &["py", "rs"]));
}

#[test]
fn collection_decisions() {
    assert!(accepts_file("main.py", &["py"], true));
    assert!(!accepts_file("main_test.py", &["py"], true));
    assert!(accepts_file("main_test.py", &["py"], false));
    assert!(!accepts_file("main.js", &["py"], false));
    assert!(visits_entry("src"));
    assert!(!visits_entry(".cache"));
    assert!(!visits_entry("target"));

    assert_eq!(collect_action("src", EntryKind::Directory, false, &["py"], true), CollectAction::Descend);
    assert_eq!(collect_action("build", EntryKind::Directory, false, &["py"], true), CollectAction::Skip);
    assert_eq!(collect_action("build", EntryKind::Directory, true, &["py"], true), CollectAction::Descend);
    assert_eq!(collect_action("a.py", EntryKind::File, false, &["py"], true), CollectAction::Read);
    assert_eq!(collect_action("a_test.py", EntryKind::File, false, &["py"], true), CollectAction::Skip);
    assert_eq!(collect_action(".a.py", EntryKind::File, false, &["py"], false), CollectAction::Skip);
    assert_eq!(collect_action(".a.py", EntryKind::File, true, &["py"], false), CollectAction::Read);
    assert_eq!(collect_action("nope", EntryKind::Other, true, &[], false), CollectAction::Missing);
    assert_eq!(collect_action("nope", EntryKind::Other, false, &[], false), CollectAction::Skip);
}

fn file(path: &str, content: &str, language: &str) -> SourceFile {
    SourceFile::new(path.to_string(), content.to_string(), language.to_string())
}

#[test]
fn statistics_and_filter() {
    let files = vec![
        file("a.py", "x = 1\ny = 2\n", "python"),
        file("b.rs", "fn main() {}", "rust"),
        file("c.py", "", "python"),
    ];
    let stats = file_statistics(&files);
    assert_eq!(stats.total_files, 3);
    assert_eq!(stats.total_bytes, 12 + 12);
    assert_eq!(stats.total_lines, 2 + 1 + 0);
    assert_eq!(stats.by_language.get("python"), Some(2));
    assert_eq!(stats.by_language.get("rust"), Some(1));
    assert_eq!(stats.by_language.get("go"), None);
    assert_eq!(stats.by_language.len(), 2);

    let py = filter_by_language(files, "python");
    assert_eq!(py.len(), 2);
    assert_eq!(py[0].path, "a.py");
    assert_eq!(py[1].path, "c.py");
}

#[test]
fn language_counts_insert_replaces() {
    let mut stats = FileStats::default();
    assert!(stats.by_language.is_empty());
    assert_eq!(stats.by_language.insert("go".to_string(), 1), None);
    assert_eq!(stats.by_language.insert("go".to_string(), 4), Some(1));
    assert_eq!(stats.by_language.get("go"), Some(4));
    assert_eq!(stats.by_language.len(), 1);
}
