use scrutin::paths::{
    anchor_pattern, common_ancestor, path_less, sort_unique_paths, contains_glob_meta, has_extension, literal_prefix, parent_path,
};

#[test]
fn has_extension_is_case_insensitive() {
    assert!(has_extension("foo.R", &["r"]));
    assert!(has_extension("foo.r", &["R"]));
    assert!(has_extension("foo.py", &["py"]));
    assert!(!has_extension("foo.txt", &["py"]));
    assert!(!has_extension("foo", &["py"]));
}

#[test]
fn anchor_pattern_relative_joins_under_root() {
    let s = anchor_pattern("/repo/r", "tests/testthat/**/test-*.R");
    assert_eq!(s, "/repo/r/tests/testthat/**/test-*.R");
}

#[test]
fn anchor_pattern_absolute_passes_through() {
    let s = anchor_pattern("/repo/r", "/elsewhere/foo.R");
    assert_eq!(s, "/elsewhere/foo.R");
}

#[test]
fn contains_glob_meta_detects_wildcards() {
    assert!(contains_glob_meta("**/*.py"));
    assert!(contains_glob_meta("foo?.R"));
    assert!(contains_glob_meta("foo[ab].R"));
    assert!(contains_glob_meta("foo{a,b}.R"));
    assert!(!contains_glob_meta("foo/bar.R"));
}

#[test]
fn longest_literal_prefix_plain_glob() {
    assert_eq!(literal_prefix("/repo/r/tests/testthat/**/test-*.R"), "/repo/r/tests/testthat");
}

#[test]
fn longest_literal_prefix_top_level_glob() {
    assert_eq!(literal_prefix("/repo/**/*.py"), "/repo");
}

#[test]
fn longest_literal_prefix_literal_file() {
    assert_eq!(
        literal_prefix("/repo/r/inst/extdata/greet.txt"),
        "/repo/r/inst/extdata/greet.txt"
    );
}

#[test]
fn relative_glob_without_literal_prefix_walks_from_dot() {
    assert_eq!(literal_prefix("**/*.py"), ".");
}

#[test]
fn common_ancestor_same_directory() {
    let v = vec!["/repo/docs/intro.md".to_string(), "/repo/docs/advanced.md".to_string()];
    assert_eq!(common_ancestor(&v), Some("/repo/docs".to_string()));
}

#[test]
fn common_ancestor_different_directories() {
    let v = vec!["/repo/docs/intro.md".to_string(), "/repo/README.md".to_string()];
    assert_eq!(common_ancestor(&v), Some("/repo".to_string()));
}

#[test]
fn common_ancestor_single_file() {
    let v = vec!["/repo/docs/intro.md".to_string()];
    assert_eq!(common_ancestor(&v), Some("/repo/docs".to_string()));
}

#[test]
fn common_ancestor_empty_returns_none() {
    assert_eq!(common_ancestor(&[]), None);
}

#[test]
fn parent_path_drops_the_last_component() {
    assert_eq!(parent_path("/a/b/c.md"), Some("/a/b".to_string()));
    assert_eq!(parent_path("/a"), Some("/".to_string()));
    assert_eq!(parent_path("/"), None);
    assert_eq!(parent_path(""), None);
}

#[test]
fn path_order_compares_components() {
    assert!(path_less("a/b", "a.b"));
    assert!(!path_less("a.b", "a/b"));
    assert!(path_less("/x", "a"));
    assert!(path_less("a", "a/b"));
    assert!(!path_less("a//b", "a/b"));
    let v: Vec<String> = ["b", "a/x", "a//x", "a.b", "./c", "/z"].iter().map(|s| s.to_string()).collect();
    assert_eq!(sort_unique_paths(&v), vec!["/z", "./c", "a/x", "a.b", "b"]);
}
