use scrutin::filter::{apply_include_exclude, matches_name};

#[test]
fn literal_exact_match() {
    assert!(matches_name("test_foo.py", "test_foo.py"));
    assert!(!matches_name("test_foo.py", "test_bar.py"));
}

#[test]
fn star_anchors() {
    assert!(matches_name("test_*", "test_foo.py"));
    assert!(!matches_name("test_*", "atest_foo.py"));
    assert!(matches_name("*foo*", "test_foo.py"));
    assert!(matches_name("*.py", "test_foo.py"));
    assert!(!matches_name("*.py", "test_foo.R"));
}

#[test]
fn star_matches_empty() {
    assert!(matches_name("a*b", "ab"));
    assert!(matches_name("*", ""));
}

#[test]
fn question_mark_matches_one() {
    assert!(matches_name("test-?.R", "test-1.R"));
    assert!(!matches_name("test-?.R", "test-12.R"));
    assert!(!matches_name("test-?.R", "test-.R"));
}

#[test]
fn backtracking_works() {
    assert!(matches_name("*ab*abc", "abababc"));
    assert!(matches_name("*a*a", "aa"));
    assert!(matches_name("a*a*a", "aaaa"));
}

#[test]
fn no_match_returns_false() {
    assert!(!matches_name("a*b", "ba"));
    assert!(!matches_name("foo", "foobar"));
    assert!(!matches_name("foobar", "foo"));
}

#[test]
fn character_class_and_alternation() {
    assert!(matches_name("test-[abc].R", "test-a.R"));
    assert!(!matches_name("test-[abc].R", "test-d.R"));
    assert!(matches_name("test-[!abc].R", "test-d.R"));
    assert!(matches_name("test-{foo,bar}.R", "test-foo.R"));
    assert!(matches_name("test-{foo,bar}.R", "test-bar.R"));
    assert!(!matches_name("test-{foo,bar}.R", "test-baz.R"));
}

#[test]
fn invalid_pattern_returns_false() {
    assert!(!matches_name("test-[abc.R", "test-a.R"));
}

fn pb(s: &str) -> String {
    s.to_string()
}

#[test]
fn empty_filters_keep_all() {
    let mut files = vec![pb("a.py"), pb("b.py")];
    apply_include_exclude(&mut files, &[], &[]);
    assert_eq!(files, vec![pb("a.py"), pb("b.py")]);
}

#[test]
fn includes_keep_only_matches() {
    let mut files = vec![pb("test_a.py"), pb("test_b.py"), pb("conftest.py")];
    apply_include_exclude(&mut files, &["test_*".into()], &[]);
    assert_eq!(files, vec![pb("test_a.py"), pb("test_b.py")]);
}

#[test]
fn excludes_drop_matches() {
    let mut files = vec![pb("test_slow.py"), pb("test_fast.py")];
    apply_include_exclude(&mut files, &[], &["*slow*".into()]);
    assert_eq!(files, vec![pb("test_fast.py")]);
}

#[test]
fn includes_and_excludes_compose() {
    let mut files = vec![pb("test_a.py"), pb("test_slow.py"), pb("conftest.py")];
    apply_include_exclude(&mut files, &["test_*".into()], &["*slow*".into()]);
    assert_eq!(files, vec![pb("test_a.py")]);
}

#[test]
fn alternation_in_include() {
    let mut files = vec![pb("test_model.py"), pb("test_plot.py"), pb("test_slow.py")];
    apply_include_exclude(&mut files, &["test_{model,plot}.py".into()], &[]);
    assert_eq!(files, vec![pb("test_model.py"), pb("test_plot.py")]);
}

#[test]
fn filters_match_basenames_of_full_paths() {
    let mut files = vec![pb("tests/test_a.py"), pb("src/test_b.py"), pb("tests/helpers.py")];
    apply_include_exclude(&mut files, &["test_*.py".into()], &["*_b.py".into()]);
    assert_eq!(files, vec![pb("tests/test_a.py")]);
}

#[test]
fn invalid_patterns_are_skipped_in_lists() {
    let mut files = vec![pb("test_a.py"), pb("test_b.py")];
    apply_include_exclude(&mut files, &["[bad".into(), "test_a*".into()], &["[worse".into()]);
    assert_eq!(files, vec![pb("test_a.py")]);
}

