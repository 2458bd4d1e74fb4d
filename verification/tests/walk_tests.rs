use scrutin::walk::{is_ignored_dir, should_ignore, skip_dir, unique_paths};

#[test]
fn noise_directories_and_hidden_ones_are_pruned() {
    for d in [".git", "node_modules", "__pycache__", "target", ".venv", "venv", "dist"] {
        assert!(is_ignored_dir(d), "{d}");
        assert!(skip_dir(d), "{d}");
    }
    assert!(!is_ignored_dir("src"));
    assert!(skip_dir(".cache"));
    assert!(!skip_dir("."));
    assert!(!skip_dir(".."));
    assert!(!skip_dir("tests"));
}

#[test]
fn watcher_ignores_noise_and_unowned_paths() {
    assert!(should_ignore("/p/R/.#foo.R", true, false));
    assert!(should_ignore("/p/R/foo.R~", true, false));
    assert!(should_ignore("/p/.Rhistory", true, true));
    assert!(should_ignore("/p/node_modules/x/a.py", true, false));
    assert!(should_ignore("/p/pkg/a.pyc", true, false));
    assert!(should_ignore("/p/README.md", false, false));
    assert!(!should_ignore("/p/R/foo.R", true, false));
    assert!(!should_ignore("/p/tests/test_a.py", false, true));
}

#[test]
fn unique_paths_dedupes_and_sorts() {
    let events: Vec<String> = ["b.R", "a.R", "a.R", "c.R", "b.R"].iter().map(|s| s.to_string()).collect();
    assert_eq!(unique_paths(&events), vec!["a.R", "b.R", "c.R"]);
}

#[test]
fn unique_paths_empty_input() {
    assert!(unique_paths(&[]).is_empty());
}
