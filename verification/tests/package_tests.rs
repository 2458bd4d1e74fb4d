use scrutin::package::{
    anchor_patterns, dedup_keep_first, file_mode_plan, literal_prefixes, owns_test_file,
    suite_patterns, tool_names,
};

fn s(v: &[&str]) -> Vec<String> {
    v.iter().map(|x| x.to_string()).collect()
}

#[test]
fn suite_patterns_fall_back_to_defaults_and_run_set() {
    let (run, watch) = suite_patterns("/p", &[], &[], &s(&["tests/**/test_*.py"]), &[]);
    assert_eq!(run, s(&["/p/tests/**/test_*.py"]));
    assert_eq!(watch, run);
    let (run, watch) = suite_patterns(
        "/p/",
        &s(&["/abs/*.R", "R/*.R"]),
        &[],
        &s(&["ignored"]),
        &s(&["src/**/*.py"]),
    );
    assert_eq!(run, s(&["/abs/*.R", "/p/R/*.R"]));
    assert_eq!(watch, s(&["/p/src/**/*.py"]));
    assert_eq!(anchor_patterns("/p", &s(&["x"])), s(&["/p/x"]));
}

#[test]
fn search_dirs_are_literal_prefixes_once_each() {
    let dirs = literal_prefixes(&s(&["/p/tests/**/test_*.py", "/p/tests/*_test.py", "**/*.py"]));
    assert_eq!(dirs, s(&["/p/tests", "/p/tests", "."]));
    assert_eq!(dedup_keep_first(&dirs), s(&["/p/tests", "."]));
}

#[test]
fn ownership_needs_a_run_glob_and_the_plugin_or_explicit_files() {
    let run = s(&["/p/tests/**/*.py"]);
    assert!(owns_test_file(&run, false, true, "/p/tests/unit/test_a.py"));
    assert!(!owns_test_file(&run, false, false, "/p/tests/conftest.py"));
    assert!(owns_test_file(&run, true, false, "/p/tests/conftest.py"));
    assert!(!owns_test_file(&run, true, true, "/q/tests/test_a.py"));
    assert_eq!(tool_names(&s(&["tinytest", "testthat", "pytest"])), "tinytest+testthat+pytest");
}

#[test]
fn file_mode_plans_and_refusals() {
    let (root, run) = file_mode_plan(&s(&["/a/b/c.md", "/a/b/d/e.md"]), "typos").unwrap();
    assert_eq!(root, "/a/b");
    assert_eq!(run, s(&["/a/b/c.md", "/a/b/d/e.md"]));
    assert_eq!(
        file_mode_plan(&[], "typos").unwrap_err(),
        "file-mode requires at least one file"
    );
    assert_eq!(file_mode_plan(&s(&["/a.md"]), "nope").unwrap_err(), "Unknown tool: nope");
    assert!(file_mode_plan(&s(&["/a.py"]), "pytest")
        .unwrap_err()
        .contains("requires a project root"));
}

#[test]
fn from_files_builds_single_suite_for_command_mode_tool() {
    let file = "/tmp/proj/prose.md";
    let (root, run) = file_mode_plan(&s(&[file]), "skyspell").expect("skyspell is command-mode");
    assert_eq!(run, s(&[file]));
    assert!(scrutin::filter::any_matches(&run, file));
    assert_eq!(root, "/tmp/proj");
}

#[test]
fn from_files_rejects_worker_mode_tool() {
    let msg = file_mode_plan(&s(&["/tmp/proj/test_foo.py"]), "pytest")
        .map(|_| ())
        .expect_err("pytest is worker-mode and must be refused in file-mode");
    assert!(
        msg.contains("project root"),
        "error should explain why worker-mode plugins need a project root, got: {msg}",
    );
}

#[test]
fn from_files_rejects_unknown_tool() {
    let err = file_mode_plan(&s(&["/tmp/proj/x.md"]), "nope")
        .map(|_| ())
        .expect_err("unknown tool name must error");
    assert!(err.to_lowercase().contains("unknown"));
}

#[test]
fn from_files_rejects_empty_input() {
    let err = file_mode_plan(&[], "skyspell").map(|_| ()).expect_err("empty file list must error");
    assert!(err.to_lowercase().contains("at least one"));
}

fn route(tool: &str, root: &str, run: &[&str]) -> scrutin::package::SuiteRoute {
    let plugin = scrutin::registry::plugin_by_name(tool).unwrap_or_else(|| panic!("{tool} plugin registered"));
    scrutin::package::SuiteRoute { plugin, run: anchor_patterns(root, &s(run)), explicit_files: false }
}

#[test]
fn monorepo_routing_keeps_suites_separate() {
    let routes = vec![
        route("testthat", "/repo/r", &["tests/testthat/**/test-*.R"]),
        route("pytest", "/repo/python", &["tests/**/test_*.py"]),
    ];
    let s_r = scrutin::package::suite_for(&routes, "/repo/r/tests/testthat/test-load.R").expect("R test routes to a suite");
    assert_eq!(routes[s_r].plugin.name(), "testthat");
    let s_py = scrutin::package::suite_for(&routes, "/repo/python/tests/test_load.py").expect("Py test routes to a suite");
    assert_eq!(routes[s_py].plugin.name(), "pytest");
    let cross_py = scrutin::package::suite_for(&routes, "/repo/r/tests/test_foo.py");
    assert!(cross_py.is_none_or(|i| routes[i].plugin.name() != "testthat"));
    let cross_r = scrutin::package::suite_for(&routes, "/repo/python/tests/test-foo.R");
    assert!(cross_r.is_none_or(|i| routes[i].plugin.name() != "pytest"));
}

#[test]
fn scattered_files_routing_no_shared_ancestor() {
    let suite = route("testthat", "/root", &["a/test-foo.R", "b/test-bar.R"]);
    let one = vec![suite];
    assert_eq!(scrutin::package::suite_for(&one, "/root/a/test-foo.R"), Some(0));
    assert_eq!(scrutin::package::suite_for(&one, "/root/b/test-bar.R"), Some(0));
    assert_eq!(scrutin::package::suite_for(&one, "/root/a/test-other.R"), None);
}
