use scrutin::deps::{
    dep_map_candidates, heuristic_test_files, resolve_tests, source_stem, TestAction,
};

fn s(v: &[&str]) -> Vec<String> {
    v.iter().map(|x| x.to_string()).collect()
}

#[test]
fn stems_are_lower_cased_file_names_without_extension() {
    assert_eq!(source_stem("/p/R/Utils.R").as_deref(), Some("utils"));
    assert_eq!(source_stem("/p/pkg/core.tar.gz").as_deref(), Some("core.tar"));
    assert_eq!(source_stem("/p/.bashrc").as_deref(), Some(".bashrc"));
    assert_eq!(source_stem("/"), None);
}

#[test]
fn heuristic_matches_basenames_ignoring_case() {
    let tests = s(&["/p/tests/test_utils.py", "/p/tests/Test_Core.py", "/p/tests/test_other.py"]);
    assert_eq!(
        heuristic_test_files(&s(&["TEST_core.py", "test_utils.py"]), &tests),
        s(&["/p/tests/test_utils.py", "/p/tests/Test_Core.py"])
    );
    assert!(heuristic_test_files(&[], &tests).is_empty());
}

#[test]
fn dep_map_lookup_runs_listed_tests_from_first_directory_holding_them() {
    let map = vec![
        ("R/foo.R".to_string(), s(&["test-foo.R", "test-bar.R"])),
        ("R/baz.R".to_string(), s(&["test-baz.R"])),
    ];
    let dirs = s(&["/p/tests/testthat", "/p/inst/tinytest"]);
    let cands = dep_map_candidates("/p/R/foo.R", "/p", Some(&map), &dirs);
    assert_eq!(
        cands,
        s(&[
            "/p/tests/testthat/test-foo.R",
            "/p/inst/tinytest/test-foo.R",
            "/p/tests/testthat/test-bar.R",
            "/p/inst/tinytest/test-bar.R",
        ])
    );
    let existing = s(&["/p/inst/tinytest/test-foo.R", "/p/tests/testthat/test-bar.R"]);
    assert_eq!(
        resolve_tests("/p/R/foo.R", false, "/p", Some(&map), &dirs, &existing, Vec::new()),
        TestAction::Run(s(&["/p/inst/tinytest/test-foo.R", "/p/tests/testthat/test-bar.R"]))
    );
}

#[test]
fn changed_test_runs_itself_and_fallbacks_apply_in_order() {
    let dirs = s(&["/p/tests"]);
    assert_eq!(
        resolve_tests("/p/tests/test_a.py", true, "/p", None, &dirs, &[], s(&["/p/tests/x.py"])),
        TestAction::Run(s(&["/p/tests/test_a.py"]))
    );
    assert_eq!(
        resolve_tests("/p/a.py", false, "/p", None, &dirs, &[], s(&["/p/tests/test_a.py"])),
        TestAction::Run(s(&["/p/tests/test_a.py"]))
    );
    let map = vec![("other.py".to_string(), s(&["test_o.py"]))];
    assert_eq!(
        resolve_tests("/p/a.py", false, "/p", Some(&map), &dirs, &[], Vec::new()),
        TestAction::FullSuite
    );
    assert!(dep_map_candidates("/p/a.py", "/p", None, &dirs).is_empty());
}
