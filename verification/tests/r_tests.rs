use scrutin::protocol::Outcome;
use scrutin::r::{
    is_r_test_filename, is_r_test_path, parse_r_package_name, parse_r_package_version, r_env_vars,
    r_is_noise_line, r_plugins, r_subprocess_cmd,
};

#[test]
fn description_package_name() {
    let desc = "Package: mypkg\nVersion: 0.1.0\n";
    assert_eq!(parse_r_package_name(Some(desc), Some("dir")), "mypkg");
    assert_eq!(parse_r_package_name(Some("Title: x\n"), Some("dir")), "dir");
    assert_eq!(parse_r_package_name(None, Some("dir")), "dir");
    assert_eq!(parse_r_package_name(None, None), "<unknown>");
    assert_eq!(parse_r_package_name(Some("Package:   spaced  \r\n"), None), "spaced");
}

#[test]
fn description_version_skips_empty_fields() {
    assert_eq!(parse_r_package_version("Package: a\nVersion: 1.2.3\n").as_deref(), Some("1.2.3"));
    assert_eq!(parse_r_package_version("Version:   \nVersion: 2.0\n").as_deref(), Some("2.0"));
    assert_eq!(parse_r_package_version("Package: a\n"), None);
}

#[test]
fn r_test_file_names() {
    assert!(is_r_test_filename("test-foo.R"));
    assert!(is_r_test_filename("test_foo.r"));
    assert!(!is_r_test_filename("Test-foo.R"));
    assert!(!is_r_test_filename("foo.R"));
    assert!(!is_r_test_filename("test-foo.py"));
    assert!(is_r_test_path("/pkg/tests/testthat/test-a.R"));
    assert!(!is_r_test_path("/pkg/R/a.R"));
}

#[test]
fn r_noise_lines() {
    assert!(r_is_noise_line("  Creating a generic function for 'summary'"));
    assert!(r_is_noise_line("in method for 'show'"));
    assert!(!r_is_noise_line("Error: boom"));
}

#[test]
fn r_worker_command_and_env() {
    assert_eq!(r_subprocess_cmd("/tmp/run.R"), vec!["Rscript", "--vanilla", "/tmp/run.R"]);
    assert_eq!(
        r_env_vars("testthat", "/pkg"),
        vec![
            ("SCRUTIN_TOOL".to_string(), "testthat".to_string()),
            ("SCRUTIN_PKG_DIR".to_string(), "/pkg".to_string())
        ]
    );
}

#[test]
fn r_plugin_table_and_globs() {
    let ps = r_plugins();
    let names: Vec<&str> = ps.iter().map(|p| p.name).collect();
    assert_eq!(names, vec!["tinytest", "testthat", "pointblank", "validate"]);
    let testthat = &ps[1];
    assert_eq!(
        testthat.default_run(),
        vec!["tests/testthat/**/test-*.R", "tests/testthat/**/test_*.R", "tests/testthat/**/test-*.r"]
    );
    assert_eq!(testthat.default_watch(), vec!["R/**/*.R", "R/**/*.r"]);
    assert_eq!(testthat.test_file_candidates("foo"), vec!["test-foo.R", "test_foo.R", "test-foo.r"]);
    assert!(testthat.supported_outcomes().contains(&Outcome::Skip));
    assert!(ps[2].supported_outcomes().contains(&Outcome::Warn));
    assert_eq!(ps[3].subject_label, "rule");
    assert!(testthat.is_source_file("R/utils.r"));
}
