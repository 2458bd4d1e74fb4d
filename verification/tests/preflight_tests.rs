use scrutin::config::PreflightConfig;
use scrutin::preflight::{
    command_tool_error, enabled_checks, import_probe, install_hint, pkgload_error, pkgload_targets,
    python_import_error, python_path, run_globs_error, stderr_tail, suite_root_error, PreflightCheck,
    SuiteProbe,
};

#[test]
fn checks_run_in_order_and_respect_flags() {
    let all = PreflightConfig::default();
    assert_eq!(
        enabled_checks(&all),
        vec![
            PreflightCheck::SuiteRoots,
            PreflightCheck::RunGlobs,
            PreflightCheck::CommandTools,
            PreflightCheck::PythonImports,
            PreflightCheck::RPkgload
        ]
    );
    let mut some = PreflightConfig::default();
    some.run_globs = false;
    some.r_pkgload = false;
    assert_eq!(
        enabled_checks(&some),
        vec![PreflightCheck::SuiteRoots, PreflightCheck::CommandTools, PreflightCheck::PythonImports]
    );
    let mut off = PreflightConfig::default();
    off.enabled = false;
    assert!(enabled_checks(&off).is_empty());
}

fn probe(name: &str, lang: &str, root: &str, command_mode: bool) -> SuiteProbe {
    SuiteProbe { name: name.into(), language: lang.into(), root: root.into(), command_mode }
}

#[test]
fn pkgload_probe_once_per_r_root_skipping_linters() {
    let suites = vec![
        probe("jarl", "r", "/p", true),
        probe("testthat", "r", "/p", false),
        probe("pytest", "python", "/p", false),
        probe("tinytest", "r", "/p", false),
        probe("validate", "r", "/q", false),
    ];
    assert_eq!(pkgload_targets(&suites), vec![1, 4]);
}

#[test]
fn import_probe_command() {
    assert_eq!(import_probe(&Vec::new(), "/v/bin/python", "pkg"), vec!["/v/bin/python", "-c", "import pkg"]);
    let conf = vec!["uv".to_string(), "run".to_string(), "python".to_string()];
    assert_eq!(import_probe(&conf, "/ignored", "pkg"), vec!["uv", "run", "python", "-c", "import pkg"]);
}

#[test]
fn python_path_entries() {
    assert_eq!(python_path(Some("/p/src"), "/p", Some("/x")), "/p/src:/p:/x");
    assert_eq!(python_path(None, "/p", Some("")), "/p");
    assert_eq!(python_path(None, "/p", None), "/p");
}

#[test]
fn install_hints() {
    assert_eq!(install_hint("ruff"), "Install with `pip install ruff` or `brew install ruff`.");
    assert_eq!(install_hint("jarl"), "Install instructions: https://jarl.etiennebacher.com/");
    assert_eq!(install_hint("foo"), "Install `foo` and ensure it is on PATH.");
}

#[test]
fn stderr_tail_keeps_last_lines() {
    assert_eq!(stderr_tail(b"a\nb\nc\nd\n", 3), "b\nc\nd");
    assert_eq!(stderr_tail(b"only", 3), "only");
    assert_eq!(stderr_tail(b"", 3), "");
}

#[test]
fn preflight_messages() {
    assert_eq!(
        suite_root_error("pytest", "/p/missing"),
        "[[suite]] pytest: root \"/p/missing\" is not an existing directory.\nHint: typo in the `root` field, or the directory hasn't been created yet.\nDisable this check with `[preflight] suite_roots = false`."
    );
    let pats = vec!["/p/tests/**/*.py".to_string(), "/p/x".to_string()];
    assert!(run_globs_error("pytest", "/p", &pats)
        .starts_with("[[suite]] pytest: `run` globs matched zero files under /p.\nPatterns: [\"/p/tests/**/*.py\", \"/p/x\"]\nHint:"));
    assert_eq!(
        command_tool_error("typos", "typos"),
        "[[suite]] typos: command-line tool \"typos\" not found on PATH.\n\n  Install instructions: https://github.com/crate-ci/typos\n\n  Once installed, ensure it is on PATH.\n\n  Disable this check with `[preflight] command_tools = false`."
    );
    assert!(python_import_error("pytest", "/p", "pkg", "ModuleNotFoundError")
        .ends_with("Interpreter output:\nModuleNotFoundError"));
    assert!(pkgload_error("testthat", "/p", "  \n").ends_with("`[preflight] r_pkgload = false`."));
    assert!(pkgload_error("testthat", "/p", "Error").ends_with("\nRscript output:\nError"));
}
