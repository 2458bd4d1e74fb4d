use scrutin::plugins::{
    ActionScope, GreatExpectationsPlugin, JarlPlugin, PytestPlugin, RuffPlugin, SkyspellPlugin,
    TyposPlugin,
};
use scrutin::protocol::Outcome;

#[test]
fn ruff_and_jarl_declare_lint_targets_and_fix_actions() {
    assert_eq!(RuffPlugin.name(), "ruff");
    assert!(RuffPlugin.is_test_file("/p/a.py"));
    assert!(RuffPlugin.is_test_file("/p/A.PY"));
    assert!(!RuffPlugin.is_test_file("/p/a.R"));
    assert_eq!(RuffPlugin.test_file_candidates("foo"), vec!["foo.py"]);
    assert_eq!(
        RuffPlugin.command_spec().unwrap().argv,
        vec!["ruff", "check", "--output-format", "json"]
    );
    let acts = RuffPlugin.actions();
    assert_eq!(acts.len(), 4);
    assert_eq!(acts[1].key, 'F');
    assert_eq!(acts[1].command, vec!["ruff", "check", "--fix", "--unsafe-fixes"]);
    assert_eq!(acts[3].scope, ActionScope::All);
    assert_eq!(JarlPlugin.language(), "r");
    assert!(JarlPlugin.is_test_file("R/x.r"));
    assert_eq!(JarlPlugin.test_file_candidates("x"), vec!["x.R", "x.r"]);
    assert_eq!(JarlPlugin.actions()[0].label, "Jarl: fix");
    assert_eq!(JarlPlugin.supported_outcomes(), vec![Outcome::Pass, Outcome::Warn, Outcome::Error]);
    assert_eq!(ActionScope::default(), ActionScope::File);
}

#[test]
fn spell_checkers_choose_their_files() {
    assert!(TyposPlugin.is_test_file("docs/README.MD"));
    assert!(TyposPlugin.is_test_file("src/lib.rs"));
    assert!(!TyposPlugin.is_test_file("img/logo.png"));
    assert!(!TyposPlugin.is_test_file("Makefile"));
    assert_eq!(TyposPlugin.default_run().len(), 23);
    assert_eq!(TyposPlugin.actions()[1].name, "fix_all");
    assert!(SkyspellPlugin.is_test_file("vignettes/intro.Rmd"));
    assert!(!SkyspellPlugin.is_test_file("R/foo.R"));
    let spec = SkyspellPlugin
        .command_spec("/proj", &vec!["--lang".to_string(), "en_US".to_string()])
        .unwrap();
    assert_eq!(
        spec.argv,
        vec!["skyspell", "--project-path", "/proj", "--lang", "en_US", "check", "--output-format", "json"]
    );
}

#[test]
fn python_runners_follow_pytest_naming() {
    assert!(PytestPlugin.is_test_file("/p/tests/test_api.py"));
    assert!(PytestPlugin.is_test_file("/p/tests/api_test.py"));
    assert!(!PytestPlugin.is_test_file("/p/tests/conftest.py"));
    assert!(PytestPlugin.is_source_file("/p/src/api.py"));
    assert_eq!(PytestPlugin.test_file_candidates("api"), vec!["test_api.py", "api_test.py"]);
    assert_eq!(PytestPlugin.default_run()[0], "tests/**/test_*.py");
    assert_eq!(GreatExpectationsPlugin.subject_label(), "expectation");
    assert_eq!(
        GreatExpectationsPlugin.supported_outcomes(),
        vec![Outcome::Pass, Outcome::Fail, Outcome::Error, Outcome::Xfail]
    );
}
