use scrutin::registry::{all_plugins, detect_plugins, plugin_by_name};

#[test]
fn registry_order_and_lookup() {
    let names: Vec<&str> = all_plugins().iter().map(|p| p.name()).collect();
    assert_eq!(
        names,
        vec!["tinytest", "testthat", "pointblank", "jarl", "validate", "pytest", "great_expectations", "ruff", "skyspell", "typos"]
    );
    let jarl = plugin_by_name("jarl").expect("jarl is built in");
    assert!(jarl.is_command_mode());
    assert_eq!(jarl.language(), "r");
    let pytest = plugin_by_name("pytest").expect("pytest is built in");
    assert!(!pytest.is_command_mode());
    assert_eq!(pytest.language(), "python");
    assert!(plugin_by_name("nope").is_none());
}

#[test]
fn detect_plugins_auto_and_filtered() {
    let mut detected = vec![false; 10];
    assert_eq!(
        detect_plugins(&detected, "auto", "/p").unwrap_err(),
        "No test tools detected in /p. Configure suites explicitly in scrutin.toml or run scrutin from the project root."
    );
    detected[1] = true;
    detected[5] = true;
    assert_eq!(detect_plugins(&detected, "auto", "/p").unwrap(), vec![1, 5]);
    assert_eq!(detect_plugins(&detected, "pytest", "/p").unwrap(), vec![5]);
    assert_eq!(detect_plugins(&detected, "nope", "/p").unwrap_err(), "Unknown tool: nope");
    assert_eq!(
        detect_plugins(&detected, "ruff", "/p").unwrap_err(),
        "Tool \"ruff\" requested but its marker files were not found at /p"
    );
}
