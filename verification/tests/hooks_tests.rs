use scrutin::config::{Config, LanguageHooks, ToolHooks};
use scrutin::hooks::{
    resolve_worker_hooks, script_problem, startup_exit_error, teardown_exit_warning, ProcessHooks,
    ScriptState,
};

fn opt(v: Option<&toml::Value>, key: &str) -> Option<String> {
    v.and_then(|t| t.get(key)).and_then(|s| s.as_str()).map(|s| s.to_string())
}

/// Reads the `[hooks]` tables of a TOML document into a configuration, in
/// key order, as loading the configuration file does.
fn parse_hooks(src: &str) -> Config {
    let v: toml::Value = toml::from_str(src).expect("parse");
    let hooks = v.get("hooks");
    let mut cfg = Config::default();
    cfg.hooks.startup = opt(hooks, "startup");
    cfg.hooks.teardown = opt(hooks, "teardown");
    if let Some(t) = hooks.and_then(|h| h.as_table()) {
        let mut langs: Vec<&String> = t.keys().filter(|k| t[*k].is_table()).collect();
        langs.sort();
        for lang in langs {
            let lt = &t[lang];
            let mut tools: Vec<&String> = lt
                .as_table()
                .unwrap()
                .keys()
                .filter(|k| lt[*k].is_table())
                .collect();
            tools.sort();
            let by_tool = tools
                .into_iter()
                .map(|tool| {
                    let tt = lt.get(tool.as_str());
                    (
                        tool.clone(),
                        ToolHooks {
                            worker_startup: opt(tt, "worker_startup"),
                            worker_teardown: opt(tt, "worker_teardown"),
                        },
                    )
                })
                .collect();
            cfg.hooks.by_language.push((
                lang.clone(),
                LanguageHooks {
                    worker_startup: opt(Some(lt), "worker_startup"),
                    worker_teardown: opt(Some(lt), "worker_teardown"),
                    by_tool,
                },
            ));
        }
    }
    cfg
}

#[test]
fn worker_hooks_tool_level_overrides_language_level_per_field() {
    let toml_src = r#"
[hooks.python]
worker_startup = "scripts/py_any.py"

[hooks.python.pytest]
worker_teardown = "scripts/py_pytest_td.py"
"#;
    let cfg = parse_hooks(toml_src);
    let hooks = resolve_worker_hooks(&cfg, "python", "pytest", "/proj");
    assert!(
        hooks.startup.as_ref().is_some_and(|p| p.ends_with("py_any.py")),
        "startup must inherit from [hooks.python]; got {:?}",
        hooks.startup
    );
    assert!(
        hooks.teardown.as_ref().is_some_and(|p| p.ends_with("py_pytest_td.py")),
        "teardown must come from [hooks.python.pytest] (tool-level wins); got {:?}",
        hooks.teardown
    );
    assert_eq!(hooks.startup.as_deref(), Some("/proj/scripts/py_any.py"));
}

#[test]
fn config_flatten_hooks_parses() {
    let toml_src = r#"
[hooks]
startup = "scripts/startup.sh"
teardown = "scripts/teardown.sh"

[hooks.python]
worker_startup = "scripts/py_any.py"

[hooks.python.pytest]
worker_startup = "scripts/py_pytest.py"
worker_teardown = "scripts/py_pytest_td.py"

[hooks.r.testthat]
worker_startup = "scripts/r_tt.R"
"#;
    let cfg = parse_hooks(toml_src);
    assert_eq!(cfg.hooks.startup.as_deref(), Some("scripts/startup.sh"));
    let py = &cfg.hooks.by_language.iter().find(|(k, _)| k == "python").expect("python lang").1;
    assert_eq!(py.worker_startup.as_deref(), Some("scripts/py_any.py"));
    let pyt = &py.by_tool.iter().find(|(k, _)| k == "pytest").expect("pytest tool").1;
    assert_eq!(pyt.worker_startup.as_deref(), Some("scripts/py_pytest.py"));
    let r = &cfg.hooks.by_language.iter().find(|(k, _)| k == "r").expect("r lang").1;
    let tt = &r.by_tool.iter().find(|(k, _)| k == "testthat").expect("testthat tool").1;
    assert_eq!(tt.worker_startup.as_deref(), Some("scripts/r_tt.R"));

    let both = resolve_worker_hooks(&cfg, "python", "pytest", "/p");
    assert_eq!(both.startup.as_deref(), Some("/p/scripts/py_pytest.py"));
    assert_eq!(both.teardown.as_deref(), Some("/p/scripts/py_pytest_td.py"));
    let r_only = resolve_worker_hooks(&cfg, "r", "tinytest", "/p");
    assert_eq!(r_only.startup, None);
    assert_eq!(r_only.teardown, None);
}

#[test]
fn process_hooks_take_relative_scripts_under_the_root() {
    let mut cfg = Config::default();
    cfg.hooks.startup = Some("scripts/up.sh".into());
    cfg.hooks.teardown = Some("/abs/down.sh".into());
    cfg.env = vec![("A".into(), "1".into())];
    let h = ProcessHooks::from_config(&cfg, "/proj");
    assert_eq!(h.startup_script().as_deref(), Some("/proj/scripts/up.sh"));
    assert_eq!(h.teardown_script().as_deref(), Some("/abs/down.sh"));
    assert_eq!(h.env, vec![("A".to_string(), "1".to_string())]);
    let none = ProcessHooks::from_config(&Config::default(), "/proj");
    assert_eq!(none.startup_script(), None);
    assert_eq!(none.teardown_script(), None);
}

#[test]
fn hook_script_problems_name_the_path_and_label() {
    let s = script_problem("/p/x.sh", "startup", ScriptState::Missing, true).unwrap();
    assert!(s.contains("not found"), "{s}");
    assert_eq!(s, "hook script not found: /p/x.sh (startup)");
    let s = script_problem("/p/x.sh", "startup", ScriptState::NotExecutable, true).unwrap();
    assert!(s.contains("not executable") && s.contains("chmod +x"), "{s}");
    assert_eq!(s, "hook script not executable: /p/x.sh (startup), run: chmod +x /p/x.sh");
    assert_eq!(
        script_problem("/p/d", "teardown", ScriptState::NotAFile, true).as_deref(),
        Some("hook script is not a regular file: /p/d (teardown)")
    );
    assert_eq!(script_problem("/p/x.py", "worker_startup", ScriptState::NotExecutable, false), None);
    assert_eq!(script_problem("/p/x.sh", "startup", ScriptState::Ready, true), None);
}

#[test]
fn hook_exit_statuses() {
    let e = startup_exit_error("/p/fail.sh", false, Some(7)).unwrap();
    assert!(e.contains("exited with status 7"), "{e}");
    assert_eq!(
        startup_exit_error("/p/k.sh", false, None).as_deref(),
        Some("startup hook /p/k.sh exited with status 1")
    );
    assert_eq!(startup_exit_error("/p/ok.sh", true, Some(0)), None);
    assert_eq!(
        teardown_exit_warning("/p/t.sh", false, Some(9)).as_deref(),
        Some("warning: teardown hook /p/t.sh exited with status 9")
    );
    assert_eq!(
        teardown_exit_warning("/p/t.sh", false, None).as_deref(),
        Some("warning: teardown hook /p/t.sh exited with status -1")
    );
    assert_eq!(teardown_exit_warning("/p/t.sh", true, Some(0)), None);
}
