use scrutin::cli::{choose_reporter, classify_paths, escape, filter_by_tools, is_full_suite, list_lines, overrides_with_tool, render_config_template, select_suites, shuffle_seed, watch_enabled, PathKind, ResolvedFilter, resolve_filter_args, resolve_reporter, shuffle_files, Reporter, ReporterSpec, Style};
use scrutin::config::{Config, FilterGroup};

#[test]
fn reporter_spec_from_str_junit_requires_path() {
    assert!("junit".parse::<ReporterSpec>().is_err());
    assert!("junit:".parse::<ReporterSpec>().is_err());
    assert_eq!(
        "junit:r.xml".parse::<ReporterSpec>().unwrap(),
        ReporterSpec::Junit("r.xml".into())
    );
}

#[test]
fn reporter_spec_from_str_web_variants() {
    assert_eq!("web".parse::<ReporterSpec>().unwrap(), ReporterSpec::Web(None));
    assert_eq!(
        "web:0.0.0.0:3000".parse::<ReporterSpec>().unwrap(),
        ReporterSpec::Web(Some("0.0.0.0:3000".into()))
    );
}

#[test]
fn reporter_spec_from_str_list() {
    assert_eq!("list".parse::<ReporterSpec>().unwrap(), ReporterSpec::List);
    assert!("list:foo".parse::<ReporterSpec>().is_err());
}

#[test]
fn reporter_spec_from_str_github() {
    assert_eq!("github".parse::<ReporterSpec>().unwrap(), ReporterSpec::Github);
    assert!("github:foo".parse::<ReporterSpec>().is_err());
}

#[test]
fn reporter_spec_from_str_unknown() {
    assert!("xml".parse::<ReporterSpec>().is_err());
    assert!("plain:foo".parse::<ReporterSpec>().is_err());
}

#[test]
fn reporter_spec_errors_name_the_problem() {
    assert_eq!(
        ReporterSpec::parse("plain:foo").unwrap_err(),
        "reporter 'plain' does not take an argument"
    );
    assert_eq!(
        ReporterSpec::parse("web:").unwrap_err(),
        "reporter 'web' address must be non-empty: web:ADDR"
    );
    assert_eq!(
        ReporterSpec::parse("xml").unwrap_err(),
        "unknown target 'xml' (expected: tui, plain, github, web[:ADDR], list, junit:PATH)"
    );
    assert_eq!(ReporterSpec::parse("tui").unwrap(), ReporterSpec::Tui);
    assert_eq!(ReporterSpec::parse("plain").unwrap(), ReporterSpec::Plain);
}

fn cfg_with_groups() -> Config {
    let mut cfg = Config::default();
    cfg.filter.includes = vec!["test-base*".into()];
    cfg.filter.groups.push((
        "fast".into(),
        FilterGroup {
            tools: vec![],
            includes: vec!["test-unit*".into()],
            exclude: vec!["test-slow*".into()],
        },
    ));
    cfg.filter.groups.push((
        "py_integration".into(),
        FilterGroup {
            tools: vec!["pytest".into()],
            includes: vec!["test_integration_*".into()],
            exclude: vec![],
        },
    ));
    cfg.filter.groups.push((
        "r_only".into(),
        FilterGroup {
            tools: vec!["testthat".into(), "tinytest".into()],
            includes: vec![],
            exclude: vec![],
        },
    ));
    cfg
}

#[test]
fn no_group_inherits_top_level_filter() {
    let cfg = cfg_with_groups();
    let f = resolve_filter_args(&cfg).unwrap();
    assert_eq!(f.includes, vec!["test-base*".to_string()]);
    assert!(f.excludes.is_empty());
    assert!(f.tools.is_empty());
}

#[test]
fn group_replaces_top_level_filter() {
    let mut cfg = cfg_with_groups();
    cfg.filter.group = Some("fast".into());
    let f = resolve_filter_args(&cfg).unwrap();
    assert_eq!(
        f.includes,
        vec!["test-unit*".to_string()],
        "top-level test-base* is dropped when a group is selected"
    );
    assert_eq!(f.excludes, vec!["test-slow*".to_string()]);
    assert!(f.tools.is_empty(), "fast has no tools restriction");
}

#[test]
fn group_applies_tool_restriction() {
    let mut cfg = cfg_with_groups();
    cfg.filter.group = Some("r_only".into());
    let f = resolve_filter_args(&cfg).unwrap();
    assert_eq!(f.tools, vec!["testthat".to_string(), "tinytest".into()]);
}

#[test]
fn unknown_group_errors_with_known_list() {
    let mut cfg = cfg_with_groups();
    cfg.filter.group = Some("bogus".into());
    let msg = resolve_filter_args(&cfg).unwrap_err();
    assert!(msg.contains("unknown filter group 'bogus'"));
    assert!(msg.contains("fast"));
}

#[test]
fn empty_group_string_inherits_top_level() {
    let mut cfg = cfg_with_groups();
    cfg.filter.group = Some(String::new());
    let f = resolve_filter_args(&cfg).unwrap();
    assert_eq!(f.includes, vec!["test-base*".to_string()]);
}

#[test]
fn unknown_group_lists_known_groups_sorted() {
    let mut cfg = cfg_with_groups();
    cfg.filter.groups.reverse();
    cfg.filter.group = Some(" bogus ".into());
    assert_eq!(
        resolve_filter_args(&cfg).unwrap_err(),
        "unknown filter group 'bogus' (known: fast, py_integration, r_only)"
    );
    let mut bare = Config::default();
    bare.filter.group = Some("x".into());
    assert_eq!(
        resolve_filter_args(&bare).unwrap_err(),
        "unknown filter group 'x' (no [filter.groups.*] defined in .scrutin/config.toml)"
    );
}

#[test]
fn escape_percent_and_newlines() {
    assert_eq!(escape("100% done\nok\r"), "100%25 done%0Aok%0D");
}

#[test]
fn escape_no_special_chars() {
    assert_eq!(escape("hello world"), "hello world");
}

#[test]
fn shuffle_is_a_reproducible_permutation() {
    let files: Vec<String> = (0..10).map(|i| format!("f{i}")).collect();
    let mut a = files.clone();
    let mut b = files.clone();
    shuffle_files(&mut a, 42);
    shuffle_files(&mut b, 42);
    assert_eq!(a, b, "same seed, same order");
    let mut sorted = a.clone();
    sorted.sort();
    let mut expected = files.clone();
    expected.sort();
    assert_eq!(sorted, expected, "a permutation of the input");
    assert_ne!(a, files, "ten files are not left in place by this seed");
    let mut z = files.clone();
    let mut f = files.clone();
    shuffle_files(&mut z, 0);
    shuffle_files(&mut f, scrutin::cli::FALLBACK_SEED);
    assert_eq!(z, f, "seed 0 stands for the fallback seed");
}

#[test]
fn style_wraps_only_when_color_is_on() {
    let mut s = Style::new();
    assert_eq!(s.bold("x"), "\x1b[1mx\x1b[0m");
    assert_eq!(s.red_bold("x"), "\x1b[31m\x1b[1mx\x1b[0m");
    s.disable_color();
    assert_eq!(s.bold("x"), "x");
    assert_eq!(s.cyan("y"), "y");
}

#[test]
fn resolve_reporter_defaults_to_plain_when_no_tty() {
    let r = resolve_reporter(None, false);
    assert!(matches!(r, Reporter::Plain));
    assert!(r.is_plain());
    assert!(matches!(resolve_reporter(None, true), Reporter::Tui));
}

#[test]
fn resolve_reporter_web_parses_addr() {
    let r = resolve_reporter(Some(&ReporterSpec::Web(Some("127.0.0.1:9999".into()))), false);
    if let Reporter::Web { addr } = r {
        assert!(addr.ends_with(":9999"));
    } else {
        panic!("expected Web");
    }
}

#[test]
fn resolve_reporter_web_default_addr() {
    let r = resolve_reporter(Some(&ReporterSpec::Web(None)), false);
    if let Reporter::Web { addr } = r {
        assert_eq!(addr, "127.0.0.1:7878");
    } else {
        panic!("expected Web");
    }
}

#[test]
fn resolve_reporter_list() {
    let r = resolve_reporter(Some(&ReporterSpec::List), false);
    assert!(matches!(r, Reporter::List));
}

#[test]
fn resolve_reporter_junit() {
    let r = resolve_reporter(Some(&ReporterSpec::Junit("r.xml".into())), false);
    assert!(matches!(r, Reporter::Junit(_)));
}

#[test]
fn resolve_reporter_github() {
    let r = resolve_reporter(Some(&ReporterSpec::Github), false);
    assert!(matches!(r, Reporter::Github));
}

#[test]
fn config_template_substitutes_and_lists_bindings() {
    let modes = vec![
        (
            "normal".to_string(),
            vec![("j".to_string(), "cursor_down".to_string()), ("Ctrl-d".to_string(), "page_down".to_string())],
        ),
        ("log".to_string(), vec![("q".to_string(), "close".to_string())]),
    ];
    let out = render_config_template("tool = \"auto\"  # detected: {{DETECTED}}\n", "pytest+ruff", &modes);
    assert_eq!(
        out,
        "tool = \"auto\"  # detected: pytest+ruff\n\
         \n# [keymap.normal]\n\
         # \"j\"      = \"cursor_down\"\n\
         # \"Ctrl-d\" = \"page_down\"\n\
         \n# [keymap.log]\n\
         # \"q\" = \"close\"\n"
    );
}

#[test]
fn positional_paths_pick_the_mode() {
    assert_eq!(classify_paths(&[PathKind::Dir]), Ok(false));
    assert_eq!(classify_paths(&[PathKind::File, PathKind::File]), Ok(true));
    assert_eq!(
        classify_paths(&[PathKind::File, PathKind::Dir]).unwrap_err(),
        "mix of files and directories in positional args; pass either one directory or one-or-more files"
    );
    assert!(classify_paths(&[PathKind::Dir, PathKind::Dir]).is_err());
    assert!(classify_paths(&[PathKind::Other]).is_err());
}

#[test]
fn tool_flag_becomes_an_override() {
    let set = vec!["run.workers=2".to_string()];
    assert_eq!(overrides_with_tool(&set, Some("ruff")), vec!["run.workers=2", "run.tool=ruff"]);
    assert_eq!(overrides_with_tool(&set, None), vec!["run.workers=2"]);
}

#[test]
fn reporter_choice_for_a_run() {
    assert_eq!(
        choose_reporter(&[ReporterSpec::Plain, ReporterSpec::Tui], false, true).unwrap_err(),
        "only one --reporter (-r) is allowed"
    );
    assert!(choose_reporter(&[], true, true).unwrap().is_plain());
    assert!(matches!(choose_reporter(&[], false, true).unwrap(), Reporter::Tui));
    assert!(matches!(choose_reporter(&[ReporterSpec::Github], true, true).unwrap(), Reporter::Github));
    assert!(watch_enabled(&Reporter::Tui, true));
    assert!(!watch_enabled(&Reporter::Plain, true));
    assert!(!watch_enabled(&Reporter::Tui, false));
}

#[test]
fn suite_selection_by_tool() {
    let sc = |tool: &str| scrutin::config::SuiteConfig {
        tool: tool.into(),
        root: ".".into(),
        run: vec![],
        watch: vec![],
        runner: None,
    };
    let suites = vec![sc("testthat"), sc("pytest"), sc("testthat")];
    assert_eq!(select_suites(&suites, "auto").unwrap(), vec![0, 1, 2]);
    assert_eq!(select_suites(&suites, "testthat").unwrap(), vec![0, 2]);
    assert_eq!(select_suites(&suites, "ruff").unwrap_err(), "No [[suite]] entries match --set run.tool=\"ruff\"");
    assert!(select_suites(&Vec::new(), "ruff").unwrap().is_empty());
}

#[test]
fn run_listing_and_seeds() {
    assert_eq!(list_lines(&vec!["tests/a.R".to_string()]), vec!["1 test file would run", "  tests/a.R"]);
    assert_eq!(list_lines(&vec![]), vec!["0 test files would run"]);
    assert_eq!(shuffle_seed(false, None, 7), None);
    assert_eq!(shuffle_seed(true, None, 7), Some(7));
    assert_eq!(shuffle_seed(false, Some(3), 7), Some(3));
    let all = ResolvedFilter { tools: vec![], includes: vec![], excludes: vec![] };
    assert!(is_full_suite(&all));
    let some = ResolvedFilter { tools: vec![], includes: vec!["a*".into()], excludes: vec![] };
    assert!(!is_full_suite(&some));
}

#[test]
fn tool_filter_keeps_owned_files() {
    let tt = scrutin::registry::plugin_by_name("testthat").unwrap();
    let py = scrutin::registry::plugin_by_name("pytest").unwrap();
    let routes = vec![
        scrutin::package::SuiteRoute { plugin: tt, run: vec!["/p/tests/**/test-*.R".into()], explicit_files: false },
        scrutin::package::SuiteRoute { plugin: py, run: vec!["/p/tests/**/test_*.py".into()], explicit_files: false },
    ];
    let files = vec!["/p/tests/test-a.R".to_string(), "/p/tests/test_b.py".to_string()];
    assert_eq!(filter_by_tools(&routes, &files, &vec!["pytest".to_string()]), vec!["/p/tests/test_b.py"]);
    assert_eq!(filter_by_tools(&routes, &files, &vec![]), files);
}
