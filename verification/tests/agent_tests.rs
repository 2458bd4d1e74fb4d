use scrutin::agent::{
    build_prompt, build_wrapper_script, lang_for, outcome_label, read_window, resolve_launcher,
    sh_quote, LaunchEnv, PromptRequest,
};
use scrutin::protocol::Outcome;

fn env(on_path: &[&str]) -> LaunchEnv {
    LaunchEnv {
        in_tmux: false,
        term_program: None,
        macos: false,
        terminal: None,
        on_path: on_path.iter().map(|s| s.to_string()).collect(),
    }
}

#[test]
fn sh_quote_wraps_and_escapes_single_quotes() {
    assert_eq!(sh_quote("/tmp/a b"), "'/tmp/a b'");
    assert_eq!(sh_quote("it's"), "'it'\\''s'");
    assert_eq!(sh_quote(""), "''");
}

#[test]
fn wrapper_script_enters_cwd_and_waits() {
    let s = build_wrapper_script("/p", "agent-cli", "/tmp/x.md");
    assert_eq!(
        s,
        "#!/bin/sh\nset -e\ncd '/p'\nagent-cli \"$(cat '/tmp/x.md')\"\nstatus=$?\necho\necho \"[scrutin] agent exited with $status. press enter to close.\"\nread _\n"
    );
}

#[test]
fn window_clips_around_the_failing_line() {
    let content = "l1\nl2\nl3\nl4\nl5\nl6\n";
    let w = read_window(content, Some(4), 1);
    assert_eq!(w.body, "l3\nl4\nl5");
    assert_eq!(w.start_line, 3);
    let w = read_window(content, Some(1), 2);
    assert_eq!(w.body, "l1\nl2\nl3");
    assert_eq!(w.start_line, 1);
    let w = read_window(content, Some(99), 1);
    assert_eq!(w.body, "l5\nl6");
    let w = read_window(content, None, 1);
    assert_eq!(w.body, "l1\nl2\nl3");
    assert_eq!(w.start_line, 1);
    let w = read_window("", Some(3), 2);
    assert_eq!(w.body, "");
}

#[test]
fn languages_and_labels() {
    assert_eq!(lang_for("/p/tests/test_a.py"), "python");
    assert_eq!(lang_for("/p/R/foo.R"), "r");
    assert_eq!(lang_for("/p/x.mjs"), "javascript");
    assert_eq!(lang_for("/p/Makefile"), "");
    assert_eq!(outcome_label(Outcome::Xfail), "xfail");
}

#[test]
fn prompt_has_heading_error_and_both_windows() {
    let req = PromptRequest {
        pkg_root: "/p".into(),
        test_file_rel: "tests/test_a.py".into(),
        test_file_abs: "/p/tests/test_a.py".into(),
        test_source: "import a\n\ndef test_x():\n    assert a.f() == 2\n".into(),
        source: Some(("/p/a.py".into(), "def f():\n    return 1\n".into())),
        failing_line: Some(4),
        outcome: Outcome::Fail,
        test_name: Some("test_x".into()),
        error_message: Some("assert 1 == 2  \n".into()),
        context_lines: 1,
    };
    let p = build_prompt(&req);
    assert!(p.starts_with(
        "# Test failure diagnosis\n\nscrutin caught a `fail` outcome in `tests/test_a.py` at line 4. Please diagnose"
    ));
    assert!(p.contains("**Test name:** `test_x`\n\n"));
    assert!(p.contains("## Error message\n\n```\nassert 1 == 2\n```\n\n"));
    assert!(p.contains("## Test source \u{2014} `tests/test_a.py`\n\n```python\n# starting at line 3\ndef test_x():\n    assert a.f() == 2\n```\n"));
    assert!(p.contains("\n## Source under test \u{2014} `a.py`\n\n```python\n# starting at line 1\ndef f():\n    return 1\n```\n"));
    assert!(p.ends_with("4. If the test itself looks wrong, say so explicitly and explain why.\n"));
    let mut bare = req.clone();
    bare.test_name = Some(String::new());
    bare.error_message = None;
    bare.source = None;
    bare.failing_line = None;
    let p = build_prompt(&bare);
    assert!(!p.contains("Test name"));
    assert!(!p.contains("Error message"));
    assert!(!p.contains("Source under test"));
    assert!(p.contains("outcome in `tests/test_a.py`. Please"));
}

#[test]
fn launcher_template_substitutes_placeholders() {
    let (prog, args) = resolve_launcher(
        Some("wezterm start --cwd {cwd} -- {script}"),
        "/tmp/s.sh",
        "/p",
        &env(&[]),
    );
    assert_eq!(prog, "wezterm");
    assert_eq!(args, vec!["start", "--cwd", "/p", "--", "/tmp/s.sh"]);
}

#[test]
fn launcher_prefers_tmux_then_term_program_then_platform() {
    let mut e = env(&["tmux", "kitty"]);
    e.in_tmux = true;
    assert_eq!(
        resolve_launcher(None, "/s.sh", "/p", &e),
        ("tmux".to_string(), vec!["new-window".to_string(), "-c".into(), "/p".into(), "/s.sh".into()])
    );
    e.in_tmux = false;
    e.term_program = Some("kitty".into());
    assert_eq!(resolve_launcher(None, "/s.sh", "/p", &e), ("kitty".to_string(), vec!["/s.sh".to_string()]));
    e.term_program = Some("iTerm.app".into());
    assert_eq!(resolve_launcher(None, "/s.sh", "/p", &e).0, "open");
    e.term_program = None;
    e.macos = true;
    assert_eq!(
        resolve_launcher(None, "/s.sh", "/p", &e),
        ("open".to_string(), vec!["-a".to_string(), "Terminal".into(), "/s.sh".into()])
    );
}

#[test]
fn launcher_linux_fallbacks() {
    let mut e = env(&["foot", "konsole", "xterm"]);
    e.terminal = Some("foot".into());
    assert_eq!(
        resolve_launcher(None, "/s.sh", "/p", &e),
        ("foot".to_string(), vec!["-e".to_string(), "/s.sh".into()])
    );
    e.terminal = None;
    assert_eq!(resolve_launcher(None, "/s.sh", "/p", &e).0, "konsole");
    assert_eq!(
        resolve_launcher(None, "/s.sh", "/p", &env(&[])),
        ("/s.sh".to_string(), Vec::<String>::new())
    );
}
