use scrutin::pool::{
    pool_kind, PoolKind, StderrTail, STDERR_BUF_CAP,
    after_run, before_worker, child_failure_result, command_argv, default_workers, frame_line,
    spawn_failure_messages, timeout_messages, worker_argv, worker_env, worker_exit_error, worker_line,
    worker_timeout_error, BeforeWorker, ChildStream, PoolState, RunEnd, WorkerLine, WorkerOp,
};
use scrutin::protocol::{Message, Outcome};

fn event_message(m: &Message) -> Option<String> {
    match m {
        Message::Event(e) if e.outcome == Outcome::Error => e.message.clone(),
        _ => None,
    }
}

#[test]
fn default_worker_count_is_clamped() {
    assert_eq!(default_workers(None), 2);
    assert_eq!(default_workers(Some(1)), 2);
    assert_eq!(default_workers(Some(6)), 6);
    assert_eq!(default_workers(Some(64)), 8);
}

#[test]
fn poisoned_pool_and_cancelled_files_skip_workers() {
    let mut st = PoolState::new();
    assert!(matches!(before_worker(&st, "/p/t.R", false), BeforeWorker::TakeWorker));
    match before_worker(&st, "/p/t.R", true) {
        BeforeWorker::Skip(r) => assert!(r.cancelled),
        _ => panic!("cancelled file must be skipped"),
    }
    let out = after_run(&mut st, "/p/t.R", RunEnd::Failed("WORKER_STARTUP_FAILED: hook exit 1".into()), true);
    assert!(out.cancel_all);
    assert!(out.worker_ops.is_empty());
    assert!(st.poisoned);
    assert_eq!(st.poison_msg, "hook exit 1");
    assert_eq!(event_message(&out.result.messages[0]).as_deref(), Some("worker_startup hook failed: hook exit 1"));
    let again = after_run(&mut st, "/p/u.R", RunEnd::Failed("WORKER_STARTUP_FAILED: other".into()), true);
    assert_eq!(st.poison_msg, "hook exit 1");
    assert_eq!(event_message(&again.result.messages[0]).as_deref(), Some("worker_startup hook failed: other"));
    match before_worker(&st, "/p/v.R", false) {
        BeforeWorker::Skip(r) => {
            assert!(!r.cancelled);
            assert_eq!(event_message(&r.messages[0]).as_deref(), Some("worker_startup hook failed: hook exit 1"));
        }
        _ => panic!("poisoned pool must not hand out workers"),
    }
}

#[test]
fn run_endings_and_worker_recycling() {
    let mut st = PoolState::new();
    let done = after_run(&mut st, "/p/t.py", RunEnd::Finished(vec![Message::Done]), false);
    assert_eq!(done.worker_ops, vec![WorkerOp::Kill, WorkerOp::Respawn]);
    assert_eq!(done.result.messages.len(), 1);
    let kept = after_run(&mut st, "/p/t.py", RunEnd::Finished(vec![Message::Done]), true);
    assert!(kept.worker_ops.is_empty());
    let cancelled = after_run(&mut st, "/p/t.py", RunEnd::Cancelled, true);
    assert_eq!(cancelled.worker_ops, vec![WorkerOp::Kill, WorkerOp::Respawn]);
    assert!(cancelled.result.cancelled);
    let failed = after_run(&mut st, "/p/t.py", RunEnd::Failed("broken pipe".into()), false);
    assert_eq!(failed.worker_ops, vec![WorkerOp::Respawn, WorkerOp::Kill, WorkerOp::Respawn]);
    assert_eq!(event_message(&failed.result.messages[0]).as_deref(), Some("broken pipe"));
    assert!(!st.poisoned);
}

#[test]
fn child_stream_collects_until_done() {
    assert_eq!(frame_line("  \n"), None);
    assert_eq!(frame_line("  {\"type\":\"done\"}\n").as_deref(), Some("{\"type\":\"done\"}"));
    let mut s = ChildStream::new();
    assert!(s.take_line(None));
    assert!(!s.take_line(Some(Message::Done)));
    assert_eq!(s.finish().len(), 1);
    let open = ChildStream::new();
    let msgs = open.finish();
    assert!(matches!(msgs.as_slice(), [Message::Done]));
}

#[test]
fn command_failures() {
    assert_eq!(command_argv(&vec!["ruff".into(), "check".into()], "/p/a.py"), vec!["ruff", "check", "/p/a.py"]);
    let m = spawn_failure_messages("a.py", "ruff", "No such file or directory");
    assert_eq!(
        event_message(&m[0]).as_deref(),
        Some("failed to spawn ruff (No such file or directory). Is it installed and on PATH?")
    );
    let t = timeout_messages("a.py", 30);
    assert_eq!(event_message(&t[0]).as_deref(), Some("timeout after 30s"));
    assert!(matches!(t[1], Message::Done));
    let c = child_failure_result("/p/t.R", "timeout waiting for child TCP connection", false);
    assert_eq!(event_message(&c.messages[0]).as_deref(), Some("timeout waiting for child TCP connection"));
    assert!(child_failure_result("/p/t.R", "x", true).cancelled);
}

#[test]
fn worker_argv_swaps_python_interpreter() {
    let base = vec!["python3".to_string(), "-u".to_string(), "/c/runner.py".to_string()];
    let interp = vec!["uv".to_string(), "run".to_string(), "python".to_string()];
    assert_eq!(worker_argv("pytest", "python", &base, &interp).unwrap(), vec!["uv", "run", "python", "-u", "/c/runner.py"]);
    assert_eq!(worker_argv("pytest", "python", &base, &Vec::new()).unwrap(), base);
    let r = vec!["Rscript".to_string(), "--vanilla".to_string(), "/c/r.R".to_string()];
    assert_eq!(worker_argv("testthat", "r", &r, &interp).unwrap(), r);
    assert_eq!(worker_argv("x", "r", &Vec::new(), &interp).unwrap_err(), "tool x returned empty subprocess command");
}

#[test]
fn worker_env_order_user_last() {
    let p = |k: &str, v: &str| (k.to_string(), v.to_string());
    let env = worker_env(
        &vec![p("SCRUTIN_TOOL", "pytest")],
        "python",
        Some("install"),
        &vec![p("R_LIBS_USER", "/tmp/lib")],
        Some("/p/start.sh"),
        None,
        &vec!["--tb=short".to_string(), "-vv".to_string()],
        Some(4242),
        &vec![p("SCRUTIN_TOOL", "mine")],
    );
    assert_eq!(
        env,
        vec![
            p("SCRUTIN_TOOL", "pytest"),
            p("R_LIBS_USER", "/tmp/lib"),
            p("SCRUTIN_WORKER_STARTUP", "/p/start.sh"),
            p("SCRUTIN_PYTEST_EXTRA_ARGS", "[\"--tb=short\",\"-vv\"]"),
            p("SCRUTIN_TCP_PORT", "4242"),
            p("SCRUTIN_TOOL", "mine"),
        ]
    );
    let r_env = worker_env(&Vec::new(), "r", Some("library"), &Vec::new(), None, None, &Vec::new(), None, &Vec::new());
    assert_eq!(r_env, vec![p("SCRUTIN_LOAD_STRATEGY", "library")]);
}

#[test]
fn worker_lines_and_errors() {
    let mut msgs: Vec<Message> = Vec::new();
    assert!(matches!(worker_line(&mut msgs, None), WorkerLine::More));
    let hook = scrutin::protocol::Event::engine_error("<worker_startup>".into(), "hook exit 2".into());
    match worker_line(&mut msgs, Some(Message::Event(hook))) {
        WorkerLine::StartupFailed(t) => assert_eq!(t, "WORKER_STARTUP_FAILED: hook exit 2"),
        other => panic!("expected a startup failure, got {other:?}"),
    }
    assert!(msgs.is_empty());
    assert!(matches!(worker_line(&mut msgs, Some(Message::Done)), WorkerLine::Complete));
    assert_eq!(msgs.len(), 1);
    assert_eq!(
        worker_exit_error("/p/t.R", "EOF", "  \n"),
        "Subprocess exited unexpectedly while running /p/t.R (EOF)"
    );
    assert_eq!(
        worker_exit_error("/p/t.R", "EOF", "Error in f()\n"),
        "Subprocess exited unexpectedly while running /p/t.R\n--- stderr ---\nError in f()"
    );
    assert_eq!(worker_timeout_error(60, "/p/t.R"), "Timeout after 60s running /p/t.R");
}

#[test]
fn pool_kind_choice() {
    assert_eq!(pool_kind(true, true, false), PoolKind::Command);
    assert_eq!(pool_kind(false, true, false), PoolKind::Fork);
    assert_eq!(pool_kind(false, true, true), PoolKind::Worker);
    assert_eq!(pool_kind(false, false, false), PoolKind::Worker);
}

#[test]
fn stderr_tail_keeps_last_bytes_on_char_boundary() {
    let mut t = StderrTail::new();
    t.push_line("hello");
    assert_eq!(t.contents(), "hello\n");
    let long = "é".repeat(5000); // 10000 bytes
    t.push_line(&long);
    let c = t.contents();
    assert!(c.len() <= STDERR_BUF_CAP);
    assert!(c.len() >= STDERR_BUF_CAP - 1);
    assert!(c.ends_with("é\n"));
    assert!(c.chars().all(|ch| ch == 'é' || ch == '\n'));
}

#[test]
fn pytest_args_json_escaping() {
    let env = worker_env(&Vec::new(), "python", None, &Vec::new(), None, None,
        &vec!["a\"b\\c".to_string(), "x\ty\u{1}".to_string()], None, &Vec::new());
    assert_eq!(env[0].1, "[\"a\\\"b\\\\c\",\"x\\ty\\u0001\"]");
}
