use scrutin::protocol::{Event, Message, Outcome, Subject};
use scrutin::reporter::{files_to_rerun, flaky_banner, fold_rerun, initial_quiet, rerun_banner, FileRecord, MaxFailGate, RerunLoop};

fn ev(outcome: Outcome, name: &str) -> Message {
    Message::Event(Event {
        file: "f".into(),
        outcome,
        subject: Subject { kind: "function".into(), name: name.into(), parent: None },
        metrics: None,
        failures: Vec::new(),
        message: None,
        line: None,
        duration_ms: 0,
        corrections: Vec::new(),
    })
}

fn msgs(outcomes: &[Outcome]) -> Vec<Message> {
    let mut v: Vec<Message> = outcomes.iter().map(|o| ev(*o, "t")).collect();
    v.push(Message::Done);
    v
}

fn rec(file: &str, outcomes: &[Outcome], cancelled: bool) -> FileRecord {
    FileRecord { file: file.into(), messages: msgs(outcomes), cancelled }
}

#[test]
fn max_fail_counts_bad_files_not_failed_expectations() {
    let mut gate = MaxFailGate::new(2);
    assert!(!gate.file_finished("a.R".into(), msgs(&[Outcome::Fail, Outcome::Fail, Outcome::Fail]), false));
    assert_eq!(gate.acc.failed_files, 1);
    assert_eq!(gate.acc.totals.failed, 3);
    assert!(!gate.file_finished("b.R".into(), msgs(&[Outcome::Pass]), false));
    assert!(gate.file_finished("c.R".into(), msgs(&[Outcome::Error]), false));
    assert!(gate.tripped);
    assert_eq!(gate.acc.failed_files, 2);
}

#[test]
fn files_arriving_after_the_stop_are_recorded_cancelled() {
    let mut gate = MaxFailGate::new(1);
    assert!(gate.file_finished("a.R".into(), msgs(&[Outcome::Fail]), false));
    assert!(!gate.file_finished("b.R".into(), msgs(&[Outcome::Fail, Outcome::Pass]), false));
    assert_eq!(gate.acc.failed_files, 1);
    assert_eq!(gate.acc.totals.failed, 1);
    assert_eq!(gate.acc.totals.passed, 0);
    let last = gate.acc.all_results.last().unwrap();
    assert_eq!(last.file, "b.R");
    assert!(last.cancelled);
    assert_eq!(last.messages.len(), 1);
    assert!(matches!(last.messages[0], Message::Done));
}

#[test]
fn max_fail_zero_never_stops() {
    let mut gate = MaxFailGate::new(0);
    for name in ["a.R", "b.R", "c.R"] {
        assert!(!gate.file_finished(name.into(), msgs(&[Outcome::Fail]), false));
    }
    assert!(!gate.tripped);
    assert_eq!(gate.acc.failed_files, 3);
}

#[test]
fn rerun_selects_failed_files_by_basename() {
    let files = vec![
        "/p/tests/test-a.R".to_string(),
        "/p/tests/test-b.R".to_string(),
        "/p/tests/test-c.R".to_string(),
    ];
    let failed = vec!["test-c.R".to_string(), "test-a.R".to_string()];
    assert_eq!(
        files_to_rerun(&files, &failed),
        vec!["/p/tests/test-a.R".to_string(), "/p/tests/test-c.R".to_string()]
    );
    assert!(files_to_rerun(&files, &[]).is_empty());
}

#[test]
fn file_passing_on_rerun_is_flaky_and_deterministic_failure_is_not() {
    let mut all = vec![
        rec("flaky.R", &[Outcome::Fail], false),
        rec("broken.R", &[Outcome::Fail], false),
        rec("ok.R", &[Outcome::Pass], false),
    ];
    let mut flaky: Vec<String> = Vec::new();
    fold_rerun(
        &mut all,
        &mut flaky,
        vec![rec("flaky.R", &[Outcome::Pass], false), rec("broken.R", &[Outcome::Fail], false)],
    );
    assert_eq!(flaky, vec!["flaky.R".to_string()]);
    assert_eq!(all.len(), 3);
    assert_eq!(all[0].file, "flaky.R");
    assert!(matches!(&all[0].messages[0], Message::Event(e) if e.outcome == Outcome::Pass));
    assert!(matches!(&all[1].messages[0], Message::Event(e) if e.outcome == Outcome::Fail));

    fold_rerun(&mut all, &mut flaky, vec![rec("flaky.R", &[Outcome::Pass], false)]);
    assert_eq!(flaky, vec!["flaky.R".to_string()], "each flaky file is listed once");
}

#[test]
fn rerun_loop_control() {
    assert!(initial_quiet(2));
    assert!(!initial_quiet(0));
    let mut l = RerunLoop::new(2);
    assert_eq!(l.next_attempt(3), Some((1, true)));
    assert_eq!(l.next_attempt(1), Some((2, false)));
    assert_eq!(l.next_attempt(1), None);
    assert!(!l.needs_final_summary());
    let mut none = RerunLoop::new(2);
    assert_eq!(none.next_attempt(0), None);
    assert!(none.needs_final_summary());
    assert!(!RerunLoop::new(0).needs_final_summary());
    assert_eq!(rerun_banner(1, 2, 3), "rerun 1/2: re-running 3 failed files");
    assert_eq!(rerun_banner(2, 2, 1), "rerun 2/2: re-running 1 failed file");
    assert_eq!(
        flaky_banner(&vec!["test_b.py".to_string(), "test_a.py".to_string()]),
        "2 files passed on rerun (flaky): test_a.py, test_b.py"
    );
}
