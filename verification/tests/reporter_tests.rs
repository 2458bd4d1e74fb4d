use scrutin::protocol::{Counts, Event, Message, Outcome, Subject, Summary};
use scrutin::reporter::{
    collect_failed_files, merge_deps_inmem, replace_results, tally_messages, FileRecord,
    RunAccumulator,
};

fn ev(outcome: Outcome, name: &str, message: Option<&str>, line: Option<u32>) -> Message {
    Message::Event(Event {
        file: "f".into(),
        outcome,
        subject: Subject { kind: "function".into(), name: name.into(), parent: None },
        metrics: None,
        failures: Vec::new(),
        message: message.map(|m| m.to_string()),
        line,
        duration_ms: 0,
        corrections: Vec::new(),
    })
}

fn summary(ms: u64, counts: Counts) -> Message {
    Message::Summary(Summary { file: "f".into(), duration_ms: ms, counts })
}

#[test]
fn tally_six_outcome_taxonomy() {
    let all99 = Counts { pass: 99, fail: 99, error: 99, skip: 99, xfail: 99, warn: 99 };
    let msgs = vec![
        ev(Outcome::Pass, "a", None, None),
        ev(Outcome::Fail, "b", Some("oops"), Some(7)),
        ev(Outcome::Warn, "c", Some("deprecated"), Some(3)),
        ev(Outcome::Error, "<err>", Some("crashed"), Some(1)),
        ev(Outcome::Skip, "d", None, None),
        ev(Outcome::Xfail, "e", None, None),
        summary(42, all99),
        Message::Done,
    ];
    let mut failed = Vec::new();
    let mut warned = Vec::new();
    let (t, ms) = tally_messages(&msgs, "f", false, &mut failed, &mut warned);
    assert_eq!(t.passed, 1);
    assert_eq!(t.failed, 1);
    assert_eq!(t.errored, 1);
    assert_eq!(t.warned, 1);
    assert_eq!(t.skipped, 1);
    assert_eq!(t.xfailed, 1);
    assert!(t.bad_file, "any fail or error must mark file bad");
    assert!(!t.cancelled, "cancelled flag must come from the engine, not from messages");
    assert_eq!(ms, 42);
    assert_eq!(failed.len(), 2, "fail event + error event");
    assert_eq!(warned.len(), 1);
    assert!(failed.iter().any(|f| f.test == "<err>" && f.line == Some(1)));
}

#[test]
fn tally_xfail_and_warn_do_not_set_bad_file() {
    let msgs = vec![ev(Outcome::Xfail, "a", None, None), ev(Outcome::Warn, "b", None, None)];
    let (t, _) = tally_messages(&msgs, "f", false, &mut Vec::new(), &mut Vec::new());
    assert_eq!(t.xfailed, 1);
    assert_eq!(t.warned, 1);
    assert!(!t.bad_file);
}

#[test]
fn tally_cancelled_flag_passes_through() {
    let msgs: Vec<Message> = vec![];
    let (t, _) = tally_messages(&msgs, "f", true, &mut Vec::new(), &mut Vec::new());
    assert!(t.cancelled);
    assert_eq!(t.skipped, 0);
    assert!(!t.bad_file);
}

#[test]
fn tally_events_authoritative_over_summary_counts() {
    let msgs = vec![
        ev(Outcome::Pass, "a", None, None),
        summary(42, Counts { pass: 5, ..Default::default() }),
    ];
    let (t, ms) = tally_messages(&msgs, "f", false, &mut Vec::new(), &mut Vec::new());
    assert_eq!(t.passed, 1, "events authoritative, not summary counts");
    assert_eq!(ms, 42, "summary still provides wall time");
}

fn rec(file: &str, outcome: Outcome) -> FileRecord {
    FileRecord { file: file.into(), messages: vec![ev(outcome, "t1", None, None)], cancelled: false }
}

#[test]
fn replace_results_in_place() {
    let mut all = vec![rec("a.R", Outcome::Fail), rec("b.R", Outcome::Pass)];
    replace_results(&mut all, vec![rec("a.R", Outcome::Pass)]);
    assert_eq!(all.len(), 2, "no append on replace");
    let acc = RunAccumulator::from_results(&all);
    assert_eq!(acc.failed_files, 0);
    assert_eq!(acc.totals.passed, 2);
}

#[test]
fn replace_results_appends_unknown() {
    let mut all = vec![rec("a.R", Outcome::Pass)];
    replace_results(&mut all, vec![rec("b.R", Outcome::Fail)]);
    assert_eq!(all.len(), 2);
}

#[test]
fn from_results_matches_live_push() {
    let files = vec![rec("a.R", Outcome::Pass), rec("b.R", Outcome::Fail)];
    let acc = RunAccumulator::from_results(&files);
    assert_eq!(acc.totals.passed, 1);
    assert_eq!(acc.totals.failed, 1);
    assert_eq!(acc.failed_files, 1);
    let mut live = RunAccumulator::default();
    live.push("a.R".into(), vec![ev(Outcome::Pass, "t1", None, None)], false);
    live.push("b.R".into(), vec![ev(Outcome::Fail, "t1", None, None)], false);
    assert_eq!(live.totals, acc.totals);
    assert_eq!(live.failed_files, acc.failed_files);
    assert_eq!(live.all_results.len(), 2);
}

#[test]
fn into_stats_reports_the_last_slowest_file() {
    let mut acc = RunAccumulator::default();
    acc.push("a.R".into(), vec![summary(5, Counts::default())], false);
    acc.push("b.R".into(), vec![summary(9, Counts::default())], false);
    acc.push("c.R".into(), vec![summary(9, Counts::default())], false);
    let s = acc.into_stats(100);
    assert_eq!(s.n_files, 3);
    assert_eq!(s.elapsed_ms, 100);
    assert_eq!(s.slowest, Some(("c.R".to_string(), 9)));
}

#[test]
fn collect_failed_files_skips_cancelled_and_passing() {
    let mut cancelled = rec("c.R", Outcome::Fail);
    cancelled.cancelled = true;
    let all = vec![rec("a.R", Outcome::Fail), rec("b.R", Outcome::Pass), cancelled, rec("a.R", Outcome::Error)];
    assert_eq!(collect_failed_files(&all), vec!["a.R".to_string()]);
}

#[test]
fn merge_deps_claims_sources_and_releases_others() {
    let mut map: Vec<(String, Vec<String>)> = vec![
        ("a.R".into(), vec!["test-x.R".into(), "test-y.R".into()]),
        ("b.R".into(), vec!["test-z.R".into()]),
    ];
    merge_deps_inmem(&mut map, "test-x.R", &["b.R".to_string(), "c.R".to_string()]);
    assert_eq!(
        map,
        vec![
            ("a.R".to_string(), vec!["test-y.R".to_string()]),
            ("b.R".to_string(), vec!["test-x.R".to_string(), "test-z.R".to_string()]),
            ("c.R".to_string(), vec!["test-x.R".to_string()]),
        ]
    );
}
