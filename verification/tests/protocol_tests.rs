use scrutin::protocol::{
    collect_findings, process_events, tally_messages, Counts, Event, FileStatus, Message, Metrics,
    Outcome, ProcessedEvent, Subject, Summary,
};

fn counts() -> Counts {
    Counts::default()
}

#[test]
fn rank_orders_bad_outcomes_first() {
    assert_eq!(Outcome::Fail.rank(), 0);
    assert_eq!(Outcome::Error.rank(), 1);
    assert_eq!(Outcome::Warn.rank(), 2);
    assert_eq!(Outcome::Pass.rank(), 3);
    assert_eq!(Outcome::Skip.rank(), 4);
    assert_eq!(Outcome::Xfail.rank(), 5);
}

#[test]
fn all_by_rank_is_sorted_by_rank() {
    let ordered = Outcome::all_by_rank();
    let ranks: Vec<u8> = ordered.iter().map(|o| o.rank()).collect();
    let mut sorted = ranks.clone();
    sorted.sort();
    assert_eq!(ranks, sorted);
    assert_eq!(ordered.len(), 6);
}

#[test]
fn counts_bump_targets_correct_field() {
    let mut c = counts();
    c.bump(Outcome::Pass);
    c.bump(Outcome::Pass);
    c.bump(Outcome::Fail);
    c.bump(Outcome::Error);
    c.bump(Outcome::Skip);
    c.bump(Outcome::Xfail);
    c.bump(Outcome::Warn);
    assert_eq!(c.pass, 2);
    assert_eq!(c.fail, 1);
    assert_eq!(c.error, 1);
    assert_eq!(c.skip, 1);
    assert_eq!(c.xfail, 1);
    assert_eq!(c.warn, 1);
}

#[test]
fn counts_bad_rule() {
    assert!(!Counts::default().bad());
    assert!(Counts { fail: 1, ..Default::default() }.bad());
    assert!(Counts { error: 1, ..Default::default() }.bad());
    assert!(Counts { fail: 1, error: 1, ..Default::default() }.bad());
    assert!(!Counts { warn: 5, ..Default::default() }.bad());
    assert!(!Counts { pass: 10, skip: 2, xfail: 1, ..Default::default() }.bad());
}

#[test]
fn counts_merge_sums_fields() {
    let mut a = Counts { pass: 1, fail: 2, ..Default::default() };
    let b = Counts { pass: 3, error: 4, warn: 1, ..Default::default() };
    a.merge(&b);
    assert_eq!(a.pass, 4);
    assert_eq!(a.fail, 2);
    assert_eq!(a.error, 4);
    assert_eq!(a.warn, 1);
}

#[test]
fn counts_saturating_sub_clamps_at_zero() {
    let mut a = Counts { pass: 3, fail: 1, ..Default::default() };
    let b = Counts { pass: 5, fail: 1, error: 2, ..Default::default() };
    a.saturating_sub(&b);
    assert_eq!(a.pass, 0, "3 - 5 must clamp to 0, not underflow");
    assert_eq!(a.fail, 0);
    assert_eq!(a.error, 0, "0 - 2 must clamp to 0");
}

#[test]
fn filestatus_cancelled_wins() {
    let counts = Counts { pass: 3, ..Default::default() };
    assert_eq!(FileStatus::from_counts(&counts, true), FileStatus::Cancelled);
}

#[test]
fn filestatus_error_and_fail_both_map_to_failed() {
    let only_error = Counts { error: 1, ..Default::default() };
    let only_fail = Counts { fail: 1, ..Default::default() };
    let both = Counts { fail: 1, error: 1, ..Default::default() };
    assert_eq!(FileStatus::from_counts(&only_error, false), FileStatus::Failed);
    assert_eq!(FileStatus::from_counts(&only_fail, false), FileStatus::Failed);
    assert_eq!(FileStatus::from_counts(&both, false), FileStatus::Failed);
}

#[test]
fn filestatus_pass_xfail_warn_map_to_passed() {
    let pass_only = Counts { pass: 1, ..Default::default() };
    let xfail_only = Counts { xfail: 1, ..Default::default() };
    let warn_only = Counts { warn: 1, ..Default::default() };
    assert_eq!(FileStatus::from_counts(&pass_only, false), FileStatus::Passed);
    assert_eq!(FileStatus::from_counts(&xfail_only, false), FileStatus::Passed);
    assert_eq!(FileStatus::from_counts(&warn_only, false), FileStatus::Passed);
}

#[test]
fn filestatus_skip_only_is_skipped() {
    let c = Counts { skip: 3, ..Default::default() };
    assert_eq!(FileStatus::from_counts(&c, false), FileStatus::Skipped);
}

#[test]
fn filestatus_empty_is_pending() {
    assert_eq!(FileStatus::from_counts(&Counts::default(), false), FileStatus::Pending);
}

fn event_msg(outcome: Outcome) -> Message {
    Message::Event(Event {
        file: "f".into(),
        outcome,
        subject: Subject { kind: "function".into(), name: "x".into(), parent: None },
        metrics: None,
        failures: Vec::new(),
        message: None,
        line: None,
        duration_ms: 5,
        corrections: Vec::new(),
    })
}

fn summary_msg(duration_ms: u64, counts: Counts) -> Message {
    Message::Summary(Summary { file: "f".into(), duration_ms, counts })
}

#[test]
fn tally_counts_come_from_events_not_summary() {
    let bogus_counts = Counts { pass: 99, fail: 99, ..Default::default() };
    let msgs = vec![
        event_msg(Outcome::Pass),
        event_msg(Outcome::Pass),
        event_msg(Outcome::Fail),
        summary_msg(42, bogus_counts),
        Message::Done,
    ];
    let tally = tally_messages(&msgs, false);
    assert_eq!(tally.counts.pass, 2);
    assert_eq!(tally.counts.fail, 1);
    assert_eq!(tally.duration_ms, 42);
    assert_eq!(tally.status, FileStatus::Failed);
    assert!(tally.bad);
    assert!(!tally.warned);
}

#[test]
fn tally_accumulates_events_across_batches() {
    let msgs = vec![
        event_msg(Outcome::Pass),
        event_msg(Outcome::Pass),
        event_msg(Outcome::Pass),
        summary_msg(10, Counts::default()),
        Message::Done,
    ];
    let tally = tally_messages(&msgs, false);
    assert_eq!(tally.counts.pass, 3);
}

#[test]
fn tally_without_summary_has_zero_duration() {
    let msgs = vec![event_msg(Outcome::Pass), event_msg(Outcome::Fail)];
    let tally = tally_messages(&msgs, false);
    assert_eq!(tally.counts.pass, 1);
    assert_eq!(tally.counts.fail, 1);
    assert_eq!(tally.duration_ms, 0);
    assert_eq!(tally.status, FileStatus::Failed);
}

#[test]
fn tally_cancelled_wins_over_status() {
    let msgs = vec![event_msg(Outcome::Pass), event_msg(Outcome::Pass)];
    let tally = tally_messages(&msgs, true);
    assert_eq!(tally.status, FileStatus::Cancelled);
}

#[test]
fn tally_warned_field_tracks_warn_count() {
    let msgs = vec![event_msg(Outcome::Pass), event_msg(Outcome::Warn)];
    let tally = tally_messages(&msgs, false);
    assert!(tally.warned);
    assert!(!tally.bad, "warn alone is not bad");
    assert_eq!(tally.status, FileStatus::Passed);
}

#[test]
fn collect_findings_splits_failures_and_warnings() {
    let msgs = vec![
        event_msg(Outcome::Pass),
        event_msg(Outcome::Fail),
        event_msg(Outcome::Error),
        event_msg(Outcome::Warn),
        event_msg(Outcome::Skip),
        event_msg(Outcome::Xfail),
    ];
    let (failures, warnings) = collect_findings(&msgs, "f.R", "f.R");
    assert_eq!(failures.len(), 2, "fail + error are failures");
    assert_eq!(warnings.len(), 1, "warn is a warning");
    assert!(failures.iter().any(|f| f.outcome == Outcome::Fail));
    assert!(failures.iter().any(|f| f.outcome == Outcome::Error));
    assert_eq!(warnings[0].outcome, Outcome::Warn);
    assert_eq!(failures[0].file_path, "f.R");
}

#[test]
fn process_events_falls_back_to_anon_for_empty_name() {
    let anon_event = Event {
        file: "f".into(),
        outcome: Outcome::Pass,
        subject: Subject { kind: "function".into(), name: String::new(), parent: None },
        metrics: None,
        failures: Vec::new(),
        message: None,
        line: None,
        duration_ms: 0,
        corrections: Vec::new(),
    };
    let processed = process_events(&[Message::Event(anon_event)]);
    assert_eq!(processed.len(), 1);
    assert_eq!(processed[0].name, "<anon>");
}

#[test]
fn process_events_is_bad_matches_fail_or_error() {
    let pe = |outcome| ProcessedEvent {
        name: "x".into(),
        outcome,
        message: String::new(),
        line: None,
        duration_ms: 0,
        corrections: Vec::new(),
    };
    assert!(pe(Outcome::Fail).is_bad());
    assert!(pe(Outcome::Error).is_bad());
    assert!(!pe(Outcome::Pass).is_bad());
    assert!(!pe(Outcome::Skip).is_bad());
    assert!(!pe(Outcome::Xfail).is_bad());
    assert!(!pe(Outcome::Warn).is_bad(), "warn is not bad");
}

/// Metrics as a worker reports them: the failure fraction, when present,
/// is rendered as a percentage with two decimals; otherwise it is computed
/// from the counts (0 for a zero total).
fn metrics(total: Option<u64>, failed: Option<u64>, fraction: Option<f64>) -> Metrics {
    let percent = match (total, failed) {
        (Some(t), Some(f)) => {
            let frac = fraction.unwrap_or(if t == 0 { 0.0 } else { f as f64 / t as f64 });
            Some(format!("{:.2}", frac * 100.0))
        }
        _ => None,
    };
    Metrics { total, failed, percent, observed: None }
}

#[test]
fn metrics_summary_uses_fraction_when_present() {
    let m = metrics(Some(1000), Some(7), Some(0.007));
    assert_eq!(m.display_summary().as_deref(), Some("7 of 1000 failed (0.70%)"));
}

#[test]
fn metrics_summary_computes_fraction_when_missing() {
    let m = metrics(Some(200), Some(1), None);
    assert_eq!(m.display_summary().as_deref(), Some("1 of 200 failed (0.50%)"));
}

#[test]
fn metrics_summary_handles_zero_total() {
    let m = metrics(Some(0), Some(0), None);
    assert_eq!(m.display_summary().as_deref(), Some("0 of 0 failed (0.00%)"));
}

#[test]
fn metrics_summary_is_none_when_nothing_quantitative() {
    let m = metrics(None, None, None);
    assert!(m.display_summary().is_none());
}

#[test]
fn engine_error_event_is_an_error_from_the_engine() {
    let e = Event::engine_error("f.R".into(), "timed out".into());
    assert_eq!(e.outcome, Outcome::Error);
    assert_eq!(e.subject.kind, "engine");
    assert_eq!(e.display_body(), "timed out");
}

#[test]
fn file_display_name_is_the_basename() {
    assert_eq!(scrutin::protocol::file_display_name("/a/b/test-x.R"), "test-x.R");
    assert_eq!(scrutin::protocol::file_display_name("test-y.R"), "test-y.R");
}
