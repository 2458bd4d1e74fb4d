use scrutin::github::render_file;
use scrutin::protocol::{tally_messages, Counts, Event, Message, Outcome, Subject, Summary};

fn ev(outcome: Outcome, name: &str, message: Option<&str>, line: Option<u32>, ms: u64) -> Message {
    Message::Event(Event {
        file: "f".into(),
        outcome,
        subject: Subject { kind: "function".into(), name: name.into(), parent: None },
        metrics: None,
        failures: Vec::new(),
        message: message.map(|m| m.to_string()),
        line,
        duration_ms: ms,
        corrections: Vec::new(),
    })
}

#[test]
fn github_group_lists_every_outcome() {
    let msgs = vec![
        ev(Outcome::Pass, "adds", None, None, 3),
        ev(Outcome::Fail, "divides", Some("100% wrong\nsecond line"), Some(12), 0),
        ev(Outcome::Warn, "", Some("deprecated"), None, 0),
        ev(Outcome::Skip, "later", None, None, 0),
        ev(Outcome::Xfail, "known", None, None, 0),
        Message::Summary(Summary {
            file: "f".into(),
            duration_ms: 15,
            counts: Counts { pass: 1, fail: 1, error: 0, skip: 1, xfail: 1, warn: 1 },
        }),
    ];
    let tally = tally_messages(&msgs, false);
    let lines = render_file("test_math.py", "tests/test_math.py", &msgs, &tally);
    assert_eq!(
        lines,
        vec![
            "::group::FAIL test_math.py (15ms)".to_string(),
            "  pass  adds (3ms)".to_string(),
            "::error file=tests/test_math.py,line=12::divides > 100%25 wrong".to_string(),
            "  100% wrong".to_string(),
            "  second line".to_string(),
            "::warning file=tests/test_math.py::<anon> > deprecated".to_string(),
            "  skip  later".to_string(),
            "  xfail  known".to_string(),
            "::endgroup::".to_string(),
        ]
    );
}

#[test]
fn github_group_status_words() {
    let ok = vec![ev(Outcome::Pass, "a", None, None, 0)];
    let t = tally_messages(&ok, false);
    assert_eq!(render_file("a.R", "a.R", &ok, &t), vec!["::group::OK a.R".to_string(), "  pass  a (0ms)".to_string(), "::endgroup::".to_string()]);
    let warn = vec![ev(Outcome::Warn, "w", None, Some(2), 0)];
    let t = tally_messages(&warn, false);
    assert_eq!(render_file("w.R", "r/w.R", &warn, &t)[0], "::group::WARN w.R");
    assert_eq!(render_file("w.R", "r/w.R", &warn, &t)[1], "::warning file=r/w.R,line=2::w > ");
    let t = tally_messages(&[], true);
    assert_eq!(render_file("c.R", "c.R", &[], &t), vec!["::group::CNCL c.R".to_string(), "::endgroup::".to_string()]);
}
