use scrutin::protocol::{Counts, Event, Message, Outcome, Subject, Summary};
use scrutin::report::{classname_for, render_report, render_suite, write_cdata, xml_escape_into};

fn ev(
    file: &str,
    outcome: Outcome,
    name: &str,
    message: Option<&str>,
    line: Option<u32>,
    duration_ms: u64,
) -> Message {
    Message::Event(Event {
        file: file.into(),
        outcome,
        subject: Subject { kind: "function".into(), name: name.into(), parent: None },
        metrics: None,
        failures: Vec::new(),
        message: message.map(|m| m.to_string()),
        line,
        duration_ms,
        corrections: Vec::new(),
    })
}

fn summary(file: &str, duration_ms: u64, counts: Counts) -> Message {
    Message::Summary(Summary { file: file.into(), duration_ms, counts })
}

#[test]
fn renders_pass_fail_skip_error_xfail() {
    let msgs = vec![
        ev("f.R", Outcome::Pass, "adds", None, None, 5),
        ev("f.R", Outcome::Fail, "sub", Some("expected 2 got 6"), Some(10), 3),
        ev("f.R", Outcome::Skip, "net", Some("offline"), None, 0),
        ev("f.R", Outcome::Error, "<crash>", Some("crash"), None, 1),
        ev("f.R", Outcome::Xfail, "wip", Some("known broken"), None, 0),
        summary(
            "f.R",
            42,
            Counts { pass: 1, fail: 1, error: 1, skip: 1, xfail: 1, warn: 0 },
        ),
    ];
    let suite = render_suite("f.R", &msgs, false);
    assert_eq!(suite.counts.tests, 5);
    assert_eq!(suite.counts.failures, 1);
    assert_eq!(suite.counts.errors, 1);
    assert_eq!(suite.counts.skipped, 2);
    assert!(suite.xml.contains("classname=\"f\""));
    assert!(suite.xml.contains("name=\"adds\""));
    assert!(suite.xml.contains("<failure message=\"expected 2 got 6\""));
    assert!(suite.xml.contains("type=\"failure\""));
    assert!(suite.xml.contains("<![CDATA[expected 2 got 6]]>"));
    assert!(suite.xml.contains("<skipped message=\"offline\""));
    assert!(suite.xml.contains("<skipped message=\"expected\""));
    assert!(suite.xml.contains("<error message=\"crash\""));
    assert!(suite.xml.contains("type=\"error\""));
    assert!(suite.xml.contains("time=\"0.042\""));
}

#[test]
fn warn_outcome_drops_silently_no_testcase() {
    let msgs = vec![
        ev("f.R", Outcome::Pass, "a", None, None, 0),
        ev("f.R", Outcome::Warn, "b", Some("deprecated"), None, 0),
    ];
    let suite = render_suite("f.R", &msgs, false);
    assert_eq!(suite.counts.tests, 1);
    assert!(!suite.xml.contains("name=\"b\""));
}

#[test]
fn xml_escapes_special_chars_in_attributes() {
    let msgs = vec![ev("f.R", Outcome::Fail, "a < b & c", Some("x > y"), None, 0)];
    let suite = render_suite("f.R", &msgs, false);
    assert!(suite.xml.contains("name=\"a &lt; b &amp; c\""));
    assert!(suite.xml.contains("&gt;"));
    assert!(!suite.xml.contains(" & "));
}

#[test]
fn empty_subject_name_falls_back_to_anon_with_counter() {
    let msgs = vec![ev("f.R", Outcome::Pass, "", None, Some(7), 0)];
    let suite = render_suite("f.R", &msgs, false);
    assert_eq!(suite.counts.tests, 1);
    assert!(suite.xml.contains("name=\"anon line 7 #1\""));
}

#[test]
fn anon_names_on_same_line_do_not_collide() {
    let msgs = vec![
        ev("f.R", Outcome::Pass, "", None, Some(7), 0),
        ev("f.R", Outcome::Pass, "", None, Some(7), 0),
    ];
    let suite = render_suite("f.R", &msgs, false);
    assert!(suite.xml.contains("name=\"anon line 7 #1\""));
    assert!(suite.xml.contains("name=\"anon line 7 #2\""));
}

#[test]
fn renders_flaky_property_when_file_in_set() {
    let msgs = vec![ev("f.R", Outcome::Pass, "t1", None, None, 0)];
    let suite = render_suite("f.R", &msgs, true);
    assert!(suite.xml.contains("<property name=\"scrutin.flaky\" value=\"true\""));
}

#[test]
fn classname_handles_dotted_filenames() {
    assert_eq!(classname_for("test_foo.bar.py"), "test_foo.bar");
    assert_eq!(classname_for("Dockerfile"), "Dockerfile");
    assert_eq!(classname_for(".hidden"), ".hidden");
    assert_eq!(classname_for("test-math.R"), "test-math");
}

#[test]
fn strips_xml_disallowed_codepoints() {
    let body = "before\u{0000}\u{FFFE}\u{FFFF}after\n\tline2";
    let mut buf = String::new();
    xml_escape_into(&mut buf, body);
    assert_eq!(buf, "beforeafter\n\tline2");
}

#[test]
fn cdata_splits_terminator_in_body() {
    let mut out = String::new();
    write_cdata(&mut out, "before]]>after");
    assert_eq!(out, "<![CDATA[before]]]]><![CDATA[>after]]>");
}

#[test]
fn renders_metadata_properties_block() {
    let suites = vec![(
        "test-a.R".to_string(),
        vec![ev("test-a.R", Outcome::Pass, "t1", None, None, 0)],
    )];
    let mut md = scrutin::metadata::RunMetadata::default();
    md.provenance.scrutin_version = "0.0.1-test".into();
    md.provenance.git_commit = Some("abcdef".into());
    md.provenance.os_platform = Some("linux".into());
    md.labels.push(("build".into(), "4521".into()));
    let contents = render_report(&suites, "0.100", &[], Some(&md));
    assert!(contents.contains("<properties>"));
    assert!(contents.contains("<property name=\"git.sha\" value=\"abcdef\""));
    assert!(contents.contains("<property name=\"os\" value=\"linux\""));
    assert!(contents.contains("<property name=\"build\" value=\"4521\""));
}

#[test]
fn write_report_creates_file_with_aggregate_totals() {
    let suites = vec![
        (
            "test-a.R".to_string(),
            vec![
                ev("test-a.R", Outcome::Pass, "t1", None, None, 1),
                ev("test-a.R", Outcome::Fail, "t2", Some("nope"), None, 1),
                summary("test-a.R", 10, Counts { pass: 1, fail: 1, ..Default::default() }),
            ],
        ),
        (
            "test-b.R".to_string(),
            vec![
                ev("test-b.R", Outcome::Skip, "t3", Some("todo"), None, 0),
                summary("test-b.R", 2, Counts { skip: 1, ..Default::default() }),
            ],
        ),
    ];
    let contents = render_report(&suites, "0.500", &[], None);
    assert!(contents.contains(
        "<testsuites name=\"scrutin\" tests=\"3\" failures=\"1\" errors=\"0\" skipped=\"1\" time=\"0.500\""
    ));
    assert!(contents.contains("<testsuite name=\"test-a.R\""));
    assert!(contents.contains("<testsuite name=\"test-b.R\""));
}

#[test]
fn secs_string_renders_milliseconds_with_three_decimals() {
    assert_eq!(scrutin::report::secs_string(42), "0.042");
    assert_eq!(scrutin::report::secs_string(1500), "1.500");
    assert_eq!(scrutin::report::secs_string(0), "0.000");
}
