use scrutin::plain::{findings_report, FindingKind};
use scrutin::protocol::{Finding, Outcome};

fn finding(file: &str, test: &str, message: &str, line: Option<u32>, outcome: Outcome) -> Finding {
    Finding {
        file: file.into(),
        file_path: format!("/p/{file}"),
        test: test.into(),
        message: message.into(),
        line,
        outcome,
    }
}

#[test]
fn findings_grouped_by_file_failures_first() {
    let failed = vec![
        finding("test_b.py", "t_fail_b", "boom\nsecond", Some(4), Outcome::Fail),
        finding("test_a.py", "t_fail_a", "", None, Outcome::Error),
    ];
    let warned = vec![
        finding("test_b.py", "t_warn_b", "careful", Some(9), Outcome::Warn),
        finding("test_a.py", "t_warn_a", "", Some(1), Outcome::Warn),
    ];
    let lines = findings_report(&failed, &warned);
    assert_eq!(
        lines,
        vec![
            "".to_string(),
            "FAIL test_a.py > t_fail_a".to_string(),
            "WARN test_a.py:1 > t_warn_a".to_string(),
            "".to_string(),
            "FAIL test_b.py:4 > t_fail_b".to_string(),
            "  boom".to_string(),
            "  second".to_string(),
            "WARN test_b.py:9 > t_warn_b".to_string(),
            "  careful".to_string(),
        ]
    );
}

#[test]
fn findings_empty_prints_nothing() {
    assert!(findings_report(&[], &[]).is_empty());
}

#[test]
fn finding_kind_labels() {
    assert_eq!(FindingKind::Failure.label(), "FAIL");
    assert_eq!(FindingKind::Warning.label(), "WARN");
}
