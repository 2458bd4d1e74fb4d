use scrutin::protocol::{Deps, Message, Outcome};
use scrutin::reporter::{merge_deps_from_results, FileRecord};
use scrutin::run_events::{cancelled_result, startup_error_result, FileResult};

#[test]
fn file_result_deps_takes_first_observation() {
    let r = FileResult {
        file: "/p/tests/test-a.R".into(),
        messages: vec![
            Message::Done,
            Message::Deps(Deps { file: "test-a.R".into(), sources: vec!["R/a.R".into(), "R/b.R".into()] }),
            Message::Deps(Deps { file: "other".into(), sources: vec![] }),
        ],
        cancelled: false,
    };
    assert_eq!(r.deps(), Some(("test-a.R".to_string(), vec!["R/a.R".to_string(), "R/b.R".to_string()])));
    let none = FileResult { file: "x".into(), messages: vec![Message::Done], cancelled: false };
    assert_eq!(none.deps(), None);
}

#[test]
fn engine_made_results() {
    let r = startup_error_result("/p/tests/test_a.py", "exit 3");
    assert_eq!(r.file, "/p/tests/test_a.py");
    assert!(!r.cancelled);
    match &r.messages[0] {
        Message::Event(e) => {
            assert_eq!(e.outcome, Outcome::Error);
            assert_eq!(e.file, "test_a.py");
            assert_eq!(e.subject.name, "<error>");
            assert_eq!(e.message.as_deref(), Some("worker_startup hook failed: exit 3"));
        }
        other => panic!("expected an event, got {other:?}"),
    }
    assert!(matches!(r.messages[1], Message::Done));
    let c = cancelled_result("/p/t.R");
    assert!(c.cancelled);
    assert_eq!(c.messages.len(), 1);
}

#[test]
fn merge_deps_from_results_applies_observations_in_order() {
    let mut map: Vec<(String, Vec<String>)> = vec![("R/old.R".into(), vec!["test-a.R".into()])];
    let results = vec![
        FileRecord {
            file: "test-a.R".into(),
            messages: vec![
                Message::Deps(Deps { file: "test-a.R".into(), sources: vec!["R/a.R".into()] }),
                Message::Done,
            ],
            cancelled: false,
        },
        FileRecord { file: "test-b.R".into(), messages: vec![Message::Done], cancelled: false },
    ];
    let obs = merge_deps_from_results(&mut map, &results);
    assert_eq!(obs, vec![("test-a.R".to_string(), vec!["R/a.R".to_string()])]);
    assert_eq!(
        map,
        vec![("R/old.R".to_string(), vec![]), ("R/a.R".to_string(), vec!["test-a.R".to_string()])]
    );
}

#[test]
fn partition_routes_each_file_to_its_first_owner() {
    use_partition();
}

fn use_partition() {
    let tt = scrutin::registry::plugin_by_name("testthat").unwrap();
    let py = scrutin::registry::plugin_by_name("pytest").unwrap();
    let routes = vec![
        scrutin::package::SuiteRoute { plugin: tt, run: vec!["/repo/tests/**/test-*.R".into()], explicit_files: false },
        scrutin::package::SuiteRoute { plugin: py, run: vec!["/repo/tests/**/test_*.py".into()], explicit_files: false },
    ];
    let files: Vec<String> = vec![
        "/repo/tests/test_b.py".into(),
        "/repo/tests/test-a.R".into(),
        "/repo/docs/x.md".into(),
        "/repo/tests/test_c.py".into(),
    ];
    let (buckets, orphans) = scrutin::run_events::partition_files(&routes, &files);
    assert_eq!(buckets, vec![vec!["/repo/tests/test-a.R".to_string()], vec!["/repo/tests/test_b.py".to_string(), "/repo/tests/test_c.py".to_string()]]);
    assert_eq!(orphans, vec!["/repo/docs/x.md".to_string()]);
    assert_eq!(scrutin::run_events::orphan_warning("/repo/docs/x.md"), "warning: no suite owns /repo/docs/x.md; skipping");
}

#[test]
fn r_install_failure_results_and_buckets() {
    use_install();
}

fn use_install() {
    assert_eq!(
        scrutin::run_events::install_argv("/tmp/lib", "/p"),
        vec!["R", "CMD", "INSTALL", "--no-multiarch", "--no-test-load", "--library=/tmp/lib", "/p"]
    );
    assert_eq!(scrutin::run_events::install_error("exit status: 1", b"a\nb\n", b"out"), "exit exit status: 1\na\nb");
    assert_eq!(scrutin::run_events::install_error("exit status: 1", b"", b"out"), "exit exit status: 1\nout");
    let files = vec!["/p/tests/testthat/test-a.R".to_string()];
    let rs = scrutin::run_events::install_failure_results("testthat", "boom", &files);
    assert_eq!(rs.len(), 1);
    assert_eq!(rs[0].messages.len(), 1);
    match &rs[0].messages[0] {
        Message::Event(e) => {
            assert_eq!(e.file, "test-a.R");
            assert_eq!(e.message.as_deref(), Some("R CMD INSTALL failed for suite 'testthat': boom"));
        }
        other => panic!("unexpected {other:?}"),
    }
    let mut buckets = vec![vec!["a".to_string()], vec!["b".to_string()]];
    scrutin::run_events::drop_failed_buckets(&mut buckets, &[true, false]);
    assert_eq!(buckets, vec![vec![], vec!["b".to_string()]]);
}
