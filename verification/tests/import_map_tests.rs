use scrutin::python::import_map::{build_import_map, close_over};

fn f(path: &str, contents: &str) -> (String, Option<String>) {
    (path.to_string(), Some(contents.to_string()))
}

fn lookup<'a>(m: &'a [(String, Vec<String>)], key: &str) -> Option<&'a Vec<String>> {
    m.iter().find(|(k, _)| k == key).map(|(_, v)| v)
}

#[test]
fn transitive_imports_reach_tests_and_keys_are_root_relative() {
    let files = vec![
        f("/p/pkg/__init__.py", ""),
        f("/p/pkg/core.py", "import os\n"),
        f("/p/pkg/helpers.py", "from pkg import core\n"),
        f("/p/tests/test_x.py", "from pkg.helpers import thing\n"),
        f("/p/tests/test_y.py", "import pkg.core\n"),
    ];
    let tests = vec![
        f("/p/tests/test_x.py", "from pkg.helpers import thing\n"),
        f("/p/tests/test_y.py", "import pkg.core\n"),
    ];
    let m = build_import_map("/p", &files, &tests);
    assert_eq!(
        lookup(&m, "pkg/core.py"),
        Some(&vec!["test_x.py".to_string(), "test_y.py".to_string()])
    );
    assert_eq!(lookup(&m, "pkg/helpers.py"), Some(&vec!["test_x.py".to_string()]));
    assert!(lookup(&m, "tests/test_x.py").is_none(), "tests are never sources");
    for (_, v) in &m {
        assert!(!v.is_empty());
        let mut sorted = v.clone();
        sorted.sort();
        sorted.dedup();
        assert_eq!(&sorted, v);
    }
}

#[test]
fn import_cycles_terminate_and_unreadable_tests_claim_nothing() {
    let files = vec![
        f("/p/a.py", "import b\n"),
        f("/p/b.py", "import a\n"),
        f("/p/test_a.py", "import a\n"),
    ];
    let tests = vec![f("/p/test_a.py", "import a\n"), ("/p/test_gone.py".to_string(), None)];
    let m = build_import_map("/p", &files, &tests);
    assert_eq!(lookup(&m, "a.py"), Some(&vec!["test_a.py".to_string()]));
    assert_eq!(lookup(&m, "b.py"), Some(&vec!["test_a.py".to_string()]));
    assert_eq!(m.len(), 2);
}

#[test]
fn closure_follows_edges_and_keeps_start() {
    let g = vec![
        ("a".to_string(), vec!["b".to_string()]),
        ("b".to_string(), vec!["c".to_string(), "a".to_string()]),
        ("d".to_string(), vec!["e".to_string()]),
    ];
    let mut r = close_over(&g, vec!["a".to_string()]);
    r.sort();
    assert_eq!(r, vec!["a".to_string(), "b".to_string(), "c".to_string()]);
    let r = close_over(&g, vec!["z".to_string()]);
    assert_eq!(r, vec!["z".to_string()]);
}
