use scrutin::python::imports::{file_to_module, resolve_imports, scan_imports_str, Import};
use scrutin::python::py_is_test_filename;

fn idx(pairs: &[(&str, &str)]) -> Vec<(String, String)> {
    pairs.iter().map(|(m, p)| (m.to_string(), p.to_string())).collect()
}

#[test]
fn file_to_module_flat_layout() {
    assert_eq!(file_to_module("/r", "/r/pkg/foo.py"), Some("pkg.foo".into()));
}

#[test]
fn file_to_module_src_layout_strips_leading_src() {
    assert_eq!(file_to_module("/r", "/r/src/pkg/foo.py"), Some("pkg.foo".into()));
}

#[test]
fn file_to_module_init_drops_filename() {
    assert_eq!(file_to_module("/r", "/r/pkg/sub/__init__.py"), Some("pkg.sub".into()));
}

#[test]
fn file_to_module_top_level_init_returns_none() {
    assert_eq!(file_to_module("/r", "/r/__init__.py"), None);
}

#[test]
fn file_to_module_outside_root_is_none() {
    assert_eq!(file_to_module("/r", "/elsewhere/pkg/foo.py"), None);
}

#[test]
fn scan_plain_import() {
    let v = scan_imports_str("import foo");
    assert_eq!(v, vec![Import::Absolute("foo".into())]);
}

#[test]
fn scan_dotted_and_aliased() {
    let v = scan_imports_str("import foo.bar, baz as b");
    assert_eq!(v, vec![Import::Absolute("foo.bar".into()), Import::Absolute("baz".into())]);
}

#[test]
fn scan_from_with_symbols() {
    let v = scan_imports_str("from foo.bar import a, b as c");
    assert_eq!(
        v,
        vec![Import::FromAbsolute {
            module: "foo.bar".into(),
            symbols: vec!["a".into(), "b".into()],
        }]
    );
}

#[test]
fn scan_from_relative() {
    let v = scan_imports_str("from .types import X");
    assert_eq!(
        v,
        vec![Import::Relative { dots: 1, tail: "types".into(), symbols: vec!["X".into()] }]
    );
}

#[test]
fn scan_from_relative_double_dot() {
    let v = scan_imports_str("from .. import siblings");
    assert_eq!(
        v,
        vec![Import::Relative { dots: 2, tail: "".into(), symbols: vec!["siblings".into()] }]
    );
}

#[test]
fn scan_strips_inline_comment() {
    let v = scan_imports_str("import foo  # noqa: F401");
    assert_eq!(v, vec![Import::Absolute("foo".into())]);
}

#[test]
fn scan_skips_imports_inside_docstring() {
    let src = "\"\"\"Module doc.\nfrom foo import bar\n\"\"\"\nimport real_one\n";
    let v = scan_imports_str(src);
    assert_eq!(v, vec![Import::Absolute("real_one".into())]);
}

#[test]
fn scan_indented_import_under_type_checking() {
    let v = scan_imports_str("if TYPE_CHECKING:\n    from .types import X");
    assert_eq!(
        v,
        vec![Import::Relative { dots: 1, tail: "types".into(), symbols: vec!["X".into()] }]
    );
}

#[test]
fn resolve_from_absolute_module_hit() {
    let m = idx(&[("pkg.bar", "/r/pkg/bar.py")]);
    let v = resolve_imports(
        "/r/tests/test_x.py",
        "/r",
        &[Import::FromAbsolute { module: "pkg.bar".into(), symbols: vec!["thing".into()] }],
        &m,
    );
    assert!(v.contains(&"/r/pkg/bar.py".to_string()));
}

#[test]
fn resolve_from_absolute_submodule_hit() {
    let m = idx(&[("pkg.bar.baz", "/r/pkg/bar/baz.py")]);
    let v = resolve_imports(
        "/r/tests/test_x.py",
        "/r",
        &[Import::FromAbsolute { module: "pkg.bar".into(), symbols: vec!["baz".into()] }],
        &m,
    );
    assert!(v.contains(&"/r/pkg/bar/baz.py".to_string()), "found: {:?}", v);
}

#[test]
fn resolve_relative_one_dot_resolves_to_sibling() {
    let m = idx(&[("pkg.tests.types", "/r/pkg/tests/types.py")]);
    let v = resolve_imports(
        "/r/pkg/tests/test_x.py",
        "/r",
        &[Import::Relative { dots: 1, tail: "types".into(), symbols: vec!["X".into()] }],
        &m,
    );
    assert!(v.contains(&"/r/pkg/tests/types.py".to_string()));
}

#[test]
fn resolve_relative_two_dots_goes_one_level_up() {
    let m = idx(&[("pkg.sub.helpers", "/r/pkg/sub/helpers.py")]);
    let v = resolve_imports(
        "/r/pkg/sub/tests/test_x.py",
        "/r",
        &[Import::Relative { dots: 2, tail: "helpers".into(), symbols: vec!["h".into()] }],
        &m,
    );
    assert!(v.contains(&"/r/pkg/sub/helpers.py".to_string()), "found: {:?}", v);
}

#[test]
fn resolve_falls_back_to_parent_prefix() {
    let m = idx(&[("foo.bar", "/r/foo/bar.py")]);
    let v = resolve_imports(
        "/r/tests/test_x.py",
        "/r",
        &[Import::FromAbsolute { module: "foo.bar.deep".into(), symbols: vec!["x".into()] }],
        &m,
    );
    assert!(v.contains(&"/r/foo/bar.py".to_string()));
}

#[test]
fn resolve_reports_each_file_once() {
    let m = idx(&[("foo", "/r/foo.py")]);
    let v = resolve_imports(
        "/r/tests/test_x.py",
        "/r",
        &[Import::Absolute("foo".into()), Import::Absolute("foo.x".into())],
        &m,
    );
    assert_eq!(v, vec!["/r/foo.py".to_string()]);
}

#[test]
fn scan_backslash_continuation_from_import() {
    let v = scan_imports_str("from foo import a, \\\n    b, c");
    assert_eq!(
        v,
        vec![Import::FromAbsolute {
            module: "foo".into(),
            symbols: vec!["a".into(), "b".into(), "c".into()],
        }]
    );
}

#[test]
fn scan_backslash_continuation_plain_import() {
    let v = scan_imports_str("import foo, \\\n    bar");
    assert_eq!(v, vec![Import::Absolute("foo".into()), Import::Absolute("bar".into())]);
}

#[test]
fn scan_multiline_paren_import() {
    let src = "from foo import (\n    a,\n    b,\n    c,\n)";
    let v = scan_imports_str(src);
    assert_eq!(
        v,
        vec![Import::FromAbsolute {
            module: "foo".into(),
            symbols: vec!["a".into(), "b".into(), "c".into()],
        }]
    );
}

#[test]
fn scan_multiline_paren_with_aliases() {
    let src = "from foo import (\n    a as x,\n    b,\n)";
    let v = scan_imports_str(src);
    assert_eq!(
        v,
        vec![Import::FromAbsolute { module: "foo".into(), symbols: vec!["a".into(), "b".into()] }]
    );
}

#[test]
fn scan_multiline_paren_with_comments() {
    let src = "from foo import (\n    a,  # the a thing\n    b,  # noqa\n)";
    let v = scan_imports_str(src);
    assert_eq!(
        v,
        vec![Import::FromAbsolute { module: "foo".into(), symbols: vec!["a".into(), "b".into()] }]
    );
}

#[test]
fn scan_single_line_paren_import_still_works() {
    let v = scan_imports_str("from foo import (a, b)");
    assert_eq!(
        v,
        vec![Import::FromAbsolute { module: "foo".into(), symbols: vec!["a".into(), "b".into()] }]
    );
}

#[test]
fn py_is_test_filename_basics() {
    assert!(py_is_test_filename("test_foo.py"));
    assert!(py_is_test_filename("foo_test.py"));
    assert!(!py_is_test_filename("test_data"));
    assert!(!py_is_test_filename("foo.py"));
}

#[test]
fn python_candidates_follow_the_discovery_order() {
    let c = scrutin::python::py_python_candidates("/p", Some("env"), None, Some("/conda"));
    assert_eq!(
        c,
        vec!["/p/env/bin/python", "/p/.venv/bin/python", "/p/venv/bin/python", "/conda/bin/python"]
    );
    assert_eq!(
        scrutin::python::py_subprocess_cmd("python3", "run.py"),
        vec!["python3", "-u", "run.py"]
    );
    assert_eq!(scrutin::python::py_runner_filename("pytest"), "scrutin_pytest.py");
}
