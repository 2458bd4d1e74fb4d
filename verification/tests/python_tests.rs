use scrutin::python::{py_parse_pyproject_name, py_parse_pyproject_version, py_project_name_or_dir};

#[test]
fn parse_pyproject_project_section() {
    let doc = "[project]\nname = \"my_pkg\"\ndynamic = [\"version\"]\n";
    assert_eq!(py_parse_pyproject_name(doc).as_deref(), Some("my_pkg"));
}

#[test]
fn parse_pyproject_dynamic_name_is_not_misread() {
    let doc = "[project]\ndynamic = [\"name\", \"version\"]\n";
    assert_eq!(py_parse_pyproject_name(doc), None);
}

#[test]
fn parse_pyproject_tool_poetry() {
    let doc = "[tool.poetry]\nname = \"poetry_pkg\"\n";
    assert_eq!(py_parse_pyproject_name(doc).as_deref(), Some("poetry_pkg"));
}

#[test]
fn pyproject_version_prefers_project_then_poetry() {
    assert_eq!(
        py_parse_pyproject_version("[project]\nversion = \"1.2.3\"\n[tool.poetry]\nversion = \"9\"\n").as_deref(),
        Some("1.2.3")
    );
    assert_eq!(py_parse_pyproject_version("[tool.poetry]\nversion = \"0.4\"\n").as_deref(), Some("0.4"));
    assert_eq!(py_parse_pyproject_version("[project]\nversion = 3\n"), None);
    assert_eq!(py_parse_pyproject_version("not toml = = ="), None);
}

#[test]
fn project_name_falls_back_to_directory() {
    assert_eq!(py_project_name_or_dir(Some("pkg".to_string()), Some("dir")), "pkg");
    assert_eq!(py_project_name_or_dir(None, Some("dir")), "dir");
    assert_eq!(py_project_name_or_dir(None, None), "<unknown>");
}
