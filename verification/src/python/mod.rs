//! Python support: file naming conventions, interpreter discovery order,
//! subprocess shape, and import analysis.
use vstd::prelude::*;

use crate::paths;
use crate::text;
use crate::text::str_views;

pub mod import_map;
pub mod imports;

verus! {

/// A pytest-style test file name: `test_*.py` or `*_test.py`.
pub open spec fn is_test_filename(name: Seq<char>) -> bool {
    text::has_suffix(name, ".py"@) && (text::has_prefix(name, "test_"@) || text::has_suffix(
        name,
        "_test.py"@,
    ))
}

/// Is this a pytest-style test filename? `test_*.py` or `*_test.py`.
pub fn py_is_test_filename(name: &str) -> (r: bool)
    ensures
        r == is_test_filename(name@),
{
    let n = text::chars_of(name);
    let py = text::chars_of(".py");
    let pre = text::chars_of("test_");
    let suf = text::chars_of("_test.py");
    text::ends_with(n.as_slice(), py.as_slice()) && (text::starts_with(
        n.as_slice(),
        pre.as_slice(),
    ) || text::ends_with(n.as_slice(), suf.as_slice()))
}

/// Does `path` name a pytest-style test file?
pub fn py_is_test_path(path: &str) -> (r: bool)
    ensures
        r == (paths::file_name(path@) matches Some(n) && is_test_filename(n)),
{
    match paths::file_name_of(path) {
        Some(n) => py_is_test_filename(n.as_str()),
        None => false,
    }
}

/// Does `path` name a Python source file (extension exactly `py`)?
pub fn py_is_source_path(path: &str) -> (r: bool)
    ensures
        r == (paths::extension(path@) == Some("py"@)),
{
    let name = match paths::file_name_of(path) {
        Some(n) => n,
        None => return false,
    };
    let nc = text::chars_of(name.as_str());
    let ext = paths::name_extension_exec(nc.as_slice());
    match ext {
        Some(e) => text::eq_chars(e.as_slice(), text::chars_of("py").as_slice()),
        None => false,
    }
}

/// The runner file name for a Python tool: `scrutin_<tool>.py`, so the
/// runner can never shadow an importable module named like the tool.
pub fn py_runner_filename(tool_name: &str) -> (r: String)
    ensures
        r@ == "scrutin_"@ + tool_name@ + ".py"@,
{
    let mut s = text::owned("scrutin_");
    text::push_str(&mut s, tool_name);
    text::push_str(&mut s, ".py");
    s
}

/// The environment every Python worker gets: the tool name and the
/// package directory.
pub fn py_env_vars(tool: &str, root: &str) -> (r: Vec<(String, String)>)
    ensures
        r@.len() == 2,
        r@[0].0@ == "SCRUTIN_TOOL"@ && r@[0].1@ == tool@,
        r@[1].0@ == "SCRUTIN_PKG_DIR"@ && r@[1].1@ == root@,
{
    let mut v: Vec<(String, String)> = Vec::new();
    v.push((text::owned("SCRUTIN_TOOL"), text::owned(tool)));
    v.push((text::owned("SCRUTIN_PKG_DIR"), text::owned(root)));
    v
}

/// The worker command: the interpreter, unbuffered, running the runner.
pub fn py_subprocess_cmd(python: &str, runner_path: &str) -> (r: Vec<String>)
    ensures
        str_views(r@) == seq![python@, "-u"@, runner_path@],
{
    let mut v: Vec<String> = Vec::new();
    v.push(text::owned(python));
    v.push(text::owned("-u"));
    v.push(text::owned(runner_path));
    proof {
        assert(str_views(v@) =~= seq![python@, "-u"@, runner_path@]);
    }
    v
}

/// The interpreter inside a virtualenv directory.
pub open spec fn venv_python(dir: Seq<char>) -> Seq<char> {
    crate::git::join_path(crate::git::join_path(dir, "bin"@), "python"@)
}

/// The interpreter paths to probe, in order: the configured virtualenv
/// (relative to `root` unless absolute), `$VIRTUAL_ENV`, `root/.venv`,
/// `root/venv`, `$CONDA_PREFIX`. The first that exists wins; when none
/// does, `python3` from PATH is used.
pub open spec fn python_candidates(
    root: Seq<char>,
    venv_override: Option<Seq<char>>,
    virtual_env: Option<Seq<char>>,
    conda_prefix: Option<Seq<char>>,
) -> Seq<Seq<char>> {
    let a = match venv_override {
        Some(v) => seq![venv_python(crate::git::join_path(root, v))],
        None => Seq::empty(),
    };
    let b = match virtual_env {
        Some(v) => seq![venv_python(v)],
        None => Seq::empty(),
    };
    let c = seq![
        venv_python(crate::git::join_path(root, ".venv"@)),
        venv_python(crate::git::join_path(root, "venv"@)),
    ];
    let d = match conda_prefix {
        Some(v) => seq![venv_python(v)],
        None => Seq::empty(),
    };
    a + b + c + d
}

/// The interpreter inside a virtualenv directory.
fn venv_python_exec(dir: &str) -> (r: String)
    ensures
        r@ == venv_python(dir@),
{
    let bin = crate::git::join_path_exec(dir, "bin");
    crate::git::join_path_exec(bin.as_str(), "python")
}

/// The interpreter paths to probe, in order (see [`python_candidates`]).
pub fn py_python_candidates(
    root: &str,
    venv_override: Option<&str>,
    virtual_env: Option<&str>,
    conda_prefix: Option<&str>,
) -> (r: Vec<String>)
    ensures
        str_views(r@) == python_candidates(
            root@,
            match venv_override {
                Some(v) => Some(v@),
                None => None,
            },
            match virtual_env {
                Some(v) => Some(v@),
                None => None,
            },
            match conda_prefix {
                Some(v) => Some(v@),
                None => None,
            },
        ),
{
    let mut out: Vec<String> = Vec::new();
    let ghost a: Seq<Seq<char>> = Seq::empty();
    match venv_override {
        Some(v) => {
            let abs = crate::git::join_path_exec(root, v);
            out.push(venv_python_exec(abs.as_str()));
        },
        None => {},
    }
    match virtual_env {
        Some(v) => {
            out.push(venv_python_exec(v));
        },
        None => {},
    }
    let dot_venv = crate::git::join_path_exec(root, ".venv");
    out.push(venv_python_exec(dot_venv.as_str()));
    let venv = crate::git::join_path_exec(root, "venv");
    out.push(venv_python_exec(venv.as_str()));
    match conda_prefix {
        Some(v) => {
            out.push(venv_python_exec(v));
        },
        None => {},
    }
    proof {
        assert(str_views(out@) =~= python_candidates(
            root@,
            match venv_override {
                Some(v) => Some(v@),
                None => None,
            },
            match virtual_env {
                Some(v) => Some(v@),
                None => None,
            },
            match conda_prefix {
                Some(v) => Some(v@),
                None => None,
            },
        ));
    }
    out
}


// ── pyproject.toml ──────────────────────────────────────────────────────────

/// The string found in the TOML document `doc` by following the table keys
/// of `path`, as the `toml` crate reads the document: `None` when it does
/// not parse, a key is missing, a step is not a table, or the value found
/// is not a string.
pub uninterp spec fn toml_str_at(doc: Seq<char>, path: Seq<Seq<char>>) -> Option<Seq<char>>;

/// Calls `toml::from_str::<toml::Value>` on `doc`, follows `path` with
/// `toml::Value::get` and reads the result with `toml::Value::as_str`.
/// Claimed: the result is [`toml_str_at`] of the document and the path;
/// nothing is claimed of how TOML is read.
#[verifier::external_body]
fn toml_string_at(doc: &str, path: &[&str]) -> (r: Option<String>)
    ensures
        match r {
            Some(s) => toml_str_at(doc@, crate::plugins::slice_views(path@)) == Some(s@),
            None => toml_str_at(doc@, crate::plugins::slice_views(path@)) is None,
        },
{
    let value: toml::Value = toml::from_str(doc).ok()?;
    let mut cur = &value;
    for key in path {
        cur = cur.get(*key)?;
    }
    cur.as_str().map(|s| s.to_string())
}

/// A field of the project: under `[project]`, else under `[tool.poetry]`.
pub open spec fn pyproject_field(doc: Seq<char>, field: Seq<char>) -> Option<Seq<char>> {
    match toml_str_at(doc, seq!["project"@, field]) {
        Some(v) => Some(v),
        None => toml_str_at(doc, seq!["tool"@, "poetry"@, field]),
    }
}

fn pyproject_field_exec(doc: &str, field: &str) -> (r: Option<String>)
    ensures
        match r {
            Some(s) => pyproject_field(doc@, field@) == Some(s@),
            None => pyproject_field(doc@, field@) is None,
        },
{
    proof {
        reveal_strlit("project");
        reveal_strlit("tool");
        reveal_strlit("poetry");
    }
    let first = ["project", field];
    proof {
        assert(crate::plugins::slice_views(first@) =~= seq!["project"@, field@]);
    }
    match toml_string_at(doc, &first) {
        Some(v) => Some(v),
        None => {
            let second = ["tool", "poetry", field];
            proof {
                assert(crate::plugins::slice_views(second@) =~= seq!["tool"@, "poetry"@, field@]);
            }
            toml_string_at(doc, &second)
        },
    }
}

/// The project's name from the contents of `pyproject.toml` (see
/// [`pyproject_field`]).
pub fn py_parse_pyproject_name(doc: &str) -> (r: Option<String>)
    ensures
        match r {
            Some(s) => pyproject_field(doc@, "name"@) == Some(s@),
            None => pyproject_field(doc@, "name"@) is None,
        },
{
    pyproject_field_exec(doc, "name")
}

/// The project's version from the contents of `pyproject.toml` (see
/// [`pyproject_field`]).
pub fn py_parse_pyproject_version(doc: &str) -> (r: Option<String>)
    ensures
        match r {
            Some(s) => pyproject_field(doc@, "version"@) == Some(s@),
            None => pyproject_field(doc@, "version"@) is None,
        },
{
    pyproject_field_exec(doc, "version")
}

/// A Python project's display name: the name read from `pyproject.toml`
/// when there is one, else the directory's name, else `<unknown>`.
pub fn py_project_name_or_dir(pyproject_name: Option<String>, dir_name: Option<&str>) -> (r: String)
    ensures
        r@ == match pyproject_name {
            Some(n) => n@,
            None => match dir_name {
                Some(d) => d@,
                None => "<unknown>"@,
            },
        },
{
    match pyproject_name {
        Some(n) => n,
        None => match dir_name {
            Some(d) => text::owned(d),
            None => text::owned("<unknown>"),
        },
    }
}

} // verus!
