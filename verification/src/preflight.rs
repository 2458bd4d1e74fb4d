//! Startup pre-flight checks: which checks run and in what order, which
//! suites each probe covers, the commands the probes run, and the
//! actionable messages a failed check reports. Looking at the disk and
//! spawning the probes is the caller's part.
use vstd::prelude::*;

use crate::config::{debug_quote, debug_quoted, PreflightConfig};
use crate::git::{lossy_utf8, utf8_lossy};
use crate::text;
use crate::text::{join, lines_of, str_views};

verus! {

/// One pre-flight check.
#[derive(Clone, Copy, Debug, PartialEq, Eq, Structural)]
pub enum PreflightCheck {
    /// Every suite root is an existing directory.
    SuiteRoots,
    /// Every suite's `run` globs match at least one file.
    RunGlobs,
    /// Command-mode tools are on PATH.
    CommandTools,
    /// Python suites can import their project module.
    PythonImports,
    /// R suites have `pkgload` installed.
    RPkgload,
}

/// The checks that run, in order: none when pre-flight is off, else every
/// check whose flag is on.
pub open spec fn enabled_checks_of(cfg: PreflightConfig) -> Seq<PreflightCheck> {
    if !cfg.enabled {
        Seq::empty()
    } else {
        (if cfg.suite_roots { seq![PreflightCheck::SuiteRoots] } else { Seq::empty() })
            + (if cfg.run_globs { seq![PreflightCheck::RunGlobs] } else { Seq::empty() })
            + (if cfg.command_tools { seq![PreflightCheck::CommandTools] } else { Seq::empty() })
            + (if cfg.python_imports { seq![PreflightCheck::PythonImports] } else { Seq::empty() })
            + (if cfg.r_pkgload { seq![PreflightCheck::RPkgload] } else { Seq::empty() })
    }
}

/// The checks to run (see [`enabled_checks_of`]); the first that fails
/// ends the run.
pub fn enabled_checks(cfg: &PreflightConfig) -> (r: Vec<PreflightCheck>)
    ensures
        r@ == enabled_checks_of(*cfg),
{
    let mut v: Vec<PreflightCheck> = Vec::new();
    if !cfg.enabled {
        return v;
    }
    if cfg.suite_roots {
        v.push(PreflightCheck::SuiteRoots);
    }
    let ghost a = v@;
    if cfg.run_globs {
        v.push(PreflightCheck::RunGlobs);
    }
    let ghost b = v@;
    if cfg.command_tools {
        v.push(PreflightCheck::CommandTools);
    }
    let ghost c = v@;
    if cfg.python_imports {
        v.push(PreflightCheck::PythonImports);
    }
    let ghost d = v@;
    if cfg.r_pkgload {
        v.push(PreflightCheck::RPkgload);
    }
    proof {
        assert(v@ =~= enabled_checks_of(*cfg));
    }
    v
}

// ── Suite selection ─────────────────────────────────────────────────────────

/// What the probes need to know of one suite.
#[derive(Debug, Clone)]
pub struct SuiteProbe {
    /// The plugin's name.
    pub name: String,
    /// The plugin's language (`r`, `python`, ...).
    pub language: String,
    /// The suite root, as displayed.
    pub root: String,
    /// Whether the plugin runs in command mode.
    pub command_mode: bool,
}

/// An R worker suite: language `r` and not command mode (jarl lints
/// without loading the package).
pub open spec fn r_worker(s: SuiteProbe) -> bool {
    s.language@ == "r"@ && !s.command_mode
}

/// Does an earlier R worker suite share `root`?
pub open spec fn root_seen_before(suites: Seq<SuiteProbe>, j: int, root: Seq<char>) -> bool {
    exists|k: int| 0 <= k < j && r_worker(#[trigger] suites[k]) && suites[k].root@ == root
}

/// The indices of the suites the `pkgload` probe covers: R worker suites,
/// each root once (its first suite).
pub open spec fn pkgload_targets_of(suites: Seq<SuiteProbe>) -> Seq<int>
    decreases suites.len(),
{
    if suites.len() == 0 {
        Seq::empty()
    } else {
        let j = suites.len() - 1;
        let rest = pkgload_targets_of(suites.drop_last());
        if r_worker(suites[j]) && !root_seen_before(suites, j, suites[j].root@) {
            rest.push(j)
        } else {
            rest
        }
    }
}

proof fn lemma_seen_before_prefix(suites: Seq<SuiteProbe>, n: int, j: int, root: Seq<char>)
    requires
        0 <= j <= n <= suites.len(),
    ensures
        root_seen_before(suites.subrange(0, n), j, root) == root_seen_before(suites, j, root),
{
    let t = suites.subrange(0, n);
    if root_seen_before(suites, j, root) {
        let k = choose|k: int| 0 <= k < j && r_worker(#[trigger] suites[k]) && suites[k].root@ == root;
        assert(t[k] == suites[k]);
    }
    if root_seen_before(t, j, root) {
        let k = choose|k: int| 0 <= k < j && r_worker(#[trigger] t[k]) && t[k].root@ == root;
        assert(t[k] == suites[k]);
    }
}

/// The suites the `pkgload` probe covers (see [`pkgload_targets_of`]).
pub fn pkgload_targets(suites: &[SuiteProbe]) -> (r: Vec<usize>)
    ensures
        r@.map_values(|i: usize| i as int) == pkgload_targets_of(suites@),
{
    let mut out: Vec<usize> = Vec::new();
    let mut j: usize = 0;
    while j < suites.len()
        invariant
            j <= suites@.len(),
            out@.map_values(|i: usize| i as int) == pkgload_targets_of(suites@.subrange(0, j as int)),
        decreases suites@.len() - j,
    {
        let ghost before = out@;
        let worker = text::str_eq(suites[j].language.as_str(), "r") && !suites[j].command_mode;
        proof {
            reveal_strlit("r");
        }
        if worker {
            let mut seen = false;
            let mut k: usize = 0;
            while k < j
                invariant
                    k <= j < suites@.len(),
                    r_worker(suites@[j as int]),
                    seen == exists|q: int|
                        0 <= q < k && r_worker(#[trigger] suites@[q]) && suites@[q].root@ == suites@[j as int].root@,
                decreases j - k,
            {
                let other = text::str_eq(suites[k].language.as_str(), "r") && !suites[k].command_mode;
                if other && text::str_eq(suites[k].root.as_str(), suites[j].root.as_str()) {
                    seen = true;
                }
                proof {
                    reveal_strlit("r");
                    if seen {
                        if !(exists|q: int|
                            0 <= q < k && r_worker(#[trigger] suites@[q]) && suites@[q].root@ == suites@[j as int].root@) {
                            assert(r_worker(suites@[k as int]) && suites@[k as int].root@ == suites@[j as int].root@);
                        }
                    }
                }
                k = k + 1;
            }
            if !seen {
                out.push(j);
            }
        }
        proof {
            let u = suites@.subrange(0, j + 1);
            assert(u.drop_last() =~= suites@.subrange(0, j as int));
            assert(u[j as int] == suites@[j as int]);
            lemma_seen_before_prefix(suites@, j + 1, j as int, suites@[j as int].root@);
            assert(out@.map_values(|i: usize| i as int) =~= pkgload_targets_of(u));
        }
        j = j + 1;
    }
    proof {
        assert(suites@.subrange(0, suites@.len() as int) =~= suites@);
    }
    out
}

// ── Probe commands ──────────────────────────────────────────────────────────

/// The import probe: the configured interpreter command, or the found
/// Python alone when none is configured, then `-c import <module>`.
pub open spec fn import_probe_of(interpreter: Seq<Seq<char>>, found_python: Seq<char>, module: Seq<char>) -> Seq<Seq<char>> {
    (if interpreter.len() > 0 {
        interpreter
    } else {
        seq![found_python]
    }) + seq!["-c"@, "import "@ + module]
}

/// The argv of the import probe (see [`import_probe_of`]); its first
/// element is the program.
pub fn import_probe(interpreter: &Vec<String>, found_python: &str, module: &str) -> (r: Vec<String>)
    ensures
        str_views(r@) == import_probe_of(str_views(interpreter@), found_python@, module@),
{
    let mut v: Vec<String> = Vec::new();
    if interpreter.len() > 0 {
        v = crate::protocol::copy_strings(interpreter);
    } else {
        v.push(text::owned(found_python));
    }
    let ghost base = str_views(v@);
    proof {
        if interpreter.len() > 0 {
            assert(base =~= str_views(interpreter@));
        } else {
            assert(base =~= seq![found_python@]);
        }
    }
    v.push(text::owned("-c"));
    let mut imp = text::owned("import ");
    text::push_str(&mut imp, module);
    v.push(imp);
    proof {
        assert(str_views(v@) =~= base + seq!["-c"@, "import "@ + module@]);
    }
    v
}

/// The probe's `PYTHONPATH`: the `src/` directory when there is one, the
/// suite root, then any non-empty inherited value, joined by `:`.
pub open spec fn python_path_of(src_dir: Option<Seq<char>>, root: Seq<char>, inherited: Option<Seq<char>>) -> Seq<char> {
    let a: Seq<Seq<char>> = match src_dir {
        Some(s) => seq![s],
        None => Seq::empty(),
    };
    let b: Seq<Seq<char>> = match inherited {
        Some(e) => if e.len() > 0 {
            seq![e]
        } else {
            Seq::empty()
        },
        None => Seq::empty(),
    };
    join(a + seq![root] + b, ":"@)
}

/// The probe's `PYTHONPATH` (see [`python_path_of`]).
pub fn python_path(src_dir: Option<&str>, root: &str, inherited: Option<&str>) -> (r: String)
    ensures
        r@ == python_path_of(
            match src_dir {
                Some(s) => Some(s@),
                None => None,
            },
            root@,
            match inherited {
                Some(e) => Some(e@),
                None => None,
            },
        ),
{
    let mut parts: Vec<String> = Vec::new();
    let ghost a: Seq<Seq<char>> = match src_dir {
        Some(s) => seq![s@],
        None => Seq::empty(),
    };
    let ghost b: Seq<Seq<char>> = match inherited {
        Some(e) => if e@.len() > 0 {
            seq![e@]
        } else {
            Seq::empty()
        },
        None => Seq::empty(),
    };
    match src_dir {
        Some(s) => parts.push(text::owned(s)),
        None => {},
    }
    assert(str_views(parts@) =~= a);
    parts.push(text::owned(root));
    assert(str_views(parts@) =~= a + seq![root@]);
    match inherited {
        Some(e) => {
            let ec = text::chars_of(e);
            if ec.len() > 0 {
                parts.push(text::owned(e));
            }
        },
        None => {},
    }
    assert(str_views(parts@) =~= a + seq![root@] + b);
    text::join_strings(&parts, ":")
}

// ── Messages ────────────────────────────────────────────────────────────────

/// How to install a command-line tool.
pub open spec fn install_hint_of(bin: Seq<char>) -> Seq<char> {
    if bin == "jarl"@ {
        "Install instructions: https://jarl.etiennebacher.com/"@
    } else if bin == "ruff"@ {
        "Install with `pip install ruff` or `brew install ruff`."@
    } else if bin == "skyspell"@ {
        "Install instructions: https://codeberg.org/your-tools/skyspell"@
    } else if bin == "typos"@ {
        "Install instructions: https://github.com/crate-ci/typos"@
    } else {
        "Install `"@ + bin + "` and ensure it is on PATH."@
    }
}

/// How to install `bin` (see [`install_hint_of`]).
pub fn install_hint(bin: &str) -> (r: String)
    ensures
        r@ == install_hint_of(bin@),
{
    proof {
        reveal_strlit("jarl");
        reveal_strlit("ruff");
        reveal_strlit("skyspell");
        reveal_strlit("typos");
    }
    if text::str_eq(bin, "jarl") {
        text::owned("Install instructions: https://jarl.etiennebacher.com/")
    } else if text::str_eq(bin, "ruff") {
        text::owned("Install with `pip install ruff` or `brew install ruff`.")
    } else if text::str_eq(bin, "skyspell") {
        text::owned("Install instructions: https://codeberg.org/your-tools/skyspell")
    } else if text::str_eq(bin, "typos") {
        text::owned("Install instructions: https://github.com/crate-ci/typos")
    } else {
        let mut s = text::owned("Install `");
        text::push_str(&mut s, bin);
        text::push_str(&mut s, "` and ensure it is on PATH.");
        s
    }
}

/// The last `n` lines of `text`, in order.
pub open spec fn last_lines(t: Seq<char>, n: nat) -> Seq<Seq<char>> {
    let ls = lines_of(t);
    if ls.len() <= n {
        ls
    } else {
        ls.subrange(ls.len() - n, ls.len() as int)
    }
}

/// The last `n` lines of a probe's stderr (read as lossy UTF-8), joined
/// by newlines.
pub fn stderr_tail(bytes: &[u8], n: usize) -> (r: String)
    ensures
        r@ == join(last_lines(lossy_utf8(bytes@), n as nat), "\n"@),
{
    let s = utf8_lossy(bytes);
    let c = text::chars_of(s.as_str());
    let ls = text::lines_chars(c.as_slice());
    let ghost lv = text::char_views(ls@);
    let start: usize = if ls.len() <= n { 0 } else { ls.len() - n };
    let mut parts: Vec<String> = Vec::new();
    let mut i: usize = start;
    while i < ls.len()
        invariant
            start <= i <= ls@.len(),
            lv == text::char_views(ls@),
            str_views(parts@) == lv.subrange(start as int, i as int),
        decreases ls@.len() - i,
    {
        let ghost before = str_views(parts@);
        parts.push(text::string_from(ls[i].as_slice()));
        proof {
            assert(str_views(parts@) =~= before.push(lv[i as int]));
            assert(lv.subrange(start as int, i + 1) =~= lv.subrange(start as int, i as int).push(lv[i as int]));
        }
        i = i + 1;
    }
    proof {
        if ls@.len() <= n {
            assert(lv.subrange(0, lv.len() as int) =~= lv);
        }
        assert(str_views(parts@) == last_lines(lossy_utf8(bytes@), n as nat));
    }
    text::join_strings(&parts, "\n")
}

/// The message of a suite whose root is not a directory.
pub open spec fn suite_root_message(tool: Seq<char>, root: Seq<char>) -> Seq<char> {
    "[[suite]] "@ + tool + ": root "@ + debug_quoted(root)
        + " is not an existing directory.\nHint: typo in the `root` field, or the directory hasn't been created yet.\nDisable this check with `[preflight] suite_roots = false`."@
}

/// The message of a suite whose root is not a directory (see
/// [`suite_root_message`]).
pub fn suite_root_error(tool: &str, root: &str) -> (r: String)
    ensures
        r@ == suite_root_message(tool@, root@),
{
    let mut s = text::owned("[[suite]] ");
    text::push_str(&mut s, tool);
    text::push_str(&mut s, ": root ");
    let q = debug_quote(root);
    text::push_str(&mut s, q.as_str());
    text::push_str(
        &mut s,
        " is not an existing directory.\nHint: typo in the `root` field, or the directory hasn't been created yet.\nDisable this check with `[preflight] suite_roots = false`.",
    );
    s
}

/// The `Debug` rendering of a list of strings: `["a", "b"]`.
pub open spec fn debug_list(items: Seq<Seq<char>>) -> Seq<char> {
    "["@ + join(items.map_values(|x: Seq<char>| debug_quoted(x)), ", "@) + "]"@
}

fn debug_list_exec(items: &Vec<String>) -> (r: String)
    ensures
        r@ == debug_list(str_views(items@)),
{
    let ghost iv = str_views(items@);
    let mut quoted: Vec<String> = Vec::new();
    let mut i: usize = 0;
    while i < items.len()
        invariant
            i <= items@.len(),
            iv == str_views(items@),
            str_views(quoted@) == iv.subrange(0, i as int).map_values(|x: Seq<char>| debug_quoted(x)),
        decreases items@.len() - i,
    {
        let ghost before = str_views(quoted@);
        quoted.push(debug_quote(items[i].as_str()));
        proof {
            assert(str_views(quoted@) =~= before.push(debug_quoted(iv[i as int])));
            assert(iv.subrange(0, i + 1).map_values(|x: Seq<char>| debug_quoted(x)) =~= iv.subrange(
                0,
                i as int,
            ).map_values(|x: Seq<char>| debug_quoted(x)).push(debug_quoted(iv[i as int])));
        }
        i = i + 1;
    }
    proof {
        assert(iv.subrange(0, iv.len() as int) =~= iv);
    }
    let mut s = text::owned("[");
    let inner = text::join_strings(&quoted, ", ");
    text::push_str(&mut s, inner.as_str());
    text::push_str(&mut s, "]");
    s
}

/// The message of a suite whose `run` globs match no file.
pub open spec fn run_globs_message(tool: Seq<char>, root: Seq<char>, patterns: Seq<Seq<char>>) -> Seq<char> {
    "[[suite]] "@ + tool + ": `run` globs matched zero files under "@ + root + ".\nPatterns: "@ + debug_list(patterns)
        + "\nHint: check the patterns; remember `tests/foo` is a literal path, not a recursive walk (write `tests/foo/**/*.py` instead).\nDisable this check with `[preflight] run_globs = false`."@
}

/// The message of a suite whose `run` globs match no file (see
/// [`run_globs_message`]).
pub fn run_globs_error(tool: &str, root: &str, patterns: &Vec<String>) -> (r: String)
    ensures
        r@ == run_globs_message(tool@, root@, str_views(patterns@)),
{
    let mut s = text::owned("[[suite]] ");
    text::push_str(&mut s, tool);
    text::push_str(&mut s, ": `run` globs matched zero files under ");
    text::push_str(&mut s, root);
    text::push_str(&mut s, ".\nPatterns: ");
    let l = debug_list_exec(patterns);
    text::push_str(&mut s, l.as_str());
    text::push_str(
        &mut s,
        "\nHint: check the patterns; remember `tests/foo` is a literal path, not a recursive walk (write `tests/foo/**/*.py` instead).\nDisable this check with `[preflight] run_globs = false`.",
    );
    s
}

/// The message of a command-mode tool missing from PATH.
pub open spec fn command_tool_message(suite: Seq<char>, bin: Seq<char>) -> Seq<char> {
    "[[suite]] "@ + suite + ": command-line tool "@ + debug_quoted(bin) + " not found on PATH.\n\n  "@
        + install_hint_of(bin)
        + "\n\n  Once installed, ensure it is on PATH.\n\n  Disable this check with `[preflight] command_tools = false`."@
}

/// The message of a command-mode tool missing from PATH (see
/// [`command_tool_message`]).
pub fn command_tool_error(suite: &str, bin: &str) -> (r: String)
    ensures
        r@ == command_tool_message(suite@, bin@),
{
    let mut s = text::owned("[[suite]] ");
    text::push_str(&mut s, suite);
    text::push_str(&mut s, ": command-line tool ");
    let q = debug_quote(bin);
    text::push_str(&mut s, q.as_str());
    text::push_str(&mut s, " not found on PATH.\n\n  ");
    let h = install_hint(bin);
    text::push_str(&mut s, h.as_str());
    text::push_str(&mut s, "\n\n  Once installed, ensure it is on PATH.\n\n  Disable this check with `[preflight] command_tools = false`.");
    s
}

/// The message of a Python suite that cannot import its package.
pub open spec fn python_import_message(suite: Seq<char>, root: Seq<char>, module: Seq<char>, tail: Seq<char>) -> Seq<char> {
    "python suite "@ + suite + " ("@ + root + "): cannot import package '"@ + module + "'.\nHint: from "@ + root
        + ", run `uv pip install -e .` (or `pip install -e .` in your venv).\nDisable this check with `[preflight] python_imports = false`.\nInterpreter output:\n"@
        + tail
}

/// The message of a Python suite that cannot import its package (see
/// [`python_import_message`]), given the tail of the probe's stderr.
pub fn python_import_error(suite: &str, root: &str, module: &str, tail: &str) -> (r: String)
    ensures
        r@ == python_import_message(suite@, root@, module@, tail@),
{
    let mut s = text::owned("python suite ");
    text::push_str(&mut s, suite);
    text::push_str(&mut s, " (");
    text::push_str(&mut s, root);
    text::push_str(&mut s, "): cannot import package '");
    text::push_str(&mut s, module);
    text::push_str(&mut s, "'.\nHint: from ");
    text::push_str(&mut s, root);
    text::push_str(
        &mut s,
        ", run `uv pip install -e .` (or `pip install -e .` in your venv).\nDisable this check with `[preflight] python_imports = false`.\nInterpreter output:\n",
    );
    text::push_str(&mut s, tail);
    s
}

/// The message of an interpreter that could not be started.
pub open spec fn python_spawn_message(suite: Seq<char>, root: Seq<char>, bin: Seq<char>, error: Seq<char>) -> Seq<char> {
    "python suite "@ + suite + " ("@ + root + "): failed to spawn interpreter "@ + debug_quoted(bin) + ": "@ + error
        + "\nHint: install Python or set [python].interpreter in .scrutin/config.toml.\nDisable this check with `[preflight] python_imports = false`."@
}

/// The message of an interpreter that could not be started (see
/// [`python_spawn_message`]), given the spawn error's text.
pub fn python_spawn_error(suite: &str, root: &str, bin: &str, error: &str) -> (r: String)
    ensures
        r@ == python_spawn_message(suite@, root@, bin@, error@),
{
    let mut s = text::owned("python suite ");
    text::push_str(&mut s, suite);
    text::push_str(&mut s, " (");
    text::push_str(&mut s, root);
    text::push_str(&mut s, "): failed to spawn interpreter ");
    let q = debug_quote(bin);
    text::push_str(&mut s, q.as_str());
    text::push_str(&mut s, ": ");
    text::push_str(&mut s, error);
    text::push_str(
        &mut s,
        "\nHint: install Python or set [python].interpreter in .scrutin/config.toml.\nDisable this check with `[preflight] python_imports = false`.",
    );
    s
}

/// The message of an R suite without `pkgload`; the probe's output is
/// appended when it holds more than whitespace.
pub open spec fn pkgload_message(suite: Seq<char>, root: Seq<char>, tail: Seq<char>) -> Seq<char> {
    "[[suite]] "@ + suite + " ("@ + root
        + "): R package `pkgload` is not installed.\nHint: open R and run `install.packages(\"pkgload\")`, or edit .scrutin/<tool>/runner.R to use library() instead.\nDisable this check with `[preflight] r_pkgload = false`."@
        + (if text::trim(tail).len() == 0 {
        Seq::empty()
    } else {
        "\nRscript output:\n"@ + tail
    })
}

/// The message of an R suite without `pkgload` (see [`pkgload_message`]).
pub fn pkgload_error(suite: &str, root: &str, tail: &str) -> (r: String)
    ensures
        r@ == pkgload_message(suite@, root@, tail@),
{
    let mut s = text::owned("[[suite]] ");
    text::push_str(&mut s, suite);
    text::push_str(&mut s, " (");
    text::push_str(&mut s, root);
    text::push_str(
        &mut s,
        "): R package `pkgload` is not installed.\nHint: open R and run `install.packages(\"pkgload\")`, or edit .scrutin/<tool>/runner.R to use library() instead.\nDisable this check with `[preflight] r_pkgload = false`.",
    );
    let tc = text::chars_of(tail);
    let t = text::trim_chars(tc.as_slice());
    if t.len() > 0 {
        text::push_str(&mut s, "\nRscript output:\n");
        text::push_str(&mut s, tail);
    }
    s
}

/// The message of an Rscript that could not be started.
pub open spec fn rscript_spawn_message(suite: Seq<char>) -> Seq<char> {
    "[[suite]] "@ + suite
        + ": failed to spawn Rscript. Is R installed and on PATH? Disable this check with `[preflight] r_pkgload = false`."@
}

/// The message of an Rscript that could not be started (see
/// [`rscript_spawn_message`]).
pub fn rscript_spawn_error(suite: &str) -> (r: String)
    ensures
        r@ == rscript_spawn_message(suite@),
{
    let mut s = text::owned("[[suite]] ");
    text::push_str(&mut s, suite);
    text::push_str(
        &mut s,
        ": failed to spawn Rscript. Is R installed and on PATH? Disable this check with `[preflight] r_pkgload = false`.",
    );
    s
}

} // verus!
