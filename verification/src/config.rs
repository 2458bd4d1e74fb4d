//! Project configuration (`.scrutin/config.toml`) as plain data, with its
//! defaults and the checks and lookups made on it. Reading the file and
//! decoding TOML is the caller's part.
use vstd::prelude::*;

use crate::paths;
use crate::text;
use crate::text::str_views;

verus! {

/// The whole configuration.
#[derive(Debug, Default, Clone)]
pub struct Config {
    pub run: RunConfig,
    pub watch: WatchConfig,
    pub filter: FilterConfig,
    /// Explicit suite declarations; when non-empty, auto-detection is skipped.
    pub suites: Vec<SuiteConfig>,
    pub python: PythonConfig,
    pub testthat: TestthatConfig,
    pub tinytest: TinytestConfig,
    pub pytest: PytestConfig,
    pub web: WebConfig,
    pub hooks: HooksConfig,
    pub metadata: MetadataConfig,
    pub preflight: PreflightConfig,
    /// User labels attached to every run, by key.
    pub extras: Vec<(String, String)>,
    /// Environment variables for every subprocess that runs user code,
    /// in key order.
    pub env: Vec<(String, String)>,
    /// Per-mode keymap overrides: mode name to (key, action) pairs.
    pub keymap: Vec<(String, Vec<(String, String)>)>,
}

/// Process- and worker-level hook scripts.
#[derive(Debug, Default, Clone)]
pub struct HooksConfig {
    /// Script run once before the first worker spawns.
    pub startup: Option<String>,
    /// Script run once after the last result drains.
    pub teardown: Option<String>,
    /// Per-language worker hooks, by language name.
    pub by_language: Vec<(String, LanguageHooks)>,
}

/// Language-level worker hooks and their per-tool overrides.
#[derive(Debug, Default, Clone)]
pub struct LanguageHooks {
    pub worker_startup: Option<String>,
    pub worker_teardown: Option<String>,
    /// Per-tool overrides, by tool name.
    pub by_tool: Vec<(String, ToolHooks)>,
}

/// Tool-level worker hooks.
#[derive(Debug, Default, Clone)]
pub struct ToolHooks {
    pub worker_startup: Option<String>,
    pub worker_teardown: Option<String>,
}

/// Python-level config (all Python tools).
#[derive(Debug, Default, Clone)]
pub struct PythonConfig {
    /// Interpreter command, split on whitespace (`uv run python` works).
    pub interpreter: Option<String>,
    /// Virtualenv directory, used when `interpreter` is unset.
    pub venv: Option<String>,
}

/// Startup pre-flight checks, each with its own switch.
#[derive(Debug, Clone)]
pub struct PreflightConfig {
    pub enabled: bool,
    pub suite_roots: bool,
    pub run_globs: bool,
    pub command_tools: bool,
    pub python_imports: bool,
    pub r_pkgload: bool,
}

impl Config {
    /// What the configuration file's map tables guarantee: `[env]` and
    /// `[extras]` keys in ascending order, each once (they are ordered
    /// maps), and filter group names each once.
    pub open spec fn wf(&self) -> bool {
        &&& text::keys_ascending(pair_keys(self.env@))
        &&& text::keys_ascending(pair_keys(self.extras@))
        &&& text::keys_distinct(self.filter.groups@.map_values(|g: (String, FilterGroup)| g.0@))
    }
}

impl Default for PreflightConfig {
    /// Every check on.
    fn default() -> (r: Self)
        ensures
            r.enabled && r.suite_roots && r.run_globs && r.command_tools && r.python_imports
                && r.r_pkgload,
    {
        PreflightConfig {
            enabled: true,
            suite_roots: true,
            run_globs: true,
            command_tools: true,
            python_imports: true,
            r_pkgload: true,
        }
    }
}

/// Testthat-specific config.
#[derive(Debug, Default, Clone)]
pub struct TestthatConfig {
    /// Custom runner script, relative to the project root.
    pub runner: Option<String>,
}

/// Tinytest-specific config.
#[derive(Debug, Default, Clone)]
pub struct TinytestConfig {
    /// Custom runner script, relative to the project root.
    pub runner: Option<String>,
}

/// Pytest-specific config.
#[derive(Debug, Default, Clone)]
pub struct PytestConfig {
    /// Custom runner script, relative to the project root.
    pub runner: Option<String>,
    /// Appended verbatim to every `pytest.main()` invocation.
    pub extra_args: Vec<String>,
}

/// Web-frontend config.
#[derive(Debug, Default, Clone)]
pub struct WebConfig {
    /// Editor command for "open in editor", split on whitespace.
    pub editor: Option<String>,
}

/// One explicitly declared test suite.
#[derive(Debug, Clone)]
pub struct SuiteConfig {
    /// Tool name, e.g. `testthat` or `pytest`.
    pub tool: String,
    /// Suite root, relative to the project root unless absolute.
    pub root: String,
    /// Globs for the files the tool operates on.
    pub run: Vec<String>,
    /// Globs for the files watched to trigger reruns.
    pub watch: Vec<String>,
    /// Custom runner script, relative to the project root.
    pub runner: Option<String>,
}

/// `[run]`.
#[derive(Debug, Clone)]
pub struct RunConfig {
    /// Restrict auto-detection to one tool; `auto` detects all.
    pub tool: String,
    pub workers: Option<usize>,
    /// Fork-based worker isolation.
    pub fork_workers: bool,
    /// Stop after this many failing files; 0 is unlimited.
    pub max_fail: u32,
    /// Colored output in plain mode.
    pub color: bool,
    /// Randomize test file order.
    pub shuffle: bool,
    /// Seed for shuffle.
    pub seed: Option<u64>,
    /// Per-file timeout in milliseconds; 0 disables it.
    pub timeout_file_ms: u64,
    /// Whole-run timeout in milliseconds; 0 disables it.
    pub timeout_run_ms: u64,
    /// Extra attempts for failing files.
    pub reruns: u32,
    /// Milliseconds between rerun attempts.
    pub reruns_delay: u64,
}

impl Default for RunConfig {
    /// Tool `auto`, color on, everything else off or zero.
    fn default() -> (r: Self)
        ensures
            r.tool@ == "auto"@,
            r.workers is None,
            !r.fork_workers,
            r.max_fail == 0,
            r.color,
            !r.shuffle,
            r.seed is None,
            r.timeout_file_ms == 0,
            r.timeout_run_ms == 0,
            r.reruns == 0,
            r.reruns_delay == 0,
    {
        RunConfig {
            tool: text::owned("auto"),
            workers: None,
            fork_workers: false,
            max_fail: 0,
            color: true,
            shuffle: false,
            seed: None,
            timeout_file_ms: 0,
            timeout_run_ms: 0,
            reruns: 0,
            reruns_delay: 0,
        }
    }
}

/// `[metadata]`: run-provenance capture.
#[derive(Debug, Clone)]
pub struct MetadataConfig {
    pub enabled: bool,
}

impl Default for MetadataConfig {
    /// Capture on.
    fn default() -> (r: Self)
        ensures
            r.enabled,
    {
        MetadataConfig { enabled: true }
    }
}

/// `[watch]`.
#[derive(Debug, Clone)]
pub struct WatchConfig {
    pub enabled: bool,
    pub debounce_ms: u64,
    pub ignore: Vec<String>,
}

impl Default for WatchConfig {
    /// Enabled, 50 ms debounce, ignoring `.git` and `*.Rhistory`.
    fn default() -> (r: Self)
        ensures
            r.enabled,
            r.debounce_ms == 50,
            str_views(r.ignore@) == seq![".git"@, "*.Rhistory"@],
    {
        let mut ignore: Vec<String> = Vec::new();
        ignore.push(text::owned(".git"));
        ignore.push(text::owned("*.Rhistory"));
        proof {
            assert(str_views(ignore@) =~= seq![".git"@, "*.Rhistory"@]);
        }
        WatchConfig { enabled: true, debounce_ms: 50, ignore }
    }
}

/// `[filter]`.
#[derive(Debug, Default, Clone)]
pub struct FilterConfig {
    pub includes: Vec<String>,
    pub exclude: Vec<String>,
    /// The selected group, if any.
    pub group: Option<String>,
    /// Named groups.
    pub groups: Vec<(String, FilterGroup)>,
}

/// One named filter group.
#[derive(Debug, Default, Clone)]
pub struct FilterGroup {
    /// Tools the group applies to; empty means all.
    pub tools: Vec<String>,
    pub includes: Vec<String>,
    pub exclude: Vec<String>,
}

impl Config {
    /// The custom runner script configured for `tool`, if any: only
    /// testthat, tinytest and pytest have one.
    pub fn runner_override(&self, tool: &str) -> (r: Option<String>)
        ensures
            tool@ == "testthat"@ ==> r == self.testthat.runner,
            tool@ == "tinytest"@ ==> r == self.tinytest.runner,
            tool@ == "pytest"@ ==> r == self.pytest.runner,
            tool@ != "testthat"@ && tool@ != "tinytest"@ && tool@ != "pytest"@ ==> r is None,
    {
        proof {
            reveal_strlit("testthat");
            reveal_strlit("tinytest");
            reveal_strlit("pytest");
            assert("tinytest"@[1] != "testthat"@[1]);
            assert("pytest"@.len() != "testthat"@.len());
            assert("pytest"@.len() != "tinytest"@.len());
        }
        if text::str_eq(tool, "testthat") {
            text::copy_opt(&self.testthat.runner)
        } else if text::str_eq(tool, "tinytest") {
            text::copy_opt(&self.tinytest.runner)
        } else if text::str_eq(tool, "pytest") {
            text::copy_opt(&self.pytest.runner)
        } else {
            None
        }
    }
}


// ── Validation ──────────────────────────────────────────────────────────────

/// The text `format!("{:?}", s)` gives for a string: `s` quoted, with
/// special characters escaped.
pub uninterp spec fn debug_quoted(s: Seq<char>) -> Seq<char>;

/// Wrapper for the `Debug` rendering of a `str`.
#[verifier::external_body]
pub(crate) fn debug_quote(s: &str) -> (r: String)
    ensures
        r@ == debug_quoted(s@),
{
    format!("{:?}", s)
}

/// What is wrong with an `[env]` key taken alone, as the error message.
pub open spec fn env_key_problem(key: Seq<char>) -> Option<Seq<char>> {
    if key.len() == 0 {
        Some("invalid [env] key: empty string"@)
    } else if key.contains('=') || key.contains('\0') {
        Some("invalid [env] key "@ + debug_quoted(key) + ": contains '=' or NUL"@)
    } else if text::is_ws(key[0]) || text::is_ws(key.last()) {
        Some("invalid [env] key "@ + debug_quoted(key) + ": leading or trailing whitespace"@)
    } else {
        None
    }
}

/// A key among `keys[..j]` equal to `key` ignoring ASCII case (the last
/// such one).
pub open spec fn earlier_same_key(keys: Seq<Seq<char>>, key: Seq<char>, j: int) -> Option<
    Seq<char>,
>
    decreases j,
{
    if j <= 0 || j > keys.len() {
        None
    } else if text::lower_ascii_seq(keys[j - 1]) == text::lower_ascii_seq(key) {
        Some(keys[j - 1])
    } else {
        earlier_same_key(keys, key, j - 1)
    }
}

/// The outcome of checking the keys from index `i` on: the first problem
/// found, in key order.
pub open spec fn env_check_from(keys: Seq<Seq<char>>, i: int) -> Result<(), Seq<char>>
    decreases keys.len() - i,
{
    if i < 0 || i >= keys.len() {
        Ok(())
    } else {
        match env_key_problem(keys[i]) {
            Some(m) => Err(m),
            None => match earlier_same_key(keys, keys[i], i) {
                Some(e) => Err(
                    "duplicate [env] key (case-insensitive, breaks on Windows): "@ + debug_quoted(e)
                        + " vs "@ + debug_quoted(keys[i]),
                ),
                None => env_check_from(keys, i + 1),
            },
        }
    }
}

/// The keys of a list of pairs.
pub open spec fn pair_keys(v: Seq<(String, String)>) -> Seq<Seq<char>> {
    v.map_values(|p: (String, String)| p.0@)
}

impl Config {
    /// Check the `[env]` keys in order: a key must be non-empty, hold no
    /// `=` or NUL, have no whitespace at either end, and differ from every
    /// earlier key ignoring ASCII case. The first violation is the error.
    pub fn validate_env(&self) -> (r: Result<(), String>)
        ensures
            match r {
                Ok(()) => env_check_from(pair_keys(self.env@), 0) == Ok::<(), Seq<char>>(()),
                Err(m) => env_check_from(pair_keys(self.env@), 0) == Err::<(), Seq<char>>(m@),
            },
    {
        let ghost keys = pair_keys(self.env@);
        let mut i: usize = 0;
        while i < self.env.len()
            invariant
                i <= self.env@.len(),
                keys == pair_keys(self.env@),
                env_check_from(keys, 0) == env_check_from(keys, i as int),
            decreases self.env@.len() - i,
        {
            let key = &self.env[i].0;
            proof {
                assert(keys[i as int] == key@);
            }
            let kc = text::chars_of(key.as_str());
            if kc.len() == 0 {
                return Err(text::owned("invalid [env] key: empty string"));
            }
            if text::has_char(kc.as_slice(), '=') || text::has_char(kc.as_slice(), '\0') {
                let mut m = text::owned("invalid [env] key ");
                let q = debug_quote(key.as_str());
                text::push_str(&mut m, q.as_str());
                text::push_str(&mut m, ": contains '=' or NUL");
                return Err(m);
            }
            if text::is_whitespace(kc[0]) || text::is_whitespace(kc[kc.len() - 1]) {
                let mut m = text::owned("invalid [env] key ");
                let q = debug_quote(key.as_str());
                text::push_str(&mut m, q.as_str());
                text::push_str(&mut m, ": leading or trailing whitespace");
                return Err(m);
            }
            proof {
                assert(env_key_problem(keys[i as int]) is None);
            }
            let mut j = i;
            while j > 0
                invariant
                    j <= i < self.env@.len(),
                    keys == pair_keys(self.env@),
                    kc@ == keys[i as int],
                    key@ == keys[i as int],
                    env_check_from(keys, 0) == env_check_from(keys, i as int),
                    env_key_problem(keys[i as int]) is None,
                    earlier_same_key(keys, keys[i as int], i as int) == earlier_same_key(
                        keys,
                        keys[i as int],
                        j as int,
                    ),
                decreases j,
            {
                let other = text::chars_of(self.env[j - 1].0.as_str());
                proof {
                    assert(keys[j - 1] == other@);
                }
                if paths::eq_ignore_ascii_case(other.as_slice(), kc.as_slice()) {
                    let mut m = text::owned(
                        "duplicate [env] key (case-insensitive, breaks on Windows): ",
                    );
                    let q1 = debug_quote(self.env[j - 1].0.as_str());
                    text::push_str(&mut m, q1.as_str());
                    text::push_str(&mut m, " vs ");
                    let q2 = debug_quote(key.as_str());
                    text::push_str(&mut m, q2.as_str());
                    proof {
                        assert(earlier_same_key(keys, keys[i as int], j as int) == Some(keys[j - 1]));
                        assert(env_check_from(keys, i as int) == Err::<(), Seq<char>>(m@));
                    }
                    return Err(m);
                }
                j = j - 1;
            }
            i = i + 1;
        }
        Ok(())
    }
}


impl PythonConfig {
    /// The interpreter argv prefix configured: the words of `interpreter`
    /// when set; otherwise, when `venv` is set, the one path
    /// `venv_python` (the interpreter found in that virtualenv); otherwise
    /// nothing, and auto-detection applies. Finding the virtualenv's
    /// interpreter on disk is the caller's part; it passes the path found.
    pub fn resolve_interpreter(&self, venv_python: String) -> (r: Vec<String>)
        ensures
            self.interpreter matches Some(i) ==> str_views(r@) == text::words(i@),
            self.interpreter is None && self.venv is Some ==> str_views(r@) == seq![venv_python@],
            self.interpreter is None && self.venv is None ==> r@.len() == 0,
    {
        match &self.interpreter {
            Some(i) => text::words_of(i.as_str()),
            None => match &self.venv {
                Some(_) => {
                    let mut v: Vec<String> = Vec::new();
                    let ghost p = venv_python@;
                    v.push(venv_python);
                    proof {
                        assert(str_views(v@) =~= seq![p]);
                    }
                    v
                },
                None => Vec::new(),
            },
        }
    }
}


// ── `--set` overrides ───────────────────────────────────────────────────────

/// A `key.path=value` override taken apart: the dotted key's segments
/// (after trimming the key) and the raw right-hand side. An entry without
/// `=` or with an empty key is refused with the message shown.
pub open spec fn override_parts(entry: Seq<char>) -> Result<(Seq<Seq<char>>, Seq<char>), Seq<char>> {
    if !entry.contains('=') {
        Err("invalid --set "@ + debug_quoted(entry) + ": expected key=value"@)
    } else {
        let i = entry.index_of_first('=')->0;
        let key = text::trim(entry.subrange(0, i));
        if key.len() == 0 {
            Err("invalid --set "@ + debug_quoted(entry) + ": empty key"@)
        } else {
            Ok((text::split(key, '.'), entry.subrange(i + 1, entry.len() as int)))
        }
    }
}

/// Take a `--set key.path=value` entry apart (see [`override_parts`]).
/// Walking the configuration tree along the segments, and reading the
/// value as TOML, is the caller's part.
pub fn split_override(entry: &str) -> (r: Result<(Vec<String>, String), String>)
    ensures
        match r {
            Ok((parts, raw)) => override_parts(entry@) == Ok::<(Seq<Seq<char>>, Seq<char>), Seq<char>>(
                (str_views(parts@), raw@),
            ),
            Err(m) => override_parts(entry@) == Err::<(Seq<Seq<char>>, Seq<char>), Seq<char>>(m@),
        },
{
    let ec = text::chars_of(entry);
    proof {
        ec@.index_of_first_ensures('=');
    }
    match text::first_index_of(ec.as_slice(), '=') {
        None => {
            let mut m = text::owned("invalid --set ");
            let q = debug_quote(entry);
            text::push_str(&mut m, q.as_str());
            text::push_str(&mut m, ": expected key=value");
            Err(m)
        },
        Some(i) => {
            proof {
                assert(ec@.contains('='));
                assert(ec@.index_of_first('=') == Some(i as int));
            }
            let raw_key = text::slice_of(ec.as_slice(), 0, i);
            let key = text::trim_chars(raw_key.as_slice());
            if key.len() == 0 {
                let mut m = text::owned("invalid --set ");
                let q = debug_quote(entry);
                text::push_str(&mut m, q.as_str());
                text::push_str(&mut m, ": empty key");
                return Err(m);
            }
            let pieces = text::split_chars(key.as_slice(), '.');
            let mut parts: Vec<String> = Vec::new();
            let mut k: usize = 0;
            while k < pieces.len()
                invariant
                    k <= pieces@.len(),
                    pieces@.len() == text::split(key@, '.').len(),
                    forall|j: int| 0 <= j < pieces@.len() ==> (#[trigger] pieces@[j])@ == text::split(key@, '.')[j],
                    str_views(parts@) == text::split(key@, '.').subrange(0, k as int),
                decreases pieces@.len() - k,
            {
                let ghost before = str_views(parts@);
                parts.push(text::string_from(pieces[k].as_slice()));
                proof {
                    assert(str_views(parts@) =~= before.push(pieces@[k as int]@));
                    assert(text::split(key@, '.').subrange(0, k + 1) =~= text::split(key@, '.').subrange(
                        0,
                        k as int,
                    ).push(text::split(key@, '.')[k as int]));
                }
                k = k + 1;
            }
            proof {
                assert(text::split(key@, '.').subrange(0, pieces@.len() as int) =~= text::split(key@, '.'));
            }
            let raw = text::slice_of(ec.as_slice(), i + 1, ec.len());
            Ok((parts, text::string_from(raw.as_slice())))
        },
    }
}

} // verus!
