//! What each built-in tool plugin declares: its name and language, the
//! files it runs on and watches, the outcomes and subjects it reports, the
//! keyboard actions it offers, and, for command-mode tools, the command it
//! runs. Detecting a tool in a project and spawning it are the caller's
//! part.
use vstd::prelude::*;

use crate::paths;
use crate::protocol::Outcome;
use crate::python;
use crate::text;
use crate::text::str_views;

verus! {

/// Command-mode execution: the base argv; the target file's path is
/// appended as the last argument at run time.
#[derive(Debug, Clone)]
pub struct CommandSpec {
    pub argv: Vec<String>,
}

/// Whether a plugin action targets the selected file or every file of the
/// suite.
#[derive(Clone, Copy, Debug, PartialEq, Eq, Structural)]
pub enum ActionScope {
    /// The selected file (its path appended as the last argument).
    File,
    /// Every file of the suite, appended in one invocation.
    All,
}

impl Default for ActionScope {
    fn default() -> (r: ActionScope)
        ensures
            r == ActionScope::File,
    {
        ActionScope::File
    }
}

/// A plugin-defined action triggered from the TUI or web UI.
#[derive(Clone, Debug)]
pub struct PluginAction {
    /// Stable identifier (`fix`, `fix_unsafe`, ...).
    pub name: &'static str,
    /// Keyboard shortcut.
    pub key: char,
    /// Label for the hints bar and buttons.
    pub label: &'static str,
    /// Base command (argv); the target path is appended.
    pub command: Vec<String>,
    /// Re-run the file through the plugin afterwards.
    pub rerun: bool,
    pub scope: ActionScope,
}

/// The plain view of an action.
pub open spec fn action_view(a: PluginAction) -> (Seq<char>, char, Seq<char>, Seq<Seq<char>>, bool, ActionScope) {
    (a.name@, a.key, a.label@, str_views(a.command@), a.rerun, a.scope)
}

/// The plain view of a list of actions.
pub open spec fn actions_view(v: Seq<PluginAction>) -> Seq<(Seq<char>, char, Seq<char>, Seq<Seq<char>>, bool, ActionScope)> {
    v.map_values(|a: PluginAction| action_view(a))
}

/// The views of a list of string slices.
pub open spec fn slice_views(v: Seq<&str>) -> Seq<Seq<char>> {
    v.map_values(|x: &str| x@)
}

/// Owned copies of string slices, in order.
fn strings_of(items: &[&str]) -> (r: Vec<String>)
    ensures
        str_views(r@) == slice_views(items@),
{
    let mut r: Vec<String> = Vec::new();
    let mut i: usize = 0;
    while i < items.len()
        invariant
            i <= items@.len(),
            str_views(r@) == slice_views(items@.subrange(0, i as int)),
        decreases items@.len() - i,
    {
        let ghost before = r@;
        r.push(text::owned(items[i]));
        proof {
            assert(str_views(r@) =~= str_views(before).push(items@[i as int]@));
            assert(slice_views(items@.subrange(0, i + 1)) =~= slice_views(items@.subrange(0, i as int)).push(
                items@[i as int]@,
            ));
        }
        i = i + 1;
    }
    proof {
        assert(items@.subrange(0, items@.len() as int) =~= items@);
    }
    r
}

/// `stem` followed by `suffix`.
fn stem_with(stem: &str, suffix: &str) -> (r: String)
    ensures
        r@ == stem@ + suffix@,
{
    let mut s = text::owned(stem);
    text::push_str(&mut s, suffix);
    s
}

/// `prefix` followed by `stem` and `suffix`.
fn around_stem(prefix: &str, stem: &str, suffix: &str) -> (r: String)
    ensures
        r@ == prefix@ + stem@ + suffix@,
{
    let mut s = text::owned(prefix);
    text::push_str(&mut s, stem);
    text::push_str(&mut s, suffix);
    s
}

/// The outcomes of a linter or spell checker.
pub open spec fn lint_outcomes() -> Seq<Outcome> {
    seq![Outcome::Pass, Outcome::Warn, Outcome::Error]
}

/// [`lint_outcomes`] as a list.
fn lint_outcome_list() -> (r: Vec<Outcome>)
    ensures
        r@ == lint_outcomes(),
{
    let mut v: Vec<Outcome> = Vec::new();
    v.push(Outcome::Pass);
    v.push(Outcome::Warn);
    v.push(Outcome::Error);
    proof {
        assert(v@ =~= lint_outcomes());
    }
    v
}

/// The four fix actions of a linter: fix and fix-unsafe, on the file and on
/// all files, with labels led by `tool_label`.
pub open spec fn linter_actions(
    fix_label: Seq<char>,
    fix_unsafe_label: Seq<char>,
    fix_all_label: Seq<char>,
    fix_unsafe_all_label: Seq<char>,
    fix: Seq<Seq<char>>,
    fix_unsafe: Seq<Seq<char>>,
) -> Seq<(Seq<char>, char, Seq<char>, Seq<Seq<char>>, bool, ActionScope)> {
    seq![
        ("fix"@, 'f', fix_label, fix, true, ActionScope::File),
        ("fix_unsafe"@, 'F', fix_unsafe_label, fix_unsafe, true, ActionScope::File),
        ("fix_all"@, 'a', fix_all_label, fix, true, ActionScope::All),
        ("fix_unsafe_all"@, 'A', fix_unsafe_all_label, fix_unsafe, true, ActionScope::All),
    ]
}

/// The four fix actions of a linter (see [`linter_actions`]).
fn linter_action_list(
    fix_label: &'static str,
    fix_unsafe_label: &'static str,
    fix_all_label: &'static str,
    fix_unsafe_all_label: &'static str,
    fix: &[&str],
    fix_unsafe: &[&str],
) -> (r: Vec<PluginAction>)
    ensures
        actions_view(r@) == linter_actions(
            fix_label@,
            fix_unsafe_label@,
            fix_all_label@,
            fix_unsafe_all_label@,
            slice_views(fix@),
            slice_views(fix_unsafe@),
        ),
{
    let mut v: Vec<PluginAction> = Vec::new();
    v.push(
        PluginAction {
            name: "fix",
            key: 'f',
            label: fix_label,
            command: strings_of(fix),
            rerun: true,
            scope: ActionScope::File,
        },
    );
    v.push(
        PluginAction {
            name: "fix_unsafe",
            key: 'F',
            label: fix_unsafe_label,
            command: strings_of(fix_unsafe),
            rerun: true,
            scope: ActionScope::File,
        },
    );
    v.push(
        PluginAction {
            name: "fix_all",
            key: 'a',
            label: fix_all_label,
            command: strings_of(fix),
            rerun: true,
            scope: ActionScope::All,
        },
    );
    v.push(
        PluginAction {
            name: "fix_unsafe_all",
            key: 'A',
            label: fix_unsafe_all_label,
            command: strings_of(fix_unsafe),
            rerun: true,
            scope: ActionScope::All,
        },
    );
    proof {
        assert(actions_view(v@) =~= linter_actions(
            fix_label@,
            fix_unsafe_label@,
            fix_all_label@,
            fix_unsafe_all_label@,
            slice_views(fix@),
            slice_views(fix_unsafe@),
        ));
    }
    v
}

// ── ruff ────────────────────────────────────────────────────────────────────

/// The ruff linter (command mode).
#[derive(Debug, Clone, Copy)]
pub struct RuffPlugin;

impl RuffPlugin {
    pub fn name(&self) -> (r: &'static str)
        ensures
            r@ == "ruff"@,
    {
        "ruff"
    }

    pub fn language(&self) -> (r: &'static str)
        ensures
            r@ == "python"@,
    {
        "python"
    }

    /// Every `.py` under the suite root.
    pub fn default_run(&self) -> (r: Vec<String>)
        ensures
            str_views(r@) == slice_views(["**/*.py"]@),
    {
        strings_of(&["**/*.py"])
    }

    pub fn default_watch(&self) -> (r: Vec<String>)
        ensures
            r@.len() == 0,
    {
        Vec::new()
    }

    /// Any `.py` file (extension compared ignoring ASCII case).
    pub fn is_test_file(&self, path: &str) -> (r: bool)
        ensures
            r == paths::has_extension_spec(path@, slice_views(["py"]@)),
    {
        paths::has_extension(path, &["py"])
    }

    /// A lint target depends only on itself.
    pub fn is_source_file(&self, path: &str) -> (r: bool)
        ensures
            !r,
    {
        false
    }

    pub fn test_file_candidates(&self, stem: &str) -> (r: Vec<String>)
        ensures
            str_views(r@) == seq![stem@ + ".py"@],
    {
        let mut v: Vec<String> = Vec::new();
        v.push(stem_with(stem, ".py"));
        proof {
            assert(str_views(v@) =~= seq![stem@ + ".py"@]);
        }
        v
    }

    pub fn supported_outcomes(&self) -> (r: Vec<Outcome>)
        ensures
            r@ == lint_outcomes(),
    {
        lint_outcome_list()
    }

    pub fn subject_label(&self) -> (r: &'static str)
        ensures
            r@ == "rule"@,
    {
        "rule"
    }

    /// `ruff check --fix` (and `--unsafe-fixes`), on the file or all files.
    pub fn actions(&self) -> (r: Vec<PluginAction>)
        ensures
            actions_view(r@) == linter_actions(
                "Ruff: fix"@,
                "Ruff: fix (unsafe)"@,
                "Ruff: fix all"@,
                "Ruff: fix all (unsafe)"@,
                slice_views(["ruff", "check", "--fix"]@),
                slice_views(["ruff", "check", "--fix", "--unsafe-fixes"]@),
            ),
    {
        linter_action_list(
            "Ruff: fix",
            "Ruff: fix (unsafe)",
            "Ruff: fix all",
            "Ruff: fix all (unsafe)",
            &["ruff", "check", "--fix"],
            &["ruff", "check", "--fix", "--unsafe-fixes"],
        )
    }

    /// `ruff check --output-format json <file>`.
    pub fn command_spec(&self) -> (r: Option<CommandSpec>)
        ensures
            r matches Some(c) && str_views(c.argv@) == slice_views(
                ["ruff", "check", "--output-format", "json"]@,
            ),
    {
        Some(CommandSpec { argv: strings_of(&["ruff", "check", "--output-format", "json"]) })
    }
}


// ── jarl ────────────────────────────────────────────────────────────────────

/// The jarl linter for R (command mode).
#[derive(Debug, Clone, Copy)]
pub struct JarlPlugin;

impl JarlPlugin {
    pub fn name(&self) -> (r: &'static str)
        ensures
            r@ == "jarl"@,
    {
        "jarl"
    }

    pub fn language(&self) -> (r: &'static str)
        ensures
            r@ == "r"@,
    {
        "r"
    }

    /// The directory linted: `R/`.
    pub fn test_dirs(&self) -> (r: Vec<String>)
        ensures
            str_views(r@) == slice_views(["R"]@),
    {
        strings_of(&["R"])
    }

    /// No separate source files: each file depends only on itself.
    pub fn source_dirs(&self) -> (r: Vec<String>)
        ensures
            r@.len() == 0,
    {
        Vec::new()
    }

    /// The runner script basename (jarl runs no worker).
    pub fn runner_basename(&self) -> (r: String)
        ensures
            r@ == "runner_jarl.R"@,
    {
        text::owned("runner_jarl.R")
    }

    /// Any `.R` file (extension compared ignoring ASCII case).
    pub fn is_test_file(&self, path: &str) -> (r: bool)
        ensures
            r == paths::has_extension_spec(path@, slice_views(["r"]@)),
    {
        paths::has_extension(path, &["r"])
    }

    pub fn is_source_file(&self, path: &str) -> (r: bool)
        ensures
            !r,
    {
        false
    }

    pub fn test_file_candidates(&self, stem: &str) -> (r: Vec<String>)
        ensures
            str_views(r@) == seq![stem@ + ".R"@, stem@ + ".r"@],
    {
        let mut v: Vec<String> = Vec::new();
        v.push(stem_with(stem, ".R"));
        v.push(stem_with(stem, ".r"));
        proof {
            assert(str_views(v@) =~= seq![stem@ + ".R"@, stem@ + ".r"@]);
        }
        v
    }

    pub fn supported_outcomes(&self) -> (r: Vec<Outcome>)
        ensures
            r@ == lint_outcomes(),
    {
        lint_outcome_list()
    }

    pub fn subject_label(&self) -> (r: &'static str)
        ensures
            r@ == "rule"@,
    {
        "rule"
    }

    /// `jarl check --fix` (and `--unsafe-fixes`), allowing a dirty or
    /// missing VCS, on the file or all files.
    pub fn actions(&self) -> (r: Vec<PluginAction>)
        ensures
            actions_view(r@) == linter_actions(
                "Jarl: fix"@,
                "Jarl: fix (unsafe)"@,
                "Jarl: fix all"@,
                "Jarl: fix all (unsafe)"@,
                slice_views(["jarl", "check", "--fix", "--allow-dirty", "--allow-no-vcs"]@),
                slice_views(
                    ["jarl", "check", "--fix", "--unsafe-fixes", "--allow-dirty", "--allow-no-vcs"]@,
                ),
            ),
    {
        linter_action_list(
            "Jarl: fix",
            "Jarl: fix (unsafe)",
            "Jarl: fix all",
            "Jarl: fix all (unsafe)",
            &["jarl", "check", "--fix", "--allow-dirty", "--allow-no-vcs"],
            &["jarl", "check", "--fix", "--unsafe-fixes", "--allow-dirty", "--allow-no-vcs"],
        )
    }

    /// The environment of jarl's invocations (the R plugins' shape).
    pub fn env_vars(&self, root: &str) -> (r: Vec<(String, String)>)
        ensures
            r@.len() == 2,
            r@[0].0@ == "SCRUTIN_TOOL"@,
            r@[0].1@ == "jarl"@,
            r@[1].0@ == "SCRUTIN_PKG_DIR"@,
            r@[1].1@ == root@,
    {
        crate::r::r_env_vars("jarl", root)
    }

    pub fn is_noise_line(&self, line: &str) -> (r: bool)
        ensures
            r == crate::r::is_noise(line@),
    {
        crate::r::r_is_noise_line(line)
    }

    pub fn script_extension(&self) -> (r: &'static str)
        ensures
            r@ == "R"@,
    {
        "R"
    }

    /// `jarl check --output-format json <file>`.
    pub fn command_spec(&self) -> (r: Option<CommandSpec>)
        ensures
            r matches Some(c) && str_views(c.argv@) == slice_views(
                ["jarl", "check", "--output-format", "json"]@,
            ),
    {
        Some(CommandSpec { argv: strings_of(&["jarl", "check", "--output-format", "json"]) })
    }
}

// ── typos ───────────────────────────────────────────────────────────────────

/// The typos spell checker (command mode), for source and prose files.
#[derive(Debug, Clone, Copy)]
pub struct TyposPlugin;

impl TyposPlugin {
    pub fn name(&self) -> (r: &'static str)
        ensures
            r@ == "typos"@,
    {
        "typos"
    }

    pub fn language(&self) -> (r: &'static str)
        ensures
            r@ == "prose"@,
    {
        "prose"
    }

    /// Common source and prose extensions, anywhere under the suite root.
    pub fn default_run(&self) -> (r: Vec<String>)
        ensures
            str_views(r@) == slice_views(
                [
                    "**/*.md",
                    "**/*.markdown",
                    "**/*.txt",
                    "**/*.rst",
                    "**/*.qmd",
                    "**/*.Rmd",
                    "**/*.R",
                    "**/*.r",
                    "**/*.py",
                    "**/*.rs",
                    "**/*.js",
                    "**/*.ts",
                    "**/*.go",
                    "**/*.c",
                    "**/*.h",
                    "**/*.cpp",
                    "**/*.hpp",
                    "**/*.java",
                    "**/*.rb",
                    "**/*.sh",
                    "**/*.toml",
                    "**/*.yaml",
                    "**/*.yml",
                ]@,
            ),
    {
        strings_of(
            &[
                "**/*.md",
                "**/*.markdown",
                "**/*.txt",
                "**/*.rst",
                "**/*.qmd",
                "**/*.Rmd",
                "**/*.R",
                "**/*.r",
                "**/*.py",
                "**/*.rs",
                "**/*.js",
                "**/*.ts",
                "**/*.go",
                "**/*.c",
                "**/*.h",
                "**/*.cpp",
                "**/*.hpp",
                "**/*.java",
                "**/*.rb",
                "**/*.sh",
                "**/*.toml",
                "**/*.yaml",
                "**/*.yml",
            ],
        )
    }

    pub fn default_watch(&self) -> (r: Vec<String>)
        ensures
            r@.len() == 0,
    {
        Vec::new()
    }

    /// A file whose extension (ignoring ASCII case) is one of the default
    /// run set's.
    pub fn is_test_file(&self, path: &str) -> (r: bool)
        ensures
            r == paths::has_extension_spec(
                path@,
                slice_views(
                    [
                        "md",
                        "markdown",
                        "txt",
                        "rst",
                        "qmd",
                        "rmd",
                        "r",
                        "py",
                        "rs",
                        "js",
                        "ts",
                        "go",
                        "c",
                        "h",
                        "cpp",
                        "hpp",
                        "java",
                        "rb",
                        "sh",
                        "toml",
                        "yaml",
                        "yml",
                    ]@,
                ),
            ),
    {
        paths::has_extension(
            path,
            &[
                "md",
                "markdown",
                "txt",
                "rst",
                "qmd",
                "rmd",
                "r",
                "py",
                "rs",
                "js",
                "ts",
                "go",
                "c",
                "h",
                "cpp",
                "hpp",
                "java",
                "rb",
                "sh",
                "toml",
                "yaml",
                "yml",
            ],
        )
    }

    pub fn is_source_file(&self, path: &str) -> (r: bool)
        ensures
            !r,
    {
        false
    }

    pub fn supported_outcomes(&self) -> (r: Vec<Outcome>)
        ensures
            r@ == lint_outcomes(),
    {
        lint_outcome_list()
    }

    pub fn subject_label(&self) -> (r: &'static str)
        ensures
            r@ == "typo"@,
    {
        "typo"
    }

    /// `typos --write-changes`, on the file or on all files.
    pub fn actions(&self) -> (r: Vec<PluginAction>)
        ensures
            actions_view(r@) == seq![
                ("fix"@, 'f', "Typos: fix"@, slice_views(["typos", "--write-changes"]@), true, ActionScope::File),
                ("fix_all"@, 'a', "Typos: fix all"@, slice_views(["typos", "--write-changes"]@), true, ActionScope::All),
            ],
    {
        let mut v: Vec<PluginAction> = Vec::new();
        v.push(
            PluginAction {
                name: "fix",
                key: 'f',
                label: "Typos: fix",
                command: strings_of(&["typos", "--write-changes"]),
                rerun: true,
                scope: ActionScope::File,
            },
        );
        v.push(
            PluginAction {
                name: "fix_all",
                key: 'a',
                label: "Typos: fix all",
                command: strings_of(&["typos", "--write-changes"]),
                rerun: true,
                scope: ActionScope::All,
            },
        );
        proof {
            assert(actions_view(v@) =~= seq![
                ("fix"@, 'f', "Typos: fix"@, slice_views(["typos", "--write-changes"]@), true, ActionScope::File),
                ("fix_all"@, 'a', "Typos: fix all"@, slice_views(["typos", "--write-changes"]@), true, ActionScope::All),
            ]);
        }
        v
    }

    /// `typos --format json <file>`.
    pub fn command_spec(&self) -> (r: Option<CommandSpec>)
        ensures
            r matches Some(c) && str_views(c.argv@) == slice_views(["typos", "--format", "json"]@),
    {
        Some(CommandSpec { argv: strings_of(&["typos", "--format", "json"]) })
    }
}

// ── skyspell ────────────────────────────────────────────────────────────────

/// The skyspell spell checker (command mode), for prose files.
#[derive(Debug, Clone, Copy)]
pub struct SkyspellPlugin;

impl SkyspellPlugin {
    pub fn name(&self) -> (r: &'static str)
        ensures
            r@ == "skyspell"@,
    {
        "skyspell"
    }

    pub fn language(&self) -> (r: &'static str)
        ensures
            r@ == "prose"@,
    {
        "prose"
    }

    /// Prose files anywhere under the suite root.
    pub fn default_run(&self) -> (r: Vec<String>)
        ensures
            str_views(r@) == slice_views(
                ["**/*.md", "**/*.markdown", "**/*.txt", "**/*.rst", "**/*.qmd", "**/*.Rmd"]@,
            ),
    {
        strings_of(&["**/*.md", "**/*.markdown", "**/*.txt", "**/*.rst", "**/*.qmd", "**/*.Rmd"])
    }

    pub fn default_watch(&self) -> (r: Vec<String>)
        ensures
            r@.len() == 0,
    {
        Vec::new()
    }

    /// A prose file: `md`, `markdown`, `txt`, `rst`, `qmd` or `Rmd`
    /// (extension compared ignoring ASCII case).
    pub fn is_test_file(&self, path: &str) -> (r: bool)
        ensures
            r == paths::has_extension_spec(path@, slice_views(["md", "markdown", "txt", "rst", "qmd", "rmd"]@)),
    {
        paths::has_extension(path, &["md", "markdown", "txt", "rst", "qmd", "rmd"])
    }

    pub fn is_source_file(&self, path: &str) -> (r: bool)
        ensures
            !r,
    {
        false
    }

    pub fn supported_outcomes(&self) -> (r: Vec<Outcome>)
        ensures
            r@ == lint_outcomes(),
    {
        lint_outcome_list()
    }

    pub fn subject_label(&self) -> (r: &'static str)
        ensures
            r@ == "word"@,
    {
        "word"
    }

    /// `skyspell --project-path <root> <extra args> check --output-format
    /// json <file>`; the extra args carry the language.
    pub fn command_spec(&self, root: &str, extra_args: &Vec<String>) -> (r: Option<CommandSpec>)
        ensures
            r matches Some(c) && str_views(c.argv@) == seq!["skyspell"@, "--project-path"@, root@] + str_views(
                extra_args@,
            ) + slice_views(["check", "--output-format", "json"]@),
    {
        let mut argv: Vec<String> = Vec::new();
        argv.push(text::owned("skyspell"));
        argv.push(text::owned("--project-path"));
        argv.push(text::owned(root));
        proof {
            assert(str_views(argv@) =~= seq!["skyspell"@, "--project-path"@, root@]);
        }
        let ghost a0 = str_views(argv@);
        let mut i: usize = 0;
        while i < extra_args.len()
            invariant
                i <= extra_args@.len(),
                str_views(argv@) == a0 + str_views(extra_args@).subrange(0, i as int),
            decreases extra_args@.len() - i,
        {
            let ghost before = str_views(argv@);
            argv.push(extra_args[i].clone());
            proof {
                assert(str_views(argv@) =~= before.push(extra_args@[i as int]@));
                assert(str_views(extra_args@).subrange(0, i + 1) =~= str_views(extra_args@).subrange(
                    0,
                    i as int,
                ).push(extra_args@[i as int]@));
            }
            i = i + 1;
        }
        let ghost a1 = str_views(argv@);
        let tail = strings_of(&["check", "--output-format", "json"]);
        let mut j: usize = 0;
        while j < tail.len()
            invariant
                j <= tail@.len(),
                str_views(argv@) == a1 + str_views(tail@).subrange(0, j as int),
            decreases tail@.len() - j,
        {
            let ghost before = str_views(argv@);
            argv.push(tail[j].clone());
            proof {
                assert(str_views(argv@) =~= before.push(tail@[j as int]@));
                assert(str_views(tail@).subrange(0, j + 1) =~= str_views(tail@).subrange(0, j as int).push(
                    tail@[j as int]@,
                ));
            }
            j = j + 1;
        }
        proof {
            assert(str_views(extra_args@).subrange(0, extra_args@.len() as int) =~= str_views(extra_args@));
            assert(str_views(tail@).subrange(0, tail@.len() as int) =~= str_views(tail@));
            assert(str_views(argv@) =~= seq!["skyspell"@, "--project-path"@, root@] + str_views(extra_args@)
                + slice_views(["check", "--output-format", "json"]@));
        }
        Some(CommandSpec { argv })
    }
}

// ── pytest and Great Expectations ───────────────────────────────────────────

/// The pytest test runner (worker mode).
#[derive(Debug, Clone, Copy)]
pub struct PytestPlugin;

impl PytestPlugin {
    pub fn name(&self) -> (r: &'static str)
        ensures
            r@ == "pytest"@,
    {
        "pytest"
    }

    pub fn language(&self) -> (r: &'static str)
        ensures
            r@ == "python"@,
    {
        "python"
    }

    pub fn runner_basename(&self) -> (r: String)
        ensures
            r@ == "runner_pytest.py"@,
    {
        text::owned("runner_pytest.py")
    }

    /// pytest's file naming conventions under `tests/`, `test/` and the
    /// suite root.
    pub fn default_run(&self) -> (r: Vec<String>)
        ensures
            str_views(r@) == slice_views(
                [
                    "tests/**/test_*.py",
                    "tests/**/*_test.py",
                    "test/**/test_*.py",
                    "test/**/*_test.py",
                    "test_*.py",
                    "*_test.py",
                ]@,
            ),
    {
        strings_of(
            &[
                "tests/**/test_*.py",
                "tests/**/*_test.py",
                "test/**/test_*.py",
                "test/**/*_test.py",
                "test_*.py",
                "*_test.py",
            ],
        )
    }

    /// Python sources under `src/`, `lib/` and anywhere else.
    pub fn default_watch(&self) -> (r: Vec<String>)
        ensures
            str_views(r@) == slice_views(["src/**/*.py", "lib/**/*.py", "**/*.py"]@),
    {
        strings_of(&["src/**/*.py", "lib/**/*.py", "**/*.py"])
    }

    /// A pytest-style file name (`test_*.py` or `*_test.py`).
    pub fn is_test_file(&self, path: &str) -> (r: bool)
        ensures
            r == (paths::file_name(path@) matches Some(n) && python::is_test_filename(n)),
    {
        python::py_is_test_path(path)
    }

    /// A `.py` file.
    pub fn is_source_file(&self, path: &str) -> (r: bool)
        ensures
            r == (paths::extension(path@) == Some("py"@)),
    {
        python::py_is_source_path(path)
    }

    pub fn test_file_candidates(&self, stem: &str) -> (r: Vec<String>)
        ensures
            str_views(r@) == seq!["test_"@ + stem@ + ".py"@, stem@ + "_test.py"@],
    {
        let mut v: Vec<String> = Vec::new();
        v.push(around_stem("test_", stem, ".py"));
        v.push(stem_with(stem, "_test.py"));
        proof {
            assert(str_views(v@) =~= seq!["test_"@ + stem@ + ".py"@, stem@ + "_test.py"@]);
        }
        v
    }

    /// The four unit-test outcomes.
    pub fn supported_outcomes(&self) -> (r: Vec<Outcome>)
        ensures
            r@ == seq![Outcome::Pass, Outcome::Fail, Outcome::Error, Outcome::Skip],
    {
        let mut v: Vec<Outcome> = Vec::new();
        v.push(Outcome::Pass);
        v.push(Outcome::Fail);
        v.push(Outcome::Error);
        v.push(Outcome::Skip);
        proof {
            assert(v@ =~= seq![Outcome::Pass, Outcome::Fail, Outcome::Error, Outcome::Skip]);
        }
        v
    }

    pub fn subject_label(&self) -> (r: &'static str)
        ensures
            r@ == "test"@,
    {
        "test"
    }
}

/// The Great Expectations data validator (worker mode).
#[derive(Debug, Clone, Copy)]
pub struct GreatExpectationsPlugin;

impl GreatExpectationsPlugin {
    pub fn name(&self) -> (r: &'static str)
        ensures
            r@ == "great_expectations"@,
    {
        "great_expectations"
    }

    pub fn language(&self) -> (r: &'static str)
        ensures
            r@ == "python"@,
    {
        "python"
    }

    /// pytest-style names under `tests/`.
    pub fn default_run(&self) -> (r: Vec<String>)
        ensures
            str_views(r@) == slice_views(["tests/**/test_*.py", "tests/**/*_test.py"]@),
    {
        strings_of(&["tests/**/test_*.py", "tests/**/*_test.py"])
    }

    pub fn default_watch(&self) -> (r: Vec<String>)
        ensures
            str_views(r@) == slice_views(["src/**/*.py", "lib/**/*.py", "**/*.py"]@),
    {
        strings_of(&["src/**/*.py", "lib/**/*.py", "**/*.py"])
    }

    pub fn is_test_file(&self, path: &str) -> (r: bool)
        ensures
            r == (paths::file_name(path@) matches Some(n) && python::is_test_filename(n)),
    {
        python::py_is_test_path(path)
    }

    pub fn is_source_file(&self, path: &str) -> (r: bool)
        ensures
            r == (paths::extension(path@) == Some("py"@)),
    {
        python::py_is_source_path(path)
    }

    pub fn test_file_candidates(&self, stem: &str) -> (r: Vec<String>)
        ensures
            str_views(r@) == seq!["test_"@ + stem@ + ".py"@, stem@ + "_test.py"@],
    {
        let mut v: Vec<String> = Vec::new();
        v.push(around_stem("test_", stem, ".py"));
        v.push(stem_with(stem, "_test.py"));
        proof {
            assert(str_views(v@) =~= seq!["test_"@ + stem@ + ".py"@, stem@ + "_test.py"@]);
        }
        v
    }

    /// Pass, fail, error and expected failures (no skip, no warn).
    pub fn supported_outcomes(&self) -> (r: Vec<Outcome>)
        ensures
            r@ == seq![Outcome::Pass, Outcome::Fail, Outcome::Error, Outcome::Xfail],
    {
        let mut v: Vec<Outcome> = Vec::new();
        v.push(Outcome::Pass);
        v.push(Outcome::Fail);
        v.push(Outcome::Error);
        v.push(Outcome::Xfail);
        proof {
            assert(v@ =~= seq![Outcome::Pass, Outcome::Fail, Outcome::Error, Outcome::Xfail]);
        }
        v
    }

    pub fn subject_label(&self) -> (r: &'static str)
        ensures
            r@ == "expectation"@,
    {
        "expectation"
    }
}

} // verus!
