//! Process- and worker-level hook scripts: which scripts apply, where they
//! lie, and what a check or run of one reports. Looking at the files and
//! running them is the caller's part; process hooks run once per
//! invocation, worker hooks are handed to the runner subprocesses.
use vstd::prelude::*;

use crate::config::{Config, LanguageHooks, ToolHooks};
use crate::git::{join_path, join_path_exec};
use crate::text;

verus! {

/// Process-level hooks, resolved against a project root.
#[derive(Debug, Clone)]
pub struct ProcessHooks {
    pub project_root: String,
    /// The startup script as configured (relative to the root or absolute).
    pub startup: Option<String>,
    /// The teardown script as configured.
    pub teardown: Option<String>,
    /// `[env]`, applied to both scripts, in key order.
    pub env: Vec<(String, String)>,
}

/// A copy of a list of string pairs.
pub(crate) fn copy_pairs(v: &Vec<(String, String)>) -> (r: Vec<(String, String)>)
    ensures
        r@ == v@,
{
    let mut r: Vec<(String, String)> = Vec::new();
    let mut i: usize = 0;
    while i < v.len()
        invariant
            i <= v@.len(),
            r@ == v@.subrange(0, i as int),
        decreases v@.len() - i,
    {
        let a = v[i].0.clone();
        let b = v[i].1.clone();
        r.push((a, b));
        proof {
            assert(r@ =~= v@.subrange(0, i + 1));
        }
        i = i + 1;
    }
    proof {
        assert(v@.subrange(0, v@.len() as int) =~= v@);
    }
    r
}

/// A configured script path taken under the project root.
pub open spec fn script_under(root: Seq<char>, rel: Option<String>) -> Option<Seq<char>> {
    match rel {
        Some(r) => Some(join_path(root, r@)),
        None => None,
    }
}

/// [`script_under`] computed.
fn script_under_exec(root: &str, rel: &Option<String>) -> (r: Option<String>)
    ensures
        match r {
            Some(s) => script_under(root@, *rel) == Some(s@),
            None => script_under(root@, *rel) is None,
        },
{
    match rel {
        Some(p) => Some(join_path_exec(root, p.as_str())),
        None => None,
    }
}

impl ProcessHooks {
    /// The process hooks of a configuration, for a project root.
    pub fn from_config(cfg: &Config, project_root: &str) -> (h: ProcessHooks)
        ensures
            h.project_root@ == project_root@,
            h.startup == cfg.hooks.startup,
            h.teardown == cfg.hooks.teardown,
            h.env@ == cfg.env@,
    {
        ProcessHooks {
            project_root: text::owned(project_root),
            startup: text::copy_opt(&cfg.hooks.startup),
            teardown: text::copy_opt(&cfg.hooks.teardown),
            env: copy_pairs(&cfg.env),
        }
    }

    /// The startup script to run, as an absolute path: a relative
    /// configured path is taken under the project root. `None` when no
    /// startup hook is configured (running it is then a no-op).
    pub fn startup_script(&self) -> (r: Option<String>)
        ensures
            match r {
                Some(s) => script_under(self.project_root@, self.startup) == Some(s@),
                None => self.startup is None,
            },
    {
        script_under_exec(self.project_root.as_str(), &self.startup)
    }

    /// The teardown script to run, as [`ProcessHooks::startup_script`].
    pub fn teardown_script(&self) -> (r: Option<String>)
        ensures
            match r {
                Some(s) => script_under(self.project_root@, self.teardown) == Some(s@),
                None => self.teardown is None,
            },
    {
        script_under_exec(self.project_root.as_str(), &self.teardown)
    }
}

/// What a look at a hook script found.
#[derive(Clone, Copy, Debug, PartialEq, Eq, Structural)]
pub enum ScriptState {
    /// Nothing at the path.
    Missing,
    /// Something other than a regular file.
    NotAFile,
    /// A regular file without any executable bit.
    NotExecutable,
    /// A regular file that may be run.
    Ready,
}

/// The error for a hook script in state `state`: a missing path and a
/// non-file are errors for every hook; a missing executable bit only when
/// the script is run rather than sourced (`need_exec`).
pub open spec fn script_problem_text(path: Seq<char>, label: Seq<char>, state: ScriptState, need_exec: bool) -> Option<
    Seq<char>,
> {
    match state {
        ScriptState::Missing => Some("hook script not found: "@ + path + " ("@ + label + ")"@),
        ScriptState::NotAFile => Some(
            "hook script is not a regular file: "@ + path + " ("@ + label + ")"@,
        ),
        ScriptState::NotExecutable => if need_exec {
            Some(
                "hook script not executable: "@ + path + " ("@ + label + "), run: chmod +x "@
                    + path,
            )
        } else {
            None
        },
        ScriptState::Ready => None,
    }
}

/// The error, if any, for a hook script (see [`script_problem_text`]).
pub fn script_problem(path: &str, label: &str, state: ScriptState, need_exec: bool) -> (r: Option<String>)
    ensures
        match r {
            Some(m) => script_problem_text(path@, label@, state, need_exec) == Some(m@),
            None => script_problem_text(path@, label@, state, need_exec) is None,
        },
{
    let head = match state {
        ScriptState::Missing => "hook script not found: ",
        ScriptState::NotAFile => "hook script is not a regular file: ",
        ScriptState::NotExecutable => {
            if !need_exec {
                return None;
            }
            "hook script not executable: "
        },
        ScriptState::Ready => {
            return None;
        },
    };
    let mut m = text::owned(head);
    text::push_str(&mut m, path);
    text::push_str(&mut m, " (");
    text::push_str(&mut m, label);
    match state {
        ScriptState::NotExecutable => {
            text::push_str(&mut m, "), run: chmod +x ");
            text::push_str(&mut m, path);
        },
        _ => text::push_str(&mut m, ")"),
    }
    proof {
        assert(m@ =~= script_problem_text(path@, label@, state, need_exec)->0);
    }
    Some(m)
}

/// The error of a startup hook run: none on success; otherwise the exit
/// status, 1 when the process gave none.
pub open spec fn startup_exit_text(path: Seq<char>, success: bool, code: Option<i32>) -> Option<Seq<char>> {
    if success {
        None
    } else {
        Some(
            "startup hook "@ + path + " exited with status "@ + text::dec_signed(
                match code {
                    Some(c) => c as int,
                    None => 1,
                },
            ),
        )
    }
}

/// The error, if any, of a finished startup hook (it aborts the run).
pub fn startup_exit_error(path: &str, success: bool, code: Option<i32>) -> (r: Option<String>)
    ensures
        match r {
            Some(m) => startup_exit_text(path@, success, code) == Some(m@),
            None => startup_exit_text(path@, success, code) is None,
        },
{
    if success {
        return None;
    }
    let mut m = text::owned("startup hook ");
    text::push_str(&mut m, path);
    text::push_str(&mut m, " exited with status ");
    let c: i32 = match code {
        Some(c) => c,
        None => 1,
    };
    text::push_i32(&mut m, c);
    Some(m)
}

/// The warning of a teardown hook run: none on success; otherwise the exit
/// status, -1 when the process gave none.
pub open spec fn teardown_exit_text(path: Seq<char>, success: bool, code: Option<i32>) -> Option<Seq<char>> {
    if success {
        None
    } else {
        Some(
            "warning: teardown hook "@ + path + " exited with status "@ + text::dec_signed(
                match code {
                    Some(c) => c as int,
                    None => -1,
                },
            ),
        )
    }
}

/// The warning, if any, of a finished teardown hook (a teardown never
/// fails the run).
pub fn teardown_exit_warning(path: &str, success: bool, code: Option<i32>) -> (r: Option<String>)
    ensures
        match r {
            Some(m) => teardown_exit_text(path@, success, code) == Some(m@),
            None => teardown_exit_text(path@, success, code) is None,
        },
{
    if success {
        return None;
    }
    let mut m = text::owned("warning: teardown hook ");
    text::push_str(&mut m, path);
    text::push_str(&mut m, " exited with status ");
    let c: i32 = match code {
        Some(c) => c,
        None => -1,
    };
    text::push_i32(&mut m, c);
    Some(m)
}

// ── Worker hooks ────────────────────────────────────────────────────────────

/// Absolute paths of the worker startup and teardown scripts for one
/// language and tool.
#[derive(Debug, Clone, Default)]
pub struct WorkerHooks {
    pub startup: Option<String>,
    pub teardown: Option<String>,
}

/// The language-level hooks configured for `lang` (the first entry of
/// that name).
pub open spec fn language_entry(entries: Seq<(String, LanguageHooks)>, lang: Seq<char>, i: int) -> Option<
    LanguageHooks,
>
    decreases entries.len() - i,
{
    if i < 0 || i >= entries.len() {
        None
    } else if entries[i].0@ == lang {
        Some(entries[i].1)
    } else {
        language_entry(entries, lang, i + 1)
    }
}

/// The tool-level hooks configured for `tool` (the first entry of that
/// name).
pub open spec fn tool_entry(entries: Seq<(String, ToolHooks)>, tool: Seq<char>, i: int) -> Option<ToolHooks>
    decreases entries.len() - i,
{
    if i < 0 || i >= entries.len() {
        None
    } else if entries[i].0@ == tool {
        Some(entries[i].1)
    } else {
        tool_entry(entries, tool, i + 1)
    }
}

/// The worker scripts configured for a language and tool, each field on
/// its own: the tool-level entry wins over the language-level one.
pub open spec fn worker_scripts(cfg: Config, lang: Seq<char>, tool: Seq<char>) -> (
    Option<String>,
    Option<String>,
) {
    match language_entry(cfg.hooks.by_language@, lang, 0) {
        None => (None, None),
        Some(l) => match tool_entry(l.by_tool@, tool, 0) {
            None => (l.worker_startup, l.worker_teardown),
            Some(t) => (
                if t.worker_startup is Some { t.worker_startup } else { l.worker_startup },
                if t.worker_teardown is Some { t.worker_teardown } else { l.worker_teardown },
            ),
        },
    }
}

/// The entry of `lang`, computed.
fn find_language<'a>(entries: &'a Vec<(String, LanguageHooks)>, lang: &str) -> (r: Option<&'a LanguageHooks>)
    ensures
        match r {
            Some(l) => language_entry(entries@, lang@, 0) == Some(*l),
            None => language_entry(entries@, lang@, 0) is None,
        },
{
    let mut i: usize = 0;
    while i < entries.len()
        invariant
            i <= entries@.len(),
            language_entry(entries@, lang@, 0) == language_entry(entries@, lang@, i as int),
        decreases entries@.len() - i,
    {
        if text::str_eq(entries[i].0.as_str(), lang) {
            return Some(&entries[i].1);
        }
        i = i + 1;
    }
    None
}

/// The entry of `tool`, computed.
fn find_tool<'a>(entries: &'a Vec<(String, ToolHooks)>, tool: &str) -> (r: Option<&'a ToolHooks>)
    ensures
        match r {
            Some(t) => tool_entry(entries@, tool@, 0) == Some(*t),
            None => tool_entry(entries@, tool@, 0) is None,
        },
{
    let mut i: usize = 0;
    while i < entries.len()
        invariant
            i <= entries@.len(),
            tool_entry(entries@, tool@, 0) == tool_entry(entries@, tool@, i as int),
        decreases entries@.len() - i,
    {
        if text::str_eq(entries[i].0.as_str(), tool) {
            return Some(&entries[i].1);
        }
        i = i + 1;
    }
    None
}

/// The worker hooks for a plugin's language and tool: per field, the
/// `[hooks.<lang>.<tool>]` entry wins over `[hooks.<lang>]`; each script
/// is taken under the project root. Whether the files are there is the
/// caller's check ([`script_problem`], with labels `worker_startup` and
/// `worker_teardown`, no executable bit needed).
pub fn resolve_worker_hooks(cfg: &Config, language: &str, tool: &str, project_root: &str) -> (h: WorkerHooks)
    ensures
        ({
            let (s, t) = worker_scripts(*cfg, language@, tool@);
            &&& match h.startup {
                Some(p) => script_under(project_root@, s) == Some(p@),
                None => s is None,
            }
            &&& match h.teardown {
                Some(p) => script_under(project_root@, t) == Some(p@),
                None => t is None,
            }
        }),
{
    let (s, t): (Option<String>, Option<String>) = match find_language(&cfg.hooks.by_language, language) {
        None => (None, None),
        Some(l) => match find_tool(&l.by_tool, tool) {
            None => (text::copy_opt(&l.worker_startup), text::copy_opt(&l.worker_teardown)),
            Some(th) => (
                if th.worker_startup.is_some() {
                    text::copy_opt(&th.worker_startup)
                } else {
                    text::copy_opt(&l.worker_startup)
                },
                if th.worker_teardown.is_some() {
                    text::copy_opt(&th.worker_teardown)
                } else {
                    text::copy_opt(&l.worker_teardown)
                },
            ),
        },
    };
    WorkerHooks {
        startup: script_under_exec(project_root, &s),
        teardown: script_under_exec(project_root, &t),
    }
}

} // verus!
