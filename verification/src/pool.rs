//! The decisions of the worker pools, apart from the processes, sockets
//! and tasks that carry them out: how many workers to start, what a file's
//! task does at each step (a poisoned pool, a cancelled file, a finished
//! or failed run), how the fork pool collects one child's messages, and
//! what a command-mode run yields when the command cannot run.
use vstd::prelude::*;

use crate::protocol::{engine_error_model, Event, Message, MessageModel};
use crate::run_events::{basename_or_empty, cancelled_result, startup_error_result, FileResult};
use crate::text;
use crate::text::{dec, str_views};

verus! {

// ── Worker count ────────────────────────────────────────────────────────────

/// The default number of workers: the machine's parallelism (2 when it
/// cannot be read), kept between 2 and 8.
pub open spec fn default_workers_of(parallelism: Option<usize>) -> usize {
    let p: usize = match parallelism {
        Some(n) => n,
        None => 2,
    };
    if p < 2 {
        2
    } else if p > 8 {
        8
    } else {
        p
    }
}

/// The default number of workers (see [`default_workers_of`]).
pub fn default_workers(parallelism: Option<usize>) -> (r: usize)
    ensures
        r == default_workers_of(parallelism),
        2 <= r <= 8,
{
    let p = match parallelism {
        Some(n) => n,
        None => 2,
    };
    if p < 2 {
        2
    } else if p > 8 {
        8
    } else {
        p
    }
}

// ── Worker pool: one file's task ────────────────────────────────────────────

/// Pool-wide state shared by the file tasks: set the first time a worker
/// reports that its startup hook failed, after which no worker is
/// respawned and every later file gets the hook's error.
#[derive(Debug)]
pub struct PoolState {
    pub poisoned: bool,
    /// The first startup failure's message.
    pub poison_msg: String,
}

impl PoolState {
    /// A fresh, healthy pool.
    pub fn new() -> (r: PoolState)
        ensures
            !r.poisoned,
            r.poison_msg@.len() == 0,
    {
        PoolState { poisoned: false, poison_msg: String::new() }
    }
}

/// What a file's task does once it holds a permit, before taking a
/// worker.
#[derive(Debug)]
pub enum BeforeWorker {
    /// Report this result and release the permit without a worker.
    Skip(FileResult),
    /// Take a worker and go on.
    TakeWorker,
}

/// The result a task reports without a worker: the startup error when the
/// pool is poisoned, else cancellation when the file was cancelled.
pub fn before_worker(state: &PoolState, file: &str, cancelled: bool) -> (r: BeforeWorker)
    ensures
        match r {
            BeforeWorker::Skip(fr) => if state.poisoned {
                fr.file@ == file@ && !fr.cancelled && fr.messages@.len() == 2 && fr.messages@[0].model()
                    == MessageModel::Event(
                    engine_error_model(basename_or_empty(file@), "worker_startup hook failed: "@ + state.poison_msg@),
                ) && fr.messages@[1] is Done
            } else {
                cancelled && fr.file@ == file@ && fr.cancelled && fr.messages@.len() == 1 && fr.messages@[0] is Done
            },
            BeforeWorker::TakeWorker => !state.poisoned && !cancelled,
        },
{
    if state.poisoned {
        BeforeWorker::Skip(startup_error_result(file, state.poison_msg.as_str()))
    } else if cancelled {
        BeforeWorker::Skip(cancelled_result(file))
    } else {
        BeforeWorker::TakeWorker
    }
}

/// How one run of a file on a worker ended.
#[derive(Debug)]
pub enum RunEnd {
    /// The file was cancelled while it ran.
    Cancelled,
    /// The worker answered with these messages.
    Finished(Vec<Message>),
    /// The worker failed with this error text.
    Failed(String),
}

/// Something done to the worker before it goes back to the queue.
#[derive(Clone, Copy, Debug, PartialEq, Eq, Structural)]
pub enum WorkerOp {
    Kill,
    Respawn,
}

/// What a file's task does after its run.
#[derive(Debug)]
pub struct AfterRun {
    /// Done to the worker, in order, before it returns to the queue.
    pub worker_ops: Vec<WorkerOp>,
    /// Cancel every in-flight file of the run.
    pub cancel_all: bool,
    /// The file's result.
    pub result: FileResult,
}

/// The marker a worker puts before the message of a failed startup hook.
pub open spec fn startup_marker() -> Seq<char> {
    "WORKER_STARTUP_FAILED: "@
}

/// The operations that recycle a worker when fork mode is off.
pub open spec fn recycle_ops(fork_workers: bool) -> Seq<WorkerOp> {
    if fork_workers {
        Seq::empty()
    } else {
        seq![WorkerOp::Kill, WorkerOp::Respawn]
    }
}

/// The decision after a file's run (see the cases of [`RunEnd`]): a
/// cancelled run kills and respawns the worker and reports cancellation;
/// an answer is reported as it is; a startup-hook failure poisons the pool
/// (keeping the first message), cancels the run and reports the hook's
/// error without touching the worker; any other failure respawns the
/// worker and reports an engine error. Without fork mode every worker that
/// ran a file to its end is killed and respawned before reuse.
pub fn after_run(state: &mut PoolState, file: &str, end: RunEnd, fork_workers: bool) -> (r: AfterRun)
    ensures
        match end {
            RunEnd::Cancelled => {
                &&& r.worker_ops@ == seq![WorkerOp::Kill, WorkerOp::Respawn]
                &&& !r.cancel_all
                &&& r.result.cancelled && r.result.file@ == file@ && r.result.messages@.len() == 1
                &&& r.result.messages@[0] is Done
                &&& *final(state) == *old(state)
            },
            RunEnd::Finished(m) => {
                &&& r.worker_ops@ == recycle_ops(fork_workers)
                &&& !r.cancel_all
                &&& !r.result.cancelled && r.result.file@ == file@ && r.result.messages@ == m@
                &&& *final(state) == *old(state)
            },
            RunEnd::Failed(e) => if text::has_prefix(e@, startup_marker()) {
                let rest = e@.subrange(startup_marker().len() as int, e@.len() as int);
                &&& r.worker_ops@.len() == 0
                &&& r.cancel_all
                &&& final(state).poisoned
                &&& final(state).poison_msg@ == if old(state).poison_msg@.len() == 0 {
                    rest
                } else {
                    old(state).poison_msg@
                }
                &&& r.result.file@ == file@ && !r.result.cancelled && r.result.messages@.len() == 2
                &&& r.result.messages@[0].model() == MessageModel::Event(
                    engine_error_model(basename_or_empty(file@), "worker_startup hook failed: "@ + rest),
                )
                &&& r.result.messages@[1] is Done
            } else {
                &&& r.worker_ops@ == seq![WorkerOp::Respawn] + recycle_ops(fork_workers)
                &&& !r.cancel_all
                &&& *final(state) == *old(state)
                &&& r.result.file@ == file@ && !r.result.cancelled && r.result.messages@.len() == 1
                &&& r.result.messages@[0].model() == MessageModel::Event(
                    engine_error_model(basename_or_empty(file@), e@),
                )
            },
        },
{
    let mut recycle: Vec<WorkerOp> = Vec::new();
    if !fork_workers {
        recycle.push(WorkerOp::Kill);
        recycle.push(WorkerOp::Respawn);
    }
    proof {
        assert(recycle@ =~= recycle_ops(fork_workers));
    }
    match end {
        RunEnd::Cancelled => {
            let mut ops: Vec<WorkerOp> = Vec::new();
            ops.push(WorkerOp::Kill);
            ops.push(WorkerOp::Respawn);
            proof {
                assert(ops@ =~= seq![WorkerOp::Kill, WorkerOp::Respawn]);
            }
            AfterRun { worker_ops: ops, cancel_all: false, result: cancelled_result(file) }
        },
        RunEnd::Finished(m) => {
            AfterRun {
                worker_ops: recycle,
                cancel_all: false,
                result: FileResult { file: text::owned(file), messages: m, cancelled: false },
            }
        },
        RunEnd::Failed(e) => {
            let ec = text::chars_of(e.as_str());
            let marker = text::chars_of("WORKER_STARTUP_FAILED: ");
            proof {
                reveal_strlit("WORKER_STARTUP_FAILED: ");
            }
            if text::starts_with(ec.as_slice(), marker.as_slice()) {
                let rest_c = text::slice_of(ec.as_slice(), marker.len(), ec.len());
                let rest = text::string_from(rest_c.as_slice());
                state.poisoned = true;
                if state.poison_msg.as_str().is_empty() {
                    state.poison_msg = rest.clone();
                }
                let result = startup_error_result(file, rest.as_str());
                AfterRun { worker_ops: Vec::new(), cancel_all: true, result }
            } else {
                let name = match crate::paths::file_name_of(file) {
                    Some(n) => n,
                    None => String::new(),
                };
                let ev = Event::engine_error(name, e);
                let mut messages: Vec<Message> = Vec::new();
                messages.push(Message::Event(ev));
                proof {
                    assert(crate::protocol::correction_models(ev.corrections@) =~= Seq::empty());
                    assert(ev.failures@ =~= Seq::empty());
                }
                let mut ops: Vec<WorkerOp> = Vec::new();
                ops.push(WorkerOp::Respawn);
                let mut k: usize = 0;
                while k < recycle.len()
                    invariant
                        k <= recycle@.len(),
                        ops@ == seq![WorkerOp::Respawn] + recycle@.subrange(0, k as int),
                    decreases recycle@.len() - k,
                {
                    ops.push(recycle[k]);
                    proof {
                        assert(recycle@.subrange(0, k + 1) =~= recycle@.subrange(0, k as int).push(recycle@[k as int]));
                        assert(ops@ =~= seq![WorkerOp::Respawn] + recycle@.subrange(0, k + 1));
                    }
                    k = k + 1;
                }
                proof {
                    assert(recycle@.subrange(0, recycle@.len() as int) =~= recycle@);
                }
                AfterRun {
                    worker_ops: ops,
                    cancel_all: false,
                    result: FileResult { file: text::owned(file), messages, cancelled: false },
                }
            }
        },
    }
}

// ── Fork pool: one child's messages ─────────────────────────────────────────

/// The messages read from one forked child so far, and whether its `Done`
/// has arrived (after which nothing more is read).
#[derive(Debug)]
pub struct ChildStream {
    pub messages: Vec<Message>,
    pub done: bool,
}

/// The text of a line worth decoding: the line without surrounding
/// whitespace, or nothing for a blank line.
pub fn frame_line(line: &str) -> (r: Option<String>)
    ensures
        match r {
            Some(t) => t@ == text::trim(line@) && t@.len() > 0,
            None => text::trim(line@).len() == 0,
        },
{
    let c = text::chars_of(line);
    let t = text::trim_chars(c.as_slice());
    if t.len() == 0 {
        None
    } else {
        Some(text::string_from(t.as_slice()))
    }
}

impl ChildStream {
    /// Nothing read yet.
    pub fn new() -> (r: ChildStream)
        ensures
            r.messages@.len() == 0,
            !r.done,
    {
        ChildStream { messages: Vec::new(), done: false }
    }

    /// Take in one decoded line (`None` when it did not decode, which is
    /// skipped); returns whether to keep reading.
    pub fn take_line(&mut self, decoded: Option<Message>) -> (more: bool)
        requires
            !old(self).done,
        ensures
            match decoded {
                Some(m) => final(self).messages@ == old(self).messages@.push(m) && final(self).done == (m is Done),
                None => final(self).messages@ == old(self).messages@ && !final(self).done,
            },
            more == !final(self).done,
    {
        match decoded {
            Some(m) => {
                let is_done = matches!(m, Message::Done);
                self.messages.push(m);
                self.done = is_done;
                !is_done
            },
            None => true,
        }
    }

    /// The child's messages once reading stops (end of stream, a read
    /// error or a timeout included): a `Done` is added unless the last
    /// message is one.
    pub fn finish(self) -> (r: Vec<Message>)
        ensures
            if self.messages@.len() > 0 && self.messages@.last() is Done {
                r@ == self.messages@
            } else {
                r@ == self.messages@.push(Message::Done)
            },
    {
        let mut m = self.messages;
        let n = m.len();
        let ends_done = n > 0 && matches!(m[n - 1], Message::Done);
        if !ends_done {
            m.push(Message::Done);
        }
        m
    }
}

/// The result of a forked child that could not be reached (no connection,
/// a timeout): cancellation when the file was cancelled meanwhile, else an
/// engine error with the error's text, then `Done`.
pub fn child_failure_result(file: &str, error: &str, cancelled: bool) -> (r: FileResult)
    ensures
        r.file@ == file@,
        r.cancelled == cancelled,
        cancelled ==> r.messages@.len() == 1 && r.messages@[0] is Done,
        !cancelled ==> r.messages@.len() == 2 && r.messages@[0].model() == MessageModel::Event(
            engine_error_model(basename_or_empty(file@), error@),
        ) && r.messages@[1] is Done,
{
    if cancelled {
        return cancelled_result(file);
    }
    let name = match crate::paths::file_name_of(file) {
        Some(n) => n,
        None => String::new(),
    };
    let ev = Event::engine_error(name, text::owned(error));
    proof {
        assert(crate::protocol::correction_models(ev.corrections@) =~= Seq::empty());
        assert(ev.failures@ =~= Seq::empty());
    }
    let mut messages: Vec<Message> = Vec::new();
    messages.push(Message::Event(ev));
    messages.push(Message::Done);
    FileResult { file: text::owned(file), messages, cancelled: false }
}

// ── Command pool ────────────────────────────────────────────────────────────

/// The command run for one file: the plugin's argv, then the file.
pub fn command_argv(argv: &Vec<String>, file: &str) -> (r: Vec<String>)
    ensures
        str_views(r@) == str_views(argv@).push(file@),
{
    let mut v = crate::protocol::copy_strings(argv);
    v.push(text::owned(file));
    proof {
        assert(str_views(v@) =~= str_views(argv@).push(file@));
    }
    v
}

/// The messages of a command that could not be started.
pub fn spawn_failure_messages(file_name: &str, program: &str, error: &str) -> (r: Vec<Message>)
    ensures
        r@.len() == 2,
        r@[0].model() == MessageModel::Event(
            engine_error_model(file_name@, "failed to spawn "@ + program@ + " ("@ + error@ + "). Is it installed and on PATH?"@),
        ),
        r@[1] is Done,
{
    let mut m = text::owned("failed to spawn ");
    text::push_str(&mut m, program);
    text::push_str(&mut m, " (");
    text::push_str(&mut m, error);
    text::push_str(&mut m, "). Is it installed and on PATH?");
    let ev = Event::engine_error(text::owned(file_name), m);
    proof {
        assert(crate::protocol::correction_models(ev.corrections@) =~= Seq::empty());
        assert(ev.failures@ =~= Seq::empty());
    }
    let mut v: Vec<Message> = Vec::new();
    v.push(Message::Event(ev));
    v.push(Message::Done);
    v
}

/// The messages of a command that ran past its time limit.
pub fn timeout_messages(file_name: &str, timeout_secs: u64) -> (r: Vec<Message>)
    ensures
        r@.len() == 2,
        r@[0].model() == MessageModel::Event(
            engine_error_model(file_name@, "timeout after "@ + dec(timeout_secs as nat) + "s"@),
        ),
        r@[1] is Done,
{
    let mut m = text::owned("timeout after ");
    text::push_dec(&mut m, timeout_secs);
    text::push_str(&mut m, "s");
    let ev = Event::engine_error(text::owned(file_name), m);
    proof {
        assert(crate::protocol::correction_models(ev.corrections@) =~= Seq::empty());
        assert(ev.failures@ =~= Seq::empty());
    }
    let mut v: Vec<Message> = Vec::new();
    v.push(Message::Event(ev));
    v.push(Message::Done);
    v
}


// ── Worker processes ────────────────────────────────────────────────────────

/// A worker's argv: the plugin's command, with the configured Python
/// interpreter command in place of the program for Python tools; refused
/// when the plugin gives no command.
pub open spec fn worker_argv_of(
    tool: Seq<char>,
    language: Seq<char>,
    base: Seq<Seq<char>>,
    interpreter: Seq<Seq<char>>,
) -> Result<Seq<Seq<char>>, Seq<char>> {
    if base.len() == 0 {
        Err("tool "@ + tool + " returned empty subprocess command"@)
    } else if language == "python"@ && interpreter.len() > 0 {
        Ok(interpreter + base.drop_first())
    } else {
        Ok(base)
    }
}

/// A worker's argv (see [`worker_argv_of`]).
pub fn worker_argv(tool: &str, language: &str, base: &Vec<String>, interpreter: &Vec<String>) -> (r: Result<
    Vec<String>,
    String,
>)
    ensures
        match r {
            Ok(v) => worker_argv_of(tool@, language@, str_views(base@), str_views(interpreter@)) == Ok::<
                Seq<Seq<char>>,
                Seq<char>,
            >(str_views(v@)),
            Err(m) => worker_argv_of(tool@, language@, str_views(base@), str_views(interpreter@)) == Err::<
                Seq<Seq<char>>,
                Seq<char>,
            >(m@),
        },
{
    if base.len() == 0 {
        let mut m = text::owned("tool ");
        text::push_str(&mut m, tool);
        text::push_str(&mut m, " returned empty subprocess command");
        return Err(m);
    }
    proof {
        reveal_strlit("python");
    }
    if text::str_eq(language, "python") && interpreter.len() > 0 {
        let mut v = crate::protocol::copy_strings(interpreter);
        let mut i: usize = 1;
        while i < base.len()
            invariant
                1 <= i <= base@.len(),
                str_views(v@) == str_views(interpreter@) + str_views(base@).subrange(1, i as int),
            decreases base@.len() - i,
        {
            let ghost before = str_views(v@);
            v.push(base[i].clone());
            proof {
                assert(str_views(v@) =~= before.push(base@[i as int]@));
                assert(str_views(base@).subrange(1, i + 1) =~= str_views(base@).subrange(1, i as int).push(
                    base@[i as int]@,
                ));
                assert(str_views(v@) =~= str_views(interpreter@) + str_views(base@).subrange(1, i + 1));
            }
            i = i + 1;
        }
        proof {
            assert(str_views(base@).subrange(1, base@.len() as int) =~= str_views(base@).drop_first());
        }
        Ok(v)
    } else {
        Ok(crate::protocol::copy_strings(base))
    }
}

/// How `serde_json` writes one character inside a string: `"` and `\`
/// and the short control escapes with a backslash, other control
/// characters as `\u00xx` (lowercase hex), everything else as it is.
pub open spec fn json_escaped(c: char) -> Seq<char> {
    if c == '"' {
        seq!['\\', '"']
    } else if c == '\\' {
        seq!['\\', '\\']
    } else if c == '\u{8}' {
        seq!['\\', 'b']
    } else if c == '\t' {
        seq!['\\', 't']
    } else if c == '\n' {
        seq!['\\', 'n']
    } else if c == '\u{c}' {
        seq!['\\', 'f']
    } else if c == '\r' {
        seq!['\\', 'r']
    } else if (c as u32) < 0x20 {
        seq![
            '\\',
            'u',
            '0',
            '0',
            crate::hashing::hex_digit(((c as u32) / 16) as nat),
            crate::hashing::hex_digit(((c as u32) % 16) as nat),
        ]
    } else {
        seq![c]
    }
}

/// The escaped contents of a JSON string.
pub open spec fn json_escape(s: Seq<char>) -> Seq<char>
    decreases s.len(),
{
    if s.len() == 0 {
        Seq::empty()
    } else {
        json_escaped(s[0]) + json_escape(s.drop_first())
    }
}

/// The compact JSON text of a list of strings: `[`, each string quoted
/// and escaped, separated by `,` alone, then `]`.
#[verifier::opaque]
pub open spec fn json_string_list(items: Seq<Seq<char>>) -> Seq<char> {
    seq!['['] + text::join(items.map_values(|s: Seq<char>| seq!['"'] + json_escape(s) + seq!['"']), seq![','])
        + seq![']']
}

/// Calls `serde_json::to_string` on a list of strings. Claimed: the text
/// is [`json_string_list`] of the items, as serde_json's compact writer
/// and its string escaping produce it (a list of strings always
/// serialises; the `[]` fallback is never taken).
#[verifier::external_body]
fn to_json_list(items: &Vec<String>) -> (r: String)
    ensures
        r@ == json_string_list(str_views(items@)),
{
    serde_json::to_string(items).unwrap_or_else(|_| "[]".to_string())
}

/// The string pairs as plain values.
pub open spec fn pair_views(v: Seq<(String, String)>) -> Seq<(Seq<char>, Seq<char>)> {
    v.map_values(|p: (String, String)| (p.0@, p.1@))
}

/// The environment a worker starts with, in the order it is applied (a
/// later entry wins): the plugin's variables; for an R tool with a
/// non-default load strategy, that strategy; the suite's extra variables;
/// the worker hook scripts; the pytest extra arguments as JSON when there
/// are any; the fork pool's port; and the user's `[env]` last.
pub open spec fn worker_env_of(
    plugin_env: Seq<(Seq<char>, Seq<char>)>,
    language: Seq<char>,
    load_strategy: Option<Seq<char>>,
    extra_env: Seq<(Seq<char>, Seq<char>)>,
    startup: Option<Seq<char>>,
    teardown: Option<Seq<char>>,
    pytest_extra_args: Seq<Seq<char>>,
    tcp_port: Option<u16>,
    user_env: Seq<(Seq<char>, Seq<char>)>,
) -> Seq<(Seq<char>, Seq<char>)> {
    plugin_env + (match load_strategy {
        Some(v) => if language == "r"@ {
            seq![("SCRUTIN_LOAD_STRATEGY"@, v)]
        } else {
            Seq::empty()
        },
        None => Seq::empty(),
    }) + extra_env + (match startup {
        Some(p) => seq![("SCRUTIN_WORKER_STARTUP"@, p)],
        None => Seq::empty(),
    }) + (match teardown {
        Some(p) => seq![("SCRUTIN_WORKER_TEARDOWN"@, p)],
        None => Seq::empty(),
    }) + (if pytest_extra_args.len() > 0 {
        seq![("SCRUTIN_PYTEST_EXTRA_ARGS"@, json_string_list(pytest_extra_args))]
    } else {
        Seq::empty()
    }) + (match tcp_port {
        Some(p) => seq![("SCRUTIN_TCP_PORT"@, dec(p as nat))],
        None => Seq::empty(),
    }) + user_env
}

fn push_pairs(out: &mut Vec<(String, String)>, v: &Vec<(String, String)>)
    ensures
        pair_views(final(out)@) == pair_views(old(out)@) + pair_views(v@),
{
    let ghost start = pair_views(out@);
    let mut i: usize = 0;
    while i < v.len()
        invariant
            i <= v@.len(),
            pair_views(out@) == start + pair_views(v@.subrange(0, i as int)),
        decreases v@.len() - i,
    {
        let ghost before = pair_views(out@);
        out.push((v[i].0.clone(), v[i].1.clone()));
        proof {
            assert(pair_views(out@) =~= before.push((v@[i as int].0@, v@[i as int].1@)));
            assert(pair_views(v@.subrange(0, i + 1)) =~= pair_views(v@.subrange(0, i as int)).push(
                (v@[i as int].0@, v@[i as int].1@),
            ));
        }
        i = i + 1;
    }
    proof {
        assert(v@.subrange(0, v@.len() as int) =~= v@);
    }
}

fn push_pair(out: &mut Vec<(String, String)>, k: &str, v: String)
    ensures
        pair_views(final(out)@) == pair_views(old(out)@).push((k@, v@)),
{
    let ghost before = pair_views(out@);
    out.push((text::owned(k), v));
    proof {
        assert(pair_views(out@) =~= before.push((k@, v@)));
    }
}

/// A worker's environment (see [`worker_env_of`]). `load_strategy` is
/// the suite's R load strategy as the worker reads it, given only when
/// the strategy is not the default one (the default is never sent); the
/// strategy type itself is not part of this crate.
#[verifier::rlimit(50)]
#[verifier::spinoff_prover]
pub fn worker_env(
    plugin_env: &Vec<(String, String)>,
    language: &str,
    load_strategy: Option<&str>,
    extra_env: &Vec<(String, String)>,
    startup: Option<&str>,
    teardown: Option<&str>,
    pytest_extra_args: &Vec<String>,
    tcp_port: Option<u16>,
    user_env: &Vec<(String, String)>,
) -> (r: Vec<(String, String)>)
    ensures
        pair_views(r@) == worker_env_of(
            pair_views(plugin_env@),
            language@,
            match load_strategy {
                Some(v) => Some(v@),
                None => None,
            },
            pair_views(extra_env@),
            match startup {
                Some(p) => Some(p@),
                None => None,
            },
            match teardown {
                Some(p) => Some(p@),
                None => None,
            },
            str_views(pytest_extra_args@),
            tcp_port,
            pair_views(user_env@),
        ),
{
    let mut out: Vec<(String, String)> = Vec::new();
    push_pairs(&mut out, plugin_env);
    let ghost a = pair_views(out@);
    proof {
        reveal_strlit("r");
    }
    match load_strategy {
        Some(v) => {
            if text::str_eq(language, "r") {
                push_pair(&mut out, "SCRUTIN_LOAD_STRATEGY", text::owned(v));
            }
        },
        None => {},
    }
    let ghost b = pair_views(out@);
    push_pairs(&mut out, extra_env);
    let ghost c = pair_views(out@);
    match startup {
        Some(p) => push_pair(&mut out, "SCRUTIN_WORKER_STARTUP", text::owned(p)),
        None => {},
    }
    let ghost d = pair_views(out@);
    match teardown {
        Some(p) => push_pair(&mut out, "SCRUTIN_WORKER_TEARDOWN", text::owned(p)),
        None => {},
    }
    let ghost e = pair_views(out@);
    if pytest_extra_args.len() > 0 {
        push_pair(&mut out, "SCRUTIN_PYTEST_EXTRA_ARGS", to_json_list(pytest_extra_args));
    }
    let ghost f = pair_views(out@);
    match tcp_port {
        Some(p) => push_pair(&mut out, "SCRUTIN_TCP_PORT", text::dec_string(p as u64)),
        None => {},
    }
    let ghost g = pair_views(out@);
    push_pairs(&mut out, user_env);
    proof {
        assert(pair_views(out@) =~= worker_env_of(
            pair_views(plugin_env@),
            language@,
            match load_strategy {
                Some(v) => Some(v@),
                None => None,
            },
            pair_views(extra_env@),
            match startup {
                Some(p) => Some(p@),
                None => None,
            },
            match teardown {
                Some(p) => Some(p@),
                None => None,
            },
            str_views(pytest_extra_args@),
            tcp_port,
            pair_views(user_env@),
        ));
    }
    out
}

/// The file name a worker uses for the report of a failed startup hook.
pub open spec fn startup_sentinel() -> Seq<char> {
    "<worker_startup>"@
}

/// What reading one decoded line of a worker's answer leads to.
#[derive(Debug)]
pub enum WorkerLine {
    /// Keep reading.
    More,
    /// The answer is complete.
    Complete,
    /// The worker's startup hook failed; the error text carries the
    /// startup marker.
    StartupFailed(String),
}

/// Take in one decoded line of a worker's answer (`None` when it did not
/// decode, which is skipped): `Done` completes the answer, an event from
/// the startup sentinel ends it as a startup failure (and is not kept),
/// anything else is kept.
pub fn worker_line(messages: &mut Vec<Message>, decoded: Option<Message>) -> (r: WorkerLine)
    ensures
        match decoded {
            None => final(messages)@ == old(messages)@ && r is More,
            Some(Message::Event(e)) => if e.file@ == startup_sentinel() {
                &&& final(messages)@ == old(messages)@
                &&& (r matches WorkerLine::StartupFailed(t) && t@ == startup_marker() + match e.message {
                    Some(m) => m@,
                    None => Seq::empty(),
                })
            } else {
                final(messages)@ == old(messages)@.push(Message::Event(e)) && r is More
            },
            Some(m) => final(messages)@ == old(messages)@.push(m) && (if m is Done {
                r is Complete
            } else {
                r is More
            }),
        },
{
    match decoded {
        None => WorkerLine::More,
        Some(Message::Event(e)) => {
            proof {
                reveal_strlit("<worker_startup>");
            }
            if text::str_eq(e.file.as_str(), "<worker_startup>") {
                let mut t = text::owned("WORKER_STARTUP_FAILED: ");
                match &e.message {
                    Some(m) => text::push_str(&mut t, m.as_str()),
                    None => {},
                }
                proof {
                    reveal_strlit("WORKER_STARTUP_FAILED: ");
                }
                WorkerLine::StartupFailed(t)
            } else {
                messages.push(Message::Event(e));
                WorkerLine::More
            }
        },
        Some(m) => {
            let done = matches!(m, Message::Done);
            messages.push(m);
            if done {
                WorkerLine::Complete
            } else {
                WorkerLine::More
            }
        },
    }
}

/// The error of a worker that stopped answering (its output ended or
/// could not be read) while running `path`: the stderr tail when there is
/// one, else the reason.
pub open spec fn worker_exit_text(path: Seq<char>, reason: Seq<char>, stderr_tail: Seq<char>) -> Seq<char> {
    if text::trim(stderr_tail).len() == 0 {
        "Subprocess exited unexpectedly while running "@ + path + " ("@ + reason + ")"@
    } else {
        "Subprocess exited unexpectedly while running "@ + path + "\n--- stderr ---\n"@ + text::trim(stderr_tail)
    }
}

/// The error of a worker that stopped answering (see [`worker_exit_text`]).
pub fn worker_exit_error(path: &str, reason: &str, stderr_tail: &str) -> (r: String)
    ensures
        r@ == worker_exit_text(path@, reason@, stderr_tail@),
{
    let tc = text::chars_of(stderr_tail);
    let t = text::trim_chars(tc.as_slice());
    let mut m = text::owned("Subprocess exited unexpectedly while running ");
    text::push_str(&mut m, path);
    if t.len() == 0 {
        text::push_str(&mut m, " (");
        text::push_str(&mut m, reason);
        text::push_str(&mut m, ")");
    } else {
        text::push_str(&mut m, "\n--- stderr ---\n");
        text::push_chars(&mut m, t.as_slice());
    }
    m
}

/// The error of a worker that ran past the time limit.
pub fn worker_timeout_error(timeout_secs: u64, path: &str) -> (r: String)
    ensures
        r@ == "Timeout after "@ + dec(timeout_secs as nat) + "s running "@ + path@,
{
    let mut m = text::owned("Timeout after ");
    text::push_dec(&mut m, timeout_secs);
    text::push_str(&mut m, "s running ");
    text::push_str(&mut m, path);
    m
}


// ── Which pool runs a suite ─────────────────────────────────────────────────

/// The kind of pool a suite runs on.
#[derive(Clone, Copy, Debug, PartialEq, Eq, Structural)]
pub enum PoolKind {
    /// One short-lived command per file.
    Command,
    /// One warm parent that forks a child per file.
    Fork,
    /// Warm long-lived workers.
    Worker,
}

/// The pool of a suite: command mode for command-mode plugins; otherwise
/// the fork pool when fork mode is on and the platform is not Windows,
/// else long-lived workers.
pub fn pool_kind(command_mode: bool, fork_workers: bool, windows: bool) -> (r: PoolKind)
    ensures
        r == (if command_mode {
            PoolKind::Command
        } else if fork_workers && !windows {
            PoolKind::Fork
        } else {
            PoolKind::Worker
        }),
{
    if command_mode {
        PoolKind::Command
    } else if fork_workers && !windows {
        PoolKind::Fork
    } else {
        PoolKind::Worker
    }
}

// ── A worker's stderr tail ──────────────────────────────────────────────────

/// How many bytes of a worker's stderr are kept for crash reports.
pub const STDERR_BUF_CAP: usize = 8192;

/// The UTF-8 length of `s`.
pub open spec fn utf8_len(s: Seq<char>) -> nat {
    vstd::utf8::encode_utf8(s).len()
}

/// `s` with as few leading characters dropped as needed to fit in `cap`
/// bytes (it starts on a character boundary).
pub open spec fn tail_within(s: Seq<char>, cap: nat) -> Seq<char>
    decreases s.len(),
{
    if s.len() == 0 || utf8_len(s) <= cap {
        s
    } else {
        tail_within(s.drop_first(), cap)
    }
}

/// The UTF-8 length of one character.
fn char_utf8_len(c: char) -> (r: u128)
    ensures
        r == vstd::utf8::encode_scalar(c as u32).len(),
{
    let v = c as u32;
    if v <= 0x7F {
        1
    } else if v <= 0x7FF {
        2
    } else if v <= 0xFFFF && !(0xD800 <= v && v <= 0xDFFF) {
        3
    } else {
        4
    }
}

/// The last bytes of a worker's stderr, line by line, bounded by
/// [`STDERR_BUF_CAP`].
#[derive(Debug)]
pub struct StderrTail {
    text: String,
}

impl StderrTail {
    /// What the tail holds.
    pub closed spec fn held(&self) -> Seq<char> {
        self.text@
    }

    /// An empty tail.
    pub fn new() -> (r: StderrTail)
        ensures
            r.held().len() == 0,
    {
        StderrTail { text: String::new() }
    }

    /// Append a line and its newline; when the text then runs past the cap,
    /// keep only its end, cut at a character boundary (see
    /// [`tail_within`]).
    pub fn push_line(&mut self, line: &str)
        ensures
            final(self).held() == tail_within(old(self).held() + line@ + seq!['\n'], STDERR_BUF_CAP as nat),
    {
        let mut full = text::chars_of(self.text.as_str());
        let lc = text::chars_of(line);
        text::push_all(&mut full, lc.as_slice());
        full.push('\n');
        let ghost fv = full@;
        proof {
            assert(fv =~= self.text@ + line@ + seq!['\n']);
        }
        let n = full.len();
        let mut total: u128 = 0;
        let mut i: usize = n;
        proof {
            assert(fv.subrange(n as int, n as int) =~= Seq::<char>::empty());
        }
        while i > 0
            invariant
                i <= n,
                n == fv.len(),
                full@ == fv,
                total == utf8_len(fv.subrange(i as int, n as int)),
                total <= 4 * (n - i),
            decreases i,
        {
            let w = char_utf8_len(full[i - 1]);
            proof {
                let t = fv.subrange(i - 1, n as int);
                assert(t.drop_first() =~= fv.subrange(i as int, n as int));
                assert(t[0] == fv[i - 1]);
            }
            total = total + w;
            i = i - 1;
        }
        let mut k: usize = 0;
        proof {
            assert(fv.subrange(0, n as int) =~= fv);
        }
        while k < n && total > STDERR_BUF_CAP as u128
            invariant
                k <= n,
                n == fv.len(),
                full@ == fv,
                total == utf8_len(fv.subrange(k as int, n as int)),
                tail_within(fv, STDERR_BUF_CAP as nat) == tail_within(fv.subrange(k as int, n as int), STDERR_BUF_CAP as nat),
            decreases n - k,
        {
            let w = char_utf8_len(full[k]);
            proof {
                let t = fv.subrange(k as int, n as int);
                assert(t.drop_first() =~= fv.subrange(k + 1, n as int));
                assert(t[0] == fv[k as int]);
            }
            total = total - w;
            k = k + 1;
        }
        proof {
            let t = fv.subrange(k as int, n as int);
            if k == n {
                assert(t.len() == 0);
            }
        }
        let kept = text::slice_of(full.as_slice(), k, n);
        self.text = text::string_from(kept.as_slice());
    }

    /// The text held.
    pub fn contents(&self) -> (r: String)
        ensures
            r@ == self.held(),
    {
        self.text.clone()
    }
}

} // verus!
