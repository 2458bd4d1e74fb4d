//! What the engine hands back for one file: its messages and whether the
//! engine cancelled it, with the results the engine makes up itself (a
//! failed worker hook, a cancelled file).
use vstd::prelude::*;

use crate::package::{first_owner, suite_for, SuiteRoute};
use crate::paths;
use crate::protocol::{engine_error_model, Event, Message, MessageModel};
use crate::text;
use crate::text::str_views;

verus! {

/// One file's result.
#[derive(Debug)]
pub struct FileResult {
    pub file: String,
    pub messages: Vec<Message>,
    /// The engine killed this file's worker mid-run (a cancel key, the
    /// max-fail gate); the wire protocol itself has no such message.
    pub cancelled: bool,
}

/// The first dependency observation among `m`: the test's basename and
/// the sources it touched.
pub open spec fn first_deps(m: Seq<Message>) -> Option<(Seq<char>, Seq<Seq<char>>)>
    decreases m.len(),
{
    if m.len() == 0 {
        None
    } else {
        match m[0] {
            Message::Deps(d) => Some((d.file@, str_views(d.sources@))),
            _ => first_deps(m.drop_first()),
        }
    }
}

impl FileResult {
    /// The runtime dependency observation of this file, if any (see
    /// [`first_deps`]).
    pub fn deps(&self) -> (r: Option<(String, Vec<String>)>)
        ensures
            match r {
                Some((f, s)) => first_deps(self.messages@) == Some((f@, str_views(s@))),
                None => first_deps(self.messages@) is None,
            },
    {
        let mut i: usize = 0;
        assert(self.messages@.subrange(0, self.messages@.len() as int) =~= self.messages@);
        while i < self.messages.len()
            invariant
                i <= self.messages@.len(),
                first_deps(self.messages@) == first_deps(self.messages@.subrange(i as int, self.messages@.len() as int)),
            decreases self.messages@.len() - i,
        {
            proof {
                let rest = self.messages@.subrange(i as int, self.messages@.len() as int);
                assert(rest[0] == self.messages@[i as int]);
                assert(rest.drop_first() =~= self.messages@.subrange(i + 1, self.messages@.len() as int));
            }
            match &self.messages[i] {
                Message::Deps(d) => {
                    return Some((d.file.clone(), crate::protocol::copy_strings(&d.sources)));
                },
                _ => {},
            }
            i = i + 1;
        }
        None
    }
}

/// A file's basename, or nothing when the path has none.
pub open spec fn basename_or_empty(file: Seq<char>) -> Seq<char> {
    match paths::file_name(file) {
        Some(n) => n,
        None => Seq::empty(),
    }
}

/// The result of a file whose worker-startup hook failed: one engine
/// error event carrying the hook's message, then `Done`.
pub fn startup_error_result(file: &str, msg: &str) -> (r: FileResult)
    ensures
        r.file@ == file@,
        !r.cancelled,
        r.messages@.len() == 2,
        r.messages@[0].model() == MessageModel::Event(
            engine_error_model(basename_or_empty(file@), "worker_startup hook failed: "@ + msg@),
        ),
        r.messages@[1] is Done,
{
    let name = match paths::file_name_of(file) {
        Some(n) => n,
        None => String::new(),
    };
    let mut m = text::owned("worker_startup hook failed: ");
    text::push_str(&mut m, msg);
    let e = Event::engine_error(name, m);
    let mut messages: Vec<Message> = Vec::new();
    messages.push(Message::Event(e));
    messages.push(Message::Done);
    proof {
        assert(crate::protocol::correction_models(e.corrections@) =~= Seq::empty());
        assert(e.failures@ =~= Seq::empty());
        assert(name@ == basename_or_empty(file@));
        assert(e.model() == engine_error_model(basename_or_empty(file@), "worker_startup hook failed: "@ + msg@));
    }
    FileResult { file: text::owned(file), messages, cancelled: false }
}

/// The result of a file the engine cancelled before it ran: `Done` alone.
pub fn cancelled_result(file: &str) -> (r: FileResult)
    ensures
        r.file@ == file@,
        r.cancelled,
        r.messages@.len() == 1,
        r.messages@[0] is Done,
{
    let mut messages: Vec<Message> = Vec::new();
    messages.push(Message::Done);
    FileResult { file: text::owned(file), messages, cancelled: true }
}


// ── Partitioning a run ──────────────────────────────────────────────────────

/// The files routed to suite `i`, in order.
pub open spec fn bucket_of(suites: Seq<SuiteRoute>, files: Seq<Seq<char>>, i: int) -> Seq<Seq<char>> {
    files.filter(|f: Seq<char>| first_owner(suites, f) == Some(i))
}

/// The files no suite claims, in order.
pub open spec fn orphans_of(suites: Seq<SuiteRoute>, files: Seq<Seq<char>>) -> Seq<Seq<char>> {
    files.filter(|f: Seq<char>| first_owner(suites, f) is None)
}

proof fn lemma_filter_push_str(s: Seq<Seq<char>>, x: Seq<char>, p: spec_fn(Seq<char>) -> bool)
    ensures
        s.push(x).filter(p) == if p(x) {
            s.filter(p).push(x)
        } else {
            s.filter(p)
        },
{
    reveal_with_fuel(Seq::filter, 1);
    assert(s.push(x).drop_last() =~= s);
}

/// Split a run's files by the suite that owns each (the first that claims
/// it): one bucket per suite, in suite order, and the orphans no suite
/// claims, which the engine skips with a warning.
pub fn partition_files(suites: &[SuiteRoute], files: &[String]) -> (r: (Vec<Vec<String>>, Vec<String>))
    ensures
        r.0@.len() == suites@.len(),
        forall|i: int| 0 <= i < suites@.len() ==> str_views(#[trigger] r.0@[i]@) == bucket_of(suites@, str_views(files@), i),
        str_views(r.1@) == orphans_of(suites@, str_views(files@)),
{
    let ghost fv = str_views(files@);
    let mut buckets: Vec<Vec<String>> = Vec::new();
    let mut k: usize = 0;
    while k < suites.len()
        invariant
            k <= suites@.len(),
            buckets@.len() == k,
            forall|i: int| 0 <= i < k ==> (#[trigger] buckets@[i])@.len() == 0,
        decreases suites@.len() - k,
    {
        buckets.push(Vec::new());
        k = k + 1;
    }
    let mut orphans: Vec<String> = Vec::new();
    let mut j: usize = 0;
    while j < files.len()
        invariant
            j <= files@.len(),
            fv == str_views(files@),
            buckets@.len() == suites@.len(),
            forall|i: int|
                0 <= i < suites@.len() ==> str_views(#[trigger] buckets@[i]@) == bucket_of(
                    suites@,
                    fv.subrange(0, j as int),
                    i,
                ),
            str_views(orphans@) == orphans_of(suites@, fv.subrange(0, j as int)),
        decreases files@.len() - j,
    {
        let ghost f = fv[j as int];
        let ghost pre = fv.subrange(0, j as int);
        proof {
            assert(fv.subrange(0, j + 1) =~= pre.push(f));
            assert(files@[j as int]@ == f);
        }
        match suite_for(suites, files[j].as_str()) {
            Some(i) => {
                let ghost old_b = buckets@;
                let mut b = crate::protocol::copy_strings(&buckets[i]);
                b.push(files[j].clone());
                buckets.set(i, b);
                proof {
                    assert forall|q: int| 0 <= q < suites@.len() implies str_views(#[trigger] buckets@[q]@) == bucket_of(
                        suites@,
                        fv.subrange(0, j + 1),
                        q,
                    ) by {
                        lemma_filter_push_str(pre, f, |g: Seq<char>| first_owner(suites@, g) == Some(q));
                        if q == i {
                            assert(str_views(buckets@[q]@) =~= str_views(old_b[q]@).push(f));
                        } else {
                            assert(buckets@[q] == old_b[q]);
                        }
                    }
                    lemma_filter_push_str(pre, f, |g: Seq<char>| first_owner(suites@, g) is None);
                }
            },
            None => {
                let ghost old_o = str_views(orphans@);
                orphans.push(files[j].clone());
                proof {
                    assert(str_views(orphans@) =~= old_o.push(f));
                    lemma_filter_push_str(pre, f, |g: Seq<char>| first_owner(suites@, g) is None);
                    assert forall|q: int| 0 <= q < suites@.len() implies str_views(#[trigger] buckets@[q]@) == bucket_of(
                        suites@,
                        fv.subrange(0, j + 1),
                        q,
                    ) by {
                        lemma_filter_push_str(pre, f, |g: Seq<char>| first_owner(suites@, g) == Some(q));
                    }
                }
            },
        }
        j = j + 1;
    }
    proof {
        assert(fv.subrange(0, fv.len() as int) =~= fv);
    }
    (buckets, orphans)
}

/// The warning for a file no suite owns.
pub fn orphan_warning(file: &str) -> (r: String)
    ensures
        r@ == "warning: no suite owns "@ + file@ + "; skipping"@,
{
    let mut s = text::owned("warning: no suite owns ");
    text::push_str(&mut s, file);
    text::push_str(&mut s, "; skipping");
    s
}


// ── Installing an R package before a run ───────────────────────────────────

/// The command that installs an R package into a temporary library.
pub fn install_argv(library: &str, root: &str) -> (r: Vec<String>)
    ensures
        str_views(r@) == seq!["R"@, "CMD"@, "INSTALL"@, "--no-multiarch"@, "--no-test-load"@, "--library="@ + library@, root@],
{
    let mut v: Vec<String> = Vec::new();
    v.push(text::owned("R"));
    v.push(text::owned("CMD"));
    v.push(text::owned("INSTALL"));
    v.push(text::owned("--no-multiarch"));
    v.push(text::owned("--no-test-load"));
    let mut l = text::owned("--library=");
    text::push_str(&mut l, library);
    v.push(l);
    v.push(text::owned(root));
    proof {
        assert(str_views(v@) =~= seq!["R"@, "CMD"@, "INSTALL"@, "--no-multiarch"@, "--no-test-load"@, "--library="@ + library@, root@]);
    }
    v
}

/// The error of a failed install: the exit status, then the last 20 lines
/// of its stderr, or its whole stdout when stderr is empty (both read as
/// lossy UTF-8).
pub open spec fn install_error_of(status: Seq<char>, stderr: Seq<u8>, stdout: Seq<u8>) -> Seq<char> {
    let tail = text::join(crate::preflight::last_lines(crate::git::lossy_utf8(stderr), 20), "\n"@);
    "exit "@ + status + "\n"@ + if tail.len() == 0 {
        crate::git::lossy_utf8(stdout)
    } else {
        tail
    }
}

/// The error of a failed install (see [`install_error_of`]).
pub fn install_error(status: &str, stderr: &[u8], stdout: &[u8]) -> (r: String)
    ensures
        r@ == install_error_of(status@, stderr@, stdout@),
{
    let tail = crate::preflight::stderr_tail(stderr, 20);
    let mut m = text::owned("exit ");
    text::push_str(&mut m, status);
    text::push_str(&mut m, "\n");
    if tail.as_str().is_empty() {
        let out = crate::git::utf8_lossy(stdout);
        text::push_str(&mut m, out.as_str());
    } else {
        text::push_str(&mut m, tail.as_str());
    }
    m
}

/// The message reported for every file of a suite whose package failed to
/// install.
pub open spec fn install_failure_message(suite: Seq<char>, error: Seq<char>) -> Seq<char> {
    "R CMD INSTALL failed for suite '"@ + suite + "': "@ + error
}

/// The results of a suite whose package failed to install: one engine
/// error per file (no `Done`), reported before any worker output.
pub fn install_failure_results(suite: &str, error: &str, files: &Vec<String>) -> (r: Vec<FileResult>)
    ensures
        r@.len() == files@.len(),
        forall|i: int|
            0 <= i < files@.len() ==> {
                &&& (#[trigger] r@[i]).file@ == files@[i]@
                &&& !r@[i].cancelled
                &&& r@[i].messages@.len() == 1
                &&& r@[i].messages@[0].model() == MessageModel::Event(
                    engine_error_model(basename_or_empty(files@[i]@), install_failure_message(suite@, error@)),
                )
            },
{
    let mut msg = text::owned("R CMD INSTALL failed for suite '");
    text::push_str(&mut msg, suite);
    text::push_str(&mut msg, "': ");
    text::push_str(&mut msg, error);
    let mut out: Vec<FileResult> = Vec::new();
    let mut i: usize = 0;
    while i < files.len()
        invariant
            i <= files@.len(),
            msg@ == install_failure_message(suite@, error@),
            out@.len() == i,
            forall|k: int|
                0 <= k < i ==> {
                    &&& (#[trigger] out@[k]).file@ == files@[k]@
                    &&& !out@[k].cancelled
                    &&& out@[k].messages@.len() == 1
                    &&& out@[k].messages@[0].model() == MessageModel::Event(
                        engine_error_model(basename_or_empty(files@[k]@), install_failure_message(suite@, error@)),
                    )
                },
        decreases files@.len() - i,
    {
        let name = match paths::file_name_of(files[i].as_str()) {
            Some(n) => n,
            None => String::new(),
        };
        let ev = Event::engine_error(name, msg.clone());
        proof {
            assert(crate::protocol::correction_models(ev.corrections@) =~= Seq::empty());
            assert(ev.failures@ =~= Seq::empty());
        }
        let mut messages: Vec<Message> = Vec::new();
        messages.push(Message::Event(ev));
        out.push(FileResult { file: files[i].clone(), messages, cancelled: false });
        i = i + 1;
    }
    out
}

/// Empty the buckets of the suites whose install failed, so no pool is
/// started for them.
pub fn drop_failed_buckets(buckets: &mut Vec<Vec<String>>, failed: &[bool])
    requires
        failed@.len() == old(buckets)@.len(),
    ensures
        final(buckets)@.len() == old(buckets)@.len(),
        forall|i: int|
            0 <= i < failed@.len() ==> (#[trigger] final(buckets)@[i])@ == if failed@[i] {
                Seq::<String>::empty()
            } else {
                old(buckets)@[i]@
            },
{
    let mut i: usize = 0;
    while i < failed.len()
        invariant
            i <= failed@.len(),
            failed@.len() == old(buckets)@.len(),
            buckets@.len() == old(buckets)@.len(),
            forall|k: int|
                0 <= k < i ==> (#[trigger] buckets@[k])@ == if failed@[k] {
                    Seq::<String>::empty()
                } else {
                    old(buckets)@[k]@
                },
            forall|k: int| i <= k < buckets@.len() ==> #[trigger] buckets@[k] == old(buckets)@[k],
        decreases failed@.len() - i,
    {
        if failed[i] {
            buckets.set(i, Vec::new());
        }
        i = i + 1;
    }
}

} // verus!
