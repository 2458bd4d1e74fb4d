//! Run-level bookkeeping shared by the plain and GitHub reporters: per-file
//! tallies, run totals, which files failed, and folding rerun results and
//! runtime dependency observations back in.
use vstd::prelude::*;

use crate::paths;
use crate::protocol;
use crate::protocol::{Finding, Message, Outcome};
use crate::text;
use crate::text::str_views;

verus! {

/// Per-file tally for the reporters.
#[derive(Clone, Copy, Debug, Default, PartialEq, Eq, Structural)]
pub struct FileTally {
    pub passed: u32,
    pub failed: u32,
    pub errored: u32,
    pub warned: u32,
    pub skipped: u32,
    pub xfailed: u32,
    pub bad_file: bool,
    pub cancelled: bool,
}

/// The reporter tally of a core tally.
pub open spec fn tally_of(t: protocol::FileTally) -> FileTally {
    FileTally {
        passed: t.counts.pass,
        failed: t.counts.fail,
        errored: t.counts.error,
        warned: t.counts.warn,
        skipped: t.counts.skip,
        xfailed: t.counts.xfail,
        bad_file: t.bad,
        cancelled: t.status == protocol::FileStatus::Cancelled,
    }
}

impl FileTally {
    /// The reporter view of a core tally.
    pub fn from_core(t: &protocol::FileTally) -> (r: FileTally)
        ensures
            r == tally_of(*t),
    {
        FileTally {
            passed: t.counts.pass,
            failed: t.counts.fail,
            errored: t.counts.error,
            warned: t.counts.warn,
            skipped: t.counts.skip,
            xfailed: t.counts.xfail,
            bad_file: t.bad,
            cancelled: match t.status {
                protocol::FileStatus::Cancelled => true,
                _ => false,
            },
        }
    }
}

/// One file's accumulated messages, with the engine-side cancelled flag.
#[derive(Debug)]
pub struct FileRecord {
    pub file: String,
    pub messages: Vec<Message>,
    pub cancelled: bool,
}

/// Aggregate run statistics for the summaries.
#[derive(Debug)]
pub struct RunStats {
    pub passed: u32,
    pub failed: u32,
    pub errored: u32,
    pub warned: u32,
    pub skipped: u32,
    pub n_files: u32,
    /// Wall time of the run in milliseconds.
    pub elapsed_ms: u64,
    /// The slowest file and its duration (the last one among equals).
    pub slowest: Option<(String, u64)>,
}

/// Tally one file's messages and append its findings (fail/error, then
/// warn) to the two lists; yields the tally and the file's duration.
pub fn tally_messages(
    messages: &[Message],
    file_name: &str,
    cancelled: bool,
    failed_details: &mut Vec<Finding>,
    warn_details: &mut Vec<Finding>,
) -> (r: (FileTally, u64))
    requires
        messages@.len() < u32::MAX,
    ensures
        r.0 == tally_of(protocol::tally_spec(messages@, cancelled)),
        r.1 == protocol::summary_ms(messages@),
        final(failed_details)@.len() == old(failed_details)@.len() + protocol::failure_events(
            messages@,
        ).len(),
        final(failed_details)@.subrange(0, old(failed_details)@.len() as int) == old(
            failed_details,
        )@,
        forall|i: int|
            0 <= i < protocol::failure_events(messages@).len() ==> protocol::finding_matches(
                #[trigger] final(failed_details)@[old(failed_details)@.len() + i],
                protocol::failure_events(messages@)[i],
                file_name@,
                Seq::empty(),
            ),
        final(warn_details)@.len() == old(warn_details)@.len() + protocol::warning_events(
            messages@,
        ).len(),
        final(warn_details)@.subrange(0, old(warn_details)@.len() as int) == old(warn_details)@,
        forall|i: int|
            0 <= i < protocol::warning_events(messages@).len() ==> protocol::finding_matches(
                #[trigger] final(warn_details)@[old(warn_details)@.len() + i],
                protocol::warning_events(messages@)[i],
                file_name@,
                Seq::empty(),
            ),
{
    let core = protocol::tally_messages(messages, cancelled);
    let (mut failures, mut warnings) = protocol::collect_findings(messages, file_name, "");
    proof {
        reveal_strlit("");
        assert(""@ == Seq::<char>::empty());
    }
    let ghost f0 = failed_details@;
    let ghost fs = failures@;
    failed_details.append(&mut failures);
    proof {
        assert(failed_details@ == f0 + fs);
        assert(failed_details@.subrange(0, f0.len() as int) =~= f0);
        assert forall|i: int| 0 <= i < fs.len() implies #[trigger] failed_details@[f0.len() + i]
            == fs[i] by {}
    }
    let ghost w0 = warn_details@;
    let ghost ws = warnings@;
    warn_details.append(&mut warnings);
    proof {
        assert(warn_details@ == w0 + ws);
        assert(warn_details@.subrange(0, w0.len() as int) =~= w0);
        assert forall|i: int| 0 <= i < ws.len() implies #[trigger] warn_details@[w0.len() + i]
            == ws[i] by {}
    }
    let t = FileTally::from_core(&core);
    (t, core.duration_ms)
}


// ── Run accumulator ─────────────────────────────────────────────────────────

/// Events of outcome `o` over all records.
pub open spec fn outcome_total(rs: Seq<FileRecord>, o: Outcome) -> nat
    decreases rs.len(),
{
    if rs.len() == 0 {
        0
    } else {
        outcome_total(rs.drop_last(), o) + protocol::count_events(rs.last().messages@, o)
    }
}

/// Records whose events include a failure or an error.
pub open spec fn bad_file_count(rs: Seq<FileRecord>) -> nat
    decreases rs.len(),
{
    if rs.len() == 0 {
        0
    } else {
        bad_file_count(rs.drop_last()) + if protocol::counts_bad(
            protocol::event_counts(rs.last().messages@),
        ) {
            1nat
        } else {
            0nat
        }
    }
}

/// Messages over all records.
pub open spec fn message_total(rs: Seq<FileRecord>) -> nat
    decreases rs.len(),
{
    if rs.len() == 0 {
        0
    } else {
        message_total(rs.drop_last()) + rs.last().messages@.len()
    }
}

/// Run totals and per-file results, built up one file at a time.
#[derive(Debug, Default)]
pub struct RunAccumulator {
    /// Summed expectation counts.
    pub totals: FileTally,
    /// Number of files with at least one failure or error.
    pub failed_files: u32,
    pub file_durations: Vec<(String, u64)>,
    /// Per-file tallies for end-of-run rendering.
    pub file_tallies: Vec<(String, FileTally, u64)>,
    pub failed_details: Vec<Finding>,
    pub warn_details: Vec<Finding>,
    pub all_results: Vec<FileRecord>,
}

/// `acc` after taking in one file's tally `t` and duration `ms`.
pub open spec fn took_in(
    old_acc: RunAccumulator,
    new_acc: RunAccumulator,
    name: String,
    t: FileTally,
    ms: u64,
) -> bool {
    &&& new_acc.totals.passed == old_acc.totals.passed + t.passed
    &&& new_acc.totals.failed == old_acc.totals.failed + t.failed
    &&& new_acc.totals.errored == old_acc.totals.errored + t.errored
    &&& new_acc.totals.warned == old_acc.totals.warned + t.warned
    &&& new_acc.totals.skipped == old_acc.totals.skipped + t.skipped
    &&& new_acc.totals.xfailed == old_acc.totals.xfailed + t.xfailed
    &&& new_acc.totals.bad_file == old_acc.totals.bad_file
    &&& new_acc.totals.cancelled == old_acc.totals.cancelled
    &&& new_acc.failed_files == old_acc.failed_files + if t.bad_file { 1int } else { 0int }
    &&& new_acc.file_durations@.len() == old_acc.file_durations@.len() + 1
    &&& new_acc.file_durations@.drop_last() == old_acc.file_durations@
    &&& new_acc.file_durations@.last() == (name, ms)
    &&& new_acc.file_tallies@.len() == old_acc.file_tallies@.len() + 1
    &&& new_acc.file_tallies@.drop_last() == old_acc.file_tallies@
    &&& new_acc.file_tallies@.last() == (name, t, ms)
}

/// The six per-outcome sums of a tally added to `totals` stay in range.
pub open spec fn totals_fit(totals: FileTally, m: Seq<Message>) -> bool {
    &&& totals.passed + protocol::count_events(m, Outcome::Pass) <= u32::MAX
    &&& totals.failed + protocol::count_events(m, Outcome::Fail) <= u32::MAX
    &&& totals.errored + protocol::count_events(m, Outcome::Error) <= u32::MAX
    &&& totals.warned + protocol::count_events(m, Outcome::Warn) <= u32::MAX
    &&& totals.skipped + protocol::count_events(m, Outcome::Skip) <= u32::MAX
    &&& totals.xfailed + protocol::count_events(m, Outcome::Xfail) <= u32::MAX
}

impl RunAccumulator {
    /// Take in one file: tally, findings, duration; the record itself is
    /// not stored.
    fn add_file(&mut self, file_name: &String, messages: &[Message], cancelled: bool)
        requires
            messages@.len() < u32::MAX,
            totals_fit(old(self).totals, messages@),
            old(self).failed_files < u32::MAX,
        ensures
            took_in(
                *old(self),
                *final(self),
                *file_name,
                tally_of(protocol::tally_spec(messages@, cancelled)),
                protocol::summary_ms(messages@),
            ),
            final(self).failed_details@.len() == old(self).failed_details@.len()
                + protocol::failure_events(messages@).len(),
            final(self).warn_details@.len() == old(self).warn_details@.len()
                + protocol::warning_events(messages@).len(),
            final(self).all_results@ == old(self).all_results@,
    {
        let (t, file_ms) = tally_messages(
            messages,
            file_name.as_str(),
            cancelled,
            &mut self.failed_details,
            &mut self.warn_details,
        );
        proof {
            protocol::lemma_count_events_le_len(messages@, Outcome::Pass);
            protocol::lemma_count_events_le_len(messages@, Outcome::Fail);
            protocol::lemma_count_events_le_len(messages@, Outcome::Error);
            protocol::lemma_count_events_le_len(messages@, Outcome::Warn);
            protocol::lemma_count_events_le_len(messages@, Outcome::Skip);
            protocol::lemma_count_events_le_len(messages@, Outcome::Xfail);
        }
        self.totals.passed = self.totals.passed + t.passed;
        self.totals.failed = self.totals.failed + t.failed;
        self.totals.errored = self.totals.errored + t.errored;
        self.totals.warned = self.totals.warned + t.warned;
        self.totals.skipped = self.totals.skipped + t.skipped;
        self.totals.xfailed = self.totals.xfailed + t.xfailed;
        if t.bad_file {
            self.failed_files = self.failed_files + 1;
        }
        let ghost d0 = self.file_durations@;
        let ghost t0 = self.file_tallies@;
        self.file_durations.push((file_name.clone(), file_ms));
        self.file_tallies.push((file_name.clone(), t, file_ms));
        proof {
            assert(self.file_durations@.drop_last() =~= d0);
            assert(self.file_tallies@.drop_last() =~= t0);
        }
    }

    /// Take in one file and keep its record.
    pub fn push(&mut self, file_name: String, messages: Vec<Message>, cancelled: bool)
        requires
            messages@.len() < u32::MAX,
            totals_fit(old(self).totals, messages@),
            old(self).failed_files < u32::MAX,
        ensures
            took_in(
                *old(self),
                *final(self),
                file_name,
                tally_of(protocol::tally_spec(messages@, cancelled)),
                protocol::summary_ms(messages@),
            ),
            final(self).failed_details@.len() == old(self).failed_details@.len()
                + protocol::failure_events(messages@).len(),
            final(self).warn_details@.len() == old(self).warn_details@.len()
                + protocol::warning_events(messages@).len(),
            final(self).all_results@.len() == old(self).all_results@.len() + 1,
            final(self).all_results@.drop_last() == old(self).all_results@,
            final(self).all_results@.last().file@ == file_name@,
            final(self).all_results@.last().messages@ == messages@,
            final(self).all_results@.last().cancelled == cancelled,
    {
        self.add_file(&file_name, messages.as_slice(), cancelled);
        let ghost before = self.all_results@;
        self.all_results.push(FileRecord { file: file_name, messages, cancelled });
        proof {
            assert(self.all_results@.drop_last() == before);
        }
    }

    /// Rebuild the totals and per-file lists from a result set (the
    /// records themselves are not kept).
    pub fn from_results(all_results: &[FileRecord]) -> (acc: RunAccumulator)
        requires
            message_total(all_results@) < u32::MAX,
        ensures
            acc.totals.passed == outcome_total(all_results@, Outcome::Pass),
            acc.totals.failed == outcome_total(all_results@, Outcome::Fail),
            acc.totals.errored == outcome_total(all_results@, Outcome::Error),
            acc.totals.warned == outcome_total(all_results@, Outcome::Warn),
            acc.totals.skipped == outcome_total(all_results@, Outcome::Skip),
            acc.totals.xfailed == outcome_total(all_results@, Outcome::Xfail),
            !acc.totals.bad_file && !acc.totals.cancelled,
            acc.failed_files == bad_file_count(all_results@),
            acc.file_durations@.len() == all_results@.len(),
            acc.file_tallies@.len() == all_results@.len(),
            forall|k: int|
                0 <= k < all_results@.len() ==> #[trigger] acc.file_durations@[k] == (
                    all_results@[k].file,
                    protocol::summary_ms(all_results@[k].messages@),
                ),
            forall|k: int|
                0 <= k < all_results@.len() ==> #[trigger] acc.file_tallies@[k] == (
                    all_results@[k].file,
                    tally_of(
                        protocol::tally_spec(all_results@[k].messages@, all_results@[k].cancelled),
                    ),
                    protocol::summary_ms(all_results@[k].messages@),
                ),
            acc.all_results@.len() == 0,
    {
        let mut acc = RunAccumulator {
            totals: FileTally {
                passed: 0,
                failed: 0,
                errored: 0,
                warned: 0,
                skipped: 0,
                xfailed: 0,
                bad_file: false,
                cancelled: false,
            },
            failed_files: 0,
            file_durations: Vec::new(),
            file_tallies: Vec::new(),
            failed_details: Vec::new(),
            warn_details: Vec::new(),
            all_results: Vec::new(),
        };
        let ghost rs = all_results@;
        let mut i: usize = 0;
        while i < all_results.len()
            invariant
                i <= rs.len(),
                rs == all_results@,
                message_total(rs) < u32::MAX,
                acc.totals.passed == outcome_total(rs.subrange(0, i as int), Outcome::Pass),
                acc.totals.failed == outcome_total(rs.subrange(0, i as int), Outcome::Fail),
                acc.totals.errored == outcome_total(rs.subrange(0, i as int), Outcome::Error),
                acc.totals.warned == outcome_total(rs.subrange(0, i as int), Outcome::Warn),
                acc.totals.skipped == outcome_total(rs.subrange(0, i as int), Outcome::Skip),
                acc.totals.xfailed == outcome_total(rs.subrange(0, i as int), Outcome::Xfail),
                !acc.totals.bad_file && !acc.totals.cancelled,
                acc.failed_files == bad_file_count(rs.subrange(0, i as int)),
                acc.file_durations@.len() == i,
                acc.file_tallies@.len() == i,
                forall|k: int|
                    0 <= k < i ==> #[trigger] acc.file_durations@[k] == (
                        rs[k].file,
                        protocol::summary_ms(rs[k].messages@),
                    ),
                forall|k: int|
                    0 <= k < i ==> #[trigger] acc.file_tallies@[k] == (
                        rs[k].file,
                        tally_of(protocol::tally_spec(rs[k].messages@, rs[k].cancelled)),
                        protocol::summary_ms(rs[k].messages@),
                    ),
                acc.all_results@.len() == 0,
            decreases rs.len() - i,
        {
            let rec = &all_results[i];
            proof {
                let pre = rs.subrange(0, i as int);
                let post = rs.subrange(0, i + 1);
                assert(post.drop_last() == pre);
                assert(post.last() == rec);
                lemma_totals_bounded(rs, i + 1);
                assert(message_total(post) <= message_total(rs));
                lemma_outcome_total_le(post, Outcome::Pass);
                lemma_outcome_total_le(post, Outcome::Fail);
                lemma_outcome_total_le(post, Outcome::Error);
                lemma_outcome_total_le(post, Outcome::Warn);
                lemma_outcome_total_le(post, Outcome::Skip);
                lemma_outcome_total_le(post, Outcome::Xfail);
                lemma_bad_count_le_msgs(post);
                assert(rec.messages@.len() <= message_total(post));
            }
            let ghost d0 = acc.file_durations@;
            let ghost t0 = acc.file_tallies@;
            acc.add_file(&rec.file, rec.messages.as_slice(), rec.cancelled);
            proof {
                assert forall|k: int| 0 <= k < i + 1 implies #[trigger] acc.file_durations@[k] == (
                    rs[k].file,
                    protocol::summary_ms(rs[k].messages@),
                ) by {
                    if k < i {
                        assert(acc.file_durations@[k] == d0[k]);
                    }
                }
                assert forall|k: int| 0 <= k < i + 1 implies #[trigger] acc.file_tallies@[k] == (
                    rs[k].file,
                    tally_of(protocol::tally_spec(rs[k].messages@, rs[k].cancelled)),
                    protocol::summary_ms(rs[k].messages@),
                ) by {
                    if k < i {
                        assert(acc.file_tallies@[k] == t0[k]);
                    }
                }
            }
            i = i + 1;
        }
        proof {
            assert(rs.subrange(0, rs.len() as int) == rs);
        }
        acc
    }
}

/// Totals over a prefix stay below the whole.
proof fn lemma_totals_bounded(rs: Seq<FileRecord>, n: int)
    requires
        0 <= n <= rs.len(),
    ensures
        message_total(rs.subrange(0, n)) <= message_total(rs),
    decreases rs.len() - n,
{
    if n < rs.len() {
        lemma_totals_bounded(rs, n + 1);
        assert(rs.subrange(0, n + 1).drop_last() == rs.subrange(0, n));
    } else {
        assert(rs.subrange(0, n) == rs);
    }
}

proof fn lemma_outcome_total_le(rs: Seq<FileRecord>, o: Outcome)
    ensures
        outcome_total(rs, o) <= message_total(rs),
    decreases rs.len(),
{
    if rs.len() > 0 {
        lemma_outcome_total_le(rs.drop_last(), o);
        protocol::lemma_count_events_le_len(rs.last().messages@, o);
    }
}

proof fn lemma_bad_count_le_msgs(rs: Seq<FileRecord>)
    requires
        message_total(rs) < u32::MAX,
    ensures
        bad_file_count(rs) <= message_total(rs),
        rs.len() > 0 && protocol::counts_bad(protocol::event_counts(rs.last().messages@))
            ==> bad_file_count(rs.drop_last()) < message_total(rs),
    decreases rs.len(),
{
    if rs.len() > 0 {
        let m = rs.last().messages@;
        assert(message_total(rs.drop_last()) + m.len() == message_total(rs));
        lemma_bad_count_le_msgs(rs.drop_last());
        protocol::lemma_count_events_le_len(m, Outcome::Fail);
        protocol::lemma_count_events_le_len(m, Outcome::Error);
        if protocol::counts_bad(protocol::event_counts(m)) {
            assert(m.len() >= 1);
        }
    }
}


/// The entry with the largest duration, the last one among equals.
pub open spec fn slowest_of(ds: Seq<(String, u64)>) -> Option<(String, u64)>
    decreases ds.len(),
{
    if ds.len() == 0 {
        None
    } else {
        match slowest_of(ds.drop_last()) {
            None => Some(ds.last()),
            Some(b) => if ds.last().1 >= b.1 { Some(ds.last()) } else { Some(b) },
        }
    }
}

impl RunAccumulator {
    /// The run statistics, with the run's wall time.
    pub fn into_stats(self, elapsed_ms: u64) -> (s: RunStats)
        ensures
            s.passed == self.totals.passed,
            s.failed == self.totals.failed,
            s.errored == self.totals.errored,
            s.warned == self.totals.warned,
            s.skipped == self.totals.skipped,
            s.n_files == self.file_durations@.len() as u32,
            s.elapsed_ms == elapsed_ms,
            s.slowest == slowest_of(self.file_durations@),
    {
        let n_files = self.file_durations.len() as u32;
        let ghost ds = self.file_durations@;
        let mut best: Option<(String, u64)> = None;
        let mut i: usize = 0;
        assert(ds.subrange(0, 0) =~= Seq::<(String, u64)>::empty());
        while i < self.file_durations.len()
            invariant
                i <= ds.len(),
                ds == self.file_durations@,
                best == slowest_of(ds.subrange(0, i as int)),
            decreases ds.len() - i,
        {
            let cur = &self.file_durations[i];
            proof {
                assert(ds.subrange(0, i + 1).drop_last() == ds.subrange(0, i as int));
                assert(ds.subrange(0, i + 1).last() == *cur);
            }
            let take = match &best {
                None => true,
                Some(b) => cur.1 >= b.1,
            };
            if take {
                best = Some((cur.0.clone(), cur.1));
            }
            i = i + 1;
        }
        proof {
            assert(ds.subrange(0, ds.len() as int) == ds);
        }
        RunStats {
            passed: self.totals.passed,
            failed: self.totals.failed,
            errored: self.totals.errored,
            warned: self.totals.warned,
            skipped: self.totals.skipped,
            n_files,
            elapsed_ms,
            slowest: best,
        }
    }
}

// ── Failed files and reruns ─────────────────────────────────────────────────

/// Some event of `m` is a failure or an error.
pub open spec fn has_bad_event(m: Seq<Message>) -> bool {
    exists|k: int|
        0 <= k < m.len() && (#[trigger] m[k] matches Message::Event(e) && protocol::is_bad_outcome(
            e.outcome,
        ))
}

/// Names of the files that hold at least one failure or error event;
/// cancelled files are not counted. Each name appears once.
pub fn collect_failed_files(all_results: &[FileRecord]) -> (r: Vec<String>)
    ensures
        str_views(r@).no_duplicates(),
        forall|f: Seq<char>| #[trigger] str_views(r@).contains(f) <==> exists|k: int|
            0 <= k < all_results@.len() && !all_results@[k].cancelled && has_bad_event(
                all_results@[k].messages@,
            ) && #[trigger] all_results@[k].file@ == f,
{
    let mut out: Vec<String> = Vec::new();
    let mut i: usize = 0;
    let ghost rs = all_results@;
    while i < all_results.len()
        invariant
            i <= rs.len(),
            rs == all_results@,
            str_views(out@).no_duplicates(),
            forall|f: Seq<char>| #[trigger] str_views(out@).contains(f) <==> exists|k: int|
                0 <= k < i && !rs[k].cancelled && has_bad_event(rs[k].messages@)
                    && #[trigger] rs[k].file@ == f,
        decreases rs.len() - i,
    {
        let rec = &all_results[i];
        let mut bad = false;
        if !rec.cancelled {
            let mut j: usize = 0;
            while j < rec.messages.len()
                invariant_except_break
                    !bad,
                invariant
                    j <= rec.messages@.len(),
                    forall|q: int|
                        0 <= q < j ==> !(#[trigger] rec.messages@[q] matches Message::Event(e)
                            && protocol::is_bad_outcome(e.outcome)),
                ensures
                    bad ==> j < rec.messages@.len() && (rec.messages@[j as int] matches Message::Event(
                        e,
                    ) && protocol::is_bad_outcome(e.outcome)),
                    !bad ==> j >= rec.messages@.len(),
                decreases rec.messages@.len() - j,
            {
                let hit = match &rec.messages[j] {
                    Message::Event(e) => match e.outcome {
                        Outcome::Fail | Outcome::Error => true,
                        _ => false,
                    },
                    _ => false,
                };
                if hit {
                    bad = true;
                    break;
                }
                j = j + 1;
            }
            proof {
                if !bad {
                    assert(!has_bad_event(rec.messages@));
                } else {
                    assert(rec.messages@[j as int] matches Message::Event(e)
                        && protocol::is_bad_outcome(e.outcome));
                }
            }
        }
        let ghost before = str_views(out@);
        if bad {
            text::insert_unique(&mut out, rec.file.clone());
        }
        proof {
            assert forall|f: Seq<char>| #[trigger] str_views(out@).contains(f) <==> exists|k: int|
                0 <= k < i + 1 && !rs[k].cancelled && has_bad_event(rs[k].messages@)
                    && #[trigger] rs[k].file@ == f by {
                if bad && f == rec.file@ {
                    assert(rs[i as int].file@ == f);
                }
                if exists|k: int|
                    0 <= k < i + 1 && !rs[k].cancelled && has_bad_event(rs[k].messages@)
                        && #[trigger] rs[k].file@ == f {
                    let k = choose|k: int|
                        0 <= k < i + 1 && !rs[k].cancelled && has_bad_event(rs[k].messages@)
                            && #[trigger] rs[k].file@ == f;
                    if k < i {
                        assert(before.contains(f));
                    }
                }
            }
        }
        i = i + 1;
    }
    out
}


/// The last index holding `name`.
pub open spec fn last_index_of(names: Seq<Seq<char>>, name: Seq<char>) -> Option<int>
    decreases names.len(),
{
    if names.len() == 0 {
        None
    } else if names.last() == name {
        Some(names.len() - 1)
    } else {
        last_index_of(names.drop_last(), name)
    }
}

/// The file names of a result set.
pub open spec fn record_names(rs: Seq<FileRecord>) -> Seq<Seq<char>> {
    rs.map_values(|r: FileRecord| r.file@)
}

/// `cur` after applying `reps` in order: a replacement whose file was in
/// the original set (`names0`, the last entry of that name) overwrites that
/// entry; any other is appended.
pub open spec fn replaced(cur: Seq<FileRecord>, names0: Seq<Seq<char>>, reps: Seq<FileRecord>) -> Seq<
    FileRecord,
>
    decreases reps.len(),
{
    if reps.len() == 0 {
        cur
    } else {
        match last_index_of(names0, reps[0].file@) {
            Some(k) => replaced(cur.update(k, reps[0]), names0, reps.drop_first()),
            None => replaced(cur.push(reps[0]), names0, reps.drop_first()),
        }
    }
}

proof fn lemma_last_index_bounds(names: Seq<Seq<char>>, name: Seq<char>)
    ensures
        last_index_of(names, name) matches Some(k) ==> 0 <= k < names.len() && names[k] == name,
    decreases names.len(),
{
    if names.len() > 0 && names.last() != name {
        lemma_last_index_bounds(names.drop_last(), name);
    }
}

/// The last index of `all` whose file is `name`.
fn last_index_exec(all: &Vec<FileRecord>, name: &[char]) -> (r: Option<usize>)
    ensures
        match r {
            Some(k) => last_index_of(record_names(all@), name@) == Some(k as int),
            None => last_index_of(record_names(all@), name@) is None,
        },
{
    let ghost names = record_names(all@);
    let mut k = all.len();
    assert(names.subrange(0, names.len() as int) == names);
    while k > 0
        invariant
            k <= all@.len(),
            names == record_names(all@),
            last_index_of(names, name@) == last_index_of(names.subrange(0, k as int), name@),
        decreases k,
    {
        let other = text::chars_of(all[k - 1].file.as_str());
        proof {
            assert(names.subrange(0, k as int).last() == other@);
            assert(names.subrange(0, k as int).drop_last() == names.subrange(0, k - 1));
        }
        if text::eq_chars(other.as_slice(), name) {
            return Some(k - 1);
        }
        k = k - 1;
    }
    None
}

/// Replace the entries of `all_results` whose file a replacement names;
/// append the replacements for files not seen before.
pub fn replace_results(all_results: &mut Vec<FileRecord>, replacements: Vec<FileRecord>)
    ensures
        final(all_results)@ == replaced(old(all_results)@, record_names(old(all_results)@), replacements@),
{
    let ghost names0 = record_names(all_results@);
    let n0 = all_results.len();
    let ghost len0 = all_results@.len();
    let mut slots: Vec<Option<usize>> = Vec::new();
    let mut q: usize = 0;
    while q < replacements.len()
        invariant
            q <= replacements@.len(),
            names0 == record_names(all_results@),
            slots@.len() == q,
            forall|p: int|
                0 <= p < q ==> #[trigger] slots@[p] == match last_index_of(
                    names0,
                    replacements@[p].file@,
                ) {
                    Some(k) => Some(k as usize),
                    None => None::<usize>,
                },
        decreases replacements@.len() - q,
    {
        let name = text::chars_of(replacements[q].file.as_str());
        let slot = last_index_exec(all_results, name.as_slice());
        proof {
            lemma_last_index_bounds(names0, name@);
        }
        slots.push(slot);
        q = q + 1;
    }
    let mut reps = replacements;
    let ghost reps0 = reps@;
    let mut i: usize = 0;
    assert(reps0.subrange(0, reps0.len() as int) == reps0);
    while reps.len() > 0
        invariant
            reps@ == reps0.subrange(i as int, reps0.len() as int),
            slots@.len() == reps0.len(),
            i <= reps0.len(),
            len0 <= all_results@.len(),
            forall|p: int|
                0 <= p < reps0.len() ==> #[trigger] slots@[p] == match last_index_of(
                    names0,
                    reps0[p].file@,
                ) {
                    Some(k) => Some(k as usize),
                    None => None::<usize>,
                },
            names0.len() == len0,
            len0 == n0,
            replaced(all_results@, names0, reps@) == replaced(
                old(all_results)@,
                names0,
                reps0,
            ),
        decreases reps@.len(),
    {
        let ghost all_before = all_results@;
        let ghost reps_before = reps@;
        let rec = reps.remove(0);
        proof {
            assert(reps_before[0] == rec);
            assert(reps@ == reps_before.drop_first());
            assert(reps0[i as int] == rec);
            assert(reps@ == reps0.subrange(i + 1, reps0.len() as int));
            lemma_last_index_bounds(names0, rec.file@);
        }
        let n_slots = slots.len();
        let slot = slots[i];
        proof {
            assert(i < n_slots);
            assert(i < reps0.len());
            assert(slot == slots@[i as int]);
            assert(slot == match last_index_of(names0, reps0[i as int].file@) {
                Some(k) => Some(k as usize),
                None => None::<usize>,
            });
        }
        match slot {
            Some(k) => {
                all_results.set(k, rec);
                proof {
                    assert(all_results@ == all_before.update(k as int, reps_before[0]));
                }
            },
            None => {
                all_results.push(rec);
                proof {
                    assert(all_results@ == all_before.push(reps_before[0]));
                }
            },
        }
        proof {
            assert(replaced(all_before, names0, reps_before) == replaced(all_results@, names0, reps@));
        }
        i = i + 1;
    }
}


// ── Stopping after too many bad files ───────────────────────────────────────

/// The run's results as files finish, with the `max_fail` stop: files are
/// taken in until the number of bad files reaches `max_fail` (0 turns the
/// stop off); every file that still arrives after that is recorded as
/// cancelled, with no events.
#[derive(Debug)]
pub struct MaxFailGate {
    pub acc: RunAccumulator,
    pub max_fail: u32,
    pub tripped: bool,
}

/// The tally a file gets when it arrives after the stop.
pub open spec fn after_stop_tally() -> FileTally {
    tally_of(protocol::tally_spec(seq![Message::Done], true))
}

impl MaxFailGate {
    /// Well-formedness: when `max_fail` is positive, the count of bad
    /// files stays at most `max_fail` and equals it exactly when
    /// `tripped` is set; when it is zero, `tripped` is never set.
    pub open spec fn inv(&self) -> bool {
        &&& self.max_fail > 0 ==> self.acc.failed_files <= self.max_fail
        &&& self.max_fail > 0 ==> (self.tripped <==> self.acc.failed_files == self.max_fail)
        &&& self.max_fail == 0 ==> !self.tripped
    }

    /// A gate with no file taken in yet.
    pub fn new(max_fail: u32) -> (g: MaxFailGate)
        ensures
            g.inv(),
            g.max_fail == max_fail,
            !g.tripped,
            g.acc.failed_files == 0,
            g.acc.totals == (FileTally {
                passed: 0,
                failed: 0,
                errored: 0,
                warned: 0,
                skipped: 0,
                xfailed: 0,
                bad_file: false,
                cancelled: false,
            }),
            g.acc.all_results@.len() == 0,
            g.acc.file_tallies@.len() == 0,
    {
        MaxFailGate {
            acc: RunAccumulator {
                totals: FileTally {
                    passed: 0,
                    failed: 0,
                    errored: 0,
                    warned: 0,
                    skipped: 0,
                    xfailed: 0,
                    bad_file: false,
                    cancelled: false,
                },
                failed_files: 0,
                file_durations: Vec::new(),
                file_tallies: Vec::new(),
                failed_details: Vec::new(),
                warn_details: Vec::new(),
                all_results: Vec::new(),
            },
            max_fail,
            tripped: false,
        }
    }

    /// Take in a finished file. Before the stop the file is taken in as it
    /// came; after it, as a cancelled file with only the end marker. The
    /// result is true when this very file makes the bad files reach
    /// `max_fail`: the caller then cancels the workers still running.
    pub fn file_finished(&mut self, file_name: String, messages: Vec<Message>, cancelled: bool) -> (trip: bool)
        requires
            old(self).inv(),
            old(self).acc.failed_files < u32::MAX,
            !old(self).tripped ==> messages@.len() < u32::MAX,
            !old(self).tripped ==> totals_fit(old(self).acc.totals, messages@),
        ensures
            final(self).inv(),
            final(self).max_fail == old(self).max_fail,
            old(self).tripped ==> {
                &&& !trip
                &&& final(self).tripped
                &&& took_in(old(self).acc, final(self).acc, file_name, after_stop_tally(), 0)
                &&& final(self).acc.all_results@ == old(self).acc.all_results@.push(
                    final(self).acc.all_results@.last(),
                )
                &&& final(self).acc.all_results@.last().file@ == file_name@
                &&& final(self).acc.all_results@.last().messages@ == seq![Message::Done]
                &&& final(self).acc.all_results@.last().cancelled
            },
            !old(self).tripped ==> {
                &&& took_in(
                    old(self).acc,
                    final(self).acc,
                    file_name,
                    tally_of(protocol::tally_spec(messages@, cancelled)),
                    protocol::summary_ms(messages@),
                )
                &&& final(self).acc.all_results@.drop_last() == old(self).acc.all_results@
                &&& final(self).acc.all_results@.last().file@ == file_name@
                &&& final(self).acc.all_results@.last().messages@ == messages@
                &&& final(self).acc.all_results@.last().cancelled == cancelled
                &&& trip == final(self).tripped
                &&& trip == (old(self).max_fail > 0 && final(self).acc.failed_files == old(
                    self,
                ).max_fail)
            },
    {
        if self.tripped {
            let mut done: Vec<Message> = Vec::new();
            done.push(Message::Done);
            proof {
                assert(done@ =~= seq![Message::Done]);
                assert(done@.drop_last() =~= Seq::<Message>::empty());
                reveal_with_fuel(protocol::count_events, 2);
                reveal_with_fuel(protocol::summary_ms, 2);
                assert(protocol::count_events(done@, Outcome::Pass) == 0);
                assert(protocol::count_events(done@, Outcome::Fail) == 0);
                assert(protocol::count_events(done@, Outcome::Error) == 0);
                assert(protocol::count_events(done@, Outcome::Warn) == 0);
                assert(protocol::count_events(done@, Outcome::Skip) == 0);
                assert(protocol::count_events(done@, Outcome::Xfail) == 0);
                assert(protocol::summary_ms(done@) == 0);
            }
            let ghost before = self.acc.all_results@;
            self.acc.push(file_name, done, true);
            proof {
                assert(self.acc.all_results@ =~= before.push(self.acc.all_results@.last()));
            }
            return false;
        }
        self.acc.push(file_name, messages, cancelled);
        if self.max_fail > 0 && self.acc.failed_files >= self.max_fail {
            self.tripped = true;
        }
        self.tripped
    }
}

// ── Rerun rounds ────────────────────────────────────────────────────────────

/// The paths of `test_files` whose basename is among `failed`, in order.
pub open spec fn rerun_selection(test_files: Seq<Seq<char>>, failed: Seq<Seq<char>>) -> Seq<Seq<char>>
    decreases test_files.len(),
{
    if test_files.len() == 0 {
        Seq::empty()
    } else {
        let rest = rerun_selection(test_files.drop_last(), failed);
        if failed.contains(crate::filter::match_name(test_files.last())) {
            rest.push(test_files.last())
        } else {
            rest
        }
    }
}

/// The test files to run again: those whose basename is among the files
/// that failed, in their order.
pub fn files_to_rerun(test_files: &[String], failed: &[String]) -> (r: Vec<String>)
    ensures
        str_views(r@) == rerun_selection(str_views(test_files@), str_views(failed@)),
{
    let ghost tv = str_views(test_files@);
    let ghost fv = str_views(failed@);
    let mut out: Vec<String> = Vec::new();
    let mut i: usize = 0;
    while i < test_files.len()
        invariant
            i <= test_files@.len(),
            tv == str_views(test_files@),
            fv == str_views(failed@),
            str_views(out@) == rerun_selection(tv.subrange(0, i as int), fv),
        decreases test_files@.len() - i,
    {
        let name = match paths::file_name_of(test_files[i].as_str()) {
            Some(n) => n,
            None => String::new(),
        };
        proof {
            assert(name@ == crate::filter::match_name(test_files@[i as int]@));
            assert(tv.subrange(0, i + 1).drop_last() =~= tv.subrange(0, i as int));
            assert(tv.subrange(0, i + 1).last() == test_files@[i as int]@);
        }
        let mut hit = false;
        let mut j: usize = 0;
        while j < failed.len()
            invariant
                j <= failed@.len(),
                fv == str_views(failed@),
                hit <==> exists|q: int| 0 <= q < j && fv[q] == name@,
            decreases failed@.len() - j,
        {
            if text::str_eq(failed[j].as_str(), name.as_str()) {
                hit = true;
            }
            proof {
                assert(fv[j as int] == failed@[j as int]@);
            }
            j = j + 1;
        }
        proof {
            if hit {
                let q = choose|q: int| 0 <= q < j && fv[q] == name@;
                assert(fv.contains(name@)) by {
                    assert(fv[q] == name@);
                }
            } else {
                assert(!fv.contains(name@)) by {
                    if fv.contains(name@) {
                        let q = choose|q: int| 0 <= q < fv.len() && fv[q] == name@;
                        assert(fv[q] == name@);
                    }
                }
            }
        }
        if hit {
            let ghost before = out@;
            out.push(test_files[i].clone());
            proof {
                assert(str_views(out@) =~= str_views(before).push(test_files@[i as int]@));
            }
        }
        i = i + 1;
    }
    proof {
        assert(tv.subrange(0, tv.len() as int) =~= tv);
    }
    out
}

/// A file of the rerun counts as flaky when no record of it in the rerun
/// is a file (not cancelled) with a failure or an error.
pub open spec fn passed_on_rerun(rerun: Seq<FileRecord>, name: Seq<char>) -> bool {
    (exists|k: int| 0 <= k < rerun.len() && #[trigger] rerun[k].file@ == name) && !(exists|k: int|
        0 <= k < rerun.len() && !rerun[k].cancelled && has_bad_event(rerun[k].messages@)
            && #[trigger] rerun[k].file@ == name)
}

/// Fold one rerun round in: the files of the rerun that no longer fail
/// join `flaky` (each name once), and the rerun's records replace the
/// earlier records of the same files (new files are appended).
pub fn fold_rerun(all_results: &mut Vec<FileRecord>, flaky: &mut Vec<String>, rerun: Vec<FileRecord>)
    requires
        str_views(old(flaky)@).no_duplicates(),
    ensures
        final(all_results)@ == replaced(old(all_results)@, record_names(old(all_results)@), rerun@),
        str_views(final(flaky)@).no_duplicates(),
        forall|f: Seq<char>| #[trigger] str_views(final(flaky)@).contains(f) <==> (str_views(
            old(flaky)@,
        ).contains(f) || passed_on_rerun(rerun@, f)),
{
    let new_failed = collect_failed_files(rerun.as_slice());
    let ghost nf = str_views(new_failed@);
    let ghost rs = rerun@;
    let mut i: usize = 0;
    while i < rerun.len()
        invariant
            i <= rs.len(),
            rs == rerun@,
            nf == str_views(new_failed@),
            forall|f: Seq<char>| #[trigger] nf.contains(f) <==> exists|k: int|
                0 <= k < rs.len() && !rs[k].cancelled && has_bad_event(rs[k].messages@)
                    && #[trigger] rs[k].file@ == f,
            str_views(flaky@).no_duplicates(),
            forall|f: Seq<char>| #[trigger] str_views(flaky@).contains(f) <==> (str_views(
                old(flaky)@,
            ).contains(f) || ((exists|k: int| 0 <= k < i && #[trigger] rs[k].file@ == f)
                && !nf.contains(f))),
        decreases rs.len() - i,
    {
        let name = &rerun[i].file;
        let mut failed_again = false;
        let mut j: usize = 0;
        while j < new_failed.len()
            invariant
                j <= new_failed@.len(),
                nf == str_views(new_failed@),
                failed_again <==> exists|q: int| 0 <= q < j && nf[q] == name@,
            decreases new_failed@.len() - j,
        {
            if text::str_eq(new_failed[j].as_str(), name.as_str()) {
                failed_again = true;
            }
            proof {
                assert(nf[j as int] == new_failed@[j as int]@);
            }
            j = j + 1;
        }
        proof {
            if failed_again {
                let q = choose|q: int| 0 <= q < j && nf[q] == name@;
                assert(nf.contains(name@)) by {
                    assert(nf[q] == name@);
                }
            } else {
                assert(!nf.contains(name@)) by {
                    if nf.contains(name@) {
                        let q = choose|q: int| 0 <= q < nf.len() && nf[q] == name@;
                        assert(nf[q] == name@);
                    }
                }
            }
        }
        let ghost before = str_views(flaky@);
        if !failed_again {
            text::insert_unique(flaky, name.clone());
        }
        proof {
            assert forall|f: Seq<char>| #[trigger] str_views(flaky@).contains(f) <==> (str_views(
                old(flaky)@,
            ).contains(f) || ((exists|k: int| 0 <= k < i + 1 && #[trigger] rs[k].file@ == f)
                && !nf.contains(f))) by {
                if f == name@ {
                    assert(rs[i as int].file@ == f);
                }
                if exists|k: int| 0 <= k < i + 1 && #[trigger] rs[k].file@ == f {
                    let k = choose|k: int| 0 <= k < i + 1 && #[trigger] rs[k].file@ == f;
                    if k < i {
                        assert(exists|k2: int| 0 <= k2 < i && #[trigger] rs[k2].file@ == f);
                    }
                }
            }
        }
        i = i + 1;
    }
    proof {
        assert forall|f: Seq<char>| #[trigger] str_views(flaky@).contains(f) <==> (str_views(
            old(flaky)@,
        ).contains(f) || passed_on_rerun(rerun@, f)) by {
            if (exists|k: int| 0 <= k < rs.len() && #[trigger] rs[k].file@ == f) && !nf.contains(f) {
                assert(passed_on_rerun(rerun@, f));
            }
            if passed_on_rerun(rerun@, f) {
                assert(!nf.contains(f));
            }
        }
    }
    replace_results(all_results, rerun);
}

// ── Runtime dependency map ──────────────────────────────────────────────────

/// The plain view of a dependency map: source file to test files.
pub open spec fn dep_view(m: Seq<(String, Vec<String>)>) -> Seq<(Seq<char>, Seq<Seq<char>>)> {
    m.map_values(|e: (String, Vec<String>)| (e.0@, str_views(e.1@)))
}

/// No source appears twice.
pub open spec fn keys_unique(m: Seq<(Seq<char>, Seq<Seq<char>>)>) -> bool {
    forall|i: int, j: int| 0 <= i < j < m.len() ==> m[i].0 != m[j].0
}

/// The index of the entry for `key`.
pub open spec fn key_index(m: Seq<(Seq<char>, Seq<Seq<char>>)>, key: Seq<char>) -> Option<int> {
    if exists|k: int| 0 <= k < m.len() && #[trigger] m[k].0 == key {
        Some(choose|k: int| 0 <= k < m.len() && #[trigger] m[k].0 == key)
    } else {
        None
    }
}

/// Every string but `test`.
pub open spec fn other_than(test: Seq<char>) -> spec_fn(Seq<char>) -> bool {
    |t: Seq<char>| t != test
}

/// `test` dropped from the entries of sources outside `sources`.
pub open spec fn drop_unclaimed(
    m: Seq<(Seq<char>, Seq<Seq<char>>)>,
    sources: Seq<Seq<char>>,
    test: Seq<char>,
) -> Seq<(Seq<char>, Seq<Seq<char>>)> {
    m.map_values(
        |e: (Seq<char>, Seq<Seq<char>>)|
            if sources.contains(e.0) {
                e
            } else {
                (e.0, e.1.filter(other_than(test)))
            },
    )
}

/// `test` added (keeping the list sorted) to the entry of `src`, which is
/// created when missing; an entry that already lists `test` stays as is.
pub open spec fn claim(m: Seq<(Seq<char>, Seq<Seq<char>>)>, src: Seq<char>, test: Seq<char>) -> Seq<
    (Seq<char>, Seq<Seq<char>>),
> {
    match key_index(m, src) {
        Some(k) => if m[k].1.contains(test) {
            m
        } else {
            m.update(k, (src, text::lex_sort(m[k].1.push(test))))
        },
        None => m.push((src, text::lex_sort(seq![test]))),
    }
}

/// [`claim`] for each source in order.
pub open spec fn claim_all(
    m: Seq<(Seq<char>, Seq<Seq<char>>)>,
    sources: Seq<Seq<char>>,
    test: Seq<char>,
) -> Seq<(Seq<char>, Seq<Seq<char>>)>
    decreases sources.len(),
{
    if sources.len() == 0 {
        m
    } else {
        claim_all(claim(m, sources[0], test), sources.drop_first(), test)
    }
}

/// The entry index of `key` in `m`.
pub(crate) fn find_key(m: &Vec<(String, Vec<String>)>, key: &[char]) -> (r: Option<usize>)
    requires
        keys_unique(dep_view(m@)),
    ensures
        match r {
            Some(k) => key_index(dep_view(m@), key@) == Some(k as int),
            None => key_index(dep_view(m@), key@) is None,
        },
{
    let ghost v = dep_view(m@);
    let mut i: usize = 0;
    while i < m.len()
        invariant
            i <= m@.len(),
            v == dep_view(m@),
            keys_unique(v),
            forall|j: int| 0 <= j < i ==> v[j].0 != key@,
        decreases m@.len() - i,
    {
        let kc = text::chars_of(m[i].0.as_str());
        proof {
            assert(v[i as int].0 == kc@);
        }
        if text::eq_chars(kc.as_slice(), key) {
            proof {
                assert(v[i as int].0 == key@);
                let c = choose|k: int| 0 <= k < v.len() && #[trigger] v[k].0 == key@;
                assert(c == i) by {
                    if c < i {
                        assert(v[c].0 != v[i as int].0);
                    } else if c > i {
                        assert(v[i as int].0 != v[c].0);
                    }
                }
            }
            return Some(i);
        }
        i = i + 1;
    }
    None
}

/// The test file claims every source in `sources`; any earlier edge from
/// a source outside `sources` to the test file is removed.
pub fn merge_deps_inmem(map: &mut Vec<(String, Vec<String>)>, test_file: &str, sources: &[String])
    requires
        keys_unique(dep_view(old(map)@)),
    ensures
        keys_unique(dep_view(final(map)@)),
        dep_view(final(map)@) == claim_all(
            drop_unclaimed(dep_view(old(map)@), str_views(sources@), test_file@),
            str_views(sources@),
            test_file@,
        ),
{
    let ghost sv = str_views(sources@);
    let ghost m0 = dep_view(map@);
    let tc = text::chars_of(test_file);
    // Drop the test file from every source it no longer claims.
    let mut i: usize = 0;
    while i < map.len()
        invariant
            i <= map@.len(),
            m0.len() == map@.len(),
            sv == str_views(sources@),
            tc@ == test_file@,
            forall|k: int| 0 <= k < i ==> #[trigger] dep_view(map@)[k] == drop_unclaimed(m0, sv, test_file@)[k],
            forall|k: int| i <= k < map@.len() ==> #[trigger] dep_view(map@)[k] == m0[k],
        decreases map@.len() - i,
    {
        let key = text::chars_of(map[i].0.as_str());
        let mut claimed = false;
        let mut s: usize = 0;
        while s < sources.len()
            invariant
                s <= sources@.len(),
                sv == str_views(sources@),
                claimed == (exists|q: int| 0 <= q < s && #[trigger] sv[q] == key@),
            decreases sources@.len() - s,
        {
            let sc = text::chars_of(sources[s].as_str());
            proof {
                assert(sv[s as int] == sc@);
            }
            if text::eq_chars(sc.as_slice(), key.as_slice()) {
                claimed = true;
            }
            s = s + 1;
        }
        proof {
            assert(dep_view(map@)[i as int] == m0[i as int]);
            assert(m0[i as int].0 == key@);
            assert(claimed == sv.contains(key@));
        }
        if !claimed {
            let old_tests = &map[i].1;
            let mut kept: Vec<String> = Vec::new();
            let mut j: usize = 0;
            let ghost ov = str_views(old_tests@);
            while j < old_tests.len()
                invariant
                    j <= old_tests@.len(),
                    ov == str_views(old_tests@),
                    tc@ == test_file@,
                    str_views(kept@) == ov.subrange(0, j as int).filter(
                        |t: Seq<char>| t != test_file@,
                    ),
                decreases old_tests@.len() - j,
            {
                let tcur = text::chars_of(old_tests[j].as_str());
                proof {
                    assert(ov[j as int] == tcur@);
                    assert(ov.subrange(0, j + 1).drop_last() == ov.subrange(0, j as int));
                    reveal_with_fuel(Seq::filter, 1);
                }
                if !text::eq_chars(tcur.as_slice(), tc.as_slice()) {
                    let copy = old_tests[j].clone();
                    proof {
                        assert(str_views(kept@.push(copy)) == str_views(kept@).push(copy@));
                    }
                    kept.push(copy);
                }
                j = j + 1;
            }
            proof {
                assert(ov.subrange(0, ov.len() as int) == ov);
            }
            let name = map[i].0.clone();
            let ghost before = map@;
            map.set(i, (name, kept));
            proof {
                assert forall|k: int| 0 <= k < map@.len() && k != i implies #[trigger] dep_view(
                    map@,
                )[k] == dep_view(before)[k] by {}
            }
        }
        i = i + 1;
    }
    proof {
        assert(dep_view(map@) =~= drop_unclaimed(m0, sv, test_file@));
        assert forall|a: int, b: int|
            0 <= a < b < dep_view(map@).len() implies dep_view(map@)[a].0 != dep_view(map@)[b].0 by {
            assert(m0[a].0 != m0[b].0);
        }
    }
    // Claim every source.
    let mut s: usize = 0;
    assert(sv.subrange(0, sv.len() as int) == sv);
    while s < sources.len()
        invariant
            s <= sources@.len(),
            sv == str_views(sources@),
            tc@ == test_file@,
            keys_unique(dep_view(map@)),
            claim_all(dep_view(map@), sv.subrange(s as int, sv.len() as int), test_file@)
                == claim_all(drop_unclaimed(m0, sv, test_file@), sv, test_file@),
        decreases sources@.len() - s,
    {
        let src = text::chars_of(sources[s].as_str());
        let ghost mv = dep_view(map@);
        let ghost rest = sv.subrange(s as int, sv.len() as int);
        proof {
            assert(rest[0] == src@);
            assert(rest.drop_first() == sv.subrange(s + 1, sv.len() as int));
        }
        let idx = match find_key(map, src.as_slice()) {
            Some(k) => k,
            None => {
                let fresh: Vec<String> = Vec::new();
                let key_copy = sources[s].clone();
                proof {
                    assert(key_copy@ == sv[s as int]);
                    assert(str_views(fresh@) =~= Seq::<Seq<char>>::empty());
                }
                map.push((key_copy, fresh));
                let n = map.len();
                proof {
                    assert(dep_view(map@).last() == (src@, Seq::<Seq<char>>::empty()));
                    assert(dep_view(map@) =~= mv.push((src@, Seq::empty())));
                    assert forall|a: int, b: int| 0 <= a < b < dep_view(map@).len() implies dep_view(
                        map@,
                    )[a].0 != dep_view(map@)[b].0 by {
                        if b == mv.len() {
                            assert(mv[a].0 != src@);
                        }
                    }
                }
                n - 1
            },
        };
        let ghost mid = dep_view(map@);
        proof {
            assert(keys_unique(mid));
        }
        let mut present = false;
        let mut j: usize = 0;
        while j < map[idx].1.len()
            invariant
                idx < map@.len(),
                j <= map@[idx as int].1@.len(),
                present == (exists|q: int| 0 <= q < j && #[trigger] map@[idx as int].1@[q]@ == test_file@),
                tc@ == test_file@,
            decreases map@[idx as int].1@.len() - j,
        {
            let tcur = text::chars_of(map[idx].1[j].as_str());
            if text::eq_chars(tcur.as_slice(), tc.as_slice()) {
                present = true;
            }
            j = j + 1;
        }
        proof {
            let tv = str_views(map@[idx as int].1@);
            assert(present == tv.contains(test_file@)) by {
                if present {
                    let q = choose|q: int| 0 <= q < j && #[trigger] map@[idx as int].1@[q]@ == test_file@;
                    assert(tv[q] == test_file@);
                }
                if tv.contains(test_file@) {
                    let q = choose|q: int| 0 <= q < tv.len() && tv[q] == test_file@;
                    assert(map@[idx as int].1@[q]@ == test_file@);
                }
            }
        }
        proof {
            match key_index(mv, src@) {
                Some(k) => {
                    assert(k == idx);
                    assert(mid == mv);
                },
                None => {
                    assert(mid == mv.push((src@, Seq::<Seq<char>>::empty())));
                    assert(idx == mv.len());
                },
            }
            assert(mid[idx as int].0 == src@);
        }
        if !present {
            let mut tests = crate::protocol::copy_strings(&map[idx].1);
            let ghost tv0 = str_views(tests@);
            tests.push(text::owned(test_file));
            let sorted = text::sort_strings(&tests);
            let name = map[idx].0.clone();
            let ghost before = map@;
            proof {
                assert(str_views(tests@) =~= tv0.push(test_file@));
                assert(tv0 == mid[idx as int].1);
            }
            map.set(idx, (name, sorted));
            proof {
                assert(dep_view(map@) =~= mid.update(
                    idx as int,
                    (src@, text::lex_sort(mid[idx as int].1.push(test_file@))),
                ));
                match key_index(mv, src@) {
                    Some(k) => {},
                    None => {
                        assert(mid[idx as int].1.push(test_file@) =~= seq![test_file@]);
                        assert(dep_view(map@) =~= mv.push((src@, text::lex_sort(seq![test_file@]))));
                    },
                }
            }
        } else {
            proof {
                match key_index(mv, src@) {
                    Some(k) => {},
                    None => {
                        assert(mid[idx as int].1.len() == 0);
                    },
                }
            }
        }
        proof {
            assert(dep_view(map@) == claim(mv, src@, test_file@));
            assert forall|a: int, b: int| 0 <= a < b < dep_view(map@).len() implies dep_view(
                map@,
            )[a].0 != dep_view(map@)[b].0 by {
                assert(mid[a].0 != mid[b].0);
            }
        }
        s = s + 1;
    }
    proof {
        assert(sv.subrange(sv.len() as int, sv.len() as int) =~= Seq::<Seq<char>>::empty());
    }
}


// ── Laws of the dependency map ──────────────────────────────────────────────

/// The map lists test `t` under source `src`.
pub open spec fn lists(m: Seq<(Seq<char>, Seq<Seq<char>>)>, src: Seq<char>, t: Seq<char>) -> bool {
    exists|k: int| 0 <= k < m.len() && m[k].0 == src && #[trigger] m[k].1.contains(t)
}

proof fn lemma_lex_sort_contains(v: Seq<Seq<char>>)
    ensures
        forall|x: Seq<char>| #[trigger] text::lex_sort(v).contains(x) <==> v.contains(x),
{
    text::lemma_lex_leq_total();
    v.lemma_sort_by_ensures(text::lex_leq());
    v.to_multiset_ensures();
    text::lex_sort(v).to_multiset_ensures();
    assert forall|x: Seq<char>| #[trigger] text::lex_sort(v).contains(x) <==> v.contains(x) by {
        assert(text::lex_sort(v).contains(x) <==> text::lex_sort(v).to_multiset().count(x) > 0);
        assert(v.contains(x) <==> v.to_multiset().count(x) > 0);
    }
}

proof fn lemma_key_index(m: Seq<(Seq<char>, Seq<Seq<char>>)>, key: Seq<char>)
    requires
        keys_unique(m),
    ensures
        match key_index(m, key) {
            Some(k) => 0 <= k < m.len() && m[k].0 == key && forall|j: int| 0 <= j < m.len() && m[j].0 == key ==> j == k,
            None => forall|j: int| 0 <= j < m.len() ==> m[j].0 != key,
        },
{
    if let Some(k) = key_index(m, key) {
        assert forall|j: int| 0 <= j < m.len() && m[j].0 == key implies j == k by {
            if j < k {
                assert(m[j].0 != m[k].0);
            } else if j > k {
                assert(m[k].0 != m[j].0);
            }
        }
    }
}

proof fn lemma_claim(m: Seq<(Seq<char>, Seq<Seq<char>>)>, src: Seq<char>, test: Seq<char>)
    requires
        keys_unique(m),
    ensures
        keys_unique(claim(m, src, test)),
        forall|x: Seq<char>, t: Seq<char>| #[trigger] lists(claim(m, src, test), x, t) <==> (lists(m, x, t) || (
        x == src && t == test)),
{
    lemma_key_index(m, src);
    let c = claim(m, src, test);
    match key_index(m, src) {
        Some(k) => {
            if !m[k].1.contains(test) {
                lemma_lex_sort_contains(m[k].1.push(test));
                assert forall|i: int, j: int| 0 <= i < j < c.len() implies c[i].0 != c[j].0 by {
                    assert(m[i].0 != m[j].0);
                }
                assert forall|x: Seq<char>, t: Seq<char>| #[trigger] lists(c, x, t) <==> (lists(m, x, t) || (x == src
                    && t == test)) by {
                    if lists(c, x, t) {
                        let i = choose|i: int| 0 <= i < c.len() && c[i].0 == x && #[trigger] c[i].1.contains(t);
                        if i != k {
                            assert(m[i].1.contains(t));
                        } else if t != test {
                            assert(m[k].1.push(test).contains(t));
                            let q = choose|q: int| 0 <= q < m[k].1.push(test).len() && m[k].1.push(test)[q] == t;
                            assert(m[k].1[q] == t);
                            assert(m[k].1.contains(t));
                        }
                    }
                    if lists(m, x, t) {
                        let i = choose|i: int| 0 <= i < m.len() && m[i].0 == x && #[trigger] m[i].1.contains(t);
                        if i == k {
                            let q = choose|q: int| 0 <= q < m[k].1.len() && m[k].1[q] == t;
                            assert(m[k].1.push(test)[q] == t);
                            assert(c[k].1.contains(t));
                        } else {
                            assert(c[i].1.contains(t));
                        }
                    }
                    if x == src && t == test {
                        assert(m[k].1.push(test)[m[k].1.len() as int] == test);
                        assert(c[k].1.contains(t));
                    }
                }
            } else {
                assert forall|x: Seq<char>, t: Seq<char>| #[trigger] lists(c, x, t) <==> (lists(m, x, t) || (x == src
                    && t == test)) by {
                    if x == src && t == test {
                        assert(m[k].1.contains(t));
                    }
                }
            }
        },
        None => {
            assert(c == m.push((src, text::lex_sort(seq![test]))));
            lemma_lex_sort_contains(seq![test]);
            assert forall|i: int, j: int| 0 <= i < j < c.len() implies c[i].0 != c[j].0 by {
                if j < m.len() {
                    assert(m[i].0 != m[j].0);
                }
            }
            assert forall|x: Seq<char>, t: Seq<char>| #[trigger] lists(c, x, t) <==> (lists(m, x, t) || (x == src
                && t == test)) by {
                if lists(c, x, t) {
                    let i = choose|i: int| 0 <= i < c.len() && c[i].0 == x && #[trigger] c[i].1.contains(t);
                    if i < m.len() {
                        assert(m[i].1.contains(t));
                    } else {
                        assert(seq![test].contains(t));
                        let q = choose|q: int| 0 <= q < 1 && seq![test][q] == t;
                        assert(t == test);
                    }
                }
                if lists(m, x, t) {
                    let i = choose|i: int| 0 <= i < m.len() && m[i].0 == x && #[trigger] m[i].1.contains(t);
                    assert(c[i].1.contains(t));
                }
                if x == src && t == test {
                    assert(seq![test][0] == test);
                    assert(c[m.len() as int].1.contains(t));
                }
            }
        },
    }
}

proof fn lemma_claim_all(m: Seq<(Seq<char>, Seq<Seq<char>>)>, sources: Seq<Seq<char>>, test: Seq<char>)
    requires
        keys_unique(m),
    ensures
        keys_unique(claim_all(m, sources, test)),
        forall|x: Seq<char>, t: Seq<char>| #[trigger] lists(claim_all(m, sources, test), x, t) <==> (lists(m, x, t)
            || (sources.contains(x) && t == test)),
    decreases sources.len(),
{
    if sources.len() > 0 {
        let m1 = claim(m, sources[0], test);
        lemma_claim(m, sources[0], test);
        lemma_claim_all(m1, sources.drop_first(), test);
        assert forall|x: Seq<char>, t: Seq<char>| #[trigger] lists(claim_all(m, sources, test), x, t) <==> (lists(
            m,
            x,
            t,
        ) || (sources.contains(x) && t == test)) by {
            assert(lists(m1, x, t) <==> (lists(m, x, t) || (x == sources[0] && t == test)));
            if sources.contains(x) && x != sources[0] {
                let q = choose|q: int| 0 <= q < sources.len() && sources[q] == x;
                assert(sources.drop_first()[q - 1] == x);
            }
            if sources.drop_first().contains(x) {
                let q = choose|q: int| 0 <= q < sources.drop_first().len() && sources.drop_first()[q] == x;
                assert(sources[q + 1] == x);
            }
            if x == sources[0] {
                assert(sources.contains(x));
            }
        }
    }
}

proof fn lemma_drop_unclaimed(m: Seq<(Seq<char>, Seq<Seq<char>>)>, sources: Seq<Seq<char>>, test: Seq<char>)
    requires
        keys_unique(m),
    ensures
        keys_unique(drop_unclaimed(m, sources, test)),
        forall|x: Seq<char>, t: Seq<char>| #[trigger] lists(drop_unclaimed(m, sources, test), x, t) <==> (lists(
            m,
            x,
            t,
        ) && (t != test || sources.contains(x))),
{
    let d = drop_unclaimed(m, sources, test);
    assert forall|i: int, j: int| 0 <= i < j < d.len() implies d[i].0 != d[j].0 by {
        assert(m[i].0 != m[j].0);
    }
    assert forall|x: Seq<char>, t: Seq<char>| #[trigger] lists(d, x, t) <==> (lists(m, x, t) && (t != test
        || sources.contains(x))) by {
        if lists(d, x, t) {
            let i = choose|i: int| 0 <= i < d.len() && d[i].0 == x && #[trigger] d[i].1.contains(t);
            if !sources.contains(x) {
                let f = other_than(test);
                assert(d[i].1 == m[i].1.filter(f));
                assert(m[i].1.filter(f).contains(t));
                m[i].1.lemma_filter_contains_rev(f, t);
                assert(m[i].1.contains(t));
            }
        }
        if lists(m, x, t) && (t != test || sources.contains(x)) {
            let i = choose|i: int| 0 <= i < m.len() && m[i].0 == x && #[trigger] m[i].1.contains(t);
            if !sources.contains(x) {
                let f = other_than(test);
                let q = choose|q: int| 0 <= q < m[i].1.len() && m[i].1[q] == t;
                m[i].1.lemma_filter_contains(f, q);
                assert(d[i].1 == m[i].1.filter(f));
            }
            assert(d[i].1.contains(t));
        }
    }
}

/// After a test file reports the sources it loaded, the map lists it under
/// each of those sources and under no other, and every other test keeps
/// exactly the sources it had.
pub proof fn law_merge_replaces_test_edges(
    m: Seq<(Seq<char>, Seq<Seq<char>>)>,
    sources: Seq<Seq<char>>,
    test: Seq<char>,
    src: Seq<char>,
    other: Seq<char>,
)
    requires
        keys_unique(m),
        other != test,
    ensures
        lists(claim_all(drop_unclaimed(m, sources, test), sources, test), src, test) <==> sources.contains(src),
        lists(claim_all(drop_unclaimed(m, sources, test), sources, test), src, other) <==> lists(m, src, other),
{
    lemma_drop_unclaimed(m, sources, test);
    lemma_claim_all(drop_unclaimed(m, sources, test), sources, test);
}


/// The dependency observations in a message stream, in order.
pub open spec fn deps_in(m: Seq<Message>) -> Seq<(Seq<char>, Seq<Seq<char>>)>
    decreases m.len(),
{
    if m.len() == 0 {
        Seq::empty()
    } else {
        deps_in(m.drop_last()) + match m.last() {
            Message::Deps(d) => seq![(d.file@, str_views(d.sources@))],
            _ => Seq::empty(),
        }
    }
}

/// The dependency observations of a run, file by file.
pub open spec fn deps_in_records(rs: Seq<FileRecord>) -> Seq<(Seq<char>, Seq<Seq<char>>)>
    decreases rs.len(),
{
    if rs.len() == 0 {
        Seq::empty()
    } else {
        deps_in_records(rs.drop_last()) + deps_in(rs.last().messages@)
    }
}

/// One observation merged into the map: the test claims exactly its
/// observed sources (see [`merge_deps_inmem`]).
pub open spec fn merge_one(
    m: Seq<(Seq<char>, Seq<Seq<char>>)>,
    obs: (Seq<char>, Seq<Seq<char>>),
) -> Seq<(Seq<char>, Seq<Seq<char>>)> {
    claim_all(drop_unclaimed(m, obs.1, obs.0), obs.1, obs.0)
}

/// Observations merged into the map in order.
pub open spec fn merge_all(
    m: Seq<(Seq<char>, Seq<Seq<char>>)>,
    obs: Seq<(Seq<char>, Seq<Seq<char>>)>,
) -> Seq<(Seq<char>, Seq<Seq<char>>)>
    decreases obs.len(),
{
    if obs.len() == 0 {
        m
    } else {
        merge_one(merge_all(m, obs.drop_last()), obs.last())
    }
}

proof fn lemma_merge_all_push(
    m: Seq<(Seq<char>, Seq<Seq<char>>)>,
    obs: Seq<(Seq<char>, Seq<Seq<char>>)>,
    x: (Seq<char>, Seq<Seq<char>>),
)
    ensures
        merge_all(m, obs.push(x)) == merge_one(merge_all(m, obs), x),
{
    assert(obs.push(x).drop_last() =~= obs);
}

/// Merge every dependency observation of a run's messages into the
/// in-memory dep map, in order; the observations are returned so the
/// caller can record them in the history database as well.
pub fn merge_deps_from_results(map: &mut Vec<(String, Vec<String>)>, results: &[FileRecord]) -> (obs: Vec<
    (String, Vec<String>),
>)
    requires
        keys_unique(dep_view(old(map)@)),
    ensures
        keys_unique(dep_view(final(map)@)),
        dep_view(obs@) == deps_in_records(results@),
        dep_view(final(map)@) == merge_all(dep_view(old(map)@), deps_in_records(results@)),
{
    let ghost m0 = dep_view(map@);
    let mut obs: Vec<(String, Vec<String>)> = Vec::new();
    let mut r: usize = 0;
    while r < results.len()
        invariant
            r <= results@.len(),
            keys_unique(dep_view(map@)),
            dep_view(obs@) == deps_in_records(results@.subrange(0, r as int)),
            dep_view(map@) == merge_all(m0, dep_view(obs@)),
        decreases results@.len() - r,
    {
        let msgs = &results[r].messages;
        let ghost obs_r = dep_view(obs@);
        let mut k: usize = 0;
        while k < msgs.len()
            invariant
                k <= msgs@.len(),
                keys_unique(dep_view(map@)),
                dep_view(obs@) == obs_r + deps_in(msgs@.subrange(0, k as int)),
                dep_view(map@) == merge_all(m0, dep_view(obs@)),
            decreases msgs@.len() - k,
        {
            let ghost before = dep_view(obs@);
            proof {
                let u = msgs@.subrange(0, k + 1);
                assert(u.drop_last() =~= msgs@.subrange(0, k as int));
                assert(u.last() == msgs@[k as int]);
            }
            match &msgs[k] {
                Message::Deps(d) => {
                    merge_deps_inmem(map, d.file.as_str(), d.sources.as_slice());
                    let entry = (d.file.clone(), protocol::copy_strings(&d.sources));
                    obs.push(entry);
                    proof {
                        let x = (d.file@, str_views(d.sources@));
                        assert(dep_view(obs@) =~= before.push(x));
                        lemma_merge_all_push(m0, before, x);
                        assert(dep_view(obs@) =~= obs_r + deps_in(msgs@.subrange(0, k + 1)));
                    }
                },
                _ => {
                    proof {
                        assert(dep_view(obs@) =~= obs_r + deps_in(msgs@.subrange(0, k + 1)));
                    }
                },
            }
            k = k + 1;
        }
        proof {
            assert(msgs@.subrange(0, msgs@.len() as int) =~= msgs@);
            let u = results@.subrange(0, r + 1);
            assert(u.drop_last() =~= results@.subrange(0, r as int));
            assert(u.last() == results@[r as int]);
        }
        r = r + 1;
    }
    proof {
        assert(results@.subrange(0, results@.len() as int) =~= results@);
    }
    obs
}


// ── The rerun loop ──────────────────────────────────────────────────────────

/// The state of a run's rerun loop: how many extra attempts are allowed,
/// how many were made, and whether the loop has ended.
#[derive(Debug)]
pub struct RerunLoop {
    pub reruns: u32,
    pub attempt: u32,
    /// At least one rerun was made.
    pub ran: bool,
    pub finished: bool,
}

/// Whether the first attempt keeps its summary to itself: when reruns
/// may follow.
pub fn initial_quiet(reruns: u32) -> (r: bool)
    ensures
        r == (reruns > 0),
{
    reruns > 0
}

impl RerunLoop {
    /// No rerun made yet.
    pub fn new(reruns: u32) -> (r: RerunLoop)
        ensures
            r.reruns == reruns,
            r.attempt == 0,
            !r.ran,
            !r.finished,
    {
        RerunLoop { reruns, attempt: 0, ran: false, finished: false }
    }

    /// The next rerun, given how many files failed so far: none once the
    /// loop has ended, the attempts are used up, or nothing failed (each
    /// of which ends the loop); otherwise the attempt's number and whether
    /// its summary is kept quiet (every attempt but the last allowed).
    pub fn next_attempt(&mut self, failed_now: usize) -> (r: Option<(u32, bool)>)
        requires
            old(self).attempt <= old(self).reruns,
        ensures
            final(self).reruns == old(self).reruns,
            final(self).attempt <= final(self).reruns,
            old(self).finished || old(self).attempt == old(self).reruns || failed_now == 0 ==> {
                &&& r is None
                &&& final(self).finished
                &&& final(self).attempt == old(self).attempt
                &&& final(self).ran == old(self).ran
            },
            !(old(self).finished || old(self).attempt == old(self).reruns || failed_now == 0) ==> {
                &&& final(self).attempt == old(self).attempt + 1
                &&& final(self).ran
                &&& !final(self).finished
                &&& r == Some((final(self).attempt, final(self).attempt != final(self).reruns))
            },
    {
        if self.finished || self.attempt == self.reruns || failed_now == 0 {
            self.finished = true;
            return None;
        }
        self.attempt = self.attempt + 1;
        self.ran = true;
        Some((self.attempt, self.attempt != self.reruns))
    }

    /// Whether the run's summary still has to be printed after the loop:
    /// reruns were allowed (so the first attempt kept its summary quiet)
    /// but none was made.
    pub fn needs_final_summary(&self) -> (r: bool)
        ensures
            r == (self.reruns > 0 && !self.ran),
    {
        self.reruns > 0 && !self.ran
    }
}

/// `s` when `n` is not one, else nothing.
pub open spec fn plural(n: nat) -> Seq<char> {
    if n == 1 {
        ""@
    } else {
        "s"@
    }
}

/// The banner of one rerun.
pub fn rerun_banner(attempt: u32, reruns: u32, failed: usize) -> (r: String)
    ensures
        r@ == "rerun "@ + text::dec(attempt as nat) + "/"@ + text::dec(reruns as nat) + ": re-running "@
            + text::dec(failed as nat) + " failed file"@ + plural(failed as nat),
{
    let mut m = text::owned("rerun ");
    text::push_dec(&mut m, attempt as u64);
    text::push_str(&mut m, "/");
    text::push_dec(&mut m, reruns as u64);
    text::push_str(&mut m, ": re-running ");
    text::push_dec(&mut m, failed as u64);
    text::push_str(&mut m, " failed file");
    if failed != 1 {
        text::push_str(&mut m, "s");
    }
    proof {
        reveal_strlit("");
    }
    m
}

/// The note on files that passed only on a rerun, their names sorted and
/// joined by commas.
pub fn flaky_banner(flaky: &Vec<String>) -> (r: String)
    ensures
        r@ == text::dec(flaky@.len()) + " file"@ + plural(flaky@.len()) + " passed on rerun (flaky): "@ + text::join(
            text::lex_sort(str_views(flaky@)),
            ", "@,
        ),
{
    let sorted = text::sort_strings(flaky);
    let mut m = text::dec_string(flaky.len() as u64);
    text::push_str(&mut m, " file");
    if flaky.len() != 1 {
        text::push_str(&mut m, "s");
    }
    text::push_str(&mut m, " passed on rerun (flaky): ");
    let j = text::join_strings(&sorted, ", ");
    text::push_str(&mut m, j.as_str());
    proof {
        reveal_strlit("");
    }
    m
}

} // verus!
