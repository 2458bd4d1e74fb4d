//! The worker wire protocol as plain data, plus the tallying rules that
//! every reporter shares.
//!
//! Workers emit three message kinds per file: `event` (one per
//! test/assertion, carrying one of six outcomes), `summary` (wall time and
//! the worker's own counts) and `done`, plus `deps` observations. Counts
//! are always derived from the events; the summary contributes only its
//! duration.
use vstd::prelude::*;

use crate::text;

verus! {

// ── Outcome taxonomy ────────────────────────────────────────────────────────

/// The six-value outcome taxonomy. Every `Event` carries exactly one.
#[derive(Clone, Copy, Debug, PartialEq, Eq, Structural, Hash)]
pub enum Outcome {
    /// Assertion held / validation step passed its threshold.
    Pass,
    /// Assertion broken / threshold violated.
    Fail,
    /// Could not evaluate (exception, missing column, broken setup).
    Error,
    /// Intentionally not run.
    Skip,
    /// Failed but predicted; not a regression.
    Xfail,
    /// Soft failure: surfaced but does not break the build.
    Warn,
}

/// Display rank: failures first.
pub open spec fn rank_of(o: Outcome) -> u8 {
    match o {
        Outcome::Fail => 0,
        Outcome::Error => 1,
        Outcome::Warn => 2,
        Outcome::Pass => 3,
        Outcome::Skip => 4,
        Outcome::Xfail => 5,
    }
}

/// Fail and error are the outcomes that make a file bad.
pub open spec fn is_bad_outcome(o: Outcome) -> bool {
    o == Outcome::Fail || o == Outcome::Error
}

impl Outcome {
    /// Display order for status-sorted views: failures first.
    pub fn rank(self) -> (r: u8)
        ensures
            r == rank_of(self),
    {
        match self {
            Outcome::Fail => 0,
            Outcome::Error => 1,
            Outcome::Warn => 2,
            Outcome::Pass => 3,
            Outcome::Skip => 4,
            Outcome::Xfail => 5,
        }
    }

    /// Single-glyph icon used by every frontend.
    pub fn icon(self) -> (r: &'static str)
        ensures
            self == Outcome::Pass ==> r@ == "\u{25cf}"@,
            self == Outcome::Fail ==> r@ == "\u{2717}"@,
            self == Outcome::Error ==> r@ == "\u{26a0}"@,
            self == Outcome::Skip ==> r@ == "\u{2298}"@,
            self == Outcome::Xfail ==> r@ == "\u{2299}"@,
            self == Outcome::Warn ==> r@ == "\u{26a1}"@,
    {
        match self {
            Outcome::Pass => "\u{25cf}",
            Outcome::Fail => "\u{2717}",
            Outcome::Error => "\u{26a0}",
            Outcome::Skip => "\u{2298}",
            Outcome::Xfail => "\u{2299}",
            Outcome::Warn => "\u{26a1}",
        }
    }

    /// All outcomes in display order; `all_by_rank()[i].rank() == i`.
    pub fn all_by_rank() -> (r: [Outcome; 6])
        ensures
            forall|i: int| 0 <= i < 6 ==> rank_of(#[trigger] r@[i]) == i,
    {
        [Outcome::Fail, Outcome::Error, Outcome::Warn, Outcome::Pass, Outcome::Skip, Outcome::Xfail]
    }
}

// ── Event payloads ──────────────────────────────────────────────────────────

/// What was tested.
#[derive(Debug)]
pub struct Subject {
    /// Freeform vocabulary: `function`, `step`, `expectation`, ….
    pub kind: String,
    /// Local identifier of the thing tested.
    pub name: String,
    /// Optional containing scope.
    pub parent: Option<String>,
}

/// Quantitative outcome data. `percent` holds the failure percentage
/// already rendered with two decimals (e.g. `"0.70"`), present whenever
/// both `total` and `failed` are.
#[derive(Debug)]
pub struct Metrics {
    pub total: Option<u64>,
    pub failed: Option<u64>,
    pub percent: Option<String>,
    /// Freeform plugin-defined observations, as JSON text.
    pub observed: Option<String>,
}

/// One failing element's structured detail: key and JSON text of each field.
#[derive(Debug)]
pub struct FailureDetail {
    pub fields: Vec<(String, String)>,
}

/// A spell-check correction attached to a `warn` event.
#[derive(Debug)]
pub struct Correction {
    pub word: String,
    /// 1-based line number inside the file.
    pub line: u32,
    /// 1-based start column of the misspelled word.
    pub col_start: u32,
    /// 1-based exclusive end column of the misspelled word.
    pub col_end: u32,
    /// Candidate replacements, best first.
    pub suggestions: Vec<String>,
}

/// One per-test event.
#[derive(Debug)]
pub struct Event {
    pub file: String,
    pub outcome: Outcome,
    pub subject: Subject,
    pub metrics: Option<Metrics>,
    pub failures: Vec<FailureDetail>,
    pub message: Option<String>,
    pub line: Option<u32>,
    pub duration_ms: u64,
    pub corrections: Vec<Correction>,
}

/// Per-outcome counts.
#[derive(Clone, Copy, Debug, Default, PartialEq, Eq, Structural)]
pub struct Counts {
    pub pass: u32,
    pub fail: u32,
    pub error: u32,
    pub skip: u32,
    pub xfail: u32,
    pub warn: u32,
}

/// Authoritative end-of-file summary (only its duration is consulted).
#[derive(Debug)]
pub struct Summary {
    pub file: String,
    pub duration_ms: u64,
    pub counts: Counts,
}

/// Runtime dependency observation for one test file.
#[derive(Debug)]
pub struct Deps {
    pub file: String,
    pub sources: Vec<String>,
}

/// One line of the wire protocol.
#[derive(Debug)]
pub enum Message {
    Event(Event),
    Summary(Summary),
    Deps(Deps),
    Done,
}

// ── Counts ──────────────────────────────────────────────────────────────────

/// The counter `outcome` selects.
pub open spec fn count_for(c: Counts, o: Outcome) -> u32 {
    match o {
        Outcome::Pass => c.pass,
        Outcome::Fail => c.fail,
        Outcome::Error => c.error,
        Outcome::Skip => c.skip,
        Outcome::Xfail => c.xfail,
        Outcome::Warn => c.warn,
    }
}

/// The all-zero counts.
pub open spec fn zero_counts() -> Counts {
    Counts { pass: 0, fail: 0, error: 0, skip: 0, xfail: 0, warn: 0 }
}

/// Field-wise sum fits in `u32`.
pub open spec fn can_merge(a: Counts, b: Counts) -> bool {
    a.pass + b.pass <= u32::MAX && a.fail + b.fail <= u32::MAX && a.error + b.error <= u32::MAX
        && a.skip + b.skip <= u32::MAX && a.xfail + b.xfail <= u32::MAX && a.warn + b.warn
        <= u32::MAX
}

/// Field-wise sum (meaningful when `can_merge`).
pub open spec fn merged(a: Counts, b: Counts) -> Counts {
    Counts {
        pass: (a.pass + b.pass) as u32,
        fail: (a.fail + b.fail) as u32,
        error: (a.error + b.error) as u32,
        skip: (a.skip + b.skip) as u32,
        xfail: (a.xfail + b.xfail) as u32,
        warn: (a.warn + b.warn) as u32,
    }
}

/// `a - b` clamped at zero.
pub open spec fn sat(a: u32, b: u32) -> u32 {
    if a >= b { (a - b) as u32 } else { 0 }
}

/// Field-wise subtraction clamped at zero.
pub open spec fn subtracted(a: Counts, b: Counts) -> Counts {
    Counts {
        pass: sat(a.pass, b.pass),
        fail: sat(a.fail, b.fail),
        error: sat(a.error, b.error),
        skip: sat(a.skip, b.skip),
        xfail: sat(a.xfail, b.xfail),
        warn: sat(a.warn, b.warn),
    }
}

/// `c` with the counter for `o` incremented.
pub open spec fn bumped(c: Counts, o: Outcome) -> Counts {
    match o {
        Outcome::Pass => Counts { pass: (c.pass + 1) as u32, ..c },
        Outcome::Fail => Counts { fail: (c.fail + 1) as u32, ..c },
        Outcome::Error => Counts { error: (c.error + 1) as u32, ..c },
        Outcome::Skip => Counts { skip: (c.skip + 1) as u32, ..c },
        Outcome::Xfail => Counts { xfail: (c.xfail + 1) as u32, ..c },
        Outcome::Warn => Counts { warn: (c.warn + 1) as u32, ..c },
    }
}

/// The shared "bad file" rule.
pub open spec fn counts_bad(c: Counts) -> bool {
    c.fail > 0 || c.error > 0
}

impl Counts {
    /// The all-zero counts.
    pub fn zero() -> (c: Counts)
        ensures
            c == zero_counts(),
    {
        Counts { pass: 0, fail: 0, error: 0, skip: 0, xfail: 0, warn: 0 }
    }

    /// Increment the counter for `outcome`.
    pub fn bump(&mut self, outcome: Outcome)
        requires
            count_for(*old(self), outcome) < u32::MAX,
        ensures
            *final(self) == bumped(*old(self), outcome),
    {
        match outcome {
            Outcome::Pass => self.pass = self.pass + 1,
            Outcome::Fail => self.fail = self.fail + 1,
            Outcome::Error => self.error = self.error + 1,
            Outcome::Skip => self.skip = self.skip + 1,
            Outcome::Xfail => self.xfail = self.xfail + 1,
            Outcome::Warn => self.warn = self.warn + 1,
        }
    }

    /// True iff `fail > 0 || error > 0`.
    pub fn bad(&self) -> (r: bool)
        ensures
            r == counts_bad(*self),
    {
        self.fail > 0 || self.error > 0
    }

    /// Subtract `other` from self, clamping each field at zero.
    pub fn saturating_sub(&mut self, other: &Counts)
        ensures
            *final(self) == subtracted(*old(self), *other),
    {
        self.pass = self.pass.saturating_sub(other.pass);
        self.fail = self.fail.saturating_sub(other.fail);
        self.error = self.error.saturating_sub(other.error);
        self.skip = self.skip.saturating_sub(other.skip);
        self.xfail = self.xfail.saturating_sub(other.xfail);
        self.warn = self.warn.saturating_sub(other.warn);
    }

    /// Fold `other` into self.
    pub fn merge(&mut self, other: &Counts)
        requires
            can_merge(*old(self), *other),
        ensures
            *final(self) == merged(*old(self), *other),
    {
        self.pass = self.pass + other.pass;
        self.fail = self.fail + other.fail;
        self.error = self.error + other.error;
        self.skip = self.skip + other.skip;
        self.xfail = self.xfail + other.xfail;
        self.warn = self.warn + other.warn;
    }
}

/// Law: merging `b` and then subtracting it again gives back `a`.
pub proof fn law_merge_then_subtract_restores(a: Counts, b: Counts)
    requires
        can_merge(a, b),
    ensures
        subtracted(merged(a, b), b) == a,
{
}

/// Law: subtraction never goes below zero and never exceeds the minuend.
pub proof fn law_subtract_clamps(a: Counts, b: Counts)
    ensures
        forall|o: Outcome| #[trigger] count_for(subtracted(a, b), o) <= count_for(a, o),
        forall|o: Outcome| count_for(a, o) <= count_for(b, o) ==> #[trigger] count_for(
            subtracted(a, b),
            o,
        ) == 0,
{
}

/// Law: a bump raises exactly the chosen counter by one.
pub proof fn law_bump_touches_one_field(c: Counts, o: Outcome)
    requires
        count_for(c, o) < u32::MAX,
    ensures
        count_for(bumped(c, o), o) == count_for(c, o) + 1,
        forall|p: Outcome| p != o ==> #[trigger] count_for(bumped(c, o), p) == count_for(c, p),
{
}

/// Law: a file is bad exactly when it has a fail or an error, whatever its
/// other counts.
pub proof fn law_bad_ignores_warn_skip_xfail_pass(c: Counts, d: Counts)
    requires
        c.fail == d.fail,
        c.error == d.error,
    ensures
        counts_bad(c) == counts_bad(d),
{
}

// ── File status ─────────────────────────────────────────────────────────────

/// Terminal status of a file after a run.
#[derive(Clone, Copy, Debug, PartialEq, Eq, Structural)]
pub enum FileStatus {
    /// Engine cancelled this file.
    Cancelled,
    /// `fail > 0 || error > 0`.
    Failed,
    /// At least one pass/xfail/warn, no failures.
    Passed,
    /// Every test was skipped.
    Skipped,
    /// No events at all.
    Pending,
}

/// The shared status decision tree.
pub open spec fn status_of(c: Counts, cancelled: bool) -> FileStatus {
    if cancelled {
        FileStatus::Cancelled
    } else if c.error > 0 || c.fail > 0 {
        FileStatus::Failed
    } else if c.pass + c.xfail + c.warn > 0 {
        FileStatus::Passed
    } else if c.skip > 0 {
        FileStatus::Skipped
    } else {
        FileStatus::Pending
    }
}

impl FileStatus {
    /// Derive from counts + the engine's cancelled flag.
    pub fn from_counts(counts: &Counts, cancelled: bool) -> (s: FileStatus)
        ensures
            s == status_of(*counts, cancelled),
    {
        if cancelled {
            FileStatus::Cancelled
        } else if counts.error > 0 || counts.fail > 0 {
            FileStatus::Failed
        } else if counts.pass > 0 || counts.xfail > 0 || counts.warn > 0 {
            FileStatus::Passed
        } else if counts.skip > 0 {
            FileStatus::Skipped
        } else {
            FileStatus::Pending
        }
    }

    /// The status of a file with no results yet.
    pub fn pending() -> (s: FileStatus)
        ensures
            s == FileStatus::Pending,
    {
        FileStatus::Pending
    }
}

// ── Message-stream specifications ───────────────────────────────────────────

/// Number of events in `m` whose outcome is `o`.
pub open spec fn count_events(m: Seq<Message>, o: Outcome) -> nat
    decreases m.len(),
{
    if m.len() == 0 {
        0
    } else {
        count_events(m.drop_last(), o) + match m.last() {
            Message::Event(e) => if e.outcome == o { 1nat } else { 0nat },
            _ => 0nat,
        }
    }
}

/// Duration of the last summary in `m`, or 0 when there is none.
pub open spec fn summary_ms(m: Seq<Message>) -> u64
    decreases m.len(),
{
    if m.len() == 0 {
        0
    } else {
        match m.last() {
            Message::Summary(s) => s.duration_ms,
            _ => summary_ms(m.drop_last()),
        }
    }
}

/// The counts of the events in `m` (each below `u32::MAX` when `m` is).
pub open spec fn event_counts(m: Seq<Message>) -> Counts {
    Counts {
        pass: count_events(m, Outcome::Pass) as u32,
        fail: count_events(m, Outcome::Fail) as u32,
        error: count_events(m, Outcome::Error) as u32,
        skip: count_events(m, Outcome::Skip) as u32,
        xfail: count_events(m, Outcome::Xfail) as u32,
        warn: count_events(m, Outcome::Warn) as u32,
    }
}

pub proof fn lemma_count_events_le_len(m: Seq<Message>, o: Outcome)
    ensures
        count_events(m, o) <= m.len(),
    decreases m.len(),
{
    if m.len() > 0 {
        lemma_count_events_le_len(m.drop_last(), o);
    }
}

pub proof fn lemma_count_events_concat(a: Seq<Message>, b: Seq<Message>, o: Outcome)
    ensures
        count_events(a + b, o) == count_events(a, o) + count_events(b, o),
    decreases b.len(),
{
    if b.len() == 0 {
        assert(a + b == a);
    } else {
        assert((a + b).drop_last() == a + b.drop_last());
        lemma_count_events_concat(a, b.drop_last(), o);
    }
}

/// Result of tallying one file's messages.
#[derive(Debug)]
pub struct FileTally {
    /// Per-outcome counts, from events only.
    pub counts: Counts,
    /// Wall-clock duration from the Summary message (0 if absent).
    pub duration_ms: u64,
    /// Terminal status derived from `counts` + `cancelled`.
    pub status: FileStatus,
    /// `counts.warn > 0`.
    pub warned: bool,
    /// `counts.bad()`.
    pub bad: bool,
}

/// What `tally_messages` computes for `m`.
pub open spec fn tally_spec(m: Seq<Message>, cancelled: bool) -> FileTally {
    let c = event_counts(m);
    FileTally {
        counts: c,
        duration_ms: summary_ms(m),
        status: status_of(c, cancelled),
        warned: c.warn > 0,
        bad: counts_bad(c),
    }
}

/// The single tally function all reporters share: counts come from the
/// events, the duration from the (last) summary.
pub fn tally_messages(messages: &[Message], cancelled: bool) -> (t: FileTally)
    requires
        messages@.len() < u32::MAX,
    ensures
        t == tally_spec(messages@, cancelled),
{
    let mut counts = Counts::zero();
    let mut duration_ms: u64 = 0;
    let mut i: usize = 0;
    while i < messages.len()
        invariant
            i <= messages.len() < u32::MAX,
            counts == event_counts(messages@.subrange(0, i as int)),
            duration_ms == summary_ms(messages@.subrange(0, i as int)),
        decreases messages.len() - i,
    {
        let ghost pre = messages@.subrange(0, i as int);
        let ghost post = messages@.subrange(0, i + 1);
        assert(post.drop_last() == pre);
        proof {
            lemma_count_events_le_len(pre, Outcome::Pass);
            lemma_count_events_le_len(pre, Outcome::Fail);
            lemma_count_events_le_len(pre, Outcome::Error);
            lemma_count_events_le_len(pre, Outcome::Skip);
            lemma_count_events_le_len(pre, Outcome::Xfail);
            lemma_count_events_le_len(pre, Outcome::Warn);
        }
        match &messages[i] {
            Message::Event(e) => {
                counts.bump(e.outcome);
            },
            Message::Summary(s) => {
                duration_ms = s.duration_ms;
            },
            _ => {},
        }
        i = i + 1;
    }
    assert(messages@.subrange(0, messages.len() as int) == messages@);
    let status = FileStatus::from_counts(&counts, cancelled);
    let warned = counts.warn > 0;
    let bad = counts.bad();
    FileTally { counts, duration_ms, status, warned, bad }
}

/// Law: counts come from events only. Appending a summary to a stream
/// changes no count and sets the duration to the summary's.
pub proof fn law_summary_sets_duration_only(m: Seq<Message>, s: Summary, cancelled: bool)
    ensures
        tally_spec(m.push(Message::Summary(s)), cancelled).counts == tally_spec(
            m,
            cancelled,
        ).counts,
        tally_spec(m.push(Message::Summary(s)), cancelled).duration_ms == s.duration_ms,
{
    assert(m.push(Message::Summary(s)).drop_last() == m);
}

/// Law: event counts accumulate over concatenated batches.
pub proof fn law_counts_accumulate(a: Seq<Message>, b: Seq<Message>, o: Outcome)
    ensures
        count_events(a + b, o) == count_events(a, o) + count_events(b, o),
{
    lemma_count_events_concat(a, b, o);
}

/// Law: one failing or erroring event anywhere in a stream makes the file
/// `Failed` and bad (unless it was cancelled).
pub proof fn law_bad_event_fails_file(m: Seq<Message>, i: int)
    requires
        m.len() < u32::MAX,
        0 <= i < m.len(),
        m[i] matches Message::Event(e) && (e.outcome == Outcome::Fail || e.outcome
            == Outcome::Error),
    ensures
        tally_spec(m, false).status == FileStatus::Failed,
        tally_spec(m, false).bad,
{
    let o = match m[i] {
        Message::Event(e) => e.outcome,
        _ => Outcome::Pass,
    };
    lemma_count_events_has(m, i, o);
    lemma_count_events_le_len(m, o);
}

/// A stream with an event of outcome `o` counts at least one such event.
pub proof fn lemma_count_events_has(m: Seq<Message>, i: int, o: Outcome)
    requires
        0 <= i < m.len(),
        m[i] matches Message::Event(e) && e.outcome == o,
    ensures
        count_events(m, o) >= 1,
    decreases m.len(),
{
    if i < m.len() - 1 {
        assert(m.drop_last()[i] == m[i]);
        lemma_count_events_has(m.drop_last(), i, o);
    }
}

/// Law: a cancelled file is reported as cancelled whatever its events.
pub proof fn law_cancelled_wins(m: Seq<Message>)
    ensures
        tally_spec(m, true).status == FileStatus::Cancelled,
{
}

/// Law: warnings alone never make a file bad.
pub proof fn law_warn_is_not_bad(c: Counts)
    requires
        c.fail == 0,
        c.error == 0,
    ensures
        !counts_bad(c),
        c.warn > 0 ==> status_of(c, false) == FileStatus::Passed,
{
}

/// Law: how a file's status follows from its counts. A cancelled file is
/// `Cancelled`; otherwise any fail or error makes it `Failed`; with neither,
/// one pass, xfail or warn makes it `Passed` however many tests were
/// skipped; it is `Skipped` only when every test it ran was skipped, and
/// `Pending` when it has no results at all.
pub proof fn law_status_from_counts(c: Counts, cancelled: bool)
    ensures
        cancelled ==> status_of(c, cancelled) == FileStatus::Cancelled,
        !cancelled && (c.fail > 0 || c.error > 0) ==> status_of(c, cancelled) == FileStatus::Failed,
        !cancelled && c.fail == 0 && c.error == 0 && (c.pass > 0 || c.xfail > 0 || c.warn > 0)
            ==> status_of(c, cancelled) == FileStatus::Passed,
        status_of(c, cancelled) == FileStatus::Skipped <==> (!cancelled && c.fail == 0 && c.error
            == 0 && c.pass == 0 && c.xfail == 0 && c.warn == 0 && c.skip > 0),
        status_of(c, cancelled) == FileStatus::Pending <==> (!cancelled && c.fail == 0 && c.error
            == 0 && c.pass == 0 && c.xfail == 0 && c.warn == 0 && c.skip == 0),
{
}

/// Law: skipped tests never change the status of a file that has a pass,
/// xfail, warn, fail or error: adding skips to its counts keeps its status.
pub proof fn law_skips_do_not_mask_results(c: Counts, d: Counts, cancelled: bool)
    requires
        c.pass > 0 || c.xfail > 0 || c.warn > 0 || c.fail > 0 || c.error > 0,
        d.pass == c.pass,
        d.xfail == c.xfail,
        d.warn == c.warn,
        d.fail == c.fail,
        d.error == c.error,
    ensures
        status_of(d, cancelled) == status_of(c, cancelled),
{
}

// ── Display helpers ─────────────────────────────────────────────────────────

/// `"<anon>"` for an empty name, else the name.
pub open spec fn display_name_of(name: Seq<char>) -> Seq<char> {
    if name.len() == 0 { "<anon>"@ } else { name }
}

/// Single-line summary of metrics, if there is anything quantitative.
pub open spec fn metrics_summary(m: Metrics) -> Option<Seq<char>> {
    match (m.total, m.failed) {
        (Some(t), Some(f)) => Some(
            text::dec(f as nat) + " of "@ + text::dec(t as nat) + " failed ("@ + match m.percent {
                Some(p) => p@,
                None => "0.00"@,
            } + "%)"@,
        ),
        (Some(t), None) => Some(text::dec(t as nat) + " checked"@),
        (None, Some(f)) => Some(text::dec(f as nat) + " failed"@),
        (None, None) => None,
    }
}

/// The body shown for an event: metrics summary, then the message.
pub open spec fn display_body_of(e: Event) -> Seq<char> {
    let original = match e.message {
        Some(m) => m@,
        None => Seq::<char>::empty(),
    };
    let summary = match e.metrics {
        Some(m) => metrics_summary(m),
        None => None,
    };
    match summary {
        Some(s) => if original.len() == 0 { s } else { s + "\n"@ + original },
        None => original,
    }
}

impl Metrics {
    /// Single-line human-readable summary; `None` when there's nothing
    /// quantitative to show.
    pub fn display_summary(&self) -> (r: Option<String>)
        ensures
            r matches Some(s) ==> metrics_summary(*self) == Some(s@),
            r is None ==> metrics_summary(*self) is None,
    {
        match (self.total, self.failed) {
            (Some(t), Some(f)) => {
                let mut s = String::new();
                text::push_dec(&mut s, f);
                text::push_str(&mut s, " of ");
                text::push_dec(&mut s, t);
                text::push_str(&mut s, " failed (");
                match &self.percent {
                    Some(p) => text::push_str(&mut s, p.as_str()),
                    None => text::push_str(&mut s, "0.00"),
                }
                text::push_str(&mut s, "%)");
                Some(s)
            },
            (Some(t), None) => {
                let mut s = String::new();
                text::push_dec(&mut s, t);
                text::push_str(&mut s, " checked");
                Some(s)
            },
            (None, Some(f)) => {
                let mut s = String::new();
                text::push_dec(&mut s, f);
                text::push_str(&mut s, " failed");
                Some(s)
            },
            (None, None) => None,
        }
    }
}

impl Event {
    /// An engine-side error event (timeouts, crashes, pool errors).
    pub fn engine_error(file_basename: String, message: String) -> (e: Event)
        ensures
            e.file == file_basename,
            e.outcome == Outcome::Error,
            e.subject.kind@ == "engine"@,
            e.subject.name@ == "<error>"@,
            e.subject.parent is None,
            e.metrics is None,
            e.failures@.len() == 0,
            e.message == Some(message),
            e.line is None,
            e.duration_ms == 0,
            e.corrections@.len() == 0,
    {
        Event {
            file: file_basename,
            outcome: Outcome::Error,
            subject: Subject {
                kind: text::owned("engine"),
                name: text::owned("<error>"),
                parent: None,
            },
            metrics: None,
            failures: Vec::new(),
            message: Some(message),
            line: None,
            duration_ms: 0,
            corrections: Vec::new(),
        }
    }

    /// Display name for the test; `"<anon>"` when the name is empty.
    pub fn display_name(&self) -> (r: String)
        ensures
            r@ == display_name_of(self.subject.name@),
    {
        if self.subject.name.as_str().is_empty() {
            text::owned("<anon>")
        } else {
            self.subject.name.clone()
        }
    }

    /// Event body for display: metrics summary inlined before the message.
    pub fn display_body(&self) -> (r: String)
        ensures
            r@ == display_body_of(*self),
    {
        let summary = match &self.metrics {
            Some(m) => m.display_summary(),
            None => None,
        };
        match summary {
            Some(s) => {
                match &self.message {
                    Some(m) => {
                        if m.as_str().is_empty() {
                            s
                        } else {
                            let mut out = s;
                            text::push_str(&mut out, "\n");
                            text::push_str(&mut out, m.as_str());
                            out
                        }
                    },
                    None => s,
                }
            },
            None => match &self.message {
                Some(m) => m.clone(),
                None => String::new(),
            },
        }
    }
}

// ── Findings ────────────────────────────────────────────────────────────────

/// A notable event (failure, error, or warning) for post-run summaries.
#[derive(Debug)]
pub struct Finding {
    /// Display name of the file.
    pub file: String,
    /// Full path to the file.
    pub file_path: String,
    pub test: String,
    pub message: String,
    pub line: Option<u32>,
    pub outcome: Outcome,
}

/// The events of `m`, in order.
pub open spec fn events_of(m: Seq<Message>) -> Seq<Event>
    decreases m.len(),
{
    if m.len() == 0 {
        Seq::empty()
    } else {
        match m.last() {
            Message::Event(e) => events_of(m.drop_last()).push(e),
            _ => events_of(m.drop_last()),
        }
    }
}

/// The finding recorded for event `e` of file `name` at `path`.
pub open spec fn finding_matches(f: Finding, e: Event, name: Seq<char>, path: Seq<char>) -> bool {
    &&& f.file@ == name
    &&& f.file_path@ == path
    &&& f.test@ == display_name_of(e.subject.name@)
    &&& f.message@ == display_body_of(e)
    &&& f.line == e.line
    &&& f.outcome == e.outcome
}

/// The fail/error events of `m` and the warn events of `m`, in order.
pub open spec fn failure_events(m: Seq<Message>) -> Seq<Event> {
    events_of(m).filter(|e: Event| is_bad_outcome(e.outcome))
}

pub open spec fn warning_events(m: Seq<Message>) -> Seq<Event> {
    events_of(m).filter(|e: Event| e.outcome == Outcome::Warn)
}

fn make_finding(e: &Event, file_name: &str, file_path: &str) -> (f: Finding)
    ensures
        finding_matches(f, *e, file_name@, file_path@),
{
    Finding {
        file: text::owned(file_name),
        file_path: text::owned(file_path),
        test: e.display_name(),
        message: e.display_body(),
        line: e.line,
        outcome: e.outcome,
    }
}

/// Extract findings (fail/error, then warn) from a file's messages.
pub fn collect_findings(messages: &[Message], file_name: &str, file_path: &str) -> (r: (
    Vec<Finding>,
    Vec<Finding>,
))
    ensures
        r.0@.len() == failure_events(messages@).len(),
        forall|i: int|
            0 <= i < r.0@.len() ==> finding_matches(
                #[trigger] r.0@[i],
                failure_events(messages@)[i],
                file_name@,
                file_path@,
            ),
        r.1@.len() == warning_events(messages@).len(),
        forall|i: int|
            0 <= i < r.1@.len() ==> finding_matches(
                #[trigger] r.1@[i],
                warning_events(messages@)[i],
                file_name@,
                file_path@,
            ),
{
    let mut failures: Vec<Finding> = Vec::new();
    let mut warnings: Vec<Finding> = Vec::new();
    let mut i: usize = 0;
    while i < messages.len()
        invariant
            i <= messages.len(),
            failures@.len() == failure_events(messages@.subrange(0, i as int)).len(),
            forall|k: int|
                0 <= k < failures@.len() ==> finding_matches(
                    #[trigger] failures@[k],
                    failure_events(messages@.subrange(0, i as int))[k],
                    file_name@,
                    file_path@,
                ),
            warnings@.len() == warning_events(messages@.subrange(0, i as int)).len(),
            forall|k: int|
                0 <= k < warnings@.len() ==> finding_matches(
                    #[trigger] warnings@[k],
                    warning_events(messages@.subrange(0, i as int))[k],
                    file_name@,
                    file_path@,
                ),
        decreases messages.len() - i,
    {
        let ghost pre = messages@.subrange(0, i as int);
        let ghost post = messages@.subrange(0, i + 1);
        assert(post.drop_last() == pre);
        assert(post.last() == messages@[i as int]);
        match &messages[i] {
            Message::Event(e) => {
                proof {
                    assert(events_of(post) == events_of(pre).push(*e));
                    lemma_filter_push(events_of(pre), *e, |x: Event| is_bad_outcome(x.outcome));
                    lemma_filter_push(events_of(pre), *e, |x: Event| x.outcome == Outcome::Warn);
                }
                match e.outcome {
                    Outcome::Fail | Outcome::Error => {
                        failures.push(make_finding(e, file_name, file_path));
                    },
                    Outcome::Warn => {
                        warnings.push(make_finding(e, file_name, file_path));
                    },
                    _ => {},
                }
            },
            _ => {
                assert(events_of(post) == events_of(pre));
            },
        }
        i = i + 1;
    }
    assert(messages@.subrange(0, messages.len() as int) == messages@);
    (failures, warnings)
}

proof fn lemma_filter_push(s: Seq<Event>, x: Event, p: spec_fn(Event) -> bool)
    ensures
        s.push(x).filter(p) == if p(x) { s.filter(p).push(x) } else { s.filter(p) },
{
    reveal_with_fuel(Seq::filter, 1);
    assert(s.push(x).drop_last() == s);
}

// ── Processed event ─────────────────────────────────────────────────────────

/// A test event with display-ready fields.
#[derive(Debug)]
pub struct ProcessedEvent {
    pub name: String,
    pub outcome: Outcome,
    pub message: String,
    pub line: Option<u32>,
    pub duration_ms: u64,
    pub corrections: Vec<Correction>,
}

impl ProcessedEvent {
    /// True when the outcome is fail or error.
    pub fn is_bad(&self) -> (r: bool)
        ensures
            r == is_bad_outcome(self.outcome),
    {
        match self.outcome {
            Outcome::Fail | Outcome::Error => true,
            _ => false,
        }
    }
}

fn copy_correction(c: &Correction) -> (r: Correction)
    ensures
        r.word == c.word,
        r.line == c.line,
        r.col_start == c.col_start,
        r.col_end == c.col_end,
        r.suggestions@ == c.suggestions@,
{
    Correction {
        word: c.word.clone(),
        line: c.line,
        col_start: c.col_start,
        col_end: c.col_end,
        suggestions: copy_strings(&c.suggestions),
    }
}

/// A copy of a list of strings.
pub fn copy_strings(v: &Vec<String>) -> (r: Vec<String>)
    ensures
        r@ == v@,
{
    let mut r: Vec<String> = Vec::new();
    let mut i: usize = 0;
    while i < v.len()
        invariant
            i <= v.len(),
            r@ == v@.subrange(0, i as int),
        decreases v.len() - i,
    {
        r.push(v[i].clone());
        i = i + 1;
        assert(v@.subrange(0, i as int) == v@.subrange(0, i - 1).push(v@[i - 1]));
    }
    assert(v@.subrange(0, v.len() as int) == v@);
    r
}

/// The processed form of event `e`.
pub open spec fn processed_matches(p: ProcessedEvent, e: Event) -> bool {
    &&& p.name@ == display_name_of(e.subject.name@)
    &&& p.outcome == e.outcome
    &&& p.message@ == display_body_of(e)
    &&& p.line == e.line
    &&& p.duration_ms == e.duration_ms
    &&& p.corrections@.len() == e.corrections@.len()
    &&& forall|k: int|
        0 <= k < p.corrections@.len() ==> {
            &&& (#[trigger] p.corrections@[k]).word == e.corrections@[k].word
            &&& p.corrections@[k].line == e.corrections@[k].line
            &&& p.corrections@[k].col_start == e.corrections@[k].col_start
            &&& p.corrections@[k].col_end == e.corrections@[k].col_end
            &&& p.corrections@[k].suggestions@ == e.corrections@[k].suggestions@
        }
}

/// Display-ready events, one per event message, in order.
pub fn process_events(messages: &[Message]) -> (r: Vec<ProcessedEvent>)
    ensures
        r@.len() == events_of(messages@).len(),
        forall|i: int| 0 <= i < r@.len() ==> processed_matches(#[trigger] r@[i], events_of(messages@)[i]),
{
    let mut out: Vec<ProcessedEvent> = Vec::new();
    let mut i: usize = 0;
    while i < messages.len()
        invariant
            i <= messages.len(),
            out@.len() == events_of(messages@.subrange(0, i as int)).len(),
            forall|k: int|
                0 <= k < out@.len() ==> processed_matches(
                    #[trigger] out@[k],
                    events_of(messages@.subrange(0, i as int))[k],
                ),
        decreases messages.len() - i,
    {
        let ghost pre = messages@.subrange(0, i as int);
        let ghost post = messages@.subrange(0, i + 1);
        assert(post.drop_last() == pre);
        match &messages[i] {
            Message::Event(e) => {
                let mut corrections: Vec<Correction> = Vec::new();
                let mut j: usize = 0;
                while j < e.corrections.len()
                    invariant
                        j <= e.corrections.len(),
                        corrections@.len() == j,
                        forall|k: int|
                            0 <= k < j ==> {
                                &&& (#[trigger] corrections@[k]).word == e.corrections@[k].word
                                &&& corrections@[k].line == e.corrections@[k].line
                                &&& corrections@[k].col_start == e.corrections@[k].col_start
                                &&& corrections@[k].col_end == e.corrections@[k].col_end
                                &&& corrections@[k].suggestions@ == e.corrections@[k].suggestions@
                            },
                    decreases e.corrections.len() - j,
                {
                    corrections.push(copy_correction(&e.corrections[j]));
                    j = j + 1;
                }
                out.push(
                    ProcessedEvent {
                        name: e.display_name(),
                        outcome: e.outcome,
                        message: e.display_body(),
                        line: e.line,
                        duration_ms: e.duration_ms,
                        corrections,
                    },
                );
                assert(events_of(post) == events_of(pre).push(*e));
            },
            _ => {
                assert(events_of(post) == events_of(pre));
            },
        }
        i = i + 1;
    }
    assert(messages@.subrange(0, messages.len() as int) == messages@);
    out
}

// ── Utilities ───────────────────────────────────────────────────────────────

/// The last `/`-separated component of a path (what `Path::file_name`
/// yields for an ordinary path): the text after the last `/`, after
/// trailing slashes are dropped.
pub open spec fn basename(p: Seq<char>) -> Seq<char>
    decreases p.len(),
{
    if p.len() > 0 && p.last() == '/' {
        basename(p.drop_last())
    } else {
        match p.index_of_last('/') {
            Some(i) => p.subrange(i + 1, p.len() as int),
            None => p,
        }
    }
}

/// Display name (basename) of a file path. A path whose last component
/// is `.` or `..` has no file name and yields the empty string.
pub open spec fn display_file_name(p: Seq<char>) -> Seq<char> {
    let b = basename(p);
    if b == ".."@ || b == "."@ { Seq::empty() } else { b }
}

/// Index just past the last non-`/` character of `p`.
fn strip_trailing_slashes(p: &[char]) -> (k: usize)
    ensures
        k <= p.len(),
        basename(p@) == basename(p@.subrange(0, k as int)),
        k > 0 ==> p@[k - 1] != '/',
{
    let mut k = p.len();
    assert(p@.subrange(0, p.len() as int) == p@);
    while k > 0 && p[k - 1] == '/'
        invariant
            k <= p.len(),
            basename(p@) == basename(p@.subrange(0, k as int)),
        decreases k,
    {
        proof {
            let t = p@.subrange(0, k as int);
            assert(t.drop_last() == p@.subrange(0, k - 1));
        }
        k = k - 1;
    }
    k
}

/// Last component of a `/`-separated path.
pub fn file_basename(path: &str) -> (r: String)
    ensures
        r@ == basename(path@),
{
    let v = text::chars_of(path);
    let k = strip_trailing_slashes(v.as_slice());
    let t = text::slice_of(v.as_slice(), 0, k);
    proof {
        assert(v@.subrange(0, k as int) == t@);
    }
    let mut j = k;
    while j > 0 && t[j - 1] != '/'
        invariant
            j <= k == t@.len(),
            forall|m: int| j <= m < k ==> t@[m] != '/',
        decreases j,
    {
        j = j - 1;
    }
    proof {
        t@.index_of_last_ensures('/');
        if j > 0 {
            assert(t@.contains('/'));
            let last = t@.index_of_last('/')->0;
            assert(last == j - 1);
        } else {
            assert(!t@.contains('/'));
            assert(t@.subrange(0, k as int) == t@);
        }
    }
    let r = text::slice_of(t.as_slice(), j, k);
    text::string_from(r.as_slice())
}

/// Display name (basename) of a file path; shared by every reporter.
pub fn file_display_name(path: &str) -> (r: String)
    ensures
        r@ == display_file_name(path@),
{
    let b = file_basename(path);
    if text::str_eq(b.as_str(), "..") || text::str_eq(b.as_str(), ".") {
        String::new()
    } else {
        b
    }
}


// ── Message models ──────────────────────────────────────────────────────────

/// What a correction says.
pub struct CorrectionModel {
    pub word: Seq<char>,
    pub line: u32,
    pub col_start: u32,
    pub col_end: u32,
    pub suggestions: Seq<Seq<char>>,
}

/// What an event says.
pub struct EventModel {
    pub file: Seq<char>,
    pub outcome: Outcome,
    pub kind: Seq<char>,
    pub name: Seq<char>,
    pub parent: Option<Seq<char>>,
    pub metrics: Option<Metrics>,
    pub failures: Seq<FailureDetail>,
    pub message: Option<Seq<char>>,
    pub line: Option<u32>,
    pub duration_ms: u64,
    pub corrections: Seq<CorrectionModel>,
}

/// What a protocol message says.
pub enum MessageModel {
    Event(EventModel),
    Summary(Seq<char>, u64, Counts),
    Deps(Seq<char>, Seq<Seq<char>>),
    Done,
}

/// The plain view of an optional string.
pub open spec fn opt_str(o: Option<String>) -> Option<Seq<char>> {
    match o {
        Some(s) => Some(s@),
        None => None,
    }
}

impl Correction {
    pub open spec fn model(&self) -> CorrectionModel {
        CorrectionModel {
            word: self.word@,
            line: self.line,
            col_start: self.col_start,
            col_end: self.col_end,
            suggestions: text::str_views(self.suggestions@),
        }
    }
}

/// The models of a list of corrections.
pub open spec fn correction_models(v: Seq<Correction>) -> Seq<CorrectionModel> {
    v.map_values(|c: Correction| c.model())
}

impl Event {
    pub open spec fn model(&self) -> EventModel {
        EventModel {
            file: self.file@,
            outcome: self.outcome,
            kind: self.subject.kind@,
            name: self.subject.name@,
            parent: opt_str(self.subject.parent),
            metrics: self.metrics,
            failures: self.failures@,
            message: opt_str(self.message),
            line: self.line,
            duration_ms: self.duration_ms,
            corrections: correction_models(self.corrections@),
        }
    }
}

impl Message {
    pub open spec fn model(&self) -> MessageModel {
        match self {
            Message::Event(e) => MessageModel::Event(e.model()),
            Message::Summary(s) => MessageModel::Summary(s.file@, s.duration_ms, s.counts),
            Message::Deps(d) => MessageModel::Deps(d.file@, text::str_views(d.sources@)),
            Message::Done => MessageModel::Done,
        }
    }
}

/// The models of a message stream.
pub open spec fn message_models(v: Seq<Message>) -> Seq<MessageModel> {
    v.map_values(|m: Message| m.model())
}

/// An event with no metrics, failure details or corrections.
pub open spec fn plain_event(
    file: Seq<char>,
    outcome: Outcome,
    kind: Seq<char>,
    name: Seq<char>,
    message: Option<Seq<char>>,
    line: Option<u32>,
    duration_ms: u64,
) -> EventModel {
    EventModel {
        file,
        outcome,
        kind,
        name,
        parent: None,
        metrics: None,
        failures: Seq::empty(),
        message,
        line,
        duration_ms,
        corrections: Seq::empty(),
    }
}

/// The engine-side error event for `file` with `msg`.
pub open spec fn engine_error_model(file: Seq<char>, msg: Seq<char>) -> EventModel {
    plain_event(file, Outcome::Error, "engine"@, "<error>"@, Some(msg), None, 0)
}

/// An event with no metrics, failure details or corrections.
pub fn make_plain_event(
    file: &str,
    outcome: Outcome,
    kind: &str,
    name: String,
    message: Option<String>,
    line: Option<u32>,
    duration_ms: u64,
) -> (e: Event)
    ensures
        e.model() == plain_event(file@, outcome, kind@, name@, opt_str(message), line, duration_ms),
{
    let e = Event {
        file: text::owned(file),
        outcome,
        subject: Subject { kind: text::owned(kind), name, parent: None },
        metrics: None,
        failures: Vec::new(),
        message,
        line,
        duration_ms,
        corrections: Vec::new(),
    };
    proof {
        assert(correction_models(e.corrections@) =~= Seq::<CorrectionModel>::empty());
        assert(e.failures@ =~= Seq::<FailureDetail>::empty());
    }
    e
}

} // verus!
