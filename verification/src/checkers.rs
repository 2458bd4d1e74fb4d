//! Turning the reports of command-mode checkers (ruff, jarl, typos,
//! skyspell) into protocol messages. Decoding the tools' JSON is the
//! caller's part: these functions take the decoded records (or the decoder's
//! error text) together with the raw output they came from.
use vstd::prelude::*;

use crate::protocol::{
    engine_error_model, law_bad_event_fails_file, make_plain_event, message_models, opt_str,
    plain_event, tally_spec, Correction, CorrectionModel, Counts, Event, EventModel, FileStatus,
    Message, MessageModel, Outcome, Summary,
};
use crate::text;
use crate::text::str_views;

verus! {

/// One lint finding: rule code, message text and 1-based row, each
/// possibly missing.
#[derive(Debug, Clone)]
pub struct LintDiagnostic {
    pub code: Option<String>,
    pub message: Option<String>,
    pub row: Option<u32>,
}

/// Counts with only `error` set to one.
pub open spec fn one_error() -> Counts {
    Counts { pass: 0, fail: 0, error: 1, skip: 0, xfail: 0, warn: 0 }
}

/// The messages of a run that failed before any finding: one engine error,
/// its summary, and the end marker.
pub open spec fn bail_out(file: Seq<char>, msg: Seq<char>, duration_ms: u64) -> Seq<MessageModel> {
    seq![
        MessageModel::Event(engine_error_model(file, msg)),
        MessageModel::Summary(file, duration_ms, one_error()),
        MessageModel::Done,
    ]
}

/// The option's text, or `dflt` when it is missing.
pub open spec fn or_text(o: Option<String>, dflt: Seq<char>) -> Seq<char> {
    match o {
        Some(s) => s@,
        None => dflt,
    }
}

/// The warn event for a lint finding: subject the rule code (`unknown`
/// when missing), message the text when non-empty, line the row.
pub open spec fn lint_warning(file: Seq<char>, d: LintDiagnostic) -> EventModel {
    let body = or_text(d.message, Seq::empty());
    plain_event(
        file,
        Outcome::Warn,
        "rule"@,
        or_text(d.code, "unknown"@),
        if body.len() == 0 { None } else { Some(body) },
        d.row,
        0,
    )
}

/// The warn events of a list of findings.
pub open spec fn lint_warnings(file: Seq<char>, ds: Seq<LintDiagnostic>) -> Seq<MessageModel> {
    ds.map_values(|d: LintDiagnostic| MessageModel::Event(lint_warning(file, d)))
}

/// The pass event of a clean lint run.
pub open spec fn lint_pass(file: Seq<char>, duration_ms: u64) -> EventModel {
    plain_event(file, Outcome::Pass, "rule"@, "lint"@, None, None, duration_ms)
}

/// Counts with `pass`, `error` and `warn` set.
pub open spec fn counts_pew(pass: int, error: int, warn: int) -> Counts {
    Counts { pass: pass as u32, fail: 0, error: error as u32, skip: 0, xfail: 0, warn: warn as u32 }
}

/// The messages for a ruff run (`ruff check --output-format json`): exit
/// code 2 is an engine error carrying stderr; blank stdout means no
/// findings; undecodable stdout is an engine error; no findings give one
/// pass event; otherwise one warn event per finding.
pub open spec fn ruff_messages(
    file: Seq<char>,
    stdout: Seq<char>,
    stderr: Seq<char>,
    exit_code: Option<i32>,
    duration_ms: u64,
    decoded: Result<Seq<LintDiagnostic>, Seq<char>>,
) -> Seq<MessageModel> {
    if exit_code == Some(2i32) {
        bail_out(
            file,
            if text::trim(stderr).len() == 0 { "ruff exited with code 2"@ } else { text::trim(stderr) },
            duration_ms,
        )
    } else {
        let diags = if text::trim(stdout).len() == 0 { Ok(Seq::empty()) } else { decoded };
        match diags {
            Err(e) => bail_out(file, "failed to parse ruff output: "@ + e, duration_ms),
            Ok(ds) => if ds.len() == 0 {
                seq![
                    MessageModel::Event(lint_pass(file, duration_ms)),
                    MessageModel::Summary(file, duration_ms, counts_pew(1, 0, 0)),
                    MessageModel::Done,
                ]
            } else {
                lint_warnings(file, ds) + seq![
                    MessageModel::Summary(file, duration_ms, counts_pew(0, 0, ds.len() as int)),
                    MessageModel::Done,
                ]
            },
        }
    }
}

/// The plain view of a decoded list.
pub open spec fn decoded_view<T>(d: Result<Vec<T>, String>) -> Result<Seq<T>, Seq<char>> {
    match d {
        Ok(v) => Ok(v@),
        Err(e) => Err(e@),
    }
}

/// Appends the three messages of an early failure.
fn push_bail_out(out: &mut Vec<Message>, file: &str, msg: String, duration_ms: u64)
    ensures
        message_models(final(out)@) == message_models(old(out)@) + bail_out(file@, msg@, duration_ms),
{
    let ghost m = msg@;
    let e = Event::engine_error(text::owned(file), msg);
    let ghost em = e.model();
    proof {
        assert(em == engine_error_model(file@, m)) by {
            assert(e.failures@ =~= Seq::empty());
            assert(crate::protocol::correction_models(e.corrections@) =~= Seq::empty());
        }
    }
    let ghost before = message_models(out@);
    out.push(Message::Event(e));
    out.push(
        Message::Summary(
            Summary {
                file: text::owned(file),
                duration_ms,
                counts: Counts { pass: 0, fail: 0, error: 1, skip: 0, xfail: 0, warn: 0 },
            },
        ),
    );
    out.push(Message::Done);
    proof {
        assert(message_models(out@) =~= before + bail_out(file@, m, duration_ms));
    }
}

/// The event for one lint finding.
fn lint_event(file: &str, d: &LintDiagnostic) -> (e: Event)
    ensures
        e.model() == lint_warning(file@, *d),
{
    let code = match &d.code {
        Some(c) => c.clone(),
        None => text::owned("unknown"),
    };
    let body = match &d.message {
        Some(m) => m.clone(),
        None => String::new(),
    };
    let message = if body.as_str().is_empty() {
        None
    } else {
        Some(body)
    };
    make_plain_event(file, Outcome::Warn, "rule", code, message, d.row, 0)
}

/// Appends one warn event per finding, returning how many.
fn push_lint_warnings(out: &mut Vec<Message>, file: &str, ds: &[LintDiagnostic])
    ensures
        message_models(final(out)@) == message_models(old(out)@) + lint_warnings(file@, ds@),
{
    let ghost start = message_models(out@);
    let mut i: usize = 0;
    while i < ds.len()
        invariant
            i <= ds@.len(),
            message_models(out@) == start + lint_warnings(file@, ds@.subrange(0, i as int)),
        decreases ds@.len() - i,
    {
        let e = lint_event(file, &ds[i]);
        let ghost before = message_models(out@);
        out.push(Message::Event(e));
        proof {
            assert(message_models(out@) == before.push(MessageModel::Event(e.model())));
            assert(lint_warnings(file@, ds@.subrange(0, i + 1)) == lint_warnings(
                file@,
                ds@.subrange(0, i as int),
            ).push(MessageModel::Event(lint_warning(file@, ds@[i as int]))));
        }
        i = i + 1;
    }
    proof {
        assert(ds@.subrange(0, ds@.len() as int) == ds@);
    }
}

/// Appends a summary and the end marker.
fn push_summary_done(out: &mut Vec<Message>, file: &str, duration_ms: u64, counts: Counts)
    ensures
        message_models(final(out)@) == message_models(old(out)@) + seq![
            MessageModel::Summary(file@, duration_ms, counts),
            MessageModel::Done,
        ],
{
    let ghost before = message_models(out@);
    out.push(Message::Summary(Summary { file: text::owned(file), duration_ms, counts }));
    out.push(Message::Done);
    proof {
        assert(message_models(out@) =~= before + seq![
            MessageModel::Summary(file@, duration_ms, counts),
            MessageModel::Done,
        ]);
    }
}

/// The messages for one ruff run (see [`ruff_messages`]). `decoded` is
/// what decoding stdout as a JSON array of findings gave.
pub fn parse_ruff_output(
    file: &str,
    stdout: &str,
    stderr: &str,
    exit_code: Option<i32>,
    duration_ms: u64,
    decoded: &Result<Vec<LintDiagnostic>, String>,
) -> (r: Vec<Message>)
    requires
        match decoded {
            Ok(v) => v@.len() < u32::MAX,
            Err(_) => true,
        },
    ensures
        message_models(r@) == ruff_messages(
            file@,
            stdout@,
            stderr@,
            exit_code,
            duration_ms,
            decoded_view(*decoded),
        ),
{
    let mut out: Vec<Message> = Vec::new();
    proof {
        assert(message_models(out@) =~= Seq::<MessageModel>::empty());
    }
    if exit_code == Some(2i32) {
        let se = text::chars_of(stderr);
        let t = text::trim_chars(se.as_slice());
        let msg = if t.len() == 0 {
            text::owned("ruff exited with code 2")
        } else {
            text::string_from(t.as_slice())
        };
        push_bail_out(&mut out, file, msg, duration_ms);
        return out;
    }
    let so = text::chars_of(stdout);
    let blank = text::trim_chars(so.as_slice()).len() == 0;
    if blank {
        let pass = make_plain_event(
            file,
            Outcome::Pass,
            "rule",
            text::owned("lint"),
            None,
            None,
            duration_ms,
        );
        out.push(Message::Event(pass));
        push_summary_done(&mut out, file, duration_ms, Counts { pass: 1, fail: 0, error: 0, skip: 0, xfail: 0, warn: 0 });
        proof {
            assert(message_models(out@) =~= seq![
                MessageModel::Event(lint_pass(file@, duration_ms)),
                MessageModel::Summary(file@, duration_ms, counts_pew(1, 0, 0)),
                MessageModel::Done,
            ]);
        }
        return out;
    }
    match decoded {
        Err(e) => {
            let mut msg = text::owned("failed to parse ruff output: ");
            text::push_str(&mut msg, e.as_str());
            push_bail_out(&mut out, file, msg, duration_ms);
            out
        },
        Ok(ds) => {
            if ds.len() == 0 {
                let pass = make_plain_event(
                    file,
                    Outcome::Pass,
                    "rule",
                    text::owned("lint"),
                    None,
                    None,
                    duration_ms,
                );
                out.push(Message::Event(pass));
                push_summary_done(&mut out, file, duration_ms, Counts { pass: 1, fail: 0, error: 0, skip: 0, xfail: 0, warn: 0 });
                proof {
                    assert(message_models(out@) =~= seq![
                        MessageModel::Event(lint_pass(file@, duration_ms)),
                        MessageModel::Summary(file@, duration_ms, counts_pew(1, 0, 0)),
                        MessageModel::Done,
                    ]);
                }
                out
            } else {
                push_lint_warnings(&mut out, file, ds.as_slice());
                let n = ds.len() as u32;
                push_summary_done(&mut out, file, duration_ms, Counts { pass: 0, fail: 0, error: 0, skip: 0, xfail: 0, warn: n });
                proof {
                    assert(message_models(out@) =~= lint_warnings(file@, ds@) + seq![
                        MessageModel::Summary(file@, duration_ms, counts_pew(0, 0, ds@.len() as int)),
                        MessageModel::Done,
                    ]);
                }
                out
            }
        },
    }
}


// ── jarl ────────────────────────────────────────────────────────────────────

/// A decoded jarl report: findings and tool errors.
#[derive(Debug, Clone)]
pub struct JarlOutput {
    pub diagnostics: Vec<LintDiagnostic>,
    pub errors: Vec<String>,
}

/// The error event for one jarl tool error.
pub open spec fn jarl_error(file: Seq<char>, e: Seq<char>) -> EventModel {
    plain_event(file, Outcome::Error, "engine"@, "<jarl>"@, Some(e), None, 0)
}

/// The error events of jarl's tool errors.
pub open spec fn jarl_errors(file: Seq<char>, es: Seq<String>) -> Seq<MessageModel> {
    es.map_values(|e: String| MessageModel::Event(jarl_error(file, e@)))
}

/// The messages for a jarl run: undecodable output is an engine error;
/// otherwise one error event per tool error, a pass event when there are
/// neither errors nor findings, and one warn event per finding.
pub open spec fn jarl_messages(
    file: Seq<char>,
    duration_ms: u64,
    decoded: Result<JarlOutput, Seq<char>>,
) -> Seq<MessageModel> {
    match decoded {
        Err(e) => bail_out(file, "failed to parse jarl output: "@ + e, duration_ms),
        Ok(p) => {
            let clean = p.diagnostics@.len() == 0 && p.errors@.len() == 0;
            jarl_errors(file, p.errors@) + (if clean {
                seq![MessageModel::Event(lint_pass(file, duration_ms))]
            } else {
                Seq::empty()
            }) + lint_warnings(file, p.diagnostics@) + seq![
                MessageModel::Summary(
                    file,
                    duration_ms,
                    counts_pew(
                        if clean { 1 } else { 0 },
                        p.errors@.len() as int,
                        p.diagnostics@.len() as int,
                    ),
                ),
                MessageModel::Done,
            ]
        },
    }
}

/// The plain view of a decoded jarl report.
pub open spec fn jarl_view(d: Result<JarlOutput, String>) -> Result<JarlOutput, Seq<char>> {
    match d {
        Ok(p) => Ok(p),
        Err(e) => Err(e@),
    }
}

/// Law: each tool error in a decoded jarl report becomes, in its place at
/// the head of the stream, an error event for the file carrying the error
/// text; so a report with any tool error tallies as a failed, bad file.
pub proof fn law_jarl_tool_errors_fail_the_file(
    file: Seq<char>,
    duration_ms: u64,
    p: JarlOutput,
    msgs: Seq<Message>,
)
    requires
        message_models(msgs) == jarl_messages(file, duration_ms, Ok(p)),
        msgs.len() < u32::MAX,
    ensures
        forall|i: int|
            0 <= i < p.errors@.len() ==> ((#[trigger] jarl_messages(file, duration_ms, Ok(p))[i])
                matches MessageModel::Event(e) && e.outcome == Outcome::Error && e.file == file
                && e.message == Some(p.errors@[i]@)),
        p.errors@.len() > 0 ==> tally_spec(msgs, false).status == FileStatus::Failed,
        p.errors@.len() > 0 ==> tally_spec(msgs, false).bad,
{
    let ms = jarl_messages(file, duration_ms, Ok(p));
    let errs = jarl_errors(file, p.errors@);
    assert forall|i: int| 0 <= i < p.errors@.len() implies ((#[trigger] ms[i]) matches MessageModel::Event(
        e,
    ) && e.outcome == Outcome::Error && e.file == file && e.message == Some(p.errors@[i]@)) by {
        assert(ms[i] == errs[i]);
    }
    if p.errors@.len() > 0 {
        assert(ms[0] == errs[0]);
        assert(message_models(msgs).len() == msgs.len());
        assert(msgs.len() > 0);
        assert(message_models(msgs)[0] == msgs[0].model());
        match msgs[0] {
            Message::Event(e) => {
                assert(e.outcome == Outcome::Error);
                law_bad_event_fails_file(msgs, 0);
            },
            _ => {},
        }
    }
}

/// The messages for one jarl run (see [`jarl_messages`]). `decoded` is what
/// decoding stdout as jarl's JSON report gave.
pub fn parse_jarl_output(file: &str, duration_ms: u64, decoded: &Result<JarlOutput, String>) -> (r:
    Vec<Message>)
    requires
        match decoded {
            Ok(p) => p.errors@.len() < u32::MAX && p.diagnostics@.len() < u32::MAX,
            Err(_) => true,
        },
    ensures
        message_models(r@) == jarl_messages(file@, duration_ms, jarl_view(*decoded)),
{
    let mut out: Vec<Message> = Vec::new();
    proof {
        assert(message_models(out@) =~= Seq::<MessageModel>::empty());
    }
    match decoded {
        Err(e) => {
            let mut msg = text::owned("failed to parse jarl output: ");
            text::push_str(&mut msg, e.as_str());
            push_bail_out(&mut out, file, msg, duration_ms);
            out
        },
        Ok(p) => {
            let mut i: usize = 0;
            while i < p.errors.len()
                invariant
                    i <= p.errors@.len(),
                    message_models(out@) == jarl_errors(file@, p.errors@.subrange(0, i as int)),
                decreases p.errors@.len() - i,
            {
                let e = make_plain_event(
                    file,
                    Outcome::Error,
                    "engine",
                    text::owned("<jarl>"),
                    Some(p.errors[i].clone()),
                    None,
                    0,
                );
                let ghost before = message_models(out@);
                out.push(Message::Event(e));
                proof {
                    assert(message_models(out@) == before.push(MessageModel::Event(e.model())));
                    assert(jarl_errors(file@, p.errors@.subrange(0, i + 1)) == jarl_errors(
                        file@,
                        p.errors@.subrange(0, i as int),
                    ).push(MessageModel::Event(jarl_error(file@, p.errors@[i as int]@))));
                }
                i = i + 1;
            }
            proof {
                assert(p.errors@.subrange(0, p.errors@.len() as int) == p.errors@);
            }
            let clean = p.diagnostics.len() == 0 && p.errors.len() == 0;
            let ghost after_errors = message_models(out@);
            if clean {
                let pass = make_plain_event(
                    file,
                    Outcome::Pass,
                    "rule",
                    text::owned("lint"),
                    None,
                    None,
                    duration_ms,
                );
                out.push(Message::Event(pass));
            }
            let ghost after_pass = message_models(out@);
            proof {
                assert(after_pass =~= after_errors + (if clean {
                    seq![MessageModel::Event(lint_pass(file@, duration_ms))]
                } else {
                    Seq::empty()
                }));
            }
            push_lint_warnings(&mut out, file, p.diagnostics.as_slice());
            let counts = Counts {
                pass: if clean { 1 } else { 0 },
                fail: 0,
                error: p.errors.len() as u32,
                skip: 0,
                xfail: 0,
                warn: p.diagnostics.len() as u32,
            };
            push_summary_done(&mut out, file, duration_ms, counts);
            out
        },
    }
}

// ── typos ───────────────────────────────────────────────────────────────────

/// One misspelling reported by typos: 1-based line, 0-based byte offset
/// within the line, the word and the suggested corrections.
#[derive(Debug, Clone)]
pub struct TyposTypo {
    pub line_num: u32,
    pub byte_offset: u32,
    pub typo: String,
    pub corrections: Vec<String>,
}

/// What decoding one line of typos' JSON output gave.
#[derive(Debug, Clone)]
pub enum TyposLine {
    /// A misspelling record.
    Typo(TyposTypo),
    /// A record of another type.
    Other,
    /// Not a record; the decoder's error text.
    Invalid(String),
}

/// UTF-8 length of a string.
pub open spec fn byte_len(s: Seq<char>) -> nat {
    vstd::utf8::encode_utf8(s).len()
}

pub proof fn lemma_byte_len_pos(s: Seq<char>)
    ensures
        s.len() > 0 <==> byte_len(s) > 0,
{
    if s.len() > 0 {
        let e = vstd::utf8::encode_scalar(s[0] as u32);
        assert(e.len() >= 1);
        assert(vstd::utf8::encode_utf8(s) == e + vstd::utf8::encode_utf8(s.drop_first()));
    }
}

/// The correction for a typo: columns are 1-based inclusive byte bounds.
pub open spec fn typo_correction(t: TyposTypo) -> CorrectionModel {
    CorrectionModel {
        word: t.typo@,
        line: t.line_num,
        col_start: (t.byte_offset + 1) as u32,
        col_end: (t.byte_offset + byte_len(t.typo@)) as u32,
        suggestions: str_views(t.corrections@),
    }
}

/// The warn event for a typo.
pub open spec fn typo_event(file: Seq<char>, t: TyposTypo) -> EventModel {
    EventModel {
        file,
        outcome: Outcome::Warn,
        kind: "typo"@,
        name: t.typo@,
        parent: None,
        metrics: None,
        failures: Seq::empty(),
        message: Some("misspelled: "@ + t.typo@),
        line: Some(t.line_num),
        duration_ms: 0,
        corrections: seq![typo_correction(t)],
    }
}

/// The exit-code text of `format!("{:?}", code)`.
pub open spec fn debug_exit(code: Option<i32>) -> Seq<char> {
    match code {
        Some(c) => "Some("@ + text::dec_signed(c as int) + ")"@,
        None => "None"@,
    }
}

/// The events for the decoded lines from index `i` on, and the number of
/// misspellings among them; the first undecodable line ends the walk with
/// its error text.
pub open spec fn typo_walk(file: Seq<char>, lines: Seq<Seq<char>>, recs: Seq<TyposLine>, i: int) -> (
    Seq<MessageModel>,
    nat,
    Option<Seq<char>>,
)
    decreases lines.len() - i,
{
    if i < 0 || i >= lines.len() || i >= recs.len() {
        (Seq::empty(), 0, None)
    } else if text::trim(lines[i]).len() == 0 {
        typo_walk(file, lines, recs, i + 1)
    } else {
        match recs[i] {
            TyposLine::Invalid(e) => (Seq::empty(), 0, Some(e@)),
            TyposLine::Other => typo_walk(file, lines, recs, i + 1),
            TyposLine::Typo(t) => {
                let rest = typo_walk(file, lines, recs, i + 1);
                if t.typo@.len() == 0 {
                    (rest.0, rest.1 + 1, rest.2)
                } else {
                    (seq![MessageModel::Event(typo_event(file, t))] + rest.0, rest.1 + 1, rest.2)
                }
            },
        }
    }
}

/// The messages for a typos run (`typos --format json`): an exit code
/// other than 0, 2 or none is an engine error carrying stderr; otherwise
/// one warn event per non-empty misspelling in line order, an engine error
/// at the first undecodable line (the events before it are kept), and a
/// pass event when the output holds no misspelling at all.
pub open spec fn typos_messages(
    file: Seq<char>,
    stdout: Seq<char>,
    stderr: Seq<char>,
    exit_code: Option<i32>,
    duration_ms: u64,
    recs: Seq<TyposLine>,
) -> Seq<MessageModel> {
    if !(exit_code == Some(0i32) || exit_code == Some(2i32) || exit_code is None) {
        bail_out(
            file,
            if text::trim(stderr).len() == 0 {
                "typos exited with code "@ + debug_exit(exit_code)
            } else {
                text::trim(stderr)
            },
            duration_ms,
        )
    } else {
        let w = typo_walk(file, text::lines_of(stdout), recs, 0);
        match w.2 {
            Some(e) => w.0 + seq![
                MessageModel::Event(engine_error_model(file, "failed to parse typos output: "@ + e)),
                MessageModel::Summary(file, duration_ms, counts_pew(0, 1, w.0.len() as int)),
                MessageModel::Done,
            ],
            None => w.0 + (if w.1 == 0 {
                seq![
                    MessageModel::Event(
                        plain_event(file, Outcome::Pass, "typo"@, "spelling"@, None, None, duration_ms),
                    ),
                ]
            } else {
                Seq::empty()
            }) + seq![
                MessageModel::Summary(
                    file,
                    duration_ms,
                    counts_pew(if w.1 == 0 { 1 } else { 0 }, 0, w.0.len() as int),
                ),
                MessageModel::Done,
            ],
        }
    }
}

/// Every misspelling's columns fit in `u32`.
pub open spec fn typo_columns_fit(recs: Seq<TyposLine>) -> bool {
    forall|k: int|
        0 <= k < recs.len() ==> (#[trigger] recs[k] matches TyposLine::Typo(t) ==> t.byte_offset
            + byte_len(t.typo@) <= u32::MAX)
}

proof fn lemma_typo_walk_len(file: Seq<char>, lines: Seq<Seq<char>>, recs: Seq<TyposLine>, i: int)
    requires
        0 <= i,
    ensures
        typo_walk(file, lines, recs, i).0.len() <= typo_walk(file, lines, recs, i).1,
        typo_walk(file, lines, recs, i).1 <= if lines.len() > i { lines.len() - i } else { 0 },
    decreases lines.len() - i,
{
    if i < lines.len() && i < recs.len() {
        lemma_typo_walk_len(file, lines, recs, i + 1);
    }
}

/// The warn event for a typo.
fn typo_event_exec(file: &str, t: &TyposTypo) -> (e: Event)
    requires
        t.byte_offset + byte_len(t.typo@) <= u32::MAX,
        t.typo@.len() > 0,
    ensures
        e.model() == typo_event(file@, *t),
{
    let len = t.typo.as_str().len();
    proof {
        assert(len == byte_len(t.typo@));
    }
    let len32 = len as u32;
    let correction = Correction {
        word: t.typo.clone(),
        line: t.line_num,
        col_start: t.byte_offset + 1,
        col_end: t.byte_offset + len32,
        suggestions: crate::protocol::copy_strings(&t.corrections),
    };
    let mut msg = text::owned("misspelled: ");
    text::push_str(&mut msg, t.typo.as_str());
    let mut corrections: Vec<Correction> = Vec::new();
    corrections.push(correction);
    let e = Event {
        file: text::owned(file),
        outcome: Outcome::Warn,
        subject: crate::protocol::Subject {
            kind: text::owned("typo"),
            name: t.typo.clone(),
            parent: None,
        },
        metrics: None,
        failures: Vec::new(),
        message: Some(msg),
        line: Some(t.line_num),
        duration_ms: 0,
        corrections,
    };
    proof {
        assert(byte_len(t.typo@) >= 1) by {
            lemma_byte_len_pos(t.typo@);
        }
        assert(crate::protocol::correction_models(e.corrections@) =~= seq![typo_correction(*t)]);
        assert(e.failures@ =~= Seq::empty());
    }
    e
}

/// The messages for one typos run (see [`typos_messages`]). `decoded[k]`
/// is what decoding line `k` of stdout (as `str::lines` splits it) gave.
pub fn parse_typos_output(
    file: &str,
    stdout: &str,
    stderr: &str,
    exit_code: Option<i32>,
    duration_ms: u64,
    decoded: &[TyposLine],
) -> (r: Vec<Message>)
    requires
        decoded@.len() == text::lines_of(stdout@).len(),
        text::lines_of(stdout@).len() < u32::MAX,
        typo_columns_fit(decoded@),
    ensures
        message_models(r@) == typos_messages(file@, stdout@, stderr@, exit_code, duration_ms, decoded@),
{
    let mut out: Vec<Message> = Vec::new();
    proof {
        assert(message_models(out@) =~= Seq::<MessageModel>::empty());
    }
    let expected = match exit_code {
        Some(c) => c == 0 || c == 2,
        None => true,
    };
    if !expected {
        let se = text::chars_of(stderr);
        let t = text::trim_chars(se.as_slice());
        let msg = if t.len() == 0 {
            let mut m = text::owned("typos exited with code ");
            match exit_code {
                Some(c) => {
                    text::push_str(&mut m, "Some(");
                    text::push_i32(&mut m, c);
                    text::push_str(&mut m, ")");
                },
                None => text::push_str(&mut m, "None"),
            }
            m
        } else {
            text::string_from(t.as_slice())
        };
        proof {
            if t@.len() == 0 {
                assert(msg@ =~= "typos exited with code "@ + debug_exit(exit_code));
            }
        }
        push_bail_out(&mut out, file, msg, duration_ms);
        return out;
    }
    let so = text::chars_of(stdout);
    let lines = text::lines_chars(so.as_slice());
    let ghost lv = text::char_views(lines@);
    let ghost w0 = typo_walk(file@, lv, decoded@, 0);
    let mut warned: u32 = 0;
    let mut total: u32 = 0;
    let mut i: usize = 0;
    proof {
        lemma_typo_walk_len(file@, lv, decoded@, 0);
    }
    while i < lines.len()
        invariant
            i <= lines@.len(),
            lv == text::char_views(lines@),
            lv == text::lines_of(stdout@),
            decoded@.len() == lv.len(),
            lv.len() < u32::MAX,
            typo_columns_fit(decoded@),
            exit_code == Some(0i32) || exit_code == Some(2i32) || exit_code is None,
            w0 == typo_walk(file@, lv, decoded@, 0),
            w0.2 == typo_walk(file@, lv, decoded@, i as int).2,
            w0.0 == message_models(out@) + typo_walk(file@, lv, decoded@, i as int).0,
            w0.1 == total + typo_walk(file@, lv, decoded@, i as int).1,
            warned == message_models(out@).len(),
            total <= i,
            warned <= total,
        decreases lines@.len() - i,
    {
        let line = &lines[i];
        proof {
            assert(lv[i as int] == line@);
            lemma_typo_walk_len(file@, lv, decoded@, i + 1);
        }
        let blank = text::trim_chars(line.as_slice()).len() == 0;
        if blank {
            i = i + 1;
            continue;
        }
        match &decoded[i] {
            TyposLine::Invalid(e) => {
                let mut msg = text::owned("failed to parse typos output: ");
                text::push_str(&mut msg, e.as_str());
                let ev = Event::engine_error(text::owned(file), msg);
                let ghost evm = ev.model();
                proof {
                    assert(ev.failures@ =~= Seq::empty());
                    assert(crate::protocol::correction_models(ev.corrections@) =~= Seq::empty());
                }
                let ghost before = message_models(out@);
                out.push(Message::Event(ev));
                push_summary_done(
                    &mut out,
                    file,
                    duration_ms,
                    Counts { pass: 0, fail: 0, error: 1, skip: 0, xfail: 0, warn: warned },
                );
                proof {
                    assert(typo_walk(file@, lv, decoded@, i as int).0 == Seq::<MessageModel>::empty());
                    assert(message_models(out@) =~= w0.0 + seq![
                        MessageModel::Event(evm),
                        MessageModel::Summary(file@, duration_ms, counts_pew(0, 1, w0.0.len() as int)),
                        MessageModel::Done,
                    ]);
                    assert(decoded@[i as int] == TyposLine::Invalid(*e));
                    assert(w0.2 == Some(e@));
                    assert(evm == engine_error_model(file@, "failed to parse typos output: "@ + e@));
                    assert(message_models(out@) == typos_messages(
                        file@,
                        stdout@,
                        stderr@,
                        exit_code,
                        duration_ms,
                        decoded@,
                    ));
                }
                return out;
            },
            TyposLine::Other => {},
            TyposLine::Typo(t) => {
                total = total + 1;
                if t.typo.as_str().len() > 0 {
                    proof {
                        assert(decoded@[i as int] matches TyposLine::Typo(tt) && tt == *t);
                    }
                    let ev = typo_event_exec(file, t);
                    let ghost before = message_models(out@);
                    out.push(Message::Event(ev));
                    proof {
                        assert(message_models(out@) == before.push(MessageModel::Event(ev.model())));
                    }
                    warned = warned + 1;
                } else {
                    proof {
                        assert(t.typo@.len() == 0) by {
                            if t.typo@.len() > 0 {
                                lemma_byte_len_pos(t.typo@);
                            }
                        }
                    }
                }
            },
        }
        i = i + 1;
    }
    proof {
        assert(typo_walk(file@, lv, decoded@, i as int).0 == Seq::<MessageModel>::empty());
    }
    let ghost evs = message_models(out@);
    if total == 0 {
        let pass = make_plain_event(
            file,
            Outcome::Pass,
            "typo",
            text::owned("spelling"),
            None,
            None,
            duration_ms,
        );
        out.push(Message::Event(pass));
    }
    let ghost mid = message_models(out@);
    let counts = Counts {
        pass: if total == 0 { 1 } else { 0 },
        fail: 0,
        error: 0,
        skip: 0,
        xfail: 0,
        warn: warned,
    };
    push_summary_done(&mut out, file, duration_ms, counts);
    proof {
        assert(mid =~= evs + (if w0.1 == 0 {
            seq![
                MessageModel::Event(
                    plain_event(file@, Outcome::Pass, "typo"@, "spelling"@, None, None, duration_ms),
                ),
            ]
        } else {
            Seq::empty()
        }));
    }
    out
}

// ── skyspell ────────────────────────────────────────────────────────────────

/// One misspelled word reported by skyspell, with its 1-based line and
/// column bounds.
#[derive(Debug, Clone)]
pub struct SkyspellError {
    pub word: String,
    pub line: u32,
    pub start_column: u32,
    pub end_column: u32,
}

/// A decoded skyspell report: the misspellings per checked path and the
/// suggestions per word, each list in the order of its keys (no key twice).
#[derive(Debug, Clone)]
pub struct SkyspellOutput {
    pub errors: Vec<(String, Vec<SkyspellError>)>,
    pub suggestions: Vec<(String, Vec<String>)>,
}

impl SkyspellOutput {
    /// Both tables come from ordered maps: keys ascending, each once.
    pub open spec fn wf(&self) -> bool {
        &&& text::keys_ascending(self.errors@.map_values(|e: (String, Vec<SkyspellError>)| e.0@))
        &&& text::keys_ascending(self.suggestions@.map_values(|e: (String, Vec<String>)| e.0@))
    }
}

/// All misspellings, path after path.
pub open spec fn flat_errors(groups: Seq<(String, Vec<SkyspellError>)>) -> Seq<SkyspellError>
    decreases groups.len(),
{
    if groups.len() == 0 {
        Seq::empty()
    } else {
        flat_errors(groups.drop_last()) + groups.last().1@
    }
}

/// The suggestions listed for `word` from entry `i` on (none when the word
/// has no entry).
pub open spec fn suggestions_for(table: Seq<(String, Vec<String>)>, word: Seq<char>, i: int) -> Seq<
    Seq<char>,
>
    decreases table.len() - i,
{
    if i < 0 || i >= table.len() {
        Seq::empty()
    } else if table[i].0@ == word {
        str_views(table[i].1@)
    } else {
        suggestions_for(table, word, i + 1)
    }
}

/// The warn event for a misspelled word.
pub open spec fn word_event(file: Seq<char>, e: SkyspellError, suggestions: Seq<Seq<char>>) -> EventModel {
    EventModel {
        file,
        outcome: Outcome::Warn,
        kind: "word"@,
        name: e.word@,
        parent: None,
        metrics: None,
        failures: Seq::empty(),
        message: Some("misspelled: "@ + e.word@),
        line: Some(e.line),
        duration_ms: 0,
        corrections: seq![
            CorrectionModel {
                word: e.word@,
                line: e.line,
                col_start: e.start_column,
                col_end: e.end_column,
                suggestions,
            },
        ],
    }
}

/// The warn events of a list of misspellings.
pub open spec fn word_events(
    file: Seq<char>,
    errs: Seq<SkyspellError>,
    table: Seq<(String, Vec<String>)>,
) -> Seq<MessageModel> {
    errs.map_values(
        |e: SkyspellError| MessageModel::Event(word_event(file, e, suggestions_for(table, e.word@, 0))),
    )
}

/// The plain view of a decoded skyspell report.
pub open spec fn skyspell_view(d: Result<SkyspellOutput, String>) -> Result<SkyspellOutput, Seq<char>> {
    match d {
        Ok(o) => Ok(o),
        Err(e) => Err(e@),
    }
}

/// The messages for a skyspell run (`skyspell check --output-format json`):
/// an exit code other than 0 or none with blank stdout is an engine error
/// carrying stderr; blank stdout means no misspelling; undecodable stdout
/// is an engine error; otherwise one warn event per misspelling, or one
/// pass event when there is none.
pub open spec fn skyspell_messages(
    file: Seq<char>,
    stdout: Seq<char>,
    stderr: Seq<char>,
    exit_code: Option<i32>,
    duration_ms: u64,
    decoded: Result<SkyspellOutput, Seq<char>>,
) -> Seq<MessageModel> {
    if !(exit_code == Some(0i32) || exit_code is None) && text::trim(stdout).len() == 0 {
        bail_out(
            file,
            if text::trim(stderr).len() == 0 {
                "skyspell exited with code "@ + debug_exit(exit_code)
            } else {
                text::trim(stderr)
            },
            duration_ms,
        )
    } else if text::trim(stdout).len() == 0 {
        seq![
            MessageModel::Event(
                plain_event(file, Outcome::Pass, "word"@, "spelling"@, None, None, duration_ms),
            ),
            MessageModel::Summary(file, duration_ms, counts_pew(1, 0, 0)),
            MessageModel::Done,
        ]
    } else {
        match decoded {
            Err(e) => bail_out(file, "failed to parse skyspell output: "@ + e, duration_ms),
            Ok(o) => {
                let errs = flat_errors(o.errors@);
                if errs.len() == 0 {
                    seq![
                        MessageModel::Event(
                            plain_event(file, Outcome::Pass, "word"@, "spelling"@, None, None, duration_ms),
                        ),
                        MessageModel::Summary(file, duration_ms, counts_pew(1, 0, 0)),
                        MessageModel::Done,
                    ]
                } else {
                    word_events(file, errs, o.suggestions@) + seq![
                        MessageModel::Summary(file, duration_ms, counts_pew(0, 0, errs.len() as int)),
                        MessageModel::Done,
                    ]
                }
            },
        }
    }
}

proof fn lemma_flat_prefix_len(groups: Seq<(String, Vec<SkyspellError>)>, g: int)
    requires
        0 <= g <= groups.len(),
    ensures
        flat_errors(groups.subrange(0, g)).len() <= flat_errors(groups).len(),
    decreases groups.len(),
{
    if g == groups.len() {
        assert(groups.subrange(0, g) =~= groups);
    } else {
        lemma_flat_prefix_len(groups.drop_last(), g);
        assert(groups.drop_last().subrange(0, g) =~= groups.subrange(0, g));
    }
}

/// The suggestions listed for a word.
fn suggestions_lookup(table: &Vec<(String, Vec<String>)>, word: &str) -> (r: Vec<String>)
    ensures
        str_views(r@) == suggestions_for(table@, word@, 0),
{
    let mut i: usize = 0;
    while i < table.len()
        invariant
            i <= table@.len(),
            suggestions_for(table@, word@, 0) == suggestions_for(table@, word@, i as int),
        decreases table@.len() - i,
    {
        if text::str_eq(table[i].0.as_str(), word) {
            let r = crate::protocol::copy_strings(&table[i].1);
            return r;
        }
        i = i + 1;
    }
    Vec::new()
}

/// The event for one misspelled word.
fn word_event_exec(file: &str, e: &SkyspellError, table: &Vec<(String, Vec<String>)>) -> (ev: Event)
    ensures
        ev.model() == word_event(file@, *e, suggestions_for(table@, e.word@, 0)),
{
    let suggestions = suggestions_lookup(table, e.word.as_str());
    let ghost sv = str_views(suggestions@);
    let correction = Correction {
        word: e.word.clone(),
        line: e.line,
        col_start: e.start_column,
        col_end: e.end_column,
        suggestions,
    };
    let mut msg = text::owned("misspelled: ");
    text::push_str(&mut msg, e.word.as_str());
    let mut corrections: Vec<Correction> = Vec::new();
    corrections.push(correction);
    let ev = Event {
        file: text::owned(file),
        outcome: Outcome::Warn,
        subject: crate::protocol::Subject { kind: text::owned("word"), name: e.word.clone(), parent: None },
        metrics: None,
        failures: Vec::new(),
        message: Some(msg),
        line: Some(e.line),
        duration_ms: 0,
        corrections,
    };
    proof {
        assert(crate::protocol::correction_models(ev.corrections@) =~= seq![
            CorrectionModel {
                word: e.word@,
                line: e.line,
                col_start: e.start_column,
                col_end: e.end_column,
                suggestions: sv,
            },
        ]);
        assert(ev.failures@ =~= Seq::empty());
    }
    ev
}

/// The messages for one skyspell run (see [`skyspell_messages`]).
/// `decoded` is what decoding stdout as skyspell's JSON report gave.
pub fn parse_skyspell_output(
    file: &str,
    stdout: &str,
    stderr: &str,
    exit_code: Option<i32>,
    duration_ms: u64,
    decoded: &Result<SkyspellOutput, String>,
) -> (r: Vec<Message>)
    requires
        match decoded {
            Ok(o) => o.wf() && flat_errors(o.errors@).len() < u32::MAX,
            Err(_) => true,
        },
    ensures
        message_models(r@) == skyspell_messages(
            file@,
            stdout@,
            stderr@,
            exit_code,
            duration_ms,
            skyspell_view(*decoded),
        ),
{
    let mut out: Vec<Message> = Vec::new();
    proof {
        assert(message_models(out@) =~= Seq::<MessageModel>::empty());
    }
    let expected = match exit_code {
        Some(c) => c == 0,
        None => true,
    };
    let so = text::chars_of(stdout);
    let blank = text::trim_chars(so.as_slice()).len() == 0;
    if !expected && blank {
        let se = text::chars_of(stderr);
        let t = text::trim_chars(se.as_slice());
        let msg = if t.len() == 0 {
            let mut m = text::owned("skyspell exited with code ");
            match exit_code {
                Some(c) => {
                    text::push_str(&mut m, "Some(");
                    text::push_i32(&mut m, c);
                    text::push_str(&mut m, ")");
                },
                None => text::push_str(&mut m, "None"),
            }
            m
        } else {
            text::string_from(t.as_slice())
        };
        proof {
            if t@.len() == 0 {
                assert(msg@ =~= "skyspell exited with code "@ + debug_exit(exit_code));
            }
        }
        push_bail_out(&mut out, file, msg, duration_ms);
        return out;
    }
    let mut total: u32 = 0;
    if !blank {
        match decoded {
            Err(e) => {
                let mut msg = text::owned("failed to parse skyspell output: ");
                text::push_str(&mut msg, e.as_str());
                push_bail_out(&mut out, file, msg, duration_ms);
                return out;
            },
            Ok(o) => {
                let ghost groups = o.errors@;
                let ghost table = o.suggestions@;
                let mut g: usize = 0;
                while g < o.errors.len()
                    invariant
                        g <= groups.len(),
                        groups == o.errors@,
                        table == o.suggestions@,
                        flat_errors(groups).len() < u32::MAX,
                        total == flat_errors(groups.subrange(0, g as int)).len(),
                        message_models(out@) == word_events(
                            file@,
                            flat_errors(groups.subrange(0, g as int)),
                            table,
                        ),
                    decreases groups.len() - g,
                {
                    let group = &o.errors[g].1;
                    let ghost before = flat_errors(groups.subrange(0, g as int));
                    proof {
                        lemma_flat_prefix_len(groups, g + 1);
                        assert(groups.subrange(0, g + 1).drop_last() =~= groups.subrange(0, g as int));
                        assert(flat_errors(groups.subrange(0, g + 1)) == before + group@);
                    }
                    let mut j: usize = 0;
                    while j < group.len()
                        invariant
                            j <= group@.len(),
                            groups == o.errors@,
                            table == o.suggestions@,
                            before.len() + group@.len() < u32::MAX,
                            total == before.len() + j,
                            message_models(out@) == word_events(
                                file@,
                                before + group@.subrange(0, j as int),
                                table,
                            ),
                        decreases group@.len() - j,
                    {
                        let ev = word_event_exec(file, &group[j], &o.suggestions);
                        let ghost prev = message_models(out@);
                        out.push(Message::Event(ev));
                        proof {
                            assert(message_models(out@) == prev.push(MessageModel::Event(ev.model())));
                            assert(before + group@.subrange(0, j + 1) =~= (before + group@.subrange(
                                0,
                                j as int,
                            )).push(group@[j as int]));
                            assert(word_events(file@, before + group@.subrange(0, j + 1), table)
                                =~= word_events(file@, before + group@.subrange(0, j as int), table).push(
                                MessageModel::Event(
                                    word_event(file@, group@[j as int], suggestions_for(table, group@[j as int].word@, 0)),
                                ),
                            ));
                        }
                        total = total + 1;
                        j = j + 1;
                    }
                    proof {
                        assert(group@.subrange(0, group@.len() as int) =~= group@);
                    }
                    g = g + 1;
                }
                proof {
                    assert(groups.subrange(0, groups.len() as int) =~= groups);
                }
            },
        }
    }
    let ghost evs = message_models(out@);
    if total == 0 {
        let pass = make_plain_event(
            file,
            Outcome::Pass,
            "word",
            text::owned("spelling"),
            None,
            None,
            duration_ms,
        );
        out.push(Message::Event(pass));
    }
    let counts = Counts {
        pass: if total == 0 { 1 } else { 0 },
        fail: 0,
        error: 0,
        skip: 0,
        xfail: 0,
        warn: total,
    };
    push_summary_done(&mut out, file, duration_ms, counts);
    proof {
        if total == 0 {
            assert(evs =~= Seq::<MessageModel>::empty());
        }
    }
    out
}

} // verus!
