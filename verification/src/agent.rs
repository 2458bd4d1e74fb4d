//! Handing a failing test to an LLM agent: the markdown diagnosis prompt
//! (outcome, error, windowed test source and windowed source under test),
//! the POSIX wrapper script that opens the agent CLI in the project root,
//! and the choice of terminal to run it in. Reading the files, writing the
//! prompt and script to disk, probing the environment and spawning the
//! terminal are the caller's part.
use vstd::prelude::*;

use crate::paths;
use crate::protocol::Outcome;
use crate::python::import_map::{root_relative, root_relative_exec};
use crate::text;
use crate::text::str_views;

verus! {

/// What a successful launch reports: where the script and prompt landed
/// and which terminal program opened.
#[derive(Debug, Clone)]
pub struct LaunchInfo {
    pub script_path: String,
    pub prompt_path: String,
    /// First argv element of the launch command (`tmux`, `open`, ...).
    pub terminal: String,
}

/// The files of a prepared handoff, for frontends that run the script in
/// their own terminal.
#[derive(Debug, Clone)]
pub struct Handoff {
    pub script_path: String,
    pub prompt_path: String,
    pub cwd: String,
}

/// The lower-case name of an outcome.
pub open spec fn outcome_name(o: Outcome) -> Seq<char> {
    match o {
        Outcome::Pass => "pass"@,
        Outcome::Fail => "fail"@,
        Outcome::Error => "error"@,
        Outcome::Skip => "skip"@,
        Outcome::Xfail => "xfail"@,
        Outcome::Warn => "warn"@,
    }
}

/// The lower-case name of an outcome.
pub fn outcome_label(o: Outcome) -> (r: &'static str)
    ensures
        r@ == outcome_name(o),
{
    match o {
        Outcome::Pass => "pass",
        Outcome::Fail => "fail",
        Outcome::Error => "error",
        Outcome::Skip => "skip",
        Outcome::Xfail => "xfail",
        Outcome::Warn => "warn",
    }
}

/// The fenced-code language of a file extension (empty when unknown).
pub open spec fn lang_of_ext(ext: Seq<char>) -> Seq<char> {
    if ext == "py"@ {
        "python"@
    } else if ext == "R"@ || ext == "r"@ {
        "r"@
    } else if ext == "sh"@ {
        "bash"@
    } else if ext == "rs"@ {
        "rust"@
    } else if ext == "js"@ || ext == "mjs"@ {
        "javascript"@
    } else if ext == "ts"@ {
        "typescript"@
    } else if ext == "md"@ {
        "markdown"@
    } else if ext == "toml"@ {
        "toml"@
    } else {
        ""@
    }
}

/// The fenced-code language of a path, by its extension.
pub open spec fn lang_of(path: Seq<char>) -> Seq<char> {
    lang_of_ext(
        match paths::extension(path) {
            Some(e) => e,
            None => ""@,
        },
    )
}

/// The extension of a path, empty when it has none.
fn extension_text(path: &str) -> (r: String)
    ensures
        r@ == match paths::extension(path@) {
            Some(e) => e,
            None => ""@,
        },
{
    proof {
        reveal_strlit("");
    }
    match paths::file_name_of(path) {
        None => String::new(),
        Some(n) => {
            let nc = text::chars_of(n.as_str());
            match paths::name_extension_exec(nc.as_slice()) {
                Some(e) => text::string_from(e.as_slice()),
                None => String::new(),
            }
        },
    }
}

/// The fenced-code language of a path, by its extension.
pub fn lang_for(path: &str) -> (r: &'static str)
    ensures
        r@ == lang_of(path@),
{
    let e = extension_text(path);
    let x = e.as_str();
    if text::str_eq(x, "py") {
        "python"
    } else if text::str_eq(x, "R") || text::str_eq(x, "r") {
        "r"
    } else if text::str_eq(x, "sh") {
        "bash"
    } else if text::str_eq(x, "rs") {
        "rust"
    } else if text::str_eq(x, "js") || text::str_eq(x, "mjs") {
        "javascript"
    } else if text::str_eq(x, "ts") {
        "typescript"
    } else if text::str_eq(x, "md") {
        "markdown"
    } else if text::str_eq(x, "toml") {
        "toml"
    } else {
        ""
    }
}

// ── Shell quoting and the wrapper script ────────────────────────────────────

/// The body of a single-quoted shell word: each `'` becomes `'\''`.
pub open spec fn sh_body(s: Seq<char>) -> Seq<char>
    decreases s.len(),
{
    if s.len() == 0 {
        Seq::empty()
    } else {
        sh_body(s.drop_last()) + if s.last() == '\'' {
            "'\\''"@
        } else {
            seq![s.last()]
        }
    }
}

/// `s` as one single-quoted POSIX shell word.
pub open spec fn sh_quoted(s: Seq<char>) -> Seq<char> {
    "'"@ + sh_body(s) + "'"@
}

/// Quote `s` for a POSIX shell: single quotes around it, with each
/// embedded `'` written as `'\''`.
pub fn sh_quote(s: &str) -> (r: String)
    ensures
        r@ == sh_quoted(s@),
{
    let cs = text::chars_of(s);
    let mut out = text::owned("'");
    let ghost start = out@;
    let mut i: usize = 0;
    while i < cs.len()
        invariant
            i <= cs@.len(),
            cs@ == s@,
            out@ == start + sh_body(cs@.subrange(0, i as int)),
        decreases cs@.len() - i,
    {
        proof {
            assert(cs@.subrange(0, i + 1).drop_last() =~= cs@.subrange(0, i as int));
            assert(cs@.subrange(0, i + 1).last() == cs@[i as int]);
        }
        if cs[i] == '\'' {
            text::push_str(&mut out, "'\\''");
            proof {
                assert(out@ =~= start + sh_body(cs@.subrange(0, i + 1)));
            }
        } else {
            let ghost before = out@;
            text::push_char(&mut out, cs[i]);
            proof {
                assert(out@ =~= before + seq![cs@[i as int]]);
                assert(out@ =~= start + sh_body(cs@.subrange(0, i + 1)));
            }
        }
        i = i + 1;
    }
    proof {
        assert(cs@.subrange(0, cs@.len() as int) =~= s@);
    }
    text::push_str(&mut out, "'");
    out
}

/// The wrapper script: a POSIX shell script that enters `cwd`, runs the
/// agent CLI with the prompt file's contents as its first message, and
/// waits for enter once the agent exits so the window stays open.
pub open spec fn wrapper_script_text(cwd: Seq<char>, cli: Seq<char>, prompt_path: Seq<char>) -> Seq<char> {
    "#!/bin/sh\nset -e\ncd "@ + sh_quoted(cwd) + "\n"@ + cli + " \"$(cat "@ + sh_quoted(prompt_path)
        + ")\"\nstatus=$?\necho\necho \"[scrutin] agent exited with $status. press enter to close.\"\nread _\n"@
}

/// The wrapper script (see [`wrapper_script_text`]).
pub fn build_wrapper_script(cwd: &str, cli: &str, prompt_path: &str) -> (r: String)
    ensures
        r@ == wrapper_script_text(cwd@, cli@, prompt_path@),
{
    let mut out = text::owned("#!/bin/sh\nset -e\ncd ");
    let q = sh_quote(cwd);
    text::push_str(&mut out, q.as_str());
    text::push_str(&mut out, "\n");
    text::push_str(&mut out, cli);
    text::push_str(&mut out, " \"$(cat ");
    let p = sh_quote(prompt_path);
    text::push_str(&mut out, p.as_str());
    text::push_str(
        &mut out,
        ")\"\nstatus=$?\necho\necho \"[scrutin] agent exited with $status. press enter to close.\"\nread _\n",
    );
    proof {
        assert(out@ =~= wrapper_script_text(cwd@, cli@, prompt_path@));
    }
    out
}


// ── Source windows ──────────────────────────────────────────────────────────

/// A slice of a file's lines and the 1-based number of its first line.
#[derive(Debug, Clone)]
pub struct WindowSlice {
    pub body: String,
    pub start_line: usize,
}

/// The 0-based line range `[start, end)` shown around `line` (1-based):
/// `context` lines on each side, clipped to the file; without a line (or
/// with line 0), the first `2 * context + 1` lines.
pub open spec fn window_range(total: int, line: Option<u32>, context: u32) -> (int, int) {
    if line is Some && line->0 > 0 {
        let last = if total > 0 { total - 1 } else { 0 };
        let target = if line->0 - 1 < last { line->0 - 1 } else { last };
        (
            if target >= context { target - context } else { 0 },
            if target + context + 1 < total { target + context + 1 } else { total },
        )
    } else {
        (0, if 2 * context + 1 < total { 2 * context + 1 } else { total })
    }
}

/// The window of `content` around `line` (see [`window_range`]): its lines
/// joined with `\n`, and the number of its first line.
pub open spec fn window_of(content: Seq<char>, line: Option<u32>, context: u32) -> (Seq<char>, int) {
    let lines = text::lines_of(content);
    let (start, end) = window_range(lines.len() as int, line, context);
    (text::join(lines.subrange(start, end), seq!['\n']), start + 1)
}

/// Cut the window of `content` around `line` (see [`window_of`]).
pub fn read_window(content: &str, line: Option<u32>, context: u32) -> (w: WindowSlice)
    ensures
        (w.body@, w.start_line as int) == window_of(content@, line, context),
{
    let cs = text::chars_of(content);
    let lines = text::lines_chars(cs.as_slice());
    let ghost lv = text::char_views(lines@);
    let total = lines.len();
    let c = context as usize;
    let (start, end): (usize, usize) = match line {
        Some(l) if l > 0 => {
            let last = if total > 0 { total - 1 } else { 0 };
            let lm1 = (l - 1) as usize;
            let target = if lm1 < last { lm1 } else { last };
            let start = if target >= c { target - c } else { 0 };
            let room = total - target;
            let end = if total == 0 || c >= room - 1 { total } else { target + c + 1 };
            (start, end)
        },
        _ => {
            let end = if c >= total {
                total
            } else {
                let remaining = total - c;
                if c + 1 >= remaining { total } else { c + c + 1 }
            };
            (0, end)
        },
    };
    proof {
        assert((start as int, end as int) == window_range(lv.len() as int, line, context));
    }
    let mut sel: Vec<Vec<char>> = Vec::new();
    let mut i = start;
    while i < end
        invariant
            start <= i <= end <= lines@.len(),
            lv == text::char_views(lines@),
            text::char_views(sel@) == lv.subrange(start as int, i as int),
        decreases end - i,
    {
        let copy = text::slice_of(lines[i].as_slice(), 0, lines[i].len());
        proof {
            assert(copy@ =~= lines@[i as int]@);
            assert(text::char_views(sel@.push(copy)) =~= text::char_views(sel@).push(copy@));
            assert(lv.subrange(start as int, i + 1) =~= lv.subrange(start as int, i as int).push(lv[i as int]));
        }
        sel.push(copy);
        i = i + 1;
    }
    let body = text::join_chars(&sel, '\n');
    WindowSlice { body: text::string_from(body.as_slice()), start_line: start + 1 }
}

/// The comment leader of a fenced block's line-number note.
pub open spec fn comment_prefix(lang: Seq<char>) -> Seq<char> {
    if lang == "py"@ || lang == "python"@ || lang == "r"@ || lang == "R"@ || lang == "sh"@ || lang
        == "bash"@ {
        "#"@
    } else {
        "//"@
    }
}

/// A fenced code block of `body` in language `lang`, led by a comment
/// giving the number of its first line.
pub open spec fn fenced_text(lang: Seq<char>, body: Seq<char>, start_line: int) -> Seq<char> {
    "```"@ + lang + "\n"@ + comment_prefix(lang) + " starting at line "@ + text::dec(start_line as nat)
        + "\n"@ + body + closing_break(body) + "```\n"@
}

/// The comment leader of a fenced block's line-number note.
fn comment_leader(lang: &str) -> (r: &'static str)
    ensures
        r@ == comment_prefix(lang@),
{
    if text::str_eq(lang, "py") || text::str_eq(lang, "python") || text::str_eq(lang, "r")
        || text::str_eq(lang, "R") || text::str_eq(lang, "sh") || text::str_eq(lang, "bash") {
        "#"
    } else {
        "//"
    }
}

/// The line break closing a block body, unless the body ends with one.
pub open spec fn closing_break(body: Seq<char>) -> Seq<char> {
    if body.len() > 0 && body.last() == '\n' {
        ""@
    } else {
        "\n"@
    }
}

/// Appends the fenced block of a window (see [`fenced_text`]).
pub fn fenced(out: &mut String, lang: &str, slice: &WindowSlice)
    ensures
        final(out)@ == old(out)@ + fenced_text(lang@, slice.body@, slice.start_line as int),
{
    let ghost o0 = out@;
    text::push_str(out, "```");
    text::push_str(out, lang);
    text::push_str(out, "\n");
    text::push_str(out, comment_leader(lang));
    text::push_str(out, " starting at line ");
    text::push_dec(out, slice.start_line as u64);
    text::push_str(out, "\n");
    text::push_str(out, slice.body.as_str());
    let ghost o1 = out@;
    let bc = text::chars_of(slice.body.as_str());
    let ends_nl = bc.len() > 0 && bc[bc.len() - 1] == '\n';
    if !ends_nl {
        text::push_str(out, "\n");
    } else {
        proof {
            reveal_strlit("");
            assert(out@ =~= o1 + ""@);
        }
    }
    let ghost o2 = out@;
    proof {
        assert(o2 == o1 + closing_break(slice.body@));
    }
    text::push_str(out, "```\n");
    proof {
        assert(out@ =~= o0 + fenced_text(lang@, slice.body@, slice.start_line as int));
    }
}

// ── The prompt ──────────────────────────────────────────────────────────────

/// What the prompt is built from: the failing test event and the contents
/// of the files it shows.
#[derive(Debug, Clone)]
pub struct PromptRequest {
    /// Project root; the source under test is shown relative to it.
    pub pkg_root: String,
    /// Test file path relative to the root, for the headings.
    pub test_file_rel: String,
    /// Absolute test file path (its extension picks the code language).
    pub test_file_abs: String,
    /// Contents of the test file.
    pub test_source: String,
    /// The dependency-mapped source under test: absolute path and contents.
    pub source: Option<(String, String)>,
    /// Line of the failure in the test file; `None` shows the top.
    pub failing_line: Option<u32>,
    pub outcome: Outcome,
    pub test_name: Option<String>,
    pub error_message: Option<String>,
    /// Lines of context on each side of the failing line.
    pub context_lines: u32,
}

/// A path shown relative to the root when it lies below it.
pub open spec fn shown_path(root: Seq<char>, p: Seq<char>) -> Seq<char> {
    match root_relative(root, p) {
        Some(r) => r,
        None => p,
    }
}

/// The text of an optional string, when present and non-empty.
pub open spec fn non_empty(o: Option<String>) -> Option<Seq<char>> {
    match o {
        Some(s) => if s@.len() > 0 { Some(s@) } else { None },
        None => None,
    }
}

/// The closing instructions of the prompt.
pub open spec fn prompt_tail() -> Seq<char> {
    "\n## What I'd like you to do\n\n1. Reproduce the failure in your head: read the test, then the source.\n2. Identify the root cause (be specific: which line, which condition).\n3. Propose the smallest change that makes the test pass without weakening it.\n4. If the test itself looks wrong, say so explicitly and explain why.\n"@
}

/// The first line of the prompt: outcome, file and failing line.
pub open spec fn head_line(r: PromptRequest) -> Seq<char> {
    "# Test failure diagnosis\n\n"@ + "scrutin caught a `"@ + outcome_name(r.outcome) + "` outcome in `"@
        + r.test_file_rel@ + "`"@ + (match r.failing_line {
        Some(l) => " at line "@ + text::dec(l as nat),
        None => ""@,
    }) + ". Please diagnose what's going wrong and propose a fix.\n\n"@
}

/// The test name note, when the name is non-empty.
pub open spec fn name_part(r: PromptRequest) -> Seq<char> {
    match non_empty(r.test_name) {
        Some(n) => "**Test name:** `"@ + n + "`\n\n"@,
        None => ""@,
    }
}

/// The error message block (trailing whitespace dropped), when non-empty.
pub open spec fn error_part(r: PromptRequest) -> Seq<char> {
    match non_empty(r.error_message) {
        Some(m) => "## Error message\n\n```\n"@ + text::trim_end(m) + "\n```\n\n"@,
        None => ""@,
    }
}

/// The heading of the prompt: outcome, file and line, then the test name
/// and the error message when non-empty.
pub open spec fn prompt_head(r: PromptRequest) -> Seq<char> {
    head_line(r) + name_part(r) + error_part(r)
}

/// The test source section: the window around the failing line.
pub open spec fn prompt_test(r: PromptRequest) -> Seq<char> {
    let w = window_of(r.test_source@, r.failing_line, r.context_lines);
    "## Test source \u{2014} `"@ + r.test_file_rel@ + "`\n\n"@ + fenced_text(lang_of(r.test_file_abs@), w.0, w.1)
}

/// Twice the context, saturating.
pub open spec fn double_context(c: u32) -> u32 {
    if c * 2 <= u32::MAX { (c * 2) as u32 } else { u32::MAX }
}

/// The source-under-test section: the top of the file (twice the
/// context), when there is a source.
pub open spec fn prompt_source(r: PromptRequest) -> Seq<char> {
    match r.source {
        Some((abs, contents)) => {
            let sw = window_of(contents@, None, double_context(r.context_lines));
            "\n## Source under test \u{2014} `"@ + shown_path(r.pkg_root@, abs@) + "`\n\n"@ + fenced_text(
                lang_of(abs@),
                sw.0,
                sw.1,
            )
        },
        None => ""@,
    }
}

/// The diagnosis prompt: heading, test source, source under test and
/// instructions.
pub open spec fn prompt_text(r: PromptRequest) -> Seq<char> {
    prompt_head(r) + prompt_test(r) + prompt_source(r) + prompt_tail()
}

/// Appends the first line of the prompt.
fn push_head_line(out: &mut String, r: &PromptRequest)
    ensures
        final(out)@ == old(out)@ + head_line(*r),
{
    let ghost o0 = out@;
    text::push_str(out, "# Test failure diagnosis\n\n");
    text::push_str(out, "scrutin caught a `");
    text::push_str(out, outcome_label(r.outcome));
    text::push_str(out, "` outcome in `");
    text::push_str(out, r.test_file_rel.as_str());
    text::push_str(out, "`");
    let ghost o1 = out@;
    match r.failing_line {
        Some(l) => {
            text::push_str(out, " at line ");
            text::push_dec(out, l as u64);
        },
        None => {
            proof {
                reveal_strlit("");
                assert(out@ =~= o1 + ""@);
            }
        },
    }
    text::push_str(out, ". Please diagnose what's going wrong and propose a fix.\n\n");
    proof {
        assert(out@ =~= o0 + head_line(*r));
    }
}

/// Appends the test name note and the error message block.
fn push_name_and_error(out: &mut String, r: &PromptRequest)
    ensures
        final(out)@ == old(out)@ + name_part(*r) + error_part(*r),
{
    proof {
        reveal_strlit("");
    }
    let ghost o0 = out@;
    match &r.test_name {
        Some(n) => {
            if !n.as_str().is_empty() {
                text::push_str(out, "**Test name:** `");
                text::push_str(out, n.as_str());
                text::push_str(out, "`\n\n");
            }
        },
        None => {},
    }
    let ghost o1 = out@;
    proof {
        assert(o1 =~= o0 + name_part(*r));
    }
    match &r.error_message {
        Some(m) => {
            if !m.as_str().is_empty() {
                text::push_str(out, "## Error message\n\n```\n");
                let mc = text::chars_of(m.as_str());
                let t = text::trim_end_chars(mc.as_slice());
                text::push_chars(out, t.as_slice());
                text::push_str(out, "\n```\n\n");
            }
        },
        None => {},
    }
    proof {
        assert(out@ =~= o1 + error_part(*r));
    }
}

/// Appends the heading of the prompt.
fn push_head(out: &mut String, r: &PromptRequest)
    ensures
        final(out)@ == old(out)@ + prompt_head(*r),
{
    let ghost o0 = out@;
    push_head_line(out, r);
    push_name_and_error(out, r);
    proof {
        assert(out@ =~= o0 + prompt_head(*r));
    }
}

/// Appends the test source section.
fn push_test(out: &mut String, r: &PromptRequest)
    ensures
        final(out)@ == old(out)@ + prompt_test(*r),
{
    let ghost o0 = out@;
    text::push_str(out, "## Test source \u{2014} `");
    text::push_str(out, r.test_file_rel.as_str());
    text::push_str(out, "`\n\n");
    let w = read_window(r.test_source.as_str(), r.failing_line, r.context_lines);
    fenced(out, lang_for(r.test_file_abs.as_str()), &w);
    proof {
        assert(out@ =~= o0 + prompt_test(*r));
    }
}

/// Appends the source-under-test section.
fn push_source(out: &mut String, r: &PromptRequest)
    ensures
        final(out)@ == old(out)@ + prompt_source(*r),
{
    let ghost o0 = out@;
    match &r.source {
        Some((abs, contents)) => {
            let shown = match root_relative_exec(r.pkg_root.as_str(), abs.as_str()) {
                Some(x) => x,
                None => abs.clone(),
            };
            text::push_str(out, "\n## Source under test \u{2014} `");
            text::push_str(out, shown.as_str());
            text::push_str(out, "`\n\n");
            let ctx2: u32 = if r.context_lines <= u32::MAX / 2 { r.context_lines * 2 } else { u32::MAX };
            let sw = read_window(contents.as_str(), None, ctx2);
            fenced(out, lang_for(abs.as_str()), &sw);
            proof {
                assert(out@ =~= o0 + prompt_source(*r));
            }
        },
        None => {
            proof {
                reveal_strlit("");
                assert(out@ =~= o0 + prompt_source(*r));
            }
        },
    }
}

/// Build the diagnosis prompt (see [`prompt_text`]).
pub fn build_prompt(r: &PromptRequest) -> (out: String)
    ensures
        out@ == prompt_text(*r),
{
    let mut out = String::new();
    proof {
        assert(out@ =~= Seq::<char>::empty());
    }
    push_head(&mut out, r);
    push_test(&mut out, r);
    push_source(&mut out, r);
    text::push_str(
        &mut out,
        "\n## What I'd like you to do\n\n1. Reproduce the failure in your head: read the test, then the source.\n2. Identify the root cause (be specific: which line, which condition).\n3. Propose the smallest change that makes the test pass without weakening it.\n4. If the test itself looks wrong, say so explicitly and explain why.\n",
    );
    proof {
        assert(out@ =~= prompt_text(*r));
    }
    out
}

// ── Choosing the terminal ───────────────────────────────────────────────────

/// `s` with every occurrence of `pat` (left to right, not overlapping)
/// replaced by `rep`.
pub open spec fn replace_all(s: Seq<char>, pat: Seq<char>, rep: Seq<char>) -> Seq<char>
    decreases s.len(),
{
    if s.len() == 0 {
        Seq::empty()
    } else if pat.len() > 0 && text::has_prefix(s, pat) {
        rep + replace_all(s.subrange(pat.len() as int, s.len() as int), pat, rep)
    } else {
        seq![s[0]] + replace_all(s.drop_first(), pat, rep)
    }
}

/// `s` with every `pat` replaced by `rep` (see [`replace_all`]).
pub fn replace_str(s: &str, pat: &str, rep: &str) -> (r: String)
    ensures
        r@ == replace_all(s@, pat@, rep@),
{
    let sc = text::chars_of(s);
    let pc = text::chars_of(pat);
    let mut out = String::new();
    let mut i: usize = 0;
    proof {
        assert(out@ =~= Seq::<char>::empty());
        assert(sc@.subrange(0, sc@.len() as int) =~= s@);
    }
    while i < sc.len()
        invariant
            i <= sc@.len(),
            sc@ == s@,
            pc@ == pat@,
            out@ + replace_all(sc@.subrange(i as int, sc@.len() as int), pat@, rep@) == replace_all(
                s@,
                pat@,
                rep@,
            ),
        decreases sc@.len() - i,
    {
        let ghost rest = sc@.subrange(i as int, sc@.len() as int);
        if pc.len() > 0 && text::matches_at(sc.as_slice(), pc.as_slice(), i) {
            proof {
                assert(text::has_prefix(rest, pat@)) by {
                    assert(rest.subrange(0, pat@.len() as int) =~= sc@.subrange(i as int, i + pat@.len()));
                }
                assert(rest.subrange(pat@.len() as int, rest.len() as int) =~= sc@.subrange(
                    i + pc@.len(),
                    sc@.len() as int,
                ));
            }
            let ghost before = out@;
            text::push_str(&mut out, rep);
            proof {
                assert(out@ + replace_all(sc@.subrange(i + pc@.len(), sc@.len() as int), pat@, rep@) =~= before
                    + replace_all(rest, pat@, rep@));
            }
            i = i + pc.len();
        } else {
            proof {
                if pc@.len() > 0 {
                    assert(!text::has_prefix(rest, pat@)) by {
                        if text::has_prefix(rest, pat@) {
                            assert(rest.subrange(0, pat@.len() as int) =~= sc@.subrange(i as int, i + pat@.len()));
                        }
                    }
                }
                assert(rest.drop_first() =~= sc@.subrange(i + 1, sc@.len() as int));
                assert(rest[0] == sc@[i as int]);
            }
            let ghost before = out@;
            text::push_char(&mut out, sc[i]);
            proof {
                assert(out@ =~= before + seq![sc@[i as int]]);
                assert(out@ + replace_all(sc@.subrange(i + 1, sc@.len() as int), pat@, rep@) =~= before
                    + replace_all(rest, pat@, rep@));
            }
            i = i + 1;
        }
    }
    proof {
        assert(sc@.subrange(i as int, sc@.len() as int) =~= Seq::<char>::empty());
        assert(out@ + Seq::<char>::empty() =~= out@);
    }
    out
}


/// What the terminal choice depends on in the environment.
#[derive(Debug, Clone)]
pub struct LaunchEnv {
    /// `$TMUX` is set.
    pub in_tmux: bool,
    /// `$TERM_PROGRAM`, when set.
    pub term_program: Option<String>,
    /// Running on macOS.
    pub macos: bool,
    /// `$TERMINAL`, when set.
    pub terminal: Option<String>,
    /// The commands found on `$PATH`, among those asked about.
    pub on_path: Vec<String>,
}

/// `cmd` is on `$PATH`.
pub open spec fn found(env: LaunchEnv, cmd: Seq<char>) -> bool {
    str_views(env.on_path@).contains(cmd)
}

/// A command line: the program and its arguments.
pub type CommandLine = (Seq<char>, Seq<Seq<char>>);

/// The launch command of a `$TERM_PROGRAM` that scrutin knows.
pub open spec fn term_program_launch(env: LaunchEnv, term: Seq<char>, s: Seq<char>) -> Option<CommandLine> {
    if term == "ghostty"@ && found(env, "ghostty"@) {
        Some(("ghostty"@, seq!["-e"@, s]))
    } else if term == "iTerm.app"@ {
        Some(("open"@, seq!["-a"@, "iTerm"@, s]))
    } else if term == "Apple_Terminal"@ {
        Some(("open"@, seq!["-a"@, "Terminal"@, s]))
    } else if term == "WezTerm"@ && found(env, "wezterm"@) {
        Some(("wezterm"@, seq!["start"@, "--"@, s]))
    } else if term == "kitty"@ && found(env, "kitty"@) {
        Some(("kitty"@, seq![s]))
    } else if term == "alacritty"@ && found(env, "alacritty"@) {
        Some(("alacritty"@, seq!["-e"@, s]))
    } else {
        None
    }
}

/// The first common Linux terminal on `$PATH`, with its argument prefix.
pub open spec fn fallback_launch(env: LaunchEnv, s: Seq<char>) -> CommandLine {
    if found(env, "x-terminal-emulator"@) {
        ("x-terminal-emulator"@, seq!["-e"@, s])
    } else if found(env, "ghostty"@) {
        ("ghostty"@, seq!["-e"@, s])
    } else if found(env, "alacritty"@) {
        ("alacritty"@, seq!["-e"@, s])
    } else if found(env, "kitty"@) {
        ("kitty"@, seq![s])
    } else if found(env, "wezterm"@) {
        ("wezterm"@, seq!["start"@, "--"@, s])
    } else if found(env, "gnome-terminal"@) {
        ("gnome-terminal"@, seq!["--"@, s])
    } else if found(env, "konsole"@) {
        ("konsole"@, seq!["-e"@, s])
    } else if found(env, "tilix"@) {
        ("tilix"@, seq!["-e"@, s])
    } else if found(env, "xterm"@) {
        ("xterm"@, seq!["-e"@, s])
    } else {
        (s, Seq::empty())
    }
}

/// The command that opens a terminal running `script` in `cwd`, in order
/// of preference: the configured template (`{script}` and `{cwd}`
/// substituted, split on whitespace); a new tmux window inside tmux; the
/// terminal named by `$TERM_PROGRAM`; Terminal.app on macOS; `$TERMINAL`
/// when on `$PATH`; the first common terminal on `$PATH`; else the script
/// itself.
pub open spec fn launch_command(template: Option<Seq<char>>, script: Seq<char>, cwd: Seq<char>, env: LaunchEnv) -> CommandLine {
    match template {
        Some(tpl) => {
            let words = text::words(replace_all(replace_all(tpl, "{script}"@, script), "{cwd}"@, cwd));
            if words.len() == 0 {
                (""@, Seq::empty())
            } else {
                (words[0], words.drop_first())
            }
        },
        None => if env.in_tmux && found(env, "tmux"@) {
            ("tmux"@, seq!["new-window"@, "-c"@, cwd, script])
        } else if env.term_program is Some && term_program_launch(env, env.term_program->0@, script) is Some {
            term_program_launch(env, env.term_program->0@, script)->0
        } else if env.macos {
            ("open"@, seq!["-a"@, "Terminal"@, script])
        } else if env.terminal is Some && found(env, env.terminal->0@) {
            (env.terminal->0@, seq!["-e"@, script])
        } else {
            fallback_launch(env, script)
        },
    }
}

/// A list of strings from string slices.
fn strings2(a: &str, b: &str) -> (r: Vec<String>)
    ensures
        str_views(r@) == seq![a@, b@],
{
    let mut v: Vec<String> = Vec::new();
    v.push(text::owned(a));
    v.push(text::owned(b));
    proof {
        assert(str_views(v@) =~= seq![a@, b@]);
    }
    v
}

/// A list of strings from string slices.
fn strings3(a: &str, b: &str, c: &str) -> (r: Vec<String>)
    ensures
        str_views(r@) == seq![a@, b@, c@],
{
    let mut v = strings2(a, b);
    let ghost v0 = v@;
    v.push(text::owned(c));
    proof {
        assert(str_views(v@) =~= str_views(v0).push(c@));
        assert(str_views(v@) =~= seq![a@, b@, c@]);
    }
    v
}

/// The launch command for a known `$TERM_PROGRAM`.
fn term_program_exec(env: &LaunchEnv, term: &str, s: &str) -> (r: Option<(String, Vec<String>)>)
    ensures
        match r {
            Some(c) => term_program_launch(*env, term@, s@) == Some((c.0@, str_views(c.1@))),
            None => term_program_launch(*env, term@, s@) is None,
        },
{
    let on = env.on_path.as_slice();
    if text::str_eq(term, "ghostty") && text::has_string(on, "ghostty") {
        Some((text::owned("ghostty"), strings2("-e", s)))
    } else if text::str_eq(term, "iTerm.app") {
        Some((text::owned("open"), strings3("-a", "iTerm", s)))
    } else if text::str_eq(term, "Apple_Terminal") {
        Some((text::owned("open"), strings3("-a", "Terminal", s)))
    } else if text::str_eq(term, "WezTerm") && text::has_string(on, "wezterm") {
        Some((text::owned("wezterm"), strings3("start", "--", s)))
    } else if text::str_eq(term, "kitty") && text::has_string(on, "kitty") {
        let mut v: Vec<String> = Vec::new();
        v.push(text::owned(s));
        proof {
            assert(str_views(v@) =~= seq![s@]);
        }
        Some((text::owned("kitty"), v))
    } else if text::str_eq(term, "alacritty") && text::has_string(on, "alacritty") {
        Some((text::owned("alacritty"), strings2("-e", s)))
    } else {
        None
    }
}

/// The first common terminal on `$PATH`.
fn fallback_exec(env: &LaunchEnv, s: &str) -> (r: (String, Vec<String>))
    ensures
        fallback_launch(*env, s@) == (r.0@, str_views(r.1@)),
{
    let on = env.on_path.as_slice();
    if text::has_string(on, "x-terminal-emulator") {
        (text::owned("x-terminal-emulator"), strings2("-e", s))
    } else if text::has_string(on, "ghostty") {
        (text::owned("ghostty"), strings2("-e", s))
    } else if text::has_string(on, "alacritty") {
        (text::owned("alacritty"), strings2("-e", s))
    } else if text::has_string(on, "kitty") {
        let mut v: Vec<String> = Vec::new();
        v.push(text::owned(s));
        proof {
            assert(str_views(v@) =~= seq![s@]);
        }
        (text::owned("kitty"), v)
    } else if text::has_string(on, "wezterm") {
        (text::owned("wezterm"), strings3("start", "--", s))
    } else if text::has_string(on, "gnome-terminal") {
        (text::owned("gnome-terminal"), strings2("--", s))
    } else if text::has_string(on, "konsole") {
        (text::owned("konsole"), strings2("-e", s))
    } else if text::has_string(on, "tilix") {
        (text::owned("tilix"), strings2("-e", s))
    } else if text::has_string(on, "xterm") {
        (text::owned("xterm"), strings2("-e", s))
    } else {
        let v: Vec<String> = Vec::new();
        proof {
            assert(str_views(v@) =~= Seq::<Seq<char>>::empty());
        }
        (text::owned(s), v)
    }
}

/// The command that opens a terminal running the script (see
/// [`launch_command`]).
pub fn resolve_launcher(template: Option<&str>, script: &str, cwd: &str, env: &LaunchEnv) -> (r: (
    String,
    Vec<String>,
))
    ensures
        launch_command(
            match template {
                Some(t) => Some(t@),
                None => None,
            },
            script@,
            cwd@,
            *env,
        ) == (r.0@, str_views(r.1@)),
{
    match template {
        Some(tpl) => {
            let a = replace_str(tpl, "{script}", script);
            let b = replace_str(a.as_str(), "{cwd}", cwd);
            let mut words = text::words_of(b.as_str());
            if words.len() == 0 {
                proof {
                    reveal_strlit("");
                    assert(str_views(words@) =~= Seq::<Seq<char>>::empty());
                }
                (String::new(), words)
            } else {
                let ghost wv = str_views(words@);
                let program = words.remove(0);
                proof {
                    assert(str_views(words@) =~= wv.drop_first());
                }
                (program, words)
            }
        },
        None => {
            let on = env.on_path.as_slice();
            if env.in_tmux && text::has_string(on, "tmux") {
                let mut v = strings3("new-window", "-c", cwd);
                let ghost v0 = v@;
                v.push(text::owned(script));
                proof {
                    assert(str_views(v@) =~= str_views(v0).push(script@));
                    assert(str_views(v@) =~= seq!["new-window"@, "-c"@, cwd@, script@]);
                }
                return (text::owned("tmux"), v);
            }
            match &env.term_program {
                Some(t) => match term_program_exec(env, t.as_str(), script) {
                    Some(c) => {
                        return c;
                    },
                    None => {},
                },
                None => {},
            }
            if env.macos {
                return (text::owned("open"), strings3("-a", "Terminal", script));
            }
            match &env.terminal {
                Some(t) => if text::has_string(on, t.as_str()) {
                    return (t.clone(), strings2("-e", script));
                },
                None => {},
            }
            fallback_exec(env, script)
        },
    }
}

} // verus!
