//! JUnit XML rendering of per-file message streams.
//!
//! Counting policy: every streamed event except `warn` becomes one
//! `<testcase>`, so the suite totals are the event counts (skip and xfail
//! both count as skipped); a summary contributes only the suite's `time`.
//! The `<testsuites>` totals are the sums of the suite totals.
use vstd::prelude::*;

use crate::metadata::{RunMetadata, metadata_pairs};
use crate::protocol::{Event, Message, Outcome, count_events, summary_ms};
use crate::text;

verus! {

/// Per-suite (and aggregate) JUnit counts.
#[derive(Clone, Copy, Debug, Default, PartialEq, Eq, Structural)]
pub struct Counts {
    pub tests: u32,
    pub failures: u32,
    pub errors: u32,
    pub skipped: u32,
}

/// Field-wise sum fits in `u32`.
pub open spec fn can_add(a: Counts, b: Counts) -> bool {
    a.tests + b.tests <= u32::MAX && a.failures + b.failures <= u32::MAX && a.errors + b.errors
        <= u32::MAX && a.skipped + b.skipped <= u32::MAX
}

/// Field-wise sum.
pub open spec fn added(a: Counts, b: Counts) -> Counts {
    Counts {
        tests: (a.tests + b.tests) as u32,
        failures: (a.failures + b.failures) as u32,
        errors: (a.errors + b.errors) as u32,
        skipped: (a.skipped + b.skipped) as u32,
    }
}

impl Counts {
    /// `self += rhs`.
    pub fn add_assign(&mut self, rhs: Counts)
        requires
            can_add(*old(self), rhs),
        ensures
            *final(self) == added(*old(self), rhs),
    {
        self.tests = self.tests + rhs.tests;
        self.failures = self.failures + rhs.failures;
        self.errors = self.errors + rhs.errors;
        self.skipped = self.skipped + rhs.skipped;
    }
}

/// The JUnit counts of a message stream.
pub open spec fn suite_counts(m: Seq<Message>) -> Counts {
    Counts {
        tests: (count_events(m, Outcome::Pass) + count_events(m, Outcome::Fail) + count_events(
            m,
            Outcome::Error,
        ) + count_events(m, Outcome::Skip) + count_events(m, Outcome::Xfail)) as u32,
        failures: count_events(m, Outcome::Fail) as u32,
        errors: count_events(m, Outcome::Error) as u32,
        skipped: (count_events(m, Outcome::Skip) + count_events(m, Outcome::Xfail)) as u32,
    }
}

// ── Text specifications ─────────────────────────────────────────────────────

/// Codepoints XML 1.0 forbids in content: NUL, C0 controls other than
/// `\t \n \r`, and U+FFFE / U+FFFF.
pub open spec fn xml_disallowed(c: char) -> bool {
    let u = c as u32;
    u <= 0x08 || u == 0x0B || u == 0x0C || (0x0E <= u && u <= 0x1F) || u == 0xFFFE || u == 0xFFFF
}

/// The escaped form of one character.
pub open spec fn escape_char(c: char) -> Seq<char> {
    if c == '&' {
        "&amp;"@
    } else if c == '<' {
        "&lt;"@
    } else if c == '>' {
        "&gt;"@
    } else if c == '"' {
        "&quot;"@
    } else if c == '\'' {
        "&apos;"@
    } else if xml_disallowed(c) {
        Seq::empty()
    } else {
        seq![c]
    }
}

/// `s` escaped for XML text and attribute values.
pub open spec fn xml_escape(s: Seq<char>) -> Seq<char>
    decreases s.len(),
{
    if s.len() == 0 {
        Seq::empty()
    } else {
        xml_escape(s.drop_last()) + escape_char(s.last())
    }
}

/// The first line of `s`, as `str::lines` yields it: the text before the
/// first `\n` with the `\r` of a `\r\n` removed, or all of `s` when it
/// has no `\n`; empty for empty `s`.
pub open spec fn first_line_of(s: Seq<char>) -> Seq<char> {
    match s.index_of_first('\n') {
        Some(i) => {
            let l = s.subrange(0, i);
            if l.len() > 0 && l.last() == '\r' { l.drop_last() } else { l }
        },
        None => s,
    }
}

/// Law: the first line is a prefix of the text that holds no `\n` and ends
/// where the first line ends: at the end of the text, at a `\n`, or at the
/// `\r` of a `\r\n`; it keeps no `\r` of a `\r\n` line ending.
pub proof fn law_first_line_is_leading_prefix(s: Seq<char>)
    ensures
        first_line_of(s).len() <= s.len(),
        s.subrange(0, first_line_of(s).len() as int) == first_line_of(s),
        !first_line_of(s).contains('\n'),
        first_line_of(s).len() == s.len() || s[first_line_of(s).len() as int] == '\n' || (
        s[first_line_of(s).len() as int] == '\r' && first_line_of(s).len() + 1 < s.len() && s[
        first_line_of(s).len() + 1int] == '\n'),
        first_line_of(s).len() < s.len() && s[first_line_of(s).len() as int] == '\n' && first_line_of(
            s,
        ).len() > 0 ==> first_line_of(s).last() != '\r',
{
    s.index_of_first_ensures('\n');
    let l = first_line_of(s);
    match s.index_of_first('\n') {
        Some(i) => {
            let l0 = s.subrange(0, i);
            if l0.len() > 0 && l0.last() == '\r' {
                assert(s.subrange(0, l.len() as int) == l);
            }
            assert(!l.contains('\n')) by {
                if l.contains('\n') {
                    let j = choose|j: int| 0 <= j < l.len() && l[j] == '\n';
                    assert(s[j] == '\n');
                }
            }
        },
        None => {
            assert(s.subrange(0, s.len() as int) == s);
        },
    }
}

/// `s` with every `]]>` split so that a CDATA section cannot end early.
pub open spec fn cdata_body(s: Seq<char>) -> Seq<char>
    decreases s.len(),
{
    match text::find(s, "]]>"@) {
        Some(i) => if 0 <= i && i + 3 <= s.len() {
            s.subrange(0, i) + "]]]]><![CDATA[>"@ + cdata_body(s.subrange(i + 3, s.len() as int))
        } else {
            s
        },
        None => s,
    }
}

/// `s` wrapped in a CDATA section.
pub open spec fn cdata(s: Seq<char>) -> Seq<char> {
    "<![CDATA["@ + cdata_body(s) + "]]>"@
}

/// Three-digit zero-padded rendering of `n < 1000`.
pub open spec fn pad3(n: nat) -> Seq<char> {
    seq![text::digit(n / 100), text::digit((n / 10) % 10), text::digit(n % 10)]
}

/// Seconds with three decimals for a duration in milliseconds.
pub open spec fn secs_text(ms: nat) -> Seq<char> {
    text::dec(ms / 1000) + "."@ + pad3(ms % 1000)
}

/// The file name with its last extension removed; the whole name when the
/// stem would be empty or there is no `.`.
pub open spec fn classname(file: Seq<char>) -> Seq<char> {
    match file.index_of_last('.') {
        Some(i) => if i > 0 { file.subrange(0, i) } else { file },
        None => file,
    }
}

/// Test-case name: the subject name, else `anon line L #N` / `anon #N`.
pub open spec fn case_name_spec(name: Seq<char>, line: Option<u32>, idx: nat) -> Seq<char> {
    if name.len() > 0 {
        name
    } else {
        match line {
            Some(l) => "anon line "@ + text::dec(l as nat) + " #"@ + text::dec(idx),
            None => "anon #"@ + text::dec(idx),
        }
    }
}

/// The message body of an event (empty when absent).
pub open spec fn body_of(e: Event) -> Seq<char> {
    match e.message {
        Some(m) => m@,
        None => Seq::empty(),
    }
}

/// `<testcase>` element with a `<failure>`/`<error>` child.
pub open spec fn failure_xml(
    cls: Seq<char>,
    name: Seq<char>,
    time: Seq<char>,
    tag: Seq<char>,
    body: Seq<char>,
) -> Seq<char> {
    "    <testcase classname=\""@ + xml_escape(cls) + "\" name=\""@ + xml_escape(name)
        + "\" time=\""@ + time + "\">\n      <"@ + tag + " message=\""@ + xml_escape(
        first_line_of(body),
    ) + "\" type=\""@ + tag + "\">"@ + cdata(body) + "</"@ + tag + ">\n    </testcase>\n"@
}

/// `<testcase>` element with a `<skipped>` child.
pub open spec fn skipped_xml(cls: Seq<char>, name: Seq<char>, attr: Seq<char>) -> Seq<char> {
    "    <testcase classname=\""@ + xml_escape(cls) + "\" name=\""@ + xml_escape(name)
        + "\" time=\"0.000\">\n      <skipped message=\""@ + xml_escape(attr)
        + "\"/>\n    </testcase>\n"@
}

/// The XML for one event, given its case name.
pub open spec fn case_xml(cls: Seq<char>, e: Event, name: Seq<char>) -> Seq<char> {
    let time = secs_text(e.duration_ms as nat);
    match e.outcome {
        Outcome::Pass => "    <testcase classname=\""@ + xml_escape(cls) + "\" name=\""@
            + xml_escape(name) + "\" time=\""@ + time + "\"/>\n"@,
        Outcome::Fail => failure_xml(cls, name, time, "failure"@, body_of(e)),
        Outcome::Error => failure_xml(cls, name, time, "error"@, body_of(e)),
        Outcome::Skip => skipped_xml(cls, name, first_line_of(body_of(e))),
        Outcome::Xfail => skipped_xml(cls, name, "expected"@),
        Outcome::Warn => Seq::empty(),
    }
}

/// Number of anonymous (empty-named) events in `m`.
pub open spec fn anon_count(m: Seq<Message>) -> nat
    decreases m.len(),
{
    if m.len() == 0 {
        0
    } else {
        anon_count(m.drop_last()) + match m.last() {
            Message::Event(e) => if e.subject.name@.len() == 0 { 1nat } else { 0nat },
            _ => 0nat,
        }
    }
}

/// The `<testcase>` elements for `m`.
pub open spec fn cases_xml(cls: Seq<char>, m: Seq<Message>) -> Seq<char>
    decreases m.len(),
{
    if m.len() == 0 {
        Seq::empty()
    } else {
        cases_xml(cls, m.drop_last()) + match m.last() {
            Message::Event(e) => case_xml(
                cls,
                e,
                case_name_spec(e.subject.name@, e.line, anon_count(m)),
            ),
            _ => Seq::empty(),
        }
    }
}

/// The flaky-marker properties block.
pub open spec fn flaky_props() -> Seq<char> {
    "    <properties>\n      <property name=\"scrutin.flaky\" value=\"true\"/>\n    </properties>\n"@
}

/// The `<testsuite>` element for file `file` with messages `m`.
pub open spec fn suite_xml(file: Seq<char>, m: Seq<Message>, flaky: bool) -> Seq<char> {
    let c = suite_counts(m);
    "  <testsuite name=\""@ + xml_escape(file) + "\" tests=\""@ + text::dec(c.tests as nat)
        + "\" failures=\""@ + text::dec(c.failures as nat) + "\" errors=\""@ + text::dec(
        c.errors as nat,
    ) + "\" skipped=\""@ + text::dec(c.skipped as nat) + "\" time=\""@ + secs_text(
        summary_ms(m) as nat,
    ) + "\">\n"@ + (if flaky { flaky_props() } else { Seq::empty() }) + cases_xml(
        classname(file),
        m,
    ) + "  </testsuite>\n"@
}

// ── Lemmas ──────────────────────────────────────────────────────────────────

proof fn lemma_xml_escape_concat(a: Seq<char>, b: Seq<char>)
    ensures
        xml_escape(a + b) == xml_escape(a) + xml_escape(b),
    decreases b.len(),
{
    if b.len() == 0 {
        assert(a + b == a);
    } else {
        assert((a + b).drop_last() == a + b.drop_last());
        lemma_xml_escape_concat(a, b.drop_last());
    }
}

/// Law: escaped text never contains a raw `<`, `>`, `"` or `'`, and every
/// `&` in it starts an entity, so it is safe inside an attribute value.
pub proof fn law_escape_has_no_markup(s: Seq<char>)
    ensures
        !xml_escape(s).contains('<'),
        !xml_escape(s).contains('>'),
        !xml_escape(s).contains('"'),
        !xml_escape(s).contains('\''),
        forall|i: int| 0 <= i < xml_escape(s).len() ==> !xml_disallowed(#[trigger] xml_escape(s)[i]),
    decreases s.len(),
{
    reveal_strlit("&amp;");
    reveal_strlit("&lt;");
    reveal_strlit("&gt;");
    reveal_strlit("&quot;");
    reveal_strlit("&apos;");
    if s.len() > 0 {
        law_escape_has_no_markup(s.drop_last());
        let a = xml_escape(s.drop_last());
        let b = escape_char(s.last());
        assert(xml_escape(s) == a + b);
        assert forall|i: int| 0 <= i < (a + b).len() implies !xml_disallowed(#[trigger] (a + b)[i])
            && (a + b)[i] != '<' && (a + b)[i] != '>' && (a + b)[i] != '"' && (a + b)[i]
            != '\'' by {
            if i < a.len() {
                assert((a + b)[i] == a[i]);
                assert(!a.contains(a[i]) || true);
                if a[i] == '<' {
                    assert(a.contains('<'));
                }
                if a[i] == '>' {
                    assert(a.contains('>'));
                }
                if a[i] == '"' {
                    assert(a.contains('"'));
                }
                if a[i] == '\'' {
                    assert(a.contains('\''));
                }
            } else {
                assert((a + b)[i] == b[i - a.len()]);
            }
        }
    }
}

// ── Executable rendering ────────────────────────────────────────────────────

/// Is `c` a codepoint XML 1.0 forbids in content?
pub fn is_xml_disallowed(c: char) -> (r: bool)
    ensures
        r == xml_disallowed(c),
{
    let u = c as u32;
    u <= 0x08 || u == 0x0B || u == 0x0C || (0x0E <= u && u <= 0x1F) || u == 0xFFFE || u == 0xFFFF
}

fn push_escaped_char(out: &mut String, c: char)
    ensures
        final(out)@ == old(out)@ + escape_char(c),
{
    if c == '&' {
        text::push_str(out, "&amp;");
    } else if c == '<' {
        text::push_str(out, "&lt;");
    } else if c == '>' {
        text::push_str(out, "&gt;");
    } else if c == '"' {
        text::push_str(out, "&quot;");
    } else if c == '\'' {
        text::push_str(out, "&apos;");
    } else if is_xml_disallowed(c) {
        assert(old(out)@ + Seq::<char>::empty() == old(out)@);
    } else {
        text::push_char(out, c);
    }
}

fn push_escaped_chars(out: &mut String, s: &[char])
    ensures
        final(out)@ == old(out)@ + xml_escape(s@),
{
    let mut i: usize = 0;
    while i < s.len()
        invariant
            i <= s.len(),
            out@ == old(out)@ + xml_escape(s@.subrange(0, i as int)),
        decreases s.len() - i,
    {
        push_escaped_char(out, s[i]);
        proof {
            let pre = s@.subrange(0, i as int);
            let post = s@.subrange(0, i + 1);
            assert(post.drop_last() == pre);
        }
        i = i + 1;
    }
    assert(s@.subrange(0, s.len() as int) == s@);
}

/// Escape `s` for XML text, appending into `out`.
pub fn xml_escape_into(out: &mut String, s: &str)
    ensures
        final(out)@ == old(out)@ + xml_escape(s@),
{
    let v = text::chars_of(s);
    push_escaped_chars(out, v.as_slice());
}

/// First line of `s`.
pub fn first_line(s: &str) -> (r: String)
    ensures
        r@ == first_line_of(s@),
{
    let v = text::chars_of(s);
    let end = match text::first_index_of(v.as_slice(), '\n') {
        Some(i) => i,
        None => v.len(),
    };
    proof {
        s@.index_of_first_ensures('\n');
        if end == v.len() {
            assert(v@.subrange(0, end as int) == v@);
        }
    }
    let mut l = text::slice_of(v.as_slice(), 0, end);
    if end < v.len() && l.len() > 0 && l[l.len() - 1] == '\r' {
        l.pop();
        proof {
            assert(l@ == s@.subrange(0, end as int).drop_last());
        }
    }
    text::string_from(l.as_slice())
}

proof fn lemma_cdata_step(s: Seq<char>, i: int)
    requires
        text::find(s, "]]>"@) == Some(i),
    ensures
        0 <= i,
        i + 3 <= s.len(),
        cdata_body(s) == s.subrange(0, i) + "]]]]><![CDATA[>"@ + cdata_body(
            s.subrange(i + 3, s.len() as int),
        ),
{
    reveal_strlit("]]>");
    text::lemma_find_from_bounds(s, "]]>"@, 0);
}

/// Emit `body` wrapped in CDATA, splitting any literal `]]>`.
pub fn write_cdata(out: &mut String, body: &str)
    ensures
        final(out)@ == old(out)@ + cdata(body@),
{
    text::push_str(out, "<![CDATA[");
    let v = text::chars_of(body);
    let pat = text::chars_of("]]>");
    let mut start: usize = 0;
    let ghost base = out@;
    proof {
        assert(v@.subrange(0, v@.len() as int) == v@);
    }
    loop
        invariant_except_break
            start <= v.len(),
            pat@ == "]]>"@,
            base == old(out)@ + "<![CDATA["@,
            base + cdata_body(v@) == out@ + cdata_body(v@.subrange(start as int, v.len() as int)),
        ensures
            base == old(out)@ + "<![CDATA["@,
            base + cdata_body(v@) == out@,
        decreases v.len() - start,
    {
        let rest = text::slice_of(v.as_slice(), start, v.len());
        match text::find_chars(rest.as_slice(), pat.as_slice()) {
            Some(idx) => {
                proof {
                    lemma_cdata_step(rest@, idx as int);
                    reveal_strlit("]]>");
                }
                let head = text::slice_of(rest.as_slice(), 0, idx);
                text::push_chars(out, head.as_slice());
                text::push_str(out, "]]]]><![CDATA[>");
                proof {
                    assert(rest@.subrange(idx + 3, rest@.len() as int) == v@.subrange(
                        start + idx + 3,
                        v.len() as int,
                    ));
                }
                start = start + idx + 3;
            },
            None => {
                assert(cdata_body(rest@) == rest@);
                text::push_chars(out, rest.as_slice());
                break ;
            },
        }
    }
    text::push_str(out, "]]>");
}

/// The file name without its last extension (whole name if the stem would
/// be empty).
pub fn classname_for(file: &str) -> (r: String)
    ensures
        r@ == classname(file@),
{
    let v = text::chars_of(file);
    let mut j = v.len();
    while j > 0 && v[j - 1] != '.'
        invariant
            j <= v.len(),
            forall|m: int| j <= m < v.len() ==> v@[m] != '.',
        decreases j,
    {
        j = j - 1;
    }
    proof {
        v@.index_of_last_ensures('.');
        if j > 0 {
            assert(v@.contains('.'));
            assert(v@.index_of_last('.') == Some(j - 1));
        } else {
            assert(!v@.contains('.'));
        }
    }
    if j > 1 {
        let stem = text::slice_of(v.as_slice(), 0, j - 1);
        text::string_from(stem.as_slice())
    } else {
        text::owned(file)
    }
}

/// Test-case name; bumps `anon_idx` for every anonymous case so that two
/// anonymous tests on the same line get distinct names.
pub fn case_name(test: Option<&str>, line: Option<u32>, anon_idx: &mut u32) -> (r: String)
    requires
        test.is_none() || test.unwrap()@.len() == 0 ==> *old(anon_idx) < u32::MAX,
    ensures
        (test matches Some(t) && t@.len() > 0) ==> r@ == test.unwrap()@ && *final(anon_idx)
            == *old(anon_idx),
        !(test matches Some(t) && t@.len() > 0) ==> *final(anon_idx) == *old(anon_idx) + 1
            && r@ == case_name_spec(Seq::empty(), line, *final(anon_idx) as nat),
{
    if let Some(t) = test {
        if !t.is_empty() {
            return text::owned(t);
        }
    }
    *anon_idx = *anon_idx + 1;
    let mut s = String::new();
    match line {
        Some(l) => {
            text::push_str(&mut s, "anon line ");
            text::push_dec(&mut s, l as u64);
            text::push_str(&mut s, " #");
            text::push_dec(&mut s, *anon_idx as u64);
        },
        None => {
            text::push_str(&mut s, "anon #");
            text::push_dec(&mut s, *anon_idx as u64);
        },
    }
    s
}

/// Appends `ms` rendered as seconds with three decimals.
pub fn push_secs(out: &mut String, ms: u64)
    ensures
        final(out)@ == old(out)@ + secs_text(ms as nat),
{
    text::push_dec(out, ms / 1000);
    text::push_char(out, '.');
    let r = ms % 1000;
    text::push_char(out, text::digit_char(r / 100));
    text::push_char(out, text::digit_char((r / 10) % 10));
    text::push_char(out, text::digit_char(r % 10));
    proof {
        reveal_strlit(".");
        assert("."@ == seq!['.']);
    }
}

/// `ms` rendered as seconds with three decimals (e.g. 42 → `0.042`).
pub fn secs_string(ms: u64) -> (s: String)
    ensures
        s@ == secs_text(ms as nat),
{
    let mut s = String::new();
    push_secs(&mut s, ms);
    s
}

fn push_testcase_open(out: &mut String, cls: &str, name: &str)
    ensures
        final(out)@ == old(out)@ + "    <testcase classname=\""@ + xml_escape(cls@)
            + "\" name=\""@ + xml_escape(name@),
{
    text::push_str(out, "    <testcase classname=\"");
    xml_escape_into(out, cls);
    text::push_str(out, "\" name=\"");
    xml_escape_into(out, name);
}

fn write_failure_or_error(out: &mut String, cls: &str, name: &str, ms: u64, tag: &str, body: &str)
    ensures
        final(out)@ == old(out)@ + failure_xml(cls@, name@, secs_text(ms as nat), tag@, body@),
{
    push_testcase_open(out, cls, name);
    text::push_str(out, "\" time=\"");
    push_secs(out, ms);
    text::push_str(out, "\">\n      <");
    text::push_str(out, tag);
    text::push_str(out, " message=\"");
    let fl = first_line(body);
    xml_escape_into(out, fl.as_str());
    text::push_str(out, "\" type=\"");
    text::push_str(out, tag);
    text::push_str(out, "\">");
    write_cdata(out, body);
    text::push_str(out, "</");
    text::push_str(out, tag);
    text::push_str(out, ">\n    </testcase>\n");
}

/// Emit a `<testcase>` with a `<skipped>` child; a non-empty
/// `attr_message_override` replaces the body's first line in the attribute.
pub fn write_skipped(out: &mut String, cls: &str, name: &str, body: &str, attr_message_override: &str)
    ensures
        final(out)@ == old(out)@ + skipped_xml(
            cls@,
            name@,
            if attr_message_override@.len() == 0 {
                first_line_of(body@)
            } else {
                attr_message_override@
            },
        ),
{
    push_testcase_open(out, cls, name);
    text::push_str(out, "\" time=\"0.000\">\n      <skipped message=\"");
    if attr_message_override.is_empty() {
        let fl = first_line(body);
        xml_escape_into(out, fl.as_str());
    } else {
        xml_escape_into(out, attr_message_override);
    }
    text::push_str(out, "\"/>\n    </testcase>\n");
}

fn push_case(out: &mut String, cls: &str, e: &Event, name: &str)
    ensures
        final(out)@ == old(out)@ + case_xml(cls@, *e, name@),
{
    let body: &str = match &e.message {
        Some(m) => m.as_str(),
        None => "",
    };
    assert(body@ == body_of(*e)) by {
        reveal_strlit("");
    }
    match e.outcome {
        Outcome::Pass => {
            push_testcase_open(out, cls, name);
            text::push_str(out, "\" time=\"");
            push_secs(out, e.duration_ms);
            text::push_str(out, "\"/>\n");
        },
        Outcome::Fail => write_failure_or_error(out, cls, name, e.duration_ms, "failure", body),
        Outcome::Error => write_failure_or_error(out, cls, name, e.duration_ms, "error", body),
        Outcome::Skip => {
            write_skipped(out, cls, name, body, "");
            assert(""@.len() == 0) by {
                reveal_strlit("");
            }
        },
        Outcome::Xfail => {
            write_skipped(out, cls, name, body, "expected");
            assert("expected"@.len() != 0) by {
                reveal_strlit("expected");
            }
        },
        Outcome::Warn => {
            assert(old(out)@ + Seq::<char>::empty() == old(out)@);
        },
    }
}

/// The rendered `<testsuite>` element and its counts.
#[derive(Debug)]
pub struct RenderedSuite {
    pub xml: String,
    pub counts: Counts,
}

proof fn lemma_anon_count_le(m: Seq<Message>)
    ensures
        anon_count(m) <= m.len(),
    decreases m.len(),
{
    if m.len() > 0 {
        lemma_anon_count_le(m.drop_last());
    }
}

/// Render one file's `<testsuite>` element.
pub fn render_suite(file: &str, messages: &[Message], is_flaky: bool) -> (r: RenderedSuite)
    requires
        messages@.len() < u32::MAX,
    ensures
        r.counts == suite_counts(messages@),
        r.xml@ == suite_xml(file@, messages@, is_flaky),
{
    let cls = classname_for(file);
    let mut counts = Counts { tests: 0, failures: 0, errors: 0, skipped: 0 };
    let mut cases = String::new();
    let mut anon_idx: u32 = 0;
    let mut summary: u64 = 0;
    let mut i: usize = 0;
    while i < messages.len()
        invariant
            i <= messages.len() < u32::MAX,
            counts == suite_counts(messages@.subrange(0, i as int)),
            anon_idx == anon_count(messages@.subrange(0, i as int)),
            summary == summary_ms(messages@.subrange(0, i as int)),
            cases@ == cases_xml(cls@, messages@.subrange(0, i as int)),
            cls@ == classname(file@),
        decreases messages.len() - i,
    {
        let ghost pre = messages@.subrange(0, i as int);
        let ghost post = messages@.subrange(0, i + 1);
        proof {
            assert(post.drop_last() == pre);
            crate::protocol::lemma_count_events_le_len(pre, Outcome::Pass);
            crate::protocol::lemma_count_events_le_len(pre, Outcome::Fail);
            crate::protocol::lemma_count_events_le_len(pre, Outcome::Error);
            crate::protocol::lemma_count_events_le_len(pre, Outcome::Skip);
            crate::protocol::lemma_count_events_le_len(pre, Outcome::Xfail);
            lemma_anon_count_le(pre);
            lemma_total_events_le(pre);
        }
        match &messages[i] {
            Message::Event(e) => {
                let test_name: Option<&str> = if e.subject.name.as_str().is_empty() {
                    None
                } else {
                    Some(e.subject.name.as_str())
                };
                let name = case_name(test_name, e.line, &mut anon_idx);
                push_case(&mut cases, cls.as_str(), e, name.as_str());
                match e.outcome {
                    Outcome::Pass => {
                        counts.tests = counts.tests + 1;
                    },
                    Outcome::Fail => {
                        counts.tests = counts.tests + 1;
                        counts.failures = counts.failures + 1;
                    },
                    Outcome::Error => {
                        counts.tests = counts.tests + 1;
                        counts.errors = counts.errors + 1;
                    },
                    Outcome::Skip | Outcome::Xfail => {
                        counts.tests = counts.tests + 1;
                        counts.skipped = counts.skipped + 1;
                    },
                    Outcome::Warn => {},
                }
            },
            Message::Summary(s) => {
                summary = s.duration_ms;
            },
            _ => {},
        }
        i = i + 1;
    }
    assert(messages@.subrange(0, messages.len() as int) == messages@);
    let mut xml = String::new();
    text::push_str(&mut xml, "  <testsuite name=\"");
    xml_escape_into(&mut xml, file);
    text::push_str(&mut xml, "\" tests=\"");
    text::push_dec(&mut xml, counts.tests as u64);
    text::push_str(&mut xml, "\" failures=\"");
    text::push_dec(&mut xml, counts.failures as u64);
    text::push_str(&mut xml, "\" errors=\"");
    text::push_dec(&mut xml, counts.errors as u64);
    text::push_str(&mut xml, "\" skipped=\"");
    text::push_dec(&mut xml, counts.skipped as u64);
    text::push_str(&mut xml, "\" time=\"");
    push_secs(&mut xml, summary);
    text::push_str(&mut xml, "\">\n");
    if is_flaky {
        text::push_str(
            &mut xml,
            "    <properties>\n      <property name=\"scrutin.flaky\" value=\"true\"/>\n    </properties>\n",
        );
    } else {
        assert(xml@ + Seq::<char>::empty() == xml@);
    }
    text::push_str(&mut xml, cases.as_str());
    text::push_str(&mut xml, "  </testsuite>\n");
    RenderedSuite { xml, counts }
}

proof fn lemma_total_events_le(m: Seq<Message>)
    ensures
        count_events(m, Outcome::Pass) + count_events(m, Outcome::Fail) + count_events(
            m,
            Outcome::Error,
        ) + count_events(m, Outcome::Skip) + count_events(m, Outcome::Xfail) + count_events(
            m,
            Outcome::Warn,
        ) <= m.len(),
    decreases m.len(),
{
    if m.len() > 0 {
        lemma_total_events_le(m.drop_last());
    }
}

// ── Whole report ────────────────────────────────────────────────────────────

/// Sum of the suite counts of `suites`.
pub open spec fn total_counts(suites: Seq<(String, Vec<Message>)>) -> Counts
    decreases suites.len(),
{
    if suites.len() == 0 {
        Counts { tests: 0, failures: 0, errors: 0, skipped: 0 }
    } else {
        added(total_counts(suites.drop_last()), suite_counts(suites.last().1@))
    }
}

/// Total number of messages across `suites`.
pub open spec fn total_messages(suites: Seq<(String, Vec<Message>)>) -> nat
    decreases suites.len(),
{
    if suites.len() == 0 {
        0
    } else {
        total_messages(suites.drop_last()) + suites.last().1@.len()
    }
}

/// The concatenated `<testsuite>` elements.
pub open spec fn suites_xml(suites: Seq<(String, Vec<Message>)>, flaky: Seq<String>) -> Seq<char>
    decreases suites.len(),
{
    if suites.len() == 0 {
        Seq::empty()
    } else {
        suites_xml(suites.drop_last(), flaky) + suite_xml(
            suites.last().0@,
            suites.last().1@,
            flaky.map_values(|f: String| f@).contains(suites.last().0@),
        )
    }
}

/// The `<properties>` block for run metadata pairs (empty when there are none).
pub open spec fn property_lines(pairs: Seq<(Seq<char>, Seq<char>)>) -> Seq<char>
    decreases pairs.len(),
{
    if pairs.len() == 0 {
        Seq::empty()
    } else {
        property_lines(pairs.drop_last()) + "    <property name=\""@ + xml_escape(pairs.last().0)
            + "\" value=\""@ + xml_escape(pairs.last().1) + "\"/>\n"@
    }
}

/// The whole JUnit document.
pub open spec fn report_xml(
    suites: Seq<(String, Vec<Message>)>,
    time: Seq<char>,
    flaky: Seq<String>,
    props: Option<Seq<(Seq<char>, Seq<char>)>>,
) -> Seq<char> {
    let t = total_counts(suites);
    "<?xml version=\"1.0\" encoding=\"UTF-8\"?>\n"@ + "<testsuites name=\"scrutin\" tests=\""@
        + text::dec(t.tests as nat) + "\" failures=\""@ + text::dec(t.failures as nat)
        + "\" errors=\""@ + text::dec(t.errors as nat) + "\" skipped=\""@ + text::dec(
        t.skipped as nat,
    ) + "\" time=\""@ + time + "\">\n"@ + match props {
        Some(p) => "  <properties>\n"@ + property_lines(p) + "  </properties>\n"@,
        None => Seq::empty(),
    } + suites_xml(suites, flaky) + "</testsuites>\n"@
}

proof fn lemma_total_counts_bound(suites: Seq<(String, Vec<Message>)>)
    requires
        total_messages(suites) < u32::MAX,
    ensures
        total_counts(suites).tests <= total_messages(suites),
        total_counts(suites).failures <= total_counts(suites).tests,
        total_counts(suites).errors <= total_counts(suites).tests,
        total_counts(suites).skipped <= total_counts(suites).tests,
    decreases suites.len(),
{
    if suites.len() > 0 {
        lemma_total_counts_bound(suites.drop_last());
        lemma_total_events_le(suites.last().1@);
    }
}

fn contains_string(v: &[String], s: &str) -> (r: bool)
    ensures
        r == v@.map_values(|f: String| f@).contains(s@),
{
    let ghost names = v@.map_values(|f: String| f@);
    let mut i: usize = 0;
    while i < v.len()
        invariant
            i <= v.len(),
            names == v@.map_values(|f: String| f@),
            forall|k: int| 0 <= k < i ==> names[k] != s@,
        decreases v.len() - i,
    {
        if text::str_eq(v[i].as_str(), s) {
            assert(names[i as int] == s@);
            return true;
        }
        i = i + 1;
    }
    proof {
        if names.contains(s@) {
            let k = choose|k: int| 0 <= k < names.len() && names[k] == s@;
            assert(names[k] == s@);
        }
    }
    false
}

/// Render a JUnit document for every file's results. `total_time` is the
/// run's wall time already rendered for the `time` attribute; files named
/// in `flaky_files` get a `scrutin.flaky` property; non-empty `metadata`
/// becomes a `<properties>` block.
pub fn render_report(
    suites: &[(String, Vec<Message>)],
    total_time: &str,
    flaky_files: &[String],
    metadata: Option<&RunMetadata>,
) -> (r: String)
    requires
        total_messages(suites@) < u32::MAX,
        metadata matches Some(md) ==> md.wf(),
    ensures
        r@ == report_xml(
            suites@,
            total_time@,
            flaky_files@,
            match metadata {
                Some(md) => if md.is_empty_spec() { None } else { Some(metadata_pairs(*md)) },
                None => None,
            },
        ),
{
    let mut totals = Counts { tests: 0, failures: 0, errors: 0, skipped: 0 };
    let mut rendered = String::new();
    let mut i: usize = 0;
    while i < suites.len()
        invariant
            i <= suites.len(),
            total_messages(suites@) < u32::MAX,
            totals == total_counts(suites@.subrange(0, i as int)),
            rendered@ == suites_xml(suites@.subrange(0, i as int), flaky_files@),
        decreases suites.len() - i,
    {
        let ghost pre = suites@.subrange(0, i as int);
        let ghost post = suites@.subrange(0, i + 1);
        proof {
            assert(post.drop_last() == pre);
            lemma_total_messages_prefix(suites@, i as int + 1);
            lemma_total_counts_bound(post);
            lemma_total_counts_bound(pre);
        }
        assert(post.last() == suites@[i as int]);
        proof {
            lemma_total_events_le(suites@[i as int].1@);
        }
        let file = &suites[i].0;
        let msgs = &suites[i].1;
        let flaky = contains_string(flaky_files, file.as_str());
        let suite = render_suite(file.as_str(), msgs.as_slice(), flaky);
        totals.add_assign(suite.counts);
        text::push_str(&mut rendered, suite.xml.as_str());
        i = i + 1;
    }
    assert(suites@.subrange(0, suites.len() as int) == suites@);
    let mut out = String::new();
    text::push_str(&mut out, "<?xml version=\"1.0\" encoding=\"UTF-8\"?>\n");
    text::push_str(&mut out, "<testsuites name=\"scrutin\" tests=\"");
    text::push_dec(&mut out, totals.tests as u64);
    text::push_str(&mut out, "\" failures=\"");
    text::push_dec(&mut out, totals.failures as u64);
    text::push_str(&mut out, "\" errors=\"");
    text::push_dec(&mut out, totals.errors as u64);
    text::push_str(&mut out, "\" skipped=\"");
    text::push_dec(&mut out, totals.skipped as u64);
    text::push_str(&mut out, "\" time=\"");
    text::push_str(&mut out, total_time);
    text::push_str(&mut out, "\">\n");
    let ghost head = out@;
    match metadata {
        Some(md) => {
            if !md.is_empty() {
                let pairs = md.iter();
                text::push_str(&mut out, "  <properties>\n");
                let ghost start = out@;
                let mut k: usize = 0;
                while k < pairs.len()
                    invariant
                        k <= pairs.len(),
                        out@ == start + property_lines(
                            pairs@.subrange(0, k as int).map_values(
                                |p: (String, String)| (p.0@, p.1@),
                            ),
                        ),
                    decreases pairs.len() - k,
                {
                    text::push_str(&mut out, "    <property name=\"");
                    xml_escape_into(&mut out, pairs[k].0.as_str());
                    text::push_str(&mut out, "\" value=\"");
                    xml_escape_into(&mut out, pairs[k].1.as_str());
                    text::push_str(&mut out, "\"/>\n");
                    proof {
                        let a = pairs@.subrange(0, k as int).map_values(
                            |p: (String, String)| (p.0@, p.1@),
                        );
                        let b = pairs@.subrange(0, k + 1).map_values(
                            |p: (String, String)| (p.0@, p.1@),
                        );
                        assert(b.drop_last() == a);
                    }
                    k = k + 1;
                }
                assert(pairs@.subrange(0, pairs.len() as int) == pairs@);
                text::push_str(&mut out, "  </properties>\n");
            } else {
                assert(out@ + Seq::<char>::empty() == out@);
            }
        },
        None => {
            assert(out@ + Seq::<char>::empty() == out@);
        },
    }
    text::push_str(&mut out, rendered.as_str());
    text::push_str(&mut out, "</testsuites>\n");
    out
}

proof fn lemma_total_messages_prefix(suites: Seq<(String, Vec<Message>)>, n: int)
    requires
        0 <= n <= suites.len(),
    ensures
        total_messages(suites.subrange(0, n)) <= total_messages(suites),
    decreases suites.len(),
{
    if n < suites.len() {
        assert(suites.drop_last().subrange(0, n) == suites.subrange(0, n));
        lemma_total_messages_prefix(suites.drop_last(), n);
    } else {
        assert(suites.subrange(0, n) == suites);
    }
}

} // verus!
