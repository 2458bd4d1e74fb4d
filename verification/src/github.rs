//! The GitHub Actions log layout of one file's results: a
//! `::group::` block with `::error` / `::warning` annotations.
use vstd::prelude::*;

use crate::cli::{escape, gha_escaped};
use crate::protocol::{
    display_body_of, display_name_of, events_of, process_events, Event, FileStatus, FileTally,
    Message, Outcome, ProcessedEvent,
};
use crate::text;
use crate::text::{dec, lines_of, str_views};

verus! {

/// The status word of a file's group header.
pub open spec fn status_word(t: FileTally) -> Seq<char> {
    if t.status == FileStatus::Cancelled {
        "CNCL"@
    } else if t.bad {
        "FAIL"@
    } else if t.warned {
        "WARN"@
    } else {
        "OK"@
    }
}

/// ` (<ms>ms)` when the file took measurable time, else nothing.
pub open spec fn duration_part(ms: u64) -> Seq<char> {
    if ms > 0 {
        " ("@ + dec(ms as nat) + "ms)"@
    } else {
        Seq::empty()
    }
}

/// `,line=<n>` when the event has a line.
pub open spec fn line_part(line: Option<u32>) -> Seq<char> {
    match line {
        Some(l) => ",line="@ + dec(l as nat),
        None => Seq::empty(),
    }
}

/// The first line of `msg`, empty when it has none.
pub open spec fn first_line_or_empty(msg: Seq<char>) -> Seq<char> {
    if lines_of(msg).len() > 0 {
        lines_of(msg)[0]
    } else {
        Seq::empty()
    }
}

/// An annotation line: `::<kind> file=<path>[,line=<n>]::<name> > <first line>`.
pub open spec fn annotation(kind: Seq<char>, rel_path: Seq<char>, name: Seq<char>, msg: Seq<char>, line: Option<u32>) -> Seq<char> {
    "::"@ + kind + " file="@ + rel_path + line_part(line) + "::"@ + name + " > "@ + gha_escaped(first_line_or_empty(msg))
}

/// Every line of `msg`, indented by two spaces.
pub open spec fn indented(msg: Seq<char>) -> Seq<Seq<char>> {
    lines_of(msg).map_values(|l: Seq<char>| "  "@ + l)
}

/// The log lines of one event.
pub open spec fn event_lines(rel_path: Seq<char>, e: Event) -> Seq<Seq<char>> {
    let name = display_name_of(e.subject.name@);
    let msg = display_body_of(e);
    match e.outcome {
        Outcome::Fail | Outcome::Error => seq![annotation("error"@, rel_path, name, msg, e.line)] + indented(msg),
        Outcome::Warn => seq![annotation("warning"@, rel_path, name, msg, e.line)],
        Outcome::Skip => seq!["  skip  "@ + name],
        Outcome::Xfail => seq!["  xfail  "@ + name],
        Outcome::Pass => seq!["  pass  "@ + name + " ("@ + dec(e.duration_ms as nat) + "ms)"@],
    }
}

/// The log lines of a run of events, in order.
pub open spec fn events_lines(rel_path: Seq<char>, evs: Seq<Event>) -> Seq<Seq<char>>
    decreases evs.len(),
{
    if evs.len() == 0 {
        Seq::empty()
    } else {
        events_lines(rel_path, evs.drop_last()) + event_lines(rel_path, evs.last())
    }
}

/// The whole group of one file: header, its events' lines, closing line.
pub open spec fn group_lines(file_name: Seq<char>, rel_path: Seq<char>, m: Seq<Message>, t: FileTally) -> Seq<Seq<char>> {
    seq!["::group::"@ + status_word(t) + " "@ + file_name + duration_part(t.duration_ms)] + events_lines(
        rel_path,
        events_of(m),
    ) + seq!["::endgroup::"@]
}

fn first_line_exec(msg: &str) -> (r: String)
    ensures
        r@ == first_line_or_empty(msg@),
{
    let c = text::chars_of(msg);
    let ls = text::lines_chars(c.as_slice());
    proof {
        assert(text::char_views(ls@).len() == ls@.len());
    }
    if ls.len() > 0 {
        proof {
            assert(text::char_views(ls@)[0] == ls@[0]@);
        }
        text::string_from(ls[0].as_slice())
    } else {
        String::new()
    }
}

fn annotation_exec(kind: &str, rel_path: &str, name: &str, msg: &str, line: Option<u32>) -> (r: String)
    ensures
        r@ == annotation(kind@, rel_path@, name@, msg@, line),
{
    let mut s = text::owned("::");
    text::push_str(&mut s, kind);
    text::push_str(&mut s, " file=");
    text::push_str(&mut s, rel_path);
    match line {
        Some(l) => {
            text::push_str(&mut s, ",line=");
            text::push_dec(&mut s, l as u64);
        },
        None => {},
    }
    text::push_str(&mut s, "::");
    text::push_str(&mut s, name);
    text::push_str(&mut s, " > ");
    let first = first_line_exec(msg);
    let esc = escape(first.as_str());
    text::push_str(&mut s, esc.as_str());
    proof {
        reveal_strlit("::");
        reveal_strlit(" file=");
        reveal_strlit(",line=");
        reveal_strlit(" > ");
        assert(s@ =~= annotation(kind@, rel_path@, name@, msg@, line));
    }
    s
}

fn push_indented(out: &mut Vec<String>, msg: &str)
    ensures
        str_views(final(out)@) == str_views(old(out)@) + indented(msg@),
{
    let c = text::chars_of(msg);
    let ls = text::lines_chars(c.as_slice());
    let ghost lv = text::char_views(ls@);
    let mut i: usize = 0;
    while i < ls.len()
        invariant
            i <= ls@.len(),
            lv == text::char_views(ls@),
            lv == lines_of(msg@),
            str_views(out@) == str_views(old(out)@) + lv.subrange(0, i as int).map_values(
                |l: Seq<char>| "  "@ + l,
            ),
        decreases ls@.len() - i,
    {
        let mut s = text::owned("  ");
        text::push_chars(&mut s, ls[i].as_slice());
        let ghost before = str_views(out@);
        out.push(s);
        proof {
            assert(lv[i as int] == ls@[i as int]@);
            assert(str_views(out@) =~= before.push(s@));
            assert(lv.subrange(0, i + 1).map_values(|l: Seq<char>| "  "@ + l) =~= lv.subrange(
                0,
                i as int,
            ).map_values(|l: Seq<char>| "  "@ + l).push("  "@ + lv[i as int]));
        }
        i = i + 1;
    }
    proof {
        assert(lv.subrange(0, lv.len() as int) =~= lv);
    }
}

fn push_event_lines(out: &mut Vec<String>, rel_path: &str, ev: &ProcessedEvent, Ghost(e): Ghost<Event>)
    requires
        crate::protocol::processed_matches(*ev, e),
    ensures
        str_views(final(out)@) == str_views(old(out)@) + event_lines(rel_path@, e),
{
    let ghost name = display_name_of(e.subject.name@);
    let ghost msg = display_body_of(e);
    match ev.outcome {
        Outcome::Fail | Outcome::Error => {
            let a = annotation_exec("error", rel_path, ev.name.as_str(), ev.message.as_str(), ev.line);
            let ghost before = str_views(out@);
            out.push(a);
            proof {
                reveal_strlit("error");
                assert(str_views(out@) =~= before + seq![annotation("error"@, rel_path@, name, msg, e.line)]);
            }
            push_indented(out, ev.message.as_str());
            proof {
                assert(str_views(out@) =~= before + event_lines(rel_path@, e));
            }
        },
        Outcome::Warn => {
            let a = annotation_exec("warning", rel_path, ev.name.as_str(), ev.message.as_str(), ev.line);
            let ghost before = str_views(out@);
            out.push(a);
            proof {
                reveal_strlit("warning");
                assert(str_views(out@) =~= before + event_lines(rel_path@, e));
            }
        },
        Outcome::Skip => {
            let mut s = text::owned("  skip  ");
            text::push_str(&mut s, ev.name.as_str());
            let ghost before = str_views(out@);
            out.push(s);
            proof {
                assert(str_views(out@) =~= before + event_lines(rel_path@, e));
            }
        },
        Outcome::Xfail => {
            let mut s = text::owned("  xfail  ");
            text::push_str(&mut s, ev.name.as_str());
            let ghost before = str_views(out@);
            out.push(s);
            proof {
                assert(str_views(out@) =~= before + event_lines(rel_path@, e));
            }
        },
        Outcome::Pass => {
            let mut s = text::owned("  pass  ");
            text::push_str(&mut s, ev.name.as_str());
            text::push_str(&mut s, " (");
            text::push_dec(&mut s, ev.duration_ms);
            text::push_str(&mut s, "ms)");
            let ghost before = str_views(out@);
            out.push(s);
            proof {
                assert(str_views(out@) =~= before + event_lines(rel_path@, e));
            }
        },
    }
}

/// The GitHub Actions log lines of one file (see [`group_lines`]), given
/// its display name, its path relative to the project root, its messages
/// and their tally.
pub fn render_file(file_name: &str, rel_path: &str, messages: &[Message], tally: &FileTally) -> (r: Vec<String>)
    ensures
        str_views(r@) == group_lines(file_name@, rel_path@, messages@, *tally),
{
    let mut out: Vec<String> = Vec::new();
    let status: &str = if matches!(tally.status, FileStatus::Cancelled) {
        "CNCL"
    } else if tally.bad {
        "FAIL"
    } else if tally.warned {
        "WARN"
    } else {
        "OK"
    };
    let mut head = text::owned("::group::");
    text::push_str(&mut head, status);
    text::push_str(&mut head, " ");
    text::push_str(&mut head, file_name);
    if tally.duration_ms > 0 {
        text::push_str(&mut head, " (");
        text::push_dec(&mut head, tally.duration_ms);
        text::push_str(&mut head, "ms)");
    }
    proof {
        assert(head@ =~= "::group::"@ + status_word(*tally) + " "@ + file_name@ + duration_part(tally.duration_ms));
    }
    out.push(head);
    let evs = process_events(messages);
    let ghost ev_spec = events_of(messages@);
    let ghost head_v = str_views(out@);
    let mut i: usize = 0;
    while i < evs.len()
        invariant
            i <= evs@.len(),
            evs@.len() == ev_spec.len(),
            ev_spec == events_of(messages@),
            forall|k: int| 0 <= k < evs@.len() ==> crate::protocol::processed_matches(#[trigger] evs@[k], ev_spec[k]),
            str_views(out@) == head_v + events_lines(rel_path@, ev_spec.subrange(0, i as int)),
        decreases evs@.len() - i,
    {
        push_event_lines(&mut out, rel_path, &evs[i], Ghost(ev_spec[i as int]));
        proof {
            let s = ev_spec.subrange(0, i + 1);
            assert(s.drop_last() =~= ev_spec.subrange(0, i as int));
            assert(s.last() == ev_spec[i as int]);
        }
        i = i + 1;
    }
    proof {
        assert(ev_spec.subrange(0, ev_spec.len() as int) =~= ev_spec);
    }
    let ghost mid = str_views(out@);
    out.push(text::owned("::endgroup::"));
    proof {
        assert(str_views(out@) =~= mid.push("::endgroup::"@));
        assert(str_views(out@) =~= group_lines(file_name@, rel_path@, messages@, *tally));
    }
    out
}

} // verus!
