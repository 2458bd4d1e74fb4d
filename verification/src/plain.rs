//! The plain reporter's end-of-run findings block: failures and warnings
//! grouped by file, one header line each, message lines indented.
use vstd::prelude::*;

use crate::protocol::Finding;
use crate::text;
use crate::text::{dec, lex_lt, lines_of, str_views};

verus! {

/// Whether a finding is a failure or a warning.
#[derive(Clone, Copy, Debug, PartialEq, Eq, Structural)]
pub enum FindingKind {
    Failure,
    Warning,
}

/// The label printed before a finding.
pub open spec fn kind_label(k: FindingKind) -> Seq<char> {
    match k {
        FindingKind::Failure => "FAIL"@,
        FindingKind::Warning => "WARN"@,
    }
}

impl FindingKind {
    /// `FAIL` or `WARN`.
    pub fn label(self) -> (r: &'static str)
        ensures
            r@ == kind_label(self),
    {
        proof {
            reveal_strlit("FAIL");
            reveal_strlit("WARN");
        }
        match self {
            FindingKind::Failure => "FAIL",
            FindingKind::Warning => "WARN",
        }
    }
}

/// Failures, then warnings, each tagged with its kind.
pub open spec fn tagged(failed: Seq<Finding>, warned: Seq<Finding>) -> Seq<(Finding, FindingKind)> {
    failed.map_values(|f: Finding| (f, FindingKind::Failure)) + warned.map_values(
        |w: Finding| (w, FindingKind::Warning),
    )
}

/// `x` placed into `s` behind every entry whose file does not sort after
/// its own (one step of a stable insertion sort by file name).
pub open spec fn insert_by_file(s: Seq<(Finding, FindingKind)>, x: (Finding, FindingKind)) -> Seq<
    (Finding, FindingKind),
>
    decreases s.len(),
{
    if s.len() == 0 {
        seq![x]
    } else if lex_lt(x.0.file@, s.last().0.file@) {
        insert_by_file(s.drop_last(), x).push(s.last())
    } else {
        s.push(x)
    }
}

/// `s` stably sorted by file name: entries of one file keep their order.
pub open spec fn sort_by_file(s: Seq<(Finding, FindingKind)>) -> Seq<(Finding, FindingKind)>
    decreases s.len(),
{
    if s.len() == 0 {
        s
    } else {
        insert_by_file(sort_by_file(s.drop_last()), s.last())
    }
}

/// `file:line`, or the file alone.
pub open spec fn location(d: Finding) -> Seq<char> {
    match d.line {
        Some(l) => d.file@ + ":"@ + dec(l as nat),
        None => d.file@,
    }
}

/// The lines of one finding; a blank line first when it starts a new
/// file after another file's findings.
pub open spec fn item_lines(prev_file: Option<Seq<char>>, x: (Finding, FindingKind)) -> Seq<Seq<char>> {
    let d = x.0;
    let sep: Seq<Seq<char>> = match prev_file {
        Some(p) => if p != d.file@ {
            seq![Seq::<char>::empty()]
        } else {
            Seq::empty()
        },
        None => Seq::empty(),
    };
    sep + seq![kind_label(x.1) + " "@ + location(d) + " > "@ + d.test@] + lines_of(d.message@).map_values(
        |l: Seq<char>| "  "@ + l,
    )
}

/// The lines of a run of findings, in order.
pub open spec fn items_lines(s: Seq<(Finding, FindingKind)>) -> Seq<Seq<char>>
    decreases s.len(),
{
    if s.len() == 0 {
        Seq::empty()
    } else {
        let prev = if s.len() > 1 {
            Some(s[s.len() - 2].0.file@)
        } else {
            None
        };
        items_lines(s.drop_last()) + item_lines(prev, s.last())
    }
}

/// The findings block: nothing when there are no findings, else a blank
/// line and the findings sorted by file.
pub open spec fn findings_block(failed: Seq<Finding>, warned: Seq<Finding>) -> Seq<Seq<char>> {
    let s = sort_by_file(tagged(failed, warned));
    if s.len() == 0 {
        Seq::empty()
    } else {
        seq![Seq::<char>::empty()] + items_lines(s)
    }
}

proof fn lemma_insert_at(s: Seq<(Finding, FindingKind)>, x: (Finding, FindingKind), p: int)
    requires
        0 <= p <= s.len(),
        forall|k: int| p <= k < s.len() ==> lex_lt(x.0.file@, #[trigger] s[k].0.file@),
        p == 0 || !lex_lt(x.0.file@, s[p - 1].0.file@),
    ensures
        insert_by_file(s, x) == s.insert(p, x),
    decreases s.len(),
{
    if s.len() == 0 {
        assert(s.insert(p, x) =~= seq![x]);
    } else if p == s.len() {
        assert(s.insert(p, x) =~= s.push(x));
    } else {
        let t = s.drop_last();
        assert(lex_lt(x.0.file@, s[s.len() - 1].0.file@));
        assert forall|k: int| p <= k < t.len() implies lex_lt(x.0.file@, #[trigger] t[k].0.file@) by {
            assert(t[k] == s[k]);
        }
        lemma_insert_at(t, x, p);
        assert(t.insert(p, x).push(s.last()) =~= s.insert(p, x));
    }
}

/// Does the file of tagged finding `a` sort strictly before that of `b`?
fn file_before(failed: &[Finding], warned: &[Finding], a: usize, b: usize) -> (r: bool)
    requires
        a < failed@.len() + warned@.len(),
        b < failed@.len() + warned@.len(),
    ensures
        r == lex_lt(tagged(failed@, warned@)[a as int].0.file@, tagged(failed@, warned@)[b as int].0.file@),
{
    let x = text::chars_of(file_of(failed, warned, a).as_str());
    let y = text::chars_of(file_of(failed, warned, b).as_str());
    text::lex_less(x.as_slice(), y.as_slice())
}

fn file_of<'a>(failed: &'a [Finding], warned: &'a [Finding], k: usize) -> (r: &'a String)
    requires
        k < failed@.len() + warned@.len(),
    ensures
        r@ == tagged(failed@, warned@)[k as int].0.file@,
{
    if k < failed.len() {
        &failed[k].file
    } else {
        &warned[k - failed.len()].file
    }
}

/// Indices of the tagged findings in stable file order.
fn sorted_indices(failed: &[Finding], warned: &[Finding]) -> (idx: Vec<usize>)
    requires
        failed@.len() + warned@.len() <= usize::MAX,
    ensures
        idx@.len() == tagged(failed@, warned@).len(),
        forall|i: int| 0 <= i < idx@.len() ==> idx@[i] < tagged(failed@, warned@).len(),
        idx@.map_values(|k: usize| tagged(failed@, warned@)[k as int]) == sort_by_file(tagged(failed@, warned@)),
{
    let ghost t = tagged(failed@, warned@);
    let n = failed.len() + warned.len();
    let mut idx: Vec<usize> = Vec::new();
    let mut j: usize = 0;
    while j < n
        invariant
            j <= n,
            n == t.len(),
            t == tagged(failed@, warned@),
            idx@.len() == j,
            forall|i: int| 0 <= i < idx@.len() ==> idx@[i] < n,
            idx@.map_values(|k: usize| t[k as int]) == sort_by_file(t.subrange(0, j as int)),
        decreases n - j,
    {
        let ghost s = idx@.map_values(|k: usize| t[k as int]);
        let mut p: usize = idx.len();
        while p > 0 && file_before(failed, warned, j, idx[p - 1])
            invariant
                p <= idx@.len(),
                j < n,
                n == t.len(),
                t == tagged(failed@, warned@),
                forall|i: int| 0 <= i < idx@.len() ==> idx@[i] < n,
                s == idx@.map_values(|k: usize| t[k as int]),
                forall|k: int| p <= k < s.len() ==> lex_lt(t[j as int].0.file@, #[trigger] s[k].0.file@),
            decreases p,
        {
            p = p - 1;
        }
        proof {
            lemma_insert_at(s, t[j as int], p as int);
            let u = t.subrange(0, j + 1);
            assert(u.drop_last() =~= t.subrange(0, j as int));
            assert(u.last() == t[j as int]);
        }
        idx.insert(p, j);
        proof {
            assert(idx@.map_values(|k: usize| t[k as int]) =~= s.insert(p as int, t[j as int]));
        }
        j = j + 1;
    }
    proof {
        assert(t.subrange(0, n as int) =~= t);
    }
    idx
}

fn push_item_lines(out: &mut Vec<String>, prev_file: Option<&String>, d: &Finding, kind: FindingKind)
    ensures
        str_views(final(out)@) == str_views(old(out)@) + item_lines(
            match prev_file {
                Some(p) => Some(p@),
                None => None,
            },
            (*d, kind),
        ),
{
    let ghost o = str_views(out@);
    match prev_file {
        Some(p) => {
            if !text::str_eq(p.as_str(), d.file.as_str()) {
                out.push(String::new());
            }
        },
        None => {},
    }
    let ghost after_sep = str_views(out@);
    let mut head = text::owned(kind.label());
    text::push_str(&mut head, " ");
    text::push_str(&mut head, d.file.as_str());
    match d.line {
        Some(l) => {
            text::push_str(&mut head, ":");
            text::push_dec(&mut head, l as u64);
        },
        None => {},
    }
    text::push_str(&mut head, " > ");
    text::push_str(&mut head, d.test.as_str());
    proof {
        assert(head@ =~= kind_label(kind) + " "@ + location(*d) + " > "@ + d.test@);
    }
    out.push(head);
    let c = text::chars_of(d.message.as_str());
    let ls = text::lines_chars(c.as_slice());
    let ghost lv = text::char_views(ls@);
    let ghost base = str_views(out@);
    let mut i: usize = 0;
    while i < ls.len()
        invariant
            i <= ls@.len(),
            lv == text::char_views(ls@),
            lv == lines_of(d.message@),
            str_views(out@) == base + lv.subrange(0, i as int).map_values(|l: Seq<char>| "  "@ + l),
        decreases ls@.len() - i,
    {
        let mut s = text::owned("  ");
        text::push_chars(&mut s, ls[i].as_slice());
        let ghost before = str_views(out@);
        out.push(s);
        proof {
            assert(lv[i as int] == ls@[i as int]@);
            assert(str_views(out@) =~= before.push(s@));
            assert(lv.subrange(0, i + 1).map_values(|l: Seq<char>| "  "@ + l) =~= lv.subrange(
                0,
                i as int,
            ).map_values(|l: Seq<char>| "  "@ + l).push("  "@ + lv[i as int]));
        }
        i = i + 1;
    }
    proof {
        assert(lv.subrange(0, lv.len() as int) =~= lv);
        let pv = match prev_file {
            Some(p) => Some(p@),
            None => None::<Seq<char>>,
        };
        assert(str_views(out@) =~= o + item_lines(pv, (*d, kind)));
    }
}

/// The findings block of a plain run (see [`findings_block`]), from the
/// failures and warnings gathered while tallying.
pub fn findings_report(failed: &[Finding], warned: &[Finding]) -> (r: Vec<String>)
    requires
        failed@.len() + warned@.len() <= usize::MAX,
    ensures
        str_views(r@) == findings_block(failed@, warned@),
{
    let ghost t = tagged(failed@, warned@);
    let idx = sorted_indices(failed, warned);
    let ghost srt = sort_by_file(t);
    let mut out: Vec<String> = Vec::new();
    if idx.len() == 0 {
        proof {
            assert(srt.len() == 0);
        }
        return out;
    }
    out.push(String::new());
    let ghost base = str_views(out@);
    let mut i: usize = 0;
    while i < idx.len()
        invariant
            i <= idx@.len(),
            idx@.len() == t.len(),
            t == tagged(failed@, warned@),
            srt == sort_by_file(t),
            forall|q: int| 0 <= q < idx@.len() ==> idx@[q] < t.len(),
            idx@.map_values(|k: usize| t[k as int]) == srt,
            str_views(out@) == base + items_lines(srt.subrange(0, i as int)),
        decreases idx@.len() - i,
    {
        let k = idx[i];
        let prev: Option<&String> = if i > 0 {
            Some(file_of(failed, warned, idx[i - 1]))
        } else {
            None
        };
        proof {
            assert(srt[i as int] == t[k as int]);
            if i > 0 {
                assert(srt[i - 1] == t[idx@[i - 1] as int]);
            }
        }
        if k < failed.len() {
            push_item_lines(&mut out, prev, &failed[k], FindingKind::Failure);
        } else {
            push_item_lines(&mut out, prev, &warned[k - failed.len()], FindingKind::Warning);
        }
        proof {
            let u = srt.subrange(0, i + 1);
            assert(u.drop_last() =~= srt.subrange(0, i as int));
            assert(u.last() == srt[i as int]);
            if i > 0 {
                assert(u[u.len() - 2] == srt[i - 1]);
            }
        }
        i = i + 1;
    }
    proof {
        assert(srt.subrange(0, srt.len() as int) =~= srt);
    }
    out
}

} // verus!
