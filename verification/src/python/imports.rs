//! Python static import analysis.
//!
//! A pragmatic line-based scanner, not a full Python parser. It handles
//! `import foo`, `import foo.bar as x, baz`, `from foo import x, y as z`,
//! relative `from .foo import x` / `from .. import x`, inline `# comments`,
//! indented imports, parenthesized multi-line imports and backslash
//! continuation lines. Lines inside triple-quoted strings are skipped.
//! String-based imports (`importlib.import_module`, `__import__`) cannot be
//! resolved statically and are not seen.
use vstd::prelude::*;

use crate::paths;
use crate::text;
use crate::text::{char_views, find, has_prefix, str_views, trim};

verus! {

// ── Model ───────────────────────────────────────────────────────────────────

/// What one parsed import statement says.
pub enum ImportModel {
    Absolute(Seq<char>),
    FromAbsolute(Seq<char>, Seq<Seq<char>>),
    Relative(nat, Seq<char>, Seq<Seq<char>>),
}

/// A single parsed import statement.
#[derive(Debug, PartialEq, Eq)]
pub enum Import {
    /// `import foo` or `import foo.bar`.
    Absolute(String),
    /// `from foo.bar import x, y`: the module and the imported names. The
    /// names are kept so a resolver can probe `foo.bar.x` as a submodule.
    FromAbsolute { module: String, symbols: Vec<String> },
    /// `from .foo import x`: the number of leading dots, the dotted tail
    /// after them, and the imported names.
    Relative { dots: usize, tail: String, symbols: Vec<String> },
}

impl Import {
    pub open spec fn model(&self) -> ImportModel {
        match self {
            Import::Absolute(m) => ImportModel::Absolute(m@),
            Import::FromAbsolute { module, symbols } => ImportModel::FromAbsolute(
                module@,
                str_views(symbols@),
            ),
            Import::Relative { dots, tail, symbols } => ImportModel::Relative(
                *dots as nat,
                tail@,
                str_views(symbols@),
            ),
        }
    }
}

/// The models of a sequence of imports.
pub open spec fn models(v: Seq<Import>) -> Seq<ImportModel> {
    v.map_values(|i: Import| i.model())
}

// ── Line structure ──────────────────────────────────────────────────────────

/// Joins backslash-continued lines. `accum` holds the pending joined text:
/// a line whose whitespace-trimmed end is `\` contributes its text up to
/// that backslash; the next line that does not end so closes the join.
pub open spec fn join_continued(lines: Seq<Seq<char>>, accum: Seq<char>) -> Seq<Seq<char>>
    decreases lines.len(),
{
    if lines.len() == 0 {
        if accum.len() > 0 { seq![accum] } else { Seq::empty() }
    } else {
        let raw = lines[0];
        let te = text::trim_end(raw);
        if te.len() > 0 && te.last() == '\\' {
            join_continued(lines.drop_first(), accum + te.drop_last())
        } else if accum.len() > 0 {
            seq![accum + raw] + join_continued(lines.drop_first(), Seq::empty())
        } else {
            seq![raw] + join_continued(lines.drop_first(), Seq::empty())
        }
    }
}

/// The logical lines of a source file.
pub open spec fn logical_lines(contents: Seq<char>) -> Seq<Seq<char>> {
    join_continued(text::lines_of(contents), Seq::empty())
}

// ── Statement pieces ────────────────────────────────────────────────────────

/// `s` up to its first `#`, trimmed.
pub open spec fn strip_comment(s: Seq<char>) -> Seq<char> {
    trim(text::before_char(s, '#'))
}

/// The first word of each comma-separated item, empty words left out.
pub open spec fn item_words(items: Seq<Seq<char>>) -> Seq<Seq<char>>
    decreases items.len(),
{
    if items.len() == 0 {
        Seq::empty()
    } else {
        let w = text::first_word(items[0]);
        let rest = item_words(items.drop_first());
        if w.len() > 0 { seq![w] + rest } else { rest }
    }
}

/// The names imported by the right-hand side of `from X import RHS`:
/// leading `(` and trailing `)` dropped, then the first word of each
/// comma-separated item (`a as b` gives `a`).
pub open spec fn symbol_list(rhs: Seq<char>) -> Seq<Seq<char>> {
    item_words(
        text::split(text::strip_trailing(text::strip_leading(rhs, '('), ')'), ','),
    )
}

/// The modules named by `import REST`.
pub open spec fn plain_imports(rest: Seq<char>) -> Seq<ImportModel> {
    item_words(text::split(strip_comment(rest), ',')).map_values(
        |w: Seq<char>| ImportModel::Absolute(w),
    )
}

/// `(source, rhs)` of the text after `from `: the trimmed parts before
/// and after the first ` import `; `rhs` is empty when there is none.
pub open spec fn split_from(rest: Seq<char>) -> (Seq<char>, Seq<char>) {
    match find(rest, " import "@) {
        Some(k) => if 0 <= k && k + 8 <= rest.len() {
            (trim(rest.subrange(0, k)), trim(rest.subrange(k + 8, rest.len() as int)))
        } else {
            (trim(rest), Seq::empty())
        },
        None => (trim(rest), Seq::empty()),
    }
}

/// The import of `from SRC import` with the given right-hand side.
pub open spec fn from_import(src: Seq<char>, rhs: Seq<char>) -> ImportModel {
    let dots = text::leading_count(src, '.');
    let tail = trim(src.subrange(dots as int, src.len() as int));
    if dots > 0 {
        ImportModel::Relative(dots, tail, symbol_list(rhs))
    } else {
        ImportModel::FromAbsolute(tail, symbol_list(rhs))
    }
}

/// Continuation of a parenthesized import: from line `idx` on, each line
/// (trimmed, comment removed) is appended after a space until one holds
/// `)`. Yields the gathered text and the index after the last line taken.
pub open spec fn gather_paren(ll: Seq<Seq<char>>, idx: int, parts: Seq<char>) -> (Seq<char>, int)
    decreases ll.len() - idx,
{
    if idx < 0 || idx >= ll.len() {
        (parts, idx)
    } else {
        let next = strip_comment(trim(ll[idx]));
        let joined = parts + " "@ + next;
        if next.contains(')') {
            (joined, idx + 1)
        } else {
            gather_paren(ll, idx + 1, joined)
        }
    }
}

/// The triple-quote delimiter that a line opens without closing, if any.
/// `"""` is looked for first; only the first delimiter found counts.
pub open spec fn opened_triple(raw: Seq<char>) -> Option<Seq<char>> {
    let dq = "\"\"\""@;
    let sq = "'''"@;
    match find(raw, dq) {
        Some(f) => if text::contains(raw.subrange(f + 3, raw.len() as int), dq) {
            None
        } else {
            Some(dq)
        },
        None => match find(raw, sq) {
            Some(f) => if text::contains(raw.subrange(f + 3, raw.len() as int), sq) {
                None
            } else {
                Some(sq)
            },
            None => None,
        },
    }
}

pub proof fn lemma_gather_advances(ll: Seq<Seq<char>>, idx: int, parts: Seq<char>)
    requires
        0 <= idx,
    ensures
        gather_paren(ll, idx, parts).1 >= idx,
        idx < ll.len() ==> gather_paren(ll, idx, parts).1 > idx,
        gather_paren(ll, idx, parts).1 <= ll.len() || gather_paren(ll, idx, parts).1 == idx,
    decreases ll.len() - idx,
{
    if idx < ll.len() {
        let next = strip_comment(trim(ll[idx]));
        if !next.contains(')') {
            lemma_gather_advances(ll, idx + 1, parts + " "@ + next);
        }
    }
}

/// The imports found from logical line `idx` on, `in_triple` being the
/// delimiter of a triple-quoted string left open by an earlier line.
pub open spec fn scan_from(ll: Seq<Seq<char>>, idx: int, in_triple: Option<Seq<char>>) -> Seq<
    ImportModel,
>
    decreases ll.len() - idx,
{
    if idx < 0 || idx >= ll.len() {
        Seq::empty()
    } else {
        let raw = ll[idx];
        match in_triple {
            Some(d) => scan_from(
                ll,
                idx + 1,
                if text::contains(raw, d) { None } else { Some(d) },
            ),
            None => {
                let opener = opened_triple(raw);
                if opener is Some {
                    scan_from(ll, idx + 1, opener)
                } else {
                    let line = trim(raw);
                    if has_prefix(line, "import "@) {
                        plain_imports(line.subrange(7, line.len() as int)) + scan_from(
                            ll,
                            idx + 1,
                            None,
                        )
                    } else if has_prefix(line, "from "@) {
                        let rest = strip_comment(line.subrange(5, line.len() as int));
                        let (src, rhs) = split_from(rest);
                        if src.len() == 0 {
                            scan_from(ll, idx + 1, None)
                        } else if has_prefix(rhs, "("@) && !rhs.contains(')') {
                            let g = gather_paren(ll, idx + 1, rhs);
                            proof {
                                lemma_gather_advances(ll, idx + 1, rhs);
                            }
                            seq![from_import(src, g.0)] + scan_from(ll, g.1, None)
                        } else {
                            seq![from_import(src, rhs)] + scan_from(ll, idx + 1, None)
                        }
                    } else {
                        scan_from(ll, idx + 1, None)
                    }
                }
            },
        }
    }
}

/// Every import statement of a source file, in order.
pub open spec fn imports_of(contents: Seq<char>) -> Seq<ImportModel> {
    scan_from(logical_lines(contents), 0, None)
}

// ── Module names and resolution ─────────────────────────────────────────────

/// The components that name files or directories (no root, `.` or `..`).
pub open spec fn normal_only(c: Seq<Seq<char>>) -> Seq<Seq<char>>
    decreases c.len(),
{
    if c.len() == 0 {
        Seq::empty()
    } else {
        let rest = normal_only(c.drop_first());
        if c[0] != "/"@ && c[0] != "."@ && c[0] != ".."@ { seq![c[0]] + rest } else { rest }
    }
}

/// The components of `file` below `root`, when `root` is a prefix of it.
pub open spec fn relative_comps(root: Seq<char>, file: Seq<char>) -> Option<Seq<Seq<char>>> {
    let rc = paths::comps(root);
    let fc = paths::comps(file);
    if paths::comps_prefix(rc, fc) {
        Some(fc.subrange(rc.len() as int, fc.len() as int))
    } else {
        None
    }
}

/// The dotted module name of a file: the path below `root`, a leading
/// `src` segment dropped, `.py` stripped, and `__init__` standing for its
/// package. `None` outside `root` and for a top-level `__init__.py`.
pub open spec fn module_name(root: Seq<char>, file: Seq<char>) -> Option<Seq<char>> {
    match relative_comps(root, file) {
        None => None,
        Some(rel) => {
            let parts0 = normal_only(rel);
            let parts = if parts0.len() > 0 && parts0[0] == "src"@ {
                parts0.drop_first()
            } else {
                parts0
            };
            if parts.len() == 0 {
                None
            } else {
                let last = parts.last();
                let stem = if text::has_suffix(last, ".py"@) {
                    last.subrange(0, last.len() - 3)
                } else {
                    last
                };
                let dir = parts.drop_last();
                if stem == "__init__"@ {
                    if dir.len() == 0 { None } else { Some(text::join(dir, "."@)) }
                } else {
                    Some(text::join(dir.push(stem), "."@))
                }
            }
        },
    }
}

/// The file mapped to `key`; a later entry overrides an earlier one.
pub open spec fn lookup(m: Seq<(Seq<char>, Seq<char>)>, key: Seq<char>) -> Option<Seq<char>>
    decreases m.len(),
{
    if m.len() == 0 {
        None
    } else if m.last().0 == key {
        Some(m.last().1)
    } else {
        lookup(m.drop_last(), key)
    }
}

/// `module.sym` for each imported symbol.
pub open spec fn submodules(module: Seq<char>, syms: Seq<Seq<char>>) -> Seq<Seq<char>> {
    syms.map_values(|s: Seq<char>| module + "."@ + s)
}

/// The module names an import may refer to, given the dotted parts of
/// the importing file's own module. A relative import with `n` dots goes
/// `n - 1` packages up from the importing module's package.
pub open spec fn candidates(imp: ImportModel, file_parts: Seq<Seq<char>>) -> Seq<Seq<char>> {
    match imp {
        ImportModel::Absolute(m) => seq![m],
        ImportModel::FromAbsolute(module, syms) => seq![module] + submodules(module, syms),
        ImportModel::Relative(dots, tail, syms) => {
            let n = file_parts.len();
            let drop: int = if dots >= 1 { dots - 1 } else { 0 };
            let lim: int = if n >= 1 { n - 1 } else { 0 };
            if n == 0 || drop > lim {
                Seq::empty()
            } else {
                let base = file_parts.subrange(0, n - 1 - drop) + if tail.len() > 0 {
                    text::split(tail, '.')
                } else {
                    Seq::empty()
                };
                if base.len() == 0 {
                    Seq::empty()
                } else {
                    let module = text::join(base, "."@);
                    seq![module] + submodules(module, syms)
                }
            }
        },
    }
}

/// The first mapped proper prefix of a dotted name, longest first.
pub open spec fn parent_hit(m: Seq<(Seq<char>, Seq<char>)>, parts: Seq<Seq<char>>) -> Option<
    Seq<char>,
>
    decreases parts.len(),
{
    if parts.len() <= 1 {
        None
    } else {
        let p = parts.drop_last();
        match lookup(m, text::join(p, "."@)) {
            Some(f) => Some(f),
            None => parent_hit(m, p),
        }
    }
}

/// An optional value as a sequence of zero or one items.
pub open spec fn opt_seq(o: Option<Seq<char>>) -> Seq<Seq<char>> {
    match o {
        Some(x) => seq![x],
        None => Seq::empty(),
    }
}

/// The files a candidate module name resolves to: the direct hit and the
/// first mapped parent package.
pub open spec fn candidate_hits(m: Seq<(Seq<char>, Seq<char>)>, c: Seq<char>) -> Seq<Seq<char>> {
    opt_seq(lookup(m, c)) + opt_seq(parent_hit(m, text::split(c, '.')))
}

/// The hits of a list of candidates, in order.
pub open spec fn hits_of(m: Seq<(Seq<char>, Seq<char>)>, cs: Seq<Seq<char>>) -> Seq<Seq<char>>
    decreases cs.len(),
{
    if cs.len() == 0 {
        Seq::empty()
    } else {
        candidate_hits(m, cs[0]) + hits_of(m, cs.drop_first())
    }
}

/// The dotted parts of the importing file's module (none when it has no
/// module name).
pub open spec fn file_parts(root: Seq<char>, file: Seq<char>) -> Seq<Seq<char>> {
    match module_name(root, file) {
        Some(m) => text::split(m, '.'),
        None => Seq::empty(),
    }
}

/// Every file hit by a list of imports, in order, repeats included.
pub open spec fn resolve_hits(
    imports: Seq<ImportModel>,
    parts: Seq<Seq<char>>,
    m: Seq<(Seq<char>, Seq<char>)>,
) -> Seq<Seq<char>>
    decreases imports.len(),
{
    if imports.len() == 0 {
        Seq::empty()
    } else {
        hits_of(m, candidates(imports[0], parts)) + resolve_hits(imports.drop_first(), parts, m)
    }
}

/// The plain view of a module index.
pub open spec fn index_view(m: Seq<(String, String)>) -> Seq<(Seq<char>, Seq<char>)> {
    m.map_values(|p: (String, String)| (p.0@, p.1@))
}

// ── Scanner ─────────────────────────────────────────────────────────────────

/// The logical lines of `contents`.
fn logical_lines_chars(contents: &[char]) -> (r: Vec<Vec<char>>)
    ensures
        char_views(r@) == logical_lines(contents@),
{
    let lines = text::lines_chars(contents);
    let ghost all = char_views(lines@);
    let mut out: Vec<Vec<char>> = Vec::new();
    let mut accum: Vec<char> = Vec::new();
    let mut i: usize = 0;
    assert(all.subrange(0, all.len() as int) == all);
    while i < lines.len()
        invariant
            i <= lines@.len(),
            all == char_views(lines@),
            char_views(out@) + join_continued(all.subrange(i as int, all.len() as int), accum@)
                == join_continued(all, Seq::empty()),
        decreases lines@.len() - i,
    {
        let raw = &lines[i];
        let te = text::trim_end_chars(raw.as_slice());
        let ghost rest = all.subrange(i as int, all.len() as int);
        proof {
            assert(rest[0] == raw@);
            assert(rest.drop_first() == all.subrange(i + 1, all.len() as int));
        }
        let ghost tail = all.subrange(i + 1, all.len() as int);
        let ghost done = char_views(out@);
        if te.len() > 0 && te[te.len() - 1] == '\\' {
            let cut = text::slice_of(te.as_slice(), 0, te.len() - 1);
            proof {
                assert(cut@ == te@.drop_last());
                assert(join_continued(rest, accum@) == join_continued(tail, accum@ + cut@));
            }
            text::push_all(&mut accum, cut.as_slice());
        } else if accum.len() > 0 {
            let mut joined = Vec::new();
            std::mem::swap(&mut joined, &mut accum);
            text::push_all(&mut joined, raw.as_slice());
            proof {
                assert(join_continued(rest, joined@.subrange(0, joined@.len() - raw@.len()))
                    == seq![joined@] + join_continued(tail, Seq::empty())) by {
                    assert(joined@.subrange(0, joined@.len() - raw@.len()) + raw@ == joined@);
                }
                assert(char_views(out@.push(joined)) == done.push(joined@));
                assert(done.push(joined@) + join_continued(tail, Seq::empty()) == done + (seq![
                    joined@,
                ] + join_continued(tail, Seq::empty())));
            }
            out.push(joined);
            proof {
                assert(accum@ == Seq::<char>::empty());
            }
        } else {
            let copy = text::slice_of(raw.as_slice(), 0, raw.len());
            proof {
                assert(copy@ == raw@);
                assert(accum@ == Seq::<char>::empty());
                assert(join_continued(rest, accum@) == seq![copy@] + join_continued(
                    tail,
                    Seq::empty(),
                ));
                assert(char_views(out@.push(copy)) == done.push(copy@));
                assert(done.push(copy@) + join_continued(tail, Seq::empty()) == done + (seq![
                    copy@,
                ] + join_continued(tail, Seq::empty())));
            }
            out.push(copy);
        }
        i = i + 1;
    }
    proof {
        assert(all.subrange(i as int, all.len() as int).len() == 0);
    }
    if accum.len() > 0 {
        proof {
            assert(char_views(out@.push(accum)) == char_views(out@).push(accum@));
        }
        out.push(accum);
    } else {
        proof {
            assert(char_views(out@) + Seq::<Seq<char>>::empty() == char_views(out@));
        }
    }
    out
}

/// `s` up to its first `#`, trimmed.
fn strip_comment_chars(s: &[char]) -> (r: Vec<char>)
    ensures
        r@ == strip_comment(s@),
{
    let b = text::before_char_chars(s, '#');
    text::trim_chars(b.as_slice())
}

/// The first word of each item, empty words left out.
fn item_words_exec(items: &Vec<Vec<char>>) -> (r: Vec<String>)
    ensures
        str_views(r@) == item_words(char_views(items@)),
{
    let ghost all = char_views(items@);
    let mut i: usize = items.len();
    let mut acc: Vec<Vec<char>> = Vec::new();
    assert(all.subrange(all.len() as int, all.len() as int).len() == 0);
    while i > 0
        invariant
            i <= items@.len(),
            all == char_views(items@),
            char_views(acc@) == item_words(all.subrange(i as int, all.len() as int)),
        decreases i,
    {
        i = i - 1;
        let w = text::first_word_chars(items[i].as_slice());
        proof {
            let sub = all.subrange(i as int, all.len() as int);
            assert(sub[0] == items@[i as int]@);
            assert(sub.drop_first() == all.subrange(i + 1, all.len() as int));
        }
        if w.len() > 0 {
            let ghost before = char_views(acc@);
            acc.insert(0, w);
            proof {
                assert(char_views(acc@) == seq![w@] + before);
            }
        }
    }
    proof {
        assert(all.subrange(0, all.len() as int) == all);
    }
    let mut out: Vec<String> = Vec::new();
    let mut k: usize = 0;
    while k < acc.len()
        invariant
            k <= acc@.len(),
            str_views(out@) == char_views(acc@).subrange(0, k as int),
        decreases acc@.len() - k,
    {
        let s = text::string_from(acc[k].as_slice());
        proof {
            assert(str_views(out@.push(s)) == str_views(out@).push(s@));
            assert(char_views(acc@).subrange(0, k + 1) == char_views(acc@).subrange(0, k as int).push(
                acc@[k as int]@,
            ));
        }
        out.push(s);
        k = k + 1;
    }
    proof {
        assert(char_views(acc@).subrange(0, acc@.len() as int) == char_views(acc@));
    }
    out
}

/// The names imported by the right-hand side of a `from` import.
fn symbol_list_exec(rhs: &[char]) -> (r: Vec<String>)
    ensures
        str_views(r@) == symbol_list(rhs@),
{
    let a = text::strip_leading_chars(rhs, '(');
    let b = text::strip_trailing_chars(a.as_slice(), ')');
    let items = text::split_chars(b.as_slice(), ',');
    proof {
        assert(char_views(items@) =~= text::split(b@, ','));
    }
    item_words_exec(&items)
}

/// Appends the imports of `import REST` to `out`.
fn push_plain_imports(out: &mut Vec<Import>, rest: &[char])
    ensures
        models(final(out)@) == models(old(out)@) + plain_imports(rest@),
{
    let body = strip_comment_chars(rest);
    let items = text::split_chars(body.as_slice(), ',');
    proof {
        assert(char_views(items@) =~= text::split(body@, ','));
    }
    let words = item_words_exec(&items);
    let ghost ws = str_views(words@);
    let ghost start = models(out@);
    let mut k: usize = 0;
    while k < words.len()
        invariant
            k <= words@.len(),
            ws == str_views(words@),
            models(out@) == start + ws.subrange(0, k as int).map_values(
                |w: Seq<char>| ImportModel::Absolute(w),
            ),
        decreases words@.len() - k,
    {
        let name = words[k].clone();
        let imp = Import::Absolute(name);
        proof {
            assert(models(out@.push(imp)) == models(out@).push(imp.model()));
            assert(ws.subrange(0, k + 1).map_values(|w: Seq<char>| ImportModel::Absolute(w))
                == ws.subrange(0, k as int).map_values(|w: Seq<char>| ImportModel::Absolute(w)).push(
                ImportModel::Absolute(ws[k as int]),
            ));
        }
        out.push(imp);
        k = k + 1;
    }
    proof {
        assert(ws.subrange(0, ws.len() as int) == ws);
    }
}

/// `(source, rhs)` of the text after `from `.
fn split_from_chars(rest: &[char]) -> (r: (Vec<char>, Vec<char>))
    ensures
        (r.0@, r.1@) == split_from(rest@),
{
    let pat: Vec<char> = vec![' ', 'i', 'm', 'p', 'o', 'r', 't', ' '];
    proof {
        reveal_strlit(" import ");
        assert(pat@ == " import "@);
        assert(pat@.len() == 8);
    }
    match text::find_chars(rest, pat.as_slice()) {
        Some(k) => {
            proof {
                text::lemma_find_from_bounds(rest@, pat@, 0);
                assert(text::find(rest@, pat@) == Some(k as int));
                assert(text::occurs_at(rest@, pat@, k as int));
                assert(k + 8 <= rest@.len());
            }
            let a = text::slice_of(rest, 0, k);
            let n = rest.len();
            let b = text::slice_of(rest, k + 8, n);
            (text::trim_chars(a.as_slice()), text::trim_chars(b.as_slice()))
        },
        None => (text::trim_chars(rest), Vec::new()),
    }
}

/// The import of `from SRC import RHS`.
fn from_import_exec(src: &[char], rhs: &[char]) -> (r: Import)
    ensures
        r.model() == from_import(src@, rhs@),
{
    let dots = text::leading_count_chars(src, '.');
    proof {
        text::lemma_leading_count_le(src@, '.');
    }
    let t = text::slice_of(src, dots, src.len());
    let tail = text::trim_chars(t.as_slice());
    let symbols = symbol_list_exec(rhs);
    if dots > 0 {
        Import::Relative { dots, tail: text::string_from(tail.as_slice()), symbols }
    } else {
        Import::FromAbsolute { module: text::string_from(tail.as_slice()), symbols }
    }
}

/// The triple-quote delimiter that `raw` opens without closing, if any.
fn opened_triple_exec(raw: &[char]) -> (r: Option<Vec<char>>)
    ensures
        match r {
            Some(d) => opened_triple(raw@) == Some(d@),
            None => opened_triple(raw@) is None,
        },
{
    let dq: Vec<char> = vec!['"', '"', '"'];
    let sq: Vec<char> = vec!['\'', '\'', '\''];
    proof {
        reveal_strlit("\"\"\"");
        reveal_strlit("'''");
        assert(dq@ == "\"\"\""@);
        assert(sq@ == "'''"@);
        assert(dq@.len() == 3 && sq@.len() == 3);
    }
    match text::find_chars(raw, dq.as_slice()) {
        Some(f) => {
            proof {
                text::lemma_find_from_bounds(raw@, dq@, 0);
            }
            let n = raw.len();
            let after = text::slice_of(raw, f + 3, n);
            if text::contains_chars(after.as_slice(), dq.as_slice()) {
                None
            } else {
                Some(dq)
            }
        },
        None => match text::find_chars(raw, sq.as_slice()) {
            Some(f) => {
                proof {
                    text::lemma_find_from_bounds(raw@, sq@, 0);
                }
                let n = raw.len();
            let after = text::slice_of(raw, f + 3, n);
                if text::contains_chars(after.as_slice(), sq.as_slice()) {
                    None
                } else {
                    Some(sq)
                }
            },
            None => None,
        },
    }
}

/// The delimiter state seen by the specification.
spec fn triple_state(t: Option<Vec<char>>) -> Option<Seq<char>> {
    match t {
        Some(d) => Some(d@),
        None => None,
    }
}

/// Every import statement in `contents`, in source order.
pub fn scan_imports_str(contents: &str) -> (r: Vec<Import>)
    ensures
        models(r@) == imports_of(contents@),
{
    let chars = text::chars_of(contents);
    let ll = logical_lines_chars(chars.as_slice());
    let ghost lv = char_views(ll@);
    let mut out: Vec<Import> = Vec::new();
    let mut in_triple: Option<Vec<char>> = None;
    let mut idx: usize = 0;
    let import_kw: Vec<char> = vec!['i', 'm', 'p', 'o', 'r', 't', ' '];
    let from_kw: Vec<char> = vec!['f', 'r', 'o', 'm', ' '];
    let paren: Vec<char> = vec!['('];
    proof {
        reveal_strlit("import ");
        reveal_strlit("from ");
        reveal_strlit("(");
        assert(import_kw@ == "import "@);
        assert(from_kw@ == "from "@);
        assert(paren@ == "("@);
        assert(import_kw@.len() == 7 && from_kw@.len() == 5);
        assert(models(out@) + scan_from(lv, 0, None) == scan_from(lv, 0, None));
    }
    while idx < ll.len()
        invariant
            idx <= ll@.len(),
            lv == char_views(ll@),
            lv == logical_lines(contents@),
            import_kw@ == "import "@,
            from_kw@ == "from "@,
            paren@ == "("@,
            import_kw@.len() == 7,
            from_kw@.len() == 5,
            models(out@) + scan_from(lv, idx as int, triple_state(in_triple)) == scan_from(
                lv,
                0,
                None,
            ),
        decreases ll@.len() - idx,
    {
        let raw = &ll[idx];
        let ghost before = models(out@);
        let ghost here = idx as int;
        proof {
            assert(lv[here] == raw@);
        }
        idx = idx + 1;
        match in_triple {
            Some(d) => {
                if text::contains_chars(raw.as_slice(), d.as_slice()) {
                    in_triple = None;
                } else {
                    in_triple = Some(d);
                }
                continue;
            },
            None => {},
        }
        let opener = opened_triple_exec(raw.as_slice());
        if opener.is_some() {
            in_triple = opener;
            continue;
        }
        let line = text::trim_chars(raw.as_slice());
        if text::starts_with(line.as_slice(), import_kw.as_slice()) {
            let rest = text::slice_of(line.as_slice(), 7, line.len());
            push_plain_imports(&mut out, rest.as_slice());
            proof {
                assert(models(out@) + scan_from(lv, idx as int, None) == before + (plain_imports(
                    rest@,
                ) + scan_from(lv, idx as int, None)));
            }
            continue;
        }
        if !text::starts_with(line.as_slice(), from_kw.as_slice()) {
            continue;
        }
        let after_from = text::slice_of(line.as_slice(), 5, line.len());
        let rest = strip_comment_chars(after_from.as_slice());
        let (src, rhs) = split_from_chars(rest.as_slice());
        if src.len() == 0 {
            continue;
        }
        if text::starts_with(rhs.as_slice(), paren.as_slice()) && !text::has_char(
            rhs.as_slice(),
            ')',
        ) {
            let mut parts = rhs;
            let ghost g = gather_paren(lv, idx as int, parts@);
            proof {
                lemma_gather_advances(lv, idx as int, parts@);
            }
            loop
                invariant_except_break
                    idx <= ll@.len(),
                    lv == char_views(ll@),
                    gather_paren(lv, idx as int, parts@) == g,
                ensures
                    idx <= ll@.len(),
                    g == (parts@, idx as int),
                decreases ll@.len() - idx,
            {
                if idx >= ll.len() {
                    break;
                }
                let t = text::trim_chars(ll[idx].as_slice());
                let next = strip_comment_chars(t.as_slice());
                proof {
                    assert(lv[idx as int] == ll@[idx as int]@);
                }
                let ghost old_parts = parts@;
                let space: Vec<char> = vec![' '];
                proof {
                    reveal_strlit(" ");
                    assert(space@ == " "@);
                }
                text::push_all(&mut parts, space.as_slice());
                text::push_all(&mut parts, next.as_slice());
                proof {
                    assert(parts@ == old_parts + " "@ + next@);
                }
                idx = idx + 1;
                if text::has_char(next.as_slice(), ')') {
                    break;
                }
            }
            let imp = from_import_exec(src.as_slice(), parts.as_slice());
            proof {
                assert(models(out@.push(imp)) == models(out@).push(imp.model()));
            }
            out.push(imp);
        } else {
            let imp = from_import_exec(src.as_slice(), rhs.as_slice());
            proof {
                assert(models(out@.push(imp)) == models(out@).push(imp.model()));
            }
            out.push(imp);
        }
    }
    out
}


// ── Resolution ──────────────────────────────────────────────────────────────

/// Is `c` the root, `.` or `..`?
fn is_special_comp(c: &[char]) -> (r: bool)
    ensures
        r == (c@ == "/"@ || c@ == "."@ || c@ == ".."@),
{
    proof {
        reveal_strlit("/");
        reveal_strlit(".");
        reveal_strlit("..");
    }
    let r = (c.len() == 1 && (c[0] == '/' || c[0] == '.')) || (c.len() == 2 && c[0] == '.' && c[1]
        == '.');
    proof {
        assert("/"@ =~= seq!['/']);
        assert("."@ =~= seq!['.']);
        assert(".."@ =~= seq!['.', '.']);
        if c@.len() == 1 {
            assert(c@ =~= seq![c@[0]]);
        }
        if c@.len() == 2 {
            assert(c@ =~= seq![c@[0], c@[1]]);
        }
    }
    r
}

/// The components of `c` that name something.
fn normal_only_exec(c: &Vec<Vec<char>>) -> (r: Vec<Vec<char>>)
    ensures
        char_views(r@) == normal_only(char_views(c@)),
{
    let ghost cv = char_views(c@);
    let mut acc: Vec<Vec<char>> = Vec::new();
    let mut i: usize = c.len();
    assert(cv.subrange(cv.len() as int, cv.len() as int).len() == 0);
    while i > 0
        invariant
            i <= c@.len(),
            cv == char_views(c@),
            char_views(acc@) == normal_only(cv.subrange(i as int, cv.len() as int)),
        decreases i,
    {
        i = i - 1;
        proof {
            let sub = cv.subrange(i as int, cv.len() as int);
            assert(sub[0] == c@[i as int]@);
            assert(sub.drop_first() == cv.subrange(i + 1, cv.len() as int));
        }
        let ghost sub = cv.subrange(i as int, cv.len() as int);
        if !is_special_comp(c[i].as_slice()) {
            let copy = text::slice_of(c[i].as_slice(), 0, c[i].len());
            let ghost before = char_views(acc@);
            acc.insert(0, copy);
            proof {
                assert(copy@ == c@[i as int]@);
                assert(char_views(acc@) =~= seq![copy@] + before);
                assert(normal_only(sub) == seq![sub[0]] + normal_only(sub.drop_first()));
            }
        } else {
            proof {
                assert(normal_only(sub) == normal_only(sub.drop_first()));
            }
        }
    }
    proof {
        assert(cv.subrange(0, cv.len() as int) == cv);
    }
    acc
}

/// Convert a file path to a dotted module name, dropping any leading
/// `src` segment and trimming `__init__.py` (see [`module_name`]).
pub fn file_to_module(root: &str, file: &str) -> (r: Option<String>)
    ensures
        match r {
            Some(s) => module_name(root@, file@) == Some(s@),
            None => module_name(root@, file@) is None,
        },
{
    proof {
        reveal_strlit("src");
        reveal_strlit(".py");
        reveal_strlit("__init__");
        reveal_strlit(".");
    }
    let rchars = text::chars_of(root);
    let fchars = text::chars_of(file);
    let rc = paths::components(rchars.as_slice());
    let fc = paths::components(fchars.as_slice());
    if !paths::comps_starts_with(&rc, &fc) {
        return None;
    }
    let mut rel: Vec<Vec<char>> = Vec::new();
    let mut k = rc.len();
    while k < fc.len()
        invariant
            rc@.len() <= k <= fc@.len(),
            char_views(rel@) == char_views(fc@).subrange(rc@.len() as int, k as int),
        decreases fc@.len() - k,
    {
        let copy = text::slice_of(fc[k].as_slice(), 0, fc[k].len());
        proof {
            assert(copy@ == fc@[k as int]@);
            assert(char_views(fc@)[k as int] == fc@[k as int]@);
            assert(char_views(rel@.push(copy)) == char_views(rel@).push(copy@));
            assert(char_views(fc@).subrange(rc@.len() as int, k + 1) == char_views(fc@).subrange(
                rc@.len() as int,
                k as int,
            ).push(fc@[k as int]@));
        }
        rel.push(copy);
        k = k + 1;
    }
    let ghost relv = char_views(rel@);
    proof {
        assert(rchars@ == root@ && fchars@ == file@);
        assert(relative_comps(root@, file@) == Some(relv));
    }
    let mut parts = normal_only_exec(&rel);
    let ghost parts0 = char_views(parts@);
    let src_kw: Vec<char> = vec!['s', 'r', 'c'];
    proof {
        assert(src_kw@ =~= "src"@);
    }
    if parts.len() > 0 && text::eq_chars(parts[0].as_slice(), src_kw.as_slice()) {
        parts.remove(0);
        proof {
            assert(parts0[0] == "src"@);
            assert(char_views(parts@) =~= parts0.drop_first());
        }
    } else {
        proof {
            if parts0.len() > 0 {
                assert(parts0[0] == parts@[0]@);
            }
        }
    }
    let ghost partsv = char_views(parts@);
    proof {
        assert(partsv == (if parts0.len() > 0 && parts0[0] == "src"@ {
            parts0.drop_first()
        } else {
            parts0
        }));
    }
    if parts.len() == 0 {
        return None;
    }
    let last = parts.pop().unwrap();
    let ghost pv = char_views(parts@);
    proof {
        assert(last@ == partsv.last());
        assert(pv =~= partsv.drop_last());
    }
    let py: Vec<char> = vec!['.', 'p', 'y'];
    let init: Vec<char> = vec!['_', '_', 'i', 'n', 'i', 't', '_', '_'];
    proof {
        assert(py@ =~= ".py"@);
        assert(init@ =~= "__init__"@);
    }
    let stem = if text::ends_with(last.as_slice(), py.as_slice()) {
        text::slice_of(last.as_slice(), 0, last.len() - 3)
    } else {
        last
    };
    proof {
        let l = partsv.last();
        assert(stem@ == (if text::has_suffix(l, ".py"@) {
            l.subrange(0, l.len() - 3)
        } else {
            l
        }));
        assert(seq!['.'] =~= "."@);
    }
    if text::eq_chars(stem.as_slice(), init.as_slice()) {
        if parts.len() == 0 {
            return None;
        }
        let joined = text::join_chars(&parts, '.');
        return Some(text::string_from(joined.as_slice()));
    }
    parts.push(stem);
    let joined = text::join_chars(&parts, '.');
    proof {
        assert(char_views(parts@) =~= pv.push(stem@));
    }
    Some(text::string_from(joined.as_slice()))
}


/// The file mapped to `key` (the last matching entry wins).
fn lookup_exec(m: &[(String, String)], key: &[char]) -> (r: Option<String>)
    ensures
        match r {
            Some(f) => lookup(index_view(m@), key@) == Some(f@),
            None => lookup(index_view(m@), key@) is None,
        },
{
    let ghost mv = index_view(m@);
    let mut k = m.len();
    assert(mv.subrange(0, mv.len() as int) == mv);
    while k > 0
        invariant
            k <= m@.len(),
            mv == index_view(m@),
            lookup(mv, key@) == lookup(mv.subrange(0, k as int), key@),
        decreases k,
    {
        let kc = text::chars_of(m[k - 1].0.as_str());
        let ghost sub = mv.subrange(0, k as int);
        proof {
            assert(sub.last() == (m@[k - 1].0@, m@[k - 1].1@));
            assert(sub.drop_last() == mv.subrange(0, k - 1));
        }
        if text::eq_chars(kc.as_slice(), key) {
            return Some(m[k - 1].1.clone());
        }
        k = k - 1;
    }
    None
}

/// `module.sym` for each symbol, appended to `out`.
fn push_submodules(out: &mut Vec<Vec<char>>, module: &[char], syms: &Vec<String>)
    ensures
        char_views(final(out)@) == char_views(old(out)@) + submodules(module@, str_views(syms@)),
{
    proof {
        reveal_strlit(".");
    }
    let ghost sv = str_views(syms@);
    let ghost start = char_views(out@);
    let mut i: usize = 0;
    assert(sv.subrange(0, 0).map_values(|s: Seq<char>| module@ + "."@ + s) =~= Seq::<
        Seq<char>,
    >::empty());
    while i < syms.len()
        invariant
            i <= syms@.len(),
            sv == str_views(syms@),
            "."@ == seq!['.'],
            char_views(out@) == start + sv.subrange(0, i as int).map_values(
                |s: Seq<char>| module@ + "."@ + s,
            ),
        decreases syms@.len() - i,
    {
        let mut c = text::slice_of(module, 0, module.len());
        c.push('.');
        let sc = text::chars_of(syms[i].as_str());
        text::push_all(&mut c, sc.as_slice());
        proof {
            assert(c@ =~= module@ + "."@ + sv[i as int]);
            assert(char_views(out@.push(c)) == char_views(out@).push(c@));
            assert(sv.subrange(0, i + 1).map_values(|s: Seq<char>| module@ + "."@ + s)
                =~= sv.subrange(0, i as int).map_values(|s: Seq<char>| module@ + "."@ + s).push(c@));
        }
        out.push(c);
        i = i + 1;
    }
    proof {
        assert(sv.subrange(0, sv.len() as int) == sv);
    }
}

/// The module names an import may refer to.
fn candidates_exec(imp: &Import, parts: &Vec<Vec<char>>) -> (r: Vec<Vec<char>>)
    ensures
        char_views(r@) == candidates(imp.model(), char_views(parts@)),
{
    proof {
        reveal_strlit(".");
        assert(seq!['.'] =~= "."@);
    }
    let ghost pv = char_views(parts@);
    let mut out: Vec<Vec<char>> = Vec::new();
    match imp {
        Import::Absolute(m) => {
            let mc = text::chars_of(m.as_str());
            out.push(mc);
            proof {
                assert(char_views(out@) =~= seq![m@]);
            }
        },
        Import::FromAbsolute { module, symbols } => {
            let mc = text::chars_of(module.as_str());
            let first = text::slice_of(mc.as_slice(), 0, mc.len());
            proof {
                assert(first@ =~= module@);
            }
            out.push(first);
            proof {
                assert(char_views(out@) =~= seq![module@]);
            }
            push_submodules(&mut out, mc.as_slice(), symbols);
        },
        Import::Relative { dots, tail, symbols } => {
            let n = parts.len();
            let drop: usize = if *dots >= 1 { *dots - 1 } else { 0 };
            let lim: usize = if n >= 1 { n - 1 } else { 0 };
            if n == 0 || drop > lim {
                return out;
            }
            let mut base: Vec<Vec<char>> = Vec::new();
            let mut k: usize = 0;
            while k < n - 1 - drop
                invariant
                    n == parts@.len(),
                    drop <= lim == n - 1,
                    k <= n - 1 - drop,
                    pv == char_views(parts@),
                    char_views(base@) == pv.subrange(0, k as int),
                decreases n - 1 - drop - k,
            {
                let copy = text::slice_of(parts[k].as_slice(), 0, parts[k].len());
                proof {
                    assert(copy@ == pv[k as int]);
                    assert(char_views(base@.push(copy)) == char_views(base@).push(copy@));
                    assert(pv.subrange(0, k + 1) == pv.subrange(0, k as int).push(pv[k as int]));
                }
                base.push(copy);
                k = k + 1;
            }
            let tc = text::chars_of(tail.as_str());
            if tc.len() > 0 {
                let segs = text::split_chars(tc.as_slice(), '.');
                proof {
                    assert(char_views(segs@) =~= text::split(tail@, '.'));
                }
                text::append_vecs(&mut base, &segs);
            } else {
                proof {
                    assert(char_views(base@) + Seq::<Seq<char>>::empty() == char_views(base@));
                }
            }
            if base.len() == 0 {
                return out;
            }
            let module = text::join_chars(&base, '.');
            let first = text::slice_of(module.as_slice(), 0, module.len());
            proof {
                assert(first@ =~= module@);
            }
            out.push(first);
            proof {
                assert(char_views(out@) =~= seq![module@]);
            }
            push_submodules(&mut out, module.as_slice(), symbols);
        },
    }
    out
}

/// The first mapped proper prefix of a dotted name, longest first.
fn parent_hit_exec(m: &[(String, String)], name: &[char]) -> (r: Option<String>)
    ensures
        match r {
            Some(f) => parent_hit(index_view(m@), text::split(name@, '.')) == Some(f@),
            None => parent_hit(index_view(m@), text::split(name@, '.')) is None,
        },
{
    proof {
        reveal_strlit(".");
        assert(seq!['.'] =~= "."@);
    }
    let mut parts = text::split_chars(name, '.');
    proof {
        assert(char_views(parts@) =~= text::split(name@, '.'));
    }
    let ghost mv = index_view(m@);
    while parts.len() > 1
        invariant
            mv == index_view(m@),
            "."@ == seq!['.'],
            parent_hit(mv, text::split(name@, '.')) == parent_hit(mv, char_views(parts@)),
        decreases parts@.len(),
    {
        let ghost before = char_views(parts@);
        let _ = parts.pop();
        proof {
            assert(char_views(parts@) =~= before.drop_last());
        }
        let key = text::join_chars(&parts, '.');
        match lookup_exec(m, key.as_slice()) {
            Some(f) => {
                return Some(f);
            },
            None => {},
        }
    }
    None
}

/// The local files that the imports of `test_file` refer to, each once.
/// `module_to_file` maps dotted module names to files; for a name that
/// appears twice the later entry counts. Each candidate module is tried
/// directly and through its nearest mapped parent package.
pub fn resolve_imports(
    test_file: &str,
    root: &str,
    imports: &[Import],
    module_to_file: &[(String, String)],
) -> (r: Vec<String>)
    ensures
        str_views(r@).no_duplicates(),
        forall|f: Seq<char>| #[trigger] str_views(r@).contains(f) <==> resolve_hits(
            models(imports@),
            file_parts(root@, test_file@),
            index_view(module_to_file@),
        ).contains(f),
{
    let ghost mv = index_view(module_to_file@);
    let ghost ms = models(imports@);
    let fp: Vec<Vec<char>> = match file_to_module(root, test_file) {
        Some(m) => {
            let mc = text::chars_of(m.as_str());
            let v = text::split_chars(mc.as_slice(), '.');
            proof {
                assert(char_views(v@) =~= text::split(m@, '.'));
            }
            v
        },
        None => Vec::new(),
    };
    let ghost fpv = char_views(fp@);
    proof {
        assert(fpv == file_parts(root@, test_file@));
    }
    let mut found: Vec<String> = Vec::new();
    let ghost mut seen: Seq<Seq<char>> = Seq::empty();
    let mut i: usize = 0;
    proof {
        assert(ms.subrange(0, ms.len() as int) == ms);
        assert(seen + resolve_hits(ms, fpv, mv) == resolve_hits(ms, fpv, mv));
        assert(str_views(found@) =~= Seq::<Seq<char>>::empty());
    }
    while i < imports.len()
        invariant
            i <= imports@.len(),
            mv == index_view(module_to_file@),
            ms == models(imports@),
            fpv == char_views(fp@),
            str_views(found@).no_duplicates(),
            seen + resolve_hits(ms.subrange(i as int, ms.len() as int), fpv, mv) == resolve_hits(
                ms,
                fpv,
                mv,
            ),
            forall|f: Seq<char>| #[trigger] str_views(found@).contains(f) <==> seen.contains(f),
        decreases imports@.len() - i,
    {
        let cands = candidates_exec(&imports[i], &fp);
        let ghost cv = char_views(cands@);
        let ghost sub = ms.subrange(i as int, ms.len() as int);
        proof {
            assert(sub[0] == imports@[i as int].model());
            assert(sub.drop_first() == ms.subrange(i + 1, ms.len() as int));
            assert(cv == candidates(sub[0], fpv));
        }
        let mut j: usize = 0;
        let ghost seen0 = seen;
        while j < cands.len()
            invariant
                j <= cands@.len(),
                cv == char_views(cands@),
                mv == index_view(module_to_file@),
                str_views(found@).no_duplicates(),
                seen == seen0 + hits_of(mv, cv.subrange(0, j as int)),
                forall|f: Seq<char>| #[trigger] str_views(found@).contains(f) <==> seen.contains(f),
            decreases cands@.len() - j,
        {
            let c = &cands[j];
            let ghost hj = candidate_hits(mv, c@);
            proof {
                assert(cv[j as int] == c@);
                lemma_hits_of_push(mv, cv.subrange(0, j as int), c@);
                assert(cv.subrange(0, j + 1) == cv.subrange(0, j as int).push(c@));
            }
            let direct = lookup_exec(module_to_file, c.as_slice());
            let parent = parent_hit_exec(module_to_file, c.as_slice());
            let ghost s1 = seen;
            match direct {
                Some(f) => {
                    let ghost fv = f@;
                    text::insert_unique(&mut found, f);
                    proof {
                        seen = seen.push(fv);
                        assert forall|g: Seq<char>| #[trigger] seen.contains(g) <==> (s1.contains(g)
                            || g == fv) by {
                            lemma_contains_push(s1, fv, g);
                        }
                    }
                },
                None => {},
            }
            let ghost s2 = seen;
            match parent {
                Some(f) => {
                    let ghost fv = f@;
                    text::insert_unique(&mut found, f);
                    proof {
                        seen = seen.push(fv);
                        assert forall|g: Seq<char>| #[trigger] seen.contains(g) <==> (s2.contains(g)
                            || g == fv) by {
                            lemma_contains_push(s2, fv, g);
                        }
                    }
                },
                None => {},
            }
            proof {
                assert(seen == s1 + hj);
            }
            j = j + 1;
        }
        proof {
            assert(cv.subrange(0, cv.len() as int) == cv);
            assert(seen + resolve_hits(sub.drop_first(), fpv, mv) == seen0 + resolve_hits(sub, fpv, mv));
        }
        i = i + 1;
    }
    proof {
        assert(ms.subrange(i as int, ms.len() as int).len() == 0);
        assert(seen + Seq::<Seq<char>>::empty() == seen);
    }
    found
}

proof fn lemma_contains_push(s: Seq<Seq<char>>, x: Seq<char>, g: Seq<char>)
    ensures
        s.push(x).contains(g) <==> (s.contains(g) || g == x),
{
    if s.push(x).contains(g) {
        let k = choose|k: int| 0 <= k < s.push(x).len() && s.push(x)[k] == g;
        if k < s.len() {
            assert(s[k] == g);
        }
    }
    if s.contains(g) {
        let k = choose|k: int| 0 <= k < s.len() && s[k] == g;
        assert(s.push(x)[k] == g);
    }
    if g == x {
        assert(s.push(x)[s.len() as int] == g);
    }
}

proof fn lemma_hits_of_push(m: Seq<(Seq<char>, Seq<char>)>, cs: Seq<Seq<char>>, c: Seq<char>)
    ensures
        hits_of(m, cs.push(c)) == hits_of(m, cs) + candidate_hits(m, c),
    decreases cs.len(),
{
    if cs.len() == 0 {
        assert(cs.push(c).drop_first() =~= Seq::<Seq<char>>::empty());
        assert(cs.push(c)[0] == c);
        assert(hits_of(m, cs.push(c)) == candidate_hits(m, c) + hits_of(m, Seq::<Seq<char>>::empty()));
        assert(hits_of(m, cs) == Seq::<Seq<char>>::empty());
        assert(hits_of(m, cs.push(c)) =~= candidate_hits(m, c));
    } else {
        assert(cs.push(c).drop_first() =~= cs.drop_first().push(c));
        lemma_hits_of_push(m, cs.drop_first(), c);
        assert(hits_of(m, cs.push(c)) =~= hits_of(m, cs) + candidate_hits(m, c));
    }
}

} // verus!
