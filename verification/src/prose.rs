//! Fixing a misspelling in place and adding a word to skyspell's
//! dictionary: the byte-level edit of a file's contents and the command
//! line of `skyspell add`. Reading and writing the file and running the
//! command are the caller's part.
use vstd::prelude::*;

use crate::config::{debug_quote, debug_quoted};
use crate::git::{join_path, join_path_exec, lossy_utf8, utf8_lossy};
use crate::text;
use crate::text::str_views;

verus! {

/// The byte index where line `line` starts, scanning from index `i` with
/// `cur` lines seen so far: just after the newline that ends line
/// `line - 1`.
pub open spec fn line_start_from(bytes: Seq<u8>, line: u32, i: int, cur: int) -> Option<int>
    decreases bytes.len() - i,
{
    if i < 0 || i >= bytes.len() {
        None
    } else if bytes[i] == 10u8 {
        if cur + 1 == line {
            Some(i + 1)
        } else {
            line_start_from(bytes, line, i + 1, cur + 1)
        }
    } else {
        line_start_from(bytes, line, i + 1, cur)
    }
}

/// The byte index where the 1-based line `line` starts, if there is one.
pub open spec fn line_start(bytes: Seq<u8>, line: u32) -> Option<int> {
    if line == 1 {
        Some(0)
    } else {
        line_start_from(bytes, line, 0, 1)
    }
}

/// The byte range `[start, end)` of a correction: 1-based inclusive
/// columns within the line; refused when the line is missing or the range
/// is empty or runs past the end.
pub open spec fn correction_range(bytes: Seq<u8>, line: u32, col_start: u32, col_end: u32) -> Result<(int, int), Seq<char>> {
    match line_start(bytes, line) {
        None => Err("line "@ + text::dec(line as nat) + " not found"@),
        Some(ls) => {
            let a = ls + if col_start > 0 { col_start - 1 } else { 0 };
            let b = ls + col_end;
            if b > bytes.len() || a >= b {
                Err("byte range "@ + text::dec(a as nat) + ".."@ + text::dec(b as nat) + " out of bounds"@)
            } else {
                Ok((a, b))
            }
        },
    }
}

/// The edited contents: the bytes of the range must spell `word`; they
/// are replaced by `replacement`.
pub open spec fn corrected(
    bytes: Seq<u8>,
    line: u32,
    col_start: u32,
    col_end: u32,
    word: Seq<char>,
    replacement: Seq<char>,
) -> Result<Seq<u8>, Seq<char>> {
    match correction_range(bytes, line, col_start, col_end) {
        Err(m) => Err(m),
        Ok((a, b)) => if bytes.subrange(a, b) != vstd::utf8::encode_utf8(word) {
            Err(
                "word mismatch at "@ + text::dec(line as nat) + ":"@ + text::dec(col_start as nat)
                    + ": expected "@ + debug_quoted(word) + ", found "@ + debug_quoted(
                    lossy_utf8(bytes.subrange(a, b)),
                ),
            )
        } else {
            Ok(bytes.subrange(0, a) + vstd::utf8::encode_utf8(replacement) + bytes.subrange(b, bytes.len() as int))
        },
    }
}

/// The byte range of a correction in `content` (see [`correction_range`]).
pub fn correction_bounds(content: &str, line: u32, col_start: u32, col_end: u32) -> (r: Result<(usize, usize), String>)
    requires
        line_start(vstd::utf8::encode_utf8(content@), line) matches Some(ls) ==> ls + col_end <= usize::MAX && ls + (
            if col_start > 0 {
                col_start - 1
            } else {
                0
            }) <= usize::MAX,
    ensures
        match r {
            Ok((a, b)) => correction_range(vstd::utf8::encode_utf8(content@), line, col_start, col_end) == Ok::<
                (int, int),
                Seq<char>,
            >((a as int, b as int)),
            Err(m) => correction_range(vstd::utf8::encode_utf8(content@), line, col_start, col_end) == Err::<
                (int, int),
                Seq<char>,
            >(m@),
        },
{
    let bytes = content.as_bytes();
    let ghost bv = bytes@;
    let n = bytes.len();
    let mut start: Option<usize> = if line == 1 { Some(0) } else { None };
    if line != 1 {
        let mut cur: u128 = 1;
        let mut i: usize = 0;
        while i < n && start.is_none()
            invariant
                i <= n,
                n == bv.len(),
                bv == bytes@,
                cur <= i + 1,
                line != 1,
                start is None ==> line_start(bv, line) == line_start_from(bv, line, i as int, cur as int),
                start matches Some(s) ==> line_start(bv, line) == Some(s as int) && s <= n,
            decreases n - i,
        {
            if bytes[i] == 10u8 {
                if cur + 1 == line as u128 {
                    start = Some(i + 1);
                }
                cur = cur + 1;
            }
            i = i + 1;
        }
    }
    let ls = match start {
        Some(s) => s,
        None => {
            let mut m = text::owned("line ");
            text::push_dec(&mut m, line as u64);
            text::push_str(&mut m, " not found");
            return Err(m);
        },
    };
    let skip: usize = if col_start > 0 { (col_start - 1) as usize } else { 0 };
    let a = ls + skip;
    let b = ls + col_end as usize;
    if b > n || a >= b {
        let mut m = text::owned("byte range ");
        text::push_dec(&mut m, a as u64);
        text::push_str(&mut m, "..");
        text::push_dec(&mut m, b as u64);
        text::push_str(&mut m, " out of bounds");
        return Err(m);
    }
    Ok((a, b))
}

/// Apply a spelling correction to a file's contents (see [`corrected`]):
/// the new contents as bytes, or why the edit was refused (the file then
/// stays as it is).
pub fn apply_correction(
    content: &str,
    line: u32,
    col_start: u32,
    col_end: u32,
    word: &str,
    replacement: &str,
) -> (r: Result<Vec<u8>, String>)
    requires
        line_start(vstd::utf8::encode_utf8(content@), line) matches Some(ls) ==> ls + col_end <= usize::MAX && ls + (
            if col_start > 0 {
                col_start - 1
            } else {
                0
            }) <= usize::MAX,
        correction_range(vstd::utf8::encode_utf8(content@), line, col_start, col_end) matches Ok((a, b))
            ==> (vstd::utf8::encode_utf8(content@).subrange(a, b) != vstd::utf8::encode_utf8(word@) ==> (vstd::utf8::is_char_boundary(
            vstd::utf8::encode_utf8(content@),
            a,
        ) && vstd::utf8::is_char_boundary(vstd::utf8::encode_utf8(content@), b))),
    ensures
        match r {
            Ok(v) => corrected(vstd::utf8::encode_utf8(content@), line, col_start, col_end, word@, replacement@) == Ok::<
                Seq<u8>,
                Seq<char>,
            >(v@),
            Err(m) => corrected(vstd::utf8::encode_utf8(content@), line, col_start, col_end, word@, replacement@) == Err::<
                Seq<u8>,
                Seq<char>,
            >(m@),
        },
{
    let (a, b) = match correction_bounds(content, line, col_start, col_end) {
        Ok(x) => x,
        Err(m) => {
            return Err(m);
        },
    };
    let bytes = content.as_bytes();
    let wb = word.as_bytes();
    let actual = crate::git::byte_slice(bytes, a, b);
    let mut same = actual.len() == wb.len();
    let mut k: usize = 0;
    while same && k < wb.len()
        invariant
            k <= wb@.len(),
            same ==> actual@.len() == wb@.len(),
            same ==> actual@.subrange(0, k as int) == wb@.subrange(0, k as int),
            !same ==> actual@ != wb@,
        decreases wb@.len() - k,
    {
        if actual[k] != wb[k] {
            same = false;
        } else {
            proof {
                assert(actual@.subrange(0, k + 1) =~= actual@.subrange(0, k as int).push(actual@[k as int]));
                assert(wb@.subrange(0, k + 1) =~= wb@.subrange(0, k as int).push(wb@[k as int]));
            }
        }
        k = k + 1;
    }
    if same {
        proof {
            assert(actual@ =~= actual@.subrange(0, k as int));
            assert(wb@ =~= wb@.subrange(0, k as int));
        }
    }
    if !same {
        let mut m = text::owned("word mismatch at ");
        text::push_dec(&mut m, line as u64);
        text::push_str(&mut m, ":");
        text::push_dec(&mut m, col_start as u64);
        text::push_str(&mut m, ": expected ");
        let qw = debug_quote(word);
        text::push_str(&mut m, qw.as_str());
        text::push_str(&mut m, ", found ");
        let found = utf8_lossy(actual.as_slice());
        let qf = debug_quote(found.as_str());
        text::push_str(&mut m, qf.as_str());
        return Err(m);
    }
    let mut out = crate::git::byte_slice(bytes, 0, a);
    let rb = replacement.as_bytes();
    let mut j: usize = 0;
    let ghost o0 = out@;
    while j < rb.len()
        invariant
            j <= rb@.len(),
            out@ == o0 + rb@.subrange(0, j as int),
        decreases rb@.len() - j,
    {
        out.push(rb[j]);
        proof {
            assert(rb@.subrange(0, j + 1) =~= rb@.subrange(0, j as int).push(rb@[j as int]));
        }
        j = j + 1;
    }
    let ghost o1 = out@;
    let mut q = b;
    while q < bytes.len()
        invariant
            b <= q <= bytes@.len(),
            out@ == o1 + bytes@.subrange(b as int, q as int),
        decreases bytes@.len() - q,
    {
        out.push(bytes[q]);
        proof {
            assert(bytes@.subrange(b as int, q + 1) =~= bytes@.subrange(b as int, q as int).push(bytes@[q as int]));
        }
        q = q + 1;
    }
    proof {
        assert(rb@.subrange(0, rb@.len() as int) =~= rb@);
    }
    Ok(out)
}

// ── Adding a word to the dictionary ─────────────────────────────────────────

/// Where `skyspell add` puts a word.
#[derive(Debug, Clone, PartialEq, Eq)]
pub enum AddScope {
    /// The project's ignore file.
    Project(String),
    /// The user's global list.
    Global,
}

/// The arguments of `skyspell` that add `word`:
/// `--project-path <root> <extra> add <add_args> <word>`.
pub open spec fn add_word_args_of(root: Seq<char>, extra: Seq<Seq<char>>, add_args: Seq<Seq<char>>, word: Seq<char>) -> Seq<Seq<char>> {
    seq!["--project-path"@, root] + extra + seq!["add"@] + add_args + seq![word]
}

/// Appends copies of `more` to `v`.
fn extend_strings(v: &mut Vec<String>, more: &[String])
    ensures
        str_views(final(v)@) == str_views(old(v)@) + str_views(more@),
{
    let ghost v0 = str_views(v@);
    let mut i: usize = 0;
    while i < more.len()
        invariant
            i <= more@.len(),
            str_views(v@) == v0 + str_views(more@).subrange(0, i as int),
        decreases more@.len() - i,
    {
        let ghost before = str_views(v@);
        v.push(more[i].clone());
        proof {
            assert(str_views(v@) =~= before.push(more@[i as int]@));
            assert(str_views(more@).subrange(0, i + 1) =~= str_views(more@).subrange(0, i as int).push(more@[i as int]@));
        }
        i = i + 1;
    }
    proof {
        assert(str_views(more@).subrange(0, more@.len() as int) =~= str_views(more@));
    }
}

/// The arguments of the `skyspell` run that adds `word` (see
/// [`add_word_args_of`]).
pub fn add_word_args(suite_root: &str, extra_args: &[String], add_args: &[String], word: &str) -> (r: Vec<String>)
    ensures
        str_views(r@) == add_word_args_of(suite_root@, str_views(extra_args@), str_views(add_args@), word@),
{
    let mut v: Vec<String> = Vec::new();
    v.push(text::owned("--project-path"));
    v.push(text::owned(suite_root));
    proof {
        assert(str_views(v@) =~= seq!["--project-path"@, suite_root@]);
    }
    extend_strings(&mut v, extra_args);
    let ghost v1 = str_views(v@);
    v.push(text::owned("add"));
    proof {
        assert(str_views(v@) =~= v1 + seq!["add"@]);
    }
    extend_strings(&mut v, add_args);
    let ghost v2 = str_views(v@);
    v.push(text::owned(word));
    proof {
        assert(str_views(v@) =~= v2 + seq![word@]);
        assert(str_views(v@) =~= add_word_args_of(suite_root@, str_views(extra_args@), str_views(add_args@), word@));
    }
    v
}

/// Where an added word lands: the project's `skyspell-ignore.toml` when
/// the add args hold `--project`, the global list otherwise.
pub fn add_scope(suite_root: &str, add_args: &[String]) -> (r: AddScope)
    ensures
        str_views(add_args@).contains("--project"@) ==> (r matches AddScope::Project(p) && p@ == join_path(
            suite_root@,
            "skyspell-ignore.toml"@,
        )),
        !str_views(add_args@).contains("--project"@) ==> r is Global,
{
    if text::has_string(add_args, "--project") {
        AddScope::Project(join_path_exec(suite_root, "skyspell-ignore.toml"))
    } else {
        AddScope::Global
    }
}

/// The error of a failed `skyspell add`: its trimmed stderr, or the exit
/// status text when stderr is blank.
pub open spec fn add_error_text(stderr: Seq<u8>, status: Seq<char>) -> Seq<char> {
    if text::trim(lossy_utf8(stderr)).len() == 0 {
        "skyspell add exited "@ + status
    } else {
        text::trim(lossy_utf8(stderr))
    }
}

/// The error of a failed `skyspell add` (see [`add_error_text`]);
/// `status` is the exit status as the platform prints it.
pub fn add_error(stderr: &[u8], status: &str) -> (r: String)
    ensures
        r@ == add_error_text(stderr@, status@),
{
    let s = utf8_lossy(stderr);
    let sc = text::chars_of(s.as_str());
    let t = text::trim_chars(sc.as_slice());
    if t.len() == 0 {
        let mut m = text::owned("skyspell add exited ");
        text::push_str(&mut m, status);
        m
    } else {
        text::string_from(t.as_slice())
    }
}

/// Law: a misspelling reported by typos, when the reported word sits at
/// the reported place in the file, is fixed by the correction built from
/// the report: exactly that occurrence is replaced by the suggestion and
/// every other byte stays.
pub proof fn law_typo_fix_round_trip(
    content: Seq<u8>,
    t: crate::checkers::TyposTypo,
    suggestion: Seq<char>,
    line_begin: int,
)
    requires
        line_start(content, t.line_num) == Some(line_begin),
        t.typo@.len() > 0,
        t.byte_offset + crate::checkers::byte_len(t.typo@) <= u32::MAX,
        line_begin + t.byte_offset + crate::checkers::byte_len(t.typo@) <= content.len(),
        content.subrange(line_begin + t.byte_offset, line_begin + t.byte_offset + crate::checkers::byte_len(t.typo@))
            == vstd::utf8::encode_utf8(t.typo@),
    ensures
        ({
            let k = crate::checkers::typo_correction(t);
            let a = line_begin + t.byte_offset;
            let b = a + crate::checkers::byte_len(t.typo@);
            corrected(content, k.line, k.col_start, k.col_end, k.word, suggestion) == Ok::<Seq<u8>, Seq<char>>(
                content.subrange(0, a) + vstd::utf8::encode_utf8(suggestion) + content.subrange(b, content.len() as int),
            )
        }),
{
    crate::checkers::lemma_byte_len_pos(t.typo@);
}

} // verus!
