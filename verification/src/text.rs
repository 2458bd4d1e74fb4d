//! Character-level text helpers shared by every parser and renderer in the
//! crate. Text is handled as sequences of `char`; each helper states its
//! result over `Seq<char>`.
use vstd::prelude::*;

verus! {

// ── Specifications ──────────────────────────────────────────────────────────

/// Unicode `White_Space` (what `char::is_whitespace` tests).
pub open spec fn is_ws(c: char) -> bool {
    let u = c as u32;
    (0x09 <= u && u <= 0x0D) || u == 0x20 || u == 0x85 || u == 0xA0 || u == 0x1680
        || (0x2000 <= u && u <= 0x200A) || u == 0x2028 || u == 0x2029 || u == 0x202F
        || u == 0x205F || u == 0x3000
}

/// `s` with trailing whitespace removed.
pub open spec fn trim_end(s: Seq<char>) -> Seq<char>
    decreases s.len(),
{
    if s.len() > 0 && is_ws(s.last()) {
        trim_end(s.drop_last())
    } else {
        s
    }
}

/// `s` with leading whitespace removed.
pub open spec fn trim_start(s: Seq<char>) -> Seq<char>
    decreases s.len(),
{
    if s.len() > 0 && is_ws(s[0]) {
        trim_start(s.drop_first())
    } else {
        s
    }
}

/// `s` with whitespace removed at both ends.
pub open spec fn trim(s: Seq<char>) -> Seq<char> {
    trim_end(trim_start(s))
}

/// `p` occurs in `s` starting at index `i`.
pub open spec fn occurs_at(s: Seq<char>, p: Seq<char>, i: int) -> bool {
    0 <= i && i + p.len() <= s.len() && s.subrange(i, i + p.len()) == p
}

/// `p` is a prefix of `s`.
pub open spec fn has_prefix(s: Seq<char>, p: Seq<char>) -> bool {
    occurs_at(s, p, 0)
}

/// `p` is a suffix of `s`.
pub open spec fn has_suffix(s: Seq<char>, p: Seq<char>) -> bool {
    p.len() <= s.len() && occurs_at(s, p, s.len() - p.len())
}

/// First index `>= i` at which `p` occurs in `s`.
pub open spec fn find_from(s: Seq<char>, p: Seq<char>, i: int) -> Option<int>
    decreases s.len() + 1 - i,
{
    if i < 0 || i + p.len() > s.len() {
        None
    } else if occurs_at(s, p, i) {
        Some(i)
    } else {
        find_from(s, p, i + 1)
    }
}

/// First index at which `p` occurs in `s` (what `str::find` returns).
pub open spec fn find(s: Seq<char>, p: Seq<char>) -> Option<int> {
    find_from(s, p, 0)
}

/// `p` occurs somewhere in `s`.
pub open spec fn contains(s: Seq<char>, p: Seq<char>) -> bool {
    find(s, p) is Some
}

/// The pieces of `s` between occurrences of `sep` (what `str::split`
/// yields for a one-character separator).
pub open spec fn split(s: Seq<char>, sep: char) -> Seq<Seq<char>>
    decreases s.len(),
{
    if s.contains(sep) {
        let i = s.index_of_first(sep)->0;
        proof {
            s.index_of_first_ensures(sep);
        }
        seq![s.subrange(0, i)] + split(s.subrange(i + 1, s.len() as int), sep)
    } else {
        seq![s]
    }
}

/// The decimal digit for `d < 10`.
pub open spec fn digit(d: nat) -> char {
    if d == 0 { '0' }
    else if d == 1 { '1' }
    else if d == 2 { '2' }
    else if d == 3 { '3' }
    else if d == 4 { '4' }
    else if d == 5 { '5' }
    else if d == 6 { '6' }
    else if d == 7 { '7' }
    else if d == 8 { '8' }
    else { '9' }
}

/// Decimal rendering of `n` (no sign, no leading zeros).
pub open spec fn dec(n: nat) -> Seq<char>
    decreases n,
{
    if n < 10 {
        seq![digit(n)]
    } else {
        dec(n / 10).push(digit(n % 10))
    }
}

/// The concatenation of `parts`, with `sep` between consecutive parts.
pub open spec fn join(parts: Seq<Seq<char>>, sep: Seq<char>) -> Seq<char>
    decreases parts.len(),
{
    if parts.len() == 0 {
        Seq::empty()
    } else if parts.len() == 1 {
        parts[0]
    } else {
        join(parts.drop_last(), sep) + sep + parts.last()
    }
}

/// ASCII lowercase of one character.
pub open spec fn lower_ascii(c: char) -> char {
    if 'A' <= c && c <= 'Z' { ((c as u32) + 32) as char } else { c }
}

/// ASCII lowercase of a sequence.
pub open spec fn lower_ascii_seq(s: Seq<char>) -> Seq<char> {
    s.map_values(|c: char| lower_ascii(c))
}

/// `s` with every trailing `c` removed.
pub open spec fn strip_trailing(s: Seq<char>, c: char) -> Seq<char>
    decreases s.len(),
{
    if s.len() > 0 && s.last() == c { strip_trailing(s.drop_last(), c) } else { s }
}

/// The character views of a sequence of character vectors.
pub open spec fn char_views(v: Seq<Vec<char>>) -> Seq<Seq<char>> {
    v.map_values(|x: Vec<char>| x@)
}

/// The character views of a sequence of strings.
pub open spec fn str_views(v: Seq<String>) -> Seq<Seq<char>> {
    v.map_values(|x: String| x@)
}

/// `t` without one trailing `\r`.
pub open spec fn drop_cr(t: Seq<char>) -> Seq<char> {
    if t.len() > 0 && t.last() == '\r' { t.drop_last() } else { t }
}

/// The lines of `s` as `str::lines` yields them: split at `\n`, a `\r`
/// before the `\n` removed, no empty line after a final `\n`.
pub open spec fn lines_of(s: Seq<char>) -> Seq<Seq<char>>
    decreases s.len(),
{
    if s.len() == 0 {
        Seq::empty()
    } else {
        match find(s, seq!['\n']) {
            Some(i) => if 0 <= i < s.len() {
                seq![drop_cr(s.subrange(0, i))] + lines_of(s.subrange(i + 1, s.len() as int))
            } else {
                Seq::empty()
            },
            None => seq![s],
        }
    }
}

/// The leading run of non-whitespace characters of `t`.
pub open spec fn take_word(t: Seq<char>) -> Seq<char>
    decreases t.len(),
{
    if t.len() == 0 || is_ws(t[0]) {
        Seq::empty()
    } else {
        seq![t[0]] + take_word(t.drop_first())
    }
}

/// The first whitespace-separated word of `s` (empty when there is none),
/// what `split_whitespace().next()` yields.
pub open spec fn first_word(s: Seq<char>) -> Seq<char> {
    take_word(trim_start(s))
}

/// `s` with every leading `c` removed.
pub open spec fn strip_leading(s: Seq<char>, c: char) -> Seq<char>
    decreases s.len(),
{
    if s.len() > 0 && s[0] == c { strip_leading(s.drop_first(), c) } else { s }
}

/// Number of leading `c` in `s`.
pub open spec fn leading_count(s: Seq<char>, c: char) -> nat
    decreases s.len(),
{
    if s.len() > 0 && s[0] == c { 1 + leading_count(s.drop_first(), c) } else { 0 }
}

/// The part of `s` before its first `c` (all of `s` when there is none).
pub open spec fn before_char(s: Seq<char>, c: char) -> Seq<char> {
    match find(s, seq![c]) {
        Some(i) => if 0 <= i <= s.len() { s.subrange(0, i) } else { s },
        None => s,
    }
}

// ── Lemmas ──────────────────────────────────────────────────────────────────

pub proof fn lemma_find_from_bounds(s: Seq<char>, p: Seq<char>, i: int)
    requires
        0 <= i,
    ensures
        find_from(s, p, i) matches Some(k) ==> i <= k && occurs_at(s, p, k)
            && forall|j: int| i <= j < k ==> !#[trigger] occurs_at(s, p, j),
        find_from(s, p, i) is None ==> forall|j: int| i <= j ==> !#[trigger] occurs_at(s, p, j),
    decreases s.len() + 1 - i,
{
    if i + p.len() > s.len() {
    } else if occurs_at(s, p, i) {
    } else {
        lemma_find_from_bounds(s, p, i + 1);
    }
}

/// A one-character pattern occurs at `j` exactly when `s[j]` is that character.
pub proof fn lemma_occurs_char(s: Seq<char>, c: char, j: int)
    ensures
        occurs_at(s, seq![c], j) <==> (0 <= j < s.len() && s[j] == c),
{
    if 0 <= j < s.len() {
        assert(s.subrange(j, j + 1) =~= seq![s[j]]);
        if s.subrange(j, j + 1) == seq![c] {
            assert(s.subrange(j, j + 1)[0] == c);
        }
    }
}

/// `find` of a one-character pattern is the first index holding it.
pub proof fn lemma_find_char(s: Seq<char>, c: char)
    ensures
        find(s, seq![c]) matches Some(k) ==> 0 <= k < s.len() && s[k] == c
            && forall|j: int| 0 <= j < k ==> s[j] != c,
        find(s, seq![c]) is None ==> forall|j: int| 0 <= j < s.len() ==> s[j] != c,
        find(s, seq![c]) is None <==> !s.contains(c),
{
    lemma_find_from_bounds(s, seq![c], 0);
    match find(s, seq![c]) {
        Some(k) => {
            lemma_occurs_char(s, c, k);
            assert forall|j: int| 0 <= j < k implies s[j] != c by {
                lemma_occurs_char(s, c, j);
            }
            assert(s.contains(c)) by { assert(s[k] == c); }
        },
        None => {
            assert forall|j: int| 0 <= j < s.len() implies s[j] != c by {
                lemma_occurs_char(s, c, j);
            }
        },
    }
}


// ── Executable helpers ──────────────────────────────────────────────────────

/// Wrapper for `String::push`: appends one character.
#[verifier::external_body]
pub fn push_char(s: &mut String, c: char)
    ensures
        final(s)@ == old(s)@.push(c),
{
    s.push(c);
}

/// The characters of `s`, in order.
pub fn chars_of(s: &str) -> (v: Vec<char>)
    ensures
        v@ == s@,
{
    let mut v: Vec<char> = Vec::new();
    for c in it: s.chars()
        invariant
            v@ == it.seq().take(it.index() as int),
    {
        v.push(c);
    }
    v
}

/// Appends every character of `t` to `out`.
pub fn push_chars(out: &mut String, t: &[char])
    ensures
        final(out)@ == old(out)@ + t@,
{
    let mut i: usize = 0;
    while i < t.len()
        invariant
            i <= t.len(),
            out@ == old(out)@ + t@.subrange(0, i as int),
        decreases t.len() - i,
    {
        push_char(out, t[i]);
        i = i + 1;
        assert(t@.subrange(0, i as int) == t@.subrange(0, i - 1).push(t@[i - 1]));
    }
    assert(t@.subrange(0, t.len() as int) == t@);
}

/// Appends `t` to `out`.
pub fn push_str(out: &mut String, t: &str)
    ensures
        final(out)@ == old(out)@ + t@,
{
    let v = chars_of(t);
    push_chars(out, v.as_slice());
}

/// A `String` holding exactly `t`.
pub fn string_from(t: &[char]) -> (s: String)
    ensures
        s@ == t@,
{
    let mut s = String::new();
    push_chars(&mut s, t);
    s
}

/// An owned copy of `t`.
pub fn owned(t: &str) -> (s: String)
    ensures
        s@ == t@,
{
    let mut s = String::new();
    push_str(&mut s, t);
    s
}

/// Character-wise equality.
pub fn eq_chars(a: &[char], b: &[char]) -> (r: bool)
    ensures
        r == (a@ == b@),
{
    if a.len() != b.len() {
        return false;
    }
    let mut i: usize = 0;
    while i < a.len()
        invariant
            i <= a.len(),
            a.len() == b.len(),
            a@.subrange(0, i as int) == b@.subrange(0, i as int),
        decreases a.len() - i,
    {
        if a[i] != b[i] {
            assert(a@[i as int] != b@[i as int]);
            return false;
        }
        i = i + 1;
        assert(a@.subrange(0, i as int) == a@.subrange(0, i - 1).push(a@[i - 1]));
        assert(b@.subrange(0, i as int) == b@.subrange(0, i - 1).push(b@[i - 1]));
    }
    assert(a@ == a@.subrange(0, a.len() as int));
    assert(b@ == b@.subrange(0, b.len() as int));
    true
}

/// String equality over characters.
pub fn str_eq(a: &str, b: &str) -> (r: bool)
    ensures
        r == (a@ == b@),
{
    let x = chars_of(a);
    let y = chars_of(b);
    eq_chars(x.as_slice(), y.as_slice())
}

/// Does `p` occur in `s` at index `i`?
pub fn matches_at(s: &[char], p: &[char], i: usize) -> (r: bool)
    ensures
        r == occurs_at(s@, p@, i as int),
{
    if i > s.len() || p.len() > s.len() - i {
        return false;
    }
    let mut k: usize = 0;
    while k < p.len()
        invariant
            k <= p.len(),
            i + p.len() <= s.len(),
            s@.subrange(i as int, i + k) == p@.subrange(0, k as int),
        decreases p.len() - k,
    {
        if s[i + k] != p[k] {
            assert(s@.subrange(i as int, i + p.len())[k as int] != p@[k as int]);
            return false;
        }
        k = k + 1;
        assert(s@.subrange(i as int, i + k) == s@.subrange(i as int, i + k - 1).push(s@[i + k - 1]));
        assert(p@.subrange(0, k as int) == p@.subrange(0, k - 1).push(p@[k - 1]));
    }
    assert(p@ == p@.subrange(0, p.len() as int));
    true
}

/// Does `s` start with `p`?
pub fn starts_with(s: &[char], p: &[char]) -> (r: bool)
    ensures
        r == has_prefix(s@, p@),
{
    matches_at(s, p, 0)
}

/// Does `s` end with `p`?
pub fn ends_with(s: &[char], p: &[char]) -> (r: bool)
    ensures
        r == has_suffix(s@, p@),
{
    if p.len() > s.len() {
        return false;
    }
    matches_at(s, p, s.len() - p.len())
}

/// First index `>= from` at which `p` occurs in `s`.
pub fn find_chars_from(s: &[char], p: &[char], from: usize) -> (r: Option<usize>)
    ensures
        r matches Some(k) ==> find_from(s@, p@, from as int) == Some(k as int),
        r is None ==> find_from(s@, p@, from as int) is None,
{
    let mut i = from;
    loop
        invariant
            from <= i,
            find_from(s@, p@, from as int) == find_from(s@, p@, i as int),
        decreases s.len() + 1 - i,
    {
        if i > s.len() || p.len() > s.len() - i {
            return None;
        }
        if matches_at(s, p, i) {
            return Some(i);
        }
        assert(i < s.len()) by {
            if i == s.len() {
                assert(s@.subrange(i as int, i as int) =~= p@);
            }
        }
        i = i + 1;
    }
}

/// First index at which `p` occurs in `s`.
pub fn find_chars(s: &[char], p: &[char]) -> (r: Option<usize>)
    ensures
        r matches Some(k) ==> find(s@, p@) == Some(k as int),
        r is None ==> find(s@, p@) is None,
{
    find_chars_from(s, p, 0)
}

/// Does `p` occur anywhere in `s`?
pub fn contains_chars(s: &[char], p: &[char]) -> (r: bool)
    ensures
        r == contains(s@, p@),
{
    find_chars(s, p).is_some()
}

/// Does the character `c` occur in `s`?
pub fn has_char(s: &[char], c: char) -> (r: bool)
    ensures
        r == s@.contains(c),
{
    let mut i: usize = 0;
    while i < s.len()
        invariant
            i <= s.len(),
            forall|j: int| 0 <= j < i ==> s@[j] != c,
        decreases s.len() - i,
    {
        if s[i] == c {
            return true;
        }
        i = i + 1;
    }
    false
}

/// Index of the first `c` in `s`.
pub fn first_index_of(s: &[char], c: char) -> (r: Option<usize>)
    ensures
        r matches Some(i) ==> i < s.len() && s@[i as int] == c
            && forall|j: int| 0 <= j < i ==> s@[j] != c,
        r is None ==> !s@.contains(c),
{
    proof {
        s@.index_of_first_ensures(c);
    }
    let mut i: usize = 0;
    while i < s.len()
        invariant
            i <= s.len(),
            forall|j: int| 0 <= j < i ==> s@[j] != c,
        decreases s.len() - i,
    {
        if s[i] == c {
            return Some(i);
        }
        i = i + 1;
    }
    None
}

/// A copy of `s[from..to]`.
pub fn slice_of(s: &[char], from: usize, to: usize) -> (r: Vec<char>)
    requires
        from <= to <= s.len(),
    ensures
        r@ == s@.subrange(from as int, to as int),
{
    let mut r: Vec<char> = Vec::new();
    let mut i = from;
    while i < to
        invariant
            from <= i <= to <= s.len(),
            r@ == s@.subrange(from as int, i as int),
        decreases to - i,
    {
        r.push(s[i]);
        i = i + 1;
        assert(s@.subrange(from as int, i as int) == s@.subrange(from as int, i - 1).push(s@[i - 1]));
    }
    r
}

/// Is `c` Unicode whitespace?
pub fn is_whitespace(c: char) -> (r: bool)
    ensures
        r == is_ws(c),
{
    let u = c as u32;
    (0x09 <= u && u <= 0x0D) || u == 0x20 || u == 0x85 || u == 0xA0 || u == 0x1680
        || (0x2000 <= u && u <= 0x200A) || u == 0x2028 || u == 0x2029 || u == 0x202F
        || u == 0x205F || u == 0x3000
}

proof fn lemma_trim_end_sub(s: Seq<char>, k: int)
    requires
        0 <= k <= s.len(),
        forall|j: int| k <= j < s.len() ==> is_ws(#[trigger] s[j]),
    ensures
        trim_end(s) == trim_end(s.subrange(0, k)),
    decreases s.len() - k,
{
    if k < s.len() {
        assert(s.drop_last() == s.subrange(0, s.len() - 1));
        assert(s.subrange(0, s.len() - 1).subrange(0, k) == s.subrange(0, k));
        lemma_trim_end_sub(s.drop_last(), k);
    } else {
        assert(s.subrange(0, k) == s);
    }
}

proof fn lemma_trim_start_sub(s: Seq<char>, k: int)
    requires
        0 <= k <= s.len(),
        forall|j: int| 0 <= j < k ==> is_ws(#[trigger] s[j]),
    ensures
        trim_start(s) == trim_start(s.subrange(k, s.len() as int)),
    decreases k,
{
    if k > 0 {
        assert(s.drop_first() == s.subrange(1, s.len() as int));
        assert(s.subrange(1, s.len() as int).subrange(k - 1, s.len() - 1) == s.subrange(k, s.len() as int));
        lemma_trim_start_sub(s.drop_first(), k - 1);
    } else {
        assert(s.subrange(0, s.len() as int) == s);
    }
}

/// Index just past the last non-whitespace character.
pub fn trim_end_len(s: &[char]) -> (k: usize)
    ensures
        k <= s.len(),
        trim_end(s@) == s@.subrange(0, k as int),
{
    let mut k = s.len();
    while k > 0 && is_whitespace(s[k - 1])
        invariant
            k <= s.len(),
            forall|j: int| k <= j < s.len() ==> is_ws(#[trigger] s@[j]),
        decreases k,
    {
        k = k - 1;
    }
    proof {
        lemma_trim_end_sub(s@, k as int);
        let t = s@.subrange(0, k as int);
        if k > 0 {
            assert(!is_ws(t.last()));
        }
    }
    k
}

/// Index of the first non-whitespace character (or `s.len()`).
pub fn trim_start_len(s: &[char]) -> (k: usize)
    ensures
        k <= s.len(),
        trim_start(s@) == s@.subrange(k as int, s.len() as int),
{
    let mut k: usize = 0;
    while k < s.len() && is_whitespace(s[k])
        invariant
            k <= s.len(),
            forall|j: int| 0 <= j < k ==> is_ws(#[trigger] s@[j]),
        decreases s.len() - k,
    {
        k = k + 1;
    }
    proof {
        lemma_trim_start_sub(s@, k as int);
        let t = s@.subrange(k as int, s.len() as int);
        if k < s.len() {
            assert(!is_ws(t[0]));
        }
    }
    k
}

/// `s` without trailing whitespace.
pub fn trim_end_chars(s: &[char]) -> (r: Vec<char>)
    ensures
        r@ == trim_end(s@),
{
    let k = trim_end_len(s);
    slice_of(s, 0, k)
}

/// `s` without leading and trailing whitespace.
pub fn trim_chars(s: &[char]) -> (r: Vec<char>)
    ensures
        r@ == trim(s@),
{
    let a = trim_start_len(s);
    let t = slice_of(s, a, s.len());
    trim_end_chars(t.as_slice())
}

/// Splits `s` at every `sep`.
pub fn split_chars(s: &[char], sep: char) -> (r: Vec<Vec<char>>)
    ensures
        r@.len() == split(s@, sep).len(),
        forall|i: int| 0 <= i < r@.len() ==> (#[trigger] r@[i])@ == split(s@, sep)[i],
{
    let mut out: Vec<Vec<char>> = Vec::new();
    let mut start: usize = 0;
    let mut i: usize = 0;
    let ghost prefix: Seq<Seq<char>> = Seq::empty();
    assert(s@.subrange(0, s.len() as int) == s@);
    assert(prefix + split(s@, sep) == split(s@, sep));
    while i < s.len()
        invariant
            start <= i <= s.len(),
            forall|j: int| start <= j < i ==> s@[j] != sep,
            out@.len() == prefix.len(),
            forall|k: int| 0 <= k < out@.len() ==> (#[trigger] out@[k])@ == prefix[k],
            prefix + split(s@.subrange(start as int, s.len() as int), sep) == split(s@, sep),
        decreases s.len() - i,
    {
        if s[i] == sep {
            let piece = slice_of(s, start, i);
            proof {
                let rest = s@.subrange(start as int, s.len() as int);
                assert(rest[i - start] == sep);
                assert(rest.contains(sep));
                rest.index_of_first_ensures(sep);
                let f = rest.index_of_first(sep)->0;
                assert(f == i - start) by {
                    if f < i - start {
                        assert(rest[f] == s@[start + f]);
                    }
                }
                assert(rest.subrange(0, f) == s@.subrange(start as int, i as int));
                assert(rest.subrange(f + 1, rest.len() as int) == s@.subrange(i + 1, s.len() as int));
                assert(split(rest, sep) == seq![piece@] + split(s@.subrange(i + 1, s.len() as int), sep));
                prefix = prefix.push(piece@);
                assert(prefix.drop_last() + seq![piece@] == prefix);
            }
            out.push(piece);
            start = i + 1;
        }
        i = i + 1;
    }
    let last = slice_of(s, start, s.len());
    proof {
        let rest = s@.subrange(start as int, s.len() as int);
        assert(!rest.contains(sep)) by {
            if rest.contains(sep) {
                let k = choose|k: int| 0 <= k < rest.len() && rest[k] == sep;
                assert(s@[start + k] == sep);
            }
        }
        assert(split(rest, sep) == seq![rest]);
    }
    out.push(last);
    proof {
        assert forall|k: int| 0 <= k < out@.len() implies (#[trigger] out@[k])@ == split(s@, sep)[k] by {
            if k < prefix.len() {
            } else {
            }
        }
    }
    out
}

/// `s` with every trailing `c` removed.
pub fn strip_trailing_chars(s: &[char], c: char) -> (r: Vec<char>)
    ensures
        r@ == strip_trailing(s@, c),
{
    let mut k = s.len();
    assert(s@.subrange(0, k as int) == s@);
    while k > 0 && s[k - 1] == c
        invariant
            k <= s.len(),
            strip_trailing(s@, c) == strip_trailing(s@.subrange(0, k as int), c),
        decreases k,
    {
        assert(s@.subrange(0, k as int).drop_last() == s@.subrange(0, k - 1));
        k = k - 1;
    }
    slice_of(s, 0, k)
}

/// The decimal digit character for `d < 10`.
pub fn digit_char(d: u64) -> (c: char)
    requires
        d < 10,
    ensures
        c == digit(d as nat),
{
    if d == 0 { '0' }
    else if d == 1 { '1' }
    else if d == 2 { '2' }
    else if d == 3 { '3' }
    else if d == 4 { '4' }
    else if d == 5 { '5' }
    else if d == 6 { '6' }
    else if d == 7 { '7' }
    else if d == 8 { '8' }
    else { '9' }
}

/// Appends the decimal rendering of `n` to `out`.
pub fn push_dec(out: &mut String, n: u64)
    ensures
        final(out)@ == old(out)@ + dec(n as nat),
    decreases n,
{
    if n < 10 {
        push_char(out, digit_char(n));
    } else {
        push_dec(out, n / 10);
        push_char(out, digit_char(n % 10));
    }
}

/// Decimal rendering of `n`.
pub fn dec_string(n: u64) -> (s: String)
    ensures
        s@ == dec(n as nat),
{
    let mut s = String::new();
    push_dec(&mut s, n);
    s
}

/// ASCII lowercase of one character.
pub fn to_lower_ascii(c: char) -> (r: char)
    ensures
        r == lower_ascii(c),
{
    if 'A' <= c && c <= 'Z' {
        let u = (c as u32) + 32;
        proof {
            assert(0x61 <= u <= 0x7A);
        }
        char_from_ascii(u)
    } else {
        c
    }
}

/// The character with code `u`, for ASCII codes.
fn char_from_ascii(u: u32) -> (c: char)
    requires
        u < 128,
    ensures
        c == u as char,
{
    let b = u as u8;
    let c = b as char;
    c
}

/// The lines of `s`, as `str::lines` yields them.
pub fn lines_chars(s: &[char]) -> (r: Vec<Vec<char>>)
    ensures
        char_views(r@) == lines_of(s@),
{
    let mut out: Vec<Vec<char>> = Vec::new();
    let mut start: usize = 0;
    let mut i: usize = 0;
    assert(s@.subrange(0, s.len() as int) == s@);
    while i < s.len()
        invariant
            start <= i <= s.len(),
            forall|j: int| start <= j < i ==> s@[j] != '\n',
            char_views(out@) + lines_of(s@.subrange(start as int, s.len() as int)) == lines_of(s@),
        decreases s.len() - i,
    {
        if s[i] == '\n' {
            let piece = slice_of(s, start, i);
            let mut line = piece;
            if line.len() > 0 && line[line.len() - 1] == '\r' {
                line.pop();
            }
            proof {
                let rest = s@.subrange(start as int, s.len() as int);
                lemma_find_char(rest, '\n');
                assert(rest[i - start] == '\n');
                let f = find(rest, seq!['\n'])->0;
                assert(f == i - start) by {
                    if f < i - start {
                        assert(rest[f] == s@[start + f]);
                    }
                }
                assert(rest.subrange(0, f) == s@.subrange(start as int, i as int));
                assert(rest.subrange(f + 1, rest.len() as int) == s@.subrange(i + 1, s.len() as int));
                assert(line@ == drop_cr(piece@));
                assert(lines_of(rest) == seq![line@] + lines_of(s@.subrange(i + 1, s.len() as int)));
                assert(char_views(out@.push(line)) == char_views(out@).push(line@));
            }
            out.push(line);
            start = i + 1;
        }
        i = i + 1;
    }
    if start < s.len() {
        let last = slice_of(s, start, s.len());
        proof {
            let rest = s@.subrange(start as int, s.len() as int);
            lemma_find_char(rest, '\n');
            assert(find(rest, seq!['\n']) is None) by {
                if find(rest, seq!['\n']) is Some {
                    let f = find(rest, seq!['\n'])->0;
                    assert(rest[f] == s@[start + f]);
                }
            }
            assert(lines_of(rest) == seq![rest]);
            assert(char_views(out@.push(last)) == char_views(out@).push(last@));
        }
        out.push(last);
    } else {
        proof {
            assert(s@.subrange(start as int, s.len() as int).len() == 0);
            assert(char_views(out@) + Seq::<Seq<char>>::empty() == char_views(out@));
        }
    }
    out
}

/// Index just past the leading non-whitespace run of `t`.
fn word_end(t: &[char]) -> (k: usize)
    ensures
        k <= t.len(),
        take_word(t@) == t@.subrange(0, k as int),
{
    let mut k: usize = 0;
    while k < t.len() && !is_whitespace(t[k])
        invariant
            k <= t.len(),
            forall|j: int| 0 <= j < k ==> !is_ws(#[trigger] t@[j]),
        decreases t.len() - k,
    {
        k = k + 1;
    }
    proof {
        lemma_take_word(t@, k as int);
    }
    k
}

proof fn lemma_take_word(t: Seq<char>, k: int)
    requires
        0 <= k <= t.len(),
        forall|j: int| 0 <= j < k ==> !is_ws(#[trigger] t[j]),
        k == t.len() || is_ws(t[k]),
    ensures
        take_word(t) == t.subrange(0, k),
    decreases k,
{
    if k == 0 {
        assert(t.subrange(0, 0) =~= Seq::<char>::empty());
    } else {
        let d = t.drop_first();
        assert forall|j: int| 0 <= j < k - 1 implies !is_ws(#[trigger] d[j]) by {
            assert(d[j] == t[j + 1]);
        }
        assert(k - 1 == d.len() || is_ws(d[k - 1]));
        lemma_take_word(d, k - 1);
        assert(!is_ws(t[0]));
        assert(seq![t[0]] + d.subrange(0, k - 1) =~= t.subrange(0, k));
    }
}

/// The first whitespace-separated word of `s`.
pub fn first_word_chars(s: &[char]) -> (r: Vec<char>)
    ensures
        r@ == first_word(s@),
{
    let a = trim_start_len(s);
    let t = slice_of(s, a, s.len());
    let k = word_end(t.as_slice());
    slice_of(t.as_slice(), 0, k)
}

/// `s` with every leading `c` removed.
pub fn strip_leading_chars(s: &[char], c: char) -> (r: Vec<char>)
    ensures
        r@ == strip_leading(s@, c),
{
    let k = leading_count_chars(s, c);
    proof {
        lemma_strip_leading(s@, c);
    }
    slice_of(s, k, s.len())
}

proof fn lemma_strip_leading(s: Seq<char>, c: char)
    ensures
        leading_count(s, c) <= s.len(),
        strip_leading(s, c) == s.subrange(leading_count(s, c) as int, s.len() as int),
    decreases s.len(),
{
    if s.len() > 0 && s[0] == c {
        lemma_strip_leading(s.drop_first(), c);
        assert(s.drop_first().subrange(leading_count(s.drop_first(), c) as int, s.len() - 1)
            =~= s.subrange(leading_count(s, c) as int, s.len() as int));
    } else {
        assert(s.subrange(0, s.len() as int) =~= s);
    }
}

/// Number of leading `c` in `s`.
pub fn leading_count_chars(s: &[char], c: char) -> (k: usize)
    ensures
        k == leading_count(s@, c),
{
    let mut k: usize = 0;
    assert(s@.subrange(0, s.len() as int) == s@);
    while k < s.len() && s[k] == c
        invariant
            k <= s.len(),
            leading_count(s@, c) == k + leading_count(s@.subrange(k as int, s.len() as int), c),
        decreases s.len() - k,
    {
        proof {
            let r = s@.subrange(k as int, s.len() as int);
            assert(r.drop_first() == s@.subrange(k + 1, s.len() as int));
        }
        k = k + 1;
    }
    proof {
        let r = s@.subrange(k as int, s.len() as int);
        assert(r.len() == 0 || r[0] != c);
    }
    k
}

/// The part of `s` before its first `c`.
pub fn before_char_chars(s: &[char], c: char) -> (r: Vec<char>)
    ensures
        r@ == before_char(s@, c),
{
    let pat = vec![c];
    proof {
        lemma_find_char(s@, c);
        assert(pat@ == seq![c]);
    }
    match find_chars(s, pat.as_slice()) {
        Some(i) => slice_of(s, 0, i),
        None => slice_of(s, 0, s.len()),
    }
}

/// Appends every character of `t` to `out`.
pub fn push_all(out: &mut Vec<char>, t: &[char])
    ensures
        final(out)@ == old(out)@ + t@,
{
    let mut i: usize = 0;
    while i < t.len()
        invariant
            i <= t.len(),
            out@ == old(out)@ + t@.subrange(0, i as int),
        decreases t.len() - i,
    {
        out.push(t[i]);
        i = i + 1;
        assert(t@.subrange(0, i as int) == t@.subrange(0, i - 1).push(t@[i - 1]));
    }
    assert(t@.subrange(0, t.len() as int) == t@);
}

pub proof fn lemma_leading_count_le(s: Seq<char>, c: char)
    ensures
        leading_count(s, c) <= s.len(),
    decreases s.len(),
{
    if s.len() > 0 && s[0] == c {
        lemma_leading_count_le(s.drop_first(), c);
    }
}

/// Appends a copy of every vector of `extra` to `out`.
pub fn append_vecs(out: &mut Vec<Vec<char>>, extra: &Vec<Vec<char>>)
    ensures
        char_views(final(out)@) == char_views(old(out)@) + char_views(extra@),
{
    let ghost ev = char_views(extra@);
    let ghost start = char_views(out@);
    let mut i: usize = 0;
    while i < extra.len()
        invariant
            i <= extra@.len(),
            ev == char_views(extra@),
            char_views(out@) == start + ev.subrange(0, i as int),
        decreases extra@.len() - i,
    {
        let x = slice_of(extra[i].as_slice(), 0, extra[i].len());
        proof {
            assert(x@ == extra@[i as int]@);
            assert(char_views(out@.push(x)) == char_views(out@).push(x@));
            assert(ev.subrange(0, i + 1) == ev.subrange(0, i as int).push(x@));
        }
        out.push(x);
        i = i + 1;
    }
    proof {
        assert(ev.subrange(0, ev.len() as int) == ev);
    }
}

/// The parts joined with the one-character separator `sep`.
pub fn join_chars(parts: &Vec<Vec<char>>, sep: char) -> (r: Vec<char>)
    ensures
        r@ == join(char_views(parts@), seq![sep]),
{
    let ghost cv = char_views(parts@);
    let mut out: Vec<char> = Vec::new();
    let mut i: usize = 0;
    assert(cv.subrange(0, 0) =~= Seq::<Seq<char>>::empty());
    while i < parts.len()
        invariant
            i <= parts@.len(),
            cv == char_views(parts@),
            out@ == join(cv.subrange(0, i as int), seq![sep]),
        decreases parts@.len() - i,
    {
        let ghost before = cv.subrange(0, i as int);
        if i > 0 {
            out.push(sep);
        }
        push_all(&mut out, parts[i].as_slice());
        proof {
            let next = cv.subrange(0, i + 1);
            assert(next.drop_last() == before);
            assert(next.last() == parts@[i as int]@);
            if i > 0 {
                assert(join(next, seq![sep]) == join(before, seq![sep]) + seq![sep] + next.last());
                assert(out@ == join(before, seq![sep]) + seq![sep] + next.last());
            }
        }
        i = i + 1;
    }
    proof {
        assert(cv.subrange(0, cv.len() as int) == cv);
    }
    out
}

/// Adds `s` to `v` unless an equal string is already there.
pub fn insert_unique(v: &mut Vec<String>, s: String)
    requires
        str_views(old(v)@).no_duplicates(),
    ensures
        str_views(final(v)@).no_duplicates(),
        forall|y: Seq<char>| #[trigger] str_views(final(v)@).contains(y) <==> (str_views(
            old(v)@,
        ).contains(y) || y == s@),
{
    let ghost old_views = str_views(v@);
    let mut i: usize = 0;
    while i < v.len()
        invariant
            i <= v@.len(),
            old_views == str_views(v@),
            old_views.no_duplicates(),
            forall|j: int| 0 <= j < i ==> #[trigger] old_views[j] != s@,
        decreases v@.len() - i,
    {
        if str_eq(v[i].as_str(), s.as_str()) {
            proof {
                assert(old_views[i as int] == s@);
                assert forall|y: Seq<char>| #[trigger] old_views.contains(y) <==> (old_views.contains(y)
                    || y == s@) by {
                    if y == s@ {
                        assert(old_views[i as int] == y);
                    }
                }
            }
            return;
        }
        i = i + 1;
    }
    let ghost sv = s@;
    v.push(s);
    proof {
        let nv = str_views(v@);
        assert(nv == old_views.push(sv));
        assert forall|a: int, b: int|
            0 <= a < nv.len() && 0 <= b < nv.len() && a != b implies nv[a] != nv[b] by {
            if b == nv.len() - 1 {
                assert(old_views[a] != sv);
            } else if a == nv.len() - 1 {
                assert(old_views[b] != sv);
            } else {
                assert(old_views.no_duplicates());
            }
        }
        assert forall|y: Seq<char>| #[trigger] nv.contains(y) <==> (old_views.contains(y) || y == sv) by {
            if nv.contains(y) {
                let k = choose|k: int| 0 <= k < nv.len() && nv[k] == y;
                if k < old_views.len() {
                    assert(old_views[k] == y);
                }
            }
            if old_views.contains(y) {
                let k = choose|k: int| 0 <= k < old_views.len() && old_views[k] == y;
                assert(nv[k] == y);
            }
            if y == sv {
                assert(nv[nv.len() - 1] == y);
            }
        }
    }
}


// ── Ordering ────────────────────────────────────────────────────────────────

/// `a` sorts strictly before `b`: lexicographic by character code, a
/// proper prefix first (the order of `str` comparison).
pub open spec fn lex_lt(a: Seq<char>, b: Seq<char>) -> bool
    decreases a.len(),
{
    if a.len() == 0 {
        b.len() > 0
    } else if b.len() == 0 {
        false
    } else if a[0] != b[0] {
        a[0] < b[0]
    } else {
        lex_lt(a.drop_first(), b.drop_first())
    }
}

/// `a` sorts no later than `b`.
pub open spec fn lex_le(a: Seq<char>, b: Seq<char>) -> bool {
    !lex_lt(b, a)
}

/// Strictly ascending, hence no key twice: the order in which a
/// `BTreeMap` keeps its keys.
pub open spec fn keys_ascending(keys: Seq<Seq<char>>) -> bool {
    forall|i: int, j: int| 0 <= i < j < keys.len() ==> lex_lt(#[trigger] keys[i], #[trigger] keys[j])
}

/// No key occurs twice: what a hash map's keys are.
pub open spec fn keys_distinct(keys: Seq<Seq<char>>) -> bool {
    forall|i: int, j: int| 0 <= i < j < keys.len() ==> #[trigger] keys[i] != #[trigger] keys[j]
}

/// Every string sorts no later than the ones after it.
pub open spec fn lex_sorted(s: Seq<Seq<char>>) -> bool {
    forall|i: int, j: int| 0 <= i < j < s.len() ==> lex_le(#[trigger] s[i], #[trigger] s[j])
}

pub proof fn lemma_lex_total(a: Seq<char>, b: Seq<char>)
    ensures
        lex_lt(a, b) || a == b || lex_lt(b, a),
        !(lex_lt(a, b) && lex_lt(b, a)),
        !lex_lt(a, a),
    decreases a.len(),
{
    if a.len() == 0 {
        if b.len() == 0 {
            assert(a =~= b);
        }
    } else if b.len() == 0 {
        lemma_lex_total(a.drop_first(), a.drop_first());
    } else if a[0] != b[0] {
        lemma_lex_total(a.drop_first(), a.drop_first());
    } else {
        lemma_lex_total(a.drop_first(), a.drop_first());
        lemma_lex_total(a.drop_first(), b.drop_first());
        if a.drop_first() == b.drop_first() {
            assert(a =~= seq![a[0]] + a.drop_first());
            assert(b =~= seq![b[0]] + b.drop_first());
            assert(a =~= b);
        }
    }
}

pub proof fn lemma_lex_trans(a: Seq<char>, b: Seq<char>, c: Seq<char>)
    requires
        lex_lt(a, b),
        lex_lt(b, c),
    ensures
        lex_lt(a, c),
    decreases a.len(),
{
    if a.len() > 0 && b.len() > 0 && c.len() > 0 && a[0] == b[0] && b[0] == c[0] {
        lemma_lex_trans(a.drop_first(), b.drop_first(), c.drop_first());
    }
}

/// Does `a` sort strictly before `b`?
pub fn lex_less(a: &[char], b: &[char]) -> (r: bool)
    ensures
        r == lex_lt(a@, b@),
{
    let mut i: usize = 0;
    assert(a@.subrange(0, a.len() as int) == a@);
    assert(b@.subrange(0, b.len() as int) == b@);
    while i < a.len() && i < b.len() && a[i] == b[i]
        invariant
            i <= a.len(),
            i <= b.len(),
            a@.subrange(0, i as int) == b@.subrange(0, i as int),
            lex_lt(a@, b@) == lex_lt(a@.subrange(i as int, a.len() as int), b@.subrange(
                i as int,
                b.len() as int,
            )),
        decreases a.len() - i,
    {
        proof {
            let sa = a@.subrange(i as int, a.len() as int);
            let sb = b@.subrange(i as int, b.len() as int);
            assert(sa.drop_first() == a@.subrange(i + 1, a.len() as int));
            assert(sb.drop_first() == b@.subrange(i + 1, b.len() as int));
            assert(a@.subrange(0, i + 1) == a@.subrange(0, i as int).push(a@[i as int]));
            assert(b@.subrange(0, i + 1) == b@.subrange(0, i as int).push(b@[i as int]));
        }
        i = i + 1;
    }
    proof {
        assert(a@.subrange(0, a.len() as int) == a@);
        assert(b@.subrange(0, b.len() as int) == b@);
    }
    if i == a.len() {
        i < b.len()
    } else if i == b.len() {
        false
    } else {
        a[i] < b[i]
    }
}

pub proof fn lemma_le_trans(a: Seq<char>, b: Seq<char>, c: Seq<char>)
    requires
        lex_le(a, b),
        lex_le(b, c),
    ensures
        lex_le(a, c),
{
    if lex_lt(c, a) {
        lemma_lex_total(a, b);
        if lex_lt(a, b) {
            lemma_lex_trans(c, a, b);
        }
    }
}

/// The order [`lex_le`] as a relation.
pub open spec fn lex_leq() -> spec_fn(Seq<char>, Seq<char>) -> bool {
    |a: Seq<char>, b: Seq<char>| lex_le(a, b)
}

/// `s` sorted by [`lex_le`].
pub open spec fn lex_sort(s: Seq<Seq<char>>) -> Seq<Seq<char>> {
    s.sort_by(lex_leq())
}

pub proof fn lemma_lex_leq_total()
    ensures
        vstd::relations::total_ordering(lex_leq()),
{
    let r = lex_leq();
    assert forall|x: Seq<char>| #[trigger] r(x, x) by {
        lemma_lex_total(x, x);
    }
    assert forall|x: Seq<char>, y: Seq<char>| #[trigger] r(x, y) && #[trigger] r(y, x) implies x
        == y by {
        lemma_lex_total(x, y);
    }
    assert forall|x: Seq<char>, y: Seq<char>, z: Seq<char>| #[trigger] r(x, y) && #[trigger] r(
        y,
        z,
    ) implies r(x, z) by {
        lemma_le_trans(x, y, z);
    }
    assert forall|x: Seq<char>, y: Seq<char>| #[trigger] r(x, y) || #[trigger] r(y, x) by {
        lemma_lex_total(x, y);
    }
}

/// A sorted permutation of `v` is `lex_sort(v)`.
pub proof fn lemma_is_lex_sort(x: Seq<Seq<char>>, v: Seq<Seq<char>>)
    requires
        lex_sorted(x),
        x.to_multiset() == v.to_multiset(),
    ensures
        x == lex_sort(v),
{
    lemma_lex_leq_total();
    v.lemma_sort_by_ensures(lex_leq());
    assert(vstd::relations::sorted_by(x, lex_leq())) by {
        assert forall|i: int, j: int| 0 <= i < j < x.len() implies #[trigger] lex_leq()(x[i], x[j]) by {
            assert(lex_le(x[i], x[j]));
        }
    }
    vstd::seq_lib::lemma_sorted_unique(x, lex_sort(v), lex_leq());
}

/// The strings of `v`, sorted by [`lex_lt`] (a stable insertion sort).
pub fn sort_strings(v: &Vec<String>) -> (r: Vec<String>)
    ensures
        lex_sorted(str_views(r@)),
        str_views(r@).to_multiset() == str_views(v@).to_multiset(),
        str_views(r@) == lex_sort(str_views(v@)),
{
    let ghost vv = str_views(v@);
    let mut out: Vec<String> = Vec::new();
    let mut i: usize = 0;
    proof {
        assert(str_views(out@) =~= Seq::<Seq<char>>::empty());
        assert(vv.subrange(0, 0) =~= Seq::<Seq<char>>::empty());
    }
    while i < v.len()
        invariant
            i <= v@.len(),
            vv == str_views(v@),
            lex_sorted(str_views(out@)),
            str_views(out@).to_multiset() == vv.subrange(0, i as int).to_multiset(),
        decreases v@.len() - i,
    {
        let x = v[i].clone();
        let xc = chars_of(x.as_str());
        let ghost ov = str_views(out@);
        let mut p: usize = out.len();
        while p > 0
            invariant
                p <= out@.len(),
                ov == str_views(out@),
                xc@ == x@,
                forall|k: int| p <= k < ov.len() ==> lex_lt(x@, #[trigger] ov[k]),
            ensures
                p <= out@.len(),
                forall|k: int| p <= k < ov.len() ==> lex_lt(x@, #[trigger] ov[k]),
                p == 0 || !lex_lt(x@, ov[p - 1]),
            decreases p,
        {
            let yc = chars_of(out[p - 1].as_str());
            proof {
                assert(ov[p - 1] == out@[p - 1]@);
            }
            if !lex_less(xc.as_slice(), yc.as_slice()) {
                break;
            }
            p = p - 1;
        }
        let ghost xv = x@;
        proof {
            assert(vv[i as int] == xv);
        }
        out.insert(p, x);
        proof {
            let nv = str_views(out@);
            assert(nv =~= ov.insert(p as int, xv));
            vstd::seq_lib::to_multiset_insert(ov, p as int, xv);
            assert(vv.subrange(0, i + 1) =~= vv.subrange(0, i as int).push(xv));
            vstd::seq_lib::to_multiset_build(vv.subrange(0, i as int), xv);
            assert(nv.to_multiset() == vv.subrange(0, i + 1).to_multiset());
            assert forall|a: int, b: int| 0 <= a < b < nv.len() implies lex_le(
                #[trigger] nv[a],
                #[trigger] nv[b],
            ) by {
                if b < p {
                    assert(lex_le(ov[a], ov[b]));
                } else if b == p {
                    assert(lex_le(ov[p - 1], xv));
                    if a < p - 1 {
                        assert(lex_le(ov[a], ov[p - 1]));
                        lemma_le_trans(ov[a], ov[p - 1], xv);
                    }
                } else if a < p {
                    assert(lex_le(ov[a], ov[b - 1]));
                } else if a == p {
                    assert(lex_lt(xv, ov[b - 1]));
                    lemma_lex_total(xv, ov[b - 1]);
                } else {
                    assert(lex_le(ov[a - 1], ov[b - 1]));
                }
            }
        }
        i = i + 1;
    }
    proof {
        assert(vv.subrange(0, vv.len() as int) == vv);
        lemma_is_lex_sort(str_views(out@), vv);
    }
    out
}


/// A copy of an optional string.
pub fn copy_opt(o: &Option<String>) -> (r: Option<String>)
    ensures
        r == *o,
{
    match o {
        Some(s) => Some(s.clone()),
        None => None,
    }
}


/// The whitespace-separated words of `s` (what `split_whitespace` yields).
pub open spec fn words(s: Seq<char>) -> Seq<Seq<char>>
    decreases s.len(),
{
    let t = trim_start(s);
    proof {
        lemma_trim_start_shape(s);
        lemma_take_word_shape(t);
    }
    if t.len() == 0 {
        Seq::empty()
    } else {
        let w = take_word(t);
        seq![w] + words(t.subrange(w.len() as int, t.len() as int))
    }
}

pub proof fn lemma_trim_start_shape(s: Seq<char>)
    ensures
        trim_start(s).len() <= s.len(),
        trim_start(s).len() > 0 ==> !is_ws(trim_start(s)[0]),
    decreases s.len(),
{
    if s.len() > 0 && is_ws(s[0]) {
        lemma_trim_start_shape(s.drop_first());
    }
}

pub proof fn lemma_take_word_shape(t: Seq<char>)
    ensures
        take_word(t).len() <= t.len(),
        t.len() > 0 && !is_ws(t[0]) ==> take_word(t).len() >= 1,
    decreases t.len(),
{
    if t.len() > 0 && !is_ws(t[0]) {
        lemma_take_word_shape(t.drop_first());
    }
}

/// The whitespace-separated words of `s`.
pub fn words_of(s: &str) -> (r: Vec<String>)
    ensures
        str_views(r@) == words(s@),
{
    let mut rest = chars_of(s);
    let mut out: Vec<String> = Vec::new();
    assert(str_views(out@) + words(rest@) == words(s@));
    loop
        invariant
            str_views(out@) + words(rest@) == words(s@),
        decreases rest@.len(),
    {
        let k = trim_start_len(rest.as_slice());
        let t = slice_of(rest.as_slice(), k, rest.len());
        proof {
            lemma_trim_start_shape(rest@);
        }
        if t.len() == 0 {
            proof {
                assert(words(rest@) == Seq::<Seq<char>>::empty());
                assert(str_views(out@) + Seq::<Seq<char>>::empty() == str_views(out@));
            }
            return out;
        }
        let e = word_end(t.as_slice());
        proof {
            lemma_take_word_shape(t@);
        }
        let w = slice_of(t.as_slice(), 0, e);
        let next = slice_of(t.as_slice(), e, t.len());
        let ws = string_from(w.as_slice());
        proof {
            assert(words(rest@) == seq![w@] + words(next@));
            assert(str_views(out@.push(ws)) == str_views(out@).push(ws@));
            assert(str_views(out@).push(ws@) + words(next@) == str_views(out@) + (seq![w@] + words(
                next@,
            )));
        }
        out.push(ws);
        rest = next;
    }
}


/// The strings joined with `sep` between consecutive ones.
pub fn join_strings(parts: &Vec<String>, sep: &str) -> (r: String)
    ensures
        r@ == join(str_views(parts@), sep@),
{
    let ghost pv = str_views(parts@);
    let mut out = String::new();
    let mut i: usize = 0;
    assert(pv.subrange(0, 0) =~= Seq::<Seq<char>>::empty());
    while i < parts.len()
        invariant
            i <= parts@.len(),
            pv == str_views(parts@),
            out@ == join(pv.subrange(0, i as int), sep@),
        decreases parts@.len() - i,
    {
        let ghost before = pv.subrange(0, i as int);
        if i > 0 {
            push_str(&mut out, sep);
        }
        push_str(&mut out, parts[i].as_str());
        proof {
            let next = pv.subrange(0, i + 1);
            assert(next.drop_last() == before);
            assert(next.last() == parts@[i as int]@);
        }
        i = i + 1;
    }
    proof {
        assert(pv.subrange(0, pv.len() as int) == pv);
    }
    out
}


/// Decimal rendering of a signed integer (`-` before negatives).
pub open spec fn dec_signed(n: int) -> Seq<char> {
    if n < 0 { "-"@ + dec((-n) as nat) } else { dec(n as nat) }
}

/// Appends the decimal rendering of `n` to `out`.
pub fn push_i32(out: &mut String, n: i32)
    ensures
        final(out)@ == old(out)@ + dec_signed(n as int),
{
    if n < 0 {
        push_str(out, "-");
        let m: i64 = -(n as i64);
        push_dec(out, m as u64);
        proof {
            reveal_strlit("-");
        }
    } else {
        push_dec(out, n as u64);
    }
}


/// Is `s` one of the strings of `v`?
pub fn has_string(v: &[String], s: &str) -> (r: bool)
    ensures
        r == str_views(v@).contains(s@),
{
    let ghost vv = str_views(v@);
    let mut i: usize = 0;
    while i < v.len()
        invariant
            i <= v@.len(),
            vv == str_views(v@),
            forall|k: int| 0 <= k < i ==> vv[k] != s@,
        decreases v@.len() - i,
    {
        if str_eq(v[i].as_str(), s) {
            proof {
                assert(vv[i as int] == s@);
            }
            return true;
        }
        i = i + 1;
    }
    false
}

} // verus!
