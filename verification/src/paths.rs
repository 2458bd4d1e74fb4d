//! File-system paths as `/`-separated strings, with the component rules of
//! `std::path` on Unix: repeated separators collapse, a trailing separator
//! is ignored, and `.` is dropped except as the first component. A leading
//! `/` is the root component, written `"/"` in a component list.
use vstd::prelude::*;

use crate::text;
use crate::text::{char_views, split, str_views};

verus! {

// ── Model ───────────────────────────────────────────────────────────────────

/// The pieces that name something: neither empty nor `.`.
pub open spec fn named_pieces(ps: Seq<Seq<char>>) -> Seq<Seq<char>>
    decreases ps.len(),
{
    if ps.len() == 0 {
        Seq::empty()
    } else {
        let rest = named_pieces(ps.drop_first());
        if ps[0].len() > 0 && ps[0] != "."@ { seq![ps[0]] + rest } else { rest }
    }
}

/// The components of `p`.
pub open spec fn comps(p: Seq<char>) -> Seq<Seq<char>> {
    let named = named_pieces(split(p, '/'));
    if p.len() > 0 && p[0] == '/' {
        seq!["/"@] + named
    } else if p.len() > 0 && p[0] == '.' && (p.len() == 1 || p[1] == '/') {
        seq!["."@] + named
    } else {
        named
    }
}

/// The text of a component list.
pub open spec fn render(c: Seq<Seq<char>>) -> Seq<char> {
    if c.len() > 0 && c[0] == "/"@ {
        "/"@ + text::join(c.drop_first(), "/"@)
    } else {
        text::join(c, "/"@)
    }
}

/// The components of the parent, `None` for the root and the empty path.
pub open spec fn parent_comps(c: Seq<Seq<char>>) -> Option<Seq<Seq<char>>> {
    if c.len() == 0 || c.last() == "/"@ {
        None
    } else {
        Some(c.drop_last())
    }
}

/// `a` is a component-wise prefix of `b` (what `Path::starts_with` tests).
pub open spec fn comps_prefix(a: Seq<Seq<char>>, b: Seq<Seq<char>>) -> bool {
    a.len() <= b.len() && b.subrange(0, a.len() as int) == a
}

/// The file name: the last component when it names something.
pub open spec fn file_name(p: Seq<char>) -> Option<Seq<char>> {
    let c = comps(p);
    if c.len() == 0 || c.last() == "/"@ || c.last() == "."@ || c.last() == ".."@ {
        None
    } else {
        Some(c.last())
    }
}

/// The extension of a file name: the text after its last `.`, unless that
/// `.` is the first character or the name is `..`.
pub open spec fn name_extension(name: Seq<char>) -> Option<Seq<char>> {
    if name == ".."@ {
        None
    } else {
        match name.index_of_last('.') {
            Some(i) => if 0 < i < name.len() {
                Some(name.subrange(i + 1, name.len() as int))
            } else {
                None
            },
            None => None,
        }
    }
}

/// The extension of the file named by `p`.
pub open spec fn extension(p: Seq<char>) -> Option<Seq<char>> {
    match file_name(p) {
        Some(n) => name_extension(n),
        None => None,
    }
}

/// ASCII case-insensitive equality.
pub open spec fn eq_ignore_case(a: Seq<char>, b: Seq<char>) -> bool {
    text::lower_ascii_seq(a) == text::lower_ascii_seq(b)
}

// ── Lemmas ──────────────────────────────────────────────────────────────────

proof fn lemma_named_pieces_push(ps: Seq<Seq<char>>, x: Seq<char>)
    ensures
        named_pieces(ps.push(x)) == if x.len() > 0 && x != "."@ {
            named_pieces(ps).push(x)
        } else {
            named_pieces(ps)
        },
    decreases ps.len(),
{
    if ps.len() == 0 {
        assert(ps.push(x).drop_first() =~= Seq::<Seq<char>>::empty());
        assert(named_pieces(ps.push(x).drop_first()) == Seq::<Seq<char>>::empty());
        assert(seq![x] + Seq::<Seq<char>>::empty() =~= Seq::<Seq<char>>::empty().push(x));
    } else {
        assert(ps.push(x).drop_first() =~= ps.drop_first().push(x));
        assert(ps.push(x)[0] == ps[0]);
        lemma_named_pieces_push(ps.drop_first(), x);
        let r = named_pieces(ps.drop_first());
        assert((seq![ps[0]] + r).push(x) =~= seq![ps[0]] + r.push(x));
    }
}

// ── Executable ──────────────────────────────────────────────────────────────

/// Text equality with a literal given as characters.
fn is_dot(s: &[char]) -> (r: bool)
    ensures
        r == (s@ == "."@),
{
    proof {
        reveal_strlit(".");
    }
    if s.len() == 1 && s[0] == '.' {
        assert(s@ =~= "."@);
        true
    } else {
        false
    }
}

/// The components of `p`.
pub fn components(p: &[char]) -> (r: Vec<Vec<char>>)
    ensures
        char_views(r@) == comps(p@),
{
    let pieces = text::split_chars(p, '/');
    let ghost pv = char_views(pieces@);
    proof {
        assert(pv =~= split(p@, '/'));
    }
    let mut named: Vec<Vec<char>> = Vec::new();
    let mut i: usize = 0;
    while i < pieces.len()
        invariant
            i <= pieces@.len(),
            pv == char_views(pieces@),
            char_views(named@) == named_pieces(pv.subrange(0, i as int)),
        decreases pieces@.len() - i,
    {
        let piece = &pieces[i];
        proof {
            assert(pv.subrange(0, i + 1) == pv.subrange(0, i as int).push(piece@));
            lemma_named_pieces_push(pv.subrange(0, i as int), piece@);
        }
        if piece.len() > 0 && !is_dot(piece.as_slice()) {
            let copy = text::slice_of(piece.as_slice(), 0, piece.len());
            proof {
                assert(copy@ == piece@);
                assert(char_views(named@.push(copy)) == char_views(named@).push(copy@));
            }
            named.push(copy);
        }
        i = i + 1;
    }
    proof {
        assert(pv.subrange(0, pv.len() as int) == pv);
        reveal_strlit("/");
        reveal_strlit(".");
    }
    if p.len() > 0 && p[0] == '/' {
        let mut out: Vec<Vec<char>> = Vec::new();
        let mut root: Vec<char> = Vec::new();
        root.push('/');
        proof {
            assert(root@ =~= "/"@);
        }
        out.push(root);
        proof {
            assert(char_views(out@) =~= seq!["/"@]);
        }
        text::append_vecs(&mut out, &named);
        out
    } else if p.len() > 0 && p[0] == '.' && (p.len() == 1 || p[1] == '/') {
        let mut out: Vec<Vec<char>> = Vec::new();
        let mut cur: Vec<char> = Vec::new();
        cur.push('.');
        proof {
            assert(cur@ =~= "."@);
        }
        out.push(cur);
        proof {
            assert(char_views(out@) =~= seq!["."@]);
        }
        text::append_vecs(&mut out, &named);
        out
    } else {
        named
    }
}

/// The text of a component list.
pub fn render_comps(c: &Vec<Vec<char>>) -> (r: String)
    ensures
        r@ == render(char_views(c@)),
{
    proof {
        reveal_strlit("/");
    }
    let ghost cv = char_views(c@);
    let mut out = String::new();
    let mut start: usize = 0;
    if c.len() > 0 && c[0].len() == 1 && c[0][0] == '/' {
        proof {
            assert(cv[0] == c@[0]@);
            assert(cv[0] =~= "/"@);
        }
        text::push_char(&mut out, '/');
        start = 1;
    } else {
        proof {
            if cv.len() > 0 && cv[0] == "/"@ {
                assert(c@[0]@.len() == 1 && c@[0]@[0] == '/');
            }
        }
    }
    let ghost prefix = out@;
    let ghost parts = cv.subrange(start as int, cv.len() as int);
    proof {
        if start == 1 {
            assert(parts == cv.drop_first());
        } else {
            assert(parts == cv);
        }
    }
    let mut i = start;
    assert(parts.subrange(0, 0) =~= Seq::<Seq<char>>::empty());
    while i < c.len()
        invariant
            start <= i <= c@.len(),
            cv == char_views(c@),
            parts == cv.subrange(start as int, cv.len() as int),
            out@ == prefix + text::join(parts.subrange(0, i - start), "/"@),
        decreases c@.len() - i,
    {
        let ghost before = parts.subrange(0, i - start);
        if i > start {
            text::push_char(&mut out, '/');
        }
        text::push_chars(&mut out, c[i].as_slice());
        proof {
            let next = parts.subrange(0, i + 1 - start);
            assert(next.drop_last() == before);
            assert(next.last() == c@[i as int]@);
            if i == start {
                assert(next.len() == 1);
                assert(text::join(next, "/"@) == next[0]);
            } else {
                assert(text::join(next, "/"@) == text::join(before, "/"@) + "/"@ + next.last());
                reveal_strlit("/");
                assert("/"@ == seq!['/']);
            }
        }
        i = i + 1;
    }
    proof {
        assert(parts.subrange(0, c@.len() - start) == parts);
    }
    out
}


// ── Derived operations ──────────────────────────────────────────────────────

/// Walks `anc` up until it is a prefix of `target`; `None` when even the
/// topmost ancestor is not.
pub open spec fn climb(anc: Seq<Seq<char>>, target: Seq<Seq<char>>) -> Option<Seq<Seq<char>>>
    decreases anc.len(),
{
    if comps_prefix(anc, target) {
        Some(anc)
    } else if anc.len() == 0 || anc.last() == "/"@ {
        None
    } else {
        climb(anc.drop_last(), target)
    }
}

/// The parent of a component list, `.` when it has none.
pub open spec fn parent_or_dot(c: Seq<Seq<char>>) -> Seq<Seq<char>> {
    match parent_comps(c) {
        Some(x) => x,
        None => seq!["."@],
    }
}

/// The shared ancestor after taking in the parents of `rest`; the root
/// once some parent shares nothing with it.
pub open spec fn fold_ancestor(anc: Seq<Seq<char>>, rest: Seq<Seq<char>>) -> Seq<Seq<char>>
    decreases rest.len(),
{
    if rest.len() == 0 {
        anc
    } else {
        match climb(anc, parent_or_dot(comps(rest[0]))) {
            Some(a2) => fold_ancestor(a2, rest.drop_first()),
            None => seq!["/"@],
        }
    }
}

/// Longest shared directory prefix of the parents of `paths`.
pub open spec fn common_ancestor_spec(paths: Seq<Seq<char>>) -> Option<Seq<char>> {
    if paths.len() == 0 {
        None
    } else {
        Some(render(fold_ancestor(parent_or_dot(comps(paths[0])), paths.drop_first())))
    }
}

/// Is `a` a component-wise prefix of `b`?
pub fn comps_starts_with(a: &Vec<Vec<char>>, b: &Vec<Vec<char>>) -> (r: bool)
    ensures
        r == comps_prefix(char_views(a@), char_views(b@)),
{
    let ghost av = char_views(a@);
    let ghost bv = char_views(b@);
    if a.len() > b.len() {
        return false;
    }
    let mut i: usize = 0;
    while i < a.len()
        invariant
            i <= a@.len() <= b@.len(),
            av == char_views(a@),
            bv == char_views(b@),
            bv.subrange(0, i as int) == av.subrange(0, i as int),
        decreases a@.len() - i,
    {
        if !text::eq_chars(a[i].as_slice(), b[i].as_slice()) {
            proof {
                assert(bv.subrange(0, av.len() as int)[i as int] != av[i as int]);
            }
            return false;
        }
        proof {
            assert(bv.subrange(0, i + 1) == bv.subrange(0, i as int).push(bv[i as int]));
            assert(av.subrange(0, i + 1) == av.subrange(0, i as int).push(av[i as int]));
        }
        i = i + 1;
    }
    proof {
        assert(av.subrange(0, av.len() as int) == av);
    }
    true
}

/// Is `c` empty or the root alone?
fn is_top(c: &Vec<Vec<char>>) -> (r: bool)
    ensures
        r == (c@.len() == 0 || char_views(c@).last() == "/"@),
{
    proof {
        reveal_strlit("/");
    }
    if c.len() == 0 {
        return true;
    }
    let last = &c[c.len() - 1];
    let r = last.len() == 1 && last[0] == '/';
    proof {
        let lv = char_views(c@).last();
        assert(lv == last@);
        if r {
            assert(lv =~= "/"@);
        }
    }
    r
}

/// Drops the last component.
fn pop_comp(c: &mut Vec<Vec<char>>)
    requires
        old(c)@.len() > 0,
    ensures
        char_views(final(c)@) == char_views(old(c)@).drop_last(),
{
    let _ = c.pop();
    proof {
        assert(char_views(c@) =~= char_views(old(c)@).drop_last());
    }
}

/// The parent of `c`, `.` when it has none.
fn parent_or_dot_exec(c: &Vec<Vec<char>>) -> (r: Vec<Vec<char>>)
    ensures
        char_views(r@) == parent_or_dot(char_views(c@)),
{
    if is_top(c) {
        let mut dot: Vec<char> = Vec::new();
        dot.push('.');
        let mut out: Vec<Vec<char>> = Vec::new();
        proof {
            reveal_strlit(".");
            assert(dot@ =~= "."@);
        }
        out.push(dot);
        proof {
            assert(char_views(out@) =~= seq!["."@]);
        }
        out
    } else {
        let mut out: Vec<Vec<char>> = Vec::new();
        text::append_vecs(&mut out, c);
        pop_comp(&mut out);
        out
    }
}

/// Longest shared directory prefix of the given paths' parents, as
/// `Path::parent` and `Path::starts_with` see them; `None` for no paths.
/// `["/a/b/c.md", "/a/b/d.md"]` gives `/a/b`.
pub fn common_ancestor(paths: &[String]) -> (r: Option<String>)
    ensures
        match r {
            Some(s) => common_ancestor_spec(text::str_views(paths@)) == Some(s@),
            None => common_ancestor_spec(text::str_views(paths@)) is None,
        },
{
    let ghost pv = text::str_views(paths@);
    if paths.len() == 0 {
        return None;
    }
    let first = text::chars_of(paths[0].as_str());
    let fc = components(first.as_slice());
    let mut anc = parent_or_dot_exec(&fc);
    let mut i: usize = 1;
    proof {
        assert(pv.drop_first() == pv.subrange(1, pv.len() as int));
    }
    while i < paths.len()
        invariant
            1 <= i <= paths@.len(),
            pv == text::str_views(paths@),
            fold_ancestor(parent_or_dot(comps(pv[0])), pv.drop_first()) == fold_ancestor(
                char_views(anc@),
                pv.subrange(i as int, pv.len() as int),
            ),
        decreases paths@.len() - i,
    {
        let pc = text::chars_of(paths[i].as_str());
        let cc = components(pc.as_slice());
        let target = parent_or_dot_exec(&cc);
        let ghost rest = pv.subrange(i as int, pv.len() as int);
        proof {
            assert(rest[0] == paths@[i as int]@);
            assert(rest.drop_first() == pv.subrange(i + 1, pv.len() as int));
        }
        let ghost tv = char_views(target@);
        let ghost a0 = char_views(anc@);
        proof {
            assert(tv == parent_or_dot(comps(rest[0])));
        }
        loop
            invariant_except_break
                tv == char_views(target@),
                rest.len() > 0,
                tv == parent_or_dot(comps(rest[0])),
                climb(char_views(anc@), tv) == climb(a0, tv),
                pv == text::str_views(paths@),
                paths@.len() > 0,
                fold_ancestor(parent_or_dot(comps(pv[0])), pv.drop_first()) == fold_ancestor(
                    a0,
                    rest,
                ),
            ensures
                climb(a0, tv) == Some(char_views(anc@)),
            decreases anc@.len(),
        {
            if comps_starts_with(&anc, &target) {
                break;
            }
            if is_top(&anc) {
                let mut out = String::new();
                text::push_char(&mut out, '/');
                proof {
                    reveal_strlit("/");
                    assert(fold_ancestor(a0, rest) == seq!["/"@]);
                    assert(render(seq!["/"@]) =~= "/"@);
                    assert(out@ =~= "/"@);
                }
                return Some(out);
            }
            pop_comp(&mut anc);
        }
        proof {
            assert(fold_ancestor(a0, rest) == fold_ancestor(char_views(anc@), rest.drop_first()));
        }
        i = i + 1;
    }
    proof {
        assert(pv.subrange(i as int, pv.len() as int).len() == 0);
        assert(pv[0] == first@);
    }
    Some(render_comps(&anc))
}


/// `root` with each `\` turned into `/`.
pub open spec fn forward_slashes(s: Seq<char>) -> Seq<char> {
    s.map_values(|c: char| if c == '\\' { '/' } else { c })
}

/// A glob pattern anchored under `root`: absolute patterns stay as they
/// are; a relative one is joined under `root` with exactly one `/`.
pub open spec fn anchored(root: Seq<char>, pattern: Seq<char>) -> Seq<char> {
    if pattern.len() > 0 && pattern[0] == '/' {
        pattern
    } else {
        let r = forward_slashes(root);
        if r.len() > 0 && r.last() == '/' { r + pattern } else { r + "/"@ + pattern }
    }
}

/// Join a glob pattern under `root`, producing an absolute glob string
/// with `/` separators on every platform.
pub fn anchor_pattern(root: &str, pattern: &str) -> (r: String)
    ensures
        r@ == anchored(root@, pattern@),
{
    let p = text::chars_of(pattern);
    if p.len() > 0 && p[0] == '/' {
        return text::string_from(p.as_slice());
    }
    let rc = text::chars_of(root);
    let mut out = String::new();
    let mut i: usize = 0;
    while i < rc.len()
        invariant
            i <= rc@.len(),
            rc@ == root@,
            out@ == forward_slashes(root@).subrange(0, i as int),
        decreases rc@.len() - i,
    {
        let c = if rc[i] == '\\' { '/' } else { rc[i] };
        text::push_char(&mut out, c);
        proof {
            assert(forward_slashes(root@).subrange(0, i + 1) == forward_slashes(root@).subrange(
                0,
                i as int,
            ).push(c));
        }
        i = i + 1;
    }
    proof {
        assert(forward_slashes(root@).subrange(0, rc@.len() as int) == forward_slashes(root@));
    }
    let ends_slash = rc.len() > 0 && (rc[rc.len() - 1] == '/' || rc[rc.len() - 1] == '\\');
    proof {
        let f = forward_slashes(root@);
        if rc@.len() > 0 {
            assert(f.last() == (if rc@.last() == '\\' { '/' } else { rc@.last() }));
        }
    }
    if !ends_slash {
        text::push_char(&mut out, '/');
        proof {
            reveal_strlit("/");
            assert(seq!['/'] == "/"@);
        }
    }
    text::push_chars(&mut out, p.as_slice());
    out
}

/// `s` holds a glob metacharacter: `*`, `?`, `[` or `{`.
pub open spec fn glob_meta(s: Seq<char>) -> bool {
    s.contains('*') || s.contains('?') || s.contains('[') || s.contains('{')
}

/// Does `s` hold a glob metacharacter?
pub fn contains_glob_meta(s: &str) -> (r: bool)
    ensures
        r == glob_meta(s@),
{
    let c = text::chars_of(s);
    text::has_char(c.as_slice(), '*') || text::has_char(c.as_slice(), '?') || text::has_char(
        c.as_slice(),
        '[',
    ) || text::has_char(c.as_slice(), '{')
}

/// The leading segments free of glob metacharacters, empty ones left out.
pub open spec fn literal_segments(segs: Seq<Seq<char>>) -> Seq<Seq<char>>
    decreases segs.len(),
{
    if segs.len() == 0 || glob_meta(segs[0]) {
        Seq::empty()
    } else if segs[0].len() == 0 {
        literal_segments(segs.drop_first())
    } else {
        seq![segs[0]] + literal_segments(segs.drop_first())
    }
}

/// The longest leading part of a `/`-separated glob pattern that holds no
/// metacharacter: `/` plus the literal segments for an absolute pattern,
/// `.` when a relative pattern has none.
pub open spec fn literal_prefix_spec(pattern: Seq<char>) -> Seq<char> {
    if pattern.len() > 0 && pattern[0] == '/' {
        "/"@ + text::join(literal_segments(split(pattern.drop_first(), '/')), "/"@)
    } else {
        let lit = literal_segments(split(pattern, '/'));
        if lit.len() == 0 { "."@ } else { text::join(lit, "/"@) }
    }
}

/// Does the component text `s` hold a glob metacharacter?
fn glob_meta_chars(s: &[char]) -> (r: bool)
    ensures
        r == glob_meta(s@),
{
    text::has_char(s, '*') || text::has_char(s, '?') || text::has_char(s, '[') || text::has_char(
        s,
        '{',
    )
}

/// The text of a component list, joined with `/`.
fn join_slash(c: &Vec<Vec<char>>) -> (r: String)
    ensures
        r@ == text::join(char_views(c@), "/"@),
{
    let ghost cv = char_views(c@);
    let mut out = String::new();
    let mut i: usize = 0;
    assert(cv.subrange(0, 0) =~= Seq::<Seq<char>>::empty());
    while i < c.len()
        invariant
            i <= c@.len(),
            cv == char_views(c@),
            out@ == text::join(cv.subrange(0, i as int), "/"@),
        decreases c@.len() - i,
    {
        let ghost before = cv.subrange(0, i as int);
        if i > 0 {
            text::push_char(&mut out, '/');
        }
        text::push_chars(&mut out, c[i].as_slice());
        proof {
            let next = cv.subrange(0, i + 1);
            assert(next.drop_last() == before);
            assert(next.last() == c@[i as int]@);
            if i > 0 {
                reveal_strlit("/");
                assert("/"@ == seq!['/']);
                assert(text::join(next, "/"@) == text::join(before, "/"@) + "/"@ + next.last());
            }
        }
        i = i + 1;
    }
    proof {
        assert(cv.subrange(0, cv.len() as int) == cv);
    }
    out
}

/// The literal segments of `segs`.
fn literal_segments_exec(segs: &Vec<Vec<char>>) -> (r: Vec<Vec<char>>)
    ensures
        char_views(r@) == literal_segments(char_views(segs@)),
{
    let ghost sv = char_views(segs@);
    let mut n: usize = 0;
    while n < segs.len() && !glob_meta_chars(segs[n].as_slice())
        invariant
            n <= segs@.len(),
            sv == char_views(segs@),
            forall|k: int| 0 <= k < n ==> !glob_meta(#[trigger] sv[k]),
        decreases segs@.len() - n,
    {
        n = n + 1;
    }
    // Build back to front so each step prepends.
    let mut acc: Vec<Vec<char>> = Vec::new();
    let mut i = n;
    proof {
        assert(n == sv.len() || glob_meta(sv[n as int]));
        assert(literal_segments(sv.subrange(n as int, sv.len() as int)) == Seq::<Seq<char>>::empty());
    }
    while i > 0
        invariant
            i <= n <= segs@.len(),
            sv == char_views(segs@),
            forall|k: int| 0 <= k < n ==> !glob_meta(#[trigger] sv[k]),
            literal_segments(sv.subrange(n as int, sv.len() as int)) == Seq::<Seq<char>>::empty(),
            char_views(acc@) + Seq::<Seq<char>>::empty() == literal_segments(
                sv.subrange(i as int, sv.len() as int),
            ) || char_views(acc@) == literal_segments(sv.subrange(i as int, sv.len() as int)),
        decreases i,
    {
        i = i - 1;
        proof {
            let sub = sv.subrange(i as int, sv.len() as int);
            assert(sub[0] == sv[i as int]);
            assert(sub.drop_first() == sv.subrange(i + 1, sv.len() as int));
            assert(!glob_meta(sv[i as int]));
        }
        if segs[i].len() > 0 {
            let copy = text::slice_of(segs[i].as_slice(), 0, segs[i].len());
            let ghost before = char_views(acc@);
            acc.insert(0, copy);
            proof {
                assert(copy@ == sv[i as int]);
                assert(char_views(acc@) =~= seq![copy@] + before);
            }
        }
    }
    proof {
        assert(sv.subrange(0, sv.len() as int) == sv);
    }
    acc
}

/// The longest literal leading part of a glob pattern (see
/// [`literal_prefix_spec`]).
pub fn literal_prefix(pattern: &str) -> (r: String)
    ensures
        r@ == literal_prefix_spec(pattern@),
{
    let p = text::chars_of(pattern);
    if p.len() > 0 && p[0] == '/' {
        let rest = text::slice_of(p.as_slice(), 1, p.len());
        let segs = text::split_chars(rest.as_slice(), '/');
        proof {
            assert(char_views(segs@) =~= split(rest@, '/'));
            assert(rest@ == pattern@.drop_first());
        }
        let lit = literal_segments_exec(&segs);
        let mut out = String::new();
        text::push_char(&mut out, '/');
        let body = join_slash(&lit);
        text::push_str(&mut out, body.as_str());
        proof {
            reveal_strlit("/");
            assert(seq!['/'] == "/"@);
        }
        out
    } else {
        let segs = text::split_chars(p.as_slice(), '/');
        proof {
            assert(char_views(segs@) =~= split(p@, '/'));
        }
        let lit = literal_segments_exec(&segs);
        if lit.len() == 0 {
            let mut out = String::new();
            text::push_char(&mut out, '.');
            proof {
                reveal_strlit(".");
                assert(out@ =~= "."@);
            }
            out
        } else {
            join_slash(&lit)
        }
    }
}

/// The parent of `p`, `None` for the root and the empty path.
pub fn parent_path(p: &str) -> (r: Option<String>)
    ensures
        match r {
            Some(s) => parent_comps(comps(p@)) matches Some(c) && s@ == render(c),
            None => parent_comps(comps(p@)) is None,
        },
{
    let pc = text::chars_of(p);
    let mut c = components(pc.as_slice());
    if is_top(&c) {
        return None;
    }
    pop_comp(&mut c);
    Some(render_comps(&c))
}

/// The file name of `p`: its last component when that names something.
pub fn file_name_of(p: &str) -> (r: Option<String>)
    ensures
        match r {
            Some(s) => file_name(p@) == Some(s@),
            None => file_name(p@) is None,
        },
{
    proof {
        reveal_strlit("/");
        reveal_strlit(".");
        reveal_strlit("..");
    }
    let pc = text::chars_of(p);
    let c = components(pc.as_slice());
    if c.len() == 0 {
        return None;
    }
    let last = &c[c.len() - 1];
    let ghost lv = char_views(c@).last();
    proof {
        assert(lv == last@);
    }
    let slash: Vec<char> = vec!['/'];
    let dot: Vec<char> = vec!['.'];
    let dotdot: Vec<char> = vec!['.', '.'];
    proof {
        assert(slash@ =~= "/"@);
        assert(dot@ =~= "."@);
        assert(dotdot@ =~= ".."@);
    }
    if text::eq_chars(last.as_slice(), slash.as_slice()) || text::eq_chars(
        last.as_slice(),
        dot.as_slice(),
    ) || text::eq_chars(last.as_slice(), dotdot.as_slice()) {
        return None;
    }
    Some(text::string_from(last.as_slice()))
}

/// The extension of a file name.
pub fn name_extension_exec(name: &[char]) -> (r: Option<Vec<char>>)
    ensures
        match r {
            Some(e) => name_extension(name@) == Some(e@),
            None => name_extension(name@) is None,
        },
{
    proof {
        reveal_strlit("..");
    }
    let dotdot: Vec<char> = vec!['.', '.'];
    proof {
        assert(dotdot@ =~= ".."@);
    }
    if text::eq_chars(name, dotdot.as_slice()) {
        return None;
    }
    let mut k = name.len();
    while k > 0 && name[k - 1] != '.'
        invariant
            k <= name.len(),
            forall|j: int| k <= j < name.len() ==> name@[j] != '.',
        decreases k,
    {
        k = k - 1;
    }
    proof {
        name@.index_of_last_ensures('.');
        if k == 0 {
            assert(!name@.contains('.'));
        } else {
            assert(name@[k - 1] == '.');
            assert(name@.contains('.'));
            let li = name@.index_of_last('.')->0;
            assert(li == k - 1);
        }
    }
    if k <= 1 {
        return None;
    }
    Some(text::slice_of(name, k, name.len()))
}

/// ASCII case-insensitive equality.
pub fn eq_ignore_ascii_case(a: &[char], b: &[char]) -> (r: bool)
    ensures
        r == eq_ignore_case(a@, b@),
{
    if a.len() != b.len() {
        proof {
            assert(text::lower_ascii_seq(a@).len() != text::lower_ascii_seq(b@).len());
        }
        return false;
    }
    let mut i: usize = 0;
    while i < a.len()
        invariant
            i <= a.len() == b.len(),
            forall|j: int| 0 <= j < i ==> text::lower_ascii(#[trigger] a@[j]) == text::lower_ascii(
                b@[j],
            ),
        decreases a.len() - i,
    {
        if text::to_lower_ascii(a[i]) != text::to_lower_ascii(b[i]) {
            proof {
                assert(text::lower_ascii_seq(a@)[i as int] != text::lower_ascii_seq(b@)[i as int]);
            }
            return false;
        }
        i = i + 1;
    }
    proof {
        assert(text::lower_ascii_seq(a@) =~= text::lower_ascii_seq(b@));
    }
    true
}

/// The extension of `path` matches one of `exts`, ignoring ASCII case.
pub open spec fn has_extension_spec(path: Seq<char>, exts: Seq<Seq<char>>) -> bool {
    match extension(path) {
        Some(e) => exists|i: int| 0 <= i < exts.len() && eq_ignore_case(#[trigger] exts[i], e),
        None => false,
    }
}

/// Does the file named by `path` have one of the extensions `exts`
/// (ASCII case-insensitive)?
pub fn has_extension(path: &str, exts: &[&str]) -> (r: bool)
    ensures
        r == has_extension_spec(path@, exts@.map_values(|x: &str| x@)),
{
    let ghost ev = exts@.map_values(|x: &str| x@);
    let name = match file_name_of(path) {
        Some(n) => n,
        None => return false,
    };
    let nc = text::chars_of(name.as_str());
    let e = match name_extension_exec(nc.as_slice()) {
        Some(e) => e,
        None => return false,
    };
    proof {
        assert(nc@ == name@);
        assert(extension(path@) == Some(e@));
    }
    let mut i: usize = 0;
    while i < exts.len()
        invariant
            i <= exts@.len(),
            ev == exts@.map_values(|x: &str| x@),
            extension(path@) == Some(e@),
            forall|j: int| 0 <= j < i ==> !eq_ignore_case(#[trigger] ev[j], e@),
        decreases exts@.len() - i,
    {
        let xc = text::chars_of(exts[i]);
        if eq_ignore_ascii_case(xc.as_slice(), e.as_slice()) {
            proof {
                assert(ev[i as int] == exts@[i as int]@);
                assert(eq_ignore_case(ev[i as int], e@));
                assert(extension(path@) == Some(e@));
            }
            return true;
        }
        proof {
            assert(ev[i as int] == exts@[i as int]@);
        }
        i = i + 1;
    }
    proof {
        assert(extension(path@) == Some(e@));
    }
    false
}


// ── Path order ──────────────────────────────────────────────────────────────

/// The kind of a component, in `Path` order: root, current directory,
/// parent directory, then ordinary names.
pub open spec fn comp_rank(c: Seq<char>) -> int {
    if c == "/"@ {
        1
    } else if c == "."@ {
        2
    } else if c == ".."@ {
        3
    } else {
        4
    }
}

/// Component order: by kind, names by their text.
pub open spec fn comp_lt(a: Seq<char>, b: Seq<char>) -> bool {
    comp_rank(a) < comp_rank(b) || (comp_rank(a) == 4 && comp_rank(b) == 4 && text::lex_lt(a, b))
}

/// Component sequences in lexicographic order (a proper prefix first).
pub open spec fn comps_lt(x: Seq<Seq<char>>, y: Seq<Seq<char>>) -> bool
    decreases x.len(),
{
    if x.len() == 0 {
        y.len() > 0
    } else if y.len() == 0 {
        false
    } else if x[0] == y[0] {
        comps_lt(x.drop_first(), y.drop_first())
    } else {
        comp_lt(x[0], y[0])
    }
}

/// `p` sorts before `q` as paths do: component by component.
pub open spec fn path_lt(p: Seq<char>, q: Seq<char>) -> bool {
    comps_lt(comps(p), comps(q))
}

proof fn lemma_comp_lt_total(a: Seq<char>, b: Seq<char>)
    ensures
        comp_lt(a, b) || a == b || comp_lt(b, a),
        !(comp_lt(a, b) && comp_lt(b, a)),
        !comp_lt(a, a),
{
    text::lemma_lex_total(a, b);
}

proof fn lemma_comp_lt_trans(a: Seq<char>, b: Seq<char>, c: Seq<char>)
    requires
        comp_lt(a, b),
        comp_lt(b, c),
    ensures
        comp_lt(a, c),
{
    if comp_rank(a) == 4 && comp_rank(b) == 4 && comp_rank(c) == 4 {
        text::lemma_lex_trans(a, b, c);
    }
}

pub proof fn lemma_comps_lt_total(x: Seq<Seq<char>>, y: Seq<Seq<char>>)
    ensures
        comps_lt(x, y) || x == y || comps_lt(y, x),
        !(comps_lt(x, y) && comps_lt(y, x)),
        !comps_lt(x, x),
    decreases x.len(),
{
    if x.len() == 0 {
        if y.len() == 0 {
            assert(x =~= y);
        }
    } else if y.len() == 0 {
        lemma_comps_lt_total(x.drop_first(), x.drop_first());
    } else if x[0] == y[0] {
        lemma_comps_lt_total(x.drop_first(), y.drop_first());
        lemma_comps_lt_total(x.drop_first(), x.drop_first());
        if x.drop_first() == y.drop_first() {
            assert(x =~= seq![x[0]] + x.drop_first());
            assert(y =~= seq![y[0]] + y.drop_first());
        }
    } else {
        lemma_comp_lt_total(x[0], y[0]);
        lemma_comps_lt_total(x.drop_first(), x.drop_first());
    }
}

pub proof fn lemma_comps_lt_trans(x: Seq<Seq<char>>, y: Seq<Seq<char>>, z: Seq<Seq<char>>)
    requires
        comps_lt(x, y),
        comps_lt(y, z),
    ensures
        comps_lt(x, z),
    decreases x.len(),
{
    if x.len() > 0 && y.len() > 0 && z.len() > 0 {
        if x[0] == y[0] && y[0] == z[0] {
            lemma_comps_lt_trans(x.drop_first(), y.drop_first(), z.drop_first());
        } else if x[0] == y[0] {
        } else if y[0] == z[0] {
        } else {
            lemma_comp_lt_trans(x[0], y[0], z[0]);
            if x[0] == z[0] {
                lemma_comp_lt_total(x[0], y[0]);
            }
        }
    }
}

/// The rank of a component, computed.
fn comp_rank_exec(c: &Vec<char>) -> (r: u8)
    ensures
        r as int == comp_rank(c@),
{
    proof {
        reveal_strlit("/");
        reveal_strlit(".");
        reveal_strlit("..");
    }
    if c.len() == 1 && c[0] == '/' {
        proof {
            assert(c@ =~= "/"@);
        }
        1
    } else if c.len() == 1 && c[0] == '.' {
        proof {
            assert(c@ =~= "."@);
            assert(c@ != "/"@);
        }
        2
    } else if c.len() == 2 && c[0] == '.' && c[1] == '.' {
        proof {
            assert(c@ =~= ".."@);
            assert(c@ != "/"@ && c@ != "."@);
        }
        3
    } else {
        proof {
            if c@ == "/"@ {
                assert(c@.len() == 1 && c@[0] == '/');
            }
            if c@ == "."@ {
                assert(c@.len() == 1 && c@[0] == '.');
            }
            if c@ == ".."@ {
                assert(c@.len() == 2 && c@[0] == '.' && c@[1] == '.');
            }
        }
        4
    }
}

/// Does `p` sort before `q` as paths (see [`path_lt`])?
pub fn path_less(p: &str, q: &str) -> (r: bool)
    ensures
        r == path_lt(p@, q@),
{
    let pc = text::chars_of(p);
    let qc = text::chars_of(q);
    let x = components(pc.as_slice());
    let y = components(qc.as_slice());
    let ghost xv = char_views(x@);
    let ghost yv = char_views(y@);
    let mut i: usize = 0;
    proof {
        assert(xv.subrange(0, xv.len() as int) =~= xv);
        assert(yv.subrange(0, yv.len() as int) =~= yv);
    }
    while i < x.len() && i < y.len()
        invariant
            i <= x@.len(),
            i <= y@.len(),
            xv == char_views(x@),
            yv == char_views(y@),
            xv == comps(p@),
            yv == comps(q@),
            comps_lt(xv, yv) == comps_lt(
                xv.subrange(i as int, xv.len() as int),
                yv.subrange(i as int, yv.len() as int),
            ),
        decreases x@.len() - i,
    {
        let ghost xs = xv.subrange(i as int, xv.len() as int);
        let ghost ys = yv.subrange(i as int, yv.len() as int);
        proof {
            assert(xs[0] == x@[i as int]@);
            assert(ys[0] == y@[i as int]@);
        }
        if !text::eq_chars(x[i].as_slice(), y[i].as_slice()) {
            proof {
                assert(xs.len() > 0 && ys.len() > 0);
                assert(xs[0] != ys[0]);
                assert(comps_lt(xs, ys) == comp_lt(xs[0], ys[0]));
            }
            let rx = comp_rank_exec(&x[i]);
            let ry = comp_rank_exec(&y[i]);
            if rx != ry {
                return rx < ry;
            }
            if rx < 4 {
                proof {
                    if rx == 1 {
                        assert(xs[0] == "/"@ && ys[0] == "/"@);
                    } else if rx == 2 {
                        assert(xs[0] == "."@ && ys[0] == "."@);
                    } else {
                        assert(xs[0] == ".."@ && ys[0] == ".."@);
                    }
                }
                return false;
            }
            return text::lex_less(x[i].as_slice(), y[i].as_slice());
        }
        proof {
            assert(xs.drop_first() =~= xv.subrange(i + 1, xv.len() as int));
            assert(ys.drop_first() =~= yv.subrange(i + 1, yv.len() as int));
        }
        i = i + 1;
    }
    i < y.len() && i == x.len()
}

/// Equal component lists.
fn comps_same(a: &Vec<Vec<char>>, b: &Vec<Vec<char>>) -> (r: bool)
    ensures
        r == (char_views(a@) == char_views(b@)),
{
    if a.len() != b.len() {
        proof {
            if char_views(a@) == char_views(b@) {
                assert(char_views(a@).len() == char_views(b@).len());
            }
        }
        return false;
    }
    let mut i: usize = 0;
    while i < a.len()
        invariant
            i <= a@.len(),
            a@.len() == b@.len(),
            forall|j: int| 0 <= j < i ==> (#[trigger] a@[j])@ == b@[j]@,
        decreases a@.len() - i,
    {
        if !text::eq_chars(a[i].as_slice(), b[i].as_slice()) {
            proof {
                if char_views(a@) == char_views(b@) {
                    assert(char_views(a@)[i as int] == char_views(b@)[i as int]);
                }
            }
            return false;
        }
        i = i + 1;
    }
    proof {
        assert(char_views(a@) =~= char_views(b@)) by {
            assert forall|j: int| 0 <= j < char_views(a@).len() implies char_views(a@)[j] == char_views(b@)[j] by {
                assert(a@[j]@ == b@[j]@);
            }
        }
    }
    true
}

/// The first string of each path (paths equal component by component
/// count as one), in order.
pub open spec fn first_path_occurrences(v: Seq<Seq<char>>) -> Seq<Seq<char>>
    decreases v.len(),
{
    if v.len() == 0 {
        Seq::empty()
    } else {
        let rest = first_path_occurrences(v.drop_last());
        if exists|k: int| 0 <= k < v.len() - 1 && comps(#[trigger] v[k]) == comps(v.last()) {
            rest
        } else {
            rest.push(v.last())
        }
    }
}

/// Strictly increasing in path order.
pub open spec fn path_sorted(v: Seq<Seq<char>>) -> bool {
    forall|i: int, j: int| 0 <= i < j < v.len() ==> path_lt(#[trigger] v[i], #[trigger] v[j])
}

/// The first string of each path, in order.
fn dedup_paths(v: &[String]) -> (r: Vec<String>)
    ensures
        str_views(r@) == first_path_occurrences(str_views(v@)),
        forall|i: int, j: int| 0 <= i < j < r@.len() ==> comps(#[trigger] r@[i]@) != comps(#[trigger] r@[j]@),
{
    let ghost vv = str_views(v@);
    let mut out: Vec<String> = Vec::new();
    let mut seen: Vec<Vec<Vec<char>>> = Vec::new();
    let mut i: usize = 0;
    while i < v.len()
        invariant
            i <= v@.len(),
            vv == str_views(v@),
            str_views(out@) == first_path_occurrences(vv.subrange(0, i as int)),
            seen@.len() == i,
            forall|k: int| 0 <= k < i ==> char_views((#[trigger] seen@[k])@) == comps(vv[k]),
            forall|a: int, b: int| 0 <= a < b < out@.len() ==> comps(#[trigger] out@[a]@) != comps(#[trigger] out@[b]@),
            forall|a: int| 0 <= a < out@.len() ==> exists|k: int| 0 <= k < i && comps(#[trigger] out@[a]@) == comps(vv[k]),
        decreases v@.len() - i,
    {
        let pc = text::chars_of(v[i].as_str());
        let c = components(pc.as_slice());
        let mut dup = false;
        let mut k: usize = 0;
        while k < seen.len()
            invariant
                k <= seen@.len(),
                seen@.len() == i,
                i < v@.len(),
                vv == str_views(v@),
                char_views(c@) == comps(vv[i as int]),
                forall|q: int| 0 <= q < i ==> char_views((#[trigger] seen@[q])@) == comps(vv[q]),
                dup <==> exists|q: int| 0 <= q < k && comps(vv[q]) == comps(vv[i as int]),
            decreases seen@.len() - k,
        {
            if comps_same(&seen[k], &c) {
                dup = true;
            }
            k = k + 1;
        }
        proof {
            let pre = vv.subrange(0, i as int);
            let post = vv.subrange(0, i + 1);
            assert(post.drop_last() =~= pre);
            assert(post.last() == vv[i as int]);
            assert((exists|q: int| 0 <= q < post.len() - 1 && comps(#[trigger] post[q]) == comps(post.last()))
                <==> dup) by {
                if dup {
                    let q = choose|q: int| 0 <= q < i && comps(vv[q]) == comps(vv[i as int]);
                    assert(post[q] == vv[q]);
                }
                if exists|q: int| 0 <= q < post.len() - 1 && comps(#[trigger] post[q]) == comps(post.last()) {
                    let q = choose|q: int| 0 <= q < post.len() - 1 && comps(#[trigger] post[q]) == comps(post.last());
                    assert(post[q] == vv[q]);
                }
            }
        }
        if !dup {
            let ghost before = out@;
            out.push(v[i].clone());
            proof {
                assert(str_views(out@) =~= str_views(before).push(vv[i as int]));
                assert forall|a: int, b: int| 0 <= a < b < out@.len() implies comps(#[trigger] out@[a]@) != comps(
                    #[trigger] out@[b]@,
                ) by {
                    if b == out@.len() - 1 {
                        let k2 = choose|k2: int| 0 <= k2 < i && comps(#[trigger] before[a]@) == comps(vv[k2]);
                        assert(out@[a] == before[a]);
                        assert(out@[b]@ == vv[i as int]);
                    } else {
                        assert(out@[a] == before[a] && out@[b] == before[b]);
                    }
                }
                assert forall|a: int| 0 <= a < out@.len() implies exists|k2: int|
                    0 <= k2 < i + 1 && comps(#[trigger] out@[a]@) == comps(vv[k2]) by {
                    if a == out@.len() - 1 {
                        assert(out@[a]@ == vv[i as int]);
                    } else {
                        assert(out@[a] == before[a]);
                        let k2 = choose|k2: int| 0 <= k2 < i && comps(#[trigger] before[a]@) == comps(vv[k2]);
                    }
                }
            }
        }
        let ghost sb = seen@;
        seen.push(c);
        proof {
            assert forall|q: int| 0 <= q < i + 1 implies char_views((#[trigger] seen@[q])@) == comps(vv[q]) by {
                if q < i {
                    assert(seen@[q] == sb[q]);
                }
            }
        }
        i = i + 1;
    }
    proof {
        assert(vv.subrange(0, vv.len() as int) =~= vv);
    }
    out
}

/// The paths of `v` sorted in path order, each path once (its first
/// string kept): what sorting and then deduplicating `PathBuf`s gives.
pub fn sort_unique_paths(v: &[String]) -> (r: Vec<String>)
    ensures
        path_sorted(str_views(r@)),
        str_views(r@).to_multiset() == first_path_occurrences(str_views(v@)).to_multiset(),
{
    let reps = dedup_paths(v);
    let ghost rv = str_views(reps@);
    let mut out: Vec<String> = Vec::new();
    let mut i: usize = 0;
    proof {
        assert(str_views(out@) =~= Seq::<Seq<char>>::empty());
        assert(rv.subrange(0, 0) =~= Seq::<Seq<char>>::empty());
    }
    while i < reps.len()
        invariant
            i <= reps@.len(),
            rv == str_views(reps@),
            forall|a: int, b: int| 0 <= a < b < reps@.len() ==> comps(#[trigger] reps@[a]@) != comps(#[trigger] reps@[b]@),
            path_sorted(str_views(out@)),
            str_views(out@).to_multiset() == rv.subrange(0, i as int).to_multiset(),
            forall|a: int| 0 <= a < out@.len() ==> exists|k: int| 0 <= k < i && (#[trigger] out@[a])@ == rv[k],
        decreases reps@.len() - i,
    {
        let x = reps[i].clone();
        let ghost ov = str_views(out@);
        let ghost xv = x@;
        proof {
            assert(rv[i as int] == xv);
        }
        let mut p: usize = out.len();
        while p > 0
            invariant
                p <= out@.len(),
                ov == str_views(out@),
                xv == x@,
                forall|k: int| p <= k < ov.len() ==> path_lt(xv, #[trigger] ov[k]),
            ensures
                p <= out@.len(),
                forall|k: int| p <= k < ov.len() ==> path_lt(xv, #[trigger] ov[k]),
                p == 0 || !path_lt(xv, ov[p - 1]),
            decreases p,
        {
            if !path_less(x.as_str(), out[p - 1].as_str()) {
                proof {
                    assert(ov[p - 1] == out@[p - 1]@);
                }
                break;
            }
            proof {
                assert(ov[p - 1] == out@[p - 1]@);
            }
            p = p - 1;
        }
        proof {
            if p > 0 {
                let k = choose|k: int| 0 <= k < i && (#[trigger] out@[p - 1])@ == rv[k];
                assert(ov[p - 1] == rv[k]);
                assert(comps(rv[k]) != comps(xv)) by {
                    assert(reps@[k]@ == rv[k]);
                    assert(reps@[i as int]@ == xv);
                }
                lemma_comps_lt_total(comps(ov[p - 1]), comps(xv));
            }
        }
        out.insert(p, x);
        proof {
            let nv = str_views(out@);
            assert(nv =~= ov.insert(p as int, xv));
            vstd::seq_lib::to_multiset_insert(ov, p as int, xv);
            assert(rv.subrange(0, i + 1) =~= rv.subrange(0, i as int).push(xv));
            vstd::seq_lib::to_multiset_build(rv.subrange(0, i as int), xv);
            assert forall|a: int, b: int| 0 <= a < b < nv.len() implies path_lt(#[trigger] nv[a], #[trigger] nv[b]) by {
                if b < p {
                    assert(path_lt(ov[a], ov[b]));
                } else if b == p {
                    assert(path_lt(ov[p - 1], xv));
                    if a < p - 1 {
                        assert(path_lt(ov[a], ov[p - 1]));
                        lemma_comps_lt_trans(comps(ov[a]), comps(ov[p - 1]), comps(xv));
                    }
                } else if a < p {
                    assert(path_lt(ov[a], ov[b - 1]));
                    if a + 1 <= p - 1 {
                    }
                } else if a == p {
                    assert(path_lt(xv, ov[b - 1]));
                } else {
                    assert(path_lt(ov[a - 1], ov[b - 1]));
                }
            }
            assert forall|a: int| 0 <= a < out@.len() implies exists|k: int| 0 <= k < i + 1 && (#[trigger] out@[a])@ == rv[k] by {
                if a < p {
                    assert(out@[a]@ == ov[a]);
                    let q = choose|q: int| 0 <= q < i && (#[trigger] str_views(out@)[a]) == rv[q];
                } else if a == p {
                    assert(out@[a]@ == rv[i as int]);
                } else {
                    assert(out@[a]@ == ov[a - 1]);
                }
            }
        }
        i = i + 1;
    }
    proof {
        assert(rv.subrange(0, rv.len() as int) =~= rv);
    }
    out
}

} // verus!
