//! Git integration: what the `git` probe and `git status` answers mean.
//!
//! Running `git` is the caller's part; this module turns what came back
//! into one of the [`GitAvailability`] states and into the list of paths
//! that differ from `HEAD`. Nothing here fails: every answer maps to a
//! state or an error value.
use vstd::prelude::*;

use crate::paths;
use crate::text;
use crate::text::{char_views, str_views};

verus! {

/// Whether the git CLI is usable in the project's directory.
#[derive(Clone, Debug)]
pub enum GitAvailability {
    /// `git` is on PATH and the project lives inside a repository.
    Available { repo_root: String },
    /// `git` works but the project is not inside a git repository.
    NotARepo,
    /// `git` is not installed (or not on PATH).
    NotInstalled,
    /// `git` ran but failed for some other reason (permissions,
    /// `safe.directory`, ...); the first stderr line is kept.
    ProbeFailed { stderr: String },
}

impl GitAvailability {
    /// One-line label for the disabled menu hint, or `None` if available.
    pub fn disabled_reason(&self) -> (r: Option<String>)
        ensures
            match self {
                GitAvailability::Available { .. } => r is None,
                GitAvailability::NotARepo => r matches Some(s) && s@ == "(not a git repo)"@,
                GitAvailability::NotInstalled => r matches Some(s) && s@ == "(git not found)"@,
                GitAvailability::ProbeFailed { stderr } => r matches Some(s) && s@ == "(git: "@
                    + stderr@ + ")"@,
            },
    {
        match self {
            GitAvailability::Available { .. } => None,
            GitAvailability::NotARepo => Some(text::owned("(not a git repo)")),
            GitAvailability::NotInstalled => Some(text::owned("(git not found)")),
            GitAvailability::ProbeFailed { stderr } => {
                let mut s = text::owned("(git: ");
                text::push_str(&mut s, stderr.as_str());
                text::push_str(&mut s, ")");
                Some(s)
            },
        }
    }
}

/// Errors when collecting uncommitted paths after git was found usable.
#[derive(Debug)]
pub enum GitError {
    /// `git status` failed (lock file, corrupt index, ...); the first
    /// stderr line is kept.
    CommandFailed(String),
}

impl GitError {
    /// The message shown for this error.
    pub fn message(&self) -> (r: String)
        ensures
            match self {
                GitError::CommandFailed(s) => r@ == "git status failed: "@ + s@,
            },
    {
        match self {
            GitError::CommandFailed(s) => {
                let mut m = text::owned("git status failed: ");
                text::push_str(&mut m, s.as_str());
                m
            },
        }
    }
}

// ── Bytes to text ───────────────────────────────────────────────────────────

/// What `String::from_utf8_lossy` makes of `bytes` (invalid sequences
/// replaced by U+FFFD).
pub uninterp spec fn lossy_utf8(bytes: Seq<u8>) -> Seq<char>;

/// Wrapper for `String::from_utf8_lossy`: valid UTF-8 is decoded as it
/// stands; the result is a function of the bytes alone.
#[verifier::external_body]
pub fn utf8_lossy(bytes: &[u8]) -> (s: String)
    ensures
        s@ == lossy_utf8(bytes@),
        vstd::utf8::valid_utf8(bytes@) ==> s@ == vstd::utf8::decode_utf8(bytes@),
{
    String::from_utf8_lossy(bytes).into_owned()
}

// ── Porcelain parsing ───────────────────────────────────────────────────────

/// The pieces of `s` between occurrences of `sep`.
pub open spec fn split_bytes(s: Seq<u8>, sep: u8) -> Seq<Seq<u8>>
    decreases s.len(),
{
    if s.contains(sep) {
        let i = s.index_of_first(sep)->0;
        proof {
            s.index_of_first_ensures(sep);
        }
        seq![s.subrange(0, i)] + split_bytes(s.subrange(i + 1, s.len() as int), sep)
    } else {
        seq![s]
    }
}

/// The paths named by porcelain entries from index `i` on. An entry is
/// `XY path`; shorter entries are skipped; after an entry whose X column
/// is `R` or `C` the next field (the old path) is skipped.
pub open spec fn porcelain_from(fields: Seq<Seq<u8>>, i: int) -> Seq<Seq<char>>
    decreases fields.len() - i,
{
    if i < 0 || i >= fields.len() {
        Seq::empty()
    } else {
        let e = fields[i];
        if e.len() < 4 {
            porcelain_from(fields, i + 1)
        } else {
            let p = lossy_utf8(e.subrange(3, e.len() as int));
            let next = if (e[0] == 82u8 || e[0] == 67u8) && i + 2 <= fields.len() {
                i + 2
            } else {
                i + 1
            };
            seq![p] + porcelain_from(fields, next)
        }
    }
}

/// The repo-relative paths in `git status --porcelain=v1 -z` output.
pub open spec fn porcelain_paths(bytes: Seq<u8>) -> Seq<Seq<char>> {
    porcelain_from(split_bytes(bytes, 0u8), 0)
}

/// A copy of `s[from..to]`.
pub(crate) fn byte_slice(s: &[u8], from: usize, to: usize) -> (r: Vec<u8>)
    requires
        from <= to <= s.len(),
    ensures
        r@ == s@.subrange(from as int, to as int),
{
    let mut r: Vec<u8> = Vec::new();
    let mut i = from;
    while i < to
        invariant
            from <= i <= to <= s.len(),
            r@ == s@.subrange(from as int, i as int),
        decreases to - i,
    {
        r.push(s[i]);
        i = i + 1;
        assert(s@.subrange(from as int, i as int) == s@.subrange(from as int, i - 1).push(s@[i - 1]));
    }
    r
}

/// The byte views of a sequence of byte vectors.
pub open spec fn byte_views(v: Seq<Vec<u8>>) -> Seq<Seq<u8>> {
    v.map_values(|x: Vec<u8>| x@)
}

/// Splits `s` at every `sep`.
fn split_bytes_exec(s: &[u8], sep: u8) -> (r: Vec<Vec<u8>>)
    ensures
        byte_views(r@) == split_bytes(s@, sep),
{
    let mut out: Vec<Vec<u8>> = Vec::new();
    let mut start: usize = 0;
    let mut i: usize = 0;
    assert(s@.subrange(0, s.len() as int) == s@);
    while i < s.len()
        invariant
            start <= i <= s.len(),
            forall|j: int| start <= j < i ==> s@[j] != sep,
            byte_views(out@) + split_bytes(s@.subrange(start as int, s.len() as int), sep)
                == split_bytes(s@, sep),
        decreases s.len() - i,
    {
        if s[i] == sep {
            let piece = byte_slice(s, start, i);
            proof {
                let rest = s@.subrange(start as int, s.len() as int);
                assert(rest[i - start] == sep);
                assert(rest.contains(sep));
                rest.index_of_first_ensures(sep);
                let f = rest.index_of_first(sep)->0;
                assert(f == i - start) by {
                    if f < i - start {
                        assert(rest[f] == s@[start + f]);
                    }
                }
                assert(rest.subrange(0, f) == s@.subrange(start as int, i as int));
                assert(rest.subrange(f + 1, rest.len() as int) == s@.subrange(i + 1, s.len() as int));
                assert(split_bytes(rest, sep) == seq![piece@] + split_bytes(
                    s@.subrange(i + 1, s.len() as int),
                    sep,
                ));
                assert(byte_views(out@.push(piece)) == byte_views(out@).push(piece@));
            }
            out.push(piece);
            start = i + 1;
        }
        i = i + 1;
    }
    let last = byte_slice(s, start, s.len());
    proof {
        let rest = s@.subrange(start as int, s.len() as int);
        assert(!rest.contains(sep)) by {
            if rest.contains(sep) {
                let k = choose|k: int| 0 <= k < rest.len() && rest[k] == sep;
                assert(s@[start + k] == sep);
            }
        }
        assert(split_bytes(rest, sep) == seq![rest]);
        assert(byte_views(out@.push(last)) == byte_views(out@).push(last@));
    }
    out.push(last);
    out
}

/// Parse `git status --porcelain=v1 -z` output into repo-relative paths.
/// Entries are NUL-terminated `XY path` records; an old-path field follows
/// exactly when X is `R` or `C` (a staged rename or copy).
pub fn parse_porcelain_z(bytes: &[u8]) -> (r: Vec<String>)
    ensures
        str_views(r@) == porcelain_paths(bytes@),
{
    let fields = split_bytes_exec(bytes, 0u8);
    let ghost fv = byte_views(fields@);
    let mut out: Vec<String> = Vec::new();
    let mut i: usize = 0;
    while i < fields.len()
        invariant
            fv == byte_views(fields@),
            fv == split_bytes(bytes@, 0u8),
            str_views(out@) + porcelain_from(fv, i as int) == porcelain_from(fv, 0),
        decreases fields@.len() - i,
    {
        let entry = &fields[i];
        proof {
            assert(fv[i as int] == entry@);
        }
        i = i + 1;
        if entry.len() < 4 {
            continue;
        }
        let x = entry[0];
        let path = byte_slice(entry.as_slice(), 3, entry.len());
        let s = utf8_lossy(path.as_slice());
        proof {
            assert(str_views(out@.push(s)) == str_views(out@).push(s@));
        }
        out.push(s);
        if x == 82u8 || x == 67u8 {
            if i < fields.len() {
                i = i + 1;
            } else {
                proof {
                    assert(porcelain_from(fv, i as int) == Seq::<Seq<char>>::empty());
                }
            }
        }
    }
    proof {
        assert(porcelain_from(fv, i as int) == Seq::<Seq<char>>::empty());
    }
    out
}


// ── Probe classification ────────────────────────────────────────────────────

/// What running `git -C <root> rev-parse --show-toplevel` gave.
pub enum ProbeOutcome {
    /// The process ran; its exit status and output.
    Exited { success: bool, stdout: Vec<u8>, stderr: Vec<u8> },
    /// No `git` executable was found.
    NotFound,
    /// The process could not be started for another reason; the error text.
    SpawnFailed(String),
}

/// The first line of `s` (empty when there is none).
pub open spec fn first_line(s: Seq<char>) -> Seq<char> {
    let ls = text::lines_of(s);
    if ls.len() > 0 { ls[0] } else { Seq::empty() }
}

/// The first line of `s`.
fn first_line_exec(s: &[char]) -> (r: Vec<char>)
    ensures
        r@ == first_line(s@),
{
    let ls = text::lines_chars(s);
    if ls.len() > 0 {
        proof {
            assert(char_views(ls@)[0] == ls@[0]@);
        }
        text::slice_of(ls[0].as_slice(), 0, ls[0].len())
    } else {
        Vec::new()
    }
}

/// What a probe outcome says about git in the project: a successful run
/// names the repository root (no root: not a repository); a failed run is
/// "not a repository" when the first stderr line is empty or says so, and
/// otherwise a probe failure carrying that line.
pub fn classify_probe(o: &ProbeOutcome) -> (r: GitAvailability)
    ensures
        match o {
            ProbeOutcome::NotFound => r is NotInstalled,
            ProbeOutcome::SpawnFailed(m) => r matches GitAvailability::ProbeFailed { stderr }
                && stderr@ == m@,
            ProbeOutcome::Exited { success, stdout, stderr } => if *success {
                let root = text::trim(lossy_utf8(stdout@));
                if root.len() == 0 {
                    r is NotARepo
                } else {
                    r matches GitAvailability::Available { repo_root } && repo_root@ == root
                }
            } else {
                let first = text::trim(first_line(lossy_utf8(stderr@)));
                if first.len() == 0 || text::contains(first, "not a git repository"@) {
                    r is NotARepo
                } else {
                    r matches GitAvailability::ProbeFailed { stderr: e } && e@ == first
                }
            },
        },
{
    match o {
        ProbeOutcome::NotFound => GitAvailability::NotInstalled,
        ProbeOutcome::SpawnFailed(m) => GitAvailability::ProbeFailed { stderr: m.clone() },
        ProbeOutcome::Exited { success, stdout, stderr } => {
            if *success {
                let s = utf8_lossy(stdout.as_slice());
                let sc = text::chars_of(s.as_str());
                let root = text::trim_chars(sc.as_slice());
                if root.len() == 0 {
                    GitAvailability::NotARepo
                } else {
                    GitAvailability::Available { repo_root: text::string_from(root.as_slice()) }
                }
            } else {
                let s = utf8_lossy(stderr.as_slice());
                let sc = text::chars_of(s.as_str());
                let line = first_line_exec(sc.as_slice());
                let first = text::trim_chars(line.as_slice());
                let needle: Vec<char> = text::chars_of("not a git repository");
                if first.len() == 0 || text::contains_chars(first.as_slice(), needle.as_slice()) {
                    GitAvailability::NotARepo
                } else {
                    GitAvailability::ProbeFailed { stderr: text::string_from(first.as_slice()) }
                }
            }
        },
    }
}

// ── Changed paths ───────────────────────────────────────────────────────────

/// `base` joined with `rel` as `Path::join` does it: an absolute `rel`
/// replaces `base`; otherwise one `/` separates them.
pub open spec fn join_path(base: Seq<char>, rel: Seq<char>) -> Seq<char> {
    if rel.len() > 0 && rel[0] == '/' {
        rel
    } else if base.len() == 0 {
        rel
    } else if base.last() == '/' {
        base + rel
    } else {
        base + "/"@ + rel
    }
}

/// `base` joined with `rel` (see [`join_path`]).
pub fn join_path_exec(base: &str, rel: &str) -> (r: String)
    ensures
        r@ == join_path(base@, rel@),
{
    let b = text::chars_of(base);
    let rc = text::chars_of(rel);
    if (rc.len() > 0 && rc[0] == '/') || b.len() == 0 {
        return text::string_from(rc.as_slice());
    }
    let mut out = text::string_from(b.as_slice());
    if b[b.len() - 1] != '/' {
        text::push_char(&mut out, '/');
        proof {
            reveal_strlit("/");
            assert(seq!['/'] =~= "/"@);
        }
    }
    text::push_chars(&mut out, rc.as_slice());
    out
}

/// The paths of `rels` joined under `repo_root`, those not under
/// `project_root` (component-wise) left out, in order.
pub open spec fn under_project(
    repo_root: Seq<char>,
    project_root: Seq<char>,
    rels: Seq<Seq<char>>,
) -> Seq<Seq<char>>
    decreases rels.len(),
{
    if rels.len() == 0 {
        Seq::empty()
    } else {
        let p = join_path(repo_root, rels[0]);
        let rest = under_project(repo_root, project_root, rels.drop_first());
        if paths::comps_prefix(paths::comps(project_root), paths::comps(p)) {
            seq![p] + rest
        } else {
            rest
        }
    }
}

/// The changed paths that a `git status --porcelain=v1 -z` run reported,
/// as absolute paths under `project_root`, sorted in path order with each
/// path once.
/// A failed run is an error carrying the first stderr line (or
/// `unknown error` when stderr is empty).
pub fn changed_paths_from(
    repo_root: &str,
    project_root: &str,
    success: bool,
    stdout: &[u8],
    stderr: &[u8],
) -> (r: Result<Vec<String>, GitError>)
    ensures
        !success ==> (r matches Err(GitError::CommandFailed(m)) && m@ == (if text::lines_of(
            lossy_utf8(stderr@),
        ).len() > 0 {
            text::lines_of(lossy_utf8(stderr@))[0]
        } else {
            "unknown error"@
        })),
        success ==> (r matches Ok(v) && paths::path_sorted(str_views(v@)) && str_views(v@).to_multiset()
            == paths::first_path_occurrences(
            under_project(repo_root@, project_root@, porcelain_paths(stdout@)),
        ).to_multiset()),
{
    if !success {
        let s = utf8_lossy(stderr);
        let sc = text::chars_of(s.as_str());
        let ls = text::lines_chars(sc.as_slice());
        if ls.len() > 0 {
            proof {
                assert(char_views(ls@)[0] == ls@[0]@);
            }
            return Err(GitError::CommandFailed(text::string_from(ls[0].as_slice())));
        }
        return Err(GitError::CommandFailed(text::owned("unknown error")));
    }
    let rels = parse_porcelain_z(stdout);
    let ghost rv = str_views(rels@);
    let pc = text::chars_of(project_root);
    let proj = paths::components(pc.as_slice());
    let mut acc: Vec<String> = Vec::new();
    let mut i = rels.len();
    assert(rv.subrange(rv.len() as int, rv.len() as int).len() == 0);
    while i > 0
        invariant
            i <= rels@.len(),
            rv == str_views(rels@),
            char_views(proj@) == paths::comps(project_root@),
            str_views(acc@) == under_project(
                repo_root@,
                project_root@,
                rv.subrange(i as int, rv.len() as int),
            ),
        decreases i,
    {
        i = i - 1;
        let p = join_path_exec(repo_root, rels[i].as_str());
        let pcs = text::chars_of(p.as_str());
        let comps = paths::components(pcs.as_slice());
        let ghost sub = rv.subrange(i as int, rv.len() as int);
        proof {
            assert(sub[0] == rels@[i as int]@);
            assert(sub.drop_first() == rv.subrange(i + 1, rv.len() as int));
        }
        if paths::comps_starts_with(&proj, &comps) {
            let ghost before = str_views(acc@);
            acc.insert(0, p);
            proof {
                assert(str_views(acc@) =~= seq![p@] + before);
            }
        }
    }
    proof {
        assert(rv.subrange(0, rv.len() as int) == rv);
    }
    Ok(paths::sort_unique_paths(acc.as_slice()))
}

} // verus!
