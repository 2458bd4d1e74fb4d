//! Which directories the tree walkers prune and which changed paths the
//! watcher ignores. Reading directories and receiving events is the
//! caller's part.
use vstd::prelude::*;

use crate::paths;
use crate::text;

verus! {

/// The noise directories every walker and the watcher skip: version
/// control, scrutin's state, tooling caches, virtualenvs and build output.
pub open spec fn ignored_dir(name: Seq<char>) -> bool {
    name == ".git"@ || name == ".hg"@ || name == ".svn"@ || name == ".scrutin"@ || name
        == ".pytest_cache"@ || name == ".mypy_cache"@ || name == ".ruff_cache"@ || name == ".tox"@
        || name == ".venv"@ || name == "venv"@ || name == "__pycache__"@ || name == "node_modules"@
        || name == "build"@ || name == "dist"@ || name == "target"@
}

/// Is `name` one of the noise directories (see [`ignored_dir`])?
pub fn is_ignored_dir(name: &str) -> (r: bool)
    ensures
        r == ignored_dir(name@),
{
    text::str_eq(name, ".git") || text::str_eq(name, ".hg") || text::str_eq(name, ".svn")
        || text::str_eq(name, ".scrutin") || text::str_eq(name, ".pytest_cache") || text::str_eq(
        name,
        ".mypy_cache",
    ) || text::str_eq(name, ".ruff_cache") || text::str_eq(name, ".tox") || text::str_eq(
        name,
        ".venv",
    ) || text::str_eq(name, "venv") || text::str_eq(name, "__pycache__") || text::str_eq(
        name,
        "node_modules",
    ) || text::str_eq(name, "build") || text::str_eq(name, "dist") || text::str_eq(name, "target")
}

/// A directory the walker does not enter: a noise directory, or a hidden
/// one (a name starting with `.`, other than `.` and `..`).
pub open spec fn pruned_dir(name: Seq<char>) -> bool {
    ignored_dir(name) || (name.len() > 0 && name[0] == '.' && name != "."@ && name != ".."@)
}

/// Does the walker skip the directory named `name` (see [`pruned_dir`])?
pub fn skip_dir(name: &str) -> (r: bool)
    ensures
        r == pruned_dir(name@),
{
    if is_ignored_dir(name) {
        return true;
    }
    let nc = text::chars_of(name);
    nc.len() > 0 && nc[0] == '.' && !text::str_eq(name, ".") && !text::str_eq(name, "..")
}

/// Some component of the path names a noise directory.
pub open spec fn under_noise_dir(path: Seq<char>) -> bool {
    exists|k: int| 0 <= k < paths::comps(path).len() && #[trigger] ignored_dir(paths::comps(path)[k])
}

/// A changed path that is noise whatever the project: no file name; an
/// editor scratch file (`.#foo`, `foo~`) or R history; anything inside a
/// noise directory; compiled Python (`.pyc`, `.pyo`).
pub open spec fn noise_path(path: Seq<char>) -> bool {
    match paths::file_name(path) {
        None => true,
        Some(n) => text::has_prefix(n, ".#"@) || text::has_suffix(n, "~"@) || n == ".Rhistory"@
            || under_noise_dir(path) || text::has_suffix(n, ".pyc"@) || text::has_suffix(n, ".pyo"@),
    }
}

/// Does the watcher ignore a change to `path`? Noise (see
/// [`noise_path`]) is ignored, and so is any path that no suite counts as
/// a source or a test file (`is_source`, `is_test`, from the plugins).
pub fn should_ignore(path: &str, is_source: bool, is_test: bool) -> (r: bool)
    ensures
        r == (noise_path(path@) || !(is_source || is_test)),
{
    proof {
        reveal_strlit("/");
        reveal_strlit(".");
        reveal_strlit("..");
    }
    let name = match paths::file_name_of(path) {
        Some(n) => n,
        None => {
            return true;
        },
    };
    let nc = text::chars_of(name.as_str());
    let hash = text::chars_of(".#");
    let tilde = text::chars_of("~");
    if text::starts_with(nc.as_slice(), hash.as_slice()) || text::ends_with(nc.as_slice(), tilde.as_slice())
        || text::str_eq(name.as_str(), ".Rhistory") {
        return true;
    }
    let pc = text::chars_of(path);
    let comps = paths::components(pc.as_slice());
    let ghost cv = text::char_views(comps@);
    let mut k: usize = 0;
    while k < comps.len()
        invariant
            k <= comps@.len(),
            cv == text::char_views(comps@),
            cv == paths::comps(path@),
            forall|j: int| 0 <= j < k ==> !ignored_dir(#[trigger] cv[j]),
        decreases comps@.len() - k,
    {
        let s = text::string_from(comps[k].as_slice());
        proof {
            assert(cv[k as int] == s@);
        }
        if is_ignored_dir(s.as_str()) {
            proof {
                assert(ignored_dir(cv[k as int]));
            }
            return true;
        }
        k = k + 1;
    }
    let pyc = text::chars_of(".pyc");
    let pyo = text::chars_of(".pyo");
    if text::ends_with(nc.as_slice(), pyc.as_slice()) || text::ends_with(nc.as_slice(), pyo.as_slice()) {
        return true;
    }
    !(is_source || is_test)
}


/// The distinct paths of a batch of change events, sorted in path order
/// (the first string of each path kept).
pub fn unique_paths(changed: &[String]) -> (r: Vec<String>)
    ensures
        paths::path_sorted(text::str_views(r@)),
        text::str_views(r@).to_multiset() == paths::first_path_occurrences(text::str_views(changed@)).to_multiset(),
{
    paths::sort_unique_paths(changed)
}

} // verus!
