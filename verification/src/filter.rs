//! Glob matching for test-file include/exclude lists, with the `globset`
//! dialect (`*`, `**`, `?`, `[abc]`, `[!abc]`, `{a,b}`, backslash escapes).
//! Patterns are matched against file basenames, anchored at both ends; an
//! invalid pattern, or one too large to build a matcher for, matches
//! nothing rather than failing the run.
use vstd::prelude::*;

use crate::paths;
use crate::text;
use crate::text::str_views;

verus! {

/// Whether `pattern` is a valid `globset` glob, whose matcher can be
/// built, that matches `name`.
pub uninterp spec fn glob_match(pattern: Seq<char>, name: Seq<char>) -> bool;

/// Wrapper for `globset::Glob::new(pattern)`, then a one-glob
/// `GlobSetBuilder::build` and `GlobSet::is_match(name)`: true when the
/// pattern parses, its matcher builds and it matches; false when parsing
/// or building fails (both report an error rather than panicking). The
/// result depends on the two strings alone.
#[verifier::external_body]
fn glob_matches(pattern: &str, name: &str) -> (r: bool)
    ensures
        r == glob_match(pattern@, name@),
{
    let glob = match globset::Glob::new(pattern) {
        Ok(g) => g,
        Err(_) => return false,
    };
    match globset::GlobSetBuilder::new().add(glob).build() {
        Ok(set) => set.is_match(name),
        Err(_) => false,
    }
}

/// Whether `name` matches the glob set `globset` builds from the valid
/// patterns among `patterns` (invalid ones left out), and false when that
/// set cannot be built (it then stands for the empty set).
pub uninterp spec fn glob_set_match(patterns: Seq<Seq<char>>, name: Seq<char>) -> bool;

/// Wrapper for a `globset::GlobSetBuilder` given every pattern that
/// `Glob::new` accepts (the others skipped on their error), then `build`
/// and `GlobSet::is_match(name)`; a failed build matches nothing. Claimed:
/// the result is [`glob_set_match`] of the patterns and the name.
#[verifier::external_body]
fn glob_set_matches(patterns: &[String], name: &str) -> (r: bool)
    ensures
        r == glob_set_match(str_views(patterns@), name@),
{
    let mut builder = globset::GlobSetBuilder::new();
    for p in patterns {
        if let Ok(g) = globset::Glob::new(p) {
            builder.add(g);
        }
    }
    match builder.build() {
        Ok(set) => set.is_match(name),
        Err(_) => false,
    }
}

/// Match a basename against one glob pattern, anchored at both ends. An
/// invalid pattern, or one whose matcher cannot be built, matches nothing.
pub fn matches_name(pattern: &str, name: &str) -> (r: bool)
    ensures
        r == glob_match(pattern@, name@),
{
    glob_matches(pattern, name)
}

/// Some pattern of `patterns` matches `name`.
pub open spec fn any_match(patterns: Seq<Seq<char>>, name: Seq<char>) -> bool {
    exists|k: int| 0 <= k < patterns.len() && glob_match(#[trigger] patterns[k], name)
}

/// Does some pattern match `name`?
pub fn any_matches(patterns: &[String], name: &str) -> (r: bool)
    ensures
        r == any_match(str_views(patterns@), name@),
{
    let ghost pv = str_views(patterns@);
    let mut i: usize = 0;
    while i < patterns.len()
        invariant
            i <= patterns@.len(),
            pv == str_views(patterns@),
            forall|k: int| 0 <= k < i ==> !glob_match(#[trigger] pv[k], name@),
        decreases patterns@.len() - i,
    {
        if glob_matches(patterns[i].as_str(), name) {
            proof {
                assert(pv[i as int] == patterns@[i as int]@);
                assert(glob_match(pv[i as int], name@));
            }
            return true;
        }
        proof {
            assert(pv[i as int] == patterns@[i as int]@);
        }
        i = i + 1;
    }
    false
}

/// The basename a file is matched by (empty when the path has none).
pub open spec fn match_name(path: Seq<char>) -> Seq<char> {
    match paths::file_name(path) {
        Some(n) => n,
        None => Seq::empty(),
    }
}

/// Whether the filters keep `path`: its basename matches the include set
/// (or there are no includes) and not the exclude set, each list taken as
/// one glob set (see [`glob_set_match`]).
pub open spec fn kept(path: Seq<char>, includes: Seq<Seq<char>>, excludes: Seq<Seq<char>>) -> bool {
    (includes.len() == 0 || glob_set_match(includes, match_name(path))) && !glob_set_match(
        excludes,
        match_name(path),
    )
}

/// The paths of `files` that the filters keep, in order.
pub open spec fn filtered(
    files: Seq<Seq<char>>,
    includes: Seq<Seq<char>>,
    excludes: Seq<Seq<char>>,
) -> Seq<Seq<char>>
    decreases files.len(),
{
    if files.len() == 0 {
        Seq::empty()
    } else {
        let rest = filtered(files.drop_last(), includes, excludes);
        if kept(files.last(), includes, excludes) {
            rest.push(files.last())
        } else {
            rest
        }
    }
}

/// Keep the files whose basename matches the include set (every file when
/// there are no includes) and not the exclude set, in their order.
pub fn apply_include_exclude(files: &mut Vec<String>, includes: &[String], excludes: &[String])
    ensures
        str_views(final(files)@) == filtered(
            str_views(old(files)@),
            str_views(includes@),
            str_views(excludes@),
        ),
{
    let ghost all = str_views(files@);
    let ghost iv = str_views(includes@);
    let ghost ev = str_views(excludes@);
    let mut kept_files: Vec<String> = Vec::new();
    let mut i: usize = 0;
    assert(all.subrange(0, 0) =~= Seq::<Seq<char>>::empty());
    while i < files.len()
        invariant
            i <= files@.len(),
            all == str_views(files@),
            iv == str_views(includes@),
            ev == str_views(excludes@),
            str_views(kept_files@) == filtered(all.subrange(0, i as int), iv, ev),
        decreases files@.len() - i,
    {
        let name = match paths::file_name_of(files[i].as_str()) {
            Some(n) => n,
            None => String::new(),
        };
        proof {
            assert(name@ == match_name(files@[i as int]@));
            assert(all.subrange(0, i + 1).drop_last() == all.subrange(0, i as int));
            assert(all.subrange(0, i + 1).last() == files@[i as int]@);
        }
        let included = includes.len() == 0 || glob_set_matches(includes, name.as_str());
        let keep = included && !glob_set_matches(excludes, name.as_str());
        if keep {
            let copy = files[i].clone();
            proof {
                assert(str_views(kept_files@.push(copy)) == str_views(kept_files@).push(copy@));
            }
            kept_files.push(copy);
        }
        i = i + 1;
    }
    proof {
        assert(all.subrange(0, all.len() as int) == all);
    }
    *files = kept_files;
}

} // verus!
