//! Which test files to run when a file changes: the file itself when it is
//! a test, the tests the dependency map lists for it, else the tests whose
//! names the tools derive from its stem, else the whole suite. Asking the
//! plugins and the file system is the caller's part.
use vstd::prelude::*;

use crate::git::{join_path, join_path_exec};
use crate::paths;
use crate::python::import_map::{root_relative, root_relative_exec};
use crate::text;
use crate::text::str_views;

verus! {

/// What to run after a change.
#[derive(Debug, Clone, PartialEq, Eq)]
pub enum TestAction {
    /// These test files, in order.
    Run(Vec<String>),
    /// Everything.
    FullSuite,
}

/// The Unicode lower-case form of a string (`str::to_lowercase`).
pub uninterp spec fn unicode_lower(s: Seq<char>) -> Seq<char>;

/// Wrapper for `str::to_lowercase`: the result is a function of the
/// string alone (Unicode's lower-case mapping, which the standard library
/// documents and this crate does not restate).
#[verifier::external_body]
fn lowercase(s: &str) -> (r: String)
    ensures
        r@ == unicode_lower(s@),
{
    s.to_lowercase()
}

/// The stem of a file name: the name without its extension.
pub open spec fn stem_of(name: Seq<char>) -> Seq<char> {
    match paths::name_extension(name) {
        Some(e) => name.subrange(0, name.len() - e.len() - 1),
        None => name,
    }
}

/// The lower-cased stem of a changed file, the key of the file-name
/// heuristic; `None` when the path has no file name.
pub fn source_stem(changed: &str) -> (r: Option<String>)
    ensures
        match r {
            Some(s) => paths::file_name(changed@) matches Some(n) && s@ == unicode_lower(stem_of(n)),
            None => paths::file_name(changed@) is None,
        },
{
    match paths::file_name_of(changed) {
        None => None,
        Some(n) => {
            let nc = text::chars_of(n.as_str());
            let stem = match paths::name_extension_exec(nc.as_slice()) {
                Some(e) => {
                    proof {
                        let i = nc@.index_of_last('.')->0;
                        nc@.index_of_last_ensures('.');
                        assert(e@.len() + 1 <= nc@.len());
                    }
                    text::slice_of(nc.as_slice(), 0, nc.len() - e.len() - 1)
                },
                None => nc,
            };
            let s = text::string_from(stem.as_slice());
            Some(lowercase(s.as_str()))
        },
    }
}

/// The lower-cased names among `names`.
pub open spec fn lowered(names: Seq<Seq<char>>) -> Seq<Seq<char>> {
    names.map_values(|n: Seq<char>| unicode_lower(n))
}

/// The test files whose lower-cased basename is one of the lower-cased
/// candidate names, in order.
pub open spec fn heuristic_matches(candidates: Seq<Seq<char>>, test_files: Seq<Seq<char>>) -> Seq<Seq<char>>
    decreases test_files.len(),
{
    if test_files.len() == 0 {
        Seq::empty()
    } else {
        let rest = heuristic_matches(candidates, test_files.drop_last());
        let f = test_files.last();
        if paths::file_name(f) matches Some(n) && lowered(candidates).contains(unicode_lower(n)) {
            rest.push(f)
        } else {
            rest
        }
    }
}

/// Filename heuristic: the test files whose basename matches one of the
/// candidate names the tools derived from the changed file's stem (both
/// compared lower-cased).
pub fn heuristic_test_files(candidates: &[String], test_files: &[String]) -> (r: Vec<String>)
    ensures
        str_views(r@) == heuristic_matches(str_views(candidates@), str_views(test_files@)),
{
    let ghost cv = str_views(candidates@);
    let mut lower: Vec<String> = Vec::new();
    let mut i: usize = 0;
    while i < candidates.len()
        invariant
            i <= candidates@.len(),
            cv == str_views(candidates@),
            str_views(lower@) == lowered(cv.subrange(0, i as int)),
        decreases candidates@.len() - i,
    {
        let ghost before = str_views(lower@);
        lower.push(lowercase(candidates[i].as_str()));
        proof {
            assert(str_views(lower@) =~= before.push(unicode_lower(cv[i as int])));
            assert(lowered(cv.subrange(0, i + 1)) =~= lowered(cv.subrange(0, i as int)).push(
                unicode_lower(cv[i as int]),
            ));
        }
        i = i + 1;
    }
    proof {
        assert(cv.subrange(0, cv.len() as int) =~= cv);
    }
    let ghost tv = str_views(test_files@);
    let mut out: Vec<String> = Vec::new();
    let mut j: usize = 0;
    while j < test_files.len()
        invariant
            j <= test_files@.len(),
            tv == str_views(test_files@),
            str_views(lower@) == lowered(cv),
            str_views(out@) == heuristic_matches(cv, tv.subrange(0, j as int)),
        decreases test_files@.len() - j,
    {
        proof {
            assert(tv.subrange(0, j + 1).drop_last() =~= tv.subrange(0, j as int));
            assert(tv.subrange(0, j + 1).last() == test_files@[j as int]@);
        }
        match paths::file_name_of(test_files[j].as_str()) {
            Some(n) => {
                let ln = lowercase(n.as_str());
                if text::has_string(lower.as_slice(), ln.as_str()) {
                    let ghost before = str_views(out@);
                    out.push(test_files[j].clone());
                    proof {
                        assert(str_views(out@) =~= before.push(test_files@[j as int]@));
                    }
                }
            },
            None => {},
        }
        j = j + 1;
    }
    proof {
        assert(tv.subrange(0, tv.len() as int) =~= tv);
    }
    out
}

/// The test names the dependency map lists for `key` (the first entry of
/// that key), or none.
pub open spec fn map_entry(m: Seq<(String, Vec<String>)>, key: Seq<char>, i: int) -> Option<Seq<Seq<char>>>
    decreases m.len() - i,
{
    if i < 0 || i >= m.len() {
        None
    } else if m[i].0@ == key {
        Some(str_views(m[i].1@))
    } else {
        map_entry(m, key, i + 1)
    }
}

/// The key the dependency map uses for a changed file: its path below the
/// project root, or the path itself outside it.
pub open spec fn map_key(root: Seq<char>, changed: Seq<char>) -> Seq<char> {
    match root_relative(root, changed) {
        Some(r) => r,
        None => changed,
    }
}

/// Every test directory joined with every name, name after name.
pub open spec fn joined_all(names: Seq<Seq<char>>, dirs: Seq<Seq<char>>) -> Seq<Seq<char>>
    decreases names.len(),
{
    if names.len() == 0 {
        Seq::empty()
    } else {
        joined_all(names.drop_last(), dirs) + dirs.map_values(|d: Seq<char>| join_path(d, names.last()))
    }
}

/// The first test directory (from index `k` on) under which `name` exists
/// and is not yet chosen.
pub open spec fn first_dir_hit(
    dirs: Seq<Seq<char>>,
    name: Seq<char>,
    existing: Seq<Seq<char>>,
    chosen: Seq<Seq<char>>,
    k: int,
) -> Option<Seq<char>>
    decreases dirs.len() - k,
{
    if k < 0 || k >= dirs.len() {
        None
    } else {
        let p = join_path(dirs[k], name);
        if existing.contains(p) && !chosen.contains(p) {
            Some(p)
        } else {
            first_dir_hit(dirs, name, existing, chosen, k + 1)
        }
    }
}

/// `chosen` after looking up each of `names` in turn (see
/// [`first_dir_hit`]).
pub open spec fn pick_tests(
    names: Seq<Seq<char>>,
    dirs: Seq<Seq<char>>,
    existing: Seq<Seq<char>>,
    chosen: Seq<Seq<char>>,
) -> Seq<Seq<char>>
    decreases names.len(),
{
    if names.len() == 0 {
        chosen
    } else {
        let c = match first_dir_hit(dirs, names[0], existing, chosen, 0) {
            Some(p) => chosen.push(p),
            None => chosen,
        };
        pick_tests(names.drop_first(), dirs, existing, c)
    }
}

/// The paths whose existence decides the dependency-map lookup: each test
/// directory joined with each test name listed for the changed file, name
/// after name (none when there is no map or no entry).
pub fn dep_map_candidates(
    changed: &str,
    root: &str,
    dep_map: Option<&Vec<(String, Vec<String>)>>,
    test_dirs: &[String],
) -> (r: Vec<String>)
    ensures
        str_views(r@) == match dep_map {
            Some(m) => match map_entry(m@, map_key(root@, changed@), 0) {
                Some(names) => joined_all(names, str_views(test_dirs@)),
                None => Seq::empty(),
            },
            None => Seq::empty(),
        },
{
    let mut out: Vec<String> = Vec::new();
    let m = match dep_map {
        Some(m) => m,
        None => {
            proof {
                assert(str_views(out@) =~= Seq::<Seq<char>>::empty());
            }
            return out;
        },
    };
    let key = match root_relative_exec(root, changed) {
        Some(k) => k,
        None => text::owned(changed),
    };
    let mut i: usize = 0;
    while i < m.len()
        invariant
            i <= m@.len(),
            map_entry(m@, map_key(root@, changed@), 0) == map_entry(m@, key@, i as int),
            key@ == map_key(root@, changed@),
            out@.len() == 0,
            dep_map == Some(m),
        decreases m@.len() - i,
    {
        if text::str_eq(m[i].0.as_str(), key.as_str()) {
            let names = &m[i].1;
            let ghost nv = str_views(names@);
            let ghost dv = str_views(test_dirs@);
            proof {
                assert(m@[i as int].0@ == key@);
                assert(map_entry(m@, key@, i as int) == Some(nv));
            }
            let mut a: usize = 0;
            proof {
                assert(str_views(out@) =~= joined_all(nv.subrange(0, 0), dv));
            }
            while a < names.len()
                invariant
                    a <= names@.len(),
                    nv == str_views(names@),
                    dv == str_views(test_dirs@),
                    str_views(out@) == joined_all(nv.subrange(0, a as int), dv),
                decreases names@.len() - a,
            {
                let ghost base = str_views(out@);
                let mut b: usize = 0;
                while b < test_dirs.len()
                    invariant
                        a < names@.len(),
                        b <= test_dirs@.len(),
                        nv == str_views(names@),
                        dv == str_views(test_dirs@),
                        str_views(out@) == base + dv.subrange(0, b as int).map_values(
                            |d: Seq<char>| join_path(d, nv[a as int]),
                        ),
                    decreases test_dirs@.len() - b,
                {
                    let p = join_path_exec(test_dirs[b].as_str(), names[a].as_str());
                    let ghost before = str_views(out@);
                    out.push(p);
                    proof {
                        assert(str_views(out@) =~= before.push(p@));
                        assert(dv[b as int] == test_dirs@[b as int]@);
                        assert(nv[a as int] == names@[a as int]@);
                        assert(dv.subrange(0, b + 1).map_values(|d: Seq<char>| join_path(d, nv[a as int]))
                            =~= dv.subrange(0, b as int).map_values(|d: Seq<char>| join_path(d, nv[a as int])).push(
                            join_path(dv[b as int], nv[a as int]),
                        ));
                    }
                    b = b + 1;
                }
                proof {
                    assert(dv.subrange(0, dv.len() as int) =~= dv);
                    assert(nv.subrange(0, a + 1).drop_last() =~= nv.subrange(0, a as int));
                    assert(nv.subrange(0, a + 1).last() == nv[a as int]);
                }
                a = a + 1;
            }
            proof {
                assert(nv.subrange(0, nv.len() as int) =~= nv);
                assert(str_views(out@) == joined_all(nv, dv));
                assert(map_entry(m@, key@, i as int) == Some(nv));
                assert(map_entry(m@, map_key(root@, changed@), 0) == Some(nv));
                assert(dep_map == Some(m));
            }
            return out;
        }
        i = i + 1;
    }
    proof {
        assert(str_views(out@) =~= Seq::<Seq<char>>::empty());
    }
    out
}

/// What to run after `changed` changed: the file itself when it is a test
/// (`changed_is_test`), then, for each test name the dependency map lists
/// for it, the first test directory holding that name that is not chosen
/// yet (`existing` says which of those paths exist); when that gives
/// nothing, the heuristic matches; when those are empty too, the whole
/// suite.
pub open spec fn resolved_tests(
    changed: Seq<char>,
    changed_is_test: bool,
    root: Seq<char>,
    dep_map: Option<Seq<(String, Vec<String>)>>,
    test_dirs: Seq<Seq<char>>,
    existing: Seq<Seq<char>>,
    heuristic: Seq<Seq<char>>,
) -> Option<Seq<Seq<char>>> {
    let start = if changed_is_test { seq![changed] } else { Seq::empty() };
    let out = match dep_map {
        Some(m) => match map_entry(m, map_key(root, changed), 0) {
            Some(names) => pick_tests(names, test_dirs, existing, start),
            None => start,
        },
        None => start,
    };
    if out.len() > 0 {
        Some(out)
    } else if heuristic.len() > 0 {
        Some(heuristic)
    } else {
        None
    }
}

/// The view of an action: the files to run, or `None` for the whole suite.
pub open spec fn action_view(a: TestAction) -> Option<Seq<Seq<char>>> {
    match a {
        TestAction::Run(v) => Some(str_views(v@)),
        TestAction::FullSuite => None,
    }
}

/// Resolve which test files to run after a change (see
/// [`resolved_tests`]). `existing` lists the paths among
/// [`dep_map_candidates`] that exist; `heuristic` is what
/// [`heuristic_test_files`] gave.
pub fn resolve_tests(
    changed: &str,
    changed_is_test: bool,
    root: &str,
    dep_map: Option<&Vec<(String, Vec<String>)>>,
    test_dirs: &[String],
    existing: &[String],
    heuristic: Vec<String>,
) -> (r: TestAction)
    ensures
        action_view(r) == resolved_tests(
            changed@,
            changed_is_test,
            root@,
            match dep_map {
                Some(m) => Some(m@),
                None => None,
            },
            str_views(test_dirs@),
            str_views(existing@),
            str_views(heuristic@),
        ),
{
    let ghost dv = str_views(test_dirs@);
    let ghost ev = str_views(existing@);
    let mut out: Vec<String> = Vec::new();
    if changed_is_test {
        out.push(text::owned(changed));
    }
    proof {
        assert(str_views(out@) =~= if changed_is_test { seq![changed@] } else { Seq::<Seq<char>>::empty() });
    }
    match dep_map {
        Some(m) => {
            let key = match root_relative_exec(root, changed) {
                Some(k) => k,
                None => text::owned(changed),
            };
            let mut found: Option<usize> = None;
            let mut i: usize = 0;
            while i < m.len() && found.is_none()
                invariant
                    i <= m@.len(),
                    key@ == map_key(root@, changed@),
                    found is None ==> map_entry(m@, key@, 0) == map_entry(m@, key@, i as int),
                    found matches Some(k) ==> k < m@.len() && map_entry(m@, key@, 0) == Some(
                        str_views(m@[k as int].1@),
                    ),
                decreases m@.len() - i,
            {
                if text::str_eq(m[i].0.as_str(), key.as_str()) {
                    proof {
                        assert(m@[i as int].0@ == key@);
                    }
                    found = Some(i);
                }
                i = i + 1;
            }
            match found {
                None => {},
                Some(k) => {
                    let names = &m[k].1;
                    let ghost nv = str_views(names@);
                    let ghost start = str_views(out@);
                    let mut a: usize = 0;
                    proof {
                        assert(nv.subrange(0, nv.len() as int) =~= nv);
                    }
                    while a < names.len()
                        invariant
                            a <= names@.len(),
                            nv == str_views(names@),
                            dv == str_views(test_dirs@),
                            ev == str_views(existing@),
                            pick_tests(nv, dv, ev, start) == pick_tests(
                                nv.subrange(a as int, nv.len() as int),
                                dv,
                                ev,
                                str_views(out@),
                            ),
                        decreases names@.len() - a,
                    {
                        let ghost cur = str_views(out@);
                        let ghost rest = nv.subrange(a as int, nv.len() as int);
                        let ghost name = nv[a as int];
                        proof {
                            assert(rest[0] == name);
                            assert(name == names@[a as int]@);
                            assert(rest.drop_first() =~= nv.subrange(a + 1, nv.len() as int));
                        }
                        let mut hit: Option<String> = None;
                        let mut b: usize = 0;
                        while b < test_dirs.len() && hit.is_none()
                            invariant
                                a < names@.len(),
                                b <= test_dirs@.len(),
                                nv == str_views(names@),
                                dv == str_views(test_dirs@),
                                ev == str_views(existing@),
                                name == nv[a as int],
                                cur == str_views(out@),
                                hit is None ==> first_dir_hit(dv, name, ev, cur, 0) == first_dir_hit(
                                    dv,
                                    name,
                                    ev,
                                    cur,
                                    b as int,
                                ),
                                hit matches Some(p) ==> first_dir_hit(dv, name, ev, cur, 0) == Some(p@),
                            decreases test_dirs@.len() - b,
                        {
                            let p = join_path_exec(test_dirs[b].as_str(), names[a].as_str());
                            proof {
                                assert(dv[b as int] == test_dirs@[b as int]@);
                            }
                            if text::has_string(existing, p.as_str()) && !text::has_string(out.as_slice(), p.as_str()) {
                                hit = Some(p);
                            }
                            b = b + 1;
                        }
                        match hit {
                            Some(p) => {
                                out.push(p);
                                proof {
                                    assert(str_views(out@) =~= cur.push(p@));
                                }
                            },
                            None => {},
                        }
                        a = a + 1;
                    }
                    proof {
                        assert(nv.subrange(names@.len() as int, nv.len() as int) =~= Seq::<Seq<char>>::empty());
                    }
                },
            }
        },
        None => {},
    }
    if out.len() > 0 {
        TestAction::Run(out)
    } else if heuristic.len() > 0 {
        TestAction::Run(heuristic)
    } else {
        TestAction::FullSuite
    }
}

/// Picking tests only appends to what was chosen before.
proof fn lemma_pick_keeps_chosen(
    names: Seq<Seq<char>>,
    dirs: Seq<Seq<char>>,
    existing: Seq<Seq<char>>,
    chosen: Seq<Seq<char>>,
)
    ensures
        pick_tests(names, dirs, existing, chosen).len() >= chosen.len(),
        forall|i: int|
            0 <= i < chosen.len() ==> #[trigger] pick_tests(names, dirs, existing, chosen)[i]
                == chosen[i],
    decreases names.len(),
{
    if names.len() > 0 {
        let c = match first_dir_hit(dirs, names[0], existing, chosen, 0) {
            Some(p) => chosen.push(p),
            None => chosen,
        };
        lemma_pick_keeps_chosen(names.drop_first(), dirs, existing, c);
    }
}

/// `chosen` with the hit of `name` from directory `i` on added, if any.
spec fn chosen_after_hit(
    dirs: Seq<Seq<char>>,
    name: Seq<char>,
    existing: Seq<Seq<char>>,
    chosen: Seq<Seq<char>>,
    i: int,
) -> Seq<Seq<char>> {
    match first_dir_hit(dirs, name, existing, chosen, i) {
        Some(p) => chosen.push(p),
        None => chosen,
    }
}

/// The lookup of `name` from directory `i` on leaves a path of `name`
/// under one of the directories `i..=k` chosen, when the one under `k`
/// exists.
proof fn lemma_dir_hit_covers(
    dirs: Seq<Seq<char>>,
    name: Seq<char>,
    existing: Seq<Seq<char>>,
    chosen: Seq<Seq<char>>,
    i: int,
    k: int,
)
    requires
        0 <= i <= k < dirs.len(),
        existing.contains(join_path(dirs[k], name)),
    ensures
        exists|k2: int|
            i <= k2 <= k && #[trigger] chosen_after_hit(dirs, name, existing, chosen, i).contains(
                join_path(dirs[k2], name),
            ),
    decreases k - i,
{
    let c2 = chosen_after_hit(dirs, name, existing, chosen, i);
    let p = join_path(dirs[i], name);
    if existing.contains(p) && !chosen.contains(p) {
        assert(c2.last() == p);
        assert(c2.contains(join_path(dirs[i], name)));
    } else if i == k {
        let j = choose|j: int| 0 <= j < chosen.len() && chosen[j] == p;
        assert(c2[j] == p);
        assert(c2.contains(join_path(dirs[k], name)));
    } else {
        lemma_dir_hit_covers(dirs, name, existing, chosen, i + 1, k);
        let k2 = choose|k2: int|
            i + 1 <= k2 <= k && #[trigger] chosen_after_hit(dirs, name, existing, chosen, i + 1).contains(
                join_path(dirs[k2], name),
            );
        assert(c2.contains(join_path(dirs[k2], name)));
    }
}

/// Every listed name with a test under one of the directories gets a path
/// of its own among the picked tests, under that directory or an earlier
/// one.
proof fn lemma_pick_covers(
    names: Seq<Seq<char>>,
    dirs: Seq<Seq<char>>,
    existing: Seq<Seq<char>>,
    chosen: Seq<Seq<char>>,
    j: int,
    k: int,
)
    requires
        0 <= j < names.len(),
        0 <= k < dirs.len(),
        existing.contains(join_path(dirs[k], names[j])),
    ensures
        exists|k2: int|
            0 <= k2 <= k && #[trigger] pick_tests(names, dirs, existing, chosen).contains(
                join_path(dirs[k2], names[j]),
            ),
    decreases names.len(),
{
    let c = chosen_after_hit(dirs, names[0], existing, chosen, 0);
    let out = pick_tests(names, dirs, existing, chosen);
    assert(out == pick_tests(names.drop_first(), dirs, existing, c));
    if j == 0 {
        lemma_dir_hit_covers(dirs, names[0], existing, chosen, 0, k);
        let k2 = choose|k2: int|
            0 <= k2 <= k && #[trigger] c.contains(join_path(dirs[k2], names[0]));
        let x = choose|x: int| 0 <= x < c.len() && c[x] == join_path(dirs[k2], names[0]);
        lemma_pick_keeps_chosen(names.drop_first(), dirs, existing, c);
        assert(out[x] == c[x]);
        assert(out.contains(join_path(dirs[k2], names[j])));
    } else {
        assert(names.drop_first()[j - 1] == names[j]);
        lemma_pick_covers(names.drop_first(), dirs, existing, c, j - 1, k);
    }
}

/// Law: the dependency map is consulted whether or not the changed file is
/// itself a test. For every test name the map lists for the changed file
/// that exists under some test directory, a path of that name under that
/// directory (or an earlier one) is among the files to run; a changed test
/// file comes first.
pub proof fn law_dep_map_hits_are_run(
    changed: Seq<char>,
    changed_is_test: bool,
    root: Seq<char>,
    m: Seq<(String, Vec<String>)>,
    test_dirs: Seq<Seq<char>>,
    existing: Seq<Seq<char>>,
    heuristic: Seq<Seq<char>>,
    names: Seq<Seq<char>>,
    j: int,
    k: int,
)
    requires
        map_entry(m, map_key(root, changed), 0) == Some(names),
        0 <= j < names.len(),
        0 <= k < test_dirs.len(),
        existing.contains(join_path(test_dirs[k], names[j])),
    ensures
        resolved_tests(changed, changed_is_test, root, Some(m), test_dirs, existing, heuristic) is Some,
        exists|k2: int|
            0 <= k2 <= k && #[trigger] resolved_tests(
                changed,
                changed_is_test,
                root,
                Some(m),
                test_dirs,
                existing,
                heuristic,
            ).unwrap().contains(join_path(test_dirs[k2], names[j])),
        changed_is_test ==> resolved_tests(
            changed,
            changed_is_test,
            root,
            Some(m),
            test_dirs,
            existing,
            heuristic,
        ).unwrap()[0] == changed,
{
    let start = if changed_is_test { seq![changed] } else { Seq::<Seq<char>>::empty() };
    let out = pick_tests(names, test_dirs, existing, start);
    lemma_pick_covers(names, test_dirs, existing, start, j, k);
    lemma_pick_keeps_chosen(names, test_dirs, existing, start);
    let k2 = choose|k2: int|
        0 <= k2 <= k && #[trigger] out.contains(join_path(test_dirs[k2], names[j]));
    assert(out.len() > 0);
    let r = resolved_tests(changed, changed_is_test, root, Some(m), test_dirs, existing, heuristic);
    assert(r == Some(out));
    assert(r.unwrap().contains(join_path(test_dirs[k2], names[j])));
    if changed_is_test {
        assert(out[0] == start[0]);
    }
}

} // verus!
