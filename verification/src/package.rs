//! How a project's suites are laid out: the glob patterns each suite runs
//! and watches (anchored under its root), the directories to walk, which
//! suite owns a file, and the file-mode plan for explicit file lists.
//! Detecting tools, canonicalizing roots and walking the tree are the
//! caller's part.
use vstd::prelude::*;

use crate::filter::{any_match, any_matches};
use crate::paths;
use crate::registry;
use crate::text;
use crate::text::str_views;

verus! {

/// Per-suite worker hook script paths, resolved against the project root.
#[derive(Debug, Clone, Default)]
pub struct WorkerHookPaths {
    pub startup: Option<String>,
    pub teardown: Option<String>,
}

/// Each pattern anchored under `root`.
pub open spec fn anchored_all(root: Seq<char>, patterns: Seq<Seq<char>>) -> Seq<Seq<char>> {
    patterns.map_values(|p: Seq<char>| paths::anchored(root, p))
}

/// Anchor each pattern under `root` (absolute patterns stay as they are).
pub fn anchor_patterns(root: &str, patterns: &[String]) -> (r: Vec<String>)
    ensures
        str_views(r@) == anchored_all(root@, str_views(patterns@)),
{
    let ghost pv = str_views(patterns@);
    let mut r: Vec<String> = Vec::new();
    let mut i: usize = 0;
    while i < patterns.len()
        invariant
            i <= patterns@.len(),
            pv == str_views(patterns@),
            str_views(r@) == anchored_all(root@, pv.subrange(0, i as int)),
        decreases patterns@.len() - i,
    {
        let ghost before = str_views(r@);
        r.push(paths::anchor_pattern(root, patterns[i].as_str()));
        proof {
            assert(str_views(r@) =~= before.push(paths::anchored(root@, pv[i as int])));
            assert(anchored_all(root@, pv.subrange(0, i + 1)) =~= anchored_all(root@, pv.subrange(0, i as int)).push(
                paths::anchored(root@, pv[i as int]),
            ));
        }
        i = i + 1;
    }
    proof {
        assert(pv.subrange(0, pv.len() as int) =~= pv);
    }
    r
}

/// A suite's run patterns: the configured ones, else the plugin's
/// defaults, anchored under the suite root.
pub open spec fn run_patterns_of(root: Seq<char>, run: Seq<Seq<char>>, defaults: Seq<Seq<char>>) -> Seq<Seq<char>> {
    if run.len() == 0 {
        anchored_all(root, defaults)
    } else {
        anchored_all(root, run)
    }
}

/// A suite's watch patterns: the configured ones; else the plugin's watch
/// defaults; else the run patterns.
pub open spec fn watch_patterns_of(
    root: Seq<char>,
    watch: Seq<Seq<char>>,
    defaults: Seq<Seq<char>>,
    run_patterns: Seq<Seq<char>>,
) -> Seq<Seq<char>> {
    if watch.len() > 0 {
        anchored_all(root, watch)
    } else if defaults.len() == 0 {
        run_patterns
    } else {
        anchored_all(root, defaults)
    }
}

/// The run and watch patterns of a suite (see [`run_patterns_of`] and
/// [`watch_patterns_of`]).
pub fn suite_patterns(
    root: &str,
    run: &[String],
    watch: &[String],
    default_run: &[String],
    default_watch: &[String],
) -> (r: (Vec<String>, Vec<String>))
    ensures
        str_views(r.0@) == run_patterns_of(root@, str_views(run@), str_views(default_run@)),
        str_views(r.1@) == watch_patterns_of(
            root@,
            str_views(watch@),
            str_views(default_watch@),
            str_views(r.0@),
        ),
{
    let runs = if run.len() == 0 {
        anchor_patterns(root, default_run)
    } else {
        anchor_patterns(root, run)
    };
    let watches = if watch.len() > 0 {
        anchor_patterns(root, watch)
    } else if default_watch.len() == 0 {
        crate::protocol::copy_strings(&runs)
    } else {
        anchor_patterns(root, default_watch)
    };
    (runs, watches)
}

/// The first occurrence of each string, in order.
pub open spec fn first_occurrences(v: Seq<Seq<char>>) -> Seq<Seq<char>>
    decreases v.len(),
{
    if v.len() == 0 {
        Seq::empty()
    } else {
        let rest = first_occurrences(v.drop_last());
        if v.drop_last().contains(v.last()) {
            rest
        } else {
            rest.push(v.last())
        }
    }
}

/// Keep the first occurrence of each string, in order.
pub fn dedup_keep_first(v: &[String]) -> (r: Vec<String>)
    ensures
        str_views(r@) == first_occurrences(str_views(v@)),
{
    let ghost vv = str_views(v@);
    let mut out: Vec<String> = Vec::new();
    let mut seen: Vec<String> = Vec::new();
    let mut i: usize = 0;
    while i < v.len()
        invariant
            i <= v@.len(),
            vv == str_views(v@),
            str_views(out@) == first_occurrences(vv.subrange(0, i as int)),
            str_views(seen@) == vv.subrange(0, i as int),
        decreases v@.len() - i,
    {
        proof {
            assert(vv.subrange(0, i + 1).drop_last() =~= vv.subrange(0, i as int));
            assert(vv.subrange(0, i + 1).last() == v@[i as int]@);
        }
        if !text::has_string(seen.as_slice(), v[i].as_str()) {
            let ghost before = str_views(out@);
            out.push(v[i].clone());
            proof {
                assert(str_views(out@) =~= before.push(v@[i as int]@));
            }
        }
        let ghost sb = str_views(seen@);
        seen.push(v[i].clone());
        proof {
            assert(str_views(seen@) =~= sb.push(v@[i as int]@));
            assert(vv.subrange(0, i + 1) =~= vv.subrange(0, i as int).push(vv[i as int]));
        }
        i = i + 1;
    }
    proof {
        assert(vv.subrange(0, vv.len() as int) =~= vv);
    }
    out
}

/// The literal (glob-free) prefix of each pattern, in order: the
/// directories to walk or watch for those patterns.
pub fn literal_prefixes(patterns: &[String]) -> (r: Vec<String>)
    ensures
        str_views(r@) == str_views(patterns@).map_values(|p: Seq<char>| paths::literal_prefix_spec(p)),
{
    let ghost pv = str_views(patterns@);
    let mut r: Vec<String> = Vec::new();
    let mut i: usize = 0;
    while i < patterns.len()
        invariant
            i <= patterns@.len(),
            pv == str_views(patterns@),
            str_views(r@) == pv.subrange(0, i as int).map_values(|p: Seq<char>| paths::literal_prefix_spec(p)),
        decreases patterns@.len() - i,
    {
        let ghost before = str_views(r@);
        r.push(paths::literal_prefix(patterns[i].as_str()));
        proof {
            assert(str_views(r@) =~= before.push(paths::literal_prefix_spec(pv[i as int])));
            assert(pv.subrange(0, i + 1).map_values(|p: Seq<char>| paths::literal_prefix_spec(p)) =~= pv.subrange(
                0,
                i as int,
            ).map_values(|p: Seq<char>| paths::literal_prefix_spec(p)).push(paths::literal_prefix_spec(pv[i as int])));
        }
        i = i + 1;
    }
    proof {
        assert(pv.subrange(0, pv.len() as int) =~= pv);
    }
    r
}

/// A suite claims a path: some run pattern matches the full path, and the
/// plugin counts it as a test file unless the files were listed
/// explicitly.
pub open spec fn owns(run_patterns: Seq<Seq<char>>, explicit_files: bool, plugin_says_test: bool, path: Seq<char>) -> bool {
    any_match(run_patterns, path) && (explicit_files || plugin_says_test)
}

/// Does the suite own `path` (see [`owns`])?
pub fn owns_test_file(run_patterns: &[String], explicit_files: bool, plugin_says_test: bool, path: &str) -> (r: bool)
    ensures
        r == owns(str_views(run_patterns@), explicit_files, plugin_says_test, path@),
{
    if !any_matches(run_patterns, path) {
        return false;
    }
    explicit_files || plugin_says_test
}

/// The `+`-joined tool names of the active suites.
pub fn tool_names(names: &Vec<String>) -> (r: String)
    ensures
        r@ == text::join(str_views(names@), "+"@),
{
    text::join_strings(names, "+")
}

/// The plan of a file-mode run over explicit files: the suite root (the
/// files' common ancestor) and one literal run pattern per file; refused
/// when there are no files, the tool is unknown, or the tool needs a
/// project root (it runs with warm workers rather than in command mode).
pub open spec fn file_mode_plan_of(files: Seq<Seq<char>>, tool: Seq<char>) -> Result<
    (Seq<char>, Seq<Seq<char>>),
    Seq<char>,
> {
    if files.len() == 0 {
        Err("file-mode requires at least one file"@)
    } else if !registry::registry_names().contains(tool) {
        Err("Unknown tool: "@ + tool)
    } else if !registry::registry_command_mode()[registry::registry_index(tool)->0] {
        Err(tool + " requires a project root; run scrutin from the project directory instead"@)
    } else {
        Ok((paths::common_ancestor_spec(files)->0, files))
    }
}

/// Plan a file-mode run of `tool` over `files` (see [`file_mode_plan_of`]).
pub fn file_mode_plan(files: &[String], tool: &str) -> (r: Result<
    (String, Vec<String>),
    String,
>)
    ensures
        match r {
            Ok((root, run)) => file_mode_plan_of(str_views(files@), tool@) == Ok::<
                (Seq<char>, Seq<Seq<char>>),
                Seq<char>,
            >((root@, str_views(run@))),
            Err(m) => file_mode_plan_of(str_views(files@), tool@) == Err::<
                (Seq<char>, Seq<Seq<char>>),
                Seq<char>,
            >(m@),
        },
{
    if files.len() == 0 {
        return Err(text::owned("file-mode requires at least one file"));
    }
    let plugin = match registry::plugin_by_name(tool) {
        Some(p) => p,
        None => {
            let mut m = text::owned("Unknown tool: ");
            text::push_str(&mut m, tool);
            return Err(m);
        },
    };
    if !plugin.is_command_mode() {
        let mut m = text::owned(tool);
        text::push_str(&mut m, " requires a project root; run scrutin from the project directory instead");
        return Err(m);
    }
    let root = match paths::common_ancestor(files) {
        Some(r) => r,
        None => {
            proof {
                assert(paths::common_ancestor_spec(str_views(files@)) is Some);
            }
            return Err(String::new());
        },
    };
    let mut run: Vec<String> = Vec::new();
    let mut i: usize = 0;
    while i < files.len()
        invariant
            i <= files@.len(),
            str_views(run@) == str_views(files@).subrange(0, i as int),
        decreases files@.len() - i,
    {
        let ghost before = str_views(run@);
        run.push(files[i].clone());
        proof {
            assert(str_views(run@) =~= before.push(files@[i as int]@));
            assert(str_views(files@).subrange(0, i + 1) =~= str_views(files@).subrange(0, i as int).push(
                files@[i as int]@,
            ));
        }
        i = i + 1;
    }
    proof {
        assert(str_views(files@).subrange(0, files@.len() as int) =~= str_views(files@));
    }
    Ok((root, run))
}


// ── Routing ─────────────────────────────────────────────────────────────────

/// What routing needs of one suite: its plugin, its anchored run patterns
/// and whether its files were listed explicitly.
#[derive(Debug, Clone)]
pub struct SuiteRoute {
    pub plugin: registry::PluginKind,
    pub run: Vec<String>,
    pub explicit_files: bool,
}

/// Does the suite claim `path` (see [`owns`])?
pub open spec fn route_owns(s: SuiteRoute, path: Seq<char>) -> bool {
    owns(str_views(s.run@), s.explicit_files, s.plugin.test_file_spec(path), path)
}

/// The first suite, in registration order, that claims `path`.
pub open spec fn first_owner(suites: Seq<SuiteRoute>, path: Seq<char>) -> Option<int>
    decreases suites.len(),
{
    if suites.len() == 0 {
        None
    } else if route_owns(suites[0], path) {
        Some(0)
    } else {
        match first_owner(suites.drop_first(), path) {
            Some(i) => Some(i + 1),
            None => None,
        }
    }
}

proof fn lemma_first_owner_bounds(suites: Seq<SuiteRoute>, path: Seq<char>)
    ensures
        first_owner(suites, path) matches Some(i) ==> 0 <= i < suites.len(),
    decreases suites.len(),
{
    if suites.len() > 0 {
        lemma_first_owner_bounds(suites.drop_first(), path);
    }
}

/// Which suite owns `path`: the first that claims it (see
/// [`first_owner`]).
pub fn suite_for(suites: &[SuiteRoute], path: &str) -> (r: Option<usize>)
    ensures
        match r {
            Some(i) => first_owner(suites@, path@) == Some(i as int) && i < suites@.len(),
            None => first_owner(suites@, path@) is None,
        },
{
    let mut i: usize = 0;
    assert(suites@.subrange(0, suites@.len() as int) =~= suites@);
    while i < suites.len()
        invariant
            i <= suites@.len(),
            first_owner(suites@, path@) == match first_owner(suites@.subrange(i as int, suites@.len() as int), path@) {
                Some(k) => Some(k + i),
                None => None::<int>,
            },
        decreases suites@.len() - i,
    {
        let ghost rest = suites@.subrange(i as int, suites@.len() as int);
        proof {
            assert(rest[0] == suites@[i as int]);
            assert(rest.drop_first() =~= suites@.subrange(i + 1, suites@.len() as int));
        }
        let says = suites[i].plugin.is_test_file(path);
        if owns_test_file(suites[i].run.as_slice(), suites[i].explicit_files, says, path) {
            return Some(i);
        }
        i = i + 1;
    }
    None
}

} // verus!
