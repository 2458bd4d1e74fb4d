//! The reverse dependency map of a Python project: for each source file,
//! the test files that import it, directly or through other sources.
//! Walking the tree and reading the files is the caller's part.
use vstd::prelude::*;

use crate::paths;
use crate::python::imports::{
    file_to_module, file_parts, imports_of, index_view, models, module_name, relative_comps,
    resolve_hits, resolve_imports, scan_imports_str,
};
use crate::reporter::{dep_view, keys_unique};
use crate::text;
use crate::text::{char_views, str_views};

verus! {

// ── Graphs and reachability ─────────────────────────────────────────────────

/// The plain view of an adjacency list: node to its neighbours.
pub open spec fn graph_view(g: Seq<(String, Vec<String>)>) -> Seq<(Seq<char>, Seq<Seq<char>>)> {
    g.map_values(|e: (String, Vec<String>)| (e.0@, str_views(e.1@)))
}

/// The neighbours of `x`: those of its first entry from index `i` on
/// (none when it has no entry).
pub open spec fn nbrs_from(gv: Seq<(Seq<char>, Seq<Seq<char>>)>, x: Seq<char>, i: int) -> Seq<
    Seq<char>,
>
    decreases gv.len() - i,
{
    if i < 0 || i >= gv.len() {
        Seq::empty()
    } else if gv[i].0 == x {
        gv[i].1
    } else {
        nbrs_from(gv, x, i + 1)
    }
}

/// The edge relation of an adjacency list.
pub open spec fn graph_rel(gv: Seq<(Seq<char>, Seq<Seq<char>>)>) -> spec_fn(Seq<char>, Seq<char>) -> bool {
    |a: Seq<char>, b: Seq<char>| nbrs_from(gv, a, 0).contains(b)
}

/// Step `i` of `p` follows an edge.
pub open spec fn step_ok(rel: spec_fn(Seq<char>, Seq<char>) -> bool, p: Seq<Seq<char>>, i: int) -> bool {
    rel(p[i], p[i + 1])
}

/// `p` is a non-empty walk along `rel`.
pub open spec fn is_walk(rel: spec_fn(Seq<char>, Seq<char>) -> bool, p: Seq<Seq<char>>) -> bool {
    p.len() > 0 && forall|i: int| 0 <= i < p.len() - 1 ==> #[trigger] step_ok(rel, p, i)
}

/// `p` is a walk from a node of `start` to `x`.
pub open spec fn walk_to(
    rel: spec_fn(Seq<char>, Seq<char>) -> bool,
    start: Seq<Seq<char>>,
    p: Seq<Seq<char>>,
    x: Seq<char>,
) -> bool {
    is_walk(rel, p) && start.contains(p[0]) && p.last() == x
}

/// `x` can be reached from some node of `start` (zero or more edges).
pub open spec fn reachable(rel: spec_fn(Seq<char>, Seq<char>) -> bool, start: Seq<Seq<char>>, x: Seq<char>) -> bool {
    exists|p: Seq<Seq<char>>| #[trigger] walk_to(rel, start, p, x)
}

/// Every neighbour list, entry after entry, from index `i` on.
pub open spec fn targets_from(gv: Seq<(Seq<char>, Seq<Seq<char>>)>, i: int) -> Seq<Seq<char>>
    decreases gv.len() - i,
{
    if i < 0 || i >= gv.len() {
        Seq::empty()
    } else {
        gv[i].1 + targets_from(gv, i + 1)
    }
}

/// Every neighbour of a node is among the targets.
proof fn lemma_nbrs_in_targets(gv: Seq<(Seq<char>, Seq<Seq<char>>)>, x: Seq<char>, y: Seq<char>, i: int)
    requires
        0 <= i,
        nbrs_from(gv, x, i).contains(y),
    ensures
        targets_from(gv, i).contains(y),
    decreases gv.len() - i,
{
    if i < gv.len() {
        let t = targets_from(gv, i);
        if gv[i].0 == x {
            let k = choose|k: int| 0 <= k < gv[i].1.len() && gv[i].1[k] == y;
            assert(t[k] == y);
        } else {
            lemma_nbrs_in_targets(gv, x, y, i + 1);
            let r = targets_from(gv, i + 1);
            let k = choose|k: int| 0 <= k < r.len() && r[k] == y;
            assert(t[gv[i].1.len() + k] == y);
        }
    }
}

/// A list without repeats whose items all occur in `b` is no longer than `b`.
proof fn lemma_unique_within(a: Seq<Seq<char>>, b: Seq<Seq<char>>)
    requires
        a.no_duplicates(),
        forall|x: Seq<char>| #[trigger] a.contains(x) ==> b.contains(x),
    ensures
        a.len() <= b.len(),
{
    a.unique_seq_to_set();
    b.lemma_cardinality_of_set();
    assert(a.to_set().subset_of(b.to_set())) by {
        assert forall|x: Seq<char>| a.to_set().contains(x) implies b.to_set().contains(x) by {
            assert(a.contains(x));
        }
    }
    vstd::set_lib::lemma_len_subset(a.to_set(), b.to_set());
}

/// A walk extended by one edge is a walk.
proof fn lemma_extend_walk(
    rel: spec_fn(Seq<char>, Seq<char>) -> bool,
    start: Seq<Seq<char>>,
    p: Seq<Seq<char>>,
    x: Seq<char>,
    y: Seq<char>,
)
    requires
        walk_to(rel, start, p, x),
        rel(x, y),
    ensures
        walk_to(rel, start, p.push(y), y),
{
    let q = p.push(y);
    assert forall|i: int| 0 <= i < q.len() - 1 implies #[trigger] step_ok(rel, q, i) by {
        if i < p.len() - 1 {
            assert(step_ok(rel, p, i));
            assert(q[i] == p[i] && q[i + 1] == p[i + 1]);
        } else {
            assert(q[i] == x && q[i + 1] == y);
        }
    }
    assert(q[0] == p[0]);
}

/// Every node is reachable from a start set that holds it.
proof fn lemma_start_reachable(rel: spec_fn(Seq<char>, Seq<char>) -> bool, start: Seq<Seq<char>>, x: Seq<char>)
    requires
        start.contains(x),
    ensures
        reachable(rel, start, x),
{
    let p = seq![x];
    assert(walk_to(rel, start, p, x));
}

/// Each neighbour of `x` in the graph is in `s`.
pub open spec fn done_node(gv: Seq<(Seq<char>, Seq<Seq<char>>)>, s: Seq<Seq<char>>, x: Seq<char>) -> bool {
    forall|y: Seq<char>| #[trigger] nbrs_from(gv, x, 0).contains(y) ==> s.contains(y)
}

/// A set closed under the edges that holds a walk's first node holds its
/// last one.
proof fn lemma_closed_holds_walk(gv: Seq<(Seq<char>, Seq<Seq<char>>)>, s: Seq<Seq<char>>, p: Seq<Seq<char>>)
    requires
        is_walk(graph_rel(gv), p),
        s.contains(p[0]),
        forall|x: Seq<char>| #[trigger] s.contains(x) ==> done_node(gv, s, x),
    ensures
        s.contains(p.last()),
    decreases p.len(),
{
    if p.len() > 1 {
        let q = p.drop_last();
        assert forall|i: int| 0 <= i < q.len() - 1 implies #[trigger] step_ok(graph_rel(gv), q, i) by {
            assert(step_ok(graph_rel(gv), p, i));
        }
        lemma_closed_holds_walk(gv, s, q);
        let n = p.len() - 2;
        assert(step_ok(graph_rel(gv), p, n));
        assert(q.last() == p[n]);
        assert(done_node(gv, s, p[n]));
        assert(nbrs_from(gv, p[n], 0).contains(p[n + 1]));
    }
}

/// The neighbour list of `x`, when it has an entry.
fn neighbours_of<'a>(g: &'a Vec<(String, Vec<String>)>, x: &str) -> (r: Option<&'a Vec<String>>)
    ensures
        match r {
            Some(v) => str_views(v@) == nbrs_from(graph_view(g@), x@, 0),
            None => nbrs_from(graph_view(g@), x@, 0) == Seq::<Seq<char>>::empty(),
        },
{
    let ghost gv = graph_view(g@);
    let mut i: usize = 0;
    while i < g.len()
        invariant
            i <= g@.len(),
            gv == graph_view(g@),
            nbrs_from(gv, x@, 0) == nbrs_from(gv, x@, i as int),
        decreases g@.len() - i,
    {
        if text::str_eq(g[i].0.as_str(), x) {
            return Some(&g[i].1);
        }
        i = i + 1;
    }
    None
}

/// Every node reachable from `start` along the graph's edges (the start
/// nodes included), each once: a work-list walk that visits each node a
/// single time, so cycles end it.
pub fn close_over(g: &Vec<(String, Vec<String>)>, start: Vec<String>) -> (r: Vec<String>)
    requires
        str_views(start@).no_duplicates(),
    ensures
        str_views(r@).no_duplicates(),
        forall|x: Seq<char>| #[trigger] str_views(r@).contains(x) <==> reachable(
            graph_rel(graph_view(g@)),
            str_views(start@),
            x,
        ),
{
    let ghost gv = graph_view(g@);
    let ghost rel = graph_rel(gv);
    let ghost st = str_views(start@);
    let ghost u = st + targets_from(gv, 0);
    let mut s: Vec<String> = crate::protocol::copy_strings(&start);
    let mut q: Vec<String> = start;
    proof {
        assert forall|x: Seq<char>| #[trigger] str_views(s@).contains(x) implies reachable(rel, st, x) by {
            lemma_start_reachable(rel, st, x);
        }
        assert forall|x: Seq<char>| #[trigger] str_views(s@).contains(x) implies u.contains(x) by {
            let k = choose|k: int| 0 <= k < st.len() && st[k] == x;
            assert(u[k] == x);
        }
        lemma_unique_within(str_views(s@), u);
    }
    while q.len() > 0
        invariant
            gv == graph_view(g@),
            rel == graph_rel(gv),
            u == st + targets_from(gv, 0),
            str_views(s@).no_duplicates(),
            str_views(q@).no_duplicates(),
            s@.len() <= u.len(),
            forall|x: Seq<char>| #[trigger] str_views(q@).contains(x) ==> str_views(s@).contains(x),
            forall|x: Seq<char>| #[trigger] st.contains(x) ==> str_views(s@).contains(x),
            forall|x: Seq<char>| #[trigger] str_views(s@).contains(x) ==> u.contains(x),
            forall|x: Seq<char>| #[trigger] str_views(s@).contains(x) ==> reachable(rel, st, x),
            forall|x: Seq<char>| #[trigger] str_views(s@).contains(x) ==> str_views(q@).contains(x)
                || done_node(gv, str_views(s@), x),
        decreases u.len() - s@.len(), q@.len(),
    {
        let ghost q_before = str_views(q@);
        let x = q.pop().unwrap();
        let ghost xv = x@;
        let ghost s0 = s@.len();
        let ghost q0 = q@.len();
        proof {
            assert(q_before.last() == xv);
            assert(str_views(q@) =~= q_before.drop_last());
            assert(!str_views(q@).contains(xv)) by {
                if str_views(q@).contains(xv) {
                    let k = choose|k: int| 0 <= k < str_views(q@).len() && str_views(q@)[k] == xv;
                    assert(q_before[k] == q_before[q_before.len() - 1]);
                }
            }
            assert(q_before.contains(xv)) by {
                assert(q_before[q_before.len() - 1] == xv);
            }
            assert forall|z: Seq<char>| #[trigger] str_views(q@).contains(z) implies q_before.contains(z) by {
                let k = choose|k: int| 0 <= k < str_views(q@).len() && str_views(q@)[k] == z;
                assert(q_before[k] == z);
            }
            assert forall|z: Seq<char>| #[trigger] str_views(s@).contains(z) implies str_views(q@).contains(z)
                || done_node(gv, str_views(s@), z) || z == xv by {
                if q_before.contains(z) && z != xv {
                    let k = choose|k: int| 0 <= k < q_before.len() && q_before[k] == z;
                    assert(k < q_before.len() - 1);
                    assert(str_views(q@)[k] == z);
                }
            }
        }
        match neighbours_of(g, x.as_str()) {
            None => {
                proof {
                    assert(done_node(gv, str_views(s@), xv));
                }
            },
            Some(nb) => {
                let ghost nbv = str_views(nb@);
                let mut j: usize = 0;
                while j < nb.len()
                    invariant
                        j <= nb@.len(),
                        nbv == str_views(nb@),
                        nbv == nbrs_from(gv, xv, 0),
                        gv == graph_view(g@),
                        rel == graph_rel(gv),
                        u == st + targets_from(gv, 0),
                        str_views(s@).no_duplicates(),
                        str_views(q@).no_duplicates(),
                        s@.len() <= u.len(),
                        s@.len() >= s0,
                        q@.len() + s0 == q0 + s@.len(),
                        str_views(s@).contains(xv),
                        reachable(rel, st, xv),
                        forall|k: int| 0 <= k < j ==> str_views(s@).contains(#[trigger] nbv[k]),
                        forall|x: Seq<char>| #[trigger] str_views(q@).contains(x) ==> str_views(s@).contains(x),
                        forall|x: Seq<char>| #[trigger] st.contains(x) ==> str_views(s@).contains(x),
                        forall|x: Seq<char>| #[trigger] str_views(s@).contains(x) ==> u.contains(x),
                        forall|x: Seq<char>| #[trigger] str_views(s@).contains(x) ==> reachable(rel, st, x),
                        forall|x: Seq<char>| #[trigger] str_views(s@).contains(x) ==> str_views(q@).contains(x)
                            || done_node(gv, str_views(s@), x) || x == xv,
                    decreases nb@.len() - j,
                {
                    let y = &nb[j];
                    proof {
                        assert(nbv[j as int] == y@);
                    }
                    if !text::has_string(s.as_slice(), y.as_str()) {
                        let ghost sv0 = str_views(s@);
                        let ghost qv0 = str_views(q@);
                        proof {
                            assert(nbrs_from(gv, xv, 0).contains(y@)) by {
                                assert(nbv[j as int] == y@);
                            }
                            lemma_nbrs_in_targets(gv, xv, y@, 0);
                            let t = targets_from(gv, 0);
                            let k = choose|k: int| 0 <= k < t.len() && t[k] == y@;
                            assert(u[st.len() + k] == y@);
                            let p = choose|p: Seq<Seq<char>>| #[trigger] walk_to(rel, st, p, xv);
                            lemma_extend_walk(rel, st, p, xv, y@);
                            assert(!qv0.contains(y@));
                        }
                        s.push(y.clone());
                        q.push(y.clone());
                        proof {
                            let sv = str_views(s@);
                            let qv = str_views(q@);
                            assert(sv =~= sv0.push(y@));
                            assert(qv =~= qv0.push(y@));
                            assert(sv.contains(y@)) by {
                                assert(sv[sv.len() - 1] == y@);
                            }
                            assert(qv.contains(y@)) by {
                                assert(qv[qv.len() - 1] == y@);
                            }
                            assert forall|z: Seq<char>| #[trigger] sv.contains(z) implies sv0.contains(z) || z == y@ by {
                                let k = choose|k: int| 0 <= k < sv.len() && sv[k] == z;
                                if k < sv0.len() {
                                    assert(sv0[k] == z);
                                }
                            }
                            assert forall|z: Seq<char>| #[trigger] sv0.contains(z) implies sv.contains(z) by {
                                let k = choose|k: int| 0 <= k < sv0.len() && sv0[k] == z;
                                assert(sv[k] == z);
                            }
                            assert forall|z: Seq<char>| #[trigger] qv0.contains(z) implies qv.contains(z) by {
                                let k = choose|k: int| 0 <= k < qv0.len() && qv0[k] == z;
                                assert(qv[k] == z);
                            }
                            assert forall|z: Seq<char>| #[trigger] qv.contains(z) implies sv.contains(z) by {
                                let k = choose|k: int| 0 <= k < qv.len() && qv[k] == z;
                                if k < qv0.len() {
                                    assert(qv0[k] == z);
                                    assert(qv0.contains(z));
                                }
                            }
                            assert forall|z: Seq<char>| #[trigger] sv.contains(z) implies qv.contains(z)
                                || done_node(gv, sv, z) || z == xv by {
                                if sv0.contains(z) {
                                    if qv0.contains(z) {
                                    } else if done_node(gv, sv0, z) {
                                        assert forall|w: Seq<char>| #[trigger] nbrs_from(gv, z, 0).contains(w)
                                            implies sv.contains(w) by {
                                            assert(sv0.contains(w));
                                        }
                                    }
                                }
                            }
                            assert forall|k: int| 0 <= k < j + 1 implies sv.contains(#[trigger] nbv[k]) by {
                                if k < j {
                                    assert(sv0.contains(nbv[k]));
                                }
                            }
                            assert(sv.no_duplicates()) by {
                                assert forall|a: int, b: int| 0 <= a < b < sv.len() implies sv[a] != sv[b] by {
                                    if b == sv.len() - 1 {
                                        assert(sv0.contains(sv[a])) by {
                                            assert(sv0[a] == sv[a]);
                                        }
                                    } else {
                                        assert(sv0[a] != sv0[b]);
                                    }
                                }
                            }
                            assert(qv.no_duplicates()) by {
                                assert forall|a: int, b: int| 0 <= a < b < qv.len() implies qv[a] != qv[b] by {
                                    if b == qv.len() - 1 {
                                        assert(qv0.contains(qv[a])) by {
                                            assert(qv0[a] == qv[a]);
                                        }
                                    } else {
                                        assert(qv0[a] != qv0[b]);
                                    }
                                }
                            }
                            lemma_unique_within(sv, u);
                        }
                    }
                    j = j + 1;
                }
                proof {
                    assert forall|w: Seq<char>| #[trigger] nbrs_from(gv, xv, 0).contains(w) implies str_views(
                        s@,
                    ).contains(w) by {
                        let k = choose|k: int| 0 <= k < nbv.len() && nbv[k] == w;
                        assert(str_views(s@).contains(nbv[k]));
                    }
                }
            },
        }
        proof {
            assert forall|z: Seq<char>| #[trigger] str_views(s@).contains(z) implies str_views(q@).contains(z)
                || done_node(gv, str_views(s@), z) by {
                if z == xv {
                    assert(done_node(gv, str_views(s@), xv));
                }
            }
        }
    }
    proof {
        let sv = str_views(s@);
        assert(str_views(q@) =~= Seq::<Seq<char>>::empty());
        assert forall|x: Seq<char>| #[trigger] sv.contains(x) implies done_node(gv, sv, x) by {
            assert(!str_views(q@).contains(x));
        }
        assert forall|x: Seq<char>| reachable(rel, st, x) implies #[trigger] sv.contains(x) by {
            let p = choose|p: Seq<Seq<char>>| #[trigger] walk_to(rel, st, p, x);
            assert(sv.contains(p[0]));
            lemma_closed_holds_walk(gv, sv, p);
        }
    }
    s
}


// ── The map ─────────────────────────────────────────────────────────────────

/// The paths of a list of files with their contents.
pub open spec fn paths_of(files: Seq<(String, Option<String>)>) -> Seq<Seq<char>> {
    files.map_values(|f: (String, Option<String>)| f.0@)
}

/// No path occurs twice.
pub open spec fn paths_unique(files: Seq<(String, Option<String>)>) -> bool {
    forall|i: int, j: int| 0 <= i < j < files.len() ==> files[i].0@ != files[j].0@
}

/// Module name to source file, for the files that are not tests and have a
/// module name, in order (a later file of the same module wins on lookup).
pub open spec fn module_index(
    root: Seq<char>,
    files: Seq<(String, Option<String>)>,
    tests: Seq<Seq<char>>,
) -> Seq<(Seq<char>, Seq<char>)>
    decreases files.len(),
{
    if files.len() == 0 {
        Seq::empty()
    } else {
        let rest = module_index(root, files.drop_last(), tests);
        let f = files.last().0@;
        if !tests.contains(f) && module_name(root, f) is Some {
            rest.push((module_name(root, f)->0, f))
        } else {
            rest
        }
    }
}

/// The files that file `k` imports directly: none for a test file or an
/// unreadable one; test files are never targets.
pub open spec fn file_edge(
    root: Seq<char>,
    files: Seq<(String, Option<String>)>,
    tests: Seq<Seq<char>>,
    k: int,
    b: Seq<char>,
) -> bool {
    let idx = module_index(root, files, tests);
    &&& !tests.contains(files[k].0@)
    &&& files[k].1 matches Some(c) && resolve_hits(imports_of(c@), file_parts(root, files[k].0@), idx).contains(b)
    &&& !tests.contains(b)
}

/// The direct-import relation among source files.
pub open spec fn source_rel(root: Seq<char>, files: Seq<(String, Option<String>)>, tests: Seq<Seq<char>>) -> spec_fn(
    Seq<char>,
    Seq<char>,
) -> bool {
    |a: Seq<char>, b: Seq<char>|
        exists|k: int| 0 <= k < files.len() && files[k].0@ == a && #[trigger] file_edge(root, files, tests, k, b)
}

/// The files a test imports directly.
pub open spec fn direct_imports(
    root: Seq<char>,
    files: Seq<(String, Option<String>)>,
    tests: Seq<Seq<char>>,
    test: Seq<char>,
    contents: Seq<char>,
) -> Seq<Seq<char>> {
    resolve_hits(imports_of(contents), file_parts(root, test), module_index(root, files, tests))
}

/// A path below `root`, as a relative path string.
pub open spec fn root_relative(root: Seq<char>, s: Seq<char>) -> Option<Seq<char>> {
    match relative_comps(root, s) {
        Some(rel) => Some(paths::render(rel)),
        None => None,
    }
}

/// Test `t` (readable, with a non-empty basename `name`) depends, directly
/// or through other sources, on a file whose path below `root` is `key`.
pub open spec fn test_claims(
    root: Seq<char>,
    files: Seq<(String, Option<String>)>,
    tests: Seq<(String, Option<String>)>,
    t: int,
    key: Seq<char>,
    name: Seq<char>,
) -> bool {
    &&& 0 <= t < tests.len()
    &&& tests[t].1 is Some
    &&& paths::file_name(tests[t].0@) == Some(name)
    &&& name.len() > 0
    &&& exists|s: Seq<char>|
        #[trigger] reachable(
            source_rel(root, files, paths_of(tests)),
            direct_imports(root, files, paths_of(tests), tests[t].0@, tests[t].1->0@),
            s,
        ) && root_relative(root, s) == Some(key)
}

/// The map lists `name` under `key`.
pub open spec fn entry_has(m: Seq<(Seq<char>, Seq<Seq<char>>)>, key: Seq<char>, name: Seq<char>) -> bool {
    exists|k: int| 0 <= k < m.len() && m[k].0 == key && #[trigger] m[k].1.contains(name)
}

/// `nbrs_from` after one more entry.
proof fn lemma_nbrs_push(
    gv: Seq<(Seq<char>, Seq<Seq<char>>)>,
    e: (Seq<char>, Seq<Seq<char>>),
    a: Seq<char>,
    i: int,
)
    requires
        0 <= i <= gv.len(),
    ensures
        nbrs_from(gv.push(e), a, i) == if exists|k: int| i <= k < gv.len() && gv[k].0 == a {
            nbrs_from(gv, a, i)
        } else if e.0 == a {
            e.1
        } else {
            Seq::empty()
        },
    decreases gv.len() - i,
{
    let g2 = gv.push(e);
    if i == gv.len() {
        assert(g2[i] == e);
        assert(nbrs_from(g2, a, i + 1) == Seq::<Seq<char>>::empty());
        assert(!exists|k: int| i <= k < gv.len() && gv[k].0 == a);
    } else {
        assert(g2[i] == gv[i]);
        lemma_nbrs_push(gv, e, a, i + 1);
        if gv[i].0 == a {
            assert(exists|k: int| i <= k < gv.len() && gv[k].0 == a) by {
                assert(gv[i].0 == a);
            }
        } else {
            if exists|k: int| i <= k < gv.len() && gv[k].0 == a {
                let k = choose|k: int| i <= k < gv.len() && gv[k].0 == a;
                assert(k != i);
                assert(exists|k2: int| i + 1 <= k2 < gv.len() && gv[k2].0 == a);
            }
        }
    }
}

/// Walks depend on the start nodes only through membership.
proof fn lemma_reachable_same_start(
    rel: spec_fn(Seq<char>, Seq<char>) -> bool,
    s1: Seq<Seq<char>>,
    s2: Seq<Seq<char>>,
    x: Seq<char>,
)
    requires
        forall|y: Seq<char>| #[trigger] s1.contains(y) <==> s2.contains(y),
    ensures
        reachable(rel, s1, x) <==> reachable(rel, s2, x),
{
    if reachable(rel, s1, x) {
        let p = choose|p: Seq<Seq<char>>| #[trigger] walk_to(rel, s1, p, x);
        assert(walk_to(rel, s2, p, x));
    }
    if reachable(rel, s2, x) {
        let p = choose|p: Seq<Seq<char>>| #[trigger] walk_to(rel, s2, p, x);
        assert(walk_to(rel, s1, p, x));
    }
}

/// [`root_relative`] computed.
pub(crate) fn root_relative_exec(root: &str, s: &str) -> (r: Option<String>)
    ensures
        match r {
            Some(k) => root_relative(root@, s@) == Some(k@),
            None => root_relative(root@, s@) is None,
        },
{
    let rchars = text::chars_of(root);
    let schars = text::chars_of(s);
    let rc = paths::components(rchars.as_slice());
    let sc = paths::components(schars.as_slice());
    if !paths::comps_starts_with(&rc, &sc) {
        return None;
    }
    let mut rel: Vec<Vec<char>> = Vec::new();
    let mut k = rc.len();
    while k < sc.len()
        invariant
            rc@.len() <= k <= sc@.len(),
            char_views(rel@) == char_views(sc@).subrange(rc@.len() as int, k as int),
        decreases sc@.len() - k,
    {
        let copy = text::slice_of(sc[k].as_slice(), 0, sc[k].len());
        proof {
            assert(copy@ =~= sc@[k as int]@);
            assert(char_views(sc@)[k as int] == sc@[k as int]@);
            assert(char_views(rel@.push(copy)) =~= char_views(rel@).push(copy@));
            assert(char_views(sc@).subrange(rc@.len() as int, k + 1) =~= char_views(sc@).subrange(
                rc@.len() as int,
                k as int,
            ).push(sc@[k as int]@));
        }
        rel.push(copy);
        k = k + 1;
    }
    Some(paths::render_comps(&rel))
}

/// Adds `name` under `key`, creating the entry when missing.
fn add_pair(out: &mut Vec<(String, Vec<String>)>, key: String, name: &String)
    requires
        keys_unique(dep_view(old(out)@)),
        forall|k: int| 0 <= k < old(out)@.len() ==> str_views(#[trigger] old(out)@[k].1@).no_duplicates(),
    ensures
        keys_unique(dep_view(final(out)@)),
        forall|k: int| 0 <= k < final(out)@.len() ==> str_views(#[trigger] final(out)@[k].1@).no_duplicates(),
        forall|k: int| 0 <= k < final(out)@.len() ==> (#[trigger] final(out)@[k].1@).len() > 0 || (k < old(
            out,
        )@.len() && old(out)@[k].1@.len() == 0),
        forall|kk: Seq<char>, nn: Seq<char>| #[trigger] entry_has(dep_view(final(out)@), kk, nn) <==> (
        entry_has(dep_view(old(out)@), kk, nn) || (kk == key@ && nn == name@)),
{
    let ghost m0 = dep_view(out@);
    let kc = text::chars_of(key.as_str());
    match crate::reporter::find_key(out, kc.as_slice()) {
        Some(k) => {
            let ghost v0 = out@[k as int].1;
            let mut entry = (String::new(), Vec::new());
            std::mem::swap(&mut entry, &mut out[k]);
            text::insert_unique(&mut entry.1, name.clone());
            let ghost v1 = entry.1;
            out.set(k, entry);
            proof {
                let m1 = dep_view(out@);
                assert(m0[k as int].0 == key@);
                assert forall|i: int| 0 <= i < m1.len() && i != k implies m1[i] == m0[i] by {}
                assert(m1[k as int].0 == key@);
                assert(m1[k as int].1 == str_views(v1@));
                assert forall|i: int, j: int| 0 <= i < j < m1.len() implies m1[i].0 != m1[j].0 by {
                    assert(m0[i].0 != m0[j].0);
                }
                assert forall|kk: Seq<char>, nn: Seq<char>| #[trigger] entry_has(m1, kk, nn) <==> (
                entry_has(m0, kk, nn) || (kk == key@ && nn == name@)) by {
                    if entry_has(m1, kk, nn) {
                        let i = choose|i: int| 0 <= i < m1.len() && m1[i].0 == kk && #[trigger] m1[i].1.contains(nn);
                        if i != k {
                            assert(m0[i].1.contains(nn));
                        } else if nn != name@ {
                            assert(m0[i].1.contains(nn));
                        }
                    }
                    if entry_has(m0, kk, nn) {
                        let i = choose|i: int| 0 <= i < m0.len() && m0[i].0 == kk && #[trigger] m0[i].1.contains(nn);
                        assert(m1[i].1.contains(nn));
                    }
                    if kk == key@ && nn == name@ {
                        assert(m1[k as int].1.contains(nn));
                    }
                }
                assert(str_views(v1@).contains(name@));
            }
        },
        None => {
            let mut v: Vec<String> = Vec::new();
            v.push(name.clone());
            let ghost before = out@;
            out.push((key, v));
            proof {
                let m1 = dep_view(out@);
                assert(str_views(v@) =~= seq![name@]);
                assert(out@ == before.push((key, v)));
                assert forall|i: int| 0 <= i < m0.len() implies m1[i] == m0[i] by {
                    assert(out@[i] == before[i]);
                }
                assert(m1[m0.len() as int] == (key@, seq![name@]));
                assert(m1 =~= m0.push((key@, seq![name@])));
                assert forall|i: int, j: int| 0 <= i < j < m1.len() implies m1[i].0 != m1[j].0 by {
                    if j == m1.len() - 1 {
                        if m0[i].0 == key@ {
                            assert(key_index_some(m0, key@, i));
                        }
                    } else {
                        assert(m0[i].0 != m0[j].0);
                    }
                }
                assert forall|kk: Seq<char>, nn: Seq<char>| #[trigger] entry_has(m1, kk, nn) <==> (
                entry_has(m0, kk, nn) || (kk == key@ && nn == name@)) by {
                    if entry_has(m1, kk, nn) {
                        let i = choose|i: int| 0 <= i < m1.len() && m1[i].0 == kk && #[trigger] m1[i].1.contains(nn);
                        if i < m0.len() {
                            assert(m0[i].1.contains(nn));
                        } else {
                            assert(seq![name@][0] == name@);
                        }
                    }
                    if entry_has(m0, kk, nn) {
                        let i = choose|i: int| 0 <= i < m0.len() && m0[i].0 == kk && #[trigger] m0[i].1.contains(nn);
                        assert(m1[i].1.contains(nn));
                    }
                    if kk == key@ && nn == name@ {
                        assert(m1[m0.len() as int].1[0] == nn);
                        assert(m1[m0.len() as int].1.contains(nn));
                    }
                }
            }
        },
    }
}

/// No entry of `m` has key `key` when it has none.
spec fn key_index_some(m: Seq<(Seq<char>, Seq<Seq<char>>)>, key: Seq<char>, i: int) -> bool {
    0 <= i < m.len() && m[i].0 == key
}


/// A reordering keeps the members and the absence of repeats.
proof fn lemma_perm_props(a: Seq<Seq<char>>, b: Seq<Seq<char>>)
    requires
        a.to_multiset() == b.to_multiset(),
        a.no_duplicates(),
    ensures
        b.no_duplicates(),
        forall|x: Seq<char>| #[trigger] b.contains(x) <==> a.contains(x),
{
    a.to_multiset_ensures();
    b.to_multiset_ensures();
    a.lemma_multiset_has_no_duplicates();
    assert forall|x: Seq<char>| b.to_multiset().contains(x) implies b.to_multiset().count(x) == 1 by {
        assert(a.to_multiset().contains(x));
    }
    b.lemma_multiset_has_no_duplicates_conv();
    assert forall|x: Seq<char>| #[trigger] b.contains(x) <==> a.contains(x) by {
        assert(b.contains(x) <==> b.to_multiset().count(x) > 0);
        assert(a.contains(x) <==> a.to_multiset().count(x) > 0);
    }
}

/// The paths of the test files.
fn test_paths(tests: &[(String, Option<String>)]) -> (r: Vec<String>)
    ensures
        str_views(r@) == paths_of(tests@),
{
    let mut r: Vec<String> = Vec::new();
    let mut i: usize = 0;
    while i < tests.len()
        invariant
            i <= tests@.len(),
            str_views(r@) == paths_of(tests@.subrange(0, i as int)),
        decreases tests@.len() - i,
    {
        let ghost before = r@;
        r.push(tests[i].0.clone());
        proof {
            assert(str_views(r@) =~= str_views(before).push(tests@[i as int].0@));
            assert(paths_of(tests@.subrange(0, i + 1)) =~= paths_of(tests@.subrange(0, i as int)).push(
                tests@[i as int].0@,
            ));
        }
        i = i + 1;
    }
    proof {
        assert(tests@.subrange(0, tests@.len() as int) =~= tests@);
    }
    r
}

/// The module index of the non-test files (see [`module_index`]).
fn build_module_index(root: &str, files: &[(String, Option<String>)], tpaths: &Vec<String>) -> (r: Vec<
    (String, String),
>)
    ensures
        index_view(r@) == module_index(root@, files@, str_views(tpaths@)),
{
    let ghost tv = str_views(tpaths@);
    let mut r: Vec<(String, String)> = Vec::new();
    let mut i: usize = 0;
    while i < files.len()
        invariant
            i <= files@.len(),
            tv == str_views(tpaths@),
            index_view(r@) == module_index(root@, files@.subrange(0, i as int), tv),
        decreases files@.len() - i,
    {
        let f = &files[i].0;
        proof {
            assert(files@.subrange(0, i + 1).drop_last() =~= files@.subrange(0, i as int));
            assert(files@.subrange(0, i + 1).last() == files@[i as int]);
        }
        if !text::has_string(tpaths.as_slice(), f.as_str()) {
            match file_to_module(root, f.as_str()) {
                Some(m) => {
                    let ghost before = r@;
                    r.push((m, f.clone()));
                    proof {
                        assert(index_view(r@) =~= index_view(before).push((m@, f@)));
                    }
                },
                None => {},
            }
        }
        i = i + 1;
    }
    proof {
        assert(files@.subrange(0, files@.len() as int) =~= files@);
    }
    r
}

/// The members of `v` that are not tests.
fn drop_tests(v: Vec<String>, tpaths: &Vec<String>) -> (r: Vec<String>)
    requires
        str_views(v@).no_duplicates(),
    ensures
        str_views(r@).no_duplicates(),
        forall|x: Seq<char>| #[trigger] str_views(r@).contains(x) <==> (str_views(v@).contains(x)
            && !str_views(tpaths@).contains(x)),
{
    let mut r: Vec<String> = Vec::new();
    let mut i: usize = 0;
    while i < v.len()
        invariant
            i <= v@.len(),
            str_views(v@).no_duplicates(),
            str_views(r@).no_duplicates(),
            forall|x: Seq<char>| #[trigger] str_views(r@).contains(x) <==> (exists|k: int|
                0 <= k < i && str_views(v@)[k] == x) && !str_views(tpaths@).contains(x),
        decreases v@.len() - i,
    {
        let ghost before = str_views(r@);
        if !text::has_string(tpaths.as_slice(), v[i].as_str()) {
            r.push(v[i].clone());
            proof {
                let rv = str_views(r@);
                assert(rv =~= before.push(v@[i as int]@));
                assert(str_views(v@)[i as int] == v@[i as int]@);
                assert(!before.contains(v@[i as int]@)) by {
                    if before.contains(v@[i as int]@) {
                        let k = choose|k: int| 0 <= k < i && str_views(v@)[k] == v@[i as int]@;
                        assert(str_views(v@)[k] == str_views(v@)[i as int]);
                    }
                }
                assert(rv.no_duplicates()) by {
                    assert forall|a: int, b: int| 0 <= a < b < rv.len() implies rv[a] != rv[b] by {
                        if b == rv.len() - 1 {
                            assert(before.contains(rv[a])) by {
                                assert(before[a] == rv[a]);
                            }
                        } else {
                            assert(before[a] != before[b]);
                        }
                    }
                }
                assert forall|x: Seq<char>| #[trigger] rv.contains(x) <==> (exists|k: int|
                    0 <= k < i + 1 && str_views(v@)[k] == x) && !str_views(tpaths@).contains(x) by {
                    if rv.contains(x) {
                        let k = choose|k: int| 0 <= k < rv.len() && rv[k] == x;
                        if k < before.len() {
                            assert(before[k] == x);
                            assert(before.contains(x));
                        }
                    }
                    if (exists|k: int| 0 <= k < i + 1 && str_views(v@)[k] == x) && !str_views(tpaths@).contains(x) {
                        let k = choose|k: int| 0 <= k < i + 1 && str_views(v@)[k] == x;
                        if k < i {
                            assert(before.contains(x));
                            let q = choose|q: int| 0 <= q < before.len() && before[q] == x;
                            assert(rv[q] == x);
                        } else {
                            assert(rv[rv.len() - 1] == x);
                        }
                    }
                }
            }
        } else {
            proof {
                assert forall|x: Seq<char>| #[trigger] str_views(r@).contains(x) <==> (exists|k: int|
                    0 <= k < i + 1 && str_views(v@)[k] == x) && !str_views(tpaths@).contains(x) by {
                    if (exists|k: int| 0 <= k < i + 1 && str_views(v@)[k] == x) && !str_views(tpaths@).contains(x) {
                        let k = choose|k: int| 0 <= k < i + 1 && str_views(v@)[k] == x;
                        if k == i {
                            assert(str_views(v@)[i as int] == v@[i as int]@);
                        }
                    }
                }
            }
        }
        i = i + 1;
    }
    proof {
        assert forall|x: Seq<char>| #[trigger] str_views(r@).contains(x) <==> (str_views(v@).contains(x)
            && !str_views(tpaths@).contains(x)) by {
            if str_views(v@).contains(x) {
                let k = choose|k: int| 0 <= k < str_views(v@).len() && str_views(v@)[k] == x;
                assert(0 <= k < i);
            }
        }
    }
    r
}


/// `a` is a node of the graph.
pub open spec fn key_in(gv: Seq<(Seq<char>, Seq<Seq<char>>)>, a: Seq<char>) -> bool {
    exists|k: int| 0 <= k < gv.len() && gv[k].0 == a
}

/// Among the first `i` files, a non-test file at path `a` imports `b`.
pub open spec fn edge_before(
    root: Seq<char>,
    files: Seq<(String, Option<String>)>,
    tests: Seq<Seq<char>>,
    i: int,
    a: Seq<char>,
    b: Seq<char>,
) -> bool {
    exists|k: int| 0 <= k < i && files[k].0@ == a && #[trigger] file_edge(root, files, tests, k, b)
}

/// Among the first `i` files there is a non-test file at path `a`.
pub open spec fn nontest_before(files: Seq<(String, Option<String>)>, tests: Seq<Seq<char>>, i: int, a: Seq<char>) -> bool {
    exists|k: int| 0 <= k < i && #[trigger] files[k].0@ == a && !tests.contains(a)
}

/// The direct-import graph of the non-test files.
fn build_graph(
    root: &str,
    files: &[(String, Option<String>)],
    tpaths: &Vec<String>,
    idx: &Vec<(String, String)>,
) -> (g: Vec<(String, Vec<String>)>)
    requires
        paths_unique(files@),
        index_view(idx@) == module_index(root@, files@, str_views(tpaths@)),
    ensures
        graph_rel(graph_view(g@)) == source_rel(root@, files@, str_views(tpaths@)),
{
    let ghost tv = str_views(tpaths@);
    let mut g: Vec<(String, Vec<String>)> = Vec::new();
    let mut i: usize = 0;
    while i < files.len()
        invariant
            i <= files@.len(),
            tv == str_views(tpaths@),
            paths_unique(files@),
            index_view(idx@) == module_index(root@, files@, tv),
            forall|a: Seq<char>, b: Seq<char>| #[trigger] nbrs_from(graph_view(g@), a, 0).contains(b) <==> edge_before(
                root@,
                files@,
                tv,
                i as int,
                a,
                b,
            ),
            forall|a: Seq<char>| #[trigger] key_in(graph_view(g@), a) <==> nontest_before(files@, tv, i as int, a),
        decreases files@.len() - i,
    {
        let f = &files[i].0;
        let ghost gv = graph_view(g@);
        if text::has_string(tpaths.as_slice(), f.as_str()) {
            proof {
                assert forall|a: Seq<char>, b: Seq<char>| #[trigger] nbrs_from(gv, a, 0).contains(b) <==> edge_before(
                    root@,
                    files@,
                    tv,
                    i + 1,
                    a,
                    b,
                ) by {
                    if edge_before(root@, files@, tv, i + 1, a, b) {
                        let k = choose|k: int| 0 <= k < i + 1 && files@[k].0@ == a && #[trigger] file_edge(root@, files@, tv, k, b);
                        assert(k != i);
                    }
                }
                assert forall|a: Seq<char>| #[trigger] key_in(gv, a) <==> nontest_before(files@, tv, i + 1, a) by {
                    if nontest_before(files@, tv, i + 1, a) {
                        let k = choose|k: int| 0 <= k < i + 1 && #[trigger] files@[k].0@ == a && !tv.contains(a);
                        assert(k != i);
                    }
                }
            }
        } else {
            let nb: Vec<String> = match &files[i].1 {
                Some(c) => {
                    let imps = scan_imports_str(c.as_str());
                    let hits = resolve_imports(f.as_str(), root, imps.as_slice(), idx.as_slice());
                    drop_tests(hits, tpaths)
                },
                None => Vec::new(),
            };
            proof {
                assert forall|b: Seq<char>| #[trigger] str_views(nb@).contains(b) <==> file_edge(
                    root@,
                    files@,
                    tv,
                    i as int,
                    b,
                ) by {}
                assert(!key_in(gv, f@)) by {
                    if nontest_before(files@, tv, i as int, f@) {
                        let k = choose|k: int| 0 <= k < i && #[trigger] files@[k].0@ == f@ && !tv.contains(f@);
                        assert(files@[k].0@ != files@[i as int].0@);
                    }
                }
            }
            let ghost e = (f@, str_views(nb@));
            g.push((f.clone(), nb));
            proof {
                let g2 = graph_view(g@);
                assert(g2 =~= gv.push(e));
                assert forall|a: Seq<char>, b: Seq<char>| #[trigger] nbrs_from(g2, a, 0).contains(b) <==> edge_before(
                    root@,
                    files@,
                    tv,
                    i + 1,
                    a,
                    b,
                ) by {
                    lemma_nbrs_push(gv, e, a, 0);
                    if key_in(gv, a) {
                        assert(a != f@);
                        if edge_before(root@, files@, tv, i + 1, a, b) {
                            let k = choose|k: int| 0 <= k < i + 1 && files@[k].0@ == a && #[trigger] file_edge(root@, files@, tv, k, b);
                            assert(k != i);
                        }
                    } else if a == f@ {
                        if edge_before(root@, files@, tv, i + 1, a, b) {
                            let k = choose|k: int| 0 <= k < i + 1 && files@[k].0@ == a && #[trigger] file_edge(root@, files@, tv, k, b);
                            if k != i {
                                assert(files@[k].0@ != files@[i as int].0@);
                            }
                        }
                        if str_views(nb@).contains(b) {
                            assert(file_edge(root@, files@, tv, i as int, b));
                        }
                    } else {
                        if edge_before(root@, files@, tv, i + 1, a, b) {
                            let k = choose|k: int| 0 <= k < i + 1 && files@[k].0@ == a && #[trigger] file_edge(root@, files@, tv, k, b);
                            assert(nontest_before(files@, tv, i as int, a));
                        }
                    }
                }
                assert forall|a: Seq<char>| #[trigger] key_in(g2, a) <==> nontest_before(files@, tv, i + 1, a) by {
                    if key_in(g2, a) {
                        let k = choose|k: int| 0 <= k < g2.len() && g2[k].0 == a;
                        if k < gv.len() {
                            assert(key_in(gv, a));
                        } else {
                            assert(files@[i as int].0@ == a);
                        }
                    }
                    if nontest_before(files@, tv, i + 1, a) {
                        let k = choose|k: int| 0 <= k < i + 1 && #[trigger] files@[k].0@ == a && !tv.contains(a);
                        if k < i {
                            assert(key_in(gv, a));
                            let q = choose|q: int| 0 <= q < gv.len() && gv[q].0 == a;
                            assert(g2[q].0 == a);
                        } else {
                            assert(g2[gv.len() as int].0 == a);
                        }
                    }
                }
            }
        }
        i = i + 1;
    }
    proof {
        let gv = graph_view(g@);
        let rel = source_rel(root@, files@, tv);
        assert forall|a: Seq<char>, b: Seq<char>| #[trigger] graph_rel(gv)(a, b) == rel(a, b) by {
            assert(graph_rel(gv)(a, b) == nbrs_from(gv, a, 0).contains(b));
            if nbrs_from(gv, a, 0).contains(b) {
                assert(edge_before(root@, files@, tv, files@.len() as int, a, b));
            }
        }
        assert(graph_rel(gv) =~= rel);
    }
    g
}


/// Some test among the first `n` claims `name` under `key`.
pub open spec fn claimed_before(
    root: Seq<char>,
    files: Seq<(String, Option<String>)>,
    tests: Seq<(String, Option<String>)>,
    n: int,
    key: Seq<char>,
    name: Seq<char>,
) -> bool {
    exists|t: int| 0 <= t < n && #[trigger] test_claims(root, files, tests, t, key, name)
}

/// Some node among the first `j` of `cv` lies at `key` below the root.
pub open spec fn keyed_before(root: Seq<char>, cv: Seq<Seq<char>>, j: int, key: Seq<char>) -> bool {
    exists|q: int| 0 <= q < j && #[trigger] root_relative(root, cv[q]) == Some(key)
}

/// Build the reverse dependency map of a Python project. `files` are the
/// `.py` files found under the Python suites' directories (each path once)
/// with their contents (`None` when unreadable); `tests` are the test
/// files with their contents. Source files are indexed by module name
/// (the test files left out); a test depends on the files its imports
/// resolve to and, transitively, on what those source files import (an
/// import cycle ends the walk). The result maps each depended-on file,
/// as a path below `root` (files outside `root` are left out), to the
/// sorted basenames of the tests that depend on it; an unreadable test,
/// or one without a basename, depends on nothing.
pub fn build_import_map(root: &str, files: &[(String, Option<String>)], tests: &[(String, Option<String>)]) -> (r:
    Vec<(String, Vec<String>)>)
    requires
        paths_unique(files@),
    ensures
        keys_unique(dep_view(r@)),
        forall|k: int|
            0 <= k < r@.len() ==> text::lex_sorted(str_views(#[trigger] r@[k].1@)) && str_views(
                r@[k].1@,
            ).no_duplicates() && r@[k].1@.len() > 0,
        forall|key: Seq<char>, name: Seq<char>| #[trigger] entry_has(dep_view(r@), key, name) <==> claimed_before(
            root@,
            files@,
            tests@,
            tests@.len() as int,
            key,
            name,
        ),
{
    let tpaths = test_paths(tests);
    let idx = build_module_index(root, files, &tpaths);
    let g = build_graph(root, files, &tpaths, &idx);
    let ghost tv = paths_of(tests@);
    let ghost rel = source_rel(root@, files@, tv);
    let mut out: Vec<(String, Vec<String>)> = Vec::new();
    let mut t: usize = 0;
    proof {
        assert(dep_view(out@) =~= Seq::<(Seq<char>, Seq<Seq<char>>)>::empty());
    }
    while t < tests.len()
        invariant
            t <= tests@.len(),
            tv == paths_of(tests@),
            tv == str_views(tpaths@),
            rel == source_rel(root@, files@, tv),
            graph_rel(graph_view(g@)) == rel,
            index_view(idx@) == module_index(root@, files@, tv),
            keys_unique(dep_view(out@)),
            forall|k: int| 0 <= k < out@.len() ==> str_views(#[trigger] out@[k].1@).no_duplicates(),
            forall|k: int| 0 <= k < out@.len() ==> (#[trigger] out@[k].1@).len() > 0,
            forall|key: Seq<char>, name: Seq<char>| #[trigger] entry_has(dep_view(out@), key, name) <==> claimed_before(
                root@,
                files@,
                tests@,
                t as int,
                key,
                name,
            ),
        decreases tests@.len() - t,
    {
        let tf = &tests[t].0;
        let mut handled = false;
        match &tests[t].1 {
            None => {},
            Some(c) => {
                match paths::file_name_of(tf.as_str()) {
                    None => {},
                    Some(name) => {
                        let nc = text::chars_of(name.as_str());
                        if nc.len() > 0 {
                            let imps = scan_imports_str(c.as_str());
                            let direct = resolve_imports(tf.as_str(), root, imps.as_slice(), idx.as_slice());
                            let ghost dv = str_views(direct@);
                            let ghost di = direct_imports(root@, files@, tv, tf@, c@);
                            let closure = close_over(&g, direct);
                            let ghost cv = str_views(closure@);
                            proof {
                                assert forall|x: Seq<char>| #[trigger] cv.contains(x) <==> reachable(rel, di, x) by {
                                    lemma_reachable_same_start(rel, dv, di, x);
                                }
                            }
                            let mut j: usize = 0;
                            while j < closure.len()
                                invariant
                                    j <= closure@.len(),
                                    cv == str_views(closure@),
                                    keys_unique(dep_view(out@)),
                                    forall|k: int| 0 <= k < out@.len() ==> str_views(#[trigger] out@[k].1@).no_duplicates(),
                                    forall|k: int| 0 <= k < out@.len() ==> (#[trigger] out@[k].1@).len() > 0,
                                    forall|key: Seq<char>, nn: Seq<char>| #[trigger] entry_has(dep_view(out@), key, nn)
                                        <==> (claimed_before(root@, files@, tests@, t as int, key, nn) || (nn == name@
                                        && keyed_before(root@, cv, j as int, key))),
                                decreases closure@.len() - j,
                            {
                                let key = root_relative_exec(root, closure[j].as_str());
                                proof {
                                    assert(cv[j as int] == closure@[j as int]@);
                                }
                                match key {
                                    Some(k) => {
                                        let ghost kv = k@;
                                        add_pair(&mut out, k, &name);
                                        proof {
                                            assert forall|key2: Seq<char>, nn: Seq<char>| #[trigger] entry_has(
                                                dep_view(out@),
                                                key2,
                                                nn,
                                            ) <==> (claimed_before(root@, files@, tests@, t as int, key2, nn) || (nn
                                                == name@ && keyed_before(root@, cv, j + 1, key2))) by {
                                                if keyed_before(root@, cv, j + 1, key2) {
                                                    let q = choose|q: int| 0 <= q < j + 1 && #[trigger] root_relative(root@, cv[q]) == Some(key2);
                                                    if q < j {
                                                        assert(keyed_before(root@, cv, j as int, key2));
                                                    }
                                                }
                                                if key2 == kv {
                                                    assert(root_relative(root@, cv[j as int]) == Some(kv));
                                                }
                                                if keyed_before(root@, cv, j as int, key2) {
                                                    let q = choose|q: int| 0 <= q < j && #[trigger] root_relative(root@, cv[q]) == Some(key2);
                                                    assert(keyed_before(root@, cv, j + 1, key2));
                                                }
                                            }
                                        }
                                    },
                                    None => {
                                        proof {
                                            assert forall|key2: Seq<char>, nn: Seq<char>| #[trigger] entry_has(
                                                dep_view(out@),
                                                key2,
                                                nn,
                                            ) <==> (claimed_before(root@, files@, tests@, t as int, key2, nn) || (nn
                                                == name@ && keyed_before(root@, cv, j + 1, key2))) by {
                                                if keyed_before(root@, cv, j + 1, key2) {
                                                    let q = choose|q: int| 0 <= q < j + 1 && #[trigger] root_relative(root@, cv[q]) == Some(key2);
                                                    if q < j {
                                                        assert(keyed_before(root@, cv, j as int, key2));
                                                    }
                                                }
                                                if keyed_before(root@, cv, j as int, key2) {
                                                    let q = choose|q: int| 0 <= q < j && #[trigger] root_relative(root@, cv[q]) == Some(key2);
                                                    assert(keyed_before(root@, cv, j + 1, key2));
                                                }
                                            }
                                        }
                                    },
                                }
                                j = j + 1;
                            }
                            proof {
                                assert forall|key2: Seq<char>, nn: Seq<char>| #[trigger] entry_has(dep_view(out@), key2, nn)
                                    <==> claimed_before(root@, files@, tests@, t + 1, key2, nn) by {
                                    if claimed_before(root@, files@, tests@, t + 1, key2, nn) {
                                        let t2 = choose|t2: int| 0 <= t2 < t + 1 && #[trigger] test_claims(root@, files@, tests@, t2, key2, nn);
                                        if t2 == t {
                                            let s = choose|s: Seq<char>| #[trigger] reachable(rel, di, s) && root_relative(root@, s) == Some(key2);
                                            assert(cv.contains(s));
                                            let q = choose|q: int| 0 <= q < cv.len() && cv[q] == s;
                                            assert(keyed_before(root@, cv, j as int, key2)) by {
                                                assert(root_relative(root@, cv[q]) == Some(key2));
                                            }
                                            assert(nn == name@);
                                        } else {
                                            assert(claimed_before(root@, files@, tests@, t as int, key2, nn));
                                        }
                                    }
                                    if claimed_before(root@, files@, tests@, t as int, key2, nn) {
                                        let t2 = choose|t2: int| 0 <= t2 < t && #[trigger] test_claims(root@, files@, tests@, t2, key2, nn);
                                        assert(claimed_before(root@, files@, tests@, t + 1, key2, nn));
                                    }
                                    if nn == name@ && keyed_before(root@, cv, j as int, key2) {
                                        let q = choose|q: int| 0 <= q < j && #[trigger] root_relative(root@, cv[q]) == Some(key2);
                                        assert(cv.contains(cv[q]));
                                        assert(reachable(rel, di, cv[q]));
                                        assert(test_claims(root@, files@, tests@, t as int, key2, nn));
                                        assert(claimed_before(root@, files@, tests@, t + 1, key2, nn));
                                    }
                                }
                            }
                            handled = true;
                        }
                    },
                }
            },
        }
        if !handled {
            proof {
                assert forall|key2: Seq<char>, nn: Seq<char>| #[trigger] entry_has(dep_view(out@), key2, nn)
                    <==> claimed_before(root@, files@, tests@, t + 1, key2, nn) by {
                    if claimed_before(root@, files@, tests@, t + 1, key2, nn) {
                        let t2 = choose|t2: int| 0 <= t2 < t + 1 && #[trigger] test_claims(root@, files@, tests@, t2, key2, nn);
                        if t2 < t {
                            assert(claimed_before(root@, files@, tests@, t as int, key2, nn));
                        }
                    }
                    if claimed_before(root@, files@, tests@, t as int, key2, nn) {
                        let t2 = choose|t2: int| 0 <= t2 < t && #[trigger] test_claims(root@, files@, tests@, t2, key2, nn);
                        assert(claimed_before(root@, files@, tests@, t + 1, key2, nn));
                    }
                }
            }
        }
        t = t + 1;
    }
    // Sort each entry's test names.
    let mut res: Vec<(String, Vec<String>)> = Vec::new();
    let mut k: usize = 0;
    while k < out.len()
        invariant
            k <= out@.len(),
            res@.len() == k,
            forall|q: int| 0 <= q < out@.len() ==> str_views(#[trigger] out@[q].1@).no_duplicates(),
            forall|q: int| 0 <= q < out@.len() ==> (#[trigger] out@[q].1@).len() > 0,
            forall|q: int| 0 <= q < k ==> (#[trigger] res@[q]).0@ == out@[q].0@,
            forall|q: int|
                0 <= q < k ==> str_views((#[trigger] res@[q]).1@).to_multiset() == str_views(
                    out@[q].1@,
                ).to_multiset() && text::lex_sorted(str_views(res@[q].1@)),
        decreases out@.len() - k,
    {
        let sorted = text::sort_strings(&out[k].1);
        res.push((out[k].0.clone(), sorted));
        k = k + 1;
    }
    proof {
        let mo = dep_view(out@);
        let mr = dep_view(res@);
        assert forall|q: int| 0 <= q < res@.len() implies str_views(#[trigger] res@[q].1@).no_duplicates()
            && (forall|x: Seq<char>| #[trigger] mr[q].1.contains(x) <==> mo[q].1.contains(x))
            && res@[q].1@.len() > 0 by {
            lemma_perm_props(str_views(out@[q].1@), str_views(res@[q].1@));
            assert(mr[q].1 == str_views(res@[q].1@));
            assert(mo[q].1 == str_views(out@[q].1@));
            assert(str_views(res@[q].1@).to_multiset().len() == str_views(out@[q].1@).to_multiset().len());
            str_views(res@[q].1@).to_multiset_ensures();
            str_views(out@[q].1@).to_multiset_ensures();
        }
        assert forall|a: int, b: int| 0 <= a < b < mr.len() implies mr[a].0 != mr[b].0 by {
            assert(mo[a].0 != mo[b].0);
        }
        assert forall|key2: Seq<char>, nn: Seq<char>| #[trigger] entry_has(mr, key2, nn) <==> entry_has(mo, key2, nn) by {
            if entry_has(mr, key2, nn) {
                let q = choose|q: int| 0 <= q < mr.len() && mr[q].0 == key2 && #[trigger] mr[q].1.contains(nn);
                assert(mo[q].1.contains(nn));
            }
            if entry_has(mo, key2, nn) {
                let q = choose|q: int| 0 <= q < mo.len() && mo[q].0 == key2 && #[trigger] mo[q].1.contains(nn);
                assert(mr[q].1.contains(nn));
            }
        }
    }
    res
}

} // verus!
