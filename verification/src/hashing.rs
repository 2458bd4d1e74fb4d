//! Content fingerprints for dep-map staleness: an xxhash64 per source and
//! test file, compared against the snapshot stored after the last rebuild.
//! Any added, deleted or changed file makes the dep map stale.
use vstd::prelude::*;

use crate::text;

verus! {

/// The xxhash64 digest of `data` under `seed`, as the `xxhash-rust` crate
/// computes it.
pub uninterp spec fn xxh64_of(data: Seq<u8>, seed: u64) -> u64;

/// Calls `xxhash_rust::xxh64::xxh64`. Claimed: the digest is
/// [`xxh64_of`] of the bytes and the seed; nothing about its value.
#[verifier::external_body]
fn xxh64(data: &[u8], seed: u64) -> (r: u64)
    ensures
        r == xxh64_of(data@, seed),
{
    xxhash_rust::xxh64::xxh64(data, seed)
}

/// The fingerprint of one file's contents: xxhash64 with seed 0.
pub fn hash_file(contents: &[u8]) -> (r: u64)
    ensures
        r == xxh64_of(contents@, 0),
{
    xxh64(contents, 0)
}

/// The map a list of `(path, value)` pairs stands for; a later pair for the
/// same path replaces an earlier one.
pub open spec fn pairs_map(s: Seq<(String, u64)>) -> Map<Seq<char>, u64>
    decreases s.len(),
{
    if s.len() == 0 {
        Map::empty()
    } else {
        pairs_map(s.drop_last()).insert(s.last().0@, s.last().1)
    }
}

/// No path occurs twice.
pub open spec fn keys_unique(s: Seq<(String, u64)>) -> bool {
    forall|i: int, j: int| 0 <= i < j < s.len() ==> (#[trigger] s[i]).0@ != (#[trigger] s[j]).0@
}

/// The fingerprints of a list of read files, each path to the digest of
/// its last-listed contents.
pub open spec fn hashes_of(files: Seq<(String, Vec<u8>)>) -> Map<Seq<char>, u64>
    decreases files.len(),
{
    if files.len() == 0 {
        Map::empty()
    } else {
        hashes_of(files.drop_last()).insert(files.last().0@, xxh64_of(files.last().1@, 0))
    }
}

proof fn lemma_pairs_map_dom(s: Seq<(String, u64)>)
    requires
        keys_unique(s),
    ensures
        pairs_map(s).dom().finite(),
        pairs_map(s).dom().len() == s.len(),
        forall|k: Seq<char>| pairs_map(s).dom().contains(k) <==> exists|i: int| 0 <= i < s.len() && (#[trigger] s[i]).0@ == k,
        forall|i: int| 0 <= i < s.len() ==> pairs_map(s)[(#[trigger] s[i]).0@] == s[i].1,
    decreases s.len(),
{
    if s.len() > 0 {
        let t = s.drop_last();
        assert forall|i: int, j: int| 0 <= i < j < t.len() implies (#[trigger] t[i]).0@ != (#[trigger] t[j]).0@ by {
            assert(t[i] == s[i] && t[j] == s[j]);
        }
        lemma_pairs_map_dom(t);
        let k = s.last().0@;
        assert(!pairs_map(t).dom().contains(k)) by {
            if pairs_map(t).dom().contains(k) {
                let i = choose|i: int| 0 <= i < t.len() && (#[trigger] t[i]).0@ == k;
                assert(s[i] == t[i]);
                assert(s[i].0@ != s[s.len() - 1].0@);
            }
        }
        assert(pairs_map(s).dom() == pairs_map(t).dom().insert(k));
        assert forall|k2: Seq<char>| pairs_map(s).dom().contains(k2) <==> exists|i: int|
            0 <= i < s.len() && (#[trigger] s[i]).0@ == k2 by {
            if pairs_map(t).dom().contains(k2) {
                let i = choose|i: int| 0 <= i < t.len() && (#[trigger] t[i]).0@ == k2;
                assert(s[i] == t[i]);
            }
            if exists|i: int| 0 <= i < s.len() && (#[trigger] s[i]).0@ == k2 {
                let i = choose|i: int| 0 <= i < s.len() && (#[trigger] s[i]).0@ == k2;
                if i < t.len() {
                    assert(t[i] == s[i]);
                }
            }
        }
        assert forall|i: int| 0 <= i < s.len() implies pairs_map(s)[(#[trigger] s[i]).0@] == s[i].1 by {
            if i < t.len() {
                assert(t[i] == s[i]);
                assert(pairs_map(t)[t[i].0@] == t[i].1);
            }
        }
    }
}

proof fn lemma_pairs_map_update(s: Seq<(String, u64)>, idx: int, p: (String, u64))
    requires
        keys_unique(s),
        0 <= idx < s.len(),
        s[idx].0@ == p.0@,
    ensures
        pairs_map(s.update(idx, p)) == pairs_map(s).insert(p.0@, p.1),
        keys_unique(s.update(idx, p)),
    decreases s.len(),
{
    let u = s.update(idx, p);
    assert forall|i: int, j: int| 0 <= i < j < u.len() implies (#[trigger] u[i]).0@ != (#[trigger] u[j]).0@ by {
        assert(s[i].0@ != s[j].0@);
    }
    if idx == s.len() - 1 {
        assert(u.drop_last() =~= s.drop_last());
        assert(pairs_map(u) =~= pairs_map(s).insert(p.0@, p.1));
    } else {
        let t = s.drop_last();
        assert forall|i: int, j: int| 0 <= i < j < t.len() implies (#[trigger] t[i]).0@ != (#[trigger] t[j]).0@ by {
            assert(t[i] == s[i] && t[j] == s[j]);
        }
        lemma_pairs_map_update(t, idx, p);
        assert(u.drop_last() =~= t.update(idx, p));
        assert(u.last() == s.last());
        assert(s.last().0@ != p.0@) by {
            assert(s[idx].0@ != s[s.len() - 1].0@);
        }
        assert(pairs_map(u) =~= pairs_map(s).insert(p.0@, p.1));
    }
}

/// The index of `path` among the keys of `s`, if it is there.
fn find_key(s: &Vec<(String, u64)>, path: &str) -> (r: Option<usize>)
    ensures
        match r {
            Some(i) => i < s@.len() && s@[i as int].0@ == path@,
            None => forall|i: int| 0 <= i < s@.len() ==> (#[trigger] s@[i]).0@ != path@,
        },
{
    let mut i: usize = 0;
    while i < s.len()
        invariant
            i <= s@.len(),
            forall|j: int| 0 <= j < i ==> (#[trigger] s@[j]).0@ != path@,
        decreases s@.len() - i,
    {
        if text::str_eq(s[i].0.as_str(), path) {
            return Some(i);
        }
        i = i + 1;
    }
    None
}

/// Fingerprint every read file (sources first, then tests, as they were
/// walked); a path listed twice keeps its last digest.
pub fn hash_package_files(files: &[(String, Vec<u8>)]) -> (r: Vec<(String, u64)>)
    ensures
        keys_unique(r@),
        pairs_map(r@) == hashes_of(files@),
{
    let mut out: Vec<(String, u64)> = Vec::new();
    let mut i: usize = 0;
    while i < files.len()
        invariant
            i <= files@.len(),
            keys_unique(out@),
            pairs_map(out@) == hashes_of(files@.subrange(0, i as int)),
        decreases files@.len() - i,
    {
        let h = hash_file(files[i].1.as_slice());
        let path = files[i].0.clone();
        let ghost old_out = out@;
        proof {
            let u = files@.subrange(0, i + 1);
            assert(u.drop_last() =~= files@.subrange(0, i as int));
            assert(u.last() == files@[i as int]);
        }
        match find_key(&out, files[i].0.as_str()) {
            Some(k) => {
                proof {
                    lemma_pairs_map_update(old_out, k as int, (path, h));
                }
                out.set(k, (path, h));
            },
            None => {
                out.push((path, h));
                proof {
                    assert(out@.drop_last() =~= old_out);
                    assert forall|a: int, b: int| 0 <= a < b < out@.len() implies (#[trigger] out@[a]).0@
                        != (#[trigger] out@[b]).0@ by {
                        if b == out@.len() - 1 {
                            assert(out@[a] == old_out[a]);
                        } else {
                            assert(out@[a] == old_out[a] && out@[b] == old_out[b]);
                        }
                    }
                }
            },
        }
        i = i + 1;
    }
    proof {
        assert(files@.subrange(0, files@.len() as int) =~= files@);
    }
    out
}

/// Is the dep map stale? Yes when no snapshot could be loaded, when the
/// snapshot is empty, or when the current fingerprints differ from it in
/// any way (a file added, deleted or changed).
pub open spec fn stale(stored: Option<Map<Seq<char>, u64>>, current: Map<Seq<char>, u64>) -> bool {
    match stored {
        None => true,
        Some(s) => s.len() == 0 || current != s,
    }
}

/// Compare the current fingerprints with the stored snapshot (`None` when
/// it could not be loaded); see [`stale`].
pub fn is_dep_map_stale(stored: Option<&Vec<(String, u64)>>, current: &Vec<(String, u64)>) -> (r: bool)
    requires
        stored matches Some(s) ==> keys_unique(s@),
        keys_unique(current@),
    ensures
        r == stale(
            match stored {
                Some(s) => Some(pairs_map(s@)),
                None => None,
            },
            pairs_map(current@),
        ),
{
    let s = match stored {
        Some(s) => s,
        None => return true,
    };
    proof {
        lemma_pairs_map_dom(s@);
        lemma_pairs_map_dom(current@);
    }
    if s.len() == 0 {
        return true;
    }
    if current.len() != s.len() {
        proof {
            assert(pairs_map(current@).dom().len() != pairs_map(s@).dom().len());
        }
        return true;
    }
    let mut i: usize = 0;
    while i < current.len()
        invariant
            i <= current@.len(),
            stored == Some(s),
            keys_unique(current@),
            keys_unique(s@),
            forall|j: int|
                0 <= j < i ==> pairs_map(s@).dom().contains((#[trigger] current@[j]).0@) && pairs_map(s@)[current@[j].0@]
                    == current@[j].1,
        decreases current@.len() - i,
    {
        proof {
            lemma_pairs_map_dom(s@);
            lemma_pairs_map_dom(current@);
        }
        match find_key(s, current[i].0.as_str()) {
            Some(k) => {
                if s[k].1 != current[i].1 {
                    proof {
                        assert(pairs_map(s@)[s@[k as int].0@] == s@[k as int].1);
                        assert(pairs_map(current@)[current@[i as int].0@] == current@[i as int].1);
                        assert(pairs_map(current@)[current@[i as int].0@] != pairs_map(s@)[current@[i as int].0@]);
                    }
                    return true;
                }
                proof {
                    assert(pairs_map(s@)[s@[k as int].0@] == s@[k as int].1);
                }
            },
            None => {
                proof {
                    assert(pairs_map(current@).dom().contains(current@[i as int].0@));
                    assert(!pairs_map(s@).dom().contains(current@[i as int].0@));
                }
                return true;
            },
        }
        i = i + 1;
    }
    proof {
        let cm = pairs_map(current@);
        let sm = pairs_map(s@);
        assert(cm.dom().subset_of(sm.dom())) by {
            assert forall|k2: Seq<char>| cm.dom().contains(k2) implies sm.dom().contains(k2) by {
                let j = choose|j: int| 0 <= j < current@.len() && (#[trigger] current@[j]).0@ == k2;
            }
        }
        vstd::set_lib::lemma_subset_equality(cm.dom(), sm.dom());
        assert forall|k2: Seq<char>| #[trigger] cm.dom().contains(k2) implies cm[k2] == sm[k2] by {
            let j = choose|j: int| 0 <= j < current@.len() && (#[trigger] current@[j]).0@ == k2;
        }
        assert(cm =~= sm);
    }
    false
}


// ── Runner cache ────────────────────────────────────────────────────────────

/// The lowercase hexadecimal digit of `d` (below 16).
pub open spec fn hex_digit(d: nat) -> char {
    if d < 10 {
        crate::text::digit(d)
    } else if d == 10 {
        'a'
    } else if d == 11 {
        'b'
    } else if d == 12 {
        'c'
    } else if d == 13 {
        'd'
    } else if d == 14 {
        'e'
    } else {
        'f'
    }
}

/// The last `width` hexadecimal digits of `n`, zero-padded, most
/// significant first.
pub open spec fn hex_fixed(n: nat, width: nat) -> Seq<char>
    decreases width,
{
    if width == 0 {
        Seq::empty()
    } else {
        hex_fixed(n / 16, (width - 1) as nat).push(hex_digit(n % 16))
    }
}

fn hex_digit_char(d: u64) -> (c: char)
    requires
        d < 16,
    ensures
        c == hex_digit(d as nat),
{
    if d < 10 {
        crate::text::digit_char(d)
    } else if d == 10 {
        'a'
    } else if d == 11 {
        'b'
    } else if d == 12 {
        'c'
    } else if d == 13 {
        'd'
    } else if d == 14 {
        'e'
    } else {
        'f'
    }
}

fn push_hex(out: &mut String, n: u64, width: u64)
    ensures
        final(out)@ == old(out)@ + hex_fixed(n as nat, width as nat),
    decreases width,
{
    if width > 0 {
        push_hex(out, n / 16, width - 1);
        text::push_char(out, hex_digit_char(n % 16));
    }
}

/// The cache key of a project: the xxhash64 of its root path's UTF-8
/// bytes, as sixteen hexadecimal digits.
pub fn project_key(project_root: &str) -> (r: String)
    ensures
        r@ == hex_fixed(xxh64_of(vstd::utf8::encode_utf8(project_root@), 0) as nat, 16),
{
    let h = xxh64(project_root.as_bytes(), 0);
    let mut s = String::new();
    push_hex(&mut s, h, 16);
    s
}

/// `a` joined with `b` by one `/` (none added when `a` already ends with
/// one).
pub open spec fn join_path(a: Seq<char>, b: Seq<char>) -> Seq<char> {
    if a.len() > 0 && a.last() == '/' {
        a + b
    } else {
        a + "/"@ + b
    }
}

/// Where a project's runner script is written: under the cache directory,
/// `scrutin/runners/<project key>/<runner file>`.
pub fn runner_cache_path(cache_dir: &str, project_root: &str, runner_file: &str) -> (r: String)
    ensures
        r@ == join_path(cache_dir@, "scrutin/runners/"@ + project_key_spec(project_root@) + "/"@ + runner_file@),
{
    let c = text::chars_of(cache_dir);
    let mut s = text::owned(cache_dir);
    if !(c.len() > 0 && c[c.len() - 1] == '/') {
        text::push_str(&mut s, "/");
    }
    text::push_str(&mut s, "scrutin/runners/");
    let key = project_key(project_root);
    text::push_str(&mut s, key.as_str());
    text::push_str(&mut s, "/");
    text::push_str(&mut s, runner_file);
    proof {
        reveal_strlit("/");
        reveal_strlit("scrutin/runners/");
        assert(s@ =~= join_path(cache_dir@, "scrutin/runners/"@ + project_key_spec(project_root@) + "/"@ + runner_file@));
    }
    s
}

/// The cache key of a project root (see [`project_key`]).
pub open spec fn project_key_spec(project_root: Seq<char>) -> Seq<char> {
    hex_fixed(xxh64_of(vstd::utf8::encode_utf8(project_root), 0) as nat, 16)
}

} // verus!
