//! Run provenance as plain data, the key/value pairs it contributes to the
//! JUnit `<properties>` block, and git-remote parsing.
use vstd::prelude::*;

use crate::paths;
use crate::text;
use crate::text::str_views;

verus! {

/// Run-level provenance. Every field is optional except `scrutin_version`.
#[derive(Debug, Default)]
pub struct Provenance {
    pub hostname: Option<String>,
    pub ci: Option<String>,
    pub scrutin_version: String,
    pub git_commit: Option<String>,
    pub git_branch: Option<String>,
    pub git_dirty: Option<bool>,
    pub repo_name: Option<String>,
    pub repo_url: Option<String>,
    pub repo_root: Option<String>,
    pub build_number: Option<String>,
    pub build_id: Option<String>,
    pub build_name: Option<String>,
    pub build_url: Option<String>,
    pub os_platform: Option<String>,
    pub os_release: Option<String>,
    pub os_version: Option<String>,
    pub os_arch: Option<String>,
    /// Tool names string (e.g. `"tinytest+testthat+pytest"`).
    pub tool: Option<String>,
    /// Number of workers.
    pub workers: Option<usize>,
}

/// One pair when `v` is present, none otherwise.
pub open spec fn opt_pair(k: Seq<char>, v: Option<String>) -> Seq<(Seq<char>, Seq<char>)> {
    match v {
        Some(s) => seq![(k, s@)],
        None => Seq::empty(),
    }
}

/// The JUnit property pairs of `p`, in their fixed order.
pub open spec fn provenance_pairs(p: Provenance) -> Seq<(Seq<char>, Seq<char>)> {
    seq![("scrutin.version"@, p.scrutin_version@)] + opt_pair("os"@, p.os_platform) + opt_pair(
        "arch"@,
        p.os_arch,
    ) + opt_pair("hostname"@, p.hostname) + opt_pair("ci"@, p.ci) + opt_pair(
        "git.sha"@,
        p.git_commit,
    ) + opt_pair("git.branch"@, p.git_branch) + match p.git_dirty {
        Some(d) => seq![("git.dirty"@, if d { "true"@ } else { "false"@ })],
        None => Seq::empty(),
    } + opt_pair("repo.name"@, p.repo_name) + opt_pair("repo.url"@, p.repo_url) + opt_pair(
        "tool"@,
        p.tool,
    ) + match p.workers {
        Some(w) => seq![("workers"@, text::dec(w as nat))],
        None => Seq::empty(),
    }
}

/// The view of a list of string pairs.
pub open spec fn pairs_view(v: Seq<(String, String)>) -> Seq<(Seq<char>, Seq<char>)> {
    v.map_values(|p: (String, String)| (p.0@, p.1@))
}

fn push_pair(out: &mut Vec<(String, String)>, k: &str, v: &String)
    ensures
        pairs_view(final(out)@) == pairs_view(old(out)@).push((k@, v@)),
{
    out.push((text::owned(k), v.clone()));
    proof {
        assert(pairs_view(out@).drop_last() == pairs_view(old(out)@));
    }
}

fn push_opt(out: &mut Vec<(String, String)>, k: &str, v: &Option<String>)
    ensures
        pairs_view(final(out)@) == pairs_view(old(out)@) + opt_pair(k@, *v),
{
    match v {
        Some(s) => push_pair(out, k, s),
        None => {
            assert(pairs_view(out@) + Seq::<(Seq<char>, Seq<char>)>::empty() == pairs_view(
                out@,
            ));
        },
    }
}

impl Provenance {
    /// Key/value pairs for the JUnit `<properties>` renderer.
    pub fn junit_pairs(&self) -> (r: Vec<(String, String)>)
        ensures
            pairs_view(r@) == provenance_pairs(*self),
    {
        let mut out: Vec<(String, String)> = Vec::new();
        push_pair(&mut out, "scrutin.version", &self.scrutin_version);
        assert(pairs_view(out@) == seq![("scrutin.version"@, self.scrutin_version@)]);
        push_opt(&mut out, "os", &self.os_platform);
        push_opt(&mut out, "arch", &self.os_arch);
        push_opt(&mut out, "hostname", &self.hostname);
        push_opt(&mut out, "ci", &self.ci);
        push_opt(&mut out, "git.sha", &self.git_commit);
        push_opt(&mut out, "git.branch", &self.git_branch);
        match self.git_dirty {
            Some(d) => {
                let v = if d { text::owned("true") } else { text::owned("false") };
                push_pair(&mut out, "git.dirty", &v);
            },
            None => {
                assert(pairs_view(out@) + Seq::<(Seq<char>, Seq<char>)>::empty() == pairs_view(
                    out@,
                ));
            },
        }
        push_opt(&mut out, "repo.name", &self.repo_name);
        push_opt(&mut out, "repo.url", &self.repo_url);
        push_opt(&mut out, "tool", &self.tool);
        match self.workers {
            Some(w) => {
                let v = text::dec_string(w as u64);
                push_pair(&mut out, "workers", &v);
            },
            None => {
                assert(pairs_view(out@) + Seq::<(Seq<char>, Seq<char>)>::empty() == pairs_view(
                    out@,
                ));
            },
        }
        out
    }
}

/// One run's provenance plus user labels (kept in key order).
#[derive(Debug, Default)]
pub struct RunMetadata {
    pub provenance: Provenance,
    /// User labels from `[extras]`, sorted by key.
    pub labels: Vec<(String, String)>,
}

/// Provenance pairs, then label pairs.
pub open spec fn metadata_pairs(m: RunMetadata) -> Seq<(Seq<char>, Seq<char>)> {
    provenance_pairs(m.provenance) + pairs_view(m.labels@)
}

impl RunMetadata {
    /// The labels come from an ordered map: keys ascending, each once.
    pub open spec fn wf(&self) -> bool {
        text::keys_ascending(self.labels@.map_values(|p: (String, String)| p.0@))
    }

    /// No version and no labels.
    pub open spec fn is_empty_spec(self) -> bool {
        self.provenance.scrutin_version@.len() == 0 && self.labels@.len() == 0
    }

    /// Provenance pairs, then label pairs in ascending key order.
    pub fn iter(&self) -> (r: Vec<(String, String)>)
        requires
            self.wf(),
        ensures
            pairs_view(r@) == metadata_pairs(*self),
            text::keys_ascending(
                pairs_view(r@).subrange(
                    provenance_pairs(self.provenance).len() as int,
                    pairs_view(r@).len() as int,
                ).map_values(|p: (Seq<char>, Seq<char>)| p.0),
            ),
    {
        let mut out = self.provenance.junit_pairs();
        let ghost base = pairs_view(out@);
        let mut i: usize = 0;
        while i < self.labels.len()
            invariant
                i <= self.labels.len(),
                pairs_view(out@) == base + pairs_view(self.labels@.subrange(0, i as int)),
            decreases self.labels.len() - i,
        {
            push_pair(&mut out, self.labels[i].0.as_str(), &self.labels[i].1);
            proof {
                assert(pairs_view(self.labels@.subrange(0, i + 1)).drop_last() == pairs_view(
                    self.labels@.subrange(0, i as int),
                ));
            }
            i = i + 1;
        }
        assert(self.labels@.subrange(0, self.labels.len() as int) == self.labels@);
        proof {
            let tail = pairs_view(out@).subrange(
                provenance_pairs(self.provenance).len() as int,
                pairs_view(out@).len() as int,
            );
            assert(tail =~= pairs_view(self.labels@));
            assert(tail.map_values(|p: (Seq<char>, Seq<char>)| p.0) =~= self.labels@.map_values(
                |p: (String, String)| p.0@,
            ));
        }
        out
    }

    /// No version and no labels.
    pub fn is_empty(&self) -> (r: bool)
        ensures
            r == self.is_empty_spec(),
    {
        self.provenance.scrutin_version.as_str().is_empty() && self.labels.len() == 0
    }
}

// ── Remote URL parsing ──────────────────────────────────────────────────────

/// `s` with every trailing `.git` removed.
pub open spec fn strip_git(s: Seq<char>) -> Seq<char>
    decreases s.len(),
{
    if text::has_suffix(s, ".git"@) && s.len() >= 4 {
        strip_git(s.subrange(0, s.len() - 4))
    } else {
        s
    }
}

/// The text after the host of a remote URL: after `scheme://host/`, after
/// `user@host:`, or the whole (trimmed) text otherwise.
pub open spec fn after_host(url: Seq<char>) -> Option<Seq<char>> {
    match text::find(url, "://"@) {
        Some(i) => {
            let rest = url.subrange(i + 3, url.len() as int);
            match rest.index_of_first('/') {
                Some(j) => Some(rest.subrange(j + 1, rest.len() as int)),
                None => None,
            }
        },
        None => match url.index_of_first('@') {
            Some(i) => {
                let rest = url.subrange(i + 1, url.len() as int);
                match rest.index_of_first(':') {
                    Some(j) => Some(rest.subrange(j + 1, rest.len() as int)),
                    None => None,
                }
            },
            None => Some(url),
        },
    }
}

/// `owner/name` from the last two `/`-separated segments of `path`.
pub open spec fn owner_name(path: Seq<char>) -> Option<Seq<char>> {
    let t = strip_git(text::strip_trailing(path, '/'));
    match t.index_of_last('/') {
        Some(i) => {
            let name = t.subrange(i + 1, t.len() as int);
            let before = t.subrange(0, i);
            let owner = match before.index_of_last('/') {
                Some(j) => before.subrange(j + 1, before.len() as int),
                None => before,
            };
            if name.len() == 0 || owner.len() == 0 {
                None
            } else {
                Some(owner + "/"@ + name)
            }
        },
        None => None,
    }
}

/// The `owner/name` identifier of a git remote URL.
pub open spec fn repo_name_spec(url: Seq<char>) -> Option<Seq<char>> {
    match after_host(text::trim(url)) {
        Some(p) => owner_name(p),
        None => None,
    }
}

fn last_index_of(s: &[char], c: char) -> (r: Option<usize>)
    ensures
        r matches Some(i) ==> s@.index_of_last(c) == Some(i as int) && i < s.len(),
        r is None ==> s@.index_of_last(c) is None,
{
    let mut j = s.len();
    while j > 0 && s[j - 1] != c
        invariant
            j <= s.len(),
            forall|m: int| j <= m < s.len() ==> s@[m] != c,
        decreases j,
    {
        j = j - 1;
    }
    proof {
        s@.index_of_last_ensures(c);
        if j == 0 {
            assert(!s@.contains(c));
        }
    }
    if j > 0 {
        Some(j - 1)
    } else {
        None
    }
}

fn strip_git_exec(s: &[char]) -> (r: Vec<char>)
    ensures
        r@ == strip_git(s@),
{
    let git = text::chars_of(".git");
    let mut cur = text::slice_of(s, 0, s.len());
    assert(s@.subrange(0, s.len() as int) == s@);
    loop
        invariant
            git@ == ".git"@,
            strip_git(s@) == strip_git(cur@),
        decreases cur@.len(),
    {
        if cur.len() >= 4 && text::ends_with(cur.as_slice(), git.as_slice()) {
            let n = cur.len() - 4;
            cur = text::slice_of(cur.as_slice(), 0, n);
        } else {
            return cur;
        }
    }
}

fn after_host_exec(u: &[char]) -> (r: Option<Vec<char>>)
    ensures
        r matches Some(p) ==> after_host(u@) == Some(p@),
        r is None ==> after_host(u@) is None,
{
    let scheme = text::chars_of("://");
    match text::find_chars(u, scheme.as_slice()) {
        Some(i) => {
            proof {
                reveal_strlit("://");
                text::lemma_find_from_bounds(u@, "://"@, 0);
                assert(text::occurs_at(u@, "://"@, i as int));
                assert(i + 3 <= u@.len());
                assert(u@.len() == u.len());
            }
            let rest = text::slice_of(u, i + 3, u.len());
            match text::first_index_of(rest.as_slice(), '/') {
                Some(j) => {
                    proof {
                        rest@.index_of_first_ensures('/');
                    }
                    Some(text::slice_of(rest.as_slice(), j + 1, rest.len()))
                },
                None => {
                    proof {
                        rest@.index_of_first_ensures('/');
                    }
                    None
                },
            }
        },
        None => match text::first_index_of(u, '@') {
            Some(i) => {
                proof {
                    u@.index_of_first_ensures('@');
                }
                let rest = text::slice_of(u, i + 1, u.len());
                match text::first_index_of(rest.as_slice(), ':') {
                    Some(j) => {
                        proof {
                            rest@.index_of_first_ensures(':');
                        }
                        Some(text::slice_of(rest.as_slice(), j + 1, rest.len()))
                    },
                    None => {
                        proof {
                            rest@.index_of_first_ensures(':');
                        }
                        None
                    },
                }
            },
            None => {
                proof {
                    u@.index_of_first_ensures('@');
                }
                Some(text::slice_of(u, 0, u.len()))
            },
        },
    }
}

/// The `owner/name` identifier of a git remote URL (HTTPS, SSH or `git://`
/// form); `None` when the URL has fewer than two path segments.
pub fn repo_name_from_url(url: &str) -> (r: Option<String>)
    ensures
        r matches Some(s) ==> repo_name_spec(url@) == Some(s@),
        r is None ==> repo_name_spec(url@) is None,
{
    let all = text::chars_of(url);
    let u = text::trim_chars(all.as_slice());
    let path = match after_host_exec(u.as_slice()) {
        Some(p) => p,
        None => return None,
    };
    let stripped = text::strip_trailing_chars(path.as_slice(), '/');
    let t = strip_git_exec(stripped.as_slice());
    match last_index_of(t.as_slice(), '/') {
        Some(i) => {
            let name = text::slice_of(t.as_slice(), i + 1, t.len());
            let before = text::slice_of(t.as_slice(), 0, i);
            let owner = match last_index_of(before.as_slice(), '/') {
                Some(j) => text::slice_of(before.as_slice(), j + 1, before.len()),
                None => {
                    assert(before@.subrange(0, before@.len() as int) == before@);
                    text::slice_of(before.as_slice(), 0, before.len())
                },
            };
            if name.len() == 0 || owner.len() == 0 {
                None
            } else {
                let mut s = text::string_from(owner.as_slice());
                text::push_char(&mut s, '/');
                text::push_chars(&mut s, name.as_slice());
                proof {
                    reveal_strlit("/");
                    assert("/"@ == seq!['/']);
                }
                Some(s)
            }
        },
        None => None,
    }
}


// ── Capturing provenance ────────────────────────────────────────────────────

/// The first environment entry named `k` from index `i` on: its value
/// (`None` when the value is not valid Unicode).
pub open spec fn env_entry(env: Seq<(String, Option<String>)>, k: Seq<char>, i: int) -> Option<Option<String>>
    decreases env.len() - i,
{
    if i < 0 || i >= env.len() {
        None
    } else if env[i].0@ == k {
        Some(env[i].1)
    } else {
        env_entry(env, k, i + 1)
    }
}

/// The variable `k` is set.
pub open spec fn env_set(env: Seq<(String, Option<String>)>, k: Seq<char>) -> bool {
    env_entry(env, k, 0) is Some
}

/// The value of `k` when it is set, valid Unicode and non-empty.
pub open spec fn env_get(env: Seq<(String, Option<String>)>, k: Seq<char>) -> Option<Seq<char>> {
    match env_entry(env, k, 0) {
        Some(Some(v)) => if v@.len() > 0 { Some(v@) } else { None },
        _ => None,
    }
}

/// The entry named `k`, computed.
fn find_env<'a>(env: &'a Vec<(String, Option<String>)>, k: &str) -> (r: Option<&'a Option<String>>)
    ensures
        match r {
            Some(v) => env_entry(env@, k@, 0) == Some(*v),
            None => env_entry(env@, k@, 0) is None,
        },
{
    let mut i: usize = 0;
    while i < env.len()
        invariant
            i <= env@.len(),
            env_entry(env@, k@, 0) == env_entry(env@, k@, i as int),
        decreases env@.len() - i,
    {
        if text::str_eq(env[i].0.as_str(), k) {
            return Some(&env[i].1);
        }
        i = i + 1;
    }
    None
}

/// Is `k` set?
fn env_is_set(env: &Vec<(String, Option<String>)>, k: &str) -> (r: bool)
    ensures
        r == env_set(env@, k@),
{
    find_env(env, k).is_some()
}

/// The non-empty Unicode value of `k`.
fn env_value(env: &Vec<(String, Option<String>)>, k: &str) -> (r: Option<String>)
    ensures
        match r {
            Some(v) => env_get(env@, k@) == Some(v@),
            None => env_get(env@, k@) is None,
        },
{
    match find_env(env, k) {
        Some(Some(v)) => if v.as_str().is_empty() {
            None
        } else {
            Some(v.clone())
        },
        _ => None,
    }
}

/// The CI provider whose environment signature is present, checked in a
/// fixed order; a bare `CI=true` (or `1`) is the generic `ci`.
pub open spec fn ci_of(env: Seq<(String, Option<String>)>) -> Option<Seq<char>> {
    if env_set(env, "GITHUB_ACTIONS"@) {
        Some("github"@)
    } else if env_set(env, "GITLAB_CI"@) {
        Some("gitlab"@)
    } else if env_set(env, "BUILDKITE"@) {
        Some("buildkite"@)
    } else if env_set(env, "CIRCLECI"@) {
        Some("circleci"@)
    } else if env_set(env, "JENKINS_URL"@) {
        Some("jenkins"@)
    } else if env_set(env, "TF_BUILD"@) {
        Some("azure-pipelines"@)
    } else if env_set(env, "TRAVIS"@) {
        Some("travis"@)
    } else if env_entry(env, "CI"@, 0) matches Some(Some(v)) && (v@ == "true"@ || v@ == "1"@) {
        Some("ci"@)
    } else {
        None
    }
}

/// Detect the CI provider from the environment (see [`ci_of`]).
pub fn detect_ci(env: &Vec<(String, Option<String>)>) -> (r: Option<&'static str>)
    ensures
        match r {
            Some(c) => ci_of(env@) == Some(c@),
            None => ci_of(env@) is None,
        },
{
    if env_is_set(env, "GITHUB_ACTIONS") {
        return Some("github");
    }
    if env_is_set(env, "GITLAB_CI") {
        return Some("gitlab");
    }
    if env_is_set(env, "BUILDKITE") {
        return Some("buildkite");
    }
    if env_is_set(env, "CIRCLECI") {
        return Some("circleci");
    }
    if env_is_set(env, "JENKINS_URL") {
        return Some("jenkins");
    }
    if env_is_set(env, "TF_BUILD") {
        return Some("azure-pipelines");
    }
    if env_is_set(env, "TRAVIS") {
        return Some("travis");
    }
    match find_env(env, "CI") {
        Some(Some(v)) => if text::str_eq(v.as_str(), "true") || text::str_eq(v.as_str(), "1") {
            return Some("ci");
        },
        _ => {},
    }
    None
}

/// Build number, id, name and URL of a CI run, by provider.
pub type BuildFields = (Option<Seq<char>>, Option<Seq<char>>, Option<Seq<char>>, Option<Seq<char>>);

/// The four fields read from four variables.
pub open spec fn four(env: Seq<(String, Option<String>)>, a: Seq<char>, b: Seq<char>, c: Seq<char>, d: Seq<char>) -> BuildFields {
    (env_get(env, a), env_get(env, b), env_get(env, c), env_get(env, d))
}

/// The build fields of the CI provider present (the same signature order as
/// [`ci_of`]); GitHub and Azure URLs are assembled from their parts when
/// all are set.
pub open spec fn build_fields_of(env: Seq<(String, Option<String>)>) -> BuildFields {
    if env_set(env, "GITHUB_ACTIONS"@) {
        (
            env_get(env, "GITHUB_RUN_NUMBER"@),
            env_get(env, "GITHUB_RUN_ID"@),
            env_get(env, "GITHUB_WORKFLOW"@),
            match (env_get(env, "GITHUB_SERVER_URL"@), env_get(env, "GITHUB_REPOSITORY"@), env_get(env, "GITHUB_RUN_ID"@)) {
                (Some(server), Some(repo), Some(run)) => Some(server + "/"@ + repo + "/actions/runs/"@ + run),
                _ => None,
            },
        )
    } else if env_set(env, "GITLAB_CI"@) {
        four(env, "CI_PIPELINE_IID"@, "CI_PIPELINE_ID"@, "CI_JOB_NAME"@, "CI_PIPELINE_URL"@)
    } else if env_set(env, "BUILDKITE"@) {
        four(env, "BUILDKITE_BUILD_NUMBER"@, "BUILDKITE_BUILD_ID"@, "BUILDKITE_PIPELINE_SLUG"@, "BUILDKITE_BUILD_URL"@)
    } else if env_set(env, "CIRCLECI"@) {
        four(env, "CIRCLE_BUILD_NUM"@, "CIRCLE_WORKFLOW_ID"@, "CIRCLE_JOB"@, "CIRCLE_BUILD_URL"@)
    } else if env_set(env, "JENKINS_URL"@) {
        four(env, "BUILD_NUMBER"@, "BUILD_ID"@, "JOB_NAME"@, "BUILD_URL"@)
    } else if env_set(env, "TF_BUILD"@) {
        (
            env_get(env, "BUILD_BUILDNUMBER"@),
            env_get(env, "BUILD_BUILDID"@),
            env_get(env, "BUILD_DEFINITIONNAME"@),
            match (
                env_get(env, "SYSTEM_TEAMFOUNDATIONCOLLECTIONURI"@),
                env_get(env, "SYSTEM_TEAMPROJECT"@),
                env_get(env, "BUILD_BUILDID"@),
            ) {
                (Some(base), Some(proj), Some(bid)) => Some(
                    text::strip_trailing(base, '/') + "/"@ + proj + "/_build/results?buildId="@ + bid,
                ),
                _ => None,
            },
        )
    } else if env_set(env, "TRAVIS"@) {
        four(env, "TRAVIS_BUILD_NUMBER"@, "TRAVIS_BUILD_ID"@, "TRAVIS_REPO_SLUG"@, "TRAVIS_BUILD_WEB_URL"@)
    } else {
        (None, None, None, None)
    }
}

/// The view of an optional string.
pub open spec fn opt_view(o: Option<String>) -> Option<Seq<char>> {
    match o {
        Some(s) => Some(s@),
        None => None,
    }
}

/// Four fields read from four variables.
fn four_exec(env: &Vec<(String, Option<String>)>, a: &str, b: &str, c: &str, d: &str) -> (r: (
    Option<String>,
    Option<String>,
    Option<String>,
    Option<String>,
))
    ensures
        (opt_view(r.0), opt_view(r.1), opt_view(r.2), opt_view(r.3)) == four(env@, a@, b@, c@, d@),
{
    (env_value(env, a), env_value(env, b), env_value(env, c), env_value(env, d))
}

/// The build fields of the CI provider present (see [`build_fields_of`]).
pub fn build_fields(env: &Vec<(String, Option<String>)>) -> (r: (
    Option<String>,
    Option<String>,
    Option<String>,
    Option<String>,
))
    ensures
        (opt_view(r.0), opt_view(r.1), opt_view(r.2), opt_view(r.3)) == build_fields_of(env@),
{
    if env_is_set(env, "GITHUB_ACTIONS") {
        let url = match (
            env_value(env, "GITHUB_SERVER_URL"),
            env_value(env, "GITHUB_REPOSITORY"),
            env_value(env, "GITHUB_RUN_ID"),
        ) {
            (Some(server), Some(repo), Some(run)) => {
                let mut u = server;
                text::push_str(&mut u, "/");
                text::push_str(&mut u, repo.as_str());
                text::push_str(&mut u, "/actions/runs/");
                text::push_str(&mut u, run.as_str());
                Some(u)
            },
            _ => None,
        };
        (
            env_value(env, "GITHUB_RUN_NUMBER"),
            env_value(env, "GITHUB_RUN_ID"),
            env_value(env, "GITHUB_WORKFLOW"),
            url,
        )
    } else if env_is_set(env, "GITLAB_CI") {
        four_exec(env, "CI_PIPELINE_IID", "CI_PIPELINE_ID", "CI_JOB_NAME", "CI_PIPELINE_URL")
    } else if env_is_set(env, "BUILDKITE") {
        four_exec(env, "BUILDKITE_BUILD_NUMBER", "BUILDKITE_BUILD_ID", "BUILDKITE_PIPELINE_SLUG", "BUILDKITE_BUILD_URL")
    } else if env_is_set(env, "CIRCLECI") {
        four_exec(env, "CIRCLE_BUILD_NUM", "CIRCLE_WORKFLOW_ID", "CIRCLE_JOB", "CIRCLE_BUILD_URL")
    } else if env_is_set(env, "JENKINS_URL") {
        four_exec(env, "BUILD_NUMBER", "BUILD_ID", "JOB_NAME", "BUILD_URL")
    } else if env_is_set(env, "TF_BUILD") {
        let url = match (
            env_value(env, "SYSTEM_TEAMFOUNDATIONCOLLECTIONURI"),
            env_value(env, "SYSTEM_TEAMPROJECT"),
            env_value(env, "BUILD_BUILDID"),
        ) {
            (Some(base), Some(proj), Some(bid)) => {
                let bc = text::chars_of(base.as_str());
                let trimmed = text::strip_trailing_chars(bc.as_slice(), '/');
                let mut u = text::string_from(trimmed.as_slice());
                text::push_str(&mut u, "/");
                text::push_str(&mut u, proj.as_str());
                text::push_str(&mut u, "/_build/results?buildId=");
                text::push_str(&mut u, bid.as_str());
                Some(u)
            },
            _ => None,
        };
        (
            env_value(env, "BUILD_BUILDNUMBER"),
            env_value(env, "BUILD_BUILDID"),
            env_value(env, "BUILD_DEFINITIONNAME"),
            url,
        )
    } else if env_is_set(env, "TRAVIS") {
        four_exec(env, "TRAVIS_BUILD_NUMBER", "TRAVIS_BUILD_ID", "TRAVIS_REPO_SLUG", "TRAVIS_BUILD_WEB_URL")
    } else {
        (None, None, None, None)
    }
}


/// What the host and environment say about a run.
#[derive(Debug, Clone)]
pub struct HostFacts {
    pub os_platform: String,
    pub os_arch: String,
    pub os_release: Option<String>,
    pub os_version: Option<String>,
    pub hostname: Option<String>,
    /// The environment variables (value `None` when not valid Unicode).
    pub env: Vec<(String, Option<String>)>,
}

/// What git says about the repository holding the project (each output
/// trimmed; `None` when the command failed).
#[derive(Debug, Clone)]
pub struct GitFacts {
    pub repo_root: String,
    /// Output of `git rev-parse HEAD --abbrev-ref HEAD`.
    pub head: Option<String>,
    /// Output of `git status --porcelain`.
    pub status: Option<String>,
    /// Output of `git config --get remote.origin.url`.
    pub remote_url: Option<String>,
}

/// The commit of a `rev-parse` output: its first line, when non-empty.
pub open spec fn commit_of(head: Option<String>) -> Option<Seq<char>> {
    match head {
        Some(h) => if text::lines_of(h@).len() > 0 && text::lines_of(h@)[0].len() > 0 {
            Some(text::lines_of(h@)[0])
        } else {
            None
        },
        None => None,
    }
}

/// The branch of a `rev-parse` output: its second line, `(detached)` for
/// a detached `HEAD`.
pub open spec fn branch_of(head: Option<String>) -> Option<Seq<char>> {
    match head {
        Some(h) => if text::lines_of(h@).len() > 1 {
            if text::lines_of(h@)[1] == "HEAD"@ {
                Some("(detached)"@)
            } else {
                Some(text::lines_of(h@)[1])
            }
        } else {
            None
        },
        None => None,
    }
}

/// The remote URL when non-empty.
pub open spec fn url_of(u: Option<String>) -> Option<Seq<char>> {
    match u {
        Some(x) => if x@.len() > 0 { Some(x@) } else { None },
        None => None,
    }
}

/// The repository name: from the remote URL, else the root's directory name.
pub open spec fn repo_name_of(g: GitFacts) -> Option<Seq<char>> {
    match url_of(g.remote_url) {
        Some(u) => match repo_name_spec(u) {
            Some(n) => Some(n),
            None => paths::file_name(g.repo_root@),
        },
        None => paths::file_name(g.repo_root@),
    }
}

/// The provenance of a run: only the version when capture is off;
/// otherwise host facts, the CI provider and build fields, and, inside a
/// git repository, commit, branch, dirtiness and repository identity.
pub open spec fn provenance_ok(p: Provenance, version: Seq<char>, enabled: bool, host: HostFacts, git: Option<GitFacts>) -> bool {
    &&& p.scrutin_version@ == version
    &&& p.tool is None && p.workers is None
    &&& if !enabled {
        &&& p.hostname is None && p.ci is None
        &&& p.git_commit is None && p.git_branch is None && p.git_dirty is None
        &&& p.repo_name is None && p.repo_url is None && p.repo_root is None
        &&& p.build_number is None && p.build_id is None && p.build_name is None && p.build_url is None
        &&& p.os_platform is None && p.os_release is None && p.os_version is None && p.os_arch is None
    } else {
        &&& opt_view(p.os_platform) == Some(host.os_platform@)
        &&& opt_view(p.os_arch) == Some(host.os_arch@)
        &&& opt_view(p.os_release) == opt_view(host.os_release)
        &&& opt_view(p.os_version) == opt_view(host.os_version)
        &&& opt_view(p.hostname) == opt_view(host.hostname)
        &&& opt_view(p.ci) == ci_of(host.env@)
        &&& (opt_view(p.build_number), opt_view(p.build_id), opt_view(p.build_name), opt_view(p.build_url))
            == build_fields_of(host.env@)
        &&& match git {
            None => p.git_commit is None && p.git_branch is None && p.git_dirty is None
                && p.repo_name is None && p.repo_url is None && p.repo_root is None,
            Some(g) => {
                &&& opt_view(p.git_commit) == commit_of(g.head)
                &&& opt_view(p.git_branch) == branch_of(g.head)
                &&& p.git_dirty == match g.status {
                    Some(st) => Some(st@.len() > 0),
                    None => None,
                }
                &&& opt_view(p.repo_root) == Some(g.repo_root@)
                &&& opt_view(p.repo_url) == url_of(g.remote_url)
                &&& opt_view(p.repo_name) == repo_name_of(g)
            },
        }
    }
}

/// Capture the provenance of a run (see [`provenance_ok`]). `git` is what
/// git reported when the project sits inside a repository.
pub fn capture_provenance(version: &str, enabled: bool, host: &HostFacts, git: Option<&GitFacts>) -> (p: Provenance)
    ensures
        provenance_ok(
            p,
            version@,
            enabled,
            *host,
            match git {
                Some(g) => Some(*g),
                None => None,
            },
        ),
{
    let mut p = Provenance {
        hostname: None,
        ci: None,
        scrutin_version: text::owned(version),
        git_commit: None,
        git_branch: None,
        git_dirty: None,
        repo_name: None,
        repo_url: None,
        repo_root: None,
        build_number: None,
        build_id: None,
        build_name: None,
        build_url: None,
        os_platform: None,
        os_release: None,
        os_version: None,
        os_arch: None,
        tool: None,
        workers: None,
    };
    if !enabled {
        return p;
    }
    p.os_platform = Some(host.os_platform.clone());
    p.os_arch = Some(host.os_arch.clone());
    p.os_release = text::copy_opt(&host.os_release);
    p.os_version = text::copy_opt(&host.os_version);
    p.hostname = text::copy_opt(&host.hostname);
    p.ci = match detect_ci(&host.env) {
        Some(c) => Some(text::owned(c)),
        None => None,
    };
    match git {
        None => {},
        Some(g) => {
            match &g.head {
                Some(h) => {
                    let hc = text::chars_of(h.as_str());
                    let lines = text::lines_chars(hc.as_slice());
                    proof {
                        assert(text::char_views(lines@) == text::lines_of(h@));
                        if lines@.len() > 0 {
                            assert(text::char_views(lines@)[0] == lines@[0]@);
                        }
                        if lines@.len() > 1 {
                            assert(text::char_views(lines@)[1] == lines@[1]@);
                        }
                    }
                    if lines.len() > 0 && lines[0].len() > 0 {
                        p.git_commit = Some(text::string_from(lines[0].as_slice()));
                    }
                    if lines.len() > 1 {
                        let b = text::string_from(lines[1].as_slice());
                        if text::str_eq(b.as_str(), "HEAD") {
                            p.git_branch = Some(text::owned("(detached)"));
                        } else {
                            p.git_branch = Some(b);
                        }
                    }
                },
                None => {},
            }
            p.git_dirty = match &g.status {
                Some(st) => Some(!st.as_str().is_empty()),
                None => None,
            };
            p.repo_root = Some(g.repo_root.clone());
            p.repo_url = match &g.remote_url {
                Some(u) => if u.as_str().is_empty() {
                    None
                } else {
                    Some(u.clone())
                },
                None => None,
            };
            let from_url = match &p.repo_url {
                Some(u) => repo_name_from_url(u.as_str()),
                None => None,
            };
            p.repo_name = match from_url {
                Some(n) => Some(n),
                None => paths::file_name_of(g.repo_root.as_str()),
            };
        },
    }
    let (a, b, c, d) = build_fields(&host.env);
    p.build_number = a;
    p.build_id = b;
    p.build_name = c;
    p.build_url = d;
    p
}


/// Assemble one run's metadata: the captured provenance, stamped with the
/// active tool names and the worker count when capture is on, and the
/// configured labels.
pub fn build_run_metadata(
    cfg: &crate::config::Config,
    tool_names: &str,
    n_workers: usize,
    provenance: Provenance,
) -> (m: RunMetadata)
    requires
        cfg.wf(),
    ensures
        m.wf(),
        m.labels@ == cfg.extras@,
        m.provenance == (if cfg.metadata.enabled {
            Provenance { tool: Some(m.provenance.tool->0), workers: Some(n_workers), ..provenance }
        } else {
            provenance
        }),
        cfg.metadata.enabled ==> (m.provenance.tool matches Some(t) && t@ == tool_names@),
{
    let mut p = provenance;
    if cfg.metadata.enabled {
        p.tool = Some(text::owned(tool_names));
        p.workers = Some(n_workers);
    }
    RunMetadata { provenance: p, labels: crate::hooks::copy_pairs(&cfg.extras) }
}


/// A `PRETTY_NAME=` line's value: trimmed, then its surrounding quotes
/// removed.
pub open spec fn unquoted_value(line: Seq<char>, key_len: int) -> Seq<char> {
    text::strip_trailing(text::strip_leading(text::trim(line.subrange(key_len, line.len() as int)), '"'), '"')
}

/// The first non-empty `PRETTY_NAME` value among `lines`.
pub open spec fn pretty_name_in(lines: Seq<Seq<char>>) -> Option<Seq<char>>
    decreases lines.len(),
{
    if lines.len() == 0 {
        None
    } else if text::has_prefix(lines[0], "PRETTY_NAME="@) && unquoted_value(lines[0], 12).len() > 0 {
        Some(unquoted_value(lines[0], 12))
    } else {
        pretty_name_in(lines.drop_first())
    }
}

/// The human-readable OS version from the contents of `/etc/os-release`:
/// the first non-empty `PRETTY_NAME`, unquoted.
pub fn os_version_from(contents: &str) -> (r: Option<String>)
    ensures
        match r {
            Some(v) => pretty_name_in(text::lines_of(contents@)) == Some(v@),
            None => pretty_name_in(text::lines_of(contents@)) is None,
        },
{
    let c = text::chars_of(contents);
    let lines = text::lines_chars(c.as_slice());
    let ghost lv = text::char_views(lines@);
    let key = text::chars_of("PRETTY_NAME=");
    proof {
        reveal_strlit("PRETTY_NAME=");
        assert(key@.len() == 12);
        assert(lv.subrange(0, lv.len() as int) =~= lv);
    }
    let mut i: usize = 0;
    while i < lines.len()
        invariant
            i <= lines@.len(),
            lv == text::char_views(lines@),
            lv == text::lines_of(contents@),
            key@ == "PRETTY_NAME="@,
            key@.len() == 12,
            pretty_name_in(lv) == pretty_name_in(lv.subrange(i as int, lv.len() as int)),
        decreases lines@.len() - i,
    {
        let line = &lines[i];
        let ghost rest = lv.subrange(i as int, lv.len() as int);
        proof {
            assert(rest[0] == line@);
            assert(rest.drop_first() =~= lv.subrange(i + 1, lv.len() as int));
        }
        if text::starts_with(line.as_slice(), key.as_slice()) {
            let tail = text::slice_of(line.as_slice(), key.len(), line.len());
            let t = text::trim_chars(tail.as_slice());
            let a = text::strip_leading_chars(t.as_slice(), '"');
            let b = text::strip_trailing_chars(a.as_slice(), '"');
            if b.len() > 0 {
                return Some(text::string_from(b.as_slice()));
            }
        }
        i = i + 1;
    }
    None
}

/// The text a probe command printed: its output read as lossy UTF-8 and
/// trimmed, when the command succeeded and printed something.
pub fn probe_output(success: bool, stdout: &[u8]) -> (r: Option<String>)
    ensures
        match r {
            Some(t) => success && t@ == text::trim(crate::git::lossy_utf8(stdout@)) && t@.len() > 0,
            None => !success || text::trim(crate::git::lossy_utf8(stdout@)).len() == 0,
        },
{
    if !success {
        return None;
    }
    let s = crate::git::utf8_lossy(stdout);
    let c = text::chars_of(s.as_str());
    let t = text::trim_chars(c.as_slice());
    if t.len() == 0 {
        None
    } else {
        Some(text::string_from(t.as_slice()))
    }
}

} // verus!
