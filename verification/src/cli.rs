//! Command-line level decisions: reporter selection syntax, filter-group
//! resolution, shuffled run order, and terminal styling.
use vstd::prelude::*;

use crate::config::{Config, FilterGroup};
use crate::text;
use crate::text::{dec, str_views};

verus! {

// ── Reporter selection ──────────────────────────────────────────────────────

/// One output reporter, as written on the command line:
/// `tui`, `plain`, `github`, `web[:ADDR]`, `list` or `junit:PATH`.
#[derive(Clone, Debug, PartialEq, Eq)]
pub enum ReporterSpec {
    Tui,
    Plain,
    Github,
    Web(Option<String>),
    List,
    Junit(String),
}

/// What a reporter argument selects.
pub enum ReporterModel {
    Tui,
    Plain,
    Github,
    Web(Option<Seq<char>>),
    List,
    Junit(Seq<char>),
}

impl ReporterSpec {
    pub open spec fn model(&self) -> ReporterModel {
        match self {
            ReporterSpec::Tui => ReporterModel::Tui,
            ReporterSpec::Plain => ReporterModel::Plain,
            ReporterSpec::Github => ReporterModel::Github,
            ReporterSpec::Web(a) => ReporterModel::Web(
                match a {
                    Some(x) => Some(x@),
                    None => None,
                },
            ),
            ReporterSpec::List => ReporterModel::List,
            ReporterSpec::Junit(p) => ReporterModel::Junit(p@),
        }
    }
}

/// The text before the first `:`, and the text after it if there is one.
pub open spec fn split_once_colon(s: Seq<char>) -> (Seq<char>, Option<Seq<char>>) {
    match text::find(s, seq![':']) {
        Some(i) => if 0 <= i < s.len() {
            (s.subrange(0, i), Some(s.subrange(i + 1, s.len() as int)))
        } else {
            (s, None)
        },
        None => (s, None),
    }
}

/// What a reporter argument means, or the error message it gets.
pub open spec fn reporter_meaning(s: Seq<char>) -> Result<ReporterModel, Seq<char>> {
    let (name, arg) = split_once_colon(s);
    if name == "tui"@ && arg is None {
        Ok(ReporterModel::Tui)
    } else if name == "plain"@ && arg is None {
        Ok(ReporterModel::Plain)
    } else if name == "github"@ && arg is None {
        Ok(ReporterModel::Github)
    } else if name == "web"@ {
        match arg {
            None => Ok(ReporterModel::Web(None)),
            Some(a) => if a.len() > 0 {
                Ok(ReporterModel::Web(Some(a)))
            } else {
                Err("reporter 'web' address must be non-empty: web:ADDR"@)
            },
        }
    } else if name == "list"@ && arg is None {
        Ok(ReporterModel::List)
    } else if name == "junit"@ {
        match arg {
            Some(p) => if p.len() > 0 {
                Ok(ReporterModel::Junit(p))
            } else {
                Err("reporter 'junit' requires a path: junit:PATH"@)
            },
            None => Err("reporter 'junit' requires a path: junit:PATH"@),
        }
    } else if name == "tui"@ || name == "plain"@ || name == "github"@ || name == "list"@ {
        Err("reporter '"@ + name + "' does not take an argument"@)
    } else {
        Err(
            "unknown target '"@ + name
                + "' (expected: tui, plain, github, web[:ADDR], list, junit:PATH)"@,
        )
    }
}

impl ReporterSpec {
    /// Parse a reporter argument (see [`reporter_meaning`]).
    pub fn parse(s: &str) -> (r: Result<ReporterSpec, String>)
        ensures
            match r {
                Ok(spec) => reporter_meaning(s@) == Ok::<ReporterModel, Seq<char>>(spec.model()),
                Err(m) => reporter_meaning(s@) == Err::<ReporterModel, Seq<char>>(m@),
            },
    {
        let c = text::chars_of(s);
        let colon: Vec<char> = vec![':'];
        let (name, arg): (Vec<char>, Option<Vec<char>>) = match text::find_chars(
            c.as_slice(),
            colon.as_slice(),
        ) {
            Some(i) => {
                proof {
                    text::lemma_find_char(c@, ':');
                    assert(colon@ == seq![':']);
                }
                let n = c.len();
                (text::slice_of(c.as_slice(), 0, i), Some(text::slice_of(c.as_slice(), i + 1, n)))
            },
            None => {
                proof {
                    assert(colon@ == seq![':']);
                }
                (text::slice_of(c.as_slice(), 0, c.len()), None)
            },
        };
        proof {
            assert(c@.subrange(0, c@.len() as int) == c@);
            let (sn, sa) = split_once_colon(s@);
            assert(name@ == sn);
            assert(match arg {
                Some(a) => sa == Some(a@),
                None => sa is None,
            });
        }
        let is_tui = text::eq_chars(name.as_slice(), text::chars_of("tui").as_slice());
        let is_plain = text::eq_chars(name.as_slice(), text::chars_of("plain").as_slice());
        let is_github = text::eq_chars(name.as_slice(), text::chars_of("github").as_slice());
        let is_web = text::eq_chars(name.as_slice(), text::chars_of("web").as_slice());
        let is_list = text::eq_chars(name.as_slice(), text::chars_of("list").as_slice());
        let is_junit = text::eq_chars(name.as_slice(), text::chars_of("junit").as_slice());
        if is_tui && arg.is_none() {
            return Ok(ReporterSpec::Tui);
        }
        if is_plain && arg.is_none() {
            return Ok(ReporterSpec::Plain);
        }
        if is_github && arg.is_none() {
            return Ok(ReporterSpec::Github);
        }
        if is_web {
            return match arg {
                None => Ok(ReporterSpec::Web(None)),
                Some(a) => if a.len() > 0 {
                    Ok(ReporterSpec::Web(Some(text::string_from(a.as_slice()))))
                } else {
                    Err(text::owned("reporter 'web' address must be non-empty: web:ADDR"))
                },
            };
        }
        if is_list && arg.is_none() {
            return Ok(ReporterSpec::List);
        }
        if is_junit {
            return match arg {
                Some(p) => if p.len() > 0 {
                    Ok(ReporterSpec::Junit(text::string_from(p.as_slice())))
                } else {
                    Err(text::owned("reporter 'junit' requires a path: junit:PATH"))
                },
                None => Err(text::owned("reporter 'junit' requires a path: junit:PATH")),
            };
        }
        if is_tui || is_plain || is_github || is_list {
            let mut m = text::owned("reporter '");
            text::push_chars(&mut m, name.as_slice());
            text::push_str(&mut m, "' does not take an argument");
            return Err(m);
        }
        let mut m = text::owned("unknown target '");
        text::push_chars(&mut m, name.as_slice());
        text::push_str(&mut m, "' (expected: tui, plain, github, web[:ADDR], list, junit:PATH)");
        Err(m)
    }
}

impl std::str::FromStr for ReporterSpec {
    type Err = String;

    fn from_str(s: &str) -> Result<ReporterSpec, String> {
        ReporterSpec::parse(s)
    }
}


// ── Filter groups ───────────────────────────────────────────────────────────

/// The filter a run applies: tool restriction (empty: all tools) and the
/// include / exclude globs.
#[derive(Debug)]
pub struct ResolvedFilter {
    pub tools: Vec<String>,
    pub includes: Vec<String>,
    pub excludes: Vec<String>,
}

/// The group selected by `filter.group`: its name trimmed, unless empty.
pub open spec fn selected_group(group: Option<String>) -> Option<Seq<char>> {
    match group {
        Some(g) => if text::trim(g@).len() > 0 { Some(text::trim(g@)) } else { None },
        None => None,
    }
}

/// The index of the first group named `name`.
pub open spec fn group_index(groups: Seq<(String, FilterGroup)>, name: Seq<char>) -> Option<int> {
    if exists|k: int| 0 <= k < groups.len() && #[trigger] groups[k].0@ == name {
        Some(choose|k: int| 0 <= k < groups.len() && #[trigger] groups[k].0@ == name
            && forall|j: int| 0 <= j < k ==> groups[j].0@ != name)
    } else {
        None
    }
}

/// The names of the groups.
pub open spec fn group_names(groups: Seq<(String, FilterGroup)>) -> Seq<Seq<char>> {
    groups.map_values(|g: (String, FilterGroup)| g.0@)
}

/// The message for an unknown group: the known names in sorted order.
pub open spec fn unknown_group_message(name: Seq<char>, names: Seq<Seq<char>>) -> Seq<char> {
    let known = text::lex_sort(names);
    "unknown filter group '"@ + name + "'"@ + if known.len() == 0 {
        " (no [filter.groups.*] defined in .scrutin/config.toml)"@
    } else {
        " (known: "@ + text::join(known, ", "@) + ")"@
    }
}

/// The filter a run applies. A selected `filter.group` replaces the
/// top-level include / exclude lists and brings its tool restriction; an
/// unknown group is an error listing the known ones.
pub fn resolve_filter_args(cfg: &Config) -> (r: Result<ResolvedFilter, String>)
    requires
        cfg.wf(),
    ensures
        match selected_group(cfg.filter.group) {
            None => r matches Ok(f) && f.tools@.len() == 0 && f.includes@ == cfg.filter.includes@
                && f.excludes@ == cfg.filter.exclude@,
            Some(name) => match group_index(cfg.filter.groups@, name) {
                Some(k) => r matches Ok(f) && f.tools@ == cfg.filter.groups@[k].1.tools@
                    && f.includes@ == cfg.filter.groups@[k].1.includes@ && f.excludes@
                    == cfg.filter.groups@[k].1.exclude@,
                None => r matches Err(m) && m@ == unknown_group_message(
                    name,
                    group_names(cfg.filter.groups@),
                ),
            },
        },
{
    let name: Option<Vec<char>> = match &cfg.filter.group {
        Some(g) => {
            let gc = text::chars_of(g.as_str());
            let t = text::trim_chars(gc.as_slice());
            if t.len() > 0 {
                Some(t)
            } else {
                None
            }
        },
        None => None,
    };
    proof {
        if name is Some {
            assert(selected_group(cfg.filter.group) == Some(name->0@));
        } else {
            assert(selected_group(cfg.filter.group) is None);
        }
    }
    match name {
        None => Ok(
            ResolvedFilter {
                tools: Vec::new(),
                includes: crate::protocol::copy_strings(&cfg.filter.includes),
                excludes: crate::protocol::copy_strings(&cfg.filter.exclude),
            },
        ),
        Some(n) => {
            let groups = &cfg.filter.groups;
            let mut k: usize = 0;
            while k < groups.len()
                invariant
                    k <= groups@.len(),
                    groups@ == cfg.filter.groups@,
                    selected_group(cfg.filter.group) == Some(n@),
                    forall|j: int| 0 <= j < k ==> groups@[j].0@ != n@,
                decreases groups@.len() - k,
            {
                let kc = text::chars_of(groups[k].0.as_str());
                if text::eq_chars(kc.as_slice(), n.as_slice()) {
                    let g = &groups[k].1;
                    proof {
                        let sel = choose|q: int| 0 <= q < groups@.len() && #[trigger] groups@[q].0@
                            == n@ && forall|j: int| 0 <= j < q ==> groups@[j].0@ != n@;
                        assert(groups@[k as int].0@ == n@);
                        assert(sel == k) by {
                            if sel < k {
                            } else if sel > k {
                                assert(groups@[k as int].0@ != n@);
                            }
                        }
                    }
                    return Ok(
                        ResolvedFilter {
                            tools: crate::protocol::copy_strings(&g.tools),
                            includes: crate::protocol::copy_strings(&g.includes),
                            excludes: crate::protocol::copy_strings(&g.exclude),
                        },
                    );
                }
                k = k + 1;
            }
            let mut names: Vec<String> = Vec::new();
            let mut q: usize = 0;
            while q < groups.len()
                invariant
                    q <= groups@.len(),
                    str_views(names@) == group_names(groups@).subrange(0, q as int),
                decreases groups@.len() - q,
            {
                let s = groups[q].0.clone();
                proof {
                    assert(str_views(names@.push(s)) == str_views(names@).push(s@));
                    assert(group_names(groups@).subrange(0, q + 1) == group_names(groups@).subrange(
                        0,
                        q as int,
                    ).push(groups@[q as int].0@));
                }
                names.push(s);
                q = q + 1;
            }
            proof {
                assert(group_names(groups@).subrange(0, groups@.len() as int) == group_names(groups@));
            }
            let known = text::sort_strings(&names);
            let mut m = text::owned("unknown filter group '");
            text::push_chars(&mut m, n.as_slice());
            text::push_str(&mut m, "'");
            if known.len() == 0 {
                text::push_str(&mut m, " (no [filter.groups.*] defined in .scrutin/config.toml)");
            } else {
                text::push_str(&mut m, " (known: ");
                let joined = text::join_strings(&known, ", ");
                text::push_str(&mut m, joined.as_str());
                text::push_str(&mut m, ")");
            }
            Err(m)
        },
    }
}

// ── Shuffled order ──────────────────────────────────────────────────────────

/// The seed used when none (or zero) is given.
pub const FALLBACK_SEED: u64 = 0xdead_beef_cafe_babe;

/// One xorshift64 step (Marsaglia: shifts 13, 7, 17).
pub open spec fn xorshift(s: u64) -> u64 {
    let a = s ^ (s << 13u64);
    let b = a ^ (a >> 7u64);
    b ^ (b << 17u64)
}

/// `s` with the items at `i` and `j` exchanged.
pub open spec fn seq_swap<A>(s: Seq<A>, i: int, j: int) -> Seq<A> {
    s.update(i, s[j]).update(j, s[i])
}

/// Fisher-Yates from index `i` down to 1, each step drawing the next
/// xorshift state and swapping `i` with `state % (i + 1)`.
pub open spec fn shuffle_from<A>(s: Seq<A>, state: u64, i: int) -> Seq<A>
    decreases i,
{
    if i <= 0 {
        s
    } else {
        let st = xorshift(state);
        let j = (st % ((i + 1) as u64)) as int;
        shuffle_from(seq_swap(s, i, j), st, i - 1)
    }
}

/// The order a shuffle with `seed` gives (seed 0 stands for the fallback).
pub open spec fn shuffled<A>(s: Seq<A>, seed: u64) -> Seq<A> {
    shuffle_from(s, if seed == 0 { FALLBACK_SEED } else { seed }, s.len() - 1)
}

/// One xorshift64 step.
fn xorshift_step(s: u64) -> (r: u64)
    ensures
        r == xorshift(s),
{
    let a = s ^ (s << 13u64);
    let b = a ^ (a >> 7u64);
    b ^ (b << 17u64)
}

/// Shuffle `files` in place, reproducibly for a given seed: the same seed
/// always gives the same order, and the result is a permutation.
pub fn shuffle_files(files: &mut Vec<String>, seed: u64)
    ensures
        final(files)@ == shuffled(old(files)@, seed),
        final(files)@.to_multiset() == old(files)@.to_multiset(),
{
    let mut state: u64 = if seed == 0 { FALLBACK_SEED } else { seed };
    let n = files.len();
    if n == 0 {
        return;
    }
    let mut i: usize = n - 1;
    let ghost orig = files@;
    while i > 0
        invariant
            i < n == files@.len(),
            shuffled(orig, seed) == shuffle_from(files@, state, i as int),
            files@.to_multiset() == orig.to_multiset(),
        decreases i,
    {
        state = xorshift_step(state);
        let j = (state % ((i as u64) + 1)) as usize;
        let ghost before = files@;
        let a = files[i].clone();
        let b = files[j].clone();
        files.set(i, b);
        files.set(j, a);
        proof {
            assert(files@ =~= seq_swap(before, i as int, j as int));
            lemma_swap_multiset(before, i as int, j as int);
        }
        i = i - 1;
    }
}

proof fn lemma_swap_multiset<A>(s: Seq<A>, i: int, j: int)
    requires
        0 <= i < s.len(),
        0 <= j < s.len(),
    ensures
        seq_swap(s, i, j).to_multiset() == s.to_multiset(),
{
    broadcast use vstd::seq_lib::to_multiset_update;
    broadcast use vstd::multiset::group_multiset_axioms;

    let m = s.to_multiset();
    let s1 = s.update(i, s[j]);
    assert(s1.to_multiset() == m.insert(s[j]).remove(s[i]));
    assert(s1[j] == s[j]);
    let s2 = s1.update(j, s[i]);
    assert(s2.to_multiset() == s1.to_multiset().insert(s[i]).remove(s[j]));
    vstd::seq_lib::to_multiset_contains(s, s[i]);
    assert(s.contains(s[i]));
    assert(m.count(s[i]) > 0);
    assert(s2.to_multiset() =~= m);
    assert(seq_swap(s, i, j) == s2);
}

// ── GitHub annotations ──────────────────────────────────────────────────────

/// `%`, `\n` and `\r` percent-encoded, everything else as it is.
pub open spec fn gha_escaped(s: Seq<char>) -> Seq<char>
    decreases s.len(),
{
    if s.len() == 0 {
        Seq::empty()
    } else {
        let c = s[0];
        let e = if c == '%' {
            "%25"@
        } else if c == '\n' {
            "%0A"@
        } else if c == '\r' {
            "%0D"@
        } else {
            seq![c]
        };
        e + gha_escaped(s.drop_first())
    }
}

/// Escape a GitHub Actions workflow-command message.
pub fn escape(s: &str) -> (r: String)
    ensures
        r@ == gha_escaped(s@),
{
    let c = text::chars_of(s);
    let mut k: usize = 0;
    let mut out = String::new();
    assert(c@.subrange(0, c@.len() as int) == c@);
    assert(out@ + gha_escaped(s@) == gha_escaped(s@));
    while k < c.len()
        invariant
            k <= c@.len(),
            c@ == s@,
            out@ + gha_escaped(c@.subrange(k as int, c@.len() as int)) == gha_escaped(s@),
        decreases c@.len() - k,
    {
        let ch = c[k];
        let ghost rest = c@.subrange(k as int, c@.len() as int);
        proof {
            assert(rest[0] == ch);
            assert(rest.drop_first() == c@.subrange(k + 1, c@.len() as int));
            reveal_strlit("%25");
            reveal_strlit("%0A");
            reveal_strlit("%0D");
        }
        let ghost before = out@;
        if ch == '%' {
            text::push_str(&mut out, "%25");
        } else if ch == '\n' {
            text::push_str(&mut out, "%0A");
        } else if ch == '\r' {
            text::push_str(&mut out, "%0D");
        } else {
            text::push_char(&mut out, ch);
        }
        proof {
            assert(out@ + gha_escaped(rest.drop_first()) == before + gha_escaped(rest));
        }
        k = k + 1;
    }
    proof {
        assert(c@.subrange(c@.len() as int, c@.len() as int).len() == 0);
        assert(c@.subrange(0, c@.len() as int) == c@);
    }
    out
}


// ── Terminal styling ────────────────────────────────────────────────────────

/// `v` wrapped in the SGR `codes` and a reset when color is on, `v` alone
/// otherwise.
pub open spec fn styled_text(color: bool, codes: Seq<char>, v: Seq<char>) -> Seq<char> {
    if color { codes + v + "\x1b[0m"@ } else { v }
}

/// ANSI styling for the plain reporter. Color is on until disabled
/// (`[run] color = false`).
#[derive(Clone, Copy, Debug)]
pub struct Style {
    pub color: bool,
}

impl Style {
    /// Color on.
    pub fn new() -> (s: Style)
        ensures
            s.color,
    {
        Style { color: true }
    }

    /// Turn color off.
    pub fn disable_color(&mut self)
        ensures
            !final(self).color,
    {
        self.color = false;
    }

    /// `v` in the given SGR codes.
    pub fn styled(&self, codes: &str, v: &str) -> (r: String)
        ensures
            r@ == styled_text(self.color, codes@, v@),
    {
        if self.color {
            let mut s = text::owned(codes);
            text::push_str(&mut s, v);
            text::push_str(&mut s, "\x1b[0m");
            s
        } else {
            text::owned(v)
        }
    }

    pub fn dim(&self, v: &str) -> (r: String)
        ensures
            r@ == styled_text(self.color, "\x1b[2m"@, v@),
    {
        self.styled("\x1b[2m", v)
    }

    pub fn bold(&self, v: &str) -> (r: String)
        ensures
            r@ == styled_text(self.color, "\x1b[1m"@, v@),
    {
        self.styled("\x1b[1m", v)
    }

    pub fn red_bold(&self, v: &str) -> (r: String)
        ensures
            r@ == styled_text(self.color, "\x1b[31m\x1b[1m"@, v@),
    {
        self.styled("\x1b[31m\x1b[1m", v)
    }

    pub fn green_bold(&self, v: &str) -> (r: String)
        ensures
            r@ == styled_text(self.color, "\x1b[32m\x1b[1m"@, v@),
    {
        self.styled("\x1b[32m\x1b[1m", v)
    }

    pub fn yellow(&self, v: &str) -> (r: String)
        ensures
            r@ == styled_text(self.color, "\x1b[33m"@, v@),
    {
        self.styled("\x1b[33m", v)
    }

    pub fn yellow_bold(&self, v: &str) -> (r: String)
        ensures
            r@ == styled_text(self.color, "\x1b[33m\x1b[1m"@, v@),
    {
        self.styled("\x1b[33m\x1b[1m", v)
    }

    pub fn cyan(&self, v: &str) -> (r: String)
        ensures
            r@ == styled_text(self.color, "\x1b[36m"@, v@),
    {
        self.styled("\x1b[36m", v)
    }

    pub fn cyan_bold(&self, v: &str) -> (r: String)
        ensures
            r@ == styled_text(self.color, "\x1b[36m\x1b[1m"@, v@),
    {
        self.styled("\x1b[36m\x1b[1m", v)
    }
}


// ── Resolving the reporter ──────────────────────────────────────────────────

/// The reporter after the defaults are applied. The web address is still
/// text: turning it into a socket address is the caller's part.
#[derive(Clone, Debug, PartialEq, Eq)]
pub enum Reporter {
    Tui,
    Plain,
    Github,
    Web { addr: String },
    List,
    Junit(String),
}

impl Reporter {
    /// Is this the plain reporter?
    pub fn is_plain(&self) -> (r: bool)
        ensures
            r == (*self is Plain),
    {
        match self {
            Reporter::Plain => true,
            _ => false,
        }
    }
}

/// `r` is the reporter `spec` selects: with no spec, the TUI on a
/// terminal and plain text otherwise; a web reporter without an address
/// listens on `127.0.0.1:7878`.
pub open spec fn selects(spec: Option<ReporterSpec>, stderr_is_tty: bool, r: Reporter) -> bool {
    match spec {
        None => r == if stderr_is_tty { Reporter::Tui } else { Reporter::Plain },
        Some(ReporterSpec::Tui) => r is Tui,
        Some(ReporterSpec::Plain) => r is Plain,
        Some(ReporterSpec::Github) => r is Github,
        Some(ReporterSpec::List) => r is List,
        Some(ReporterSpec::Junit(p)) => r matches Reporter::Junit(q) && q@ == p@,
        Some(ReporterSpec::Web(a)) => r matches Reporter::Web { addr } && addr@ == web_addr(a),
    }
}

/// The address text of a resolved web reporter.
pub open spec fn web_addr(spec: Option<String>) -> Seq<char> {
    match spec {
        Some(x) => x@,
        None => "127.0.0.1:7878"@,
    }
}

/// Resolve the user-supplied reporter, or pick the default (see
/// [`selects`]); `stderr_is_tty` says whether stderr is a
/// terminal.
pub fn resolve_reporter(spec: Option<&ReporterSpec>, stderr_is_tty: bool) -> (r: Reporter)
    ensures
        selects(
            match spec {
                Some(s) => Some(*s),
                None => None,
            },
            stderr_is_tty,
            r,
        ),
{
    match spec {
        None => if stderr_is_tty {
            Reporter::Tui
        } else {
            Reporter::Plain
        },
        Some(ReporterSpec::Tui) => Reporter::Tui,
        Some(ReporterSpec::Plain) => Reporter::Plain,
        Some(ReporterSpec::Github) => Reporter::Github,
        Some(ReporterSpec::List) => Reporter::List,
        Some(ReporterSpec::Junit(p)) => Reporter::Junit(p.clone()),
        Some(ReporterSpec::Web(a)) => Reporter::Web {
            addr: match a {
                Some(x) => x.clone(),
                None => text::owned("127.0.0.1:7878"),
            },
        },
    }
}


// ── `init` template ─────────────────────────────────────────────────────────

/// `s` followed by `n` spaces.
pub open spec fn with_spaces(s: Seq<char>, n: nat) -> Seq<char> {
    s + Seq::new(n, |_i: int| ' ')
}

/// The UTF-8 length of a key, as `str::len` reports it.
pub open spec fn key_bytes(k: Seq<char>) -> nat {
    (vstd::utf8::encode_utf8(k).len() as usize) as nat
}

/// The largest UTF-8 length among the keys (0 for none).
pub open spec fn max_key_bytes(entries: Seq<(String, String)>) -> nat
    decreases entries.len(),
{
    if entries.len() == 0 {
        0
    } else {
        let m = max_key_bytes(entries.drop_last());
        let b = key_bytes(entries.last().0@);
        if b > m {
            b
        } else {
            m
        }
    }
}

/// One commented default binding: `# "key"` padded on the right to the
/// longest key's length plus two, then ` = "action"`.
pub open spec fn binding_line(key: Seq<char>, action: Seq<char>, max_bytes: nat) -> Seq<char> {
    let quoted = "\""@ + key + "\""@;
    let pad: nat = if max_bytes + 2 > quoted.len() {
        (max_bytes + 2 - quoted.len()) as nat
    } else {
        0
    };
    "# "@ + with_spaces(quoted, pad) + " = \""@ + action + "\"\n"@
}

/// The binding lines of a mode's entries.
pub open spec fn binding_lines(entries: Seq<(String, String)>, max_bytes: nat) -> Seq<char>
    decreases entries.len(),
{
    if entries.len() == 0 {
        Seq::empty()
    } else {
        binding_lines(entries.drop_last(), max_bytes) + binding_line(
            entries.last().0@,
            entries.last().1@,
            max_bytes,
        )
    }
}

/// A mode's commented `[keymap.<mode>]` block.
pub open spec fn mode_block(mode: Seq<char>, entries: Seq<(String, String)>) -> Seq<char> {
    "\n# [keymap."@ + mode + "]\n"@ + binding_lines(entries, max_key_bytes(entries))
}

/// The blocks of every mode, in order.
pub open spec fn mode_blocks(modes: Seq<(String, Vec<(String, String)>)>) -> Seq<char>
    decreases modes.len(),
{
    if modes.len() == 0 {
        Seq::empty()
    } else {
        mode_blocks(modes.drop_last()) + mode_block(modes.last().0@, modes.last().1@)
    }
}

/// The annotated config file: the template with `{{DETECTED}}` replaced,
/// then one commented block of default bindings per mode.
pub open spec fn config_template_of(
    template: Seq<char>,
    detected: Seq<char>,
    modes: Seq<(String, Vec<(String, String)>)>,
) -> Seq<char> {
    crate::agent::replace_all(template, "{{DETECTED}}"@, detected) + mode_blocks(modes)
}

fn push_binding_lines(out: &mut String, entries: &Vec<(String, String)>)
    ensures
        final(out)@ == old(out)@ + binding_lines(entries@, max_key_bytes(entries@)),
{
    let mut m: usize = 0;
    let mut i: usize = 0;
    while i < entries.len()
        invariant
            i <= entries@.len(),
            m == max_key_bytes(entries@.subrange(0, i as int)),
        decreases entries@.len() - i,
    {
        let b = entries[i].0.as_str().len();
        proof {
            assert(b == key_bytes(entries@[i as int].0@));
            let u = entries@.subrange(0, i + 1);
            assert(u.drop_last() =~= entries@.subrange(0, i as int));
            assert(u.last() == entries@[i as int]);
        }
        if b > m {
            m = b;
        }
        i = i + 1;
    }
    proof {
        assert(entries@.subrange(0, entries@.len() as int) =~= entries@);
    }
    let ghost start = out@;
    let mut j: usize = 0;
    while j < entries.len()
        invariant
            j <= entries@.len(),
            m == max_key_bytes(entries@),
            out@ == start + binding_lines(entries@.subrange(0, j as int), m as nat),
        decreases entries@.len() - j,
    {
        let key = entries[j].0.as_str();
        let kc = text::chars_of(key);
        let ghost before = out@;
        text::push_str(out, "# \"");
        text::push_str(out, key);
        text::push_str(out, "\"");
        let pad: usize = if m >= kc.len() { m - kc.len() } else { 0 };
        let mut p: usize = 0;
        while p < pad
            invariant
                p <= pad,
                out@ == before + "# \""@ + key@ + "\""@ + Seq::new(p as nat, |_i: int| ' '),
            decreases pad - p,
        {
            text::push_char(out, ' ');
            p = p + 1;
            proof {
                assert(Seq::new(p as nat, |_i: int| ' ') =~= Seq::new((p - 1) as nat, |_i: int| ' ').push(' '));
            }
        }
        text::push_str(out, " = \"");
        text::push_str(out, entries[j].1.as_str());
        text::push_str(out, "\"\n");
        proof {
            reveal_strlit("\"");
            reveal_strlit("# \"");
            reveal_strlit("# ");
            reveal_strlit(" = \"");
            reveal_strlit("\"\n");
            let quoted = "\""@ + key@ + "\""@;
            assert(quoted.len() == key@.len() + 2);
            assert(kc@.len() == key@.len());
            let spad: nat = if m + 2 > quoted.len() {
                (m + 2 - quoted.len()) as nat
            } else {
                0
            };
            assert(spad == pad);
            assert(out@ =~= before + "# "@ + with_spaces(quoted, spad) + " = \""@ + entries@[j as int].1@ + "\"\n"@);
            assert(out@ =~= before + binding_line(key@, entries@[j as int].1@, m as nat));
            let u = entries@.subrange(0, j + 1);
            assert(u.drop_last() =~= entries@.subrange(0, j as int));
            assert(u.last() == entries@[j as int]);
        }
        j = j + 1;
    }
    proof {
        assert(entries@.subrange(0, entries@.len() as int) =~= entries@);
    }
}

/// Render the annotated `.scrutin/config.toml` (see
/// [`config_template_of`]) from the template text, the detected tool
/// names and each mode's default bindings.
pub fn render_config_template(
    template: &str,
    detected: &str,
    modes: &Vec<(String, Vec<(String, String)>)>,
) -> (r: String)
    ensures
        r@ == config_template_of(template@, detected@, modes@),
{
    let mut content = crate::agent::replace_str(template, "{{DETECTED}}", detected);
    let ghost base = content@;
    let mut i: usize = 0;
    while i < modes.len()
        invariant
            i <= modes@.len(),
            content@ == base + mode_blocks(modes@.subrange(0, i as int)),
        decreases modes@.len() - i,
    {
        let ghost before = content@;
        text::push_str(&mut content, "\n# [keymap.");
        text::push_str(&mut content, modes[i].0.as_str());
        text::push_str(&mut content, "]\n");
        push_binding_lines(&mut content, &modes[i].1);
        proof {
            assert(content@ =~= before + mode_block(modes@[i as int].0@, modes@[i as int].1@));
            let u = modes@.subrange(0, i + 1);
            assert(u.drop_last() =~= modes@.subrange(0, i as int));
            assert(u.last() == modes@[i as int]);
        }
        i = i + 1;
    }
    proof {
        assert(modes@.subrange(0, modes@.len() as int) =~= modes@);
    }
    content
}


// ── Planning a run ──────────────────────────────────────────────────────────

/// What a positional path names on disk.
#[derive(Clone, Copy, Debug, PartialEq, Eq, Structural)]
pub enum PathKind {
    File,
    Dir,
    Other,
}

/// The mode the positional paths ask for: `Ok(true)` for file-mode (every
/// path a file), `Ok(false)` for one project directory, and the error for
/// anything else.
pub open spec fn path_mode(kinds: Seq<PathKind>) -> Result<bool, Seq<char>> {
    let all_files = forall|i: int| 0 <= i < kinds.len() ==> kinds[i] == PathKind::File;
    let one_dir = kinds.len() == 1 && kinds[0] == PathKind::Dir;
    if !all_files && !one_dir {
        Err(
            "mix of files and directories in positional args; pass either one directory or one-or-more files"@,
        )
    } else {
        Ok(all_files)
    }
}

/// Classify the positional paths (see [`path_mode`]).
pub fn classify_paths(kinds: &[PathKind]) -> (r: Result<bool, String>)
    ensures
        match r {
            Ok(b) => path_mode(kinds@) == Ok::<bool, Seq<char>>(b),
            Err(m) => path_mode(kinds@) == Err::<bool, Seq<char>>(m@),
        },
{
    let mut all_files = true;
    let mut i: usize = 0;
    while i < kinds.len()
        invariant
            i <= kinds@.len(),
            all_files == forall|j: int| 0 <= j < i ==> kinds@[j] == PathKind::File,
        decreases kinds@.len() - i,
    {
        if kinds[i] != PathKind::File {
            all_files = false;
        }
        i = i + 1;
    }
    let one_dir = kinds.len() == 1 && kinds[0] == PathKind::Dir;
    if !all_files && !one_dir {
        return Err(
            text::owned(
                "mix of files and directories in positional args; pass either one directory or one-or-more files",
            ),
        );
    }
    Ok(all_files)
}

/// The `--set` overrides with `--tool` folded in as `run.tool=<name>`.
pub fn overrides_with_tool(set: &Vec<String>, tool: Option<&str>) -> (r: Vec<String>)
    ensures
        str_views(r@) == match tool {
            Some(t) => str_views(set@).push("run.tool="@ + t@),
            None => str_views(set@),
        },
{
    let mut v = crate::protocol::copy_strings(set);
    match tool {
        Some(t) => {
            let mut e = text::owned("run.tool=");
            text::push_str(&mut e, t);
            let ghost before = str_views(v@);
            v.push(e);
            proof {
                assert(str_views(v@) =~= before.push("run.tool="@ + t@));
            }
        },
        None => {},
    }
    v
}

/// The reporter of a run: at most one may be named; file-mode defaults to
/// plain text; otherwise see [`selects`].
pub fn choose_reporter(specs: &[ReporterSpec], file_mode: bool, stderr_is_tty: bool) -> (r: Result<Reporter, String>)
    ensures
        specs@.len() > 1 ==> (r matches Err(m) && m@ == "only one --reporter (-r) is allowed"@),
        specs@.len() == 0 && file_mode ==> (r matches Ok(rep) && rep is Plain),
        specs@.len() == 0 && !file_mode ==> (r matches Ok(rep) && selects(None, stderr_is_tty, rep)),
        specs@.len() == 1 ==> (r matches Ok(rep) && selects(Some(specs@[0]), stderr_is_tty, rep)),
{
    if specs.len() > 1 {
        return Err(text::owned("only one --reporter (-r) is allowed"));
    }
    if specs.len() == 0 {
        if file_mode {
            return Ok(Reporter::Plain);
        }
        return Ok(resolve_reporter(None, stderr_is_tty));
    }
    Ok(resolve_reporter(Some(&specs[0]), stderr_is_tty))
}

/// The `[[suite]]` entries a run uses, as indices: none declared means
/// auto-detection (no entries); with `run.tool = "auto"` every entry;
/// otherwise the entries of that tool, of which there must be one.
pub open spec fn suite_selection(tools: Seq<Seq<char>>, run_tool: Seq<char>) -> Result<Seq<int>, Seq<char>> {
    if tools.len() == 0 {
        Ok(Seq::empty())
    } else if run_tool == "auto"@ {
        Ok(Seq::new(tools.len(), |i: int| i))
    } else {
        let picked = Seq::new(tools.len(), |i: int| i).filter(|i: int| tools[i] == run_tool);
        if picked.len() == 0 {
            Err("No [[suite]] entries match --set run.tool="@ + crate::config::debug_quoted(run_tool))
        } else {
            Ok(picked)
        }
    }
}

/// The tools of the declared suites.
pub open spec fn suite_tools(suites: Seq<crate::config::SuiteConfig>) -> Seq<Seq<char>> {
    suites.map_values(|s: crate::config::SuiteConfig| s.tool@)
}

/// Select the `[[suite]]` entries of a run (see [`suite_selection`]).
pub fn select_suites(suites: &Vec<crate::config::SuiteConfig>, run_tool: &str) -> (r: Result<Vec<usize>, String>)
    ensures
        match r {
            Ok(v) => suite_selection(suite_tools(suites@), run_tool@) == Ok::<Seq<int>, Seq<char>>(
                v@.map_values(|i: usize| i as int),
            ),
            Err(m) => suite_selection(suite_tools(suites@), run_tool@) == Err::<Seq<int>, Seq<char>>(m@),
        },
{
    let ghost tv = suite_tools(suites@);
    let ghost idx = Seq::new(tv.len(), |i: int| i);
    proof {
        reveal_strlit("auto");
    }
    if suites.len() == 0 {
        let v: Vec<usize> = Vec::new();
        proof {
            assert(v@.map_values(|i: usize| i as int) =~= Seq::<int>::empty());
        }
        return Ok(v);
    }
    let auto = text::str_eq(run_tool, "auto");
    let mut picked: Vec<usize> = Vec::new();
    let mut i: usize = 0;
    while i < suites.len()
        invariant
            i <= suites@.len(),
            tv == suite_tools(suites@),
            idx == Seq::new(tv.len(), |i: int| i),
            auto == (run_tool@ == "auto"@),
            auto ==> picked@.map_values(|x: usize| x as int) == idx.subrange(0, i as int),
            !auto ==> picked@.map_values(|x: usize| x as int) == idx.subrange(0, i as int).filter(
                |k: int| tv[k] == run_tool@,
            ),
        decreases suites@.len() - i,
    {
        let ghost before = picked@.map_values(|x: usize| x as int);
        proof {
            let u = idx.subrange(0, i + 1);
            assert(u.drop_last() =~= idx.subrange(0, i as int));
            assert(u.last() == i as int);
            reveal_with_fuel(Seq::filter, 1);
            assert(tv[i as int] == suites@[i as int].tool@);
        }
        if auto || text::str_eq(suites[i].tool.as_str(), run_tool) {
            picked.push(i);
            proof {
                assert(picked@.map_values(|x: usize| x as int) =~= before.push(i as int));
            }
        }
        i = i + 1;
    }
    proof {
        assert(idx.subrange(0, tv.len() as int) =~= idx);
    }
    if !auto && picked.len() == 0 {
        let mut m = text::owned("No [[suite]] entries match --set run.tool=");
        let q = crate::config::debug_quote(run_tool);
        text::push_str(&mut m, q.as_str());
        return Err(m);
    }
    Ok(picked)
}

/// Whether a run keeps watching: the interactive reporters (TUI, web)
/// follow the configuration; the others run once.
pub open spec fn watches(r: Reporter, configured: bool) -> bool {
    match r {
        Reporter::Tui | Reporter::Web { .. } => configured,
        _ => false,
    }
}

/// Whether a run keeps watching (see [`watches`]).
pub fn watch_enabled(r: &Reporter, configured: bool) -> (b: bool)
    ensures
        b == watches(*r, configured),
{
    match r {
        Reporter::Tui | Reporter::Web { .. } => configured,
        _ => false,
    }
}

/// A run over the whole suite: no tool, include or exclude filter.
pub fn is_full_suite(f: &ResolvedFilter) -> (r: bool)
    ensures
        r == (f.tools@.len() == 0 && f.includes@.len() == 0 && f.excludes@.len() == 0),
{
    f.tools.len() == 0 && f.includes.len() == 0 && f.excludes.len() == 0
}

/// Whether the run's files are shuffled, and with which seed: when
/// shuffling is on or a seed is set; the seed is the configured one, else
/// the fresh one drawn by the caller.
pub fn shuffle_seed(shuffle: bool, seed: Option<u64>, fresh: u64) -> (r: Option<u64>)
    ensures
        r == (if shuffle || seed is Some {
            Some(
                match seed {
                    Some(s) => s,
                    None => fresh,
                },
            )
        } else {
            None
        }),
{
    if shuffle || seed.is_some() {
        Some(
            match seed {
                Some(s) => s,
                None => fresh,
            },
        )
    } else {
        None
    }
}

/// The `list` reporter's output: a count line, then each file indented.
pub open spec fn list_lines_of(rel_paths: Seq<Seq<char>>) -> Seq<Seq<char>> {
    seq![dec(rel_paths.len()) + " test file"@ + (if rel_paths.len() == 1 { ""@ } else { "s"@ }) + " would run"@]
        + rel_paths.map_values(|p: Seq<char>| "  "@ + p)
}

/// The `list` reporter's output (see [`list_lines_of`]).
pub fn list_lines(rel_paths: &Vec<String>) -> (r: Vec<String>)
    ensures
        str_views(r@) == list_lines_of(str_views(rel_paths@)),
{
    let mut out: Vec<String> = Vec::new();
    let mut head = text::dec_string(rel_paths.len() as u64);
    text::push_str(&mut head, " test file");
    if rel_paths.len() != 1 {
        text::push_str(&mut head, "s");
    }
    text::push_str(&mut head, " would run");
    proof {
        reveal_strlit("");
        assert(head@ =~= dec(rel_paths@.len()) + " test file"@ + (if rel_paths@.len() == 1 {
            ""@
        } else {
            "s"@
        }) + " would run"@);
    }
    out.push(head);
    let ghost pv = str_views(rel_paths@);
    let mut i: usize = 0;
    while i < rel_paths.len()
        invariant
            i <= rel_paths@.len(),
            pv == str_views(rel_paths@),
            str_views(out@) == seq![dec(pv.len()) + " test file"@ + (if pv.len() == 1 {
                ""@
            } else {
                "s"@
            }) + " would run"@] + pv.subrange(0, i as int).map_values(|p: Seq<char>| "  "@ + p),
        decreases rel_paths@.len() - i,
    {
        let mut line = text::owned("  ");
        text::push_str(&mut line, rel_paths[i].as_str());
        let ghost before = str_views(out@);
        out.push(line);
        proof {
            assert(str_views(out@) =~= before.push("  "@ + pv[i as int]));
            assert(pv.subrange(0, i + 1).map_values(|p: Seq<char>| "  "@ + p) =~= pv.subrange(0, i as int).map_values(
                |p: Seq<char>| "  "@ + p,
            ).push("  "@ + pv[i as int]));
        }
        i = i + 1;
    }
    proof {
        assert(pv.subrange(0, pv.len() as int) =~= pv);
    }
    out
}

/// The files a tool filter keeps: those whose owning suite runs one of
/// the named tools (all files when no tool is named).
pub open spec fn tool_kept(routes: Seq<crate::package::SuiteRoute>, tools: Seq<Seq<char>>, f: Seq<char>) -> bool {
    tools.len() == 0 || match crate::package::first_owner(routes, f) {
        Some(i) => tools.contains(routes[i].plugin.name_of()),
        None => false,
    }
}

/// Keep the files whose owning suite runs one of `tools` (see
/// [`tool_kept`]).
pub fn filter_by_tools(routes: &[crate::package::SuiteRoute], files: &Vec<String>, tools: &Vec<String>) -> (r: Vec<String>)
    ensures
        str_views(r@) == str_views(files@).filter(|f: Seq<char>| tool_kept(routes@, str_views(tools@), f)),
{
    let ghost fv = str_views(files@);
    let ghost tv = str_views(tools@);
    let mut out: Vec<String> = Vec::new();
    let mut i: usize = 0;
    while i < files.len()
        invariant
            i <= files@.len(),
            fv == str_views(files@),
            tv == str_views(tools@),
            str_views(out@) == fv.subrange(0, i as int).filter(|f: Seq<char>| tool_kept(routes@, tv, f)),
        decreases files@.len() - i,
    {
        let keep = if tools.len() == 0 {
            true
        } else {
            match crate::package::suite_for(routes, files[i].as_str()) {
                Some(k) => {
                    let name = routes[k].plugin.name();
                    let mut hit = false;
                    let mut j: usize = 0;
                    while j < tools.len()
                        invariant
                            j <= tools@.len(),
                            tv == str_views(tools@),
                            hit == exists|q: int| 0 <= q < j && tv[q] == name@,
                        decreases tools@.len() - j,
                    {
                        if text::str_eq(tools[j].as_str(), name) {
                            hit = true;
                        }
                        proof {
                            if hit && !(exists|q: int| 0 <= q < j && tv[q] == name@) {
                                assert(tv[j as int] == name@);
                            }
                        }
                        j = j + 1;
                    }
                    proof {
                        if tv.contains(name@) {
                            let q = choose|q: int| 0 <= q < tv.len() && tv[q] == name@;
                            assert(tv[q] == name@);
                        }
                        if hit {
                            let q = choose|q: int| 0 <= q < tools@.len() && tv[q] == name@;
                            assert(tv.contains(name@));
                        }
                    }
                    hit
                },
                None => false,
            }
        };
        let ghost before = str_views(out@);
        proof {
            let u = fv.subrange(0, i + 1);
            assert(u.drop_last() =~= fv.subrange(0, i as int));
            assert(u.last() == fv[i as int]);
            reveal_with_fuel(Seq::filter, 1);
            assert(keep == tool_kept(routes@, tv, fv[i as int]));
        }
        if keep {
            out.push(files[i].clone());
            proof {
                assert(str_views(out@) =~= before.push(fv[i as int]));
            }
        }
        i = i + 1;
    }
    proof {
        assert(fv.subrange(0, fv.len() as int) =~= fv);
    }
    out
}

} // verus!
