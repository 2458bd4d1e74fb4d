//! The R side shared by every R plugin: DESCRIPTION fields, test and
//! source file predicates, noise filtering, the worker command and its
//! environment, and the data-driven plugins (testthat, tinytest,
//! pointblank, validate).
use vstd::prelude::*;

use crate::paths;
use crate::plugins::slice_views;
use crate::protocol::Outcome;
use crate::text;
use crate::text::{has_prefix, lines_of, str_views, trim};

verus! {

// ── DESCRIPTION ─────────────────────────────────────────────────────────────

/// The trimmed rest of the first line of `lines` that starts with `key`.
pub open spec fn first_field(lines: Seq<Seq<char>>, key: Seq<char>) -> Option<Seq<char>>
    decreases lines.len(),
{
    if lines.len() == 0 {
        None
    } else if has_prefix(lines[0], key) {
        Some(trim(lines[0].subrange(key.len() as int, lines[0].len() as int)))
    } else {
        first_field(lines.drop_first(), key)
    }
}

/// The trimmed rest of the first line of `lines` that starts with `key`
/// and has something after it.
pub open spec fn first_nonempty_field(lines: Seq<Seq<char>>, key: Seq<char>) -> Option<Seq<char>>
    decreases lines.len(),
{
    if lines.len() == 0 {
        None
    } else if has_prefix(lines[0], key) && trim(lines[0].subrange(key.len() as int, lines[0].len() as int)).len()
        > 0 {
        Some(trim(lines[0].subrange(key.len() as int, lines[0].len() as int)))
    } else {
        first_nonempty_field(lines.drop_first(), key)
    }
}

/// A directory's name, or `<unknown>` when it has none.
pub open spec fn dir_or_unknown(dir_name: Option<Seq<char>>) -> Seq<char> {
    match dir_name {
        Some(d) => d,
        None => "<unknown>"@,
    }
}

/// The package name: the DESCRIPTION's `Package:` field when the file
/// was read and has one, else the directory name.
pub open spec fn package_name_of(description: Option<Seq<char>>, dir_name: Option<Seq<char>>) -> Seq<char> {
    match description {
        Some(c) => match first_field(lines_of(c), "Package:"@) {
            Some(n) => n,
            None => dir_or_unknown(dir_name),
        },
        None => dir_or_unknown(dir_name),
    }
}

fn field_from(lines: &Vec<Vec<char>>, key: &str, nonempty: bool) -> (r: Option<String>)
    ensures
        r matches Some(s) ==> Some(s@) == (if nonempty {
            first_nonempty_field(text::char_views(lines@), key@)
        } else {
            first_field(text::char_views(lines@), key@)
        }),
        r is None ==> (if nonempty {
            first_nonempty_field(text::char_views(lines@), key@)
        } else {
            first_field(text::char_views(lines@), key@)
        }) is None,
{
    let k = text::chars_of(key);
    let ghost lv = text::char_views(lines@);
    assert(lv.subrange(0, lv.len() as int) =~= lv);
    let mut i: usize = 0;
    while i < lines.len()
        invariant
            i <= lines@.len(),
            k@ == key@,
            lv == text::char_views(lines@),
            !nonempty ==> first_field(lv, key@) == first_field(lv.subrange(i as int, lv.len() as int), key@),
            nonempty ==> first_nonempty_field(lv, key@) == first_nonempty_field(
                lv.subrange(i as int, lv.len() as int),
                key@,
            ),
        decreases lines@.len() - i,
    {
        let line = &lines[i];
        let ghost rest = lv.subrange(i as int, lv.len() as int);
        proof {
            assert(rest[0] == line@);
            assert(rest.drop_first() =~= lv.subrange(i + 1, lv.len() as int));
        }
        if text::starts_with(line.as_slice(), k.as_slice()) {
            let tail = text::slice_of(line.as_slice(), k.len(), line.len());
            let t = text::trim_chars(tail.as_slice());
            if !nonempty || t.len() > 0 {
                return Some(text::string_from(t.as_slice()));
            }
        }
        i = i + 1;
    }
    proof {
        assert(lv.subrange(lv.len() as int, lv.len() as int).len() == 0);
    }
    None
}

/// The package name (see [`package_name_of`]), from the DESCRIPTION's
/// contents (`None` when it could not be read) and the package
/// directory's name.
pub fn parse_r_package_name(description: Option<&str>, dir_name: Option<&str>) -> (r: String)
    ensures
        r@ == package_name_of(
            match description {
                Some(d) => Some(d@),
                None => None,
            },
            match dir_name {
                Some(d) => Some(d@),
                None => None,
            },
        ),
{
    match description {
        Some(c) => {
            let cs = text::chars_of(c);
            let lines = text::lines_chars(cs.as_slice());
            match field_from(&lines, "Package:", false) {
                Some(n) => {
                    return n;
                },
                None => {},
            }
        },
        None => {},
    }
    proof {
        reveal_strlit("<unknown>");
    }
    match dir_name {
        Some(d) => text::owned(d),
        None => text::owned("<unknown>"),
    }
}

/// The first non-empty `Version:` field of a DESCRIPTION's contents.
pub fn parse_r_package_version(description: &str) -> (r: Option<String>)
    ensures
        match r {
            Some(v) => first_nonempty_field(lines_of(description@), "Version:"@) == Some(v@),
            None => first_nonempty_field(lines_of(description@), "Version:"@) is None,
        },
{
    let cs = text::chars_of(description);
    let lines = text::lines_chars(cs.as_slice());
    field_from(&lines, "Version:", true)
}

// ── Files ───────────────────────────────────────────────────────────────────

/// An R test file name: `test-` or `test_` prefix, `.R` or `.r` ending.
pub open spec fn r_test_name(name: Seq<char>) -> bool {
    (text::has_suffix(name, ".R"@) || text::has_suffix(name, ".r"@)) && (has_prefix(name, "test-"@)
        || has_prefix(name, "test_"@))
}

/// Is `name` an R test file name (see [`r_test_name`])?
pub fn is_r_test_filename(name: &str) -> (r: bool)
    ensures
        r == r_test_name(name@),
{
    let c = text::chars_of(name);
    let upper = text::chars_of(".R");
    let lower = text::chars_of(".r");
    let dash = text::chars_of("test-");
    let under = text::chars_of("test_");
    let ext = text::ends_with(c.as_slice(), upper.as_slice()) || text::ends_with(c.as_slice(), lower.as_slice());
    ext && (text::starts_with(c.as_slice(), dash.as_slice()) || text::starts_with(c.as_slice(), under.as_slice()))
}

/// Does `path` name an R test file?
pub fn is_r_test_path(path: &str) -> (r: bool)
    ensures
        r == (paths::file_name(path@) matches Some(n) && r_test_name(n)),
{
    match paths::file_name_of(path) {
        Some(n) => is_r_test_filename(n.as_str()),
        None => false,
    }
}

/// Does `path` name an R source file (`.R`, any case)?
pub fn is_r_source_path(path: &str) -> (r: bool)
    ensures
        r == paths::has_extension_spec(path@, slice_views(["r"]@)),
{
    paths::has_extension(path, &["r"])
}

/// R startup chatter: S4 generic masking notices and their follow-ups.
pub open spec fn noise_prefixes() -> Seq<Seq<char>> {
    seq![
        "Creating a generic function"@,
        "Creating a new generic function"@,
        "in method for"@,
        "Found more than one class"@,
    ]
}

/// A line is noise when, past its leading whitespace, it starts with one
/// of [`noise_prefixes`].
pub open spec fn is_noise(line: Seq<char>) -> bool {
    exists|i: int| 0 <= i < noise_prefixes().len() && has_prefix(text::trim_start(line), #[trigger] noise_prefixes()[i])
}

/// Is `line` R startup noise (see [`is_noise`])?
pub fn r_is_noise_line(line: &str) -> (r: bool)
    ensures
        r == is_noise(line@),
{
    let c = text::chars_of(line);
    let k = text::trim_start_len(c.as_slice());
    let t = text::slice_of(c.as_slice(), k, c.len());
    let prefixes = ["Creating a generic function", "Creating a new generic function", "in method for", "Found more than one class"];
    proof {
        assert(slice_views(prefixes@) =~= noise_prefixes());
        assert(t@ == text::trim_start(line@));
    }
    let mut i: usize = 0;
    while i < 4
        invariant
            i <= 4,
            slice_views(prefixes@) == noise_prefixes(),
            t@ == text::trim_start(line@),
            forall|j: int| 0 <= j < i ==> !has_prefix(t@, #[trigger] noise_prefixes()[j]),
        decreases 4 - i,
    {
        let p = text::chars_of(prefixes[i]);
        if text::starts_with(t.as_slice(), p.as_slice()) {
            proof {
                assert(has_prefix(text::trim_start(line@), noise_prefixes()[i as int]));
            }
            return true;
        }
        i = i + 1;
    }
    false
}

// ── Worker command and environment ──────────────────────────────────────────

/// The environment an R worker gets: the tool's name and the package
/// directory.
pub fn r_env_vars(tool: &str, root: &str) -> (r: Vec<(String, String)>)
    ensures
        r@.len() == 2,
        r@[0].0@ == "SCRUTIN_TOOL"@,
        r@[0].1@ == tool@,
        r@[1].0@ == "SCRUTIN_PKG_DIR"@,
        r@[1].1@ == root@,
{
    let mut v: Vec<(String, String)> = Vec::new();
    v.push((text::owned("SCRUTIN_TOOL"), text::owned(tool)));
    v.push((text::owned("SCRUTIN_PKG_DIR"), text::owned(root)));
    v
}

/// `Rscript --vanilla <runner>`.
pub fn r_subprocess_cmd(runner_path: &str) -> (r: Vec<String>)
    ensures
        str_views(r@) == seq!["Rscript"@, "--vanilla"@, runner_path@],
{
    let mut v: Vec<String> = Vec::new();
    v.push(text::owned("Rscript"));
    v.push(text::owned("--vanilla"));
    v.push(text::owned(runner_path));
    proof {
        assert(str_views(v@) =~= seq!["Rscript"@, "--vanilla"@, runner_path@]);
    }
    v
}

// ── Data-driven plugins ─────────────────────────────────────────────────────

/// An R test or validation tool that differs from the others only in its
/// directories, outcomes and subject label.
#[derive(Debug, Clone, Copy)]
pub struct RPlugin {
    pub name: &'static str,
    /// Directory whose existence (beside DESCRIPTION) marks the tool.
    pub detect_dir: &'static str,
    pub test_dir: &'static str,
    pub supported_outcomes: &'static [Outcome],
    pub subject_label: &'static str,
}

/// The outcomes of a testing tool.
pub open spec fn test_outcomes() -> Seq<Outcome> {
    seq![Outcome::Pass, Outcome::Fail, Outcome::Error, Outcome::Skip]
}

/// The outcomes of a validation tool.
pub open spec fn validation_outcomes() -> Seq<Outcome> {
    seq![Outcome::Pass, Outcome::Fail, Outcome::Error, Outcome::Warn]
}

/// The four data-driven plugins, in registry order around jarl's place:
/// tinytest, testthat, pointblank, validate.
pub open spec fn r_plugin_table() -> Seq<(Seq<char>, Seq<char>, Seq<char>, Seq<Outcome>, Seq<char>)> {
    seq![
        ("tinytest"@, "inst/tinytest"@, "inst/tinytest"@, test_outcomes(), "test"@),
        ("testthat"@, "tests/testthat"@, "tests/testthat"@, test_outcomes(), "test"@),
        ("pointblank"@, "tests/pointblank"@, "tests/pointblank"@, validation_outcomes(), "step"@),
        ("validate"@, "tests/validate"@, "tests/validate"@, validation_outcomes(), "rule"@),
    ]
}

/// The plain view of a plugin.
pub open spec fn r_plugin_view(p: RPlugin) -> (Seq<char>, Seq<char>, Seq<char>, Seq<Outcome>, Seq<char>) {
    (p.name@, p.detect_dir@, p.test_dir@, p.supported_outcomes@, p.subject_label@)
}

/// The data-driven R plugins (see [`r_plugin_table`]).
pub fn r_plugins() -> (r: Vec<RPlugin>)
    ensures
        r@.map_values(|p: RPlugin| r_plugin_view(p)) == r_plugin_table(),
{
    let mut v: Vec<RPlugin> = Vec::new();
    v.push(RPlugin { name: "tinytest", detect_dir: "inst/tinytest", test_dir: "inst/tinytest", supported_outcomes: &[Outcome::Pass, Outcome::Fail, Outcome::Error, Outcome::Skip], subject_label: "test" });
    v.push(RPlugin { name: "testthat", detect_dir: "tests/testthat", test_dir: "tests/testthat", supported_outcomes: &[Outcome::Pass, Outcome::Fail, Outcome::Error, Outcome::Skip], subject_label: "test" });
    v.push(RPlugin { name: "pointblank", detect_dir: "tests/pointblank", test_dir: "tests/pointblank", supported_outcomes: &[Outcome::Pass, Outcome::Fail, Outcome::Error, Outcome::Warn], subject_label: "step" });
    v.push(RPlugin { name: "validate", detect_dir: "tests/validate", test_dir: "tests/validate", supported_outcomes: &[Outcome::Pass, Outcome::Fail, Outcome::Error, Outcome::Warn], subject_label: "rule" });
    proof {
        assert(v@.map_values(|p: RPlugin| r_plugin_view(p)) =~= r_plugin_table());
    }
    v
}

impl RPlugin {
    pub fn language(&self) -> (r: &'static str)
        ensures
            r@ == "r"@,
    {
        "r"
    }

    pub fn script_extension(&self) -> (r: &'static str)
        ensures
            r@ == "R"@,
    {
        "R"
    }

    /// `Rscript --vanilla <runner>`.
    pub fn subprocess_cmd(&self, runner_path: &str) -> (r: Vec<String>)
        ensures
            str_views(r@) == seq!["Rscript"@, "--vanilla"@, runner_path@],
    {
        r_subprocess_cmd(runner_path)
    }

    /// `test-*.R`, `test_*.R` and `test-*.r` anywhere under the test
    /// directory.
    pub fn default_run(&self) -> (r: Vec<String>)
        ensures
            str_views(r@) == seq![
                self.test_dir@ + "/**/test-*.R"@,
                self.test_dir@ + "/**/test_*.R"@,
                self.test_dir@ + "/**/test-*.r"@,
            ],
    {
        let mut v: Vec<String> = Vec::new();
        let mut a = text::owned(self.test_dir);
        text::push_str(&mut a, "/**/test-*.R");
        v.push(a);
        let mut b = text::owned(self.test_dir);
        text::push_str(&mut b, "/**/test_*.R");
        v.push(b);
        let mut c = text::owned(self.test_dir);
        text::push_str(&mut c, "/**/test-*.r");
        v.push(c);
        proof {
            assert(str_views(v@) =~= seq![
                self.test_dir@ + "/**/test-*.R"@,
                self.test_dir@ + "/**/test_*.R"@,
                self.test_dir@ + "/**/test-*.r"@,
            ]);
        }
        v
    }

    /// The package's `R/` sources.
    pub fn default_watch(&self) -> (r: Vec<String>)
        ensures
            str_views(r@) == seq!["R/**/*.R"@, "R/**/*.r"@],
    {
        let mut v: Vec<String> = Vec::new();
        v.push(text::owned("R/**/*.R"));
        v.push(text::owned("R/**/*.r"));
        proof {
            assert(str_views(v@) =~= seq!["R/**/*.R"@, "R/**/*.r"@]);
        }
        v
    }

    pub fn is_test_file(&self, path: &str) -> (r: bool)
        ensures
            r == (paths::file_name(path@) matches Some(n) && r_test_name(n)),
    {
        is_r_test_path(path)
    }

    pub fn is_source_file(&self, path: &str) -> (r: bool)
        ensures
            r == paths::has_extension_spec(path@, slice_views(["r"]@)),
    {
        is_r_source_path(path)
    }

    /// The test files a source file named `stem` maps to.
    pub fn test_file_candidates(&self, stem: &str) -> (r: Vec<String>)
        ensures
            str_views(r@) == seq!["test-"@ + stem@ + ".R"@, "test_"@ + stem@ + ".R"@, "test-"@ + stem@ + ".r"@],
    {
        let mut v: Vec<String> = Vec::new();
        let mut a = text::owned("test-");
        text::push_str(&mut a, stem);
        text::push_str(&mut a, ".R");
        v.push(a);
        let mut b = text::owned("test_");
        text::push_str(&mut b, stem);
        text::push_str(&mut b, ".R");
        v.push(b);
        let mut c = text::owned("test-");
        text::push_str(&mut c, stem);
        text::push_str(&mut c, ".r");
        v.push(c);
        proof {
            assert(str_views(v@) =~= seq!["test-"@ + stem@ + ".R"@, "test_"@ + stem@ + ".R"@, "test-"@ + stem@ + ".r"@]);
        }
        v
    }

    pub fn env_vars(&self, root: &str) -> (r: Vec<(String, String)>)
        ensures
            r@.len() == 2,
            r@[0].0@ == "SCRUTIN_TOOL"@,
            r@[0].1@ == self.name@,
            r@[1].0@ == "SCRUTIN_PKG_DIR"@,
            r@[1].1@ == root@,
    {
        r_env_vars(self.name, root)
    }

    pub fn is_noise_line(&self, line: &str) -> (r: bool)
        ensures
            r == is_noise(line@),
    {
        r_is_noise_line(line)
    }

    pub fn supported_outcomes(&self) -> (r: &'static [Outcome])
        ensures
            r@ == self.supported_outcomes@,
    {
        self.supported_outcomes
    }
}

} // verus!
