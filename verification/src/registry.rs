//! The registry of built-in plugins: every tool in detection-priority
//! order (R, then Python, then prose), lookup by name, and the choice of
//! the plugins a project runs from what each tool's markers show.
use vstd::prelude::*;

use crate::config::{debug_quote, debug_quoted};
use crate::plugins::{GreatExpectationsPlugin, JarlPlugin, PytestPlugin, RuffPlugin, SkyspellPlugin, TyposPlugin};
use crate::r::{r_plugins, RPlugin};
use crate::paths;
use crate::plugins::slice_views;
use crate::text;

verus! {

/// One built-in plugin.
#[derive(Debug, Clone, Copy)]
pub enum PluginKind {
    /// tinytest, testthat, pointblank or validate.
    R(RPlugin),
    Jarl(JarlPlugin),
    Pytest(PytestPlugin),
    GreatExpectations(GreatExpectationsPlugin),
    Ruff(RuffPlugin),
    Skyspell(SkyspellPlugin),
    Typos(TyposPlugin),
}

/// The names of the built-in plugins, in registry order.
pub open spec fn registry_names() -> Seq<Seq<char>> {
    seq![
        "tinytest"@,
        "testthat"@,
        "pointblank"@,
        "jarl"@,
        "validate"@,
        "pytest"@,
        "great_expectations"@,
        "ruff"@,
        "skyspell"@,
        "typos"@,
    ]
}

/// The languages of the built-in plugins, in registry order.
pub open spec fn registry_languages() -> Seq<Seq<char>> {
    seq!["r"@, "r"@, "r"@, "r"@, "r"@, "python"@, "python"@, "python"@, "prose"@, "prose"@]
}

/// Whether each built-in plugin runs in command mode (one short-lived
/// command per file) rather than with warm workers, in registry order.
pub open spec fn registry_command_mode() -> Seq<bool> {
    seq![false, false, false, true, false, false, false, true, true, true]
}

impl PluginKind {
    /// The plugin's name.
    pub open spec fn name_of(self) -> Seq<char> {
        match self {
            PluginKind::R(p) => p.name@,
            PluginKind::Jarl(_) => "jarl"@,
            PluginKind::Pytest(_) => "pytest"@,
            PluginKind::GreatExpectations(_) => "great_expectations"@,
            PluginKind::Ruff(_) => "ruff"@,
            PluginKind::Skyspell(_) => "skyspell"@,
            PluginKind::Typos(_) => "typos"@,
        }
    }

    pub fn name(&self) -> (r: &'static str)
        ensures
            r@ == self.name_of(),
    {
        match self {
            PluginKind::R(p) => p.name,
            PluginKind::Jarl(p) => p.name(),
            PluginKind::Pytest(p) => p.name(),
            PluginKind::GreatExpectations(p) => p.name(),
            PluginKind::Ruff(p) => p.name(),
            PluginKind::Skyspell(p) => p.name(),
            PluginKind::Typos(p) => p.name(),
        }
    }

    /// The plugin's language.
    pub open spec fn language_of(self) -> Seq<char> {
        match self {
            PluginKind::R(_) | PluginKind::Jarl(_) => "r"@,
            PluginKind::Pytest(_) | PluginKind::GreatExpectations(_) | PluginKind::Ruff(_) => "python"@,
            PluginKind::Skyspell(_) | PluginKind::Typos(_) => "prose"@,
        }
    }

    pub fn language(&self) -> (r: &'static str)
        ensures
            r@ == self.language_of(),
    {
        match self {
            PluginKind::R(p) => p.language(),
            PluginKind::Jarl(p) => p.language(),
            PluginKind::Pytest(p) => p.language(),
            PluginKind::GreatExpectations(p) => p.language(),
            PluginKind::Ruff(p) => p.language(),
            PluginKind::Skyspell(p) => p.language(),
            PluginKind::Typos(p) => p.language(),
        }
    }

    /// Does the plugin run in command mode?
    pub open spec fn command_mode_of(self) -> bool {
        match self {
            PluginKind::Jarl(_) | PluginKind::Ruff(_) | PluginKind::Skyspell(_) | PluginKind::Typos(_) => true,
            _ => false,
        }
    }

    pub fn is_command_mode(&self) -> (r: bool)
        ensures
            r == self.command_mode_of(),
    {
        match self {
            PluginKind::Jarl(_) | PluginKind::Ruff(_) | PluginKind::Skyspell(_) | PluginKind::Typos(_) => true,
            _ => false,
        }
    }
}

impl PluginKind {
    /// Does the plugin take `path` as one of its inputs?
    pub open spec fn test_file_spec(self, path: Seq<char>) -> bool {
        match self {
            PluginKind::R(_) => paths::file_name(path) matches Some(n) && crate::r::r_test_name(n),
            PluginKind::Jarl(_) => paths::has_extension_spec(path, slice_views(["r"]@)),
            PluginKind::Pytest(_) | PluginKind::GreatExpectations(_) => paths::file_name(path) matches Some(n)
                && crate::python::is_test_filename(n),
            PluginKind::Ruff(_) => paths::has_extension_spec(path, slice_views(["py"]@)),
            PluginKind::Skyspell(_) => paths::has_extension_spec(
                path,
                slice_views(["md", "markdown", "txt", "rst", "qmd", "rmd"]@),
            ),
            PluginKind::Typos(_) => paths::has_extension_spec(
                path,
                slice_views(
                    [
                        "md",
                        "markdown",
                        "txt",
                        "rst",
                        "qmd",
                        "rmd",
                        "r",
                        "py",
                        "rs",
                        "js",
                        "ts",
                        "go",
                        "c",
                        "h",
                        "cpp",
                        "hpp",
                        "java",
                        "rb",
                        "sh",
                        "toml",
                        "yaml",
                        "yml",
                    ]@,
                ),
            ),
        }
    }

    /// Does the plugin take `path` as one of its inputs (see
    /// [`PluginKind::test_file_spec`])?
    pub fn is_test_file(&self, path: &str) -> (r: bool)
        ensures
            r == self.test_file_spec(path@),
    {
        match self {
            PluginKind::R(p) => p.is_test_file(path),
            PluginKind::Jarl(p) => p.is_test_file(path),
            PluginKind::Pytest(p) => p.is_test_file(path),
            PluginKind::GreatExpectations(p) => p.is_test_file(path),
            PluginKind::Ruff(p) => p.is_test_file(path),
            PluginKind::Skyspell(p) => p.is_test_file(path),
            PluginKind::Typos(p) => p.is_test_file(path),
        }
    }
}

/// The names of a list of plugins.
pub open spec fn names_of(v: Seq<PluginKind>) -> Seq<Seq<char>> {
    v.map_values(|p: PluginKind| p.name_of())
}

/// Every built-in plugin, in detection-priority order.
pub fn all_plugins() -> (r: Vec<PluginKind>)
    ensures
        names_of(r@) == registry_names(),
        r@.map_values(|p: PluginKind| p.language_of()) == registry_languages(),
        r@.map_values(|p: PluginKind| p.command_mode_of()) == registry_command_mode(),
{
    let rs = r_plugins();
    proof {
        assert(rs@.map_values(|p: RPlugin| crate::r::r_plugin_view(p)) == crate::r::r_plugin_table());
        assert(crate::r::r_plugin_view(rs@[0]) == crate::r::r_plugin_table()[0]);
        assert(crate::r::r_plugin_view(rs@[1]) == crate::r::r_plugin_table()[1]);
        assert(crate::r::r_plugin_view(rs@[2]) == crate::r::r_plugin_table()[2]);
        assert(crate::r::r_plugin_view(rs@[3]) == crate::r::r_plugin_table()[3]);
    }
    let mut v: Vec<PluginKind> = Vec::new();
    v.push(PluginKind::R(rs[0]));
    v.push(PluginKind::R(rs[1]));
    v.push(PluginKind::R(rs[2]));
    v.push(PluginKind::Jarl(JarlPlugin));
    v.push(PluginKind::R(rs[3]));
    v.push(PluginKind::Pytest(PytestPlugin));
    v.push(PluginKind::GreatExpectations(GreatExpectationsPlugin));
    v.push(PluginKind::Ruff(RuffPlugin));
    v.push(PluginKind::Skyspell(SkyspellPlugin));
    v.push(PluginKind::Typos(TyposPlugin));
    proof {
        assert(names_of(v@) =~= registry_names());
        assert(v@.map_values(|p: PluginKind| p.language_of()) =~= registry_languages());
        assert(v@.map_values(|p: PluginKind| p.command_mode_of()) =~= registry_command_mode());
    }
    v
}

/// The index of the first registry name equal to `name`.
pub open spec fn registry_index(name: Seq<char>) -> Option<int> {
    if registry_names().contains(name) {
        Some(registry_names().index_of_first(name)->0)
    } else {
        None
    }
}

/// The built-in plugin named `name`, if there is one.
pub fn plugin_by_name(name: &str) -> (r: Option<PluginKind>)
    ensures
        match r {
            Some(p) => registry_names().contains(name@) && p.name_of() == name@ && p.command_mode_of()
                == registry_command_mode()[registry_index(name@)->0] && p.language_of()
                == registry_languages()[registry_index(name@)->0],
            None => !registry_names().contains(name@),
        },
{
    let all = all_plugins();
    let mut i: usize = 0;
    proof {
        registry_names().index_of_first_ensures(name@);
    }
    while i < all.len()
        invariant
            i <= all@.len(),
            names_of(all@) == registry_names(),
            all@.map_values(|p: PluginKind| p.language_of()) == registry_languages(),
            all@.map_values(|p: PluginKind| p.command_mode_of()) == registry_command_mode(),
            forall|j: int| 0 <= j < i ==> registry_names()[j] != name@,
        decreases all@.len() - i,
    {
        let n = all[i].name();
        proof {
            assert(names_of(all@)[i as int] == all@[i as int].name_of());
        }
        if text::str_eq(n, name) {
            proof {
                registry_names().index_of_first_ensures(name@);
                assert(registry_names()[i as int] == name@);
                assert(registry_names().contains(name@));
                let k = registry_index(name@)->0;
                assert(k == i) by {
                    if k < i {
                        assert(registry_names()[k] != name@);
                    }
                }
                assert(all@.map_values(|p: PluginKind| p.language_of())[i as int] == all@[i as int].language_of());
                assert(all@.map_values(|p: PluginKind| p.command_mode_of())[i as int] == all@[i as int].command_mode_of());
            }
            return Some(all[i]);
        }
        i = i + 1;
    }
    proof {
        if registry_names().contains(name@) {
            let k = choose|k: int| 0 <= k < registry_names().len() && registry_names()[k] == name@;
            assert(registry_names()[k] != name@);
        }
    }
    None
}

/// The plugins a project runs, as registry indices: with a tool filter
/// (anything but `auto`), that one tool, which must be known and
/// detected; otherwise every detected tool, of which there must be one.
/// `detected[i]` says whether registry plugin `i` found its markers.
pub open spec fn detect_plugins_of(detected: Seq<bool>, tool_filter: Seq<char>, root: Seq<char>) -> Result<
    Seq<int>,
    Seq<char>,
> {
    if tool_filter != "auto"@ {
        match registry_index(tool_filter) {
            None => Err("Unknown tool: "@ + tool_filter),
            Some(i) => if detected[i] {
                Ok(seq![i])
            } else {
                Err(
                    "Tool "@ + debug_quoted(tool_filter) + " requested but its marker files were not found at "@
                        + root,
                )
            },
        }
    } else {
        let hits = Seq::new(registry_names().len(), |i: int| i).filter(|i: int| detected[i]);
        if hits.len() == 0 {
            Err(
                "No test tools detected in "@ + root
                    + ". Configure suites explicitly in scrutin.toml or run scrutin from the project root."@,
            )
        } else {
            Ok(hits)
        }
    }
}

/// Choose the plugins to run (see [`detect_plugins_of`]).
pub fn detect_plugins(detected: &[bool], tool_filter: &str, root: &str) -> (r: Result<Vec<usize>, String>)
    requires
        detected@.len() == registry_names().len(),
    ensures
        match r {
            Ok(v) => detect_plugins_of(detected@, tool_filter@, root@) == Ok::<Seq<int>, Seq<char>>(
                v@.map_values(|i: usize| i as int),
            ),
            Err(m) => detect_plugins_of(detected@, tool_filter@, root@) == Err::<Seq<int>, Seq<char>>(m@),
        },
{
    proof {
        reveal_strlit("auto");
        registry_names().index_of_first_ensures(tool_filter@);
    }
    if !text::str_eq(tool_filter, "auto") {
        let all = all_plugins();
        let mut i: usize = 0;
        while i < all.len()
            invariant
                i <= all@.len(),
                detected@.len() == registry_names().len(),
                tool_filter@ != "auto"@,
                names_of(all@) == registry_names(),
                forall|j: int| 0 <= j < i ==> registry_names()[j] != tool_filter@,
            decreases all@.len() - i,
        {
            let n = all[i].name();
            proof {
                assert(names_of(all@)[i as int] == all@[i as int].name_of());
            }
            if text::str_eq(n, tool_filter) {
                proof {
                    registry_names().index_of_first_ensures(tool_filter@);
                    assert(registry_names()[i as int] == tool_filter@);
                    assert(registry_names().contains(tool_filter@));
                    let k = registry_index(tool_filter@)->0;
                    assert(k == i) by {
                        if k < i {
                            assert(registry_names()[k] != tool_filter@);
                        }
                    }
                }
                if detected[i] {
                    let mut v: Vec<usize> = Vec::new();
                    v.push(i);
                    proof {
                        assert(v@.map_values(|x: usize| x as int) =~= seq![i as int]);
                    }
                    return Ok(v);
                } else {
                    let mut m = text::owned("Tool ");
                    let q = debug_quote(tool_filter);
                    text::push_str(&mut m, q.as_str());
                    text::push_str(&mut m, " requested but its marker files were not found at ");
                    text::push_str(&mut m, root);
                    return Err(m);
                }
            }
            i = i + 1;
        }
        proof {
            if registry_names().contains(tool_filter@) {
                let k = choose|k: int| 0 <= k < registry_names().len() && registry_names()[k] == tool_filter@;
                assert(registry_names()[k] != tool_filter@);
            }
        }
        let mut m = text::owned("Unknown tool: ");
        text::push_str(&mut m, tool_filter);
        return Err(m);
    }
    let ghost idx = Seq::new(registry_names().len(), |i: int| i);
    let mut hits: Vec<usize> = Vec::new();
    let mut i: usize = 0;
    while i < detected.len()
        invariant
            i <= detected@.len(),
            detected@.len() == registry_names().len(),
            idx == Seq::new(registry_names().len(), |i: int| i),
            hits@.map_values(|x: usize| x as int) == idx.subrange(0, i as int).filter(|k: int| detected@[k]),
        decreases detected@.len() - i,
    {
        let ghost before = hits@.map_values(|x: usize| x as int);
        proof {
            let u = idx.subrange(0, i + 1);
            assert(u.drop_last() =~= idx.subrange(0, i as int));
            assert(u.last() == i as int);
            reveal_with_fuel(Seq::filter, 1);
        }
        if detected[i] {
            hits.push(i);
            proof {
                assert(hits@.map_values(|x: usize| x as int) =~= before.push(i as int));
            }
        }
        i = i + 1;
    }
    proof {
        assert(idx.subrange(0, detected@.len() as int) =~= idx);
    }
    if hits.len() == 0 {
        let mut m = text::owned("No test tools detected in ");
        text::push_str(&mut m, root);
        text::push_str(
            &mut m,
            ". Configure suites explicitly in scrutin.toml or run scrutin from the project root.",
        );
        return Err(m);
    }
    Ok(hits)
}

} // verus!
