//! The keymap shared by the TUI, web and editor frontends: each binding
//! names a key, an action, the navigation levels where it is active, a help
//! line and an optional footer hint.
use vstd::prelude::*;

use crate::text;

verus! {

/// Navigation level; `Overlay` covers the help, log and palette popups.
#[derive(Clone, Copy, Debug, PartialEq, Eq, Structural, Hash)]
pub enum Level {
    Files,
    Detail,
    Failure,
    Overlay,
}

/// When a binding's footer hint is visible.
#[derive(Clone, Copy, Debug, PartialEq, Eq, Structural)]
pub enum When {
    Always,
    WhenIdle,
    WhenRunning,
}

/// One keybinding.
#[derive(Clone, Debug)]
pub struct KeyBinding {
    /// Key string: `j`, `Enter`, `Ctrl-d`, `Space`, ...
    pub key: &'static str,
    /// Action name: `cursor_down`, `open_run_menu`, ...
    pub action: &'static str,
    /// Navigation levels where the binding is active.
    pub levels: Vec<Level>,
    /// Help-overlay line; empty for aliases.
    pub help: &'static str,
    /// Footer hint; empty when not shown.
    pub bar: &'static str,
    /// When the footer hint shows.
    pub when: When,
}

/// What a binding says.
pub struct BindingModel {
    pub key: Seq<char>,
    pub action: Seq<char>,
    pub levels: Seq<Level>,
    pub help: Seq<char>,
    pub bar: Seq<char>,
    pub when: When,
}

impl KeyBinding {
    pub open spec fn model(&self) -> BindingModel {
        BindingModel {
            key: self.key@,
            action: self.action@,
            levels: self.levels@,
            help: self.help@,
            bar: self.bar@,
            when: self.when,
        }
    }
}

/// The models of a list of bindings.
pub open spec fn models(v: Seq<KeyBinding>) -> Seq<BindingModel> {
    v.map_values(|b: KeyBinding| b.model())
}

/// The default keymap, in help-overlay order.
pub open spec fn keymap_spec() -> Seq<BindingModel> {
    seq![
        BindingModel { key: "j"@, action: "cursor_down"@, levels: seq![Level::Files, Level::Detail, Level::Failure], help: "j/\u{2193} move down"@, bar: "\u{2191}\u{2193} navigate"@, when: When::Always },
        BindingModel { key: "k"@, action: "cursor_up"@, levels: seq![Level::Files, Level::Detail, Level::Failure], help: "k/\u{2191} move up"@, bar: ""@, when: When::Always },
        BindingModel { key: "Down"@, action: "cursor_down"@, levels: seq![Level::Files, Level::Detail, Level::Failure], help: ""@, bar: ""@, when: When::Always },
        BindingModel { key: "Up"@, action: "cursor_up"@, levels: seq![Level::Files, Level::Detail, Level::Failure], help: ""@, bar: ""@, when: When::Always },
        BindingModel { key: "Right"@, action: "enter"@, levels: seq![Level::Files, Level::Detail], help: "\u{2192} details"@, bar: "\u{2192} details"@, when: When::Always },
        BindingModel { key: "Enter"@, action: "enter"@, levels: seq![Level::Files, Level::Detail], help: ""@, bar: ""@, when: When::Always },
        BindingModel { key: "l"@, action: "enter"@, levels: seq![Level::Files, Level::Detail], help: ""@, bar: ""@, when: When::Always },
        BindingModel { key: "Left"@, action: "pop"@, levels: seq![Level::Files, Level::Detail, Level::Failure], help: "\u{2190} back"@, bar: "\u{2190} back"@, when: When::Always },
        BindingModel { key: "Esc"@, action: "pop"@, levels: seq![Level::Files, Level::Detail, Level::Failure], help: ""@, bar: ""@, when: When::Always },
        BindingModel { key: "h"@, action: "pop"@, levels: seq![Level::Detail, Level::Failure], help: ""@, bar: ""@, when: When::Always },
        BindingModel { key: "q"@, action: "quit"@, levels: seq![Level::Files, Level::Detail, Level::Failure], help: "q quit"@, bar: ""@, when: When::Always },
        BindingModel { key: "g"@, action: "cursor_top"@, levels: seq![Level::Files, Level::Detail], help: "g jump to top"@, bar: ""@, when: When::Always },
        BindingModel { key: "G"@, action: "cursor_bottom"@, levels: seq![Level::Files, Level::Detail], help: "G jump to bottom"@, bar: ""@, when: When::Always },
        BindingModel { key: "Home"@, action: "cursor_top"@, levels: seq![Level::Files, Level::Detail], help: ""@, bar: ""@, when: When::Always },
        BindingModel { key: "End"@, action: "cursor_bottom"@, levels: seq![Level::Files, Level::Detail], help: ""@, bar: ""@, when: When::Always },
        BindingModel { key: "PageUp"@, action: "full_page_up"@, levels: seq![Level::Files, Level::Detail], help: "PgUp page up"@, bar: ""@, when: When::Always },
        BindingModel { key: "PageDown"@, action: "full_page_down"@, levels: seq![Level::Files, Level::Detail], help: "PgDn page down"@, bar: ""@, when: When::Always },
        BindingModel { key: "Ctrl-f"@, action: "full_page_down"@, levels: seq![Level::Files, Level::Detail], help: ""@, bar: ""@, when: When::Always },
        BindingModel { key: "Ctrl-b"@, action: "full_page_up"@, levels: seq![Level::Files, Level::Detail], help: ""@, bar: ""@, when: When::Always },
        BindingModel { key: "J"@, action: "source_scroll_down"@, levels: seq![Level::Files, Level::Detail], help: "Shift-J scroll right pane down"@, bar: ""@, when: When::Always },
        BindingModel { key: "K"@, action: "source_scroll_up"@, levels: seq![Level::Files, Level::Detail], help: "Shift-K scroll right pane up"@, bar: ""@, when: When::Always },
        BindingModel { key: "r"@, action: "open_run_menu"@, levels: seq![Level::Files], help: "r run menu / run file"@, bar: "r run"@, when: When::WhenIdle },
        BindingModel { key: "r"@, action: "run_current_file"@, levels: seq![Level::Detail, Level::Failure], help: ""@, bar: "r run file"@, when: When::WhenIdle },
        BindingModel { key: "R"@, action: "open_run_menu"@, levels: seq![Level::Detail, Level::Failure], help: "R run menu (from detail)"@, bar: ""@, when: When::WhenIdle },
        BindingModel { key: "x"@, action: "cancel_file"@, levels: seq![Level::Files, Level::Detail, Level::Failure], help: "x/X cancel file / entire run"@, bar: "x cancel"@, when: When::WhenRunning },
        BindingModel { key: "X"@, action: "cancel_all"@, levels: seq![Level::Files, Level::Detail, Level::Failure], help: ""@, bar: ""@, when: When::WhenRunning },
        BindingModel { key: "/"@, action: "filter_name"@, levels: seq![Level::Files, Level::Detail, Level::Failure], help: "/ filter by name"@, bar: ""@, when: When::Always },
        BindingModel { key: "o"@, action: "filter_status"@, levels: seq![Level::Files, Level::Detail], help: "o/O filter by status"@, bar: ""@, when: When::Always },
        BindingModel { key: "O"@, action: "filter_status_back"@, levels: seq![Level::Files, Level::Detail], help: ""@, bar: ""@, when: When::Always },
        BindingModel { key: "t"@, action: "filter_tool"@, levels: seq![Level::Files, Level::Detail], help: "t/T filter by tool"@, bar: ""@, when: When::Always },
        BindingModel { key: "T"@, action: "filter_tool_back"@, levels: seq![Level::Files, Level::Detail], help: ""@, bar: ""@, when: When::Always },
        BindingModel { key: "f"@, action: "filter_group"@, levels: seq![Level::Files, Level::Detail], help: "f/F filter by group"@, bar: ""@, when: When::Always },
        BindingModel { key: "F"@, action: "filter_group_back"@, levels: seq![Level::Files, Level::Detail], help: ""@, bar: ""@, when: When::Always },
        BindingModel { key: "s"@, action: "open_sort_menu"@, levels: seq![Level::Files, Level::Detail], help: "s sort menu"@, bar: ""@, when: When::Always },
        BindingModel { key: "\\"@, action: "toggle_orientation"@, levels: seq![Level::Files, Level::Detail], help: "\\ toggle split orientation"@, bar: ""@, when: When::Always },
        BindingModel { key: "("@, action: "shrink_list"@, levels: seq![Level::Files, Level::Detail], help: "(/) shrink/grow list pane"@, bar: ""@, when: When::Always },
        BindingModel { key: ")"@, action: "grow_list"@, levels: seq![Level::Files, Level::Detail], help: ""@, bar: ""@, when: When::Always },
        BindingModel { key: "Space"@, action: "toggle_select"@, levels: seq![Level::Files], help: "Space toggle selection"@, bar: ""@, when: When::Always },
        BindingModel { key: "v"@, action: "toggle_visual"@, levels: seq![Level::Files], help: "v visual select mode"@, bar: ""@, when: When::Always },
        BindingModel { key: "e"@, action: "edit_test"@, levels: seq![Level::Files, Level::Detail, Level::Failure], help: "e/E edit test/source file"@, bar: ""@, when: When::Always },
        BindingModel { key: "E"@, action: "edit_source"@, levels: seq![Level::Detail, Level::Failure], help: ""@, bar: ""@, when: When::Always },
        BindingModel { key: "y"@, action: "yank_message"@, levels: seq![Level::Files, Level::Detail, Level::Failure], help: "y yank error message to clipboard"@, bar: ""@, when: When::Always },
        BindingModel { key: "a"@, action: "diagnose_with_agent"@, levels: seq![Level::Detail, Level::Failure], help: "a send selected failure to LLM agent (see [agent] config)"@, bar: ""@, when: When::Always },
        BindingModel { key: "L"@, action: "enter_log"@, levels: seq![Level::Files, Level::Detail, Level::Failure], help: "L open log"@, bar: ""@, when: When::Always },
        BindingModel { key: "?"@, action: "enter_help"@, levels: seq![Level::Files, Level::Detail, Level::Failure], help: "? keyboard shortcuts"@, bar: "? help"@, when: When::Always },
        BindingModel { key: "j"@, action: "scroll_down"@, levels: seq![Level::Overlay], help: "j/\u{2193} scroll down"@, bar: ""@, when: When::Always },
        BindingModel { key: "k"@, action: "scroll_up"@, levels: seq![Level::Overlay], help: "k/\u{2191} scroll up"@, bar: ""@, when: When::Always },
        BindingModel { key: "Down"@, action: "scroll_down"@, levels: seq![Level::Overlay], help: ""@, bar: ""@, when: When::Always },
        BindingModel { key: "Up"@, action: "scroll_up"@, levels: seq![Level::Overlay], help: ""@, bar: ""@, when: When::Always },
        BindingModel { key: "g"@, action: "scroll_top"@, levels: seq![Level::Overlay], help: ""@, bar: ""@, when: When::Always },
        BindingModel { key: "G"@, action: "scroll_bottom"@, levels: seq![Level::Overlay], help: ""@, bar: ""@, when: When::Always },
        BindingModel { key: "PageDown"@, action: "scroll_page_down"@, levels: seq![Level::Overlay], help: ""@, bar: ""@, when: When::Always },
        BindingModel { key: "PageUp"@, action: "scroll_page_up"@, levels: seq![Level::Overlay], help: ""@, bar: ""@, when: When::Always },
        BindingModel { key: "Esc"@, action: "pop"@, levels: seq![Level::Overlay], help: "Esc close"@, bar: ""@, when: When::Always },
        BindingModel { key: "q"@, action: "pop"@, levels: seq![Level::Overlay], help: ""@, bar: ""@, when: When::Always },
        BindingModel { key: "?"@, action: "pop"@, levels: seq![Level::Overlay], help: ""@, bar: ""@, when: When::Always },
    ]
}

fn all_levels() -> (r: Vec<Level>)
    ensures
        r@ == seq![Level::Files, Level::Detail, Level::Failure],
{
    let v = vec![Level::Files, Level::Detail, Level::Failure];
    proof {
        assert(v@ =~= seq![Level::Files, Level::Detail, Level::Failure]);
    }
    v
}

fn files_detail() -> (r: Vec<Level>)
    ensures
        r@ == seq![Level::Files, Level::Detail],
{
    let v = vec![Level::Files, Level::Detail];
    proof {
        assert(v@ =~= seq![Level::Files, Level::Detail]);
    }
    v
}

fn files_only() -> (r: Vec<Level>)
    ensures
        r@ == seq![Level::Files],
{
    let v = vec![Level::Files];
    proof {
        assert(v@ =~= seq![Level::Files]);
    }
    v
}

fn detail_failure() -> (r: Vec<Level>)
    ensures
        r@ == seq![Level::Detail, Level::Failure],
{
    let v = vec![Level::Detail, Level::Failure];
    proof {
        assert(v@ =~= seq![Level::Detail, Level::Failure]);
    }
    v
}

fn overlay_only() -> (r: Vec<Level>)
    ensures
        r@ == seq![Level::Overlay],
{
    let v = vec![Level::Overlay];
    proof {
        assert(v@ =~= seq![Level::Overlay]);
    }
    v
}

fn binding(
    key: &'static str,
    action: &'static str,
    levels: Vec<Level>,
    help: &'static str,
    bar: &'static str,
    when: When,
) -> (b: KeyBinding)
    ensures
        b.model() == (BindingModel {
            key: key@,
            action: action@,
            levels: levels@,
            help: help@,
            bar: bar@,
            when,
        }),
{
    KeyBinding { key, action, levels, help, bar, when }
}

/// The default keymap, the single source of truth for every frontend.
#[verifier::rlimit(50)]
pub fn default_keymap() -> (r: Vec<KeyBinding>)
    ensures
        models(r@) == keymap_spec(),
{
    let mut v: Vec<KeyBinding> = Vec::new();
    v.push(binding("j", "cursor_down", all_levels(), "j/\u{2193} move down", "\u{2191}\u{2193} navigate", When::Always));
    v.push(binding("k", "cursor_up", all_levels(), "k/\u{2191} move up", "", When::Always));
    v.push(binding("Down", "cursor_down", all_levels(), "", "", When::Always));
    v.push(binding("Up", "cursor_up", all_levels(), "", "", When::Always));
    v.push(binding("Right", "enter", files_detail(), "\u{2192} details", "\u{2192} details", When::Always));
    v.push(binding("Enter", "enter", files_detail(), "", "", When::Always));
    v.push(binding("l", "enter", files_detail(), "", "", When::Always));
    v.push(binding("Left", "pop", all_levels(), "\u{2190} back", "\u{2190} back", When::Always));
    v.push(binding("Esc", "pop", all_levels(), "", "", When::Always));
    v.push(binding("h", "pop", detail_failure(), "", "", When::Always));
    v.push(binding("q", "quit", all_levels(), "q quit", "", When::Always));
    v.push(binding("g", "cursor_top", files_detail(), "g jump to top", "", When::Always));
    v.push(binding("G", "cursor_bottom", files_detail(), "G jump to bottom", "", When::Always));
    v.push(binding("Home", "cursor_top", files_detail(), "", "", When::Always));
    v.push(binding("End", "cursor_bottom", files_detail(), "", "", When::Always));
    v.push(binding("PageUp", "full_page_up", files_detail(), "PgUp page up", "", When::Always));
    v.push(binding("PageDown", "full_page_down", files_detail(), "PgDn page down", "", When::Always));
    v.push(binding("Ctrl-f", "full_page_down", files_detail(), "", "", When::Always));
    v.push(binding("Ctrl-b", "full_page_up", files_detail(), "", "", When::Always));
    v.push(binding("J", "source_scroll_down", files_detail(), "Shift-J scroll right pane down", "", When::Always));
    v.push(binding("K", "source_scroll_up", files_detail(), "Shift-K scroll right pane up", "", When::Always));
    v.push(binding("r", "open_run_menu", files_only(), "r run menu / run file", "r run", When::WhenIdle));
    v.push(binding("r", "run_current_file", detail_failure(), "", "r run file", When::WhenIdle));
    v.push(binding("R", "open_run_menu", detail_failure(), "R run menu (from detail)", "", When::WhenIdle));
    v.push(binding("x", "cancel_file", all_levels(), "x/X cancel file / entire run", "x cancel", When::WhenRunning));
    v.push(binding("X", "cancel_all", all_levels(), "", "", When::WhenRunning));
    v.push(binding("/", "filter_name", all_levels(), "/ filter by name", "", When::Always));
    v.push(binding("o", "filter_status", files_detail(), "o/O filter by status", "", When::Always));
    v.push(binding("O", "filter_status_back", files_detail(), "", "", When::Always));
    v.push(binding("t", "filter_tool", files_detail(), "t/T filter by tool", "", When::Always));
    v.push(binding("T", "filter_tool_back", files_detail(), "", "", When::Always));
    v.push(binding("f", "filter_group", files_detail(), "f/F filter by group", "", When::Always));
    v.push(binding("F", "filter_group_back", files_detail(), "", "", When::Always));
    v.push(binding("s", "open_sort_menu", files_detail(), "s sort menu", "", When::Always));
    v.push(binding("\\", "toggle_orientation", files_detail(), "\\ toggle split orientation", "", When::Always));
    v.push(binding("(", "shrink_list", files_detail(), "(/) shrink/grow list pane", "", When::Always));
    v.push(binding(")", "grow_list", files_detail(), "", "", When::Always));
    v.push(binding("Space", "toggle_select", files_only(), "Space toggle selection", "", When::Always));
    v.push(binding("v", "toggle_visual", files_only(), "v visual select mode", "", When::Always));
    v.push(binding("e", "edit_test", all_levels(), "e/E edit test/source file", "", When::Always));
    v.push(binding("E", "edit_source", detail_failure(), "", "", When::Always));
    v.push(binding("y", "yank_message", all_levels(), "y yank error message to clipboard", "", When::Always));
    v.push(binding("a", "diagnose_with_agent", detail_failure(), "a send selected failure to LLM agent (see [agent] config)", "", When::Always));
    v.push(binding("L", "enter_log", all_levels(), "L open log", "", When::Always));
    v.push(binding("?", "enter_help", all_levels(), "? keyboard shortcuts", "? help", When::Always));
    v.push(binding("j", "scroll_down", overlay_only(), "j/\u{2193} scroll down", "", When::Always));
    v.push(binding("k", "scroll_up", overlay_only(), "k/\u{2191} scroll up", "", When::Always));
    v.push(binding("Down", "scroll_down", overlay_only(), "", "", When::Always));
    v.push(binding("Up", "scroll_up", overlay_only(), "", "", When::Always));
    v.push(binding("g", "scroll_top", overlay_only(), "", "", When::Always));
    v.push(binding("G", "scroll_bottom", overlay_only(), "", "", When::Always));
    v.push(binding("PageDown", "scroll_page_down", overlay_only(), "", "", When::Always));
    v.push(binding("PageUp", "scroll_page_up", overlay_only(), "", "", When::Always));
    v.push(binding("Esc", "pop", overlay_only(), "Esc close", "", When::Always));
    v.push(binding("q", "pop", overlay_only(), "", "", When::Always));
    v.push(binding("?", "pop", overlay_only(), "", "", When::Always));
    proof {
        assert(models(v@) =~= keymap_spec());
    }
    v
}


/// The bindings active at `level`, in keymap order.
pub open spec fn active_at(bs: Seq<BindingModel>, level: Level) -> Seq<BindingModel> {
    bs.filter(|b: BindingModel| b.levels.contains(level))
}

/// The action of the first binding of `key` active at `level`.
pub open spec fn first_action(bs: Seq<BindingModel>, key: Seq<char>, level: Level) -> Option<
    Seq<char>,
>
    decreases bs.len(),
{
    if bs.len() == 0 {
        None
    } else if bs[0].key == key && bs[0].levels.contains(level) {
        Some(bs[0].action)
    } else {
        first_action(bs.drop_first(), key, level)
    }
}

/// `s` with adjacent repeats collapsed (what `Vec::dedup` leaves).
pub open spec fn dedup_adjacent(s: Seq<Seq<char>>) -> Seq<Seq<char>>
    decreases s.len(),
{
    if s.len() <= 1 {
        s
    } else if s[s.len() - 1] == s[s.len() - 2] {
        dedup_adjacent(s.drop_last())
    } else {
        dedup_adjacent(s.drop_last()).push(s.last())
    }
}

/// Does `levels` hold `level`?
fn has_level(levels: &Vec<Level>, level: Level) -> (r: bool)
    ensures
        r == levels@.contains(level),
{
    let mut i: usize = 0;
    while i < levels.len()
        invariant
            i <= levels@.len(),
            forall|j: int| 0 <= j < i ==> levels@[j] != level,
        decreases levels@.len() - i,
    {
        if levels[i] == level {
            return true;
        }
        i = i + 1;
    }
    false
}

proof fn lemma_filter_push_binding(s: Seq<BindingModel>, x: BindingModel, p: spec_fn(BindingModel) -> bool)
    ensures
        s.push(x).filter(p) == if p(x) { s.filter(p).push(x) } else { s.filter(p) },
{
    reveal_with_fuel(Seq::filter, 1);
    assert(s.push(x).drop_last() == s);
}

/// The bindings active at `level`, in keymap order.
pub fn bindings_for_level(level: Level) -> (r: Vec<KeyBinding>)
    ensures
        models(r@) == active_at(keymap_spec(), level),
{
    let all = default_keymap();
    let ghost am = models(all@);
    let mut out: Vec<KeyBinding> = Vec::new();
    let mut i: usize = 0;
    assert(am.subrange(0, 0).filter(|b: BindingModel| b.levels.contains(level)) =~= Seq::<
        BindingModel,
    >::empty()) by {
        reveal_with_fuel(Seq::filter, 1);
    }
    while i < all.len()
        invariant
            i <= all@.len(),
            am == models(all@),
            models(out@) == am.subrange(0, i as int).filter(
                |b: BindingModel| b.levels.contains(level),
            ),
        decreases all@.len() - i,
    {
        let b = &all[i];
        proof {
            assert(am.subrange(0, i + 1) == am.subrange(0, i as int).push(b.model()));
            lemma_filter_push_binding(
                am.subrange(0, i as int),
                b.model(),
                |b: BindingModel| b.levels.contains(level),
            );
        }
        if has_level(&b.levels, level) {
            let copy = KeyBinding {
                key: b.key,
                action: b.action,
                levels: copy_levels(&b.levels),
                help: b.help,
                bar: b.bar,
                when: b.when,
            };
            proof {
                assert(models(out@.push(copy)) == models(out@).push(copy.model()));
            }
            out.push(copy);
        }
        i = i + 1;
    }
    proof {
        assert(am.subrange(0, am.len() as int) == am);
    }
    out
}

fn copy_levels(v: &Vec<Level>) -> (r: Vec<Level>)
    ensures
        r@ == v@,
{
    let mut r: Vec<Level> = Vec::new();
    let mut i: usize = 0;
    while i < v.len()
        invariant
            i <= v@.len(),
            r@ == v@.subrange(0, i as int),
        decreases v@.len() - i,
    {
        r.push(v[i]);
        i = i + 1;
        assert(v@.subrange(0, i as int) == v@.subrange(0, i - 1).push(v@[i - 1]));
    }
    assert(v@.subrange(0, v@.len() as int) == v@);
    r
}

/// The action of the first binding of `key` active at `level`.
pub fn resolve(key: &str, level: Level) -> (r: Option<&'static str>)
    ensures
        match r {
            Some(a) => first_action(keymap_spec(), key@, level) == Some(a@),
            None => first_action(keymap_spec(), key@, level) is None,
        },
{
    let all = default_keymap();
    let ghost am = models(all@);
    let mut i: usize = 0;
    assert(am.subrange(0, am.len() as int) == am);
    while i < all.len()
        invariant
            i <= all@.len(),
            am == models(all@),
            am == keymap_spec(),
            first_action(am, key@, level) == first_action(
                am.subrange(i as int, am.len() as int),
                key@,
                level,
            ),
        decreases all@.len() - i,
    {
        let b = &all[i];
        proof {
            let sub = am.subrange(i as int, am.len() as int);
            assert(sub[0] == b.model());
            assert(sub.drop_first() == am.subrange(i + 1, am.len() as int));
        }
        if text::str_eq(b.key, key) && has_level(&b.levels, level) {
            return Some(b.action);
        }
        i = i + 1;
    }
    None
}

/// The actions of `bs`, in order.
pub open spec fn actions_of(bs: Seq<BindingModel>) -> Seq<Seq<char>> {
    bs.map_values(|b: BindingModel| b.action)
}

/// Every action name of the keymap, sorted, each once.
pub fn all_action_names() -> (r: Vec<String>)
    ensures
        text::str_views(r@) == dedup_adjacent(text::lex_sort(actions_of(keymap_spec()))),
{
    let all = default_keymap();
    let ghost am = models(all@);
    let mut names: Vec<String> = Vec::new();
    let mut i: usize = 0;
    while i < all.len()
        invariant
            i <= all@.len(),
            am == models(all@),
            text::str_views(names@) == actions_of(am).subrange(0, i as int),
        decreases all@.len() - i,
    {
        let s = text::owned(all[i].action);
        proof {
            assert(text::str_views(names@.push(s)) == text::str_views(names@).push(s@));
            assert(actions_of(am).subrange(0, i + 1) == actions_of(am).subrange(0, i as int).push(
                all@[i as int].action@,
            ));
        }
        names.push(s);
        i = i + 1;
    }
    proof {
        assert(actions_of(am).subrange(0, am.len() as int) == actions_of(am));
    }
    let sorted = text::sort_strings(&names);
    let ghost sv = text::str_views(sorted@);
    let mut out: Vec<String> = Vec::new();
    let mut k: usize = 0;
    assert(sv.subrange(0, 0) =~= Seq::<Seq<char>>::empty());
    while k < sorted.len()
        invariant
            k <= sorted@.len(),
            sv == text::str_views(sorted@),
            text::str_views(out@) == dedup_adjacent(sv.subrange(0, k as int)),
            k > 0 ==> out@.len() > 0 && out@.last()@ == sv[k - 1],
        decreases sorted@.len() - k,
    {
        let cur = &sorted[k];
        let repeat = k > 0 && text::str_eq(cur.as_str(), sorted[k - 1].as_str());
        proof {
            let sub = sv.subrange(0, k + 1);
            assert(sub.drop_last() == sv.subrange(0, k as int));
            assert(sub.last() == cur@);
            if k > 0 {
                assert(sub[sub.len() - 2] == sv[k - 1]);
            }
            lemma_dedup_last(sv.subrange(0, k as int));
        }
        if !repeat {
            let copy = cur.clone();
            proof {
                assert(text::str_views(out@.push(copy)) == text::str_views(out@).push(copy@));
            }
            out.push(copy);
        }
        k = k + 1;
    }
    proof {
        assert(sv.subrange(0, sv.len() as int) == sv);
    }
    out
}

proof fn lemma_dedup_last(s: Seq<Seq<char>>)
    ensures
        s.len() > 0 ==> dedup_adjacent(s).len() > 0 && dedup_adjacent(s).last() == s.last(),
    decreases s.len(),
{
    if s.len() > 1 {
        lemma_dedup_last(s.drop_last());
    }
}

} // verus!
