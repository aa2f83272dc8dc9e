//! User-editable keybinds: a flat map of action name to key string —
//! `"next_page": ["Right", "PgDn"]` or a bare `"quit": "Q"` — with `Ctrl+`,
//! `Shift+`, `Alt+` and `Meta+` (or `Cmd+`) modifiers. Corrupt entries,
//! unknown actions, empty binding lists and unparsable keys fall back to the
//! defaults entry by entry.

use vstd::prelude::*;

use crate::search::{lowercase, to_lowercase};
use crate::json::{find_member, json_parse, json_pretty, parse_json, render_json, lemma_member_index, member, member_index, number_as_u64, number_u64, JsonValue};
use crate::strings::{
    lex_lt,
    text_order,
    ascii_lower,
    ascii_lowered,
    char_range,
    concat,
    decimal_digits,
    push_char,
    push_decimal,
    str_equals,
    strip_back,
    strip_front,
    to_ascii_lowercase,
    trim,
    trimmed,
    white_space,
};

verus! {

/// An input action a key can be bound to.
#[derive(Debug, Clone, Copy, PartialEq, Eq, Structural)]
pub enum Action {
    OpenFile,
    SaveState,
    Search,
    ToggleSidebar,
    EditTheme,
    GoToPage,
    KeybindsWindow,
    FocusMode,
    ZoomIn,
    ZoomOut,
    FitWidth,
    PrevPage,
    NextPage,
    CycleTheme,
    Bookmark,
    CloseOverlay,
    Quit,
}

/// Canonical action order: the defaults, conflict resolution (later entries
/// win) and the shortcuts-window rows all follow it.
pub open spec fn action_order() -> Seq<Action> {
    seq![
        Action::OpenFile,
        Action::SaveState,
        Action::Search,
        Action::ToggleSidebar,
        Action::EditTheme,
        Action::GoToPage,
        Action::KeybindsWindow,
        Action::FocusMode,
        Action::ZoomIn,
        Action::ZoomOut,
        Action::FitWidth,
        Action::PrevPage,
        Action::NextPage,
        Action::CycleTheme,
        Action::Bookmark,
        Action::CloseOverlay,
        Action::Quit,
    ]
}

/// The actions in canonical order.
pub fn all_actions() -> (all: Vec<Action>)
    ensures
        all@ == action_order(),
{
    let all = vec![
        Action::OpenFile,
        Action::SaveState,
        Action::Search,
        Action::ToggleSidebar,
        Action::EditTheme,
        Action::GoToPage,
        Action::KeybindsWindow,
        Action::FocusMode,
        Action::ZoomIn,
        Action::ZoomOut,
        Action::FitWidth,
        Action::PrevPage,
        Action::NextPage,
        Action::CycleTheme,
        Action::Bookmark,
        Action::CloseOverlay,
        Action::Quit,
    ];
    assert(all@ =~= action_order());
    all
}

/// The name an action has in the keybinds file.
pub open spec fn action_name(a: Action) -> Seq<char> {
    match a {
        Action::OpenFile => "open_file"@,
        Action::SaveState => "save_state"@,
        Action::Search => "search"@,
        Action::ToggleSidebar => "toggle_sidebar"@,
        Action::EditTheme => "edit_theme"@,
        Action::GoToPage => "go_to_page"@,
        Action::KeybindsWindow => "keybinds_window"@,
        Action::FocusMode => "focus_mode"@,
        Action::ZoomIn => "zoom_in"@,
        Action::ZoomOut => "zoom_out"@,
        Action::FitWidth => "fit_width"@,
        Action::PrevPage => "prev_page"@,
        Action::NextPage => "next_page"@,
        Action::CycleTheme => "cycle_theme"@,
        Action::Bookmark => "bookmark"@,
        Action::CloseOverlay => "close_overlay"@,
        Action::Quit => "quit"@,
    }
}

/// The label an action has in the shortcuts window.
pub open spec fn action_label(a: Action) -> Seq<char> {
    match a {
        Action::OpenFile => "Open file"@,
        Action::SaveState => "Save state"@,
        Action::Search => "Search"@,
        Action::ToggleSidebar => "Toggle sidebar"@,
        Action::EditTheme => "Edit theme YAML"@,
        Action::GoToPage => "Go to page"@,
        Action::KeybindsWindow => "Keybinds"@,
        Action::FocusMode => "Focus mode"@,
        Action::ZoomIn => "Zoom in"@,
        Action::ZoomOut => "Zoom out"@,
        Action::FitWidth => "Fit-width zoom"@,
        Action::PrevPage => "Previous page"@,
        Action::NextPage => "Next page"@,
        Action::CycleTheme => "Cycle themes"@,
        Action::Bookmark => "Bookmark page"@,
        Action::CloseOverlay => "Close overlay"@,
        Action::Quit => "Quit"@,
    }
}

/// The key strings an action is bound to by default.
pub open spec fn default_specs(a: Action) -> Seq<Seq<char>> {
    match a {
        Action::OpenFile => seq!["Ctrl+O"@],
        Action::SaveState => seq!["Ctrl+S"@],
        Action::Search => seq!["Ctrl+F"@],
        Action::ToggleSidebar => seq!["Ctrl+B"@],
        Action::EditTheme => seq!["Ctrl+E"@],
        Action::GoToPage => seq!["Ctrl+G"@],
        Action::KeybindsWindow => seq!["Ctrl+K"@],
        Action::FocusMode => seq!["F11"@],
        Action::CloseOverlay => seq!["Esc"@],
        Action::ZoomIn => seq!["="@, "+"@, "Shift++"@, "Ctrl+="@, "Ctrl++"@, "Ctrl+Shift++"@],
        Action::ZoomOut => seq!["-"@],
        Action::FitWidth => seq!["0"@],
        Action::CycleTheme => seq!["T"@],
        Action::Bookmark => seq!["B"@],
        Action::Quit => seq!["Q"@],
        Action::PrevPage => seq!["Left"@, "PgUp"@],
        Action::NextPage => seq!["Right"@, "PgDn"@],
    }
}

impl Action {
    /// The action's name in the keybinds file.
    pub fn name(self) -> (n: &'static str)
        ensures
            n@ == action_name(self),
    {
        match self {
            Action::OpenFile => "open_file",
            Action::SaveState => "save_state",
            Action::Search => "search",
            Action::ToggleSidebar => "toggle_sidebar",
            Action::EditTheme => "edit_theme",
            Action::GoToPage => "go_to_page",
            Action::KeybindsWindow => "keybinds_window",
            Action::FocusMode => "focus_mode",
            Action::ZoomIn => "zoom_in",
            Action::ZoomOut => "zoom_out",
            Action::FitWidth => "fit_width",
            Action::PrevPage => "prev_page",
            Action::NextPage => "next_page",
            Action::CycleTheme => "cycle_theme",
            Action::Bookmark => "bookmark",
            Action::CloseOverlay => "close_overlay",
            Action::Quit => "quit",
        }
    }

    /// The action's label in the shortcuts window.
    pub fn label(self) -> (l: &'static str)
        ensures
            l@ == action_label(self),
    {
        match self {
            Action::OpenFile => "Open file",
            Action::SaveState => "Save state",
            Action::Search => "Search",
            Action::ToggleSidebar => "Toggle sidebar",
            Action::EditTheme => "Edit theme YAML",
            Action::GoToPage => "Go to page",
            Action::KeybindsWindow => "Keybinds",
            Action::FocusMode => "Focus mode",
            Action::ZoomIn => "Zoom in",
            Action::ZoomOut => "Zoom out",
            Action::FitWidth => "Fit-width zoom",
            Action::PrevPage => "Previous page",
            Action::NextPage => "Next page",
            Action::CycleTheme => "Cycle themes",
            Action::Bookmark => "Bookmark page",
            Action::CloseOverlay => "Close overlay",
            Action::Quit => "Quit",
        }
    }

    /// The action called `name`, if any.
    pub fn from_name(name: &str) -> (a: Option<Action>)
        ensures
            a == find_named(action_order(), name@),
            match a {
                Some(act) => action_name(act) == name@,
                None => forall|act: Action| action_name(act) != name@,
            },
    {
        let all = all_actions();
        let mut i: usize = 0;
        assert(all@.skip(0) =~= all@);
        while i < all.len()
            invariant
                i <= all@.len(),
                all@ == action_order(),
                forall|j: int| 0 <= j < i ==> action_name(#[trigger] all@[j]) != name@,
                find_named(action_order(), name@) == find_named(all@.skip(i as int), name@),
            decreases all@.len() - i,
        {
            assert(all@.skip(i as int).drop_first() =~= all@.skip(i + 1));
            assert(all@.skip(i as int)[0] == all@[i as int]);
            if str_equals(all[i].name(), name) {
                return Some(all[i]);
            }
            i = i + 1;
        }
        assert forall|act: Action| action_name(act) != name@ by {
            match act {
                Action::OpenFile => assert(all@[0] == act),
                Action::SaveState => assert(all@[1] == act),
                Action::Search => assert(all@[2] == act),
                Action::ToggleSidebar => assert(all@[3] == act),
                Action::EditTheme => assert(all@[4] == act),
                Action::GoToPage => assert(all@[5] == act),
                Action::KeybindsWindow => assert(all@[6] == act),
                Action::FocusMode => assert(all@[7] == act),
                Action::ZoomIn => assert(all@[8] == act),
                Action::ZoomOut => assert(all@[9] == act),
                Action::FitWidth => assert(all@[10] == act),
                Action::PrevPage => assert(all@[11] == act),
                Action::NextPage => assert(all@[12] == act),
                Action::CycleTheme => assert(all@[13] == act),
                Action::Bookmark => assert(all@[14] == act),
                Action::CloseOverlay => assert(all@[15] == act),
                Action::Quit => assert(all@[16] == act),
            }
        }
        None
    }

    /// The key strings this action is bound to by default.
    pub fn defaults(self) -> (specs: Vec<&'static str>)
        ensures
            specs@.map_values(|s: &'static str| s@) == default_specs(self),
    {
        let specs: Vec<&'static str> = match self {
            Action::OpenFile => vec!["Ctrl+O"],
            Action::SaveState => vec!["Ctrl+S"],
            Action::Search => vec!["Ctrl+F"],
            Action::ToggleSidebar => vec!["Ctrl+B"],
            Action::EditTheme => vec!["Ctrl+E"],
            Action::GoToPage => vec!["Ctrl+G"],
            Action::KeybindsWindow => vec!["Ctrl+K"],
            Action::FocusMode => vec!["F11"],
            Action::CloseOverlay => vec!["Esc"],
            Action::ZoomIn => vec!["=", "+", "Shift++", "Ctrl+=", "Ctrl++", "Ctrl+Shift++"],
            Action::ZoomOut => vec!["-"],
            Action::FitWidth => vec!["0"],
            Action::CycleTheme => vec!["T"],
            Action::Bookmark => vec!["B"],
            Action::Quit => vec!["Q"],
            Action::PrevPage => vec!["Left", "PgUp"],
            Action::NextPage => vec!["Right", "PgDn"],
        };
        assert(specs@.map_values(|s: &'static str| s@) =~= default_specs(self));
        specs
    }
}

/// A key on the keyboard, as bindings name it: digits `0`–`9`, letters
/// `A`–`Z` (by index), function keys `F1`–`F12`, and the named keys.
#[derive(Debug, Clone, Copy, PartialEq, Eq, Structural, Hash)]
pub enum Key {
    Digit(u8),
    Letter(u8),
    Function(u8),
    Plus,
    Equals,
    Minus,
    Comma,
    Period,
    Slash,
    Escape,
    Enter,
    Space,
    Tab,
    Backspace,
    Insert,
    Delete,
    Home,
    End,
    PageUp,
    PageDown,
    ArrowLeft,
    ArrowRight,
    ArrowUp,
    ArrowDown,
}

/// A key the bindings can name: digit below 10, letter below 26, function
/// key 1 to 12.
pub open spec fn key_wf(k: Key) -> bool {
    match k {
        Key::Digit(d) => d < 10,
        Key::Letter(l) => l < 26,
        Key::Function(f) => 1 <= f <= 12,
        _ => true,
    }
}

/// The function key number a lowercase name spells (`f1` … `f12`),
/// trying numbers from `n` up.
pub open spec fn function_key_from(lower: Seq<char>, n: nat) -> Option<u8>
    decreases 13 - n,
{
    if n < 1 || n > 12 {
        None
    } else if lower == seq!['f'] + decimal_digits(n) {
        Some(n as u8)
    } else {
        function_key_from(lower, n + 1)
    }
}

/// The key a lowercase multi-character name spells.
pub open spec fn named_key(lower: Seq<char>) -> Option<Key> {
    if lower == "+"@ || lower == "plus"@ {
        Some(Key::Plus)
    } else if lower == "="@ || lower == "equals"@ {
        Some(Key::Equals)
    } else if lower == "-"@ || lower == "minus"@ {
        Some(Key::Minus)
    } else if lower == ","@ || lower == "comma"@ {
        Some(Key::Comma)
    } else if lower == "."@ || lower == "period"@ {
        Some(Key::Period)
    } else if lower == "/"@ || lower == "slash"@ {
        Some(Key::Slash)
    } else if lower == "escape"@ || lower == "esc"@ {
        Some(Key::Escape)
    } else if lower == "enter"@ || lower == "return"@ {
        Some(Key::Enter)
    } else if lower == "space"@ {
        Some(Key::Space)
    } else if lower == "tab"@ {
        Some(Key::Tab)
    } else if lower == "backspace"@ {
        Some(Key::Backspace)
    } else if lower == "insert"@ {
        Some(Key::Insert)
    } else if lower == "delete"@ || lower == "del"@ {
        Some(Key::Delete)
    } else if lower == "home"@ {
        Some(Key::Home)
    } else if lower == "end"@ {
        Some(Key::End)
    } else if lower == "pageup"@ || lower == "pgup"@ {
        Some(Key::PageUp)
    } else if lower == "pagedown"@ || lower == "pgdown"@ || lower == "pgdn"@ {
        Some(Key::PageDown)
    } else if lower == "left"@ || lower == "arrowleft"@ {
        Some(Key::ArrowLeft)
    } else if lower == "right"@ || lower == "arrowright"@ {
        Some(Key::ArrowRight)
    } else if lower == "up"@ || lower == "arrowup"@ {
        Some(Key::ArrowUp)
    } else if lower == "down"@ || lower == "arrowdown"@ {
        Some(Key::ArrowDown)
    } else {
        match function_key_from(lower, 1) {
            Some(n) => Some(Key::Function(n)),
            None => None,
        }
    }
}

/// The key a lowercase name spells: one digit, one letter, or a named key.
pub open spec fn key_of(lower: Seq<char>) -> Option<Key> {
    if lower.len() == 1 && '0' <= lower[0] <= '9' {
        Some(Key::Digit(((lower[0] as u32) - 48) as u8))
    } else if lower.len() == 1 && 'a' <= lower[0] <= 'z' {
        Some(Key::Letter(((lower[0] as u32) - 97) as u8))
    } else {
        named_key(lower)
    }
}

fn function_key(lower: &str) -> (n: Option<u8>)
    ensures
        n == function_key_from(lower@, 1),
{
    proof {
        reveal_strlit("f");
        assert("f"@ =~= seq!['f']);
    }
    let mut k: u8 = 1;
    while k <= 12
        invariant
            1 <= k <= 13,
            "f"@ == seq!['f'],
            function_key_from(lower@, 1) == function_key_from(lower@, k as nat),
        decreases 13 - k,
    {
        let mut candidate = "f".to_owned();
        push_decimal(&mut candidate, k as u64);
        assert(candidate@ =~= seq!['f'] + decimal_digits(k as nat));
        if str_equals(lower, candidate.as_str()) {
            return Some(k);
        }
        k = k + 1;
    }
    None
}

fn named(lower: &str) -> (k: Option<Key>)
    ensures
        k == named_key(lower@),
{
    if str_equals(lower, "+") || str_equals(lower, "plus") {
        Some(Key::Plus)
    } else if str_equals(lower, "=") || str_equals(lower, "equals") {
        Some(Key::Equals)
    } else if str_equals(lower, "-") || str_equals(lower, "minus") {
        Some(Key::Minus)
    } else if str_equals(lower, ",") || str_equals(lower, "comma") {
        Some(Key::Comma)
    } else if str_equals(lower, ".") || str_equals(lower, "period") {
        Some(Key::Period)
    } else if str_equals(lower, "/") || str_equals(lower, "slash") {
        Some(Key::Slash)
    } else if str_equals(lower, "escape") || str_equals(lower, "esc") {
        Some(Key::Escape)
    } else if str_equals(lower, "enter") || str_equals(lower, "return") {
        Some(Key::Enter)
    } else if str_equals(lower, "space") {
        Some(Key::Space)
    } else if str_equals(lower, "tab") {
        Some(Key::Tab)
    } else if str_equals(lower, "backspace") {
        Some(Key::Backspace)
    } else if str_equals(lower, "insert") {
        Some(Key::Insert)
    } else if str_equals(lower, "delete") || str_equals(lower, "del") {
        Some(Key::Delete)
    } else if str_equals(lower, "home") {
        Some(Key::Home)
    } else if str_equals(lower, "end") {
        Some(Key::End)
    } else if str_equals(lower, "pageup") || str_equals(lower, "pgup") {
        Some(Key::PageUp)
    } else if str_equals(lower, "pagedown") || str_equals(lower, "pgdown") || str_equals(
        lower,
        "pgdn",
    ) {
        Some(Key::PageDown)
    } else if str_equals(lower, "left") || str_equals(lower, "arrowleft") {
        Some(Key::ArrowLeft)
    } else if str_equals(lower, "right") || str_equals(lower, "arrowright") {
        Some(Key::ArrowRight)
    } else if str_equals(lower, "up") || str_equals(lower, "arrowup") {
        Some(Key::ArrowUp)
    } else if str_equals(lower, "down") || str_equals(lower, "arrowdown") {
        Some(Key::ArrowDown)
    } else {
        match function_key(lower) {
            Some(n) => Some(Key::Function(n)),
            None => None,
        }
    }
}

/// The key `name` spells, case-insensitively (`Esc`, `PgDn`, bare `+`, …).
pub fn parse_key(name: &str) -> (k: Option<Key>)
    ensures
        k == key_of(ascii_lowered(name@)),
{
    let lower = to_ascii_lowercase(name);
    let l = lower.as_str();
    if l.unicode_len() == 1 {
        let c = l.get_char(0);
        if '0' <= c && c <= '9' {
            return Some(Key::Digit(((c as u32) - 48) as u8));
        }
        if 'a' <= c && c <= 'z' {
            return Some(Key::Letter(((c as u32) - 97) as u8));
        }
    }
    named(l)
}

/// The spelling of a key in labels: the inverse of [`parse_key`].
pub open spec fn key_label_spec(k: Key) -> Seq<char> {
    match k {
        Key::Plus => "+"@,
        Key::Equals => "="@,
        Key::Minus => "-"@,
        Key::Comma => ","@,
        Key::Period => "."@,
        Key::Slash => "/"@,
        Key::Escape => "Esc"@,
        Key::Enter => "Enter"@,
        Key::Space => "Space"@,
        Key::Tab => "Tab"@,
        Key::Backspace => "Backspace"@,
        Key::Insert => "Insert"@,
        Key::Delete => "Del"@,
        Key::Home => "Home"@,
        Key::End => "End"@,
        Key::PageUp => "PgUp"@,
        Key::PageDown => "PgDn"@,
        Key::ArrowLeft => "Left"@,
        Key::ArrowRight => "Right"@,
        Key::ArrowUp => "Up"@,
        Key::ArrowDown => "Down"@,
        Key::Letter(i) => if i < 26 {
            seq![((65 + i) as u8) as char]
        } else {
            "?"@
        },
        Key::Function(n) => if 1 <= n <= 12 {
            seq!['F'] + decimal_digits(n as nat)
        } else {
            "?"@
        },
        Key::Digit(d) => if d < 10 {
            seq![((48 + d) as u8) as char]
        } else {
            "?"@
        },
    }
}

/// Human spelling of a key, the inverse of [`parse_key`].
pub fn key_label(k: Key) -> (label: String)
    ensures
        label@ == key_label_spec(k),
{
    match k {
        Key::Plus => "+".to_owned(),
        Key::Equals => "=".to_owned(),
        Key::Minus => "-".to_owned(),
        Key::Comma => ",".to_owned(),
        Key::Period => ".".to_owned(),
        Key::Slash => "/".to_owned(),
        Key::Escape => "Esc".to_owned(),
        Key::Enter => "Enter".to_owned(),
        Key::Space => "Space".to_owned(),
        Key::Tab => "Tab".to_owned(),
        Key::Backspace => "Backspace".to_owned(),
        Key::Insert => "Insert".to_owned(),
        Key::Delete => "Del".to_owned(),
        Key::Home => "Home".to_owned(),
        Key::End => "End".to_owned(),
        Key::PageUp => "PgUp".to_owned(),
        Key::PageDown => "PgDn".to_owned(),
        Key::ArrowLeft => "Left".to_owned(),
        Key::ArrowRight => "Right".to_owned(),
        Key::ArrowUp => "Up".to_owned(),
        Key::ArrowDown => "Down".to_owned(),
        Key::Letter(i) => {
            if i < 26 {
                let mut s = String::new();
                push_char(&mut s, (65 + i) as char);
                s
            } else {
                "?".to_owned()
            }
        },
        Key::Function(n) => {
            if 1 <= n && n <= 12 {
                proof {
                    reveal_strlit("F");
                }
                let mut s = "F".to_owned();
                push_decimal(&mut s, n as u64);
                s
            } else {
                "?".to_owned()
            }
        },
        Key::Digit(d) => {
            if d < 10 {
                let mut s = String::new();
                push_char(&mut s, (48 + d) as char);
                s
            } else {
                "?".to_owned()
            }
        },
    }
}

/// The modifier keys held during an input event; `meta` is the platform's
/// command key.
#[derive(Debug, Clone, Copy, PartialEq, Eq, Structural, Default)]
pub struct Modifiers {
    pub ctrl: bool,
    pub shift: bool,
    pub alt: bool,
    pub meta: bool,
}

/// A parsed key string plus its modifier requirements. A binding matches
/// an input event when exactly its modifiers are held, so `Ctrl+Q` never
/// fires a plain `Q` action and vice versa.
#[derive(Debug, Clone, Copy, PartialEq, Eq, Structural, Hash)]
pub struct Binding {
    pub ctrl: bool,
    pub shift: bool,
    pub alt: bool,
    pub meta: bool,
    pub key: Key,
}

/// Whether `s` begins with `p`.
pub open spec fn starts_with(s: Seq<char>, p: Seq<char>) -> bool {
    p.len() <= s.len() && s.take(p.len() as int) == p
}

/// The leading modifier prefix of an already lowercased key string: the
/// modifier bits it requires (ctrl, shift, alt, meta) and the rest.
pub open spec fn modifier_prefix_spec(rest: Seq<char>) -> Option<(Seq<bool>, Seq<char>)> {
    if starts_with(rest, "ctrl+"@) {
        Some((seq![true, false, false, false], rest.skip("ctrl+"@.len() as int)))
    } else if starts_with(rest, "shift+"@) {
        Some((seq![false, true, false, false], rest.skip("shift+"@.len() as int)))
    } else if starts_with(rest, "alt+"@) {
        Some((seq![false, false, true, false], rest.skip("alt+"@.len() as int)))
    } else if starts_with(rest, "meta+"@) {
        Some((seq![false, false, false, true], rest.skip("meta+"@.len() as int)))
    } else if starts_with(rest, "cmd+"@) {
        Some((seq![false, false, false, true], rest.skip("cmd+"@.len() as int)))
    } else {
        None
    }
}

/// `s` after the prefix `p`, if it begins with it.
fn strip_prefix(s: &str, p: &str) -> (rest: Option<String>)
    ensures
        match rest {
            Some(t) => starts_with(s@, p@) && t@ == s@.skip(p@.len() as int),
            None => !starts_with(s@, p@),
        },
{
    let n: usize = s.unicode_len();
    let k: usize = p.unicode_len();
    if k > n {
        return None;
    }
    let head = char_range(s, 0, k);
    if str_equals(head.as_str(), p) {
        Some(char_range(s, k, n))
    } else {
        None
    }
}

/// Leading `ctrl+`, `shift+`, `alt+`, `meta+` or `cmd+` prefix of an
/// already lowercased key string: the required bits and the remainder.
pub fn modifier_prefix(rest: &str) -> (r: Option<([bool; 4], String)>)
    ensures
        match r {
            Some((bits, tail)) => modifier_prefix_spec(rest@) == Some((bits@, tail@)),
            None => modifier_prefix_spec(rest@) is None,
        },
{
    if let Some(tail) = strip_prefix(rest, "ctrl+") {
        let bits = [true, false, false, false];
        assert(bits@ =~= seq![true, false, false, false]);
        return Some((bits, tail));
    }
    if let Some(tail) = strip_prefix(rest, "shift+") {
        let bits = [false, true, false, false];
        assert(bits@ =~= seq![false, true, false, false]);
        return Some((bits, tail));
    }
    if let Some(tail) = strip_prefix(rest, "alt+") {
        let bits = [false, false, true, false];
        assert(bits@ =~= seq![false, false, true, false]);
        return Some((bits, tail));
    }
    if let Some(tail) = strip_prefix(rest, "meta+") {
        let bits = [false, false, false, true];
        assert(bits@ =~= seq![false, false, false, true]);
        return Some((bits, tail));
    }
    if let Some(tail) = strip_prefix(rest, "cmd+") {
        let bits = [false, false, false, true];
        assert(bits@ =~= seq![false, false, false, true]);
        return Some((bits, tail));
    }
    None
}

/// Strip every leading modifier prefix: the modifiers required, and the
/// key name left.
pub open spec fn strip_modifiers(rest: Seq<char>) -> (bool, bool, bool, bool, Seq<char>)
    decreases rest.len(),
{
    match modifier_prefix_spec(rest) {
        Some((bits, tail)) => if tail.len() < rest.len() {
            let (c, s, a, m, key) = strip_modifiers(tail);
            (bits[0] || c, bits[1] || s, bits[2] || a, bits[3] || m, key)
        } else {
            (false, false, false, false, rest)
        },
        None => (false, false, false, false, rest),
    }
}

/// The binding a key string spells: white space trimmed, case ignored,
/// repeatable modifier prefixes, then one key name.
pub open spec fn binding_of(spec: Seq<char>) -> Option<Binding> {
    let lowered = ascii_lowered(trimmed(spec));
    if lowered.len() == 0 {
        None
    } else {
        let (c, s, a, m, rest) = strip_modifiers(lowered);
        match key_of(ascii_lowered(rest)) {
            Some(k) => Some(Binding { ctrl: c, shift: s, alt: a, meta: m, key: k }),
            None => None,
        }
    }
}

/// How a binding is written in the shortcuts window: its modifiers in the
/// order Ctrl, Shift, Alt, Meta, then the key.
pub open spec fn binding_label(b: Binding) -> Seq<char> {
    (if b.ctrl {
        "Ctrl+"@
    } else {
        seq![]
    }) + (if b.shift {
        "Shift+"@
    } else {
        seq![]
    }) + (if b.alt {
        "Alt+"@
    } else {
        seq![]
    }) + (if b.meta {
        "Meta+"@
    } else {
        seq![]
    }) + key_label_spec(b.key)
}

/// Whether a binding fires for an event with `pressed` held: every
/// modifier bit must agree.
pub open spec fn fires(b: Binding, pressed: Modifiers) -> bool {
    b.ctrl == pressed.ctrl && b.shift == pressed.shift && b.alt == pressed.alt && b.meta
        == pressed.meta
}

impl Binding {
    /// Parse `"Ctrl+Shift+S"`-style strings: repeatable `Ctrl`/`Shift`/
    /// `Alt`/`Meta` prefixes, then one key name. Case-insensitive.
    pub fn parse(spec: &str) -> (b: Option<Binding>)
        ensures
            b == binding_of(spec@),
    {
        let trimmed_spec = trim(spec);
        let lowered = to_ascii_lowercase(trimmed_spec.as_str());
        if lowered.as_str().unicode_len() == 0 {
            return None;
        }
        let mut ctrl = false;
        let mut shift = false;
        let mut alt = false;
        let mut meta = false;
        let mut rest = lowered;
        loop
            invariant
                ({
                    let (c, s, a, m, k) = strip_modifiers(rest@);
                    strip_modifiers(ascii_lowered(trimmed(spec@))) == (
                        ctrl || c,
                        shift || s,
                        alt || a,
                        meta || m,
                        k,
                    )
                }),
            ensures
                modifier_prefix_spec(rest@) is None,
                ({
                    let (c, s, a, m, k) = strip_modifiers(rest@);
                    strip_modifiers(ascii_lowered(trimmed(spec@))) == (
                        ctrl || c,
                        shift || s,
                        alt || a,
                        meta || m,
                        k,
                    )
                }),
            decreases rest@.len(),
        {
            match modifier_prefix(rest.as_str()) {
                Some((bits, tail)) => {
                    proof {
                        reveal_strlit("ctrl+");
                        reveal_strlit("shift+");
                        reveal_strlit("alt+");
                        reveal_strlit("meta+");
                        reveal_strlit("cmd+");
                    }
                    assert(tail@.len() < rest@.len());
                    ctrl = ctrl || bits[0];
                    shift = shift || bits[1];
                    alt = alt || bits[2];
                    meta = meta || bits[3];
                    rest = tail;
                },
                None => {
                    break ;
                },
            }
        }
        match parse_key(rest.as_str()) {
            Some(key) => Some(Binding { ctrl, shift, alt, meta, key }),
            None => None,
        }
    }

    /// Whether this binding fires with `pressed` held: exactly its
    /// modifiers, no more and no fewer.
    pub fn matches(&self, pressed: Modifiers) -> (fire: bool)
        ensures
            fire == fires(*self, pressed),
    {
        self.ctrl == pressed.ctrl && self.shift == pressed.shift && self.alt == pressed.alt
            && self.meta == pressed.meta
    }

    /// How the binding is written: modifiers, then the key.
    pub fn label(self) -> (text: String)
        ensures
            text@ == binding_label(self),
    {
        let mut text = String::new();
        if self.ctrl {
            text = concat(text.as_str(), "Ctrl+");
        }
        if self.shift {
            text = concat(text.as_str(), "Shift+");
        }
        if self.alt {
            text = concat(text.as_str(), "Alt+");
        }
        if self.meta {
            text = concat(text.as_str(), "Meta+");
        }
        let key = key_label(self.key);
        let text = concat(text.as_str(), key.as_str());
        assert(text@ =~= binding_label(self));
        text
    }
}

/// The first action of `acts` called `name`.
pub open spec fn find_named(acts: Seq<Action>, name: Seq<char>) -> Option<Action>
    decreases acts.len(),
{
    if acts.len() == 0 {
        None
    } else if action_name(acts[0]) == name {
        Some(acts[0])
    } else {
        find_named(acts.drop_first(), name)
    }
}

/// The bindings the key strings `specs` spell for action `a`, in order;
/// strings that do not parse are skipped.
pub open spec fn parsed_claims(specs: Seq<Seq<char>>, a: Action) -> Seq<(Binding, Action)>
    decreases specs.len(),
{
    if specs.len() == 0 {
        seq![]
    } else {
        parsed_claims(specs.drop_last(), a) + match binding_of(specs.last()) {
            Some(b) => seq![(b, a)],
            None => seq![],
        }
    }
}

/// The default claims of the actions `acts`, action by action.
pub open spec fn default_claims_of(acts: Seq<Action>) -> Seq<(Binding, Action)>
    decreases acts.len(),
{
    if acts.len() == 0 {
        seq![]
    } else {
        default_claims_of(acts.drop_last()) + parsed_claims(
            default_specs(acts.last()),
            acts.last(),
        )
    }
}

/// Every default claim, in canonical action order.
pub open spec fn default_claims() -> Seq<(Binding, Action)> {
    default_claims_of(action_order())
}

/// The action of the last claim that fires for `key` with `pressed` held.
pub open spec fn last_firing(claims: Seq<(Binding, Action)>, key: Key, pressed: Modifiers) -> Option<
    Action,
>
    decreases claims.len(),
{
    if claims.len() == 0 {
        None
    } else if claims.last().0.key == key && fires(claims.last().0, pressed) {
        Some(claims.last().1)
    } else {
        last_firing(claims.drop_last(), key, pressed)
    }
}

/// The labels of the bindings `claims` give action `a`, joined by ` / `.
pub open spec fn keys_text(claims: Seq<(Binding, Action)>, a: Action) -> Seq<char>
    decreases claims.len(),
{
    if claims.len() == 0 {
        seq![]
    } else {
        let before = keys_text(claims.drop_last(), a);
        if claims.last().1 == a {
            if before.len() == 0 {
                binding_label(claims.last().0)
            } else {
                before + " / "@ + binding_label(claims.last().0)
            }
        } else {
            before
        }
    }
}

/// The shortcuts-window text for action `a`: its bindings, or `—` when it
/// has none.
pub open spec fn row_text(claims: Seq<(Binding, Action)>, a: Action) -> Seq<char> {
    if keys_text(claims, a).len() == 0 {
        seq!['\u{2014}']
    } else {
        keys_text(claims, a)
    }
}

/// Index of the settled claim for binding `b`, if any.
pub open spec fn claim_of(settled: Seq<(Binding, Action)>, b: Binding) -> Option<int> {
    if exists|j: int| 0 <= j < settled.len() && settled[j].0 == b {
        Some(choose|j: int| 0 <= j < settled.len() && settled[j].0 == b)
    } else {
        None
    }
}

/// Settle shared bindings last-wins, in claim order: a claim for a binding
/// already placed takes that place over; a new binding goes last.
pub open spec fn settle(claims: Seq<(Binding, Action)>) -> Seq<(Binding, Action)>
    decreases claims.len(),
{
    if claims.len() == 0 {
        seq![]
    } else {
        let placed = settle(claims.drop_last());
        let (b, a) = claims.last();
        match claim_of(placed, b) {
            Some(j) => placed.update(j, (b, a)),
            None => placed.push((b, a)),
        }
    }
}

/// No binding is claimed twice.
pub open spec fn bindings_unique(s: Seq<(Binding, Action)>) -> bool {
    forall|i: int, j: int| 0 <= i < j < s.len() ==> s[i].0 != s[j].0
}

/// The effective keybind set: ordered `(binding, action)` claims, plus the
/// config path for the shortcuts-window hint row.
pub struct Keybinds {
    pub path: Option<String>,
    entries: Vec<(Binding, Action)>,
}

impl Keybinds {
    /// The claims in effect, in order.
    pub closed spec fn claims(&self) -> Seq<(Binding, Action)> {
        self.entries@
    }

    /// Where the keybinds file lives, if known.
    pub closed spec fn file(&self) -> Option<String> {
        self.path
    }

    /// The claims in effect, in order.
    pub fn entries(&self) -> (e: &[(Binding, Action)])
        ensures
            e@ == self.claims(),
    {
        self.entries.as_slice()
    }

    /// The default keybinds: every default key string of every action, in
    /// canonical order.
    pub fn defaults(path: Option<String>) -> (k: Keybinds)
        ensures
            k.claims() == default_claims(),
            k.file() == path,
    {
        let all = all_actions();
        let mut entries: Vec<(Binding, Action)> = Vec::new();
        let mut i: usize = 0;
        while i < all.len()
            invariant
                i <= all@.len(),
                all@ == action_order(),
                entries@ == default_claims_of(all@.take(i as int)),
            decreases all@.len() - i,
        {
            let action = all[i];
            let specs = action.defaults();
            let ghost before = entries@;
            let mut j: usize = 0;
            while j < specs.len()
                invariant
                    j <= specs@.len(),
                    specs@.map_values(|s: &'static str| s@) == default_specs(action),
                    entries@ == before + parsed_claims(
                        default_specs(action).take(j as int),
                        action,
                    ),
                decreases specs@.len() - j,
            {
                assert(default_specs(action).take(j + 1).drop_last() =~= default_specs(
                    action,
                ).take(j as int));
                assert(default_specs(action)[j as int] == specs@[j as int]@);
                match Binding::parse(specs[j]) {
                    Some(b) => {
                        entries.push((b, action));
                    },
                    None => {},
                }
                assert(entries@ =~= before + parsed_claims(
                    default_specs(action).take(j + 1),
                    action,
                ));
                j = j + 1;
            }
            assert(default_specs(action).take(specs@.len() as int) =~= default_specs(action));
            assert(all@.take(i + 1).drop_last() =~= all@.take(i as int));
            i = i + 1;
        }
        assert(all@.take(all@.len() as int) =~= all@);
        Keybinds { path, entries }
    }

    /// The action a pressed key with `pressed` modifiers resolves to: the
    /// last claim whose key and exact modifiers match. (Every such claim
    /// needs the same number of modifiers, so the most specific is the
    /// last.)
    pub fn action_for(&self, key: Key, pressed: Modifiers) -> (a: Option<Action>)
        ensures
            a == last_firing(self.claims(), key, pressed),
    {
        let mut i: usize = self.entries.len();
        assert(self.entries@.take(i as int) =~= self.entries@);
        while i > 0
            invariant
                i <= self.entries@.len(),
                last_firing(self.entries@, key, pressed) == last_firing(
                    self.entries@.take(i as int),
                    key,
                    pressed,
                ),
            decreases i,
        {
            let (binding, action) = self.entries[i - 1];
            assert(self.entries@.take(i as int).drop_last() =~= self.entries@.take(i - 1));
            if binding.key == key && binding.matches(pressed) {
                return Some(action);
            }
            i = i - 1;
        }
        None
    }

    /// Shortcuts-window rows in canonical order: label and rendered
    /// bindings; an action that lost every binding shows `—`.
    pub fn rows(&self) -> (rows: Vec<(&'static str, String)>)
        ensures
            rows@.len() == action_order().len(),
            forall|i: int|
                0 <= i < rows@.len() ==> (#[trigger] rows@[i]).0@ == action_label(action_order()[i])
                    && rows@[i].1@ == row_text(self.claims(), action_order()[i]),
    {
        let all = all_actions();
        let mut rows: Vec<(&'static str, String)> = Vec::new();
        let mut i: usize = 0;
        while i < all.len()
            invariant
                i <= all@.len(),
                all@ == action_order(),
                rows@.len() == i,
                forall|k: int|
                    0 <= k < i ==> (#[trigger] rows@[k]).0@ == action_label(action_order()[k])
                        && rows@[k].1@ == row_text(self.claims(), action_order()[k]),
            decreases all@.len() - i,
        {
            let action = all[i];
            let mut keys = String::new();
            let mut j: usize = 0;
            while j < self.entries.len()
                invariant
                    j <= self.entries@.len(),
                    keys@ == keys_text(self.entries@.take(j as int), action),
                decreases self.entries@.len() - j,
            {
                assert(self.entries@.take(j + 1).drop_last() =~= self.entries@.take(j as int));
                let (binding, owner) = self.entries[j];
                if owner == action {
                    let label = binding.label();
                    if keys.as_str().unicode_len() == 0 {
                        keys = label;
                    } else {
                        let joined = concat(keys.as_str(), " / ");
                        keys = concat(joined.as_str(), label.as_str());
                    }
                }
                j = j + 1;
            }
            assert(self.entries@.take(self.entries@.len() as int) =~= self.entries@);
            if keys.as_str().unicode_len() == 0 {
                keys = String::new();
                push_char(&mut keys, '\u{2014}');
            }
            rows.push((action.label(), keys));
            i = i + 1;
        }
        rows
    }
}

fn find_claim(settled: &Vec<(Binding, Action)>, binding: Binding) -> (at: Option<usize>)
    ensures
        match at {
            Some(j) => j < settled@.len() && settled@[j as int].0 == binding,
            None => claim_of(settled@, binding) is None,
        },
{
    let mut j: usize = 0;
    while j < settled.len()
        invariant
            j <= settled@.len(),
            forall|k: int| 0 <= k < j ==> settled@[k].0 != binding,
        decreases settled@.len() - j,
    {
        if settled[j].0 == binding {
            return Some(j);
        }
        j = j + 1;
    }
    None
}

/// Settle the claims last-wins into the effective keybind set.
pub fn resolve_claims(path: Option<String>, claims: Vec<(Binding, Action)>) -> (k: Keybinds)
    ensures
        k.claims() == settle(claims@),
        bindings_unique(k.claims()),
        k.file() == path,
{
    let mut settled: Vec<(Binding, Action)> = Vec::new();
    let mut i: usize = 0;
    while i < claims.len()
        invariant
            i <= claims@.len(),
            settled@ == settle(claims@.take(i as int)),
            bindings_unique(settled@),
        decreases claims@.len() - i,
    {
        assert(claims@.take(i + 1).drop_last() =~= claims@.take(i as int));
        let (binding, action) = claims[i];
        let found = find_claim(&settled, binding);
        let ghost placed = settled@;
        match found {
            Some(at) => {
                proof {
                    let c = choose|c: int| 0 <= c < placed.len() && placed[c].0 == binding;
                    assert(placed[at as int].0 == binding);
                    if c != at {
                        assert(placed[c].0 != placed[at as int].0);
                    }
                }
                settled.set(at, (binding, action));
                assert(settled@ =~= placed.update(at as int, (binding, action)));
            },
            None => {
                settled.push((binding, action));
                assert(settled@ =~= placed.push((binding, action)));
            },
        }
        i = i + 1;
    }
    assert(claims@.take(claims@.len() as int) =~= claims@);
    Keybinds { path, entries: settled }
}

/// Whether `needle` occurs in `hay` as a run of characters.
pub open spec fn contains_run(hay: Seq<char>, needle: Seq<char>) -> bool {
    exists|i: int|
        0 <= i && i + needle.len() <= hay.len() && #[trigger] hay.subrange(i, i + needle.len())
            == needle
}

/// Whether the characters of `needle` occur in `hay` at `at`.
fn run_at(hay: &str, at: usize, needle: &str) -> (found: bool)
    requires
        at + needle@.len() <= hay@.len(),
    ensures
        found == (hay@.subrange(at as int, at + needle@.len()) == needle@),
{
    let h: usize = hay.unicode_len();
    let n: usize = needle.unicode_len();
    let mut k: usize = 0;
    while k < n
        invariant
            k <= n,
            n == needle@.len(),
            h == hay@.len(),
            at + n <= h,
            forall|j: int| 0 <= j < k ==> hay@[at + j] == needle@[j],
        decreases n - k,
    {
        if hay.get_char(at + k) != needle.get_char(k) {
            assert(hay@.subrange(at as int, at + n)[k as int] != needle@[k as int]);
            return false;
        }
        k = k + 1;
    }
    assert(hay@.subrange(at as int, at + n) =~= needle@);
    true
}

fn has_run(hay: &str, needle: &str) -> (found: bool)
    ensures
        found == contains_run(hay@, needle@),
{
    let h: usize = hay.unicode_len();
    let n: usize = needle.unicode_len();
    if n > h {
        return false;
    }
    let last: usize = h - n;
    let mut at: usize = 0;
    while at <= last
        invariant
            n == needle@.len(),
            h == hay@.len(),
            n <= h,
            last == h - n,
            forall|i: int| 0 <= i < at ==> #[trigger] hay@.subrange(i, i + n) != needle@,
        decreases last + 1 - at,
    {
        if run_at(hay, at, needle) {
            return true;
        }
        if at == last {
            return false;
        }
        at = at + 1;
    }
    false
}

/// Whether the shortcuts-window filter shows a row: an empty (or blank)
/// filter shows every row; otherwise the row's keys and label, as
/// `"{keys} {label}"`, must contain the trimmed filter, compared in
/// lowercase.
pub fn shortcut_shown(keys: &str, label: &str, filter: &str) -> (shown: bool)
    ensures
        shown == (lowercase(trimmed(filter@)).len() == 0 || contains_run(
            lowercase(keys@ + " "@ + label@),
            lowercase(trimmed(filter@)),
        )),
{
    let needle = to_lowercase(trim(filter).as_str());
    if needle.as_str().unicode_len() == 0 {
        return true;
    }
    let with_space = concat(keys, " ");
    let row = concat(with_space.as_str(), label);
    let hay = to_lowercase(row.as_str());
    has_run(hay.as_str(), needle.as_str())
}

/// The text of a JSON string value.
pub open spec fn text_of(v: JsonValue) -> Seq<char> {
    match v {
        JsonValue::Text(s) => s@,
        _ => seq![],
    }
}

/// The key strings a binding value holds: a string, or a list of strings;
/// `None` for anything else.
pub open spec fn specs_of(v: JsonValue) -> Option<Seq<Seq<char>>> {
    match v {
        JsonValue::Text(s) => Some(seq![s@]),
        JsonValue::List(items) => if forall|i: int| 0 <= i < items@.len() ==> items@[i] is Text {
            Some(items@.map_values(|x: JsonValue| text_of(x)))
        } else {
            None
        },
        _ => None,
    }
}

/// The bindings `specs` spell, if every one parses.
pub open spec fn parse_all(specs: Seq<Seq<char>>) -> Option<Seq<Binding>>
    decreases specs.len(),
{
    if specs.len() == 0 {
        Some(seq![])
    } else {
        match (parse_all(specs.drop_last()), binding_of(specs.last())) {
            (Some(bs), Some(b)) => Some(bs.push(b)),
            _ => None,
        }
    }
}

/// The claims not owned by action `a`, in order.
pub open spec fn claims_without(claims: Seq<(Binding, Action)>, a: Action) -> Seq<(Binding, Action)>
    decreases claims.len(),
{
    if claims.len() == 0 {
        seq![]
    } else {
        claims_without(claims.drop_last(), a) + if claims.last().1 == a {
            seq![]
        } else {
            seq![claims.last()]
        }
    }
}

/// The claims after one member of the keybinds file: a valid entry for a
/// known action replaces that action's claims with its own bindings, at the
/// end; the `schema_version` key, unknown actions, values that are not key
/// strings, empty lists and unparsable keys change nothing.
pub open spec fn merge_entry(claims: Seq<(Binding, Action)>, name: Seq<char>, value: JsonValue) -> Seq<
    (Binding, Action),
> {
    if name == "schema_version"@ {
        claims
    } else {
        match find_named(action_order(), name) {
            None => claims,
            Some(a) => match specs_of(value) {
                None => claims,
                Some(specs) => if specs.len() == 0 {
                    claims
                } else {
                    match parse_all(specs) {
                        None => claims,
                        Some(bs) => claims_without(claims, a) + bs.map_values(
                            |b: Binding| (b, a),
                        ),
                    }
                },
            },
        }
    }
}

/// The claims after the members `entries[order[0]]`, `entries[order[1]]`, …
pub open spec fn merge_in_order(
    claims: Seq<(Binding, Action)>,
    entries: Seq<(String, JsonValue)>,
    order: Seq<usize>,
) -> Seq<(Binding, Action)>
    decreases order.len(),
{
    if order.len() == 0 {
        claims
    } else {
        let before = merge_in_order(claims, entries, order.drop_last());
        let e = entries[order.last() as int];
        merge_entry(before, e.0@, e.1)
    }
}

/// `order` visits every member once, by ascending name.
pub open spec fn sorts_by_name(entries: Seq<(String, JsonValue)>, order: Seq<usize>) -> bool {
    &&& order.len() == entries.len()
    &&& forall|i: int| 0 <= i < order.len() ==> order[i] < entries.len()
    &&& forall|i: int, j: int| 0 <= i < j < order.len() ==> order[i] != order[j]
    &&& forall|i: int, j: int|
        0 <= i < j < order.len() ==> !lex_lt(entries[order[j] as int].0@, entries[order[i] as int].0@)
}

/// The members' indices ordered by ascending name.
pub fn name_order(entries: &Vec<(String, JsonValue)>) -> (order: Vec<usize>)
    ensures
        sorts_by_name(entries@, order@),
{
    let mut names: Vec<String> = Vec::new();
    let mut k: usize = 0;
    while k < entries.len()
        invariant
            k <= entries@.len(),
            names@.len() == k,
            forall|i: int| 0 <= i < k ==> (#[trigger] names@[i])@ == entries@[i].0@,
        decreases entries@.len() - k,
    {
        names.push(entries[k].0.clone());
        k = k + 1;
    }
    let order = text_order(&names);
    proof {
        let texts = names@.map_values(|t: String| t@);
        assert forall|i: int| 0 <= i < entries@.len() implies texts[i] == entries@[i].0@ by {}
        assert forall|i: int, j: int| 0 <= i < j < order@.len() implies !lex_lt(
            entries@[order@[j] as int].0@,
            entries@[order@[i] as int].0@,
        ) by {
            assert(!lex_lt(texts[order@[j] as int], texts[order@[i] as int]));
        }
    }
    order
}

/// The key strings a binding value holds, if it is a string or a list of
/// strings.
pub fn value_specs(value: Option<&JsonValue>) -> (specs: Option<Vec<String>>)
    ensures
        match value {
            None => specs is None,
            Some(v) => match specs {
                Some(s) => specs_of(*v) == Some(s@.map_values(|t: String| t@)),
                None => specs_of(*v) is None,
            },
        },
{
    match value {
        None => None,
        Some(JsonValue::Text(key)) => {
            let mut out: Vec<String> = Vec::new();
            out.push(key.clone());
            assert(out@.map_values(|t: String| t@) =~= seq![key@]);
            Some(out)
        },
        Some(JsonValue::List(keys)) => {
            let mut out: Vec<String> = Vec::new();
            let mut i: usize = 0;
            while i < keys.len()
                invariant
                    i <= keys@.len(),
                    value is Some,
                    *value.unwrap() == JsonValue::List(*keys),
                    out@.len() == i,
                    forall|j: int| 0 <= j < i ==> keys@[j] is Text,
                    forall|j: int| 0 <= j < i ==> (#[trigger] out@[j])@ == text_of(keys@[j]),
                decreases keys@.len() - i,
            {
                match &keys[i] {
                    JsonValue::Text(key) => {
                        out.push(key.clone());
                    },
                    _ => {
                        assert(!(keys@[i as int] is Text));
                        return None;
                    },
                }
                i = i + 1;
            }
            assert(out@.map_values(|t: String| t@) =~= keys@.map_values(|x: JsonValue| text_of(x)));
            Some(out)
        },
        Some(_) => None,
    }
}

/// Apply one member of the keybinds file to the claims.
fn merge_entry_into(claims: &mut Vec<(Binding, Action)>, name: &str, value: &JsonValue)
    ensures
        final(claims)@ == merge_entry(old(claims)@, name@, *value),
{
    if str_equals(name, "schema_version") {
        return;
    }
    let action = match Action::from_name(name) {
        Some(a) => a,
        None => return,
    };
    let specs = match value_specs(Some(value)) {
        Some(s) => s,
        None => return,
    };
    if specs.len() == 0 {
        return;
    }
    let ghost views = specs@.map_values(|t: String| t@);
    let mut parsed: Vec<Binding> = Vec::new();
    let mut i: usize = 0;
    while i < specs.len()
        invariant
            i <= specs@.len(),
            views == specs@.map_values(|t: String| t@),
            parse_all(views.take(i as int)) == Some(parsed@),
            claims@ == old(claims)@,
            name@ != "schema_version"@,
            find_named(action_order(), name@) == Some(action),
            specs_of(*value) == Some(views),
            views.len() > 0,
        decreases specs@.len() - i,
    {
        assert(views.take(i + 1).drop_last() =~= views.take(i as int));
        match Binding::parse(specs[i].as_str()) {
            Some(b) => {
                parsed.push(b);
            },
            None => {
                proof {
                    assert(parse_all(views.take(i + 1)) is None);
                    if parse_all(views) is Some {
                        lemma_parse_all_prefix(views, i + 1);
                    }
                }
                return;
            },
        }
        i = i + 1;
    }
    assert(views.take(views.len() as int) =~= views);
    let ghost old_claims = claims@;
    let mut kept: Vec<(Binding, Action)> = Vec::new();
    let mut j: usize = 0;
    while j < claims.len()
        invariant
            j <= claims@.len(),
            claims@ == old_claims,
            kept@ == claims_without(claims@.take(j as int), action),
        decreases claims@.len() - j,
    {
        assert(claims@.take(j + 1).drop_last() =~= claims@.take(j as int));
        if claims[j].1 != action {
            kept.push(claims[j]);
        }
        j = j + 1;
    }
    assert(claims@.take(claims@.len() as int) =~= claims@);
    let ghost base = kept@;
    let mut k: usize = 0;
    while k < parsed.len()
        invariant
            k <= parsed@.len(),
            kept@ == base + parsed@.take(k as int).map_values(|b: Binding| (b, action)),
        decreases parsed@.len() - k,
    {
        kept.push((parsed[k], action));
        assert(parsed@.take(k + 1).map_values(|b: Binding| (b, action)) =~= parsed@.take(
            k as int,
        ).map_values(|b: Binding| (b, action)).push((parsed@[k as int], action)));
        k = k + 1;
    }
    assert(parsed@.take(parsed@.len() as int) =~= parsed@);
    *claims = kept;
}

proof fn lemma_parse_all_prefix(specs: Seq<Seq<char>>, k: int)
    requires
        0 <= k <= specs.len(),
        parse_all(specs) is Some,
    ensures
        parse_all(specs.take(k)) is Some,
    decreases specs.len(),
{
    if k == specs.len() {
        assert(specs.take(k) =~= specs);
    } else {
        lemma_parse_all_prefix(specs.drop_last(), k);
        assert(specs.drop_last().take(k) =~= specs.take(k));
    }
}

/// The default claims overlaid with the valid members of a keybinds file
/// object, taken by ascending name so that later names win a contested
/// key, then settled last-wins.
pub fn merged(path: Option<String>, members: &Vec<(String, JsonValue)>) -> (k: Keybinds)
    ensures
        k.file() == path,
        bindings_unique(k.claims()),
        exists|order: Seq<usize>|
            sorts_by_name(members@, order) && k.claims() == settle(
                merge_in_order(default_claims(), members@, order),
            ),
{
    let mut claims = Keybinds::defaults(None).entries;
    let order = name_order(members);
    let mut i: usize = 0;
    while i < order.len()
        invariant
            i <= order@.len(),
            sorts_by_name(members@, order@),
            claims@ == merge_in_order(default_claims(), members@, order@.take(i as int)),
        decreases order@.len() - i,
    {
        assert(order@.take(i + 1).drop_last() =~= order@.take(i as int));
        let at = order[i];
        merge_entry_into(&mut claims, members[at].0.as_str(), &members[at].1);
        i = i + 1;
    }
    assert(order@.take(order@.len() as int) =~= order@);
    resolve_claims(path, claims)
}

/// Version of the default binding lists this build ships; the seeded
/// document carries it as `schema_version`.
pub const DEFAULTS_SCHEMA_VERSION: u64 = 2;

/// The `zoom_in` list that schema version 1 seeded, superseded in version 2.
pub open spec fn legacy_zoom_in() -> Seq<Seq<char>> {
    seq!["+"@, "="@, "Shift+="@, "Ctrl+="@, "Ctrl++"@, "Ctrl+Shift+="@]
}

/// Whether JSON value `v` writes the key strings `specs` as the keybinds
/// file does: one binding as a plain string, several as a list.
pub open spec fn spells(v: JsonValue, specs: Seq<Seq<char>>) -> bool {
    if specs.len() == 1 {
        v is Text && text_of(v) == specs[0]
    } else {
        &&& v is List
        &&& v->List_0@.len() == specs.len()
        &&& forall|i: int|
            0 <= i < specs.len() ==> (#[trigger] v->List_0@[i]) is Text && text_of(v->List_0@[i])
                == specs[i]
    }
}

/// A JSON list of the given strings.
fn spelled(specs: Vec<&'static str>) -> (v: JsonValue)
    ensures
        spells(v, specs@.map_values(|s: &'static str| s@)),
{
    let ghost views = specs@.map_values(|s: &'static str| s@);
    if specs.len() == 1 {
        return JsonValue::Text(specs[0].to_owned());
    }
    let mut items: Vec<JsonValue> = Vec::new();
    let mut i: usize = 0;
    while i < specs.len()
        invariant
            i <= specs@.len(),
            views == specs@.map_values(|s: &'static str| s@),
            items@.len() == i,
            forall|j: int|
                0 <= j < i ==> (#[trigger] items@[j]) is Text && text_of(items@[j]) == views[j],
        decreases specs@.len() - i,
    {
        items.push(JsonValue::Text(specs[i].to_owned()));
        i = i + 1;
    }
    JsonValue::List(items)
}

/// The JSON shape of an action's current default bindings: one as a plain
/// string, several as a list.
pub fn default_value(name: &str) -> (v: Option<JsonValue>)
    ensures
        match find_named(action_order(), name@) {
            None => v is None,
            Some(a) => v matches Some(x) && spells(x, default_specs(a)),
        },
{
    match Action::from_name(name) {
        Some(action) => Some(spelled(action.defaults())),
        None => None,
    }
}

/// The canonical default document: `schema_version`, then every action's
/// default bindings under its name, in canonical order.
pub fn defaults_document() -> (doc: JsonValue)
    ensures
        is_defaults_document(doc),
{
    let mut members: Vec<(String, JsonValue)> = Vec::new();
    members.push(("schema_version".to_owned(), JsonValue::Number("2".to_owned())));
    let all = all_actions();
    let mut i: usize = 0;
    while i < all.len()
        invariant
            i <= all@.len(),
            all@ == action_order(),
            members@.len() == i + 1,
            members@[0].0@ == "schema_version"@,
            members@[0].1 is Number && members@[0].1->Number_0@ == "2"@,
            forall|j: int|
                0 <= j < i ==> (#[trigger] members@[j + 1]).0@ == action_name(action_order()[j])
                    && spells(members@[j + 1].1, default_specs(action_order()[j])),
        decreases all@.len() - i,
    {
        let action = all[i];
        members.push((action.name().to_owned(), spelled(action.defaults())));
        i = i + 1;
    }
    JsonValue::Object(members)
}

/// The seeded keybinds document: the current `schema_version`, then every
/// action's default key strings under its name, in canonical order.
pub open spec fn is_defaults_document(doc: JsonValue) -> bool {
    &&& doc is Object
    &&& doc->Object_0@.len() == action_order().len() + 1
    &&& doc->Object_0@[0].0@ == "schema_version"@
    &&& doc->Object_0@[0].1 is Number && doc->Object_0@[0].1->Number_0@ == "2"@
    &&& forall|i: int|
        0 <= i < action_order().len() ==> (#[trigger] doc->Object_0@[i + 1]).0@ == action_name(
            action_order()[i],
        ) && spells(doc->Object_0@[i + 1].1, default_specs(action_order()[i]))
}

/// The text a missing keybinds file is seeded with: the defaults document,
/// pretty-printed.
pub fn seed_text() -> (text: String)
    ensures
        exists|d: JsonValue| #[trigger] is_defaults_document(d) && text@ == json_pretty(d),
{
    let doc = defaults_document();
    let text = render_json(&doc);
    assert(is_defaults_document(doc) && text@ == json_pretty(doc));
    text
}

/// The `schema_version` of a document as `as_u64` reads it.
pub open spec fn doc_version(members: Seq<(String, JsonValue)>) -> Option<u64> {
    match member(members, "schema_version"@) {
        Some(JsonValue::Number(t)) => number_u64(t@),
        _ => None,
    }
}

/// Whether a document was seeded by an older schema version: an object
/// whose numeric `schema_version` is below the current one.
pub open spec fn needs_migration(doc: JsonValue) -> bool {
    match doc {
        JsonValue::Object(members) => match doc_version(members@) {
            Some(v) => v < DEFAULTS_SCHEMA_VERSION,
            None => false,
        },
        _ => false,
    }
}

/// `healed` is `members` migrated: the same keys in the same places, the
/// version bumped, a `zoom_in` list still equal to the superseded default
/// replaced by the current default, every other value untouched.
pub open spec fn healed_from(members: Seq<(String, JsonValue)>, healed: Seq<(String, JsonValue)>) -> bool {
    let sv = member_index(members, "schema_version"@);
    let zi = member_index(members, "zoom_in"@);
    let heal_zoom = zi >= 0 && specs_of(members[zi].1) == Some(legacy_zoom_in());
    &&& healed.len() == members.len()
    &&& forall|i: int| 0 <= i < members.len() ==> (#[trigger] healed[i]).0 == members[i].0
    &&& healed[sv].1 is Number && healed[sv].1->Number_0@ == "2"@
    &&& heal_zoom ==> spells(healed[zi].1, default_specs(Action::ZoomIn))
    &&& forall|i: int|
        0 <= i < members.len() && i != sv && !(heal_zoom && i == zi) ==> (#[trigger] healed[i]).1
            == members[i].1
}

/// Whether a binding value holds exactly the superseded `zoom_in` list.
fn matches_legacy_zoom_in(v: &JsonValue) -> (legacy: bool)
    ensures
        legacy == (specs_of(*v) == Some(legacy_zoom_in())),
{
    let specs = match value_specs(Some(v)) {
        Some(s) => s,
        None => return false,
    };
    let ghost views = specs@.map_values(|t: String| t@);
    if specs.len() != 6 {
        assert(views.len() != legacy_zoom_in().len());
        return false;
    }
    let same = str_equals(specs[0].as_str(), "+") && str_equals(specs[1].as_str(), "=")
        && str_equals(specs[2].as_str(), "Shift+=") && str_equals(specs[3].as_str(), "Ctrl+=")
        && str_equals(specs[4].as_str(), "Ctrl++") && str_equals(specs[5].as_str(), "Ctrl+Shift+=");
    if same {
        assert(views =~= legacy_zoom_in());
    } else {
        assert(views != legacy_zoom_in()) by {
            if views == legacy_zoom_in() {
                assert(views[0] == legacy_zoom_in()[0]);
                assert(views[1] == legacy_zoom_in()[1]);
                assert(views[2] == legacy_zoom_in()[2]);
                assert(views[3] == legacy_zoom_in()[3]);
                assert(views[4] == legacy_zoom_in()[4]);
                assert(views[5] == legacy_zoom_in()[5]);
            }
        }
    }
    same
}

/// Heal a document an older schema version seeded: `Ok` with the migrated
/// document when it needs migration, otherwise `Err` with the document
/// unchanged.
pub fn migrate_document(document: JsonValue) -> (r: Result<JsonValue, JsonValue>)
    ensures
        !needs_migration(document) ==> r == Err::<JsonValue, JsonValue>(document),
        needs_migration(document) ==> (r matches Ok(JsonValue::Object(healed)) && healed_from(
            document->Object_0@,
            healed@,
        )),
{
    let mut members = match document {
        JsonValue::Object(m) => m,
        other => return Err(other),
    };
    let ghost given = members@;
    let sv = match find_member(&members, "schema_version") {
        Some(i) => i,
        None => return Err(JsonValue::Object(members)),
    };
    let version = match &members[sv].1 {
        JsonValue::Number(t) => number_as_u64(t.as_str()),
        _ => None,
    };
    let v = match version {
        Some(v) => v,
        None => return Err(JsonValue::Object(members)),
    };
    if v >= DEFAULTS_SCHEMA_VERSION {
        return Err(JsonValue::Object(members));
    }
    proof {
        lemma_member_index(given, "zoom_in"@);
        lemma_member_index(given, "schema_version"@);
    }
    let ghost zi_at = member_index(given, "zoom_in"@);
    let ghost heal_zoom = zi_at >= 0 && specs_of(given[zi_at].1) == Some(legacy_zoom_in());
    match find_member(&members, "zoom_in") {
        Some(zi) => {
            if matches_legacy_zoom_in(&members[zi].1) {
                let (key, _) = members.remove(zi);
                let current = spelled(Action::ZoomIn.defaults());
                members.insert(zi, (key, current));
                assert(members@ =~= given.update(zi as int, (given[zi as int].0, current)));
            }
        },
        None => {},
    }
    let ghost mid = members@;
    assert(heal_zoom ==> spells(mid[zi_at].1, default_specs(Action::ZoomIn)));
    assert(forall|i: int| 0 <= i < given.len() && !(heal_zoom && i == zi_at) ==> mid[i] == given[i]);
    assert(mid.len() == given.len());
    let (key, _) = members.remove(sv);
    members.insert(sv, (key, JsonValue::Number("2".to_owned())));
    assert(members@ =~= mid.update(sv as int, (mid[sv as int].0, members@[sv as int].1)));
    Ok(JsonValue::Object(members))
}

/// `claims` are what [`merged`] makes of `members`.
pub open spec fn merges(claims: Seq<(Binding, Action)>, members: Seq<(String, JsonValue)>) -> bool {
    exists|order: Seq<usize>|
        sorts_by_name(members, order) && claims == settle(
            merge_in_order(default_claims(), members, order),
        )
}

/// What loading a keybinds document gives: a JSON object is migrated when
/// an older schema seeded it (the migrated document is the one to write
/// back) and overlays the defaults; anything else yields the defaults.
pub open spec fn loaded(
    claims: Seq<(Binding, Action)>,
    written: Option<JsonValue>,
    document: Result<JsonValue, Seq<char>>,
) -> bool {
    match document {
        Ok(JsonValue::Object(members)) => if needs_migration(JsonValue::Object(members)) {
            written matches Some(JsonValue::Object(healed)) && healed_from(members@, healed@)
                && merges(claims, healed@)
        } else {
            written is None && merges(claims, members@)
        },
        _ => written is None && claims == default_claims(),
    }
}

/// The keybinds a parsed keybinds file yields, and the migrated document to
/// write back when an older schema version seeded it.
pub fn keybinds_from_document(path: Option<String>, document: Result<JsonValue, String>) -> (r: (
    Keybinds,
    Option<JsonValue>,
))
    ensures
        r.0.file() == path,
        loaded(
            r.0.claims(),
            r.1,
            match document {
                Ok(v) => Ok::<JsonValue, Seq<char>>(v),
                Err(e) => Err::<JsonValue, Seq<char>>(e@),
            },
        ),
{
    match document {
        Ok(JsonValue::Object(members)) => {
            match migrate_document(JsonValue::Object(members)) {
                Ok(JsonValue::Object(healed)) => {
                    let k = merged(path, &healed);
                    (k, Some(JsonValue::Object(healed)))
                },
                Ok(other) => (Keybinds::defaults(path), None),
                Err(JsonValue::Object(unchanged)) => {
                    let k = merged(path, &unchanged);
                    (k, None)
                },
                Err(other) => (Keybinds::defaults(path), None),
            }
        },
        _ => (Keybinds::defaults(path), None),
    }
}

/// Parse a keybinds file's text and load it: see [`keybinds_from_document`].
pub fn keybinds_from_text(path: Option<String>, contents: &str) -> (r: (Keybinds, Option<String>))
    ensures
        r.0.file() == path,
        exists|w: Option<JsonValue>|
            #[trigger] loaded(r.0.claims(), w, json_parse(contents@)) && match (w, r.1) {
                (Some(d), Some(t)) => t@ == json_pretty(d),
                (None, None) => true,
                _ => false,
            },
{
    let (keybinds, written) = keybinds_from_document(path, parse_json(contents));
    let text = match &written {
        Some(doc) => Some(render_json(doc)),
        None => None,
    };
    assert(loaded(keybinds.claims(), written, json_parse(contents@)));
    (keybinds, text)
}

proof fn lemma_same_keys_member(m: Seq<(String, JsonValue)>, h: Seq<(String, JsonValue)>, key: Seq<char>)
    requires
        h.len() == m.len(),
        forall|i: int| 0 <= i < m.len() ==> (#[trigger] h[i]).0 == m[i].0,
    ensures
        member_index(h, key) == member_index(m, key),
    decreases m.len(),
{
    if m.len() > 0 && m[0].0@ != key {
        assert(h[0].0 == m[0].0);
        assert forall|i: int| 0 <= i < m.drop_first().len() implies (#[trigger] h.drop_first()[i]).0
            == m.drop_first()[i].0 by {
            assert(h.drop_first()[i] == h[i + 1]);
            assert(m.drop_first()[i] == m[i + 1]);
        }
        lemma_same_keys_member(m.drop_first(), h.drop_first(), key);
    } else if m.len() > 0 {
        assert(h[0].0 == m[0].0);
    }
}

proof fn lemma_version_two(members: Seq<(String, JsonValue)>, at: int)
    requires
        0 <= at < members.len(),
        member_index(members, "schema_version"@) == at,
        members[at].1 is Number,
        members[at].1->Number_0@ == "2"@,
    ensures
        doc_version(members) == Some(2u64),
{
    lemma_member_index(members, "schema_version"@);
    reveal_strlit("2");
    let t = "2"@;
    assert(t.len() == 1 && t[0] == '2');
    assert(t.drop_last() =~= Seq::<char>::empty());
    assert(crate::chrome::digits_value(Seq::<char>::empty()) == 0);
    assert(crate::chrome::digits_value(t) == crate::chrome::digits_value(t.drop_last()) * 10
        + crate::chrome::digit_value(t.last()));
    assert(crate::chrome::all_digits(t));
}

/// Migration is idempotent: a migrated document carries the current schema
/// version, so it is not migrated again.
pub proof fn law_migrated_document_is_current(
    members: Seq<(String, JsonValue)>,
    healed: Seq<(String, JsonValue)>,
)
    requires
        doc_version(members) is Some,
        healed_from(members, healed),
    ensures
        doc_version(healed) == Some(DEFAULTS_SCHEMA_VERSION),
{
    lemma_member_index(members, "schema_version"@);
    lemma_same_keys_member(members, healed, "schema_version"@);
    let sv = member_index(members, "schema_version"@);
    lemma_version_two(healed, sv);
}

/// The document seeded for a missing file is current: it carries this
/// build's schema version, so loading it again migrates nothing.
pub proof fn law_seeded_document_is_current(doc: JsonValue)
    requires
        is_defaults_document(doc),
    ensures
        doc_version(doc->Object_0@) == Some(DEFAULTS_SCHEMA_VERSION),
        !needs_migration(doc),
{
    lemma_version_two(doc->Object_0@, 0);
}

proof fn lemma_lowered_idempotent(s: Seq<char>)
    ensures
        ascii_lowered(ascii_lowered(s)) == ascii_lowered(s),
{
    assert(ascii_lowered(ascii_lowered(s)) =~= ascii_lowered(s));
}

proof fn lemma_no_modifier_prefix(s: Seq<char>)
    requires
        s.len() < 4 || (s[0] != 'c' && s[0] != 'a' && s[0] != 'm' && (s[0] != 's' || s[1]
            != 'h')),
    ensures
        modifier_prefix_spec(s) is None,
{
    reveal_strlit("ctrl+");
    reveal_strlit("shift+");
    reveal_strlit("alt+");
    reveal_strlit("meta+");
    reveal_strlit("cmd+");
    if s.len() >= 4 {
        assert(!starts_with(s, "ctrl+"@)) by {
            if s.len() >= 5 {
                assert(s.take(5)[0] == s[0]);
            }
        }
        assert(!starts_with(s, "shift+"@)) by {
            if s.len() >= 6 {
                assert(s.take(6)[0] == s[0]);
                assert(s.take(6)[1] == s[1]);
            }
        }
        assert(!starts_with(s, "alt+"@)) by {
            assert(s.take(4)[0] == s[0]);
        }
        assert(!starts_with(s, "meta+"@)) by {
            if s.len() >= 5 {
                assert(s.take(5)[0] == s[0]);
            }
        }
        assert(!starts_with(s, "cmd+"@)) by {
            assert(s.take(4)[0] == s[0]);
        }
    }
}

/// The spelling of a named key parses back to that key.
proof fn lemma_named_label(k: Key)
    requires
        !(k is Letter || k is Digit || k is Function),
    ensures
        key_of(ascii_lowered(key_label_spec(k))) == Some(k),
        key_label_spec(k).len() > 0,
        !white_space(key_label_spec(k)[0]),
        !white_space(key_label_spec(k).last()),
        modifier_prefix_spec(ascii_lowered(key_label_spec(k))) is None,
{
    reveal_strlit("+");
    reveal_strlit("plus");
    reveal_strlit("=");
    reveal_strlit("equals");
    reveal_strlit("-");
    reveal_strlit("minus");
    reveal_strlit(",");
    reveal_strlit("comma");
    reveal_strlit(".");
    reveal_strlit("period");
    reveal_strlit("/");
    reveal_strlit("slash");
    reveal_strlit("escape");
    reveal_strlit("esc");
    reveal_strlit("enter");
    reveal_strlit("return");
    reveal_strlit("space");
    reveal_strlit("tab");
    reveal_strlit("backspace");
    reveal_strlit("insert");
    reveal_strlit("delete");
    reveal_strlit("del");
    reveal_strlit("home");
    reveal_strlit("end");
    reveal_strlit("pageup");
    reveal_strlit("pgup");
    reveal_strlit("pagedown");
    reveal_strlit("pgdown");
    reveal_strlit("pgdn");
    reveal_strlit("left");
    reveal_strlit("arrowleft");
    reveal_strlit("right");
    reveal_strlit("arrowright");
    reveal_strlit("up");
    reveal_strlit("arrowup");
    reveal_strlit("down");
    reveal_strlit("arrowdown");
    reveal_strlit("Esc");
    reveal_strlit("Enter");
    reveal_strlit("Space");
    reveal_strlit("Tab");
    reveal_strlit("Backspace");
    reveal_strlit("Insert");
    reveal_strlit("Del");
    reveal_strlit("Home");
    reveal_strlit("End");
    reveal_strlit("PgUp");
    reveal_strlit("PgDn");
    reveal_strlit("Left");
    reveal_strlit("Right");
    reveal_strlit("Up");
    reveal_strlit("Down");
    let l = key_label_spec(k);
    let lower = ascii_lowered(l);
    assert(lower.len() == l.len());
    assert forall|i: int| 0 <= i < l.len() implies #[trigger] lower[i] == ascii_lower(l[i]) by {}
    match k {
        Key::Plus => {
            assert(lower =~= "+"@);
            assert(key_of(lower) == Some(k));
        },
        Key::Equals => {
            assert(lower =~= "="@);
            assert(lower[0] != "+"@[0]);
            assert(lower != "+"@);
            assert(key_of(lower) == Some(k));
        },
        Key::Minus => {
            assert(lower =~= "-"@);
            assert(lower[0] != "+"@[0]);
            assert(lower != "+"@);
            assert(lower[0] != "="@[0]);
            assert(lower != "="@);
            assert(key_of(lower) == Some(k));
        },
        Key::Comma => {
            assert(lower =~= ","@);
            assert(lower[0] != "+"@[0]);
            assert(lower != "+"@);
            assert(lower[0] != "="@[0]);
            assert(lower != "="@);
            assert(lower[0] != "-"@[0]);
            assert(lower != "-"@);
            assert(key_of(lower) == Some(k));
        },
        Key::Period => {
            assert(lower =~= "."@);
            assert(lower[0] != "+"@[0]);
            assert(lower != "+"@);
            assert(lower[0] != "="@[0]);
            assert(lower != "="@);
            assert(lower[0] != "-"@[0]);
            assert(lower != "-"@);
            assert(lower[0] != ","@[0]);
            assert(lower != ","@);
            assert(key_of(lower) == Some(k));
        },
        Key::Slash => {
            assert(lower =~= "/"@);
            assert(lower[0] != "+"@[0]);
            assert(lower != "+"@);
            assert(lower[0] != "="@[0]);
            assert(lower != "="@);
            assert(lower[0] != "-"@[0]);
            assert(lower != "-"@);
            assert(lower[0] != ","@[0]);
            assert(lower != ","@);
            assert(lower[0] != "."@[0]);
            assert(lower != "."@);
            assert(key_of(lower) == Some(k));
        },
        Key::Escape => {
            assert(lower =~= "esc"@);
            assert(key_of(lower) == Some(k));
        },
        Key::Enter => {
            assert(lower =~= "enter"@);
            assert(lower[0] != "minus"@[0]);
            assert(lower != "minus"@);
            assert(lower[0] != "comma"@[0]);
            assert(lower != "comma"@);
            assert(lower[0] != "slash"@[0]);
            assert(lower != "slash"@);
            assert(key_of(lower) == Some(k));
        },
        Key::Space => {
            assert(lower =~= "space"@);
            assert(lower[0] != "minus"@[0]);
            assert(lower != "minus"@);
            assert(lower[0] != "comma"@[0]);
            assert(lower != "comma"@);
            assert(lower[1] != "slash"@[1]);
            assert(lower != "slash"@);
            assert(lower[0] != "enter"@[0]);
            assert(lower != "enter"@);
            assert(key_of(lower) == Some(k));
        },
        Key::Tab => {
            assert(lower =~= "tab"@);
            assert(lower[0] != "esc"@[0]);
            assert(lower != "esc"@);
            assert(key_of(lower) == Some(k));
        },
        Key::Backspace => {
            assert(lower =~= "backspace"@);
            assert(key_of(lower) == Some(k));
        },
        Key::Insert => {
            assert(lower =~= "insert"@);
            assert(lower[0] != "equals"@[0]);
            assert(lower != "equals"@);
            assert(lower[0] != "period"@[0]);
            assert(lower != "period"@);
            assert(lower[0] != "escape"@[0]);
            assert(lower != "escape"@);
            assert(lower[0] != "return"@[0]);
            assert(lower != "return"@);
            assert(key_of(lower) == Some(k));
        },
        Key::Delete => {
            assert(lower =~= "del"@);
            assert(lower[0] != "esc"@[0]);
            assert(lower != "esc"@);
            assert(lower[0] != "tab"@[0]);
            assert(lower != "tab"@);
            assert(key_of(lower) == Some(k));
        },
        Key::Home => {
            assert(lower =~= "home"@);
            assert(lower[0] != "plus"@[0]);
            assert(lower != "plus"@);
            assert(key_of(lower) == Some(k));
        },
        Key::End => {
            assert(lower =~= "end"@);
            assert(lower[1] != "esc"@[1]);
            assert(lower != "esc"@);
            assert(lower[0] != "tab"@[0]);
            assert(lower != "tab"@);
            assert(lower[0] != "del"@[0]);
            assert(lower != "del"@);
            assert(key_of(lower) == Some(k));
        },
        Key::PageUp => {
            assert(lower =~= "pgup"@);
            assert(lower[1] != "plus"@[1]);
            assert(lower != "plus"@);
            assert(lower[0] != "home"@[0]);
            assert(lower != "home"@);
            assert(key_of(lower) == Some(k));
        },
        Key::PageDown => {
            assert(lower =~= "pgdn"@);
            assert(lower[1] != "plus"@[1]);
            assert(lower != "plus"@);
            assert(lower[0] != "home"@[0]);
            assert(lower != "home"@);
            assert(lower[2] != "pgup"@[2]);
            assert(lower != "pgup"@);
            assert(key_of(lower) == Some(k));
        },
        Key::ArrowLeft => {
            assert(lower =~= "left"@);
            assert(lower[0] != "plus"@[0]);
            assert(lower != "plus"@);
            assert(lower[0] != "home"@[0]);
            assert(lower != "home"@);
            assert(lower[0] != "pgup"@[0]);
            assert(lower != "pgup"@);
            assert(lower[0] != "pgdn"@[0]);
            assert(lower != "pgdn"@);
            assert(key_of(lower) == Some(k));
        },
        Key::ArrowRight => {
            assert(lower =~= "right"@);
            assert(lower[0] != "minus"@[0]);
            assert(lower != "minus"@);
            assert(lower[0] != "comma"@[0]);
            assert(lower != "comma"@);
            assert(lower[0] != "slash"@[0]);
            assert(lower != "slash"@);
            assert(lower[0] != "enter"@[0]);
            assert(lower != "enter"@);
            assert(lower[0] != "space"@[0]);
            assert(lower != "space"@);
            assert(key_of(lower) == Some(k));
        },
        Key::ArrowUp => {
            assert(lower =~= "up"@);
            assert(key_of(lower) == Some(k));
        },
        Key::ArrowDown => {
            assert(lower =~= "down"@);
            assert(lower[0] != "plus"@[0]);
            assert(lower != "plus"@);
            assert(lower[0] != "home"@[0]);
            assert(lower != "home"@);
            assert(lower[0] != "pgup"@[0]);
            assert(lower != "pgup"@);
            assert(lower[0] != "pgdn"@[0]);
            assert(lower != "pgdn"@);
            assert(lower[0] != "left"@[0]);
            assert(lower != "left"@);
            assert(key_of(lower) == Some(k));
        },
        _ => {},
    }
    lemma_no_modifier_prefix(lower);
}

proof fn lemma_function_key_from(n: nat, m: nat)
    requires
        1 <= m <= n <= 12,
    ensures
        function_key_from(seq!['f'] + decimal_digits(n), m) == Some(n as u8),
    decreases n - m,
{
    if m < n {
        lemma_function_key_from(n, m + 1);
        crate::chrome::lemma_decimal_value(n);
        crate::chrome::lemma_decimal_value(m);
        if seq!['f'] + decimal_digits(n) == seq!['f'] + decimal_digits(m) {
            assert((seq!['f'] + decimal_digits(n)).drop_first() =~= decimal_digits(n));
            assert((seq!['f'] + decimal_digits(m)).drop_first() =~= decimal_digits(m));
        }
    }
}

/// The spelling of a letter, digit or function key parses back to it.
proof fn lemma_indexed_label(k: Key)
    requires
        k is Letter || k is Digit || k is Function,
        key_wf(k),
    ensures
        key_of(ascii_lowered(key_label_spec(k))) == Some(k),
        key_label_spec(k).len() > 0,
        !white_space(key_label_spec(k)[0]),
        !white_space(key_label_spec(k).last()),
        modifier_prefix_spec(ascii_lowered(key_label_spec(k))) is None,
{
    reveal_strlit("+");
    reveal_strlit("plus");
    reveal_strlit("=");
    reveal_strlit("equals");
    reveal_strlit("-");
    reveal_strlit("minus");
    reveal_strlit(",");
    reveal_strlit("comma");
    reveal_strlit(".");
    reveal_strlit("period");
    reveal_strlit("/");
    reveal_strlit("slash");
    reveal_strlit("escape");
    reveal_strlit("esc");
    reveal_strlit("enter");
    reveal_strlit("return");
    reveal_strlit("space");
    reveal_strlit("tab");
    reveal_strlit("backspace");
    reveal_strlit("insert");
    reveal_strlit("delete");
    reveal_strlit("del");
    reveal_strlit("home");
    reveal_strlit("end");
    reveal_strlit("pageup");
    reveal_strlit("pgup");
    reveal_strlit("pagedown");
    reveal_strlit("pgdown");
    reveal_strlit("pgdn");
    reveal_strlit("left");
    reveal_strlit("arrowleft");
    reveal_strlit("right");
    reveal_strlit("arrowright");
    reveal_strlit("up");
    reveal_strlit("arrowup");
    reveal_strlit("down");
    reveal_strlit("arrowdown");
    let l = key_label_spec(k);
    let lower = ascii_lowered(l);
    match k {
        Key::Letter(i) => {
            assert((((65 + i) as u8) as char) as u32 == 65 + i);
            assert(lower[0] as u32 == 97 + i);
        },
        Key::Digit(d) => {
            assert((((48 + d) as u8) as char) as u32 == 48 + d);
        },
        Key::Function(n) => {
            crate::chrome::lemma_decimal_value(n as nat);
            assert(lower =~= seq!['f'] + decimal_digits(n as nat)) by {
                assert forall|j: int| 1 <= j < l.len() implies lower[j] == l[j] by {
                    assert(l[j] == decimal_digits(n as nat)[j - 1]);
                    assert('0' <= decimal_digits(n as nat)[j - 1] <= '9');
                }
            }
    assert(lower[0] != "+"@[0]);
    assert(lower[0] != "plus"@[0]);
    assert(lower[0] != "="@[0]);
    assert(lower[0] != "equals"@[0]);
    assert(lower[0] != "-"@[0]);
    assert(lower[0] != "minus"@[0]);
    assert(lower[0] != ","@[0]);
    assert(lower[0] != "comma"@[0]);
    assert(lower[0] != "."@[0]);
    assert(lower[0] != "period"@[0]);
    assert(lower[0] != "/"@[0]);
    assert(lower[0] != "slash"@[0]);
    assert(lower[0] != "escape"@[0]);
    assert(lower[0] != "esc"@[0]);
    assert(lower[0] != "enter"@[0]);
    assert(lower[0] != "return"@[0]);
    assert(lower[0] != "space"@[0]);
    assert(lower[0] != "tab"@[0]);
    assert(lower[0] != "backspace"@[0]);
    assert(lower[0] != "insert"@[0]);
    assert(lower[0] != "delete"@[0]);
    assert(lower[0] != "del"@[0]);
    assert(lower[0] != "home"@[0]);
    assert(lower[0] != "end"@[0]);
    assert(lower[0] != "pageup"@[0]);
    assert(lower[0] != "pgup"@[0]);
    assert(lower[0] != "pagedown"@[0]);
    assert(lower[0] != "pgdown"@[0]);
    assert(lower[0] != "pgdn"@[0]);
    assert(lower[0] != "left"@[0]);
    assert(lower[0] != "arrowleft"@[0]);
    assert(lower[0] != "right"@[0]);
    assert(lower[0] != "arrowright"@[0]);
    assert(lower[0] != "up"@[0]);
    assert(lower[0] != "arrowup"@[0]);
    assert(lower[0] != "down"@[0]);
    assert(lower[0] != "arrowdown"@[0]);
            lemma_function_key_from(n as nat, 1);
        },
        _ => {},
    }
    lemma_no_modifier_prefix(lower);
}

proof fn lemma_modifier_steps(rest: Seq<char>)
    ensures
        modifier_prefix_spec("ctrl+"@ + rest) == Some((seq![true, false, false, false], rest)),
        modifier_prefix_spec("shift+"@ + rest) == Some((seq![false, true, false, false], rest)),
        modifier_prefix_spec("alt+"@ + rest) == Some((seq![false, false, true, false], rest)),
        modifier_prefix_spec("meta+"@ + rest) == Some((seq![false, false, false, true], rest)),
{
    reveal_strlit("ctrl+");
    reveal_strlit("shift+");
    reveal_strlit("alt+");
    reveal_strlit("meta+");
    reveal_strlit("cmd+");
    let c = "ctrl+"@ + rest;
    let sh = "shift+"@ + rest;
    let a = "alt+"@ + rest;
    let m = "meta+"@ + rest;
    assert(c.take(5) =~= "ctrl+"@);
    assert(c.skip(5) =~= rest);
    assert(sh.take(6) =~= "shift+"@);
    assert(sh.skip(6) =~= rest);
    assert(!starts_with(sh, "ctrl+"@)) by {
        assert(sh.take(5)[0] == sh[0]);
    }
    assert(a.take(4) =~= "alt+"@);
    assert(a.skip(4) =~= rest);
    assert(!starts_with(a, "ctrl+"@)) by {
        if a.len() >= 5 {
            assert(a.take(5)[0] == a[0]);
        }
    }
    assert(!starts_with(a, "shift+"@)) by {
        if a.len() >= 6 {
            assert(a.take(6)[0] == a[0]);
        }
    }
    assert(m.take(5) =~= "meta+"@);
    assert(m.skip(5) =~= rest);
    assert(!starts_with(m, "ctrl+"@)) by {
        assert(m.take(5)[0] == m[0]);
    }
    assert(!starts_with(m, "shift+"@)) by {
        if m.len() >= 6 {
            assert(m.take(6)[0] == m[0]);
        }
    }
    assert(!starts_with(m, "alt+"@)) by {
        assert(m.take(4)[0] == m[0]);
    }
}

/// The modifiers a lowered label spells, peeled off in order.
proof fn lemma_strip_chain(r4: Seq<char>, ctrl: bool, shift: bool, alt: bool, meta: bool)
    requires
        modifier_prefix_spec(r4) is None,
    ensures
        ({
            let r3 = if meta { "meta+"@ + r4 } else { r4 };
            let r2 = if alt { "alt+"@ + r3 } else { r3 };
            let r1 = if shift { "shift+"@ + r2 } else { r2 };
            let r0 = if ctrl { "ctrl+"@ + r1 } else { r1 };
            strip_modifiers(r0) == (ctrl, shift, alt, meta, r4)
        }),
{
    let r3 = if meta { "meta+"@ + r4 } else { r4 };
    let r2 = if alt { "alt+"@ + r3 } else { r3 };
    let r1 = if shift { "shift+"@ + r2 } else { r2 };
    let r0 = if ctrl { "ctrl+"@ + r1 } else { r1 };
    reveal_strlit("ctrl+");
    reveal_strlit("shift+");
    reveal_strlit("alt+");
    reveal_strlit("meta+");
    lemma_modifier_steps(r4);
    lemma_modifier_steps(r3);
    lemma_modifier_steps(r2);
    lemma_modifier_steps(r1);
    assert(strip_modifiers(r4) == (false, false, false, false, r4));
    assert(strip_modifiers(r3) == (false, false, false, meta, r4));
    assert(strip_modifiers(r2) == (false, false, alt, meta, r4));
    assert(strip_modifiers(r1) == (false, shift, alt, meta, r4));
}

/// A binding's label is already trimmed, and lowers to the lowered key
/// label behind the lowered modifier prefixes.
proof fn lemma_label_shape(b: Binding, kl: Seq<char>)
    requires
        kl == key_label_spec(b.key),
        kl.len() > 0,
        !white_space(kl[0]),
        !white_space(kl.last()),
    ensures
        trimmed(binding_label(b)) == binding_label(b),
        ({
            let r4 = ascii_lowered(kl);
            let r3 = if b.meta { "meta+"@ + r4 } else { r4 };
            let r2 = if b.alt { "alt+"@ + r3 } else { r3 };
            let r1 = if b.shift { "shift+"@ + r2 } else { r2 };
            let r0 = if b.ctrl { "ctrl+"@ + r1 } else { r1 };
            ascii_lowered(binding_label(b)) == r0
        }),
{
    reveal_strlit("Ctrl+");
    reveal_strlit("Shift+");
    reveal_strlit("Alt+");
    reveal_strlit("Meta+");
    reveal_strlit("ctrl+");
    reveal_strlit("shift+");
    reveal_strlit("alt+");
    reveal_strlit("meta+");
    let r4 = ascii_lowered(kl);
    let r3 = if b.meta { "meta+"@ + r4 } else { r4 };
    let r2 = if b.alt { "alt+"@ + r3 } else { r3 };
    let r1 = if b.shift { "shift+"@ + r2 } else { r2 };
    let r0 = if b.ctrl { "ctrl+"@ + r1 } else { r1 };
    let p3 = if b.meta { "Meta+"@ + kl } else { kl };
    let p2 = if b.alt { "Alt+"@ + p3 } else { p3 };
    let p1 = if b.shift { "Shift+"@ + p2 } else { p2 };
    let label = if b.ctrl { "Ctrl+"@ + p1 } else { p1 };
    assert(label =~= binding_label(b));
    assert(ascii_lowered(p3) =~= r3);
    assert(ascii_lowered(p2) =~= r2);
    assert(ascii_lowered(p1) =~= r1);
    assert(ascii_lowered(label) =~= r0);
    assert(label.last() == kl.last());
    assert(!white_space(label[0]));
    assert(strip_front(label) == label);
    assert(strip_back(label) == label);
}

/// A binding's label parses back to the binding: `Binding::label` is the
/// inverse of `Binding::parse` for every key the bindings can name.
pub proof fn law_label_inverts_parse(b: Binding)
    requires
        key_wf(b.key),
    ensures
        binding_of(binding_label(b)) == Some(b),
{
    let kl = key_label_spec(b.key);
    if b.key is Letter || b.key is Digit || b.key is Function {
        lemma_indexed_label(b.key);
    } else {
        lemma_named_label(b.key);
    }
    lemma_label_shape(b, kl);
    lemma_strip_chain(ascii_lowered(kl), b.ctrl, b.shift, b.alt, b.meta);
    lemma_lowered_idempotent(kl);
}


/// The name a named key has in the keyboard model (its variant name, as
/// the GUI toolkit spells its keys); digits, letters and function keys are
/// named by their labels.
pub open spec fn key_name(k: Key) -> Seq<char> {
    match k {
        Key::Plus => "Plus"@,
        Key::Equals => "Equals"@,
        Key::Minus => "Minus"@,
        Key::Comma => "Comma"@,
        Key::Period => "Period"@,
        Key::Slash => "Slash"@,
        Key::Escape => "Escape"@,
        Key::Enter => "Enter"@,
        Key::Space => "Space"@,
        Key::Tab => "Tab"@,
        Key::Backspace => "Backspace"@,
        Key::Insert => "Insert"@,
        Key::Delete => "Delete"@,
        Key::Home => "Home"@,
        Key::End => "End"@,
        Key::PageUp => "PageUp"@,
        Key::PageDown => "PageDown"@,
        Key::ArrowLeft => "ArrowLeft"@,
        Key::ArrowRight => "ArrowRight"@,
        Key::ArrowUp => "ArrowUp"@,
        Key::ArrowDown => "ArrowDown"@,
        _ => key_label_spec(k),
    }
}

/// Every named key is also spelled by its own name, in any ASCII case:
/// `PageUp`, `ArrowLeft`, `Escape`, … parse to that very key, as its label
/// (`PgUp`, `Left`, `Esc`, …) does; no spelling of one key binds another.
pub proof fn law_key_names_parse_to_their_key(k: Key)
    requires
        !(k is Letter || k is Digit || k is Function),
    ensures
        key_of(ascii_lowered(key_name(k))) == Some(k),
        key_of(ascii_lowered(key_label_spec(k))) == Some(k),
{
    lemma_named_label(k);
    reveal_strlit("+");
    reveal_strlit("plus");
    reveal_strlit("=");
    reveal_strlit("equals");
    reveal_strlit("-");
    reveal_strlit("minus");
    reveal_strlit(",");
    reveal_strlit("comma");
    reveal_strlit(".");
    reveal_strlit("period");
    reveal_strlit("/");
    reveal_strlit("slash");
    reveal_strlit("escape");
    reveal_strlit("esc");
    reveal_strlit("enter");
    reveal_strlit("return");
    reveal_strlit("space");
    reveal_strlit("tab");
    reveal_strlit("backspace");
    reveal_strlit("insert");
    reveal_strlit("delete");
    reveal_strlit("del");
    reveal_strlit("home");
    reveal_strlit("end");
    reveal_strlit("pageup");
    reveal_strlit("pgup");
    reveal_strlit("pagedown");
    reveal_strlit("pgdown");
    reveal_strlit("pgdn");
    reveal_strlit("left");
    reveal_strlit("arrowleft");
    reveal_strlit("right");
    reveal_strlit("arrowright");
    reveal_strlit("up");
    reveal_strlit("arrowup");
    reveal_strlit("down");
    reveal_strlit("arrowdown");
    reveal_strlit("Plus");
    reveal_strlit("Equals");
    reveal_strlit("Minus");
    reveal_strlit("Comma");
    reveal_strlit("Period");
    reveal_strlit("Slash");
    reveal_strlit("Escape");
    reveal_strlit("Enter");
    reveal_strlit("Space");
    reveal_strlit("Tab");
    reveal_strlit("Backspace");
    reveal_strlit("Insert");
    reveal_strlit("Delete");
    reveal_strlit("Home");
    reveal_strlit("End");
    reveal_strlit("PageUp");
    reveal_strlit("PageDown");
    reveal_strlit("ArrowLeft");
    reveal_strlit("ArrowRight");
    reveal_strlit("ArrowUp");
    reveal_strlit("ArrowDown");
    let l = key_name(k);
    let lower = ascii_lowered(l);
    assert(lower.len() == l.len());
    assert forall|i: int| 0 <= i < l.len() implies #[trigger] lower[i] == ascii_lower(l[i]) by {}
    match k {
        Key::Plus => {
            assert(lower =~= "plus"@);
            assert(key_of(lower) == Some(k));
        },
        Key::Equals => {
            assert(lower =~= "equals"@);
            assert(key_of(lower) == Some(k));
        },
        Key::Minus => {
            assert(lower =~= "minus"@);
            assert(key_of(lower) == Some(k));
        },
        Key::Comma => {
            assert(lower =~= "comma"@);
            assert(lower[0] != "minus"@[0]);
            assert(lower != "minus"@);
            assert(key_of(lower) == Some(k));
        },
        Key::Period => {
            assert(lower =~= "period"@);
            assert(lower[0] != "equals"@[0]);
            assert(lower != "equals"@);
            assert(key_of(lower) == Some(k));
        },
        Key::Slash => {
            assert(lower =~= "slash"@);
            assert(lower[0] != "minus"@[0]);
            assert(lower != "minus"@);
            assert(lower[0] != "comma"@[0]);
            assert(lower != "comma"@);
            assert(key_of(lower) == Some(k));
        },
        Key::Escape => {
            assert(lower =~= "escape"@);
            assert(lower[1] != "equals"@[1]);
            assert(lower != "equals"@);
            assert(lower[0] != "period"@[0]);
            assert(lower != "period"@);
            assert(key_of(lower) == Some(k));
        },
        Key::Enter => {
            assert(lower =~= "enter"@);
            assert(lower[0] != "minus"@[0]);
            assert(lower != "minus"@);
            assert(lower[0] != "comma"@[0]);
            assert(lower != "comma"@);
            assert(lower[0] != "slash"@[0]);
            assert(lower != "slash"@);
            assert(key_of(lower) == Some(k));
        },
        Key::Space => {
            assert(lower =~= "space"@);
            assert(lower[0] != "minus"@[0]);
            assert(lower != "minus"@);
            assert(lower[0] != "comma"@[0]);
            assert(lower != "comma"@);
            assert(lower[1] != "slash"@[1]);
            assert(lower != "slash"@);
            assert(lower[0] != "enter"@[0]);
            assert(lower != "enter"@);
            assert(key_of(lower) == Some(k));
        },
        Key::Tab => {
            assert(lower =~= "tab"@);
            assert(lower[0] != "esc"@[0]);
            assert(lower != "esc"@);
            assert(key_of(lower) == Some(k));
        },
        Key::Backspace => {
            assert(lower =~= "backspace"@);
            assert(key_of(lower) == Some(k));
        },
        Key::Insert => {
            assert(lower =~= "insert"@);
            assert(lower[0] != "equals"@[0]);
            assert(lower != "equals"@);
            assert(lower[0] != "period"@[0]);
            assert(lower != "period"@);
            assert(lower[0] != "escape"@[0]);
            assert(lower != "escape"@);
            assert(lower[0] != "return"@[0]);
            assert(lower != "return"@);
            assert(key_of(lower) == Some(k));
        },
        Key::Delete => {
            assert(lower =~= "delete"@);
            assert(lower[0] != "equals"@[0]);
            assert(lower != "equals"@);
            assert(lower[0] != "period"@[0]);
            assert(lower != "period"@);
            assert(lower[0] != "escape"@[0]);
            assert(lower != "escape"@);
            assert(lower[0] != "return"@[0]);
            assert(lower != "return"@);
            assert(lower[0] != "insert"@[0]);
            assert(lower != "insert"@);
            assert(key_of(lower) == Some(k));
        },
        Key::Home => {
            assert(lower =~= "home"@);
            assert(lower[0] != "plus"@[0]);
            assert(lower != "plus"@);
            assert(key_of(lower) == Some(k));
        },
        Key::End => {
            assert(lower =~= "end"@);
            assert(lower[1] != "esc"@[1]);
            assert(lower != "esc"@);
            assert(lower[0] != "tab"@[0]);
            assert(lower != "tab"@);
            assert(lower[0] != "del"@[0]);
            assert(lower != "del"@);
            assert(key_of(lower) == Some(k));
        },
        Key::PageUp => {
            assert(lower =~= "pageup"@);
            assert(lower[0] != "equals"@[0]);
            assert(lower != "equals"@);
            assert(lower[1] != "period"@[1]);
            assert(lower != "period"@);
            assert(lower[0] != "escape"@[0]);
            assert(lower != "escape"@);
            assert(lower[0] != "return"@[0]);
            assert(lower != "return"@);
            assert(lower[0] != "insert"@[0]);
            assert(lower != "insert"@);
            assert(lower[0] != "delete"@[0]);
            assert(lower != "delete"@);
            assert(key_of(lower) == Some(k));
        },
        Key::PageDown => {
            assert(lower =~= "pagedown"@);
            assert(key_of(lower) == Some(k));
        },
        Key::ArrowLeft => {
            assert(lower =~= "arrowleft"@);
            assert(lower[0] != "backspace"@[0]);
            assert(lower != "backspace"@);
            assert(key_of(lower) == Some(k));
        },
        Key::ArrowRight => {
            assert(lower =~= "arrowright"@);
            assert(key_of(lower) == Some(k));
        },
        Key::ArrowUp => {
            assert(lower =~= "arrowup"@);
            assert(key_of(lower) == Some(k));
        },
        Key::ArrowDown => {
            assert(lower =~= "arrowdown"@);
            assert(lower[0] != "backspace"@[0]);
            assert(lower != "backspace"@);
            assert(lower[5] != "arrowleft"@[5]);
            assert(lower != "arrowleft"@);
            assert(key_of(lower) == Some(k));
        },
        _ => {},
    }
}

} // verus!
