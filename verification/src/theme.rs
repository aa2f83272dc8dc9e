//! Theme schema and built-in themes.
//!
//! Every field except `name` defaults to the Light palette, so a theme
//! document can override as little as a single token.

use vstd::prelude::*;

use crate::color::{rgba, Color};
use crate::state::DEFAULT_THEME;
use crate::strings::{concat, str_equals};

verus! {

/// Semantic UI + page colors for a Candi frontend.
///
/// `page_bg`/`page_fg` drive bitmap recoloring; the rest style chrome.
#[derive(Debug, Clone, PartialEq, Eq)]
pub struct Theme {
    pub name: String,
    pub page_bg: Color,
    pub page_fg: Color,
    pub ui_bg: Color,
    pub panel_bg: Color,
    pub ui_fg: Color,
    pub accent: Color,
    pub selection: Color,
    pub search: Color,
}

/// Errors produced by parsing theme documents.
#[derive(Debug, Clone, PartialEq)]
pub enum ThemeError {
    /// The input is not well-formed YAML.
    Yaml(String),
    /// Well-formed YAML that violates the theme schema: unknown key,
    /// missing `name`, wrong type, or an invalid hex color.
    Schema(String),
}

impl ThemeError {
    /// Human-readable message: `invalid YAML: …` or `invalid theme: …`.
    pub fn to_string(&self) -> (text: String)
        ensures
            text@ == match self {
                ThemeError::Yaml(m) => "invalid YAML: "@ + m@,
                ThemeError::Schema(m) => "invalid theme: "@ + m@,
            },
    {
        match self {
            ThemeError::Yaml(m) => concat("invalid YAML: ", m.as_str()),
            ThemeError::Schema(m) => concat("invalid theme: ", m.as_str()),
        }
    }
}

/// The eight colors of a theme, in schema order: page_bg, page_fg, ui_bg,
/// panel_bg, ui_fg, accent, selection, search.
pub open spec fn palette(t: Theme) -> Seq<Color> {
    seq![t.page_bg, t.page_fg, t.ui_bg, t.panel_bg, t.ui_fg, t.accent, t.selection, t.search]
}

/// Names of the built-in themes offered for cycling, in cycling order.
pub const BUILTIN_NAMES: [&'static str; 5] = ["Light", "Sepia", "Warm Dark", "Dark", "True Dark"];

/// Palette of the built-in theme called `name`, if there is one.
pub open spec fn builtin_palette(name: Seq<char>) -> Option<Seq<Color>> {
    if name == "Light"@ {
            Some(seq![rgba(0xFF, 0xFF, 0xFF, 0xFF), rgba(0x1A, 0x1A, 0x1A, 0xFF), rgba(0xF5, 0xF5, 0xF4, 0xFF), rgba(0xEC, 0xEC, 0xEB, 0xFF), rgba(0x26, 0x26, 0x26, 0xFF), rgba(0x25, 0x63, 0xEB, 0xFF), rgba(0x25, 0x63, 0xEB, 0x40), rgba(0xFB, 0xBF, 0x24, 0xFF)])
        } else if name == "Sepia"@ {
            Some(seq![rgba(0xF4, 0xEC, 0xD8, 0xFF), rgba(0x5B, 0x46, 0x36, 0xFF), rgba(0x2B, 0x25, 0x20, 0xFF), rgba(0x35, 0x2E, 0x27, 0xFF), rgba(0xE8, 0xDC, 0xC8, 0xFF), rgba(0xC8, 0x9B, 0x3C, 0xFF), rgba(0xC8, 0x9B, 0x3C, 0x40), rgba(0xFB, 0xBF, 0x24, 0xFF)])
        } else if name == "Solarized Light"@ {
            Some(seq![rgba(0xFD, 0xF6, 0xE3, 0xFF), rgba(0x65, 0x7B, 0x83, 0xFF), rgba(0xEE, 0xE8, 0xD5, 0xFF), rgba(0xE4, 0xDD, 0xC8, 0xFF), rgba(0x58, 0x6E, 0x75, 0xFF), rgba(0x26, 0x8B, 0xD2, 0xFF), rgba(0x26, 0x8B, 0xD2, 0x40), rgba(0xB5, 0x89, 0x00, 0xFF)])
        } else if name == "Warm Dark"@ {
            Some(seq![rgba(0x1E, 0x1B, 0x18, 0xFF), rgba(0xE8, 0xE0, 0xD4, 0xFF), rgba(0x24, 0x20, 0x1C, 0xFF), rgba(0x2C, 0x27, 0x23, 0xFF), rgba(0xE8, 0xE0, 0xD4, 0xFF), rgba(0xD0, 0x8C, 0x4F, 0xFF), rgba(0xD0, 0x8C, 0x4F, 0x40), rgba(0xFB, 0xBF, 0x24, 0xFF)])
        } else if name == "Cyberpunk"@ {
            Some(seq![rgba(0x0D, 0x02, 0x21, 0xFF), rgba(0xE0, 0xE0, 0xFF, 0xFF), rgba(0x12, 0x04, 0x30, 0xFF), rgba(0x1A, 0x08, 0x40, 0xFF), rgba(0xF0, 0xE6, 0xFF, 0xFF), rgba(0xFF, 0x2A, 0x6D, 0xFF), rgba(0xFF, 0x2A, 0x6D, 0x40), rgba(0x05, 0xD9, 0xE8, 0xFF)])
        } else if name == "Catppuccin"@ {
            Some(seq![rgba(0x1E, 0x1E, 0x2E, 0xFF), rgba(0xCD, 0xD6, 0xF4, 0xFF), rgba(0x18, 0x18, 0x25, 0xFF), rgba(0x11, 0x11, 0x1B, 0xFF), rgba(0xCD, 0xD6, 0xF4, 0xFF), rgba(0xCB, 0xA6, 0xF7, 0xFF), rgba(0xCB, 0xA6, 0xF7, 0x40), rgba(0xF9, 0xE2, 0xAF, 0xFF)])
        } else if name == "Nord"@ {
            Some(seq![rgba(0x2E, 0x34, 0x40, 0xFF), rgba(0xEC, 0xEF, 0xF4, 0xFF), rgba(0x3B, 0x42, 0x52, 0xFF), rgba(0x43, 0x4C, 0x5E, 0xFF), rgba(0xEC, 0xEF, 0xF4, 0xFF), rgba(0x88, 0xC0, 0xD0, 0xFF), rgba(0x88, 0xC0, 0xD0, 0x40), rgba(0xEB, 0xCB, 0x8B, 0xFF)])
        } else if name == "Dracula"@ {
            Some(seq![rgba(0x28, 0x2A, 0x36, 0xFF), rgba(0xF8, 0xF8, 0xF2, 0xFF), rgba(0x21, 0x22, 0x2C, 0xFF), rgba(0x34, 0x37, 0x46, 0xFF), rgba(0xF8, 0xF8, 0xF2, 0xFF), rgba(0xBD, 0x93, 0xF9, 0xFF), rgba(0xBD, 0x93, 0xF9, 0x40), rgba(0xF1, 0xFA, 0x8C, 0xFF)])
        } else if name == "Gruvbox Dark"@ {
            Some(seq![rgba(0x28, 0x28, 0x28, 0xFF), rgba(0xEB, 0xDB, 0xB2, 0xFF), rgba(0x1D, 0x20, 0x21, 0xFF), rgba(0x32, 0x30, 0x2F, 0xFF), rgba(0xEB, 0xDB, 0xB2, 0xFF), rgba(0xFE, 0x80, 0x19, 0xFF), rgba(0xFE, 0x80, 0x19, 0x40), rgba(0xFA, 0xBD, 0x2F, 0xFF)])
        } else if name == "Dark"@ {
            Some(seq![rgba(0x16, 0x18, 0x1D, 0xFF), rgba(0xE6, 0xE6, 0xE6, 0xFF), rgba(0x1D, 0x20, 0x26, 0xFF), rgba(0x23, 0x26, 0x2D, 0xFF), rgba(0xE6, 0xE6, 0xE6, 0xFF), rgba(0x4C, 0x8D, 0xF6, 0xFF), rgba(0x4C, 0x8D, 0xF6, 0x40), rgba(0xFB, 0xBF, 0x24, 0xFF)])
        } else if name == "True Dark"@ {
            Some(seq![rgba(0x00, 0x00, 0x00, 0xFF), rgba(0xD4, 0xD4, 0xD4, 0xFF), rgba(0x0A, 0x0A, 0x0A, 0xFF), rgba(0x14, 0x14, 0x14, 0xFF), rgba(0xD4, 0xD4, 0xD4, 0xFF), rgba(0x4C, 0x8D, 0xF6, 0xFF), rgba(0x4C, 0x8D, 0xF6, 0x40), rgba(0xFB, 0xBF, 0x24, 0xFF)])
        } else {
            None
        }
}

/// Look up a built-in theme by name (case-sensitive).
pub fn builtin(name: &str) -> (t: Option<Theme>)
    ensures
        match t {
            Some(t) => t.name@ == name@ && builtin_palette(name@) == Some(palette(t)),
            None => builtin_palette(name@) is None,
        },
{
    if str_equals(name, "Light") {
            Some(Theme {
                name: name.to_owned(),
                page_bg: Color { red: 0xFF, green: 0xFF, blue: 0xFF, alpha: 0xFF },
                page_fg: Color { red: 0x1A, green: 0x1A, blue: 0x1A, alpha: 0xFF },
                ui_bg: Color { red: 0xF5, green: 0xF5, blue: 0xF4, alpha: 0xFF },
                panel_bg: Color { red: 0xEC, green: 0xEC, blue: 0xEB, alpha: 0xFF },
                ui_fg: Color { red: 0x26, green: 0x26, blue: 0x26, alpha: 0xFF },
                accent: Color { red: 0x25, green: 0x63, blue: 0xEB, alpha: 0xFF },
                selection: Color { red: 0x25, green: 0x63, blue: 0xEB, alpha: 0x40 },
                search: Color { red: 0xFB, green: 0xBF, blue: 0x24, alpha: 0xFF },
            })
        } else if str_equals(name, "Sepia") {
            Some(Theme {
                name: name.to_owned(),
                page_bg: Color { red: 0xF4, green: 0xEC, blue: 0xD8, alpha: 0xFF },
                page_fg: Color { red: 0x5B, green: 0x46, blue: 0x36, alpha: 0xFF },
                ui_bg: Color { red: 0x2B, green: 0x25, blue: 0x20, alpha: 0xFF },
                panel_bg: Color { red: 0x35, green: 0x2E, blue: 0x27, alpha: 0xFF },
                ui_fg: Color { red: 0xE8, green: 0xDC, blue: 0xC8, alpha: 0xFF },
                accent: Color { red: 0xC8, green: 0x9B, blue: 0x3C, alpha: 0xFF },
                selection: Color { red: 0xC8, green: 0x9B, blue: 0x3C, alpha: 0x40 },
                search: Color { red: 0xFB, green: 0xBF, blue: 0x24, alpha: 0xFF },
            })
        } else if str_equals(name, "Solarized Light") {
            Some(Theme {
                name: name.to_owned(),
                page_bg: Color { red: 0xFD, green: 0xF6, blue: 0xE3, alpha: 0xFF },
                page_fg: Color { red: 0x65, green: 0x7B, blue: 0x83, alpha: 0xFF },
                ui_bg: Color { red: 0xEE, green: 0xE8, blue: 0xD5, alpha: 0xFF },
                panel_bg: Color { red: 0xE4, green: 0xDD, blue: 0xC8, alpha: 0xFF },
                ui_fg: Color { red: 0x58, green: 0x6E, blue: 0x75, alpha: 0xFF },
                accent: Color { red: 0x26, green: 0x8B, blue: 0xD2, alpha: 0xFF },
                selection: Color { red: 0x26, green: 0x8B, blue: 0xD2, alpha: 0x40 },
                search: Color { red: 0xB5, green: 0x89, blue: 0x00, alpha: 0xFF },
            })
        } else if str_equals(name, "Warm Dark") {
            Some(Theme {
                name: name.to_owned(),
                page_bg: Color { red: 0x1E, green: 0x1B, blue: 0x18, alpha: 0xFF },
                page_fg: Color { red: 0xE8, green: 0xE0, blue: 0xD4, alpha: 0xFF },
                ui_bg: Color { red: 0x24, green: 0x20, blue: 0x1C, alpha: 0xFF },
                panel_bg: Color { red: 0x2C, green: 0x27, blue: 0x23, alpha: 0xFF },
                ui_fg: Color { red: 0xE8, green: 0xE0, blue: 0xD4, alpha: 0xFF },
                accent: Color { red: 0xD0, green: 0x8C, blue: 0x4F, alpha: 0xFF },
                selection: Color { red: 0xD0, green: 0x8C, blue: 0x4F, alpha: 0x40 },
                search: Color { red: 0xFB, green: 0xBF, blue: 0x24, alpha: 0xFF },
            })
        } else if str_equals(name, "Cyberpunk") {
            Some(Theme {
                name: name.to_owned(),
                page_bg: Color { red: 0x0D, green: 0x02, blue: 0x21, alpha: 0xFF },
                page_fg: Color { red: 0xE0, green: 0xE0, blue: 0xFF, alpha: 0xFF },
                ui_bg: Color { red: 0x12, green: 0x04, blue: 0x30, alpha: 0xFF },
                panel_bg: Color { red: 0x1A, green: 0x08, blue: 0x40, alpha: 0xFF },
                ui_fg: Color { red: 0xF0, green: 0xE6, blue: 0xFF, alpha: 0xFF },
                accent: Color { red: 0xFF, green: 0x2A, blue: 0x6D, alpha: 0xFF },
                selection: Color { red: 0xFF, green: 0x2A, blue: 0x6D, alpha: 0x40 },
                search: Color { red: 0x05, green: 0xD9, blue: 0xE8, alpha: 0xFF },
            })
        } else if str_equals(name, "Catppuccin") {
            Some(Theme {
                name: name.to_owned(),
                page_bg: Color { red: 0x1E, green: 0x1E, blue: 0x2E, alpha: 0xFF },
                page_fg: Color { red: 0xCD, green: 0xD6, blue: 0xF4, alpha: 0xFF },
                ui_bg: Color { red: 0x18, green: 0x18, blue: 0x25, alpha: 0xFF },
                panel_bg: Color { red: 0x11, green: 0x11, blue: 0x1B, alpha: 0xFF },
                ui_fg: Color { red: 0xCD, green: 0xD6, blue: 0xF4, alpha: 0xFF },
                accent: Color { red: 0xCB, green: 0xA6, blue: 0xF7, alpha: 0xFF },
                selection: Color { red: 0xCB, green: 0xA6, blue: 0xF7, alpha: 0x40 },
                search: Color { red: 0xF9, green: 0xE2, blue: 0xAF, alpha: 0xFF },
            })
        } else if str_equals(name, "Nord") {
            Some(Theme {
                name: name.to_owned(),
                page_bg: Color { red: 0x2E, green: 0x34, blue: 0x40, alpha: 0xFF },
                page_fg: Color { red: 0xEC, green: 0xEF, blue: 0xF4, alpha: 0xFF },
                ui_bg: Color { red: 0x3B, green: 0x42, blue: 0x52, alpha: 0xFF },
                panel_bg: Color { red: 0x43, green: 0x4C, blue: 0x5E, alpha: 0xFF },
                ui_fg: Color { red: 0xEC, green: 0xEF, blue: 0xF4, alpha: 0xFF },
                accent: Color { red: 0x88, green: 0xC0, blue: 0xD0, alpha: 0xFF },
                selection: Color { red: 0x88, green: 0xC0, blue: 0xD0, alpha: 0x40 },
                search: Color { red: 0xEB, green: 0xCB, blue: 0x8B, alpha: 0xFF },
            })
        } else if str_equals(name, "Dracula") {
            Some(Theme {
                name: name.to_owned(),
                page_bg: Color { red: 0x28, green: 0x2A, blue: 0x36, alpha: 0xFF },
                page_fg: Color { red: 0xF8, green: 0xF8, blue: 0xF2, alpha: 0xFF },
                ui_bg: Color { red: 0x21, green: 0x22, blue: 0x2C, alpha: 0xFF },
                panel_bg: Color { red: 0x34, green: 0x37, blue: 0x46, alpha: 0xFF },
                ui_fg: Color { red: 0xF8, green: 0xF8, blue: 0xF2, alpha: 0xFF },
                accent: Color { red: 0xBD, green: 0x93, blue: 0xF9, alpha: 0xFF },
                selection: Color { red: 0xBD, green: 0x93, blue: 0xF9, alpha: 0x40 },
                search: Color { red: 0xF1, green: 0xFA, blue: 0x8C, alpha: 0xFF },
            })
        } else if str_equals(name, "Gruvbox Dark") {
            Some(Theme {
                name: name.to_owned(),
                page_bg: Color { red: 0x28, green: 0x28, blue: 0x28, alpha: 0xFF },
                page_fg: Color { red: 0xEB, green: 0xDB, blue: 0xB2, alpha: 0xFF },
                ui_bg: Color { red: 0x1D, green: 0x20, blue: 0x21, alpha: 0xFF },
                panel_bg: Color { red: 0x32, green: 0x30, blue: 0x2F, alpha: 0xFF },
                ui_fg: Color { red: 0xEB, green: 0xDB, blue: 0xB2, alpha: 0xFF },
                accent: Color { red: 0xFE, green: 0x80, blue: 0x19, alpha: 0xFF },
                selection: Color { red: 0xFE, green: 0x80, blue: 0x19, alpha: 0x40 },
                search: Color { red: 0xFA, green: 0xBD, blue: 0x2F, alpha: 0xFF },
            })
        } else if str_equals(name, "Dark") {
            Some(Theme {
                name: name.to_owned(),
                page_bg: Color { red: 0x16, green: 0x18, blue: 0x1D, alpha: 0xFF },
                page_fg: Color { red: 0xE6, green: 0xE6, blue: 0xE6, alpha: 0xFF },
                ui_bg: Color { red: 0x1D, green: 0x20, blue: 0x26, alpha: 0xFF },
                panel_bg: Color { red: 0x23, green: 0x26, blue: 0x2D, alpha: 0xFF },
                ui_fg: Color { red: 0xE6, green: 0xE6, blue: 0xE6, alpha: 0xFF },
                accent: Color { red: 0x4C, green: 0x8D, blue: 0xF6, alpha: 0xFF },
                selection: Color { red: 0x4C, green: 0x8D, blue: 0xF6, alpha: 0x40 },
                search: Color { red: 0xFB, green: 0xBF, blue: 0x24, alpha: 0xFF },
            })
        } else if str_equals(name, "True Dark") {
            Some(Theme {
                name: name.to_owned(),
                page_bg: Color { red: 0x00, green: 0x00, blue: 0x00, alpha: 0xFF },
                page_fg: Color { red: 0xD4, green: 0xD4, blue: 0xD4, alpha: 0xFF },
                ui_bg: Color { red: 0x0A, green: 0x0A, blue: 0x0A, alpha: 0xFF },
                panel_bg: Color { red: 0x14, green: 0x14, blue: 0x14, alpha: 0xFF },
                ui_fg: Color { red: 0xD4, green: 0xD4, blue: 0xD4, alpha: 0xFF },
                accent: Color { red: 0x4C, green: 0x8D, blue: 0xF6, alpha: 0xFF },
                selection: Color { red: 0x4C, green: 0x8D, blue: 0xF6, alpha: 0x40 },
                search: Color { red: 0xFB, green: 0xBF, blue: 0x24, alpha: 0xFF },
            })
        } else {
            None
        }
}

/// Light palette `page_bg`, the default for a theme document that omits it.
pub fn light_page_bg() -> (c: Color)
    ensures
        c == rgba(0xFF, 0xFF, 0xFF, 0xFF),
{
    Color { red: 0xFF, green: 0xFF, blue: 0xFF, alpha: 0xFF }
}

/// Light palette `page_fg`, the default for a theme document that omits it.
pub fn light_page_fg() -> (c: Color)
    ensures
        c == rgba(0x1A, 0x1A, 0x1A, 0xFF),
{
    Color { red: 0x1A, green: 0x1A, blue: 0x1A, alpha: 0xFF }
}

/// Light palette `ui_bg`, the default for a theme document that omits it.
pub fn light_ui_bg() -> (c: Color)
    ensures
        c == rgba(0xF5, 0xF5, 0xF4, 0xFF),
{
    Color { red: 0xF5, green: 0xF5, blue: 0xF4, alpha: 0xFF }
}

/// Light palette `panel_bg`, the default for a theme document that omits it.
pub fn light_panel_bg() -> (c: Color)
    ensures
        c == rgba(0xEC, 0xEC, 0xEB, 0xFF),
{
    Color { red: 0xEC, green: 0xEC, blue: 0xEB, alpha: 0xFF }
}

/// Light palette `ui_fg`, the default for a theme document that omits it.
pub fn light_ui_fg() -> (c: Color)
    ensures
        c == rgba(0x26, 0x26, 0x26, 0xFF),
{
    Color { red: 0x26, green: 0x26, blue: 0x26, alpha: 0xFF }
}

/// Light palette `accent`, the default for a theme document that omits it.
pub fn light_accent() -> (c: Color)
    ensures
        c == rgba(0x25, 0x63, 0xEB, 0xFF),
{
    Color { red: 0x25, green: 0x63, blue: 0xEB, alpha: 0xFF }
}

/// Light palette `selection`, the default for a theme document that omits it.
pub fn light_selection() -> (c: Color)
    ensures
        c == rgba(0x25, 0x63, 0xEB, 0x40),
{
    Color { red: 0x25, green: 0x63, blue: 0xEB, alpha: 0x40 }
}

/// Light palette `search`, the default for a theme document that omits it.
pub fn light_search() -> (c: Color)
    ensures
        c == rgba(0xFB, 0xBF, 0x24, 0xFF),
{
    Color { red: 0xFB, green: 0xBF, blue: 0x24, alpha: 0xFF }
}

/// The built-in theme after `name` in cycling order, wrapping from the last
/// to the first; the first one when `name` is not in the cycle.
pub open spec fn next_builtin(name: Seq<char>) -> Seq<char> {
    if name == "Light"@ {
        "Sepia"@
    } else if name == "Sepia"@ {
        "Warm Dark"@
    } else if name == "Warm Dark"@ {
        "Dark"@
    } else if name == "Dark"@ {
        "True Dark"@
    } else {
        "Light"@
    }
}

/// The name of the built-in theme that follows `current` in
/// [`BUILTIN_NAMES`] order, wrapping around; the first built-in when
/// `current` is not one of them.
pub fn next_builtin_name(current: &str) -> (name: &'static str)
    ensures
        name@ == next_builtin(current@),
{
    if str_equals(current, "Light") {
        "Sepia"
    } else if str_equals(current, "Sepia") {
        "Warm Dark"
    } else if str_equals(current, "Warm Dark") {
        "Dark"
    } else if str_equals(current, "Dark") {
        "True Dark"
    } else {
        "Light"
    }
}

/// The theme cycle visits every built-in and comes back: from any name,
/// one step lands on a built-in of the cycle, and from a built-in five
/// steps return to it.
pub proof fn law_theme_cycle_returns(name: Seq<char>)
    ensures
        ({
            let n1 = next_builtin(name);
            n1 == "Light"@ || n1 == "Sepia"@ || n1 == "Warm Dark"@ || n1 == "Dark"@ || n1
                == "True Dark"@
        }),
        (name == "Light"@ || name == "Sepia"@ || name == "Warm Dark"@ || name == "Dark"@ || name
            == "True Dark"@) ==> next_builtin(
            next_builtin(next_builtin(next_builtin(next_builtin(name)))),
        ) == name,
{
    reveal_strlit("Light");
    reveal_strlit("Sepia");
    reveal_strlit("Warm Dark");
    reveal_strlit("Dark");
    reveal_strlit("True Dark");
    assert("Light"@[0] != "Sepia"@[0]);
    assert("Light"@[0] != "Warm Dark"@[0]);
    assert("Light"@[0] != "Dark"@[0]);
    assert("Light"@[0] != "True Dark"@[0]);
    assert("Sepia"@[0] != "Warm Dark"@[0]);
    assert("Sepia"@[0] != "Dark"@[0]);
    assert("Sepia"@[0] != "True Dark"@[0]);
    assert("Warm Dark"@[0] != "Dark"@[0]);
    assert("Warm Dark"@[0] != "True Dark"@[0]);
    assert("Dark"@[0] != "True Dark"@[0]);
}

/// A copy of a theme: same name, same colors.
pub fn copy_theme(theme: &Theme) -> (t: Theme)
    ensures
        t.name@ == theme.name@,
        palette(t) == palette(*theme),
{
    Theme {
        name: theme.name.clone(),
        page_bg: theme.page_bg,
        page_fg: theme.page_fg,
        ui_bg: theme.ui_bg,
        panel_bg: theme.panel_bg,
        ui_fg: theme.ui_fg,
        accent: theme.accent,
        selection: theme.selection,
        search: theme.search,
    }
}

/// Index of the first custom theme called `name`, if any.
pub open spec fn first_named(customs: Seq<(Theme, String)>, name: Seq<char>) -> Option<int> {
    if exists|i: int| 0 <= i < customs.len() && customs[i].0.name@ == name {
        Some(
            choose|i: int|
                0 <= i < customs.len() && customs[i].0.name@ == name && forall|j: int|
                    0 <= j < i ==> customs[j].0.name@ != name,
        )
    } else {
        None
    }
}

/// What a theme name resolves to: the built-in of that name, else the first
/// custom theme (with its file path) of that name. Built-ins win over
/// same-named customs.
pub open spec fn resolves_to(customs: Seq<(Theme, String)>, name: Seq<char>, r: Option<Theme>) -> bool {
    match builtin_palette(name) {
        Some(p) => r matches Some(t) && t.name@ == name && palette(t) == p,
        None => match first_named(customs, name) {
            Some(i) => r matches Some(t) && t.name@ == name && palette(t) == palette(customs[i].0),
            None => r is None,
        },
    }
}

/// Look up a theme by name among the built-ins and the custom themes.
pub fn resolve_theme(name: &str, customs: &[(Theme, String)]) -> (r: Option<Theme>)
    ensures
        resolves_to(customs@, name@, r),
{
    match builtin(name) {
        Some(t) => return Some(t),
        None => {},
    }
    let mut i: usize = 0;
    while i < customs.len()
        invariant
            i <= customs@.len(),
            builtin_palette(name@) is None,
            forall|j: int| 0 <= j < i ==> customs@[j].0.name@ != name@,
        decreases customs@.len() - i,
    {
        if str_equals(customs[i].0.name.as_str(), name) {
            proof {
                assert(0 <= i < customs@.len() && customs@[i as int].0.name@ == name@
                    && forall|j: int| 0 <= j < i ==> customs@[j].0.name@ != name@);
                let f = first_named(customs@, name@)->Some_0;
                if f < i {
                    assert(customs@[f].0.name@ != name@);
                }
                if f > i {
                    assert(customs@[i as int].0.name@ != name@);
                }
            }
            return Some(copy_theme(&customs[i].0));
        }
        i = i + 1;
    }
    None
}

/// The theme the app starts with: the configured name resolved among the
/// built-ins and customs, else the default built-in.
pub fn startup_theme(configured: &str, customs: &[(Theme, String)]) -> (t: Theme)
    ensures
        resolves_to(customs@, configured@, Some(t)) || (resolves_to(customs@, configured@, None)
            && t.name@ == DEFAULT_THEME@ && builtin_palette(DEFAULT_THEME@) == Some(palette(t))),
{
    match resolve_theme(configured, customs) {
        Some(t) => t,
        None => {
            let fallback = builtin(DEFAULT_THEME);
            proof {
                reveal_strlit("Light");
            }
            assert(fallback is Some);
            fallback.unwrap()
        },
    }
}

} // verus!
