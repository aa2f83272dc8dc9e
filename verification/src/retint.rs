//! Accent tinting for chrome surfaces.
//!
//! [`retint`] blends a small fraction of the accent into `panel_bg` and
//! `ui_bg` so a chosen accent seeps into the surrounding chrome, while the
//! page colors stay untouched. The blend backs off to nothing if the tinted
//! surface would come within a small luma margin of the accent or of the
//! foreground, so readable themes are never tinted into mud.

use vstd::prelude::*;

use crate::color::{rgba, Color};
use crate::recolor::{luma, luma_spec};
use crate::theme::Theme;

verus! {

/// Blend numerator out of 255 for dark chrome (~6%).
pub const TINT_DARK: u32 = 15;

/// Blend numerator out of 255 for light chrome (~6%).
pub const TINT_LIGHT: u32 = 16;

/// Minimum luma distance the tinted surface keeps from the accent.
pub const MIN_ACCENT_GAP: i32 = 24;

/// Minimum luma distance the tinted surface keeps from the foreground.
pub const MIN_FG_GAP: i32 = 24;

/// Blend numerator out of 255 toward black for the canvas surround on dark
/// chrome (~20%).
pub const CANVAS_DARK: u32 = 51;

/// The same blend on light chrome (~10%).
pub const CANVAS_LIGHT: u32 = 25;

/// Luma of a color's RGB channels.
pub open spec fn color_luma(c: Color) -> int {
    luma_spec(c.red, c.green, c.blue)
}

/// Chrome counts as dark when its background luma is below 128.
pub open spec fn is_dark_chrome(t: Theme) -> bool {
    color_luma(t.ui_bg) < 128
}

/// `a` moved `factor`/255 of the way toward `b`, rounded to nearest.
pub open spec fn mix_spec(a: u8, b: u8, factor: int) -> int {
    (a * (255 - factor) + b * factor + 127) / 255
}

/// `bg` moved `factor`/255 toward `accent` in each color channel; alpha kept.
pub open spec fn blend_toward(bg: Color, accent: Color, factor: int) -> Color {
    rgba(
        mix_spec(bg.red, accent.red, factor) as u8,
        mix_spec(bg.green, accent.green, factor) as u8,
        mix_spec(bg.blue, accent.blue, factor) as u8,
        bg.alpha,
    )
}

/// Absolute value.
pub open spec fn abs_int(v: int) -> int {
    if v < 0 {
        -v
    } else {
        v
    }
}

/// The tinted surface, or `bg` itself when the tint would crowd the accent
/// or the foreground luma.
pub open spec fn tint_spec(bg: Color, fg: Color, accent: Color, factor: int) -> Color {
    let out = blend_toward(bg, accent, factor);
    if abs_int(color_luma(out) - color_luma(accent)) < MIN_ACCENT_GAP || abs_int(
        color_luma(out) - color_luma(fg),
    ) < MIN_FG_GAP {
        bg
    } else {
        out
    }
}

/// The tint factor for a theme's chrome.
pub open spec fn tint_factor(t: Theme) -> int {
    if is_dark_chrome(t) {
        TINT_DARK as int
    } else {
        TINT_LIGHT as int
    }
}

/// The canvas-surround factor for a theme's chrome.
pub open spec fn canvas_factor(t: Theme) -> int {
    if is_dark_chrome(t) {
        CANVAS_DARK as int
    } else {
        CANVAS_LIGHT as int
    }
}

fn mix(a: u8, b: u8, factor: u32) -> (m: u8)
    requires
        factor <= 255,
    ensures
        m == mix_spec(a, b, factor as int),
{
    proof {
        assert(a * (255 - factor) + b * factor <= 255 * 255) by (nonlinear_arith)
            requires
                a <= 255,
                b <= 255,
                factor <= 255,
        ;
    }
    ((a as u32 * (255 - factor) + b as u32 * factor + 127) / 255) as u8
}

/// Blend `factor`/255 of `accent` into `bg` when the result keeps a safe
/// luma distance from both the accent and `fg`; otherwise return `bg`.
fn tint(bg: Color, fg: Color, accent: Color, factor: u32) -> (c: Color)
    requires
        factor <= 255,
    ensures
        c == tint_spec(bg, fg, accent, factor as int),
{
    let out = Color {
        red: mix(bg.red, accent.red, factor),
        green: mix(bg.green, accent.green, factor),
        blue: mix(bg.blue, accent.blue, factor),
        alpha: bg.alpha,
    };
    let out_luma = luma(out.red, out.green, out.blue) as i32;
    let accent_luma = luma(accent.red, accent.green, accent.blue) as i32;
    let fg_luma = luma(fg.red, fg.green, fg.blue) as i32;
    let accent_gap = if out_luma >= accent_luma {
        out_luma - accent_luma
    } else {
        accent_luma - out_luma
    };
    let fg_gap = if out_luma >= fg_luma {
        out_luma - fg_luma
    } else {
        fg_luma - out_luma
    };
    if accent_gap < MIN_ACCENT_GAP || fg_gap < MIN_FG_GAP {
        return bg;
    }
    out
}

fn chrome_is_dark(theme: &Theme) -> (dark: bool)
    ensures
        dark == is_dark_chrome(*theme),
{
    luma(theme.ui_bg.red, theme.ui_bg.green, theme.ui_bg.blue) < 128
}

/// The theme with `accent` blended into its chrome surfaces.
///
/// `page_bg`/`page_fg`, `ui_fg`, `selection`, `search`, `name`, and `accent`
/// itself pass through unchanged; `panel_bg` and `ui_bg` move a few percent
/// toward the accent — more on dark chrome than on light — unless that
/// would crowd the accent or the text luma, in which case a surface stays
/// as it is.
pub fn retint(theme: &Theme, accent: Color) -> (t: Theme)
    ensures
        t.name@ == theme.name@,
        t.page_bg == theme.page_bg,
        t.page_fg == theme.page_fg,
        t.ui_fg == theme.ui_fg,
        t.accent == theme.accent,
        t.selection == theme.selection,
        t.search == theme.search,
        t.panel_bg == tint_spec(theme.panel_bg, theme.ui_fg, accent, tint_factor(*theme)),
        t.ui_bg == tint_spec(theme.ui_bg, theme.ui_fg, accent, tint_factor(*theme)),
{
    let factor = if chrome_is_dark(theme) {
        TINT_DARK
    } else {
        TINT_LIGHT
    };
    Theme {
        name: theme.name.clone(),
        page_bg: theme.page_bg,
        page_fg: theme.page_fg,
        ui_bg: tint(theme.ui_bg, theme.ui_fg, accent, factor),
        panel_bg: tint(theme.panel_bg, theme.ui_fg, accent, factor),
        ui_fg: theme.ui_fg,
        accent: theme.accent,
        selection: theme.selection,
        search: theme.search,
    }
}

/// The darker surround the page canvas paints on: `panel_bg` pulled toward
/// black so pages and the sidebar both stand apart from it. Dark chrome
/// takes a stronger pull than light chrome; alpha is kept.
pub fn canvas_bg(theme: &Theme) -> (c: Color)
    ensures
        c == rgba(
            mix_spec(theme.panel_bg.red, 0, canvas_factor(*theme)) as u8,
            mix_spec(theme.panel_bg.green, 0, canvas_factor(*theme)) as u8,
            mix_spec(theme.panel_bg.blue, 0, canvas_factor(*theme)) as u8,
            theme.panel_bg.alpha,
        ),
{
    let factor = if chrome_is_dark(theme) {
        CANVAS_DARK
    } else {
        CANVAS_LIGHT
    };
    Color {
        red: mix(theme.panel_bg.red, 0, factor),
        green: mix(theme.panel_bg.green, 0, factor),
        blue: mix(theme.panel_bg.blue, 0, factor),
        alpha: theme.panel_bg.alpha,
    }
}

} // verus!
