//! Decisions behind the reader window's chrome: page-jump input, search-hit
//! stepping, the theme icon, what the center pane shows, toasts, repaint
//! scheduling, saved-theme names, and the per-page render-failure ledger.
//!
//! Instants and durations are whole milliseconds.

use vstd::prelude::*;
use vstd::string::StringSliceAdditionalSpecFns;
use vstd::utf8::{encode_utf8, encode_utf8_valid_utf8, is_char_boundary, is_char_boundary_iff_is_leading_byte};

use crate::cache::CacheKey;
use crate::keybinds::Action;
use crate::color::Color;
use crate::recolor::{luma, luma_spec};
use crate::prefs::{join, join_path};
use crate::retint::retint;
use crate::sidebar::SearchHit;
use crate::strings::{
    ascii_lowered, decimal_digits, push_char, str_equals, strip_back, strip_front, to_ascii_lowercase, trim, trimmed,
    white_space,
};
use crate::theme::Theme;

verus! {

/// A chrome icon.
#[derive(Clone, Copy, Debug, PartialEq, Eq, Structural, Hash)]
pub enum Icon {
    Menu,
    Dots,
    Panel,
    Search,
    Focus,
    List,
    Flag,
    Gear,
    Sun,
    Moon,
    ChevronLeft,
    ChevronRight,
    Plus,
    Minus,
    X,
    Page,
    Book,
    Columns2,
    Save,
    Info,
    Pen,
    ChevronDown,
}

/// The asset file each icon is drawn from.
pub open spec fn asset_name(icon: Icon) -> Seq<char> {
    match icon {
        Icon::Menu => "menu.svg"@,
        Icon::Dots => "ellipsis-vertical.svg"@,
        Icon::Panel => "panel-left.svg"@,
        Icon::Search => "search.svg"@,
        Icon::Focus => "maximize.svg"@,
        Icon::List => "list.svg"@,
        Icon::Flag => "flag.svg"@,
        Icon::Gear => "settings.svg"@,
        Icon::Sun => "sun.svg"@,
        Icon::Moon => "moon.svg"@,
        Icon::ChevronLeft => "chevron-left.svg"@,
        Icon::ChevronRight => "chevron-right.svg"@,
        Icon::Plus => "plus.svg"@,
        Icon::Minus => "minus.svg"@,
        Icon::X => "x.svg"@,
        Icon::Page => "file-text.svg"@,
        Icon::Book => "book-open.svg"@,
        Icon::Columns2 => "columns-2.svg"@,
        Icon::Save => "save.svg"@,
        Icon::Info => "info.svg"@,
        Icon::Pen => "pen.svg"@,
        Icon::ChevronDown => "chevron-down.svg"@,
    }
}

impl Icon {
    /// The Lucide SVG asset each icon is drawn from.
    pub fn asset_file(self) -> (name: &'static str)
        ensures
            name@ == asset_name(self),
    {
        match self {
            Icon::Menu => "menu.svg",
            Icon::Dots => "ellipsis-vertical.svg",
            Icon::Panel => "panel-left.svg",
            Icon::Search => "search.svg",
            Icon::Focus => "maximize.svg",
            Icon::List => "list.svg",
            Icon::Flag => "flag.svg",
            Icon::Gear => "settings.svg",
            Icon::Sun => "sun.svg",
            Icon::Moon => "moon.svg",
            Icon::ChevronLeft => "chevron-left.svg",
            Icon::ChevronRight => "chevron-right.svg",
            Icon::Plus => "plus.svg",
            Icon::Minus => "minus.svg",
            Icon::X => "x.svg",
            Icon::Page => "file-text.svg",
            Icon::Book => "book-open.svg",
            Icon::Columns2 => "columns-2.svg",
            Icon::Save => "save.svg",
            Icon::Info => "info.svg",
            Icon::Pen => "pen.svg",
            Icon::ChevronDown => "chevron-down.svg",
        }
    }
}

/// Custom theme files larger than this are rejected before reading.
pub const MAX_THEME_BYTES: u64 = 262144;

/// A theme file above the cap is rejected unread.
pub fn oversized_theme(size: u64) -> (over: bool)
    ensures
        over == (size > MAX_THEME_BYTES),
{
    size > MAX_THEME_BYTES
}

/// A theme file name: a non-empty stem followed by the extension `.yaml`
/// in any ASCII case.
pub open spec fn theme_extension(file_name: Seq<char>) -> bool {
    &&& file_name.len() >= 6
    &&& ascii_lowered(file_name.subrange(file_name.len() - 5, file_name.len() as int)) == ".yaml"@
}

/// A custom theme file is loaded when its name has the theme extension and
/// its stem (the name before the extension) is the theme's embedded name.
pub open spec fn theme_file_accepted(file_name: Seq<char>, theme_name: Seq<char>) -> bool {
    &&& theme_extension(file_name)
    &&& file_name.subrange(0, file_name.len() - 5) == theme_name
}

/// Whether a file is a theme file by its name; others are not read.
pub fn has_theme_extension(file_name: &str) -> (ok: bool)
    ensures
        ok == theme_extension(file_name@),
{
    proof {
        reveal_strlit(".yaml");
    }
    let n = file_name.unicode_len();
    if n < 6 {
        return false;
    }
    let ext = to_ascii_lowercase(file_name.substring_char(n - 5, n));
    str_equals(ext.as_str(), ".yaml")
}

/// Whether a theme file named `file_name` whose theme calls itself
/// `theme_name` is loaded; see [`theme_file_accepted`].
pub fn accepts_theme_file(file_name: &str, theme_name: &str) -> (ok: bool)
    ensures
        ok == theme_file_accepted(file_name@, theme_name@),
{
    if !has_theme_extension(file_name) {
        return false;
    }
    let n = file_name.unicode_len();
    str_equals(file_name.substring_char(0, n - 5), theme_name)
}

/// Characters a saved theme name keeps: ASCII letters and digits, `-`,
/// `_` and space.
pub open spec fn name_char(c: char) -> bool {
    ('a' <= c <= 'z') || ('A' <= c <= 'Z') || ('0' <= c <= '9') || c == '-' || c == '_' || c
        == ' '
}

/// The characters of `s` that a theme name keeps, in order.
pub open spec fn name_chars(s: Seq<char>) -> Seq<char>
    decreases s.len(),
{
    if s.len() == 0 {
        seq![]
    } else {
        name_chars(s.drop_last()) + if name_char(s.last()) {
            seq![s.last()]
        } else {
            seq![]
        }
    }
}

/// Restrict a saved-theme name to the filename charset; `None` when nothing
/// survives.
pub fn sanitize_theme_name(raw: &str) -> (name: Option<String>)
    ensures
        match name {
            Some(n) => n@ == name_chars(raw@) && n@.len() > 0,
            None => name_chars(raw@).len() == 0,
        },
{
    let mut cleaned = String::new();
    let mut kept = false;
    for ch in it: raw.chars()
        invariant
            it.seq() == raw@,
            cleaned@ == name_chars(raw@.take(it.index() as int)),
            kept == (cleaned@.len() > 0),
    {
        proof {
            assert(raw@.take(it.index() + 1).drop_last() =~= raw@.take(it.index() as int));
        }
        let keep = ('a' <= ch && ch <= 'z') || ('A' <= ch && ch <= 'Z') || ('0' <= ch && ch
            <= '9') || ch == '-' || ch == '_' || ch == ' ';
        if keep {
            push_char(&mut cleaned, ch);
            kept = true;
        }
    }
    proof {
        assert(raw@.take(raw@.len() as int) =~= raw@);
    }
    if !kept {
        None
    } else {
        Some(cleaned)
    }
}

/// The custom-themes directory, `<config_dir>/themes`.
pub fn themes_dir(config_dir: Option<&str>) -> (dir: Option<String>)
    ensures
        match config_dir {
            Some(d) => dir matches Some(t) && t@ == (if d@.len() == 0 {
                "themes"@
            } else {
                join_path(d@, "themes"@)
            }),
            None => dir is None,
        },
{
    match config_dir {
        Some(d) => {
            if d.unicode_len() == 0 {
                Some("themes".to_owned())
            } else {
                Some(join(d, "themes"))
            }
        },
        None => None,
    }
}

/// The value of a decimal digit character.
pub open spec fn digit_value(c: char) -> int {
    (c as u32) - ('0' as u32)
}

/// Whether every character of `s` is an ASCII digit.
pub open spec fn all_digits(s: Seq<char>) -> bool {
    forall|i: int| 0 <= i < s.len() ==> '0' <= #[trigger] s[i] <= '9'
}

/// The value of a string of decimal digits.
pub open spec fn digits_value(s: Seq<char>) -> nat
    decreases s.len(),
{
    if s.len() == 0 {
        0
    } else {
        (digits_value(s.drop_last()) * 10 + digit_value(s.last())) as nat
    }
}

/// What `str::parse::<usize>` yields: an optional `+` sign and one or more
/// ASCII digits whose value fits in `usize`; `None` for anything else.
pub open spec fn parse_usize(s: Seq<char>) -> Option<nat> {
    let digits = if s.len() > 0 && s[0] == '+' {
        s.drop_first()
    } else {
        s
    };
    if digits.len() > 0 && all_digits(digits) && digits_value(digits) <= usize::MAX {
        Some(digits_value(digits))
    } else {
        None
    }
}

pub proof fn lemma_digits_value_grows(s: Seq<char>, k: int)
    requires
        all_digits(s),
        0 <= k <= s.len(),
    ensures
        digits_value(s.take(k)) <= digits_value(s),
    decreases s.len() - k,
{
    if k < s.len() {
        lemma_digits_value_grows(s, k + 1);
        assert(s.take(k + 1).drop_last() =~= s.take(k));
    } else {
        assert(s.take(k) =~= s);
    }
}

/// Parse an unsigned decimal number as `str::parse::<usize>` does.
pub fn parse_decimal(text: &str) -> (n: Option<usize>)
    ensures
        match n {
            Some(v) => parse_usize(text@) == Some(v as nat),
            None => parse_usize(text@) is None,
        },
{
    let len: usize = text.unicode_len();
    let mut i: usize = 0;
    if len > 0 && text.get_char(0) == '+' {
        i = 1;
    }
    let ghost digits = if text@.len() > 0 && text@[0] == '+' {
        text@.drop_first()
    } else {
        text@
    };
    assert(digits =~= text@.subrange(i as int, len as int));
    if i == len {
        return None;
    }
    let mut value: usize = 0;
    let mut k: usize = i;
    while k < len
        invariant
            i <= k <= len,
            len == text@.len(),
            digits == text@.subrange(i as int, len as int),
            digits == (if text@.len() > 0 && text@[0] == '+' {
                text@.drop_first()
            } else {
                text@
            }),
            all_digits(text@.subrange(i as int, k as int)),
            value as nat == digits_value(text@.subrange(i as int, k as int)),
        decreases len - k,
    {
        let c = text.get_char(k);
        let prefix = Ghost(text@.subrange(i as int, k as int));
        let next = Ghost(text@.subrange(i as int, k + 1));
        assert(next@.drop_last() =~= prefix@);
        if !('0' <= c && c <= '9') {
            assert(digits[k - i] == c);
            assert(!('0' <= digits[k - i] <= '9'));
            assert(!all_digits(digits));
            assert(parse_usize(text@) is None);
            return None;
        }
        let d: usize = ((c as u32) - ('0' as u32)) as usize;
        if value > (usize::MAX - d) / 10 {
            proof {
                assert(digits_value(next@) > usize::MAX) by (nonlinear_arith)
                    requires
                        digits_value(next@) == value * 10 + d,
                        value > (usize::MAX - d) / 10,
                        d <= 9,
                ;
                assert(next@ =~= digits.take(k + 1 - i));
                if all_digits(digits) {
                    lemma_digits_value_grows(digits, k + 1 - i);
                }
                assert(parse_usize(text@) is None);
            }
            return None;
        }
        assert(value * 10 + d <= usize::MAX) by (nonlinear_arith)
            requires
                value <= (usize::MAX - d) / 10,
                d <= 9,
        ;
        value = value * 10 + d;
        k = k + 1;
    }
    assert(text@.subrange(i as int, len as int) =~= digits);
    Some(value)
}

pub proof fn lemma_decimal_value(n: nat)
    ensures
        decimal_digits(n).len() > 0,
        all_digits(decimal_digits(n)),
        digits_value(decimal_digits(n)) == n,
        decimal_digits(n)[0] != '+',
        !white_space(decimal_digits(n)[0]),
        !white_space(decimal_digits(n).last()),
    decreases n,
{
    if n < 10 {
        assert((((n + 48) as u8) as char) as u32 == n + 48);
        let s = decimal_digits(n);
        assert(s.drop_last() =~= Seq::<char>::empty());
        assert(digits_value(Seq::<char>::empty()) == 0);
        assert(digit_value(s.last()) == n);
        assert(digits_value(s) == digits_value(s.drop_last()) * 10 + digit_value(s.last()));
    } else {
        lemma_decimal_value(n / 10);
        let d = n % 10;
        assert((((d + 48) as u8) as char) as u32 == d + 48);
        let s = decimal_digits(n);
        assert(s.drop_last() =~= decimal_digits(n / 10));
        assert(s[0] == decimal_digits(n / 10)[0]);
        assert(digit_value(s.last()) == d);
        assert(digits_value(s) == digits_value(s.drop_last()) * 10 + digit_value(s.last()));
        assert((n / 10) * 10 + d == n);
    }
}

/// The zero-based page a 1-based page text names, if it is a whole number
/// inside `1..=count` after trimming white space.
pub open spec fn jump_target(text: Seq<char>, count: nat) -> Option<nat> {
    match parse_usize(trimmed(text)) {
        Some(page) => if page == 0 || page > count {
            None
        } else {
            Some((page - 1) as nat)
        },
        None => None,
    }
}

/// Turn a 1-based page string into a zero-based page index, or `None` when it
/// is not a whole number inside `1..=count`.
pub fn validate_jump(text: &str, count: usize) -> (page: Option<usize>)
    ensures
        match page {
            Some(p) => jump_target(text@, count as nat) == Some(p as nat),
            None => jump_target(text@, count as nat) is None,
        },
{
    let trimmed_text = trim(text);
    match parse_decimal(trimmed_text.as_str()) {
        Some(page) => {
            if page == 0 || page > count {
                None
            } else {
                Some(page - 1)
            }
        },
        None => None,
    }
}

/// Neighbor hit page for cyclic stepping: forward takes the first hit page
/// strictly after `current` (wrapping to the first hit), backward the last
/// one strictly before it (wrapping to the final hit).
pub fn cycle_hit_page(hits: &[SearchHit], current: usize, dir: isize) -> (page: usize)
    requires
        hits@.len() > 0,
    ensures
        dir > 0 ==> ((exists|i: int|
            0 <= i < hits@.len() && hits@[i].page > current && (forall|j: int|
                0 <= j < i ==> hits@[j].page <= current) && page == hits@[i].page) || ((forall|
            j: int,
        |
            0 <= j < hits@.len() ==> hits@[j].page <= current) && page == hits@[0].page)),
        dir <= 0 ==> ((exists|i: int|
            0 <= i < hits@.len() && hits@[i].page < current && (forall|j: int|
                i < j < hits@.len() ==> hits@[j].page >= current) && page == hits@[i].page)
            || ((forall|j: int| 0 <= j < hits@.len() ==> hits@[j].page >= current) && page
            == hits@[hits@.len() - 1].page)),
{
    let n: usize = hits.len();
    if dir > 0 {
        let mut i: usize = 0;
        while i < n
            invariant
                i <= n,
                n == hits@.len(),
                dir > 0,
                forall|j: int| 0 <= j < i ==> hits@[j].page <= current,
            decreases n - i,
        {
            if hits[i].page > current {
                return hits[i].page;
            }
            i = i + 1;
        }
        hits[0].page
    } else {
        let mut i: usize = n;
        while i > 0
            invariant
                i <= n,
                n == hits@.len(),
                dir <= 0,
                forall|j: int| i <= j < n ==> hits@[j].page >= current,
            decreases i,
        {
            if hits[i - 1].page < current {
                return hits[i - 1].page;
            }
            i = i - 1;
        }
        hits[n - 1].page
    }
}

/// The rows of the delivered batches in order, errors skipped.
pub open spec fn batch_rows(b: Seq<Result<Vec<SearchHit>, String>>) -> Seq<SearchHit>
    decreases b.len(),
{
    if b.len() == 0 {
        seq![]
    } else {
        batch_rows(b.drop_last()) + match b.last() {
            Ok(rows) => rows@,
            Err(_) => seq![],
        }
    }
}

/// The page of the first row of the first non-empty batch.
pub open spec fn first_row_page(b: Seq<Result<Vec<SearchHit>, String>>) -> Option<usize>
    decreases b.len(),
{
    if b.len() == 0 {
        None
    } else {
        match first_row_page(b.drop_last()) {
            Some(p) => Some(p),
            None => match b.last() {
                Ok(rows) => if rows@.len() > 0 {
                    Some(rows@[0].page)
                } else {
                    None
                },
                Err(_) => None,
            },
        }
    }
}

/// The message of the last failed batch.
pub open spec fn last_error(b: Seq<Result<Vec<SearchHit>, String>>) -> Option<Seq<char>>
    decreases b.len(),
{
    if b.len() == 0 {
        None
    } else {
        match b.last() {
            Err(m) => Some(m@),
            Ok(_) => last_error(b.drop_last()),
        }
    }
}

/// Take one poll's batches of a running search into the sidebar: their
/// rows join the hits in order; the first row found in the whole search
/// is jumped to, once; a failed batch reports its message (the last one
/// wins). Returns the page to jump to and the error to show.
pub fn absorb_batches(
    hits: &mut Vec<SearchHit>,
    jumped: &mut bool,
    batches: Vec<Result<Vec<SearchHit>, String>>,
) -> (r: (Option<usize>, Option<String>))
    ensures
        final(hits)@ == old(hits)@ + batch_rows(batches@),
        *final(jumped) == (*old(jumped) || first_row_page(batches@) is Some),
        r.0 == (if *old(jumped) {
            None
        } else {
            first_row_page(batches@)
        }),
        match r.1 {
            Some(m) => last_error(batches@) == Some(m@),
            None => last_error(batches@) is None,
        },
{
    let ghost h0 = hits@;
    let ghost j0 = *jumped;
    let mut jump: Option<usize> = None;
    let mut error: Option<String> = None;
    let mut i: usize = 0;
    let n: usize = batches.len();
    while i < n
        invariant
            i <= n,
            n == batches@.len(),
            hits@ == h0 + batch_rows(batches@.take(i as int)),
            *jumped == (j0 || first_row_page(batches@.take(i as int)) is Some),
            jump == (if j0 {
                None
            } else {
                first_row_page(batches@.take(i as int))
            }),
            match error {
                Some(m) => last_error(batches@.take(i as int)) == Some(m@),
                None => last_error(batches@.take(i as int)) is None,
            },
        decreases n - i,
    {
        assert(batches@.take(i + 1).drop_last() =~= batches@.take(i as int));
        assert(batches@.take(i + 1).last() == batches@[i as int]);
        match &batches[i] {
            Ok(rows) => {
                if rows.len() > 0 && !*jumped {
                    *jumped = true;
                    jump = Some(rows[0].page);
                }
                let mut k: usize = 0;
                let ghost before = hits@;
                while k < rows.len()
                    invariant
                        k <= rows@.len(),
                        hits@ == before + rows@.take(k as int),
                    decreases rows@.len() - k,
                {
                    hits.push(rows[k].clone_hit());
                    assert(rows@.take(k + 1) =~= rows@.take(k as int).push(rows@[k as int]));
                    k = k + 1;
                }
                assert(rows@.take(rows@.len() as int) =~= rows@);
            },
            Err(m) => {
                error = Some(m.clone());
            },
        }
        i = i + 1;
    }
    assert(batches@.take(n as int) =~= batches@);
    (jump, error)
}

/// Sun or moon by the chrome background's luma: an icon for what is active
/// now.
pub fn theme_icon(theme: &Theme) -> (icon: Icon)
    ensures
        icon == (if luma_spec(theme.ui_bg.red, theme.ui_bg.green, theme.ui_bg.blue) >= 128 {
            Icon::Sun
        } else {
            Icon::Moon
        }),
{
    let bg = theme.ui_bg;
    if luma(bg.red, bg.green, bg.blue) >= 128 {
        Icon::Sun
    } else {
        Icon::Moon
    }
}

/// What the center pane shows this frame.
#[derive(Debug, PartialEq, Eq, Structural, Clone, Copy)]
pub enum CenterPane {
    Editor,
    Canvas,
    OpenError,
    Empty,
}

/// The theme editor wins over everything; an open document shows its
/// canvas; an open failure replaces the welcome state.
pub fn center_pane(editor_open: bool, has_document: bool, has_error: bool) -> (pane: CenterPane)
    ensures
        pane == (if editor_open {
            CenterPane::Editor
        } else if has_document {
            CenterPane::Canvas
        } else if has_error {
            CenterPane::OpenError
        } else {
            CenterPane::Empty
        }),
{
    if editor_open {
        CenterPane::Editor
    } else if has_document {
        CenterPane::Canvas
    } else if has_error {
        CenterPane::OpenError
    } else {
        CenterPane::Empty
    }
}

/// Index of the first newline byte of `b` at or after `from`, or -1.
pub open spec fn first_newline(b: Seq<u8>, from: int) -> int
    decreases b.len() - from,
{
    if from < 0 || from >= b.len() {
        -1
    } else if b[from] == 10 {
        from
    } else {
        first_newline(b, from + 1)
    }
}

/// The first line of text `b`, as `str::lines` yields it: up to the first
/// newline, without a carriage return before it; all of `b` when there is
/// no newline.
pub open spec fn first_line(b: Seq<u8>) -> Seq<u8> {
    let i = first_newline(b, 0);
    if i < 0 {
        b
    } else if i > 0 && b[i - 1] == 13 {
        b.take(i - 1)
    } else {
        b.take(i)
    }
}

/// The first line of an error message.
pub fn humanize_reason(raw: &str) -> (line: &str)
    ensures
        line.spec_bytes() == first_line(raw.spec_bytes()),
{
    proof {
        encode_utf8_valid_utf8(raw@);
    }
    let bytes = raw.as_bytes();
    let len: usize = bytes.len();
    let mut i: usize = 0;
    while i < len && bytes[i] != 10
        invariant
            i <= len,
            len == bytes@.len(),
            bytes@ == raw.spec_bytes(),
            first_newline(bytes@, 0) == first_newline(bytes@, i as int),
        decreases len - i,
    {
        i = i + 1;
    }
    if i == len {
        assert(raw.spec_bytes().take(len as int) =~= raw.spec_bytes());
        return raw;
    }
    let cut: usize = if i > 0 && bytes[i - 1] == 13 {
        i - 1
    } else {
        i
    };
    proof {
        is_char_boundary_iff_is_leading_byte(raw.spec_bytes(), cut as int);
    }
    let (line, _) = raw.split_at(cut);
    line
}

/// Whether the viewport-center page deserves a fresh page toast: only a page
/// different from the last toasted one.
pub fn should_toast(last_toasted: Option<usize>, page: usize) -> (toast: bool)
    ensures
        toast == (last_toasted != Some(page)),
{
    match last_toasted {
        Some(p) => p != page,
        None => true,
    }
}

/// A color packed as `u32::from_be_bytes([r, g, b, a])`.
pub open spec fn pack_color(c: Color) -> nat {
    c.red as nat * 0x1000000 + c.green as nat * 0x10000 + c.blue as nat * 0x100 + c.alpha as nat
}

/// Cache-key mix of the recolor pass's two page colors: the background's
/// packed value in the high half, the foreground's in the low half.
pub fn recolor_key(page_bg: Color, page_fg: Color) -> (key: u64)
    ensures
        key == pack_color(page_bg) * 0x100000000 + pack_color(page_fg),
{
    let bg: u64 = page_bg.red as u64 * 0x1000000 + page_bg.green as u64 * 0x10000
        + page_bg.blue as u64 * 0x100 + page_bg.alpha as u64;
    let fg: u64 = page_fg.red as u64 * 0x1000000 + page_fg.green as u64 * 0x10000
        + page_fg.blue as u64 * 0x100 + page_fg.alpha as u64;
    assert(bg * 0x100000000 + fg <= u64::MAX) by (nonlinear_arith)
        requires
            bg <= 0xffffffff,
            fg <= 0xffffffff,
    ;
    bg * 0x100000000 + fg
}

/// Two recolor keys are equal exactly when both page colors are.
pub proof fn law_recolor_key_injective(bg1: Color, fg1: Color, bg2: Color, fg2: Color)
    requires
        pack_color(bg1) * 0x100000000 + pack_color(fg1) == pack_color(bg2) * 0x100000000
            + pack_color(fg2),
    ensures
        bg1 == bg2,
        fg1 == fg2,
{
    let (a1, b1, a2, b2) = (pack_color(bg1), pack_color(fg1), pack_color(bg2), pack_color(fg2));
    assert(a1 == a2 && b1 == b2) by (nonlinear_arith)
        requires
            a1 * 0x100000000 + b1 == a2 * 0x100000000 + b2,
            b1 < 0x100000000,
            b2 < 0x100000000,
    ;
    lemma_pack_injective(bg1, bg2);
    lemma_pack_injective(fg1, fg2);
}

proof fn lemma_pack_injective(c: Color, d: Color)
    requires
        pack_color(c) == pack_color(d),
    ensures
        c == d,
{
    let (r1, g1, b1, a1) = (c.red as int, c.green as int, c.blue as int, c.alpha as int);
    let (r2, g2, b2, a2) = (d.red as int, d.green as int, d.blue as int, d.alpha as int);
    assert(r1 == r2 && g1 == g2 && b1 == b2 && a1 == a2) by (nonlinear_arith)
        requires
            r1 * 0x1000000 + g1 * 0x10000 + b1 * 0x100 + a1 == r2 * 0x1000000 + g2 * 0x10000 + b2
                * 0x100 + a2,
            0 <= r1 < 256,
            0 <= g1 < 256,
            0 <= b1 < 256,
            0 <= a1 < 256,
            0 <= r2 < 256,
            0 <= g2 < 256,
            0 <= b2 < 256,
            0 <= a2 < 256,
    ;
}

/// How often the schedulers poll while work is outstanding, in milliseconds.
pub const REPAINT_CADENCE_MS: u64 = 50;

/// The smaller of two optional waits.
pub open spec fn min_wait(a: Option<u64>, b: Option<u64>) -> Option<u64> {
    match (a, b) {
        (Some(x), Some(y)) => Some(if x <= y {
            x
        } else {
            y
        }),
        (Some(x), None) => Some(x),
        (None, y) => y,
    }
}

/// The wait until the next timed repaint, `None` when nothing needs one.
pub open spec fn repaint_wait(
    focused: bool,
    pending_renders: bool,
    next_retry: Option<u64>,
    polling_job: bool,
    toast_wait: Option<u64>,
) -> Option<u64> {
    if !focused {
        None
    } else {
        let render_wait = if pending_renders {
            Some(REPAINT_CADENCE_MS)
        } else {
            next_retry
        };
        let poll_wait = if polling_job {
            Some(REPAINT_CADENCE_MS)
        } else {
            None
        };
        min_wait(min_wait(render_wait, poll_wait), toast_wait)
    }
}

fn smaller(a: Option<u64>, b: Option<u64>) -> (m: Option<u64>)
    ensures
        m == min_wait(a, b),
{
    match (a, b) {
        (Some(x), Some(y)) => Some(if x <= y {
            x
        } else {
            y
        }),
        (Some(x), None) => Some(x),
        (None, y) => y,
    }
}

/// The wait until the next timed repaint the schedulers need; an unfocused
/// window schedules nothing.
pub fn should_schedule_repaint(
    focused: bool,
    pending_renders: bool,
    next_retry: Option<u64>,
    polling_job: bool,
    toast_wait: Option<u64>,
) -> (wait: Option<u64>)
    ensures
        wait == repaint_wait(focused, pending_renders, next_retry, polling_job, toast_wait),
{
    if !focused {
        return None;
    }
    let render_wait = if pending_renders {
        Some(REPAINT_CADENCE_MS)
    } else {
        next_retry
    };
    let poll_wait = if polling_job {
        Some(REPAINT_CADENCE_MS)
    } else {
        None
    };
    smaller(smaller(render_wait, poll_wait), toast_wait)
}

/// The theme as painted on the big chrome masses: retinted toward its own
/// accent.
pub fn tinted_chrome(theme: &Theme) -> (t: Theme)
    ensures
        t.name@ == theme.name@,
        t.page_bg == theme.page_bg,
        t.page_fg == theme.page_fg,
        t.ui_fg == theme.ui_fg,
        t.accent == theme.accent,
        t.selection == theme.selection,
        t.search == theme.search,
        t.panel_bg == crate::retint::tint_spec(
            theme.panel_bg,
            theme.ui_fg,
            theme.accent,
            crate::retint::tint_factor(*theme),
        ),
        t.ui_bg == crate::retint::tint_spec(
            theme.ui_bg,
            theme.ui_fg,
            theme.accent,
            crate::retint::tint_factor(*theme),
        ),
{
    retint(theme, theme.accent)
}

/// The final component of a path as `Path::file_name` reports it.
pub uninterp spec fn file_name(path: Seq<char>) -> Option<Seq<char>>;

/// std's `Path::file_name` on a path given as text: the final component, or
/// `None` when the path ends in `..` or has none. Which characters separate
/// components depends on the platform, so nothing more is stated here than
/// that the result is the name this call reports.
#[verifier::external_body]
fn path_file_name(path: &str) -> (name: Option<String>)
    ensures
        match name {
            Some(n) => file_name(path@) == Some(n@),
            None => file_name(path@) is None,
        },
{
    std::path::Path::new(path).file_name().and_then(|n| n.to_str()).map(|n| n.to_owned())
}

/// The document's file name for the title bar; `document` when the path
/// has none.
pub fn filename_of(path: &str) -> (name: String)
    ensures
        name@ == match file_name(path@) {
            Some(n) => n,
            None => "document"@,
        },
{
    match path_file_name(path) {
        Some(n) => n,
        None => "document".to_owned(),
    }
}

/// One page's render-failure record: failures so far at the current scale,
/// when the next automatic retry is due (`None` once the backoffs are
/// exhausted: the page waits for a click), and the last error detail.
#[derive(Debug, Clone, PartialEq)]
pub struct FailState {
    pub attempt: usize,
    pub next_retry: Option<u64>,
    pub detail: String,
}

/// The automatic-retry backoff after the `attempt`-th failure, in
/// milliseconds: the first three failures schedule a retry, the fourth is
/// terminal.
pub open spec fn backoff_ms(attempt: int) -> Option<u64> {
    if attempt == 1 {
        Some(250)
    } else if attempt == 2 {
        Some(1000)
    } else if attempt == 3 {
        Some(4000)
    } else {
        None
    }
}

/// When the retry after the `attempt`-th failure at `now` is due.
pub open spec fn retry_at(attempt: int, now: u64) -> Option<u64> {
    match backoff_ms(attempt) {
        Some(b) => Some((now + b) as u64),
        None => None,
    }
}

/// Index of the first record for `key`, if any.
pub open spec fn first_record(v: Seq<(CacheKey, FailState)>, key: CacheKey) -> Option<int> {
    if exists|i: int| 0 <= i < v.len() && v[i].0 == key {
        Some(
            choose|i: int|
                0 <= i < v.len() && v[i].0 == key && forall|j: int| 0 <= j < i ==> v[j].0 != key,
        )
    } else {
        None
    }
}

fn find_record(failed: &[(CacheKey, FailState)], key: CacheKey) -> (r: Option<usize>)
    ensures
        match r {
            Some(i) => first_record(failed@, key) == Some(i as int) && i < failed@.len(),
            None => first_record(failed@, key) is None,
        },
{
    let mut i: usize = 0;
    while i < failed.len()
        invariant
            i <= failed@.len(),
            forall|j: int| 0 <= j < i ==> failed@[j].0 != key,
        decreases failed@.len() - i,
    {
        if failed[i].0 == key {
            proof {
                let c = choose|c: int|
                    0 <= c < failed@.len() && failed@[c].0 == key && forall|j: int|
                        0 <= j < c ==> failed@[j].0 != key;
                assert(0 <= i < failed@.len() && failed@[i as int].0 == key && forall|j: int|
                    0 <= j < i ==> failed@[j].0 != key);
                if c < i {
                    assert(failed@[c].0 != key);
                } else if c > i {
                    assert(failed@[i as int].0 != key);
                }
            }
            return Some(i);
        }
        i = i + 1;
    }
    None
}

/// Record a render failure for `key` at `now`: one more attempt than
/// recorded before, with the retry the backoff schedule gives it.
pub fn note_render_failure(
    failed: &mut Vec<(CacheKey, FailState)>,
    key: CacheKey,
    now: u64,
    detail: String,
)
    requires
        now <= u64::MAX - 4000,
        first_record(old(failed)@, key) matches Some(i) ==> old(failed)@[i].1.attempt
            < usize::MAX,
    ensures
        ({
            let attempt: int = match first_record(old(failed)@, key) {
                Some(i) => old(failed)@[i].1.attempt + 1,
                None => 1,
            };
            let state = FailState {
                attempt: attempt as usize,
                next_retry: retry_at(attempt, now),
                detail,
            };
            match first_record(old(failed)@, key) {
                Some(i) => final(failed)@ == old(failed)@.update(i, (key, state)),
                None => final(failed)@ == old(failed)@.push((key, state)),
            }
        }),
{
    let found = find_record(failed.as_slice(), key);
    let attempt: usize = match found {
        Some(i) => failed[i].1.attempt + 1,
        None => 1,
    };
    let next_retry: Option<u64> = if attempt == 1 {
        Some(now + 250)
    } else if attempt == 2 {
        Some(now + 1000)
    } else if attempt == 3 {
        Some(now + 4000)
    } else {
        None
    };
    let state = FailState { attempt, next_retry, detail };
    match found {
        Some(i) => {
            failed.set(i, (key, state));
        },
        None => {
            failed.push((key, state));
        },
    }
}

/// Whether a page needs a render request now: not already queued, and
/// either never failed or due for its retry. Terminal failures wait.
pub fn wants_render(
    pending: &[CacheKey],
    failed: &[(CacheKey, FailState)],
    key: CacheKey,
    now: u64,
) -> (wanted: bool)
    ensures
        wanted == (!pending@.contains(key) && match first_record(failed@, key) {
            None => true,
            Some(i) => match failed@[i].1.next_retry {
                Some(due) => due <= now,
                None => false,
            },
        }),
{
    let mut k: usize = 0;
    while k < pending.len()
        invariant
            k <= pending@.len(),
            forall|j: int| 0 <= j < k ==> pending@[j] != key,
        decreases pending@.len() - k,
    {
        if pending[k] == key {
            assert(pending@.contains(key)) by {
                assert(pending@[k as int] == key);
            }
            return false;
        }
        k = k + 1;
    }
    match find_record(failed, key) {
        None => true,
        Some(i) => match failed[i].1.next_retry {
            Some(due) => due <= now,
            None => false,
        },
    }
}

/// What became of a batch of render requests.
#[derive(Debug, Clone, Copy, PartialEq, Eq, Structural)]
pub enum Submission {
    /// Queued on the worker; the keys were recorded as pending.
    Queued,
    /// No worker: the renderer already stopped.
    NoRenderer,
    /// The worker refused the batch; it just stopped.
    Refused,
}

/// A sequence with one more element contains what it contained before and
/// the new element.
proof fn lemma_contains_push(s: Seq<CacheKey>, a: CacheKey, b: CacheKey)
    ensures
        s.push(a).contains(b) <==> (s.contains(b) || a == b),
{
    if s.contains(b) {
        let m = choose|m: int| 0 <= m < s.len() && s[m] == b;
        assert(s.push(a)[m] == b);
    }
    if a == b {
        assert(s.push(a)[s.len() as int] == b);
    }
    if s.push(a).contains(b) {
        let m = choose|m: int| 0 <= m < s.push(a).len() && s.push(a)[m] == b;
        if m < s.len() {
            assert(s[m] == b);
        }
    }
}

/// Add `key` to the pending keys unless it is there already.
fn insert_once(pending: &mut Vec<CacheKey>, key: CacheKey)
    ensures
        forall|k: CacheKey| final(pending)@.contains(k) <==> (old(pending)@.contains(k) || k == key),
        old(pending)@.no_duplicates() ==> final(pending)@.no_duplicates(),
{
    let mut j: usize = 0;
    while j < pending.len()
        invariant
            j <= pending@.len(),
            pending@ == old(pending)@,
            forall|m: int| 0 <= m < j ==> pending@[m] != key,
        decreases pending@.len() - j,
    {
        if pending[j] == key {
            assert(pending@.contains(key)) by {
                assert(pending@[j as int] == key);
            }
            return;
        }
        j = j + 1;
    }
    let ghost before = pending@;
    pending.push(key);
    proof {
        assert forall|k: CacheKey| pending@.contains(k) <==> (before.contains(k) || k == key) by {
            lemma_contains_push(before, key, k);
        }
        if before.no_duplicates() {
            assert forall|x: int, y: int| 0 <= x < y < pending@.len() implies pending@[x] != pending@[y] by {
                if y == before.len() {
                    assert(before[x] != key);
                } else {
                    assert(before[x] != before[y]);
                }
            }
        }
    }
}

/// Record a render submission. `accepted` is the worker's answer to the
/// batch (`None` when no renderer runs). Only an accepted batch records its
/// keys as pending, each once, so a dead worker never leaves queue entries
/// behind that nothing will drain.
pub fn record_submission(accepted: Option<bool>, wanted: &[CacheKey], pending: &mut Vec<CacheKey>) -> (s:
    Submission)
    ensures
        accepted is None ==> s == Submission::NoRenderer && final(pending)@ == old(pending)@,
        accepted == Some(false) ==> s == Submission::Refused && final(pending)@ == old(pending)@,
        accepted == Some(true) ==> s == Submission::Queued && (forall|k: CacheKey|
            final(pending)@.contains(k) <==> (old(pending)@.contains(k) || wanted@.contains(k)))
            && (old(pending)@.no_duplicates() ==> final(pending)@.no_duplicates()),
{
    let ghost before = pending@;
    match accepted {
        None => Submission::NoRenderer,
        Some(false) => Submission::Refused,
        Some(true) => {
            let mut i: usize = 0;
            assert forall|k: CacheKey| !wanted@.take(0).contains(k) by {}
            while i < wanted.len()
                invariant
                    i <= wanted@.len(),
                    forall|k: CacheKey|
                        pending@.contains(k) <==> (before.contains(k) || wanted@.take(i as int).contains(k)),
                    before.no_duplicates() ==> pending@.no_duplicates(),
                decreases wanted@.len() - i,
            {
                let key = wanted[i];
                let ghost mid = pending@;
                assert(forall|k: CacheKey|
                    #[trigger] mid.contains(k) <==> (before.contains(k) || wanted@.take(i as int).contains(k)));
                insert_once(pending, key);
                proof {
                    assert(wanted@.take(i + 1) =~= wanted@.take(i as int).push(key));
                    assert forall|k: CacheKey| pending@.contains(k) <==> (before.contains(k) || wanted@.take(i + 1).contains(k)) by {
                        lemma_contains_push(wanted@.take(i as int), key, k);
                        assert(pending@.contains(k) <==> (mid.contains(k) || k == key));
                        assert(mid.contains(k) <==> (before.contains(k) || wanted@.take(i as int).contains(k)));
                    }
                }
                i = i + 1;
            }
            assert(wanted@.take(wanted@.len() as int) =~= wanted@);
            Submission::Queued
        },
    }
}

/// Rendered page textures kept around the current page, on either side.
pub const TEXTURE_KEEP_AROUND: usize = 6;

/// Whether the texture of `page` stays loaded while the view is on
/// `current`: pages within [`TEXTURE_KEEP_AROUND`] of it do.
pub fn keeps_texture(page: usize, current: usize) -> (keep: bool)
    ensures
        keep == (page <= current + TEXTURE_KEEP_AROUND && current <= page + TEXTURE_KEEP_AROUND),
{
    let ahead: usize = if page >= current {
        page - current
    } else {
        0
    };
    let behind: usize = if current >= page {
        current - page
    } else {
        0
    };
    ahead <= TEXTURE_KEEP_AROUND && behind <= TEXTURE_KEEP_AROUND
}

/// The keys of `s` rendered at scale `scale_q`, in order.
pub open spec fn keys_at_scale(s: Seq<CacheKey>, scale_q: u16) -> Seq<CacheKey>
    decreases s.len(),
{
    if s.len() == 0 {
        seq![]
    } else {
        keys_at_scale(s.drop_last(), scale_q) + if s.last().scale_q == scale_q {
            seq![s.last()]
        } else {
            seq![]
        }
    }
}

/// Zoom changed: forget every failure (they were scale-specific) and drop
/// queued entries at other scales.
pub fn prune_stale_scale(
    pending: &mut Vec<CacheKey>,
    failed: &mut Vec<(CacheKey, FailState)>,
    scale_q: u16,
)
    ensures
        final(failed)@.len() == 0,
        final(pending)@ == keys_at_scale(old(pending)@, scale_q),
{
    failed.clear();
    let mut kept: Vec<CacheKey> = Vec::new();
    let mut k: usize = 0;
    while k < pending.len()
        invariant
            k <= pending@.len(),
            kept@ == keys_at_scale(pending@.take(k as int), scale_q),
        decreases pending@.len() - k,
    {
        assert(pending@.take(k + 1).drop_last() =~= pending@.take(k as int));
        if pending[k].scale_q == scale_q {
            kept.push(pending[k]);
        }
        k = k + 1;
    }
    assert(pending@.take(pending@.len() as int) =~= pending@);
    *pending = kept;
}

/// The page counter's own text for any page of the document jumps to that
/// page: `validate_jump` reads back the 1-based numbers it shows.
pub proof fn law_jump_accepts_every_page_number(page: nat, count: nat)
    requires
        1 <= page <= count,
        page <= usize::MAX,
    ensures
        jump_target(decimal_digits(page), count) == Some((page - 1) as nat),
{
    lemma_decimal_value(page);
    let s = decimal_digits(page);
    assert(strip_front(s) == s);
    assert(strip_back(s) == s);
}

/// What the window shows that Escape can close.
#[derive(Debug, Clone, Copy, PartialEq, Eq, Structural)]
pub enum Overlay {
    About,
    ThemeEditor,
    Info,
    Shortcuts,
    FocusMode,
    SearchQuery,
}

/// What is open when Escape is pressed.
#[derive(Debug, Clone, Copy, PartialEq, Eq, Structural)]
pub struct OpenOverlays {
    pub about: bool,
    pub editor: bool,
    pub info: bool,
    pub shortcuts: bool,
    pub focus_mode: bool,
    /// The sidebar shows the search section with a non-empty query.
    pub search_query: bool,
}

/// The overlay one Escape closes: the topmost open one, in the order about
/// window, theme editor, info window, shortcuts window, focus mode, search
/// query; none when an inline text field already took the Escape.
pub open spec fn overlay_closed_by(escape_consumed: bool, open: OpenOverlays) -> Option<Overlay> {
    if escape_consumed {
        None
    } else if open.about {
        Some(Overlay::About)
    } else if open.editor {
        Some(Overlay::ThemeEditor)
    } else if open.info {
        Some(Overlay::Info)
    } else if open.shortcuts {
        Some(Overlay::Shortcuts)
    } else if open.focus_mode {
        Some(Overlay::FocusMode)
    } else if open.search_query {
        Some(Overlay::SearchQuery)
    } else {
        None
    }
}

/// Which overlay an Escape closes.
pub fn overlay_to_close(escape_consumed: bool, open: OpenOverlays) -> (closed: Option<Overlay>)
    ensures
        closed == overlay_closed_by(escape_consumed, open),
{
    if escape_consumed {
        None
    } else if open.about {
        Some(Overlay::About)
    } else if open.editor {
        Some(Overlay::ThemeEditor)
    } else if open.info {
        Some(Overlay::Info)
    } else if open.shortcuts {
        Some(Overlay::Shortcuts)
    } else if open.focus_mode {
        Some(Overlay::FocusMode)
    } else if open.search_query {
        Some(Overlay::SearchQuery)
    } else {
        None
    }
}

/// Whether a bound key's action runs. Page actions (jump, bookmark, page
/// steps), theme cycling and quitting need the keyboard free of text
/// fields; jumping, bookmarking and zooming need a document with pages;
/// document zoom is the canvas's only while the theme editor is closed
/// (the editor has zoom keys of its own).
pub open spec fn action_runs_spec(action: Action, keyboard_free: bool, editor_open: bool, has_pages: bool) -> bool {
    match action {
        Action::GoToPage | Action::Bookmark => keyboard_free && has_pages,
        Action::ZoomIn | Action::ZoomOut | Action::FitWidth => keyboard_free && !editor_open && has_pages,
        Action::CycleTheme | Action::Quit | Action::PrevPage | Action::NextPage => keyboard_free,
        _ => true,
    }
}

/// Whether a bound key's action runs now; see [`action_runs_spec`].
pub fn action_runs(action: Action, keyboard_free: bool, editor_open: bool, has_pages: bool) -> (runs: bool)
    ensures
        runs == action_runs_spec(action, keyboard_free, editor_open, has_pages),
{
    match action {
        Action::GoToPage | Action::Bookmark => keyboard_free && has_pages,
        Action::ZoomIn | Action::ZoomOut | Action::FitWidth => keyboard_free && !editor_open && has_pages,
        Action::CycleTheme | Action::Quit | Action::PrevPage | Action::NextPage => keyboard_free,
        _ => true,
    }
}

} // verus!
