//! Reading-text normalization shared by the on-screen text view and search.

use vstd::prelude::*;

use crate::strings::push_char;

verus! {

/// What one input character becomes: ligatures expand to ASCII letters,
/// NBSP becomes a space, the soft hyphen disappears, curly quotes and dashes
/// map to their ASCII equivalents; every other character stays.
pub open spec fn normalize_char(c: char) -> Seq<char> {
    if c == '\u{00a0}' {
        seq![' ']
    } else if c == '\u{00ad}' {
        seq![]
    } else if c == '\u{2018}' || c == '\u{2019}' {
        seq!['\'']
    } else if c == '\u{201c}' || c == '\u{201d}' {
        seq!['"']
    } else if c == '\u{2013}' || c == '\u{2014}' {
        seq!['-']
    } else if c == '\u{fb00}' {
        seq!['f', 'f']
    } else if c == '\u{fb01}' {
        seq!['f', 'i']
    } else if c == '\u{fb02}' {
        seq!['f', 'l']
    } else if c == '\u{fb03}' {
        seq!['f', 'f', 'i']
    } else if c == '\u{fb04}' {
        seq!['f', 'f', 'l']
    } else {
        seq![c]
    }
}

/// The normalized text: each character replaced by its normalization, in order.
pub open spec fn normalized(s: Seq<char>) -> Seq<char>
    decreases s.len(),
{
    if s.len() == 0 {
        seq![]
    } else {
        normalized(s.drop_last()) + normalize_char(s.last())
    }
}

/// Normalize PDF presentation forms and punctuation for on-screen reading
/// and search.
pub fn normalize_reader_text(text: &str) -> (out: String)
    ensures
        out@ == normalized(text@),
{
    let mut out = String::new();
    for ch in it: text.chars()
        invariant
            it.seq() == text@,
            out@ == normalized(text@.take(it.index() as int)),
    {
        assert(text@.take(it.index() + 1).drop_last() == text@.take(it.index() as int));
        if ch == '\u{00a0}' {
            push_char(&mut out, ' ');
        } else if ch == '\u{00ad}' {
        } else if ch == '\u{2018}' || ch == '\u{2019}' {
            push_char(&mut out, '\'');
        } else if ch == '\u{201c}' || ch == '\u{201d}' {
            push_char(&mut out, '"');
        } else if ch == '\u{2013}' || ch == '\u{2014}' {
            push_char(&mut out, '-');
        } else if ch == '\u{fb00}' {
            push_char(&mut out, 'f');
            push_char(&mut out, 'f');
        } else if ch == '\u{fb01}' {
            push_char(&mut out, 'f');
            push_char(&mut out, 'i');
        } else if ch == '\u{fb02}' {
            push_char(&mut out, 'f');
            push_char(&mut out, 'l');
        } else if ch == '\u{fb03}' {
            push_char(&mut out, 'f');
            push_char(&mut out, 'f');
            push_char(&mut out, 'i');
        } else if ch == '\u{fb04}' {
            push_char(&mut out, 'f');
            push_char(&mut out, 'f');
            push_char(&mut out, 'l');
        } else {
            push_char(&mut out, ch);
        }
    }
    assert(text@.take(text@.len() as int) == text@);
    out
}

} // verus!
