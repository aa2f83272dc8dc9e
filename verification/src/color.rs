//! RGBA color token with its hex text form.
//!
//! The text form is `#RRGGBB` (alpha 255) or `#RRGGBBAA`; [`Color::to_string`]
//! emits the same shape, omitting the alpha pair when it is 255, so
//! formatting and parsing round-trip.

use vstd::prelude::*;

use crate::strings::push_char;

verus! {

/// An sRGBA color.
#[derive(Debug, Clone, Copy, PartialEq, Eq, Structural)]
pub struct Color {
    pub red: u8,
    pub green: u8,
    pub blue: u8,
    pub alpha: u8,
}

/// The color with channels `[r, g, b, a]`.
pub open spec fn rgba(r: u8, g: u8, b: u8, a: u8) -> Color {
    Color { red: r, green: g, blue: b, alpha: a }
}

/// Value of a hexadecimal digit (either case); `None` for other characters.
pub open spec fn hex_value(c: char) -> Option<u8> {
    if '0' <= c && c <= '9' {
        Some((c as u32 - '0' as u32) as u8)
    } else if 'a' <= c && c <= 'f' {
        Some((c as u32 - 'a' as u32 + 10) as u8)
    } else if 'A' <= c && c <= 'F' {
        Some((c as u32 - 'A' as u32 + 10) as u8)
    } else {
        None
    }
}

/// A two-character base-16 byte as std's `u8::from_str_radix(_, 16)` reads
/// it: two hex digits, or a `+` sign followed by one hex digit.
pub open spec fn hex_pair(a: char, b: char) -> Option<u8> {
    if a == '+' {
        hex_value(b)
    } else {
        match (hex_value(a), hex_value(b)) {
            (Some(x), Some(y)) => Some((x * 16 + y) as u8),
            _ => None,
        }
    }
}

/// Every character is ASCII.
pub open spec fn all_ascii(s: Seq<char>) -> bool {
    forall|i: int| 0 <= i < s.len() ==> (s[i] as u32) < 128
}

/// The color a hex token denotes: `#` followed by six or eight ASCII
/// characters read as byte pairs; alpha is 255 when only six are given.
pub open spec fn parse_hex(s: Seq<char>) -> Option<Color> {
    if s.len() == 0 || s[0] != '#' || !all_ascii(s.drop_first()) {
        None
    } else {
        let h = s.drop_first();
        if h.len() != 6 && h.len() != 8 {
            None
        } else {
            match (hex_pair(h[0], h[1]), hex_pair(h[2], h[3]), hex_pair(h[4], h[5])) {
                (Some(r), Some(g), Some(b)) => if h.len() == 6 {
                    Some(rgba(r, g, b, 255))
                } else {
                    match hex_pair(h[6], h[7]) {
                        Some(a) => Some(rgba(r, g, b, a)),
                        None => None,
                    }
                },
                _ => None,
            }
        }
    }
}

/// Upper-case hex digit of a value below 16.
pub open spec fn hex_digit(v: u8) -> char {
    if v < 10 {
        ((v + 48) as u8) as char
    } else {
        ((v + 55) as u8) as char
    }
}

/// Two upper-case hex digits of a byte.
pub open spec fn hex_byte(v: u8) -> Seq<char> {
    seq![hex_digit(v / 16), hex_digit(v % 16)]
}

/// `#RRGGBB`, followed by `AA` only when alpha is not 255.
pub open spec fn hex_text(c: Color) -> Seq<char> {
    let base = seq!['#'] + hex_byte(c.red) + hex_byte(c.green) + hex_byte(c.blue);
    if c.alpha == 255 {
        base
    } else {
        base + hex_byte(c.alpha)
    }
}

impl Color {
    /// Red channel.
    pub fn r(self) -> (v: u8)
        ensures
            v == self.red,
    {
        self.red
    }

    /// Green channel.
    pub fn g(self) -> (v: u8)
        ensures
            v == self.green,
    {
        self.green
    }

    /// Blue channel.
    pub fn b(self) -> (v: u8)
        ensures
            v == self.blue,
    {
        self.blue
    }

    /// Alpha channel.
    pub fn a(self) -> (v: u8)
        ensures
            v == self.alpha,
    {
        self.alpha
    }

    /// Parse a `#RRGGBB` / `#RRGGBBAA` token.
    pub fn from_hex(s: &str) -> (c: Option<Color>)
        ensures
            c == parse_hex(s@),
    {
        let n = s.unicode_len();
        if n == 0 || s.get_char(0) != '#' {
            return None;
        }
        let mut i: usize = 1;
        while i < n
            invariant
                1 <= i <= n,
                n == s@.len(),
                forall|k: int| 1 <= k < i ==> (s@[k] as u32) < 128,
            decreases n - i,
        {
            if (s.get_char(i) as u32) >= 128 {
                assert(!all_ascii(s@.drop_first())) by {
                    assert(s@.drop_first()[i - 1] == s@[i as int]);
                }
                return None;
            }
            i = i + 1;
        }
        assert(all_ascii(s@.drop_first())) by {
            assert forall|k: int| 0 <= k < s@.drop_first().len() implies (
            s@.drop_first()[k] as u32) < 128 by {
                assert(s@.drop_first()[k] == s@[k + 1]);
            }
        }
        if n != 7 && n != 9 {
            return None;
        }
        let r = pair_at(s, 1);
        let g = pair_at(s, 3);
        let b = pair_at(s, 5);
        match (r, g, b) {
            (Some(r), Some(g), Some(b)) => {
                if n == 7 {
                    Some(Color { red: r, green: g, blue: b, alpha: 255 })
                } else {
                    match pair_at(s, 7) {
                        Some(a) => Some(Color { red: r, green: g, blue: b, alpha: a }),
                        None => None,
                    }
                }
            },
            _ => None,
        }
    }

    /// The hex text form: `#RRGGBB`, or `#RRGGBBAA` when alpha is not 255.
    pub fn to_string(&self) -> (text: String)
        ensures
            text@ == hex_text(*self),
    {
        let mut out = String::new();
        push_char(&mut out, '#');
        push_hex_byte(&mut out, self.red);
        push_hex_byte(&mut out, self.green);
        push_hex_byte(&mut out, self.blue);
        if self.alpha != 255 {
            push_hex_byte(&mut out, self.alpha);
        }
        out
    }
}

impl From<[u8; 4]> for Color {
    fn from(bytes: [u8; 4]) -> (c: Self) {
        Color { red: bytes[0], green: bytes[1], blue: bytes[2], alpha: bytes[3] }
    }
}

impl vstd::std_specs::convert::FromSpecImpl<[u8; 4]> for Color {
    open spec fn obeys_from_spec() -> bool {
        true
    }

    open spec fn from_spec(bytes: [u8; 4]) -> Self {
        rgba(bytes[0], bytes[1], bytes[2], bytes[3])
    }
}

fn hex_value_of(c: char) -> (v: Option<u8>)
    ensures
        v == hex_value(c),
{
    if '0' <= c && c <= '9' {
        Some((c as u32 - '0' as u32) as u8)
    } else if 'a' <= c && c <= 'f' {
        Some((c as u32 - 'a' as u32 + 10) as u8)
    } else if 'A' <= c && c <= 'F' {
        Some((c as u32 - 'A' as u32 + 10) as u8)
    } else {
        None
    }
}

fn pair_at(s: &str, i: usize) -> (v: Option<u8>)
    requires
        i < 8,
        i + 1 < s@.len(),
    ensures
        v == hex_pair(s@[i as int], s@[i + 1]),
{
    let a = s.get_char(i);
    let b = s.get_char(i + 1);
    if a == '+' {
        hex_value_of(b)
    } else {
        match (hex_value_of(a), hex_value_of(b)) {
            (Some(x), Some(y)) => Some(x * 16 + y),
            _ => None,
        }
    }
}

fn hex_digit_of(v: u8) -> (c: char)
    requires
        v < 16,
    ensures
        c == hex_digit(v),
{
    if v < 10 {
        (v + 48) as char
    } else {
        (v + 55) as char
    }
}

fn push_hex_byte(out: &mut String, v: u8)
    ensures
        final(out)@ == old(out)@ + hex_byte(v),
{
    push_char(out, hex_digit_of(v / 16));
    push_char(out, hex_digit_of(v % 16));
}

proof fn lemma_hex_digit(v: u8)
    requires
        v < 16,
    ensures
        hex_value(hex_digit(v)) == Some(v),
        hex_digit(v) != '+',
        (hex_digit(v) as u32) < 128,
{
    if v < 10 {
        assert((((v + 48) as u8) as char) as u32 == v + 48);
    } else {
        assert((((v + 55) as u8) as char) as u32 == v + 55);
    }
}

proof fn lemma_hex_byte(v: u8)
    ensures
        hex_pair(hex_byte(v)[0], hex_byte(v)[1]) == Some(v),
        (hex_byte(v)[0] as u32) < 128,
        (hex_byte(v)[1] as u32) < 128,
{
    lemma_hex_digit(v / 16);
    lemma_hex_digit(v % 16);
    assert((v / 16) * 16 + v % 16 == v);
}

/// Reading a color's hex text back gives the color: `to_string` and
/// `from_hex` are inverse.
pub proof fn law_hex_round_trip(c: Color)
    ensures
        parse_hex(hex_text(c)) == Some(c),
{
    lemma_hex_byte(c.red);
    lemma_hex_byte(c.green);
    lemma_hex_byte(c.blue);
    lemma_hex_byte(c.alpha);
    let t = hex_text(c);
    let h = t.drop_first();
    assert(t[0] == '#');
    assert(h[0] == hex_byte(c.red)[0] && h[1] == hex_byte(c.red)[1]);
    assert(h[2] == hex_byte(c.green)[0] && h[3] == hex_byte(c.green)[1]);
    assert(h[4] == hex_byte(c.blue)[0] && h[5] == hex_byte(c.blue)[1]);
    if c.alpha != 255 {
        assert(h[6] == hex_byte(c.alpha)[0] && h[7] == hex_byte(c.alpha)[1]);
    }
    assert(all_ascii(h));
}

/// An opaque color's text has no alpha pair; any other color's has one.
pub proof fn law_hex_text_length(c: Color)
    ensures
        hex_text(c).len() == if c.alpha == 255 { 7int } else { 9int },
{
}

} // verus!
