//! Search-result rows for the sidebar: the hit's page plus an excerpt of
//! the page's normalized text around the match, and the date shown beside a
//! bookmark.

use vstd::prelude::*;
use vstd::string::StringSliceAdditionalSpecFns;
use vstd::utf8::{
    encode_scalar,
    encode_utf8,
    encode_utf8_valid_utf8,
    is_char_boundary,
    is_char_boundary_start_end_of_seq,
};

use crate::strings::{is_white, push_char, white_space};

verus! {

/// One search result: the page it points at plus an excerpt of the page's
/// normalized text around the match.
#[derive(Debug, Clone, PartialEq, Eq)]
pub struct SearchHit {
    pub page: usize,
    pub snippet: String,
}

impl SearchHit {
    /// A copy of the hit.
    pub fn clone_hit(&self) -> (h: SearchHit)
        ensures
            h == *self,
    {
        SearchHit { page: self.page, snippet: self.snippet.clone() }
    }
}

/// Target excerpt length around a match, in bytes.
pub const SNIPPET_CHARS: usize = 40;

/// The ellipsis that marks cut-off text.
pub const ELLIPSIS: char = '\u{2026}';

/// Byte offset at which character `k` of `s` starts in its UTF-8 encoding.
pub open spec fn byte_pos(s: Seq<char>, k: int) -> nat {
    encode_utf8(s.take(k)).len()
}

/// The characters of `s` whose encoding starts at a byte in `[from, to)`.
pub open spec fn chars_between(s: Seq<char>, from: int, to: int) -> Seq<char>
    decreases s.len(),
{
    if s.len() == 0 {
        seq![]
    } else {
        let k = s.len() - 1;
        chars_between(s.drop_last(), from, to) + if from <= byte_pos(s, k) < to {
            seq![s.last()]
        } else {
            seq![]
        }
    }
}

/// Collapsing white space left to right: the text so far, and whether a
/// run of white space is waiting to become one space before the next word.
pub open spec fn collapse_state(s: Seq<char>) -> (Seq<char>, bool)
    decreases s.len(),
{
    if s.len() == 0 {
        (seq![], false)
    } else {
        let (out, gap) = collapse_state(s.drop_last());
        let c = s.last();
        if white_space(c) {
            (out, out.len() > 0)
        } else {
            ((if gap {
                out.push(' ')
            } else {
                out
            }).push(c), false)
        }
    }
}

/// The words of `s` joined by single spaces.
pub open spec fn collapse_ws(s: Seq<char>) -> Seq<char> {
    collapse_state(s).0
}

/// The nearest character boundary at or below `i`.
pub open spec fn floor_spec(bytes: Seq<u8>, i: int) -> int
    decreases i,
{
    if i <= 0 || is_char_boundary(bytes, i) {
        i
    } else {
        floor_spec(bytes, i - 1)
    }
}

/// The nearest character boundary at or above `i`.
pub open spec fn ceil_spec(bytes: Seq<u8>, i: int) -> int
    decreases bytes.len() - i,
{
    if i >= bytes.len() || is_char_boundary(bytes, i) {
        i
    } else {
        ceil_spec(bytes, i + 1)
    }
}

/// The excerpt for a match at byte range `[offset, offset + needle_len)` of
/// `s`: about [`SNIPPET_CHARS`] bytes around it, widened to character
/// boundaries, white space collapsed, `…` where text was cut.
pub open spec fn snippet(s: Seq<char>, offset: nat, needle_len: nat) -> Seq<char> {
    let bytes = encode_utf8(s);
    let len = bytes.len();
    let end = if offset + needle_len < len {
        offset + needle_len
    } else {
        len
    };
    let ctx = (if needle_len < SNIPPET_CHARS {
        SNIPPET_CHARS - needle_len
    } else {
        0
    }) / 2;
    let start = floor_spec(bytes, if offset > ctx {
        offset - ctx
    } else {
        0
    });
    let stop = ceil_spec(bytes, if end + ctx < len {
        end + ctx
    } else {
        len as int
    });
    (if start > 0 {
        seq![ELLIPSIS]
    } else {
        seq![]
    }) + collapse_ws(chars_between(s, start, stop)) + (if stop < len {
        seq![ELLIPSIS]
    } else {
        seq![]
    })
}

proof fn lemma_encode_append(a: Seq<char>, b: Seq<char>)
    ensures
        encode_utf8(a + b) == encode_utf8(a) + encode_utf8(b),
    decreases a.len(),
{
    if a.len() == 0 {
        assert(a + b =~= b);
        assert(encode_utf8(a) =~= Seq::<u8>::empty());
        assert(encode_utf8(a) + encode_utf8(b) =~= encode_utf8(b));
    } else {
        assert((a + b).drop_first() =~= a.drop_first() + b);
        assert((a + b)[0] == a[0]);
        lemma_encode_append(a.drop_first(), b);
        assert(encode_utf8(a + b) =~= encode_utf8(a) + encode_utf8(b));
    }
}

proof fn lemma_encode_single(c: char)
    ensures
        encode_utf8(seq![c]) == encode_scalar(c as u32),
{
    reveal_with_fuel(encode_utf8, 2);
    assert(seq![c].drop_first() =~= Seq::<char>::empty());
    assert(seq![c][0] == c);
    assert(encode_scalar(c as u32) + Seq::<u8>::empty() =~= encode_scalar(c as u32));
}

/// Bytes in the UTF-8 encoding of `c`.
fn utf8_width(c: char) -> (w: usize)
    ensures
        w == encode_scalar(c as u32).len(),
{
    let u = c as u32;
    if u <= 0x7f {
        1
    } else if u <= 0x7ff {
        2
    } else if u <= 0xffff {
        3
    } else {
        4
    }
}

/// The nearest character boundary of `text` at or below byte `i`.
pub fn floor_boundary(text: &str, i: usize) -> (b: usize)
    ensures
        b == floor_spec(text.spec_bytes(), i as int),
{
    proof {
        encode_utf8_valid_utf8(text@);
    }
    let mut k: usize = i;
    while k > 0 && !text.is_char_boundary(k)
        invariant
            k <= i,
            floor_spec(text.spec_bytes(), i as int) == floor_spec(text.spec_bytes(), k as int),
        decreases k,
    {
        k = k - 1;
    }
    k
}

/// The nearest character boundary of `text` at or above byte `i`.
pub fn ceil_boundary(text: &str, i: usize) -> (b: usize)
    requires
        i <= text.spec_bytes().len(),
    ensures
        b == ceil_spec(text.spec_bytes(), i as int),
{
    proof {
        encode_utf8_valid_utf8(text@);
        is_char_boundary_start_end_of_seq(text.spec_bytes());
    }
    let len: usize = text.as_bytes().len();
    let mut k: usize = i;
    while k < len && !text.is_char_boundary(k)
        invariant
            i <= k <= len,
            len == text.spec_bytes().len(),
            ceil_spec(text.spec_bytes(), i as int) == ceil_spec(text.spec_bytes(), k as int),
        decreases len - k,
    {
        k = k + 1;
    }
    k
}

/// Excerpt of about [`SNIPPET_CHARS`] bytes centered on the match at byte
/// range `[offset, offset + needle_len)` of the normalized page text. White
/// space collapses to single spaces and `…` marks cut-off text.
pub fn extract_snippet(text: &str, offset: usize, needle_len: usize) -> (out: String)
    ensures
        out@ == snippet(text@, offset as nat, needle_len as nat),
{
    proof {
        encode_utf8_valid_utf8(text@);
        is_char_boundary_start_end_of_seq(text.spec_bytes());
    }
    let len: usize = text.as_bytes().len();
    let end: usize = if offset <= len && needle_len < len - offset {
        offset + needle_len
    } else {
        len
    };
    let ctx: usize = (if needle_len < SNIPPET_CHARS {
        SNIPPET_CHARS - needle_len
    } else {
        0
    }) / 2;
    let low: usize = if offset > ctx {
        offset - ctx
    } else {
        0
    };
    let start: usize = floor_boundary(text, low);
    let high: usize = if ctx < len - end {
        end + ctx
    } else {
        len
    };
    let stop: usize = ceil_boundary(text, high);
    let mut body = String::new();
    let mut gap = false;
    let mut nonempty = false;
    let mut pos: usize = 0;
    for ch in it: text.chars()
        invariant
            it.seq() == text@,
            len == encode_utf8(text@).len(),
            pos == byte_pos(text@, it.index() as int),
            nonempty == (body@.len() > 0),
            (body@, gap) == collapse_state(chars_between(text@.take(it.index() as int), start as int, stop as int)),
    {
        let ghost k: int = it.index() as int;
        let ghost before = text@.take(k);
        proof {
            assert(text@.take(k + 1) =~= before + seq![ch]);
            lemma_encode_append(before, seq![ch]);
            lemma_encode_single(ch);
            lemma_encode_append(text@.take(k + 1), text@.skip(k + 1));
            assert(text@.take(k + 1) + text@.skip(k + 1) =~= text@);
            assert(text@.take(k + 1).drop_last() =~= before);
            assert(text@.take(k + 1).take(k) =~= before);
        }
        let w: usize = utf8_width(ch);
        if start <= pos && pos < stop {
            proof {
                let x = chars_between(before, start as int, stop as int);
                assert(chars_between(text@.take(k + 1), start as int, stop as int) =~= x.push(ch));
                assert(x.push(ch).drop_last() =~= x);
            }
            if is_white(ch) {
                gap = nonempty;
            } else {
                if gap {
                    push_char(&mut body, ' ');
                }
                push_char(&mut body, ch);
                gap = false;
                nonempty = true;
            }
        } else {
            proof {
                let x = chars_between(before, start as int, stop as int);
                assert(chars_between(text@.take(k + 1), start as int, stop as int) =~= x);
            }
        }
        pos = pos + w;
    }
    proof {
        assert(text@.take(text@.len() as int) =~= text@);
    }
    let mut out = String::new();
    if start > 0 {
        push_char(&mut out, ELLIPSIS);
    }
    let ghost head = out@;
    for ch in it: body.as_str().chars()
        invariant
            it.seq() == body@,
            out@ == head + body@.take(it.index() as int),
    {
        proof {
            assert(body@.take(it.index() + 1) =~= body@.take(it.index() as int).push(ch));
        }
        push_char(&mut out, ch);
    }
    proof {
        assert(body@.take(body@.len() as int) =~= body@);
    }
    if stop < len {
        push_char(&mut out, ELLIPSIS);
    }
    out
}

/// Date part (`YYYY-MM-DD`) of a stored RFC-3339 timestamp: its first ten
/// bytes when they end on a character boundary; otherwise the whole text.
pub fn date_only(created_at: &str) -> (day: &str)
    ensures
        encode_utf8(created_at@).len() >= 10 && is_char_boundary(encode_utf8(created_at@), 10)
            ==> day.spec_bytes() == encode_utf8(created_at@).subrange(0, 10),
        !(encode_utf8(created_at@).len() >= 10 && is_char_boundary(encode_utf8(created_at@), 10))
            ==> day@ == created_at@,
{
    if created_at.as_bytes().len() >= 10 && created_at.is_char_boundary(10) {
        let (day, _) = created_at.split_at(10);
        day
    } else {
        created_at
    }
}

} // verus!
