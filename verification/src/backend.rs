//! What the document engines share: the open-time text-layer check, page
//! index validation, and how engine and file-system failures map onto the
//! error kinds.

use vstd::prelude::*;

use vstd::string::StringSliceAdditionalSpecFns;

use crate::pdf::{error_view, Document, Error};
use crate::search::{bytes_at, occurs_at};
use crate::strings::{concat, decimal_digits, push_char, push_decimal, trim, trimmed};

verus! {

/// Message for a document that opens with zero pages.
pub const ZERO_PAGE_MALFORMED: &'static str = "truncated or empty document";

/// Number of leading pages sampled for a text layer.
pub const SAMPLE_PAGE_COUNT: usize = 3;

/// MuPDF's error code for an unreadable format.
pub const FZ_ERROR_FORMAT: i32 = 7;

/// MuPDF's error code for a syntax error.
pub const FZ_ERROR_SYNTAX: i32 = 8;

/// MuPDF's error code for an unsupported feature.
pub const FZ_ERROR_UNSUPPORTED: i32 = 6;

/// A page's text counts as blank when nothing is left after trimming.
pub open spec fn blank(t: Seq<char>) -> bool {
    trimmed(t).len() == 0
}

/// How many leading pages a document of `count` pages has sampled.
pub open spec fn sample_size(count: nat) -> nat {
    if count < SAMPLE_PAGE_COUNT {
        count
    } else {
        SAMPLE_PAGE_COUNT as nat
    }
}

/// An error as kind and message, or success.
pub open spec fn outcome_view(r: Result<(), Error>) -> Result<(), (int, Seq<char>)> {
    match r {
        Ok(()) => Ok(()),
        Err(e) => Err(error_view(e)),
    }
}

/// Whether `r` is what sampling a document of `count` pages gives when
/// reading pages 0, 1, … returned `reads`: the sample stops at the first
/// page with text (success) or the first read error (that error); when
/// every sampled page is blank the document has no text layer. A document
/// with no pages is malformed.
pub open spec fn sampled(count: nat, reads: Seq<Result<Seq<char>, (int, Seq<char>)>>, r: Result<(), (int, Seq<char>)>) -> bool {
    if count == 0 {
        reads.len() == 0 && r == Err::<(), (int, Seq<char>)>((5, ZERO_PAGE_MALFORMED@))
    } else {
        &&& reads.len() <= sample_size(count)
        &&& forall|i: int| 0 <= i < reads.len() - 1 ==> (#[trigger] reads[i] matches Ok(t) && blank(t))
        &&& match r {
            Ok(()) => reads.len() > 0 && (reads.last() matches Ok(t) && !blank(t)),
            Err(e) => (reads.len() > 0 && reads.last() == Err::<Seq<char>, (int, Seq<char>)>(e)) || (e == (4int, Seq::<char>::empty())
                && reads.len() == sample_size(count) && (reads.last() matches Ok(t) && blank(t))),
        }
    }
}

/// What reading pages `0..k` of `doc` gives, in order.
pub open spec fn reads_of<D: Document>(doc: &D, k: nat) -> Seq<Result<Seq<char>, (int, Seq<char>)>> {
    Seq::new(k, |i: int| doc.read(i as usize))
}

/// After open, sample the first pages for extractable text: a document
/// with no pages is malformed; one whose sampled pages are all blank after
/// trimming is image-only; an error reading a page passes through.
pub fn reject_if_no_text_layer<D: Document>(doc: &D) -> (r: Result<(), Error>)
    ensures
        exists|count: nat, reads: Seq<Result<Seq<char>, (int, Seq<char>)>>|
            #[trigger] sampled(count, reads, outcome_view(r)),
        exists|k: nat| #[trigger] sampled(doc.pages(), reads_of(doc, k), outcome_view(r)),
{
    let page_count: usize = doc.page_count();
    if page_count == 0 {
        let r = Err(Error::Malformed(ZERO_PAGE_MALFORMED.to_owned()));
        assert(sampled(0, Seq::empty(), outcome_view(r)));
        assert(reads_of(doc, 0) =~= Seq::empty());
        return r;
    }
    let sample_count: usize = if page_count < SAMPLE_PAGE_COUNT {
        page_count
    } else {
        SAMPLE_PAGE_COUNT
    };
    let ghost mut reads: Seq<Result<Seq<char>, (int, Seq<char>)>> = Seq::empty();
    let mut page: usize = 0;
    while page < sample_count
        invariant
            page <= sample_count,
            sample_count == sample_size(page_count as nat),
            page_count > 0,
            reads.len() == page,
            forall|i: int| 0 <= i < reads.len() ==> (#[trigger] reads[i] matches Ok(t) && blank(t)),
            reads == reads_of(doc, page as nat),
            page_count == doc.pages(),
        decreases sample_count - page,
    {
        let text = match doc.page_text(page) {
            Ok(t) => t,
            Err(e) => {
                let ghost seen = reads.push(Err(error_view(e)));
                let r: Result<(), Error> = Err(e);
                assert(seen =~= reads_of(doc, (page + 1) as nat));
                assert(sampled(page_count as nat, seen, outcome_view(r)));
                return r;
            },
        };
        proof {
            reads = reads.push(Ok(text@));
            assert(reads =~= reads_of(doc, (page + 1) as nat));
        }
        let kept = trim(text.as_str());
        if kept.as_str().unicode_len() > 0 {
            let r: Result<(), Error> = Ok(());
            assert(sampled(page_count as nat, reads, outcome_view(r)));
            return r;
        }
        page = page + 1;
    }
    let r: Result<(), Error> = Err(Error::NoTextLayer);
    assert(sampled(page_count as nat, reads, outcome_view(r)));
    r
}

/// What the text-layer check answers for a document, whatever pages it
/// read: a document with no pages is malformed; success means one of the
/// first pages sampled has text; when reading those pages fails nowhere,
/// the check succeeds exactly when one of them has text, and otherwise
/// reports no text layer; any other error is the error of a sampled page.
pub proof fn law_text_layer_verdict<D: Document>(doc: &D, k: nat, r: Result<(), (int, Seq<char>)>)
    requires
        sampled(doc.pages(), reads_of(doc, k), r),
    ensures
        doc.pages() == 0 ==> r == Err::<(), (int, Seq<char>)>((5, ZERO_PAGE_MALFORMED@)),
        r is Ok ==> exists|i: int|
            0 <= i < sample_size(doc.pages()) && (#[trigger] doc.read(i as usize) matches Ok(t) && !blank(t)),
        (doc.pages() > 0 && forall|i: int| 0 <= i < sample_size(doc.pages()) ==> #[trigger] doc.read(i as usize) is Ok)
            ==> (r is Ok <==> exists|i: int|
            0 <= i < sample_size(doc.pages()) && (#[trigger] doc.read(i as usize) matches Ok(t) && !blank(t))),
        (doc.pages() > 0 && forall|i: int| 0 <= i < sample_size(doc.pages()) ==> #[trigger] doc.read(i as usize) is Ok)
            ==> (r is Err ==> r == Err::<(), (int, Seq<char>)>((4, Seq::<char>::empty()))),
        r matches Err(e) ==> (doc.pages() > 0 && e != (4int, Seq::<char>::empty()) ==> exists|i: int|
            0 <= i < sample_size(doc.pages()) && #[trigger] doc.read(i as usize) == Err::<Seq<char>, (int, Seq<char>)>(e)),
{
    let reads = reads_of(doc, k);
    let n = sample_size(doc.pages());
    if doc.pages() > 0 {
        if r is Ok {
            let i = k - 1;
            assert(reads[i] == doc.read(i as usize));
        }
        match r {
            Err(e) => {
                if reads.len() > 0 && reads.last() == Err::<Seq<char>, (int, Seq<char>)>(e) {
                    let i = k - 1;
                    assert(reads[i] == doc.read(i as usize));
                }
            },
            Ok(_) => {},
        }
        if forall|i: int| 0 <= i < n ==> #[trigger] doc.read(i as usize) is Ok {
            if r is Err {
                if k > 0 {
                    let i = k - 1;
                    assert(reads[i] == doc.read(i as usize));
                    assert(doc.read(i as usize) is Ok);
                }
                assert forall|i: int| 0 <= i < n implies !(#[trigger] doc.read(i as usize) matches Ok(t) && !blank(t)) by {
                    if i < k - 1 {
                        assert(reads[i] == doc.read(i as usize));
                    } else {
                        assert(reads[k - 1] == doc.read((k - 1) as usize));
                    }
                }
            }
        }
    }
}

/// A 0-based page as MuPDF's page number: out-of-range pages, and pages
/// past what an `i32` holds, are errors.
pub fn page_index(page: usize, page_count: usize) -> (r: Result<i32, Error>)
    ensures
        page < page_count && page <= i32::MAX ==> r == Ok::<i32, Error>(page as i32),
        page >= page_count ==> (r matches Err(Error::Other(m)) && m@ == "page "@ + decimal_digits(
            page as nat,
        ) + " out of range ("@ + decimal_digits(page_count as nat) + " pages)"@),
        page < page_count && page > i32::MAX ==> (r matches Err(Error::Other(m)) && m@
            == "page index "@ + decimal_digits(page as nat) + " out of range"@),
{
    if page >= page_count {
        let mut m = "page ".to_owned();
        push_decimal(&mut m, page as u64);
        m = concat(m.as_str(), " out of range (");
        push_decimal(&mut m, page_count as u64);
        m = concat(m.as_str(), " pages)");
        return Err(Error::Other(m));
    }
    if page > 0x7fff_ffff {
        let mut m = "page index ".to_owned();
        push_decimal(&mut m, page as u64);
        m = concat(m.as_str(), " out of range");
        return Err(Error::Other(m));
    }
    Ok(page as i32)
}

/// A MuPDF error code as an error kind: format and syntax errors mean a
/// malformed document, unsupported features are unsupported, anything else
/// is other; the message is kept.
pub fn map_mupdf_code(code: i32, message: String) -> (e: Error)
    ensures
        (code == FZ_ERROR_FORMAT || code == FZ_ERROR_SYNTAX) ==> e == Error::Malformed(message),
        code == FZ_ERROR_UNSUPPORTED ==> e == Error::Unsupported(message),
        code != FZ_ERROR_FORMAT && code != FZ_ERROR_SYNTAX && code != FZ_ERROR_UNSUPPORTED ==> e
            == Error::Other(message),
{
    if code == FZ_ERROR_FORMAT || code == FZ_ERROR_SYNTAX {
        Error::Malformed(message)
    } else if code == FZ_ERROR_UNSUPPORTED {
        Error::Unsupported(message)
    } else {
        Error::Other(message)
    }
}

/// The kinds of file-system failure the engines tell apart.
#[derive(Debug, Clone, Copy, PartialEq, Eq, Structural)]
pub enum IoKind {
    NotFound,
    PermissionDenied,
    Other,
}

/// The error kind of a file-system failure, with its message.
pub open spec fn io_error_of(kind: IoKind, message: String) -> Error {
    match kind {
        IoKind::NotFound => Error::NotFound(message),
        IoKind::PermissionDenied => Error::PermissionDenied(message),
        IoKind::Other => Error::Other(message),
    }
}

/// A file-system failure as an error kind, keeping its message.
pub fn map_io_error(kind: IoKind, message: String) -> (e: Error)
    ensures
        e == io_error_of(kind, message),
{
    match kind {
        IoKind::NotFound => Error::NotFound(message),
        IoKind::PermissionDenied => Error::PermissionDenied(message),
        IoKind::Other => Error::Other(message),
    }
}

/// What kind of file system entry a path names.
#[derive(Debug, Clone, Copy, PartialEq, Eq, Structural)]
pub enum PathKind {
    Directory,
    File,
    Special,
}

/// Reject existing paths that must not reach the open probe: a directory
/// is not found, and a non-regular file (a named pipe above all, which
/// would block the open) fails outright.
pub fn check_path_type(path: &str, kind: PathKind) -> (r: Result<(), Error>)
    ensures
        kind == PathKind::Directory ==> (r matches Err(Error::NotFound(m)) && m@ == path@
            + " is a directory"@),
        kind == PathKind::Special ==> (r matches Err(Error::Other(m)) && m@ == path@
            + " is not a regular file"@),
        kind == PathKind::File ==> r is Ok,
{
    match kind {
        PathKind::Directory => Err(Error::NotFound(concat(path, " is a directory"))),
        PathKind::Special => Err(Error::Other(concat(path, " is not a regular file"))),
        PathKind::File => Ok(()),
    }
}

/// The MuPDF engine. Its name is stable; opening documents goes through
/// the engine itself.
#[derive(Debug, Default)]
pub struct MupdfBackend;

impl MupdfBackend {
    /// Stable identifier of this backend.
    pub fn name(&self) -> (n: &'static str)
        ensures
            n@ == "mupdf"@,
    {
        "mupdf"
    }
}

/// What opening a parsed document decides before handing it out.
#[derive(Debug)]
pub enum OpenStep {
    /// Refuse the document with this error.
    Refuse(Error),
    /// Try the caller's password against the document first.
    Authenticate,
    /// Hand the document out (after the text-layer check).
    Accept,
}

/// The MuPDF open sequence once the engine has parsed the file: a document
/// without pages is malformed; an encrypted one is refused when no password
/// was given and otherwise has the password tried; anything else is
/// accepted.
pub fn mupdf_open_step(page_count: usize, needs_password: bool, password_given: bool) -> (s:
    OpenStep)
    ensures
        page_count == 0 ==> (s matches OpenStep::Refuse(Error::Malformed(m)) && m@
            == ZERO_PAGE_MALFORMED@),
        page_count > 0 && needs_password && !password_given ==> (s matches OpenStep::Refuse(
            Error::Encrypted(m),
        ) && m@ == "document requires a password"@),
        page_count > 0 && needs_password && password_given ==> s is Authenticate,
        page_count > 0 && !needs_password ==> s is Accept,
{
    if page_count == 0 {
        OpenStep::Refuse(Error::Malformed(ZERO_PAGE_MALFORMED.to_owned()))
    } else if needs_password {
        if password_given {
            OpenStep::Authenticate
        } else {
            OpenStep::Refuse(Error::Encrypted("document requires a password".to_owned()))
        }
    } else {
        OpenStep::Accept
    }
}

/// The verdict on a tried password: accepted, or refused as wrong.
pub fn password_verdict(accepted: bool) -> (r: Result<(), Error>)
    ensures
        accepted <==> r is Ok,
        !accepted ==> (r matches Err(Error::WrongPassword(m)) && m@ == "password rejected"@),
{
    if accepted {
        Ok(())
    } else {
        Err(Error::WrongPassword("password rejected".to_owned()))
    }
}

/// PDFium's last-error code for a file it could not open or find.
pub const FPDF_ERR_FILE: u32 = 2;

/// PDFium's last-error code for a file that is not a parseable PDF.
pub const FPDF_ERR_FORMAT: u32 = 3;

/// PDFium's last-error code for a missing or wrong password.
pub const FPDF_ERR_PASSWORD: u32 = 4;

/// How a failed PDFium load maps onto an error, as far as the code tells.
#[derive(Debug)]
pub enum LoadFailure {
    /// The error the code stands for.
    Known(Error),
    /// A format error: the file's catalog decides (see [`format_failure`]).
    CheckCatalog,
    /// A file error: the file system decides (see [`file_failure`]).
    CheckFile,
}

/// Map PDFium's last-error code after a failed load: password errors are
/// wrong-password when one was given and encrypted otherwise; format and
/// file errors need a further look; other codes are reported by number.
pub fn pdfium_load_failure(code: u32, password_given: bool) -> (f: LoadFailure)
    ensures
        code == FPDF_ERR_FORMAT ==> f is CheckCatalog,
        code == FPDF_ERR_FILE ==> f is CheckFile,
        code == FPDF_ERR_PASSWORD && password_given ==> (f matches LoadFailure::Known(
            Error::WrongPassword(m),
        ) && m@ == "password rejected"@),
        code == FPDF_ERR_PASSWORD && !password_given ==> (f matches LoadFailure::Known(
            Error::Encrypted(m),
        ) && m@ == "document requires a password"@),
        code != FPDF_ERR_FORMAT && code != FPDF_ERR_FILE && code != FPDF_ERR_PASSWORD ==> (f matches LoadFailure::Known(
            Error::Other(m),
        ) && m@ == "FPDF_LoadDocument failed (FPDF_ERR code "@ + decimal_digits(code as nat)
            + ")"@),
{
    if code == FPDF_ERR_FORMAT {
        LoadFailure::CheckCatalog
    } else if code == FPDF_ERR_FILE {
        LoadFailure::CheckFile
    } else if code == FPDF_ERR_PASSWORD {
        if password_given {
            LoadFailure::Known(Error::WrongPassword("password rejected".to_owned()))
        } else {
            LoadFailure::Known(Error::Encrypted("document requires a password".to_owned()))
        }
    } else {
        let mut m = "FPDF_LoadDocument failed (FPDF_ERR code ".to_owned();
        push_decimal(&mut m, code as u64);
        LoadFailure::Known(Error::Other(concat(m.as_str(), ")")))
    }
}

/// The first zero-page catalog spelling PDFium refuses as a format error.
pub const EMPTY_KIDS_SPACED: &'static str = "/Kids [] /Count 0";

/// The second zero-page catalog spelling.
pub const EMPTY_KIDS_TIGHT: &'static str = "/Kids[] /Count 0";

/// Whether `pattern` occurs anywhere in `bytes`.
pub open spec fn occurs_in(bytes: Seq<u8>, pattern: Seq<u8>) -> bool {
    exists|at: int| #[trigger] occurs_at(bytes, pattern, at)
}

fn find_bytes(bytes: &[u8], pattern: &[u8]) -> (found: bool)
    ensures
        found == occurs_in(bytes@, pattern@),
{
    if pattern.len() > bytes.len() {
        assert forall|at: int| !#[trigger] occurs_at(bytes@, pattern@, at) by {}
        return false;
    }
    let last: usize = bytes.len() - pattern.len();
    let mut at: usize = 0;
    while at <= last
        invariant
            last == bytes@.len() - pattern@.len(),
            pattern@.len() <= bytes@.len(),
            bytes@.len() <= usize::MAX,
            forall|k: int| 0 <= k < at ==> !#[trigger] occurs_at(bytes@, pattern@, k),
        decreases last + 1 - at,
    {
        if bytes_at(bytes, at, pattern) {
            return true;
        }
        if at == last {
            assert forall|k: int| !#[trigger] occurs_at(bytes@, pattern@, k) by {
                if 0 <= k <= last {
                    assert(k < at || k == at);
                }
            }
            return false;
        }
        at = at + 1;
    }
    false
}

/// Whether a file's bytes hold an empty page tree, which PDFium reports as
/// a plain format error. The patterns are ASCII, and decoding invalid
/// UTF-8 lossily keeps every ASCII byte in place without making new ones,
/// so searching the raw bytes finds what searching their lossy text does.
pub fn has_zero_page_catalog(bytes: &[u8]) -> (found: bool)
    ensures
        found == (occurs_in(bytes@, EMPTY_KIDS_SPACED.spec_bytes()) || occurs_in(
            bytes@,
            EMPTY_KIDS_TIGHT.spec_bytes(),
        )),
{
    find_bytes(bytes, EMPTY_KIDS_SPACED.as_bytes()) || find_bytes(bytes, EMPTY_KIDS_TIGHT.as_bytes())
}

/// A PDFium format error: a zero-page catalog is the truncated-or-empty
/// case, anything else an invalid document.
pub fn format_failure(zero_page_catalog: bool) -> (e: Error)
    ensures
        zero_page_catalog ==> (e matches Error::Malformed(m) && m@ == ZERO_PAGE_MALFORMED@),
        !zero_page_catalog ==> (e matches Error::Malformed(m) && m@ == "invalid PDF document"@),
{
    if zero_page_catalog {
        Error::Malformed(ZERO_PAGE_MALFORMED.to_owned())
    } else {
        Error::Malformed("invalid PDF document".to_owned())
    }
}

/// A PDFium file error, by what the file system says of the path: its own
/// failure (kind and message) when it has one, else a file that exists but
/// could not be read as a PDF.
pub fn file_failure(path: &str, probe: Option<(IoKind, String)>) -> (e: Error)
    ensures
        match probe {
            Some((kind, message)) => e == io_error_of(kind, message),
            None => e matches Error::Other(m) && m@ == "could not read PDF file at "@ + path@,
        },
{
    match probe {
        Some((kind, message)) => map_io_error(kind, message),
        None => Error::Other(concat("could not read PDF file at ", path)),
    }
}

/// A PDFium page index: the page must be in the document and fit in 16
/// bits.
pub fn pdfium_page_index(page: usize, page_count: usize) -> (r: Result<u16, Error>)
    ensures
        page < page_count && page <= u16::MAX ==> r == Ok::<u16, Error>(page as u16),
        page >= page_count ==> (r matches Err(Error::Other(m)) && m@ == "page "@ + decimal_digits(
            page as nat,
        ) + " out of range ("@ + decimal_digits(page_count as nat) + " pages)"@),
        page < page_count && page > u16::MAX ==> (r matches Err(Error::Other(m)) && m@
            == "page index "@ + decimal_digits(page as nat) + " out of range"@),
{
    match page_index(page, page_count) {
        Err(e) => Err(e),
        Ok(_) => {
            if page > 0xffff {
                let mut m = "page index ".to_owned();
                push_decimal(&mut m, page as u64);
                Err(Error::Other(concat(m.as_str(), " out of range")))
            } else {
                Ok(page as u16)
            }
        },
    }
}

/// The character of a Unicode scalar value; std's `char::from_u32`, whose
/// documentation says it returns the `char` for the value when there is
/// one (below the surrogates, or from U+E000 to U+10FFFF) and `None`
/// otherwise.
#[verifier::external_body]
fn char_of(code: u32) -> (c: Option<char>)
    ensures
        (code < 0xD800 || (0xE000 <= code && code <= 0x10FFFF)) ==> c == Some(code as char),
        !(code < 0xD800 || (0xE000 <= code && code <= 0x10FFFF)) ==> c is None,
{
    char::from_u32(code)
}

/// Whether a UTF-16 unit is a high (leading) surrogate.
pub open spec fn high_surrogate(u: u16) -> bool {
    0xD800 <= u && u <= 0xDBFF
}

/// Whether a UTF-16 unit is a low (trailing) surrogate.
pub open spec fn low_surrogate(u: u16) -> bool {
    0xDC00 <= u && u <= 0xDFFF
}

/// UTF-16 decoding with every unpaired surrogate replaced by U+FFFD: a
/// unit outside the surrogates is its own character; a high surrogate
/// followed by a low one is the pair's supplementary character.
pub open spec fn utf16_lossy(u: Seq<u16>) -> Seq<char>
    decreases u.len(),
{
    if u.len() == 0 {
        seq![]
    } else if !high_surrogate(u[0]) && !low_surrogate(u[0]) {
        seq![u[0] as u32 as char] + utf16_lossy(u.drop_first())
    } else if high_surrogate(u[0]) && u.len() >= 2 && low_surrogate(u[1]) {
        seq![(0x10000 + (u[0] - 0xD800) * 0x400 + (u[1] - 0xDC00)) as u32 as char]
            + utf16_lossy(u.skip(2))
    } else {
        seq!['\u{FFFD}'] + utf16_lossy(u.drop_first())
    }
}

/// Text without its trailing NUL characters.
pub open spec fn without_trailing_nuls(s: Seq<char>) -> Seq<char>
    decreases s.len(),
{
    if s.len() > 0 && s.last() == '\0' {
        without_trailing_nuls(s.drop_last())
    } else {
        s
    }
}

/// Decode a UTF-16 text buffer as the engine fills it: unpaired surrogates
/// become U+FFFD and the NUL terminator (with any NUL padding before it)
/// is dropped.
pub fn decode_utf16(units: &[u16]) -> (text: String)
    ensures
        text@ == without_trailing_nuls(utf16_lossy(units@)),
{
    let n: usize = units.len();
    let mut chars: Vec<char> = Vec::new();
    let mut i: usize = 0;
    assert(chars@ + utf16_lossy(units@.skip(0)) =~= utf16_lossy(units@)) by {
        assert(units@.skip(0) =~= units@);
    }
    while i < n
        invariant
            i <= n,
            n == units@.len(),
            chars@ + utf16_lossy(units@.skip(i as int)) == utf16_lossy(units@),
        decreases n - i,
    {
        let u: u16 = units[i];
        let ghost rest = units@.skip(i as int);
        assert(rest[0] == u);
        if u < 0xD800 || u > 0xDFFF {
            let c = char_of(u as u32);
            assert(rest.drop_first() =~= units@.skip(i + 1));
            match c {
                Some(c) => chars.push(c),
                None => {},
            }
            i = i + 1;
        } else if u <= 0xDBFF && i + 1 < n && 0xDC00 <= units[i + 1] && units[i + 1] <= 0xDFFF {
            let v: u16 = units[i + 1];
            assert(rest[1] == v);
            let code: u32 = 0x10000 + (u as u32 - 0xD800) * 0x400 + (v as u32 - 0xDC00);
            let c = char_of(code);
            assert(rest.skip(2) =~= units@.skip(i + 2));
            match c {
                Some(c) => chars.push(c),
                None => {},
            }
            i = i + 2;
        } else {
            assert(rest.drop_first() =~= units@.skip(i + 1));
            chars.push('\u{FFFD}');
            i = i + 1;
        }
        proof {
            assert(chars@ + utf16_lossy(units@.skip(i as int)) =~= utf16_lossy(units@));
        }
    }
    assert(units@.skip(n as int) =~= Seq::<u16>::empty());
    assert(chars@ =~= utf16_lossy(units@));
    let mut end: usize = chars.len();
    assert(chars@.take(end as int) =~= chars@);
    while end > 0 && chars[end - 1] == '\0'
        invariant
            end <= chars@.len(),
            without_trailing_nuls(chars@) == without_trailing_nuls(chars@.take(end as int)),
        decreases end,
    {
        assert(chars@.take(end as int).drop_last() =~= chars@.take(end - 1));
        end = end - 1;
    }
    assert(without_trailing_nuls(chars@.take(end as int)) == chars@.take(end as int));
    let mut text = String::new();
    let mut k: usize = 0;
    while k < end
        invariant
            k <= end,
            end <= chars@.len(),
            text@ == chars@.take(k as int),
        decreases end - k,
    {
        push_char(&mut text, chars[k]);
        assert(chars@.take(k + 1) =~= chars@.take(k as int).push(chars@[k as int]));
        k = k + 1;
    }
    text
}

/// Little-endian UTF-16 units of a byte buffer; a trailing odd byte is
/// ignored.
pub open spec fn le_units(bytes: Seq<u8>) -> Seq<u16> {
    Seq::new(
        bytes.len() / 2,
        |k: int| (bytes[2 * k] as int + 256 * bytes[2 * k + 1] as int) as u16,
    )
}

/// Decode a little-endian UTF-16 byte buffer: see [`decode_utf16`].
pub fn decode_utf16_bytes(bytes: &[u8]) -> (text: String)
    ensures
        text@ == without_trailing_nuls(utf16_lossy(le_units(bytes@))),
{
    let len: usize = bytes.len();
    let pairs: usize = len / 2;
    let mut units: Vec<u16> = Vec::new();
    let mut k: usize = 0;
    while k < pairs
        invariant
            k <= pairs,
            len == bytes@.len(),
            pairs == bytes@.len() / 2,
            units@.len() == k,
            forall|j: int| 0 <= j < k ==> units@[j] == le_units(bytes@)[j],
        decreases pairs - k,
    {
        assert(2 * k + 1 < bytes@.len());
        let low: u16 = bytes[2 * k] as u16;
        let high: u16 = bytes[2 * k + 1] as u16;
        let unit: u16 = low + 256 * high;
        units.push(unit);
        k = k + 1;
    }
    assert(units@ =~= le_units(bytes@));
    decode_utf16(units.as_slice())
}

} // verus!
