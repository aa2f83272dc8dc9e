//! Document-backend layer: error taxonomy, rendered page images, the text
//! surface of an opened document, backend selection, and the scriptable
//! stub backend.

use vstd::prelude::*;

use crate::strings::{concat, decimal_digits, push_decimal, str_equals};

verus! {

/// Errors produced by opening and reading documents.
///
/// Messages are for humans only; code branches on the kind.
#[derive(Debug, Clone, PartialEq)]
pub enum Error {
    /// The file does not exist.
    NotFound(String),
    /// The file exists but the process lacks read access.
    PermissionDenied(String),
    /// The document is encrypted.
    Encrypted(String),
    /// A password was supplied but rejected.
    WrongPassword(String),
    /// Document-level: no extractable text layer (image-only or scanned).
    NoTextLayer,
    /// The file is not a parseable PDF.
    Malformed(String),
    /// Not supported by this build or backend.
    Unsupported(String),
    /// Anything that does not fit the kinds above.
    Other(String),
}

/// The kind of an error and its message.
pub open spec fn error_view(e: Error) -> (int, Seq<char>) {
    match e {
        Error::NotFound(m) => (0, m@),
        Error::PermissionDenied(m) => (1, m@),
        Error::Encrypted(m) => (2, m@),
        Error::WrongPassword(m) => (3, m@),
        Error::NoTextLayer => (4, seq![]),
        Error::Malformed(m) => (5, m@),
        Error::Unsupported(m) => (6, m@),
        Error::Other(m) => (7, m@),
    }
}

/// The human-readable text of an error.
pub open spec fn error_text(e: Error) -> Seq<char> {
    match e {
        Error::NotFound(m) => "file not found: "@ + m@,
        Error::PermissionDenied(m) => "permission denied: "@ + m@,
        Error::Encrypted(m) => "encrypted document: "@ + m@,
        Error::WrongPassword(m) => "wrong password: "@ + m@,
        Error::NoTextLayer => "no extractable text layer (image-only or scanned)"@,
        Error::Malformed(m) => "malformed document: "@ + m@,
        Error::Unsupported(m) => "unsupported: "@ + m@,
        Error::Other(m) => m@,
    }
}

impl Error {
    /// Human-readable message of the error.
    pub fn to_string(&self) -> (text: String)
        ensures
            text@ == error_text(*self),
    {
        match self {
            Error::NotFound(m) => concat("file not found: ", m.as_str()),
            Error::PermissionDenied(m) => concat("permission denied: ", m.as_str()),
            Error::Encrypted(m) => concat("encrypted document: ", m.as_str()),
            Error::WrongPassword(m) => concat("wrong password: ", m.as_str()),
            Error::NoTextLayer => "no extractable text layer (image-only or scanned)".to_owned(),
            Error::Malformed(m) => concat("malformed document: ", m.as_str()),
            Error::Unsupported(m) => concat("unsupported: ", m.as_str()),
            Error::Other(m) => m.clone(),
        }
    }

    /// A copy of the error: same kind, same message.
    pub fn duplicate(&self) -> (e: Error)
        ensures
            error_view(e) == error_view(*self),
    {
        match self {
            Error::NotFound(m) => Error::NotFound(m.clone()),
            Error::PermissionDenied(m) => Error::PermissionDenied(m.clone()),
            Error::Encrypted(m) => Error::Encrypted(m.clone()),
            Error::WrongPassword(m) => Error::WrongPassword(m.clone()),
            Error::NoTextLayer => Error::NoTextLayer,
            Error::Malformed(m) => Error::Malformed(m.clone()),
            Error::Unsupported(m) => Error::Unsupported(m.clone()),
            Error::Other(m) => Error::Other(m.clone()),
        }
    }
}

/// A rendered page: RGBA8, row-major, top-left origin.
#[derive(Debug, Clone, PartialEq, Eq)]
pub struct PageImage {
    /// Width in pixels.
    pub width: u32,
    /// Height in pixels.
    pub height: u32,
    /// Exactly `width * height * 4` bytes.
    pub rgba: Vec<u8>,
}

/// The message for a buffer whose length does not match the dimensions.
pub open spec fn mismatch_text(
    label: Seq<char>,
    len: nat,
    expected: nat,
    width: nat,
    height: nat,
) -> Seq<char> {
    label + " holds "@ + decimal_digits(len) + " bytes, expected "@ + decimal_digits(expected)
        + " for "@ + decimal_digits(width) + "x"@ + decimal_digits(height)
}

fn mismatch_message(label: &str, len: usize, expected: usize, width: u32, height: u32) -> (m:
    String)
    ensures
        m@ == mismatch_text(label@, len as nat, expected as nat, width as nat, height as nat),
{
    let mut m = concat(label, " holds ");
    push_decimal(&mut m, len as u64);
    m = concat(m.as_str(), " bytes, expected ");
    push_decimal(&mut m, expected as u64);
    m = concat(m.as_str(), " for ");
    push_decimal(&mut m, width as u64);
    m = concat(m.as_str(), "x");
    push_decimal(&mut m, height as u64);
    m
}

/// Opaque RGB samples expanded to RGBA with full alpha.
pub open spec fn rgb_to_rgba(rgb: Seq<u8>) -> Seq<u8> {
    Seq::new(
        (rgb.len() / 3 * 4) as nat,
        |i: int|
            if i % 4 == 3 {
                255u8
            } else {
                rgb[(i / 4) * 3 + i % 4]
            },
    )
}

impl PageImage {
    /// Builds from a tightly packed RGBA buffer; errors when the buffer does
    /// not match the dimensions, so every image honors its length invariant.
    pub fn from_rgba(width: u32, height: u32, rgba: Vec<u8>) -> (r: Result<Self, Error>)
        requires
            width * height * 4 <= usize::MAX,
        ensures
            rgba@.len() == width * height * 4 <==> r is Ok,
            r matches Ok(img) ==> img.width == width && img.height == height && img.rgba@
                == rgba@,
            r matches Err(e) ==> e == Error::Other(e->Other_0) && e->Other_0@ == mismatch_text(
                "image buffer"@,
                rgba@.len(),
                (width * height * 4) as nat,
                width as nat,
                height as nat,
            ),
    {
        proof {
            assert(0 <= width * height) by (nonlinear_arith);
        }
        let expected = width as usize * height as usize * 4;
        if rgba.len() != expected {
            return Err(
                Error::Other(mismatch_message("image buffer", rgba.len(), expected, width, height)),
            );
        }
        Ok(PageImage { width, height, rgba })
    }

    /// Builds from tightly packed RGB samples, expanding to RGBA in one pass
    /// with full opacity; errors when the buffer does not match the
    /// dimensions.
    pub fn from_rgb(width: u32, height: u32, rgb: &[u8]) -> (r: Result<Self, Error>)
        requires
            width * height * 4 <= usize::MAX,
        ensures
            rgb@.len() == width * height * 3 <==> r is Ok,
            r matches Ok(img) ==> img.width == width && img.height == height && img.rgba@
                == rgb_to_rgba(rgb@) && img.rgba@.len() == width * height * 4,
            r matches Err(e) ==> e == Error::Other(e->Other_0) && e->Other_0@ == mismatch_text(
                "RGB buffer"@,
                rgb@.len(),
                (width * height * 3) as nat,
                width as nat,
                height as nat,
            ),
    {
        proof {
            assert(0 <= width * height) by (nonlinear_arith);
        }
        let expected = width as usize * height as usize * 3;
        if rgb.len() != expected {
            return Err(Error::Other(mismatch_message("RGB buffer", rgb.len(), expected, width, height)));
        }
        let pixels = expected / 3;
        let mut rgba: Vec<u8> = Vec::with_capacity(pixels * 4);
        let mut p: usize = 0;
        while p < pixels
            invariant
                p <= pixels,
                pixels == rgb@.len() / 3,
                pixels * 3 == rgb@.len(),
                pixels * 4 <= usize::MAX,
                rgba@.len() == 4 * p,
                forall|i: int| 0 <= i < 4 * p ==> rgba@[i] == rgb_to_rgba(rgb@)[i],
            decreases pixels - p,
        {
            let ghost before = rgba@;
            rgba.push(rgb[3 * p]);
            rgba.push(rgb[3 * p + 1]);
            rgba.push(rgb[3 * p + 2]);
            rgba.push(255u8);
            proof {
                assert forall|i: int| 0 <= i < 4 * (p + 1) implies rgba@[i] == rgb_to_rgba(
                    rgb@,
                )[i] by {
                    if i >= 4 * p {
                        assert(i / 4 == p);
                        assert(i % 4 == i - 4 * p);
                    }
                }
            }
            p = p + 1;
        }
        assert(rgba@ =~= rgb_to_rgba(rgb@));
        Ok(PageImage { width, height, rgba })
    }
}

/// The text surface of an opened document. Page indices are 0-based.
pub trait Document {
    /// The number of pages, fixed when the document is opened.
    closed spec fn pages(&self) -> nat {
        arbitrary()
    }

    /// What reading page `page` gives: its text, or the error (as kind and
    /// message).
    closed spec fn read(&self, page: usize) -> Result<Seq<char>, (int, Seq<char>)> {
        arbitrary()
    }

    /// Number of pages, fixed when the document is opened.
    fn page_count(&self) -> (n: usize)
        ensures
            n == self.pages(),
    ;

    /// Extract exactly one page's text; empty pages return `Ok("")`.
    fn page_text(&self, page: usize) -> (r: Result<String, Error>)
        ensures
            text_view(r) == self.read(page),
    ;
}

/// The engines candi knows how to talk to.
#[derive(Debug, Clone, Copy, PartialEq, Eq, Structural)]
pub enum BackendKind {
    Mupdf,
    Pdfium,
}

/// Names of the backends compiled into this build, in a stable order: the
/// MuPDF kind is built in (served by the stub engine); PDFium is not.
pub fn available() -> (names: Vec<&'static str>)
    ensures
        names@.len() == 1,
        names@[0]@ == "mupdf"@,
{
    let mut names: Vec<&'static str> = Vec::new();
    names.push("mupdf");
    names
}

/// A backend name as the command line spells it.
pub fn parse_backend(name: &str) -> (r: Result<BackendKind, Error>)
    ensures
        name@ == "mupdf"@ ==> r == Ok::<BackendKind, Error>(BackendKind::Mupdf),
        name@ == "pdfium"@ ==> r == Ok::<BackendKind, Error>(BackendKind::Pdfium),
        name@ != "mupdf"@ && name@ != "pdfium"@ ==> (r matches Err(Error::Unsupported(m)) && m@
            == "backend '"@ + name@ + "'"@),
{
    proof {
        reveal_strlit("mupdf");
        reveal_strlit("pdfium");
        assert("mupdf"@[0] != "pdfium"@[0]);
    }
    if str_equals(name, "mupdf") {
        Ok(BackendKind::Mupdf)
    } else if str_equals(name, "pdfium") {
        Ok(BackendKind::Pdfium)
    } else {
        let head = concat("backend '", name);
        Err(Error::Unsupported(concat(head.as_str(), "'")))
    }
}

/// Scripted behavior of one stub page: the outcome of `page_text`.
#[derive(Debug)]
pub struct StubPage {
    pub text: Result<String, Error>,
}

/// The scripted text outcome of a page, as kind-and-message values.
pub open spec fn text_view(r: Result<String, Error>) -> Result<Seq<char>, (int, Seq<char>)> {
    match r {
        Ok(t) => Ok(t@),
        Err(e) => Err(error_view(e)),
    }
}

impl StubPage {
    /// A page with empty text.
    pub fn blank() -> (p: StubPage)
        ensures
            text_view(p.text) == Ok::<Seq<char>, (int, Seq<char>)>(seq![]),
    {
        StubPage { text: Ok(String::new()) }
    }

    fn duplicate(&self) -> (p: StubPage)
        ensures
            text_view(p.text) == text_view(self.text),
    {
        match &self.text {
            Ok(t) => StubPage { text: Ok(t.clone()) },
            Err(e) => StubPage { text: Err(e.duplicate()) },
        }
    }
}

/// Scriptable backend. Pages start empty; script per-page behavior by
/// replacing [`StubBackend::pages`] entries before opening.
#[derive(Debug)]
pub struct StubBackend {
    /// Copied into each opened document.
    pub pages: Vec<StubPage>,
    /// When set, opening fails with this error instead.
    pub open_error: Option<Error>,
}

/// Document opened by [`StubBackend`]; holds a copy of the scripted pages.
pub struct StubDocument {
    pages: Vec<StubPage>,
}

impl StubDocument {
    /// The scripted outcomes of the pages.
    pub closed spec fn texts(&self) -> Seq<Result<Seq<char>, (int, Seq<char>)>> {
        self.pages@.map_values(|p: StubPage| text_view(p.text))
    }
}

impl StubBackend {
    /// Backend with `page_count` empty pages; opening succeeds.
    pub fn new(page_count: usize) -> (b: StubBackend)
        ensures
            b.pages@.len() == page_count,
            forall|i: int|
                0 <= i < page_count ==> text_view(#[trigger] b.pages@[i].text) == Ok::<
                    Seq<char>,
                    (int, Seq<char>),
                >(seq![]),
            b.open_error is None,
    {
        let mut pages: Vec<StubPage> = Vec::new();
        let mut i: usize = 0;
        while i < page_count
            invariant
                i <= page_count,
                pages@.len() == i,
                forall|k: int|
                    0 <= k < i ==> text_view(#[trigger] pages@[k].text) == Ok::<
                        Seq<char>,
                        (int, Seq<char>),
                    >(seq![]),
            decreases page_count - i,
        {
            pages.push(StubPage::blank());
            i = i + 1;
        }
        StubBackend { pages, open_error: None }
    }

    /// Stable identifier of this backend.
    pub fn name(&self) -> (n: &'static str)
        ensures
            n@ == "stub"@,
    {
        "stub"
    }

    /// Open a document: the scripted open error, or a document holding a
    /// copy of the scripted pages. The path and password are not read.
    pub fn open(&self, path: &str, password: Option<&str>) -> (r: Result<StubDocument, Error>)
        ensures
            match self.open_error {
                Some(e) => r matches Err(got) && error_view(got) == error_view(e),
                None => r matches Ok(doc) && doc.texts() == self.pages@.map_values(
                    |p: StubPage| text_view(p.text),
                ),
            },
    {
        match &self.open_error {
            Some(e) => Err(e.duplicate()),
            None => {
                let mut pages: Vec<StubPage> = Vec::new();
                let mut i: usize = 0;
                while i < self.pages.len()
                    invariant
                        i <= self.pages@.len(),
                        pages@.len() == i,
                        forall|k: int|
                            0 <= k < i ==> text_view(#[trigger] pages@[k].text) == text_view(
                                self.pages@[k].text,
                            ),
                    decreases self.pages@.len() - i,
                {
                    pages.push(self.pages[i].duplicate());
                    i = i + 1;
                }
                let doc = StubDocument { pages };
                assert(doc.texts() =~= self.pages@.map_values(|p: StubPage| text_view(p.text)));
                Ok(doc)
            },
        }
    }
}

impl StubDocument {
    /// Number of scripted pages.
    pub fn count(&self) -> (n: usize)
        ensures
            n == self.texts().len(),
    {
        self.pages.len()
    }

    /// The scripted text of `page`; pages past the end are an error.
    pub fn text(&self, page: usize) -> (r: Result<String, Error>)
        ensures
            page < self.texts().len() ==> text_view(r) == self.texts()[page as int],
            page >= self.texts().len() ==> r matches Err(Error::Other(_)),
            text_view(r) == stub_read(self.texts(), page),
    {
        if page >= self.pages.len() {
            let mut m = "page ".to_owned();
            push_decimal(&mut m, page as u64);
            m = concat(m.as_str(), " out of range (");
            push_decimal(&mut m, self.pages.len() as u64);
            m = concat(m.as_str(), " pages)");
            return Err(Error::Other(m));
        }
        self.pages[page].duplicate().text
    }
}

/// Byte `i` of a stub page render `width` pixels wide: white, with a black
/// row every `(page % 8 + 1) * 8` rows; alpha stays opaque.
pub open spec fn stripe_byte(page: nat, width: nat, i: int) -> u8 {
    let period = (page % 8 + 1) * 8;
    let row = i / (4 * width as int);
    if row % period as int == 0 && i % 4 < 3 {
        0
    } else {
        255
    }
}

/// Width of every stub page in PDF points (US Letter).
pub const STUB_PAGE_WIDTH: u32 = 612;

/// Height of every stub page in PDF points (US Letter).
pub const STUB_PAGE_HEIGHT: u32 = 792;

impl StubDocument {
    /// Page dimensions in PDF points, `(width, height)`: US Letter for every
    /// page of the document, an error past the end.
    pub fn page_size(&self, page: usize) -> (r: Result<(u32, u32), Error>)
        ensures
            page < self.texts().len() ==> r == Ok::<(u32, u32), Error>(
                (STUB_PAGE_WIDTH, STUB_PAGE_HEIGHT),
            ),
            page >= self.texts().len() ==> r matches Err(Error::Other(_)),
    {
        if page >= self.pages.len() {
            return match self.text(page) {
                Err(e) => Err(e),
                Ok(_) => Err(Error::Other(String::new())),
            };
        }
        Ok((STUB_PAGE_WIDTH, STUB_PAGE_HEIGHT))
    }
}

impl StubDocument {
    /// Render `page` as a `width` x `height` RGBA image: white with black
    /// horizontal stripes whose period derives from the page index, so a
    /// render is a pure function of its inputs and pages stay
    /// distinguishable. Pages past the end are an error.
    pub fn render_stripes(&self, page: usize, width: u32, height: u32) -> (r: Result<PageImage, Error>)
        requires
            width * height * 4 <= usize::MAX,
        ensures
            page < self.texts().len() ==> (r matches Ok(img) && img.width == width && img.height
                == height && img.rgba@.len() == width * height * 4 && forall|i: int|
                0 <= i < img.rgba@.len() ==> #[trigger] img.rgba@[i] == stripe_byte(
                    page as nat,
                    width as nat,
                    i,
                )),
            page >= self.texts().len() ==> r matches Err(Error::Other(_)),
    {
        if page >= self.pages.len() {
            return match self.text(page) {
                Err(e) => Err(e),
                Ok(_) => Err(Error::Other(String::new())),
            };
        }
        proof {
            assert(0 <= width * height) by (nonlinear_arith);
        }
        let total: usize = width as usize * height as usize * 4;
        let row_bytes: usize = if height == 0 {
            4
        } else {
            proof {
                assert(width * 4 <= width * height * 4) by (nonlinear_arith)
                    requires
                        height >= 1,
                ;
            }
            width as usize * 4
        };
        let period: usize = (page % 8 + 1) * 8;
        let mut rgba: Vec<u8> = Vec::new();
        let mut i: usize = 0;
        while i < total
            invariant
                i <= total,
                total == width * height * 4,
                height > 0 ==> row_bytes == 4 * width,
                period == (page % 8 + 1) * 8,
                rgba@.len() == i,
                forall|k: int| 0 <= k < i ==> #[trigger] rgba@[k] == stripe_byte(
                    page as nat,
                    width as nat,
                    k,
                ),
            decreases total - i,
        {
            proof {
                if width == 0 || height == 0 {
                    assert(total == 0) by (nonlinear_arith)
                        requires
                            total == width * height * 4,
                            width == 0 || height == 0,
                    ;
                }
            }
            let row: usize = i / row_bytes;
            let byte: u8 = if row % period == 0 && i % 4 < 3 {
                0
            } else {
                255
            };
            rgba.push(byte);
            i = i + 1;
        }
        PageImage::from_rgba(width, height, rgba)
    }
}

/// What reading `page` of a stub with these page texts gives: the scripted
/// text, or an out-of-range error past the last page.
pub open spec fn stub_read(texts: Seq<Result<Seq<char>, (int, Seq<char>)>>, page: usize) -> Result<
    Seq<char>,
    (int, Seq<char>),
> {
    if page < texts.len() {
        texts[page as int]
    } else {
        Err(
            (
                7,
                "page "@ + decimal_digits(page as nat) + " out of range ("@ + decimal_digits(
                    texts.len(),
                ) + " pages)"@,
            ),
        )
    }
}

impl Document for StubDocument {
    open spec fn pages(&self) -> nat {
        self.texts().len()
    }

    open spec fn read(&self, page: usize) -> Result<Seq<char>, (int, Seq<char>)> {
        stub_read(self.texts(), page)
    }

    fn page_count(&self) -> (n: usize)
        ensures
            n == self.texts().len(),
    {
        self.count()
    }

    fn page_text(&self, page: usize) -> (r: Result<String, Error>)
        ensures
            page < self.texts().len() ==> text_view(r) == self.texts()[page as int],
            page >= self.texts().len() ==> r matches Err(Error::Other(_)),
    {
        self.text(page)
    }
}

/// Open a document with a specific backend: the built-in MuPDF kind opens
/// a one-page stub document; PDFium is not compiled into this build.
pub fn open(kind: BackendKind, path: &str, password: Option<&str>) -> (r: Result<
    StubDocument,
    Error,
>)
    ensures
        kind == BackendKind::Mupdf ==> (r matches Ok(doc) && doc.texts() == seq![
            Ok::<Seq<char>, (int, Seq<char>)>(seq![]),
        ]),
        kind == BackendKind::Pdfium ==> (r matches Err(Error::Unsupported(m)) && m@
            == "pdfium-backend is not compiled in"@),
{
    match kind {
        BackendKind::Mupdf => {
            let backend = StubBackend::new(1);
            let r = backend.open(path, password);
            assert(backend.pages@.map_values(|p: StubPage| text_view(p.text)) =~= seq![
                Ok::<Seq<char>, (int, Seq<char>)>(seq![]),
            ]);
            r
        },
        BackendKind::Pdfium => Err(Error::Unsupported("pdfium-backend is not compiled in".to_owned())),
    }
}

/// Open a document with the default backend ([`BackendKind::Mupdf`]).
pub fn open_default(path: &str, password: Option<&str>) -> (r: Result<StubDocument, Error>)
    ensures
        r matches Ok(doc) && doc.texts() == seq![Ok::<Seq<char>, (int, Seq<char>)>(seq![])],
{
    open(BackendKind::Mupdf, path, password)
}

} // verus!
