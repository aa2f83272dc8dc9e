//! Full reading sessions (sidecar schema v2): what a session holds, how a
//! parsed v1 or v2 sidecar becomes one, and how a session is fitted to a
//! document.
//!
//! The scroll fraction is a binary64 number in the file. A session carries
//! it as the sidecar held it: a float field by its IEEE-754 bit pattern, an
//! integer field as the integer.

use vstd::prelude::*;

use crate::navigation::{last_index, min_nat};
use crate::state::{
    add_bookmark, bookmarks_field, format_rfc3339_utc, rfc3339_text, bookmarks_match, bookmarks_spec, get, has_bookmark,
    first_bookmark, keep_where, parse_toml, reading_position, reading_spec, remove_bookmark,
    retain_bookmarks_in, schema_check, schema_version_of, text_field, text_spec, toggle_bookmark,
    toml_get, toml_parse, uint_field, uint_spec, zoom_field, zoom_spec, Bookmark, Error, Failure,
    SchemaCheck, TomlValue, ZoomMode, DEFAULT_THEME, SESSION_SCHEMA, MAX_ZOOM_PERCENT,
    MIN_ZOOM_PERCENT, lemma_get_at, table_is, bookmark_spec, bookmark_entries_spec,
};

verus! {

/// A session's scroll fraction as the sidecar holds it.
#[derive(Clone, Copy, Debug, PartialEq, Eq, Structural)]
pub enum ScrollFrac {
    /// A float field: the bit pattern of the binary64 value.
    Bits(u64),
    /// An integer field.
    Whole(i64),
}

/// Bit pattern of the binary64 value 1.0.
pub const ONE_BITS: u64 = 0x3ff0_0000_0000_0000;

/// The sign bit of a binary64 bit pattern; alone it is -0.0.
pub const SIGN_BIT: u64 = 0x8000_0000_0000_0000;

/// Weight of the lowest exponent bit of a binary64 bit pattern.
pub const EXPONENT_UNIT: u64 = 0x10_0000_0000_0000;

/// Whether a binary64 bit pattern is a finite number: its eleven exponent
/// bits are not all ones (those are the infinities and NaNs).
pub open spec fn finite_bits(bits: u64) -> bool {
    (bits / EXPONENT_UNIT) % 0x800 != 0x7ff
}

fn is_finite_bits(bits: u64) -> (f: bool)
    ensures
        f == finite_bits(bits),
{
    (bits / EXPONENT_UNIT) % 0x800 != 0x7ff
}

/// The `scroll_frac` field: a finite float or an integer.
pub open spec fn frac_spec(field: Option<TomlValue>) -> Result<ScrollFrac, Seq<char>> {
    match field {
        Some(TomlValue::Float(bits)) => if finite_bits(bits) {
            Ok(ScrollFrac::Bits(bits))
        } else {
            Err("non-finite scroll_frac"@)
        },
        Some(TomlValue::Integer(i)) => Ok(ScrollFrac::Whole(i)),
        Some(_) => Err("invalid scroll_frac type"@),
        None => Err("missing scroll_frac"@),
    }
}

/// Read the `scroll_frac` field.
pub fn frac_field(field: Option<&TomlValue>) -> (r: Result<ScrollFrac, String>)
    ensures
        match (r, frac_spec(
            match field {
                Some(f) => Some(*f),
                None => None,
            },
        )) {
            (Ok(a), Ok(b)) => a == b,
            (Err(a), Err(b)) => a@ == b,
            _ => false,
        },
{
    match field {
        Some(TomlValue::Float(bits)) => {
            if is_finite_bits(*bits) {
                Ok(ScrollFrac::Bits(*bits))
            } else {
                Err("non-finite scroll_frac".to_owned())
            }
        },
        Some(TomlValue::Integer(i)) => Ok(ScrollFrac::Whole(*i)),
        Some(_) => Err("invalid scroll_frac type".to_owned()),
        None => Err("missing scroll_frac".to_owned()),
    }
}

/// The scroll fraction clamped to `[0.0, 1.0]`, as a binary64 bit pattern;
/// a non-finite value becomes 0.0. For finite non-negative values the
/// order of the numbers is the order of their bit patterns; patterns above
/// the sign bit are the negative numbers below -0.0, which clamp to 0.0,
/// while -0.0 itself is not below 0.0 and stays. An integer `i` stands for
/// the number `i`: 0.0 up to 0, 1.0 from 1.
pub open spec fn clamped_frac(f: ScrollFrac) -> u64 {
    match f {
        ScrollFrac::Whole(i) => if i <= 0 {
            0
        } else {
            ONE_BITS
        },
        ScrollFrac::Bits(b) => if !finite_bits(b) {
            0
        } else if b > SIGN_BIT {
            0
        } else if b == SIGN_BIT {
            b
        } else if b > ONE_BITS {
            ONE_BITS
        } else {
            b
        },
    }
}

fn clamp_frac(f: ScrollFrac) -> (b: u64)
    ensures
        b == clamped_frac(f),
{
    match f {
        ScrollFrac::Whole(i) => if i <= 0 {
            0
        } else {
            ONE_BITS
        },
        ScrollFrac::Bits(b) => if !is_finite_bits(b) {
            0
        } else if b > SIGN_BIT {
            0
        } else if b == SIGN_BIT {
            b
        } else if b > ONE_BITS {
            ONE_BITS
        } else {
            b
        },
    }
}

/// A full reading session (schema v2). `scroll_frac` is the vertical
/// position within the current page as a fraction of its height.
#[derive(Clone, Debug, PartialEq, Eq)]
pub struct SessionState {
    pub page: usize,
    pub scroll_frac: ScrollFrac,
    pub zoom: ZoomMode,
    pub theme: String,
    pub bookmarks: Vec<Bookmark>,
}

/// A session as plain values: page, scroll fraction, zoom, theme name and
/// bookmarks.
pub type SessionView = (nat, ScrollFrac, ZoomMode, Seq<char>, Seq<Bookmark>);

impl SessionState {
    pub open spec fn view_of(self) -> SessionView {
        (self.page as nat, self.scroll_frac, self.zoom, self.theme@, self.bookmarks@)
    }

    /// A fresh session: first page, top of the page, fit-width zoom, the
    /// default theme, no bookmarks.
    fn fresh() -> (s: Self)
        ensures
            s.view_of() == fresh_view(),
    {
        SessionState {
            page: 0,
            scroll_frac: ScrollFrac::Bits(0),
            zoom: ZoomMode::FitWidth,
            theme: DEFAULT_THEME.to_owned(),
            bookmarks: Vec::new(),
        }
    }

    /// Fresh session starting at the first page of a document.
    pub fn new(page_count: usize) -> (s: Self)
        ensures
            s.view_of() == clamp_view(fresh_view(), page_count as nat),
            s.view_of() == fresh_view(),
    {
        let s = Self::fresh().clamp_to(page_count);
        assert(keep_where(Seq::<Bookmark>::empty(), |b: Bookmark| b.page < page_count) =~= Seq::<
            Bookmark,
        >::empty());
        s
    }

    /// Clamp out-of-range values to the document: the page to the last
    /// index (empty documents stay on page 0), the scroll fraction to
    /// `[0.0, 1.0]` (non-finite becomes 0.0), and bookmarks pointing past
    /// the document are dropped.
    pub fn clamp_to(self, page_count: usize) -> (s: Self)
        ensures
            s.view_of() == clamp_view(self.view_of(), page_count as nat),
    {
        let last: usize = if page_count == 0 {
            0
        } else {
            page_count - 1
        };
        let page: usize = if self.page <= last {
            self.page
        } else {
            last
        };
        let mut bookmarks = self.bookmarks;
        retain_bookmarks_in(&mut bookmarks, page_count);
        SessionState {
            page,
            scroll_frac: ScrollFrac::Bits(clamp_frac(self.scroll_frac)),
            zoom: self.zoom,
            theme: self.theme,
            bookmarks,
        }
    }

    /// Add a bookmark for `page` stamped with the time `now` (seconds since
    /// the Unix epoch, as RFC 3339 UTC text), or remove the one that exists.
    pub fn toggle_bookmark(&mut self, page: usize, now: u64)
        ensures
            final(self).page == old(self).page,
            final(self).scroll_frac == old(self).scroll_frac,
            final(self).zoom == old(self).zoom,
            final(self).theme == old(self).theme,
            if has_bookmark(old(self).bookmarks@, page) {
                final(self).bookmarks@ == old(self).bookmarks@.remove(
                    first_bookmark(old(self).bookmarks@, page),
                )
            } else {
                &&& final(self).bookmarks@.len() == old(self).bookmarks@.len() + 1
                &&& final(self).bookmarks@.drop_last() == old(self).bookmarks@
                &&& final(self).bookmarks@.last().page == page
                &&& final(self).bookmarks@.last().created_at@ == rfc3339_text(now as nat)
            },
    {
        let created_at = format_rfc3339_utc(now);
        toggle_bookmark(&mut self.bookmarks, page, created_at);
        proof {
            if !has_bookmark(old(self).bookmarks@, page) {
                assert(self.bookmarks@.drop_last() =~= old(self).bookmarks@);
            }
        }
    }

    /// Add a bookmark for `page` stamped with the time `now` (seconds since
    /// the Unix epoch, as RFC 3339 UTC text); an existing bookmark for the
    /// same page is kept as it is.
    pub fn add_bookmark(&mut self, page: usize, now: u64)
        ensures
            final(self).page == old(self).page,
            final(self).scroll_frac == old(self).scroll_frac,
            final(self).zoom == old(self).zoom,
            final(self).theme == old(self).theme,
            if has_bookmark(old(self).bookmarks@, page) {
                final(self).bookmarks@ == old(self).bookmarks@
            } else {
                &&& final(self).bookmarks@.len() == old(self).bookmarks@.len() + 1
                &&& final(self).bookmarks@.drop_last() == old(self).bookmarks@
                &&& final(self).bookmarks@.last().page == page
                &&& final(self).bookmarks@.last().created_at@ == rfc3339_text(now as nat)
            },
    {
        let created_at = format_rfc3339_utc(now);
        add_bookmark(&mut self.bookmarks, page, created_at);
        proof {
            if !has_bookmark(old(self).bookmarks@, page) {
                assert(self.bookmarks@.drop_last() =~= old(self).bookmarks@);
            }
        }
    }

    /// Drop any bookmark for `page`; missing bookmarks are ignored.
    pub fn remove_bookmark(&mut self, page: usize)
        ensures
            final(self).page == old(self).page,
            final(self).scroll_frac == old(self).scroll_frac,
            final(self).zoom == old(self).zoom,
            final(self).theme == old(self).theme,
            final(self).bookmarks@ == keep_where(old(self).bookmarks@, |b: Bookmark| b.page != page),
    {
        remove_bookmark(&mut self.bookmarks, page);
    }
}

/// The fresh session.
pub open spec fn fresh_view() -> SessionView {
    (0, ScrollFrac::Bits(0), ZoomMode::FitWidth, DEFAULT_THEME@, seq![])
}

/// A session fitted to a document of `page_count` pages.
pub open spec fn clamp_view(v: SessionView, page_count: nat) -> SessionView {
    (
        min_nat(v.0 as int, last_index(page_count) as int) as nat,
        ScrollFrac::Bits(clamped_frac(v.1)),
        v.2,
        v.3,
        keep_where(v.4, |b: Bookmark| b.page < page_count),
    )
}

/// Outcome of reading a session sidecar: missing, valid data, or
/// recoverable corruption.
#[derive(Debug)]
pub enum SessionLoad {
    Missing,
    Loaded(SessionState),
    Corrupt(String),
}

/// The fields of a v2 session document: `updated_at` must be there; the
/// `[reading]` table holds page, scroll fraction, zoom and theme; the
/// `bookmarks` array is optional. The message is the first field's that is
/// wrong.
pub open spec fn session_spec(value: TomlValue) -> Result<
    (usize, ScrollFrac, ZoomMode, Seq<char>, Seq<(usize, Seq<char>)>),
    Seq<char>,
> {
    match text_spec(toml_get(value, "updated_at"@), "updated_at"@) {
        Err(m) => Err(m),
        Ok(_) => match toml_get(value, "reading"@) {
            None => Err("missing [reading]"@),
            Some(reading) => match uint_spec(toml_get(reading, "page"@), "page"@) {
                Err(m) => Err(m),
                Ok(page) => match frac_spec(toml_get(reading, "scroll_frac"@)) {
                    Err(m) => Err(m),
                    Ok(frac) => match zoom_spec(toml_get(reading, "zoom"@)) {
                        Err(m) => Err(m),
                        Ok(zoom) => match text_spec(toml_get(reading, "theme"@), "theme"@) {
                            Err(m) => Err(m),
                            Ok(theme) => match bookmarks_spec(toml_get(value, "bookmarks"@)) {
                                Err(m) => Err(m),
                                Ok(b) => Ok((page, frac, zoom, theme, b)),
                            },
                        },
                    },
                },
            },
        },
    }
}

/// Whether `s` holds the given session fields.
pub open spec fn holds(
    s: SessionState,
    page: usize,
    frac: ScrollFrac,
    zoom: ZoomMode,
    theme: Seq<char>,
    b: Seq<(usize, Seq<char>)>,
) -> bool {
    s.page == page && s.scroll_frac == frac && s.zoom == zoom && s.theme@ == theme
        && bookmarks_match(s.bookmarks@, b)
}

/// Extract the v2 session fields; unknown keys are ignored.
pub fn session_fields(value: &TomlValue) -> (r: Result<SessionState, String>)
    ensures
        match (r, session_spec(*value)) {
            (Ok(s), Ok((page, frac, zoom, theme, b))) => holds(s, page, frac, zoom, theme, b),
            (Err(a), Err(b)) => a@ == b,
            _ => false,
        },
{
    match text_field(get(value, "updated_at"), "updated_at") {
        Ok(_) => {},
        Err(m) => return Err(m),
    }
    let reading = match get(value, "reading") {
        Some(reading) => reading,
        None => return Err("missing [reading]".to_owned()),
    };
    let page = match uint_field(get(reading, "page"), "page") {
        Ok(page) => page,
        Err(m) => return Err(m),
    };
    let scroll_frac = match frac_field(get(reading, "scroll_frac")) {
        Ok(f) => f,
        Err(m) => return Err(m),
    };
    let zoom = match zoom_field(get(reading, "zoom")) {
        Ok(z) => z,
        Err(m) => return Err(m),
    };
    let theme = match text_field(get(reading, "theme"), "theme") {
        Ok(t) => t,
        Err(m) => return Err(m),
    };
    let bookmarks = match bookmarks_field(get(value, "bookmarks")) {
        Ok(b) => b,
        Err(m) => return Err(m),
    };
    Ok(SessionState { page, scroll_frac, zoom, theme, bookmarks })
}

/// What a session sidecar amounts to.
pub enum SessionOutcome {
    Loaded(usize, ScrollFrac, ZoomMode, Seq<char>, Seq<(usize, Seq<char>)>),
    Corrupt(Seq<char>),
    Unsupported(i64),
}

/// A TOML parse failure is corruption; then the schema version must be 1
/// or 2; a v1 file migrates (page kept, everything else fresh); a v2 file
/// must hold every session field.
pub open spec fn session_outcome(document: Result<TomlValue, Seq<char>>) -> SessionOutcome {
    match document {
        Err(m) => SessionOutcome::Corrupt(m),
        Ok(value) => match schema_check(value, SESSION_SCHEMA) {
            SchemaCheck::Corrupt(m) => SessionOutcome::Corrupt(m),
            SchemaCheck::Unsupported(found) => SessionOutcome::Unsupported(found),
            SchemaCheck::Version(v) => if v == 0 {
                SessionOutcome::Corrupt("unsupported schema_version 0"@)
            } else if v == 1 {
                match reading_spec(value) {
                    Ok((page, _, _)) => SessionOutcome::Loaded(
                        page,
                        ScrollFrac::Bits(0),
                        ZoomMode::FitWidth,
                        DEFAULT_THEME@,
                        seq![],
                    ),
                    Err(m) => SessionOutcome::Corrupt(m),
                }
            } else {
                match session_spec(value) {
                    Ok((page, frac, zoom, theme, b)) => SessionOutcome::Loaded(
                        page,
                        frac,
                        zoom,
                        theme,
                        b,
                    ),
                    Err(m) => SessionOutcome::Corrupt(m),
                }
            },
        },
    }
}

/// Whether `r` is what loading a sidecar with outcome `o` returns.
pub open spec fn session_result(o: SessionOutcome, r: Result<SessionLoad, Error>) -> bool {
    match o {
        SessionOutcome::Loaded(page, frac, zoom, theme, b) => r matches Ok(SessionLoad::Loaded(s))
            && holds(s, page, frac, zoom, theme, b),
        SessionOutcome::Corrupt(m) => r matches Ok(SessionLoad::Corrupt(t)) && t@ == m,
        SessionOutcome::Unsupported(found) => r matches Err(Error::UnsupportedSchema { found: f })
            && f == found,
    }
}

/// Classify a parsed session sidecar (or the parser's error message) into
/// the outcome of loading it. The session is not fitted to a document:
/// callers that know the page count apply [`SessionState::clamp_to`].
pub fn session_from_document(document: Result<TomlValue, String>) -> (r: Result<
    SessionLoad,
    Error,
>)
    ensures
        session_result(
            session_outcome(
                match document {
                    Ok(v) => Ok(v),
                    Err(m) => Err(m@),
                },
            ),
            r,
        ),
{
    let value = match document {
        Ok(value) => value,
        Err(message) => return Ok(SessionLoad::Corrupt(message)),
    };
    let schema_version = match schema_version_of(&value, SESSION_SCHEMA) {
        Ok(v) => v,
        Err(Failure::Corrupt(message)) => return Ok(SessionLoad::Corrupt(message)),
        Err(Failure::Hard(err)) => return Err(err),
    };
    if schema_version == 0 {
        return Ok(SessionLoad::Corrupt("unsupported schema_version 0".to_owned()));
    }
    if schema_version == 1 {
        return migrated(&value);
    }
    current(&value)
}

/// A v1 sidecar as a session: its page, everything else fresh.
fn migrated(value: &TomlValue) -> (r: Result<SessionLoad, Error>)
    ensures
        match reading_spec(*value) {
            Ok((page, _, _)) => r matches Ok(SessionLoad::Loaded(s)) && holds(
                s,
                page,
                ScrollFrac::Bits(0),
                ZoomMode::FitWidth,
                DEFAULT_THEME@,
                seq![],
            ),
            Err(m) => r matches Ok(SessionLoad::Corrupt(t)) && t@ == m,
        },
{
    match reading_position(value) {
        Ok(position) => {
            let mut s = SessionState::fresh();
            s.page = position.page();
            proof {
                assert(bookmarks_match(s.bookmarks@, Seq::<(usize, Seq<char>)>::empty()));
            }
            Ok(SessionLoad::Loaded(s))
        },
        Err(message) => Ok(SessionLoad::Corrupt(message)),
    }
}

/// A v2 sidecar as a session.
fn current(value: &TomlValue) -> (r: Result<SessionLoad, Error>)
    ensures
        match session_spec(*value) {
            Ok((page, frac, zoom, theme, b)) => r matches Ok(SessionLoad::Loaded(s)) && holds(
                s,
                page,
                frac,
                zoom,
                theme,
                b,
            ),
            Err(m) => r matches Ok(SessionLoad::Corrupt(t)) && t@ == m,
        },
{
    match session_fields(value) {
        Ok(session) => Ok(SessionLoad::Loaded(session)),
        Err(message) => Ok(SessionLoad::Corrupt(message)),
    }
}

/// Read a session sidecar's text into the outcome of loading it: see
/// [`session_from_document`].
pub fn parse_session_sidecar(contents: &str) -> (r: Result<SessionLoad, Error>)
    ensures
        session_result(session_outcome(toml_parse(contents@)), r),
        toml_parse(contents@) is Err ==> (r matches Ok(SessionLoad::Corrupt(t)) && t@.len() > 0),
{
    session_from_document(parse_toml(contents))
}

/// A `[[bookmarks]]` entry of a saved session: its page and timestamp.
pub open spec fn is_bookmark_entry(e: TomlValue, b: Bookmark) -> bool {
    &&& table_is(e, seq!["page"@, "created_at"@])
    &&& e->Table_0@[0].1 == TomlValue::Integer(b.page as i64)
    &&& e->Table_0@[1].1 matches TomlValue::String(t) && t@ == b.created_at@
}

/// The scroll fraction as a sidecar value.
pub open spec fn frac_value(f: ScrollFrac) -> TomlValue {
    match f {
        ScrollFrac::Bits(b) => TomlValue::Float(b),
        ScrollFrac::Whole(i) => TomlValue::Integer(i),
    }
}

/// The zoom preference as a sidecar value.
pub open spec fn zoom_matches(v: TomlValue, z: ZoomMode) -> bool {
    match z {
        ZoomMode::FitWidth => v matches TomlValue::String(t) && t@ == "fit-width"@,
        ZoomMode::Percent(p) => v == TomlValue::Integer(p as i64),
    }
}

/// The v2 sidecar document of a session stamped `updated_at`:
/// `schema_version = 2`, the timestamp, the `[reading]` table (page,
/// scroll fraction, zoom, theme) and the `bookmarks` array.
pub open spec fn is_session_doc(d: TomlValue, s: SessionState, updated_at: Seq<char>) -> bool {
    &&& table_is(d, seq!["schema_version"@, "updated_at"@, "reading"@, "bookmarks"@])
    &&& d->Table_0@[0].1 == TomlValue::Integer(2)
    &&& d->Table_0@[1].1 matches TomlValue::String(t) && t@ == updated_at
    &&& table_is(d->Table_0@[2].1, seq!["page"@, "scroll_frac"@, "zoom"@, "theme"@])
    &&& d->Table_0@[2].1->Table_0@[0].1 == TomlValue::Integer(s.page as i64)
    &&& d->Table_0@[2].1->Table_0@[1].1 == frac_value(s.scroll_frac)
    &&& zoom_matches(d->Table_0@[2].1->Table_0@[2].1, s.zoom)
    &&& d->Table_0@[2].1->Table_0@[3].1 matches TomlValue::String(t) && t@ == s.theme@
    &&& d->Table_0@[3].1 matches TomlValue::Array(entries) && entries@.len() == s.bookmarks@.len()
        && forall|k: int| 0 <= k < entries@.len() ==> is_bookmark_entry(#[trigger] entries@[k], s.bookmarks@[k])
}

/// A session whose document reads back as itself: a timestamp, a theme
/// name and bookmark timestamps that are not empty, a finite scroll
/// fraction, and a zoom percent inside the supported range.
pub open spec fn reads_back(s: SessionState, updated_at: Seq<char>) -> bool {
    &&& updated_at.len() > 0
    &&& s.theme@.len() > 0
    &&& forall|k: int| 0 <= k < s.bookmarks@.len() ==> (#[trigger] s.bookmarks@[k]).created_at@.len() > 0
    &&& (s.scroll_frac matches ScrollFrac::Bits(b) ==> finite_bits(b))
    &&& (s.zoom matches ZoomMode::Percent(p) ==> MIN_ZOOM_PERCENT <= p <= MAX_ZOOM_PERCENT)
}

/// The bookmarks as page and timestamp pairs.
pub open spec fn bookmark_pairs(b: Seq<Bookmark>) -> Seq<(usize, Seq<char>)> {
    b.map_values(|m: Bookmark| (m.page, m.created_at@))
}

/// Saved bookmark entries read back as the bookmarks.
proof fn lemma_entries_read_back(entries: Seq<TomlValue>, b: Seq<Bookmark>, n: int)
    requires
        0 <= n <= entries.len(),
        entries.len() == b.len(),
        forall|k: int| 0 <= k < entries.len() ==> is_bookmark_entry(#[trigger] entries[k], b[k]),
        forall|k: int| 0 <= k < b.len() ==> (#[trigger] b[k]).created_at@.len() > 0,
        forall|k: int| 0 <= k < b.len() ==> (#[trigger] b[k]).page <= i64::MAX,
    ensures
        bookmark_entries_spec(entries, n) == Ok::<Seq<(usize, Seq<char>)>, Seq<char>>(
            bookmark_pairs(b).take(n),
        ),
    decreases n,
{
    if n == 0 {
        assert(bookmark_pairs(b).take(0) =~= Seq::<(usize, Seq<char>)>::empty());
    } else {
        lemma_entries_read_back(entries, b, n - 1);
        let e = entries[n - 1];
        assert(is_bookmark_entry(e, b[n - 1]));
        assert(b[n - 1].created_at@.len() > 0);
        reveal_strlit("page");
        reveal_strlit("created_at");
        assert("page"@[0] != "created_at"@[0]);
        lemma_get_at(e, "page"@, 0);
        lemma_get_at(e, "created_at"@, 1);
        reveal(bookmark_spec);
        assert(bookmark_spec(e) == Ok::<(usize, Seq<char>), Seq<char>>((b[n - 1].page, b[n - 1].created_at@)));
        assert(bookmark_pairs(b).take(n) =~= bookmark_pairs(b).take(n - 1).push(
            (b[n - 1].page, b[n - 1].created_at@),
        ));
    }
}

/// The sidecar document that saves `session` stamped `updated_at`, when its
/// pages fit TOML's signed 64-bit integers. Reading the document back gives
/// the session again whenever [`reads_back`] holds of it.
pub fn session_document(session: &SessionState, updated_at: &str) -> (doc: Option<TomlValue>)
    ensures
        (session.page <= i64::MAX && forall|k: int|
            0 <= k < session.bookmarks@.len() ==> (#[trigger] session.bookmarks@[k]).page
                <= i64::MAX) <==> doc is Some,
        doc matches Some(d) ==> is_session_doc(d, *session, updated_at@),
        doc matches Some(d) ==> (reads_back(*session, updated_at@) ==> session_outcome(Ok(d))
            == SessionOutcome::Loaded(
            session.page,
            session.scroll_frac,
            session.zoom,
            session.theme@,
            bookmark_pairs(session.bookmarks@),
        )),
{
    if session.page as u64 > 0x7fff_ffff_ffff_ffff {
        return None;
    }
    let mut entries: Vec<TomlValue> = Vec::new();
    let mut i: usize = 0;
    while i < session.bookmarks.len()
        invariant
            i <= session.bookmarks@.len(),
            entries@.len() == i,
            forall|k: int| 0 <= k < i ==> is_bookmark_entry(#[trigger] entries@[k], session.bookmarks@[k]),
            forall|k: int| 0 <= k < i ==> (#[trigger] session.bookmarks@[k]).page <= i64::MAX,
        decreases session.bookmarks@.len() - i,
    {
        let b = &session.bookmarks[i];
        if b.page as u64 > 0x7fff_ffff_ffff_ffff {
            return None;
        }
        let mut fields: Vec<(String, TomlValue)> = Vec::new();
        fields.push(("page".to_owned(), TomlValue::Integer(b.page as i64)));
        fields.push(("created_at".to_owned(), TomlValue::String(b.created_at.clone())));
        proof {
            reveal_strlit("page");
            reveal_strlit("created_at");
        }
        entries.push(TomlValue::Table(fields));
        i = i + 1;
    }
    let frac = match session.scroll_frac {
        ScrollFrac::Bits(b) => TomlValue::Float(b),
        ScrollFrac::Whole(w) => TomlValue::Integer(w),
    };
    let zoom = match session.zoom {
        ZoomMode::FitWidth => TomlValue::String("fit-width".to_owned()),
        ZoomMode::Percent(p) => TomlValue::Integer(p as i64),
    };
    let mut reading: Vec<(String, TomlValue)> = Vec::new();
    reading.push(("page".to_owned(), TomlValue::Integer(session.page as i64)));
    reading.push(("scroll_frac".to_owned(), frac));
    reading.push(("zoom".to_owned(), zoom));
    reading.push(("theme".to_owned(), TomlValue::String(session.theme.clone())));
    let mut top: Vec<(String, TomlValue)> = Vec::new();
    top.push(("schema_version".to_owned(), TomlValue::Integer(2)));
    top.push(("updated_at".to_owned(), TomlValue::String(updated_at.to_owned())));
    top.push(("reading".to_owned(), TomlValue::Table(reading)));
    top.push(("bookmarks".to_owned(), TomlValue::Array(entries)));
    let d = TomlValue::Table(top);
    proof {
        reveal_strlit("schema_version");
        reveal_strlit("updated_at");
        reveal_strlit("reading");
        reveal_strlit("bookmarks");
        reveal_strlit("page");
        reveal_strlit("scroll_frac");
        reveal_strlit("zoom");
        reveal_strlit("theme");
        reveal_strlit("fit-width");
        assert(is_session_doc(d, *session, updated_at@));
        if reads_back(*session, updated_at@) {
            lemma_session_doc_reads_back(d, *session, updated_at@);
        }
    }
    Some(d)
}

/// A session document reads back as the session it was made from.
proof fn lemma_session_doc_reads_back(d: TomlValue, s: SessionState, updated_at: Seq<char>)
    requires
        is_session_doc(d, s, updated_at),
        reads_back(s, updated_at),
        forall|k: int| 0 <= k < s.bookmarks@.len() ==> (#[trigger] s.bookmarks@[k]).page <= i64::MAX,
        s.page <= i64::MAX,
    ensures
        session_outcome(Ok(d)) == SessionOutcome::Loaded(
            s.page,
            s.scroll_frac,
            s.zoom,
            s.theme@,
            bookmark_pairs(s.bookmarks@),
        ),
{
    reveal_strlit("schema_version");
    reveal_strlit("updated_at");
    reveal_strlit("reading");
    reveal_strlit("bookmarks");
    reveal_strlit("page");
    reveal_strlit("scroll_frac");
    reveal_strlit("zoom");
    reveal_strlit("theme");
    assert("schema_version"@[0] != "updated_at"@[0]);
    assert("schema_version"@[0] != "reading"@[0]);
    assert("schema_version"@[0] != "bookmarks"@[0]);
    assert("updated_at"@[0] != "reading"@[0]);
    assert("updated_at"@[0] != "bookmarks"@[0]);
    assert("reading"@[0] != "bookmarks"@[0]);
    assert("page"@[0] != "scroll_frac"@[0]);
    assert("page"@[0] != "zoom"@[0]);
    assert("page"@[0] != "theme"@[0]);
    assert("scroll_frac"@[0] != "zoom"@[0]);
    assert("scroll_frac"@[0] != "theme"@[0]);
    assert("zoom"@[0] != "theme"@[0]);
    let r = d->Table_0@[2].1;
    lemma_get_at(d, "schema_version"@, 0);
    lemma_get_at(d, "updated_at"@, 1);
    lemma_get_at(d, "reading"@, 2);
    lemma_get_at(d, "bookmarks"@, 3);
    lemma_get_at(r, "page"@, 0);
    lemma_get_at(r, "scroll_frac"@, 1);
    lemma_get_at(r, "zoom"@, 2);
    lemma_get_at(r, "theme"@, 3);
    let entries = d->Table_0@[3].1->Array_0@;
    lemma_entries_read_back(entries, s.bookmarks@, entries.len() as int);
    assert(bookmark_pairs(s.bookmarks@).take(entries.len() as int) =~= bookmark_pairs(s.bookmarks@));
}

/// Filtering twice by the same test filters nothing more.
proof fn lemma_keep_where_twice(s: Seq<Bookmark>, keep: spec_fn(Bookmark) -> bool)
    ensures
        keep_where(keep_where(s, keep), keep) == keep_where(s, keep),
    decreases s.len(),
{
    if s.len() > 0 {
        lemma_keep_where_twice(s.drop_last(), keep);
        let rest = keep_where(s.drop_last(), keep);
        if keep(s.last()) {
            assert(rest.push(s.last()).drop_last() =~= rest);
        }
    }
}

/// Everything a filter keeps passes its test.
proof fn lemma_keep_where_passes(s: Seq<Bookmark>, keep: spec_fn(Bookmark) -> bool)
    ensures
        forall|i: int| 0 <= i < keep_where(s, keep).len() ==> keep(#[trigger] keep_where(s, keep)[i]),
    decreases s.len(),
{
    if s.len() > 0 {
        lemma_keep_where_passes(s.drop_last(), keep);
        let rest = keep_where(s.drop_last(), keep);
        let all = keep_where(s, keep);
        assert forall|i: int| 0 <= i < all.len() implies keep(#[trigger] all[i]) by {
            if i < rest.len() {
                assert(all[i] == rest[i]);
            }
        }
    }
}

/// A session fitted to a document fits it: the page is a page of the
/// document (page 0 when it is empty), the scroll fraction is a finite
/// number in `[0.0, 1.0]` (1.0 or below, or -0.0), and every bookmark
/// points inside the document.
pub proof fn law_clamped_session_fits(v: SessionView, page_count: nat)
    ensures
        ({
            let c = clamp_view(v, page_count);
            &&& (page_count == 0 ==> c.0 == 0)
            &&& (page_count > 0 ==> c.0 < page_count)
            &&& c.1 matches ScrollFrac::Bits(b) && finite_bits(b) && (b <= ONE_BITS || b == SIGN_BIT)
            &&& forall|i: int| 0 <= i < c.4.len() ==> (#[trigger] c.4[i]).page < page_count
        }),
{
    lemma_keep_where_passes(v.4, |b: Bookmark| b.page < page_count);
}

/// Fitting a session to a document twice changes nothing the first fit
/// did not.
pub proof fn law_clamp_is_idempotent(v: SessionView, page_count: nat)
    ensures
        clamp_view(clamp_view(v, page_count), page_count) == clamp_view(v, page_count),
{
    lemma_keep_where_twice(v.4, |b: Bookmark| b.page < page_count);
}

} // verus!
