//! Versioned sidecar (`{pdf}.candi.toml`): schema v1 stores the reading
//! position, schema v2 the full reading session (zoom, theme, bookmarks).
//!
//! This module holds what the sidecar logic decides: the path next to the
//! PDF, the validation of a parsed document into a [`Load`] outcome, the
//! field readers shared by both schemas, the timestamp format, and the
//! bookmark list rules. Reading and writing the file, and the TOML text
//! itself, are the caller's.

use vstd::prelude::*;

use crate::strings::{concat, push_char, push_padded_decimal, push_signed_decimal, str_equals};
use crate::strings::{padded_decimal, signed_decimal};

verus! {

/// Highest schema version understood by [`parse_sidecar`] (v1 reading position).
pub const POSITION_SCHEMA: u32 = 1;

/// Schema version of a full reading session.
pub const SESSION_SCHEMA: u32 = 2;

/// Theme applied to fresh sessions and v1 migrations.
pub const DEFAULT_THEME: &'static str = "Light";

/// Lowest supported zoom percent.
pub const MIN_ZOOM_PERCENT: u16 = 25;

/// Highest supported zoom percent.
pub const MAX_ZOOM_PERCENT: u16 = 800;

#[verifier::external_type_specification]
#[verifier::external_body]
pub struct ExIoError(std::io::Error);

/// Persisted reading position (schema v1). Page indices are 0-based.
#[derive(Clone, Debug, PartialEq, Eq)]
pub struct Position {
    page: usize,
    scroll: usize,
    updated_at: String,
}

impl Position {
    pub closed spec fn page_spec(&self) -> nat {
        self.page as nat
    }

    pub closed spec fn scroll_spec(&self) -> nat {
        self.scroll as nat
    }

    pub closed spec fn updated_at_spec(&self) -> Seq<char> {
        self.updated_at@
    }

    pub fn new(page: usize, scroll: usize, updated_at: &str) -> (p: Self)
        ensures
            p.page_spec() == page,
            p.scroll_spec() == scroll,
            p.updated_at_spec() == updated_at@,
    {
        Position { page, scroll, updated_at: updated_at.to_owned() }
    }

    pub fn page(&self) -> (p: usize)
        ensures
            p == self.page_spec(),
    {
        self.page
    }

    pub fn scroll(&self) -> (s: usize)
        ensures
            s == self.scroll_spec(),
    {
        self.scroll
    }

    pub fn updated_at(&self) -> (t: &str)
        ensures
            t@ == self.updated_at_spec(),
    {
        self.updated_at.as_str()
    }
}

/// Zoom preference persisted with a v2 session.
#[derive(Copy, Clone, Debug, PartialEq, Eq, Structural)]
pub enum ZoomMode {
    FitWidth,
    Percent(u16),
}

/// A user bookmark pointing at a 0-based page.
#[derive(Clone, Debug, PartialEq, Eq)]
pub struct Bookmark {
    pub page: usize,
    pub created_at: String,
}

/// Outcome of reading a v1 sidecar: missing, valid data, or recoverable
/// corruption.
#[derive(Debug)]
pub enum Load {
    Missing,
    Loaded(Position),
    Corrupt(String),
}

/// Hard failures from sidecar I/O or unsupported future schema versions.
#[derive(Debug)]
pub enum Error {
    Io(std::io::Error),
    /// The sidecar declares a schema version above what this reader
    /// understands; `found` is the version as written.
    UnsupportedSchema { found: i64 },
}

/// The text std's `io::Error` displays: the OS error description, which
/// depends on the platform and its locale, so nothing is stated of it.
#[verifier::external_body]
fn io_error_text(e: &std::io::Error) -> String {
    e.to_string()
}

impl Error {
    /// Human-readable message: the I/O error's own text, or which schema
    /// version is unsupported.
    pub fn to_string(&self) -> (text: String)
        ensures
            match self {
                Error::Io(_) => true,
                Error::UnsupportedSchema { found } => text@ == "unsupported sidecar schema version "@
                    + signed_decimal(*found as int),
            },
    {
        match self {
            Error::Io(e) => io_error_text(e),
            Error::UnsupportedSchema { found } => {
                let mut text = "unsupported sidecar schema version ".to_owned();
                push_signed_decimal(&mut text, *found);
                text
            },
        }
    }
}

/// Sidecar path for a PDF: `{pdf}.candi.toml` in the same directory.
pub fn sidecar_path(pdf: &str) -> (path: String)
    ensures
        path@ == pdf@ + ".candi.toml"@,
{
    concat(pdf, ".candi.toml")
}

/// A parsed TOML document, as far as the sidecar logic reads it. Floats are
/// carried as their IEEE-754 bit patterns.
#[derive(Debug)]
pub enum TomlValue {
    String(String),
    Integer(i64),
    Float(u64),
    Boolean(bool),
    Datetime(String),
    Array(Vec<TomlValue>),
    Table(Vec<(String, TomlValue)>),
}

/// The value under `key` in a table (the first entry with that key); `None`
/// for other kinds of values.
pub open spec fn toml_get(v: TomlValue, key: Seq<char>) -> Option<TomlValue> {
    match v {
        TomlValue::Table(entries) => {
            if exists|i: int| 0 <= i < entries@.len() && entries@[i].0@ == key {
                let i = choose|i: int|
                    0 <= i < entries@.len() && entries@[i].0@ == key && forall|j: int|
                        0 <= j < i ==> entries@[j].0@ != key;
                Some(entries@[i].1)
            } else {
                None
            }
        },
        _ => None,
    }
}

/// Look up `key` in a table value.
pub fn get<'a>(v: &'a TomlValue, key: &str) -> (r: Option<&'a TomlValue>)
    ensures
        match r {
            Some(x) => toml_get(*v, key@) == Some(*x),
            None => toml_get(*v, key@) is None,
        },
{
    match v {
        TomlValue::Table(entries) => {
            let mut i: usize = 0;
            while i < entries.len()
                invariant
                    i <= entries@.len(),
                    *v is Table,
                    v->Table_0 == *entries,
                    forall|j: int| 0 <= j < i ==> entries@[j].0@ != key@,
                decreases entries@.len() - i,
            {
                if str_equals(entries[i].0.as_str(), key) {
                    proof {
                        assert(0 <= i < entries@.len() && entries@[i as int].0@ == key@
                            && forall|j: int| 0 <= j < i ==> entries@[j].0@ != key@);
                        let k = choose|k: int|
                            0 <= k < entries@.len() && entries@[k].0@ == key@ && forall|j: int|
                                0 <= j < k ==> entries@[j].0@ != key@;
                        if k < i {
                            assert(entries@[k].0@ != key@);
                        }
                        if k > i {
                            assert(entries@[i as int].0@ != key@);
                        }
                        assert(k == i);
                        assert(toml_get(*v, key@) == Some(entries@[k].1));
                    }
                    return Some(&entries[i].1);
                }
                i = i + 1;
            }
            None
        },
        _ => None,
    }
}

/// Parse failure: recoverable corruption (with its message) or a hard error.
pub enum Failure {
    Corrupt(String),
    Hard(Error),
}

/// What the `schema_version` key says, against the highest supported `max`.
pub enum SchemaCheck {
    Version(u32),
    Corrupt(Seq<char>),
    Unsupported(i64),
}

/// `schema_version` must be a non-negative integer no above `max`.
pub open spec fn schema_check(value: TomlValue, max: u32) -> SchemaCheck {
    match toml_get(value, "schema_version"@) {
        Some(TomlValue::Integer(v)) => if v >= 0 {
            if v > max {
                SchemaCheck::Unsupported(v)
            } else {
                SchemaCheck::Version(v as u32)
            }
        } else {
            SchemaCheck::Corrupt("negative schema_version"@)
        },
        Some(_) => SchemaCheck::Corrupt("invalid schema_version type"@),
        None => SchemaCheck::Corrupt("missing schema_version"@),
    }
}

/// Validate and return `schema_version`, rejecting anything above `max`.
pub fn schema_version_of(value: &TomlValue, max: u32) -> (r: Result<u32, Failure>)
    ensures
        match schema_check(*value, max) {
            SchemaCheck::Version(v) => r == Ok::<u32, Failure>(v),
            SchemaCheck::Corrupt(m) => r matches Err(Failure::Corrupt(t)) && t@ == m,
            SchemaCheck::Unsupported(found) => r matches Err(
                Failure::Hard(Error::UnsupportedSchema { found: f }),
            ) && f == found,
        },
{
    match get(value, "schema_version") {
        Some(TomlValue::Integer(version)) => {
            if *version >= 0 {
                if *version > max as i64 {
                    return Err(Failure::Hard(Error::UnsupportedSchema { found: *version }));
                }
                Ok(*version as u32)
            } else {
                Err(Failure::Corrupt("negative schema_version".to_owned()))
            }
        },
        Some(_) => Err(Failure::Corrupt("invalid schema_version type".to_owned())),
        None => Err(Failure::Corrupt("missing schema_version".to_owned())),
    }
}

/// A non-negative integer field, or the message naming what is wrong with it.
pub open spec fn uint_spec(field: Option<TomlValue>, name: Seq<char>) -> Result<
    usize,
    Seq<char>,
> {
    match field {
        Some(TomlValue::Integer(v)) => if v >= 0 {
            Ok(v as usize)
        } else {
            Err("negative "@ + name)
        },
        Some(_) => Err("invalid "@ + name + " type"@),
        None => Err("missing "@ + name),
    }
}

/// A non-empty string field, or the message naming what is wrong with it.
pub open spec fn text_spec(field: Option<TomlValue>, name: Seq<char>) -> Result<
    Seq<char>,
    Seq<char>,
> {
    match field {
        Some(TomlValue::String(t)) => if t@.len() > 0 {
            Ok(t@)
        } else {
            Err("empty "@ + name)
        },
        Some(_) => Err("invalid "@ + name + " type"@),
        None => Err("missing "@ + name),
    }
}

fn type_message(name: &str) -> (m: String)
    ensures
        m@ == "invalid "@ + name@ + " type"@,
{
    let head = concat("invalid ", name);
    concat(head.as_str(), " type")
}

/// Read a non-negative integer field.
pub fn uint_field(field: Option<&TomlValue>, name: &str) -> (r: Result<usize, String>)
    ensures
        match (r, uint_spec(
            match field {
                Some(f) => Some(*f),
                None => None,
            },
            name@,
        )) {
            (Ok(a), Ok(b)) => a == b,
            (Err(a), Err(b)) => a@ == b,
            _ => false,
        },
{
    match field {
        Some(TomlValue::Integer(value)) => {
            if *value >= 0 {
                Ok(*value as usize)
            } else {
                Err(concat("negative ", name))
            }
        },
        Some(_) => Err(type_message(name)),
        None => Err(concat("missing ", name)),
    }
}

/// Read a non-empty string field.
pub fn text_field(field: Option<&TomlValue>, name: &str) -> (r: Result<String, String>)
    ensures
        match (r, text_spec(
            match field {
                Some(f) => Some(*f),
                None => None,
            },
            name@,
        )) {
            (Ok(a), Ok(b)) => a@ == b,
            (Err(a), Err(b)) => a@ == b,
            _ => false,
        },
{
    match field {
        Some(TomlValue::String(text)) => {
            if text.unicode_len() > 0 {
                Ok(text.clone())
            } else {
                Err(concat("empty ", name))
            }
        },
        Some(_) => Err(type_message(name)),
        None => Err(concat("missing ", name)),
    }
}

/// The `[reading]` table of a v1 sidecar: page, scroll, and the update
/// timestamp, or the message of the first field that is wrong.
pub open spec fn reading_spec(value: TomlValue) -> Result<(usize, usize, Seq<char>), Seq<char>> {
    match toml_get(value, "reading"@) {
        None => Err("missing [reading]"@),
        Some(reading) => match uint_spec(toml_get(reading, "page"@), "page"@) {
            Err(m) => Err(m),
            Ok(page) => match uint_spec(toml_get(reading, "scroll"@), "scroll"@) {
                Err(m) => Err(m),
                Ok(scroll) => match text_spec(toml_get(reading, "updated_at"@), "updated_at"@) {
                    Err(m) => Err(m),
                    Ok(t) => Ok((page, scroll, t)),
                },
            },
        },
    }
}

fn opt_ref_get<'a>(v: &'a TomlValue, key: &str) -> (r: Option<&'a TomlValue>)
    ensures
        match r {
            Some(x) => toml_get(*v, key@) == Some(*x),
            None => toml_get(*v, key@) is None,
        },
{
    get(v, key)
}

/// Extract the v1 `[reading]` position; unknown keys are ignored.
pub fn reading_position(value: &TomlValue) -> (r: Result<Position, String>)
    ensures
        match (r, reading_spec(*value)) {
            (Ok(p), Ok((page, scroll, t))) => p.page_spec() == page && p.scroll_spec() == scroll
                && p.updated_at_spec() == t,
            (Err(a), Err(b)) => a@ == b,
            _ => false,
        },
{
    let reading = match get(value, "reading") {
        Some(reading) => reading,
        None => return Err("missing [reading]".to_owned()),
    };
    let page = match uint_field(opt_ref_get(reading, "page"), "page") {
        Ok(page) => page,
        Err(m) => return Err(m),
    };
    let scroll = match uint_field(opt_ref_get(reading, "scroll"), "scroll") {
        Ok(scroll) => scroll,
        Err(m) => return Err(m),
    };
    let updated_at = match text_field(opt_ref_get(reading, "updated_at"), "updated_at") {
        Ok(t) => t,
        Err(m) => return Err(m),
    };
    Ok(Position { page, scroll, updated_at })
}

/// What a v1 sidecar document amounts to.
pub enum SidecarOutcome {
    Loaded(usize, usize, Seq<char>),
    Corrupt(Seq<char>),
    Unsupported(i64),
}

/// A TOML parse failure is corruption; then the schema version must be 1;
/// then the `[reading]` position must be complete.
pub open spec fn sidecar_outcome(document: Result<TomlValue, Seq<char>>) -> SidecarOutcome {
    match document {
        Err(m) => SidecarOutcome::Corrupt(m),
        Ok(value) => match schema_check(value, POSITION_SCHEMA) {
            SchemaCheck::Corrupt(m) => SidecarOutcome::Corrupt(m),
            SchemaCheck::Unsupported(found) => SidecarOutcome::Unsupported(found),
            SchemaCheck::Version(v) => if v == 0 {
                SidecarOutcome::Corrupt("unsupported schema_version 0"@)
            } else {
                match reading_spec(value) {
                    Ok((page, scroll, t)) => SidecarOutcome::Loaded(page, scroll, t),
                    Err(m) => SidecarOutcome::Corrupt(m),
                }
            },
        },
    }
}

/// Classify a parsed v1 sidecar (or the parser's error message) into the
/// outcome of loading it.
pub fn sidecar_from_document(document: Result<TomlValue, String>) -> (r: Result<Load, Error>)
    ensures
        match sidecar_outcome(
            match document {
                Ok(v) => Ok(v),
                Err(m) => Err(m@),
            },
        ) {
            SidecarOutcome::Loaded(page, scroll, t) => r matches Ok(Load::Loaded(p))
                && p.page_spec() == page && p.scroll_spec() == scroll && p.updated_at_spec()
                == t,
            SidecarOutcome::Corrupt(m) => r matches Ok(Load::Corrupt(t)) && t@ == m,
            SidecarOutcome::Unsupported(found) => r matches Err(
                Error::UnsupportedSchema { found: f },
            ) && f == found,
        },
{
    let value = match document {
        Ok(value) => value,
        Err(message) => return Ok(Load::Corrupt(message)),
    };
    let schema_version = match schema_version_of(&value, POSITION_SCHEMA) {
        Ok(v) => v,
        Err(Failure::Corrupt(message)) => return Ok(Load::Corrupt(message)),
        Err(Failure::Hard(err)) => return Err(err),
    };
    if schema_version == 0 {
        return Ok(Load::Corrupt("unsupported schema_version 0".to_owned()));
    }
    match reading_position(&value) {
        Ok(position) => Ok(Load::Loaded(position)),
        Err(message) => Ok(Load::Corrupt(message)),
    }
}


#[verifier::external_type_specification]
#[verifier::external_body]
pub struct ExTomlValue(toml::Value);

/// What parsing `text` as a TOML document gives: the document, or the
/// parser's message.
pub uninterp spec fn toml_parse(text: Seq<char>) -> Result<TomlValue, Seq<char>>;

/// Moves a `toml::Value` into [`TomlValue`], one variant for one; floats
/// keep their bit patterns and datetimes the text they print as.
#[verifier::external_body]
fn from_toml(v: toml::Value) -> TomlValue {
    match v {
        toml::Value::String(s) => TomlValue::String(s),
        toml::Value::Integer(i) => TomlValue::Integer(i),
        toml::Value::Float(x) => TomlValue::Float(x.to_bits()),
        toml::Value::Boolean(b) => TomlValue::Boolean(b),
        toml::Value::Datetime(d) => TomlValue::Datetime(d.to_string()),
        toml::Value::Array(items) => TomlValue::Array(items.into_iter().map(from_toml).collect()),
        toml::Value::Table(t) => TomlValue::Table(t.into_iter().map(|(k, v)| (k, from_toml(v))).collect()),
    }
}

/// `toml::from_str` into a `toml::Value`: the document `contents` holds, or
/// the parser's error message. The result depends on the text alone; the
/// TOML grammar itself is not restated here. The message is the error's
/// `Display` text, which always ends its message line with a newline, so it
/// is never empty.
#[verifier::external_body]
pub(crate) fn parse_toml(contents: &str) -> (r: Result<TomlValue, String>)
    ensures
        match r {
            Ok(v) => toml_parse(contents@) == Ok::<TomlValue, Seq<char>>(v),
            Err(e) => toml_parse(contents@) == Err::<TomlValue, Seq<char>>(e@),
        },
        r matches Err(e) ==> e@.len() > 0,
{
    toml::from_str::<toml::Value>(contents).map(from_toml).map_err(|e| e.to_string())
}

/// Read a v1 sidecar's text into the outcome of loading it: see
/// [`sidecar_from_document`].
pub fn parse_sidecar(contents: &str) -> (r: Result<Load, Error>)
    ensures
        match sidecar_outcome(toml_parse(contents@)) {
            SidecarOutcome::Loaded(page, scroll, t) => r matches Ok(Load::Loaded(p))
                && p.page_spec() == page && p.scroll_spec() == scroll && p.updated_at_spec()
                == t,
            SidecarOutcome::Corrupt(m) => r matches Ok(Load::Corrupt(t)) && t@ == m,
            SidecarOutcome::Unsupported(found) => r matches Err(
                Error::UnsupportedSchema { found: f },
            ) && f == found,
        },
        toml_parse(contents@) is Err ==> (r matches Ok(Load::Corrupt(t)) && t@.len() > 0),
{
    sidecar_from_document(parse_toml(contents))
}

/// The value under the `i`-th key of a table is what looking the key up
/// finds, when no earlier key is the same.
pub proof fn lemma_get_at(v: TomlValue, key: Seq<char>, i: int)
    requires
        v is Table,
        0 <= i < v->Table_0@.len(),
        v->Table_0@[i].0@ == key,
        forall|j: int| 0 <= j < i ==> v->Table_0@[j].0@ != key,
    ensures
        toml_get(v, key) == Some(v->Table_0@[i].1),
{
    let e = v->Table_0@;
    let c = choose|c: int| 0 <= c < e.len() && e[c].0@ == key && forall|j: int| 0 <= j < c ==> e[j].0@ != key;
    assert(0 <= i < e.len() && e[i].0@ == key && forall|j: int| 0 <= j < i ==> e[j].0@ != key);
    if c < i {
        assert(e[c].0@ != key);
    } else if c > i {
        assert(e[i].0@ != key);
    }
}

/// A sidecar document: a table with these keys and values, in this order.
pub open spec fn table_is(v: TomlValue, keys: Seq<Seq<char>>) -> bool {
    v is Table && v->Table_0@.len() == keys.len() && forall|i: int|
        0 <= i < keys.len() ==> (#[trigger] v->Table_0@[i]).0@ == keys[i]
}

/// The v1 sidecar document of a reading position: `schema_version = 1` and
/// a `[reading]` table with page, scroll and the update timestamp.
pub open spec fn is_position_doc(d: TomlValue, page: int, scroll: int, t: Seq<char>) -> bool {
    &&& table_is(d, seq!["schema_version"@, "reading"@])
    &&& d->Table_0@[0].1 == TomlValue::Integer(1)
    &&& table_is(d->Table_0@[1].1, seq!["page"@, "scroll"@, "updated_at"@])
    &&& d->Table_0@[1].1->Table_0@[0].1 == TomlValue::Integer(page as i64)
    &&& d->Table_0@[1].1->Table_0@[1].1 == TomlValue::Integer(scroll as i64)
    &&& d->Table_0@[1].1->Table_0@[2].1 matches TomlValue::String(s) && s@ == t
}

/// The sidecar document that saves `position`, when its numbers fit TOML's
/// signed 64-bit integers. Reading the document back gives the position,
/// whenever its timestamp is not empty (saving stamps the current time).
pub fn position_document(position: &Position) -> (doc: Option<TomlValue>)
    ensures
        (position.page_spec() <= i64::MAX && position.scroll_spec() <= i64::MAX) <==> doc is Some,
        doc matches Some(d) ==> is_position_doc(
            d,
            position.page_spec() as int,
            position.scroll_spec() as int,
            position.updated_at_spec(),
        ),
        doc matches Some(d) ==> (position.updated_at_spec().len() > 0 ==> sidecar_outcome(Ok(d))
            == SidecarOutcome::Loaded(
            position.page_spec() as usize,
            position.scroll_spec() as usize,
            position.updated_at_spec(),
        )),
{
    if position.page as u64 > 0x7fff_ffff_ffff_ffff || position.scroll as u64 > 0x7fff_ffff_ffff_ffff {
        return None;
    }
    let mut reading: Vec<(String, TomlValue)> = Vec::new();
    reading.push(("page".to_owned(), TomlValue::Integer(position.page as i64)));
    reading.push(("scroll".to_owned(), TomlValue::Integer(position.scroll as i64)));
    reading.push(("updated_at".to_owned(), TomlValue::String(position.updated_at.clone())));
    let mut top: Vec<(String, TomlValue)> = Vec::new();
    top.push(("schema_version".to_owned(), TomlValue::Integer(1)));
    top.push(("reading".to_owned(), TomlValue::Table(reading)));
    let d = TomlValue::Table(top);
    proof {
        reveal_strlit("schema_version");
        reveal_strlit("reading");
        reveal_strlit("page");
        reveal_strlit("scroll");
        reveal_strlit("updated_at");
        assert("schema_version"@[0] != "reading"@[0]);
        assert("page"@[0] != "scroll"@[0]);
        assert("page"@[0] != "updated_at"@[0]);
        assert("scroll"@[0] != "updated_at"@[0]);
        let r = d->Table_0@[1].1;
        assert(is_position_doc(d, position.page_spec() as int, position.scroll_spec() as int, position.updated_at_spec()));
        lemma_get_at(d, "schema_version"@, 0);
        lemma_get_at(d, "reading"@, 1);
        lemma_get_at(r, "page"@, 0);
        lemma_get_at(r, "scroll"@, 1);
        lemma_get_at(r, "updated_at"@, 2);
    }
    Some(d)
}

/// What a `zoom` field holds: `"fit-width"`, or a non-negative percent
/// clamped into the supported range.
pub open spec fn zoom_spec(field: Option<TomlValue>) -> Result<ZoomMode, Seq<char>> {
    match field {
        Some(TomlValue::String(mode)) => if mode@ == "fit-width"@ {
            Ok(ZoomMode::FitWidth)
        } else {
            Err("unknown zoom mode"@)
        },
        Some(TomlValue::Integer(percent)) => if percent >= 0 {
            Ok(
                ZoomMode::Percent(
                    if percent < MIN_ZOOM_PERCENT {
                        MIN_ZOOM_PERCENT
                    } else if percent > MAX_ZOOM_PERCENT {
                        MAX_ZOOM_PERCENT
                    } else {
                        percent as u16
                    },
                ),
            )
        } else {
            Err("negative zoom"@)
        },
        Some(_) => Err("invalid zoom type"@),
        None => Err("missing zoom"@),
    }
}

/// Read a `zoom` field; absurd percents clamp into the supported range.
pub fn zoom_field(field: Option<&TomlValue>) -> (r: Result<ZoomMode, String>)
    ensures
        match (r, zoom_spec(
            match field {
                Some(f) => Some(*f),
                None => None,
            },
        )) {
            (Ok(a), Ok(b)) => a == b,
            (Err(a), Err(b)) => a@ == b,
            _ => false,
        },
{
    match field {
        Some(TomlValue::String(mode)) => {
            if str_equals(mode.as_str(), "fit-width") {
                Ok(ZoomMode::FitWidth)
            } else {
                Err("unknown zoom mode".to_owned())
            }
        },
        Some(TomlValue::Integer(percent)) => {
            if *percent >= 0 {
                let clamped = if *percent < MIN_ZOOM_PERCENT as i64 {
                    MIN_ZOOM_PERCENT
                } else if *percent > MAX_ZOOM_PERCENT as i64 {
                    MAX_ZOOM_PERCENT
                } else {
                    *percent as u16
                };
                Ok(ZoomMode::Percent(clamped))
            } else {
                Err("negative zoom".to_owned())
            }
        },
        Some(_) => Err("invalid zoom type".to_owned()),
        None => Err("missing zoom".to_owned()),
    }
}

/// A bookmark entry: its page and creation timestamp, or the first field's
/// message.
#[verifier::opaque]
pub open spec fn bookmark_spec(value: TomlValue) -> Result<(usize, Seq<char>), Seq<char>> {
    match uint_spec(toml_get(value, "page"@), "bookmark page"@) {
        Err(m) => Err(m),
        Ok(page) => match text_spec(toml_get(value, "created_at"@), "bookmark created_at"@) {
            Err(m) => Err(m),
            Ok(t) => Ok((page, t)),
        },
    }
}

/// Read one `[[bookmarks]]` entry.
pub fn bookmark(value: &TomlValue) -> (r: Result<Bookmark, String>)
    ensures
        match (r, bookmark_spec(*value)) {
            (Ok(b), Ok((page, t))) => b.page == page && b.created_at@ == t,
            (Err(a), Err(b)) => a@ == b,
            _ => false,
        },
{
    reveal(bookmark_spec);
    let page = match uint_field(get(value, "page"), "bookmark page") {
        Ok(page) => page,
        Err(m) => return Err(m),
    };
    let created_at = match text_field(get(value, "created_at"), "bookmark created_at") {
        Ok(t) => t,
        Err(m) => return Err(m),
    };
    Ok(Bookmark { page, created_at })
}

/// The bookmarks of a session: every entry of the `bookmarks` array in
/// order (the first bad entry's message otherwise); none when the key is
/// absent.
pub open spec fn bookmarks_spec(field: Option<TomlValue>) -> Result<Seq<(usize, Seq<char>)>, Seq<char>> {
    match field {
        None => Ok(seq![]),
        Some(TomlValue::Array(entries)) => bookmark_entries_spec(entries@, entries@.len() as int),
        Some(_) => Err("invalid bookmarks type"@),
    }
}

/// The first `n` bookmark entries, or the message of the first bad one.
pub open spec fn bookmark_entries_spec(entries: Seq<TomlValue>, n: int) -> Result<Seq<(usize, Seq<char>)>, Seq<char>>
    decreases n,
{
    if n <= 0 {
        Ok(seq![])
    } else {
        match bookmark_entries_spec(entries, n - 1) {
            Err(m) => Err(m),
            Ok(prefix) => match bookmark_spec(entries[n - 1]) {
                Err(m) => Err(m),
                Ok(b) => Ok(prefix.push(b)),
            },
        }
    }
}

/// Each bookmark carries the page and timestamp at the same position.
pub open spec fn bookmarks_match(out: Seq<Bookmark>, b: Seq<(usize, Seq<char>)>) -> bool {
    out.len() == b.len() && forall|i: int|
        0 <= i < b.len() ==> out[i].page == b[i].0 && out[i].created_at@ == b[i].1
}

proof fn lemma_bookmark_entries_error(entries: Seq<TomlValue>, m: int, n: int)
    requires
        m <= n,
        bookmark_entries_spec(entries, m) is Err,
    ensures
        bookmark_entries_spec(entries, n) == bookmark_entries_spec(entries, m),
    decreases n - m,
{
    if m < n {
        lemma_bookmark_entries_error(entries, m, n - 1);
    }
}

/// Read the `bookmarks` array of a session.
pub fn bookmarks_field(field: Option<&TomlValue>) -> (r: Result<Vec<Bookmark>, String>)
    ensures
        match (r, bookmarks_spec(
            match field {
                Some(f) => Some(*f),
                None => None,
            },
        )) {
            (Ok(a), Ok(b)) => bookmarks_match(a@, b),
            (Err(a), Err(b)) => a@ == b,
            _ => false,
        },
{
    match field {
        None => Ok(Vec::new()),
        Some(TomlValue::Array(entries)) => {
            let mut out: Vec<Bookmark> = Vec::new();
            let mut i: usize = 0;
            while i < entries.len()
                invariant
                    i <= entries@.len(),
                    field matches Some(f) && *f is Array && f->Array_0 == *entries,
                    bookmark_entries_spec(entries@, i as int) is Ok,
                    bookmarks_match(out@, bookmark_entries_spec(entries@, i as int)->Ok_0),
                decreases entries@.len() - i,
            {
                let ghost prefix = bookmark_entries_spec(entries@, i as int)->Ok_0;
                match bookmark(&entries[i]) {
                    Ok(b) => {
                        let ghost pb = bookmark_spec(entries@[i as int])->Ok_0;
                        assert(bookmark_entries_spec(entries@, i + 1) == Ok::<
                            Seq<(usize, Seq<char>)>,
                            Seq<char>,
                        >(prefix.push(pb)));
                        out.push(b);
                        assert(bookmarks_match(out@, prefix.push(pb)));
                    },
                    Err(m) => {
                        proof {
                            assert(bookmark_entries_spec(entries@, i + 1) == Err::<
                                Seq<(usize, Seq<char>)>,
                                Seq<char>,
                            >(m@));
                            lemma_bookmark_entries_error(
                                entries@,
                                i as int + 1,
                                entries@.len() as int,
                            );
                        }
                        return Err(m);
                    },
                }
                i = i + 1;
            }
            return Ok(out);
        },
        Some(_) => Err("invalid bookmarks type".to_owned()),
    }
}


/// Civil (proleptic Gregorian) date `(year, month, day)` of the day `days`
/// after 1970-01-01 (before it, for negative `days`): the days-to-civil
/// conversion over 400-year eras of 146097 days, with years starting in
/// March.
pub open spec fn civil_from_days(days: int) -> (int, int, int) {
    let z = days + 719468;
    let era = z / 146097;
    let doe = z - era * 146097;
    let yoe = (doe - doe / 1460 + doe / 36524 - doe / 146096) / 365;
    let y = yoe + era * 400;
    let doy = doe - (365 * yoe + yoe / 4 - yoe / 100);
    let mp = (5 * doy + 2) / 153;
    let d = doy - (153 * mp + 2) / 5 + 1;
    let m = if mp < 10 {
        mp + 3
    } else {
        mp - 9
    };
    (
        if mp < 10 {
            y
        } else {
            y + 1
        },
        m,
        d,
    )
}

/// `z / 146097`, rounded toward negative infinity.
fn floor_era(z: i128) -> (era: i128)
    requires
        -0x1_0000_0000_0000_0000 <= z <= 0x1_0000_0000_0000_0000,
    ensures
        era == z / 146097,
{
    if z >= 0 {
        ((z as u128) / 146_097) as i128
    } else {
        let m = (-z) as u128;
        let t = ((m + 146_096) / 146_097) as i128;
        proof {
            let q = z / 146097;
            assert(q * 146097 <= z < q * 146097 + 146097);
            assert(t * 146097 <= m + 146096 < t * 146097 + 146097);
            assert(-t == q) by (nonlinear_arith)
                requires
                    q * 146097 <= z < q * 146097 + 146097,
                    t * 146097 <= -z + 146096 < t * 146097 + 146097,
            ;
        }
        -t
    }
}

/// The civil date `(year, month, day)` of the day `days` after 1970-01-01.
pub fn unix_days_to_ymd(days: i64) -> (ymd: (i64, u64, u64))
    ensures
        ymd.0 as int == civil_from_days(days as int).0,
        ymd.1 as int == civil_from_days(days as int).1,
        ymd.2 as int == civil_from_days(days as int).2,
{
    let z: i128 = days as i128 + 719_468;
    let era = floor_era(z);
    let doe_wide: i128 = z - era * 146_097;
    proof {
        assert(era * 146097 <= z < era * 146097 + 146097) by (nonlinear_arith)
            requires
                era == z / 146097,
        ;
        assert(-0x1_0000_0000_0000 <= era <= 0x1_0000_0000_0000) by (nonlinear_arith)
            requires
                era * 146097 <= z < era * 146097 + 146097,
                -0x1_0000_0000_0000_0000 <= z <= 0x1_0000_0000_0000_0000,
        ;
    }
    let doe = doe_wide as u64;
    let yoe = (doe - doe / 1_460 + doe / 36_524 - doe / 146_096) / 365;
    proof {
        assert(0 <= doe < 146_097);
        assert(doe / 1_460 <= doe);
        assert(doe / 146_096 <= 1);
        assert(yoe <= 400);
    }
    let year: i64 = (yoe as i128 + era * 400) as i64;
    let base = 365 * yoe + yoe / 4 - yoe / 100;
    proof {
        lemma_day_of_era(doe as int);
    }
    let doy = doe - base;
    let mp = (5 * doy + 2) / 153;
    proof {
        assert(doy <= 365);
        assert(mp <= 11);
        lemma_month_start(doy as int, mp as int);
    }
    let day = doy - (153 * mp + 2) / 5 + 1;
    let month = if mp < 10 {
        mp + 3
    } else {
        mp - 9
    };
    let year = if mp < 10 {
        year
    } else {
        year + 1
    };
    (year, month, day)
}

/// Days on or after 1970-01-01 fall in non-negative years.
proof fn lemma_civil_year_nonnegative(days: int)
    requires
        days >= 0,
    ensures
        civil_from_days(days).0 >= 0,
{
    let z = days + 719468;
    let era = z / 146097;
    let doe = z - era * 146097;
    assert(era >= 0);
    assert(0 <= doe < 146097);
    assert(doe / 1460 <= doe);
    assert(doe / 146096 <= 1);
}

/// Within one era, the day-of-year computed from the year-of-era is a day
/// of that (March-based) year.
proof fn lemma_day_of_era(doe: int)
    requires
        0 <= doe < 146_097,
    ensures
        ({
            let yoe = (doe - doe / 1460 + doe / 36524 - doe / 146096) / 365;
            0 <= doe - (365 * yoe + yoe / 4 - yoe / 100) <= 365
        }),
{
    let yoe = (doe - doe / 1460 + doe / 36524 - doe / 146096) / 365;
    let a = doe / 1460;
    let b = doe / 36524;
    let c = doe / 146096;
    assert(1460 * a <= doe < 1460 * a + 1460);
    assert(36524 * b <= doe < 36524 * b + 36524);
    assert(146096 * c <= doe < 146096 * c + 146096);
    let n = doe - a + b - c;
    assert(365 * yoe <= n < 365 * yoe + 365);
    let q = yoe / 4;
    let h = yoe / 100;
    assert(4 * q <= yoe < 4 * q + 4);
    assert(100 * h <= yoe < 100 * h + 100);
    assert(0 <= doe - (365 * yoe + q - h) <= 365) by (nonlinear_arith)
        requires
            1460 * a <= doe < 1460 * a + 1460,
            36524 * b <= doe < 36524 * b + 36524,
            146096 * c <= doe < 146096 * c + 146096,
            0 <= doe < 146_097,
            n == doe - a + b - c,
            365 * yoe <= n < 365 * yoe + 365,
            4 * q <= yoe < 4 * q + 4,
            100 * h <= yoe < 100 * h + 100,
    ;
}

/// The March-based month index of a day of the year starts no later than
/// that day.
proof fn lemma_month_start(doy: int, mp: int)
    requires
        0 <= doy <= 365,
        mp == (5 * doy + 2) / 153,
    ensures
        0 <= mp <= 11,
        0 <= doy - (153 * mp + 2) / 5 <= 30,
{
    assert(153 * mp <= 5 * doy + 2 < 153 * mp + 153);
    let t = (153 * mp + 2) / 5;
    assert(5 * t <= 153 * mp + 2 < 5 * t + 5);
}

/// RFC 3339 UTC text of a timestamp: `YYYY-MM-DDTHH:MM:SSZ`.
pub open spec fn rfc3339_text(seconds: nat) -> Seq<char> {
    let (y, m, d) = civil_from_days(seconds as int / 86400);
    let tod = seconds % 86400;
    padded_decimal(y as nat, 4) + seq!['-'] + padded_decimal(m as nat, 2) + seq!['-']
        + padded_decimal(d as nat, 2) + seq!['T'] + padded_decimal(tod / 3600, 2) + seq![':']
        + padded_decimal((tod % 3600) / 60, 2) + seq![':'] + padded_decimal(tod % 60, 2) + seq![
        'Z',
    ]
}

/// Format a timestamp (seconds since the Unix epoch) as RFC 3339 UTC.
pub fn format_rfc3339_utc(seconds: u64) -> (text: String)
    ensures
        text@ == rfc3339_text(seconds as nat),
{
    let (year, month, day) = unix_days_to_ymd((seconds / 86_400) as i64);
    proof {
        lemma_civil_year_nonnegative((seconds / 86_400) as int);
    }
    let year = year as u64;
    let time_of_day = seconds % 86_400;
    let hour = time_of_day / 3_600;
    let minute = (time_of_day % 3_600) / 60;
    let second = time_of_day % 60;
    let mut out = String::new();
    push_padded_decimal(&mut out, year, 4);
    push_char(&mut out, '-');
    push_padded_decimal(&mut out, month, 2);
    push_char(&mut out, '-');
    push_padded_decimal(&mut out, day, 2);
    push_char(&mut out, 'T');
    push_padded_decimal(&mut out, hour, 2);
    push_char(&mut out, ':');
    push_padded_decimal(&mut out, minute, 2);
    push_char(&mut out, ':');
    push_padded_decimal(&mut out, second, 2);
    push_char(&mut out, 'Z');
    out
}


/// The bookmarks of `s` that `keep` accepts, in order.
pub open spec fn keep_where(s: Seq<Bookmark>, keep: spec_fn(Bookmark) -> bool) -> Seq<Bookmark>
    decreases s.len(),
{
    if s.len() == 0 {
        seq![]
    } else {
        let rest = keep_where(s.drop_last(), keep);
        if keep(s.last()) {
            rest.push(s.last())
        } else {
            rest
        }
    }
}

/// Some bookmark points at `page`.
pub open spec fn has_bookmark(s: Seq<Bookmark>, page: usize) -> bool {
    exists|i: int| 0 <= i < s.len() && s[i].page == page
}

/// Index of the first bookmark pointing at `page` (when there is one).
pub open spec fn first_bookmark(s: Seq<Bookmark>, page: usize) -> int {
    choose|i: int|
        0 <= i < s.len() && s[i].page == page && forall|j: int| 0 <= j < i ==> s[j].page != page
}

/// No two bookmarks point at the same page.
pub open spec fn pages_unique(s: Seq<Bookmark>) -> bool {
    forall|i: int, j: int| 0 <= i < j < s.len() ==> s[i].page != s[j].page
}

/// Keep only the bookmarks `keep` accepts, in order.
fn retain_where(
    bookmarks: &mut Vec<Bookmark>,
    page: usize,
    below: bool,
    keep: Ghost<spec_fn(Bookmark) -> bool>,
)
    requires
        forall|b: Bookmark| #[trigger]
            keep@(b) == if below {
                b.page < page
            } else {
                b.page != page
            },
    ensures
        final(bookmarks)@ == keep_where(old(bookmarks)@, keep@),
{
    let ghost orig = bookmarks@;
    let mut i: usize = 0;
    let ghost mut k: int = 0;
    while i < bookmarks.len()
        invariant
            0 <= k <= orig.len(),
            forall|b: Bookmark| #[trigger]
                keep@(b) == if below {
                    b.page < page
                } else {
                    b.page != page
                },
            i <= bookmarks@.len(),
            bookmarks@.subrange(0, i as int) == keep_where(orig.take(k), keep@),
            bookmarks@.subrange(i as int, bookmarks@.len() as int) == orig.skip(k),
        decreases bookmarks@.len() - i,
    {
        assert(orig.skip(k).len() == bookmarks@.len() - i);
        assert(k < orig.len());
        assert(orig.take(k + 1).drop_last() == orig.take(k));
        assert(bookmarks@[i as int] == orig[k]) by {
            assert(bookmarks@.subrange(i as int, bookmarks@.len() as int)[0] == bookmarks@[i as int]);
        }
        let accepted = if below {
            bookmarks[i].page < page
        } else {
            bookmarks[i].page != page
        };
        let ghost before = bookmarks@;
        if accepted {
            i = i + 1;
            assert(bookmarks@.subrange(0, i as int) == before.subrange(0, i - 1).push(before[i - 1]));
        } else {
            bookmarks.remove(i);
            assert(bookmarks@.subrange(0, i as int) == before.subrange(0, i as int));
        }
        proof {
            k = k + 1;
            assert(orig.skip(k) == orig.skip(k - 1).drop_first());
        }
        assert(bookmarks@.subrange(i as int, bookmarks@.len() as int) == orig.skip(k));
    }
    assert(orig.skip(k).len() == 0);
    assert(k == orig.len());
    assert(orig.take(k) == orig);
    assert(bookmarks@ == bookmarks@.subrange(0, i as int));
}

/// Drop any bookmark for `page`; missing bookmarks are ignored.
pub fn remove_bookmark(bookmarks: &mut Vec<Bookmark>, page: usize)
    ensures
        final(bookmarks)@ == keep_where(old(bookmarks)@, |b: Bookmark| b.page != page),
{
    retain_where(bookmarks, page, false, Ghost(|b: Bookmark| b.page != page));
}

/// Drop the bookmarks pointing past a document of `page_count` pages.
pub fn retain_bookmarks_in(bookmarks: &mut Vec<Bookmark>, page_count: usize)
    ensures
        final(bookmarks)@ == keep_where(old(bookmarks)@, |b: Bookmark| b.page < page_count),
{
    retain_where(bookmarks, page_count, true, Ghost(|b: Bookmark| b.page < page_count));
}

fn find_bookmark(bookmarks: &Vec<Bookmark>, page: usize) -> (r: Option<usize>)
    ensures
        match r {
            Some(i) => has_bookmark(bookmarks@, page) && i == first_bookmark(bookmarks@, page) && i
                < bookmarks@.len(),
            None => !has_bookmark(bookmarks@, page),
        },
{
    let mut i: usize = 0;
    while i < bookmarks.len()
        invariant
            i <= bookmarks@.len(),
            forall|j: int| 0 <= j < i ==> bookmarks@[j].page != page,
        decreases bookmarks@.len() - i,
    {
        if bookmarks[i].page == page {
            proof {
                assert(0 <= i < bookmarks@.len() && bookmarks@[i as int].page == page
                    && forall|j: int| 0 <= j < i ==> bookmarks@[j].page != page);
                let f = first_bookmark(bookmarks@, page);
                if f < i {
                    assert(bookmarks@[f].page != page);
                }
                if f > i {
                    assert(bookmarks@[i as int].page != page);
                }
            }
            return Some(i);
        }
        i = i + 1;
    }
    None
}

/// Add a bookmark for `page` stamped `created_at`; an existing bookmark for
/// the same page is kept as it is.
pub fn add_bookmark(bookmarks: &mut Vec<Bookmark>, page: usize, created_at: String)
    ensures
        if has_bookmark(old(bookmarks)@, page) {
            final(bookmarks)@ == old(bookmarks)@
        } else {
            final(bookmarks)@ == old(bookmarks)@.push(Bookmark { page, created_at })
        },
{
    if find_bookmark(bookmarks, page).is_some() {
        return;
    }
    bookmarks.push(Bookmark { page, created_at });
}

/// Remove the bookmark for `page` if there is one, else add one stamped
/// `created_at`.
pub fn toggle_bookmark(bookmarks: &mut Vec<Bookmark>, page: usize, created_at: String)
    ensures
        if has_bookmark(old(bookmarks)@, page) {
            final(bookmarks)@ == old(bookmarks)@.remove(first_bookmark(old(bookmarks)@, page))
        } else {
            final(bookmarks)@ == old(bookmarks)@.push(Bookmark { page, created_at })
        },
{
    match find_bookmark(bookmarks, page) {
        Some(index) => {
            bookmarks.remove(index);
        },
        None => {
            bookmarks.push(Bookmark { page, created_at });
        },
    }
}

/// Toggling a page without a bookmark twice leaves the bookmarks as they
/// were: the first toggle adds one at the end, the second removes it.
pub proof fn law_toggle_twice_restores(s: Seq<Bookmark>, page: usize, created_at: String)
    requires
        !has_bookmark(s, page),
    ensures
        has_bookmark(s.push(Bookmark { page, created_at }), page),
        s.push(Bookmark { page, created_at }).remove(
            first_bookmark(s.push(Bookmark { page, created_at }), page),
        ) == s,
{
    let t = s.push(Bookmark { page, created_at });
    assert(t[s.len() as int].page == page);
    let f = first_bookmark(t, page);
    assert(0 <= s.len() < t.len() && t[s.len() as int].page == page && forall|j: int|
        0 <= j < s.len() ==> t[j].page != page);
    if f < s.len() {
        assert(t[f] == s[f]);
    }
    assert(f == s.len());
    assert(t.remove(f) =~= s);
}

/// Adding or toggling keeps at most one bookmark per page.
pub proof fn law_bookmark_pages_stay_unique(s: Seq<Bookmark>, page: usize, created_at: String)
    requires
        pages_unique(s),
    ensures
        !has_bookmark(s, page) ==> pages_unique(s.push(Bookmark { page, created_at })),
        has_bookmark(s, page) ==> pages_unique(s.remove(first_bookmark(s, page))),
{
    if has_bookmark(s, page) {
        let f = first_bookmark(s, page);
        assert(0 <= f < s.len());
        let r = s.remove(f);
        assert forall|i: int, j: int| 0 <= i < j < r.len() implies r[i].page != r[j].page by {
            let a = if i < f { i } else { i + 1 };
            let b = if j < f { j } else { j + 1 };
            assert(r[i] == s[a] && r[j] == s[b]);
        }
    } else {
        let t = s.push(Bookmark { page, created_at });
        assert forall|i: int, j: int| 0 <= i < j < t.len() implies t[i].page != t[j].page by {
            if j == s.len() {
                assert(t[i] == s[i]);
            } else {
                assert(t[i] == s[i] && t[j] == s[j]);
            }
        }
    }
}

/// After removing a page's bookmarks none is left for that page, and the
/// others stay.
pub proof fn law_remove_clears_the_page(s: Seq<Bookmark>, page: usize)
    ensures
        !has_bookmark(keep_where(s, |b: Bookmark| b.page != page), page),
        forall|i: int| 0 <= i < s.len() && s[i].page != page ==> keep_where(s, |b: Bookmark| b.page != page).contains(s[i]),
    decreases s.len(),
{
    if s.len() > 0 {
        law_remove_clears_the_page(s.drop_last(), page);
        let rest = keep_where(s.drop_last(), |b: Bookmark| b.page != page);
        let all = keep_where(s, |b: Bookmark| b.page != page);
        assert forall|i: int| 0 <= i < s.len() && s[i].page != page implies all.contains(s[i]) by {
            if i < s.len() - 1 {
                assert(s.drop_last()[i] == s[i]);
                let k = choose|k: int| 0 <= k < rest.len() && rest[k] == s[i];
                if s.last().page != page {
                    assert(all[k] == s[i]);
                } else {
                    assert(all[k] == s[i]);
                }
            } else {
                assert(all[all.len() - 1] == s.last());
            }
        }
        if s.last().page != page {
            assert forall|i: int| 0 <= i < all.len() implies all[i].page != page by {
                if i < rest.len() {
                    assert(all[i] == rest[i]);
                }
            }
        }
    }
}

} // verus!
