//! JSON documents as plain values, and the calls into `serde_json` that
//! parse and print them.

use vstd::prelude::*;

use crate::chrome::{all_digits, digits_value};

verus! {

/// A JSON value. Numbers keep the text `serde_json` prints for them; an
/// object keeps its members in the order the parser hands them out.
#[derive(Debug)]
pub enum JsonValue {
    Null,
    Bool(bool),
    Number(String),
    Text(String),
    List(Vec<JsonValue>),
    Object(Vec<(String, JsonValue)>),
}

#[verifier::external_type_specification]
#[verifier::external_body]
pub struct ExSerdeJsonValue(serde_json::Value);

/// What parsing `text` as JSON gives: the document, or the parser's message.
pub uninterp spec fn json_parse(text: Seq<char>) -> Result<JsonValue, Seq<char>>;

/// The pretty-printed text of a document.
pub uninterp spec fn json_pretty(doc: JsonValue) -> Seq<char>;

/// Moves a `serde_json::Value` into [`JsonValue`], one variant for one;
/// numbers become the text their `Display` prints.
#[verifier::external_body]
fn from_serde(v: serde_json::Value) -> JsonValue {
    match v {
        serde_json::Value::Null => JsonValue::Null,
        serde_json::Value::Bool(b) => JsonValue::Bool(b),
        serde_json::Value::Number(n) => JsonValue::Number(n.to_string()),
        serde_json::Value::String(s) => JsonValue::Text(s),
        serde_json::Value::Array(items) => JsonValue::List(items.into_iter().map(from_serde).collect()),
        serde_json::Value::Object(map) => JsonValue::Object(
            map.into_iter().map(|(k, v)| (k, from_serde(v))).collect(),
        ),
    }
}

/// Copies a [`JsonValue`] into a `serde_json::Value`, one variant for one;
/// number text that `serde_json` does not read back becomes `null`.
#[verifier::external_body]
fn to_serde(v: &JsonValue) -> serde_json::Value {
    match v {
        JsonValue::Null => serde_json::Value::Null,
        JsonValue::Bool(b) => serde_json::Value::Bool(*b),
        JsonValue::Number(t) => t.parse().map(serde_json::Value::Number).unwrap_or(serde_json::Value::Null),
        JsonValue::Text(s) => serde_json::Value::String(s.clone()),
        JsonValue::List(items) => serde_json::Value::Array(items.iter().map(to_serde).collect()),
        JsonValue::Object(entries) => serde_json::Value::Object(
            entries.iter().map(|(k, v)| (k.clone(), to_serde(v))).collect(),
        ),
    }
}

/// `serde_json::from_str` into a `serde_json::Value`: the document `text`
/// holds, or the parser's error message. The result depends on the text
/// alone; the JSON grammar itself is not restated here.
#[verifier::external_body]
pub(crate) fn parse_json(text: &str) -> (r: Result<JsonValue, String>)
    ensures
        match r {
            Ok(v) => json_parse(text@) == Ok::<JsonValue, Seq<char>>(v),
            Err(e) => json_parse(text@) == Err::<JsonValue, Seq<char>>(e@),
        },
{
    serde_json::from_str::<serde_json::Value>(text).map(from_serde).map_err(|e| e.to_string())
}

/// `serde_json::to_string_pretty` of the document: two-space indented JSON
/// text, which depends on the document alone. Printing a JSON value cannot
/// fail (its object keys are strings), so no error is handed back.
#[verifier::external_body]
pub(crate) fn render_json(doc: &JsonValue) -> (text: String)
    ensures
        text@ == json_pretty(*doc),
{
    serde_json::to_string_pretty(&to_serde(doc)).unwrap_or_default()
}

/// The value of the first member called `key` of an object's members.
pub open spec fn member(entries: Seq<(String, JsonValue)>, key: Seq<char>) -> Option<JsonValue>
    decreases entries.len(),
{
    if entries.len() == 0 {
        None
    } else if entries[0].0@ == key {
        Some(entries[0].1)
    } else {
        member(entries.drop_first(), key)
    }
}

/// Index of the first member called `key`, or -1.
pub open spec fn member_index(entries: Seq<(String, JsonValue)>, key: Seq<char>) -> int
    decreases entries.len(),
{
    if entries.len() == 0 {
        -1
    } else if entries[0].0@ == key {
        0
    } else {
        let rest = member_index(entries.drop_first(), key);
        if rest < 0 {
            -1
        } else {
            rest + 1
        }
    }
}

pub proof fn lemma_member_index(entries: Seq<(String, JsonValue)>, key: Seq<char>)
    ensures
        member_index(entries, key) < entries.len(),
        member_index(entries, key) >= 0 ==> entries[member_index(entries, key)].0@ == key
            && member(entries, key) == Some(entries[member_index(entries, key)].1),
        member_index(entries, key) < 0 ==> member(entries, key) is None,
        forall|j: int| 0 <= j < member_index(entries, key) ==> entries[j].0@ != key,
        member_index(entries, key) < 0 ==> forall|j: int|
            0 <= j < entries.len() ==> entries[j].0@ != key,
    decreases entries.len(),
{
    if entries.len() > 0 && entries[0].0@ != key {
        lemma_member_index(entries.drop_first(), key);
        assert forall|j: int| 1 <= j < entries.len() implies entries[j] == entries.drop_first()[j
            - 1] by {}
    }
}

/// Index of the first member called `key`.
pub fn find_member(entries: &Vec<(String, JsonValue)>, key: &str) -> (at: Option<usize>)
    ensures
        match at {
            Some(i) => i as int == member_index(entries@, key@),
            None => member_index(entries@, key@) < 0,
        },
        match at {
            Some(i) => i < entries@.len() && member(entries@, key@) == Some(entries@[i as int].1),
            None => member(entries@, key@) is None,
        },
{
    proof {
        lemma_member_index(entries@, key@);
    }
    let mut i: usize = 0;
    while i < entries.len()
        invariant
            i <= entries@.len(),
            forall|j: int| 0 <= j < i ==> entries@[j].0@ != key@,
            member_index(entries@, key@) < entries@.len(),
            member_index(entries@, key@) >= 0 ==> entries@[member_index(entries@, key@)].0@ == key@
                && member(entries@, key@) == Some(entries@[member_index(entries@, key@)].1),
            member_index(entries@, key@) < 0 ==> member(entries@, key@) is None,
            forall|j: int| 0 <= j < member_index(entries@, key@) ==> entries@[j].0@ != key@,
            member_index(entries@, key@) < 0 ==> forall|j: int|
                0 <= j < entries@.len() ==> entries@[j].0@ != key@,
        decreases entries@.len() - i,
    {
        if crate::strings::str_equals(entries[i].0.as_str(), key) {
            return Some(i);
        }
        i = i + 1;
    }
    None
}

/// What `serde_json`'s `as_u64` gives for a number printed as `text`:
/// a value for plain decimal digits that fit in `u64`. (`serde_json` prints
/// a non-negative integer as plain digits, and a negative one or a float
/// with a sign, point or exponent.)
pub open spec fn number_u64(text: Seq<char>) -> Option<u64> {
    if text.len() > 0 && all_digits(text) && digits_value(text) <= u64::MAX {
        Some(digits_value(text) as u64)
    } else {
        None
    }
}

/// `serde_json`'s `as_u64` for a number printed as `text`.
pub fn number_as_u64(text: &str) -> (n: Option<u64>)
    ensures
        match n {
            Some(v) => number_u64(text@) == Some(v),
            None => number_u64(text@) is None,
        },
{
    let len: usize = text.unicode_len();
    if len == 0 {
        return None;
    }
    let mut value: u64 = 0;
    let mut k: usize = 0;
    assert(text@.subrange(0, 0) =~= Seq::<char>::empty());
    while k < len
        invariant
            k <= len,
            len == text@.len(),
            all_digits(text@.subrange(0, k as int)),
            value as nat == digits_value(text@.subrange(0, k as int)),
        decreases len - k,
    {
        let c = text.get_char(k);
        let ghost prefix = text@.subrange(0, k as int);
        let ghost next = text@.subrange(0, k + 1);
        assert(next.drop_last() =~= prefix);
        if !('0' <= c && c <= '9') {
            assert(!all_digits(text@)) by {
                assert(text@[k as int] == c);
            }
            return None;
        }
        let d: u64 = ((c as u32) - ('0' as u32)) as u64;
        if value > (u64::MAX - d) / 10 {
            proof {
                assert(digits_value(next) > u64::MAX) by (nonlinear_arith)
                    requires
                        digits_value(next) == value * 10 + d,
                        value > (u64::MAX - d) / 10,
                        d <= 9,
                ;
                if all_digits(text@) {
                    crate::chrome::lemma_digits_value_grows(text@, k + 1);
                    assert(text@.take(k + 1) =~= next);
                }
            }
            return None;
        }
        assert(value * 10 + d <= u64::MAX) by (nonlinear_arith)
            requires
                value <= (u64::MAX - d) / 10,
                d <= 9,
        ;
        value = value * 10 + d;
        k = k + 1;
    }
    assert(text@.subrange(0, len as int) =~= text@);
    Some(value)
}

} // verus!
