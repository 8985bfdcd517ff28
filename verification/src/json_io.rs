//! Reading and writing JSON text through `serde_json`: parsing text into
//! the library's `JsonValue`, printing a value compactly or pretty, and
//! turning raw bytes into text. Each call's result is named by what
//! `serde_json` (or std) computes from its argument; the functions of the
//! library that use them speak of those names.
use vstd::prelude::*;
use vstd::utf8::{valid_utf8, decode_utf8};
use crate::json::{Json, JsonValue};
use crate::json_same::{printable, same_json};

verus! {

/// `serde_json`'s dynamic JSON value, carried through the conversions below.
#[verifier::external_type_specification]
#[verifier::external_body]
pub struct ExSerdeValue(serde_json::Value);

/// What `serde_json::from_str::<Value>` makes of a text, seen as a `Json`
/// (`None` when the text is not JSON).
pub uninterp spec fn parsed_json(text: Seq<char>) -> Option<Json>;

/// The text `serde_json` prints for a value (`Value::to_string`).
pub uninterp spec fn compact_json(v: Json) -> Seq<char>;

/// The text `serde_json::to_string_pretty` prints for a value.
pub uninterp spec fn pretty_json(v: Json) -> Seq<char>;

/// What `String::from_utf8_lossy` makes of bytes.
pub uninterp spec fn lossy_utf8(bytes: Seq<u8>) -> Seq<char>;

/// `serde_json::from_str` reads `text` as the same document as `v`.
pub open spec fn reads_as(text: Seq<char>, v: Json) -> bool {
    parsed_json(text) matches Some(w) && same_json(w, v)
}

/// `serde_json::from_str` reads `text` followed by a newline as it reads
/// `text`.
pub open spec fn newline_ignored(text: Seq<char>) -> bool {
    parsed_json(text + seq!['\n']) == parsed_json(text)
}

/// `serde_json::Value` to `JsonValue`, variant by variant (numbers keep the
/// text `serde_json` prints for them).
#[verifier::external_body]
fn from_serde(v: &serde_json::Value) -> JsonValue {
    match v {
        serde_json::Value::Null => JsonValue::Null,
        serde_json::Value::Bool(b) => JsonValue::Bool(*b),
        serde_json::Value::Number(n) => JsonValue::Number(n.to_string()),
        serde_json::Value::String(s) => JsonValue::Str(s.clone()),
        serde_json::Value::Array(a) => JsonValue::Array(a.iter().map(from_serde).collect()),
        serde_json::Value::Object(m) => JsonValue::Object(m.iter().map(|(k, x)| (k.clone(), from_serde(x))).collect()),
    }
}

/// `JsonValue` to `serde_json::Value`, variant by variant; of two entries
/// with one key the first is kept (the map is filled from the back).
#[verifier::external_body]
fn to_serde(v: &JsonValue) -> serde_json::Value {
    match v {
        JsonValue::Null => serde_json::Value::Null,
        JsonValue::Bool(b) => serde_json::Value::Bool(*b),
        JsonValue::Number(n) => n.parse::<serde_json::Number>().map(serde_json::Value::Number).unwrap_or(serde_json::Value::Null),
        JsonValue::Str(s) => serde_json::Value::String(s.clone()),
        JsonValue::Array(a) => serde_json::Value::Array(a.iter().map(to_serde).collect()),
        JsonValue::Object(es) => serde_json::Value::Object(es.iter().rev().map(|(k, x)| (k.clone(), to_serde(x))).collect()),
    }
}

/// `serde_json::from_str::<Value>`: the parse of `text`, converted; `None`
/// when it is not JSON. The result is the named parse of the text.
#[verifier::external_body]
pub(crate) fn parse_json(text: &str) -> (r: Option<JsonValue>)
    ensures
        match r {
            Some(v) => parsed_json(text@) == Some(v.j()),
            None => parsed_json(text@) is None,
        },
{
    serde_json::from_str::<serde_json::Value>(text).ok().map(|v| from_serde(&v))
}

/// `Value::to_string`: the compact JSON text of a value, as named.
#[verifier::external_body]
pub(crate) fn compact_text(v: &JsonValue) -> (s: String)
    ensures
        s@ == compact_json(v.j()),
{
    to_serde(v).to_string()
}

/// `serde_json::to_string_pretty`: the indented JSON text of a value, as
/// named (printing a `Value` does not fail). An object's text opens with
/// an opening brace (U+007B). For a printable value (integer numbers only, nested fewer than 128
/// deep) `serde_json::from_str` reads the text back as the same document:
/// the keys come back sorted and a repeated key once (the first entry, as
/// `to_serde` keeps it), which no lookup tells apart; and it reads the
/// text the same with a newline after it (`from_str` skips trailing
/// whitespace). Of other numbers (floats, which this build parses without
/// exact round trips) nothing is claimed.
#[verifier::external_body]
pub(crate) fn pretty_text(v: &JsonValue) -> (s: String)
    ensures
        s@ == pretty_json(v.j()),
        v.j() is Object ==> s@.len() > 0 && s@[0] as u32 == 0x7B,
        printable(v.j()) ==> reads_as(s@, v.j()),
        printable(v.j()) ==> newline_ignored(s@),
{
    serde_json::to_string_pretty(&to_serde(v)).unwrap_or_default()
}

/// `String::from_utf8_lossy`: the text of `bytes`, invalid sequences
/// replaced; valid UTF-8 is decoded as it is.
#[verifier::external_body]
pub(crate) fn lossy_text(bytes: &[u8]) -> (s: String)
    ensures
        s@ == lossy_utf8(bytes@),
        valid_utf8(bytes@) ==> s@ == decode_utf8(bytes@),
{
    String::from_utf8_lossy(bytes).into_owned()
}

/// `String::from_utf8`: the text of `bytes` when they are valid UTF-8.
#[verifier::external_body]
pub(crate) fn utf8_text(bytes: &[u8]) -> (r: Option<String>)
    ensures
        (r is Some) == valid_utf8(bytes@),
        r matches Some(s) ==> s@ == decode_utf8(bytes@),
{
    String::from_utf8(bytes.to_vec()).ok()
}

} // verus!
