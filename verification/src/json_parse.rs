//! Reading JSON texts, and quoting texts, with `serde_json`.

use vstd::prelude::*;
use vstd::string::*;

use serde_json::Value;

use crate::json::{Json, JsonView};
use crate::seqs::chain;

verus! {

/// A JSON value of `serde_json`.
#[verifier::external_type_specification]
#[verifier::external_body]
pub struct ExValue(serde_json::Value);

/// What `serde_json::from_str` reads from a text; none where the text is no
/// JSON document.
pub uninterp spec fn json_document(text: Seq<char>) -> Option<JsonView>;

/// What a value of `serde_json` holds.
pub uninterp spec fn value_tree(v: Value) -> JsonView;

/// Reads a text with `serde_json::from_str` into a `serde_json::Value`.
///
/// Claimed of it: whether it succeeds, and what the value holds, depends on
/// the text alone.
#[verifier::external_body]
fn read_value(text: &str) -> (r: Option<Value>)
    ensures
        match r {
            Some(v) => json_document(text@) == Some(value_tree(v)),
            None => json_document(text@) is None,
        },
{
    serde_json::from_str::<Value>(text).ok()
}

/// Takes a `serde_json::Value` apart, one case each; a number that is no
/// integer of 64 bits keeps the text that `serde_json::Number` prints.
///
/// Claimed of it: the result is what the value holds.
#[verifier::external_body]
fn json_of_value(v: &Value) -> (r: Json)
    ensures
        r@ == value_tree(*v),
{
    match v {
        Value::Null => Json::Null,
        Value::Bool(b) => Json::Bool(*b),
        Value::Number(n) => match (n.as_u64(), n.as_i64()) {
            (Some(u), _) => Json::U64(u),
            (None, Some(i)) => Json::I64(i),
            (None, None) => Json::Real(n.to_string()),
        },
        Value::String(s) => Json::Str(s.clone()),
        Value::Array(a) => Json::Array(a.iter().map(json_of_value).collect()),
        Value::Object(o) => Json::Object(o.iter().map(|(k, x)| (k.clone(), json_of_value(x))).collect()),
    }
}

/// Reads a JSON document from a text; none where the text is not one.
pub fn parse_json(text: &str) -> (r: Option<Json>)
    ensures
        r.deep_view() == json_document(text@),
{
    match read_value(text) {
        Some(v) => Some(json_of_value(&v)),
        None => None,
    }
}

/// A digit in base sixteen.
pub open spec fn hex_digit(n: int) -> char {
    if n < 10 {
        (48 + n) as char
    } else {
        (87 + n) as char
    }
}

/// A character as it stands between quotes in JSON.
pub open spec fn quoted_char(c: char) -> Seq<char> {
    if c == '"' {
        seq!['\\', '"']
    } else if c == '\\' {
        seq!['\\', '\\']
    } else if c == '\u{8}' {
        seq!['\\', 'b']
    } else if c == '\t' {
        seq!['\\', 't']
    } else if c == '\n' {
        seq!['\\', 'n']
    } else if c == '\u{c}' {
        seq!['\\', 'f']
    } else if c == '\r' {
        seq!['\\', 'r']
    } else if c as int <= 31 {
        seq!['\\', 'u', '0', '0', hex_digit(c as int / 16), hex_digit(c as int % 16)]
    } else {
        seq![c]
    }
}

/// A text in JSON: between quotes, with quotes, backslashes and control
/// characters escaped.
pub open spec fn quoted(text: Seq<char>) -> Seq<char> {
    seq!['"'] + chain(text, |c: char| quoted_char(c)) + seq!['"']
}

/// Writes a text as JSON, with `serde_json::Value`'s `to_string`.
///
/// Claimed of it: the text stands between quotes, with a backslash before
/// quotes and backslashes, the short escapes for backspace, tab, line feed,
/// form feed and carriage return, and four digits in base sixteen for the other
/// control characters.
#[verifier::external_body]
pub(crate) fn write_quoted(text: &str) -> (r: String)
    ensures
        r@ == quoted(text@),
{
    Value::from(text).to_string()
}

} // verus!
