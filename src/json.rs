//! The JSON text that crosses the transport: reading members of an object,
//! and writing string literals.
use vstd::prelude::*;
use crate::ids::hex_char;

verus! {

/// How one character stands inside a JSON string literal.
pub open spec fn json_escaped(c: char) -> Seq<char> {
    if c == '"' {
        seq!['\\', '"']
    } else if c == '\\' {
        seq!['\\', '\\']
    } else if c == '\u{8}' {
        seq!['\\', 'b']
    } else if c == '\t' {
        seq!['\\', 't']
    } else if c == '\n' {
        seq!['\\', 'n']
    } else if c == '\u{c}' {
        seq!['\\', 'f']
    } else if c == '\r' {
        seq!['\\', 'r']
    } else if (c as u32) < 0x20 {
        seq!['\\', 'u', '0', '0', hex_char((c as u32) as int / 16), hex_char((c as u32) as int % 16)]
    } else {
        seq![c]
    }
}

/// The JSON string literal that holds `s`.
pub open spec fn json_quoted(s: Seq<char>) -> Seq<char> {
    seq!['"'] + s.map_values(|c: char| json_escaped(c)).flatten() + seq!['"']
}

/// The string held by member `key` of the JSON object that `json` spells,
/// where `json` is such an object and that member is a string.
pub uninterp spec fn json_text_member(json: Seq<char>, key: Seq<char>) -> Option<Seq<char>>;

/// The integer held by member `key` of the JSON object that `json` spells,
/// where `json` is such an object and that member is an integer within `i64`.
pub uninterp spec fn json_int_member(json: Seq<char>, key: Seq<char>) -> Option<i64>;

/// Relies on `serde_json::to_string` for a `str`: the string literal, with
/// the escapes that serde_json's writer uses.
/// Writing a `str` into memory does not fail.
#[verifier::external_body]
pub(crate) fn quote(s: &str) -> (r: String)
    ensures
        r@ == json_quoted(s@),
{
    match serde_json::to_string(s) {
        Ok(q) => q,
        Err(_) => String::new(),
    }
}

/// Relies on `serde_json::from_str` into a `serde_json::Value`, then
/// `Value::get` and `Value::as_str`: member `key` of a JSON object, if it is a
/// string.
#[verifier::external_body]
pub(crate) fn text_member(json: &str, key: &str) -> (r: Option<String>)
    ensures
        r matches Some(v) ==> json_text_member(json@, key@) == Some(v@),
        r is None ==> json_text_member(json@, key@) is None,
{
    let value = serde_json::from_str::<serde_json::Value>(json).ok()?;
    value.get(key)?.as_str().map(String::from)
}

/// Relies on `serde_json::from_str` into a `serde_json::Value`, then
/// `Value::get` and `Value::as_i64`: member `key` of a JSON object, if it is
/// an integer that fits `i64`.
#[verifier::external_body]
pub(crate) fn int_member(json: &str, key: &str) -> (r: Option<i64>)
    ensures
        r == json_int_member(json@, key@),
{
    let value = serde_json::from_str::<serde_json::Value>(json).ok()?;
    value.get(key)?.as_i64()
}

} // verus!
