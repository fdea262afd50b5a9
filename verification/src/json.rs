//! JSON values, as `serde_json` reads and writes them.
//!
//! A [`serde_json::Value`] is carried through the library unopened. What the
//! library needs to say of one is said over three names: what a text parses
//! to, what a value is written as, and the object with one string member.
use vstd::prelude::*;
use serde_json::Value;

verus! {

/// Trusted: the type `serde_json::Value`, of which nothing is known here.
#[verifier::external_type_specification]
#[verifier::external_body]
pub struct ExValue(serde_json::Value);

/// Trusted: the type `serde_json::Error`, of which nothing is known here.
#[verifier::external_type_specification]
#[verifier::external_body]
pub struct ExJsonError(serde_json::Error);

/// What `serde_json::from_slice` reads from a text: the value, or `None`
/// where the text is not one JSON value.
pub uninterp spec fn json_parsed(text: Seq<u8>) -> Option<Value>;

/// What `serde_json::to_vec` writes for a value: the compact text, or `None`
/// where the value cannot be written.
pub uninterp spec fn json_written(value: Value) -> Option<Seq<u8>>;

/// The JSON object whose only member has the given key and, as its value,
/// the given text as a JSON string.
pub uninterp spec fn json_member(key: Seq<char>, text: Seq<char>) -> Value;

/// The text `null`.
pub open spec fn null_text() -> Seq<u8> {
    seq![0x6e, 0x75, 0x6c, 0x6c]
}

/// Trusted: `serde_json::from_slice` at the type `Value`. The contract names
/// its result: the value on success is `json_parsed` of the text, and it
/// fails exactly where `json_parsed` is `None`.
#[verifier::external_body]
pub(crate) fn parse_json(text: &[u8]) -> (parsed: Result<Value, serde_json::Error>)
    ensures
        match parsed {
            Ok(value) => json_parsed(text@) == Some(value),
            Err(_) => json_parsed(text@) is None,
        },
{
    serde_json::from_slice(text)
}

/// Trusted: `serde_json::to_vec` on a `Value`. The contract names its result:
/// the bytes on success are `json_written` of the value, and it fails exactly
/// where `json_written` is `None`.
#[verifier::external_body]
pub(crate) fn write_json(value: &Value) -> (written: Result<Vec<u8>, serde_json::Error>)
    ensures
        match written {
            Ok(bytes) => json_written(*value) == Some(bytes@),
            Err(_) => json_written(*value) is None,
        },
{
    serde_json::to_vec(value)
}

/// Trusted: `serde_json::Map::new` and `Map::insert`, once, with the text as
/// a `Value::String`; the map becomes a `Value::Object`. The contract names
/// the object by its key and text.
#[verifier::external_body]
pub(crate) fn member(key: &str, text: String) -> (object: Value)
    ensures
        object == json_member(key@, text@),
{
    let mut members = serde_json::Map::new();
    members.insert(key.to_owned(), Value::String(text));
    Value::Object(members)
}

/// Trusted: `<serde_json::Value as Default>::default`, which is
/// `Value::Null`. The contract says that it is the value that the text
/// `null` parses to.
#[verifier::external_body]
pub(crate) fn null() -> (value: Value)
    ensures
        json_parsed(null_text()) == Some(value),
{
    Value::default()
}

} // verus!
