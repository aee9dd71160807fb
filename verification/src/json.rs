//! JSON documents: a mathematical model of them, and the few things the
//! library asks of serde_json.

use vstd::prelude::*;

verus! {

/// A JSON number, as far as the library reads it.
pub struct JsonNumber {
    /// The number as a signed 64-bit integer, where it is one.
    pub integer: Option<i64>,
    /// The number as serde_json writes it.
    pub numeral: Seq<char>,
}

/// A JSON document. The members of an object are told apart by their names
/// alone: serde_json keeps them in the order of their names, whatever the
/// order in which they were written.
pub enum Json {
    Null,
    Bool(bool),
    Number(JsonNumber),
    Text(Seq<char>),
    List(Seq<Json>),
    Object(Map<Seq<char>, Json>),
}

/// `serde_json::Value`. What a value holds is told by `json_of` alone.
#[verifier::external_type_specification]
#[verifier::external_body]
pub struct ExValue(serde_json::Value);

/// The document that a value of serde_json holds.
pub uninterp spec fn json_of(value: serde_json::Value) -> Json;

/// The document that a text is parsed to, or what the parser has to say of
/// a text that is no JSON document.
pub uninterp spec fn parsed(text: Seq<char>) -> Result<Json, Seq<char>>;

/// The text that a list of documents is written as, indented, or `None`
/// where it cannot be written.
pub uninterp spec fn pretty(items: Seq<Json>) -> Option<Seq<char>>;

/// The member of a given name of a document that is an object and has one.
pub open spec fn member(doc: Json, name: Seq<char>) -> Option<Json> {
    match doc {
        Json::Object(members) => if members.contains_key(name) {
            Some(members[name])
        } else {
            None
        },
        _ => None,
    }
}

/// The documents that a sequence of values holds.
pub open spec fn jsons_of(values: Seq<serde_json::Value>) -> Seq<Json> {
    values.map_values(|v: serde_json::Value| json_of(v))
}

/// `serde_json::from_str`, for a `Value`: the text is parsed as one JSON
/// document; where it is none, the error is handed on as the text of its
/// `Display`. The contract gives both their name.
#[verifier::external_body]
pub(crate) fn parse_json(text: &str) -> (outcome: Result<serde_json::Value, String>)
    ensures
        match outcome {
            Ok(value) => parsed(text@) == Ok::<Json, Seq<char>>(json_of(value)),
            Err(complaint) => parsed(text@) == Err::<Json, Seq<char>>(complaint@),
        },
{
    serde_json::from_str::<serde_json::Value>(text).map_err(|error| error.to_string())
}

/// `Value::get` with a string: the member of that name of a value that is
/// an object and has one, and `None` for any other value.
#[verifier::external_body]
pub(crate) fn member_of<'a>(value: &'a serde_json::Value, name: &str) -> (found: Option<
    &'a serde_json::Value,
>)
    ensures
        match found {
            Some(inner) => member(json_of(*value), name@) == Some(json_of(*inner)),
            None => member(json_of(*value), name@) is None,
        },
{
    value.get(name)
}

/// Takes a value apart: the items of an array, by `Value::Array`, and any
/// other value as it came.
#[verifier::external_body]
pub(crate) fn into_items(value: serde_json::Value) -> (items: Result<
    Vec<serde_json::Value>,
    serde_json::Value,
>)
    ensures
        match items {
            Ok(list) => json_of(value) == Json::List(jsons_of(list@)),
            Err(other) => other == value && !(json_of(value) is List),
        },
{
    match value {
        serde_json::Value::Array(list) => Ok(list),
        other => Err(other),
    }
}

/// `Map::remove` on the members of an object: the member of the given name
/// is taken out and handed over. `None` for an object without such a
/// member, and for a value that is no object.
#[verifier::external_body]
pub(crate) fn take_member(value: serde_json::Value, name: &str) -> (found: Option<
    serde_json::Value,
>)
    ensures
        match found {
            Some(inner) => member(json_of(value), name@) == Some(json_of(inner)),
            None => member(json_of(value), name@) is None,
        },
{
    match value {
        serde_json::Value::Object(mut members) => members.remove(name),
        _ => None,
    }
}

/// `Value::as_str`: the text of a value that is a string, and `None` for
/// any other value.
#[verifier::external_body]
pub(crate) fn text_of(value: &serde_json::Value) -> (text: Option<&str>)
    ensures
        match text {
            Some(held) => json_of(*value) == Json::Text(held@),
            None => !(json_of(*value) is Text),
        },
{
    value.as_str()
}

/// `Value::as_i64`: a number that is an integer of 64 bits with sign, and
/// `None` for any other number and any other value.
#[verifier::external_body]
pub(crate) fn integer_of(value: &serde_json::Value) -> (integer: Option<i64>)
    ensures
        integer == match json_of(*value) {
            Json::Number(number) => number.integer,
            _ => None,
        },
{
    value.as_i64()
}

/// `Value::as_number`, and the number written out by its `Display`: the
/// numeral of a value that is a number, and `None` for any other value.
#[verifier::external_body]
pub(crate) fn numeral_of(value: &serde_json::Value) -> (numeral: Option<String>)
    ensures
        match numeral {
            Some(written) => json_of(*value) matches Json::Number(number) && number.numeral
                == written@,
            None => !(json_of(*value) is Number),
        },
{
    match value.as_number() {
        Some(number) => Some(number.to_string()),
        None => None,
    }
}

/// `Value::clone`: a value that holds the same document.
#[verifier::external_body]
pub(crate) fn copy_of(value: &serde_json::Value) -> (copy: serde_json::Value)
    ensures
        json_of(copy) == json_of(*value),
{
    value.clone()
}

/// `serde_json::to_string_pretty`, for a list of values: the list written
/// as an indented JSON array, and `None` where serde_json reports an error.
/// The contract gives the text its name.
#[verifier::external_body]
pub(crate) fn write_pretty(items: &Vec<serde_json::Value>) -> (text: Option<String>)
    ensures
        match text {
            Some(written) => pretty(jsons_of(items@)) == Some(written@),
            None => pretty(jsons_of(items@)) is None,
        },
{
    serde_json::to_string_pretty(items).ok()
}

} // verus!
