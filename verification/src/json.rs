//! JSON: the values and objects of `serde_json`, what they hold, and the calls
//! that read and change them.

use vstd::prelude::*;

use crate::text::trimmed_end;

verus! {

/// What a JSON value holds.
///
/// A number is held as the text that `serde_json` writes for it.
pub enum Json {
    Null,
    Bool(bool),
    Number(Seq<char>),
    Text(Seq<char>),
    Array(Seq<Json>),
    Object(Map<Seq<char>, Json>),
}

/// A JSON value of `serde_json`.
#[verifier::external_type_specification]
#[verifier::external_body]
pub struct ExValue(serde_json::Value);

/// A JSON object of `serde_json`.
#[verifier::external_type_specification]
#[verifier::external_body]
#[verifier::reject_recursive_types(K)]
#[verifier::reject_recursive_types(V)]
pub struct ExMap<K, V>(serde_json::Map<K, V>);

/// The reason for which `serde_json` refuses a text.
#[verifier::external_type_specification]
#[verifier::external_body]
pub struct ExJsonError(serde_json::Error);

/// What a `serde_json::Value` holds.
pub uninterp spec fn json_of(value: serde_json::Value) -> Json;

/// The members of a `serde_json::Map`, by name.
pub uninterp spec fn members(object: serde_json::Map<String, serde_json::Value>) -> Map<
    Seq<char>,
    Json,
>;

/// The value that `serde_json::from_slice` reads from a text, or nothing where
/// it refuses the text.
pub uninterp spec fn json_value(text: Seq<u8>) -> Option<Json>;

/// The members of the object that `serde_json::from_slice` reads from a text, or
/// nothing where it refuses the text or the text holds no object.
pub uninterp spec fn json_object(text: Seq<u8>) -> Option<Map<Seq<char>, Json>>;

/// Whether a text, apart from the whitespace at its end, ends in a closing bracket
/// directly behind a capital letter.
pub open spec fn ends_behind_a_capital(text: Seq<u8>) -> bool {
    let end = trimmed_end(text);
    &&& end.len() >= 2
    &&& end.last() == 93
    &&& 65 <= end[end.len() - 2] <= 90
}

/// Calls `serde_json::from_slice` for a `Value`: the result is `json_value` of
/// the text. Which error comes is left unsaid.
///
/// A text that ends in a closing bracket directly behind a capital letter is
/// refused: before the bracket that ends an array stands whitespace, the opening
/// bracket or the end of a value, and no value ends in a capital letter.
#[verifier::external_body]
pub(crate) fn value_from_slice(text: &[u8]) -> (r: Result<serde_json::Value, serde_json::Error>)
    ensures
        r is Ok <==> json_value(text@) is Some,
        r matches Ok(value) ==> json_value(text@) == Some(json_of(value)),
        r is Ok ==> !ends_behind_a_capital(text@),
{
    serde_json::from_slice(text)
}

/// Calls `serde_json::from_slice` for a `Map`: the result is `json_object` of the
/// text. Which error comes is left unsaid.
#[verifier::external_body]
pub(crate) fn object_from_slice(text: &[u8]) -> (r: Result<
    serde_json::Map<String, serde_json::Value>,
    serde_json::Error,
>)
    ensures
        r is Ok <==> json_object(text@) is Some,
        r matches Ok(object) ==> json_object(text@) == Some(members(object)),
{
    serde_json::from_slice(text)
}

/// Calls `serde_json::Map::get`: the member of that name, where there is one.
#[verifier::external_body]
pub(crate) fn member<'a>(
    object: &'a serde_json::Map<String, serde_json::Value>,
    name: &str,
) -> (r: Option<&'a serde_json::Value>)
    ensures
        r is Some <==> members(*object).contains_key(name@),
        r matches Some(value) ==> json_of(*value) == members(*object)[name@],
{
    object.get(name)
}

/// Calls `serde_json::Map::insert`: the member of that name becomes `value`, and
/// all other members stay as they are.
#[verifier::external_body]
pub(crate) fn set_member(
    object: &mut serde_json::Map<String, serde_json::Value>,
    name: String,
    value: serde_json::Value,
)
    ensures
        members(*final(object)) == members(*old(object)).insert(name@, json_of(value)),
{
    object.insert(name, value);
}

/// Calls `serde_json::Value::as_str`: the text of a string, and nothing for any
/// other value.
#[verifier::external_body]
pub(crate) fn text_of(value: &serde_json::Value) -> (r: Option<&str>)
    ensures
        match json_of(*value) {
            Json::Text(text) => r matches Some(s) && s@ == text,
            _ => r is None,
        },
{
    value.as_str()
}

/// Makes a `serde_json::Value::Array` of the values, in their order.
#[verifier::external_body]
pub(crate) fn array_of(values: Vec<serde_json::Value>) -> (r: serde_json::Value)
    ensures
        json_of(r) == Json::Array(values@.map_values(|value: serde_json::Value| json_of(value))),
{
    serde_json::Value::Array(values)
}

} // verus!
