//! JSON through `serde_json`: the library carries JSON values without reading
//! them, and names what the crate computes from them, each as a function of
//! its arguments alone.

use vstd::prelude::*;

verus! {

/// A JSON value of `serde_json`.
#[verifier::external_type_specification]
#[verifier::external_body]
pub struct ExJsonValue(serde_json::Value);

/// A JSON object's map of `serde_json`.
#[verifier::external_type_specification]
#[verifier::external_body]
#[verifier::reject_recursive_types(K)]
#[verifier::reject_recursive_types(V)]
pub struct ExJsonMap<K, V>(serde_json::Map<K, V>);

/// The JSON text that `serde_json::to_vec` writes for `value`.
pub uninterp spec fn json_text(value: serde_json::Value) -> Seq<u8>;

/// What `serde_json::from_slice` parses `bytes` to: a JSON value, or the
/// text of its error.
pub uninterp spec fn json_from_bytes(bytes: Seq<u8>) -> Result<serde_json::Value, Seq<char>>;

/// What `serde_json::from_str` parses `text` to as a JSON object, or the
/// text of its error.
pub uninterp spec fn json_object_from_text(text: Seq<char>) -> Result<
    serde_json::Map<String, serde_json::Value>,
    Seq<char>,
>;

/// What `serde_json::from_str` parses `text` to as a JSON value, or the text
/// of its error.
pub uninterp spec fn json_value_from_text(text: Seq<char>) -> Result<serde_json::Value, Seq<char>>;

/// The boolean that `value.get(key)` holds, where it holds one
/// (`Value::get` then `Value::as_bool`).
pub uninterp spec fn json_bool_member(value: serde_json::Value, key: Seq<char>) -> Option<bool>;

/// The string that `value.get(key)` holds, where it holds one
/// (`Value::get` then `Value::as_str`).
pub uninterp spec fn json_str_member(value: serde_json::Value, key: Seq<char>) -> Option<Seq<char>>;

/// `map` after `serde_json::Map::insert(key, value)`.
pub uninterp spec fn json_map_insert(
    map: serde_json::Map<String, serde_json::Value>,
    key: Seq<char>,
    value: serde_json::Value,
) -> serde_json::Map<String, serde_json::Value>;

/// The object value made of `map` (`Value::from` a map).
pub uninterp spec fn json_of_map(map: serde_json::Map<String, serde_json::Value>) -> serde_json::Value;

/// The object value made of `pairs`, in order (`Value::from_iter` on pairs).
pub uninterp spec fn json_object_of(pairs: Seq<(Seq<char>, serde_json::Value)>) -> serde_json::Value;

/// The string value `text` (`Value::from` a `String`).
pub uninterp spec fn json_of_text(text: Seq<char>) -> serde_json::Value;

/// The boolean value `b` (`Value::from` a `bool`).
pub uninterp spec fn json_of_bool(b: bool) -> serde_json::Value;

/// `null` for `None`, else the string value (`Value::from` an `Option<String>`).
pub uninterp spec fn json_of_optional_text(text: Option<Seq<char>>) -> serde_json::Value;

/// `serde_json::to_vec` on a JSON value: its JSON text. The crate fails only
/// where a `Serialize` impl decides to fail or a map has keys that are not
/// strings; `Value`'s impl only passes on what the serializer reports, its map
/// keys are strings, and the serializer writes into a `Vec`, so the call
/// succeeds. The text itself is named (`json_text`), not stated.
#[verifier::external_body]
pub(crate) fn json_to_vec(value: &serde_json::Value) -> (res: Result<Vec<u8>, String>)
    ensures
        match res {
            Ok(b) => b@ == json_text(*value),
            Err(_) => false,
        },
{
    serde_json::to_vec(value).map_err(|error| error.to_string())
}

/// `serde_json::from_slice` into a JSON value, or the text of the error; the
/// answer is named (`json_from_bytes`), not stated.
#[verifier::external_body]
pub(crate) fn json_from_slice(bytes: &[u8]) -> (res: Result<serde_json::Value, String>)
    ensures
        match res {
            Ok(v) => json_from_bytes(bytes@) == Ok::<serde_json::Value, Seq<char>>(v),
            Err(e) => json_from_bytes(bytes@) == Err::<serde_json::Value, Seq<char>>(e@),
        },
{
    serde_json::from_slice(bytes).map_err(|error| error.to_string())
}

/// `serde_json::from_str` into a JSON object's map, or the text of the error;
/// the answer is named (`json_object_from_text`), not stated.
#[verifier::external_body]
pub(crate) fn json_object_from_str(text: &str) -> (res: Result<
    serde_json::Map<String, serde_json::Value>,
    String,
>)
    ensures
        match res {
            Ok(m) => json_object_from_text(text@) == Ok::<
                serde_json::Map<String, serde_json::Value>,
                Seq<char>,
            >(m),
            Err(e) => json_object_from_text(text@) == Err::<
                serde_json::Map<String, serde_json::Value>,
                Seq<char>,
            >(e@),
        },
{
    serde_json::from_str(text).map_err(|error| error.to_string())
}

/// `serde_json::from_str` into a JSON value, or the text of the error; the
/// answer is named (`json_value_from_text`), not stated.
#[verifier::external_body]
pub(crate) fn json_value_from_str(text: &str) -> (res: Result<serde_json::Value, String>)
    ensures
        match res {
            Ok(v) => json_value_from_text(text@) == Ok::<serde_json::Value, Seq<char>>(v),
            Err(e) => json_value_from_text(text@) == Err::<serde_json::Value, Seq<char>>(e@),
        },
{
    serde_json::from_str(text).map_err(|error| error.to_string())
}

/// `value.get(key).and_then(Value::as_bool)`, named (`json_bool_member`).
#[verifier::external_body]
pub(crate) fn json_get_bool(value: &serde_json::Value, key: &str) -> (res: Option<bool>)
    ensures
        res == json_bool_member(*value, key@),
{
    value.get(key).and_then(serde_json::Value::as_bool)
}

/// `value.get(key).and_then(Value::as_str)`, copied out, named
/// (`json_str_member`).
#[verifier::external_body]
pub(crate) fn json_get_str(value: &serde_json::Value, key: &str) -> (res: Option<String>)
    ensures
        match res {
            Some(s) => json_str_member(*value, key@) == Some(s@),
            None => json_str_member(*value, key@) is None,
        },
{
    value.get(key).and_then(serde_json::Value::as_str).map(str::to_owned)
}

/// `serde_json::Map::insert`, named (`json_map_insert`).
#[verifier::external_body]
pub(crate) fn json_insert(
    map: &mut serde_json::Map<String, serde_json::Value>,
    key: String,
    value: serde_json::Value,
)
    ensures
        *final(map) == json_map_insert(*old(map), key@, value),
{
    map.insert(key, value);
}

/// `Value::from` a map, named (`json_of_map`).
#[verifier::external_body]
pub(crate) fn json_from_map(map: serde_json::Map<String, serde_json::Value>) -> (res:
    serde_json::Value)
    ensures
        res == json_of_map(map),
{
    serde_json::Value::from(map)
}

/// `Value::from_iter` on key-value pairs, named (`json_object_of`).
#[verifier::external_body]
pub(crate) fn json_from_pairs(pairs: Vec<(String, serde_json::Value)>) -> (res: serde_json::Value)
    ensures
        res == json_object_of(Seq::new(pairs@.len(), |i: int| (pairs@[i].0@, pairs@[i].1))),
{
    <serde_json::Value as std::iter::FromIterator<(String, serde_json::Value)>>::from_iter(pairs)
}

/// `Value::from` a `String`, named (`json_of_text`).
#[verifier::external_body]
pub(crate) fn json_from_text(text: String) -> (res: serde_json::Value)
    ensures
        res == json_of_text(text@),
{
    serde_json::Value::from(text)
}

/// `Value::from` a `bool`, named (`json_of_bool`).
#[verifier::external_body]
pub(crate) fn json_from_bool(b: bool) -> (res: serde_json::Value)
    ensures
        res == json_of_bool(b),
{
    serde_json::Value::from(b)
}

/// `Value::from` an `Option<String>`, named (`json_of_optional_text`).
#[verifier::external_body]
pub(crate) fn json_from_optional_text(text: Option<String>) -> (res: serde_json::Value)
    ensures
        res == json_of_optional_text(text.deep_view()),
{
    serde_json::Value::from(text)
}

} // verus!
