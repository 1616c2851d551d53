//! JSON documents, read and written by `serde_json`.
//!
//! A `serde_json::Value` is opaque here. What it holds is `json_of` of it, and the functions
//! below say how `serde_json` makes a value, takes it apart, reads it from text and writes
//! it as text.

use serde_json::Value;
use vstd::prelude::*;

use crate::text::decimal;

verus! {

/// What a JSON value holds.
pub enum Json {
    Null,
    Bool(bool),
    /// A number as it is written, with its value where it is an integer that a `u64` holds.
    Number { whole: Option<u64>, float: bool, text: Seq<char> },
    Text(Seq<char>),
    Array(Seq<Json>),
    /// The members in order; no key stands twice.
    Object(Seq<(Seq<char>, Json)>),
}

/// The member with the key, where there is one.
pub open spec fn member_of(members: Seq<(Seq<char>, Json)>, key: Seq<char>) -> Option<Json>
    decreases members.len(),
{
    if members.len() == 0 {
        None
    } else if members.last().0 == key {
        Some(members.last().1)
    } else {
        member_of(members.drop_last(), key)
    }
}

/// The member of an object with the key; of anything else, none.
pub open spec fn field(json: Json, key: Seq<char>) -> Option<Json> {
    match json {
        Json::Object(members) => member_of(members, key),
        _ => None,
    }
}

/// No key stands twice.
pub open spec fn distinct_keys(members: Seq<(Seq<char>, Json)>) -> bool {
    forall|i: int, j: int|
        0 <= i < j < members.len() ==> (#[trigger] members[i]).0 != (#[trigger] members[j]).0
}

/// A text, nothing, or an integer that a `u64` holds.
pub open spec fn is_scalar(json: Json) -> bool {
    match json {
        Json::Null => true,
        Json::Number { whole, .. } => whole is Some,
        Json::Text(_) => true,
        _ => false,
    }
}

/// A scalar, or a list or an object of scalars.
pub open spec fn is_shallow(json: Json) -> bool {
    match json {
        Json::Array(items) => forall|i: int| 0 <= i < items.len() ==> is_scalar(#[trigger] items[i]),
        Json::Object(members) => forall|i: int|
            0 <= i < members.len() ==> is_scalar((#[trigger] members[i]).1),
        other => is_scalar(other),
    }
}

/// An object of scalars, and of lists and objects of scalars.
pub open spec fn is_record(json: Json) -> bool {
    match json {
        Json::Object(members) => forall|i: int|
            0 <= i < members.len() ==> is_shallow((#[trigger] members[i]).1),
        _ => false,
    }
}

/// `serde_json::Value`.
#[verifier::external_type_specification]
#[verifier::external_body]
pub struct ExValue(serde_json::Value);

/// What a value of `serde_json` holds.
pub uninterp spec fn json_of(value: serde_json::Value) -> Json;

/// What `serde_json::from_str` makes of a text: a document, or what it says is wrong.
pub uninterp spec fn json_read(text: Seq<char>) -> Result<Json, Seq<char>>;

/// The text that `serde_json::to_string_pretty` makes of a document.
pub uninterp spec fn json_pretty(json: Json) -> Seq<char>;

/// What each value of a list holds.
pub open spec fn jsons_of(values: Seq<Value>) -> Seq<Json> {
    values.map_values(|value: Value| json_of(value))
}

/// `serde_json::from_str`, for a document of any shape, with `Error::to_string` for what is
/// wrong with the text. Both depend on the text alone.
#[verifier::external_body]
pub(crate) fn read_document(text: &str) -> (r: Result<Value, String>)
    ensures
        match r {
            Ok(value) => json_read(text@) matches Ok(json) && json == json_of(value),
            Err(message) => json_read(text@) matches Err(said) && said == message@,
        },
{
    serde_json::from_str(text).map_err(|e| e.to_string())
}

/// `serde_json::to_string_pretty`, for a record. It writes a record without fail, the text
/// depends on what the record holds alone, and `serde_json::from_str` reads the same record
/// back from it.
#[verifier::external_body]
pub(crate) fn write_document(value: &Value) -> (r: Result<String, String>)
    requires
        is_record(json_of(*value)),
    ensures
        match r {
            Ok(text) => text@ == json_pretty(json_of(*value)) && (json_read(text@) matches Ok(json)
                && json == json_of(*value)),
            Err(_) => false,
        },
{
    serde_json::to_string_pretty(value).map_err(|e| e.to_string())
}

/// `Value::get`, with a key: the member of an object, and nothing of any other value.
#[verifier::external_body]
pub(crate) fn get_member<'a>(value: &'a Value, key: &str) -> (r: Option<&'a Value>)
    ensures
        match r {
            Some(member) => field(json_of(*value), key@) == Some(json_of(*member)),
            None => field(json_of(*value), key@) is None,
        },
{
    value.get(key)
}

/// `Value::as_u64`: the number, where the value is an integer that a `u64` holds.
pub assume_specification[ serde_json::Value::as_u64 ](value: &Value) -> (r: Option<u64>)
    ensures
        match json_of(*value) {
            Json::Number { whole, .. } => r == whole,
            _ => r is None,
        },
;

/// `Value::as_str`: the text, where the value is one.
pub assume_specification[ serde_json::Value::as_str ](value: &Value) -> (r: Option<&str>)
    ensures
        match json_of(*value) {
            Json::Text(text) => r matches Some(s) && s@ == text,
            _ => r is None,
        },
;

/// `Value::as_bool`: the truth value, where the value is one.
pub assume_specification[ serde_json::Value::as_bool ](value: &Value) -> (r: Option<bool>)
    ensures
        match json_of(*value) {
            Json::Bool(b) => r == Some(b),
            _ => r is None,
        },
;

/// `Value::is_f64`: whether the value is a number that is no integer.
pub assume_specification[ serde_json::Value::is_f64 ](value: &Value) -> (r: bool)
    ensures
        match json_of(*value) {
            Json::Number { float, .. } => r == float,
            _ => !r,
        },
;

/// `Value::as_number`, with `Number::to_string`: the number as it is written, where the value
/// is one.
#[verifier::external_body]
pub(crate) fn number_text(value: &Value) -> (r: Option<String>)
    ensures
        match json_of(*value) {
            Json::Number { text, .. } => r matches Some(written) && written@ == text,
            _ => r is None,
        },
{
    value.as_number().map(|number| number.to_string())
}

/// `Value::is_null`: whether the value is null.
pub assume_specification[ serde_json::Value::is_null ](value: &Value) -> (r: bool)
    ensures
        r == (json_of(*value) is Null),
;

/// The object holds texts and nothing else.
pub open spec fn is_text_table(json: Json) -> bool {
    match json {
        Json::Object(members) => forall|i: int|
            0 <= i < members.len() ==> (#[trigger] members[i]).1 is Text,
        _ => false,
    }
}

/// The list holds texts and nothing else.
pub open spec fn is_text_list(json: Json) -> bool {
    match json {
        Json::Array(items) => forall|i: int| 0 <= i < items.len() ==> (#[trigger] items[i]) is Text,
        _ => false,
    }
}

/// What `serde_json::from_value` says of a value that is no text.
pub uninterp spec fn text_refusal(json: Json) -> Seq<char>;

/// What `serde_json::from_value` says of a value that is no list of texts.
pub uninterp spec fn text_list_refusal(json: Json) -> Seq<char>;

/// What `serde_json::from_value` says of a value that is no object of texts.
pub uninterp spec fn text_table_refusal(json: Json) -> Seq<char>;

/// `serde_json::from_value`, for a `String`: the text, where the value is one, and otherwise
/// what is wrong with it.
#[verifier::external_body]
pub(crate) fn read_text(value: &Value) -> (r: Result<String, String>)
    ensures
        match r {
            Ok(text) => json_of(*value) == Json::Text(text@),
            Err(message) => !(json_of(*value) is Text) && message@ == text_refusal(json_of(*value)),
        },
{
    serde_json::from_value::<String>(value.clone()).map_err(|e| e.to_string())
}

/// `serde_json::from_value`, for a `Vec<String>`: the texts in order, where the value is a list
/// of texts, and otherwise what is wrong with it.
#[verifier::external_body]
pub(crate) fn read_text_list(value: &Value) -> (r: Result<Vec<String>, String>)
    ensures
        match r {
            Ok(list) => is_text_list(json_of(*value)) && (json_of(*value) matches Json::Array(items)
                && items == list@.map_values(|text: String| Json::Text(text@))),
            Err(message) => !is_text_list(json_of(*value)) && message@ == text_list_refusal(
                json_of(*value),
            ),
        },
{
    serde_json::from_value::<Vec<String>>(value.clone()).map_err(|e| e.to_string())
}

/// `serde_json::from_value`, for a `BTreeMap<String, String>`: each key with its text, where
/// the value is an object of texts, and otherwise what is wrong with it.
#[verifier::external_body]
pub(crate) fn read_text_table(value: &Value) -> (r: Result<Vec<(String, String)>, String>)
    ensures
        match r {
            Ok(list) => is_text_table(json_of(*value)) && (forall|i: int|
                0 <= i < list@.len() ==> field(json_of(*value), (#[trigger] list@[i]).0@) == Some(
                    Json::Text(list@[i].1@),
                )) && (forall|key: Seq<char>| #[trigger]
                field(json_of(*value), key) is Some ==> exists|i: int|
                    0 <= i < list@.len() && (#[trigger] list@[i]).0@ == key),
            Err(message) => !is_text_table(json_of(*value)) && message@ == text_table_refusal(
                json_of(*value),
            ),
        },
{
    serde_json::from_value::<std::collections::BTreeMap<String, String>>(value.clone())
        .map(|table| table.into_iter().collect())
        .map_err(|e| e.to_string())
}

/// `Value::as_object`, with `Map::iter`: the members in order, where the value is an object.
#[verifier::external_body]
pub(crate) fn get_members(value: &Value) -> (r: Option<Vec<(&String, &Value)>>)
    ensures
        match json_of(*value) {
            Json::Object(members) => r matches Some(list) && distinct_keys(members)
                && list@.map_values(|m: (&String, &Value)| (m.0@, json_of(*m.1))) == members,
            _ => r is None,
        },
{
    value.as_object().map(|members| members.iter().collect())
}

/// The variant `Value::Null`.
#[verifier::external_body]
pub(crate) fn null_value() -> (r: Value)
    ensures
        json_of(r) == Json::Null,
{
    Value::Null
}

/// The variant `Value::String`.
#[verifier::external_body]
pub(crate) fn text_value(text: String) -> (r: Value)
    ensures
        json_of(r) == Json::Text(text@),
{
    Value::String(text)
}

/// `Value::from`, for a number.
#[verifier::external_body]
pub(crate) fn number_value(number: u64) -> (r: Value)
    ensures
        json_of(r) == (Json::Number {
            whole: Some(number),
            float: false,
            text: decimal(number as nat),
        }),
{
    Value::from(number)
}

/// The variant `Value::Array`.
#[verifier::external_body]
pub(crate) fn array_value(items: Vec<Value>) -> (r: Value)
    ensures
        json_of(r) == Json::Array(jsons_of(items@)),
{
    Value::Array(items)
}

/// The variant `Value::Object`, with `Map::from_iter`, which keeps the members in order.
#[verifier::external_body]
pub(crate) fn object_value(members: Vec<(String, Value)>) -> (r: Value)
    requires
        distinct_keys(members@.map_values(|m: (String, Value)| (m.0@, json_of(m.1)))),
    ensures
        json_of(r) == Json::Object(members@.map_values(|m: (String, Value)| (m.0@, json_of(m.1)))),
{
    Value::Object(members.into_iter().collect())
}

} // verus!
