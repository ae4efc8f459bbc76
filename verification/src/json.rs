//! JSON documents, as `serde_json` reads them.
//!
//! The parser itself and the accessors of `serde_json::Value` are not
//! verified here. This module gives a JSON value a mathematical model and
//! states, for each call that the library makes, how its result relates to
//! that model. Everything in this module that has no proof is marked in its
//! documentation.

use serde_json::Value;
use vstd::prelude::*;

verus! {

/// `serde_json::Value`, opaque to the verifier.
#[verifier::external_type_specification]
#[verifier::external_body]
pub struct ExValue(serde_json::Value);

/// `serde_json::Map`, opaque to the verifier.
#[verifier::external_type_specification]
#[verifier::external_body]
#[verifier::reject_recursive_types(K)]
#[verifier::reject_recursive_types(V)]
pub struct ExMap<K, V>(serde_json::Map<K, V>);

/// `serde_json::Error`, opaque to the verifier.
#[verifier::external_type_specification]
#[verifier::external_body]
pub struct ExJsonError(serde_json::Error);

/// A JSON number: an integer, or a number with a fraction or an exponent,
/// which is kept as the bit pattern of a double-precision number.
pub enum JsonNumber {
    Integer(int),
    Real(u64),
}

/// The content of a JSON value. The members of an object come in the order
/// in which the object hands them out.
pub enum JsonModel {
    Null,
    Bool(bool),
    Number(JsonNumber),
    Text(Seq<char>),
    Array(Seq<JsonModel>),
    Object(Seq<(Seq<char>, JsonModel)>),
}

/// The document that `text` parses to, or `None` when `text` is not one JSON
/// value. Stands for the result of `serde_json::from_str` at type `Value`.
pub uninterp spec fn json_document(text: Seq<char>) -> Option<JsonModel>;

/// What a `serde_json::Value` holds.
pub uninterp spec fn json_content(value: Value) -> JsonModel;

/// What a `serde_json::Map` holds: its members in iteration order.
pub uninterp spec fn object_members(map: serde_json::Map<String, Value>) -> Seq<(Seq<char>, JsonModel)>;

/// The value of the first member named `key`, if there is one.
pub open spec fn member_value(members: Seq<(Seq<char>, JsonModel)>, key: Seq<char>) -> Option<
    JsonModel,
>
    decreases members.len(),
{
    if members.len() == 0 {
        None
    } else if members[0].0 == key {
        Some(members[0].1)
    } else {
        member_value(members.skip(1), key)
    }
}

/// That no two members have the same name.
pub open spec fn distinct_names(members: Seq<(Seq<char>, JsonModel)>) -> bool {
    forall|i: int, j: int|
        0 <= i < j < members.len() ==> (#[trigger] members[i]).0 != (#[trigger] members[j]).0
}

/// The boolean that a value holds, if it is one.
pub open spec fn model_bool(m: JsonModel) -> Option<bool> {
    match m {
        JsonModel::Bool(b) => Some(b),
        _ => None,
    }
}

/// The integer that a value holds, if it is one that fits `i64`.
pub open spec fn model_i64(m: JsonModel) -> Option<i64> {
    match m {
        JsonModel::Number(JsonNumber::Integer(n)) => if i64::MIN <= n <= i64::MAX {
            Some(n as i64)
        } else {
            None
        },
        _ => None,
    }
}

/// The integer that a value holds, if it is one that fits `u64`.
pub open spec fn model_u64(m: JsonModel) -> Option<u64> {
    match m {
        JsonModel::Number(JsonNumber::Integer(n)) => if 0 <= n <= u64::MAX {
            Some(n as u64)
        } else {
            None
        },
        _ => None,
    }
}

/// The contents of a list of values.
pub open spec fn item_models(items: Seq<Value>) -> Seq<JsonModel> {
    Seq::new(items.len(), |i: int| json_content(items[i]))
}

/// The items that a value holds, if it is an array.
pub open spec fn model_items(m: JsonModel) -> Option<Seq<JsonModel>> {
    match m {
        JsonModel::Array(items) => Some(items),
        _ => None,
    }
}

/// The text that a value holds, if it is a string.
pub open spec fn model_text(m: JsonModel) -> Option<Seq<char>> {
    match m {
        JsonModel::Text(s) => Some(s),
        _ => None,
    }
}

/// The member `key` of a value, if the value is an object that has it.
pub open spec fn model_get(m: JsonModel, key: Seq<char>) -> Option<JsonModel> {
    match m {
        JsonModel::Object(members) => member_value(members, key),
        _ => None,
    }
}

/// Not verified: `serde_json::from_str::<Value>`. Claims that the call
/// succeeds exactly on the texts that are a JSON document, and that the value
/// then holds that document.
#[verifier::external_body]
pub(crate) fn json_from_str(text: &str) -> (r: Result<Value, serde_json::Error>)
    ensures
        match r {
            Ok(v) => json_document(text@) == Some(json_content(v)),
            Err(_) => json_document(text@) is None,
        },
{
    serde_json::from_str::<Value>(text)
}

/// Not verified: `Value::as_object`. Claims that it returns the map of an
/// object, and `None` for any other value.
pub assume_specification[ Value::as_object ](value: &Value) -> (r: Option<&serde_json::Map<String, Value>>)
    ensures
        match r {
            Some(map) => json_content(*value) == JsonModel::Object(object_members(*map)),
            None => !(json_content(*value) is Object),
        },
;

/// Not verified: `Value::as_bool`. Claims that it returns the boolean of a
/// JSON boolean, and `None` for any other value.
pub assume_specification[ Value::as_bool ](value: &Value) -> (r: Option<bool>)
    ensures
        r == model_bool(json_content(*value)),
;

/// Not verified: `Value::as_i64`. Claims that it returns the integer of a
/// JSON integer that fits `i64`, and `None` for any other value.
pub assume_specification[ Value::as_i64 ](value: &Value) -> (r: Option<i64>)
    ensures
        r == model_i64(json_content(*value)),
;

/// Not verified: `Value::as_u64`. Claims that it returns the integer of a
/// JSON integer that is not negative, and `None` for any other value.
pub assume_specification[ Value::as_u64 ](value: &Value) -> (r: Option<u64>)
    ensures
        r == model_u64(json_content(*value)),
;

/// Not verified: `Value::as_array`. Claims that it returns the items of an
/// array, and `None` for any other value.
pub assume_specification[ Value::as_array ](value: &Value) -> (r: Option<&Vec<Value>>)
    ensures
        match r {
            Some(items) => model_items(json_content(*value)) == Some(item_models(items@)),
            None => model_items(json_content(*value)) is None,
        },
;

/// Not verified: `Value::as_str`. Claims that it returns the text of a JSON
/// string, and `None` for any other value.
pub assume_specification<'a>[ Value::as_str ](value: &'a Value) -> (r: Option<&'a str>)
    ensures
        match r {
            Some(s) => model_text(json_content(*value)) == Some(s@),
            None => model_text(json_content(*value)) is None,
        },
;

/// Not verified: `Map::get` with a `&str` key. Claims that it returns the
/// value of the member named `key`, and `None` when there is no such member.
#[verifier::external_body]
pub(crate) fn object_get<'a>(map: &'a serde_json::Map<String, Value>, key: &str) -> (r: Option<&'a Value>)
    ensures
        match r {
            Some(v) => member_value(object_members(*map), key@) == Some(json_content(*v)),
            None => member_value(object_members(*map), key@) is None,
        },
{
    map.get(key)
}

/// Not verified: `Value::get` with a `&str` key. Claims that it returns the
/// value of the member named `key` when the value is an object that has one,
/// and `None` otherwise.
#[verifier::external_body]
pub(crate) fn value_get<'a>(value: &'a Value, key: &str) -> (r: Option<&'a Value>)
    ensures
        match r {
            Some(v) => model_get(json_content(*value), key@) == Some(json_content(*v)),
            None => model_get(json_content(*value), key@) is None,
        },
{
    value.get(key)
}

/// Not verified: `Map::iter`, collected. Claims that the pairs handed out
/// are the members of the map, in order, and that no two of them have the
/// same name.
#[verifier::external_body]
pub(crate) fn object_items<'a>(map: &'a serde_json::Map<String, Value>) -> (r: Vec<(&'a String, &'a Value)>)
    ensures
        r.len() == object_members(*map).len(),
        forall|i: int, j: int| 0 <= i < j < r.len() ==> (#[trigger] r[i]).0@ != (#[trigger] r[j]).0@,
        forall|i: int|
            0 <= i < r.len() ==> (#[trigger] r[i]).0@ == object_members(*map)[i].0
                && json_content(*r[i].1) == object_members(*map)[i].1,
{
    map.iter().collect()
}

/// The members of an object by name.
pub open spec fn members_map(members: Seq<(Seq<char>, JsonModel)>) -> Map<Seq<char>, JsonModel> {
    Map::new(
        |key: Seq<char>| member_value(members, key) is Some,
        |key: Seq<char>| member_value(members, key).unwrap(),
    )
}

/// The text that a JSON value is written as, indented. Stands for the
/// result of `serde_json::to_string_pretty`.
pub uninterp spec fn pretty_json(value: JsonModel) -> Seq<char>;

/// Not verified: `Map::new`. Claims that the new map has no members.
#[verifier::external_body]
pub(crate) fn new_object() -> (map: serde_json::Map<String, Value>)
    ensures
        object_members(map).len() == 0,
{
    serde_json::Map::new()
}

/// Not verified: `Map::clone`. Claims that the copy has the same members.
#[verifier::external_body]
pub(crate) fn clone_object(map: &serde_json::Map<String, Value>) -> (copy: serde_json::Map<
    String,
    Value,
>)
    ensures
        object_members(copy) == object_members(*map),
{
    map.clone()
}

/// Not verified: `Map::insert`. Claims that afterwards the member `key`
/// has the given value, and that every other member is as before. Where a
/// new member stands among the others is left open.
#[verifier::external_body]
pub(crate) fn object_insert(map: &mut serde_json::Map<String, Value>, key: String, value: Value)
    ensures
        members_map(object_members(*final(map))) == members_map(object_members(*old(map))).insert(
            key@,
            json_content(value),
        ),
{
    map.insert(key, value);
}

/// Not verified: the variant `Value::Bool`.
#[verifier::external_body]
pub(crate) fn bool_value(b: bool) -> (value: Value)
    ensures
        json_content(value) == JsonModel::Bool(b),
{
    Value::Bool(b)
}

/// Not verified: `Value::from` on an `i64`. Claims that the value is the
/// JSON integer `n`.
#[verifier::external_body]
pub(crate) fn integer_value(n: i64) -> (value: Value)
    ensures
        json_content(value) == JsonModel::Number(JsonNumber::Integer(n as int)),
{
    Value::from(n)
}

/// Not verified: the variant `Value::Object`.
#[verifier::external_body]
pub(crate) fn object_value(map: serde_json::Map<String, Value>) -> (value: Value)
    ensures
        json_content(value) == JsonModel::Object(object_members(map)),
{
    Value::Object(map)
}

/// Not verified: `Value::clone`. Claims that the copy holds the same.
#[verifier::external_body]
pub(crate) fn clone_value(value: &Value) -> (copy: Value)
    ensures
        json_content(copy) == json_content(*value),
{
    value.clone()
}

/// Not verified: `==` between two values, that is `Value::eq`. Claims
/// that two values that hold the same are equal. Whether two values that
/// are equal hold the same is left open: a zero equals a negative zero.
#[verifier::external_body]
pub(crate) fn values_equal(a: &Value, b: &Value) -> (r: bool)
    ensures
        json_content(*a) == json_content(*b) ==> r,
{
    a == b
}

/// Not verified: `serde_json::to_string_pretty` on a value. Claims only
/// that the text, when there is one, is a function of what the value
/// holds.
#[verifier::external_body]
pub(crate) fn value_to_pretty_string(value: &Value) -> (r: Result<String, serde_json::Error>)
    ensures
        match r {
            Ok(text) => text@ == pretty_json(json_content(*value)),
            Err(_) => true,
        },
{
    serde_json::to_string_pretty(value)
}

} // verus!
