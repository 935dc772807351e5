//! JSON values of `serde_json`, and what they hold.
use serde_json::Value;
use vstd::prelude::*;

use crate::text;

verus! {

/// What a JSON value holds.
pub enum Json {
    Null,
    Bool(bool),
    /// A number, as the text that writes it.
    Number(Seq<char>),
    Text(Seq<char>),
    List(Seq<Json>),
    Object(Map<Seq<char>, Json>),
}

impl Json {
    /// The member of an object under `key`, if this is an object that has one.
    pub open spec fn member(self, key: Seq<char>) -> Option<Json> {
        match self {
            Json::Object(members) => if members.dom().contains(key) {
                Some(members[key])
            } else {
                None
            },
            _ => None,
        }
    }

    /// The text, if this is a string.
    pub open spec fn text(self) -> Option<Seq<char>> {
        match self {
            Json::Text(t) => Some(t),
            _ => None,
        }
    }

    /// The text of the member under `key`, if this is an object with a string there.
    pub open spec fn member_text(self, key: Seq<char>) -> Option<Seq<char>> {
        match self.member(key) {
            Some(m) => m.text(),
            None => None,
        }
    }
}

// ---- Values of serde_json ----
/// `serde_json::Value`, a JSON value.
#[verifier::external_type_specification]
#[verifier::external_body]
pub struct ExValue(Value);

/// `serde_json::Map`, the members of a JSON object.
#[verifier::external_type_specification]
#[verifier::external_body]
#[verifier::reject_recursive_types(K)]
#[verifier::reject_recursive_types(V)]
pub struct ExMembers<K, V>(serde_json::Map<K, V>);

/// `serde_json::Error`, which says why a text is no JSON.
#[verifier::external_type_specification]
#[verifier::external_body]
pub struct ExError(serde_json::Error);

/// The message of an error.
pub uninterp spec fn error_message(error: serde_json::Error) -> Seq<char>;

/// What a value holds.
pub uninterp spec fn json_of(value: Value) -> Json;

/// What the members of an object hold.
pub uninterp spec fn members_of(members: serde_json::Map<String, Value>) -> Map<Seq<char>, Json>;

/// What the JSON text in `bytes` holds, or what is wrong with it.
pub uninterp spec fn json_document(bytes: Seq<u8>) -> Result<Json, Seq<char>>;

/// The compact JSON text of a value.
pub uninterp spec fn json_text(value: Json) -> Seq<char>;

/// What values hold.
pub open spec fn jsons(values: Seq<Value>) -> Seq<Json> {
    values.map_values(|v: Value| json_of(v))
}

// ---- Reading ----
/// `serde_json::from_slice`: the value that the bytes hold as JSON text, or the error. What that is depends on the
/// bytes alone, and `json_document` names it.
#[verifier::external_body]
pub(crate) fn parse(bytes: &[u8]) -> (r: Result<Value, serde_json::Error>)
    ensures
        match r {
            Ok(value) => json_document(bytes@) == Ok::<Json, Seq<char>>(json_of(value)),
            Err(e) => json_document(bytes@) == Err::<Json, Seq<char>>(error_message(e)),
        },
{
    serde_json::from_slice::<Value>(bytes)
}

/// The `Display` of `serde_json::Error`: its message.
#[verifier::external_body]
pub(crate) fn error_text(e: &serde_json::Error) -> (t: String)
    ensures
        t@ == error_message(*e),
{
    e.to_string()
}

/// `Value::get` with a string: the member of an object under that key, and `None` where the value is no object or
/// has no such member.
#[verifier::external_body]
pub(crate) fn member<'a>(value: &'a Value, key: &str) -> (r: Option<&'a Value>)
    ensures
        match r {
            Some(m) => json_of(*value).member(key@) == Some(json_of(*m)),
            None => json_of(*value).member(key@) is None,
        },
{
    value.get(key)
}

/// `Value::is_null`: whether the value is null.
pub assume_specification[ Value::is_null ](value: &Value) -> (r: bool)
    ensures
        r == (json_of(*value) is Null),
;

/// `Value::as_str`: the text of a string, and `None` for any other value.
pub assume_specification[ Value::as_str ](value: &Value) -> (r: Option<&str>)
    ensures
        match r {
            Some(t) => json_of(*value) == Json::Text(t@),
            None => !(json_of(*value) is Text),
        },
;

/// `Value::as_array`: the items of a list, and `None` for any other value.
pub assume_specification[ Value::as_array ](value: &Value) -> (r: Option<&Vec<Value>>)
    ensures
        match r {
            Some(items) => json_of(*value) == Json::List(jsons(items@)),
            None => !(json_of(*value) is List),
        },
;

/// `Value::clone`: a value that holds the same.
pub assume_specification[ <Value as Clone>::clone ](value: &Value) -> (copy: Value)
    ensures
        json_of(copy) == json_of(*value),
;

/// The `Display` of `Value`: its compact JSON text. An object is written in the order of its keys, so the text
/// depends on what the value holds alone, and `json_text` names it.
#[verifier::external_body]
pub(crate) fn to_text(value: &Value) -> (t: String)
    ensures
        t@ == json_text(json_of(*value)),
{
    value.to_string()
}

/// The text of the member of `value` under `key`, if it is an object with a string there.
pub fn member_str<'a>(value: &'a Value, key: &str) -> (r: Option<&'a str>)
    ensures
        match r {
            Some(t) => json_of(*value).member_text(key@) == Some(t@),
            None => json_of(*value).member_text(key@) is None,
        },
{
    match member(value, key) {
        Some(m) => m.as_str(),
        None => None,
    }
}

// ---- Writing ----
/// `Value::from` a string: the value is that string.
#[verifier::external_body]
pub(crate) fn from_text(t: String) -> (value: Value)
    ensures
        json_of(value) == Json::Text(t@),
{
    Value::from(t)
}

/// `Value::from` a boolean: the value is that boolean.
#[verifier::external_body]
pub(crate) fn from_bool(b: bool) -> (value: Value)
    ensures
        json_of(value) == Json::Bool(b),
{
    Value::from(b)
}

/// `Value::from` an integer: the value is that number, which is written in decimal.
#[verifier::external_body]
pub(crate) fn from_u64(n: u64) -> (value: Value)
    ensures
        json_of(value) == Json::Number(text::numeral(n as nat, 10)),
{
    Value::from(n)
}

/// `Value::from` a vector of values: the value is a list of them.
#[verifier::external_body]
pub(crate) fn from_list(items: Vec<Value>) -> (value: Value)
    ensures
        json_of(value) == Json::List(jsons(items@)),
{
    Value::from(items)
}

/// `Value::from` a map: the value is an object with those members.
#[verifier::external_body]
pub(crate) fn from_members(members: serde_json::Map<String, Value>) -> (value: Value)
    ensures
        json_of(value) == Json::Object(members_of(members)),
{
    Value::from(members)
}

/// `Map::new`: no members.
#[verifier::external_body]
pub(crate) fn no_members() -> (members: serde_json::Map<String, Value>)
    ensures
        (members_of(members) == Map::<Seq<char>, Json>::empty()),
{
    serde_json::Map::new()
}

/// `Map::insert`: the value stands under the key, in place of what stood there.
#[verifier::external_body]
pub(crate) fn insert_member(members: &mut serde_json::Map<String, Value>, key: String, value: Value)
    ensures
        members_of(*final(members)) == members_of(*old(members)).insert(key@, json_of(value)),
{
    members.insert(key, value);
}

} // verus!
