//! JSON documents as the forwarding engine reads them.
//!
//! The documents themselves are values of `serde_json`. What such a value holds
//! is described here by the tree [`Json`], and the handful of operations that
//! build, read, parse and print a value are stated over that tree.

use serde_json::Value;
use vstd::prelude::*;

verus! {

/// A JSON value of `serde_json`. The verifier carries it and never looks
/// inside; what it holds is named by [`json_of`].
#[verifier::external_type_specification]
#[verifier::external_body]
pub struct ExValue(serde_json::Value);

/// The error of `serde_json`. The verifier carries it and never looks inside.
#[verifier::external_type_specification]
#[verifier::external_body]
pub struct ExJsonError(serde_json::Error);

/// What a JSON value holds.
pub enum Json {
    Null,
    Bool(bool),
    /// A whole number that fits in 64 bits, signed or unsigned.
    Int(int),
    /// Any other number, by the digits that stand for it.
    Real(Seq<char>),
    Text(Seq<char>),
    List(Seq<Json>),
    /// The members of an object by their keys; the keys carry no order.
    Object(Map<Seq<char>, Json>),
}

impl Json {
    /// The members of an object; no members for any other value.
    pub open spec fn members(self) -> Map<Seq<char>, Json> {
        match self {
            Json::Object(m) => m,
            _ => Map::empty(),
        }
    }

    /// The object that holds the members of `self` and `key` with `value`.
    pub open spec fn with(self, key: Seq<char>, value: Json) -> Json {
        Json::Object(self.members().insert(key, value))
    }

    /// The object without members.
    pub open spec fn empty_object() -> Json {
        Json::Object(Map::empty())
    }
}

/// The tree that a value of `serde_json` holds.
pub uninterp spec fn json_of(v: Value) -> Json;

/// The tree that `serde_json::from_str` reads from a text, where it reads one.
pub uninterp spec fn json_parsed(text: Seq<char>) -> Option<Json>;

/// The text that `serde_json::to_string_pretty` prints for a tree.
pub uninterp spec fn json_pretty(doc: Json) -> Seq<char>;

/// The trees of a run of values.
pub open spec fn jsons_of(values: Seq<Value>) -> Seq<Json> {
    Seq::new(values.len(), |i: int| json_of(values[i]))
}

/// Trusted: `Value::Bool` holds the given truth value.
#[verifier::external_body]
pub(crate) fn json_bool(b: bool) -> (v: Value)
    ensures
        json_of(v) == Json::Bool(b),
{
    Value::Bool(b)
}

/// Trusted: `Value::from` on a `u64` is the number with that value.
#[verifier::external_body]
pub(crate) fn json_u64(n: u64) -> (v: Value)
    ensures
        json_of(v) == Json::Int(n as int),
{
    Value::from(n)
}

/// Trusted: `Value::from` on an `i64` is the number with that value.
#[verifier::external_body]
pub(crate) fn json_i64(n: i64) -> (v: Value)
    ensures
        json_of(v) == Json::Int(n as int),
{
    Value::from(n)
}

/// Trusted: `Value::from` on a string slice is the string with those
/// characters.
#[verifier::external_body]
pub(crate) fn json_text(s: &str) -> (v: Value)
    ensures
        json_of(v) == Json::Text(s@),
{
    Value::from(s)
}

/// Trusted: `Value::Array` holds the given values in their order.
#[verifier::external_body]
pub(crate) fn json_list(items: Vec<Value>) -> (v: Value)
    ensures
        json_of(v) == Json::List(jsons_of(items@)),
{
    Value::Array(items)
}

/// Trusted: `Map::new` is the map without members, and `Value::Object` of it
/// the object without members.
#[verifier::external_body]
pub(crate) fn json_object() -> (v: Value)
    ensures
        json_of(v) == Json::empty_object(),
{
    Value::Object(serde_json::Map::new())
}

/// Trusted: assigning through `IndexMut<&str>` on an object sets the member
/// `key` to `value`, whether or not the key was there, and leaves the other
/// members alone. On a value that is neither an object nor null the index
/// panics, hence the `requires`.
#[verifier::external_body]
pub(crate) fn json_set(object: &mut Value, key: &str, value: Value)
    requires
        json_of(*old(object)) is Object,
    ensures
        json_of(*final(object)) == json_of(*old(object)).with(key@, json_of(value)),
{
    object[key] = value;
}

/// Trusted: `Value::get` with a string key finds the member of that name in an
/// object, and nothing in any other value.
#[verifier::external_body]
pub(crate) fn json_member<'a>(v: &'a Value, key: &str) -> (member: Option<&'a Value>)
    ensures
        match member {
            Some(m) => json_of(*v) is Object && json_of(*v).members().contains_key(key@)
                && json_of(*m) == json_of(*v).members()[key@],
            None => !(json_of(*v) is Object && json_of(*v).members().contains_key(key@)),
        },
{
    v.get(key)
}

/// Trusted: `Value::as_str` gives the characters of a string, and nothing for
/// any other value.
#[verifier::external_body]
pub(crate) fn json_as_text(v: &Value) -> (text: Option<String>)
    ensures
        match text {
            Some(s) => json_of(*v) == Json::Text(s@),
            None => !(json_of(*v) is Text),
        },
{
    v.as_str().map(str::to_owned)
}

/// Trusted: `Value::as_u64` gives a whole number that is not negative and fits
/// in 64 bits, and nothing for any other value.
#[verifier::external_body]
pub(crate) fn json_as_u64(v: &Value) -> (number: Option<u64>)
    ensures
        match number {
            Some(n) => json_of(*v) == Json::Int(n as int),
            None => !(json_of(*v) matches Json::Int(i) && 0 <= i <= u64::MAX),
        },
{
    v.as_u64()
}

/// Trusted: `serde_json::from_str` reads a text into a value or refuses it, and
/// what it reads depends on the text alone.
#[verifier::external_body]
pub(crate) fn json_parse(text: &str) -> (v: Option<Value>)
    ensures
        match v {
            Some(value) => json_parsed(text@) == Some(json_of(value)),
            None => json_parsed(text@) is None,
        },
{
    serde_json::from_str(text).ok()
}

/// Trusted: `serde_json::to_string_pretty` prints every value, and what it
/// prints depends on the tree of the value alone. It cannot fail on a value:
/// the keys of an object are strings, a number that is no finite float cannot
/// be held, and the text is written to a vector of bytes, which takes all
/// that is written to it.
#[verifier::external_body]
pub(crate) fn json_print(doc: &Value) -> (text: Result<String, serde_json::Error>)
    ensures
        text is Ok,
        text matches Ok(s) ==> s@ == json_pretty(json_of(*doc)),
{
    serde_json::to_string_pretty(doc)
}

} // verus!
