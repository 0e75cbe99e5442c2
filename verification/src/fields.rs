//! Members of JSON objects that are there only where a parameter is: what
//! such an object holds, and the code that builds it.

use crate::json::{json_bool, json_list, json_of, json_set, json_text, json_u64, jsons_of, Json};
use crate::params::{has_key, lookup, QueryParams};
use crate::text::{parse_u32, parsed_u32, same_text, texts};
use serde_json::Value;
use vstd::prelude::*;

verus! {

/// `doc` with the member `field` set to the text `value`, where there is one.
pub open spec fn with_text(doc: Json, field: Seq<char>, value: Option<Seq<char>>) -> Json {
    match value {
        Some(v) => doc.with(field, Json::Text(v)),
        None => doc,
    }
}

/// `doc` with the member `field` set to the number that `value` stands for,
/// where there is a value and it stands for one.
pub open spec fn with_u32(doc: Json, field: Seq<char>, value: Option<Seq<char>>) -> Json {
    match value {
        Some(v) => match parsed_u32(v) {
            Some(n) => doc.with(field, Json::Int(n as int)),
            None => doc,
        },
        None => doc,
    }
}

/// `doc` with the member `field` set to whether `value` is the word `true`,
/// where there is a value.
pub open spec fn with_flag(doc: Json, field: Seq<char>, value: Option<Seq<char>>) -> Json {
    match value {
        Some(v) => doc.with(field, Json::Bool(v == "true"@)),
        None => doc,
    }
}

/// The texts as JSON strings.
pub open spec fn text_list(parts: Seq<Seq<char>>) -> Seq<Json> {
    Seq::new(parts.len(), |i: int| Json::Text(parts[i]))
}

/// An object that was given a member is not empty and holds that member.
pub proof fn lemma_with_has_members(doc: Json, key: Seq<char>, value: Json)
    ensures
        doc.with(key, value) != Json::empty_object(),
        doc.with(key, value).members().contains_key(key),
        doc.with(key, value).members()[key] == value,
{
    assert(doc.members().insert(key, value).contains_key(key));
    assert(!Map::<Seq<char>, Json>::empty().contains_key(key));
}

/// Copies the parameter `param` into the member `field`, as text, where the
/// parameter is there, and says whether it was.
pub(crate) fn copy_text(doc: &mut Value, field: &str, params: &QueryParams, param: &str) -> (copied:
    bool)
    requires
        json_of(*old(doc)) is Object,
    ensures
        json_of(*final(doc)) == with_text(json_of(*old(doc)), field@, lookup(params@, param@)),
        json_of(*final(doc)) is Object,
        copied == has_key(params@, param@),
        copied ==> json_of(*final(doc)) != Json::empty_object(),
        !copied ==> json_of(*final(doc)) == json_of(*old(doc)),
{
    match params.get(param) {
        Some(value) => {
            proof {
                lemma_with_has_members(json_of(*doc), field@, Json::Text(value@));
            }
            json_set(doc, field, json_text(value.as_str()));
            true
        },
        None => false,
    }
}

/// Copies the parameter `param` into the member `field`, as a number, where
/// the parameter is there and reads as one, and says whether it did.
pub(crate) fn copy_u32(doc: &mut Value, field: &str, params: &QueryParams, param: &str) -> (copied:
    bool)
    requires
        json_of(*old(doc)) is Object,
    ensures
        json_of(*final(doc)) == with_u32(json_of(*old(doc)), field@, lookup(params@, param@)),
        json_of(*final(doc)) is Object,
        copied == (lookup(params@, param@) matches Some(v) && parsed_u32(v) is Some),
        copied ==> json_of(*final(doc)) != Json::empty_object(),
        !copied ==> json_of(*final(doc)) == json_of(*old(doc)),
{
    match params.get(param) {
        Some(value) => match parse_u32(value.as_str()) {
            Some(n) => {
                proof {
                    lemma_with_has_members(json_of(*doc), field@, Json::Int(n as int));
                }
                json_set(doc, field, json_u64(n as u64));
                true
            },
            None => false,
        },
        None => false,
    }
}

/// Copies the parameter `param` into the member `field`, as a flag that is
/// set where the parameter is the word `true`, and says whether the parameter
/// was there.
pub(crate) fn copy_flag(doc: &mut Value, field: &str, params: &QueryParams, param: &str) -> (copied:
    bool)
    requires
        json_of(*old(doc)) is Object,
    ensures
        json_of(*final(doc)) == with_flag(json_of(*old(doc)), field@, lookup(params@, param@)),
        json_of(*final(doc)) is Object,
        copied == has_key(params@, param@),
        copied ==> json_of(*final(doc)) != Json::empty_object(),
        !copied ==> json_of(*final(doc)) == json_of(*old(doc)),
{
    match params.get(param) {
        Some(value) => {
            proof {
                lemma_with_has_members(json_of(*doc), field@, Json::Bool(value@ == "true"@));
            }
            json_set(doc, field, json_bool(same_text(value.as_str(), "true")));
            true
        },
        None => false,
    }
}

/// The list of the given texts.
pub(crate) fn json_texts(parts: &Vec<String>) -> (list: Value)
    ensures
        json_of(list) == Json::List(text_list(texts(parts@))),
{
    let mut items: Vec<Value> = Vec::new();
    let mut i: usize = 0;
    while i < parts.len()
        invariant
            i <= parts.len(),
            jsons_of(items@) == text_list(texts(parts@)).take(i as int),
        decreases parts.len() - i,
    {
        let item = json_text(parts[i].as_str());
        proof {
            assert(jsons_of(items@.push(item)) == jsons_of(items@).push(json_of(item)));
        }
        items.push(item);
        i += 1;
    }
    proof {
        assert(text_list(texts(parts@)).take(parts.len() as int) == text_list(texts(parts@)));
    }
    json_list(items)
}

/// The list of one item.
pub(crate) fn one_item(item: Value) -> (list: Value)
    ensures
        json_of(list) == Json::List(seq![json_of(item)]),
{
    let mut items: Vec<Value> = Vec::new();
    items.push(item);
    proof {
        assert(jsons_of(items@) == seq![json_of(item)]);
    }
    json_list(items)
}

} // verus!
