//! JSON values of serde_json, and what is claimed of them.
use crate::flat::{flat_string, flat_text, is_flat, is_one_line, Member};
use vstd::prelude::*;
use vstd::string::*;

verus! {

/// A JSON value of serde_json. Its contents are named [`json_model`].
#[verifier::external_type_specification]
#[verifier::external_body]
pub struct ExValue(serde_json::Value);

/// What a JSON value holds.
pub enum JsonModel {
    Null,
    Bool(bool),
    /// A number, as serde_json writes it.
    Number(Seq<char>),
    Text(Seq<char>),
    List(Seq<JsonModel>),
    /// The members of an object, by their keys.
    Object(Map<Seq<char>, JsonModel>),
}

/// What a value of serde_json holds.
pub uninterp spec fn json_model(v: serde_json::Value) -> JsonModel;

/// The value that serde_json reads from a text, if it can read one.
pub uninterp spec fn json_parsed(text: Seq<char>) -> Option<JsonModel>;

/// The text that serde_json writes for a value, in its compact form.
pub uninterp spec fn json_text(m: JsonModel) -> Seq<char>;

/// The string member `key` of a value: of an object that has such a member, and the member is
/// a string.
pub open spec fn string_member(m: JsonModel, key: Seq<char>) -> Option<Seq<char>> {
    match m {
        JsonModel::Object(members) => if members.contains_key(key) {
            match members[key] {
                JsonModel::Text(t) => Some(t),
                _ => None,
            }
        } else {
            None
        },
        _ => None,
    }
}

/// An object of which every member is a string.
pub open spec fn is_text_object(m: JsonModel) -> bool {
    match m {
        JsonModel::Object(members) => forall|key: Seq<char>| #[trigger]
            members.contains_key(key) ==> members[key] is Text,
        _ => false,
    }
}

/// `serde_json::from_str` for a `Value`. The grammar is not spelled out: what is read is named
/// `json_parsed` of the text, and `None` stands for any error. The text of an object of strings,
/// numbers without an exponent and of bounded length, and truth values is read as an object with
/// those strings.
#[verifier::external_body]
pub(crate) fn parse_json(text: &str) -> (r: Option<serde_json::Value>)
    ensures
        match r {
            Some(v) => json_parsed(text@) == Some(json_model(v)),
            None => json_parsed(text@) is None,
        },
        forall|ms: Seq<(Seq<char>, Member)>|
            text@ == #[trigger] flat_text(ms) && is_flat(ms) ==> match r {
                Some(v) => json_model(v) is Object && forall|key: Seq<char>| #[trigger]
                    string_member(json_model(v), key) == flat_string(ms, key),
                None => false,
            },
{
    serde_json::from_str::<serde_json::Value>(text).ok()
}

/// `Value::is_object` tells whether the value is an object.
pub assume_specification[ serde_json::Value::is_object ](v: &serde_json::Value) -> (r: bool)
    ensures
        r == (json_model(*v) is Object),
;

/// `Value::as_str` gives the text of a string, and `None` of any other value.
pub assume_specification[ serde_json::Value::as_str ](v: &serde_json::Value) -> (r: Option<&str>)
    ensures
        match json_model(*v) {
            JsonModel::Text(t) => r is Some && r.unwrap()@ == t,
            _ => r is None,
        },
;

/// `Value::get` with a string: the member of that key if the value is an object that has one,
/// and `None` otherwise.
#[verifier::external_body]
fn member<'a>(v: &'a serde_json::Value, key: &str) -> (r: Option<&'a serde_json::Value>)
    ensures
        match json_model(*v) {
            JsonModel::Object(members) => match r {
                Some(w) => members.contains_key(key@) && json_model(*w) == members[key@],
                None => !members.contains_key(key@),
            },
            _ => r is None,
        },
{
    v.get(key)
}

/// `Value::Object` of `serde_json::Map::new`: an object without members.
#[verifier::external_body]
pub(crate) fn empty_object() -> (r: serde_json::Value)
    ensures
        json_model(r) == JsonModel::Object(Map::empty()),
{
    serde_json::Value::Object(serde_json::Map::new())
}

/// `serde_json::Map::insert` of a `Value::String` into the object that `as_object_mut` gives:
/// the member takes the place of one with the same key, and the others stay.
#[verifier::external_body]
pub(crate) fn set_string(v: &mut serde_json::Value, key: &str, text: &str)
    requires
        json_model(*old(v)) is Object,
    ensures
        json_model(*final(v)) == JsonModel::Object(
            json_model(*old(v))->Object_0.insert(key@, JsonModel::Text(text@)),
        ),
{
    if let Some(members) = v.as_object_mut() {
        members.insert(key.to_string(), serde_json::Value::String(text.to_string()));
    }
}

/// `Value::to_string`. How a value is written is not spelled out: the text is named `json_text`
/// of what the value holds. serde_json orders the members of an object by their keys, so the
/// text does not depend on the order in which they were put in.
///
/// The text takes one line: codes below 0x20 stand in strings only, and there they are escaped.
///
/// Of what `serde_json::from_str` reads from the text, this is said: an object of strings is read
/// back, and whatever the value, if the text can be read at all, its string members are those of
/// the value. Numbers need not be read back to the last digit, and values that are nested too
/// deep are not read back at all.
#[verifier::external_body]
pub(crate) fn json_to_text(v: &serde_json::Value) -> (r: String)
    ensures
        r@ == json_text(json_model(*v)),
        is_text_object(json_model(*v)) ==> json_parsed(r@) == Some(json_model(*v)),
        is_one_line(r@),
        json_parsed(r@) matches Some(m) ==> forall|key: Seq<char>|
            string_member(m, key) == #[trigger] string_member(json_model(*v), key),
{
    v.to_string()
}

/// The string member `key` of a value.
pub(crate) fn string_at(v: &serde_json::Value, key: &str) -> (r: Option<String>)
    ensures
        match r {
            Some(t) => string_member(json_model(*v), key@) == Some(t@),
            None => string_member(json_model(*v), key@) is None,
        },
{
    match member(v, key) {
        Some(w) => match w.as_str() {
            Some(t) => Some(t.to_owned()),
            None => None,
        },
        None => None,
    }
}

}
