//! JSON documents as mathematical values, and the calls into `serde_json`
//! that read, take apart, build and print them.
//!
//! Verified code holds a `serde_json::Value` without seeing inside it. What
//! it knows of such a value is the document `json_of` gives for it, and it
//! learns that only from the contracts below, none of which is proved.

use crate::assoc::{distinct_names, map_of};
use vstd::prelude::*;

verus! {

/// A JSON document.
pub enum Json {
    /// `null`.
    Null,
    /// `true` or `false`.
    Bool(bool),
    /// A number, by the literal that `serde_json` prints for it.
    Number(Seq<char>),
    /// A string.
    Text(Seq<char>),
    /// An array: its elements in order.
    Array(Seq<Json>),
    /// An object: its members by name.
    Object(Map<Seq<char>, Json>),
}

/// `serde_json::Value`, a JSON value in memory. Nothing inside it is
/// visible here.
#[verifier::external_type_specification]
#[verifier::external_body]
pub struct ExValue(serde_json::Value);

/// `serde_json::Error`, what `serde_json` hands back when it fails. Nothing
/// inside it is visible here.
#[verifier::external_type_specification]
#[verifier::external_body]
pub struct ExError(serde_json::Error);

/// The document that a `serde_json::Value` holds.
pub uninterp spec fn json_of(value: serde_json::Value) -> Json;

/// The document that `serde_json::from_str` reads from a text, `None` where
/// it rejects the text.
pub uninterp spec fn parsed(text: Seq<char>) -> Option<Json>;

/// The text that `serde_json::to_string_pretty` prints for a document.
pub uninterp spec fn rendered(doc: Json) -> Seq<char>;

/// What a vector of members lists: each name with the document of its value.
pub open spec fn member_entries(members: Seq<(String, serde_json::Value)>) -> Seq<
    (Seq<char>, Json),
> {
    members.map_values(|member: (String, serde_json::Value)| (member.0@, json_of(member.1)))
}

/// `serde_json::from_str` at the type `serde_json::Value`. Whether it
/// accepts a text depends on the text alone, and the value it gives holds
/// the document `parsed` names.
#[verifier::external_body]
pub(crate) fn parse_text(text: &str) -> (r: Result<serde_json::Value, serde_json::Error>)
    ensures
        match r {
            Ok(value) => parsed(text@) == Some(json_of(value)),
            Err(_) => parsed(text@) is None,
        },
{
    serde_json::from_str::<serde_json::Value>(text)
}

/// `serde_json::to_string_pretty` of a value. It gives a text for every
/// value: all it writes goes into a byte vector, which takes whatever is
/// written to it, and the members of a value have strings for names. The
/// text is the one `rendered` names for the value's document: with the
/// crate's default features an object's members are printed in the order of
/// their names, whatever order they were inserted in.
#[verifier::external_body]
pub(crate) fn render_pretty(value: &serde_json::Value) -> (r: Result<String, serde_json::Error>)
    ensures
        r is Ok,
        r->Ok_0@ == rendered(json_of(*value)),
{
    serde_json::to_string_pretty(value)
}

/// `serde_json::Value::as_str`: the text of a string, `None` for any other
/// value.
#[verifier::external_body]
pub(crate) fn value_text(value: &serde_json::Value) -> (r: Option<String>)
    ensures
        match r {
            Some(text) => json_of(*value) == Json::Text(text@),
            None => !(json_of(*value) is Text),
        },
{
    value.as_str().map(|text| text.to_owned())
}

/// `serde_json::Value::as_bool`: the truth value of a boolean, `None` for
/// any other value.
#[verifier::external_body]
pub(crate) fn value_flag(value: &serde_json::Value) -> (r: Option<bool>)
    ensures
        match r {
            Some(flag) => json_of(*value) == Json::Bool(flag),
            None => !(json_of(*value) is Bool),
        },
{
    value.as_bool()
}

/// `serde_json::Value::as_object` and `serde_json::Map::iter`: the members
/// of an object, each once, in the order in which the map hands them out;
/// `None` for any other value.
#[verifier::external_body]
pub(crate) fn value_members(value: &serde_json::Value) -> (r: Option<Vec<(String, serde_json::Value)>>)
    ensures
        match r {
            Some(members) => distinct_names(member_entries(members@)) && json_of(*value)
                == Json::Object(map_of(member_entries(members@))),
            None => !(json_of(*value) is Object),
        },
{
    value.as_object().map(|map| map.iter().map(|(name, member)| (name.clone(), member.clone())).collect())
}

/// `serde_json::Value::String`: the value that holds a text.
#[verifier::external_body]
pub(crate) fn text_value(text: String) -> (value: serde_json::Value)
    ensures
        json_of(value) == Json::Text(text@),
{
    serde_json::Value::String(text)
}

/// `serde_json::Value::Bool`: the value that holds a truth value.
#[verifier::external_body]
pub(crate) fn flag_value(flag: bool) -> (value: serde_json::Value)
    ensures
        json_of(value) == Json::Bool(flag),
{
    serde_json::Value::Bool(flag)
}

/// `serde_json::Value::Object` of the `serde_json::Map` collected from
/// members whose names differ: the object with exactly these members.
#[verifier::external_body]
pub(crate) fn object_value(members: Vec<(String, serde_json::Value)>) -> (value: serde_json::Value)
    requires
        distinct_names(member_entries(members@)),
    ensures
        json_of(value) == Json::Object(map_of(member_entries(members@))),
{
    serde_json::Value::Object(members.into_iter().collect())
}

} // verus!
