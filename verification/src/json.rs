//! The JSON values that tools take and give, and the calls into
//! `serde_json` that read and write them.
//!
//! A `serde_json::Value` is opaque here: the library carries it through
//! and asks `serde_json` about it. What each call gives back is named, as
//! a function of its argument: the members read out of a text, and the
//! answers about a value.
use vstd::prelude::*;

verus! {

/// A JSON value, as `serde_json` holds it.
#[verifier::external_type_specification]
#[verifier::external_body]
pub struct ExJsonValue(serde_json::Value);

/// The characters of an optional string.
pub open spec fn opt_view(o: Option<String>) -> Option<Seq<char>> {
    match o {
        Some(s) => Some(s@),
        None => None,
    }
}

/// The keys (as characters) and values of a sequence of members.
pub open spec fn member_views(ms: Seq<(String, serde_json::Value)>) -> Seq<(Seq<char>, serde_json::Value)> {
    ms.map_values(|m: (String, serde_json::Value)| (m.0@, m.1))
}

/// The members of the JSON object that `text` holds, as `serde_json`
/// parses it into a `Map`: each key once, with its value, in the map's
/// order. `None` when `text` is not one JSON object.
pub uninterp spec fn json_object_fields(text: Seq<char>) -> Option<
    Seq<(Seq<char>, serde_json::Value)>,
>;

/// The text of `v` if it is a JSON string (`Value::as_str`).
pub uninterp spec fn json_value_str(v: serde_json::Value) -> Option<Seq<char>>;

/// Whether `v` is a JSON object (`Value::is_object`).
pub uninterp spec fn json_value_is_object(v: serde_json::Value) -> bool;

/// `v` as compact JSON text (`Value`'s `Display`).
pub uninterp spec fn json_value_text(v: serde_json::Value) -> Seq<char>;

/// `v` as indented JSON text (`serde_json::to_string_pretty`), or `None`
/// when serialization fails.
pub uninterp spec fn json_pretty_text(v: serde_json::Value) -> Option<Seq<char>>;

/// `serde_json::from_str` into an object (`Map<String, Value>`): the
/// members of the object that `text` holds, each key with its value, or
/// `None` when `text` is not one JSON object.
#[verifier::external_body]
pub fn json_object_members(text: &str) -> (r: Option<Vec<(String, serde_json::Value)>>)
    ensures
        r is Some <==> json_object_fields(text@) is Some,
        r matches Some(ms) ==> member_views(ms@) == json_object_fields(text@)->0,
{
    let map = serde_json::from_str::<serde_json::Map<String, serde_json::Value>>(text).ok()?;
    Some(map.into_iter().collect())
}

/// `Value::as_str`: the text of `v` if it is a JSON string.
#[verifier::external_body]
pub fn json_as_str(v: &serde_json::Value) -> (r: Option<String>)
    ensures
        opt_view(r) == json_value_str(*v),
{
    v.as_str().map(String::from)
}

/// `Value::is_object`: whether `v` is a JSON object.
#[verifier::external_body]
pub fn json_is_object(v: &serde_json::Value) -> (r: bool)
    ensures
        r == json_value_is_object(*v),
{
    v.is_object()
}

/// `Value::clone` (derived by `serde_json`): a copy of `v`, the same value.
pub assume_specification[ <serde_json::Value as Clone>::clone ](v: &serde_json::Value) -> (r:
    serde_json::Value)
    ensures
        r == *v,
;

/// `Value`'s `Display`: `v` as compact JSON text.
#[verifier::external_body]
pub fn json_text(v: &serde_json::Value) -> (r: String)
    ensures
        r@ == json_value_text(*v),
{
    v.to_string()
}

/// `serde_json::to_string_pretty`: `v` as indented JSON text, or `None`
/// when serialization fails.
#[verifier::external_body]
pub fn json_pretty(v: &serde_json::Value) -> (r: Option<String>)
    ensures
        opt_view(r) == json_pretty_text(*v),
{
    serde_json::to_string_pretty(v).ok()
}

} // verus!
