//! The calls into `serde_json`.
//!
//! A parsed JSON value is opaque here. What the library reads of it has a
//! name: the string members and the array members of an object, the text of
//! a string, the elements of an array, and the serialized form. The
//! functions below read a value, and what they return is held in types of
//! this library.

use crate::text::{chars_of, string_of};
use vstd::prelude::*;

verus! {

#[verifier::external_type_specification]
#[verifier::external_body]
pub struct ExJsonValue(serde_json::Value);

/// The string members that a JSON value holds: each name under which the
/// value, being an object, has a member that is a JSON string, with the text
/// of that string. A value that is no object holds none.
pub uninterp spec fn json_strings(value: serde_json::Value) -> Map<Seq<char>, Seq<char>>;

/// The text that a JSON value holds when it is a JSON string.
pub uninterp spec fn json_string(value: serde_json::Value) -> Option<Seq<char>>;

/// The elements that a JSON value holds when it is a JSON array, in order,
/// each by its string members and its serialized form.
pub uninterp spec fn json_items(value: serde_json::Value) -> Option<
    Seq<(Map<Seq<char>, Seq<char>>, Seq<char>)>,
>;

/// The array members that a JSON value holds: each name under which the
/// value, being an object, has a member that is a JSON array, with the
/// elements of that array, each by its string members and its serialized
/// form. A value that is no object holds none.
pub uninterp spec fn json_lists(value: serde_json::Value) -> Map<
    Seq<char>,
    Seq<(Map<Seq<char>, Seq<char>>, Seq<char>)>,
>;

/// The compact serialization of a JSON value, as `serde_json::to_string`
/// gives it (empty where that fails).
pub uninterp spec fn json_form(value: serde_json::Value) -> Seq<char>;

/// What `serde_json::from_str` makes of a text: `None` when the text is not
/// valid JSON; otherwise the string members and the array members of the
/// value that it parses to.
pub uninterp spec fn json_parsed(text: Seq<char>) -> Option<
    (Map<Seq<char>, Seq<char>>, Map<Seq<char>, Seq<(Map<Seq<char>, Seq<char>>, Seq<char>)>>),
>;

/// The text under `key` among the string members `strings`, if there is one.
pub open spec fn text_under(strings: Map<Seq<char>, Seq<char>>, key: Seq<char>) -> Option<
    Seq<char>,
> {
    if strings.contains_key(key) {
        Some(strings[key])
    } else {
        None
    }
}

/// The text of the string member `key` of `value`, if it has one.
pub open spec fn string_member_spec(value: serde_json::Value, key: Seq<char>) -> Option<
    Seq<char>,
> {
    text_under(json_strings(value), key)
}

/// The elements of the array member `key` of `value`, if it has one, each by
/// its string members and its serialized form.
pub open spec fn list_member_spec(value: serde_json::Value, key: Seq<char>) -> Option<
    Seq<(Map<Seq<char>, Seq<char>>, Seq<char>)>,
> {
    if json_lists(value).contains_key(key) {
        Some(json_lists(value)[key])
    } else {
        None
    }
}

/// The values, each by its string members and its serialized form.
pub open spec fn items_view(values: Seq<serde_json::Value>) -> Seq<
    (Map<Seq<char>, Seq<char>>, Seq<char>),
> {
    Seq::new(values.len(), |i: int| (json_strings(values[i]), json_form(values[i])))
}

/// Trusted: `serde_json::from_str` for a `Value`. `None` stands for a parse
/// error. The outcome depends on the text alone: whether it parses, and the
/// string members and array members of the value, are what [`json_parsed`]
/// names.
#[verifier::external_body]
pub(crate) fn parse_json(text: &str) -> (r: Option<serde_json::Value>)
    ensures
        match r {
            Some(value) => json_parsed(text@) == Some((json_strings(value), json_lists(value))),
            None => json_parsed(text@) is None,
        },
{
    serde_json::from_str::<serde_json::Value>(text).ok()
}

/// Trusted: `Value::get` with a string key, which gives the member of that
/// name when the value is an object that has one, and `None` otherwise. The
/// value has a string member of that name exactly when a member comes back
/// that is a JSON string, and then with the text of that member; it has an
/// array member of that name exactly when a member comes back that is a JSON
/// array, and then with the elements of that member.
#[verifier::external_body]
pub(crate) fn json_member<'a>(value: &'a serde_json::Value, key: &str) -> (r: Option<
    &'a serde_json::Value,
>)
    ensures
        match r {
            Some(member) => {
                &&& json_strings(*value).contains_key(key@) <==> json_string(*member) is Some
                &&& json_strings(*value).contains_key(key@) ==> json_strings(*value)[key@]
                    == json_string(*member)->0
                &&& json_lists(*value).contains_key(key@) <==> json_items(*member) is Some
                &&& json_lists(*value).contains_key(key@) ==> json_lists(*value)[key@]
                    == json_items(*member)->0
            },
            None => !json_strings(*value).contains_key(key@) && !json_lists(*value).contains_key(
                key@,
            ),
        },
{
    value.get(key)
}

/// Trusted: `Value::as_str`, which gives the text when the value is a JSON
/// string, and `None` otherwise.
#[verifier::external_body]
pub(crate) fn json_text<'a>(value: &'a serde_json::Value) -> (r: Option<&'a str>)
    ensures
        r.deep_view() == json_string(*value),
{
    value.as_str()
}

/// Trusted: `Value::as_array`, which gives the elements when the value is a
/// JSON array, and `None` otherwise.
#[verifier::external_body]
pub(crate) fn json_elements<'a>(value: &'a serde_json::Value) -> (r: Option<
    &'a Vec<serde_json::Value>,
>)
    ensures
        match r {
            Some(elements) => json_items(*value) == Some(items_view(elements@)),
            None => json_items(*value) is None,
        },
{
    value.as_array()
}

/// Trusted: `serde_json::to_string` of a `Value`, its compact serialization;
/// an empty text stands for an error. The text is what [`json_form`] names.
#[verifier::external_body]
pub(crate) fn json_serialize(value: &serde_json::Value) -> (r: String)
    ensures
        r@ == json_form(*value),
{
    serde_json::to_string(value).unwrap_or_default()
}

/// The text of the member `key` of `value`, when `value` is an object whose
/// member of that name is a string; `None` otherwise.
pub fn string_member(value: &serde_json::Value, key: &str) -> (r: Option<String>)
    ensures
        r.deep_view() == string_member_spec(*value, key@),
{
    match json_member(value, key) {
        Some(member) => match json_text(member) {
            Some(text) => {
                let chars = chars_of(text);
                Some(string_of(&chars))
            },
            None => None,
        },
        None => None,
    }
}

/// The elements of the member `key` of `value`, when `value` is an object
/// whose member of that name is an array; `None` otherwise.
pub fn array_member<'a>(value: &'a serde_json::Value, key: &str) -> (r: Option<
    &'a Vec<serde_json::Value>,
>)
    ensures
        match r {
            Some(elements) => list_member_spec(*value, key@) == Some(items_view(elements@)),
            None => list_member_spec(*value, key@) is None,
        },
{
    match json_member(value, key) {
        Some(member) => json_elements(member),
        None => None,
    }
}

} // verus!
