//! JSON documents of `serde_json`, as far as the browser reads them.
//!
//! A [`Value`] is opaque here. What the browser reads of one has a name, and
//! the accessors of `serde_json` are specified over those names.

use serde_json::Value;
use vstd::prelude::*;

verus! {

/// `serde_json::Value`, a JSON document, carried as an opaque value.
#[verifier::external_type_specification]
#[verifier::external_body]
pub struct ExValue(Value);

/// The text that a document is, where it is a JSON string.
pub uninterp spec fn json_text(value: Value) -> Option<Seq<char>>;

/// The elements of a document, where it is a JSON array.
pub uninterp spec fn json_items(value: Value) -> Option<Seq<Value>>;

/// The member `key` of a document, where it is a JSON object that has one.
pub uninterp spec fn json_field(value: Value, key: Seq<char>) -> Option<Value>;

/// A document as `Debug` formats it.
pub uninterp spec fn json_debug(value: Value) -> Seq<char>;

/// A document as indented JSON text, where it can be written as such.
pub uninterp spec fn json_pretty(value: Value) -> Option<Seq<char>>;

/// Cloning a JSON document yields an equal document.
pub assume_specification[ <Value as Clone>::clone ](value: &Value) -> (copy: Value)
    ensures
        copy == *value,
;

/// `Value::as_str`: the text of a JSON string, and nothing for any other
/// document.
pub assume_specification<'a>[ Value::as_str ](value: &'a Value) -> (text: Option<&'a str>)
    ensures
        match text {
            Some(s) => json_text(*value) == Some(s@),
            None => json_text(*value) is None,
        },
;

/// `Value::as_array`: the elements of a JSON array, and nothing for any
/// other document.
pub assume_specification<'a>[ Value::as_array ](value: &'a Value) -> (items: Option<
    &'a Vec<Value>,
>)
    ensures
        match items {
            Some(v) => json_items(*value) == Some(v@),
            None => json_items(*value) is None,
        },
;

/// `Value::get` with a text as the index: the member of that name of a JSON
/// object, and nothing where the document is no object or has no such member.
#[verifier::external_body]
pub(crate) fn field<'a>(value: &'a Value, key: &str) -> (member: Option<&'a Value>)
    ensures
        match member {
            Some(v) => json_field(*value, key@) == Some(*v),
            None => json_field(*value, key@) is None,
        },
{
    value.get(key)
}

/// A document as its `Debug` implementation formats it.
#[verifier::external_body]
pub(crate) fn debug_text(value: &Value) -> (text: String)
    ensures
        text@ == json_debug(*value),
{
    format!("{:?}", value)
}

/// `serde_json::to_string_pretty`: the document as indented JSON text, or
/// nothing where serialization fails.
#[verifier::external_body]
pub(crate) fn pretty_text(value: &Value) -> (text: Option<String>)
    ensures
        match text {
            Some(s) => json_pretty(*value) == Some(s@),
            None => json_pretty(*value) is None,
        },
{
    serde_json::to_string_pretty(value).ok()
}

} // verus!
