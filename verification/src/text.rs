//! JSON text. Reading and writing it is the work of `serde_json`; what this
//! file states of `serde_json` is believed, not proved.

use crate::json::{Json, JsonNumber, JsonView};
use vstd::prelude::*;

verus! {

#[verifier::external_type_specification]
#[verifier::external_body]
pub struct ExValue(serde_json::Value);

#[verifier::external_type_specification]
#[verifier::external_body]
pub struct ExTextError(serde_json::Error);

/// The tree that a `serde_json::Value` holds: its items and members in the
/// order in which the value yields them, and of each number what
/// `serde_json::Number::as_u64` gives and the bits of what
/// `serde_json::Number::as_f64` gives.
pub uninterp spec fn value_tree(value: serde_json::Value) -> JsonView;

/// The tree of the `serde_json::Value` that `serde_json::from_slice` reads
/// from these bytes; none where it reports an error.
pub uninterp spec fn parsed_tree(input: Seq<u8>) -> Option<JsonView>;

/// The text that `serde_json::to_string` writes for the
/// `serde_json::Value` that holds this tree.
pub uninterp spec fn rendered_text(tree: JsonView) -> Seq<char>;

/// Calls `serde_json::from_slice` for a `serde_json::Value`. The contract
/// gives what was read the name [`parsed_tree`]; it says nothing of which
/// bytes are read as which tree.
#[verifier::external_body]
pub(crate) fn parse_value(input: &[u8]) -> (r: Result<serde_json::Value, serde_json::Error>)
    ensures
        match r {
            Ok(value) => parsed_tree(input@) == Some(value_tree(value)),
            Err(_) => parsed_tree(input@) is None,
        },
{
    serde_json::from_slice::<serde_json::Value>(input)
}

/// Copies a `serde_json::Value` into a tree of this library, variant by
/// variant; a number through `serde_json::Number::as_u64` and
/// `serde_json::Number::as_f64`, a map through `serde_json::Map::iter`. The
/// contract gives the result the name [`value_tree`].
#[verifier::external_body]
pub(crate) fn lift_value(value: &serde_json::Value) -> (tree: Json)
    ensures
        tree@ == value_tree(*value),
{
    match value {
        serde_json::Value::Null => Json::Null,
        serde_json::Value::Bool(b) => Json::Bool(*b),
        serde_json::Value::Number(n) => Json::Number(
            JsonNumber { unsigned: n.as_u64(), double: n.as_f64().map(|x| x.to_bits()) },
        ),
        serde_json::Value::String(s) => Json::String(s.clone()),
        serde_json::Value::Array(items) => Json::Array(items.iter().map(lift_value).collect()),
        serde_json::Value::Object(map) => Json::Object(
            map.iter().map(|(name, item)| (name.clone(), lift_value(item))).collect(),
        ),
    }
}

/// Copies a tree of this library into a `serde_json::Value`, variant by
/// variant; the members of an object are collected into a
/// `serde_json::Map`. The contract claims that the value holds the tree as
/// it was given. That is so for a tree in canonical form: its numbers are
/// unsigned integers, and a `serde_json::Map` with the feature
/// `preserve_order`, which this crate asks for, yields members of distinct
/// names in the order in which it got them.
#[verifier::external_body]
pub(crate) fn lower_value(tree: &Json) -> (value: serde_json::Value)
    requires
        tree@.canonical(),
    ensures
        value_tree(value) == tree@,
{
    match tree {
        Json::Null => serde_json::Value::Null,
        Json::Bool(b) => serde_json::Value::Bool(*b),
        Json::Number(n) => serde_json::Value::from(n.unsigned),
        Json::String(s) => serde_json::Value::String(s.clone()),
        Json::Array(items) => serde_json::Value::Array(items.iter().map(lower_value).collect()),
        Json::Object(members) => serde_json::Value::Object(
            members.iter().map(|(name, item)| (name.clone(), lower_value(item))).collect(),
        ),
    }
}

/// Calls `serde_json::to_string` on a `serde_json::Value`. The contract
/// gives the text the name [`rendered_text`], for a value whose numbers are
/// all unsigned integers, so that the tree says all that the value holds.
/// It claims that the call succeeds: the serializer of `serde_json` reports
/// an error only where its writer does or where a map has a key that is no
/// string; here the writer is a `Vec<u8>` and every key is a `String`.
#[verifier::external_body]
pub(crate) fn render_value(value: &serde_json::Value) -> (r: Result<String, serde_json::Error>)
    requires
        value_tree(*value).canonical(),
    ensures
        r is Ok,
        r matches Ok(text) ==> text@ == rendered_text(value_tree(*value)),
{
    serde_json::to_string(value)
}

/// The message of a `serde_json::Error`, through its `Display`. Nothing is
/// claimed of it.
#[verifier::external_body]
pub(crate) fn error_text(error: &serde_json::Error) -> (message: String) {
    error.to_string()
}

} // verus!
