//! JSON documents as trees of plain values.

use serde_json::Value as Dom;
use vstd::prelude::*;

verus! {

/// `serde_json::Value`, a JSON document as the outside crate holds it, as
/// an opaque value.
#[verifier::external_type_specification]
#[verifier::external_body]
pub struct ExDom(Dom);

/// A JSON document. The members of an object stand in the order of the
/// text; a number is kept as its literal.
#[derive(Debug)]
pub enum Json {
    Null,
    Bool(bool),
    Number(String),
    Text(String),
    Array(Vec<Json>),
    Object(Vec<(String, Json)>),
}

/// The document that `serde_json::from_str` reads from a text, or `None`
/// where it refuses the text.
pub uninterp spec fn json_document(text: Seq<char>) -> Option<Json>;

/// The document that a `serde_json::Value` holds.
pub uninterp spec fn json_tree(value: Dom) -> Json;

/// `serde_json::from_str` for a `serde_json::Value`, with its error dropped: the value that it
/// reads holds the document of the text.
#[verifier::external_body]
fn read_value(text: &str) -> (r: Option<Dom>)
    ensures
        match r {
            Some(value) => json_document(text@) == Some(json_tree(value)),
            None => json_document(text@) is None,
        },
{
    serde_json::from_str::<Dom>(text).ok()
}

/// The variants of `serde_json::Value`, one for one, as a [`Json`]; the
/// members of a `serde_json::Map` in the order in which it iterates.
#[verifier::external_body]
fn tree_of(value: &Dom) -> (json: Json)
    ensures
        json == json_tree(*value),
{
    match value {
        Dom::Null => Json::Null,
        Dom::Bool(b) => Json::Bool(*b),
        Dom::Number(n) => Json::Number(n.to_string()),
        Dom::String(s) => Json::Text(s.clone()),
        Dom::Array(items) => Json::Array(items.iter().map(tree_of).collect()),
        Dom::Object(members) => Json::Object(
            members.iter().map(|(k, v)| (k.clone(), tree_of(v))).collect(),
        ),
    }
}

/// Read a JSON document from its text.
pub fn parse_json(text: &str) -> (r: Option<Json>)
    ensures
        r == json_document(text@),
{
    match read_value(text) {
        Some(value) => Some(tree_of(&value)),
        None => None,
    }
}

} // verus!
