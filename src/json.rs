//! Parsed structured documents: serde_json's `Value`, and what it holds as
//! plain data.
use vstd::prelude::*;
use crate::error::HarvestError;

verus! {

#[verifier::external_type_specification]
#[verifier::external_body]
pub struct ExValue(serde_json::Value);

#[verifier::external_type_specification]
#[verifier::external_body]
pub struct ExJsonError(serde_json::Error);

/// What a parsed document holds: object, array or scalar nodes. Object
/// members come in the order in which the map hands them out.
pub enum JsonView {
    Null,
    Bool(bool),
    /// A number, as the text serde_json writes for it.
    Number(Seq<char>),
    Str(Seq<char>),
    Array(Seq<JsonView>),
    Object(Seq<(Seq<char>, JsonView)>),
}

/// What a `serde_json::Value` holds.
pub uninterp spec fn value_view(v: serde_json::Value) -> JsonView;

/// The document serde_json reads from the text; `None` where it refuses it.
pub uninterp spec fn parsed_json(text: Seq<char>) -> Option<JsonView>;

/// Whether serde_json accepts the text as a document.
pub open spec fn json_parses(text: Seq<char>) -> bool {
    parsed_json(text) is Some
}

/// Relies on `serde_json::from_str`: parses the text into a `Value`, failing
/// exactly on text it does not accept; the result depends on the text alone.
#[verifier::external_body]
fn parse_value(text: &str) -> (r: Result<serde_json::Value, serde_json::Error>)
    ensures
        r is Ok <==> parsed_json(text@) is Some,
        r matches Ok(v) ==> parsed_json(text@) == Some(value_view(v)),
{
    serde_json::from_str::<serde_json::Value>(text)
}

/// One level of a parsed value: its scalar, or its children.
pub(crate) enum Node {
    Null,
    Bool(bool),
    Number(String),
    Str(String),
    Array(Vec<serde_json::Value>),
    Object(Vec<(String, serde_json::Value)>),
}

/// Relies on the variants of `serde_json::Value`, the text of a `Number`, and
/// `Map::iter`, which hands out the members in the map's order.
#[verifier::external_body]
pub(crate) fn node_of(v: &serde_json::Value) -> (r: Node)
    ensures
        match r {
            Node::Null => value_view(*v) == JsonView::Null,
            Node::Bool(b) => value_view(*v) == JsonView::Bool(b),
            Node::Number(n) => value_view(*v) == JsonView::Number(n@),
            Node::Str(s) => value_view(*v) == JsonView::Str(s@),
            Node::Array(a) => value_view(*v) == JsonView::Array(
                a@.map_values(|x: serde_json::Value| value_view(x))),
            Node::Object(m) => value_view(*v) == JsonView::Object(
                m@.map_values(|p: (String, serde_json::Value)| (p.0@, value_view(p.1)))),
        },
{
    match v {
        serde_json::Value::Null => Node::Null,
        serde_json::Value::Bool(b) => Node::Bool(*b),
        serde_json::Value::Number(n) => Node::Number(n.to_string()),
        serde_json::Value::String(s) => Node::Str(s.clone()),
        serde_json::Value::Array(a) => Node::Array(a.clone()),
        serde_json::Value::Object(m) => Node::Object(m.iter().map(|(k, x)| (k.clone(), x.clone())).collect()),
    }
}

/// Parses a document. Text that serde_json refuses gives `ParseFailure`.
pub fn parse_document(text: &String) -> (r: Result<serde_json::Value, HarvestError>)
    ensures
        json_parses(text@) <==> r is Ok,
        r matches Ok(v) ==> parsed_json(text@) == Some(value_view(v)),
        !json_parses(text@) ==> r == Err::<serde_json::Value, HarvestError>(HarvestError::ParseFailure),
{
    match parse_value(text.as_str()) {
        Ok(v) => Ok(v),
        Err(_) => Err(HarvestError::ParseFailure),
    }
}

/// The characters of an optional string.
pub open spec fn opt_view(o: Option<String>) -> Option<Seq<char>> {
    match o {
        Some(s) => Some(s@),
        None => None,
    }
}

/// The characters of each pair of strings.
pub open spec fn pairs_view(v: Seq<(String, String)>) -> Seq<(Seq<char>, Seq<char>)> {
    v.map_values(|p: (String, String)| (p.0@, p.1@))
}

} // verus!
