//! JSON path evaluation on event payloads (RFC 9535 paths, through
//! `serde_json_path`).
use vstd::prelude::*;

use crate::projection::definition::ProjectionDefinition;

verus! {

/// `serde_json_path::JsonPath`, a parsed JSON path query.
#[verifier::external_type_specification]
#[verifier::external_body]
pub struct ExJsonPath(serde_json_path::JsonPath);

/// What `JsonPath::parse` gives for a path string: the parsed query, or
/// nothing when the string is not a valid JSON path.
pub uninterp spec fn parsed_json_path(path: Seq<char>) -> Option<serde_json_path::JsonPath>;

/// What `JsonPath::query(..).first()` gives: the first node that the query
/// selects in the payload, if any.
pub uninterp spec fn json_path_first_node(path: serde_json_path::JsonPath, payload: serde_json::Value) -> Option<serde_json::Value>;

/// A path of the form `$.name` or `$.name.name...`, where each name is
/// non-empty, starts with no ASCII digit, and holds only ASCII letters,
/// digits and `_` or non-ASCII characters (RFC 9535 member-name shorthand).
pub open spec fn is_member_path(path: Seq<char>) -> bool {
    &&& path.len() >= 2
    &&& path[0] == '$'
    &&& path[1] == '.'
    &&& forall|i: int| 1 <= i < path.len() ==> if #[trigger] path[i] == '.' {
        i + 1 < path.len() && is_name_start(path[i + 1])
    } else {
        is_name_char(path[i])
    }
}

pub open spec fn is_name_start(c: char) -> bool {
    ('a' <= c <= 'z') || ('A' <= c <= 'Z') || c == '_' || (c as u32) >= 0x80
}

pub open spec fn is_name_char(c: char) -> bool {
    is_name_start(c) || ('0' <= c <= '9')
}

/// Calls `serde_json_path::JsonPath::parse`. Paths made of `$` and
/// member-name shorthands are valid JSON paths by RFC 9535, which the crate
/// implements; of other strings nothing is claimed beyond the name.
#[verifier::external_body]
pub(crate) fn parse_json_path(path: &str) -> (result: Option<serde_json_path::JsonPath>)
    ensures
        result == parsed_json_path(path@),
        is_member_path(path@) ==> result is Some,
{
    serde_json_path::JsonPath::parse(path).ok()
}

/// Calls `JsonPath::query` on the payload and takes a copy of the first node.
#[verifier::external_body]
pub(crate) fn first_node(path: &serde_json_path::JsonPath, payload: &serde_json::Value) -> (result: Option<serde_json::Value>)
    ensures
        result == json_path_first_node(*path, *payload),
{
    path.query(payload).first().cloned()
}

/// A read model: a type whose projection definition says how its fields
/// follow from the events it reads.
pub trait ReadModel {
    fn definition() -> ProjectionDefinition;
}

/// Evaluates a JSON path against a payload: the first matching node, or
/// `None` when nothing matches or the path is not a valid JSON path.
pub fn evaluate_path(payload: &serde_json::Value, path: &str) -> (result: Option<serde_json::Value>)
    ensures
        result == match parsed_json_path(path@) {
            None => None,
            Some(p) => json_path_first_node(p, *payload),
        },
{
    match parse_json_path(path) {
        None => None,
        Some(compiled) => first_node(&compiled, payload),
    }
}

} // verus!
