//! The trusted boundary to the document query engine.
//!
//! Parsing a document and selecting sub-trees with a path expression is
//! delegated to the `jsonpath_rust` crate (which parses with `serde_json`).
//! The engine is only ever handed path expressions that the syntactic guard
//! of `path_guard` accepts, since it aborts instead of returning on a few
//! numeric index forms. The outcome of one parse-and-select call on an
//! accepted expression is named by `selection_of`; `selection_outcome`
//! extends it with the refusal of unsupported expressions, and the
//! verified resolution logic is stated over that.

use vstd::prelude::*;
use crate::path_guard::supported_path;
use crate::value::{JsonData, JsonValue, views_of_list};

verus! {

#[verifier::external_type_specification]
#[verifier::external_body]
pub struct ExValue(serde_json::Value);

/// What parsing `text` and selecting with the accepted path expression
/// `path` yields: `None` when the document or the expression is
/// malformed, otherwise the sequence of matched nodes, empty when the
/// expression matches nothing.
pub uninterp spec fn selection_of(text: Seq<char>, path: Seq<char>) -> Option<Seq<JsonData>>;

/// Whether `text` parses as a structured document.
pub uninterp spec fn document_wf(text: Seq<char>) -> bool;

/// What a source's text and path yield at the library's boundary: an
/// unsupported path expression is refused outright; an accepted one is
/// handed to the query engine.
pub open spec fn selection_outcome(text: Seq<char>, path: Seq<char>) -> Option<Seq<JsonData>> {
    if supported_path(path) {
        selection_of(text, path)
    } else {
        None
    }
}

/// Relies on `serde_json::Value`: converts one parsed document node, each
/// variant one for one; a number becomes its canonical decimal text as
/// `serde_json` renders it.
#[verifier::external_body]
fn node_of_value(v: &serde_json::Value) -> JsonValue {
    match v {
        serde_json::Value::Null => JsonValue::Null,
        serde_json::Value::Bool(b) => JsonValue::Bool(*b),
        serde_json::Value::Number(n) => JsonValue::Num(n.to_string()),
        serde_json::Value::String(s) => JsonValue::Str(s.clone()),
        serde_json::Value::Array(items) => JsonValue::Arr(items.iter().map(node_of_value).collect()),
        serde_json::Value::Object(members) => JsonValue::Obj(
            members.iter().map(|(k, inner)| (k.clone(), node_of_value(inner))).collect(),
        ),
    }
}

/// Relies on `jsonpath_rust::JsonPathFinder`: `from_str` fails exactly
/// when the document or the expression is malformed, and `find` returns
/// the array of matched nodes, or null when the expression matches
/// nothing. Evaluation aborts instead of returning on some numeric index
/// forms — a bracket list holding a number that is not a plain integer of
/// at most eighteen digits, a single index beyond eighteen digits, a
/// slice step of zero — so only expressions the syntactic guard accepts
/// may be handed in. The expression `$` always parses and selects the
/// whole document as the one matched node, so with it the call succeeds
/// exactly when the document parses.
#[verifier::external_body]
pub(crate) fn query_document(text: &str, path: &str) -> (r: Result<Vec<JsonValue>, String>)
    requires
        supported_path(path@),
    ensures
        match r {
            Ok(nodes) => selection_of(text@, path@) == Some(views_of_list(nodes@)),
            Err(_) => selection_of(text@, path@) is None,
        },
        path@ == "$"@ ==> (r is Ok <==> document_wf(text@)),
        path@ == "$"@ ==> (r matches Ok(nodes) ==> nodes@.len() == 1),
{
    let finder = match jsonpath_rust::JsonPathFinder::from_str(text, path) {
        Ok(f) => f,
        Err(message) => {
            return Err(message);
        },
    };
    match finder.find() {
        serde_json::Value::Array(items) => Ok(items.iter().map(node_of_value).collect()),
        _ => Ok(Vec::new()),
    }
}

} // verus!
