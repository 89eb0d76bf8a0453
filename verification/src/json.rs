//! Reading values out of the JSON lines of session files, by JSON pointer.

use vstd::prelude::*;
use crate::rpc::opt_view;
use crate::system::texts;

verus! {

/// The text at a JSON pointer (RFC 6901) of a JSON document, when the
/// document parses and the pointer leads to a string.
pub uninterp spec fn json_str_at(doc: Seq<char>, pointer: Seq<char>) -> Option<Seq<char>>;

/// `serde_json::from_str::<Value>(doc)` and, when it parses,
/// `Value::pointer(pointer)` and `Value::as_str`. The result is named, not
/// described: it depends on the two texts alone.
#[verifier::external_body]
pub(crate) fn json_str(doc: &str, pointer: &str) -> (r: Option<String>)
    ensures
        opt_view(r) == json_str_at(doc@, pointer@),
{
    match serde_json::from_str::<serde_json::Value>(doc) {
        Ok(v) => v.pointer(pointer).and_then(|x| x.as_str()).map(|s| s.to_string()),
        Err(_) => None,
    }
}

/// The items of the array at a JSON pointer of a JSON document, each as
/// its own JSON text, when the document parses and the pointer leads to
/// an array.
pub uninterp spec fn json_items_at(doc: Seq<char>, pointer: Seq<char>) -> Option<Seq<Seq<char>>>;

/// `serde_json::from_str::<Value>(doc)` and, when it parses,
/// `Value::pointer(pointer)`, `Value::as_array` and each item written back
/// with `Value::to_string`. The result is named, not described.
#[verifier::external_body]
pub(crate) fn json_items(doc: &str, pointer: &str) -> (r: Option<Vec<String>>)
    ensures
        match r {
            Some(v) => json_items_at(doc@, pointer@) == Some(texts(v@)),
            None => json_items_at(doc@, pointer@) is None,
        },
{
    match serde_json::from_str::<serde_json::Value>(doc) {
        Ok(v) => v.pointer(pointer).and_then(|x| x.as_array()).map(|a| a.iter().map(|e| e.to_string()).collect()),
        Err(_) => None,
    }
}

/// The integer at a JSON pointer of a JSON document, when the document
/// parses and the pointer leads to an integer that fits in `i64`.
pub uninterp spec fn json_i64_at(doc: Seq<char>, pointer: Seq<char>) -> Option<i64>;

/// `serde_json::from_str::<Value>(doc)` and, when it parses,
/// `Value::pointer(pointer)` and `Value::as_i64`. The result is named, not
/// described.
#[verifier::external_body]
pub(crate) fn json_i64(doc: &str, pointer: &str) -> (r: Option<i64>)
    ensures
        r == json_i64_at(doc@, pointer@),
{
    match serde_json::from_str::<serde_json::Value>(doc) {
        Ok(v) => v.pointer(pointer).and_then(|x| x.as_i64()),
        Err(_) => None,
    }
}

} // verus!
