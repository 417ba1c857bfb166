//! Members of JSON documents.

use vstd::prelude::*;

use crate::text::opt_text;

verus! {

/// `serde_json`: the string at `pointer` in the document `text`, if the document
/// parses and has a string there.
pub uninterp spec fn json_string_at(text: Seq<char>, pointer: Seq<char>) -> Option<Seq<char>>;

/// `serde_json`: the compact form of the value at `pointer` in the document `text`,
/// if the document parses and has a value there.
pub uninterp spec fn json_member_text(text: Seq<char>, pointer: Seq<char>) -> Option<Seq<char>>;

/// `serde_json::from_str` into a `Value`, then `Value::pointer` and `Value::as_str`:
/// what they give depends on the two texts alone. What makes a document valid is
/// left to the name.
#[verifier::external_body]
pub(crate) fn string_at(text: &str, pointer: &str) -> (r: Option<String>)
    ensures
        opt_text(r) == json_string_at(text@, pointer@),
{
    let value: serde_json::Value = serde_json::from_str(text).ok()?;
    value.pointer(pointer)?.as_str().map(|s| s.to_owned())
}

/// `serde_json::from_str` into a `Value`, then `Value::pointer` and
/// `serde_json::to_string`: what they give depends on the two texts alone. What makes
/// a document valid, and the order and spacing of the compact form, are left to the
/// name.
#[verifier::external_body]
pub(crate) fn member_text(text: &str, pointer: &str) -> (r: Option<String>)
    ensures
        opt_text(r) == json_member_text(text@, pointer@),
{
    let value: serde_json::Value = serde_json::from_str(text).ok()?;
    serde_json::to_string(value.pointer(pointer)?).ok()
}

} // verus!
