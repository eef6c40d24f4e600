//! Whole-document extraction: the text is parsed into a generic value
//! tree by serde_json, the `values` field is read back out as plain
//! integers, and a verified zero-seeded fold scans them.  Only the tree
//! walk is trusted; the fold and its contract are verified.

use vstd::prelude::*;

use crate::ExtractError;
use crate::doc::render;
use crate::values::{fold_max_vec, fold_max_zero};

verus! {

/// The elements of the array member `key` of the JSON document `s`, when
/// `s` is a valid JSON document, `key` names an array member of its top
/// object, and every element of that array is an unsigned 64-bit integer;
/// nothing otherwise.  serde_json computes this from the text alone.
pub uninterp spec fn tree_values(s: Seq<char>, key: Seq<char>) -> Option<Seq<u64>>;

/// The element sequence of an optional vector, element for element.
pub open spec fn opt_view(r: Option<Vec<u64>>) -> Option<Seq<u64>> {
    match r {
        Some(u) => Some(u@),
        None => None,
    }
}

/// Relies on `serde_json::from_str::<Value>`, `Value::get`,
/// `Value::as_array` and `Value::as_u64`: parses the whole document into a
/// generic tree, looks up `key` in the top-level object, and reads the
/// elements of that array as unsigned 64-bit integers, in order.  On a
/// rendered document of this crate's grammar the parse succeeds and yields
/// exactly the rendered values, since such a document is a JSON object
/// whose `values` member is an array of plain decimal integers that fit
/// in 64 bits.
#[verifier::external_body]
fn lookup_u64_array(json: &str, key: &str) -> (r: Option<Vec<u64>>)
    ensures
        opt_view(r) == tree_values(json@, key@),
        forall|v: Seq<u64>| json@ == render(v) && key@ == "values"@ ==> opt_view(r) == Some(v),
{
    let tree: serde_json::Value = serde_json::from_str(json).ok()?;
    let arr = tree.get(key)?.as_array()?;
    let mut out: Vec<u64> = Vec::with_capacity(arr.len());
    for v in arr {
        out.push(v.as_u64()?);
    }
    Some(out)
}

/// The maximum of the document's `values` array, computed by parsing the
/// whole document into a generic tree and folding a running maximum seeded
/// with zero over the array.  On an empty array this yields zero rather
/// than failing: a documented deviation from the streaming extractor.
/// This path also accepts any JSON object with a `values` array — no `id`
/// member is required and unknown members are ignored — where the
/// streaming grammar demands exactly the two members of the schema; both
/// behaviours are deliberate, and the two paths agree on every document
/// the payload generator builds.
pub fn whole_max(json: &str) -> (r: Result<u64, ExtractError>)
    ensures
        (match tree_values(json@, "values"@) {
            Some(v) => r == Ok::<u64, ExtractError>(fold_max_zero(v)),
            None => r == Err::<u64, ExtractError>(ExtractError::Malformed),
        }),
        forall|v: Seq<u64>| json@ == render(v) ==> r == Ok::<u64, ExtractError>(fold_max_zero(v)),
{
    match lookup_u64_array(json, "values") {
        Some(arr) => Ok(fold_max_vec(&arr)),
        None => Err(ExtractError::Malformed),
    }
}

} // verus!
