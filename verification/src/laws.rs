//! The laws that relate the two extraction strategies across the whole
//! input space, stated over the same spec functions that the extractors'
//! contracts use.

use vstd::prelude::*;

use crate::doc::{doc_values, lemma_doc_values_of_render, render};
use crate::values::{fold_max_zero, lemma_fold_max_zero_eq_seq_max, lemma_seq_max_is_max, seq_max};

verus! {

/// For every non-empty value sequence `v`, the document rendered from `v`
/// parses back to `v`, and the zero-seeded fold of the whole-document
/// extractor equals the true maximum that the streaming extractor
/// computes: by the contracts of `streaming_max` and `whole_max`, both
/// return that maximum on such a document.
pub proof fn lemma_extractors_agree(v: Seq<u64>)
    requires
        v.len() > 0,
    ensures
        doc_values(render(v)) == Some(v),
        fold_max_zero(v) == seq_max(v),
        forall|i: int| 0 <= i < v.len() ==> #[trigger] v[i] <= seq_max(v),
        v.contains(seq_max(v)),
{
    lemma_doc_values_of_render(v);
    lemma_fold_max_zero_eq_seq_max(v);
    lemma_seq_max_is_max(v);
}

/// The document with an empty `values` array is a well-formed document of
/// the grammar, on which the zero-seeded fold yields zero: by their
/// contracts, `streaming_max` fails on it with the dedicated no-values
/// error while `whole_max` returns zero — the two strategies deliberately
/// diverge there.
pub proof fn lemma_extractors_diverge_on_empty()
    ensures
        doc_values(render(Seq::<u64>::empty())) == Some(Seq::<u64>::empty()),
        fold_max_zero(Seq::<u64>::empty()) == 0,
{
    lemma_doc_values_of_render(Seq::<u64>::empty());
}

} // verus!
