//! The maximum of a value sequence, in the two forms the extractors use:
//! the true maximum of a non-empty sequence, and the fold that starts its
//! running maximum at zero.  On non-empty sequences of unsigned integers
//! the two agree; on an empty sequence only the fold is defined, and it
//! yields zero.

use vstd::prelude::*;

verus! {

/// The larger of two values.
pub open spec fn max_u64(a: u64, b: u64) -> u64 {
    if a >= b {
        a
    } else {
        b
    }
}

/// The maximum of a non-empty sequence.
pub open spec fn seq_max(v: Seq<u64>) -> u64
    recommends
        v.len() > 0,
    decreases v.len(),
{
    if v.len() == 0 {
        0
    } else if v.len() == 1 {
        v[0]
    } else {
        max_u64(seq_max(v.drop_last()), v.last())
    }
}

/// A running maximum seeded with zero, folded over the whole sequence.
pub open spec fn fold_max_zero(v: Seq<u64>) -> u64
    decreases v.len(),
{
    if v.len() == 0 {
        0
    } else {
        max_u64(fold_max_zero(v.drop_last()), v.last())
    }
}

/// `seq_max` really is the maximum: no element exceeds it, and it is an
/// element of the sequence.
pub proof fn lemma_seq_max_is_max(v: Seq<u64>)
    requires
        v.len() > 0,
    ensures
        forall|i: int| 0 <= i < v.len() ==> #[trigger] v[i] <= seq_max(v),
        v.contains(seq_max(v)),
    decreases v.len(),
{
    if v.len() == 1 {
        assert(v[0] == seq_max(v));
    } else {
        let v0 = v.drop_last();
        lemma_seq_max_is_max(v0);
        assert(forall|i: int| 0 <= i < v0.len() ==> #[trigger] v[i] == v0[i]);
        if seq_max(v) == v.last() {
            assert(v[v.len() - 1] == seq_max(v));
        } else {
            let j = choose|j: int| 0 <= j < v0.len() && v0[j] == seq_max(v0);
            assert(v[j] == seq_max(v));
        }
    }
}

/// On a non-empty sequence the zero-seeded fold equals the true maximum:
/// the two extraction strategies compute the same value wherever both are
/// defined.
pub proof fn lemma_fold_max_zero_eq_seq_max(v: Seq<u64>)
    requires
        v.len() > 0,
    ensures
        fold_max_zero(v) == seq_max(v),
    decreases v.len(),
{
    if v.len() == 1 {
        assert(fold_max_zero(v.drop_last()) == 0);
    } else {
        lemma_fold_max_zero_eq_seq_max(v.drop_last());
    }
}

/// The zero-seeded fold over the elements of `values`, computed by one
/// left-to-right pass.
pub fn fold_max_vec(values: &Vec<u64>) -> (r: u64)
    ensures
        r == fold_max_zero(values@),
{
    let mut cur: u64 = 0;
    let n = values.len();
    let mut i: usize = 0;
    while i < n
        invariant
            i <= n,
            n == values@.len(),
            cur == fold_max_zero(values@.take(i as int)),
        decreases n - i,
    {
        let x = values[i];
        if x > cur {
            cur = x;
        }
        proof {
            let t = values@.take(i + 1);
            assert(t.drop_last() =~= values@.take(i as int));
            assert(t.last() == values@[i as int]);
        }
        i = i + 1;
    }
    proof {
        assert(values@.take(n as int) =~= values@);
    }
    cur
}

} // verus!
