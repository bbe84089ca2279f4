use vstd::prelude::*;

use crate::generic_polynomial::{all_wf, pshift, seq_fam, seq_rv};
use crate::group_trait::AdditiveIdentity;
use crate::ring_trait::Ring;

verus! {

/// Prepends `shift` ring zeros to a coefficient vector, multiplying the
/// polynomial it represents by the `shift`-th power of the indeterminate.
pub fn shift_ring_vec<R: Ring>(vec: Vec<R>, shift: usize) -> (r: Vec<R>)
    requires
        all_wf(vec@),
        vec@.len() + shift <= usize::MAX,
    ensures
        all_wf(r@),
        seq_rv(r@) =~= pshift(seq_rv(vec@), shift as int),
        seq_fam(r@) =~= pshift(seq_fam(vec@), shift as int),
{
    if shift == 0 {
        return vec;
    }
    let mut vec = vec;
    let mut coeffs: Vec<R> = Vec::new();
    let mut i: usize = 0;
    while i < shift
        invariant
            i <= shift,
            coeffs@.len() == i,
            all_wf(coeffs@),
            forall|j: int| 0 <= j < i ==> #[trigger] coeffs@[j].rv() == 0,
            forall|j: int| 0 <= j < i ==> #[trigger] coeffs@[j].fam() == 0,
        decreases shift - i,
    {
        coeffs.push(R::zero());
        i += 1;
    }
    coeffs.append(&mut vec);
    coeffs
}

} // verus!
