use vstd::prelude::*;

use crate::generic_polynomial::{pscale_rv, strip_len, Polynomial};
use crate::group_trait::AdditiveIdentity;
use crate::integer_ring::ZZ;

verus! {

impl Polynomial<ZZ> {
    /// Scalar multiplication of an integer polynomial by an unsigned machine
    /// integer, a convenience over `scalar_mul_ffn`.
    pub fn scalar_mul_usize_ffn(lhs: &Self, scalar: &usize) -> (r: Self)
        requires
            lhs.wf(),
        ensures
            r.wf(),
            *scalar == 0 ==> r.vs().len() == 0,
            *scalar != 0 ==> ({
                let m = pscale_rv::<ZZ>(lhs.vs(), lhs.fams(), *scalar as int);
                r.vs() =~= m.take(strip_len(m)) && r.fams() =~= lhs.fams().take(strip_len(m))
            }),
    {
        let s = ZZ::from_usize(*scalar);
        Polynomial::scalar_mul_ffn(lhs, &s)
    }
}

} // verus!
