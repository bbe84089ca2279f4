use vstd::prelude::*;

use std::rc::Rc;

use crate::bigint::{big_from_i64, big_is_positive, int_of, rc_dup};
use crate::group_trait::AdditiveIdentity;
use crate::residue_ring_number::ZmodNumber;

use vstd::arithmetic::div_mod::lemma_small_mod;

verus! {

/// Why a residue ring could not be built.
#[derive(Debug, PartialEq, Eq, Structural)]
pub enum ZmodError {
    /// The requested modulus was zero or negative.
    NonPositiveModulus,
}

/// A residue ring: a factory holding a fixed positive modulus, shared by
/// reference counting with every element it produces.
pub struct Zmod {
    modulus: Rc<num_bigint::BigInt>,
}

impl Zmod {
    /// The modulus.
    pub closed spec fn m(&self) -> int {
        int_of(*self.modulus)
    }

    /// The modulus is positive.
    pub open spec fn wf(&self) -> bool {
        self.m() > 0
    }

    /// Builds the ring; a non-positive modulus is rejected.
    pub fn new(modulus: i64) -> (r: Result<Self, ZmodError>)
        ensures
            modulus > 0 ==> (r matches Ok(z) && z.wf() && z.m() == modulus),
            modulus <= 0 ==> (r matches Err(e) && e == ZmodError::NonPositiveModulus),
    {
        let m = big_from_i64(modulus);
        if big_is_positive(&m) {
            Ok(Zmod { modulus: Rc::new(m) })
        } else {
            Err(ZmodError::NonPositiveModulus)
        }
    }

    /// The modulus.
    pub fn modulus(&self) -> (r: &num_bigint::BigInt)
        ensures
            int_of(*r) == self.m(),
    {
        &*self.modulus
    }

    /// An element of this ring holding the residue of `n`.
    pub fn number(&self, n: i64) -> (r: ZmodNumber)
        requires
            self.wf(),
        ensures
            r.wf(),
            r.fam() == self.m(),
            r.rv() == (n as int) % self.m(),
    {
        ZmodNumber::new(big_from_i64(n), Some(rc_dup(&self.modulus)))
    }

    /// This ring's zero, carrying the modulus.
    pub fn zero(&self) -> (r: ZmodNumber)
        requires
            self.wf(),
        ensures
            r.wf(),
            r.fam() == self.m(),
            r.rv() == 0,
    {
        let r = ZmodNumber::new(big_from_i64(0), Some(rc_dup(&self.modulus)));
        proof {
            lemma_small_mod(0, self.m() as nat);
        }
        r
    }

    /// This ring's one, carrying the modulus (and so reduced: it is zero
    /// when the modulus is one).
    pub fn one(&self) -> (r: ZmodNumber)
        requires
            self.wf(),
        ensures
            r.wf(),
            r.fam() == self.m(),
            r.rv() == 1int % self.m(),
    {
        ZmodNumber::new(big_from_i64(1), Some(rc_dup(&self.modulus)))
    }
}

} // verus!
