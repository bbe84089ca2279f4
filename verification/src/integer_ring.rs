use vstd::prelude::*;

use crate::bigint::{
    big_add, big_add_usize, big_eq, big_from_i64, big_from_usize, big_mul, big_mul_usize,
    big_neg, big_sub, big_sub_usize, int_of,
};
use crate::group_trait::{
    AddSupport, AdditiveGroup, AdditiveIdentity, AdditiveInverse, EqSupport, MulSupport,
    MultiplicativeIdentity, SubSupport,
};
use crate::ring_trait::Ring;

verus! {

/// The ring of integers, backed by arbitrary-precision signed integers.
/// Its elements carry no modulus context, so their family is always `0` and
/// every ring operation is the plain integer one.
#[derive(Debug, Clone)]
pub struct ZZ(num_bigint::BigInt);

impl ZZ {
    /// The integer this element holds.
    pub closed spec fn spec_value(&self) -> int {
        int_of(self.0)
    }

    pub fn new(n: i64) -> (r: Self)
        ensures
            r.rv() == n,
            r.fam() == 0,
            r.wf(),
    {
        ZZ(big_from_i64(n))
    }

    pub fn from_usize(n: usize) -> (r: Self)
        ensures
            r.rv() == n,
            r.fam() == 0,
            r.wf(),
    {
        ZZ(big_from_usize(n))
    }

    pub fn add_usize(&self, u: usize) -> (r: Self)
        ensures
            r.wf(),
            r.fam() == 0,
            r.rv() == self.rv() + u,
    {
        ZZ(big_add_usize(&self.0, u))
    }

    pub fn sub_usize(&self, u: usize) -> (r: Self)
        ensures
            r.wf(),
            r.fam() == 0,
            r.rv() == self.rv() - u,
    {
        ZZ(big_sub_usize(&self.0, u))
    }

    pub fn mul_usize(&self, u: usize) -> (r: Self)
        ensures
            r.wf(),
            r.fam() == 0,
            r.rv() == self.rv() * u,
    {
        ZZ(big_mul_usize(&self.0, u))
    }
}

impl AdditiveIdentity for ZZ {
    open spec fn wf(&self) -> bool {
        true
    }

    closed spec fn rv(&self) -> int {
        int_of(self.0)
    }

    open spec fn fam(&self) -> int {
        0
    }

    open spec fn in_range(f: int, x: int) -> bool {
        true
    }

    fn zero() -> (r: Self) {
        ZZ(big_from_i64(0))
    }

    fn dup(&self) -> (r: Self) {
        ZZ(self.0.clone())
    }

    proof fn lemma_wf_in_range(a: &Self) {
    }

    proof fn lemma_in_range_zero(f: int) {
    }
}

impl EqSupport for ZZ {
    fn ring_eq(&self, other: &Self) -> (r: bool) {
        big_eq(&self.0, &other.0)
    }
}

impl AddSupport for ZZ {
    open spec fn madd(f: int, x: int, y: int) -> int {
        x + y
    }

    fn add(&self, other: &Self) -> (r: Self) {
        ZZ(big_add(&self.0, &other.0))
    }

    fn add_assign(&mut self, other: &Self) {
        self.0 = big_add(&self.0, &other.0);
    }

    proof fn lemma_madd_comm(f: int, x: int, y: int) {
    }

    proof fn lemma_madd_assoc(f: int, x: int, y: int, z: int) {
    }

    proof fn lemma_madd_zero(f: int, x: int) {
    }

    proof fn lemma_madd_in_range(f: int, x: int, y: int) {
    }
}

impl AdditiveInverse for ZZ {
    open spec fn mneg(f: int, x: int) -> int {
        -x
    }

    fn neg(&self) -> (r: Self) {
        ZZ(big_neg(&self.0))
    }

    proof fn lemma_mneg_zero(f: int, x: int) {
    }
}

impl SubSupport for ZZ {
    open spec fn msub(f: int, x: int, y: int) -> int {
        x - y
    }

    fn sub(&self, other: &Self) -> (r: Self) {
        ZZ(big_sub(&self.0, &other.0))
    }

    fn sub_assign(&mut self, other: &Self) {
        self.0 = big_sub(&self.0, &other.0);
    }

    proof fn lemma_msub_self(f: int, x: int) {
    }

    proof fn lemma_msub_zero(f: int, y: int) {
    }
}

impl MultiplicativeIdentity for ZZ {
    fn one() -> (r: Self) {
        ZZ(big_from_i64(1))
    }
}

impl MulSupport for ZZ {
    open spec fn mmul(f: int, x: int, y: int) -> int {
        x * y
    }

    fn mul(&self, other: &Self) -> (r: Self) {
        ZZ(big_mul(&self.0, &other.0))
    }

    fn mul_assign(&mut self, other: &Self) {
        self.0 = big_mul(&self.0, &other.0);
    }

    proof fn lemma_mmul_comm(f: int, x: int, y: int) {
        assert(x * y == y * x) by (nonlinear_arith);
    }

    proof fn lemma_mmul_zero(f: int, x: int) {
    }

    proof fn lemma_mmul_in_range(f: int, x: int, y: int) {
    }
}

impl AdditiveGroup for ZZ {

}

impl Ring for ZZ {

}

impl PartialEq for ZZ {
    fn eq(&self, other: &Self) -> (r: bool) {
        big_eq(&self.0, &other.0)
    }
}

impl vstd::std_specs::cmp::PartialEqSpecImpl for ZZ {
    open spec fn obeys_eq_spec() -> bool {
        true
    }

    open spec fn eq_spec(&self, other: &Self) -> bool {
        self.spec_value() == other.spec_value()
    }
}

} // verus!
