use vstd::prelude::*;

use std::rc::Rc;

use crate::bigint::{big_add, big_eq, big_from_i64, big_mod_floor, big_mul, big_neg, big_sub,
    int_of, rc_dup};
use crate::group_trait::{
    AddSupport, AdditiveGroup, AdditiveIdentity, AdditiveInverse, EqSupport,
    MaybeMultiplicativeInverse, MulSupport, MultiplicativeIdentity, SubSupport,
};
use crate::ring_trait::Ring;

use vstd::arithmetic::div_mod::{
    lemma_add_mod_noop_right, lemma_mod_add_multiples_vanish, lemma_mod_bound, lemma_small_mod,
};

verus! {

/// A residue: an arbitrary-precision integer paired with an optional shared
/// modulus. With a modulus present the value is kept in `[0, modulus)` by
/// Euclidean reduction after every operation; without one the value behaves
/// as a plain integer (used for the bare `zero` and `one` identities). The
/// family of an element is its modulus, `0` when it carries none.
#[derive(Debug)]
pub struct ZmodNumber {
    inner: num_bigint::BigInt,
    modulus: Option<Rc<num_bigint::BigInt>>,
}

impl ZmodNumber {
    /// Whether this element carries a modulus.
    pub closed spec fn has_modulus(&self) -> bool {
        self.modulus is Some
    }

    /// The modulus this element carries, `0` for none.
    pub closed spec fn spec_modulus(&self) -> int {
        match self.modulus {
            Option::Some(m) => int_of(*m),
            Option::None => 0,
        }
    }

    /// Builds a residue, reducing the value when a modulus is given.
    pub fn new(n: num_bigint::BigInt, m: Option<Rc<num_bigint::BigInt>>) -> (r: Self)
        requires
            m matches Some(mm) ==> int_of(*mm) > 0,
        ensures
            r.wf(),
            r.fam() == (match m {
                Option::Some(mm) => int_of(*mm),
                Option::None => 0,
            }),
            r.rv() == (match m {
                Option::Some(mm) => int_of(n) % int_of(*mm),
                Option::None => int_of(n),
            }),
    {
        match m {
            Option::None => ZmodNumber { inner: n, modulus: None },
            Option::Some(mm) => {
                let mref: &num_bigint::BigInt = &*mm;
                let reduced = big_mod_floor(&n, mref);
                proof {
                    lemma_mod_bound(int_of(n), int_of(*mref));
                }
                ZmodNumber { inner: reduced, modulus: Some(mm) }
            },
        }
    }

    /// The modulus, if this element carries one.
    pub fn modulus(&self) -> (r: Option<&num_bigint::BigInt>)
        ensures
            r is Some <==> self.has_modulus(),
            r matches Some(m) ==> int_of(*m) == self.fam(),
    {
        match &self.modulus {
            Option::None => None,
            Option::Some(m) => Some(&**m),
        }
    }

    /// The held integer.
    pub fn inner(&self) -> (r: &num_bigint::BigInt)
        ensures
            int_of(*r) == self.rv(),
    {
        &self.inner
    }

    /// A copy of the modulus handle, shared, not duplicated.
    fn clone_modulus(&self) -> (r: Option<Rc<num_bigint::BigInt>>)
        ensures
            (match r {
                Option::Some(m) => int_of(*m),
                Option::None => 0,
            }) == self.fam(),
            r is Some <==> self.has_modulus(),
    {
        match &self.modulus {
            Option::None => None,
            Option::Some(m) => Some(rc_dup(m)),
        }
    }

    /// The context a binary operation's result adopts: the left operand's
    /// modulus if it has one, else the right's.
    fn joined_modulus(&self, other: &Self) -> (r: Option<Rc<num_bigint::BigInt>>)
        requires
            self.wf(),
            other.wf(),
        ensures
            (match r {
                Option::Some(m) => int_of(*m),
                Option::None => 0,
            }) == crate::group_trait::join_fam(self.fam(), other.fam()),
            r matches Some(m) ==> int_of(*m) > 0,
    {
        match &self.modulus {
            Option::Some(m) => Some(rc_dup(m)),
            Option::None => other.clone_modulus(),
        }
    }

    /// Reduces the held integer by the carried modulus, if any.
    fn reduce_w_modulus(&mut self)
        requires
            old(self).has_modulus() ==> old(self).spec_modulus() > 0,
        ensures
            final(self).fam() == old(self).fam(),
            final(self).wf(),
            final(self).rv() == (if old(self).fam() > 0 {
                old(self).rv() % old(self).fam()
            } else {
                old(self).rv()
            }),
    {
        match &self.modulus {
            Option::None => {
            },
            Option::Some(m) => {
                let mref: &num_bigint::BigInt = &**m;
                let reduced = big_mod_floor(&self.inner, mref);
                proof {
                    lemma_mod_bound(int_of(self.inner), int_of(*mref));
                }
                self.inner = reduced;
            },
        }
    }
}

impl AdditiveIdentity for ZmodNumber {
    closed spec fn wf(&self) -> bool {
        match self.modulus {
            Option::Some(m) => int_of(*m) > 0 && 0 <= int_of(self.inner) < int_of(*m),
            Option::None => true,
        }
    }

    closed spec fn rv(&self) -> int {
        int_of(self.inner)
    }

    closed spec fn fam(&self) -> int {
        self.spec_modulus()
    }

    open spec fn in_range(f: int, x: int) -> bool {
        f > 0 ==> 0 <= x < f
    }

    fn zero() -> (r: Self) {
        ZmodNumber { inner: big_from_i64(0), modulus: None }
    }

    fn dup(&self) -> (r: Self) {
        ZmodNumber { inner: self.inner.clone(), modulus: self.clone_modulus() }
    }

    proof fn lemma_wf_in_range(a: &Self) {
    }

    proof fn lemma_in_range_zero(f: int) {
    }
}

impl EqSupport for ZmodNumber {
    fn ring_eq(&self, other: &Self) -> (r: bool) {
        big_eq(&self.inner, &other.inner)
    }
}

impl AddSupport for ZmodNumber {
    open spec fn madd(f: int, x: int, y: int) -> int {
        if f > 0 {
            (x + y) % f
        } else {
            x + y
        }
    }

    fn add(&self, other: &Self) -> (r: Self) {
        let modulus = self.joined_modulus(other);
        Self::new(big_add(&self.inner, &other.inner), modulus)
    }

    fn add_assign(&mut self, other: &Self) {
        self.inner = big_add(&self.inner, &other.inner);
        self.reduce_w_modulus();
    }

    proof fn lemma_madd_comm(f: int, x: int, y: int) {
    }

    proof fn lemma_madd_assoc(f: int, x: int, y: int, z: int) {
        if f > 0 {
            lemma_add_mod_noop_right(z, x + y, f);
            lemma_add_mod_noop_right(x, y + z, f);
            assert((x + y) % f + z == z + (x + y) % f);
        }
    }

    proof fn lemma_madd_zero(f: int, x: int) {
        if f > 0 {
            lemma_small_mod(x as nat, f as nat);
        }
    }

    proof fn lemma_madd_in_range(f: int, x: int, y: int) {
        if f > 0 {
            lemma_mod_bound(x + y, f);
        }
    }
}

impl AdditiveInverse for ZmodNumber {
    open spec fn mneg(f: int, x: int) -> int {
        if f > 0 {
            (-x) % f
        } else {
            -x
        }
    }

    fn neg(&self) -> (r: Self) {
        let modulus = self.clone_modulus();
        Self::new(big_neg(&self.inner), modulus)
    }

    proof fn lemma_mneg_zero(f: int, x: int) {
        if f > 0 {
            if x == 0 {
                lemma_small_mod(0, f as nat);
            } else {
                lemma_mod_add_multiples_vanish(-x, f);
                lemma_small_mod((f - x) as nat, f as nat);
            }
        }
    }
}

impl SubSupport for ZmodNumber {
    open spec fn msub(f: int, x: int, y: int) -> int {
        if f > 0 {
            (x - y) % f
        } else {
            x - y
        }
    }

    fn sub(&self, other: &Self) -> (r: Self) {
        let modulus = self.joined_modulus(other);
        Self::new(big_sub(&self.inner, &other.inner), modulus)
    }

    fn sub_assign(&mut self, other: &Self) {
        self.inner = big_sub(&self.inner, &other.inner);
        self.reduce_w_modulus();
    }

    proof fn lemma_msub_self(f: int, x: int) {
        if f > 0 {
            lemma_small_mod(0, f as nat);
        }
    }

    proof fn lemma_msub_zero(f: int, y: int) {
    }
}

impl MultiplicativeIdentity for ZmodNumber {
    fn one() -> (r: Self) {
        ZmodNumber { inner: big_from_i64(1), modulus: None }
    }
}

impl MulSupport for ZmodNumber {
    open spec fn mmul(f: int, x: int, y: int) -> int {
        if f > 0 {
            (x * y) % f
        } else {
            x * y
        }
    }

    fn mul(&self, other: &Self) -> (r: Self) {
        let modulus = self.joined_modulus(other);
        Self::new(big_mul(&self.inner, &other.inner), modulus)
    }

    fn mul_assign(&mut self, other: &Self) {
        self.inner = big_mul(&self.inner, &other.inner);
        self.reduce_w_modulus();
    }

    proof fn lemma_mmul_comm(f: int, x: int, y: int) {
        assert(x * y == y * x) by (nonlinear_arith);
    }

    proof fn lemma_mmul_zero(f: int, x: int) {
        assert(0 * x == 0) by (nonlinear_arith);
        assert(x * 0 == 0) by (nonlinear_arith);
        if f > 0 {
            lemma_small_mod(0, f as nat);
        }
    }

    proof fn lemma_mmul_in_range(f: int, x: int, y: int) {
        if f > 0 {
            lemma_mod_bound(x * y, f);
        }
    }
}

impl MaybeMultiplicativeInverse for ZmodNumber {
    /// The multiplicative-inverse capability is declared but unresolved in
    /// this ring: no inverse is ever produced.
    fn inverse(&self) -> Option<Self> {
        None
    }
}

impl AdditiveGroup for ZmodNumber {

}

impl Ring for ZmodNumber {

}

impl PartialEq for ZmodNumber {
    fn eq(&self, other: &Self) -> (r: bool) {
        big_eq(&self.inner, &other.inner)
    }
}

impl vstd::std_specs::cmp::PartialEqSpecImpl for ZmodNumber {
    open spec fn obeys_eq_spec() -> bool {
        true
    }

    open spec fn eq_spec(&self, other: &Self) -> bool {
        self.rv() == other.rv()
    }
}

} // verus!
