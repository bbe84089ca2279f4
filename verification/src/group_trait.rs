use vstd::prelude::*;

verus! {

/// The family that a binary ring operation's result belongs to, when the left
/// operand belongs to family `f` and the right operand to family `g`. A family
/// is the modulus context of a value: `0` stands for "no context" (a plain
/// integer-like value), any other number for the modulus it carries. Binary
/// operations prefer the left operand's context and fall back to the right's.
pub open spec fn join_fam(f: int, g: int) -> int {
    if f != 0 {
        f
    } else {
        g
    }
}

/// Additive identity capability. This is also the base of the ring-capability
/// hierarchy: it fixes the abstract model of an element, namely an integer
/// value `rv` together with the family `fam` of the context (modulus) the
/// element carries, `0` meaning none.
pub trait AdditiveIdentity: Sized {
    /// Representation invariant of an element.
    spec fn wf(&self) -> bool;

    /// The integer modelling the element's value.
    spec fn rv(&self) -> int;

    /// The family (modulus context) of the element; `0` when it carries none.
    spec fn fam(&self) -> int;

    /// The values that family `f` keeps its well-formed elements in.
    spec fn in_range(f: int, x: int) -> bool;

    /// The additive identity; it carries no context.
    fn zero() -> (r: Self)
        ensures
            r.wf(),
            r.rv() == 0,
            r.fam() == 0,
    ;

    /// An independent copy of the element, with the same model.
    fn dup(&self) -> (r: Self)
        requires
            self.wf(),
        ensures
            r.wf(),
            r.rv() == self.rv(),
            r.fam() == self.fam(),
    ;

    /// A well-formed element's value lies in its family's range.
    proof fn lemma_wf_in_range(a: &Self)
        requires
            a.wf(),
        ensures
            Self::in_range(a.fam(), a.rv()),
    ;

    /// Zero lies in every family's range.
    proof fn lemma_in_range_zero(f: int)
        ensures
            Self::in_range(f, 0),
    ;
}

/// Equality capability: a total equivalence on elements, blind to context.
pub trait EqSupport: AdditiveIdentity {
    fn ring_eq(&self, other: &Self) -> (r: bool)
        ensures
            r == (self.rv() == other.rv()),
    ;
}

/// Addition capability. `madd(f, x, y)` is the value of the sum of elements
/// valued `x` and `y` in family `f`; the non-mutating form joins the operands'
/// families, the mutating form keeps the left operand's.
pub trait AddSupport: AdditiveIdentity {
    /// The value of `x + y` computed in family `f`.
    spec fn madd(f: int, x: int, y: int) -> int;

    fn add(&self, other: &Self) -> (r: Self)
        requires
            self.wf(),
            other.wf(),
        ensures
            r.wf(),
            r.fam() == join_fam(self.fam(), other.fam()),
            r.rv() == Self::madd(join_fam(self.fam(), other.fam()), self.rv(), other.rv()),
    ;

    fn add_assign(&mut self, other: &Self)
        requires
            old(self).wf(),
            other.wf(),
        ensures
            final(self).wf(),
            final(self).fam() == old(self).fam(),
            final(self).rv() == Self::madd(old(self).fam(), old(self).rv(), other.rv()),
    ;

    proof fn lemma_madd_comm(f: int, x: int, y: int)
        ensures
            Self::madd(f, x, y) == Self::madd(f, y, x),
    ;

    proof fn lemma_madd_assoc(f: int, x: int, y: int, z: int)
        ensures
            Self::madd(f, Self::madd(f, x, y), z) == Self::madd(f, x, Self::madd(f, y, z)),
    ;

    proof fn lemma_madd_zero(f: int, x: int)
        requires
            Self::in_range(f, x),
        ensures
            Self::madd(f, x, 0) == x,
            Self::madd(f, 0, x) == x,
    ;

    proof fn lemma_madd_in_range(f: int, x: int, y: int)
        requires
            Self::in_range(f, x),
            Self::in_range(f, y),
        ensures
            Self::in_range(f, Self::madd(f, x, y)),
    ;
}

/// Additive inverse capability. `mneg(f, x)` is the value of `-x` in family `f`.
pub trait AdditiveInverse: AdditiveIdentity {
    /// The value of `-x` computed in family `f`.
    spec fn mneg(f: int, x: int) -> int;

    fn neg(&self) -> (r: Self)
        requires
            self.wf(),
        ensures
            r.wf(),
            r.fam() == self.fam(),
            r.rv() == Self::mneg(self.fam(), self.rv()),
    ;

    /// Negation sends zero and only zero to zero.
    proof fn lemma_mneg_zero(f: int, x: int)
        requires
            Self::in_range(f, x),
        ensures
            (Self::mneg(f, x) == 0) <==> (x == 0),
    ;
}

/// Subtraction capability. `msub(f, x, y)` is the value of `x - y` in family `f`.
pub trait SubSupport: AdditiveInverse {
    /// The value of `x - y` computed in family `f`.
    spec fn msub(f: int, x: int, y: int) -> int;

    fn sub(&self, other: &Self) -> (r: Self)
        requires
            self.wf(),
            other.wf(),
        ensures
            r.wf(),
            r.fam() == join_fam(self.fam(), other.fam()),
            r.rv() == Self::msub(join_fam(self.fam(), other.fam()), self.rv(), other.rv()),
    ;

    fn sub_assign(&mut self, other: &Self)
        requires
            old(self).wf(),
            other.wf(),
        ensures
            final(self).wf(),
            final(self).fam() == old(self).fam(),
            final(self).rv() == Self::msub(old(self).fam(), old(self).rv(), other.rv()),
    ;

    proof fn lemma_msub_self(f: int, x: int)
        ensures
            Self::msub(f, x, x) == 0,
    ;

    /// Subtracting from zero is negation.
    proof fn lemma_msub_zero(f: int, y: int)
        ensures
            Self::msub(f, 0, y) == Self::mneg(f, y),
    ;
}

/// Multiplicative identity capability. Like `zero`, the produced element
/// carries no context.
pub trait MultiplicativeIdentity: AdditiveIdentity {
    fn one() -> (r: Self)
        ensures
            r.wf(),
            r.rv() == 1,
            r.fam() == 0,
    ;
}

/// Multiplication capability. `mmul(f, x, y)` is the value of `x * y` in
/// family `f`.
pub trait MulSupport: AdditiveIdentity {
    /// The value of `x * y` computed in family `f`.
    spec fn mmul(f: int, x: int, y: int) -> int;

    fn mul(&self, other: &Self) -> (r: Self)
        requires
            self.wf(),
            other.wf(),
        ensures
            r.wf(),
            r.fam() == join_fam(self.fam(), other.fam()),
            r.rv() == Self::mmul(join_fam(self.fam(), other.fam()), self.rv(), other.rv()),
    ;

    fn mul_assign(&mut self, other: &Self)
        requires
            old(self).wf(),
            other.wf(),
        ensures
            final(self).wf(),
            final(self).fam() == old(self).fam(),
            final(self).rv() == Self::mmul(old(self).fam(), old(self).rv(), other.rv()),
    ;

    proof fn lemma_mmul_comm(f: int, x: int, y: int)
        ensures
            Self::mmul(f, x, y) == Self::mmul(f, y, x),
    ;

    proof fn lemma_mmul_zero(f: int, x: int)
        ensures
            Self::mmul(f, 0, x) == 0,
            Self::mmul(f, x, 0) == 0,
    ;

    proof fn lemma_mmul_in_range(f: int, x: int, y: int)
        requires
            Self::in_range(f, x),
            Self::in_range(f, y),
        ensures
            Self::in_range(f, Self::mmul(f, x, y)),
    ;
}

/// An additive group: identity, inverse, addition, subtraction and equality.
pub trait AdditiveGroup: AdditiveInverse + AddSupport + SubSupport + EqSupport {

}

/// Division capability, declared for rings that offer it; no type here does.
pub trait DivSupport: Sized {
    fn div(&self, other: &Self) -> Self;

    fn div_assign(&mut self, other: &Self);
}

/// Unconditional multiplicative inverse, declared for field-like types; no
/// type here implements it.
pub trait MultiplicativeInverse: Sized {
    fn inverse(&self) -> Self;
}

/// Multiplicative inverse for rings that are not fields: `Some` inverse when
/// the element is a unit, `None` otherwise.
pub trait MaybeMultiplicativeInverse: Sized + MultiplicativeIdentity {
    fn inverse(&self) -> Option<Self>;
}

/// A multiplicative group; no type here implements it.
pub trait MultiplicativeGroup: MultiplicativeInverse + MultiplicativeIdentity + MulSupport +
    DivSupport + EqSupport {

}

} // verus!
