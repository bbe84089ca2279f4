use vstd::prelude::*;

use crate::convolution::{conv, conv_at, csum, lemma_conv_at_out_of_range, lemma_conv_at_pad,
    lemma_conv_at_singleton_left, lemma_conv_at_singleton_right, lemma_conv_comm,
    lemma_karatsuba_split, pprod, vals_in_range};
use crate::group_trait::{join_fam, AddSupport, AdditiveIdentity, AdditiveInverse, EqSupport,
    MulSupport, SubSupport};
use crate::ring_trait::Ring;
use crate::utils::shift_ring_vec;

verus! {

/// The values of a coefficient sequence, low-degree-first.
pub open spec fn seq_rv<R: Ring>(s: Seq<R>) -> Seq<int> {
    s.map_values(|c: R| c.rv())
}

/// The families (modulus contexts) of a coefficient sequence.
pub open spec fn seq_fam<R: Ring>(s: Seq<R>) -> Seq<int> {
    s.map_values(|c: R| c.fam())
}

/// Every coefficient of the sequence is well-formed.
pub open spec fn all_wf<R: Ring>(s: Seq<R>) -> bool {
    forall|i: int| 0 <= i < s.len() ==> s[i].wf()
}

/// A value sequence is in canonical form: it does not end in a zero.
pub open spec fn is_stripped(v: Seq<int>) -> bool {
    v.len() > 0 ==> v[v.len() - 1] != 0
}

/// The length that remains after stripping trailing zeros from `v`.
pub open spec fn strip_len(v: Seq<int>) -> int
    decreases v.len(),
{
    if v.len() == 0 {
        0
    } else if v[v.len() - 1] != 0 {
        v.len() as int
    } else {
        strip_len(v.drop_last())
    }
}

pub proof fn lemma_strip_len(v: Seq<int>)
    ensures
        0 <= strip_len(v) <= v.len(),
        is_stripped(v.take(strip_len(v))),
        forall|i: int| strip_len(v) <= i < v.len() ==> v[i] == 0,
        is_stripped(v) ==> strip_len(v) == v.len(),
    decreases v.len(),
{
    if v.len() == 0 {
    } else if v[v.len() - 1] != 0 {
        assert(v.take(v.len() as int) =~= v);
    } else {
        lemma_strip_len(v.drop_last());
        assert(v.drop_last().take(strip_len(v)) =~= v.take(strip_len(v)));
        assert(forall|i: int| strip_len(v) <= i < v.len() - 1 ==> v.drop_last()[i] == v[i]);
    }
}

/// Mapping to values commutes with taking a prefix.
pub proof fn lemma_seq_rv_take<R: Ring>(s: Seq<R>, n: int)
    requires
        0 <= n <= s.len(),
    ensures
        seq_rv(s.take(n)) =~= seq_rv(s).take(n),
        seq_fam(s.take(n)) =~= seq_fam(s).take(n),
{
}

/// A univariate polynomial over the ring `R`, represented by its coefficients
/// low-degree-first, kept canonical: the stored sequence never ends in a
/// coefficient equal to ring zero, so the zero polynomial is the empty
/// sequence.
#[derive(Debug)]
pub struct Polynomial<R> {
    coefficients: Vec<R>,
}

impl<R: Ring> Polynomial<R> {
    /// The stored coefficient sequence.
    pub closed spec fn coeffs(&self) -> Seq<R> {
        self.coefficients@
    }

    /// The coefficient values, low-degree-first.
    pub open spec fn vs(&self) -> Seq<int> {
        seq_rv(self.coeffs())
    }

    /// The coefficient families.
    pub open spec fn fams(&self) -> Seq<int> {
        seq_fam(self.coeffs())
    }

    /// Representation invariant: well-formed coefficients in canonical form.
    pub open spec fn wf(&self) -> bool {
        all_wf(self.coeffs()) && is_stripped(self.vs())
    }

    /// The zero polynomial.
    pub fn new() -> (r: Self)
        ensures
            r.wf(),
            r.vs().len() == 0,
    {
        Self { coefficients: Vec::new() }
    }

    /// Strips trailing coefficients equal to ring zero.
    fn strip_trailing_zeros(coefficients: &mut Vec<R>)
        requires
            all_wf(old(coefficients)@),
        ensures
            final(coefficients)@ =~= old(coefficients)@.take(strip_len(seq_rv(old(coefficients)@))),
    {
        let ghost orig = coefficients@;
        loop
            invariant
                coefficients@.len() <= orig.len(),
                coefficients@ =~= orig.take(coefficients@.len() as int),
                strip_len(seq_rv(coefficients@)) == strip_len(seq_rv(orig)),
            ensures
                coefficients@.len() <= orig.len(),
                coefficients@ =~= orig.take(coefficients@.len() as int),
                strip_len(seq_rv(coefficients@)) == strip_len(seq_rv(orig)),
                is_stripped(seq_rv(coefficients@)),
            decreases coefficients@.len(),
        {
            let n = coefficients.len();
            if n == 0 {
                break;
            }
            let zero = R::zero();
            let last = &coefficients[n - 1];
            if !last.ring_eq(&zero) {
                proof {
                    assert(seq_rv(coefficients@)[n - 1] != 0);
                    lemma_strip_len(seq_rv(coefficients@));
                }
                break;
            }
            let ghost before = coefficients@;
            coefficients.pop();
            proof {
                assert(coefficients@ =~= before.drop_last());
                assert(seq_rv(before).drop_last() =~= seq_rv(before.drop_last()));
                assert(seq_rv(before)[n - 1] == 0);
                assert(strip_len(seq_rv(before)) == strip_len(seq_rv(before).drop_last()));
                assert(coefficients@ =~= orig.take(coefficients@.len() as int));
            }
        }
        proof {
            lemma_strip_len(seq_rv(orig));
            assert(strip_len(seq_rv(coefficients@)) == coefficients@.len() as int) by {
                lemma_strip_len(seq_rv(coefficients@));
                if coefficients@.len() > 0 {
                    assert(seq_rv(coefficients@)[coefficients@.len() - 1] != 0);
                }
            }
        }
    }

    /// Builds a polynomial from an owned coefficient sequence, stripping
    /// trailing coefficients equal to ring zero.
    pub fn from_owned_coefficients(coefficients: Vec<R>) -> (r: Self)
        requires
            all_wf(coefficients@),
        ensures
            r.wf(),
            r.coeffs() =~= coefficients@.take(strip_len(seq_rv(coefficients@))),
            r.vs() =~= seq_rv(coefficients@).take(strip_len(seq_rv(coefficients@))),
            r.fams() =~= seq_fam(coefficients@).take(strip_len(seq_rv(coefficients@))),
    {
        let mut coefficients = coefficients;
        let ghost orig = coefficients@;
        Self::strip_trailing_zeros(&mut coefficients);
        proof {
            lemma_strip_len(seq_rv(orig));
            lemma_seq_rv_take(orig, strip_len(seq_rv(orig)));
        }
        Self { coefficients }
    }
}

/// The model of shifting by `k`: `k` context-free zeros are prepended,
/// multiplying the polynomial by the `k`-th power of the indeterminate.
pub open spec fn pshift(v: Seq<int>, k: int) -> Seq<int> {
    Seq::new((v.len() + k) as nat, |i: int| if i < k {
        0
    } else {
        v[i - k]
    })
}

/// The value at position `i`, absent positions counting as zero.
pub open spec fn at0(v: Seq<int>, i: int) -> int {
    if 0 <= i < v.len() {
        v[i]
    } else {
        0
    }
}

/// Model of non-mutating addition: the longer sequence is the base and the
/// shorter one is added pointwise into it, each base coefficient keeping its
/// own context.
pub open spec fn padd_rv<R: Ring>(av: Seq<int>, af: Seq<int>, bv: Seq<int>, bf: Seq<int>) -> Seq<
    int,
> {
    if av.len() >= bv.len() {
        Seq::new(av.len(), |i: int| if i < bv.len() {
            R::madd(af[i], av[i], bv[i])
        } else {
            av[i]
        })
    } else {
        Seq::new(bv.len(), |i: int| if i < av.len() {
            R::madd(bf[i], bv[i], av[i])
        } else {
            bv[i]
        })
    }
}

/// Families of a non-mutating addition's result: the longer operand's.
pub open spec fn padd_fam(af: Seq<int>, bf: Seq<int>) -> Seq<int> {
    if af.len() >= bf.len() {
        af
    } else {
        bf
    }
}

/// Model of mutating addition: the left operand, padded with context-free
/// zeros up to the right operand's length, receives the right operand
/// pointwise.
pub open spec fn padd_assign_rv<R: Ring>(av: Seq<int>, af: Seq<int>, bv: Seq<int>) -> Seq<int> {
    Seq::new(if av.len() >= bv.len() {
        av.len()
    } else {
        bv.len()
    }, |i: int| if i < bv.len() {
        R::madd(at0(af, i), at0(av, i), bv[i])
    } else {
        av[i]
    })
}

/// Model of subtraction: the left operand, padded with context-free zeros,
/// minus the right operand pointwise.
pub open spec fn psub_rv<R: Ring>(av: Seq<int>, af: Seq<int>, bv: Seq<int>) -> Seq<int> {
    Seq::new(if av.len() >= bv.len() {
        av.len()
    } else {
        bv.len()
    }, |i: int| if i < bv.len() {
        R::msub(at0(af, i), at0(av, i), bv[i])
    } else {
        av[i]
    })
}

/// Families of a padded left operand.
pub open spec fn passign_fam(af: Seq<int>, blen: int) -> Seq<int> {
    Seq::new(if af.len() >= blen {
        af.len()
    } else {
        blen as nat
    }, |i: int| at0(af, i))
}

/// Model of negation: every coefficient replaced by its additive inverse in
/// its own context.
pub open spec fn pneg_rv<R: Ring>(bv: Seq<int>, bf: Seq<int>) -> Seq<int> {
    Seq::new(bv.len(), |i: int| R::mneg(bf[i], bv[i]))
}

/// Model of scalar multiplication by a non-zero scalar: every coefficient is
/// multiplied by the scalar in the coefficient's own context.
pub open spec fn pscale_rv<R: Ring>(av: Seq<int>, af: Seq<int>, s: int) -> Seq<int> {
    Seq::new(av.len(), |i: int| R::mmul(af[i], av[i], s))
}

impl<R: Ring> Polynomial<R> {
    /// A read-only view of the coefficients, low-degree-first.
    pub fn coefficients(&self) -> (r: &[R])
        ensures
            r@ == self.coeffs(),
    {
        self.coefficients.as_slice()
    }

    /// The coefficient of the degree-`i` term, `None` beyond the stored
    /// length (an absent coefficient stands for ring zero).
    pub fn coefficient(&self, i: usize) -> (r: Option<R>)
        requires
            self.wf(),
        ensures
            i < self.vs().len() ==> (r matches Some(c) && c.wf() && c.rv() == self.vs()[i as int]
                && c.fam() == self.fams()[i as int]),
            i >= self.vs().len() ==> r is None,
    {
        if i < self.coefficients.len() {
            Some(self.coefficients[i].dup())
        } else {
            None
        }
    }

    /// The degree: stored length minus one, or zero for the zero polynomial
    /// (by convention; callers must treat degree zero of an empty coefficient
    /// sequence as "zero polynomial", not as a constant).
    pub fn degree(&self) -> (r: usize)
        ensures
            r == (if self.vs().len() == 0 {
                0int
            } else {
                self.vs().len() - 1
            }),
    {
        if self.coefficients.len() == 0 {
            0
        } else {
            self.coefficients.len() - 1
        }
    }

    /// The constant term, ring zero for the zero polynomial.
    pub fn constant(&self) -> (r: R)
        requires
            self.wf(),
        ensures
            r.wf(),
            r.rv() == at0(self.vs(), 0),
            self.vs().len() > 0 ==> r.fam() == self.fams()[0],
            self.vs().len() == 0 ==> r.fam() == 0,
    {
        if self.coefficients.len() == 0 {
            R::zero()
        } else {
            self.coefficients[0].dup()
        }
    }

    /// Whether this is the zero polynomial.
    pub fn is_zero(&self) -> (r: bool)
        requires
            self.wf(),
        ensures
            r == (self.vs().len() == 0),
    {
        if self.coefficients.len() == 0 {
            return true;
        }
        if self.coefficients.len() == 1 {
            let zero = R::zero();
            self.coefficients[0].ring_eq(&zero)
        } else {
            false
        }
    }

    /// Whether the degree is exactly one.
    pub fn is_linear(&self) -> (r: bool)
        ensures
            r == (self.vs().len() == 2),
    {
        self.degree() == 1 && self.coefficients.len() != 0
    }

    /// An independent copy with the same coefficient models.
    pub fn duplicate(&self) -> (r: Self)
        requires
            self.wf(),
        ensures
            r.wf(),
            r.vs() =~= self.vs(),
            r.fams() =~= self.fams(),
    {
        Self { coefficients: Self::clone_coeffs(&self.coefficients) }
    }

    /// Copies a coefficient vector element by element.
    fn clone_coeffs(v: &Vec<R>) -> (r: Vec<R>)
        requires
            all_wf(v@),
        ensures
            r@.len() == v@.len(),
            all_wf(r@),
            seq_rv(r@) =~= seq_rv(v@),
            seq_fam(r@) =~= seq_fam(v@),
    {
        let mut out: Vec<R> = Vec::new();
        let n = v.len();
        let mut i: usize = 0;
        while i < n
            invariant
                n == v@.len(),
                i <= n,
                all_wf(v@),
                out@.len() == i,
                all_wf(out@),
                forall|j: int| 0 <= j < i ==> #[trigger] out@[j].rv() == v@[j].rv(),
                forall|j: int| 0 <= j < i ==> #[trigger] out@[j].fam() == v@[j].fam(),
            decreases n - i,
        {
            out.push(v[i].dup());
            i += 1;
        }
        out
    }

    /// Pads a coefficient vector with context-free ring zeros up to `n`.
    fn pad_with_zeros(v: &mut Vec<R>, n: usize)
        requires
            all_wf(old(v)@),
        ensures
            all_wf(final(v)@),
            final(v)@.len() == (if old(v)@.len() >= n {
                old(v)@.len() as int
            } else {
                n as int
            }),
            forall|j: int|
                0 <= j < final(v)@.len() ==> #[trigger] final(v)@[j].rv() == at0(
                    seq_rv(old(v)@),
                    j,
                ),
            forall|j: int|
                0 <= j < final(v)@.len() ==> #[trigger] final(v)@[j].fam() == at0(
                    seq_fam(old(v)@),
                    j,
                ),
    {
        let ghost orig = v@;
        while v.len() < n
            invariant
                all_wf(v@),
                orig.len() <= v@.len(),
                v@.len() <= (if orig.len() >= n {
                    orig.len() as int
                } else {
                    n as int
                }),
                forall|j: int|
                    0 <= j < v@.len() ==> #[trigger] v@[j].rv() == at0(seq_rv(orig), j),
                forall|j: int|
                    0 <= j < v@.len() ==> #[trigger] v@[j].fam() == at0(seq_fam(orig), j),
            decreases n - v@.len(),
        {
            v.push(R::zero());
        }
    }

    /// Adds `other` pointwise into the low-order positions of `base`.
    fn add_into(base: &mut Vec<R>, other: &Vec<R>)
        requires
            all_wf(old(base)@),
            all_wf(other@),
            other@.len() <= old(base)@.len(),
        ensures
            all_wf(final(base)@),
            final(base)@.len() == old(base)@.len(),
            forall|j: int|
                0 <= j < other@.len() ==> #[trigger] final(base)@[j].rv() == R::madd(
                    old(base)@[j].fam(),
                    old(base)@[j].rv(),
                    other@[j].rv(),
                ),
            forall|j: int|
                other@.len() <= j < old(base)@.len() ==> #[trigger] final(base)@[j].rv() == old(
                    base,
                )@[j].rv(),
            forall|j: int|
                0 <= j < old(base)@.len() ==> #[trigger] final(base)@[j].fam() == old(
                    base,
                )@[j].fam(),
    {
        let ghost orig = base@;
        let n = other.len();
        let mut i: usize = 0;
        while i < n
            invariant
                n == other@.len(),
                i <= n,
                n <= base@.len(),
                base@.len() == orig.len(),
                all_wf(other@),
                all_wf(base@),
                forall|j: int|
                    0 <= j < i ==> #[trigger] base@[j].rv() == R::madd(
                        orig[j].fam(),
                        orig[j].rv(),
                        other@[j].rv(),
                    ),
                forall|j: int|
                    i <= j < orig.len() ==> #[trigger] base@[j].rv() == orig[j].rv(),
                forall|j: int|
                    0 <= j < orig.len() ==> #[trigger] base@[j].fam() == orig[j].fam(),
            decreases n - i,
        {
            base[i].add_assign(&other[i]);
            i += 1;
        }
    }

    /// Subtracts `other` pointwise from the low-order positions of `base`.
    fn sub_into(base: &mut Vec<R>, other: &Vec<R>)
        requires
            all_wf(old(base)@),
            all_wf(other@),
            other@.len() <= old(base)@.len(),
        ensures
            all_wf(final(base)@),
            final(base)@.len() == old(base)@.len(),
            forall|j: int|
                0 <= j < other@.len() ==> #[trigger] final(base)@[j].rv() == R::msub(
                    old(base)@[j].fam(),
                    old(base)@[j].rv(),
                    other@[j].rv(),
                ),
            forall|j: int|
                other@.len() <= j < old(base)@.len() ==> #[trigger] final(base)@[j].rv() == old(
                    base,
                )@[j].rv(),
            forall|j: int|
                0 <= j < old(base)@.len() ==> #[trigger] final(base)@[j].fam() == old(
                    base,
                )@[j].fam(),
    {
        let ghost orig = base@;
        let n = other.len();
        let mut i: usize = 0;
        while i < n
            invariant
                n == other@.len(),
                i <= n,
                n <= base@.len(),
                base@.len() == orig.len(),
                all_wf(other@),
                all_wf(base@),
                forall|j: int|
                    0 <= j < i ==> #[trigger] base@[j].rv() == R::msub(
                        orig[j].fam(),
                        orig[j].rv(),
                        other@[j].rv(),
                    ),
                forall|j: int|
                    i <= j < orig.len() ==> #[trigger] base@[j].rv() == orig[j].rv(),
                forall|j: int|
                    0 <= j < orig.len() ==> #[trigger] base@[j].fam() == orig[j].fam(),
            decreases n - i,
        {
            base[i].sub_assign(&other[i]);
            i += 1;
        }
    }

    /// Multiplies every coefficient of `v` by `scalar` in place.
    fn scale_in_place(v: &mut Vec<R>, scalar: &R)
        requires
            all_wf(old(v)@),
            scalar.wf(),
        ensures
            all_wf(final(v)@),
            final(v)@.len() == old(v)@.len(),
            forall|j: int|
                0 <= j < old(v)@.len() ==> #[trigger] final(v)@[j].rv() == R::mmul(
                    old(v)@[j].fam(),
                    old(v)@[j].rv(),
                    scalar.rv(),
                ),
            forall|j: int|
                0 <= j < old(v)@.len() ==> #[trigger] final(v)@[j].fam() == old(v)@[j].fam(),
    {
        let ghost orig = v@;
        let n = v.len();
        let mut i: usize = 0;
        while i < n
            invariant
                n == orig.len(),
                i <= n,
                v@.len() == orig.len(),
                scalar.wf(),
                all_wf(v@),
                forall|j: int|
                    0 <= j < i ==> #[trigger] v@[j].rv() == R::mmul(
                        orig[j].fam(),
                        orig[j].rv(),
                        scalar.rv(),
                    ),
                forall|j: int|
                    i <= j < orig.len() ==> #[trigger] v@[j].rv() == orig[j].rv(),
                forall|j: int|
                    0 <= j < orig.len() ==> #[trigger] v@[j].fam() == orig[j].fam(),
            decreases n - i,
        {
            v[i].mul_assign(scalar);
            i += 1;
        }
    }

    /// Addition. If either operand is zero the other is returned unchanged;
    /// otherwise the shorter coefficient sequence is added pointwise into a
    /// copy of the longer one and the result is re-canonicalized.
    pub fn add_ffn(lhs: &Self, rhs: &Self) -> (r: Self)
        requires
            lhs.wf(),
            rhs.wf(),
        ensures
            r.wf(),
            ({
                let m = padd_rv::<R>(lhs.vs(), lhs.fams(), rhs.vs(), rhs.fams());
                r.vs() =~= m.take(strip_len(m)) && r.fams() =~= padd_fam(
                    lhs.fams(),
                    rhs.fams(),
                ).take(strip_len(m))
            }),
    {
        let ghost m = padd_rv::<R>(lhs.vs(), lhs.fams(), rhs.vs(), rhs.fams());
        if lhs.is_zero() {
            let r = rhs.duplicate();
            proof {
                assert(m =~= rhs.vs());
                lemma_strip_len(m);
                assert(m.take(strip_len(m)) =~= rhs.vs());
                assert(padd_fam(lhs.fams(), rhs.fams()).take(strip_len(m)) =~= rhs.fams());
            }
            return r;
        }
        if rhs.is_zero() {
            let r = lhs.duplicate();
            proof {
                assert(m =~= lhs.vs());
                lemma_strip_len(m);
                assert(m.take(strip_len(m)) =~= lhs.vs());
                assert(padd_fam(lhs.fams(), rhs.fams()).take(strip_len(m)) =~= lhs.fams());
            }
            return r;
        }
        if lhs.coefficients.len() >= rhs.coefficients.len() {
            let mut coeffs = Self::clone_coeffs(&lhs.coefficients);
            Self::add_into(&mut coeffs, &rhs.coefficients);
            let ghost after = coeffs@;
            let r = Self::from_owned_coefficients(coeffs);
            proof {
                assert(seq_rv(after) =~= m);
                assert(seq_fam(after) =~= padd_fam(lhs.fams(), rhs.fams()));
            }
            r
        } else {
            let mut coeffs = Self::clone_coeffs(&rhs.coefficients);
            Self::add_into(&mut coeffs, &lhs.coefficients);
            let ghost after = coeffs@;
            let r = Self::from_owned_coefficients(coeffs);
            proof {
                assert(seq_rv(after) =~= m);
                assert(seq_fam(after) =~= padd_fam(lhs.fams(), rhs.fams()));
            }
            r
        }
    }

    /// Mutating addition: the left operand is padded with ring zeros as
    /// needed, the right operand is added pointwise, and the result is
    /// re-canonicalized.
    pub fn add_assign_ffn(lhs: &mut Self, rhs: &Self)
        requires
            old(lhs).wf(),
            rhs.wf(),
        ensures
            final(lhs).wf(),
            ({
                let m = padd_assign_rv::<R>(old(lhs).vs(), old(lhs).fams(), rhs.vs());
                final(lhs).vs() =~= m.take(strip_len(m)) && final(lhs).fams() =~= passign_fam(
                    old(lhs).fams(),
                    rhs.vs().len() as int,
                ).take(strip_len(m))
            }),
    {
        let ghost m = padd_assign_rv::<R>(old(lhs).vs(), old(lhs).fams(), rhs.vs());
        Self::pad_with_zeros(&mut lhs.coefficients, rhs.coefficients.len());
        Self::add_into(&mut lhs.coefficients, &rhs.coefficients);
        let ghost after = lhs.coefficients@;
        Self::strip_trailing_zeros(&mut lhs.coefficients);
        proof {
            assert(seq_rv(after) =~= m);
            assert(seq_fam(after) =~= passign_fam(old(lhs).fams(), rhs.vs().len() as int));
            lemma_strip_len(m);
            lemma_seq_rv_take(after, strip_len(m));
        }
    }

    /// Negation: every coefficient is replaced by its additive inverse; the
    /// length is preserved (the zero polynomial stays zero).
    pub fn negated(&self) -> (r: Self)
        requires
            self.wf(),
        ensures
            r.wf(),
            r.vs() =~= pneg_rv::<R>(self.vs(), self.fams()),
            r.fams() =~= self.fams(),
    {
        let mut out: Vec<R> = Vec::new();
        let n = self.coefficients.len();
        let mut i: usize = 0;
        while i < n
            invariant
                n == self.coeffs().len(),
                i <= n,
                self.wf(),
                out@.len() == i,
                all_wf(out@),
                forall|j: int|
                    0 <= j < i ==> #[trigger] out@[j].rv() == R::mneg(
                        self.fams()[j],
                        self.vs()[j],
                    ),
                forall|j: int| 0 <= j < i ==> #[trigger] out@[j].fam() == self.fams()[j],
            decreases n - i,
        {
            out.push(self.coefficients[i].neg());
            i += 1;
        }
        proof {
            assert(seq_rv(out@) =~= pneg_rv::<R>(self.vs(), self.fams()));
            assert(seq_fam(out@) =~= self.fams());
            if n > 0 {
                let last = self.coeffs()[n - 1];
                R::lemma_wf_in_range(&last);
                R::lemma_mneg_zero(last.fam(), last.rv());
            }
        }
        Self { coefficients: out }
    }

    /// Subtraction: subtracting from the zero polynomial negates; otherwise
    /// the left operand is padded with ring zeros as needed and the right
    /// operand is subtracted pointwise; the result is re-canonicalized.
    pub fn sub_ffn(lhs: &Self, rhs: &Self) -> (r: Self)
        requires
            lhs.wf(),
            rhs.wf(),
        ensures
            r.wf(),
            lhs.vs().len() == 0 ==> r.vs() =~= pneg_rv::<R>(rhs.vs(), rhs.fams()) && r.fams()
                =~= rhs.fams(),
            lhs.vs().len() > 0 ==> ({
                let m = psub_rv::<R>(lhs.vs(), lhs.fams(), rhs.vs());
                r.vs() =~= m.take(strip_len(m)) && r.fams() =~= passign_fam(
                    lhs.fams(),
                    rhs.vs().len() as int,
                ).take(strip_len(m))
            }),
    {
        if lhs.is_zero() {
            return rhs.negated();
        }
        let ghost m = psub_rv::<R>(lhs.vs(), lhs.fams(), rhs.vs());
        let mut coeffs = Self::clone_coeffs(&lhs.coefficients);
        Self::pad_with_zeros(&mut coeffs, rhs.coefficients.len());
        Self::sub_into(&mut coeffs, &rhs.coefficients);
        let ghost after = coeffs@;
        let r = Self::from_owned_coefficients(coeffs);
        proof {
            assert(seq_rv(after) =~= m);
            assert(seq_fam(after) =~= passign_fam(lhs.fams(), rhs.vs().len() as int));
        }
        r
    }

    /// Mutating subtraction; unlike `sub_ffn` there is no special case for a
    /// zero left operand, so padded context-free zeros receive the
    /// subtraction.
    pub fn sub_assign_ffn(lhs: &mut Self, rhs: &Self)
        requires
            old(lhs).wf(),
            rhs.wf(),
        ensures
            final(lhs).wf(),
            ({
                let m = psub_rv::<R>(old(lhs).vs(), old(lhs).fams(), rhs.vs());
                final(lhs).vs() =~= m.take(strip_len(m)) && final(lhs).fams() =~= passign_fam(
                    old(lhs).fams(),
                    rhs.vs().len() as int,
                ).take(strip_len(m))
            }),
    {
        let ghost m = psub_rv::<R>(old(lhs).vs(), old(lhs).fams(), rhs.vs());
        Self::pad_with_zeros(&mut lhs.coefficients, rhs.coefficients.len());
        Self::sub_into(&mut lhs.coefficients, &rhs.coefficients);
        let ghost after = lhs.coefficients@;
        Self::strip_trailing_zeros(&mut lhs.coefficients);
        proof {
            assert(seq_rv(after) =~= m);
            assert(seq_fam(after) =~= passign_fam(old(lhs).fams(), rhs.vs().len() as int));
            lemma_strip_len(m);
            lemma_seq_rv_take(after, strip_len(m));
        }
    }

    /// Scalar multiplication: a scalar equal to ring zero absorbs the whole
    /// polynomial to zero; otherwise every coefficient is multiplied by the
    /// scalar and the result is re-canonicalized.
    pub fn scalar_mul_ffn(lhs: &Self, scalar: &R) -> (r: Self)
        requires
            lhs.wf(),
            scalar.wf(),
        ensures
            r.wf(),
            scalar.rv() == 0 ==> r.vs().len() == 0,
            scalar.rv() != 0 ==> ({
                let m = pscale_rv::<R>(lhs.vs(), lhs.fams(), scalar.rv());
                r.vs() =~= m.take(strip_len(m)) && r.fams() =~= lhs.fams().take(strip_len(m))
            }),
    {
        let zero = R::zero();
        if scalar.ring_eq(&zero) {
            return Self::new();
        }
        let mut coeffs = Self::clone_coeffs(&lhs.coefficients);
        Self::scale_in_place(&mut coeffs, scalar);
        let ghost after = coeffs@;
        let r = Self::from_owned_coefficients(coeffs);
        proof {
            assert(seq_rv(after) =~= pscale_rv::<R>(lhs.vs(), lhs.fams(), scalar.rv()));
            assert(seq_fam(after) =~= lhs.fams());
        }
        r
    }

    /// Mutating scalar multiplication, with the same result as `scalar_mul_ffn`.
    pub fn scalar_mul_assign_ffn(lhs: &mut Self, scalar: &R)
        requires
            old(lhs).wf(),
            scalar.wf(),
        ensures
            final(lhs).wf(),
            scalar.rv() == 0 ==> final(lhs).vs().len() == 0,
            scalar.rv() != 0 ==> ({
                let m = pscale_rv::<R>(old(lhs).vs(), old(lhs).fams(), scalar.rv());
                final(lhs).vs() =~= m.take(strip_len(m)) && final(lhs).fams() =~= old(lhs).fams().take(strip_len(m))
            }),
    {
        let zero = R::zero();
        if scalar.ring_eq(&zero) {
            lhs.coefficients = Vec::new();
            return;
        }
        Self::scale_in_place(&mut lhs.coefficients, scalar);
        let ghost after = lhs.coefficients@;
        Self::strip_trailing_zeros(&mut lhs.coefficients);
        proof {
            let m = pscale_rv::<R>(old(lhs).vs(), old(lhs).fams(), scalar.rv());
            assert(seq_rv(after) =~= m);
            assert(seq_fam(after) =~= old(lhs).fams());
            lemma_strip_len(m);
            lemma_seq_rv_take(after, strip_len(m));
        }
    }

    /// Equality: equal lengths and pairwise equal coefficients of the
    /// canonical sequences.
    pub fn eq_ffn(lhs: &Self, rhs: &Self) -> (r: bool)
        ensures
            r == (lhs.vs() == rhs.vs()),
    {
        let n = lhs.coefficients.len();
        if n != rhs.coefficients.len() {
            proof {
                assert(lhs.vs().len() != rhs.vs().len());
            }
            return false;
        }
        let mut i: usize = 0;
        while i < n
            invariant
                n == lhs.coeffs().len(),
                n == rhs.coeffs().len(),
                i <= n,
                forall|j: int| 0 <= j < i ==> lhs.vs()[j] == rhs.vs()[j],
            decreases n - i,
        {
            if !lhs.coefficients[i].ring_eq(&rhs.coefficients[i]) {
                proof {
                    assert(lhs.vs()[i as int] != rhs.vs()[i as int]);
                }
                return false;
            }
            i += 1;
        }
        proof {
            assert(lhs.vs() =~= rhs.vs());
        }
        true
    }
}

impl<R: Ring> Polynomial<R> {
    /// Multiplies this polynomial in place by the `x_deg`-th power of the
    /// indeterminate, by prepending that many ring zeros; the zero polynomial
    /// stays zero.
    pub fn shift_by(&mut self, x_deg: usize)
        requires
            old(self).wf(),
            old(self).vs().len() + x_deg <= usize::MAX,
        ensures
            final(self).wf(),
            old(self).vs().len() == 0 ==> final(self).vs().len() == 0,
            old(self).vs().len() > 0 ==> final(self).vs() =~= pshift(old(self).vs(), x_deg as int)
                && final(self).fams() =~= pshift(old(self).fams(), x_deg as int),
    {
        if x_deg == 0 || self.is_zero() {
            proof {
                if old(self).vs().len() > 0 {
                    assert(final(self).vs() =~= pshift(old(self).vs(), x_deg as int));
                    assert(final(self).fams() =~= pshift(old(self).fams(), x_deg as int));
                }
            }
            return;
        }
        let mut new_coeffs: Vec<R> = Vec::new();
        let mut i: usize = 0;
        while i < x_deg
            invariant
                i <= x_deg,
                new_coeffs@.len() == i,
                all_wf(new_coeffs@),
                forall|j: int| 0 <= j < i ==> #[trigger] new_coeffs@[j].rv() == 0,
                forall|j: int| 0 <= j < i ==> #[trigger] new_coeffs@[j].fam() == 0,
            decreases x_deg - i,
        {
            new_coeffs.push(R::zero());
            i += 1;
        }
        new_coeffs.append(&mut self.coefficients);
        self.coefficients = new_coeffs;
        proof {
            assert(final(self).vs() =~= pshift(old(self).vs(), x_deg as int));
            assert(final(self).fams() =~= pshift(old(self).fams(), x_deg as int));
        }
    }

    /// The non-mutating form of `shift_by`.
    pub fn shifted_by(&self, x_deg: usize) -> (r: Self)
        requires
            self.wf(),
            self.vs().len() + x_deg <= usize::MAX,
        ensures
            r.wf(),
            self.vs().len() == 0 ==> r.vs().len() == 0,
            self.vs().len() > 0 ==> r.vs() =~= pshift(self.vs(), x_deg as int) && r.fams()
                =~= pshift(self.fams(), x_deg as int),
    {
        let mut r = self.duplicate();
        Self::shift_by(&mut r, x_deg);
        r
    }
}

/// All families of the sequence are exactly `f`: the coefficients all carry
/// one and the same context.
pub open spec fn seq_unif(fsq: Seq<int>, f: int) -> bool {
    forall|i: int| 0 <= i < fsq.len() ==> fsq[i] == f
}

/// One pseudo-division reduction step on coefficient values in context `f`:
/// the dividend is scaled by the divisor's leading coefficient, and the
/// aligned multiple of the divisor that cancels the dividend's leading
/// coefficient is subtracted.
pub open spec fn prem_step<R: Ring>(f: int, a: Seq<int>, b: Seq<int>) -> Seq<int> {
    Seq::new(a.len(), |j: int| {
        let shift = a.len() - b.len();
        let scaled = R::mmul(f, a[j], b[b.len() - 1]);
        if shift <= j {
            R::msub(f, scaled, R::mmul(f, b[j - shift], a[a.len() - 1]))
        } else {
            scaled
        }
    })
}

/// Reduction steps, each followed by canonicalization, until the dividend's
/// length drops below the divisor's; the fuel only serves termination and
/// any amount beyond the dividend's length is enough.
pub open spec fn prem_rec<R: Ring>(f: int, a: Seq<int>, b: Seq<int>, fuel: nat) -> Seq<int>
    decreases fuel,
{
    if a.len() < b.len() || b.len() == 0 || fuel == 0 {
        a
    } else {
        let s = prem_step::<R>(f, a, b);
        prem_rec::<R>(f, s.take(strip_len(s)), b, (fuel - 1) as nat)
    }
}

/// The pseudo-remainder of `a` by `b` in context `f`.
pub open spec fn prem<R: Ring>(f: int, a: Seq<int>, b: Seq<int>) -> Seq<int> {
    prem_rec::<R>(f, a, b, (a.len() + 1) as nat)
}

/// A reduction step cancels the dividend's leading coefficient, so the
/// canonical form after the step is strictly shorter.
proof fn lemma_prem_step_cancel<R: Ring>(f: int, a: Seq<int>, b: Seq<int>)
    requires
        b.len() >= 1,
        a.len() >= b.len(),
    ensures
        prem_step::<R>(f, a, b)[a.len() - 1] == 0,
        0 <= strip_len(prem_step::<R>(f, a, b)) < a.len(),
{
    let s = prem_step::<R>(f, a, b);
    let top = a.len() - 1;
    R::lemma_mmul_comm(f, a[top], b[b.len() - 1]);
    R::lemma_msub_self(f, R::mmul(f, a[top], b[b.len() - 1]));
    assert(s[top] == 0);
    assert(strip_len(s) == strip_len(s.drop_last()));
    lemma_strip_len(s.drop_last());
}

/// Any fuel beyond the dividend's length gives the same pseudo-remainder.
proof fn lemma_prem_rec_fuel<R: Ring>(f: int, a: Seq<int>, b: Seq<int>, n1: nat, n2: nat)
    requires
        b.len() >= 1,
        n1 >= a.len() + 1,
        n2 >= a.len() + 1,
    ensures
        prem_rec::<R>(f, a, b, n1) == prem_rec::<R>(f, a, b, n2),
    decreases n1,
{
    if a.len() >= b.len() {
        let s = prem_step::<R>(f, a, b);
        let t = s.take(strip_len(s));
        lemma_prem_step_cancel::<R>(f, a, b);
        lemma_prem_rec_fuel::<R>(f, t, b, (n1 - 1) as nat, (n2 - 1) as nat);
    }
}

impl<R: Ring> Polynomial<R> {
    /// Pseudo-division remainder step loop, on raw coefficient vectors: while
    /// `a` has at least `b`'s length, scale `a` by `b`'s leading coefficient,
    /// subtract the aligned multiple of `b` that cancels `a`'s leading
    /// coefficient, and strip trailing zeros. All coefficients must carry one
    /// common context: mixing context-free and modular coefficients can keep
    /// the leading coefficients from cancelling.
    pub fn polynomial_remainder_internal(a: &mut Vec<R>, b: &Vec<R>)
        requires
            all_wf(old(a)@),
            is_stripped(seq_rv(old(a)@)),
            all_wf(b@),
            b@.len() > 0,
            is_stripped(seq_rv(b@)),
            exists|f: int| seq_unif(seq_fam(old(a)@), f) && seq_unif(seq_fam(b@), f),
        ensures
            all_wf(final(a)@),
            is_stripped(seq_rv(final(a)@)),
            final(a)@.len() < b@.len(),
            forall|f: int|
                (#[trigger] seq_unif(seq_fam(old(a)@), f)) && seq_unif(seq_fam(b@), f)
                    ==> seq_rv(final(a)@) =~= prem::<R>(f, seq_rv(old(a)@), seq_rv(b@))
                    && seq_unif(seq_fam(final(a)@), f),
    {
        let ghost f = choose|f: int|
            seq_unif(seq_fam(old(a)@), f) && seq_unif(seq_fam(b@), f);
        let ghost orig_rv = seq_rv(old(a)@);
        let ghost bvs = seq_rv(b@);
        let deg_b = b.len() - 1;
        let lc_b = b[deg_b].dup();
        proof {
            assert(seq_rv(b@)[deg_b as int] == b@[deg_b as int].rv());
            assert(seq_fam(b@)[deg_b as int] == b@[deg_b as int].fam());
            assert(seq_fam(b@)[deg_b as int] == f);
            assert(lc_b.rv() == seq_rv(b@)[deg_b as int]);
            assert(lc_b.rv() != 0);
            assert(lc_b.fam() == f);
        }
        while a.len() >= b.len()
            invariant
                all_wf(a@),
                is_stripped(seq_rv(a@)),
                seq_unif(seq_fam(a@), f),
                all_wf(b@),
                b@.len() > 0,
                bvs == seq_rv(b@),
                deg_b == b@.len() - 1,
                seq_unif(seq_fam(b@), f),
                lc_b.wf(),
                lc_b.rv() == seq_rv(b@)[b@.len() - 1],
                lc_b.rv() != 0,
                lc_b.fam() == f,
                prem_rec::<R>(f, seq_rv(a@), bvs, (seq_rv(a@).len() + 1) as nat) == prem_rec::<R>(
                    f,
                    orig_rv,
                    bvs,
                    (orig_rv.len() + 1) as nat,
                ),
            decreases a@.len(),
        {
            let ghost pre = a@;
            let ghost pre_rv = seq_rv(a@);
            let deg_a = a.len() - 1;
            let coeff_a = a[deg_a].dup();
            proof {
                assert(seq_fam(pre)[deg_a as int] == pre[deg_a as int].fam());
                assert(seq_fam(pre)[deg_a as int] == f);
                assert(coeff_a.fam() == f);
            }
            Self::scale_in_place(a, &lc_b);
            let ghost scaled = a@;
            proof {
                assert(seq_unif(seq_fam(a@), f)) by {
                    assert(forall|j: int|
                        0 <= j < a@.len() ==> #[trigger] seq_fam(a@)[j] == seq_fam(pre)[j]);
                }
                assert forall|j: int| 0 <= j < scaled.len() implies #[trigger] seq_rv(scaled)[j]
                    == R::mmul(f, pre_rv[j], lc_b.rv()) by {
                    assert(pre[j].fam() == seq_fam(pre)[j]);
                    assert(seq_fam(pre)[j] == f);
                }
            }
            let shift = deg_a - deg_b;
            let mut i: usize = 0;
            while i <= deg_b
                invariant
                    all_wf(a@),
                    a@.len() == scaled.len(),
                    scaled.len() == pre_rv.len(),
                    deg_b < a@.len(),
                    deg_a == a@.len() - 1,
                    shift == deg_a - deg_b,
                    i <= deg_b + 1,
                    all_wf(b@),
                    deg_b == b@.len() - 1,
                    b@.len() <= usize::MAX,
                    bvs == seq_rv(b@),
                    seq_unif(seq_fam(b@), f),
                    coeff_a.wf(),
                    coeff_a.fam() == f,
                    coeff_a.rv() == pre_rv[deg_a as int],
                    lc_b.wf(),
                    lc_b.rv() == seq_rv(b@)[b@.len() - 1],
                    lc_b.rv() != 0,
                    lc_b.fam() == f,
                    forall|j: int|
                        0 <= j < a@.len() ==> #[trigger] a@[j].fam() == seq_fam(scaled)[j],
                    seq_unif(seq_fam(scaled), f),
                    forall|j: int|
                        0 <= j < scaled.len() ==> #[trigger] seq_rv(scaled)[j] == R::mmul(
                            f,
                            pre_rv[j],
                            lc_b.rv(),
                        ),
                    forall|j: int|
                        0 <= j < shift ==> #[trigger] a@[j].rv() == seq_rv(scaled)[j],
                    forall|j: int|
                        shift <= j < shift + i ==> #[trigger] a@[j].rv() == R::msub(
                            f,
                            seq_rv(scaled)[j],
                            R::mmul(f, bvs[j - shift], coeff_a.rv()),
                        ),
                    forall|j: int|
                        shift + i <= j < a@.len() ==> #[trigger] a@[j].rv() == seq_rv(scaled)[j],
                decreases deg_b + 1 - i,
            {
                let prod = b[i].mul(&coeff_a);
                proof {
                    assert(seq_fam(b@)[i as int] == f);
                    assert(b@[i as int].fam() == f);
                    assert(join_fam(f, f) == f);
                    assert(prod.rv() == R::mmul(f, bvs[i as int], coeff_a.rv()));
                }
                a[i + shift].sub_assign(&prod);
                i += 1;
            }
            let ghost subbed = a@;
            proof {
                assert(seq_rv(subbed) =~= prem_step::<R>(f, pre_rv, bvs)) by {
                    assert forall|j: int| 0 <= j < subbed.len() implies #[trigger] seq_rv(
                        subbed,
                    )[j] == prem_step::<R>(f, pre_rv, bvs)[j] by {
                        if j < shift {
                            assert(subbed[j].rv() == seq_rv(scaled)[j]);
                        } else {
                            assert(subbed[j].rv() == R::msub(
                                f,
                                seq_rv(scaled)[j],
                                R::mmul(f, bvs[j - shift as int], coeff_a.rv()),
                            ));
                        }
                    }
                }
                lemma_prem_step_cancel::<R>(f, pre_rv, bvs);
                assert(seq_rv(subbed)[deg_a as int] == 0);
                lemma_strip_len(seq_rv(subbed));
            }
            Self::strip_trailing_zeros(a);
            proof {
                assert(strip_len(seq_rv(subbed)) == strip_len(seq_rv(subbed).drop_last())) by {
                    assert(seq_rv(subbed)[subbed.len() - 1] == 0);
                }
                lemma_strip_len(seq_rv(subbed).drop_last());
                assert(strip_len(seq_rv(subbed)) <= deg_a);
                assert(a@.len() < pre.len());
                lemma_seq_rv_take(subbed, strip_len(seq_rv(subbed)));
                assert(is_stripped(seq_rv(a@)));
                assert(seq_unif(seq_fam(a@), f)) by {
                    assert(forall|j: int|
                        0 <= j < a@.len() ==> #[trigger] seq_fam(a@)[j] == seq_fam(subbed)[j]);
                }
                // one exec iteration is one spec reduction step
                let s = prem_step::<R>(f, pre_rv, bvs);
                let new_rv = seq_rv(a@);
                assert(new_rv =~= s.take(strip_len(s)));
                assert(prem_rec::<R>(f, pre_rv, bvs, (pre_rv.len() + 1) as nat) == prem_rec::<R>(
                    f,
                    new_rv,
                    bvs,
                    pre_rv.len() as nat,
                ));
                lemma_prem_rec_fuel::<R>(f, new_rv, bvs, pre_rv.len() as nat, (new_rv.len()
                    + 1) as nat);
            }
        }
        proof {
            assert(seq_rv(a@).len() < b@.len());
            assert(prem_rec::<R>(f, seq_rv(a@), bvs, (seq_rv(a@).len() + 1) as nat) == seq_rv(
                a@,
            ));
            assert forall|f2: int|
                (#[trigger] seq_unif(seq_fam(old(a)@), f2)) && seq_unif(seq_fam(b@), f2) implies
                seq_rv(final(a)@) =~= prem::<R>(f2, seq_rv(old(a)@), seq_rv(b@)) && seq_unif(
                    seq_fam(final(a)@),
                    f2,
                ) by {
                assert(seq_fam(b@)[0] == f2);
                assert(seq_fam(b@)[0] == f);
            }
        }
    }

    /// Pseudo-remainder of `lhs` by a non-zero `rhs`, on borrowed operands:
    /// the returned polynomial is the canonical pseudo-remainder, zero or of
    /// degree strictly below `rhs`'s. Each reduction step scales the whole
    /// dividend by `rhs`'s leading coefficient, so the remainder carries
    /// accumulated factors of it relative to true division over a field.
    pub fn ref_polynomial_remainder_ffn(lhs: &Self, rhs: &Self) -> (r: Self)
        requires
            lhs.wf(),
            rhs.wf(),
            rhs.vs().len() > 0,
            exists|f: int| seq_unif(lhs.fams(), f) && seq_unif(rhs.fams(), f),
        ensures
            r.wf(),
            r.vs().len() < rhs.vs().len(),
            forall|f: int|
                (#[trigger] seq_unif(lhs.fams(), f)) && seq_unif(rhs.fams(), f) ==> r.vs()
                    =~= prem::<R>(f, lhs.vs(), rhs.vs()) && seq_unif(r.fams(), f),
    {
        let mut a = Self::clone_coeffs(&lhs.coefficients);
        proof {
            let f = choose|f: int| seq_unif(lhs.fams(), f) && seq_unif(rhs.fams(), f);
            assert(seq_fam(a@) =~= lhs.fams());
            assert(seq_rv(a@) =~= lhs.vs());
            assert(seq_unif(seq_fam(a@), f) && seq_unif(seq_fam(rhs.coeffs()), f));
        }
        Self::polynomial_remainder_internal(&mut a, &rhs.coefficients);
        let ghost after = a@;
        let r = Self::from_owned_coefficients(a);
        proof {
            lemma_strip_len(seq_rv(after));
        }
        r
    }

    /// Pseudo-remainder, consuming the dividend.
    pub fn owned_polynomial_remainder_ffn(lhs: Self, rhs: &Self) -> (r: Self)
        requires
            lhs.wf(),
            rhs.wf(),
            rhs.vs().len() > 0,
            exists|f: int| seq_unif(lhs.fams(), f) && seq_unif(rhs.fams(), f),
        ensures
            r.wf(),
            r.vs().len() < rhs.vs().len(),
            forall|f: int|
                (#[trigger] seq_unif(lhs.fams(), f)) && seq_unif(rhs.fams(), f) ==> r.vs()
                    =~= prem::<R>(f, lhs.vs(), rhs.vs()) && seq_unif(r.fams(), f),
    {
        Self::ref_polynomial_remainder_ffn(&lhs, rhs)
    }

    /// Mutating pseudo-remainder: the left operand becomes the remainder.
    pub fn polynomial_remainder_assign_ffn(lhs: &mut Self, rhs: &Self)
        requires
            old(lhs).wf(),
            rhs.wf(),
            rhs.vs().len() > 0,
            exists|f: int| seq_unif(old(lhs).fams(), f) && seq_unif(rhs.fams(), f),
        ensures
            final(lhs).wf(),
            final(lhs).vs().len() < rhs.vs().len(),
            forall|f: int|
                (#[trigger] seq_unif(old(lhs).fams(), f)) && seq_unif(rhs.fams(), f)
                    ==> final(lhs).vs() =~= prem::<R>(f, old(lhs).vs(), rhs.vs()) && seq_unif(
                    final(lhs).fams(),
                    f,
                ),
    {
        Self::polynomial_remainder_internal(&mut lhs.coefficients, &rhs.coefficients);
    }
}

/// A positive power of two.
pub open spec fn is_pow2(n: int) -> bool
    decreases n,
{
    if n <= 0 {
        false
    } else if n == 1 {
        true
    } else {
        n % 2 == 0 && is_pow2(n / 2)
    }
}

/// The element model `(x, fm)` belongs to context `f`: it either carries `f`
/// itself, or it is a context-free zero.
pub open spec fn okc(x: int, fm: int, f: int) -> bool {
    fm == f || (fm == 0 && x == 0)
}

/// In context `f`, the ring sum of two context-`f` elements has the value
/// that family `f`'s addition gives, whatever mix of carried and absent
/// contexts the operands have.
proof fn lemma_bridge_add<R: Ring>(f: int, x: int, xf: int, y: int, yf: int)
    requires
        okc(x, xf, f),
        okc(y, yf, f),
        R::in_range(f, x),
        R::in_range(f, y),
    ensures
        R::madd(join_fam(xf, yf), x, y) == R::madd(f, x, y),
        okc(R::madd(f, x, y), join_fam(xf, yf), f),
        R::in_range(f, R::madd(f, x, y)),
{
    R::lemma_madd_in_range(f, x, y);
    if xf == f && yf == f {
    } else if xf == 0 && x == 0 && yf == 0 && y == 0 {
        if f != 0 {
            R::lemma_in_range_zero(0);
            R::lemma_in_range_zero(f);
            R::lemma_madd_zero(0, 0);
            R::lemma_madd_zero(f, 0);
        }
    }
}

impl<R: Ring> Polynomial<R> {
    /// The coefficients of positions `from..to`, copied out.
    fn subvec(v: &Vec<R>, from: usize, to: usize) -> (r: Vec<R>)
        requires
            from <= to,
            to <= v@.len(),
            all_wf(v@),
        ensures
            all_wf(r@),
            r@.len() == to - from,
            seq_rv(r@) =~= seq_rv(v@).subrange(from as int, to as int),
            seq_fam(r@) =~= seq_fam(v@).subrange(from as int, to as int),
    {
        let mut out: Vec<R> = Vec::new();
        let mut i: usize = from;
        while i < to
            invariant
                from <= i <= to,
                to <= v@.len(),
                all_wf(v@),
                out@.len() == i - from,
                all_wf(out@),
                forall|j: int|
                    0 <= j < i - from ==> #[trigger] out@[j].rv() == seq_rv(v@)[from + j],
                forall|j: int|
                    0 <= j < i - from ==> #[trigger] out@[j].fam() == seq_fam(v@)[from + j],
            decreases to - i,
        {
            out.push(v[i].dup());
            i += 1;
        }
        out
    }

    /// The coefficient model at position `i`, a context-free ring zero beyond
    /// the end.
    fn get_at0(v: &Vec<R>, i: usize) -> (r: R)
        requires
            all_wf(v@),
        ensures
            r.wf(),
            r.rv() == at0(seq_rv(v@), i as int),
            r.fam() == at0(seq_fam(v@), i as int),
    {
        if i < v.len() {
            v[i].dup()
        } else {
            R::zero()
        }
    }

    /// Karatsuba multiplication on raw coefficient vectors of one common
    /// power-of-two length (the callers pad to one): three recursive
    /// half-size products, the two cross products added coefficient-wise,
    /// shifted into place and summed.
    pub fn poly_mul_internal(lhs: &Vec<R>, rhs: &Vec<R>) -> (r: Vec<R>)
        requires
            all_wf(lhs@),
            all_wf(rhs@),
            lhs@.len() == rhs@.len(),
            lhs@.len() == 0 || is_pow2(lhs@.len() as int),
            lhs@.len() <= usize::MAX / 2,
        ensures
            all_wf(r@),
            r@.len() == (if lhs@.len() == 0 {
                0int
            } else {
                2 * lhs@.len() - 1
            }),
            forall|f: int|
                (#[trigger] seq_unif(seq_fam(lhs@), f)) && seq_unif(seq_fam(rhs@), f)
                    ==> seq_rv(r@) =~= conv::<R>(f, seq_rv(lhs@), seq_rv(rhs@)) && seq_unif(
                    seq_fam(r@),
                    f,
                ),
        decreases lhs@.len(),
    {
        let ghost av = seq_rv(lhs@);
        let ghost af = seq_fam(lhs@);
        let ghost bv = seq_rv(rhs@);
        let ghost bf = seq_fam(rhs@);
        let d = lhs.len();
        if d == 0 {
            let out: Vec<R> = Vec::new();
            proof {
                assert(seq_rv(out@) =~= conv::<R>(0, av, bv));
            }
            return out;
        }
        if d == 1 {
            let mut out: Vec<R> = Vec::new();
            out.push(lhs[0].mul(&rhs[0]));
            proof {
                assert forall|f: int|
                    (#[trigger] seq_unif(af, f)) && seq_unif(bf, f) implies seq_rv(out@)
                    =~= conv::<R>(f, av, bv) && seq_unif(seq_fam(out@), f) by {
                    assert(af[0] == f && bf[0] == f);
                    R::lemma_wf_in_range(&lhs@[0]);
                    R::lemma_wf_in_range(&rhs@[0]);
                    R::lemma_mmul_in_range(f, av[0], bv[0]);
                    let m00 = R::mmul(f, av[0], bv[0]);
                    assert(seq_rv(out@)[0] == m00 && seq_fam(out@)[0] == f);
                    assert(csum::<R>(f, av, bv, 0, 0, 0) == 0);
                    assert(pprod::<R>(f, av, bv, 0, 0) == m00);
                    assert(conv_at::<R>(f, av, bv, 0) == R::madd(f, 0, m00));
                    R::lemma_madd_zero(f, m00);
                    assert(seq_rv(out@) =~= conv::<R>(f, av, bv));
                }
            }
            return out;
        }
        if d == 2 {
            let ac = lhs[0].mul(&rhs[0]);
            let ad = lhs[0].mul(&rhs[1]);
            let bc = lhs[1].mul(&rhs[0]);
            let bd = lhs[1].mul(&rhs[1]);
            let mid = ad.add(&bc);
            let mut out: Vec<R> = Vec::new();
            out.push(ac);
            out.push(mid);
            out.push(bd);
            proof {
                assert forall|f: int|
                    (#[trigger] seq_unif(af, f)) && seq_unif(bf, f) implies seq_rv(out@)
                    =~= conv::<R>(f, av, bv) && seq_unif(seq_fam(out@), f) by {
                    assert(af[0] == f && af[1] == f && bf[0] == f && bf[1] == f);
                    R::lemma_wf_in_range(&lhs@[0]);
                    R::lemma_wf_in_range(&lhs@[1]);
                    R::lemma_wf_in_range(&rhs@[0]);
                    R::lemma_wf_in_range(&rhs@[1]);
                    let m00 = R::mmul(f, av[0], bv[0]);
                    let m01 = R::mmul(f, av[0], bv[1]);
                    let m10 = R::mmul(f, av[1], bv[0]);
                    let m11 = R::mmul(f, av[1], bv[1]);
                    R::lemma_mmul_in_range(f, av[0], bv[0]);
                    R::lemma_mmul_in_range(f, av[0], bv[1]);
                    R::lemma_mmul_in_range(f, av[1], bv[0]);
                    R::lemma_mmul_in_range(f, av[1], bv[1]);
                    assert(ac.rv() == m00 && ac.fam() == f);
                    assert(ad.rv() == m01 && ad.fam() == f);
                    assert(bc.rv() == m10 && bc.fam() == f);
                    assert(bd.rv() == m11 && bd.fam() == f);
                    assert(mid.rv() == R::madd(f, m01, m10) && mid.fam() == f);
                    R::lemma_in_range_zero(f);
                    R::lemma_madd_zero(f, 0);
                    // degree 0
                    assert(csum::<R>(f, av, bv, 0, 0, 0) == 0);
                    assert(csum::<R>(f, av, bv, 1, 0, 0) == 0);
                    assert(csum::<R>(f, av, bv, 2, 0, 0) == 0);
                    assert(pprod::<R>(f, av, bv, 0, 0) == m00);
                    assert(pprod::<R>(f, av, bv, 0, 1) == 0);
                    assert(csum::<R>(f, av, bv, 0, 0, 1) == R::madd(f, 0, m00));
                    R::lemma_madd_zero(f, m00);
                    R::lemma_madd_in_range(f, 0, m00);
                    assert(conv_at::<R>(f, av, bv, 0) == R::madd(f, m00, 0));
                    R::lemma_madd_zero(f, R::madd(f, 0, m00));
                    assert(conv_at::<R>(f, av, bv, 0) == m00);
                    // degree 1
                    assert(pprod::<R>(f, av, bv, 1, 0) == m01);
                    assert(pprod::<R>(f, av, bv, 1, 1) == m10);
                    assert(csum::<R>(f, av, bv, 1, 0, 1) == R::madd(f, 0, m01));
                    R::lemma_madd_zero(f, m01);
                    assert(conv_at::<R>(f, av, bv, 1) == R::madd(f, m01, m10));
                    // degree 2
                    assert(pprod::<R>(f, av, bv, 2, 0) == 0);
                    assert(pprod::<R>(f, av, bv, 2, 1) == m11);
                    assert(csum::<R>(f, av, bv, 2, 0, 1) == R::madd(f, 0, 0));
                    assert(conv_at::<R>(f, av, bv, 2) == R::madd(f, 0, m11));
                    R::lemma_madd_zero(f, m11);
                    assert(seq_rv(out@) =~= conv::<R>(f, av, bv));
                    assert(seq_fam(out@) =~= Seq::new(3, |i: int| f));
                }
            }
            return out;
        }
        let k = d / 2;
        proof {
            assert(is_pow2(d as int));
            assert(d as int % 2 == 0 && is_pow2(d as int / 2));
        }
        let p0 = Self::subvec(lhs, 0, k);
        let p1 = Self::subvec(lhs, k, d);
        let q0 = Self::subvec(rhs, 0, k);
        let q1 = Self::subvec(rhs, k, d);
        let ghost p0v = seq_rv(p0@);
        let ghost p0f = seq_fam(p0@);
        let ghost p1v = seq_rv(p1@);
        let ghost p1f = seq_fam(p1@);
        let ghost q0v = seq_rv(q0@);
        let ghost q0f = seq_fam(q0@);
        let ghost q1v = seq_rv(q1@);
        let ghost q1f = seq_fam(q1@);
        let p0q0 = Self::poly_mul_internal(&p0, &q0);
        let mut p1q0 = Self::poly_mul_internal(&p1, &q0);
        let p0q1 = Self::poly_mul_internal(&p0, &q1);
        let p1q1 = Self::poly_mul_internal(&p1, &q1);
        let ghost c0s = p1q0@;
        let ghost c0v = seq_rv(p1q0@);
        let ghost c0f = seq_fam(p1q0@);
        let ghost e01v = seq_rv(p0q1@);
        let ghost e01f = seq_fam(p0q1@);
        let ghost e11v = seq_rv(p1q1@);
        let ghost e11f = seq_fam(p1q1@);
        Self::add_into(&mut p1q0, &p0q1);
        let ghost cbv = seq_rv(p1q0@);
        let ghost cbf = seq_fam(p1q0@);
        let cross = shift_ring_vec(p1q0, k);
        let high = shift_ring_vec(p1q1, d);
        let ghost p00v = seq_rv(p0q0@);
        let ghost p00f = seq_fam(p0q0@);
        let ghost crv = seq_rv(cross@);
        let ghost crf = seq_fam(cross@);
        let ghost hiv = seq_rv(high@);
        let ghost hif = seq_fam(high@);
        let len = 2 * d - 1;
        let mut out: Vec<R> = Vec::new();
        let mut t: usize = 0;
        while t < len
            invariant
                len == 2 * d - 1,
                d <= usize::MAX / 2,
                t <= len,
                all_wf(p0q0@),
                all_wf(cross@),
                all_wf(high@),
                p00v == seq_rv(p0q0@),
                p00f == seq_fam(p0q0@),
                crv == seq_rv(cross@),
                crf == seq_fam(cross@),
                hiv == seq_rv(high@),
                hif == seq_fam(high@),
                out@.len() == t,
                all_wf(out@),
                forall|j: int|
                    0 <= j < t ==> #[trigger] out@[j].rv() == R::madd(
                        join_fam(join_fam(at0(p00f, j), at0(crf, j)), at0(hif, j)),
                        R::madd(join_fam(at0(p00f, j), at0(crf, j)), at0(p00v, j), at0(crv, j)),
                        at0(hiv, j),
                    ),
                forall|j: int|
                    0 <= j < t ==> #[trigger] out@[j].fam() == join_fam(
                        join_fam(at0(p00f, j), at0(crf, j)),
                        at0(hif, j),
                    ),
            decreases len - t,
        {
            let x = Self::get_at0(&p0q0, t);
            let y = Self::get_at0(&cross, t);
            let z = Self::get_at0(&high, t);
            out.push((x.add(&y)).add(&z));
            t += 1;
        }
        proof {
            assert forall|f: int|
                (#[trigger] seq_unif(af, f)) && seq_unif(bf, f) implies seq_rv(out@)
                =~= conv::<R>(f, av, bv) && seq_unif(seq_fam(out@), f) by {
                let ki = k as int;
                let di = d as int;
                assert(vals_in_range::<R>(f, av)) by {
                    assert forall|i: int| 0 <= i < av.len() implies #[trigger] R::in_range(
                        f,
                        av[i],
                    ) by {
                        assert(af[i] == f);
                        R::lemma_wf_in_range(&lhs@[i]);
                    }
                }
                assert(vals_in_range::<R>(f, bv)) by {
                    assert forall|i: int| 0 <= i < bv.len() implies #[trigger] R::in_range(
                        f,
                        bv[i],
                    ) by {
                        assert(bf[i] == f);
                        R::lemma_wf_in_range(&rhs@[i]);
                    }
                }
                // the four half-size factors carry the same context
                assert(seq_unif(p0f, f)) by {
                    assert(forall|i: int|
                        0 <= i < p0f.len() ==> p0f[i] == af[i] && #[trigger] af[i] == f);
                }
                assert(seq_unif(p1f, f)) by {
                    assert(forall|i: int|
                        0 <= i < p1f.len() ==> p1f[i] == af[i + ki] && #[trigger] af[i + ki] == f);
                }
                assert(seq_unif(q0f, f)) by {
                    assert(forall|i: int|
                        0 <= i < q0f.len() ==> q0f[i] == bf[i] && #[trigger] bf[i] == f);
                }
                assert(seq_unif(q1f, f)) by {
                    assert(forall|i: int|
                        0 <= i < q1f.len() ==> q1f[i] == bf[i + ki] && #[trigger] bf[i + ki] == f);
                }
                // the recursive products equal the half-size convolutions
                assert(p00v =~= conv::<R>(f, p0v, q0v) && seq_unif(p00f, f));
                assert(c0v =~= conv::<R>(f, p1v, q0v) && seq_unif(c0f, f));
                assert(e01v =~= conv::<R>(f, p0v, q1v) && seq_unif(e01f, f));
                assert(e11v =~= conv::<R>(f, p1v, q1v) && seq_unif(e11f, f));
                // the cross sum is the pointwise family-f sum of the two
                // cross convolutions, still in context f
                assert forall|j: int| 0 <= j < 2 * ki - 1 implies #[trigger] cbv[j] == R::madd(
                    f,
                    conv_at::<R>(f, p1v, q0v, j),
                    conv_at::<R>(f, p0v, q1v, j),
                ) && cbf[j] == f by {
                    assert(c0f[j] == f);
                    assert(cbv[j] == R::madd(f, c0v[j], e01v[j]));
                }
                R::lemma_in_range_zero(f);
                // per degree, the combined coefficient is the convolution's,
                // and carries context f
                assert forall|t2: int| 0 <= t2 < 2 * di - 1 implies #[trigger] seq_rv(out@)[t2]
                    == conv_at::<R>(f, av, bv, t2) && seq_fam(out@)[t2] == f by {
                    let e00t = conv_at::<R>(f, p0v, q0v, t2);
                    let e10t = conv_at::<R>(f, p1v, q0v, t2 - ki);
                    let e01t = conv_at::<R>(f, p0v, q1v, t2 - ki);
                    let e11t = conv_at::<R>(f, p1v, q1v, t2 - 2 * ki);
                    // the three tapped values are the decomposition's terms
                    assert(at0(p00v, t2) == e00t && okc(at0(p00v, t2), at0(p00f, t2), f)) by {
                        if t2 >= 2 * ki - 1 {
                            lemma_conv_at_out_of_range::<R>(f, p0v, q0v, t2);
                        } else {
                            assert(p00f[t2] == f);
                        }
                    }
                    assert(at0(crv, t2) == R::madd(f, e10t, e01t) && okc(
                        at0(crv, t2),
                        at0(crf, t2),
                        f,
                    )) by {
                        if t2 < ki {
                            lemma_conv_at_out_of_range::<R>(f, p1v, q0v, t2 - ki);
                            lemma_conv_at_out_of_range::<R>(f, p0v, q1v, t2 - ki);
                            R::lemma_madd_zero(f, 0);
                        } else if t2 - ki < 2 * ki - 1 {
                            assert(crv[t2] == cbv[t2 - ki]);
                            assert(crf[t2] == cbf[t2 - ki]);
                        } else {
                            lemma_conv_at_out_of_range::<R>(f, p1v, q0v, t2 - ki);
                            lemma_conv_at_out_of_range::<R>(f, p0v, q1v, t2 - ki);
                            R::lemma_madd_zero(f, 0);
                        }
                    }
                    assert(at0(hiv, t2) == e11t && okc(at0(hiv, t2), at0(hif, t2), f)) by {
                        if t2 < di {
                            lemma_conv_at_out_of_range::<R>(f, p1v, q1v, t2 - 2 * ki);
                        } else {
                            assert(hiv[t2] == e11v[t2 - di]);
                            assert(hif[t2] == e11f[t2 - di]);
                            assert(e11f[t2 - di] == f);
                        }
                    }
                    // the two element additions performed by the combine loop
                    assert(R::in_range(f, e00t) && R::in_range(f, R::madd(f, e10t, e01t))
                        && R::in_range(f, e11t)) by {
                        crate::convolution::lemma_conv_at_in_range::<R>(f, p0v, q0v, t2);
                        crate::convolution::lemma_conv_at_in_range::<R>(f, p1v, q0v, t2 - ki);
                        crate::convolution::lemma_conv_at_in_range::<R>(f, p0v, q1v, t2 - ki);
                        crate::convolution::lemma_conv_at_in_range::<R>(f, p1v, q1v, t2 - 2 * ki);
                        R::lemma_madd_in_range(f, e10t, e01t);
                    }
                    lemma_bridge_add::<R>(f, e00t, at0(p00f, t2), R::madd(f, e10t, e01t), at0(
                        crf,
                        t2,
                    ));
                    lemma_bridge_add::<R>(
                        f,
                        R::madd(f, e00t, R::madd(f, e10t, e01t)),
                        join_fam(at0(p00f, t2), at0(crf, t2)),
                        e11t,
                        at0(hif, t2),
                    );
                    // at least one tap carries context f, so the result does
                    assert(seq_fam(out@)[t2] == join_fam(
                        join_fam(at0(p00f, t2), at0(crf, t2)),
                        at0(hif, t2),
                    ));
                    if t2 < 2 * ki - 1 {
                        assert(at0(p00f, t2) == f);
                    } else if t2 < 3 * ki - 1 {
                        assert(at0(crf, t2) == cbf[t2 - ki]);
                        assert(cbf[t2 - ki] == f);
                    } else {
                        assert(at0(hif, t2) == e11f[t2 - 2 * ki]);
                        assert(e11f[t2 - 2 * ki] == f);
                    }
                    // the Karatsuba recombination equals the direct convolution
                    assert(p0v =~= av.take(ki) && p1v =~= av.skip(ki));
                    assert(q0v =~= bv.take(ki) && q1v =~= bv.skip(ki));
                    lemma_karatsuba_split::<R>(f, av, bv, ki, t2);
                }
                assert(seq_rv(out@) =~= conv::<R>(f, av, bv));
                assert(seq_unif(seq_fam(out@), f)) by {
                    assert forall|i: int| 0 <= i < seq_fam(out@).len() implies #[trigger] seq_fam(
                        out@,
                    )[i] == f by {
                        assert(seq_rv(out@)[i] == conv_at::<R>(f, av, bv, i));
                    }
                }
            }
        }
        out
    }
}

/// Appending zeros to a value sequence does not change its canonical form.
pub proof fn lemma_strip_len_ext(v: Seq<int>, w: Seq<int>)
    requires
        v.len() <= w.len(),
        forall|i: int| 0 <= i < v.len() ==> #[trigger] w[i] == v[i],
        forall|i: int| v.len() <= i < w.len() ==> #[trigger] w[i] == 0,
    ensures
        strip_len(w) == strip_len(v),
        w.take(strip_len(w)) =~= v.take(strip_len(v)),
    decreases w.len() - v.len(),
{
    if w.len() == v.len() {
        assert(w =~= v);
    } else {
        assert(w[w.len() - 1] == 0);
        assert(strip_len(w) == strip_len(w.drop_last()));
        assert(forall|i: int| 0 <= i < v.len() ==> #[trigger] w.drop_last()[i] == v[i]);
        assert(forall|i: int| v.len() <= i < w.len() - 1 ==> #[trigger] w.drop_last()[i] == 0);
        lemma_strip_len_ext(v, w.drop_last());
        lemma_strip_len(v);
        assert(w.take(strip_len(w)) =~= w.drop_last().take(strip_len(w.drop_last())));
    }
}

impl<R: Ring> Polynomial<R> {
    /// Builds a polynomial from borrowed coefficients, stripping trailing
    /// coefficients equal to ring zero.
    pub fn from_coefficients(coefficients: &[R]) -> (r: Self)
        requires
            all_wf(coefficients@),
        ensures
            r.wf(),
            r.vs() =~= seq_rv(coefficients@).take(strip_len(seq_rv(coefficients@))),
            r.fams() =~= seq_fam(coefficients@).take(strip_len(seq_rv(coefficients@))),
    {
        let n = coefficients.len();
        let mut out: Vec<R> = Vec::new();
        let mut i: usize = 0;
        while i < n
            invariant
                n == coefficients@.len(),
                i <= n,
                all_wf(coefficients@),
                out@.len() == i,
                all_wf(out@),
                forall|j: int| 0 <= j < i ==> #[trigger] out@[j].rv() == seq_rv(coefficients@)[j],
                forall|j: int| 0 <= j < i ==> #[trigger] out@[j].fam() == seq_fam(coefficients@)[j],
            decreases n - i,
        {
            out.push(coefficients[i].dup());
            i += 1;
        }
        let ghost before = out@;
        let r = Self::from_owned_coefficients(out);
        proof {
            assert(seq_rv(before) =~= seq_rv(coefficients@));
            assert(seq_fam(before) =~= seq_fam(coefficients@));
        }
        r
    }

    /// Pads a coefficient vector up to `n` with zeros that carry the first
    /// coefficient's own context.
    fn pad_with_like_zeros(v: &mut Vec<R>, n: usize)
        requires
            all_wf(old(v)@),
            old(v)@.len() > 0,
        ensures
            all_wf(final(v)@),
            final(v)@.len() == (if old(v)@.len() >= n {
                old(v)@.len() as int
            } else {
                n as int
            }),
            forall|j: int|
                0 <= j < final(v)@.len() ==> #[trigger] final(v)@[j].rv() == at0(
                    seq_rv(old(v)@),
                    j,
                ),
            forall|j: int|
                0 <= j < final(v)@.len() ==> #[trigger] final(v)@[j].fam() == (if j < old(
                    v,
                )@.len() {
                    seq_fam(old(v)@)[j]
                } else {
                    seq_fam(old(v)@)[0]
                }),
    {
        let ghost orig = v@;
        let zero_like = v[0].sub(&v[0]);
        proof {
            R::lemma_msub_self(join_fam(orig[0].fam(), orig[0].fam()), orig[0].rv());
        }
        while v.len() < n
            invariant
                all_wf(v@),
                orig.len() <= v@.len(),
                orig.len() > 0,
                v@.len() <= (if orig.len() >= n {
                    orig.len() as int
                } else {
                    n as int
                }),
                zero_like.wf(),
                zero_like.rv() == 0,
                zero_like.fam() == seq_fam(orig)[0],
                forall|j: int|
                    0 <= j < v@.len() ==> #[trigger] v@[j].rv() == at0(seq_rv(orig), j),
                forall|j: int|
                    0 <= j < v@.len() ==> #[trigger] v@[j].fam() == (if j < orig.len() {
                        seq_fam(orig)[j]
                    } else {
                        seq_fam(orig)[0]
                    }),
            decreases n - v@.len(),
        {
            v.push(zero_like.dup());
        }
    }

    /// Polynomial multiplication. A zero factor gives zero; a degree-zero
    /// factor degrades to scalar multiplication; two linear factors take the
    /// direct four-product formula; larger factors are padded to the next
    /// power of two with zeros carrying their own context and multiplied by
    /// Karatsuba's algorithm. The product of context-uniform factors is the
    /// canonical form of the schoolbook convolution of their coefficients.
    pub fn polynomial_mul_ffn(lhs: &Self, rhs: &Self) -> (r: Self)
        requires
            lhs.wf(),
            rhs.wf(),
            lhs.vs().len() <= usize::MAX / 4,
            rhs.vs().len() <= usize::MAX / 4,
        ensures
            r.wf(),
            lhs.vs().len() == 0 || rhs.vs().len() == 0 ==> r.vs().len() == 0,
            forall|f: int|
                (#[trigger] seq_unif(lhs.fams(), f)) && seq_unif(rhs.fams(), f) ==> ({
                    let m = conv::<R>(f, lhs.vs(), rhs.vs());
                    r.vs() =~= m.take(strip_len(m)) && seq_unif(r.fams(), f)
                }),
    {
        let la = lhs.coefficients.len();
        let lb = rhs.coefficients.len();
        let ghost av = lhs.vs();
        let ghost af = lhs.fams();
        let ghost bv = rhs.vs();
        let ghost bf = rhs.fams();
        if la == 0 || lb == 0 {
            return Self::new();
        }
        if la == 1 {
            let r = Self::scalar_mul_ffn(rhs, &lhs.coefficients[0]);
            proof {
                assert forall|f: int| (#[trigger] seq_unif(af, f)) && seq_unif(bf, f) implies ({
                    let m = conv::<R>(f, av, bv);
                    r.vs() =~= m.take(strip_len(m)) && seq_unif(r.fams(), f)
                }) by {
                    let m = conv::<R>(f, av, bv);
                    let s = av[0];
                    assert(s != 0);
                    assert(vals_in_range::<R>(f, av)) by {
                        assert forall|i: int| 0 <= i < av.len() implies #[trigger] R::in_range(
                            f,
                            av[i],
                        ) by {
                            assert(af[i] == f);
                            R::lemma_wf_in_range(&lhs.coeffs()[i]);
                        }
                    }
                    assert(vals_in_range::<R>(f, bv)) by {
                        assert forall|i: int| 0 <= i < bv.len() implies #[trigger] R::in_range(
                            f,
                            bv[i],
                        ) by {
                            assert(bf[i] == f);
                            R::lemma_wf_in_range(&rhs.coeffs()[i]);
                        }
                    }
                    let m2 = pscale_rv::<R>(bv, bf, s);
                    assert(m2 =~= m) by {
                        assert forall|t: int| 0 <= t < m.len() implies m2[t] == m[t] by {
                            lemma_conv_at_singleton_left::<R>(f, av, bv, t);
                            R::lemma_mmul_comm(f, av[0], bv[t]);
                            assert(bf[t] == f);
                        }
                    }
                    lemma_strip_len(m2);
                    assert(r.fams() =~= bf.take(strip_len(m2)));
                    assert forall|i: int| 0 <= i < r.fams().len() implies #[trigger] r.fams()[i]
                        == f by {
                        assert(r.fams()[i] == bf[i]);
                        assert(bf[i] == f);
                    }
                }
            }
            return r;
        }
        if lb == 1 {
            let r = Self::scalar_mul_ffn(lhs, &rhs.coefficients[0]);
            proof {
                assert forall|f: int| (#[trigger] seq_unif(af, f)) && seq_unif(bf, f) implies ({
                    let m = conv::<R>(f, av, bv);
                    r.vs() =~= m.take(strip_len(m)) && seq_unif(r.fams(), f)
                }) by {
                    let m = conv::<R>(f, av, bv);
                    let s = bv[0];
                    assert(s != 0);
                    assert(vals_in_range::<R>(f, av)) by {
                        assert forall|i: int| 0 <= i < av.len() implies #[trigger] R::in_range(
                            f,
                            av[i],
                        ) by {
                            assert(af[i] == f);
                            R::lemma_wf_in_range(&lhs.coeffs()[i]);
                        }
                    }
                    assert(vals_in_range::<R>(f, bv)) by {
                        assert forall|i: int| 0 <= i < bv.len() implies #[trigger] R::in_range(
                            f,
                            bv[i],
                        ) by {
                            assert(bf[i] == f);
                            R::lemma_wf_in_range(&rhs.coeffs()[i]);
                        }
                    }
                    let m2 = pscale_rv::<R>(av, af, s);
                    assert(m2 =~= m) by {
                        assert forall|t: int| 0 <= t < m.len() implies m2[t] == m[t] by {
                            lemma_conv_at_singleton_right::<R>(f, av, bv, t);
                            assert(af[t] == f);
                        }
                    }
                    lemma_strip_len(m2);
                    assert(r.fams() =~= af.take(strip_len(m2)));
                    assert forall|i: int| 0 <= i < r.fams().len() implies #[trigger] r.fams()[i]
                        == f by {
                        assert(r.fams()[i] == af[i]);
                        assert(af[i] == f);
                    }
                }
            }
            return r;
        }
        if la == 2 && lb == 2 {
            proof {
                assert(is_pow2(1));
                assert(is_pow2(2));
            }
            let prod = Self::poly_mul_internal(&lhs.coefficients, &rhs.coefficients);
            let ghost pv = seq_rv(prod@);
            let r = Self::from_owned_coefficients(prod);
            proof {
                assert forall|f: int| (#[trigger] seq_unif(af, f)) && seq_unif(bf, f) implies ({
                    let m = conv::<R>(f, av, bv);
                    r.vs() =~= m.take(strip_len(m)) && seq_unif(r.fams(), f)
                }) by {
                    assert(pv =~= conv::<R>(f, av, bv));
                    lemma_strip_len(pv);
                    assert(r.fams() =~= seq_fam(prod@).take(strip_len(pv)));
                    assert forall|i: int| 0 <= i < r.fams().len() implies #[trigger] r.fams()[i]
                        == f by {
                        assert(r.fams()[i] == seq_fam(prod@)[i]);
                        assert(seq_fam(prod@)[i] == f);
                    }
                }
            }
            return r;
        }
        let m = if la >= lb {
            la
        } else {
            lb
        };
        let mut n: usize = 1;
        proof {
            assert(is_pow2(1));
        }
        while n < m
            invariant
                1 <= n,
                is_pow2(n as int),
                n <= usize::MAX / 2,
                m <= usize::MAX / 4,
            decreases 2 * m - n,
        {
            n = 2 * n;
        }
        let mut left = Self::clone_coeffs(&lhs.coefficients);
        let mut right = Self::clone_coeffs(&rhs.coefficients);
        Self::pad_with_like_zeros(&mut left, n);
        Self::pad_with_like_zeros(&mut right, n);
        let ghost avp = seq_rv(left@);
        let ghost afp = seq_fam(left@);
        let ghost bvp = seq_rv(right@);
        let ghost bfp = seq_fam(right@);
        let prod = Self::poly_mul_internal(&left, &right);
        let ghost pv = seq_rv(prod@);
        let r = Self::from_owned_coefficients(prod);
        proof {
            assert forall|f: int| (#[trigger] seq_unif(af, f)) && seq_unif(bf, f) implies ({
                let cm = conv::<R>(f, av, bv);
                r.vs() =~= cm.take(strip_len(cm)) && seq_unif(r.fams(), f)
            }) by {
                let cm = conv::<R>(f, av, bv);
                assert(seq_unif(afp, f)) by {
                    assert forall|i: int| 0 <= i < afp.len() implies #[trigger] afp[i] == f by {
                        assert(af[0] == f);
                        if i < af.len() {
                            assert(af[i] == f);
                        }
                    }
                }
                assert(seq_unif(bfp, f)) by {
                    assert forall|i: int| 0 <= i < bfp.len() implies #[trigger] bfp[i] == f by {
                        assert(bf[0] == f);
                        if i < bf.len() {
                            assert(bf[i] == f);
                        }
                    }
                }
                assert(pv =~= conv::<R>(f, avp, bvp));
                assert(vals_in_range::<R>(f, av)) by {
                    assert forall|i: int| 0 <= i < av.len() implies #[trigger] R::in_range(
                        f,
                        av[i],
                    ) by {
                        assert(af[i] == f);
                        R::lemma_wf_in_range(&lhs.coeffs()[i]);
                    }
                }
                assert(vals_in_range::<R>(f, bv)) by {
                    assert forall|i: int| 0 <= i < bv.len() implies #[trigger] R::in_range(
                        f,
                        bv[i],
                    ) by {
                        assert(bf[i] == f);
                        R::lemma_wf_in_range(&rhs.coeffs()[i]);
                    }
                }
                assert forall|t: int| 0 <= t < pv.len() implies #[trigger] pv[t] == conv_at::<R>(
                    f,
                    av,
                    bv,
                    t,
                ) by {
                    lemma_conv_at_pad::<R>(f, av, bv, avp, bvp, t);
                }
                assert(forall|t: int|
                    0 <= t < cm.len() ==> #[trigger] cm[t] == conv_at::<R>(f, av, bv, t));
                assert forall|t: int| cm.len() <= t < pv.len() implies #[trigger] pv[t] == 0 by {
                    lemma_conv_at_pad::<R>(f, av, bv, avp, bvp, t);
                    lemma_conv_at_out_of_range::<R>(f, av, bv, t);
                }
                lemma_strip_len_ext(cm, pv);
                lemma_strip_len(cm);
                lemma_strip_len(pv);
            }
        }
        r
    }

    /// Mutating multiplication: the pure product replaces the left operand.
    pub fn polynomial_mul_assign_ffn(lhs: &mut Self, rhs: &Self)
        requires
            old(lhs).wf(),
            rhs.wf(),
            old(lhs).vs().len() <= usize::MAX / 4,
            rhs.vs().len() <= usize::MAX / 4,
        ensures
            final(lhs).wf(),
            old(lhs).vs().len() == 0 || rhs.vs().len() == 0 ==> final(lhs).vs().len() == 0,
            forall|f: int|
                (#[trigger] seq_unif(old(lhs).fams(), f)) && seq_unif(rhs.fams(), f) ==> ({
                    let m = conv::<R>(f, old(lhs).vs(), rhs.vs());
                    final(lhs).vs() =~= m.take(strip_len(m)) && seq_unif(final(lhs).fams(), f)
                }),
    {
        let prod = Self::polynomial_mul_ffn(lhs, rhs);
        *lhs = prod;
    }
}

/// Adding a zero polynomial, on either side, returns the other operand
/// unchanged.
pub proof fn lemma_add_zero_identity<R: Ring>(p: Polynomial<R>, z: Polynomial<R>)
    requires
        p.wf(),
        z.wf(),
        z.vs().len() == 0,
    ensures
        ({
            let m = padd_rv::<R>(p.vs(), p.fams(), z.vs(), z.fams());
            m.take(strip_len(m)) =~= p.vs()
        }),
        ({
            let m = padd_rv::<R>(z.vs(), z.fams(), p.vs(), p.fams());
            m.take(strip_len(m)) =~= p.vs()
        }),
{
    let m1 = padd_rv::<R>(p.vs(), p.fams(), z.vs(), z.fams());
    let m2 = padd_rv::<R>(z.vs(), z.fams(), p.vs(), p.fams());
    assert(m1 =~= p.vs());
    assert(m2 =~= p.vs());
    lemma_strip_len(p.vs());
    assert(m1.take(strip_len(m1)) =~= p.vs());
    assert(m2.take(strip_len(m2)) =~= p.vs());
}

/// Subtracting a polynomial from itself gives the zero polynomial.
pub proof fn lemma_sub_self_zero<R: Ring>(p: Polynomial<R>)
    requires
        p.wf(),
    ensures
        ({
            let m = psub_rv::<R>(p.vs(), p.fams(), p.vs());
            m.take(strip_len(m)) =~= Seq::<int>::empty()
        }),
{
    let m = psub_rv::<R>(p.vs(), p.fams(), p.vs());
    assert forall|i: int| 0 <= i < m.len() implies m[i] == 0 by {
        R::lemma_msub_self(p.fams()[i], p.vs()[i]);
    }
    lemma_strip_len(m);
    if strip_len(m) > 0 {
        assert(m[strip_len(m) - 1] != 0);
    }
    assert(m.take(strip_len(m)) =~= Seq::<int>::empty());
}

/// Addition of polynomials over one common context is commutative.
pub proof fn lemma_add_comm<R: Ring>(a: Polynomial<R>, b: Polynomial<R>, f: int)
    requires
        a.wf(),
        b.wf(),
        seq_unif(a.fams(), f),
        seq_unif(b.fams(), f),
    ensures
        padd_rv::<R>(a.vs(), a.fams(), b.vs(), b.fams()) =~= padd_rv::<R>(
            b.vs(),
            b.fams(),
            a.vs(),
            a.fams(),
        ),
{
    let m1 = padd_rv::<R>(a.vs(), a.fams(), b.vs(), b.fams());
    let m2 = padd_rv::<R>(b.vs(), b.fams(), a.vs(), a.fams());
    assert forall|i: int| 0 <= i < m1.len() implies m1[i] == m2[i] by {
        if a.vs().len() == b.vs().len() && i < a.vs().len() {
            assert(a.fams()[i] == f);
            assert(b.fams()[i] == f);
            R::lemma_madd_comm(f, a.vs()[i], b.vs()[i]);
        }
    }
}

/// Multiplication of polynomials over one common context is commutative:
/// the two schoolbook products are one and the same coefficient sequence.
pub proof fn lemma_mul_comm<R: Ring>(a: Polynomial<R>, b: Polynomial<R>, f: int)
    requires
        a.wf(),
        b.wf(),
        seq_unif(a.fams(), f),
        seq_unif(b.fams(), f),
    ensures
        conv::<R>(f, a.vs(), b.vs()) =~= conv::<R>(f, b.vs(), a.vs()),
{
    assert(vals_in_range::<R>(f, a.vs())) by {
        assert forall|i: int| 0 <= i < a.vs().len() implies #[trigger] R::in_range(
            f,
            a.vs()[i],
        ) by {
            assert(a.fams()[i] == f);
            R::lemma_wf_in_range(&a.coeffs()[i]);
        }
    }
    assert(vals_in_range::<R>(f, b.vs())) by {
        assert forall|i: int| 0 <= i < b.vs().len() implies #[trigger] R::in_range(
            f,
            b.vs()[i],
        ) by {
            assert(b.fams()[i] == f);
            R::lemma_wf_in_range(&b.coeffs()[i]);
        }
    }
    lemma_conv_comm::<R>(f, a.vs(), b.vs());
}

impl<R: Ring> Default for Polynomial<R> {
    fn default() -> (r: Self)
        ensures
            r.wf(),
            r.vs().len() == 0,
    {
        Self::new()
    }
}

impl<R: Ring> PartialEq for Polynomial<R> {
    fn eq(&self, other: &Self) -> (r: bool) {
        Self::eq_ffn(self, other)
    }
}

impl<R: Ring> vstd::std_specs::cmp::PartialEqSpecImpl for Polynomial<R> {
    open spec fn obeys_eq_spec() -> bool {
        true
    }

    open spec fn eq_spec(&self, other: &Self) -> bool {
        self.vs() == other.vs()
    }
}

} // verus!
