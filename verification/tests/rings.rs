use polyring::generic_polynomial::Polynomial;
use polyring::group_trait::{
    AddSupport, AdditiveIdentity, AdditiveInverse, EqSupport, MaybeMultiplicativeInverse,
    MulSupport, MultiplicativeIdentity, SubSupport,
};
use polyring::integer_ring::ZZ;
use polyring::residue_ring::{Zmod, ZmodError};
use polyring::residue_ring_number::ZmodNumber;

#[test]
fn test_zz_eq() {
    let a = ZZ::new(5);
    let b = ZZ::new(8);
    let c = ZZ::new(5);

    assert_eq!(a, c);
    assert_ne!(a, b);
}

#[test]
fn test_zz_arithmetic() {
    let a = ZZ::new(7);
    let b = ZZ::new(-3);

    assert_eq!(a.add(&b), ZZ::new(4));
    assert_eq!(a.sub(&b), ZZ::new(10));
    assert_eq!(a.mul(&b), ZZ::new(-21));
    assert_eq!(a.neg(), ZZ::new(-7));
    assert_eq!(ZZ::zero(), ZZ::new(0));
    assert_eq!(ZZ::one(), ZZ::new(1));
    assert_eq!(a.add_usize(5), ZZ::new(12));
    assert_eq!(a.sub_usize(5), ZZ::new(2));
    assert_eq!(a.mul_usize(5), ZZ::new(35));

    let mut c = ZZ::new(1);
    c.add_assign(&a);
    assert_eq!(c, ZZ::new(8));
    c.sub_assign(&b);
    assert_eq!(c, ZZ::new(11));
    c.mul_assign(&ZZ::new(2));
    assert_eq!(c, ZZ::new(22));
    assert!(c.ring_eq(&ZZ::new(22)));
}

#[test]
fn test_zmod_invalid_modulus() {
    assert_eq!(Zmod::new(0).err(), Some(ZmodError::NonPositiveModulus));
    assert_eq!(Zmod::new(-4).err(), Some(ZmodError::NonPositiveModulus));
    assert!(Zmod::new(5).is_ok());
}

#[test]
fn test_zmod_reduction() {
    let ring = Zmod::new(5).unwrap();

    let a = ring.number(7);
    assert_eq!(a.inner(), ring.number(2).inner());

    let b = ring.number(-3);
    assert_eq!(b.inner(), ring.number(2).inner());
    assert_eq!(a, b);

    assert_eq!(ring.zero().inner(), ring.number(0).inner());
    assert_eq!(ring.one().inner(), ring.number(1).inner());
}

#[test]
fn test_zmod_arithmetic() {
    let ring = Zmod::new(5).unwrap();

    let a = ring.number(3);
    let b = ring.number(4);

    assert_eq!(a.add(&b), ring.number(2));
    assert_eq!(a.sub(&b), ring.number(4));
    assert_eq!(a.mul(&b), ring.number(2));
    assert_eq!(a.neg(), ring.number(2));

    let mut c = ring.number(4);
    c.add_assign(&b);
    assert_eq!(c, ring.number(3));
    c.mul_assign(&b);
    assert_eq!(c, ring.number(2));
    c.sub_assign(&b);
    assert_eq!(c, ring.number(3));
}

#[test]
fn test_zmod_bare_identities() {
    // zero() and one() of the element type carry no modulus and behave as
    // plain integers
    let bare_zero = ZmodNumber::zero();
    let bare_one = ZmodNumber::one();
    assert!(bare_zero.modulus().is_none());
    assert!(bare_one.modulus().is_none());

    let ring = Zmod::new(7).unwrap();
    let a = ring.number(6);

    // the result adopts the modulus from whichever operand has one
    let sum = bare_one.add(&a);
    assert_eq!(sum, ring.number(0));
    assert!(sum.modulus().is_some());
}

#[test]
fn test_zmod_no_inverse_capability() {
    let ring = Zmod::new(7).unwrap();
    let a = ring.number(3);
    assert!(MaybeMultiplicativeInverse::inverse(&a).is_none());
}

#[test]
fn test_zmod_polynomial_cancellation() {
    // over Z/5, adding [1,2,4] and [1,3,1] cancels the two top terms:
    // canonicalization strips them
    let ring = Zmod::new(5).unwrap();
    let p = Polynomial::from_owned_coefficients(vec![
        ring.number(1),
        ring.number(2),
        ring.number(4),
    ]);
    let q = Polynomial::from_owned_coefficients(vec![
        ring.number(1),
        ring.number(3),
        ring.number(1),
    ]);

    let sum = Polynomial::add_ffn(&p, &q);
    assert_eq!(sum.coefficients(), &vec![ring.number(2)]);
    assert_eq!(sum.degree(), 0);
}

#[test]
fn test_zmod_polynomial_mul() {
    // (1 + 2x)(3 + 4x) = 3 + 10x + 8x^2 = 3 + 3x^2 over Z/5
    let ring = Zmod::new(5).unwrap();
    let p = Polynomial::from_owned_coefficients(vec![ring.number(1), ring.number(2)]);
    let q = Polynomial::from_owned_coefficients(vec![ring.number(3), ring.number(4)]);

    let prod = Polynomial::polynomial_mul_ffn(&p, &q);
    assert_eq!(
        prod.coefficients(),
        &vec![ring.number(3), ring.number(0), ring.number(3)]
    );
}

#[test]
fn test_zmod_scalar_zero_absorbs() {
    let ring = Zmod::new(5).unwrap();
    let p = Polynomial::from_owned_coefficients(vec![ring.number(1), ring.number(2)]);

    let res = Polynomial::scalar_mul_ffn(&p, &ring.zero());
    assert!(res.is_zero());

    // a scalar congruent to zero absorbs as well
    let res2 = Polynomial::scalar_mul_ffn(&p, &ring.number(10));
    assert!(res2.is_zero());
}

#[test]
fn test_zmod_polynomial_remainder() {
    // over Z/5: (x^2 + 1) % (x + 2) leaves the value at x = -2, namely 5 = 0
    let ring = Zmod::new(5).unwrap();
    let a = Polynomial::from_owned_coefficients(vec![
        ring.number(1),
        ring.number(0),
        ring.number(1),
    ]);
    let b = Polynomial::from_owned_coefficients(vec![ring.number(2), ring.number(1)]);

    let r = Polynomial::ref_polynomial_remainder_ffn(&a, &b);
    assert!(r.is_zero());
}

#[test]
fn test_shift_ring_vec() {
    let v = vec![ZZ::new(4), ZZ::new(5)];
    let shifted = polyring::utils::shift_ring_vec(v, 2);
    assert_eq!(
        shifted,
        vec![ZZ::new(0), ZZ::new(0), ZZ::new(4), ZZ::new(5)]
    );

    let w = vec![ZZ::new(9)];
    assert_eq!(polyring::utils::shift_ring_vec(w, 0), vec![ZZ::new(9)]);
}

#[test]
fn test_zmod_polynomial_karatsuba() {
    // length-4 factors over Z/7 take the recursive multiplication path;
    // (1 + 2x + 3x^2 + 4x^3)(5 + 6x + x^2 + 2x^3) reduced mod 7
    let ring = Zmod::new(7).unwrap();
    let p = Polynomial::from_owned_coefficients(vec![
        ring.number(1),
        ring.number(2),
        ring.number(3),
        ring.number(4),
    ]);
    let q = Polynomial::from_owned_coefficients(vec![
        ring.number(5),
        ring.number(6),
        ring.number(1),
        ring.number(2),
    ]);

    let prod = Polynomial::polynomial_mul_ffn(&p, &q);
    // plain convolution: [5, 16, 28, 42, 31, 10, 8], mod 7: [5, 2, 0, 0, 3, 3, 1]
    assert_eq!(
        prod.coefficients(),
        &vec![
            ring.number(5),
            ring.number(2),
            ring.number(0),
            ring.number(0),
            ring.number(3),
            ring.number(3),
            ring.number(1),
        ]
    );
}

#[test]
fn test_zmod_polynomial_remainder_nonmonic() {
    // over Z/7: dividend x^2, divisor 3x + 1; pseudo-division scales the
    // dividend by 3 at each step: remainder is 9 * (value at x = -1/3) = 1
    let ring = Zmod::new(7).unwrap();
    let a = Polynomial::from_owned_coefficients(vec![
        ring.number(0),
        ring.number(0),
        ring.number(1),
    ]);
    let b = Polynomial::from_owned_coefficients(vec![ring.number(1), ring.number(3)]);

    let r = Polynomial::ref_polynomial_remainder_ffn(&a, &b);
    assert!(r.is_zero() || r.degree() < b.degree());
    assert_eq!(r.coefficients(), &vec![ring.number(1)]);
}
