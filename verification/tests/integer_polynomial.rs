use polyring::generic_polynomial::Polynomial;
use polyring::group_trait::AdditiveIdentity;
use polyring::integer_ring::ZZ;

fn int_vec(vec: &[i64]) -> Vec<ZZ> {
    vec.iter().map(|x| ZZ::new(*x)).collect()
}

#[test]
fn test_stripping_zeros() {
    let coeffs = vec![
        ZZ::new(0),
        ZZ::new(1),
        ZZ::new(5),
        ZZ::new(3),
        ZZ::zero(),
        ZZ::zero(),
    ];
    let poly = Polynomial::from_owned_coefficients(coeffs);

    assert_eq!(poly.coefficients(), &int_vec(&[0, 1, 5, 3]))
}

#[test]
fn test_add_polynomials() {
    let c1 = int_vec(&[0, 1, 3, 5, 7]);
    let c2 = int_vec(&[1, 4, 6, 7, 2, 1, 5, 0, 5]);

    let p1 = Polynomial::from_owned_coefficients(c1);
    let p2 = Polynomial::from_owned_coefficients(c2);

    let res = Polynomial::add_ffn(&p1, &p2);

    assert_eq!(res.coefficients(), &int_vec(&[1, 5, 9, 12, 9, 1, 5, 0, 5]));
}

#[test]
fn test_sub_polynomials() {
    let c1 = int_vec(&[0, 1, 3, 5, 7]);
    let c2 = int_vec(&[1, 4, 6, 7, 2, 1, 5, 0, 5]);

    let p1 = Polynomial::from_owned_coefficients(c1);
    let p2 = Polynomial::from_owned_coefficients(c2);

    let res = Polynomial::sub_ffn(&p1, &p2);

    assert_eq!(
        res.coefficients(),
        &int_vec(&[-1, -3, -3, -2, 5, -1, -5, 0, -5])
    );
}

#[test]
fn test_scalar_mul() {
    let c1 = int_vec(&[9, 4, 6, 1, 8]);

    let p1 = Polynomial::from_owned_coefficients(c1);

    let res1 = Polynomial::scalar_mul_ffn(&p1, &ZZ::new(2));
    let res2 = Polynomial::scalar_mul_usize_ffn(&p1, &3usize);

    assert_eq!(res1.coefficients(), int_vec(&[18, 8, 12, 2, 16]));
    assert_eq!(res2.coefficients(), int_vec(&[27, 12, 18, 3, 24]));
}

#[test]
fn test_polynomial_zero_zz_mul() {
    let c1 = int_vec(&[1, 2, 3, 4]);
    let p1 = Polynomial::from_owned_coefficients(c1);

    let res1 = Polynomial::scalar_mul_ffn(&p1, &ZZ::new(0));

    assert_eq!(res1.coefficients(), Vec::<ZZ>::new());
}

#[test]
fn test_polynomial_zero_usize_mul() {
    let c1 = int_vec(&[1, 2, 3, 4]);
    let p1 = Polynomial::from_owned_coefficients(c1);

    let res1 = Polynomial::scalar_mul_usize_ffn(&p1, &0);

    assert_eq!(res1.coefficients(), Vec::<ZZ>::new());
}

#[test]
fn test_polynomial_zero_poly_mul() {
    let c1 = int_vec(&[1, 2, 3, 4]);
    let p1 = Polynomial::from_owned_coefficients(c1);
    let p2 = Polynomial::from_owned_coefficients(vec![ZZ::new(0)]); // Will be empty

    let res1 = Polynomial::polynomial_mul_ffn(&p1, &p2);
    let res2 = Polynomial::polynomial_mul_ffn(&p2, &p1);

    assert_eq!(res1.coefficients(), Vec::<ZZ>::new());
    assert_eq!(res2.coefficients(), Vec::<ZZ>::new());
}

#[test]
fn test_same_polynomial_eq() {
    let c1 = int_vec(&[1, 3, 5, 7]);

    let p1 = Polynomial::from_owned_coefficients(c1.clone());
    let p2 = Polynomial::from_owned_coefficients(c1.clone());

    assert_eq!(p1, p2);
}

#[test]
fn test_different_deg_polynomial_eq() {
    let c1 = int_vec(&[1, 3, 5, 7]);
    let c2 = int_vec(&[1, 3]);

    let p1 = Polynomial::from_owned_coefficients(c1);
    let p2 = Polynomial::from_owned_coefficients(c2);

    assert_ne!(p1, p2);
}

#[test]
fn test_different_coeff_polynomial_eq() {
    let c1 = int_vec(&[1, 3, 5, 7]);
    let c2 = int_vec(&[1, 3, 5, 8]);

    let p1 = Polynomial::from_owned_coefficients(c1);
    let p2 = Polynomial::from_owned_coefficients(c2);

    assert_ne!(p1, p2);
}

#[test]
fn test_polynomial_deg_0_mul() {
    let c1 = int_vec(&[1, 2, 4, 8]);
    let c2 = int_vec(&[3]);

    let p1 = Polynomial::from_owned_coefficients(c1);
    let p2 = Polynomial::from_owned_coefficients(c2);

    let res1 = Polynomial::polynomial_mul_ffn(&p1, &p2);
    let res2 = Polynomial::polynomial_mul_ffn(&p2, &p1);

    assert_eq!(res1, res2);
    assert_eq!(res1.coefficients(), int_vec(&[3, 6, 12, 24]));
}

#[test]
fn test_polynomial_deg_1_mul() {
    let c1 = int_vec(&[1, 2]);
    let c2 = int_vec(&[3, 5]);

    let p1 = Polynomial::from_owned_coefficients(c1);
    let p2 = Polynomial::from_owned_coefficients(c2);

    let res1 = Polynomial::polynomial_mul_ffn(&p1, &p2);
    let res2 = Polynomial::polynomial_mul_ffn(&p2, &p1);

    assert_eq!(res1, res2);
    assert_eq!(res1.coefficients(), int_vec(&[3, 11, 10]));
}

#[test]
fn test_polynomial_deg_2_mul() {
    let c1 = int_vec(&[1, 2, 3]);
    let c2 = int_vec(&[4, 5, 6]);

    let p1 = Polynomial::from_owned_coefficients(c1);
    let p2 = Polynomial::from_owned_coefficients(c2);

    let res = Polynomial::polynomial_mul_ffn(&p1, &p2);
    assert_eq!(res.coefficients(), int_vec(&[4, 13, 28, 27, 18]))
}

#[test]
fn test_polynomial_high_same_deg_mul() {
    let c1 = int_vec(&[1, 2, 5, 6, 8, 3, 1]);
    let c2 = int_vec(&[3, 5, 0, 1, 5, 9, 2]);

    let p1 = Polynomial::from_owned_coefficients(c1);
    let p2 = Polynomial::from_owned_coefficients(c2);

    let res1 = Polynomial::polynomial_mul_ffn(&p1, &p2);
    let res2 = Polynomial::polynomial_mul_ffn(&p2, &p1);

    assert_eq!(res1, res2);
    assert_eq!(
        res1.coefficients(),
        int_vec(&[3, 11, 25, 44, 61, 73, 69, 92, 107, 100, 48, 15, 2])
    );
}

#[test]
fn test_polynomial_different_length_mul() {
    let c1 = int_vec(&[1, 2, 3, 5, 6, 7]);
    let c2 = int_vec(&[7, 8, 9]);

    let p1 = Polynomial::from_owned_coefficients(c1);
    let p2 = Polynomial::from_owned_coefficients(c2);

    let res = Polynomial::polynomial_mul_ffn(&p1, &p2);

    assert_eq!(
        res.coefficients(),
        int_vec(&[7, 22, 46, 77, 109, 142, 110, 63])
    );
}

#[test]
fn test_polynomial_remainder_exact_division() {
    // (x^2 - 1) % (x - 1): the division is exact, the remainder is zero
    let a = Polynomial::from_owned_coefficients(int_vec(&[-1, 0, 1]));
    let b = Polynomial::from_owned_coefficients(int_vec(&[-1, 1]));

    let r = Polynomial::ref_polynomial_remainder_ffn(&a, &b);

    assert!(r.is_zero());
    assert_eq!(r.coefficients(), Vec::<ZZ>::new());
}

#[test]
fn test_polynomial_remainder_monic_divisor() {
    // (x^2 + 1) % (x - 1) = 2, the value of x^2 + 1 at x = 1
    let a = Polynomial::from_owned_coefficients(int_vec(&[1, 0, 1]));
    let b = Polynomial::from_owned_coefficients(int_vec(&[-1, 1]));

    let r = Polynomial::ref_polynomial_remainder_ffn(&a, &b);

    assert_eq!(r.coefficients(), int_vec(&[2]));
}

#[test]
fn test_polynomial_remainder_scaling() {
    // (x^2 + x + 1) % (2x + 1): each step scales the dividend by the
    // divisor's leading coefficient 2, so the pseudo-remainder is 3
    let a = Polynomial::from_owned_coefficients(int_vec(&[1, 1, 1]));
    let b = Polynomial::from_owned_coefficients(int_vec(&[1, 2]));

    let r = Polynomial::owned_polynomial_remainder_ffn(a, &b);

    assert_eq!(r.coefficients(), int_vec(&[3]));
}

#[test]
fn test_polynomial_remainder_assign() {
    let mut a = Polynomial::from_owned_coefficients(int_vec(&[1, 0, 1]));
    let b = Polynomial::from_owned_coefficients(int_vec(&[-1, 1]));

    Polynomial::polynomial_remainder_assign_ffn(&mut a, &b);

    assert_eq!(a.coefficients(), int_vec(&[2]));
    assert!(a.degree() < b.degree() || a.is_zero());
}

#[test]
fn test_add_zero_identity() {
    let p = Polynomial::from_owned_coefficients(int_vec(&[4, 0, 7]));
    let zero: Polynomial<ZZ> = Polynomial::new();

    let left = Polynomial::add_ffn(&p, &zero);
    let right = Polynomial::add_ffn(&zero, &p);

    assert_eq!(left, p);
    assert_eq!(right, p);
}

#[test]
fn test_sub_self_is_zero() {
    let p = Polynomial::from_owned_coefficients(int_vec(&[4, -2, 7, 9]));
    let zero: Polynomial<ZZ> = Polynomial::new();

    let diff = Polynomial::sub_ffn(&p, &p);

    assert_eq!(diff, zero);
    assert!(diff.is_zero());
}

#[test]
fn test_add_commutes() {
    let p = Polynomial::from_owned_coefficients(int_vec(&[1, 2, 3]));
    let q = Polynomial::from_owned_coefficients(int_vec(&[9, 8, 7, 6, 5]));

    assert_eq!(Polynomial::add_ffn(&p, &q), Polynomial::add_ffn(&q, &p));
}

#[test]
fn test_karatsuba_matches_schoolbook() {
    // degrees 3 x 4, through the recursive path, against a convolution
    // computed by hand
    let p = Polynomial::from_owned_coefficients(int_vec(&[2, 0, -1, 3]));
    let q = Polynomial::from_owned_coefficients(int_vec(&[5, 1, 4, 0, 2]));

    let res = Polynomial::polynomial_mul_ffn(&p, &q);

    // schoolbook: c_t = sum_{i+j=t} p_i q_j
    assert_eq!(
        res.coefficients(),
        int_vec(&[10, 2, 3, 14, 3, 12, -2, 6])
    );
}

#[test]
fn test_negated() {
    let p = Polynomial::from_owned_coefficients(int_vec(&[1, -2, 3]));
    let n = p.negated();

    assert_eq!(n.coefficients(), int_vec(&[-1, 2, -3]));
    assert_eq!(n.negated(), p);
}

#[test]
fn test_shift_by() {
    let mut p = Polynomial::from_owned_coefficients(int_vec(&[1, 2]));
    p.shift_by(3);

    assert_eq!(p.coefficients(), int_vec(&[0, 0, 0, 1, 2]));

    let q = Polynomial::from_owned_coefficients(int_vec(&[5]));
    let shifted = q.shifted_by(2);
    assert_eq!(shifted.coefficients(), int_vec(&[0, 0, 5]));

    let mut zero: Polynomial<ZZ> = Polynomial::new();
    zero.shift_by(4);
    assert!(zero.is_zero());
}

#[test]
fn test_accessors() {
    let p = Polynomial::from_owned_coefficients(int_vec(&[4, 9, 2]));

    assert_eq!(p.degree(), 2);
    assert_eq!(p.constant(), ZZ::new(4));
    assert_eq!(p.coefficient(1), Some(ZZ::new(9)));
    assert_eq!(p.coefficient(3), None);
    assert!(!p.is_zero());
    assert!(!p.is_linear());

    let linear = Polynomial::from_owned_coefficients(int_vec(&[7, 3]));
    assert!(linear.is_linear());

    let zero: Polynomial<ZZ> = Polynomial::new();
    assert_eq!(zero.degree(), 0);
    assert_eq!(zero.constant(), ZZ::zero());
    assert!(zero.is_zero());
}

#[test]
fn test_from_coefficients_borrowed() {
    let coeffs = int_vec(&[3, 1, 0, 0]);
    let p = Polynomial::from_coefficients(&coeffs);

    assert_eq!(p.coefficients(), int_vec(&[3, 1]));
}

#[test]
fn test_add_assign_and_mul_assign() {
    let mut p = Polynomial::from_owned_coefficients(int_vec(&[1, 1]));
    let q = Polynomial::from_owned_coefficients(int_vec(&[2, 0, 4]));

    Polynomial::add_assign_ffn(&mut p, &q);
    assert_eq!(p.coefficients(), int_vec(&[3, 1, 4]));

    Polynomial::sub_assign_ffn(&mut p, &q);
    assert_eq!(p.coefficients(), int_vec(&[1, 1]));

    Polynomial::polynomial_mul_assign_ffn(&mut p, &q);
    assert_eq!(p.coefficients(), int_vec(&[2, 2, 4, 4]));

    Polynomial::scalar_mul_assign_ffn(&mut p, &ZZ::new(-1));
    assert_eq!(p.coefficients(), int_vec(&[-2, -2, -4, -4]));
}

#[test]
fn test_default_is_zero() {
    let p: Polynomial<ZZ> = Default::default();
    assert!(p.is_zero());
    assert_eq!(p, Polynomial::new());
}

#[test]
fn test_duplicate() {
    let p = Polynomial::from_owned_coefficients(int_vec(&[1, 2, 3]));
    let q = p.duplicate();
    assert_eq!(p, q);
    assert_eq!(q.coefficients(), int_vec(&[1, 2, 3]));
}
