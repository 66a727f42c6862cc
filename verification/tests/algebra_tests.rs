use ecc::curve::{Curve, CurveError};
use ecc::field::{FieldElement, FieldError};
use ecc::point::{Point, PointError};
use ecc::protocols::diffie_hellman::DiffieHellman;

#[test]
fn test_normalization_negative_and_large() {
    // a negative value is brought into [0, p)
    let a = FieldElement::new(-5, 13).unwrap();
    assert_eq!(a.value(), 8);
    // a value past the modulus wraps around
    let b = FieldElement::new(100, 13).unwrap();
    assert_eq!(b.value(), 9);
    // the modulus must be positive
    assert!(FieldElement::new(5, 0).is_err());
    assert!(FieldElement::new(5, -7).is_err());
}

#[test]
fn test_field_addition_associative() {
    let x = FieldElement::new(3, 13).unwrap();
    let y = FieldElement::new(5, 13).unwrap();
    let z = FieldElement::new(9, 13).unwrap();
    let left = x.add(y.add(z).unwrap()).unwrap();
    let right = x.add(y).unwrap().add(z).unwrap();
    assert_eq!(left.value(), right.value());
}

#[test]
fn test_field_additive_identity_and_inverse() {
    let x = FieldElement::new(9, 13).unwrap();
    let zero = FieldElement::new(0, 13).unwrap();
    assert_eq!(x.add(zero).unwrap().value(), 9);
    assert_eq!(x.add(x.neg()).unwrap().value(), 0);
}

#[test]
fn test_field_multiplicative_inverse() {
    let x = FieldElement::new(9, 13).unwrap();
    let inv = x.inv().unwrap();
    assert_eq!(x.mul(inv).unwrap().value(), 1);
}

#[test]
fn test_field_power_negative_exponent() {
    // 3^(-3) mod 13 == (3^3)^(-1) mod 13 == 1
    let base = FieldElement::new(3, 13).unwrap();
    assert_eq!(base.pow(-3).unwrap().value(), 1);
    // 7^(-1) mod 13 == 2, since 7 * 2 == 14 == 1 (mod 13)
    let seven = FieldElement::new(7, 13).unwrap();
    assert_eq!(seven.pow(-1).unwrap().value(), 2);
}

#[test]
fn test_field_error_variants() {
    let a = FieldElement::new(3, 13).unwrap();
    let b = FieldElement::new(3, 17).unwrap();
    assert_eq!(a.add(b), Err(FieldError::MismatchedFields));
    assert_eq!(a.sub(b), Err(FieldError::MismatchedFields));
    assert_eq!(a.mul(b), Err(FieldError::MismatchedFields));
    assert_eq!(a.div(b), Err(FieldError::MismatchedFields));

    let zero = FieldElement::new(0, 13).unwrap();
    assert_eq!(a.div(zero), Err(FieldError::DivisionByZero));
    assert_eq!(zero.inv(), Err(FieldError::DivisionByZero));

    // over a non-prime modulus an inverse need not exist
    let even = FieldElement::new(2, 10).unwrap();
    assert_eq!(even.inv(), Err(FieldError::InvalidElement));
    // but exists whenever the value is coprime with the modulus
    let three = FieldElement::new(3, 10).unwrap();
    assert_eq!(three.inv().unwrap().value(), 7);
}

#[test]
fn test_singular_curve_rejected() {
    // a zero discriminant is rejected over any modulus
    assert!(matches!(Curve::new(0, 0, 223), Err(CurveError::InvalidParameters)));
    assert!(matches!(Curve::new(0, 0, 7), Err(CurveError::InvalidParameters)));
    assert!(matches!(Curve::new(0, 0, 13), Err(CurveError::InvalidParameters)));
    // a non-positive modulus is rejected too
    assert!(matches!(Curve::new(0, 7, 0), Err(CurveError::InvalidParameters)));
}

#[test]
fn test_group_identity_and_inverse() {
    let curve = Curve::new(0, 7, 223).unwrap();
    let p = curve.point(192, 105).unwrap();
    let infinity = curve.infinity_point();

    // P + O == P
    let sum = p.add(infinity).unwrap();
    assert_eq!(sum.x, p.x);
    assert_eq!(sum.y, p.y);
    // O + P == P
    let sum2 = infinity.add(p).unwrap();
    assert_eq!(sum2.x, p.x);
    assert_eq!(sum2.y, p.y);
    // P + (-P) == O
    assert!(p.add(p.neg()).unwrap().is_infinity());
}

#[test]
fn test_point_error_variants() {
    let prime = 223;
    let a = FieldElement::new(0, prime).unwrap();
    let b = FieldElement::new(7, prime).unwrap();

    // coordinates off the curve are rejected
    let x = FieldElement::new(200, prime).unwrap();
    let y = FieldElement::new(119, prime).unwrap();
    assert_eq!(Point::new(Some(x), Some(y), a, b), Err(PointError::NotOnCurve));

    // exactly one missing coordinate is rejected
    assert_eq!(Point::new(Some(x), None, a, b), Err(PointError::NotOnCurve));

    // points of different curves cannot be added
    let curve1 = Curve::new(0, 7, 223).unwrap();
    let curve2 = Curve::new(5, 7, 223).unwrap();
    let p1 = curve1.point(192, 105).unwrap();
    let p2 = curve2.infinity_point();
    assert_eq!(p1.add(p2), Err(PointError::DifferentCurves));
}

#[test]
fn test_scalar_multiplication_zero_yields_infinity() {
    let curve = Curve::new(0, 7, 223).unwrap();
    let p = curve.point(192, 105).unwrap();
    assert!(p.mul(0).unwrap().is_infinity());
    // a negative scalar runs zero iterations of the double-and-add loop
    // and also yields the identity
    assert!(p.mul(-5).unwrap().is_infinity());
}

#[test]
fn test_order_closure_and_minimality() {
    let curve = Curve::new(0, 7, 223).unwrap();
    let p = curve.point(15, 86).unwrap();
    let order = curve.point_order(&p).unwrap();
    assert!(order >= 2);
    // the order-fold multiple is the identity
    assert!(p.mul(order).unwrap().is_infinity());
    // and no smaller positive multiple is
    let mut k: i64 = 1;
    while k < order {
        assert!(!p.mul(k).unwrap().is_infinity());
        k += 1;
    }
}

#[test]
fn test_diffie_hellman_public_key_is_affine() {
    // the drawn private scalar lies strictly inside [1, order), so the
    // public point is never the identity
    let curve = Curve::new(0, 7, 223).unwrap();
    let generator = curve.point(15, 86).unwrap();
    let alice = DiffieHellman::new(curve, generator).unwrap();
    assert!(!alice.public_key().is_infinity());
    assert!(alice.private_key >= 1);
}
