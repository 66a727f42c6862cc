use ecc::curve::Curve;

#[test]
fn test_curve_creation() {
    // y^2 = x^3 + 7 over F223
    let curve = Curve::new(0, 7, 223).unwrap();
    assert_eq!(curve.a.value(), 0);
    assert_eq!(curve.b.value(), 7);
    assert_eq!(curve.prime, 223);
}

#[test]
fn test_point_creation_on_curve() {
    let curve = Curve::new(0, 7, 223).unwrap();
    let point = curve.point(192, 105).unwrap();
    assert_eq!(point.x.unwrap().value(), 192);
    assert_eq!(point.y.unwrap().value(), 105);
}

#[test]
fn test_invalid_point() {
    let curve = Curve::new(0, 7, 223).unwrap();
    assert!(curve.point(200, 119).is_err()); // This point is not on the curve
}

#[test]
fn test_infinity_point() {
    let curve = Curve::new(0, 7, 223).unwrap();
    let point = curve.infinity_point();
    assert!(point.is_infinity());
}

#[test]
fn test_point_order() {
    let curve = Curve::new(0, 7, 223).unwrap();
    let point = curve.point(192, 105).unwrap();

    let order = curve.point_order(&point).unwrap();
    let mul_result = point.mul(order).unwrap();
    assert!(mul_result.is_infinity());
}
