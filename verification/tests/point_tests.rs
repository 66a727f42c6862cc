use ecc::field::FieldElement;
use ecc::point::Point;

fn create_test_point() -> Point {
    // Using curve y^2 = x^3 + 7 over F223
    let prime = 223;
    let a = FieldElement::new(0, prime).unwrap();
    let b = FieldElement::new(7, prime).unwrap();
    let x = FieldElement::new(192, prime).unwrap();
    let y = FieldElement::new(105, prime).unwrap();
    Point::new(Some(x), Some(y), a, b).unwrap()
}

#[test]
fn test_point_creation() {
    let point = create_test_point();
    assert!(!point.is_infinity());
}

#[test]
fn test_point_addition() {
    // Using curve y^2 = x^3 + 7 over F223
    let prime = 223;
    let a = FieldElement::new(0, prime).unwrap();
    let b = FieldElement::new(7, prime).unwrap();

    // Point 1: (192, 105)
    let x1 = FieldElement::new(192, prime).unwrap();
    let y1 = FieldElement::new(105, prime).unwrap();
    let p1 = Point::new(Some(x1), Some(y1), a, b).unwrap();

    // Point 2: (17, 56)
    let x2 = FieldElement::new(17, prime).unwrap();
    let y2 = FieldElement::new(56, prime).unwrap();
    let p2 = Point::new(Some(x2), Some(y2), a, b).unwrap();

    // Expected result: (170, 142)
    let result = p1.add(p2).unwrap();
    assert_eq!(result.x.unwrap().value(), 170);
    assert_eq!(result.y.unwrap().value(), 142);
}

#[test]
fn test_point_doubling() {
    let prime = 223;
    let a = FieldElement::new(0, prime).unwrap();
    let b = FieldElement::new(7, prime).unwrap();

    // Point: (192, 105)
    let x = FieldElement::new(192, prime).unwrap();
    let y = FieldElement::new(105, prime).unwrap();
    let p = Point::new(Some(x), Some(y), a, b).unwrap();

    // Double the point
    let result = p.add(p).unwrap();

    // Expected result: (49, 71)
    assert_eq!(result.x.unwrap().value(), 49);
    assert_eq!(result.y.unwrap().value(), 71);
}

#[test]
fn test_scalar_multiplication() {
    let prime = 223;
    let a = FieldElement::new(0, prime).unwrap();
    let b = FieldElement::new(7, prime).unwrap();

    // Point: (192, 105)
    let x = FieldElement::new(192, prime).unwrap();
    let y = FieldElement::new(105, prime).unwrap();
    let p = Point::new(Some(x), Some(y), a, b).unwrap();

    // Multiply by 2
    let result = p.mul(2).unwrap();
    assert_eq!(result.x.unwrap().value(), 49);
    assert_eq!(result.y.unwrap().value(), 71);
}

#[test]
fn test_point_negation() {
    let point = create_test_point();
    let neg_point = point.neg();

    assert_eq!(neg_point.x.unwrap().value(), 192);
    assert_eq!(neg_point.y.unwrap().value(), 223 - 105); // -105 mod 223
}
