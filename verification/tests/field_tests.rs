use ecc::field::FieldElement;

#[test]
fn test_field_element_creation() {
    let element = FieldElement::new(7, 13).unwrap();
    assert_eq!(element.value(), 7);
    assert_eq!(element.prime(), 13);
}

#[test]
fn test_field_element_addition() {
    let a = FieldElement::new(7, 13).unwrap();
    let b = FieldElement::new(12, 13).unwrap();
    let result = a.add(b).unwrap();
    assert_eq!(result.value(), 6); // (7 + 12) % 13 = 6
}

#[test]
fn test_field_element_subtraction() {
    let a = FieldElement::new(7, 13).unwrap();
    let b = FieldElement::new(12, 13).unwrap();
    let result = a.sub(b).unwrap();
    assert_eq!(result.value(), 8); // (7 - 12 + 13) % 13 = 8
}

#[test]
fn test_field_element_multiplication() {
    let a = FieldElement::new(3, 13).unwrap();
    let b = FieldElement::new(12, 13).unwrap();
    let result = a.mul(b).unwrap();
    assert_eq!(result.value(), 10); // (3 * 12) % 13 = 10
}

#[test]
fn test_field_element_division() {
    let a = FieldElement::new(3, 13).unwrap();
    let b = FieldElement::new(2, 13).unwrap();
    let result = a.div(b).unwrap();
    assert_eq!(result.value(), 8); // 3 * 7 % 13 = 8 (where 7 is the multiplicative inverse of 2 mod 13)
}

#[test]
fn test_field_element_power() {
    let base = FieldElement::new(3, 13).unwrap();
    let result = base.pow(3).unwrap();
    assert_eq!(result.value(), 1); // 3^3 % 13 = 1
}
