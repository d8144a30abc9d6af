use ecc::{FieldElement, Point};

fn element(num: u32, prime: u32) -> FieldElement {
    FieldElement::new(num, prime).unwrap()
}

#[test]
fn field_element_is_written_with_prime_and_value() {
    assert_eq!(element(3, 7).to_string(), "FieldElement_7(3)");
    assert_eq!(element(0, 1).to_string(), "FieldElement_1(0)");
    assert_eq!(element(10, 223).to_string(), "FieldElement_223(10)");
    assert_eq!(element(100, 1009).to_string(), "FieldElement_1009(100)");
    assert_eq!(
        element(4_294_967_290, 4_294_967_291).to_string(),
        "FieldElement_4294967291(4294967290)"
    );
}

#[test]
fn point_is_written_with_coordinates_and_curve() {
    let (a, b) = (element(0, 223), element(7, 223));
    let p = Point::new(a, b, Some(element(47, 223)), Some(element(71, 223))).unwrap();
    assert_eq!(
        p.to_string(),
        "Point(47, 71)_aFieldElement_223(0)_bFieldElement_223(7)"
    );
}

#[test]
fn point_at_infinity_is_written_with_its_sign() {
    let (a, b) = (element(0, 223), element(7, 223));
    let p = Point::new(a, b, None, None).unwrap();
    assert_eq!(
        p.to_string(),
        "Point(\u{221e})_aFieldElement_223(0)_bFieldElement_223(7)"
    );
}

#[test]
fn scalar_multiples_in_writing() {
    let (a, b) = (element(0, 223), element(7, 223));
    let p = Point::new(a, b, Some(element(47, 223)), Some(element(71, 223))).unwrap();
    let lines: Vec<String> = (1..=3)
        .map(|i| format!("{} => {}", i, p.scalar_mul(i).to_string()))
        .collect();
    assert_eq!(
        lines,
        vec![
            "1 => Point(47, 71)_aFieldElement_223(0)_bFieldElement_223(7)",
            "2 => Point(36, 111)_aFieldElement_223(0)_bFieldElement_223(7)",
            "3 => Point(15, 137)_aFieldElement_223(0)_bFieldElement_223(7)",
        ]
    );
}
