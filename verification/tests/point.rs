use ecc::{EccError, FieldElement, Point};

const ORDER: u32 = 7;
const ORDER_2: u32 = 11;

const SECP256K1_A: FieldElement = FieldElement {
    num: 0,
    prime: ORDER,
};
const SECP256K1_B: FieldElement = FieldElement {
    num: 7 % ORDER,
    prime: ORDER,
};

#[test]
fn test_point_init_error_infinity() {
    let x = FieldElement::new(0, ORDER_2).unwrap();
    let y = FieldElement::new(0, ORDER_2).unwrap();

    assert_eq!(
        Point::new(SECP256K1_A, SECP256K1_B, Some(x), None),
        Err(EccError::InvalidInfinity)
    );
    assert_eq!(
        Point::new(SECP256K1_A, SECP256K1_B, None, Some(y)),
        Err(EccError::InvalidInfinity)
    );
}

#[test]
fn test_point_init_error_order() {
    let x = FieldElement::new(0, ORDER_2).unwrap();
    let y = FieldElement::new(0, ORDER_2).unwrap();

    assert_eq!(
        Point::new(SECP256K1_A, SECP256K1_B, Some(x), Some(y)),
        Err(EccError::FieldMismatch)
    );
}

#[test]
fn test_point_init_error() {
    let x = FieldElement::new(0, ORDER).unwrap();
    let y = FieldElement::new(1, ORDER).unwrap();

    assert_eq!(
        Point::new(SECP256K1_A, SECP256K1_B, Some(x), Some(y)),
        Err(EccError::NotOnCurve)
    );
}

#[test]
fn test_point_init() {
    let x = FieldElement::new(0, ORDER).unwrap();
    let y = FieldElement::new(0, ORDER).unwrap();

    assert_eq!(
        Point::new(SECP256K1_A, SECP256K1_B, Some(x), Some(y)),
        Ok(Point {
            a: SECP256K1_A,
            b: SECP256K1_B,
            x: Some(x),
            y: Some(y)
        })
    );
}

#[test]
fn test_point_init_infinity() {
    let x = None;
    let y = None;

    assert_eq!(
        Point::new(SECP256K1_A, SECP256K1_B, x, y),
        Ok(Point {
            a: SECP256K1_A,
            b: SECP256K1_B,
            x: None,
            y: None
        })
    );
}

#[test]
fn test_point_addition_distinct() {
    let x1 = FieldElement::new(1, ORDER).unwrap();
    let y1 = FieldElement::new(6, ORDER).unwrap();
    let point_a = Point::new(SECP256K1_A, SECP256K1_B, Some(x1), Some(y1)).unwrap();

    let x2 = FieldElement::new(2, ORDER).unwrap();
    let y2 = FieldElement::new(1, ORDER).unwrap();
    let point_b = Point::new(SECP256K1_A, SECP256K1_B, Some(x2), Some(y2)).unwrap();

    assert_eq!(
        point_a + point_b,
        Ok(Point {
            a: SECP256K1_A,
            b: SECP256K1_B,
            x: Some(FieldElement::new(1, ORDER).unwrap()),
            y: Some(FieldElement::new(1, ORDER).unwrap()),
        })
    )
}

#[test]
fn test_point_addition_equal() {
    let x = FieldElement::new(1, ORDER).unwrap();
    let y = FieldElement::new(6, ORDER).unwrap();
    let point_a = Point::new(SECP256K1_A, SECP256K1_B, Some(x), Some(y)).unwrap();

    assert_eq!(
        point_a + point_a,
        Ok(Point {
            a: SECP256K1_A,
            b: SECP256K1_B,
            x: Some(FieldElement::new(2, ORDER).unwrap()),
            y: Some(FieldElement::new(6, ORDER).unwrap()),
        })
    )
}

#[test]
fn test_point_addition_equal_vertical_line() {
    let x = FieldElement::new(0, ORDER).unwrap();
    let y = FieldElement::new(0, ORDER).unwrap();
    let point_a = Point::new(SECP256K1_A, SECP256K1_B, Some(x), Some(y)).unwrap();

    assert_eq!(
        point_a + point_a,
        Ok(Point {
            a: SECP256K1_A,
            b: SECP256K1_B,
            x: None,
            y: None,
        })
    )
}

#[test]
fn test_point_addition_infinity() {
    let x = None;
    let y = None;
    let point_a = Point::new(SECP256K1_A, SECP256K1_B, x, y).unwrap();

    assert_eq!(
        point_a + point_a,
        Ok(Point {
            a: SECP256K1_A,
            b: SECP256K1_B,
            x: None,
            y: None,
        })
    )
}

#[test]
fn test_point_addition_identity() {
    let x = None;
    let y = None;
    let point_infinity = Point::new(SECP256K1_A, SECP256K1_B, x, y).unwrap();

    let x1 = FieldElement::new(1, ORDER).unwrap();
    let y1 = FieldElement::new(6, ORDER).unwrap();
    let point_a = Point::new(SECP256K1_A, SECP256K1_B, Some(x1), Some(y1)).unwrap();

    let x2 = FieldElement::new(4, ORDER).unwrap();
    let y2 = FieldElement::new(1, ORDER).unwrap();
    let point_b = Point::new(SECP256K1_A, SECP256K1_B, Some(x2), Some(y2)).unwrap();

    assert_eq!(
        point_infinity + point_a,
        Ok(Point {
            a: SECP256K1_A,
            b: SECP256K1_B,
            x: Some(FieldElement::new(1, ORDER).unwrap()),
            y: Some(FieldElement::new(6, ORDER).unwrap()),
        })
    );

    assert_eq!(
        point_b + point_infinity,
        Ok(Point {
            a: SECP256K1_A,
            b: SECP256K1_B,
            x: Some(FieldElement::new(4, ORDER).unwrap()),
            y: Some(FieldElement::new(1, ORDER).unwrap()),
        })
    );
}

#[test]
fn test_point_addition_identity_variation() {
    let x1 = FieldElement::new(1, ORDER).unwrap();
    let y1 = FieldElement::new(6, ORDER).unwrap();
    let point_a = Point::new(SECP256K1_A, SECP256K1_B, Some(x1), Some(y1)).unwrap();

    let x2 = FieldElement::new(1, ORDER).unwrap();
    let y2 = FieldElement::new(1, ORDER).unwrap();
    let point_b = Point::new(SECP256K1_A, SECP256K1_B, Some(x2), Some(y2)).unwrap();

    assert_eq!(
        point_a + point_b,
        Ok(Point {
            a: SECP256K1_A,
            b: SECP256K1_B,
            x: None,
            y: None,
        })
    );
}

#[test]
fn test_scalar_multiplication() {
    let x = FieldElement::new(1, ORDER).unwrap();
    let y = FieldElement::new(6, ORDER).unwrap();
    let point_a = Point::new(SECP256K1_A, SECP256K1_B, Some(x), Some(y)).unwrap();

    assert_eq!(
        point_a.scalar_mul(5),
        Point {
            a: SECP256K1_A,
            b: SECP256K1_B,
            x: Some(FieldElement::new(2, ORDER).unwrap()),
            y: Some(FieldElement::new(1, ORDER).unwrap()),
        }
    );
}
