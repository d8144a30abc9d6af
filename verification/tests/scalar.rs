use ecc::{EccError, FieldElement, Point};

fn element(num: u32, prime: u32) -> FieldElement {
    FieldElement::new(num, prime).unwrap()
}

fn point(a: u32, b: u32, x: u32, y: u32, prime: u32) -> Point {
    Point::new(
        element(a, prime),
        element(b, prime),
        Some(element(x, prime)),
        Some(element(y, prime)),
    )
    .unwrap()
}

fn infinity(a: u32, b: u32, prime: u32) -> Point {
    Point::new(element(a, prime), element(b, prime), None, None).unwrap()
}

#[test]
fn scalar_multiple_by_zero_is_infinity() {
    let p = point(0, 7, 47, 71, 223);
    assert_eq!(p.scalar_mul(0), infinity(0, 7, 223));
    assert_eq!(infinity(0, 7, 223).scalar_mul(0), infinity(0, 7, 223));
}

#[test]
fn scalar_multiple_by_one_is_the_point() {
    let p = point(0, 7, 47, 71, 223);
    assert_eq!(p.scalar_mul(1), p);
    assert_eq!(infinity(0, 7, 223).scalar_mul(1), infinity(0, 7, 223));
}

#[test]
fn scalar_multiples_over_the_field_of_223() {
    let p = point(0, 7, 47, 71, 223);
    assert_eq!(p.scalar_mul(2), point(0, 7, 36, 111, 223));
    assert_eq!(p.scalar_mul(4), point(0, 7, 194, 51, 223));
    assert_eq!(p.scalar_mul(8), point(0, 7, 116, 55, 223));
    assert_eq!(p.scalar_mul(20), point(0, 7, 47, 152, 223));
    assert_eq!(p.scalar_mul(21), infinity(0, 7, 223));
    assert_eq!(p.scalar_mul(22), p);
    assert_eq!(point(0, 7, 192, 105, 223).scalar_mul(2), point(0, 7, 49, 71, 223));
    assert_eq!(point(0, 7, 143, 98, 223).scalar_mul(2), point(0, 7, 64, 168, 223));
}

#[test]
fn scalar_multiple_is_a_fold_of_additions() {
    let p = point(0, 7, 47, 71, 223);
    let mut sum = infinity(0, 7, 223);
    for k in 0..50 {
        assert_eq!(p.scalar_mul(k), sum);
        assert_eq!(p.checked_scalar_mul(k), Ok(sum));
        sum = (sum + p).unwrap();
    }
}

#[test]
fn checked_scalar_multiple_reports_the_first_failure() {
    // modulo 4 doubling (1, 1) on y^2 = x^3 leaves the curve
    let p = point(0, 0, 1, 1, 4);
    assert_eq!(p.checked_scalar_mul(0), Ok(infinity(0, 0, 4)));
    assert_eq!(p.checked_scalar_mul(1), Ok(p));
    assert_eq!(p.checked_scalar_mul(2), Err(EccError::NotOnCurve));
    assert_eq!(p.checked_scalar_mul(9), Err(EccError::NotOnCurve));
}
