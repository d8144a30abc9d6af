use ecc::{EccError, FieldElement};

const PRIME: u32 = 223;
/// The largest prime below 2^32.
const LARGE_PRIME: u32 = 4_294_967_291;

fn element(num: u32, prime: u32) -> FieldElement {
    FieldElement::new(num, prime).unwrap()
}

#[test]
fn new_keeps_value_and_prime() {
    for num in 0..PRIME {
        let e = FieldElement::new(num, PRIME).unwrap();
        assert_eq!(e.num, num);
        assert_eq!(e.prime, PRIME);
    }
}

#[test]
fn new_refuses_values_from_the_prime_on() {
    assert_eq!(FieldElement::new(223, PRIME), Err(EccError::OutOfRange));
    assert_eq!(FieldElement::new(224, PRIME), Err(EccError::OutOfRange));
    assert_eq!(FieldElement::new(u32::MAX, PRIME), Err(EccError::OutOfRange));
    assert_eq!(FieldElement::new(0, 0), Err(EccError::OutOfRange));
}

#[test]
fn results_stay_below_the_prime() {
    for a in 0..31 {
        for b in 0..31 {
            let (x, y) = (element(a, 31), element(b, 31));
            assert!((x + y).unwrap().num < 31);
            assert!((x - y).unwrap().num < 31);
            assert!((x * y).unwrap().num < 31);
            assert_eq!((x + y).unwrap().prime, 31);
            assert_eq!((x - y).unwrap().prime, 31);
            assert_eq!((x * y).unwrap().prime, 31);
        }
    }
}

#[test]
fn addition_wraps_at_the_prime() {
    assert_eq!(element(44, 57) + element(33, 57), Ok(element(20, 57)));
    assert_eq!(element(17, 57) + element(42, 57), Ok(element(2, 57)));
    assert_eq!(element(0, 57) + element(0, 57), Ok(element(0, 57)));
    assert_eq!(element(56, 57) + element(1, 57), Ok(element(0, 57)));
}

#[test]
fn subtraction_wraps_below_zero() {
    assert_eq!(element(9, 57) - element(29, 57), Ok(element(37, 57)));
    assert_eq!(element(52, 57) - element(30, 57), Ok(element(22, 57)));
    assert_eq!(element(0, 57) - element(56, 57), Ok(element(1, 57)));
    assert_eq!(element(12, 57) - element(12, 57), Ok(element(0, 57)));
}

#[test]
fn multiplication_of_large_values_does_not_overflow() {
    let top = element(LARGE_PRIME - 1, LARGE_PRIME);
    assert_eq!(top * top, Ok(element(1, LARGE_PRIME)));
    let half = element(2_147_483_646, LARGE_PRIME);
    assert_eq!(half * element(2, LARGE_PRIME), Ok(element(1, LARGE_PRIME)));
    assert_eq!(top + top, Ok(element(LARGE_PRIME - 2, LARGE_PRIME)));
}

#[test]
fn power_of_zero_and_one() {
    assert_eq!(element(5, PRIME).pow(0), element(1, PRIME));
    assert_eq!(element(0, PRIME).pow(0), element(1, PRIME));
    assert_eq!(element(5, PRIME).pow(1), element(5, PRIME));
    assert_eq!(element(0, PRIME).pow(1), element(0, PRIME));
    assert_eq!(element(0, 1).pow(0), element(0, 1));
}

#[test]
fn power_is_repeated_multiplication() {
    let base = element(17, 31);
    assert_eq!(base.pow(3), element(15, 31));
    let mut expected = element(1, 31);
    for exponent in 0..70 {
        assert_eq!(base.pow(exponent), expected);
        expected = (expected * base).unwrap();
    }
}

#[test]
fn power_with_a_large_exponent() {
    let a = element(123_456_789, LARGE_PRIME);
    assert_eq!(a.pow(LARGE_PRIME - 1), element(1, LARGE_PRIME));
    assert_eq!(a.pow(u32::MAX), a.pow(5));
}

#[test]
fn additive_inverse_sums_to_zero() {
    for num in 0..PRIME {
        let a = element(num, PRIME);
        let opposite = element((PRIME - num) % PRIME, PRIME);
        assert_eq!(a + opposite, Ok(element(0, PRIME)));
    }
}

#[test]
fn element_divided_by_itself_is_one() {
    for num in 1..PRIME {
        let a = element(num, PRIME);
        assert_eq!(a / a, Ok(element(1, PRIME)));
    }
}

#[test]
fn division_is_multiplication_by_a_power() {
    for a in 0..31 {
        for b in 1..31 {
            let (x, y) = (element(a, 31), element(b, 31));
            assert_eq!(x / y, x * y.pow(31 - 2));
            assert_eq!(((x / y).unwrap() * y).unwrap(), x);
        }
    }
    assert_eq!(element(3, 31) / element(24, 31), Ok(element(4, 31)));
}

#[test]
fn division_by_zero_always_fails() {
    for num in 0..PRIME {
        assert_eq!(
            element(num, PRIME) / element(0, PRIME),
            Err(EccError::DivisionByZero)
        );
    }
}

#[test]
fn differing_primes_always_fail() {
    let (a, b) = (element(3, 7), element(3, 11));
    assert_eq!(a + b, Err(EccError::FieldMismatch));
    assert_eq!(a - b, Err(EccError::FieldMismatch));
    assert_eq!(a * b, Err(EccError::FieldMismatch));
    assert_eq!(a / b, Err(EccError::FieldMismatch));
    assert_eq!(a / element(0, 11), Err(EccError::FieldMismatch));
}

#[test]
fn elements_are_equal_when_value_and_prime_are() {
    assert_eq!(element(3, 7), element(3, 7));
    assert_ne!(element(3, 7), element(4, 7));
    assert_ne!(element(3, 7), element(3, 11));
}
