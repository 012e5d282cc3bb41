use finite_field::element::bracket;
use finite_field::{FieldElement, FieldError};
use num_bigint::BigInt;

fn big(v: i64) -> BigInt {
    BigInt::from(v)
}

fn fe(num: i64, prime: i64) -> FieldElement {
    FieldElement::new(big(num), big(prime)).unwrap()
}

fn hex(digits: &str) -> BigInt {
    BigInt::parse_bytes(digits.as_bytes(), 16).unwrap()
}

/// The prime of the field that the curve secp256k1 is defined over.
fn large_prime() -> BigInt {
    hex("fffffffffffffffffffffffffffffffffffffffffffffffffffffffefffffc2f")
}

#[test]
fn test_ne() {
    let a = fe(2, 31);
    let b = fe(2, 31);
    let c = fe(15, 31);
    assert_eq!(a, b);
    assert!(a != c);
    assert!(!(a != b));
}

#[test]
fn test_add() {
    let mut a = fe(2, 31);
    let mut b = fe(15, 31);
    assert_eq!(a.add(&b).unwrap(), fe(17, 31));
    a = fe(17, 31);
    b = fe(21, 31);
    assert_eq!(a.add(&b).unwrap(), fe(7, 31));
}

#[test]
fn test_sub() {
    let mut a = fe(29, 31);
    let mut b = fe(4, 31);
    assert_eq!(a.sub(&b).unwrap(), fe(25, 31));
    a = fe(15, 31);
    b = fe(30, 31);
    assert_eq!(a.sub(&b).unwrap(), fe(16, 31));
}

#[test]
fn test_mul() {
    let a = fe(24, 31);
    let b = fe(19, 31);
    assert_eq!(a.mul(&b).unwrap(), fe(22, 31));
}

#[test]
fn test_pow() {
    let mut a = fe(17, 31);
    assert_eq!(a.pow(&big(3)), fe(15, 31));
    a = fe(5, 31);
    let b = fe(18, 31);
    assert_eq!(a.pow(&big(5)).mul(&b).unwrap(), fe(16, 31));
}

#[test]
fn test_div() {
    let mut a = fe(3, 31);
    let mut b = fe(24, 31);
    assert_eq!(a.div(&b).unwrap(), fe(4, 31));
    a = fe(17, 31);
    assert_eq!(a.pow(&big(-3)), fe(29, 31));
    a = fe(4, 31);
    b = fe(11, 31);
    assert_eq!(a.pow(&big(-4)).mul(&b).unwrap(), fe(13, 31));
}

#[test]
fn equality_compares_number_and_prime() {
    assert!(!(fe(7, 13) == fe(6, 13)));
    assert!(fe(7, 13) == fe(7, 13));
    assert!(fe(2, 31) != fe(2, 37));
    assert!(fe(0, 1) != fe(0, 2));
}

#[test]
fn scenarios_modulo_13() {
    assert_eq!(fe(7, 13).add(&fe(12, 13)), Ok(fe(6, 13)));
    assert_eq!(fe(3, 13).mul(&fe(12, 13)), Ok(fe(10, 13)));
    assert_eq!(fe(3, 13).pow(&big(3)), fe(1, 13));
    assert_eq!(fe(7, 13).pow(&big(-3)), fe(8, 13));
}

#[test]
fn scenarios_modulo_31() {
    assert_eq!(fe(2, 31).add(&fe(15, 31)), Ok(fe(17, 31)));
    assert_eq!(fe(29, 31).sub(&fe(4, 31)), Ok(fe(25, 31)));
    assert_eq!(fe(24, 31).mul(&fe(19, 31)), Ok(fe(22, 31)));
    assert_eq!(fe(3, 31).div(&fe(24, 31)), Ok(fe(4, 31)));
    assert_eq!(fe(17, 31).pow(&big(-3)), fe(29, 31));
}

#[test]
fn new_accepts_the_whole_range() {
    for n in 0..13 {
        assert!(FieldElement::new(big(n), big(13)).is_ok());
    }
    assert!(FieldElement::new(big(0), big(1)).is_ok());
    assert!(FieldElement::new(BigInt::from(1) << 300, (BigInt::from(1) << 300) + 1).is_ok());
}

#[test]
fn new_refuses_numbers_outside_the_range() {
    let refused = Err(FieldError::RangeViolation);
    assert_eq!(FieldElement::new(big(-1), big(13)), refused);
    assert_eq!(FieldElement::new(big(13), big(13)), refused);
    assert_eq!(FieldElement::new(big(14), big(13)), refused);
    assert_eq!(FieldElement::new(big(0), big(0)), refused);
    assert_eq!(FieldElement::new(big(0), big(-5)), refused);
    assert_eq!(FieldElement::new(big(-7), big(-5)), refused);
    assert_eq!(FieldElement::new(large_prime(), large_prime()), refused);
    assert_eq!(FieldElement::new(-large_prime(), large_prime()), refused);
}

#[test]
fn new_keeps_the_number_as_given() {
    assert_eq!(fe(12, 13).to_string(), "[12, 13]");
    assert_ne!(fe(12, 13), fe(12, 14));
}

#[test]
fn operations_refuse_different_fields() {
    let a = fe(7, 13);
    let b = fe(7, 31);
    let refused = Err(FieldError::FieldMismatch);
    assert_eq!(a.add(&b), refused);
    assert_eq!(a.sub(&b), refused);
    assert_eq!(a.mul(&b), refused);
    assert_eq!(a.div(&b), refused);
    assert_eq!(b.add(&a), refused);
    assert_eq!(b.div(&a), refused);
}

#[test]
fn division_by_zero_is_refused() {
    assert_eq!(fe(7, 13).div(&fe(0, 13)), Err(FieldError::DivisionByZero));
    assert_eq!(fe(0, 13).div(&fe(0, 13)), Err(FieldError::DivisionByZero));
    assert_eq!(fe(0, 1).div(&fe(0, 1)), Err(FieldError::DivisionByZero));
}

#[test]
fn field_mismatch_comes_before_division_by_zero() {
    assert_eq!(fe(7, 13).div(&fe(0, 31)), Err(FieldError::FieldMismatch));
}

#[test]
fn zero_divided_is_zero() {
    assert_eq!(fe(0, 13).div(&fe(5, 13)), Ok(fe(0, 13)));
}

#[test]
fn results_stay_in_the_field() {
    let p = 7;
    for x in 0..p {
        for y in 0..p {
            let a = fe(x, p);
            let b = fe(y, p);
            assert_eq!(a.add(&b), Ok(fe((x + y) % p, p)));
            assert_eq!(a.sub(&b), Ok(fe((x - y).rem_euclid(p), p)));
            assert_eq!(a.mul(&b), Ok(fe((x * y) % p, p)));
            if y != 0 {
                let q = a.div(&b).unwrap();
                assert!((0..p).any(|v| q == fe(v, p)));
                assert_eq!(q.mul(&b), Ok(fe(x, p)));
            }
        }
    }
}

#[test]
fn subtraction_wraps_into_the_field() {
    assert_eq!(fe(0, 13).sub(&fe(1, 13)), Ok(fe(12, 13)));
    assert_eq!(fe(3, 13).sub(&fe(3, 13)), Ok(fe(0, 13)));
    let p = large_prime();
    let a = FieldElement::new(big(1), p.clone()).unwrap();
    let b = FieldElement::new(big(2), p.clone()).unwrap();
    assert_eq!(a.sub(&b), FieldElement::new(&p - 1, p));
}

#[test]
fn zero_and_one_are_identities() {
    for p in [2, 13, 31] {
        for x in 0..p {
            let a = fe(x, p);
            assert_eq!(a.add(&fe(0, p)), Ok(fe(x, p)));
            assert_eq!(a.mul(&fe(1, p)), Ok(fe(x, p)));
        }
    }
}

#[test]
fn power_minus_one_is_the_inverse() {
    for p in [2, 3, 13, 31] {
        for x in 1..p {
            let a = fe(x, p);
            assert_eq!(a.mul(&a.pow(&big(-1))), Ok(fe(1, p)));
        }
    }
}

#[test]
fn power_minus_one_is_the_inverse_in_a_large_field() {
    let p = large_prime();
    let x = hex("79be667ef9dcbbac55a06295ce870b07029bfcdb2dce28d959f2815b16f81798");
    let a = FieldElement::new(x, p.clone()).unwrap();
    let one = FieldElement::new(big(1), p).unwrap();
    assert_eq!(a.mul(&a.pow(&big(-1))), Ok(one));
}

#[test]
fn power_minus_one_is_no_inverse_modulo_a_composite() {
    let a = fe(2, 4);
    assert_eq!(a.pow(&big(-1)), fe(0, 4));
    assert_eq!(a.mul(&a.pow(&big(-1))), Ok(fe(0, 4)));
}

#[test]
fn division_is_multiplication_by_the_inverse() {
    for p in [2, 13, 31] {
        for x in 0..p {
            for y in 1..p {
                let a = fe(x, p);
                let b = fe(y, p);
                assert_eq!(a.div(&b), a.mul(&b.pow(&big(-1))));
            }
        }
    }
}

#[test]
fn power_of_the_order_is_one() {
    for p in [2, 3, 13, 31] {
        for x in 1..p {
            assert_eq!(fe(x, p).pow(&big(p - 1)), fe(1, p));
        }
    }
    let p = large_prime();
    let a = FieldElement::new(big(5), p.clone()).unwrap();
    assert_eq!(a.pow(&(&p - 1)), FieldElement::new(big(1), p).unwrap());
}

#[test]
fn exponents_reduce_modulo_the_order() {
    let a = fe(7, 13);
    assert_eq!(a.pow(&big(0)), fe(1, 13));
    assert_eq!(a.pow(&big(1)), fe(7, 13));
    assert_eq!(a.pow(&big(2)), fe(10, 13));
    assert_eq!(a.pow(&big(12)), fe(1, 13));
    assert_eq!(a.pow(&big(14)), a.pow(&big(2)));
    assert_eq!(a.pow(&big(-10)), a.pow(&big(2)));
    assert_eq!(a.pow(&big(-12)), fe(1, 13));
}

#[test]
fn powers_of_zero() {
    assert_eq!(fe(0, 13).pow(&big(5)), fe(0, 13));
    assert_eq!(fe(0, 13).pow(&big(-1)), fe(0, 13));
    assert_eq!(fe(0, 13).pow(&big(0)), fe(1, 13));
    assert_eq!(fe(0, 13).pow(&big(12)), fe(1, 13));
    assert_eq!(fe(0, 2).pow(&big(-1)), fe(1, 2));
}

#[test]
fn powers_in_the_field_of_one_element() {
    assert_eq!(fe(0, 1).pow(&big(0)), fe(0, 1));
    assert_eq!(fe(0, 1).pow(&big(5)), fe(0, 1));
    assert_eq!(fe(0, 1).pow(&big(-1)), fe(0, 1));
}

#[test]
fn operands_are_left_unchanged() {
    let a = fe(7, 13);
    let b = fe(12, 13);
    let _ = a.add(&b);
    let _ = a.sub(&b);
    let _ = a.mul(&b);
    let _ = a.div(&b);
    let _ = a.pow(&big(-3));
    assert_eq!(a, fe(7, 13));
    assert_eq!(b, fe(12, 13));
}

#[test]
fn text_is_a_bracketed_pair() {
    assert_eq!(fe(7, 13).to_string(), "[7, 13]");
    assert_eq!(fe(0, 1).to_string(), "[0, 1]");
    let p = BigInt::from(10).pow(30) + 57;
    let a = FieldElement::new(BigInt::from(10).pow(29), p).unwrap();
    assert_eq!(
        a.to_string(),
        "[100000000000000000000000000000, 1000000000000000000000000000057]"
    );
}

#[test]
fn bracket_joins_two_texts() {
    assert_eq!(bracket("7", "13"), "[7, 13]");
    assert_eq!(bracket("", ""), "[, ]");
    assert_eq!(bracket("a b", "c"), "[a b, c]");
}

#[test]
fn powers_multiply_by_adding_exponents() {
    for p in [2, 3, 13] {
        for x in 1..p {
            let a = fe(x, p);
            for i in -15..15 {
                for j in -15..15 {
                    let left = a.pow(&big(i)).mul(&a.pow(&big(j)));
                    assert_eq!(left, Ok(a.pow(&big(i + j))));
                }
            }
        }
    }
}

#[test]
fn power_is_the_remainder_of_the_plain_power() {
    for p in [2i64, 3, 13] {
        for x in 1..p {
            for e in 0..15u32 {
                let plain = x.pow(e) % p;
                assert_eq!(fe(x, p).pow(&big(e as i64)), fe(plain, p));
            }
        }
    }
}

#[test]
fn power_minus_one_is_power_prime_minus_two() {
    for p in [2, 3, 4, 13, 31] {
        for x in 0..p {
            assert_eq!(fe(x, p).pow(&big(-1)), fe(x, p).pow(&big(p - 2)));
        }
    }
}
