use metronome::rational::Rational;

fn r(n: i64, d: i64) -> Rational {
    Rational::new(n, d)
}

#[test]
fn new_reduces_and_moves_the_sign() {
    assert_eq!(r(6, -4), Rational { numer: -3, denom: 2 });
    assert_eq!(r(0, -7), Rational { numer: 0, denom: 1 });
    assert_eq!(r(5, 5), Rational { numer: 1, denom: 1 });
}

#[test]
fn from_integer_has_denominator_one() {
    assert_eq!(Rational::from_integer(-9), Rational { numer: -9, denom: 1 });
}

#[test]
fn sums_and_differences_are_exact() {
    assert_eq!(r(1, 6).add(&r(1, 3)), r(1, 2));
    assert_eq!(r(1, 6).sub(&r(1, 3)), r(-1, 6));
    assert_eq!(r(5, 2).add(&r(1, 2)), r(3, 1));
}

#[test]
fn products_and_quotients_are_exact() {
    assert_eq!(r(2, 3).mul(&r(9, 4)), r(3, 2));
    assert_eq!(r(2, 3).div(&r(4, 9)), r(3, 2));
    assert_eq!(r(-2, 3).div(&r(-4, 9)), r(3, 2));
}

#[test]
fn remainder_and_floor() {
    assert_eq!(r(7, 2).rem(&r(1, 1)), r(1, 2));
    assert_eq!(r(100, 1).rem(&r(7, 2)), r(2, 1));
    assert_eq!(r(7, 2).floor(), r(3, 1));
    assert_eq!(r(0, 1).floor(), r(0, 1));
}

#[test]
fn comparison_is_by_value() {
    assert!(r(1, 3).lt(&r(1, 2)));
    assert!(!r(1, 2).lt(&r(1, 3)));
    assert!(!r(2, 4).lt(&r(1, 2)));
    assert!(r(-1, 2).lt(&r(0, 1)));
}

#[test]
fn checked_operations_report_overflow() {
    let big = Rational::from_integer(i64::MAX);
    assert_eq!(big.checked_mul(&r(2, 1)), None);
    assert_eq!(big.checked_mul(&r(1, 2)), Some(r(i64::MAX, 2)));
    assert_eq!(r(1, 1).checked_div(&r(0, 1)), None);
    assert_eq!(r(1, 1).checked_div(&r(1, 3)), Some(r(3, 1)));
    assert_eq!(big.checked_add(&r(1, 1)), None);
    assert_eq!(r(1, 2).checked_add(&r(1, 2)), Some(r(1, 1)));
}

#[test]
fn lowest_terms_check() {
    assert!(r(3, 4).is_wf());
    assert!(!Rational { numer: 2, denom: 4 }.is_wf());
    assert!(!Rational { numer: 1, denom: -2 }.is_wf());
    assert!(!Rational { numer: 0, denom: 0 }.is_wf());
}
