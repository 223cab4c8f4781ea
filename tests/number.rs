use kody::number::{gcd, KodyNumber};
use std::cmp::Ordering;

fn n(x: i64) -> KodyNumber {
    KodyNumber::from_int(x)
}

fn parts(x: &KodyNumber) -> (u128, u128, bool) {
    (x.numerator(), x.denominator(), x.is_negative())
}

#[test]
fn addition_and_multiplication_commute() {
    let a = n(7).div(&n(3));
    let b = n(-5).div(&n(4));
    assert_eq!(parts(&a.add(&b)), parts(&b.add(&a)));
    assert_eq!(parts(&a.mul(&b)), parts(&b.mul(&a)));
    assert_eq!(parts(&a.add(&b)), (13, 12, false));
    assert_eq!(parts(&a.mul(&b)), (35, 12, true));
}

#[test]
fn subtraction_is_adding_the_negation() {
    let a = n(1).div(&n(6));
    let b = n(1).div(&n(3));
    assert_eq!(parts(&a.sub(&b)), parts(&a.add(&b.neg())));
    assert_eq!(parts(&a.sub(&b)), (1, 6, true));
}

#[test]
fn divide_then_multiply_returns() {
    let a = n(22).div(&n(7));
    let b = n(-3);
    assert!(a.div(&b).mul(&b) == a);
    assert_eq!(parts(&n(1).div(&n(3)).mul(&n(3))), (1, 1, false));
}

#[test]
fn comparison_is_a_total_order() {
    let values = [n(-3), n(-1).div(&n(2)), n(0), n(1).div(&n(3)), n(2)];
    for (i, a) in values.iter().enumerate() {
        for (j, b) in values.iter().enumerate() {
            assert_eq!(a.cmp(b), i.cmp(&j));
        }
    }
    assert_eq!(n(2).div(&n(4)).cmp(&n(1).div(&n(2))), Ordering::Equal);
}

#[test]
fn numbers_are_reduced() {
    assert_eq!(parts(&n(6).div(&n(4))), (3, 2, false));
    assert_eq!(parts(&n(3).sub(&n(3))), (0, 1, false));
    assert_eq!(parts(&n(0).neg()), (0, 1, false));
    assert_eq!(gcd(12, 18), 6);
    assert_eq!(gcd(0, 5), 5);
}

#[test]
fn large_values_are_halved_to_fit() {
    let big = n(i64::MAX).mul(&n(i64::MAX));
    assert!(big.numerator() <= u64::MAX as u128);
    assert!(big.denominator() >= 1);
    let tiny = n(1).div(&n(i64::MAX)).mul(&n(1).div(&n(i64::MAX)));
    assert!(tiny.denominator() <= u64::MAX as u128);
}

#[test]
fn literals_become_exact_fractions() {
    assert_eq!(parts(&KodyNumber::from_literal("25.3")), (253, 10, false));
    assert_eq!(parts(&KodyNumber::from_literal("0.0")), (0, 1, false));
    assert_eq!(parts(&KodyNumber::from_literal("2.50")), (5, 2, false));
    assert_eq!(parts(&KodyNumber::from_literal("120")), (120, 1, false));
}
