use cow_solver::amount::Amount;
use cow_solver::wide::{checked_div, checked_mul, isqrt_wide, mul_wide, Wide};

#[test]
fn amount_add_and_sub_roundtrip() {
    let a = Amount::from_u128(123_456_789);
    let b = Amount::from_u128(987_654_321);
    let s = a.checked_add(&b).unwrap();
    let back = s.checked_sub(&b).unwrap();
    assert_eq!(back, a);
}

#[test]
fn amount_add_carries_across_limbs() {
    let a = Amount { lo: u128::MAX, hi: 0 };
    let one = Amount::from_u128(1);
    let s = a.checked_add(&one).unwrap();
    assert_eq!(s, Amount { lo: 0, hi: 1 });
    assert_eq!(s.checked_sub(&one).unwrap(), a);
}

#[test]
fn amount_ordering() {
    let a = Amount { lo: 5, hi: 1 };
    let b = Amount { lo: u128::MAX, hi: 0 };
    assert!(b.lt(&a));
    assert!(b.le(&a));
    assert!(!a.lt(&b));
}

#[test]
fn amount_mul_div_roundtrip() {
    let a = Amount::from_u128(1_000_000_007);
    let b = Amount::from_u128(998_244_353);
    let p = checked_mul(&a, &b).unwrap();
    let q = checked_div(&p, &b).unwrap();
    assert_eq!(q, a);
}

#[test]
fn wide_product_overflows_into_high_limbs() {
    let big = Amount { lo: 0, hi: 1 }; // 2^128
    assert!(checked_mul(&big, &big).is_none()); // 2^256 does not fit
    let w = mul_wide(&big, &big);
    assert_eq!(w.lo, Amount::zero());
    assert_eq!(w.hi, Amount::from_u128(1)); // the product is exactly 2^256
}

#[test]
fn integer_square_root() {
    let n = Wide::from_amount(&Amount::from_u128(1_000_000));
    assert_eq!(isqrt_wide(&n), Amount::from_u128(1000));
    let m = Wide::from_amount(&Amount::from_u128(999_999));
    assert_eq!(isqrt_wide(&m), Amount::from_u128(999));
    assert_eq!(isqrt_wide(&Wide::zero()), Amount::zero());
}
