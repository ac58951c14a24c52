use cow_solver::amount::Amount;
use cow_solver::tokens::TokenAmount;

#[test]
fn test_token_amount_addition() {
    let a = TokenAmount::new(Amount::from_u128(100), 18);
    let b = TokenAmount::new(Amount::from_u128(50), 18);
    let result = a.checked_add(&b).unwrap();
    assert_eq!(result.raw, Amount::from_u128(150));
}

#[test]
fn test_token_amount_subtraction() {
    let a = TokenAmount::new(Amount::from_u128(100), 18);
    let b = TokenAmount::new(Amount::from_u128(50), 18);
    let result = a.checked_sub(&b).unwrap();
    assert_eq!(result.raw, Amount::from_u128(50));
}

#[test]
fn test_token_amount_different_decimals() {
    let a = TokenAmount::new(Amount::from_u128(100), 18);
    let b = TokenAmount::new(Amount::from_u128(50), 6);
    assert!(a.checked_add(&b).is_none());
}

#[test]
fn test_token_amount_multiplication() {
    let amount = TokenAmount::new(Amount::from_u128(100), 18);
    let result = amount.checked_mul(2).unwrap();
    assert_eq!(result.raw, Amount::from_u128(200));
}

#[test]
fn test_token_amount_division() {
    let amount = TokenAmount::new(Amount::from_u128(100), 18);
    let result = amount.checked_div(2).unwrap();
    assert_eq!(result.raw, Amount::from_u128(50));
}

#[test]
fn test_is_zero_true_false() {
    let zero = TokenAmount::new(Amount::from_u128(0), 8);
    let non_zero = TokenAmount::new(Amount::from_u128(1), 8);
    assert!(zero.is_zero());
    assert!(!non_zero.is_zero());
}

#[test]
fn test_checked_divide_by_zero_returns_none() {
    let amount = TokenAmount::new(Amount::from_u128(10), 8);
    assert!(amount.checked_div(0).is_none());
}

#[test]
fn test_checked_sub_underflow_returns_none() {
    let small = TokenAmount::new(Amount::from_u128(5), 6);
    let big = TokenAmount::new(Amount::from_u128(10), 6);
    assert!(small.checked_sub(&big).is_none());
}

#[test]
fn test_checked_mul_overflow_returns_none() {
    // a value that overflows when multiplied by 2
    let two = Amount::from_u128(2);
    let one = Amount::from_u128(1);
    let half = cow_solver::wide::checked_div(&Amount::max_value(), &two).unwrap();
    let half_plus_one = half.checked_add(&one).unwrap();
    let amount = TokenAmount::new(half_plus_one, 18);
    assert!(amount.checked_mul(2).is_none());
}

#[test]
fn test_checked_add_overflow_returns_none() {
    let one = Amount::from_u128(1);
    let almost_max = Amount::max_value().checked_sub(&one).unwrap();
    let a = TokenAmount::new(almost_max, 12);
    let b = TokenAmount::new(Amount::from_u128(2), 12);
    assert!(a.checked_add(&b).is_none());
}

#[test]
fn test_division_floor_behavior() {
    let amount = TokenAmount::new(Amount::from_u128(3), 0);
    // 3 / 2 == floor(1.5) == 1
    let res = amount.checked_div(2).unwrap();
    assert_eq!(res.raw, Amount::from_u128(1));
}

#[test]
fn test_roundtrip_mul_div_without_overflow() {
    // for small values, (a * s) / s == a
    for raw in 0u128..200 {
        let a = TokenAmount::new(Amount::from_u128(raw), 8);
        for s in 1u128..10u128 {
            let mul = a.checked_mul(s).expect("should not overflow for these ranges");
            let div = mul.checked_div(s).expect("division by non-zero");
            assert_eq!(div.raw, a.raw, "raw:{} scalar:{}", raw, s);
            assert_eq!(div.decimals, a.decimals);
        }
    }
}

#[test]
fn test_add_sub_property_small_range() {
    // (a + b) - b == a when decimals match and no overflow occurs
    for a_raw in 0u128..500 {
        for b_raw in 0u128..500 {
            let a = TokenAmount::new(Amount::from_u128(a_raw), 9);
            let b = TokenAmount::new(Amount::from_u128(b_raw), 9);
            if let Some(sum) = a.checked_add(&b) {
                if let Some(back) = sum.checked_sub(&b) {
                    assert_eq!(back.raw, a.raw);
                    assert_eq!(back.decimals, a.decimals);
                }
            }
        }
    }
}
