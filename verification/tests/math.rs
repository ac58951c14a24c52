use cow_solver::amount::Amount;
use cow_solver::math::{
    calculate_amm_input, calculate_amm_output, calculate_optimal_split, calculate_price_impact,
    log2_floor,
};

#[test]
fn test_amm_output_calculation() {
    let amount_in = Amount::from_u128(1000);
    let reserve_in = Amount::from_u128(100000);
    let reserve_out = Amount::from_u128(100000);
    let fee_bps = 30; // 0.3%

    let output = calculate_amm_output(&amount_in, &reserve_in, &reserve_out, fee_bps);
    assert!(output.is_some());
    assert!(output.unwrap().lt(&amount_in)); // less comes out, due to the fee
}

#[test]
fn test_price_impact() {
    let amount_in = Amount::from_u128(1000);
    let reserve_in = Amount::from_u128(100000);
    let reserve_out = Amount::from_u128(100000);

    let impact = calculate_price_impact(&amount_in, &reserve_in, &reserve_out);
    assert!(impact > 0);
    assert!(impact < 1_000_000);
}

#[test]
fn amm_output_exact_value() {
    // 1000 in, after the 30 bps fee: floor(997 * 100000 / 100997) == 987
    let output = calculate_amm_output(
        &Amount::from_u128(1000),
        &Amount::from_u128(100000),
        &Amount::from_u128(100000),
        30,
    );
    assert_eq!(output, Some(Amount::from_u128(987)));
}

#[test]
fn amm_output_below_spot_rate() {
    // out * R_in < in * R_out for a non-zero fee
    let out = calculate_amm_output(
        &Amount::from_u128(5000),
        &Amount::from_u128(70000),
        &Amount::from_u128(90000),
        30,
    )
    .unwrap();
    let lhs = cow_solver::wide::mul_wide(&out, &Amount::from_u128(70000));
    let rhs = cow_solver::wide::mul_wide(&Amount::from_u128(5000), &Amount::from_u128(90000));
    assert!(lhs.lt(&rhs));
}

#[test]
fn amm_output_rejects_empty_reserves() {
    let r = calculate_amm_output(
        &Amount::from_u128(1000),
        &Amount::zero(),
        &Amount::from_u128(100000),
        30,
    );
    assert!(r.is_none());
}

#[test]
fn amm_input_inverts_output_direction() {
    // asking for more than the reserve holds is refused
    let r = calculate_amm_input(
        &Amount::from_u128(100000),
        &Amount::from_u128(100000),
        &Amount::from_u128(100000),
        30,
    );
    assert!(r.is_none());
    // a small request costs a positive input
    let r2 = calculate_amm_input(
        &Amount::from_u128(100),
        &Amount::from_u128(100000),
        &Amount::from_u128(100000),
        30,
    )
    .unwrap();
    assert!(Amount::zero().lt(&r2));
}

#[test]
fn optimal_split_divides_equally() {
    let reserves = vec![
        (Amount::from_u128(10), Amount::from_u128(20)),
        (Amount::from_u128(30), Amount::from_u128(40)),
    ];
    let split = calculate_optimal_split(&Amount::from_u128(100), &reserves);
    assert_eq!(split.len(), 2);
    assert_eq!(split[0], Amount::from_u128(50));
    assert_eq!(split[1], Amount::from_u128(50));
}

#[test]
fn log2_floor_values() {
    assert_eq!(log2_floor(&Amount::from_u128(1)), 0);
    assert_eq!(log2_floor(&Amount::from_u128(2)), 1);
    assert_eq!(log2_floor(&Amount::from_u128(3)), 1);
    assert_eq!(log2_floor(&Amount::from_u128(1024)), 10);
}
