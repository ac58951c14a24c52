use cow_solver::address::Address;
use cow_solver::amount::Amount;
use cow_solver::routing::{LiquidityPool, PoolType, RoutingEngine};

fn create_test_pool(
    token_a: Address,
    token_b: Address,
    reserve_a: u128,
    reserve_b: u128,
) -> LiquidityPool {
    LiquidityPool {
        address: Address::zero(),
        pool_type: PoolType::UniswapV2,
        token_a,
        token_b,
        reserve_a: Amount::from_u128(reserve_a),
        reserve_b: Amount::from_u128(reserve_b),
        fee_bps: 30, // 0.3%
        gas_cost: 100000,
    }
}

#[test]
fn test_constant_product_calculation() {
    let engine = RoutingEngine::default();

    let amount_in = Amount::from_u128(1000);
    let reserve_in = Amount::from_u128(100000);
    let reserve_out = Amount::from_u128(200000);
    let fee_bps = 30;

    let output =
        engine.calculate_constant_product_output(&amount_in, &reserve_in, &reserve_out, fee_bps);

    assert!(Amount::zero().lt(&output));
    assert!(output.lt(&Amount::from_u128(2000))); // less than twice the input
}

#[test]
fn test_direct_route() {
    let mut engine = RoutingEngine::default();

    let token_a = Address::from_low_u64_be(1);
    let token_b = Address::from_low_u64_be(2);

    let pool = create_test_pool(token_a, token_b, 1000000, 2000000);
    engine.add_pool(pool);

    let route = engine.find_best_route(&token_a, &token_b, &Amount::from_u128(1000));

    assert!(route.is_some());
    let route = route.unwrap();
    assert_eq!(route.pools.len(), 1);
    assert_eq!(route.path.len(), 2);
}

#[test]
fn test_multi_hop_route() {
    let mut engine = RoutingEngine::new(3, 100_000);

    let token_a = Address::from_low_u64_be(1);
    let token_b = Address::from_low_u64_be(2);
    let token_c = Address::from_low_u64_be(3);

    // a path a -> b -> c
    engine.add_pool(create_test_pool(token_a, token_b, 1000000, 2000000));
    engine.add_pool(create_test_pool(token_b, token_c, 2000000, 3000000));

    let route = engine.find_best_route(&token_a, &token_c, &Amount::from_u128(1000));

    assert!(route.is_some());
    let route = route.unwrap();
    assert_eq!(route.pools.len(), 2);
    assert_eq!(route.path.len(), 3);
}

#[test]
fn test_price_impact_calculation() {
    let engine = RoutingEngine::default();

    let token_a = Address::from_low_u64_be(1);
    let pool = create_test_pool(token_a, Address::from_low_u64_be(2), 1000000, 2000000);

    let small_impact = engine.calculate_price_impact(&pool, &token_a, &Amount::from_u128(1000));
    let large_impact = engine.calculate_price_impact(&pool, &token_a, &Amount::from_u128(100000));

    assert!(small_impact < large_impact);
    assert!(small_impact < 10_000); // below one percent for the small trade
    assert!(large_impact > 50_000); // above five percent for the large trade
}

#[test]
fn single_hop_bound_discovers_only_direct_pools() {
    // with at most one hop, a two-pool chain is out of reach
    let mut engine = RoutingEngine::new(1, 1_000_000);
    let token_a = Address::from_low_u64_be(1);
    let token_b = Address::from_low_u64_be(2);
    let token_c = Address::from_low_u64_be(3);
    engine.add_pool(create_test_pool(token_a, token_b, 1000000, 2000000));
    engine.add_pool(create_test_pool(token_b, token_c, 2000000, 3000000));

    assert!(engine.find_best_route(&token_a, &token_c, &Amount::from_u128(1000)).is_none());
    let direct = engine.find_best_route(&token_a, &token_b, &Amount::from_u128(1000)).unwrap();
    assert_eq!(direct.pools.len(), 1);
}

#[test]
fn route_respects_impact_cap() {
    // a trade consuming a tenth of the reserve exceeds a five percent cap
    let mut engine = RoutingEngine::new(3, 50_000);
    let token_a = Address::from_low_u64_be(1);
    let token_b = Address::from_low_u64_be(2);
    engine.add_pool(create_test_pool(token_a, token_b, 1000000, 1000000));
    assert!(engine.find_best_route(&token_a, &token_b, &Amount::from_u128(100000)).is_none());
}

#[test]
fn stable_swap_output_is_capped() {
    let engine = RoutingEngine::default();
    // fee-reduced input: floor(1000 * 9970 / 10000) == 997
    let out = engine.calculate_stable_swap_output(
        &Amount::from_u128(1000),
        &Amount::from_u128(100000),
        &Amount::from_u128(100000),
        30,
    );
    assert_eq!(out, Amount::from_u128(997));
    // a huge input is capped at ninety-nine hundredths of the reserve
    let capped = engine.calculate_stable_swap_output(
        &Amount::from_u128(1_000_000),
        &Amount::from_u128(100000),
        &Amount::from_u128(100000),
        30,
    );
    assert_eq!(capped, Amount::from_u128(99000));
}
