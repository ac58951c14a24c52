//! End-to-end auction scenarios: direct matching, filtering, routing,
//! constant-product math and the profitability gate.

use cow_solver::address::Address;
use cow_solver::amount::Amount;
use cow_solver::matching::{MatchType, MatchingEngine};
use cow_solver::math::calculate_amm_output;
use cow_solver::orders::{Order, OrderId, OrderStatus, OrderType};
use cow_solver::routing::{LiquidityPool, PoolType, RoutingEngine};
use cow_solver::settlement::SettlementPlan;
use cow_solver::solver::{Solution, SolverConfig, SolverEngine};

const WAD: u128 = 1_000_000_000_000_000_000;

fn order(id: u8, sell_token: Address, buy_token: Address, sell: u128, buy: u128) -> Order {
    let mut order_id = [0u8; 32];
    order_id[0] = id;
    Order {
        id: OrderId(order_id),
        owner: Address::zero(),
        sell_token,
        buy_token,
        sell_amount: Amount::from_u128(sell),
        buy_amount: Amount::from_u128(buy),
        valid_to: u32::MAX,
        fee_amount: Amount::zero(),
        kind: OrderType::Sell,
        partially_fillable: false,
        status: OrderStatus::Open,
        source_chain: None,
        destination_chain: None,
        bridge_provider: None,
    }
}

fn pool(a: Address, b: Address, ra: u128, rb: u128) -> LiquidityPool {
    LiquidityPool {
        address: Address::zero(),
        pool_type: PoolType::UniswapV2,
        token_a: a,
        token_b: b,
        reserve_a: Amount::from_u128(ra),
        reserve_b: Amount::from_u128(rb),
        fee_bps: 30,
        gas_cost: 100000,
    }
}

#[test]
fn direct_match_emits_a_two_trade_solution() {
    let token_a = Address::from_low_u64_be(1);
    let token_b = Address::from_low_u64_be(2);
    let o1 = order(1, token_a, token_b, WAD, 2 * WAD);
    let o2 = order(2, token_b, token_a, 2 * WAD, WAD);

    // the matching engine discovers exactly one direct pair
    let matching = MatchingEngine::default();
    let found = matching.find_matches(&vec![o1.clone(), o2.clone()]);
    assert_eq!(found.len(), 1);
    assert_eq!(found[0].match_type, MatchType::DirectPair);
    assert_eq!(found[0].orders.len(), 2);
    assert_eq!(found[0].orders[0], o1.id);
    assert_eq!(found[0].orders[1], o2.id);
    assert!(found[0].quality_score > 0);

    // and the solver emits a solution with both trades
    let engine = SolverEngine::new(SolverConfig::default());
    let solution = engine.solve(vec![o1, o2], 0).unwrap().unwrap();
    assert_eq!(solution.settlement.trades.len(), 2);
}

#[test]
fn disjoint_tokens_yield_no_solution() {
    let token_a = Address::from_low_u64_be(1);
    let token_b = Address::from_low_u64_be(2);
    let token_c = Address::from_low_u64_be(3);
    let o1 = order(1, token_a, token_b, WAD, 2 * WAD);
    let o2 = order(2, token_a, token_c, WAD, 3 * WAD);

    let matching = MatchingEngine::default();
    assert_eq!(matching.find_matches(&vec![o1.clone(), o2.clone()]).len(), 0);

    let engine = SolverEngine::new(SolverConfig::default());
    assert!(engine.solve(vec![o1, o2], 0).unwrap().is_none());
}

#[test]
fn zero_amount_orders_are_filtered() {
    let token_a = Address::from_low_u64_be(1);
    let token_b = Address::from_low_u64_be(2);
    let o1 = order(1, token_a, token_b, WAD, 2 * WAD);
    let mut o2 = order(2, token_b, token_a, 2 * WAD, WAD);
    o2.sell_amount = Amount::zero();

    let engine = SolverEngine::new(SolverConfig::default());
    let valid = engine.validate_orders(vec![o1.clone(), o2], 0);
    assert_eq!(valid.len(), 1);
    assert_eq!(valid[0].id, o1.id);
}

#[test]
fn constant_product_small_swap() {
    // reserves (100000, 100000), 30 bps fee, 1000 in: the formula yields
    // floor(997 * 100000 / 100997) = 987, strictly below the fee-reduced
    // input of 997
    let out = calculate_amm_output(
        &Amount::from_u128(1000),
        &Amount::from_u128(100000),
        &Amount::from_u128(100000),
        30,
    )
    .unwrap();
    assert_eq!(out, Amount::from_u128(987));
    assert!(Amount::zero().lt(&out));
    assert!(out.lt(&Amount::from_u128(997)));
}

#[test]
fn routing_two_hops() {
    let token_a = Address::from_low_u64_be(1);
    let token_b = Address::from_low_u64_be(2);
    let token_c = Address::from_low_u64_be(3);

    let mut engine = RoutingEngine::default();
    engine.add_pool(pool(token_a, token_b, 1_000_000, 1_000_000));
    engine.add_pool(pool(token_b, token_c, 1_000_000, 1_000_000));

    let route = engine.find_best_route(&token_a, &token_c, &Amount::from_u128(1000)).unwrap();
    assert_eq!(route.pools.len(), 2);
    assert_eq!(route.path.len(), 3);
    assert_eq!(route.path[0], token_a);
    assert_eq!(route.path[2], token_c);
}

#[test]
fn profitability_gate_admits_and_rejects() {
    // surplus 0.5, gas 100000 gwei: score is 0.5 - 1e-4 in wad form
    let mut solution = Solution {
        orders: vec![],
        settlement: SettlementPlan::default(),
        gas_cost: 100_000,
        surplus: WAD / 2,
        score: 0,
    };
    solution.calculate_score();
    assert_eq!(solution.score, 499_900_000_000_000_000);
    assert!(solution.is_profitable(0));
    assert!(!solution.is_profitable(WAD as i128));
}
