use cow_solver::address::Address;
use cow_solver::amount::Amount;
use cow_solver::orders::{Order, OrderId, OrderStatus, OrderType};
use cow_solver::settlement::SettlementPlan;
use cow_solver::solver::{Solution, SolverConfig, SolverEngine};

fn create_test_order(
    sell_token: Address,
    buy_token: Address,
    sell_amount: u128,
    buy_amount: u128,
) -> Order {
    Order {
        id: OrderId([0u8; 32]),
        owner: Address::zero(),
        sell_token,
        buy_token,
        sell_amount: Amount::from_u128(sell_amount),
        buy_amount: Amount::from_u128(buy_amount),
        valid_to: u32::MAX,
        fee_amount: Amount::from_u128(1000),
        kind: OrderType::Sell,
        partially_fillable: false,
        status: OrderStatus::Open,
        source_chain: None,
        destination_chain: None,
        bridge_provider: None,
    }
}

fn order_with_id(id: u8, o: Order) -> Order {
    let mut order_id = [0u8; 32];
    order_id[0] = id;
    Order { id: OrderId(order_id), ..o }
}

#[test]
fn test_default_config() {
    let config = SolverConfig::default();
    assert_eq!(config.max_gas_price, 100);
    assert!(config.enable_cow_matching);
}

#[test]
fn test_solution_scoring() {
    let mut solution = Solution {
        orders: vec![],
        settlement: SettlementPlan::default(),
        gas_cost: 100_000,
        surplus: 500_000_000_000_000_000, // 0.5 in wad form
        score: 0,
    };

    solution.calculate_score();
    assert!(solution.score > 0);
    assert!(solution.is_profitable(0));
}

#[test]
fn test_solver_engine_creation() {
    let config = SolverConfig::default();
    let engine = SolverEngine::new(config);
    assert_eq!(engine.name(), "CoWSolverEngine");
}

#[test]
fn test_validate_orders() {
    let config = SolverConfig::default();
    let engine = SolverEngine::new(config);

    let token_a = Address::from_low_u64_be(1);
    let token_b = Address::from_low_u64_be(2);

    let orders = vec![
        create_test_order(token_a, token_b, 1000, 2000),
        create_test_order(token_a, token_b, 0, 2000), // invalid: zero sell amount
    ];

    let valid = engine.validate_orders(orders, 1_000_000);
    assert_eq!(valid.len(), 1);
}

#[test]
fn test_cow_matching() {
    let config = SolverConfig::default();
    let engine = SolverEngine::new(config);

    let token_a = Address::from_low_u64_be(1);
    let token_b = Address::from_low_u64_be(2);

    let orders = vec![
        create_test_order(token_a, token_b, 1000, 2000),
        create_test_order(token_b, token_a, 2000, 1000),
    ];

    let matches = engine.find_cow_matches(&orders);
    assert_eq!(matches.len(), 1);
    assert_eq!(matches[0], (0, 1));
}

#[test]
fn test_solve_with_matches() {
    let config = SolverConfig::default();
    let engine = SolverEngine::new(config);

    let token_a = Address::from_low_u64_be(1);
    let token_b = Address::from_low_u64_be(2);

    let orders = vec![
        order_with_id(1, create_test_order(token_a, token_b, 1000000000000000000, 2000000000000000000)),
        order_with_id(2, create_test_order(token_b, token_a, 2000000000000000000, 1000000000000000000)),
    ];

    let solution = engine.solve(orders, 1_000_000).unwrap();
    assert!(solution.is_some());

    let solution = solution.unwrap();
    assert_eq!(solution.orders.len(), 2);
    assert!(solution.score >= 0);
}

#[test]
fn test_solve_no_matches() {
    let config = SolverConfig::default();
    let engine = SolverEngine::new(config);

    let token_a = Address::from_low_u64_be(1);
    let token_b = Address::from_low_u64_be(2);
    let token_c = Address::from_low_u64_be(3);

    let orders = vec![
        order_with_id(1, create_test_order(token_a, token_b, 1000, 2000)),
        order_with_id(2, create_test_order(token_a, token_c, 1000, 3000)),
    ];

    let solution = engine.solve(orders, 1_000_000).unwrap();
    assert!(solution.is_none());
}

#[test]
fn solve_prices_both_tokens_at_the_geometric_mean() {
    let engine = SolverEngine::new(SolverConfig::default());
    let token_a = Address::from_low_u64_be(1);
    let token_b = Address::from_low_u64_be(2);
    let wad: u128 = 1_000_000_000_000_000_000;

    let orders = vec![
        order_with_id(1, create_test_order(token_a, token_b, wad, 2 * wad)),
        order_with_id(2, create_test_order(token_b, token_a, 2 * wad, wad)),
    ];

    let solution = engine.solve(orders, 0).unwrap().unwrap();
    // both limit prices are 2.0, so the geometric mean is exactly 2.0
    let expected = Amount::from_u128(2 * wad);
    assert_eq!(solution.settlement.clearing_prices.get(&token_a), Some(expected));
    assert_eq!(solution.settlement.clearing_prices.get(&token_b), Some(expected));
    assert_eq!(solution.settlement.trades.len(), 2);
    // surplus: the second order receives 2.0 per unit over a 0.5 limit
    assert_eq!(solution.surplus, 2 * wad);
}

#[test]
fn greedy_selection_keeps_disjoint_pairs() {
    let engine = SolverEngine::new(SolverConfig::default());
    let pairs = vec![(0usize, 1usize), (1, 2), (2, 3)];
    let selected = engine.select_disjoint_pairs(&pairs);
    assert_eq!(selected, vec![(0, 1), (2, 3)]);
}

#[test]
fn error_kinds_carry_their_detail() {
    let e = cow_solver::Error::SettlementFailed("no trades".to_string());
    assert_eq!(e.kind_name(), "Settlement failed");
    assert_eq!(e.detail(), "no trades");
    let c = cow_solver::Error::ConfigError("bad slippage".to_string());
    assert_eq!(c.kind_name(), "Configuration error");
}
