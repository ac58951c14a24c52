use cow_solver::address::Address;
use cow_solver::amount::Amount;
use cow_solver::matching::{MatchType, MatchingEngine, OrderMatch};
use cow_solver::orders::{Order, OrderId, OrderStatus, OrderType};

fn create_test_order(
    id: u8,
    sell_token: Address,
    buy_token: Address,
    sell_amount: u128,
    buy_amount: u128,
) -> Order {
    let mut order_id = [0u8; 32];
    order_id[0] = id;

    Order {
        id: OrderId(order_id),
        owner: Address::zero(),
        sell_token,
        buy_token,
        sell_amount: Amount::from_u128(sell_amount),
        buy_amount: Amount::from_u128(buy_amount),
        valid_to: u32::MAX,
        fee_amount: Amount::from_u128(1000),
        kind: OrderType::Sell,
        partially_fillable: false,
        status: OrderStatus::Open,
        source_chain: None,
        destination_chain: None,
        bridge_provider: None,
    }
}

#[test]
fn test_direct_pair_matching() {
    let engine = MatchingEngine::default();

    let token_a = Address::from_low_u64_be(1);
    let token_b = Address::from_low_u64_be(2);

    let orders = vec![
        create_test_order(1, token_a, token_b, 1000, 2000),
        create_test_order(2, token_b, token_a, 2000, 1000),
    ];

    let matches = engine.find_direct_pairs(&orders);
    assert_eq!(matches.len(), 1);
    assert_eq!(matches[0].match_type, MatchType::DirectPair);
    assert_eq!(matches[0].orders.len(), 2);
}

#[test]
fn test_no_match_different_tokens() {
    let engine = MatchingEngine::default();

    let token_a = Address::from_low_u64_be(1);
    let token_b = Address::from_low_u64_be(2);
    let token_c = Address::from_low_u64_be(3);

    let orders = vec![
        create_test_order(1, token_a, token_b, 1000, 2000),
        create_test_order(2, token_b, token_c, 2000, 3000),
    ];

    let matches = engine.find_direct_pairs(&orders);
    assert_eq!(matches.len(), 0);
}

#[test]
fn test_price_overlap_detection() {
    let engine = MatchingEngine::default();

    let token_a = Address::from_low_u64_be(1);
    let token_b = Address::from_low_u64_be(2);

    // order a: sell 1000 a for 2000 b (price 2.0)
    // order b: sell 2000 b for 1000 a (price 0.5)
    let order_a = create_test_order(1, token_a, token_b, 1000, 2000);
    let order_b = create_test_order(2, token_b, token_a, 2000, 1000);

    assert!(engine.has_price_overlap(&order_a, &order_b));
}

#[test]
fn test_quality_scoring() {
    let engine = MatchingEngine::default();

    let token_a = Address::from_low_u64_be(1);
    let token_b = Address::from_low_u64_be(2);

    let order_a = create_test_order(1, token_a, token_b, 1000000000000000000, 2000000000000000000);
    let order_b = create_test_order(2, token_b, token_a, 2000000000000000000, 1000000000000000000);

    let quality = engine.calculate_pair_quality(&order_a, &order_b);
    assert!(quality > 0);
    assert!(quality <= 1_000_000);
}

#[test]
fn test_optimal_match_selection() {
    let engine = MatchingEngine::default();

    let mut order_id_1 = [0u8; 32];
    order_id_1[0] = 1;
    let mut order_id_2 = [0u8; 32];
    order_id_2[0] = 2;
    let mut order_id_3 = [0u8; 32];
    order_id_3[0] = 3;

    let matches = vec![
        OrderMatch {
            orders: vec![OrderId(order_id_1), OrderId(order_id_2)],
            match_type: MatchType::DirectPair,
            quality_score: 800_000,
            estimated_surplus: 100_000_000_000_000_000_000,
        },
        OrderMatch {
            orders: vec![OrderId(order_id_2), OrderId(order_id_3)],
            match_type: MatchType::DirectPair,
            quality_score: 600_000,
            estimated_surplus: 80_000_000_000_000_000_000,
        },
    ];

    let selected = engine.select_optimal_matches(matches);

    // only the first match survives: they share an order id
    assert_eq!(selected.len(), 1);
    assert_eq!(selected[0].quality_score, 800_000);
}

#[test]
fn direct_match_is_symmetric() {
    let engine = MatchingEngine::default();
    let token_a = Address::from_low_u64_be(1);
    let token_b = Address::from_low_u64_be(2);
    let order_a = create_test_order(1, token_a, token_b, 1000, 2000);
    let order_b = create_test_order(2, token_b, token_a, 2000, 1000);
    assert_eq!(
        engine.is_direct_match(&order_a, &order_b),
        engine.is_direct_match(&order_b, &order_a)
    );
    // and with orders that do not overlap in price
    let order_c = create_test_order(3, token_a, token_b, 1000, 3000);
    let order_d = create_test_order(4, token_b, token_a, 2000, 1000);
    assert_eq!(
        engine.is_direct_match(&order_c, &order_d),
        engine.is_direct_match(&order_d, &order_c)
    );
}

#[test]
fn find_matches_sorts_by_quality() {
    let engine = MatchingEngine::new(4, 0);
    let token_a = Address::from_low_u64_be(1);
    let token_b = Address::from_low_u64_be(2);
    let token_c = Address::from_low_u64_be(3);
    let token_d = Address::from_low_u64_be(4);
    let wad: u128 = 1_000_000_000_000_000_000;
    let orders = vec![
        // balanced pair: higher quality
        create_test_order(1, token_a, token_b, 2 * wad, wad),
        create_test_order(2, token_b, token_a, wad, 2 * wad),
        // unbalanced pair: lower quality
        create_test_order(3, token_c, token_d, 10 * wad, wad),
        create_test_order(4, token_d, token_c, wad, 10 * wad),
    ];
    let found = engine.find_matches(&orders);
    assert_eq!(found.len(), 2);
    assert!(found[0].quality_score >= found[1].quality_score);
}

#[test]
fn validate_ring_scores_a_closed_cycle() {
    let engine = MatchingEngine::default();
    let token_a = Address::from_low_u64_be(1);
    let token_b = Address::from_low_u64_be(2);
    let token_c = Address::from_low_u64_be(3);
    let orders = vec![
        create_test_order(1, token_a, token_b, 1000, 1100),
        create_test_order(2, token_b, token_c, 1100, 1200),
        create_test_order(3, token_c, token_a, 1200, 1000),
    ];
    let cycle = vec![0usize, 1, 2];
    let ring = engine.validate_ring(&orders, &cycle).unwrap();
    assert_eq!(ring.match_type, MatchType::Ring);
    assert_eq!(ring.orders.len(), 3);
    assert!(ring.quality_score <= 1_000_000);

    // a broken cycle is rejected
    let broken = vec![0usize, 2, 1];
    assert!(engine.validate_ring(&orders, &broken).is_none());
}

#[test]
fn find_rings_discovers_a_profitable_cycle() {
    let engine = MatchingEngine::default();
    let token_a = Address::from_low_u64_be(1);
    let token_b = Address::from_low_u64_be(2);
    let token_c = Address::from_low_u64_be(3);
    let orders = vec![
        create_test_order(1, token_a, token_b, 1000, 1100),
        create_test_order(2, token_b, token_c, 1100, 1200),
        create_test_order(3, token_c, token_a, 1200, 1000),
    ];
    let rings = engine.find_rings(&orders);
    assert_eq!(rings.len(), 1);
    assert_eq!(rings[0].match_type, MatchType::Ring);
    assert_eq!(
        rings[0].orders,
        vec![orders[0].id, orders[1].id, orders[2].id]
    );
}

#[test]
fn find_rings_rejects_an_unprofitable_cycle() {
    // the price product around this cycle is below unity, so no uniform
    // clearing price satisfies all three orders
    let engine = MatchingEngine::default();
    let token_a = Address::from_low_u64_be(1);
    let token_b = Address::from_low_u64_be(2);
    let token_c = Address::from_low_u64_be(3);
    let orders = vec![
        create_test_order(1, token_a, token_b, 1000, 900),
        create_test_order(2, token_b, token_c, 900, 800),
        create_test_order(3, token_c, token_a, 800, 999),
    ];
    assert_eq!(engine.find_rings(&orders).len(), 0);
    let cycle = vec![0usize, 1, 2];
    assert!(engine.validate_ring(&orders, &cycle).is_none());
}

#[test]
fn find_matches_includes_discovered_rings() {
    let engine = MatchingEngine::new(4, 0);
    let token_a = Address::from_low_u64_be(1);
    let token_b = Address::from_low_u64_be(2);
    let token_c = Address::from_low_u64_be(3);
    let orders = vec![
        create_test_order(1, token_a, token_b, 1000, 1100),
        create_test_order(2, token_b, token_c, 1100, 1200),
        create_test_order(3, token_c, token_a, 1200, 1000),
    ];
    let found = engine.find_matches(&orders);
    assert_eq!(found.len(), 1);
    assert_eq!(found[0].match_type, MatchType::Ring);
}
