use cow_solver::address::Address;
use cow_solver::amount::Amount;
use cow_solver::orders::{Order, OrderId, OrderStatus, OrderType};
use cow_solver::pricing::{PricingEngine, PricingStrategy};

fn create_test_order(
    sell_token: Address,
    buy_token: Address,
    sell_amount: u128,
    buy_amount: u128,
) -> Order {
    Order {
        id: OrderId([0u8; 32]),
        owner: Address::zero(),
        sell_token,
        buy_token,
        sell_amount: Amount::from_u128(sell_amount),
        buy_amount: Amount::from_u128(buy_amount),
        valid_to: u32::MAX,
        fee_amount: Amount::from_u128(1000),
        kind: OrderType::Sell,
        partially_fillable: false,
        status: OrderStatus::Open,
        source_chain: None,
        destination_chain: None,
        bridge_provider: None,
    }
}

#[test]
fn test_midpoint_pricing() {
    let engine = PricingEngine::default();

    let token_a = Address::from_low_u64_be(1);
    let token_b = Address::from_low_u64_be(2);

    let orders = vec![
        create_test_order(token_a, token_b, 1000, 2000),
        create_test_order(token_b, token_a, 2000, 1000),
    ];

    let prices = engine.calculate_clearing_prices(&orders);

    let cp = prices.get(&token_a).expect("sell token priced");
    assert!(cp.confidence > 0);
}

#[test]
fn test_volume_weighted_pricing() {
    let engine = PricingEngine::new(PricingStrategy::VolumeWeighted, 500_000);

    let token_a = Address::from_low_u64_be(1);
    let token_b = Address::from_low_u64_be(2);

    let orders = vec![
        create_test_order(token_a, token_b, 1000, 2000),
        create_test_order(token_a, token_b, 2000, 4000),
    ];

    let prices = engine.calculate_clearing_prices(&orders);

    assert!(prices.get(&token_a).is_some());
    // both orders quote 2.0, so the weighted average is exactly 2.0
    let cp = prices.get(&token_a).unwrap();
    assert_eq!(cp.price, Amount::from_u128(2_000_000_000_000_000_000));
    assert_eq!(cp.confidence, 850_000);
}

#[test]
fn test_market_pricing_with_oracle() {
    let mut engine = PricingEngine::new(PricingStrategy::MarketPrice, 500_000);

    let token_a = Address::from_low_u64_be(1);
    let token_b = Address::from_low_u64_be(2);

    engine.set_external_price(token_a, Amount::from_u128(2_000_000_000_000_000_000)); // 2.0
    engine.set_external_price(token_b, Amount::from_u128(1_000_000_000_000_000_000)); // 1.0

    let orders = vec![create_test_order(token_a, token_b, 1000, 2000)];

    let prices = engine.calculate_clearing_prices(&orders);

    assert_eq!(prices.get(&token_a).unwrap().confidence, 950_000);
}

#[test]
fn test_price_validation() {
    // a single order prices only its sell token under the mid-point
    // strategy, so validation reports the missing buy-token price
    let engine = PricingEngine::default();

    let token_a = Address::from_low_u64_be(1);
    let token_b = Address::from_low_u64_be(2);

    let orders = vec![
        create_test_order(token_a, token_b, 1000000000000000000, 2000000000000000000),
    ];

    let prices = engine.calculate_clearing_prices(&orders);
    let result = engine.validate_prices(&prices, &orders);

    assert!(result.is_err());
    assert!(result.err().unwrap().contains("Missing price for buy token"));
}

#[test]
fn price_validation_accepts_consistent_prices() {
    // both sides priced by a crossing pair; the limit check holds exactly
    let engine = PricingEngine::default();

    let token_a = Address::from_low_u64_be(1);
    let token_b = Address::from_low_u64_be(2);
    let wad: u128 = 1_000_000_000_000_000_000;

    let orders = vec![
        create_test_order(token_a, token_b, wad, wad / 2),
        create_test_order(token_b, token_a, wad, wad),
    ];

    let prices = engine.calculate_clearing_prices(&orders);
    assert!(prices.get(&token_a).is_some());
    assert!(prices.get(&token_b).is_some());
    let result = engine.validate_prices(&prices, &orders);
    assert!(result.is_ok());
}

#[test]
fn test_surplus_calculation() {
    let engine = PricingEngine::default();

    let token_a = Address::from_low_u64_be(1);
    let token_b = Address::from_low_u64_be(2);

    let orders = vec![
        create_test_order(token_a, token_b, 1000000000000000000, 1500000000000000000),
    ];

    let prices = engine.calculate_clearing_prices(&orders);
    let surplus = engine.calculate_total_surplus(&prices, &orders);

    let _ = surplus; // a u128 surplus is never negative
}

#[test]
fn test_fee_calculation() {
    let engine = PricingEngine::default();

    let token_a = Address::from_low_u64_be(1);
    let token_b = Address::from_low_u64_be(2);

    let order = create_test_order(token_a, token_b, 1000, 2000);
    let surplus: u128 = 100_000_000_000_000_000_000; // 100.0 in wad form
    let fee_ppm: u64 = 100_000; // 10%

    let fee = engine.calculate_fee(&order, surplus, fee_ppm);

    assert_eq!(fee, Amount::from_u128(10_000_000_000_000_000_000)); // 10.0 in wad form
}

#[test]
fn low_confidence_is_rejected() {
    // a wide spread in one pair group drives the confidence to zero
    let engine = PricingEngine::default();
    let token_a = Address::from_low_u64_be(1);
    let token_b = Address::from_low_u64_be(2);
    let orders = vec![
        create_test_order(token_a, token_b, 1000, 1),
        create_test_order(token_a, token_b, 1, 1000),
        create_test_order(token_b, token_a, 1000, 1000),
    ];
    let prices = engine.calculate_clearing_prices(&orders);
    let result = engine.validate_prices(&prices, &orders);
    assert!(result.is_err());
    assert!(result.err().unwrap().contains("Low confidence"));
}
