use cow_solver::address::Address;
use cow_solver::amount::Amount;
use cow_solver::chains::ChainId;
use cow_solver::orders::{Order, OrderId, OrderStatus, OrderType};

fn create_test_order() -> Order {
    Order {
        id: OrderId([0u8; 32]),
        owner: Address::zero(),
        sell_token: Address::from_low_u64_be(1),
        buy_token: Address::from_low_u64_be(2),
        sell_amount: Amount::from_u128(1000),
        buy_amount: Amount::from_u128(2000),
        valid_to: 4_000_000_000,
        fee_amount: Amount::from_u128(10),
        kind: OrderType::Sell,
        partially_fillable: false,
        status: OrderStatus::Open,
        source_chain: None,
        destination_chain: None,
        bridge_provider: None,
    }
}

#[test]
fn test_order_validation_success() {
    let order = create_test_order();
    assert!(order.validate().is_ok());
}

#[test]
fn test_order_validation_zero_sell_amount() {
    let mut order = create_test_order();
    order.sell_amount = Amount::zero();
    assert!(order.validate().is_err());
}

#[test]
fn test_order_validation_same_tokens() {
    let mut order = create_test_order();
    order.buy_token = order.sell_token;
    assert!(order.validate().is_err());
}

#[test]
fn test_limit_price_calculation() {
    let order = create_test_order();
    // buy/sell = 2.0, in wad form
    assert_eq!(order.limit_price(), Amount::from_u128(2_000_000_000_000_000_000));
}

#[test]
fn test_is_expired() {
    let order = create_test_order();
    assert!(!order.is_expired(1000));
    assert!(order.is_expired(4_200_000_000));
}

#[test]
fn test_cross_chain_validation() {
    let mut order = create_test_order();
    order.source_chain = Some(ChainId::Ethereum);
    order.destination_chain = Some(ChainId::Arbitrum);
    assert!(order.validate().is_err()); // missing bridge provider

    order.bridge_provider = Some("Across".to_string());
    assert!(order.validate().is_ok());
}

fn base_order() -> Order {
    Order {
        id: OrderId([1u8; 32]),
        owner: Address::zero(),
        sell_token: Address::from_low_u64_be(0x1),
        buy_token: Address::from_low_u64_be(0x2),
        sell_amount: Amount::from_u128(100),
        buy_amount: Amount::from_u128(200),
        valid_to: 1_640_000_000u32,
        fee_amount: Amount::from_u128(1),
        kind: OrderType::Sell,
        partially_fillable: true,
        status: OrderStatus::Open,
        source_chain: None,
        destination_chain: None,
        bridge_provider: None,
    }
}

#[test]
fn limit_price_returns_zero_when_sell_amount_zero() {
    let mut o = base_order();
    o.sell_amount = Amount::zero();
    o.buy_amount = Amount::from_u128(1000);
    assert_eq!(o.limit_price(), Amount::zero());
}

#[test]
fn can_fill_at_price_edge_cases_buy_and_sell() {
    let wad: u128 = 1_000_000_000_000_000_000;
    let mut buy_order = base_order();
    buy_order.kind = OrderType::Buy;
    buy_order.sell_amount = Amount::from_u128(2);
    buy_order.buy_amount = Amount::from_u128(5); // limit price 2.5
    assert!(buy_order.can_fill_at_price(&Amount::from_u128(5 * wad / 2))); // equal is allowed
    assert!(buy_order.can_fill_at_price(&Amount::from_u128(2 * wad)));
    assert!(!buy_order.can_fill_at_price(&Amount::from_u128(3 * wad)));

    let mut sell_order = base_order();
    sell_order.kind = OrderType::Sell;
    sell_order.sell_amount = Amount::from_u128(4);
    sell_order.buy_amount = Amount::from_u128(10); // limit price 2.5
    assert!(sell_order.can_fill_at_price(&Amount::from_u128(5 * wad / 2))); // equal is allowed
    assert!(sell_order.can_fill_at_price(&Amount::from_u128(3 * wad)));
    assert!(!sell_order.can_fill_at_price(&Amount::from_u128(2 * wad)));
}

#[test]
fn is_cross_chain_false_when_one_chain_missing() {
    let mut o = base_order();
    o.source_chain = Some(ChainId::Ethereum);
    o.destination_chain = None;
    assert!(!o.is_cross_chain());

    o.source_chain = None;
    o.destination_chain = Some(ChainId::Arbitrum);
    assert!(!o.is_cross_chain());
}

#[test]
fn validate_rejects_valid_to_zero() {
    let mut o = base_order();
    o.valid_to = 0;
    let res = o.validate();
    assert!(res.is_err());
    let msg = res.err().unwrap();
    assert!(msg.contains("Valid_to"));
}
