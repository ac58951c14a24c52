use cow_solver::address::Address;
use cow_solver::amount::Amount;
use cow_solver::orders::OrderId;
use cow_solver::settlement::{Settlement, Trade};

#[test]
fn test_settlement_creation() {
    let settlement = Settlement::new();
    assert_eq!(settlement.trades.len(), 0);
    assert_eq!(settlement.interactions.len(), 0);
}

#[test]
fn test_gas_estimation() {
    let mut settlement = Settlement::new();
    let base_gas = settlement.estimate_gas();

    settlement.add_trade(Trade {
        order_id: OrderId([0u8; 32]),
        executed_sell_amount: Amount::from_u128(1000),
        executed_buy_amount: Amount::from_u128(2000),
        fee: Amount::from_u128(10),
    });

    assert!(settlement.estimate_gas() > base_gas);
}

#[test]
fn gas_estimate_exact_formula() {
    let mut settlement = Settlement::new();
    assert_eq!(settlement.estimate_gas(), 21000);
    settlement.add_trade(Trade {
        order_id: OrderId([1u8; 32]),
        executed_sell_amount: Amount::from_u128(1),
        executed_buy_amount: Amount::from_u128(1),
        fee: Amount::zero(),
    });
    settlement.add_trade(Trade {
        order_id: OrderId([2u8; 32]),
        executed_sell_amount: Amount::from_u128(1),
        executed_buy_amount: Amount::from_u128(1),
        fee: Amount::zero(),
    });
    assert_eq!(settlement.estimate_gas(), 21000 + 2 * 50000);
}

#[test]
fn settlement_validation_requires_a_trade() {
    let empty = Settlement::new();
    assert!(empty.validate().is_err());
    let mut s = Settlement::new();
    s.add_trade(Trade {
        order_id: OrderId([3u8; 32]),
        executed_sell_amount: Amount::from_u128(5),
        executed_buy_amount: Amount::from_u128(6),
        fee: Amount::zero(),
    });
    assert!(s.validate().is_ok());
}

#[test]
fn clearing_price_insert_and_replace() {
    let mut s = Settlement::new();
    let t = Address::from_low_u64_be(7);
    s.set_clearing_price(t, Amount::from_u128(100));
    s.set_clearing_price(t, Amount::from_u128(200));
    assert_eq!(s.clearing_prices.get(&t), Some(Amount::from_u128(200)));
    assert_eq!(s.clearing_prices.len(), 1);
    let u = Address::from_low_u64_be(8);
    assert_eq!(s.clearing_prices.get(&u), None);
}
