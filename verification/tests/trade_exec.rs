use perp_arb::config::ids::{AccountId, ClientOrderId, ShardId, StrategyId};
use perp_arb::config::model::{Exchange, MarketKey};
use perp_arb::engine::types::{Side, TradeCommand};
use perp_arb::gateway::trade_exec::{
    prepare_place_order, rounding_eps, PlaceOrderReject, PreparedPlaceOrder, TradeExecRuntime,
};
use perp_arb::market_rules::MarketRule;
use perp_arb::num::{Arith, Binary64};

fn number(value: f64) -> Binary64 {
    Binary64 { bits: value.to_bits() }
}

fn float(value: Binary64) -> f64 {
    f64::from_bits(value.bits)
}

fn compute(request: Arith) -> Binary64 {
    number(match request {
        Arith::Add(a, b) => float(a) + float(b),
        Arith::Sub(a, b) => float(a) - float(b),
        Arith::Mul(a, b) => float(a) * float(b),
        Arith::Div(a, b) => float(a) / float(b),
        Arith::Floor(a) => float(a).floor(),
        Arith::Ceil(a) => float(a).ceil(),
        Arith::PowerOfTen(power) => 10f64.powi(power),
    })
}

fn show(value: Binary64) -> String {
    float(value).to_string()
}

fn rule() -> MarketRule {
    MarketRule {
        market: MarketKey::new(Exchange::BinanceUsdM, "BTCUSDT".to_owned()),
        min_qty: Some(number(0.01)),
        min_notional: Some(number(5.0)),
        price_tick: Some(number(0.5)),
        qty_step: Some(number(0.01)),
        price_precision: Some(1),
        qty_precision: Some(2),
        contract_multiplier: Some(number(1.0)),
        updated_at_ms: 1,
    }
}

fn prepare(
    qty: f64,
    price: Option<f64>,
    side: Side,
    rule: &MarketRule,
) -> Result<PreparedPlaceOrder, PlaceOrderReject> {
    prepare_place_order(number(qty), price.map(number), &side, rule, &compute)
}

#[test]
fn quantities_are_rounded_down() {
    let order = prepare(1.239, Some(100.0), Side::Buy, &rule()).unwrap();
    assert_eq!(float(order.qty), 1.23);
    assert_eq!(float(order.limit_price.unwrap()), 100.0);
    assert_eq!(float(order.notional_usd.unwrap()), 123.0);
}

#[test]
fn prices_are_rounded_against_the_order() {
    let buy = prepare(1.0, Some(100.7), Side::Buy, &rule()).unwrap();
    assert_eq!(float(buy.limit_price.unwrap()), 100.5);
    let sell = prepare(1.0, Some(100.7), Side::Sell, &rule()).unwrap();
    assert_eq!(float(sell.limit_price.unwrap()), 101.0);
}

#[test]
fn an_order_without_a_price_has_no_notional() {
    let order = prepare(1.0, None, Side::Sell, &rule()).unwrap();
    assert_eq!(order.limit_price, None);
    assert_eq!(order.notional_usd, None);
}

#[test]
fn invalid_numbers_are_rejected() {
    for qty in [0.0, -1.0, f64::NAN, f64::INFINITY, 0.004] {
        assert_eq!(prepare(qty, None, Side::Buy, &rule()), Err(PlaceOrderReject::InvalidQty));
    }
    for price in [0.0, -1.0, f64::NAN, f64::INFINITY, 0.1] {
        assert_eq!(
            prepare(1.0, Some(price), Side::Buy, &rule()),
            Err(PlaceOrderReject::InvalidLimitPrice)
        );
    }
}

#[test]
fn small_orders_are_rejected() {
    let mut strict = rule();
    strict.min_qty = Some(number(2.0));
    let reject = prepare(1.0, None, Side::Buy, &strict).unwrap_err();
    assert_eq!(
        reject,
        PlaceOrderReject::BelowMinQty { qty: number(1.0), min_qty: number(2.0) }
    );
    assert_eq!(reject.describe(&show), "qty 1 below min_qty 2");
    let reject = prepare(0.04, Some(100.0), Side::Buy, &rule()).unwrap_err();
    assert_eq!(
        reject,
        PlaceOrderReject::BelowMinNotional {
            notional_usd: number(4.0),
            min_notional: number(5.0)
        }
    );
    assert_eq!(reject.describe(&show), "notional 4 below min_notional 5");
}

#[test]
fn rejections_are_described() {
    assert_eq!(PlaceOrderReject::InvalidQty.describe(&show), "invalid qty");
    assert_eq!(PlaceOrderReject::InvalidLimitPrice.describe(&show), "invalid limit price");
}

#[test]
fn a_rule_without_steps_changes_nothing() {
    let free = MarketRule {
        min_qty: None,
        min_notional: None,
        price_tick: None,
        qty_step: Some(number(0.0)),
        price_precision: None,
        qty_precision: None,
        ..rule()
    };
    let order = prepare(1.23456789, Some(0.987654321), Side::Sell, &free).unwrap();
    assert_eq!(float(order.qty), 1.23456789);
    assert_eq!(float(order.limit_price.unwrap()), 0.987654321);
}

#[test]
fn a_multiple_of_the_step_is_kept() {
    // 0.3 / 0.1 is a little less than three.
    let mut fine = rule();
    fine.qty_step = Some(number(0.1));
    fine.qty_precision = None;
    let order = prepare(0.3, None, Side::Buy, &fine).unwrap();
    assert_eq!(float(order.qty), 3.0 * 0.1);
}

#[test]
fn the_tolerance_is_a_millionth_of_a_millionth() {
    assert_eq!(rounding_eps(), number(1e-12));
}

#[test]
fn every_command_is_accepted() {
    let runtime = TradeExecRuntime::default();
    assert_eq!(runtime.command_queue_bound, 1024);
    assert!(runtime.accepts(&TradeCommand::CancelOrder {
        shard_id: ShardId::new("s".to_owned()),
        strategy_id: StrategyId::new("x".to_owned()),
        account_id: AccountId::new("a".to_owned()),
        exchange: Exchange::BybitLinear,
        symbol: "BTCUSDT".to_owned(),
        client_order_id: ClientOrderId::new("o".to_owned()),
    }));
}
