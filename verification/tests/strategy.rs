use perp_arb::config::ids::{AccountId, ShardId, StrategyId};
use perp_arb::config::model::{
    DepthMode, Exchange, MarketKey, SpreadLevel, StrategyLeg, StrategyRecord,
};
use perp_arb::engine::book::{LocalBookState, PriceLevel, RawDepthMessage};
use perp_arb::engine::strategy::{
    strategy_markets, target_notional, StrategyAction, StrategyOrderPlan, StrategyRuntimeState,
};
use perp_arb::engine::types::{Side, TradeCommand};
use perp_arb::num::{Arith, Binary64};

fn number(value: f64) -> Binary64 {
    Binary64 { bits: value.to_bits() }
}

fn float(value: Binary64) -> f64 {
    f64::from_bits(value.bits)
}

fn compute(request: Arith) -> Binary64 {
    number(match request {
        Arith::Add(a, b) => float(a) + float(b),
        Arith::Sub(a, b) => float(a) - float(b),
        Arith::Mul(a, b) => float(a) * float(b),
        Arith::Div(a, b) => float(a) / float(b),
        Arith::Floor(a) => float(a).floor(),
        Arith::Ceil(a) => float(a).ceil(),
        Arith::PowerOfTen(power) => 10f64.powi(power),
    })
}

fn spread(spread_pct: f64, notional_usd: f64) -> SpreadLevel {
    SpreadLevel { spread_pct: number(spread_pct), notional_usd: number(notional_usd) }
}

fn strategy() -> StrategyRecord {
    StrategyRecord {
        id: StrategyId::new("s".to_owned()),
        name: "s".to_owned(),
        enabled: true,
        long_leg: StrategyLeg {
            exchange: Exchange::BinanceUsdM,
            symbol: "BTCUSDT".to_owned(),
            account_id: AccountId::new("bn".to_owned()),
        },
        short_leg: StrategyLeg {
            exchange: Exchange::BybitLinear,
            symbol: "BTCPERP".to_owned(),
            account_id: AccountId::new("by".to_owned()),
        },
        open_levels: vec![spread(1.0, 100.0), spread(2.0, 200.0)],
        close_levels: vec![spread(1.0, 50.0)],
        max_total_notional: number(250.0),
        max_open_orders: 4,
        stale_order_query_ms: 1000,
        created_at_ms: 1,
        updated_at_ms: 1,
    }
}

fn book(bids: &[(f64, f64)], asks: &[(f64, f64)]) -> LocalBookState {
    let side = |levels: &[(f64, f64)]| {
        levels
            .iter()
            .map(|(price, qty)| PriceLevel { price: number(*price), qty: number(*qty) })
            .collect::<Vec<_>>()
    };
    let market = MarketKey::new(Exchange::BinanceUsdM, "BTCUSDT".to_owned());
    let mut book = LocalBookState::new(market.clone(), DepthMode::SnapshotThenIncremental);
    book.apply(RawDepthMessage::Snapshot {
        market,
        sequence: None,
        bids: side(bids),
        asks: side(asks),
    });
    book
}

fn state() -> StrategyRuntimeState {
    StrategyRuntimeState::new(StrategyId::new("s".to_owned()))
}

#[test]
fn notional_adds_up_over_the_levels_that_are_reached() {
    let levels = [spread(1.0, 100.0), spread(2.0, 200.0), spread(3.0, 50.0)];
    assert_eq!(float(target_notional(&levels, number(0.5), &compute)), 0.0);
    assert_eq!(float(target_notional(&levels, number(1.0), &compute)), 100.0);
    assert_eq!(float(target_notional(&levels, number(2.9), &compute)), 300.0);
    assert_eq!(float(target_notional(&levels, number(9.0), &compute)), 350.0);
    assert_eq!(float(target_notional(&levels, number(f64::NAN), &compute)), 0.0);
    // A level beyond one that is not reached does not count.
    let odd = [spread(3.0, 1.0), spread(1.0, 10.0)];
    assert_eq!(float(target_notional(&odd, number(2.0), &compute)), 0.0);
}

#[test]
fn a_wide_spread_opens() {
    let mut state = state();
    let long = book(&[(99.0, 9.0)], &[(100.0, 1.0)]);
    let short = book(&[(101.0, 9.0)], &[(102.0, 1.0)]);
    let evaluation = state.evaluate(&strategy(), &long, &short, &compute);
    let plan = evaluation.planned_order.unwrap();
    assert_eq!(plan.action, StrategyAction::Open);
    assert_eq!(float(plan.spread_pct), 1.0);
    assert_eq!(float(plan.notional_usd), 100.0);
    assert_eq!(float(plan.long_qty), 1.0);
    assert_eq!(float(plan.short_qty), 100.0 / 101.0);
    assert_eq!(float(plan.long_limit_price), 100.0);
    assert_eq!(float(plan.short_limit_price), 101.0);
    assert_eq!(evaluation.metrics.open_spread_pct, Some(number(1.0)));
    assert_eq!(float(evaluation.metrics.close_spread_pct.unwrap()), (99.0 - 102.0) / 102.0 * 100.0);
    // Evaluating commits nothing.
    assert_eq!(float(state.pending_open_notional), 0.0);
    assert_eq!(state.active_order_count, 0);
}

#[test]
fn opening_is_limited_by_the_total() {
    let mut state = state();
    let long = book(&[(1.0, 1.0)], &[(100.0, 100.0)]);
    let short = book(&[(110.0, 100.0)], &[(200.0, 1.0)]);
    let plan = state.evaluate(&strategy(), &long, &short, &compute).planned_order.unwrap();
    assert_eq!(float(plan.notional_usd), 250.0);
    state.pending_open_notional = number(200.0);
    let plan = state.evaluate(&strategy(), &long, &short, &compute).planned_order.unwrap();
    assert_eq!(float(plan.notional_usd), 50.0);
    state.current_pair_notional = number(50.0);
    assert!(state.evaluate(&strategy(), &long, &short, &compute).planned_order.is_none());
}

#[test]
fn depth_is_matched_level_by_level() {
    let mut state = state();
    let mut wide = strategy();
    wide.open_levels = vec![spread(0.5, 1000.0)];
    wide.max_total_notional = number(1000.0);
    let long = book(&[], &[(100.0, 1.0), (110.0, 0.0), (125.0, 2.0)]);
    let short = book(&[(200.0, 1.0), (160.0, 10.0)], &[]);
    let plan = state.evaluate(&wide, &long, &short, &compute).planned_order.unwrap();
    // The long side has 100 and 250 to offer, the short side 200 and 1600.
    assert_eq!(float(plan.notional_usd), 350.0);
    assert_eq!(float(plan.long_qty), 3.0);
    assert_eq!(float(plan.short_qty), 100.0 / 200.0 + 100.0 / 200.0 + 150.0 / 160.0);
    assert_eq!(float(plan.long_limit_price), 125.0);
    assert_eq!(float(plan.short_limit_price), 160.0);
}

#[test]
fn only_the_first_ten_levels_are_matched() {
    let mut state = state();
    let mut wide = strategy();
    wide.open_levels = vec![spread(0.5, 1000.0)];
    wide.max_total_notional = number(1000.0);
    let asks: Vec<(f64, f64)> = (0..12).map(|i| (100.0 + i as f64, 0.01)).collect();
    let long = book(&[], &asks);
    let short = book(&[(200.0, 100.0)], &[]);
    let plan = state.evaluate(&wide, &long, &short, &compute).planned_order.unwrap();
    assert_eq!(float(plan.long_limit_price), 109.0);
    assert!((float(plan.notional_usd) - 10.45).abs() < 1e-9);
}

#[test]
fn closing_comes_first_and_takes_no_more_than_is_open() {
    let mut state = state();
    state.current_pair_notional = number(30.0);
    let long = book(&[(103.0, 10.0)], &[(104.0, 10.0)]);
    let short = book(&[(99.0, 10.0)], &[(100.0, 10.0)]);
    let plan = state.evaluate(&strategy(), &long, &short, &compute).planned_order.unwrap();
    assert_eq!(plan.action, StrategyAction::Close);
    assert_eq!(float(plan.spread_pct), 3.0);
    assert_eq!(float(plan.notional_usd), 30.0);
    assert_eq!(float(plan.long_limit_price), 103.0);
    assert_eq!(float(plan.short_limit_price), 100.0);
    state.pending_close_notional = number(30.0);
    assert!(state.evaluate(&strategy(), &long, &short, &compute).planned_order.is_none());
}

#[test]
fn the_number_of_orders_is_limited() {
    let mut state = state();
    state.active_order_count = 3;
    let long = book(&[(99.0, 9.0)], &[(100.0, 1.0)]);
    let short = book(&[(101.0, 9.0)], &[(102.0, 1.0)]);
    let evaluation = state.evaluate(&strategy(), &long, &short, &compute);
    assert!(evaluation.planned_order.is_none());
    // Where there is no room, the spreads are not even looked at.
    assert_eq!(evaluation.metrics.open_spread_pct, None);
    assert_eq!(evaluation.metrics.active_order_count, 3);
}

#[test]
fn nothing_is_planned_without_prices() {
    let mut state = state();
    let empty = book(&[], &[]);
    let evaluation = state.evaluate(&strategy(), &empty, &empty, &compute);
    assert!(evaluation.planned_order.is_none());
    let odd = book(&[(101.0, 1.0)], &[(0.0, 1.0)]);
    let evaluation = state.evaluate(&strategy(), &odd, &odd, &compute);
    assert!(evaluation.planned_order.is_none());
    assert_eq!(evaluation.metrics.open_spread_pct, None);
}

#[test]
fn a_plan_becomes_two_opposite_orders() {
    let mut state = state();
    let shard = ShardId::new("shard-001".to_owned());
    let plan = StrategyOrderPlan {
        action: StrategyAction::Open,
        spread_pct: number(1.0),
        notional_usd: number(100.0),
        long_qty: number(1.0),
        short_qty: number(0.5),
        long_limit_price: number(100.0),
        short_limit_price: number(200.0),
    };
    let commands = state.commit_plan(&shard, &strategy(), &plan, &compute);
    assert_eq!(commands.len(), 2);
    match &commands[0] {
        TradeCommand::PlaceOrder {
            shard_id,
            strategy_id,
            account_id,
            exchange,
            symbol,
            side,
            qty,
            limit_price,
            client_order_id,
        } => {
            assert_eq!(shard_id.as_str(), "shard-001");
            assert_eq!(strategy_id.as_str(), "s");
            assert_eq!(account_id.as_str(), "bn");
            assert_eq!(*exchange, Exchange::BinanceUsdM);
            assert_eq!(symbol, "BTCUSDT");
            assert_eq!(*side, Side::Buy);
            assert_eq!(float(*qty), 1.0);
            assert_eq!(*limit_price, Some(number(100.0)));
            assert_eq!(client_order_id.as_str(), "shard-001-s-long-1");
        }
        _ => panic!("not an order"),
    }
    match &commands[1] {
        TradeCommand::PlaceOrder { side, qty, client_order_id, exchange, .. } => {
            assert_eq!(*side, Side::Sell);
            assert_eq!(float(*qty), 0.5);
            assert_eq!(*exchange, Exchange::BybitLinear);
            assert_eq!(client_order_id.as_str(), "shard-001-s-short-2");
        }
        _ => panic!("not an order"),
    }
    assert_eq!(state.active_order_count, 2);
    assert_eq!(float(state.pending_open_notional), 100.0);
    let close = StrategyOrderPlan { action: StrategyAction::Close, ..plan };
    let commands = state.commit_plan(&shard, &strategy(), &close, &compute);
    match &commands[1] {
        TradeCommand::PlaceOrder { side, client_order_id, .. } => {
            assert_eq!(*side, Side::Buy);
            assert_eq!(client_order_id.as_str(), "shard-001-s-short-4");
        }
        _ => panic!("not an order"),
    }
    let metrics = state.metrics();
    assert_eq!(metrics.active_order_count, 4);
    assert_eq!(float(metrics.pending_open_notional), 100.0);
    assert_eq!(float(metrics.pending_close_notional), 100.0);
}

#[test]
fn sides_are_opposite_and_markets_are_those_of_the_legs() {
    for action in [StrategyAction::Open, StrategyAction::Close] {
        assert_ne!(action.long_side(), action.short_side());
    }
    assert_eq!(StrategyAction::Open.long_side(), Side::Buy);
    assert_eq!(StrategyAction::Open.label(), "Open");
    let [long, short] = strategy_markets(&strategy());
    assert_eq!(long.label(), "binance_usd_m:BTCUSDT");
    assert_eq!(short.label(), "bybit_linear:BTCPERP");
}

#[test]
fn targets_grow_with_the_spread() {
    let levels = [spread(1.0, 100.0), spread(2.0, 200.0), spread(3.0, 50.0)];
    let mut last = 0.0;
    for spread_pct in [-1.0, 0.0, 1.0, 1.5, 2.0, 2.5, 3.0, 1e9] {
        let target = float(target_notional(&levels, number(spread_pct), &compute));
        let reached: f64 = levels
            .iter()
            .filter(|level| float(level.spread_pct) <= spread_pct)
            .map(|level| float(level.notional_usd))
            .sum();
        assert_eq!(target, reached);
        assert!(last <= target);
        last = target;
    }
    assert_eq!(last, 350.0);
}

#[test]
fn matches_are_as_large_as_the_smallest_of_three() {
    let mut wide = strategy();
    wide.open_levels = vec![spread(0.5, 1000.0)];
    wide.max_total_notional = number(1000.0);
    let planned = |desired: f64, longs: &[(f64, f64)], shorts: &[(f64, f64)]| {
        let mut wide = wide.clone();
        wide.open_levels = vec![spread(0.5, desired)];
        let plan = state()
            .evaluate(&wide, &book(&[], longs), &book(shorts, &[]), &compute)
            .planned_order
            .unwrap();
        float(plan.notional_usd)
    };
    let longs = [(100.0, 1.0), (125.0, 2.0)];
    let shorts = [(200.0, 1.0), (160.0, 10.0)];
    assert_eq!(planned(120.5, &longs, &shorts), 120.5);
    assert_eq!(planned(900.0, &longs, &shorts), 350.0);
    assert_eq!(planned(900.0, &longs, &shorts[..1]), 200.0);
}

#[test]
fn plans_stay_within_what_is_allowed_and_what_is_held() {
    let mut state = state();
    let long = book(&[(103.0, 10.0)], &[(100.0, 100.0)]);
    let short = book(&[(110.0, 100.0)], &[(200.0, 10.0)]);
    state.current_pair_notional = number(100.0);
    state.pending_open_notional = number(62.5);
    let plan = state.evaluate(&strategy(), &long, &short, &compute).planned_order.unwrap();
    assert_eq!(plan.action, StrategyAction::Open);
    assert_eq!(float(plan.notional_usd), 87.5);
    state.commit_plan(&ShardId::new("x".to_owned()), &strategy(), &plan, &compute);
    assert_eq!(float(state.current_pair_notional) + float(state.pending_open_notional), 250.0);
    assert!(state.evaluate(&strategy(), &long, &short, &compute).planned_order.is_none());

    let short = book(&[(99.0, 10.0)], &[(100.0, 10.0)]);
    state.pending_close_notional = number(75.0);
    let plan = state.evaluate(&strategy(), &long, &short, &compute).planned_order.unwrap();
    assert_eq!(plan.action, StrategyAction::Close);
    assert_eq!(float(plan.notional_usd), 25.0);
}
