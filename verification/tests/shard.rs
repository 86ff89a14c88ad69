use perp_arb::config::ids::{AccountId, ClientOrderId, ConnectionId, ShardId, StrategyId};
use perp_arb::config::model::{
    Exchange, MarketKey, RuntimeCatalog, SpreadLevel, StrategyLeg, StrategyRecord,
};
use perp_arb::config::planner::build_runtime_plan;
use perp_arb::engine::book::{PriceLevel, RawDepthMessage};
use perp_arb::engine::runtime::{RuntimeManager, RuntimeStatusView};
use perp_arb::engine::shard::{ShardAction, ShardRunner};
use perp_arb::engine::telemetry::{StrategyMatchEventKind, StrategyTelemetryEvent};
use perp_arb::engine::types::{default_received_at, ShardEvent, Side, TradeCommand};
use perp_arb::error::AppError;
use perp_arb::market_rules::{MarketRule, MarketRuleStore};
use perp_arb::num::{Arith, Binary64};

fn number(value: f64) -> Binary64 {
    Binary64 { bits: value.to_bits() }
}

fn float(value: Binary64) -> f64 {
    f64::from_bits(value.bits)
}

fn compute(request: Arith) -> Binary64 {
    number(match request {
        Arith::Add(a, b) => float(a) + float(b),
        Arith::Sub(a, b) => float(a) - float(b),
        Arith::Mul(a, b) => float(a) * float(b),
        Arith::Div(a, b) => float(a) / float(b),
        Arith::Floor(a) => float(a).floor(),
        Arith::Ceil(a) => float(a).ceil(),
        Arith::PowerOfTen(power) => 10f64.powi(power),
    })
}

fn show(value: Binary64) -> String {
    float(value).to_string()
}

fn long_market() -> MarketKey {
    MarketKey::new(Exchange::BinanceUsdM, "BTCUSDT".to_owned())
}

fn short_market() -> MarketKey {
    MarketKey::new(Exchange::BybitLinear, "BTCUSDT".to_owned())
}

fn strategy(id: &str, long: MarketKey, short: MarketKey) -> StrategyRecord {
    let level = SpreadLevel { spread_pct: number(1.0), notional_usd: number(100.0) };
    StrategyRecord {
        id: StrategyId::new(id.to_owned()),
        name: format!("strategy {id}"),
        enabled: true,
        long_leg: StrategyLeg {
            exchange: long.exchange,
            symbol: long.symbol,
            account_id: AccountId::new("bn".to_owned()),
        },
        short_leg: StrategyLeg {
            exchange: short.exchange,
            symbol: short.symbol,
            account_id: AccountId::new("by".to_owned()),
        },
        open_levels: vec![level],
        close_levels: vec![level],
        max_total_notional: number(1000.0),
        max_open_orders: 4,
        stale_order_query_ms: 1000,
        created_at_ms: 1,
        updated_at_ms: 1,
    }
}

fn runner() -> ShardRunner {
    let strategies = [strategy("s", long_market(), short_market())];
    let plan = build_runtime_plan(&strategies);
    ShardRunner::from_plan(&plan.shards[0], &plan, &strategies, 42)
}

fn rule(market: MarketKey) -> MarketRule {
    MarketRule {
        market,
        min_qty: None,
        min_notional: None,
        price_tick: Some(number(1.0)),
        qty_step: Some(number(0.5)),
        price_precision: None,
        qty_precision: None,
        contract_multiplier: None,
        updated_at_ms: 1,
    }
}

fn rules(markets: Vec<MarketKey>) -> MarketRuleStore {
    let mut store = MarketRuleStore::new();
    store.watch_markets(markets.clone());
    let watched = store.watched_markets();
    store.refresh_market_rules(&watched, markets.into_iter().map(rule).collect());
    store
}

fn both_rules() -> MarketRuleStore {
    rules(vec![long_market(), short_market()])
}

fn snapshot(market: MarketKey, bid: f64, ask: f64) -> RawDepthMessage {
    let level = |price: f64| PriceLevel { price: number(price), qty: number(10.0) };
    RawDepthMessage::Snapshot {
        market,
        sequence: Some(1),
        bids: vec![level(bid)],
        asks: vec![level(ask)],
    }
}

fn event() -> ShardEvent {
    ShardEvent::market(
        ConnectionId::new("conn-001".to_owned()),
        Exchange::BinanceUsdM,
        default_received_at(),
        vec![],
    )
}

fn take(
    runner: &mut ShardRunner,
    rules: &MarketRuleStore,
    message: RawDepthMessage,
) -> Vec<ShardAction> {
    assert!(runner.can_take(&message));
    runner.handle_event(&event(), Some(message), rules.snapshot(), 5, &compute, &show)
}

#[test]
fn a_wide_spread_plans_two_orders() {
    let mut runner = runner();
    let rules = both_rules();
    assert!(take(&mut runner, &rules, snapshot(long_market(), 99.0, 100.0)).is_empty());
    let actions = take(&mut runner, &rules, snapshot(short_market(), 101.0, 102.0));
    assert_eq!(actions.len(), 3);
    match &actions[0] {
        ShardAction::Telemetry(StrategyTelemetryEvent::OrderPlanned { generation, event }) => {
            assert_eq!(*generation, 42);
            assert_eq!(event.ts_ms, 5);
            assert_eq!(event.shard_id.as_str(), "shard-001");
            assert_eq!(event.strategy_id.as_str(), "s");
            assert_eq!(event.kind, StrategyMatchEventKind::OpenPlanned);
            assert_eq!(event.open_spread_pct, Some(number(1.0)));
            // The short leg is rounded down to half a contract.
            assert_eq!(event.notional_usd, Some(number(50.5)));
            assert_eq!(event.message, "Open planned notional=50.5 long_qty=1 short_qty=0.5");
        }
        _ => panic!("not a report"),
    }
    match &actions[1] {
        ShardAction::Command(TradeCommand::PlaceOrder { side, qty, limit_price, .. }) => {
            assert_eq!(*side, Side::Buy);
            assert_eq!(*qty, number(1.0));
            assert_eq!(*limit_price, Some(number(100.0)));
        }
        _ => panic!("not an order"),
    }
    match &actions[2] {
        ShardAction::Command(TradeCommand::PlaceOrder { side, qty, client_order_id, .. }) => {
            assert_eq!(*side, Side::Sell);
            assert_eq!(*qty, number(0.5));
            assert_eq!(client_order_id.as_str(), "shard-001-s-short-2");
        }
        _ => panic!("not an order"),
    }
}

#[test]
fn metrics_are_reported_once() {
    let mut runner = runner();
    let rules = both_rules();
    assert!(runner.flush_metrics(1).is_empty());
    take(&mut runner, &rules, snapshot(long_market(), 99.0, 100.0));
    assert!(runner.flush_metrics(1).is_empty());
    take(&mut runner, &rules, snapshot(short_market(), 101.0, 102.0));
    let reports = runner.flush_metrics(9);
    assert_eq!(reports.len(), 1);
    match &reports[0] {
        StrategyTelemetryEvent::MetricsUpdated { generation, metrics, ts_ms, strategy_id, .. } => {
            assert_eq!(*generation, 42);
            assert_eq!(*ts_ms, 9);
            assert_eq!(strategy_id.as_str(), "s");
            assert_eq!(metrics.active_order_count, 2);
            assert_eq!(metrics.pending_open_notional, number(50.5));
        }
        _ => panic!("not metrics"),
    }
    assert!(runner.flush_metrics(10).is_empty());
}

#[test]
fn orders_need_rules() {
    let mut runner = runner();
    let rules = rules(vec![long_market()]);
    take(&mut runner, &rules, snapshot(long_market(), 99.0, 100.0));
    assert!(take(&mut runner, &rules, snapshot(short_market(), 101.0, 102.0)).is_empty());
    // Nothing was committed, but the spreads were seen.
    match &runner.flush_metrics(1)[0] {
        StrategyTelemetryEvent::MetricsUpdated { metrics, .. } => {
            assert_eq!(metrics.active_order_count, 0);
            assert_eq!(metrics.open_spread_pct, Some(number(1.0)));
        }
        _ => panic!("not metrics"),
    }
}

#[test]
fn orders_that_break_a_rule_are_not_placed() {
    let mut runner = runner();
    let mut store = MarketRuleStore::new();
    store.watch_markets(vec![long_market(), short_market()]);
    let mut strict = rule(short_market());
    strict.min_qty = Some(number(1.0));
    let watched = store.watched_markets();
    store.refresh_market_rules(&watched, vec![rule(long_market()), strict]);
    take(&mut runner, &store, snapshot(long_market(), 99.0, 100.0));
    assert!(take(&mut runner, &store, snapshot(short_market(), 101.0, 102.0)).is_empty());
}

#[test]
fn messages_of_other_markets_and_other_events_do_nothing() {
    let mut runner = runner();
    let rules = both_rules();
    let other = MarketKey::new(Exchange::BinanceUsdM, "ETHUSDT".to_owned());
    assert!(take(&mut runner, &rules, snapshot(other, 1.0, 2.0)).is_empty());
    let none = runner.handle_event(&event(), None, rules.snapshot(), 5, &compute, &show);
    assert!(none.is_empty());
    let tick = ShardEvent::TimerTick { shard_id: ShardId::new("s".to_owned()), now_ms: 1 };
    let none = runner.handle_event(
        &tick,
        Some(snapshot(long_market(), 99.0, 100.0)),
        rules.snapshot(),
        5,
        &compute,
        &show,
    );
    assert!(none.is_empty());
    assert!(runner.flush_metrics(1).is_empty());
}

#[test]
fn a_gap_is_not_evaluated() {
    let mut runner = runner();
    let rules = both_rules();
    take(&mut runner, &rules, snapshot(long_market(), 99.0, 100.0));
    take(&mut runner, &rules, snapshot(short_market(), 99.0, 102.0));
    runner.flush_metrics(1);
    let gap = RawDepthMessage::Delta {
        market: long_market(),
        first_sequence: Some(9),
        previous_sequence: Some(8),
        sequence: Some(9),
        bids: vec![],
        asks: vec![],
    };
    assert!(take(&mut runner, &rules, gap).is_empty());
    assert!(runner.flush_metrics(1).is_empty());
    // The other side is then not enough.
    assert!(take(&mut runner, &rules, snapshot(short_market(), 101.0, 102.0)).is_empty());
    assert!(runner.flush_metrics(1).is_empty());
}

#[test]
fn what_cannot_be_taken_is_told() {
    let mut runner = runner();
    let rules = both_rules();
    let snapshot = |market: MarketKey| RawDepthMessage::Snapshot {
        market,
        sequence: Some(u64::MAX),
        bids: vec![],
        asks: vec![],
    };
    let change = |market: MarketKey, sequence: Option<u64>| RawDepthMessage::Delta {
        market,
        first_sequence: Some(1),
        previous_sequence: None,
        sequence,
        bids: vec![],
        asks: vec![],
    };
    take(&mut runner, &rules, snapshot(long_market()));
    assert!(!runner.can_take(&change(long_market(), None)));
    // A stale change and one of another book need no next number.
    assert!(runner.can_take(&change(long_market(), Some(3))));
    assert!(runner.can_take(&change(short_market(), None)));
}

#[test]
fn prices_that_are_not_numbers_are_taken() {
    let mut runner = runner();
    let rules = both_rules();
    take(&mut runner, &rules, snapshot(long_market(), 99.0, 100.0));
    take(&mut runner, &rules, snapshot(short_market(), 99.0, 102.0));
    runner.flush_metrics(1);
    let odd = PriceLevel { price: number(f64::NAN), qty: number(1.0) };
    let stale = RawDepthMessage::Delta {
        market: long_market(),
        first_sequence: Some(1),
        previous_sequence: Some(0),
        sequence: Some(1),
        bids: vec![odd],
        asks: vec![odd],
    };
    assert!(take(&mut runner, &rules, stale).is_empty());
    assert!(runner.flush_metrics(1).is_empty());
    // The number of an applied change counts, so the next one follows it.
    for sequence in [2, 3] {
        let change = RawDepthMessage::Delta {
            market: long_market(),
            first_sequence: Some(sequence),
            previous_sequence: Some(sequence - 1),
            sequence: Some(sequence),
            bids: vec![odd],
            asks: vec![],
        };
        take(&mut runner, &rules, change);
        assert_eq!(runner.flush_metrics(1).len(), 1);
    }
}

#[test]
fn the_times_of_an_event_only_measure() {
    let rules = both_rules();
    let mut results = Vec::new();
    for seconds in [0, 3600] {
        let received_at = default_received_at() + std::time::Duration::from_secs(seconds);
        let event = ShardEvent::MarketWsRaw {
            connection_id: ConnectionId::new("conn-001".to_owned()),
            exchange: Exchange::BinanceUsdM,
            received_at,
            serialized_at: received_at + std::time::Duration::from_secs(seconds),
            payload: vec![],
        };
        let mut runner = runner();
        take(&mut runner, &rules, snapshot(long_market(), 99.0, 100.0));
        let message = snapshot(short_market(), 101.0, 102.0);
        assert!(runner.can_take(&message));
        let actions =
            runner.handle_event(&event, Some(message), rules.snapshot(), 5, &compute, &show);
        assert_eq!(actions.len(), 3);
        results.push((format!("{actions:?}"), format!("{:?}", runner.flush_metrics(9))));
    }
    assert_eq!(results[0], results[1]);
}

#[test]
fn the_rule_of_an_order_is_looked_up() {
    let runner = runner();
    let rules = rules(vec![long_market()]);
    let order = |exchange: Exchange| TradeCommand::PlaceOrder {
        shard_id: ShardId::new("shard-001".to_owned()),
        strategy_id: StrategyId::new("s".to_owned()),
        account_id: AccountId::new("bn".to_owned()),
        exchange,
        symbol: "BTCUSDT".to_owned(),
        side: Side::Buy,
        qty: number(1.0),
        limit_price: None,
        client_order_id: ClientOrderId::new("o".to_owned()),
    };
    let (market, rule) =
        runner.handle_command(&order(Exchange::BinanceUsdM), rules.snapshot()).unwrap();
    assert!(market.same(&long_market()));
    assert_eq!(rule.unwrap().qty_step, Some(number(0.5)));
    let (_, rule) =
        runner.handle_command(&order(Exchange::BybitLinear), rules.snapshot()).unwrap();
    assert!(rule.is_none());
    let query = TradeCommand::QueryOrder {
        shard_id: ShardId::new("shard-001".to_owned()),
        strategy_id: StrategyId::new("s".to_owned()),
        account_id: AccountId::new("bn".to_owned()),
        exchange: Exchange::BinanceUsdM,
        symbol: "BTCUSDT".to_owned(),
        client_order_id: ClientOrderId::new("o".to_owned()),
    };
    assert!(runner.handle_command(&query, rules.snapshot()).is_none());
}

#[test]
fn strategies_that_share_a_book_are_evaluated_in_turn() {
    let far = MarketKey::new(Exchange::BybitLinear, "BTCPERP".to_owned());
    let strategies = [
        strategy("s", long_market(), short_market()),
        strategy("t", long_market(), far.clone()),
    ];
    let plan = build_runtime_plan(&strategies);
    let mut runner = ShardRunner::from_plan(&plan.shards[0], &plan, &strategies, 1);
    let rules = rules(vec![long_market(), short_market(), far.clone()]);
    take(&mut runner, &rules, snapshot(short_market(), 101.0, 102.0));
    take(&mut runner, &rules, snapshot(far, 103.0, 104.0));
    let actions = take(&mut runner, &rules, snapshot(long_market(), 99.0, 100.0));
    assert_eq!(actions.len(), 6);
    let planned: Vec<&str> = actions
        .iter()
        .filter_map(|action| match action {
            ShardAction::Telemetry(StrategyTelemetryEvent::OrderPlanned { event, .. }) => {
                Some(event.strategy_id.as_str())
            }
            _ => None,
        })
        .collect();
    assert_eq!(planned, ["s", "t"]);
}

fn catalog() -> RuntimeCatalog {
    RuntimeCatalog {
        store_revision: 12,
        enabled_strategies: vec![strategy("s", long_market(), short_market())],
        referenced_accounts: vec![],
    }
}

#[test]
fn an_empty_runtime_has_no_routes() {
    let manager = RuntimeManager::new();
    assert_eq!(manager.status().store_revision, 0);
    assert_eq!(
        RuntimeStatusView::empty().rendered_plan,
        "runtime plan: 0 enabled strategies, 0 shards, 0 connections, 0 unique markets\n  no enabled strategy loaded"
    );
    match manager.route_market_event(&event()) {
        Err(AppError::NotFound(message)) => {
            assert_eq!(message, "no shard route for connection `conn-001`")
        }
        _ => panic!("routed"),
    }
}

#[test]
fn a_reload_starts_what_is_enabled() {
    let mut manager = RuntimeManager::new();
    let reload = manager.reload(catalog());
    assert_eq!(reload.status.store_revision, 12);
    assert_eq!(reload.status.loaded_strategy_ids[0].as_str(), "s");
    assert_eq!(reload.status.shard_mailboxes.len(), 1);
    assert_eq!(reload.status.shard_mailboxes[0].event_queue_bound, 4096);
    assert_eq!(reload.status.shard_mailboxes[0].command_queue_bound, 1024);
    assert_eq!(reload.status.rendered_plan, reload.status.plan.render_text());
    assert_eq!(reload.runners.len(), 1);
    assert_eq!(reload.gateways.len(), 2);
    assert_eq!(reload.gateways[1].shard_index, 0);
    assert_eq!(reload.gateways[1].runtime.connection_id.as_str(), "conn-002");
    assert_eq!(reload.gateways[1].runtime.subscribed_symbols, ["BTCUSDT"]);
    match &reload.loaded {
        StrategyTelemetryEvent::RuntimeLoaded { generation, strategies } => {
            assert_eq!(*generation, reload.status.plan.generated_at_ms);
            assert_eq!(strategies.len(), 1);
            assert_eq!(strategies[0].name, "strategy s");
            assert_eq!(strategies[0].long_market.label(), "binance_usd_m:BTCUSDT");
        }
        _ => panic!("not loaded"),
    }
    assert_eq!(manager.status().store_revision, 12);
    assert!(manager.positions().is_empty());
    assert!(manager.balances().is_empty());
    assert!(manager.active_orders().is_empty());
}

#[test]
fn market_events_reach_their_shard() {
    let mut manager = RuntimeManager::new();
    manager.reload(catalog());
    assert!(matches!(manager.route_market_event(&event()), Ok(0)));
    let tick = ShardEvent::TimerTick { shard_id: ShardId::new("s".to_owned()), now_ms: 1 };
    match manager.route_market_event(&tick) {
        Err(AppError::Internal(message)) => {
            assert_eq!(message, "only market events can be routed")
        }
        _ => panic!("routed"),
    }
}
