use perp_arb::config::ids::{AccountId, StrategyId};
use perp_arb::config::model::{
    millis_or_zero, now_ms, DepthMode, Exchange, MarketKey, SpreadLevel, StrategyLeg, StrategyRecord,
};
use perp_arb::config::planner::{build_runtime_plan, RuntimePlan};
use perp_arb::num::Binary64;

fn number(value: f64) -> Binary64 {
    Binary64 { bits: value.to_bits() }
}

fn leg(exchange: Exchange, symbol: &str) -> StrategyLeg {
    StrategyLeg {
        exchange,
        symbol: symbol.to_owned(),
        account_id: AccountId::new("account".to_owned()),
    }
}

fn strategy(id: &str, long: &str, short: &str) -> StrategyRecord {
    let level = SpreadLevel { spread_pct: number(1.0), notional_usd: number(100.0) };
    StrategyRecord {
        id: StrategyId::new(id.to_owned()),
        name: id.to_owned(),
        enabled: true,
        long_leg: leg(Exchange::BinanceUsdM, long),
        short_leg: leg(Exchange::BybitLinear, short),
        open_levels: vec![level],
        close_levels: vec![level],
        max_total_notional: number(1000.0),
        max_open_orders: 4,
        stale_order_query_ms: 1000,
        created_at_ms: 1,
        updated_at_ms: 2,
    }
}

fn names(ids: &[StrategyId]) -> Vec<String> {
    ids.iter().map(|id| id.as_str().to_owned()).collect()
}

#[test]
fn nothing_is_planned_for_no_strategies() {
    let plan = build_runtime_plan(&[]);
    assert_eq!(plan.total_enabled_strategies, 0);
    assert_eq!(plan.total_unique_markets, 0);
    assert!(plan.shards.is_empty());
    assert!(plan.connections.is_empty());
    assert!(plan.strategy_placements.is_empty());
    assert_eq!(
        plan.render_text(),
        "runtime plan: 0 enabled strategies, 0 shards, 0 connections, 0 unique markets\n  no enabled strategy loaded"
    );
    assert_eq!(RuntimePlan::empty().render_text(), plan.render_text());
}

#[test]
fn one_strategy_gets_a_shard_and_two_connections() {
    let plan = build_runtime_plan(&[strategy("s1", "BTCUSDT", "BTCUSDT")]);
    assert_eq!(plan.total_enabled_strategies, 1);
    assert_eq!(plan.total_unique_markets, 2);
    assert_eq!(plan.shards.len(), 1);
    assert_eq!(plan.shards[0].shard_id.as_str(), "shard-001");
    assert_eq!(plan.shards[0].component_count, 1);
    assert_eq!(plan.connections.len(), 2);
    assert_eq!(plan.connections[0].exchange, Exchange::BinanceUsdM);
    assert_eq!(plan.connections[1].exchange, Exchange::BybitLinear);
    assert_eq!(plan.connections[0].depth_mode, DepthMode::SnapshotThenIncremental);
    assert_eq!(
        plan.render_text(),
        "runtime plan: 1 enabled strategies, 1 shards, 2 connections, 2 unique markets\n  shard-001 strategies=[s1] connections=[conn-001, conn-002] markets=[binance_usd_m:BTCUSDT, bybit_linear:BTCUSDT]\n    conn-001 -> shard-001 exchange=binance_usd_m depth_mode=snapshot_then_incremental symbols=[BTCUSDT]\n    conn-002 -> shard-001 exchange=bybit_linear depth_mode=snapshot_then_incremental symbols=[BTCUSDT]"
    );
}

#[test]
fn strategies_that_share_a_market_share_a_shard() {
    let mut strategies: Vec<StrategyRecord> = Vec::new();
    // Seven pairs of markets of their own, of which twelve fit in a shard.
    for i in 0..7 {
        strategies.push(strategy(&format!("s{i}"), &format!("A{i}"), &format!("B{i}")));
    }
    // This one ties the first to the last.
    strategies.push(strategy("t", "A0", "B6"));
    let plan = build_runtime_plan(&strategies);
    assert_eq!(plan.shards.len(), 2);
    assert_eq!(names(&plan.shards[0].strategy_ids), ["s0", "s1", "s2", "s3", "s4", "s6", "t"]);
    assert_eq!(plan.shards[0].component_count, 5);
    assert_eq!(plan.shards[0].subscribed_markets.len(), 12);
    assert_eq!(names(&plan.shards[1].strategy_ids), ["s5"]);
    assert_eq!(plan.shards[1].shard_id.as_str(), "shard-002");
    assert_eq!(plan.total_unique_markets, 14);
}

#[test]
fn a_component_that_is_too_large_has_a_shard_of_its_own() {
    let mut strategies: Vec<StrategyRecord> = Vec::new();
    for i in 0..20 {
        strategies.push(strategy(&format!("s{i:02}"), "HUB", &format!("B{i:02}")));
    }
    strategies.push(strategy("zz", "X", "Y"));
    let plan = build_runtime_plan(&strategies);
    assert_eq!(plan.shards.len(), 2);
    assert_eq!(plan.shards[0].subscribed_markets.len(), 21);
    assert_eq!(names(&plan.shards[1].strategy_ids), ["zz"]);
}

#[test]
fn connections_carry_a_bounded_number_of_symbols() {
    let mut strategies: Vec<StrategyRecord> = Vec::new();
    for i in 0..40 {
        strategies.push(strategy(&format!("s{i:02}"), "HUB", &format!("B{i:02}")));
    }
    let plan = build_runtime_plan(&strategies);
    assert_eq!(plan.shards.len(), 1);
    assert_eq!(plan.connections.len(), 3);
    assert_eq!(plan.connections[0].symbols, ["HUB"]);
    assert_eq!(plan.connections[1].symbols.len(), 32);
    assert_eq!(plan.connections[2].symbols.len(), 8);
    assert_eq!(plan.connections[1].symbols[0], "B00");
    assert_eq!(plan.connections[2].symbols[0], "B32");
    assert_eq!(plan.connections[2].strategy_ids.len(), 8);
    assert_eq!(plan.connections[0].strategy_ids.len(), 40);
    // A strategy of the second chunk uses the first and the third connection.
    let placement = &plan.strategy_placements[35];
    assert_eq!(placement.strategy_id.as_str(), "s35");
    let used: Vec<&str> = placement.connection_ids.iter().map(|id| id.as_str()).collect();
    assert_eq!(used, ["conn-001", "conn-003"]);
}

#[test]
fn every_strategy_is_placed_once_with_its_markets() {
    let strategies =
        [strategy("b", "M1", "N1"), strategy("a", "M2", "N2"), strategy("c", "M1", "N2")];
    let plan = build_runtime_plan(&strategies);
    let placed: Vec<&str> =
        plan.strategy_placements.iter().map(|view| view.strategy_id.as_str()).collect();
    assert_eq!(placed, ["b", "a", "c"]);
    for view in &plan.strategy_placements {
        assert_eq!(view.markets.len(), 2);
        assert_eq!(view.connection_ids.len(), 2);
        assert_eq!(view.shard_id.as_str(), "shard-001");
    }
    let subscribed: Vec<String> =
        plan.shards[0].subscribed_markets.iter().map(|market| market.label()).collect();
    assert_eq!(
        subscribed,
        ["binance_usd_m:M1", "binance_usd_m:M2", "bybit_linear:N1", "bybit_linear:N2"]
    );
    // Connections are numbered in order and belong to the shard that lists them.
    for (index, connection) in plan.connections.iter().enumerate() {
        assert_eq!(connection.connection_id.as_str(), format!("conn-{:03}", index + 1));
        assert!(plan.shards[0].connection_ids[index].same(&connection.connection_id));
    }
}

#[test]
fn exchanges_and_markets_have_labels() {
    assert_eq!(Exchange::BinanceUsdM.label(), "binance_usd_m");
    assert_eq!(Exchange::BybitLinear.label(), "bybit_linear");
    assert_eq!(DepthMode::SnapshotThenIncremental.label(), "snapshot_then_incremental");
    assert_eq!(DepthMode::FullSnapshotOnly.label(), "full_snapshot_only");
    assert_eq!(Exchange::BinanceUsdM.capabilities().max_symbols_per_connection, 64);
    assert_eq!(Exchange::BybitLinear.capabilities().max_symbols_per_connection, 32);
    let market = MarketKey::new(Exchange::BybitLinear, "ETHUSDT".to_owned());
    assert_eq!(market.label(), "bybit_linear:ETHUSDT");
    assert!(market.same(&market.clone()));
}

#[test]
fn the_clock_has_started() {
    assert!(now_ms() > 1_600_000_000_000);
}

#[test]
fn a_time_before_the_epoch_is_the_epoch() {
    assert_eq!(millis_or_zero(None), 0);
    assert_eq!(millis_or_zero(Some(0)), 0);
    assert_eq!(millis_or_zero(Some(1_700_000_000_123)), 1_700_000_000_123);
    assert_eq!(millis_or_zero(Some(u64::MAX as u128)), u64::MAX);
    assert_eq!(millis_or_zero(Some(u64::MAX as u128 + 6)), 5);
}

#[test]
fn components_are_packed_in_the_order_of_their_ids() {
    let mut strategies: Vec<StrategyRecord> = Vec::new();
    for i in 0..7 {
        strategies.push(strategy(&format!("z{}", 6 - i), &format!("A{i}"), &format!("B{i}")));
    }
    strategies.push(strategy("a", "A0", "C0"));
    let plan = build_runtime_plan(&strategies);
    // The component of `a` and `z6` comes first, `z5` last.
    assert_eq!(plan.shards.len(), 2);
    assert_eq!(names(&plan.shards[0].strategy_ids), ["z6", "z3", "z2", "z1", "z0", "a"]);
    assert_eq!(names(&plan.shards[1].strategy_ids), ["z5", "z4"]);
}

fn sorted(ids: &[StrategyId]) -> Vec<String> {
    let mut sorted = names(ids);
    sorted.sort();
    sorted
}

#[test]
fn the_order_of_strategies_does_not_matter() {
    let mut strategies: Vec<StrategyRecord> = Vec::new();
    for i in 0..9 {
        strategies.push(strategy(&format!("s{i}"), &format!("A{i}"), &format!("B{i}")));
    }
    strategies.push(strategy("a", "A8", "B3"));
    strategies.push(strategy("t", "A0", "B6"));
    let plan = build_runtime_plan(&strategies);
    assert_eq!(plan.shards.len(), 2);
    let mut turned = strategies.clone();
    turned.reverse();
    let mut swapped = strategies.clone();
    swapped.swap(0, 7);
    swapped.swap(3, 10);
    for other in [build_runtime_plan(&turned), build_runtime_plan(&swapped)] {
        assert_eq!(other.total_enabled_strategies, 11);
        assert_eq!(other.total_unique_markets, plan.total_unique_markets);
        assert_eq!(other.shards.len(), plan.shards.len());
        for (a, b) in plan.shards.iter().zip(&other.shards) {
            assert_eq!(a.shard_id.as_str(), b.shard_id.as_str());
            assert_eq!(sorted(&a.strategy_ids), sorted(&b.strategy_ids));
            assert_eq!(a.component_count, b.component_count);
            assert_eq!(a.connection_ids.len(), b.connection_ids.len());
            for (x, y) in a.connection_ids.iter().zip(&b.connection_ids) {
                assert_eq!(x.as_str(), y.as_str());
            }
            assert_eq!(a.subscribed_markets.len(), b.subscribed_markets.len());
            for (x, y) in a.subscribed_markets.iter().zip(&b.subscribed_markets) {
                assert!(x.same(y));
            }
        }
        assert_eq!(other.connections.len(), plan.connections.len());
        for (a, b) in plan.connections.iter().zip(&other.connections) {
            assert_eq!(a.connection_id.as_str(), b.connection_id.as_str());
            assert_eq!(a.shard_id.as_str(), b.shard_id.as_str());
            assert_eq!(a.exchange, b.exchange);
            assert_eq!(a.depth_mode, b.depth_mode);
            assert_eq!(a.symbols, b.symbols);
            assert_eq!(sorted(&a.strategy_ids), sorted(&b.strategy_ids));
        }
        assert_eq!(other.strategy_placements.len(), 11);
        for a in &plan.strategy_placements {
            let b = other
                .strategy_placements
                .iter()
                .find(|b| b.strategy_id.as_str() == a.strategy_id.as_str())
                .unwrap();
            assert_eq!(a.shard_id.as_str(), b.shard_id.as_str());
        }
    }
}
