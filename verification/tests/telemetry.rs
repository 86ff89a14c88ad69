use perp_arb::config::ids::{ShardId, StrategyId};
use perp_arb::config::model::{Exchange, MarketKey};
use perp_arb::engine::telemetry::{
    StrategyMatchEvent, StrategyMatchEventKind, StrategyRuntimeDescriptor, StrategyRuntimeMetrics,
    StrategyRuntimeSnapshot, StrategyTelemetryEvent, TelemetryInput, TelemetryState, TelemetryStep,
};
use perp_arb::num::Binary64;

fn number(value: f64) -> Binary64 {
    Binary64 { bits: value.to_bits() }
}

fn id(value: &str) -> StrategyId {
    StrategyId::new(value.to_owned())
}

fn shard() -> ShardId {
    ShardId::new("shard-001".to_owned())
}

fn descriptor(strategy: &str, name: &str) -> StrategyRuntimeDescriptor {
    StrategyRuntimeDescriptor {
        strategy_id: id(strategy),
        name: name.to_owned(),
        enabled: true,
        long_market: MarketKey::new(Exchange::BinanceUsdM, "A".to_owned()),
        short_market: MarketKey::new(Exchange::BybitLinear, "B".to_owned()),
    }
}

fn loaded(generation: u64, strategies: Vec<StrategyRuntimeDescriptor>) -> TelemetryInput {
    TelemetryInput::Event(StrategyTelemetryEvent::RuntimeLoaded { generation, strategies })
}

fn metrics(generation: u64, strategy: &str, count: u32, ts_ms: u64) -> TelemetryInput {
    TelemetryInput::Event(StrategyTelemetryEvent::MetricsUpdated {
        generation,
        shard_id: shard(),
        strategy_id: id(strategy),
        metrics: StrategyRuntimeMetrics {
            open_spread_pct: Some(number(1.5)),
            close_spread_pct: None,
            current_pair_notional: number(10.0),
            pending_open_notional: number(20.0),
            pending_close_notional: number(30.0),
            active_order_count: count,
        },
        ts_ms,
    })
}

fn planned(generation: u64, ts_ms: u64) -> TelemetryInput {
    TelemetryInput::Event(StrategyTelemetryEvent::OrderPlanned {
        generation,
        event: StrategyMatchEvent {
            ts_ms,
            shard_id: shard(),
            strategy_id: id("a"),
            kind: StrategyMatchEventKind::OpenPlanned,
            open_spread_pct: None,
            close_spread_pct: None,
            notional_usd: Some(number(100.0)),
            message: "planned".to_owned(),
        },
    })
}

fn state() -> TelemetryState {
    let mut state = TelemetryState::new();
    let strategies = vec![descriptor("b", "B"), descriptor("a", "first"), descriptor("a", "last")];
    assert_eq!(state.step(loaded(7, strategies)), TelemetryStep::Publish);
    state
}

#[test]
fn nothing_is_published_before_something_is_loaded() {
    let mut state = TelemetryState::new();
    assert_eq!(state.step(TelemetryInput::Tick), TelemetryStep::Wait);
    assert!(state.snapshot().strategies.is_empty());
    assert!(StrategyRuntimeSnapshot::empty().match_events.is_empty());
}

#[test]
fn loaded_strategies_have_views_in_order() {
    let snapshot = state().snapshot();
    assert_eq!(snapshot.strategies.len(), 2);
    assert_eq!(snapshot.strategies[0].strategy_id.as_str(), "a");
    assert_eq!(snapshot.strategies[0].name, "last");
    assert_eq!(snapshot.strategies[1].strategy_id.as_str(), "b");
    assert_eq!(snapshot.strategies[0].open_spread_pct, None);
    assert_eq!(snapshot.strategies[0].current_pair_notional, number(0.0));
    assert_eq!(snapshot.strategies[0].last_updated_ms, 0);
    assert!(snapshot.match_events.is_empty());
}

#[test]
fn metrics_are_published_on_the_next_tick() {
    let mut state = state();
    assert_eq!(state.step(metrics(7, "b", 3, 99)), TelemetryStep::Wait);
    assert_eq!(state.step(TelemetryInput::Tick), TelemetryStep::Publish);
    assert_eq!(state.step(TelemetryInput::Tick), TelemetryStep::Wait);
    let view = &state.snapshot().strategies[1];
    assert_eq!(view.open_spread_pct, Some(number(1.5)));
    assert_eq!(view.current_pair_notional, number(10.0));
    assert_eq!(view.pending_open_notional, number(20.0));
    assert_eq!(view.pending_close_notional, number(30.0));
    assert_eq!(view.active_order_count, 3);
    assert_eq!(view.last_updated_ms, 99);
    assert_eq!(state.snapshot().strategies[0].active_order_count, 0);
}

#[test]
fn reports_of_other_generations_and_strategies_change_nothing() {
    let mut state = state();
    for input in [metrics(6, "b", 3, 1), metrics(7, "zz", 3, 1), planned(8, 1)] {
        assert_eq!(state.step(input), TelemetryStep::Wait);
    }
    assert_eq!(state.step(TelemetryInput::Tick), TelemetryStep::Wait);
    assert_eq!(state.snapshot().strategies[1].active_order_count, 0);
    assert!(state.snapshot().match_events.is_empty());
}

#[test]
fn only_the_latest_orders_are_kept() {
    let mut state = state();
    for ts_ms in 0..205 {
        assert_eq!(state.step(planned(7, ts_ms)), TelemetryStep::Wait);
    }
    let events = state.snapshot().match_events;
    assert_eq!(events.len(), 200);
    assert_eq!(events[0].ts_ms, 5);
    assert_eq!(events[199].ts_ms, 204);
    assert_eq!(state.step(TelemetryInput::Tick), TelemetryStep::Publish);
}

#[test]
fn loading_forgets_what_was() {
    let mut state = state();
    state.step(planned(7, 1));
    assert_eq!(state.step(loaded(8, vec![descriptor("c", "C")])), TelemetryStep::Publish);
    assert!(state.snapshot().match_events.is_empty());
    assert_eq!(state.snapshot().strategies.len(), 1);
    assert_eq!(state.step(TelemetryInput::Tick), TelemetryStep::Wait);
}

#[test]
fn stopping_publishes_what_was_not_published() {
    let mut clean = state();
    let shutdown = || TelemetryInput::Event(StrategyTelemetryEvent::Shutdown);
    assert_eq!(clean.step(shutdown()), TelemetryStep::Stop { publish: false });
    let mut marked = state();
    marked.step(planned(7, 1));
    assert_eq!(marked.step(shutdown()), TelemetryStep::Stop { publish: true });
    let mut closed = state();
    closed.step(planned(7, 1));
    assert_eq!(closed.step(TelemetryInput::Closed), TelemetryStep::Stop { publish: false });
}

#[test]
fn a_run_ends_with_the_last_reports() {
    let mut state = TelemetryState::new();
    let strategies = vec![descriptor("b", "B"), descriptor("c", "C"), descriptor("a", "A")];
    let mut published: Vec<StrategyRuntimeSnapshot> = Vec::new();
    let mut inputs = vec![loaded(7, strategies)];
    for ts_ms in 0..203 {
        inputs.push(planned(if ts_ms == 100 { 6 } else { 7 }, ts_ms));
    }
    inputs.push(metrics(7, "b", 1, 10));
    inputs.push(TelemetryInput::Tick);
    inputs.push(metrics(7, "b", 2, 11));
    inputs.push(metrics(6, "b", 3, 12));
    inputs.push(metrics(7, "zz", 4, 13));
    inputs.push(metrics(7, "c", 5, 14));
    inputs.push(TelemetryInput::Event(StrategyTelemetryEvent::Shutdown));
    for input in inputs {
        match state.step(input) {
            TelemetryStep::Wait | TelemetryStep::Stop { publish: false } => {}
            TelemetryStep::Publish | TelemetryStep::Stop { publish: true } => {
                published.push(state.snapshot());
            }
        }
    }
    assert_eq!(published.len(), 3);
    let last = published.pop().unwrap();
    let shown: Vec<(&str, u32, u64)> = last
        .strategies
        .iter()
        .map(|view| (view.strategy_id.as_str(), view.active_order_count, view.last_updated_ms))
        .collect();
    assert_eq!(shown, [("a", 0, 0), ("b", 2, 11), ("c", 5, 14)]);
    assert_eq!(last.strategies[0].open_spread_pct, None);
    assert_eq!(last.strategies[1].open_spread_pct, Some(number(1.5)));
    assert_eq!(last.match_events.len(), 200);
    assert_eq!(last.match_events[0].ts_ms, 2);
    assert_eq!(last.match_events[97].ts_ms, 99);
    assert_eq!(last.match_events[98].ts_ms, 101);
    assert_eq!(last.match_events[199].ts_ms, 202);
}
