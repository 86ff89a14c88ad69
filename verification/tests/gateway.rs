use perp_arb::config::ids::{ConnectionId, ShardId, StrategyId};
use perp_arb::config::model::{DepthMode, Exchange, MarketKey};
use perp_arb::config::planner::ConnectionPlan;
use perp_arb::engine::book::codec::{
    decode_raw_depth, BinanceDepthData, BinanceDepthEnvelope, BinanceDepthEvent, DepthEnvelope,
};
use perp_arb::engine::book::{BookApplyResult, LocalBookState, PriceLevel, RawDepthMessage};
use perp_arb::engine::types::default_received_at;
use perp_arb::gateway::market_ws::binance::stream_url;
use perp_arb::gateway::market_ws::binance_sync::{
    encode_depth_message, BinanceSnapshot, DepthSynchronizer, SyncStep,
};
use perp_arb::gateway::market_ws::bybit::{
    ping_message, subscription_message, BybitDepthSynchronizer, SymbolState,
};
use perp_arb::gateway::market_ws::MarketWsRuntime;
use perp_arb::num::Binary64;

fn number(value: f64) -> Binary64 {
    Binary64 { bits: value.to_bits() }
}

fn parse(text: &str) -> Option<Binary64> {
    text.parse::<f64>().ok().map(number)
}

fn show(value: Binary64) -> String {
    f64::from_bits(value.bits).to_string()
}

fn level(price: f64, qty: f64) -> PriceLevel {
    PriceLevel { price: number(price), qty: number(qty) }
}

fn runtime(exchange: Exchange, symbols: &[&str]) -> MarketWsRuntime {
    MarketWsRuntime::from_plan(&ConnectionPlan {
        connection_id: ConnectionId::new("conn-001".to_owned()),
        shard_id: ShardId::new("shard-001".to_owned()),
        exchange,
        depth_mode: DepthMode::SnapshotThenIncremental,
        symbols: symbols.iter().map(|symbol| symbol.to_string()).collect(),
        strategy_ids: vec![StrategyId::new("s".to_owned())],
    })
}

fn change(
    exchange: Exchange,
    symbol: &str,
    first: Option<u64>,
    previous: Option<u64>,
    last: Option<u64>,
) -> RawDepthMessage {
    RawDepthMessage::Delta {
        market: MarketKey::new(exchange, symbol.to_owned()),
        first_sequence: first,
        previous_sequence: previous,
        sequence: last,
        bids: vec![level(1.0, 1.0)],
        asks: vec![],
    }
}

fn binance(first: u64, previous: u64, last: u64) -> RawDepthMessage {
    change(Exchange::BinanceUsdM, "BTCUSDT", Some(first), Some(previous), Some(last))
}

fn bybit(sequence: Option<u64>) -> RawDepthMessage {
    change(Exchange::BybitLinear, "BTCUSDT", sequence, None, sequence)
}

fn bybit_snapshot(sequence: u64) -> RawDepthMessage {
    RawDepthMessage::Snapshot {
        market: MarketKey::new(Exchange::BybitLinear, "BTCUSDT".to_owned()),
        sequence: Some(sequence),
        bids: vec![],
        asks: vec![],
    }
}

fn pair(price: &str, qty: &str) -> (String, String) {
    (price.to_owned(), qty.to_owned())
}

fn snapshot(last_update_id: u64) -> BinanceSnapshot {
    BinanceSnapshot {
        last_update_id,
        bids: vec![pair("10.5", "1"), pair("x", "1"), pair("9", "y")],
        asks: vec![pair("11", "2.5")],
    }
}

fn receive(sync: &mut DepthSynchronizer, message: RawDepthMessage) -> SyncStep {
    assert!(sync.can_receive(&message));
    sync.handle_payload(message, default_received_at(), &parse)
}

fn give(sync: &mut DepthSynchronizer, snapshot: BinanceSnapshot) -> SyncStep {
    let symbol = "BTCUSDT".to_owned();
    assert!(sync.can_take_snapshot(&symbol, &snapshot));
    sync.initialize_symbol(&symbol, snapshot, &parse).unwrap()
}

fn sent(step: SyncStep) -> Vec<RawDepthMessage> {
    match step {
        SyncStep::Send { messages } => messages.into_iter().map(|kept| kept.message).collect(),
        _ => panic!("nothing is sent"),
    }
}

fn sequence_of(message: &RawDepthMessage) -> Option<u64> {
    match message {
        RawDepthMessage::Snapshot { sequence, .. } => *sequence,
        RawDepthMessage::Delta { sequence, .. } => *sequence,
    }
}

#[test]
fn a_connection_is_run_as_planned() {
    let runtime = runtime(Exchange::BinanceUsdM, &["A", "B"]);
    assert_eq!(runtime.connection_id.as_str(), "conn-001");
    assert_eq!(runtime.shard_id.as_str(), "shard-001");
    assert_eq!(runtime.subscribed_symbols, ["A", "B"]);
}

#[test]
fn streams_are_named_in_small_letters() {
    assert_eq!(
        stream_url(&vec!["BTCUSDT".to_owned(), "EthUsdt".to_owned()]).unwrap(),
        "wss://fstream.binance.com/stream?streams=btcusdt@depth@100ms/ethusdt@depth@100ms"
    );
    assert_eq!(
        stream_url(&vec!["AZ@[`{_9".to_owned()]).unwrap(),
        "wss://fstream.binance.com/stream?streams=az@[`{_9@depth@100ms"
    );
    assert_eq!(stream_url(&vec![]), Err("no subscribed symbols".to_owned()));
}

#[test]
fn bybit_is_asked_in_json() {
    let text = subscription_message(&vec!["BTCUSDT".to_owned(), "A\"B".to_owned()]).unwrap();
    let value: serde_json::Value = serde_json::from_str(&text).unwrap();
    assert_eq!(value["op"], "subscribe");
    assert_eq!(value["args"][0], "orderbook.1000.BTCUSDT");
    assert_eq!(value["args"][1], "orderbook.1000.A\"B");
    assert_eq!(value["args"].as_array().unwrap().len(), 2);
    let ping: serde_json::Value = serde_json::from_str(&ping_message()).unwrap();
    assert_eq!(ping["op"], "ping");
    assert_eq!(ping.as_object().unwrap().len(), 1);
}

#[test]
fn bybit_changes_follow_one_another() {
    let mut state = SymbolState { has_snapshot: false, last_sequence: None };
    assert_eq!(state.accept(&bybit(Some(1))), Ok(false));
    assert_eq!(state.accept(&bybit_snapshot(5)), Ok(true));
    assert_eq!(state.accept(&bybit(Some(5))), Ok(false));
    assert_eq!(state.accept(&bybit(Some(6))), Ok(true));
    assert_eq!(state.last_sequence, Some(6));
    assert_eq!(state.accept(&bybit(None)), Ok(true));
    assert_eq!(
        state.accept(&bybit(Some(8))),
        Err("symbol=BTCUSDT sequence gap detected last=6 current=8".to_owned())
    );
    assert_eq!(state.last_sequence, Some(6));
}

#[test]
fn bybit_passes_on_what_is_subscribed() {
    let mut sync = BybitDepthSynchronizer::new(&runtime(Exchange::BybitLinear, &["BTCUSDT"]));
    assert_eq!(sync.handle_payload(None), Ok(false));
    assert_eq!(sync.handle_payload(Some(&bybit(Some(1)))), Ok(false));
    assert_eq!(sync.handle_payload(Some(&bybit_snapshot(1))), Ok(true));
    assert_eq!(sync.handle_payload(Some(&bybit(Some(2)))), Ok(true));
    let other = change(Exchange::BybitLinear, "ETHUSDT", None, None, Some(9));
    assert_eq!(sync.handle_payload(Some(&other)), Ok(false));
    assert!(sync.handle_payload(Some(&bybit(Some(4)))).is_err());
}

#[test]
fn binance_is_synchronised_over_a_snapshot() {
    let mut sync = DepthSynchronizer::new(&runtime(Exchange::BinanceUsdM, &["BTCUSDT"]));
    assert_eq!(sync.runtime().connection_id.as_str(), "conn-001");
    match receive(&mut sync, binance(1, 0, 3)) {
        SyncStep::FetchSnapshot { symbol } => assert_eq!(symbol, "BTCUSDT"),
        _ => panic!("no snapshot is fetched"),
    }
    // Nothing reaches across the snapshot yet.
    assert!(matches!(give(&mut sync, snapshot(5)), SyncStep::Wait));
    let messages = sent(receive(&mut sync, binance(4, 3, 7)));
    assert_eq!(messages.len(), 2);
    match &messages[0] {
        RawDepthMessage::Snapshot { market, sequence, bids, asks } => {
            assert_eq!(market.label(), "binance_usd_m:BTCUSDT");
            assert_eq!(*sequence, Some(5));
            assert_eq!(*bids, vec![level(10.5, 1.0)]);
            assert_eq!(*asks, vec![level(11.0, 2.5)]);
        }
        _ => panic!("not a snapshot"),
    }
    assert_eq!(sequence_of(&messages[1]), Some(7));
    // From then on every change is passed on.
    let messages = sent(receive(&mut sync, binance(8, 7, 9)));
    assert_eq!(messages.len(), 1);
    assert_eq!(sequence_of(&messages[0]), Some(9));
}

#[test]
fn what_binance_passes_on_is_applied() {
    let mut sync = DepthSynchronizer::new(&runtime(Exchange::BinanceUsdM, &["BTCUSDT"]));
    let market = MarketKey::new(Exchange::BinanceUsdM, "BTCUSDT".to_owned());
    let mut book = LocalBookState::new(market, DepthMode::SnapshotThenIncremental);
    receive(&mut sync, binance(1, 0, 3));
    receive(&mut sync, binance(4, 3, 6));
    receive(&mut sync, binance(7, 6, 9));
    let mut messages = sent(give(&mut sync, snapshot(5)));
    assert_eq!(messages.len(), 3);
    messages.extend(sent(receive(&mut sync, binance(10, 9, 10))));
    for message in messages {
        assert_eq!(book.apply(message), BookApplyResult::Applied);
    }
    assert_eq!(book.last_sequence, Some(10));
}

#[test]
fn a_break_in_binance_begins_anew() {
    let mut sync = DepthSynchronizer::new(&runtime(Exchange::BinanceUsdM, &["BTCUSDT"]));
    receive(&mut sync, binance(1, 0, 6));
    assert_eq!(sent(give(&mut sync, snapshot(5))).len(), 2);
    match receive(&mut sync, binance(9, 8, 9)) {
        SyncStep::FetchSnapshot { symbol } => assert_eq!(symbol, "BTCUSDT"),
        _ => panic!("no snapshot is fetched"),
    }
    // The change that broke off was forgotten.
    assert!(matches!(give(&mut sync, snapshot(8)), SyncStep::Wait));
    assert_eq!(sent(receive(&mut sync, binance(9, 8, 10))).len(), 2);
}

#[test]
fn other_symbols_are_not_synchronised() {
    let mut sync = DepthSynchronizer::new(&runtime(Exchange::BinanceUsdM, &["BTCUSDT"]));
    let other = change(Exchange::BinanceUsdM, "ETHUSDT", Some(1), None, Some(2));
    assert!(matches!(receive(&mut sync, other), SyncStep::Wait));
    match sync.initialize_symbol(&"ETHUSDT".to_owned(), snapshot(1), &parse) {
        Err(why) => assert_eq!(why, "missing sync state for ETHUSDT"),
        Ok(_) => panic!("synchronised"),
    }
}

#[test]
fn numbers_that_cannot_be_counted_on_are_told() {
    let mut sync = DepthSynchronizer::new(&runtime(Exchange::BinanceUsdM, &["BTCUSDT"]));
    receive(&mut sync, binance(1, 0, 3));
    assert!(sync.can_take_snapshot(&"BTCUSDT".to_owned(), &snapshot(5)));
    receive(&mut sync, change(Exchange::BinanceUsdM, "BTCUSDT", Some(1), None, None));
    assert!(!sync.can_take_snapshot(&"BTCUSDT".to_owned(), &snapshot(u64::MAX)));
}

fn pairs_of(value: &serde_json::Value) -> Option<Vec<[Binary64; 2]>> {
    let list = value.as_array()?;
    Some(
        list.iter()
            .map(|pair| {
                [
                    parse(pair[0].as_str().unwrap()).unwrap(),
                    parse(pair[1].as_str().unwrap()).unwrap(),
                ]
            })
            .collect(),
    )
}

fn read_back(message: &RawDepthMessage) -> RawDepthMessage {
    let bytes = encode_depth_message(message, &show).unwrap();
    let value: serde_json::Value = serde_json::from_slice(&bytes).unwrap();
    let data = BinanceDepthData {
        event: value["e"].as_str().map(BinanceDepthEvent::from_name),
        symbol: value["s"].as_str().unwrap().to_owned(),
        first_sequence: value["U"].as_u64(),
        previous_sequence: value["pu"].as_u64(),
        sequence: value["u"].as_u64(),
        delta_bids: pairs_of(&value["b"]),
        delta_asks: pairs_of(&value["a"]),
        last_update_id: value["lastUpdateId"].as_u64(),
        snapshot_bids: pairs_of(&value["bids"]),
        snapshot_asks: pairs_of(&value["asks"]),
    };
    decode_raw_depth(DepthEnvelope::Binance(BinanceDepthEnvelope::Direct(data))).unwrap()
}

#[test]
fn written_changes_are_read_back() {
    let written = change(Exchange::BinanceUsdM, "BTCUSDT", Some(4), None, Some(7));
    match read_back(&written) {
        RawDepthMessage::Delta {
            market,
            first_sequence,
            previous_sequence,
            sequence,
            bids,
            asks,
        } => {
            assert_eq!(market.label(), "binance_usd_m:BTCUSDT");
            assert_eq!(first_sequence, Some(4));
            assert_eq!(previous_sequence, None);
            assert_eq!(sequence, Some(7));
            assert_eq!(bids, vec![level(1.0, 1.0)]);
            assert_eq!(asks, vec![]);
        }
        _ => panic!("not a change"),
    }
}

#[test]
fn written_snapshots_are_read_back() {
    let written = RawDepthMessage::Snapshot {
        market: MarketKey::new(Exchange::BinanceUsdM, "BTCUSDT".to_owned()),
        sequence: Some(9),
        bids: vec![level(0.1, 1e-7)],
        asks: vec![level(123456.789, 2.0), level(1e21, 3.0)],
    };
    match read_back(&written) {
        RawDepthMessage::Snapshot { sequence, bids, asks, .. } => {
            assert_eq!(sequence, Some(9));
            assert_eq!(bids, vec![level(0.1, 1e-7)]);
            assert_eq!(asks, vec![level(123456.789, 2.0), level(1e21, 3.0)]);
        }
        _ => panic!("not a snapshot"),
    }
}

fn times(step: &SyncStep) -> Vec<std::time::Instant> {
    match step {
        SyncStep::Send { messages } => messages.iter().map(|kept| kept.received_at).collect(),
        _ => panic!("nothing is sent"),
    }
}

#[test]
fn changes_keep_the_time_of_their_receipt() {
    let mut sync = DepthSynchronizer::new(&runtime(Exchange::BinanceUsdM, &["BTCUSDT"]));
    let start = default_received_at();
    let at = |seconds: u64| start + std::time::Duration::from_secs(3600 + seconds);
    sync.handle_payload(binance(1, 0, 3), at(1), &parse);
    sync.handle_payload(binance(4, 3, 6), at(2), &parse);
    sync.handle_payload(binance(7, 6, 9), at(3), &parse);
    let passed = times(&give(&mut sync, snapshot(5)));
    assert_eq!(passed.len(), 3);
    // The snapshot carries the moment at which it was passed on.
    assert!(start <= passed[0] && passed[0] < at(0));
    assert_eq!(passed[1..], [at(2), at(3)]);
    let step = sync.handle_payload(binance(10, 9, 10), at(4), &parse);
    assert_eq!(times(&step), [at(4)]);
}
