use perp_arb::config::model::Exchange;
use perp_arb::engine::book::codec::{
    decode_raw_depth, decode_raw_depth_with_timing, BinanceDepthData, BinanceDepthEnvelope,
    BinanceDepthEvent, BybitDepthData, BybitDepthEnvelope, BybitMessageType, DepthEnvelope,
};
use perp_arb::engine::book::{PriceLevel, RawDepthMessage};
use perp_arb::num::Binary64;

fn number(value: f64) -> Binary64 {
    Binary64 { bits: value.to_bits() }
}

fn pair(price: f64, qty: f64) -> [Binary64; 2] {
    [number(price), number(qty)]
}

fn level(price: f64, qty: f64) -> PriceLevel {
    PriceLevel { price: number(price), qty: number(qty) }
}

fn binance(event: Option<BinanceDepthEvent>) -> BinanceDepthData {
    BinanceDepthData {
        event,
        symbol: "BTCUSDT".to_owned(),
        first_sequence: Some(5),
        previous_sequence: Some(4),
        sequence: Some(9),
        delta_bids: Some(vec![pair(10.0, 1.0)]),
        delta_asks: Some(vec![pair(11.0, 2.0), pair(12.0, 0.0)]),
        last_update_id: Some(7),
        snapshot_bids: Some(vec![pair(1.0, 3.0)]),
        snapshot_asks: Some(vec![]),
    }
}

fn bybit(message_type: Option<BybitMessageType>) -> BybitDepthEnvelope {
    BybitDepthEnvelope {
        message_type,
        topic: Some("orderbook.50.ETHUSDT".to_owned()),
        data: BybitDepthData {
            symbol: None,
            sequence: Some(3),
            seq: Some(8),
            bids: Some(vec![pair(10.0, 1.0)]),
            asks: Some(vec![pair(11.0, 2.0)]),
        },
    }
}

#[test]
fn names_are_recognised() {
    assert_eq!(BinanceDepthEvent::from_name("depthUpdate"), BinanceDepthEvent::DepthUpdate);
    assert_eq!(BinanceDepthEvent::from_name("depthupdate"), BinanceDepthEvent::Other);
    assert_eq!(BybitMessageType::from_name("delta"), BybitMessageType::Delta);
    assert_eq!(BybitMessageType::from_name("snapshot"), BybitMessageType::Other);
}

#[test]
fn binance_changes_are_decoded() {
    let data = binance(Some(BinanceDepthEvent::DepthUpdate));
    let envelope = DepthEnvelope::Binance(BinanceDepthEnvelope::Combined { data });
    match decode_raw_depth(envelope) {
        Some(RawDepthMessage::Delta {
            market,
            first_sequence,
            previous_sequence,
            sequence,
            bids,
            asks,
        }) => {
            assert_eq!(market.exchange, Exchange::BinanceUsdM);
            assert_eq!(market.symbol, "BTCUSDT");
            assert_eq!(first_sequence, Some(5));
            assert_eq!(previous_sequence, Some(4));
            assert_eq!(sequence, Some(9));
            assert_eq!(bids, vec![level(10.0, 1.0)]);
            assert_eq!(asks, vec![level(11.0, 2.0), level(12.0, 0.0)]);
        }
        _ => panic!("not a change"),
    }
}

#[test]
fn binance_snapshots_are_decoded() {
    for event in [None, Some(BinanceDepthEvent::Other)] {
        let envelope = DepthEnvelope::Binance(BinanceDepthEnvelope::Direct(binance(event)));
        match decode_raw_depth(envelope) {
            Some(RawDepthMessage::Snapshot { sequence, bids, asks, .. }) => {
                assert_eq!(sequence, Some(7));
                assert_eq!(bids, vec![level(1.0, 3.0)]);
                assert_eq!(asks, vec![]);
            }
            _ => panic!("not a snapshot"),
        }
    }
}

#[test]
fn a_missing_side_is_no_message() {
    let mut data = binance(Some(BinanceDepthEvent::DepthUpdate));
    data.delta_asks = None;
    assert!(decode_raw_depth(DepthEnvelope::Binance(BinanceDepthEnvelope::Direct(data))).is_none());
    let mut data = binance(None);
    data.snapshot_bids = None;
    assert!(decode_raw_depth(DepthEnvelope::Binance(BinanceDepthEnvelope::Direct(data))).is_none());
    let mut envelope = bybit(None);
    envelope.data.bids = None;
    assert!(decode_raw_depth(DepthEnvelope::Bybit(envelope)).is_none());
    let mut envelope = bybit(None);
    envelope.topic = None;
    assert!(decode_raw_depth(DepthEnvelope::Bybit(envelope)).is_none());
}

#[test]
fn bybit_changes_are_decoded() {
    let envelope = DepthEnvelope::Bybit(bybit(Some(BybitMessageType::Delta)));
    match decode_raw_depth(envelope) {
        Some(RawDepthMessage::Delta {
            market,
            first_sequence,
            previous_sequence,
            sequence,
            bids,
            asks,
        }) => {
            assert_eq!(market.exchange, Exchange::BybitLinear);
            assert_eq!(market.symbol, "ETHUSDT");
            assert_eq!(first_sequence, Some(3));
            assert_eq!(previous_sequence, None);
            assert_eq!(sequence, Some(3));
            assert_eq!(bids, vec![level(10.0, 1.0)]);
            assert_eq!(asks, vec![level(11.0, 2.0)]);
        }
        _ => panic!("not a change"),
    }
}

#[test]
fn bybit_snapshots_are_decoded() {
    let mut envelope = bybit(Some(BybitMessageType::Other));
    envelope.data.symbol = Some("SOLUSDT".to_owned());
    envelope.data.sequence = None;
    match decode_raw_depth(DepthEnvelope::Bybit(envelope)) {
        Some(RawDepthMessage::Snapshot { market, sequence, .. }) => {
            assert_eq!(market.symbol, "SOLUSDT");
            assert_eq!(sequence, Some(8));
        }
        _ => panic!("not a snapshot"),
    }
}

#[test]
fn a_topic_without_dots_is_the_symbol() {
    for (topic, symbol) in [("BTCUSDT", "BTCUSDT"), ("a.", ""), ("", ""), (".x", "x")] {
        let mut envelope = bybit(None);
        envelope.topic = Some(topic.to_owned());
        let message = decode_raw_depth(DepthEnvelope::Bybit(envelope)).unwrap();
        assert_eq!(message.market().symbol, symbol);
        assert_eq!(message.kind(), "snapshot");
        assert_eq!(message.level_counts(), (1, 1));
    }
}

#[test]
fn the_time_of_parsing_is_kept() {
    let decoded =
        decode_raw_depth_with_timing(DepthEnvelope::Bybit(bybit(None)), 17).unwrap();
    assert_eq!(decoded.timing.deserialize_us, 17);
}
