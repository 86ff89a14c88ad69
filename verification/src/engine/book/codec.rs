//! From parsed venue messages to depth messages.

use vstd::prelude::*;

use crate::clock::micros_since;
use crate::config::model::{Exchange, MarketKey, MarketKeyModel};
use crate::engine::book::{
    DecodedDepthMessage, DepthDecodeTiming, DepthModel, PriceLevel, RawDepthMessage,
};
use crate::num::Binary64;
use crate::text::{chars_of, same_text, text_of};

verus! {

/// What a Binance message reports.
#[derive(Clone, Copy, Debug, PartialEq, Eq, Structural)]
pub enum BinanceDepthEvent {
    DepthUpdate,
    Other,
}

impl BinanceDepthEvent {
    /// The event of a name.
    pub fn from_name(name: &str) -> (r: Self)
        ensures
            r == (if name@ == "depthUpdate"@ {
                BinanceDepthEvent::DepthUpdate
            } else {
                BinanceDepthEvent::Other
            }),
    {
        if same_text(name, "depthUpdate") {
            BinanceDepthEvent::DepthUpdate
        } else {
            BinanceDepthEvent::Other
        }
    }
}

/// What a Bybit message carries.
#[derive(Clone, Copy, Debug, PartialEq, Eq, Structural)]
pub enum BybitMessageType {
    Delta,
    Other,
}

impl BybitMessageType {
    /// The type of a name.
    pub fn from_name(name: &str) -> (r: Self)
        ensures
            r == (if name@ == "delta"@ {
                BybitMessageType::Delta
            } else {
                BybitMessageType::Other
            }),
    {
        if same_text(name, "delta") {
            BybitMessageType::Delta
        } else {
            BybitMessageType::Other
        }
    }
}

/// The fields of a Binance depth message. A change fills `delta_bids` and `delta_asks`, a snapshot
/// `snapshot_bids` and `snapshot_asks`; a level is its price and its quantity.
#[derive(Debug)]
pub struct BinanceDepthData {
    pub event: Option<BinanceDepthEvent>,
    pub symbol: String,
    pub first_sequence: Option<u64>,
    pub previous_sequence: Option<u64>,
    pub sequence: Option<u64>,
    pub delta_bids: Option<Vec<[Binary64; 2]>>,
    pub delta_asks: Option<Vec<[Binary64; 2]>>,
    pub last_update_id: Option<u64>,
    pub snapshot_bids: Option<Vec<[Binary64; 2]>>,
    pub snapshot_asks: Option<Vec<[Binary64; 2]>>,
}

/// A Binance message: the fields, or an object that holds them.
#[derive(Debug)]
pub enum BinanceDepthEnvelope {
    Combined { data: BinanceDepthData },
    Direct(BinanceDepthData),
}

/// The fields of a Bybit depth message.
#[derive(Debug)]
pub struct BybitDepthData {
    pub symbol: Option<String>,
    pub sequence: Option<u64>,
    pub seq: Option<u64>,
    pub bids: Option<Vec<[Binary64; 2]>>,
    pub asks: Option<Vec<[Binary64; 2]>>,
}

/// A Bybit message.
#[derive(Debug)]
pub struct BybitDepthEnvelope {
    pub message_type: Option<BybitMessageType>,
    pub topic: Option<String>,
    pub data: BybitDepthData,
}

/// A parsed message of either venue.
#[derive(Debug)]
pub enum DepthEnvelope {
    Binance(BinanceDepthEnvelope),
    Bybit(BybitDepthEnvelope),
}

/// The levels of price and quantity pairs.
pub open spec fn levels_of(pairs: Seq<[Binary64; 2]>) -> Seq<PriceLevel> {
    pairs.map_values(|pair: [Binary64; 2]| PriceLevel { price: pair@[0], qty: pair@[1] })
}

/// What follows the last dot of a text, or the whole text where there is none.
pub open spec fn after_last_dot(s: Seq<char>) -> Seq<char>
    decreases s.len(),
{
    if s.len() == 0 || s.last() == '.' {
        Seq::empty()
    } else {
        after_last_dot(s.drop_last()).push(s.last())
    }
}

impl BinanceDepthEnvelope {
    pub open spec fn fields(self) -> BinanceDepthData {
        match self {
            BinanceDepthEnvelope::Combined { data } => data,
            BinanceDepthEnvelope::Direct(data) => data,
        }
    }
}

/// The depth message of a Binance message: a change if it says so, otherwise a snapshot; nothing
/// where a side is missing.
pub open spec fn binance_depth(data: BinanceDepthData) -> Option<DepthModel> {
    let market = MarketKeyModel { exchange: Exchange::BinanceUsdM, symbol: data.symbol@ };
    if data.event == Some(BinanceDepthEvent::DepthUpdate) {
        match (data.delta_bids, data.delta_asks) {
            (Some(bids), Some(asks)) => Some(
                DepthModel::Delta {
                    market,
                    first_sequence: data.first_sequence,
                    previous_sequence: data.previous_sequence,
                    sequence: data.sequence,
                    bids: levels_of(bids@),
                    asks: levels_of(asks@),
                },
            ),
            _ => None,
        }
    } else {
        match (data.snapshot_bids, data.snapshot_asks) {
            (Some(bids), Some(asks)) => Some(
                DepthModel::Snapshot {
                    market,
                    sequence: data.last_update_id,
                    bids: levels_of(bids@),
                    asks: levels_of(asks@),
                },
            ),
            _ => None,
        }
    }
}

/// The symbol of a Bybit message: the one it gives, otherwise the last part of its topic.
pub open spec fn bybit_symbol(envelope: BybitDepthEnvelope) -> Option<Seq<char>> {
    match (envelope.data.symbol, envelope.topic) {
        (Some(symbol), _) => Some(symbol@),
        (None, Some(topic)) => Some(after_last_dot(topic@)),
        (None, None) => None,
    }
}

/// The depth message of a Bybit message: nothing where the symbol or a side is missing. The
/// sequence number of a change is also its first.
pub open spec fn bybit_depth(envelope: BybitDepthEnvelope) -> Option<DepthModel> {
    let data = envelope.data;
    let sequence = if data.sequence is Some {
        data.sequence
    } else {
        data.seq
    };
    match (bybit_symbol(envelope), data.bids, data.asks) {
        (Some(symbol), Some(bids), Some(asks)) => {
            let market = MarketKeyModel { exchange: Exchange::BybitLinear, symbol };
            if envelope.message_type == Some(BybitMessageType::Delta) {
                Some(
                    DepthModel::Delta {
                        market,
                        first_sequence: sequence,
                        previous_sequence: None,
                        sequence,
                        bids: levels_of(bids@),
                        asks: levels_of(asks@),
                    },
                )
            } else {
                Some(
                    DepthModel::Snapshot {
                        market,
                        sequence,
                        bids: levels_of(bids@),
                        asks: levels_of(asks@),
                    },
                )
            }
        },
        _ => None,
    }
}

impl DepthEnvelope {
    /// The depth message of a parsed message.
    pub open spec fn depth(self) -> Option<DepthModel> {
        match self {
            DepthEnvelope::Binance(envelope) => binance_depth(envelope.fields()),
            DepthEnvelope::Bybit(envelope) => bybit_depth(envelope),
        }
    }
}

/// Decodes a parsed message.
pub fn decode_raw_depth(envelope: DepthEnvelope) -> (r: Option<RawDepthMessage>)
    ensures
        match r {
            Some(message) => envelope.depth() == Some(message@),
            None => envelope.depth() is None,
        },
{
    match decode_raw_depth_with_timing(envelope, 0) {
        Some(decoded) => Some(decoded.message),
        None => None,
    }
}

/// Decodes a message whose parsing took `deserialize_us`, and measures how long that took.
pub fn decode_raw_depth_with_timing(envelope: DepthEnvelope, deserialize_us: u128) -> (r: Option<
    DecodedDepthMessage,
>)
    ensures
        match r {
            Some(decoded) => {
                &&& envelope.depth() == Some(decoded.message@)
                &&& decoded.timing.deserialize_us == deserialize_us
            },
            None => envelope.depth() is None,
        },
{
    let normalize_started_at = std::time::Instant::now();
    let decoded = match envelope {
        DepthEnvelope::Binance(envelope) => decode_binance_depth(envelope),
        DepthEnvelope::Bybit(envelope) => decode_bybit_depth(envelope),
    };
    match decoded {
        Some(message) => Some(
            DecodedDepthMessage {
                message,
                timing: DepthDecodeTiming {
                    deserialize_us,
                    normalize_us: micros_since(&normalize_started_at),
                },
            },
        ),
        None => None,
    }
}

fn decode_binance_depth(envelope: BinanceDepthEnvelope) -> (r: Option<RawDepthMessage>)
    ensures
        match r {
            Some(message) => binance_depth(envelope.fields()) == Some(message@),
            None => binance_depth(envelope.fields()) is None,
        },
{
    let data = match envelope {
        BinanceDepthEnvelope::Combined { data } => data,
        BinanceDepthEnvelope::Direct(data) => data,
    };
    let is_change = match data.event {
        Some(BinanceDepthEvent::DepthUpdate) => true,
        _ => false,
    };
    let market = MarketKey::new(Exchange::BinanceUsdM, data.symbol);
    if is_change {
        match (data.delta_bids, data.delta_asks) {
            (Some(bids), Some(asks)) => Some(
                RawDepthMessage::Delta {
                    market,
                    first_sequence: data.first_sequence,
                    previous_sequence: data.previous_sequence,
                    sequence: data.sequence,
                    bids: parse_levels(&bids),
                    asks: parse_levels(&asks),
                },
            ),
            _ => None,
        }
    } else {
        match (data.snapshot_bids, data.snapshot_asks) {
            (Some(bids), Some(asks)) => Some(
                RawDepthMessage::Snapshot {
                    market,
                    sequence: data.last_update_id,
                    bids: parse_levels(&bids),
                    asks: parse_levels(&asks),
                },
            ),
            _ => None,
        }
    }
}

fn decode_bybit_depth(envelope: BybitDepthEnvelope) -> (r: Option<RawDepthMessage>)
    ensures
        match r {
            Some(message) => bybit_depth(envelope) == Some(message@),
            None => bybit_depth(envelope) is None,
        },
{
    let data = envelope.data;
    let symbol = match data.symbol {
        Some(symbol) => symbol,
        None => match envelope.topic {
            Some(topic) => symbol_from_topic(topic.as_str()),
            None => {
                return None;
            },
        },
    };
    let market = MarketKey::new(Exchange::BybitLinear, symbol);
    let sequence: Option<u64> = match data.sequence {
        Some(sequence) => Some(sequence),
        None => data.seq,
    };
    let is_change = match envelope.message_type {
        Some(BybitMessageType::Delta) => true,
        _ => false,
    };
    match (data.bids, data.asks) {
        (Some(bids), Some(asks)) => if is_change {
            Some(
                RawDepthMessage::Delta {
                    market,
                    first_sequence: sequence,
                    previous_sequence: None,
                    sequence,
                    bids: parse_levels(&bids),
                    asks: parse_levels(&asks),
                },
            )
        } else {
            Some(
                RawDepthMessage::Snapshot {
                    market,
                    sequence,
                    bids: parse_levels(&bids),
                    asks: parse_levels(&asks),
                },
            )
        },
        _ => None,
    }
}

fn parse_levels(pairs: &Vec<[Binary64; 2]>) -> (r: Vec<PriceLevel>)
    ensures
        r@ == levels_of(pairs@),
{
    let mut out: Vec<PriceLevel> = Vec::new();
    let mut i: usize = 0;
    while i < pairs.len()
        invariant
            i <= pairs.len(),
            out@ == levels_of(pairs@.take(i as int)),
        decreases pairs.len() - i,
    {
        let pair = &pairs[i];
        out.push(PriceLevel { price: pair[0], qty: pair[1] });
        i += 1;
        assert(out@ =~= levels_of(pairs@.take(i as int)));
    }
    assert(pairs@.take(pairs.len() as int) =~= pairs@);
    out
}

proof fn lemma_after_last_dot(s: Seq<char>, k: int)
    requires
        0 <= k <= s.len(),
        forall|i: int| k <= i < s.len() ==> s[i] != '.',
    ensures
        after_last_dot(s) == after_last_dot(s.take(k)) + s.skip(k),
    decreases s.len() - k,
{
    if k == s.len() {
        assert(s.take(k) =~= s);
        assert(after_last_dot(s) =~= after_last_dot(s.take(k)) + s.skip(k));
    } else {
        let front = s.drop_last();
        lemma_after_last_dot(front, k);
        assert(front.take(k) =~= s.take(k));
        assert(after_last_dot(s.take(k)) + s.skip(k) =~= (after_last_dot(front.take(k))
            + front.skip(k)).push(s.last()));
    }
}

fn symbol_from_topic(topic: &str) -> (r: String)
    ensures
        r@ == after_last_dot(topic@),
{
    let chars = chars_of(topic);
    let mut k: usize = chars.len();
    while k > 0 && chars[k - 1] != '.'
        invariant
            k <= chars.len(),
            forall|i: int| k <= i < chars.len() ==> chars@[i] != '.',
        decreases k,
    {
        k -= 1;
    }
    proof {
        lemma_after_last_dot(chars@, k as int);
        assert(after_last_dot(chars@.take(k as int)) =~= Seq::<char>::empty());
        assert(chars@.skip(k as int) =~= chars@.subrange(k as int, chars@.len() as int));
    }
    text_of(&chars, k, chars.len())
}

/// A symbol that a message gives itself is the one it is about, whatever its topic, and a topic
/// made of dotted parts names the symbol in its last part.
pub proof fn topics_name_symbols(envelope: BybitDepthEnvelope, before: Seq<char>, last: Seq<char>)
    requires
        !last.contains('.'),
        envelope.topic is Some,
        envelope.topic->0@ == before.push('.') + last,
    ensures
        bybit_symbol(envelope) == Some(
            match envelope.data.symbol {
                Some(symbol) => symbol@,
                None => last,
            },
        ),
{
    let topic = before.push('.') + last;
    let k = before.len() as int + 1;
    assert forall|i: int| k <= i < topic.len() implies topic[i] != '.' by {
        assert(topic[i] == last[i - k]);
        assert(last.contains(last[i - k]));
    }
    lemma_after_last_dot(topic, k);
    assert(topic.take(k) =~= before.push('.'));
    assert(topic.skip(k) =~= last);
    assert(after_last_dot(before.push('.')) =~= Seq::<char>::empty());
    assert(after_last_dot(topic) =~= last);
}

} // verus!
