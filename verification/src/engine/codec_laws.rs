//! What depth messages are decoded to, field by field.

use vstd::prelude::*;

use crate::config::model::Exchange;
use crate::engine::book::codec::{
    after_last_dot, BinanceDepthEnvelope, BybitDepthEnvelope, DepthEnvelope,
};
use crate::engine::book::{DepthModel, PriceLevel};
use crate::num::Binary64;

verus! {

/// Whether levels are pairs, each with its price and its quantity, in their order.
pub open spec fn are_pairs(levels: Seq<PriceLevel>, pairs: Seq<[Binary64; 2]>) -> bool {
    &&& levels.len() == pairs.len()
    &&& forall|i: int|
        0 <= i < pairs.len() ==> (#[trigger] levels[i]).price == pairs[i]@[0] && levels[i].qty
            == pairs[i]@[1]
}

/// A Binance message is decoded exactly if both its sides are there: those of a change if it reports
/// one, otherwise those of a snapshot. It is then about the symbol that it names, carries the numbers
/// that it gives, and its bids and its asks are its pairs in their order, whether it is wrapped or not.
pub proof fn binance_messages_are_decoded(envelope: BinanceDepthEnvelope)
    ensures
        ({
            let data = match envelope {
                BinanceDepthEnvelope::Combined { data } => data,
                BinanceDepthEnvelope::Direct(data) => data,
            };
            let changes = data.event is Some && data.event->0 is DepthUpdate;
            match DepthEnvelope::Binance(envelope).depth() {
                None => if changes {
                    data.delta_bids is None || data.delta_asks is None
                } else {
                    data.snapshot_bids is None || data.snapshot_asks is None
                },
                Some(message) => {
                    match message {
                        DepthModel::Delta {
                            market,
                            first_sequence,
                            previous_sequence,
                            sequence,
                            bids,
                            asks,
                        } => {
                            &&& market.exchange == Exchange::BinanceUsdM
                            &&& market.symbol == data.symbol@
                            &&& changes
                            &&& first_sequence == data.first_sequence
                            &&& previous_sequence == data.previous_sequence
                            &&& sequence == data.sequence
                            &&& data.delta_bids is Some && are_pairs(bids, data.delta_bids->0@)
                            &&& data.delta_asks is Some && are_pairs(asks, data.delta_asks->0@)
                        },
                        DepthModel::Snapshot { market, sequence, bids, asks } => {
                            &&& market.exchange == Exchange::BinanceUsdM
                            &&& market.symbol == data.symbol@
                            &&& !changes
                            &&& sequence == data.last_update_id
                            &&& data.snapshot_bids is Some && are_pairs(
                                bids,
                                data.snapshot_bids->0@,
                            )
                            &&& data.snapshot_asks is Some && are_pairs(
                                asks,
                                data.snapshot_asks->0@,
                            )
                        },
                    }
                },
            }
        }),
{
}

/// A Bybit message is decoded exactly if both its sides are there and it names its symbol, or has a
/// topic that does. Whether it is a change or a snapshot, its bids and its asks are its pairs in their
/// order, and it carries the number `u`, or else `seq`; a change also begins with that number, and
/// names no predecessor.
pub proof fn bybit_messages_are_decoded(envelope: BybitDepthEnvelope)
    ensures
        ({
            let data = envelope.data;
            let number = if data.sequence is Some {
                data.sequence
            } else {
                data.seq
            };
            match DepthEnvelope::Bybit(envelope).depth() {
                None => data.bids is None || data.asks is None || (data.symbol is None
                    && envelope.topic is None),
                Some(message) => {
                    &&& data.symbol is Some || envelope.topic is Some
                    &&& data.bids is Some && data.asks is Some
                    &&& match message {
                        DepthModel::Delta {
                            market,
                            first_sequence,
                            previous_sequence,
                            sequence,
                            bids,
                            asks,
                        } => {
                            &&& market.exchange == Exchange::BybitLinear
                            &&& data.symbol is Some ==> market.symbol == data.symbol->0@
                            &&& are_pairs(bids, data.bids->0@)
                            &&& are_pairs(asks, data.asks->0@)
                            &&& envelope.message_type is Some && envelope.message_type->0 is Delta
                            &&& first_sequence == number
                            &&& previous_sequence is None
                            &&& sequence == number
                        },
                        DepthModel::Snapshot { market, sequence, bids, asks } => {
                            &&& market.exchange == Exchange::BybitLinear
                            &&& data.symbol is Some ==> market.symbol == data.symbol->0@
                            &&& are_pairs(bids, data.bids->0@)
                            &&& are_pairs(asks, data.asks->0@)
                            &&& envelope.message_type is None || envelope.message_type->0 is Other
                            &&& sequence == number
                        },
                    }
                },
            }
        }),
{
}

/// The symbol of a topic is its part behind the last dot: it has no dot, it ends the topic, and what is
/// before it, if anything, ends with a dot.
pub proof fn topics_end_with_symbols(envelope: BybitDepthEnvelope)
    requires
        envelope.data.symbol is None,
        envelope.topic is Some,
        DepthEnvelope::Bybit(envelope).depth() is Some,
    ensures
        ({
            let topic = envelope.topic->0@;
            let symbol = match DepthEnvelope::Bybit(envelope).depth()->0 {
                DepthModel::Delta { market, .. } => market.symbol,
                DepthModel::Snapshot { market, .. } => market.symbol,
            };
            let before = topic.len() - symbol.len();
            &&& before >= 0
            &&& topic.skip(before) == symbol
            &&& !symbol.contains('.')
            &&& before > 0 ==> topic[before - 1] == '.'
        }),
{
    lemma_last_part(envelope.topic->0@);
}

proof fn lemma_last_part(s: Seq<char>)
    ensures
        ({
            let part = after_last_dot(s);
            let before = s.len() - part.len();
            &&& before >= 0
            &&& s.skip(before) == part
            &&& !part.contains('.')
            &&& before > 0 ==> s[before - 1] == '.'
        }),
    decreases s.len(),
{
    let part = after_last_dot(s);
    if s.len() > 0 && s.last() != '.' {
        let front = s.drop_last();
        lemma_last_part(front);
        let shorter = after_last_dot(front);
        assert(part =~= shorter.push(s.last()));
        assert(s.skip(s.len() - part.len()) =~= part);
        if part.contains('.') {
            let i = choose|i: int| 0 <= i < part.len() && part[i] == '.';
            assert(shorter[i] == '.');
        }
    } else {
        assert(s.skip(s.len() as int) =~= part);
    }
}

} // verus!
