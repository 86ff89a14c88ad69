//! What holds of synchronising the depth of Binance, and of the books that its messages reach.

use vstd::prelude::*;

use crate::config::model::Exchange;
use crate::engine::book::codec::{binance_depth, levels_of, BinanceDepthData, BinanceDepthEvent};
use crate::engine::book::{BookApplyResult, BookModel, DepthModel, PriceLevel};
use crate::gateway::market_ws::binance_sync::{
    breaks_off, bridge, encoded, has_break, lemma_bridge_reaches, level_texts, members_of, newer,
    reaches_across, sequence_after, snapshot_message, BinanceSnapshotModel, JsonMembers,
    PendingDepthModel, SymbolSyncModel, SyncStepModel,
};
use crate::gateway::market_ws::bybit::{first_place, SymbolState};
use crate::json::json_object_bytes;
use crate::num::Binary64;

verus! {

/// Whether a state is one that synchronising reaches: a symbol that is synchronised holds nothing
/// back, and one that is not has no last sequence number.
pub open spec fn settled(state: SymbolSyncModel) -> bool {
    &&& state.ready ==> state.pending.len() == 0 && state.snapshot is None
    &&& !state.ready ==> state.last_sequence is None
}

/// Synchronising starts in a settled state, and every message and snapshot leads from one to another.
pub proof fn states_stay_settled(
    rd: spec_fn(Seq<char>) -> Option<Binary64>,
    state: SymbolSyncModel,
    symbol: Seq<char>,
    message: PendingDepthModel,
    snapshot: BinanceSnapshotModel,
    now: std::time::Instant,
)
    requires
        settled(state),
    ensures
        settled(SymbolSyncModel::fresh()),
        settled(state.received(rd, symbol, message, now).state),
        !state.ready ==> settled(state.bridged(rd, symbol, snapshot, now).state),
{
}

/// A snapshot is passed on with a change that reaches across it right behind it, and a book of any
/// content applies both, unless the change says where it follows but not where it begins.
pub proof fn first_change_is_applied(
    rd: spec_fn(Seq<char>) -> Option<Binary64>,
    state: SymbolSyncModel,
    symbol: Seq<char>,
    snapshot: BinanceSnapshotModel,
    book: BookModel,
    now: std::time::Instant,
)
    requires
        state.bridged(rd, symbol, snapshot, now).step is Send,
        ({
            let change = state.bridged(rd, symbol, snapshot, now).step->messages[1];
            let previous = change.message->Delta_previous_sequence;
            change.message->Delta_first_sequence is Some || previous is None || previous == Some(
                snapshot.last_update_id,
            )
        }),
    ensures
        ({
            let messages = state.bridged(rd, symbol, snapshot, now).step->messages;
            &&& messages.len() >= 2
            &&& messages[0].message == snapshot_message(rd, symbol, snapshot)
            &&& reaches_across(messages[1].message, snapshot.last_update_id)
            &&& book.verdict(messages[0].message) == BookApplyResult::Applied
            &&& book.after(messages[0].message).verdict(messages[1].message) == BookApplyResult::Applied
        }),
{
    let pending = newer(state.pending, snapshot.last_update_id);
    lemma_bridge_reaches(pending, snapshot.last_update_id);
    let at = bridge(pending, snapshot.last_update_id)->0;
    let messages = state.bridged(rd, symbol, snapshot, now).step->messages;
    assert(pending.skip(at)[0] == pending[at]);
    assert(messages[1] == pending[at]);
}

/// A book that is as far as a synchronised symbol finds no gap before a change that is passed on, if
/// the change says what it follows.
pub proof fn passed_changes_follow(
    rd: spec_fn(Seq<char>) -> Option<Binary64>,
    state: SymbolSyncModel,
    symbol: Seq<char>,
    message: PendingDepthModel,
    book: BookModel,
    now: std::time::Instant,
)
    requires
        settled(state),
        state.ready,
        book.last_sequence == state.last_sequence,
        message.message is Delta,
        message.message->Delta_previous_sequence is Some,
        state.received(rd, symbol, message, now).step is Send,
    ensures
        state.received(rd, symbol, message, now).step->messages == seq![message],
        book.verdict(message.message) != BookApplyResult::GapDetected,
        book.verdict(message.message) == BookApplyResult::Applied ==> book.after(
            message.message,
        ).last_sequence
            == state.received(rd, symbol, message, now).state.last_sequence,
{
    let pending = state.buffered(message).pending;
    assert(pending =~= seq![message]);
    assert(pending.take(0) =~= Seq::empty());
    assert(!has_break(state.last_sequence, pending));
    assert(pending[0] == message);
    assert(!breaks_off(sequence_after(state.last_sequence, pending.take(0)), pending[0].message));
    assert(pending.drop_last() =~= Seq::empty());
    assert(sequence_after(state.last_sequence, Seq::empty()) == state.last_sequence);
}

/// A change that does not follow the last one makes a synchronised symbol begin anew.
pub proof fn breaks_begin_anew(
    rd: spec_fn(Seq<char>) -> Option<Binary64>,
    state: SymbolSyncModel,
    symbol: Seq<char>,
    message: PendingDepthModel,
    now: std::time::Instant,
)
    requires
        settled(state),
        state.ready,
        breaks_off(state.last_sequence, message.message),
    ensures
        state.received(rd, symbol, message, now).state == SymbolSyncModel::fresh(),
        state.received(rd, symbol, message, now).step == (SyncStepModel::FetchSnapshot { symbol }),
{
    let pending = state.buffered(message).pending;
    assert(pending.take(0) =~= Seq::empty());
    assert(breaks_off(sequence_after(state.last_sequence, pending.take(0)), pending[0].message));
}

/// A change that came while a snapshot was fetched is passed on behind the snapshot, unless the
/// snapshot holds it already or it came before the one that reaches across; it carries the time at
/// which it was received.
pub proof fn no_newer_change_is_lost(
    rd: spec_fn(Seq<char>) -> Option<Binary64>,
    state: SymbolSyncModel,
    symbol: Seq<char>,
    snapshot: BinanceSnapshotModel,
    i: int,
    now: std::time::Instant,
)
    requires
        ({
            let pending = newer(state.pending, snapshot.last_update_id);
            &&& bridge(pending, snapshot.last_update_id) is Some
            &&& bridge(pending, snapshot.last_update_id)->0 <= i < pending.len()
        }),
    ensures
        ({
            let pending = newer(state.pending, snapshot.last_update_id);
            let at = bridge(pending, snapshot.last_update_id)->0;
            &&& state.bridged(rd, symbol, snapshot, now).step is Send
            &&& state.bridged(rd, symbol, snapshot, now).step->messages[1 + i - at] == pending[i]
        }),
{
    lemma_bridge_reaches(newer(state.pending, snapshot.last_update_id), snapshot.last_update_id);
}

/// The last member of a name.
pub open spec fn member<T>(members: Seq<(Seq<char>, T)>, name: Seq<char>) -> Option<T>
    decreases members.len(),
{
    if members.len() == 0 {
        None
    } else if members.last().0 == name {
        Some(members.last().1)
    } else {
        member(members.drop_last(), name)
    }
}

/// The number of a name, if it is there and is one.
pub open spec fn number_of(members: JsonMembers, name: Seq<char>) -> Option<u64> {
    match member(members.numbers, name) {
        Some(number) => number,
        None => None,
    }
}

/// Whether pairs are the list of a name, read as numbers.
pub open spec fn holds_list(
    rd: spec_fn(Seq<char>) -> Option<Binary64>,
    members: JsonMembers,
    name: Seq<char>,
    pairs: Option<Vec<[Binary64; 2]>>,
) -> bool {
    match (pairs, member(members.lists, name)) {
        (Some(pairs), Some(list)) => {
            &&& pairs@.len() == list.len()
            &&& forall|i: int|
                0 <= i < list.len() ==> {
                    &&& rd((#[trigger] list[i]).0) == Some(pairs@[i]@[0])
                    &&& rd(list[i].1) == Some(pairs@[i]@[1])
                }
        },
        (None, None) => true,
        _ => false,
    }
}

/// Whether fields are those of a JSON object, each under its name at the venue.
pub open spec fn holds_members(
    rd: spec_fn(Seq<char>) -> Option<Binary64>,
    members: JsonMembers,
    data: BinanceDepthData,
) -> bool {
    &&& member(members.texts, "s"@) == Some(data.symbol@)
    &&& data.event == match member(members.texts, "e"@) {
        Some(name) => Some(
            if name == "depthUpdate"@ {
                BinanceDepthEvent::DepthUpdate
            } else {
                BinanceDepthEvent::Other
            },
        ),
        None => None,
    }
    &&& data.first_sequence == number_of(members, "U"@)
    &&& data.previous_sequence == number_of(members, "pu"@)
    &&& data.sequence == number_of(members, "u"@)
    &&& data.last_update_id == number_of(members, "lastUpdateId"@)
    &&& holds_list(rd, members, "b"@, data.delta_bids)
    &&& holds_list(rd, members, "a"@, data.delta_asks)
    &&& holds_list(rd, members, "bids"@, data.snapshot_bids)
    &&& holds_list(rd, members, "asks"@, data.snapshot_asks)
}

/// Whether the numbers of levels are read back from their texts.
pub open spec fn levels_read_back(
    sh: spec_fn(Binary64) -> Seq<char>,
    rd: spec_fn(Seq<char>) -> Option<Binary64>,
    levels: Seq<PriceLevel>,
) -> bool {
    forall|i: int|
        0 <= i < levels.len() ==> {
            &&& rd(sh((#[trigger] levels[i]).price)) == Some(levels[i].price)
            &&& rd(sh(levels[i].qty)) == Some(levels[i].qty)
        }
}

proof fn lemma_list_read_back(
    sh: spec_fn(Binary64) -> Seq<char>,
    rd: spec_fn(Seq<char>) -> Option<Binary64>,
    members: JsonMembers,
    name: Seq<char>,
    pairs: Option<Vec<[Binary64; 2]>>,
    levels: Seq<PriceLevel>,
)
    requires
        levels_read_back(sh, rd, levels),
        member(members.lists, name) == Some(level_texts(sh, levels)),
        holds_list(rd, members, name, pairs),
    ensures
        pairs is Some,
        levels_of(pairs->0@) == levels,
{
    let list = level_texts(sh, levels);
    assert forall|i: int| 0 <= i < levels.len() implies (#[trigger] levels_of(pairs->0@)[i])
        == levels[i] by {
        assert(list[i] == (sh(levels[i].price), sh(levels[i].qty)));
    }
    assert(levels_of(pairs->0@) =~= levels);
}

/// A message that is written in the venue's own form is read back: decoding the fields that it was
/// written with gives the message, wherever its numbers are read back from their texts.
pub proof fn written_messages_are_read_back(
    sh: spec_fn(Binary64) -> Seq<char>,
    rd: spec_fn(Seq<char>) -> Option<Binary64>,
    message: DepthModel,
    data: BinanceDepthData,
)
    requires
        message.market().exchange == Exchange::BinanceUsdM,
        levels_read_back(sh, rd, message.bids()),
        levels_read_back(sh, rd, message.asks()),
        holds_members(rd, members_of(sh, message), data),
    ensures
        binance_depth(data) == Some(message),
{
    reveal_strlit("s");
    reveal_strlit("e");
    reveal_strlit("U");
    reveal_strlit("u");
    reveal_strlit("pu");
    reveal_strlit("lastUpdateId");
    reveal_strlit("b");
    reveal_strlit("a");
    reveal_strlit("bids");
    reveal_strlit("asks");
    reveal_with_fuel(member, 4);
    let members = members_of(sh, message);
    match message {
        DepthModel::Snapshot { market, sequence, bids, asks } => {
            assert("asks"@[0] == 'a' && "bids"@[0] == 'b');
            assert(members.lists.drop_last() =~= seq![("bids"@, level_texts(sh, bids))]);
            lemma_list_read_back(sh, rd, members, "bids"@, data.snapshot_bids, bids);
            lemma_list_read_back(sh, rd, members, "asks"@, data.snapshot_asks, asks);
            assert(members.texts.drop_last() =~= Seq::empty());
            assert("s"@[0] == 's' && "e"@[0] == 'e');
        },
        DepthModel::Delta { market, first_sequence, previous_sequence, sequence, bids, asks } => {
            assert("a"@[0] == 'a' && "b"@[0] == 'b');
            assert(members.lists.drop_last() =~= seq![("b"@, level_texts(sh, bids))]);
            lemma_list_read_back(sh, rd, members, "b"@, data.delta_bids, bids);
            lemma_list_read_back(sh, rd, members, "a"@, data.delta_asks, asks);
            assert("s"@[0] == 's' && "e"@[0] == 'e');
            assert(members.texts.drop_last() =~= seq![("e"@, "depthUpdate"@)]);
            assert("pu"@.len() == 2 && "u"@[0] == 'u' && "U"@[0] == 'U');
            assert(members.numbers.drop_last() =~= seq![("U"@, first_sequence), ("u"@, sequence)]);
            assert(members.numbers.drop_last().drop_last() =~= seq![("U"@, first_sequence)]);
        },
    }
}

/// Whether both texts of a level of a fetched snapshot read as numbers.
pub open spec fn is_readable(
    rd: spec_fn(Seq<char>) -> Option<Binary64>,
    level: (Seq<char>, Seq<char>),
) -> bool {
    rd(level.0) is Some && rd(level.1) is Some
}

/// Whether `levels` are exactly the readable ones of `texts`, in their order, each with the price and
/// the quantity that its texts read as.
pub open spec fn are_read(
    rd: spec_fn(Seq<char>) -> Option<Binary64>,
    texts: Seq<(Seq<char>, Seq<char>)>,
    levels: Seq<PriceLevel>,
) -> bool {
    let kept = texts.filter(|level: (Seq<char>, Seq<char>)| is_readable(rd, level));
    &&& levels.len() == kept.len()
    &&& forall|i: int|
        0 <= i < levels.len() ==> rd(kept[i].0) == Some((#[trigger] levels[i]).price) && rd(
            kept[i].1,
        ) == Some(levels[i].qty)
    &&& (forall|i: int| 0 <= i < texts.len() ==> is_readable(rd, #[trigger] texts[i]))
        ==> levels.len() == texts.len() && forall|i: int|
        0 <= i < levels.len() ==> rd(texts[i].0) == Some((#[trigger] levels[i]).price) && rd(
            texts[i].1,
        ) == Some(levels[i].qty)
}

proof fn lemma_are_read(
    rd: spec_fn(Seq<char>) -> Option<Binary64>,
    texts: Seq<(Seq<char>, Seq<char>)>,
)
    ensures
        are_read(rd, texts, crate::gateway::market_ws::binance_sync::levels_of(rd, texts)),
    decreases texts.len(),
{
    reveal(Seq::filter);
    let p = |level: (Seq<char>, Seq<char>)| is_readable(rd, level);
    let levels = crate::gateway::market_ws::binance_sync::levels_of(rd, texts);
    let kept = texts.filter(p);
    if texts.len() > 0 {
        let front = texts.drop_last();
        lemma_are_read(rd, front);
        let before = front.filter(p);
        let read = crate::gateway::market_ws::binance_sync::levels_of(rd, front);
        assert(texts[texts.len() - 1] == texts.last());
        assert forall|i: int| 0 <= i < levels.len() implies rd(kept[i].0) == Some(
            (#[trigger] levels[i]).price,
        ) && rd(kept[i].1) == Some(levels[i].qty) by {
            if i < read.len() {
                assert(levels[i] == read[i]);
                assert(kept[i] == before[i]);
            }
        }
        if forall|i: int| 0 <= i < texts.len() ==> is_readable(rd, #[trigger] texts[i]) {
            assert forall|i: int| 0 <= i < front.len() implies is_readable(
                rd,
                #[trigger] front[i],
            ) by {
                assert(front[i] == texts[i]);
            }
            assert forall|i: int| 0 <= i < levels.len() implies rd(texts[i].0) == Some(
                (#[trigger] levels[i]).price,
            ) && rd(texts[i].1) == Some(levels[i].qty) by {
                if i < read.len() {
                    assert(levels[i] == read[i]);
                    assert(texts[i] == front[i]);
                }
            }
        }
    }
}

/// Whether a message is that of a fetched snapshot: it is about the symbol at Binance, carries the
/// snapshot's number, and its bids and asks are the readable ones of the snapshot in their order.
pub open spec fn is_of_snapshot(
    rd: spec_fn(Seq<char>) -> Option<Binary64>,
    symbol: Seq<char>,
    snapshot: BinanceSnapshotModel,
    message: DepthModel,
) -> bool {
    match message {
        DepthModel::Snapshot { market, sequence, bids, asks } => {
            &&& market.exchange == Exchange::BinanceUsdM
            &&& market.symbol == symbol
            &&& sequence == Some(snapshot.last_update_id)
            &&& are_read(rd, snapshot.bids, bids)
            &&& are_read(rd, snapshot.asks, asks)
        },
        DepthModel::Delta { .. } => false,
    }
}

/// Whether a message is a change that ends behind the number `id`, or does not say where it ends.
pub open spec fn ends_behind(message: DepthModel, id: u64) -> bool {
    message is Delta && (message->Delta_sequence is None || message->Delta_sequence->0 > id)
}

/// Whether a message is a change that begins at or before the number behind `id` and ends at or behind
/// it.
pub open spec fn spans(message: DepthModel, id: u64) -> bool {
    &&& message is Delta
    &&& if message->Delta_first_sequence is Some {
        message->Delta_first_sequence->0 <= id + 1
    } else {
        id >= u64::MAX - 1
    }
    &&& message->Delta_sequence is Some
    &&& message->Delta_sequence->0 > id
}

proof fn lemma_newer(pending: Seq<PendingDepthModel>, id: u64)
    ensures
        newer(pending, id) == pending.filter(
            |kept: PendingDepthModel| ends_behind(kept.message, id),
        ),
    decreases pending.len(),
{
    reveal(Seq::filter);
    if pending.len() > 0 {
        lemma_newer(pending.drop_last(), id);
    }
}

proof fn lemma_first_bridge(pending: Seq<PendingDepthModel>, id: u64)
    ensures
        match bridge(pending, id) {
            Some(at) => {
                &&& 0 <= at < pending.len()
                &&& spans(pending[at].message, id)
                &&& forall|i: int| 0 <= i < at ==> !spans((#[trigger] pending[i]).message, id)
            },
            None => forall|i: int|
                0 <= i < pending.len() ==> !spans((#[trigger] pending[i]).message, id),
        },
    decreases pending.len(),
{
    if pending.len() > 0 {
        let rest = pending.drop_first();
        lemma_first_bridge(rest, id);
        assert(reaches_across(pending[0].message, id) == spans(pending[0].message, id));
        if !reaches_across(pending[0].message, id) {
            let last = match bridge(rest, id) {
                Some(at) => at,
                None => rest.len() as int,
            };
            assert forall|i: int| 0 <= i < last + 1 && i < pending.len() implies !spans(
                (#[trigger] pending[i]).message,
                id,
            ) by {
                if i > 0 {
                    assert(rest[i - 1] == pending[i]);
                }
            }
        }
    }
}

/// Whether `after` is the last number that messages carry, or `before` where none carries one.
pub open spec fn is_last_number(
    before: Option<u64>,
    messages: Seq<PendingDepthModel>,
    after: Option<u64>,
) -> bool {
    ||| exists|i: int|
        0 <= i < messages.len() && (#[trigger] messages[i]).message is Delta
            && messages[i].message->Delta_sequence is Some && after
            == messages[i].message->Delta_sequence && forall|j: int|
            i < j < messages.len() ==> (#[trigger] messages[j]).message is Snapshot
                || messages[j].message->Delta_sequence is None
    ||| after == before && forall|j: int|
        0 <= j < messages.len() ==> (#[trigger] messages[j]).message is Snapshot
            || messages[j].message->Delta_sequence is None
}

proof fn lemma_last_number(before: Option<u64>, messages: Seq<PendingDepthModel>)
    ensures
        is_last_number(before, messages, sequence_after(before, messages)),
    decreases messages.len(),
{
    if messages.len() > 0 {
        let front = messages.drop_last();
        let last = messages[messages.len() - 1];
        let after = sequence_after(before, messages);
        lemma_last_number(before, front);
        assert(last == messages.last());
        if !(last.message is Delta && last.message->Delta_sequence is Some) {
            assert(after == sequence_after(before, front));
            if exists|i: int|
                0 <= i < front.len() && (#[trigger] front[i]).message is Delta
                    && front[i].message->Delta_sequence is Some && after
                    == front[i].message->Delta_sequence && forall|j: int|
                    i < j < front.len() ==> (#[trigger] front[j]).message is Snapshot
                        || front[j].message->Delta_sequence is None {
                let i = choose|i: int|
                    0 <= i < front.len() && (#[trigger] front[i]).message is Delta
                        && front[i].message->Delta_sequence is Some && after
                        == front[i].message->Delta_sequence && forall|j: int|
                        i < j < front.len() ==> (#[trigger] front[j]).message is Snapshot
                            || front[j].message->Delta_sequence is None;
                assert(messages[i] == front[i]);
                assert forall|j: int| i < j < messages.len() implies (
                #[trigger] messages[j]).message is Snapshot
                    || messages[j].message->Delta_sequence is None by {
                    if j < front.len() {
                        assert(front[j] == messages[j]);
                    }
                }
            } else {
                assert forall|j: int| 0 <= j < messages.len() implies (
                #[trigger] messages[j]).message is Snapshot
                    || messages[j].message->Delta_sequence is None by {
                    if j < front.len() {
                        assert(front[j] == messages[j]);
                    }
                }
            }
        }
    }
}

/// What a fetched snapshot leads to. Of the changes that wait, those that end at or before its number
/// are dropped. If one of the others spans the number behind the snapshot's, the snapshot is passed on
/// and behind it all changes from the first such one, in their order and with their times; the symbol
/// is then synchronised, at the last number that was passed on, and holds nothing back. Otherwise
/// nothing is passed on, and the snapshot waits with the changes.
pub proof fn snapshots_are_bridged(
    rd: spec_fn(Seq<char>) -> Option<Binary64>,
    state: SymbolSyncModel,
    symbol: Seq<char>,
    snapshot: BinanceSnapshotModel,
    now: std::time::Instant,
)
    ensures
        ({
            let id = snapshot.last_update_id;
            let kept = state.pending.filter(
                |waiting: PendingDepthModel| ends_behind(waiting.message, id),
            );
            let turn = state.bridged(rd, symbol, snapshot, now);
            match turn.step {
                SyncStepModel::Send { messages } => {
                    let at = kept.len() - (messages.len() - 1);
                    &&& 0 <= at < kept.len()
                    &&& is_of_snapshot(rd, symbol, snapshot, messages[0].message)
                    &&& messages[0].received_at == now
                    &&& messages.skip(1) == kept.skip(at)
                    &&& spans(kept[at].message, id)
                    &&& forall|i: int| 0 <= i < at ==> !spans((#[trigger] kept[i]).message, id)
                    &&& turn.state.ready
                    &&& turn.state.snapshot is None
                    &&& turn.state.pending.len() == 0
                    &&& is_last_number(
                        state.last_sequence,
                        kept.skip(at),
                        turn.state.last_sequence,
                    )
                },
                SyncStepModel::Wait => {
                    &&& forall|i: int|
                        0 <= i < kept.len() ==> !spans((#[trigger] kept[i]).message, id)
                    &&& turn.state.ready == state.ready
                    &&& turn.state.last_sequence == state.last_sequence
                    &&& turn.state.snapshot == Some(snapshot)
                    &&& turn.state.pending == kept
                },
                SyncStepModel::FetchSnapshot { .. } => false,
            }
        }),
{
    let id = snapshot.last_update_id;
    let kept = newer(state.pending, id);
    lemma_newer(state.pending, id);
    lemma_first_bridge(kept, id);
    lemma_are_read(rd, snapshot.bids);
    lemma_are_read(rd, snapshot.asks);
    match bridge(kept, id) {
        Some(at) => {
            let messages = state.bridged(rd, symbol, snapshot, now).step->messages;
            assert(messages.skip(1) =~= kept.skip(at));
            lemma_last_number(state.last_sequence, kept.skip(at));
        },
        None => {},
    }
}

/// What a message leads to. A synchronised symbol passes each message on by itself, unless it is a
/// change that names another predecessor than the last number: then all is forgotten and a snapshot is
/// fetched. A symbol that is not synchronised keeps the message behind the others, and fetches a
/// snapshot where none waits, or tries the one that does.
pub proof fn messages_are_synchronised(
    rd: spec_fn(Seq<char>) -> Option<Binary64>,
    state: SymbolSyncModel,
    symbol: Seq<char>,
    message: PendingDepthModel,
    now: std::time::Instant,
)
    requires
        settled(state),
    ensures
        ({
            let turn = state.received(rd, symbol, message, now);
            let change = message.message;
            let breaks = change is Delta && change->Delta_previous_sequence is Some
                && state.last_sequence is Some && change->Delta_previous_sequence
                != state.last_sequence;
            &&& state.ready && !breaks ==> {
                &&& turn.step == (SyncStepModel::Send { messages: seq![message] })
                &&& turn.state.ready
                &&& turn.state.snapshot is None
                &&& turn.state.pending.len() == 0
                &&& turn.state.last_sequence == if change is Delta
                    && change->Delta_sequence is Some {
                    change->Delta_sequence
                } else {
                    state.last_sequence
                }
            }
            &&& state.ready && breaks ==> {
                &&& turn.step == (SyncStepModel::FetchSnapshot { symbol })
                &&& !turn.state.ready
                &&& turn.state.snapshot is None
                &&& turn.state.pending.len() == 0
                &&& turn.state.last_sequence is None
            }
            &&& !state.ready && state.snapshot is None ==> {
                &&& turn.step == (SyncStepModel::FetchSnapshot { symbol })
                &&& !turn.state.ready
                &&& turn.state.snapshot is None
                &&& turn.state.pending == state.pending.push(message)
                &&& turn.state.last_sequence == state.last_sequence
            }
            &&& !state.ready && state.snapshot is Some ==> turn == (SymbolSyncModel {
                ready: false,
                last_sequence: state.last_sequence,
                snapshot: state.snapshot,
                pending: state.pending.push(message),
            }).bridged(rd, symbol, state.snapshot->0, now)
        }),
{
    let pending = state.buffered(message).pending;
    if state.ready {
        assert(pending =~= seq![message]);
        assert(pending.take(0) =~= Seq::empty());
        assert(pending.drop_last() =~= Seq::empty());
        assert(sequence_after(state.last_sequence, Seq::empty()) == state.last_sequence);
        assert(pending[0] == message);
        if has_break(state.last_sequence, pending) {
            let i = choose|i: int|
                0 <= i < pending.len() && breaks_off(
                    sequence_after(state.last_sequence, pending.take(i)),
                    (#[trigger] pending[i]).message,
                );
            assert(i == 0);
        }
        assert(breaks_off(state.last_sequence, message.message) <==> has_break(
            state.last_sequence,
            pending,
        )) by {
            if breaks_off(state.last_sequence, message.message) {
                assert(breaks_off(
                    sequence_after(state.last_sequence, pending.take(0)),
                    pending[0].message,
                ));
            }
        }
    }
}

/// A symbol's state is the first of those that are subscribed under its name, and there is none exactly
/// if it is not subscribed.
pub proof fn symbols_are_found(symbols: Seq<Seq<char>>, symbol: Seq<char>)
    ensures
        match first_place(symbols, symbol) {
            Some(at) => {
                &&& 0 <= at < symbols.len()
                &&& symbols[at] == symbol
                &&& forall|i: int| 0 <= i < at ==> #[trigger] symbols[i] != symbol
            },
            None => !symbols.contains(symbol),
        },
    decreases symbols.len(),
{
    if symbols.len() > 0 {
        let rest = symbols.drop_first();
        symbols_are_found(rest, symbol);
        if symbols[0] != symbol {
            match first_place(rest, symbol) {
                Some(at) => {
                    assert forall|i: int| 0 <= i < at + 1 implies #[trigger] symbols[i]
                        != symbol by {
                        if i > 0 {
                            assert(rest[i - 1] == symbols[i]);
                        }
                    }
                },
                None => {
                    if symbols.contains(symbol) {
                        let i = choose|i: int| 0 <= i < symbols.len() && symbols[i] == symbol;
                        assert(rest[i - 1] == symbol);
                    }
                },
            }
        }
    }
}

/// Which Bybit messages are passed on. A snapshot always is. A change is once a snapshot has been, if
/// it carries no number, or none has been passed on, or it carries exactly the next one; an older one
/// and one before any snapshot is held, and a later one shows a gap. What is passed on leaves its
/// number behind, and nothing else changes a symbol's state.
pub proof fn bybit_messages_are_judged(state: SymbolState, message: DepthModel)
    ensures
        match message {
            DepthModel::Snapshot { sequence, .. } => {
                &&& state.acceptance(message) is Passed
                &&& state.after(message).has_snapshot
                &&& state.after(message).last_sequence == sequence
            },
            DepthModel::Delta { sequence, .. } => {
                let counted = sequence is Some && state.last_sequence is Some;
                let after = state.after(message);
                &&& state.acceptance(message) is Gap <==> state.has_snapshot && counted
                    && sequence->0 > state.last_sequence->0 + 1
                &&& state.acceptance(message) is Passed <==> state.has_snapshot && (counted
                    ==> sequence->0 == state.last_sequence->0 + 1)
                &&& state.acceptance(message) is Held <==> !state.has_snapshot || (counted
                    && sequence->0 <= state.last_sequence->0)
                &&& after.has_snapshot == state.has_snapshot
                &&& after.last_sequence == if state.acceptance(message) is Passed
                    && sequence is Some {
                    sequence
                } else {
                    state.last_sequence
                }
            },
        },
        !SymbolState::fresh().has_snapshot,
        SymbolState::fresh().last_sequence is None,
{
}

/// Whether texts are those of levels: at each place the price and the quantity of the level there.
pub open spec fn are_written(
    show: spec_fn(Binary64) -> Seq<char>,
    levels: Seq<PriceLevel>,
    texts: Seq<(Seq<char>, Seq<char>)>,
) -> bool {
    &&& texts.len() == levels.len()
    &&& forall|i: int|
        0 <= i < levels.len() ==> #[trigger] texts[i] == (show(levels[i].price), show(levels[i].qty))
}

/// A message is written as the venue writes its own: a snapshot with its symbol, its number and both
/// sides; a change with its kind, its symbol, its first, its last and its previous number, and both
/// sides. Each level stands at its place, price before quantity.
pub proof fn messages_are_written_as_the_venue_does(
    show: spec_fn(Binary64) -> Seq<char>,
    message: DepthModel,
    bid_texts: Seq<(Seq<char>, Seq<char>)>,
    ask_texts: Seq<(Seq<char>, Seq<char>)>,
)
    ensures
        match message {
            DepthModel::Snapshot { market, sequence, bids, asks } => are_written(
                show,
                bids,
                bid_texts,
            ) && are_written(show, asks, ask_texts) ==> encoded(show, message)
                == json_object_bytes(
                seq![("s"@, market.symbol)],
                seq![("lastUpdateId"@, sequence)],
                seq![("bids"@, bid_texts), ("asks"@, ask_texts)],
            ),
            DepthModel::Delta {
                market,
                first_sequence,
                previous_sequence,
                sequence,
                bids,
                asks,
            } => are_written(show, bids, bid_texts) && are_written(show, asks, ask_texts)
                ==> encoded(show, message) == json_object_bytes(
                seq![("e"@, "depthUpdate"@), ("s"@, market.symbol)],
                seq![("U"@, first_sequence), ("u"@, sequence), ("pu"@, previous_sequence)],
                seq![("b"@, bid_texts), ("a"@, ask_texts)],
            ),
        },
{
    match message {
        DepthModel::Snapshot { bids, asks, .. } => {
            if are_written(show, bids, bid_texts) && are_written(show, asks, ask_texts) {
                assert(level_texts(show, bids) =~= bid_texts);
                assert(level_texts(show, asks) =~= ask_texts);
            }
        },
        DepthModel::Delta { bids, asks, .. } => {
            if are_written(show, bids, bid_texts) && are_written(show, asks, ask_texts) {
                assert(level_texts(show, bids) =~= bid_texts);
                assert(level_texts(show, asks) =~= ask_texts);
            }
        },
    }
}

} // verus!
