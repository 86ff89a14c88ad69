//! Synchronising the depth of Binance: a snapshot is fetched for each symbol, and the changes that
//! have come meanwhile are passed on behind it from the first one that reaches across it.

use vstd::prelude::*;

use crate::config::model::{Exchange, MarketKey, MarketKeyModel};
use crate::engine::book::{DepthModel, PriceLevel, RawDepthMessage};
use crate::gateway::market_ws::bybit::{find_text, first_place};
use crate::gateway::market_ws::{MarketWsRuntime, MarketWsRuntimeModel};
use crate::json::{json_object_bytes, to_json_bytes};
use crate::num::{parses_all, reads, renders, shows_all, Binary64};

verus! {

/// A snapshot as it is fetched: prices and quantities are texts.
#[derive(Debug)]
pub struct BinanceSnapshot {
    pub last_update_id: u64,
    pub bids: Vec<(String, String)>,
    pub asks: Vec<(String, String)>,
}

/// What a [`BinanceSnapshot`] holds.
#[verifier::ext_equal]
pub struct BinanceSnapshotModel {
    pub last_update_id: u64,
    pub bids: Seq<(Seq<char>, Seq<char>)>,
    pub asks: Seq<(Seq<char>, Seq<char>)>,
}

impl View for BinanceSnapshot {
    type V = BinanceSnapshotModel;

    open spec fn view(&self) -> BinanceSnapshotModel {
        BinanceSnapshotModel {
            last_update_id: self.last_update_id,
            bids: self.bids.deep_view(),
            asks: self.asks.deep_view(),
        }
    }
}

impl DeepView for BinanceSnapshot {
    type V = BinanceSnapshotModel;

    open spec fn deep_view(&self) -> BinanceSnapshotModel {
        self@
    }
}

/// A message that waits to be passed on, and when it was received.
#[derive(Debug)]
pub struct PendingDepthMessage {
    pub message: RawDepthMessage,
    pub received_at: std::time::Instant,
}

/// What a [`PendingDepthMessage`] holds.
#[verifier::ext_equal]
pub struct PendingDepthModel {
    pub message: DepthModel,
    pub received_at: std::time::Instant,
}

impl DeepView for PendingDepthMessage {
    type V = PendingDepthModel;

    open spec fn deep_view(&self) -> PendingDepthModel {
        PendingDepthModel { message: self.message@, received_at: self.received_at }
    }
}

/// The last of two sequence numbers that is there.
pub open spec fn or_earlier(sequence: Option<u64>, earlier: Option<u64>) -> Option<u64> {
    if sequence is Some {
        sequence
    } else {
        earlier
    }
}

/// Whether a message is a change that a snapshot does not hold already, as far as it says.
pub open spec fn is_newer(message: DepthModel, last_update_id: u64) -> bool {
    match message {
        DepthModel::Delta { sequence, .. } => match sequence {
            Some(value) => value > last_update_id,
            None => true,
        },
        DepthModel::Snapshot { .. } => false,
    }
}

/// Whether a change reaches across a snapshot: it begins at or before the number after the
/// snapshot's, and ends at or after it.
pub open spec fn reaches_across(message: DepthModel, last_update_id: u64) -> bool {
    match message {
        DepthModel::Delta { first_sequence, sequence, .. } => {
            let first = match first_sequence {
                Some(first) => first,
                None => u64::MAX,
            };
            let current = match sequence {
                Some(current) => current,
                None => 0,
            };
            first <= last_update_id + 1 && current >= last_update_id + 1
        },
        DepthModel::Snapshot { .. } => false,
    }
}

/// The messages that a snapshot does not hold already.
pub open spec fn newer(pending: Seq<PendingDepthModel>, last_update_id: u64) -> Seq<
    PendingDepthModel,
>
    decreases pending.len(),
{
    if pending.len() == 0 {
        pending
    } else if is_newer(pending.last().message, last_update_id) {
        newer(pending.drop_last(), last_update_id).push(pending.last())
    } else {
        newer(pending.drop_last(), last_update_id)
    }
}

/// The place of the first message that reaches across a snapshot.
pub open spec fn bridge(pending: Seq<PendingDepthModel>, last_update_id: u64) -> Option<int>
    decreases pending.len(),
{
    if pending.len() == 0 {
        None
    } else if reaches_across(pending[0].message, last_update_id) {
        Some(0)
    } else {
        match bridge(pending.drop_first(), last_update_id) {
            Some(at) => Some(at + 1),
            None => None,
        }
    }
}

/// The last sequence number after messages.
pub open spec fn sequence_after(last: Option<u64>, messages: Seq<PendingDepthModel>) -> Option<u64>
    decreases messages.len(),
{
    if messages.len() == 0 {
        last
    } else {
        let before = sequence_after(last, messages.drop_last());
        match messages.last().message {
            DepthModel::Delta { sequence, .. } => or_earlier(sequence, before),
            DepthModel::Snapshot { .. } => before,
        }
    }
}

/// Whether a change names another predecessor than the last sequence number.
pub open spec fn breaks_off(last: Option<u64>, message: DepthModel) -> bool {
    match message {
        DepthModel::Delta { previous_sequence, .. } => match (last, previous_sequence) {
            (Some(expected), Some(previous)) => previous != expected,
            _ => false,
        },
        DepthModel::Snapshot { .. } => false,
    }
}

/// Whether one of the messages names another predecessor than the one before it.
pub open spec fn has_break(last: Option<u64>, messages: Seq<PendingDepthModel>) -> bool {
    exists|i: int|
        0 <= i < messages.len() && breaks_off(
            sequence_after(last, messages.take(i)),
            (#[trigger] messages[i]).message,
        )
}

/// What a [`SymbolSyncState`] holds.
#[verifier::ext_equal]
pub struct SymbolSyncModel {
    /// Whether the symbol is synchronised.
    pub ready: bool,
    pub last_sequence: Option<u64>,
    /// The snapshot that waits for a change that reaches across it.
    pub snapshot: Option<BinanceSnapshotModel>,
    /// The messages that wait to be passed on.
    pub pending: Seq<PendingDepthModel>,
}

/// How far a symbol is synchronised.
#[derive(Debug)]
pub struct SymbolSyncState {
    ready: bool,
    last_sequence: Option<u64>,
    snapshot: Option<BinanceSnapshot>,
    pending: Vec<PendingDepthMessage>,
}

impl View for SymbolSyncState {
    type V = SymbolSyncModel;

    closed spec fn view(&self) -> SymbolSyncModel {
        SymbolSyncModel {
            ready: self.ready,
            last_sequence: self.last_sequence,
            snapshot: self.snapshot.deep_view(),
            pending: self.pending.deep_view(),
        }
    }
}

impl DeepView for SymbolSyncState {
    type V = SymbolSyncModel;

    open spec fn deep_view(&self) -> SymbolSyncModel {
        self@
    }
}

impl SymbolSyncModel {
    /// The state before any message.
    pub open spec fn fresh() -> SymbolSyncModel {
        SymbolSyncModel {
            ready: false,
            last_sequence: None,
            snapshot: None,
            pending: Seq::empty(),
        }
    }

    /// The state with one more message.
    pub open spec fn buffered(self, message: PendingDepthModel) -> SymbolSyncModel {
        SymbolSyncModel { pending: self.pending.push(message), ..self }
    }

    /// Whether the number after the snapshot's is representable wherever it is needed.
    pub open spec fn can_bridge(self, last_update_id: u64) -> bool {
        last_update_id < u64::MAX || newer(self.pending, last_update_id).len() == 0
    }
}

proof fn lemma_bridge(pending: Seq<PendingDepthModel>, id: u64, at: int)
    requires
        0 <= at < pending.len(),
        forall|i: int| 0 <= i < at ==> !reaches_across(
            (#[trigger] pending[i]).message,
            id,
        ),
        reaches_across(pending[at].message, id),
    ensures
        bridge(pending, id) == Some(at),
    decreases pending.len(),
{
    if at > 0 {
        assert(!reaches_across(pending[0].message, id));
        assert forall|i: int| 0 <= i < at - 1 implies !reaches_across(
            (#[trigger] pending.drop_first()[i]).message,
            id,
        ) by {
            assert(!reaches_across(pending[i + 1].message, id));
        }
        lemma_bridge(pending.drop_first(), id, at - 1);
    }
}

proof fn lemma_no_bridge(pending: Seq<PendingDepthModel>, id: u64)
    requires
        forall|i: int| 0 <= i < pending.len() ==> !reaches_across(
            (#[trigger] pending[i]).message,
            id,
        ),
    ensures
        bridge(pending, id) is None,
    decreases pending.len(),
{
    if pending.len() > 0 {
        assert(!reaches_across(pending[0].message, id));
        assert forall|i: int| 0 <= i < pending.drop_first().len() implies !reaches_across(
            (#[trigger] pending.drop_first()[i]).message,
            id,
        ) by {
            assert(!reaches_across(pending[i + 1].message, id));
        }
        lemma_no_bridge(pending.drop_first(), id);
    }
}

/// The place of a bridge is that of a message that reaches across.
pub(crate) proof fn lemma_bridge_reaches(pending: Seq<PendingDepthModel>, id: u64)
    ensures
        match bridge(pending, id) {
            Some(at) => 0 <= at < pending.len() && reaches_across(pending[at].message, id),
            None => true,
        },
    decreases pending.len(),
{
    if pending.len() > 0 && !reaches_across(pending[0].message, id) {
        lemma_bridge_reaches(pending.drop_first(), id);
    }
}

impl SymbolSyncState {
    pub fn new() -> (r: Self)
        ensures
            r@ == SymbolSyncModel::fresh(),
    {
        let r = SymbolSyncState {
            ready: false,
            last_sequence: None,
            snapshot: None,
            pending: Vec::new(),
        };
        assert(r@.pending =~= Seq::empty());
        r
    }

    fn buffer(&mut self, message: RawDepthMessage, received_at: std::time::Instant)
        ensures
            final(self)@ == old(self)@.buffered(
                PendingDepthModel { message: message@, received_at },
            ),
    {
        let ghost last = PendingDepthModel { message: message@, received_at };
        self.pending.push(PendingDepthMessage { message, received_at });
        assert(self@.pending =~= old(self)@.pending.push(last));
    }

    fn discard_stale(&mut self, last_update_id: u64)
        ensures
            final(self)@ == (SymbolSyncModel {
                pending: newer(old(self)@.pending, last_update_id),
                ..old(self)@
            }),
    {
        let ghost all = self@.pending;
        let mut kept: Vec<PendingDepthMessage> = Vec::new();
        let ghost mut done: int = 0;
        assert(kept.deep_view() =~= newer(all.take(0), last_update_id));
        assert(all.skip(0) =~= all);
        while self.pending.len() > 0
            invariant
                0 <= done <= all.len(),
                self@ == (SymbolSyncModel { pending: all.skip(done), ..old(self)@ }),
                self.pending.deep_view() == all.skip(done),
                kept.deep_view() == newer(all.take(done), last_update_id),
            decreases self.pending.len(),
        {
            let ghost before = kept.deep_view();
            let ghost rest = self.pending.deep_view();
            let item = self.pending.remove(0);
            let ghost iv = item.deep_view();
            proof {
                assert(iv == rest[0]);
                assert(self.pending.deep_view() =~= rest.drop_first());
                assert(all.skip(done).drop_first() =~= all.skip(done + 1));
                assert(all.take(done + 1).drop_last() =~= all.take(done));
                assert(all.take(done + 1).last() == iv);
            }
            let keep = match &item.message {
                RawDepthMessage::Delta { sequence, .. } => match *sequence {
                    Some(value) => value > last_update_id,
                    None => true,
                },
                RawDepthMessage::Snapshot { .. } => false,
            };
            if keep {
                kept.push(item);
                assert(kept.deep_view() =~= before.push(iv));
            }
            proof {
                done = done + 1;
            }
        }
        assert(all.take(done) =~= all);
        self.pending = kept;
    }

    fn find_snapshot_bridge(&self, last_update_id: u64) -> (r: Option<usize>)
        requires
            last_update_id < u64::MAX || self@.pending.len() == 0,
        ensures
            match r {
                Some(at) => bridge(self@.pending, last_update_id) == Some(at as int) && at
                    < self@.pending.len(),
                None => bridge(self@.pending, last_update_id) is None,
            },
    {
        let ghost all = self@.pending;
        let mut i: usize = 0;
        while i < self.pending.len()
            invariant
                i <= self.pending.len(),
                all == self@.pending,
                last_update_id < u64::MAX || all.len() == 0,
                forall|j: int|
                    0 <= j < i ==> !reaches_across((#[trigger] all[j]).message, last_update_id),
            decreases self.pending.len() - i,
        {
            assert(all[i as int] == self.pending[i as int].deep_view());
            let found = match &self.pending[i].message {
                RawDepthMessage::Delta { first_sequence, sequence, .. } => {
                    let first: u64 = match *first_sequence {
                        Some(first) => first,
                        None => u64::MAX,
                    };
                    let current: u64 = match *sequence {
                        Some(current) => current,
                        None => 0,
                    };
                    first <= last_update_id + 1 && current >= last_update_id + 1
                },
                RawDepthMessage::Snapshot { .. } => false,
            };
            if found {
                proof {
                    lemma_bridge(all, last_update_id, i as int);
                }
                return Some(i);
            }
            i += 1;
        }
        proof {
            lemma_no_bridge(all, last_update_id);
        }
        None
    }

    /// Marks the symbol synchronised and gives the messages from `index` on.
    fn mark_ready_and_drain_from(&mut self, index: usize) -> (r: Vec<PendingDepthMessage>)
        requires
            index <= old(self)@.pending.len(),
        ensures
            r.deep_view() == old(self)@.pending.skip(index as int),
            final(self)@ == (SymbolSyncModel {
                ready: true,
                last_sequence: sequence_after(
                    old(self)@.last_sequence,
                    old(self)@.pending.skip(index as int),
                ),
                pending: Seq::empty(),
                ..old(self)@
            }),
    {
        let ghost all = self@.pending;
        self.ready = true;
        let mut drained: Vec<PendingDepthMessage> = Vec::new();
        std::mem::swap(&mut drained, &mut self.pending);
        assert(drained.deep_view() == all);
        assert(self.pending.deep_view() =~= Seq::empty());
        let sent = drained.split_off(index);
        assert(sent.deep_view() =~= all.skip(index as int));
        self.record_sequences(&sent);
        sent
    }

    fn record_sequences(&mut self, messages: &Vec<PendingDepthMessage>)
        ensures
            final(self)@ == (SymbolSyncModel {
                last_sequence: sequence_after(old(self)@.last_sequence, messages.deep_view()),
                ..old(self)@
            }),
    {
        let ghost all = messages.deep_view();
        let mut i: usize = 0;
        assert(all.take(0) =~= Seq::empty());
        while i < messages.len()
            invariant
                i <= messages.len(),
                all == messages.deep_view(),
                self@ == (SymbolSyncModel {
                    last_sequence: sequence_after(old(self)@.last_sequence, all.take(i as int)),
                    ..old(self)@
                }),
            decreases messages.len() - i,
        {
            assert(all.take(i + 1).drop_last() =~= all.take(i as int));
            assert(all.take(i + 1).last() == messages[i as int].deep_view());
            if let RawDepthMessage::Delta { sequence, .. } = &messages[i].message {
                if sequence.is_some() {
                    self.last_sequence = *sequence;
                }
            }
            i += 1;
        }
        assert(all.take(all.len() as int) =~= all);
    }

    /// Gives all messages of a synchronised symbol.
    fn drain_ready(&mut self) -> (r: Vec<PendingDepthMessage>)
        requires
            old(self)@.ready,
        ensures
            r.deep_view() == old(self)@.pending,
            final(self)@ == (SymbolSyncModel {
                last_sequence: sequence_after(old(self)@.last_sequence, old(self)@.pending),
                pending: Seq::empty(),
                ..old(self)@
            }),
    {
        assert(self@.pending.skip(0) =~= self@.pending);
        self.mark_ready_and_drain_from(0)
    }

    fn has_sequence_gap(&self) -> (r: bool)
        ensures
            r == has_break(self@.last_sequence, self@.pending),
    {
        let ghost all = self@.pending;
        let mut expected_previous: Option<u64> = self.last_sequence;
        let mut i: usize = 0;
        assert(all.take(0) =~= Seq::empty());
        while i < self.pending.len()
            invariant
                i <= self.pending.len(),
                all == self@.pending,
                expected_previous == sequence_after(self@.last_sequence, all.take(i as int)),
                forall|j: int|
                    0 <= j < i ==> !breaks_off(
                        sequence_after(self@.last_sequence, all.take(j)),
                        (#[trigger] all[j]).message,
                    ),
            decreases self.pending.len() - i,
        {
            assert(all[i as int] == self.pending[i as int].deep_view());
            assert(all.take(i + 1).drop_last() =~= all.take(i as int));
            assert(all.take(i + 1).last() == all[i as int]);
            if let RawDepthMessage::Delta { previous_sequence, sequence, .. } =
                &self.pending[i].message {
                if let (Some(expected), Some(previous)) = (expected_previous, *previous_sequence) {
                    if previous != expected {
                        assert(breaks_off(
                            sequence_after(self@.last_sequence, all.take(i as int)),
                            all[i as int].message,
                        ));
                        return true;
                    }
                }
                if sequence.is_some() {
                    expected_previous = *sequence;
                }
            }
            i += 1;
        }
        false
    }

    fn reset(&mut self)
        ensures
            final(self)@ == SymbolSyncModel::fresh(),
    {
        self.ready = false;
        self.last_sequence = None;
        self.snapshot = None;
        self.pending.clear();
        assert(self@.pending =~= Seq::empty());
    }
}

/// A level of a snapshot, if both its texts are numbers.
pub open spec fn level_of(
    rd: spec_fn(Seq<char>) -> Option<Binary64>,
    level: (Seq<char>, Seq<char>),
) -> Option<PriceLevel> {
    match (rd(level.0), rd(level.1)) {
        (Some(price), Some(qty)) => Some(PriceLevel { price, qty }),
        _ => None,
    }
}

/// The levels of a snapshot whose texts are numbers.
pub open spec fn levels_of(
    rd: spec_fn(Seq<char>) -> Option<Binary64>,
    levels: Seq<(Seq<char>, Seq<char>)>,
) -> Seq<PriceLevel>
    decreases levels.len(),
{
    if levels.len() == 0 {
        Seq::empty()
    } else {
        let before = levels_of(rd, levels.drop_last());
        match level_of(rd, levels.last()) {
            Some(level) => before.push(level),
            None => before,
        }
    }
}

/// The message of a snapshot.
pub open spec fn snapshot_message(
    rd: spec_fn(Seq<char>) -> Option<Binary64>,
    symbol: Seq<char>,
    snapshot: BinanceSnapshotModel,
) -> DepthModel {
    DepthModel::Snapshot {
        market: MarketKeyModel { exchange: Exchange::BinanceUsdM, symbol },
        sequence: Some(snapshot.last_update_id),
        bids: levels_of(rd, snapshot.bids),
        asks: levels_of(rd, snapshot.asks),
    }
}

fn parse_snapshot_level<P: Fn(&str) -> Option<Binary64>>(
    level: &(String, String),
    parse: &P,
) -> (r: Option<PriceLevel>)
    requires
        parses_all(*parse),
    ensures
        forall|rd: spec_fn(Seq<char>) -> Option<Binary64>| #[trigger]
            reads(*parse, rd) ==> r == level_of(rd, level.deep_view()),
{
    let price = match parse(level.0.as_str()) {
        Some(price) => price,
        None => return None,
    };
    match parse(level.1.as_str()) {
        Some(qty) => Some(PriceLevel { price, qty }),
        None => None,
    }
}

fn parse_snapshot_levels<P: Fn(&str) -> Option<Binary64>>(
    levels: &Vec<(String, String)>,
    parse: &P,
) -> (r: Vec<PriceLevel>)
    requires
        parses_all(*parse),
    ensures
        forall|rd: spec_fn(Seq<char>) -> Option<Binary64>| #[trigger]
            reads(*parse, rd) ==> r@ == levels_of(rd, levels.deep_view()),
{
    let ghost all = levels.deep_view();
    let mut out: Vec<PriceLevel> = Vec::new();
    let mut i: usize = 0;
    while i < levels.len()
        invariant
            parses_all(*parse),
            i <= levels.len(),
            all == levels.deep_view(),
            forall|rd: spec_fn(Seq<char>) -> Option<Binary64>| #[trigger]
                reads(*parse, rd) ==> out@ == levels_of(rd, all.take(i as int)),
        decreases levels.len() - i,
    {
        assert(all.take(i + 1).drop_last() =~= all.take(i as int));
        assert(all.take(i + 1).last() == levels[i as int].deep_view());
        let level = parse_snapshot_level(&levels[i], parse);
        if let Some(level) = level {
            out.push(level);
        }
        i += 1;
    }
    assert(all.take(all.len() as int) =~= all);
    out
}

/// What is to be done after a step of synchronising.
#[derive(Debug)]
pub enum SyncStep {
    /// Nothing.
    Wait,
    /// Fetch a snapshot of the symbol and hand it in.
    FetchSnapshot { symbol: String },
    /// Pass the messages on.
    Send { messages: Vec<PendingDepthMessage> },
}

/// What a [`SyncStep`] holds.
#[verifier::ext_equal]
pub enum SyncStepModel {
    Wait,
    FetchSnapshot { symbol: Seq<char> },
    Send { messages: Seq<PendingDepthModel> },
}

impl SyncStepModel {
    /// The messages to be passed on.
    pub open spec fn passed(self) -> Seq<PendingDepthModel> {
        match self {
            SyncStepModel::Send { messages } => messages,
            _ => Seq::empty(),
        }
    }
}

impl View for SyncStep {
    type V = SyncStepModel;

    open spec fn view(&self) -> SyncStepModel {
        match self {
            SyncStep::Wait => SyncStepModel::Wait,
            SyncStep::FetchSnapshot { symbol } => SyncStepModel::FetchSnapshot { symbol: symbol@ },
            SyncStep::Send { messages } => SyncStepModel::Send { messages: messages.deep_view() },
        }
    }
}

/// A state of synchronising a symbol and what is to be done.
#[verifier::ext_equal]
pub struct SyncTurn {
    pub state: SymbolSyncModel,
    pub step: SyncStepModel,
}

impl SymbolSyncModel {
    /// Synchronising with a snapshot: what it holds already is dropped; where a change reaches across
    /// it, the snapshot and the changes from that one on are passed on, and otherwise the snapshot
    /// waits. A snapshot that is passed on carries the time `now`, a change the time at which it was
    /// received.
    pub open spec fn bridged(
        self,
        rd: spec_fn(Seq<char>) -> Option<Binary64>,
        symbol: Seq<char>,
        snapshot: BinanceSnapshotModel,
        now: std::time::Instant,
    ) -> SyncTurn {
        let pending = newer(self.pending, snapshot.last_update_id);
        match bridge(pending, snapshot.last_update_id) {
            None => SyncTurn {
                state: SymbolSyncModel { snapshot: Some(snapshot), pending, ..self },
                step: SyncStepModel::Wait,
            },
            Some(at) => SyncTurn {
                state: SymbolSyncModel {
                    ready: true,
                    last_sequence: sequence_after(self.last_sequence, pending.skip(at)),
                    snapshot: None,
                    pending: Seq::empty(),
                },
                step: SyncStepModel::Send {
                    messages: seq![
                        PendingDepthModel {
                            message: snapshot_message(rd, symbol, snapshot),
                            received_at: now,
                        },
                    ] + pending.skip(at),
                },
            },
        }
    }

    /// Synchronising a symbol that is not: with the snapshot that waits, or one that is fetched.
    pub open spec fn initialized(
        self,
        rd: spec_fn(Seq<char>) -> Option<Binary64>,
        symbol: Seq<char>,
        now: std::time::Instant,
    ) -> SyncTurn {
        match self.snapshot {
            None => SyncTurn { state: self, step: SyncStepModel::FetchSnapshot { symbol } },
            Some(snapshot) => self.bridged(rd, symbol, snapshot, now),
        }
    }

    /// What a message leads to: a symbol that is synchronised passes it on, unless it names another
    /// predecessor than the last sequence number, whereupon all is begun anew.
    pub open spec fn received(
        self,
        rd: spec_fn(Seq<char>) -> Option<Binary64>,
        symbol: Seq<char>,
        message: PendingDepthModel,
        now: std::time::Instant,
    ) -> SyncTurn {
        let state = self.buffered(message);
        if !self.ready {
            state.initialized(rd, symbol, now)
        } else if has_break(state.last_sequence, state.pending) {
            SymbolSyncModel::fresh().initialized(rd, symbol, now)
        } else {
            SyncTurn {
                state: SymbolSyncModel {
                    last_sequence: sequence_after(state.last_sequence, state.pending),
                    pending: Seq::empty(),
                    ..state
                },
                step: SyncStepModel::Send { messages: state.pending },
            }
        }
    }
}

impl SymbolSyncState {
    fn bridge_snapshot<P: Fn(&str) -> Option<Binary64>>(
        &mut self,
        symbol: &String,
        snapshot: BinanceSnapshot,
        parse: &P,
    ) -> (r: SyncStep)
        requires
            parses_all(*parse),
            old(self)@.can_bridge(snapshot.last_update_id),
        ensures
            forall|rd: spec_fn(Seq<char>) -> Option<Binary64>| #[trigger]
                reads(*parse, rd) ==> (SyncTurn { state: final(self)@, step: r@ }) == old(
                    self,
                )@.bridged(rd, symbol@, snapshot@, r@.passed()[0].received_at),
    {
        let last_update_id: u64 = snapshot.last_update_id;
        self.discard_stale(last_update_id);
        let found = self.find_snapshot_bridge(last_update_id);
        let index: usize = match found {
            Some(index) => index,
            None => {
                self.snapshot = Some(snapshot);
                return SyncStep::Wait;
            },
        };
        self.snapshot = None;
        let bids = parse_snapshot_levels(&snapshot.bids, parse);
        let asks = parse_snapshot_levels(&snapshot.asks, parse);
        let message = RawDepthMessage::Snapshot {
            market: MarketKey::new(Exchange::BinanceUsdM, symbol.clone()),
            sequence: Some(last_update_id),
            bids,
            asks,
        };
        let now = std::time::Instant::now();
        let ghost first = PendingDepthModel { message: message@, received_at: now };
        let mut messages: Vec<PendingDepthMessage> = Vec::new();
        messages.push(PendingDepthMessage { message, received_at: now });
        assert(messages.deep_view() =~= seq![first]);
        let mut rest = self.mark_ready_and_drain_from(index);
        let ghost tail = rest.deep_view();
        messages.append(&mut rest);
        assert(messages.deep_view() =~= seq![first] + tail);
        SyncStep::Send { messages }
    }

    fn initialize<P: Fn(&str) -> Option<Binary64>>(&mut self, symbol: &String, parse: &P) -> (r:
        SyncStep)
        requires
            parses_all(*parse),
            old(self)@.snapshot matches Some(snapshot) ==> old(self)@.can_bridge(
                snapshot.last_update_id,
            ),
        ensures
            forall|rd: spec_fn(Seq<char>) -> Option<Binary64>| #[trigger]
                reads(*parse, rd) ==> (SyncTurn { state: final(self)@, step: r@ }) == old(
                    self,
                )@.initialized(rd, symbol@, r@.passed()[0].received_at),
    {
        let mut held: Option<BinanceSnapshot> = None;
        std::mem::swap(&mut held, &mut self.snapshot);
        match held {
            None => SyncStep::FetchSnapshot { symbol: symbol.clone() },
            Some(snapshot) => {
                proof {
                    assert(self@ == (SymbolSyncModel { snapshot: None, ..old(self)@ }));
                    assert(snapshot@ == old(self)@.snapshot->0);
                }
                self.bridge_snapshot(symbol, snapshot, parse)
            },
        }
    }

    fn receive<P: Fn(&str) -> Option<Binary64>>(
        &mut self,
        symbol: &String,
        message: RawDepthMessage,
        received_at: std::time::Instant,
        parse: &P,
    ) -> (r: SyncStep)
        requires
            parses_all(*parse),
            old(self)@.can_receive(message@),
        ensures
            forall|rd: spec_fn(Seq<char>) -> Option<Binary64>| #[trigger]
                reads(*parse, rd) ==> (SyncTurn { state: final(self)@, step: r@ }) == old(
                    self,
                )@.received(
                    rd,
                    symbol@,
                    PendingDepthModel { message: message@, received_at },
                    r@.passed()[0].received_at,
                ),
    {
        let ghost last = PendingDepthModel { message: message@, received_at };
        assert(self@.pending.push(last).drop_last() =~= self@.pending);
        self.buffer(message, received_at);
        if !self.ready {
            return self.initialize(symbol, parse);
        }
        if self.has_sequence_gap() {
            self.reset();
            return self.initialize(symbol, parse);
        }
        SyncStep::Send { messages: self.drain_ready() }
    }
}

impl SymbolSyncModel {
    /// Whether a message can be taken: the number after the snapshot's is representable wherever it
    /// is needed.
    pub open spec fn can_receive(self, message: DepthModel) -> bool {
        !self.ready && self.snapshot is Some ==> {
            let id = self.snapshot->0.last_update_id;
            self.can_bridge(id) && (id < u64::MAX || !is_newer(message, id))
        }
    }
}

/// What a [`DepthSynchronizer`] holds.
#[verifier::ext_equal]
pub struct DepthSyncModel {
    pub runtime: MarketWsRuntimeModel,
    pub states: Seq<SymbolSyncModel>,
}

impl DepthSyncModel {
    /// Whether every subscribed symbol has a state.
    pub open spec fn ok(self) -> bool {
        self.states.len() == self.runtime.subscribed_symbols.len()
    }

    /// The place of a symbol's state.
    pub open spec fn place(self, symbol: Seq<char>) -> Option<int> {
        first_place(self.runtime.subscribed_symbols, symbol)
    }

    /// The synchroniser with the state of one symbol replaced.
    pub open spec fn with_state(self, at: int, state: SymbolSyncModel) -> DepthSyncModel {
        DepthSyncModel { states: self.states.update(at, state), ..self }
    }
}

/// The symbols of a connection and how far each is synchronised.
#[derive(Debug)]
pub struct DepthSynchronizer {
    runtime: MarketWsRuntime,
    states: Vec<SymbolSyncState>,
}

impl View for DepthSynchronizer {
    type V = DepthSyncModel;

    closed spec fn view(&self) -> DepthSyncModel {
        DepthSyncModel { runtime: self.runtime@, states: self.states.deep_view() }
    }
}

impl DepthSynchronizer {
    /// Whether every subscribed symbol has a state; it is so for every synchroniser.
    pub open spec fn wf(&self) -> bool {
        self@.ok()
    }

    pub fn new(runtime: &MarketWsRuntime) -> (r: Self)
        ensures
            r.wf(),
            r@.runtime == runtime@,
            forall|i: int|
                0 <= i < r@.states.len() ==> #[trigger] r@.states[i] == SymbolSyncModel::fresh(),
    {
        let mut states: Vec<SymbolSyncState> = Vec::new();
        while states.len() < runtime.subscribed_symbols.len()
            invariant
                states.len() <= runtime.subscribed_symbols.len(),
                forall|i: int|
                    0 <= i < states.len() ==> #[trigger] states.deep_view()[i]
                        == SymbolSyncModel::fresh(),
            decreases runtime.subscribed_symbols.len() - states.len(),
        {
            let ghost before = states.deep_view();
            states.push(SymbolSyncState::new());
            assert(states.deep_view() =~= before.push(SymbolSyncModel::fresh()));
        }
        DepthSynchronizer { runtime: runtime.clone(), states }
    }

    /// The connection whose depth is synchronised.
    pub fn runtime(&self) -> (r: &MarketWsRuntime)
        ensures
            r@ == self@.runtime,
    {
        &self.runtime
    }

    /// Whether a message can be taken.
    pub fn can_receive(&self, message: &RawDepthMessage) -> (r: bool)
        requires
            self.wf(),
        ensures
            r == (match self@.place(message@.market().symbol) {
                Some(at) => self@.states[at].can_receive(message@),
                None => true,
            }),
    {
        let found = find_text(&self.runtime.subscribed_symbols, &message.market().symbol);
        let at: usize = match found {
            Some(at) => at,
            None => return true,
        };
        assert(self@.states[at as int] == self.states[at as int]@);
        let state = &self.states[at];
        if state.ready {
            return true;
        }
        match &state.snapshot {
            Some(snapshot) => {
                if snapshot.last_update_id < u64::MAX {
                    return true;
                }
                let ghost id = snapshot.last_update_id;
                let open = state.no_open_change();
                let last_open = is_open_change(message);
                proof {
                    lemma_open_changes(state@.pending, id);
                }
                open && !last_open
            },
            None => true,
        }
    }

    /// Whether a snapshot of a symbol can be taken.
    pub fn can_take_snapshot(&self, symbol: &String, snapshot: &BinanceSnapshot) -> (r: bool)
        requires
            self.wf(),
        ensures
            r == (match self@.place(symbol@) {
                Some(at) => self@.states[at].can_bridge(snapshot.last_update_id),
                None => true,
            }),
    {
        let found = find_text(&self.runtime.subscribed_symbols, symbol);
        let at: usize = match found {
            Some(at) => at,
            None => return true,
        };
        assert(self@.states[at as int] == self.states[at as int]@);
        if snapshot.last_update_id < u64::MAX {
            return true;
        }
        proof {
            lemma_open_changes(self.states[at as int]@.pending, snapshot.last_update_id);
        }
        self.states[at].no_open_change()
    }

    /// Takes the message of a payload and says what is to be done. Messages of other symbols are
    /// ignored. A change is passed on with the time at which it was received; nothing is said of the
    /// time that a snapshot carries, for it rests on the clock.
    pub fn handle_payload<P: Fn(&str) -> Option<Binary64>>(
        &mut self,
        message: RawDepthMessage,
        received_at: std::time::Instant,
        parse: &P,
    ) -> (r: SyncStep)
        requires
            old(self).wf(),
            parses_all(*parse),
            old(self)@.place(message@.market().symbol) matches Some(at) ==> old(
                self,
            )@.states[at].can_receive(message@),
        ensures
            final(self).wf(),
            match old(self)@.place(message@.market().symbol) {
                None => final(self)@ == old(self)@ && r@ == SyncStepModel::Wait,
                Some(at) => forall|rd: spec_fn(Seq<char>) -> Option<Binary64>| #[trigger]
                    reads(*parse, rd) ==> {
                        let turn = old(self)@.states[at].received(
                            rd,
                            message@.market().symbol,
                            PendingDepthModel { message: message@, received_at },
                            r@.passed()[0].received_at,
                        );
                        &&& final(self)@ == old(self)@.with_state(at, turn.state)
                        &&& r@ == turn.step
                    },
            },
    {
        let symbol = message.market().symbol.clone();
        let found = find_text(&self.runtime.subscribed_symbols, &symbol);
        let at: usize = match found {
            Some(at) => at,
            None => return SyncStep::Wait,
        };
        let ghost before = self@;
        assert(before.states[at as int] == self.states[at as int]@);
        let state = &mut self.states[at];
        let step = state.receive(&symbol, message, received_at, parse);
        assert(self@.states =~= before.states.update(at as int, self.states[at as int]@));
        step
    }

    /// Takes a fetched snapshot and says what is to be done; an error where the symbol is none of the
    /// connection's. Nothing is said of the time that the snapshot carries, for it rests on the clock.
    pub fn initialize_symbol<P: Fn(&str) -> Option<Binary64>>(
        &mut self,
        symbol: &String,
        snapshot: BinanceSnapshot,
        parse: &P,
    ) -> (r: Result<SyncStep, String>)
        requires
            old(self).wf(),
            parses_all(*parse),
            old(self)@.place(symbol@) matches Some(at) ==> old(self)@.states[at].can_bridge(
                snapshot.last_update_id,
            ),
        ensures
            final(self).wf(),
            match old(self)@.place(symbol@) {
                None => {
                    &&& final(self)@ == old(self)@
                    &&& r matches Err(why)
                    &&& why@ == "missing sync state for "@ + symbol@
                },
                Some(at) => r matches Ok(step) && forall|
                    rd: spec_fn(Seq<char>) -> Option<Binary64>,
                | #[trigger]
                    reads(*parse, rd) ==> {
                        let turn = old(self)@.states[at].bridged(
                            rd,
                            symbol@,
                            snapshot@,
                            step@.passed()[0].received_at,
                        );
                        &&& final(self)@ == old(self)@.with_state(at, turn.state)
                        &&& step@ == turn.step
                    },
            },
    {
        let found = find_text(&self.runtime.subscribed_symbols, symbol);
        let at: usize = match found {
            Some(at) => at,
            None => {
                let mut why = "missing sync state for ".to_owned();
                why.append(symbol.as_str());
                return Err(why);
            },
        };
        let ghost before = self@;
        assert(before.states[at as int] == self.states[at as int]@);
        let state = &mut self.states[at];
        let step = state.bridge_snapshot(symbol, snapshot, parse);
        assert(self@.states =~= before.states.update(at as int, self.states[at as int]@));
        Ok(step)
    }
}

/// Whether a message is a change without a sequence number.
spec fn open_change(message: DepthModel) -> bool {
    message matches DepthModel::Delta { sequence: None, .. }
}

fn is_open_change(message: &RawDepthMessage) -> (r: bool)
    ensures
        r == open_change(message@),
{
    match message {
        RawDepthMessage::Delta { sequence, .. } => sequence.is_none(),
        RawDepthMessage::Snapshot { .. } => false,
    }
}

/// Of messages behind the last number, exactly the changes without a number are newer.
proof fn lemma_open_changes(pending: Seq<PendingDepthModel>, id: u64)
    requires
        id == u64::MAX,
    ensures
        newer(pending, id).len() == 0 <==> forall|i: int|
            0 <= i < pending.len() ==> !open_change((#[trigger] pending[i]).message),
    decreases pending.len(),
{
    if pending.len() > 0 {
        let front = pending.drop_last();
        lemma_open_changes(front, id);
        assert(pending[pending.len() - 1] == pending.last());
        if newer(pending, id).len() == 0 {
            assert forall|i: int| 0 <= i < pending.len() implies !open_change(
                (#[trigger] pending[i]).message,
            ) by {
                if i < front.len() {
                    assert(front[i] == pending[i]);
                }
            }
        } else if forall|i: int|
            0 <= i < pending.len() ==> !open_change((#[trigger] pending[i]).message) {
            assert forall|i: int| 0 <= i < front.len() implies !open_change(
                (#[trigger] front[i]).message,
            ) by {
                assert(front[i] == pending[i]);
            }
            assert(!open_change(pending[pending.len() - 1].message));
        }
    }
}

impl SymbolSyncState {
    fn no_open_change(&self) -> (r: bool)
        ensures
            r == forall|i: int|
                0 <= i < self@.pending.len() ==> !open_change((#[trigger] self@.pending[i]).message),
    {
        let ghost all = self@.pending;
        let mut i: usize = 0;
        while i < self.pending.len()
            invariant
                i <= self.pending.len(),
                all == self@.pending,
                forall|j: int| 0 <= j < i ==> !open_change((#[trigger] all[j]).message),
            decreases self.pending.len() - i,
        {
            assert(all[i as int] == self.pending[i as int].deep_view());
            if is_open_change(&self.pending[i].message) {
                return false;
            }
            i += 1;
        }
        true
    }
}

/// The texts of levels.
pub open spec fn level_texts(
    show: spec_fn(Binary64) -> Seq<char>,
    levels: Seq<PriceLevel>,
) -> Seq<(Seq<char>, Seq<char>)> {
    levels.map_values(|level: PriceLevel| (show(level.price), show(level.qty)))
}

/// The members of a JSON object.
#[verifier::ext_equal]
pub struct JsonMembers {
    pub texts: Seq<(Seq<char>, Seq<char>)>,
    pub numbers: Seq<(Seq<char>, Option<u64>)>,
    pub lists: Seq<(Seq<char>, Seq<(Seq<char>, Seq<char>)>)>,
}

/// A message in the venue's own form.
pub open spec fn members_of(
    show: spec_fn(Binary64) -> Seq<char>,
    message: DepthModel,
) -> JsonMembers {
    match message {
        DepthModel::Snapshot { market, sequence, bids, asks } => JsonMembers {
            texts: seq![("s"@, market.symbol)],
            numbers: seq![("lastUpdateId"@, sequence)],
            lists: seq![("bids"@, level_texts(show, bids)), ("asks"@, level_texts(show, asks))],
        },
        DepthModel::Delta {
            market,
            first_sequence,
            previous_sequence,
            sequence,
            bids,
            asks,
        } => JsonMembers {
            texts: seq![("e"@, "depthUpdate"@), ("s"@, market.symbol)],
            numbers: seq![("U"@, first_sequence), ("u"@, sequence), ("pu"@, previous_sequence)],
            lists: seq![("b"@, level_texts(show, bids)), ("a"@, level_texts(show, asks))],
        },
    }
}

/// The bytes of a message in the venue's own form.
pub open spec fn encoded(show: spec_fn(Binary64) -> Seq<char>, message: DepthModel) -> Seq<u8> {
    let members = members_of(show, message);
    json_object_bytes(members.texts, members.numbers, members.lists)
}

fn serialize_levels<S: Fn(Binary64) -> String>(levels: &Vec<PriceLevel>, show: &S) -> (r: Vec<
    (String, String),
>)
    requires
        shows_all(*show),
    ensures
        forall|sh: spec_fn(Binary64) -> Seq<char>| #[trigger]
            renders(*show, sh) ==> r.deep_view() == level_texts(sh, levels@),
{
    let mut out: Vec<(String, String)> = Vec::new();
    let mut i: usize = 0;
    while i < levels.len()
        invariant
            shows_all(*show),
            i <= levels.len(),
            out.len() == i,
            forall|sh: spec_fn(Binary64) -> Seq<char>| #[trigger]
                renders(*show, sh) ==> forall|j: int|
                    0 <= j < i ==> (#[trigger] out.deep_view()[j]) == (
                        sh(levels@[j].price),
                        sh(levels@[j].qty),
                    ),
        decreases levels.len() - i,
    {
        let ghost before = out.deep_view();
        let price = show(levels[i].price);
        let qty = show(levels[i].qty);
        let ghost pair = (price@, qty@);
        out.push((price, qty));
        assert(out.deep_view() =~= before.push(pair));
        i += 1;
    }
    assert forall|sh: spec_fn(Binary64) -> Seq<char>| #[trigger]
        renders(*show, sh) implies out.deep_view() == level_texts(sh, levels@) by {
        assert(out.deep_view() =~= level_texts(sh, levels@));
    }
    out
}

fn text_member(name: &str, text: &str) -> (r: (String, String))
    ensures
        r.deep_view() == (name@, text@),
{
    (name.to_owned(), text.to_owned())
}

fn number_member(name: &str, number: Option<u64>) -> (r: (String, Option<u64>))
    ensures
        r.deep_view() == (name@, number),
{
    assert(number.deep_view() == number);
    (name.to_owned(), number)
}

fn list_member(name: &str, list: Vec<(String, String)>) -> (r: (String, Vec<(String, String)>))
    ensures
        r.deep_view() == (name@, list.deep_view()),
{
    (name.to_owned(), list)
}

/// The bytes of a message in the venue's own form; there always are some.
pub fn encode_depth_message<S: Fn(Binary64) -> String>(message: &RawDepthMessage, show: &S) -> (r:
    Result<Vec<u8>, String>)
    requires
        shows_all(*show),
    ensures
        r is Ok,
        forall|sh: spec_fn(Binary64) -> Seq<char>| #[trigger]
            renders(*show, sh) ==> r->Ok_0@ == encoded(sh, message@),
{
    let mut texts: Vec<(String, String)> = Vec::new();
    let mut numbers: Vec<(String, Option<u64>)> = Vec::new();
    let mut lists: Vec<(String, Vec<(String, String)>)> = Vec::new();
    match message {
        RawDepthMessage::Snapshot { market, sequence, bids, asks } => {
            let bid_texts = serialize_levels(bids, show);
            let ask_texts = serialize_levels(asks, show);
            let ghost b = bid_texts.deep_view();
            let ghost a = ask_texts.deep_view();
            texts.push(text_member("s", market.symbol.as_str()));
            numbers.push(number_member("lastUpdateId", *sequence));
            lists.push(list_member("bids", bid_texts));
            lists.push(list_member("asks", ask_texts));
            assert(texts.deep_view() =~= seq![("s"@, market@.symbol)]);
            assert(numbers.deep_view() =~= seq![("lastUpdateId"@, *sequence)]);
            assert(lists.deep_view() =~= seq![("bids"@, b), ("asks"@, a)]);
        },
        RawDepthMessage::Delta {
            market,
            first_sequence,
            previous_sequence,
            sequence,
            bids,
            asks,
        } => {
            let bid_texts = serialize_levels(bids, show);
            let ask_texts = serialize_levels(asks, show);
            let ghost b = bid_texts.deep_view();
            let ghost a = ask_texts.deep_view();
            texts.push(text_member("e", "depthUpdate"));
            texts.push(text_member("s", market.symbol.as_str()));
            numbers.push(number_member("U", *first_sequence));
            numbers.push(number_member("u", *sequence));
            numbers.push(number_member("pu", *previous_sequence));
            lists.push(list_member("b", bid_texts));
            lists.push(list_member("a", ask_texts));
            assert(texts.deep_view() =~= seq![("e"@, "depthUpdate"@), ("s"@, market@.symbol)]);
            assert(numbers.deep_view() =~= seq![
                ("U"@, *first_sequence),
                ("u"@, *sequence),
                ("pu"@, *previous_sequence),
            ]);
            assert(lists.deep_view() =~= seq![("b"@, b), ("a"@, a)]);
        },
    }
    match to_json_bytes(texts, numbers, lists) {
        Ok(bytes) => Ok(bytes),
        Err(error) => {
            let mut why = "depth encode failed: ".to_owned();
            why.append(error.to_string().as_str());
            Err(why)
        },
    }
}

} // verus!
