//! Local order books.
//!
//! A book keeps bids in ascending and asks in descending order of price, so that the best price of
//! either side stands last.

use vstd::prelude::*;

use crate::clock::micros_since;
use crate::config::model::{DepthMode, MarketKey, MarketKeyModel};
use crate::num::{zero, Binary64};
use crate::order::{orders, sorting_sorts, stable_sort, stably_sorted};

pub mod codec;

verus! {

/// A price and the quantity on offer at it.
#[derive(Clone, Copy, Debug, PartialEq, Eq, Structural)]
pub struct PriceLevel {
    pub price: Binary64,
    pub qty: Binary64,
}

impl DeepView for PriceLevel {
    type V = PriceLevel;

    open spec fn deep_view(&self) -> PriceLevel {
        *self
    }
}

/// A depth message of a venue.
#[derive(Debug)]
pub enum RawDepthMessage {
    Snapshot {
        market: MarketKey,
        sequence: Option<u64>,
        bids: Vec<PriceLevel>,
        asks: Vec<PriceLevel>,
    },
    Delta {
        market: MarketKey,
        first_sequence: Option<u64>,
        previous_sequence: Option<u64>,
        sequence: Option<u64>,
        bids: Vec<PriceLevel>,
        asks: Vec<PriceLevel>,
    },
}

/// What a [`RawDepthMessage`] holds.
#[verifier::ext_equal]
pub enum DepthModel {
    Snapshot {
        market: MarketKeyModel,
        sequence: Option<u64>,
        bids: Seq<PriceLevel>,
        asks: Seq<PriceLevel>,
    },
    Delta {
        market: MarketKeyModel,
        first_sequence: Option<u64>,
        previous_sequence: Option<u64>,
        sequence: Option<u64>,
        bids: Seq<PriceLevel>,
        asks: Seq<PriceLevel>,
    },
}

impl View for RawDepthMessage {
    type V = DepthModel;

    open spec fn view(&self) -> DepthModel {
        match self {
            RawDepthMessage::Snapshot { market, sequence, bids, asks } => DepthModel::Snapshot {
                market: market@,
                sequence: *sequence,
                bids: bids@,
                asks: asks@,
            },
            RawDepthMessage::Delta {
                market,
                first_sequence,
                previous_sequence,
                sequence,
                bids,
                asks,
            } => DepthModel::Delta {
                market: market@,
                first_sequence: *first_sequence,
                previous_sequence: *previous_sequence,
                sequence: *sequence,
                bids: bids@,
                asks: asks@,
            },
        }
    }
}

impl DeepView for RawDepthMessage {
    type V = DepthModel;

    open spec fn deep_view(&self) -> DepthModel {
        self@
    }
}

impl Clone for RawDepthMessage {
    fn clone(&self) -> (r: Self)
        ensures
            r@ == self@,
    {
        match self {
            RawDepthMessage::Snapshot { market, sequence, bids, asks } => {
                let bids_copy = bids.clone();
                let asks_copy = asks.clone();
                assert(bids_copy@ =~= bids@);
                assert(asks_copy@ =~= asks@);
                RawDepthMessage::Snapshot {
                    market: market.clone(),
                    sequence: *sequence,
                    bids: bids_copy,
                    asks: asks_copy,
                }
            },
            RawDepthMessage::Delta {
                market,
                first_sequence,
                previous_sequence,
                sequence,
                bids,
                asks,
            } => {
                let bids_copy = bids.clone();
                let asks_copy = asks.clone();
                assert(bids_copy@ =~= bids@);
                assert(asks_copy@ =~= asks@);
                RawDepthMessage::Delta {
                    market: market.clone(),
                    first_sequence: *first_sequence,
                    previous_sequence: *previous_sequence,
                    sequence: *sequence,
                    bids: bids_copy,
                    asks: asks_copy,
                }
            },
        }
    }
}

impl DepthModel {
    pub open spec fn market(self) -> MarketKeyModel {
        match self {
            DepthModel::Snapshot { market, .. } => market,
            DepthModel::Delta { market, .. } => market,
        }
    }

    pub open spec fn bids(self) -> Seq<PriceLevel> {
        match self {
            DepthModel::Snapshot { bids, .. } => bids,
            DepthModel::Delta { bids, .. } => bids,
        }
    }

    pub open spec fn asks(self) -> Seq<PriceLevel> {
        match self {
            DepthModel::Snapshot { asks, .. } => asks,
            DepthModel::Delta { asks, .. } => asks,
        }
    }

    /// Whether every price of the message is a number, so that prices can be ordered.
    pub open spec fn orderable(self) -> bool {
        prices_are_numbers(self.bids()) && prices_are_numbers(self.asks())
    }
}

/// Whether every price is a number.
pub open spec fn prices_are_numbers(levels: Seq<PriceLevel>) -> bool {
    forall|i: int| 0 <= i < levels.len() ==> !(#[trigger] levels[i]).price.nan()
}

/// What became of a message.
#[derive(Clone, Copy, Debug, PartialEq, Eq, Structural)]
pub enum BookApplyResult {
    Applied,
    IgnoredStale,
    WaitingForSnapshot,
    GapDetected,
}

/// How long the steps of decoding took.
#[derive(Clone, Copy, Debug)]
pub struct DepthDecodeTiming {
    pub deserialize_us: u128,
    pub normalize_us: u128,
}

impl Default for DepthDecodeTiming {
    fn default() -> (r: Self)
        ensures
            r.deserialize_us == 0,
            r.normalize_us == 0,
    {
        DepthDecodeTiming { deserialize_us: 0, normalize_us: 0 }
    }
}

/// A decoded message with the time that decoding took.
#[derive(Debug)]
pub struct DecodedDepthMessage {
    pub message: RawDepthMessage,
    pub timing: DepthDecodeTiming,
}

/// How long the steps of applying a message took.
#[derive(Clone, Copy, Debug)]
pub struct BookApplyTiming {
    pub total_us: u128,
    pub validation_us: u128,
    pub sort_bids_us: u128,
    pub sort_asks_us: u128,
    pub merge_bids_us: u128,
    pub merge_asks_us: u128,
}

impl Default for BookApplyTiming {
    fn default() -> (r: Self)
        ensures
            r == (BookApplyTiming {
                total_us: 0,
                validation_us: 0,
                sort_bids_us: 0,
                sort_asks_us: 0,
                merge_bids_us: 0,
                merge_asks_us: 0,
            }),
    {
        BookApplyTiming {
            total_us: 0,
            validation_us: 0,
            sort_bids_us: 0,
            sort_asks_us: 0,
            merge_bids_us: 0,
            merge_asks_us: 0,
        }
    }
}

/// What became of a message, with the time that it took.
#[derive(Clone, Copy, Debug)]
pub struct TimedBookApplyResult {
    pub result: BookApplyResult,
    pub timing: BookApplyTiming,
}

impl RawDepthMessage {
    pub fn market(&self) -> (r: &MarketKey)
        ensures
            r@ == self@.market(),
    {
        match self {
            RawDepthMessage::Snapshot { market, .. } => market,
            RawDepthMessage::Delta { market, .. } => market,
        }
    }

    /// The kind of the message in texts.
    pub fn kind(&self) -> (r: &'static str)
        ensures
            r@ == match self@ {
                DepthModel::Snapshot { .. } => "snapshot"@,
                DepthModel::Delta { .. } => "delta"@,
            },
    {
        match self {
            RawDepthMessage::Snapshot { .. } => "snapshot",
            RawDepthMessage::Delta { .. } => "delta",
        }
    }

    /// The numbers of bids and asks.
    pub fn level_counts(&self) -> (r: (usize, usize))
        ensures
            r.0 == self@.bids().len(),
            r.1 == self@.asks().len(),
    {
        match self {
            RawDepthMessage::Snapshot { bids, asks, .. } => (bids.len(), asks.len()),
            RawDepthMessage::Delta { bids, asks, .. } => (bids.len(), asks.len()),
        }
    }
}

/// The two orders in which the sides of a book are kept.
#[derive(Clone, Copy, Debug, PartialEq, Eq, Structural)]
pub enum PriceOrder {
    Ascending,
    Descending,
}

impl PriceOrder {
    /// Whether a level of price `a` stands before one of price `b`.
    pub open spec fn before(self, a: Binary64, b: Binary64) -> bool {
        match self {
            PriceOrder::Ascending => a.lt(b),
            PriceOrder::Descending => b.lt(a),
        }
    }

    /// Whether neither of two prices stands before the other: they are equal, or one is no number.
    pub open spec fn ties(self, a: Binary64, b: Binary64) -> bool {
        !self.before(a, b) && !self.before(b, a)
    }

    /// The order as an order of levels.
    pub open spec fn by_price(self) -> spec_fn(PriceLevel, PriceLevel) -> bool {
        |a: PriceLevel, b: PriceLevel| self.before(a.price, b.price)
    }

    fn comes_before(self, a: Binary64, b: Binary64) -> (r: bool)
        ensures
            r == self.before(a, b),
    {
        match self {
            PriceOrder::Ascending => a.less(b),
            PriceOrder::Descending => b.less(a),
        }
    }
}

/// Whether a side of a book holds numbers for prices and is in order.
pub open spec fn side_ok(side: Seq<PriceLevel>, order: PriceOrder) -> bool {
    &&& prices_are_numbers(side)
    &&& forall|i: int, j: int|
        0 <= i < j < side.len() ==> !order.before(
            (#[trigger] side[j]).price,
            (#[trigger] side[i]).price,
        )
}

/// Whether a side of a book holds no price twice.
pub open spec fn side_strict(side: Seq<PriceLevel>, order: PriceOrder) -> bool {
    forall|i: int, j: int|
        0 <= i < j < side.len() ==> order.before(
            (#[trigger] side[i]).price,
            (#[trigger] side[j]).price,
        )
}

/// How many levels of a side stand before `price`.
pub open spec fn rank_of(side: Seq<PriceLevel>, price: Binary64, order: PriceOrder) -> nat
    decreases side.len(),
{
    if side.len() > 0 && order.before(side[0].price, price) {
        1 + rank_of(side.drop_first(), price, order)
    } else {
        0
    }
}

/// Where bisecting the levels from `low` up to `high` for `price` comes to.
pub open spec fn bisected(
    side: Seq<PriceLevel>,
    price: Binary64,
    order: PriceOrder,
    low: int,
    high: int,
) -> int
    decreases high - low,
{
    if low >= high {
        low
    } else {
        let middle = low + (high - low) / 2;
        if order.before(side[middle].price, price) {
            bisected(side, price, order, middle + 1, high)
        } else {
            bisected(side, price, order, low, middle)
        }
    }
}

/// The place of a price in a side: behind the levels that stand before it. Where a price is no
/// number the side has no order, and the place is the one that bisecting comes to.
pub open spec fn place_of(side: Seq<PriceLevel>, price: Binary64, order: PriceOrder) -> int {
    if side_ok(side, order) && !price.nan() {
        rank_of(side, price, order) as int
    } else {
        bisected(side, price, order, 0, side.len() as int)
    }
}

/// A side after an update: quantity zero takes the price out, any other quantity replaces the one
/// at the price or adds the price.
pub open spec fn level_applied(
    side: Seq<PriceLevel>,
    update: PriceLevel,
    order: PriceOrder,
) -> Seq<PriceLevel> {
    let at = place_of(side, update.price, order);
    if at < side.len() && order.ties(side[at].price, update.price) {
        if update.qty.eq_num(zero()) {
            side.remove(at)
        } else {
            side.update(at, PriceLevel { price: side[at].price, qty: update.qty })
        }
    } else if update.qty.eq_num(zero()) {
        side
    } else {
        side.insert(at, update)
    }
}

/// A side after updates, one after the other.
pub open spec fn levels_applied(
    side: Seq<PriceLevel>,
    updates: Seq<PriceLevel>,
    order: PriceOrder,
) -> Seq<PriceLevel>
    decreases updates.len(),
{
    if updates.len() == 0 {
        side
    } else {
        level_applied(levels_applied(side, updates.drop_last(), order), updates.last(), order)
    }
}

/// What a [`LocalBookState`] holds.
#[verifier::ext_equal]
pub struct BookModel {
    pub market: MarketKeyModel,
    pub mode: DepthMode,
    pub has_snapshot: bool,
    pub last_sequence: Option<u64>,
    /// Bids in ascending order of price.
    pub bids: Seq<PriceLevel>,
    /// Asks in descending order of price.
    pub asks: Seq<PriceLevel>,
}

impl BookModel {
    /// Whether both sides are in order.
    pub open spec fn ok(self) -> bool {
        side_ok(self.bids, PriceOrder::Ascending) && side_ok(self.asks, PriceOrder::Descending)
    }

    /// The book of a market before any message.
    pub open spec fn fresh(market: MarketKeyModel, mode: DepthMode) -> BookModel {
        BookModel {
            market,
            mode,
            has_snapshot: false,
            last_sequence: None,
            bids: Seq::empty(),
            asks: Seq::empty(),
        }
    }

    /// The book, emptied to be built anew from a snapshot.
    pub open spec fn cleared(self) -> BookModel {
        BookModel {
            has_snapshot: false,
            last_sequence: None,
            bids: Seq::empty(),
            asks: Seq::empty(),
            ..self
        }
    }

    /// Whether a change must wait until a snapshot has come.
    pub open spec fn waits(self) -> bool {
        self.mode == DepthMode::SnapshotThenIncremental && !self.has_snapshot
    }

    /// Whether a change with this sequence number is no news.
    pub open spec fn is_stale(self, sequence: Option<u64>) -> bool {
        match (self.last_sequence, sequence) {
            (Some(last), Some(current)) => current <= last,
            _ => false,
        }
    }

    /// Whether changes are missing between the book and a change. A change that names its
    /// predecessor must follow the book's last one or reach across it; one that does not must not
    /// begin after the next sequence number.
    pub open spec fn has_gap(
        self,
        first_sequence: Option<u64>,
        previous_sequence: Option<u64>,
        sequence: Option<u64>,
    ) -> bool {
        match self.last_sequence {
            None => false,
            Some(last) => match previous_sequence {
                Some(previous) => {
                    let begins = first_sequence matches Some(first) && first <= last + 1;
                    let ends = sequence matches Some(current) && current >= last + 1;
                    previous != last && !(begins && ends)
                },
                None => first_sequence matches Some(first) && first > last + 1,
            },
        }
    }

    /// Whether the number after the last sequence number is representable wherever it is needed.
    pub open spec fn can_follow(self, message: DepthModel) -> bool {
        match message {
            DepthModel::Snapshot { .. } => true,
            DepthModel::Delta { first_sequence, sequence, .. } => self.waits() || !(
            self.last_sequence == Some(u64::MAX) && sequence is None && first_sequence is Some),
        }
    }

    /// The book after a message.
    pub open spec fn after(self, message: DepthModel) -> BookModel {
        match message {
            DepthModel::Snapshot { sequence, bids, asks, .. } => BookModel {
                has_snapshot: true,
                last_sequence: sequence,
                bids: stably_sorted(bids, PriceOrder::Ascending.by_price()),
                asks: stably_sorted(asks, PriceOrder::Descending.by_price()),
                ..self
            },
            DepthModel::Delta {
                first_sequence,
                previous_sequence,
                sequence,
                bids,
                asks,
                ..
            } => if self.waits() || self.is_stale(sequence) {
                self
            } else if self.has_gap(first_sequence, previous_sequence, sequence) {
                self.cleared()
            } else {
                BookModel {
                    has_snapshot: true,
                    last_sequence: if sequence is Some {
                        sequence
                    } else {
                        self.last_sequence
                    },
                    bids: levels_applied(self.bids, bids, PriceOrder::Ascending),
                    asks: levels_applied(self.asks, asks, PriceOrder::Descending),
                    ..self
                }
            },
        }
    }

    /// Whether a message leaves sides that are in order in order: it is refused, or every price of
    /// it is a number.
    pub open spec fn stays_in_order(self, message: DepthModel) -> bool {
        self.verdict(message) == BookApplyResult::Applied ==> message.orderable()
    }

    /// What becomes of a message.
    pub open spec fn verdict(self, message: DepthModel) -> BookApplyResult {
        match message {
            DepthModel::Snapshot { .. } => BookApplyResult::Applied,
            DepthModel::Delta {
                first_sequence,
                previous_sequence,
                sequence,
                ..
            } => if self.waits() {
                BookApplyResult::WaitingForSnapshot
            } else if self.is_stale(sequence) {
                BookApplyResult::IgnoredStale
            } else if self.has_gap(first_sequence, previous_sequence, sequence) {
                BookApplyResult::GapDetected
            } else {
                BookApplyResult::Applied
            },
        }
    }
}

/// The order book of one market.
#[derive(Debug)]
pub struct LocalBookState {
    pub market: MarketKey,
    pub mode: DepthMode,
    pub has_snapshot: bool,
    pub last_sequence: Option<u64>,
    bids_asc: Vec<PriceLevel>,
    asks_desc: Vec<PriceLevel>,
}

impl View for LocalBookState {
    type V = BookModel;

    closed spec fn view(&self) -> BookModel {
        BookModel {
            market: self.market@,
            mode: self.mode,
            has_snapshot: self.has_snapshot,
            last_sequence: self.last_sequence,
            bids: self.bids_asc@,
            asks: self.asks_desc@,
        }
    }
}

impl DeepView for LocalBookState {
    type V = BookModel;

    open spec fn deep_view(&self) -> BookModel {
        self@
    }
}

/// The rank of a price in a side that is in order: all levels below it stand before the price, the
/// others do not.
pub(crate) proof fn lemma_rank_splits(side: Seq<PriceLevel>, price: Binary64, order: PriceOrder)
    requires
        side_ok(side, order),
        !price.nan(),
    ensures
        rank_of(side, price, order) <= side.len(),
        forall|i: int|
            0 <= i < side.len() ==> (order.before((#[trigger] side[i]).price, price) <==> i
                < rank_of(side, price, order)),
    decreases side.len(),
{
    if side.len() > 0 {
        let rest = side.drop_first();
        assert(side_ok(rest, order)) by {
            assert forall|i: int| 0 <= i < rest.len() implies !(#[trigger] rest[i]).price.nan() by {
                assert(!side[i + 1].price.nan());
            }
            assert forall|i: int, j: int| 0 <= i < j < rest.len() implies !order.before(
                (#[trigger] rest[j]).price,
                (#[trigger] rest[i]).price,
            ) by {
                assert(rest[j] == side[j + 1] && rest[i] == side[i + 1]);
            }
        }
        lemma_rank_splits(rest, price, order);
        assert forall|i: int| 0 <= i < side.len() implies (order.before(
            (#[trigger] side[i]).price,
            price,
        ) <==> i < rank_of(side, price, order)) by {
            assert(!side[0].price.nan() && !side[i].price.nan());
            if i > 0 {
                assert(rest[i - 1] == side[i]);
                assert(!order.before(side[i].price, side[0].price));
            }
        }
    }
}

/// An update keeps a side in order, and free of double prices.
pub proof fn update_keeps_order(side: Seq<PriceLevel>, update: PriceLevel, order: PriceOrder)
    requires
        side_ok(side, order),
        !update.price.nan(),
    ensures
        side_ok(level_applied(side, update, order), order),
        side_strict(side, order) ==> side_strict(level_applied(side, update, order), order),
{
    let at = rank_of(side, update.price, order) as int;
    let r = level_applied(side, update, order);
    lemma_rank_splits(side, update.price, order);
    assert forall|i: int| 0 <= i < r.len() implies !(#[trigger] r[i]).price.nan() by {
        if i < side.len() {
            assert(!side[i].price.nan());
        }
        if i + 1 < side.len() {
            assert(!side[i + 1].price.nan());
        }
        if 0 < i <= side.len() {
            assert(!side[i - 1].price.nan());
        }
    }
    assert forall|i: int, j: int| 0 <= i < j < r.len() implies !order.before(
        (#[trigger] r[j]).price,
        (#[trigger] r[i]).price,
    ) && (side_strict(side, order) ==> order.before(r[i].price, r[j].price)) by {
        if at < side.len() && side[at].price.eq_num(update.price) {
            if update.qty.eq_num(zero()) {
                let a = if i < at {
                    i
                } else {
                    i + 1
                };
                let b = if j < at {
                    j
                } else {
                    j + 1
                };
                assert(r[i] == side[a] && r[j] == side[b]);
            } else {
                assert(r[i].price == side[i].price && r[j].price == side[j].price);
            }
        } else if update.qty.eq_num(zero()) {
            assert(r[i] == side[i] && r[j] == side[j]);
        } else {
            let a = if i < at {
                i
            } else {
                i - 1
            };
            let b = if j < at {
                j
            } else {
                j - 1
            };
            if i == at {
                assert(r[i] == update && r[j] == side[b]);
                assert(!side[b].price.nan());
                assert(!order.before(side[b].price, update.price));
                if at < b {
                    assert(!order.before(side[b].price, side[at].price));
                }
                assert(!side[at].price.nan());
            } else if j == at {
                assert(r[j] == update && r[i] == side[a]);
                assert(order.before(side[a].price, update.price));
            } else {
                assert(r[i] == side[a] && r[j] == side[b]);
            }
        }
    }
}

/// Updates keep a side in order, and free of double prices.
pub proof fn updates_keep_order(
    side: Seq<PriceLevel>,
    updates: Seq<PriceLevel>,
    order: PriceOrder,
)
    requires
        side_ok(side, order),
        prices_are_numbers(updates),
    ensures
        side_ok(levels_applied(side, updates, order), order),
        side_strict(side, order) ==> side_strict(levels_applied(side, updates, order), order),
    decreases updates.len(),
{
    if updates.len() > 0 {
        let front = updates.drop_last();
        assert forall|i: int| 0 <= i < front.len() implies !(#[trigger] front[i]).price.nan() by {
            assert(!updates[i].price.nan());
        }
        updates_keep_order(side, front, order);
        assert(!updates[updates.len() - 1].price.nan());
        update_keeps_order(levels_applied(side, front, order), updates.last(), order);
    }
}

pub(crate) proof fn lemma_after_in_order(book: BookModel, message: DepthModel)
    ensures
        book.ok() && book.stays_in_order(message) ==> book.after(message).ok(),
{
    if book.ok() && book.verdict(message) == BookApplyResult::Applied && message.orderable() {
        match message {
            DepthModel::Snapshot { bids, asks, .. } => {
                lemma_sorted_side(bids, PriceOrder::Ascending);
                lemma_sorted_side(asks, PriceOrder::Descending);
            },
            DepthModel::Delta { bids, asks, .. } => {
                updates_keep_order(book.bids, bids, PriceOrder::Ascending);
                updates_keep_order(book.asks, asks, PriceOrder::Descending);
            },
        }
    }
}

pub(crate) proof fn lemma_sorted_side(levels: Seq<PriceLevel>, order: PriceOrder)
    requires
        prices_are_numbers(levels),
    ensures
        side_ok(stably_sorted(levels, order.by_price()), order),
{
    // Two levels whose prices are numbers are ordered as their prices' ranks are; the order of
    // levels is extended to all levels so that it orders every sequence.
    let total = |a: PriceLevel, b: PriceLevel|
        match order {
            PriceOrder::Ascending => a.price.rank() < b.price.rank(),
            PriceOrder::Descending => b.price.rank() < a.price.rank(),
        };
    assert(orders(total));
    lemma_same_sorting(levels, order, total);
    sorting_sorts(levels, total);
    let r = stably_sorted(levels, total);
    assert forall|i: int| 0 <= i < r.len() implies !(#[trigger] r[i]).price.nan() by {
        crate::order::lemma_sorted_contains(levels, total, r[i]);
        assert(r.contains(r[i]));
        let k = choose|k: int| 0 <= k < levels.len() && levels[k] == r[i];
        assert(!levels[k].price.nan());
    }
    assert forall|i: int, j: int| 0 <= i < j < r.len() implies !order.before(
        (#[trigger] r[j]).price,
        (#[trigger] r[i]).price,
    ) by {
        assert(!total(r[j], r[i]));
    }
}

proof fn lemma_same_sorting(
    levels: Seq<PriceLevel>,
    order: PriceOrder,
    total: spec_fn(PriceLevel, PriceLevel) -> bool,
)
    requires
        prices_are_numbers(levels),
        total == (|a: PriceLevel, b: PriceLevel|
            match order {
                PriceOrder::Ascending => a.price.rank() < b.price.rank(),
                PriceOrder::Descending => b.price.rank() < a.price.rank(),
            }),
    ensures
        stably_sorted(levels, order.by_price()) == stably_sorted(levels, total),
    decreases levels.len(),
{
    if levels.len() > 0 {
        let front = levels.drop_last();
        assert forall|i: int| 0 <= i < front.len() implies !(#[trigger] front[i]).price.nan() by {
            assert(!levels[i].price.nan());
        }
        lemma_same_sorting(front, order, total);
        let sorted = stably_sorted(front, total);
        assert forall|i: int| 0 <= i < sorted.len() implies !(#[trigger] sorted[i]).price.nan() by {
            crate::order::lemma_sorted_contains(front, total, sorted[i]);
            assert(sorted.contains(sorted[i]));
            let k = choose|k: int| 0 <= k < front.len() && front[k] == sorted[i];
            assert(!front[k].price.nan());
        }
        assert(!levels[levels.len() - 1].price.nan());
        lemma_same_placing(sorted, levels.last(), order, total);
    }
}

proof fn lemma_same_placing(
    s: Seq<PriceLevel>,
    x: PriceLevel,
    order: PriceOrder,
    total: spec_fn(PriceLevel, PriceLevel) -> bool,
)
    requires
        prices_are_numbers(s),
        !x.price.nan(),
        total == (|a: PriceLevel, b: PriceLevel|
            match order {
                PriceOrder::Ascending => a.price.rank() < b.price.rank(),
                PriceOrder::Descending => b.price.rank() < a.price.rank(),
            }),
    ensures
        crate::order::placed(s, x, order.by_price()) == crate::order::placed(s, x, total),
    decreases s.len(),
{
    if s.len() > 0 {
        assert(!s[s.len() - 1].price.nan());
        let front = s.drop_last();
        assert forall|i: int| 0 <= i < front.len() implies !(#[trigger] front[i]).price.nan() by {
            assert(!s[i].price.nan());
        }
        lemma_same_placing(front, x, order, total);
    }
}

fn before_ascending(a: &PriceLevel, b: &PriceLevel) -> (r: bool)
    ensures
        r == PriceOrder::Ascending.before(a.price, b.price),
{
    a.price.less(b.price)
}

fn before_descending(a: &PriceLevel, b: &PriceLevel) -> (r: bool)
    ensures
        r == PriceOrder::Descending.before(a.price, b.price),
{
    b.price.less(a.price)
}

fn sort_asc(levels: Vec<PriceLevel>) -> (r: Vec<PriceLevel>)
    ensures
        r@ == stably_sorted(levels@, PriceOrder::Ascending.by_price()),
{
    assert(levels.deep_view() =~= levels@);
    let r = stable_sort(levels, before_ascending, Ghost(PriceOrder::Ascending.by_price()));
    assert(r.deep_view() =~= r@);
    r
}

fn sort_desc(levels: Vec<PriceLevel>) -> (r: Vec<PriceLevel>)
    ensures
        r@ == stably_sorted(levels@, PriceOrder::Descending.by_price()),
{
    assert(levels.deep_view() =~= levels@);
    let r = stable_sort(levels, before_descending, Ghost(PriceOrder::Descending.by_price()));
    assert(r.deep_view() =~= r@);
    r
}

proof fn lemma_bisected(
    side: Seq<PriceLevel>,
    price: Binary64,
    order: PriceOrder,
    low: int,
    high: int,
)
    requires
        0 <= low <= high <= side.len(),
    ensures
        low <= bisected(side, price, order, low, high) <= high,
        side_ok(side, order) && !price.nan() && low <= rank_of(side, price, order) <= high
            ==> bisected(side, price, order, low, high) == rank_of(side, price, order),
    decreases high - low,
{
    if low < high {
        let middle = low + (high - low) / 2;
        if side_ok(side, order) && !price.nan() {
            lemma_rank_splits(side, price, order);
        }
        if order.before(side[middle].price, price) {
            lemma_bisected(side, price, order, middle + 1, high);
        } else {
            lemma_bisected(side, price, order, low, middle);
        }
    }
}

/// Bisecting finds the place of a price.
pub(crate) proof fn lemma_place_of(side: Seq<PriceLevel>, price: Binary64, order: PriceOrder)
    ensures
        0 <= place_of(side, price, order) <= side.len(),
        place_of(side, price, order) == bisected(side, price, order, 0, side.len() as int),
{
    lemma_bisected(side, price, order, 0, side.len() as int);
    if side_ok(side, order) && !price.nan() {
        lemma_rank_splits(side, price, order);
    }
}

/// The place of a price in a side.
fn find_place(side: &Vec<PriceLevel>, price: Binary64, order: PriceOrder) -> (r: usize)
    ensures
        r == place_of(side@, price, order),
        r <= side@.len(),
{
    proof {
        lemma_place_of(side@, price, order);
    }
    let mut low: usize = 0;
    let mut high: usize = side.len();
    while low < high
        invariant
            low <= high <= side@.len(),
            bisected(side@, price, order, low as int, high as int) == bisected(
                side@,
                price,
                order,
                0,
                side@.len() as int,
            ),
        decreases high - low,
    {
        let middle: usize = low + (high - low) / 2;
        if order.comes_before(side[middle].price, price) {
            low = middle + 1;
        } else {
            high = middle;
        }
    }
    low
}

/// Applies updates to a side of a book.
fn apply_levels(side: &mut Vec<PriceLevel>, updates: &Vec<PriceLevel>, order: PriceOrder)
    ensures
        final(side)@ == levels_applied(old(side)@, updates@, order),
{
    let ghost start = side@;
    let mut k: usize = 0;
    assert(levels_applied(start, updates@.take(0), order) =~= start);
    while k < updates.len()
        invariant
            k <= updates.len(),
            side@ == levels_applied(start, updates@.take(k as int), order),
        decreases updates.len() - k,
    {
        let update = updates[k];
        let ghost before = side@;
        proof {
            assert(updates@.take(k + 1).drop_last() =~= updates@.take(k as int));
            assert(updates@.take(k + 1).last() == update);
        }
        let at: usize = find_place(side, update.price, order);
        let found = at < side.len() && !order.comes_before(side[at].price, update.price)
            && !order.comes_before(update.price, side[at].price);
        let empty = update.qty.equals(zero());
        if found && empty {
            side.remove(at);
        } else if found {
            let price = side[at].price;
            side[at] = PriceLevel { price, qty: update.qty };
        } else if !empty {
            side.insert(at, update);
        }
        assert(side@ =~= level_applied(before, update, order));
        k += 1;
    }
    assert(updates@.take(updates@.len() as int) =~= updates@);
}

impl LocalBookState {
    /// Whether both sides are in order; a book is as long as every price it was given is a number.
    pub open spec fn wf(&self) -> bool {
        self@.ok()
    }

    pub fn new(market: MarketKey, mode: DepthMode) -> (r: Self)
        ensures
            r@ == BookModel::fresh(market@, mode),
            r.wf(),
    {
        let r = LocalBookState {
            market,
            mode,
            has_snapshot: false,
            last_sequence: None,
            bids_asc: Vec::new(),
            asks_desc: Vec::new(),
        };
        assert(r@.bids =~= Seq::empty());
        assert(r@.asks =~= Seq::empty());
        r
    }

    /// Whether the number after the last sequence number is representable wherever `message` needs
    /// it.
    pub fn can_follow(&self, message: &RawDepthMessage) -> (r: bool)
        ensures
            r == self@.can_follow(message@),
    {
        match message {
            RawDepthMessage::Snapshot { .. } => true,
            RawDepthMessage::Delta { first_sequence, sequence, .. } => {
                if self.mode == DepthMode::SnapshotThenIncremental && !self.has_snapshot {
                    return true;
                }
                match self.last_sequence {
                    Some(last) => !(last == u64::MAX && sequence.is_none()
                        && first_sequence.is_some()),
                    None => true,
                }
            },
        }
    }

    /// Applies a message to the book.
    pub fn apply(&mut self, message: RawDepthMessage) -> (r: BookApplyResult)
        requires
            old(self)@.can_follow(message@),
        ensures
            final(self)@ == old(self)@.after(message@),
            r == old(self)@.verdict(message@),
            old(self).wf() && old(self)@.stays_in_order(message@) ==> final(self).wf(),
    {
        self.apply_timed(message).result
    }

    /// Applies a message to the book and measures how long its steps take. Nothing is said of the
    /// times of steps that were taken.
    pub fn apply_timed(&mut self, message: RawDepthMessage) -> (r: TimedBookApplyResult)
        requires
            old(self)@.can_follow(message@),
        ensures
            final(self)@ == old(self)@.after(message@),
            r.result == old(self)@.verdict(message@),
            old(self).wf() && old(self)@.stays_in_order(message@) ==> final(self).wf(),
            message@ is Snapshot ==> r.timing.validation_us == 0 && r.timing.merge_bids_us == 0
                && r.timing.merge_asks_us == 0,
            message@ is Delta ==> r.timing.sort_bids_us == 0 && r.timing.sort_asks_us == 0,
            r.result != BookApplyResult::Applied ==> r.timing.merge_bids_us == 0
                && r.timing.merge_asks_us == 0,
    {
        let total_started_at = std::time::Instant::now();
        let mut timing = BookApplyTiming::default();
        proof {
            lemma_after_in_order(self@, message@);
        }
        match message {
            RawDepthMessage::Snapshot { sequence, bids, asks, .. } => {
                let sort_bids_started_at = std::time::Instant::now();
                let sorted_bids = sort_asc(bids);
                timing.sort_bids_us = micros_since(&sort_bids_started_at);
                let sort_asks_started_at = std::time::Instant::now();
                let sorted_asks = sort_desc(asks);
                timing.sort_asks_us = micros_since(&sort_asks_started_at);
                self.bids_asc = sorted_bids;
                self.asks_desc = sorted_asks;
                self.has_snapshot = true;
                self.last_sequence = sequence;
                timing.total_us = micros_since(&total_started_at);
                TimedBookApplyResult { result: BookApplyResult::Applied, timing }
            },
            RawDepthMessage::Delta {
                first_sequence,
                previous_sequence,
                sequence,
                bids,
                asks,
                ..
            } => {
                let validation_started_at = std::time::Instant::now();
                let early: Option<BookApplyResult> = self.refusal(
                    first_sequence,
                    previous_sequence,
                    sequence,
                );
                if let Some(result) = early {
                    if result == BookApplyResult::GapDetected {
                        self.clear_for_rebuild();
                    }
                    timing.validation_us = micros_since(&validation_started_at);
                    timing.total_us = micros_since(&total_started_at);
                    return TimedBookApplyResult { result, timing };
                }
                timing.validation_us = micros_since(&validation_started_at);
                let merge_bids_started_at = std::time::Instant::now();
                apply_levels(&mut self.bids_asc, &bids, PriceOrder::Ascending);
                timing.merge_bids_us = micros_since(&merge_bids_started_at);
                let merge_asks_started_at = std::time::Instant::now();
                apply_levels(&mut self.asks_desc, &asks, PriceOrder::Descending);
                timing.merge_asks_us = micros_since(&merge_asks_started_at);
                self.has_snapshot = true;
                if sequence.is_some() {
                    self.last_sequence = sequence;
                }
                timing.total_us = micros_since(&total_started_at);
                TimedBookApplyResult { result: BookApplyResult::Applied, timing }
            },
        }
    }

    /// What would become of a message.
    pub fn verdict(&self, message: &RawDepthMessage) -> (r: BookApplyResult)
        requires
            self@.can_follow(message@),
        ensures
            r == self@.verdict(message@),
    {
        match message {
            RawDepthMessage::Snapshot { .. } => BookApplyResult::Applied,
            RawDepthMessage::Delta { first_sequence, previous_sequence, sequence, .. } => {
                match self.refusal(*first_sequence, *previous_sequence, *sequence) {
                    Some(result) => result,
                    None => BookApplyResult::Applied,
                }
            },
        }
    }

    /// Why a change is not applied, or nothing where it is.
    fn refusal(
        &self,
        first_sequence: Option<u64>,
        previous_sequence: Option<u64>,
        sequence: Option<u64>,
    ) -> (r: Option<BookApplyResult>)
        requires
            self@.waits() || !(self.last_sequence == Some(u64::MAX) && sequence is None
                && first_sequence is Some),
        ensures
            r == (if self@.waits() {
                Some(BookApplyResult::WaitingForSnapshot)
            } else if self@.is_stale(sequence) {
                Some(BookApplyResult::IgnoredStale)
            } else if self@.has_gap(first_sequence, previous_sequence, sequence) {
                Some(BookApplyResult::GapDetected)
            } else {
                None
            }),
    {
        if self.mode == DepthMode::SnapshotThenIncremental && !self.has_snapshot {
            return Some(BookApplyResult::WaitingForSnapshot);
        }
        if let Some(last) = self.last_sequence {
            if let Some(current) = sequence {
                if current <= last {
                    return Some(BookApplyResult::IgnoredStale);
                }
            }
            if let Some(previous) = previous_sequence {
                let begins = match first_sequence {
                    Some(first) => first <= last + 1,
                    None => false,
                };
                let ends = match sequence {
                    Some(current) => current >= last + 1,
                    None => false,
                };
                if previous != last && !(begins && ends) {
                    return Some(BookApplyResult::GapDetected);
                }
            } else if let Some(first) = first_sequence {
                if first > last + 1 {
                    return Some(BookApplyResult::GapDetected);
                }
            }
        }
        None
    }

    /// The market of the book.
    pub fn market(&self) -> (r: &MarketKey)
        ensures
            r@ == self@.market,
    {
        &self.market
    }

    /// Whether the book has been built from a snapshot, or needs none.
    pub fn has_snapshot(&self) -> (r: bool)
        ensures
            r == self@.has_snapshot,
    {
        self.has_snapshot
    }

    /// How the book is kept up to date.
    pub fn mode(&self) -> (r: DepthMode)
        ensures
            r == self@.mode,
    {
        self.mode
    }

    /// The sequence number that the book has come to, if any.
    pub fn last_sequence(&self) -> (r: Option<u64>)
        ensures
            r == self@.last_sequence,
    {
        self.last_sequence
    }

    pub fn best_bid(&self) -> (r: Option<&PriceLevel>)
        ensures
            match r {
                Some(level) => self@.bids.len() > 0 && *level == self@.bids.last(),
                None => self@.bids.len() == 0,
            },
            r is Some && self.wf() ==> forall|i: int|
                0 <= i < self@.bids.len() ==> (#[trigger] self@.bids[i]).price.le(r->0.price),
    {
        if self.bids_asc.len() > 0 {
            Some(&self.bids_asc[self.bids_asc.len() - 1])
        } else {
            None
        }
    }

    pub fn best_ask(&self) -> (r: Option<&PriceLevel>)
        ensures
            match r {
                Some(level) => self@.asks.len() > 0 && *level == self@.asks.last(),
                None => self@.asks.len() == 0,
            },
            r is Some && self.wf() ==> forall|i: int|
                0 <= i < self@.asks.len() ==> r->0.price.le((#[trigger] self@.asks[i]).price),
    {
        if self.asks_desc.len() > 0 {
            Some(&self.asks_desc[self.asks_desc.len() - 1])
        } else {
            None
        }
    }

    /// The bids in ascending order of price.
    pub fn bids_asc(&self) -> (r: &[PriceLevel])
        ensures
            r@ == self@.bids,
    {
        self.bids_asc.as_slice()
    }

    /// The asks in descending order of price.
    pub fn asks_desc(&self) -> (r: &[PriceLevel])
        ensures
            r@ == self@.asks,
    {
        self.asks_desc.as_slice()
    }

    /// The numbers of bids and asks.
    pub fn level_counts(&self) -> (r: (usize, usize))
        ensures
            r.0 == self@.bids.len(),
            r.1 == self@.asks.len(),
    {
        (self.bids_asc.len(), self.asks_desc.len())
    }

    fn clear_for_rebuild(&mut self)
        ensures
            final(self)@ == old(self)@.cleared(),
    {
        self.has_snapshot = false;
        self.last_sequence = None;
        self.bids_asc.clear();
        self.asks_desc.clear();
    }
}

} // verus!
