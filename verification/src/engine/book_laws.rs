//! What holds of order books over sequences of messages.

use vstd::prelude::*;

use crate::config::model::{DepthMode, MarketKeyModel};
use crate::engine::book::{
    bisected, lemma_after_in_order, lemma_place_of, lemma_rank_splits, lemma_sorted_side,
    level_applied, levels_applied, place_of, prices_are_numbers, rank_of, side_ok, side_strict,
    update_keeps_order, updates_keep_order, BookApplyResult, BookModel, DepthModel, PriceLevel,
    PriceOrder,
};
use crate::num::{zero, Binary64};
use crate::order::{lemma_sorted_length, pairwise, sorting_keeps_pairs, stably_sorted};

verus! {

/// The last bid of a book has the highest price.
pub proof fn best_bid_is_highest(book: BookModel, i: int)
    requires
        book.ok(),
        0 <= i < book.bids.len(),
    ensures
        book.bids[i].price.le(book.bids.last().price),
{
    assert(!book.bids[i].price.nan() && !book.bids[book.bids.len() - 1].price.nan());
}

/// The last ask of a book has the lowest price.
pub proof fn best_ask_is_lowest(book: BookModel, i: int)
    requires
        book.ok(),
        0 <= i < book.asks.len(),
    ensures
        book.asks.last().price.le(book.asks[i].price),
{
    assert(!book.asks[i].price.nan() && !book.asks[book.asks.len() - 1].price.nan());
}

/// A message keeps both sides in order if it is refused or its prices are numbers, and then a
/// change keeps them free of double prices.
pub proof fn messages_keep_order(book: BookModel, message: DepthModel)
    requires
        book.ok(),
        book.stays_in_order(message),
    ensures
        book.after(message).ok(),
        message is Delta && side_strict(book.bids, PriceOrder::Ascending) ==> side_strict(
            book.after(message).bids,
            PriceOrder::Ascending,
        ),
        message is Delta && side_strict(book.asks, PriceOrder::Descending) ==> side_strict(
            book.after(message).asks,
            PriceOrder::Descending,
        ),
{
    lemma_after_in_order(book, message);
    if message is Delta && book.verdict(message) == BookApplyResult::Applied {
        updates_keep_order(book.bids, message.bids(), PriceOrder::Ascending);
        updates_keep_order(book.asks, message.asks(), PriceOrder::Descending);
    }
}

/// Whether no price stands twice among levels.
pub open spec fn prices_differ(levels: Seq<PriceLevel>) -> bool {
    forall|i: int, j: int|
        0 <= i < j < levels.len() ==> !(#[trigger] levels[i]).price.eq_num(
            (#[trigger] levels[j]).price,
        )
}

/// A snapshot in which no price stands twice gives a book in which no price stands twice.
pub proof fn snapshot_without_doubles(levels: Seq<PriceLevel>, order: PriceOrder)
    requires
        prices_are_numbers(levels),
        prices_differ(levels),
    ensures
        side_strict(stably_sorted(levels, order.by_price()), order),
{
    let differ = |a: PriceLevel, b: PriceLevel| !a.price.eq_num(b.price);
    lemma_sorted_side(levels, order);
    assert(pairwise(levels, differ)) by {
        assert forall|i: int, j: int|
            0 <= i < levels.len() && 0 <= j < levels.len() && i != j implies differ(
            #[trigger] levels[i],
            #[trigger] levels[j],
        ) by {
            assert(i < j || j < i);
        }
    }
    sorting_keeps_pairs(levels, order.by_price(), differ);
    let r = stably_sorted(levels, order.by_price());
    assert forall|i: int, j: int| 0 <= i < j < r.len() implies order.before(
        (#[trigger] r[i]).price,
        (#[trigger] r[j]).price,
    ) by {
        assert(!r[i].price.nan() && !r[j].price.nan());
        assert(differ(r[i], r[j]));
    }
}

/// Whether bids strictly ascend and asks strictly descend, all prices being numbers.
pub open spec fn strict(book: BookModel) -> bool {
    &&& book.ok()
    &&& side_strict(book.bids, PriceOrder::Ascending)
    &&& side_strict(book.asks, PriceOrder::Descending)
}

/// Whatever message comes, as long as prices are numbers and a snapshot names none twice, bids
/// strictly ascend and asks strictly descend: the last bid is above all others, the last ask below
/// all others.
pub proof fn books_stay_strict(book: BookModel, message: DepthModel, i: int)
    requires
        strict(book),
        book.stays_in_order(message),
        message is Snapshot ==> prices_differ(message.bids()) && prices_differ(message.asks()),
    ensures
        strict(book.after(message)),
        0 <= i < book.after(message).bids.len() - 1 ==> book.after(message).bids[i].price.lt(
            book.after(message).bids.last().price,
        ),
        0 <= i < book.after(message).asks.len() - 1 ==> book.after(message).asks.last().price.lt(
            book.after(message).asks[i].price,
        ),
{
    messages_keep_order(book, message);
    if message is Snapshot {
        snapshot_without_doubles(message.bids(), PriceOrder::Ascending);
        snapshot_without_doubles(message.asks(), PriceOrder::Descending);
    }
    let after = book.after(message);
    if 0 <= i < after.bids.len() - 1 {
        assert(PriceOrder::Ascending.before(
            after.bids[i].price,
            after.bids[after.bids.len() - 1].price,
        ));
    }
    if 0 <= i < after.asks.len() - 1 {
        assert(PriceOrder::Descending.before(
            after.asks[i].price,
            after.asks[after.asks.len() - 1].price,
        ));
    }
}

/// A snapshot keeps the levels of the message, each as often as the message has it.
pub proof fn snapshot_keeps_levels(book: BookModel, message: DepthModel)
    requires
        message is Snapshot,
    ensures
        book.after(message).bids.to_multiset() == message.bids().to_multiset(),
        book.after(message).asks.to_multiset() == message.asks().to_multiset(),
{
    lemma_sorted_length(message.bids(), PriceOrder::Ascending.by_price());
    lemma_sorted_length(message.asks(), PriceOrder::Descending.by_price());
}

/// Whether `qty` is on offer at `price`.
pub open spec fn offers(side: Seq<PriceLevel>, price: Binary64, qty: Binary64) -> bool {
    exists|i: int| 0 <= i < side.len() && (#[trigger] side[i]).price.eq_num(price) && side[i].qty == qty
}

/// A side without double prices reads back what an update wrote: at the update's price its
/// quantity, or nothing where that is zero; at every other price what was there before.
pub proof fn update_reads_back(
    side: Seq<PriceLevel>,
    update: PriceLevel,
    order: PriceOrder,
    price: Binary64,
    qty: Binary64,
)
    requires
        side_ok(side, order),
        side_strict(side, order),
        !update.price.nan(),
    ensures
        offers(level_applied(side, update, order), price, qty) <==> if price.eq_num(update.price) {
            !update.qty.eq_num(zero()) && qty == update.qty
        } else {
            offers(side, price, qty)
        },
{
    let at = rank_of(side, update.price, order) as int;
    let r = level_applied(side, update, order);
    lemma_rank_splits(side, update.price, order);
    update_keeps_order(side, update, order);
    let found = at < side.len() && side[at].price.eq_num(update.price);
    let empty = update.qty.eq_num(zero());
    assert forall|i: int| 0 <= i < side.len() && i != at implies !(
    #[trigger] side[i]).price.eq_num(update.price) by {
        assert(!side[i].price.nan());
        if i > at {
            assert(!side[at].price.nan());
            assert(order.before(side[at].price, side[i].price));
            assert(!order.before(side[at].price, update.price));
        } else {
            assert(order.before(side[i].price, update.price));
        }
    }
    if offers(r, price, qty) {
        let i = choose|i: int|
            0 <= i < r.len() && (#[trigger] r[i]).price.eq_num(price) && r[i].qty == qty;
        if found && empty {
            let k = if i < at {
                i
            } else {
                i + 1
            };
            assert(r[i] == side[k]);
        } else if found {
            if i != at {
                assert(r[i] == side[i]);
            }
        } else if empty {
            assert(r[i] == side[i]);
            if i == at {
                assert(!side[at].price.eq_num(update.price));
            }
        } else {
            if i != at {
                let k = if i < at {
                    i
                } else {
                    i - 1
                };
                assert(r[i] == side[k]);
                if k == at {
                    assert(!side[at].price.eq_num(update.price));
                }
            }
        }
    }
    if price.eq_num(update.price) {
        if !empty {
            assert(r[at].price.eq_num(price) && r[at].qty == update.qty);
        }
    } else if offers(side, price, qty) {
        let k = choose|k: int|
            0 <= k < side.len() && (#[trigger] side[k]).price.eq_num(price) && side[k].qty == qty;
        if found && empty {
            assert(k != at);
            let i = if k < at {
                k
            } else {
                k - 1
            };
            assert(r[i] == side[k]);
        } else if found {
            assert(k != at);
            assert(r[k] == side[k]);
        } else if empty {
            assert(r[k] == side[k]);
        } else {
            let i = if k < at {
                k
            } else {
                k + 1
            };
            assert(r[i] == side[k]);
        }
    }
}

/// A message that is ignored as stale, or that must wait for a snapshot, leaves the book as it is.
pub proof fn ignored_messages_change_nothing(book: BookModel, message: DepthModel)
    requires
        book.verdict(message) == BookApplyResult::IgnoredStale || book.verdict(message)
            == BookApplyResult::WaitingForSnapshot,
    ensures
        book.after(message) == book,
{
}

/// What becomes of a change rests on sequence numbers alone, whatever its prices. It waits exactly
/// where a snapshot is needed and has not come, and is stale exactly where it then is no news; both
/// leave the whole book as it is. Otherwise it has a gap exactly where it names another predecessor
/// and does not reach across the book's last number, or names none and begins too late; a gap
/// empties the book and keeps its market and mode. Any other change is applied.
pub proof fn changes_are_judged(
    book: BookModel,
    market: MarketKeyModel,
    first: Option<u64>,
    previous: Option<u64>,
    sequence: Option<u64>,
    bids: Seq<PriceLevel>,
    asks: Seq<PriceLevel>,
)
    ensures
        ({
            let change = DepthModel::Delta {
                market,
                first_sequence: first,
                previous_sequence: previous,
                sequence,
                bids,
                asks,
            };
            let last = book.last_sequence;
            let waits = book.mode == DepthMode::SnapshotThenIncremental && !book.has_snapshot;
            let stale = last is Some && sequence is Some && sequence->0 <= last->0;
            let across = first is Some && first->0 <= last->0 + 1 && sequence is Some
                && sequence->0 >= last->0 + 1;
            let gap = last is Some && ((previous is Some && previous != last && !across) || (
            previous is None && first is Some && first->0 > last->0 + 1));
            let verdict = book.verdict(change);
            &&& verdict == BookApplyResult::WaitingForSnapshot <==> waits
            &&& verdict == BookApplyResult::IgnoredStale <==> !waits && stale
            &&& verdict == BookApplyResult::GapDetected <==> !waits && !stale && gap
            &&& verdict == BookApplyResult::Applied <==> !waits && !stale && !gap
            &&& waits || stale ==> book.after(change) == book
            &&& verdict == BookApplyResult::GapDetected ==> book.after(change) == BookModel::fresh(
                book.market,
                book.mode,
            )
        }),
{
}

/// A change with a sequence number that was applied has no effect when it comes again: it is stale.
pub proof fn replayed_changes_are_stale(book: BookModel, message: DepthModel)
    requires
        message is Delta,
        message->Delta_sequence is Some,
        book.verdict(message) == BookApplyResult::Applied,
    ensures
        book.after(message).can_follow(message),
        book.after(message).verdict(message) == BookApplyResult::IgnoredStale,
        book.after(message).after(message) == book.after(message),
{
}

/// After a gap the book is empty, and where the venue sends snapshots no change is applied before
/// the next one.
pub proof fn gap_waits_for_snapshot(book: BookModel, message: DepthModel, next: DepthModel)
    requires
        book.verdict(message) == BookApplyResult::GapDetected,
    ensures
        book.after(message).bids.len() == 0,
        book.after(message).asks.len() == 0,
        book.mode == DepthMode::SnapshotThenIncremental && next is Delta ==> book.after(
            message,
        ).verdict(next) == BookApplyResult::WaitingForSnapshot,
        next is Snapshot ==> book.after(message).verdict(next) == BookApplyResult::Applied,
{
}

/// A change that is applied carries a higher sequence number than the book's, if both have one,
/// and the book then has the change's number.
pub proof fn sequence_numbers_grow(book: BookModel, message: DepthModel)
    requires
        book.verdict(message) == BookApplyResult::Applied,
        message is Delta,
    ensures
        message->Delta_sequence is Some ==> book.after(message).last_sequence
            == message->Delta_sequence,
        message->Delta_sequence is Some && book.last_sequence is Some ==> book.last_sequence->0
            < message->Delta_sequence->0,
        message->Delta_sequence is None ==> book.after(message).last_sequence
            == book.last_sequence,
{
}

/// No change between two applied ones is missing: an applied change follows the book's last
/// sequence number, or begins at most one after it, as far as it says.
pub proof fn applied_changes_connect(book: BookModel, message: DepthModel)
    requires
        book.verdict(message) == BookApplyResult::Applied,
        message is Delta,
        book.last_sequence is Some,
    ensures
        message->Delta_previous_sequence is Some && message->Delta_previous_sequence
            != book.last_sequence ==> message->Delta_first_sequence is Some
            && message->Delta_first_sequence->0 <= book.last_sequence->0 + 1,
        message->Delta_previous_sequence is None && message->Delta_first_sequence is Some
            ==> message->Delta_first_sequence->0 <= book.last_sequence->0 + 1,
{
}

/// A snapshot makes every book of a market the same, whatever it held before.
pub proof fn snapshot_replaces_everything(a: BookModel, b: BookModel, message: DepthModel)
    requires
        message is Snapshot,
        a.market == b.market,
        a.mode == b.mode,
    ensures
        a.after(message) == b.after(message),
        a.verdict(message) == BookApplyResult::Applied,
{
}

/// Whether the update at `i` is the last that names `price`.
pub open spec fn is_last_update(updates: Seq<PriceLevel>, price: Binary64, i: int) -> bool {
    &&& 0 <= i < updates.len()
    &&& updates[i].price.eq_num(price)
    &&& forall|j: int| i < j < updates.len() ==> !(#[trigger] updates[j]).price.eq_num(price)
}

/// Whether no update names `price`.
pub open spec fn leaves_alone(updates: Seq<PriceLevel>, price: Binary64) -> bool {
    forall|j: int| 0 <= j < updates.len() ==> !(#[trigger] updates[j]).price.eq_num(price)
}

/// Whether `qty` is on offer at `price` after updates: by the last update of the price, or because
/// there is none and it was before.
pub open spec fn offers_after(
    side: Seq<PriceLevel>,
    updates: Seq<PriceLevel>,
    price: Binary64,
    qty: Binary64,
) -> bool {
    ||| exists|i: int| #[trigger]
        is_last_update(updates, price, i) && updates[i].qty == qty && !qty.eq_num(zero())
    ||| leaves_alone(updates, price) && offers(side, price, qty)
}

proof fn lemma_updates_read_back(
    side: Seq<PriceLevel>,
    updates: Seq<PriceLevel>,
    order: PriceOrder,
    price: Binary64,
    qty: Binary64,
)
    requires
        side_ok(side, order),
        side_strict(side, order),
        prices_are_numbers(updates),
    ensures
        offers(levels_applied(side, updates, order), price, qty) <==> offers_after(
            side,
            updates,
            price,
            qty,
        ),
    decreases updates.len(),
{
    if updates.len() > 0 {
        let front = updates.drop_last();
        let last = updates.last();
        assert(updates[updates.len() - 1] == last);
        assert forall|i: int| 0 <= i < front.len() implies !(#[trigger] front[i]).price.nan() by {
            assert(front[i] == updates[i]);
        }
        lemma_updates_read_back(side, front, order, price, qty);
        updates_keep_order(side, front, order);
        update_reads_back(levels_applied(side, front, order), last, order, price, qty);
        if price.eq_num(last.price) {
            assert(is_last_update(updates, price, updates.len() - 1));
            if exists|i: int| #[trigger] is_last_update(updates, price, i) && updates[i].qty == qty {
                let i = choose|i: int| #[trigger]
                    is_last_update(updates, price, i) && updates[i].qty == qty;
                assert(i == updates.len() - 1);
            }
        } else {
            if exists|i: int| #[trigger] is_last_update(updates, price, i) && updates[i].qty == qty {
                let i = choose|i: int| #[trigger]
                    is_last_update(updates, price, i) && updates[i].qty == qty;
                assert(i != updates.len() - 1);
                assert forall|j: int| i < j < front.len() implies !(
                #[trigger] front[j]).price.eq_num(price) by {
                    assert(front[j] == updates[j]);
                }
                assert(is_last_update(front, price, i));
            }
            if exists|i: int| #[trigger] is_last_update(front, price, i) && front[i].qty == qty {
                let i = choose|i: int| #[trigger]
                    is_last_update(front, price, i) && front[i].qty == qty;
                assert forall|j: int| i < j < updates.len() implies !(
                #[trigger] updates[j]).price.eq_num(price) by {
                    if j < front.len() {
                        assert(front[j] == updates[j]);
                    }
                }
                assert(is_last_update(updates, price, i));
            }
            if leaves_alone(front, price) {
                assert forall|j: int| 0 <= j < updates.len() implies !(
                #[trigger] updates[j]).price.eq_num(price) by {
                    if j < front.len() {
                        assert(front[j] == updates[j]);
                    }
                }
            }
            if leaves_alone(updates, price) {
                assert forall|j: int| 0 <= j < front.len() implies !(
                #[trigger] front[j]).price.eq_num(price) by {
                    assert(front[j] == updates[j]);
                }
            }
        }
    }
}

/// A change that is applied takes effect on both sides. At each price, a side then offers exactly the
/// quantity of the last update of that price, nothing where that quantity is zero, and what it offered
/// before where no update names the price.
pub proof fn applied_changes_take_effect(
    book: BookModel,
    market: MarketKeyModel,
    first_sequence: Option<u64>,
    previous_sequence: Option<u64>,
    sequence: Option<u64>,
    bids: Seq<PriceLevel>,
    asks: Seq<PriceLevel>,
    price: Binary64,
    qty: Binary64,
)
    requires
        strict(book),
        prices_are_numbers(bids),
        prices_are_numbers(asks),
        book.verdict(
            DepthModel::Delta {
                market,
                first_sequence,
                previous_sequence,
                sequence,
                bids,
                asks,
            },
        ) == BookApplyResult::Applied,
    ensures
        ({
            let after = book.after(
                DepthModel::Delta {
                    market,
                    first_sequence,
                    previous_sequence,
                    sequence,
                    bids,
                    asks,
                },
            );
            &&& offers(after.bids, price, qty) <==> offers_after(book.bids, bids, price, qty)
            &&& offers(after.asks, price, qty) <==> offers_after(book.asks, asks, price, qty)
            &&& strict(after)
        }),
{
    let message = DepthModel::Delta {
        market,
        first_sequence,
        previous_sequence,
        sequence,
        bids,
        asks,
    };
    lemma_updates_read_back(book.bids, bids, PriceOrder::Ascending, price, qty);
    lemma_updates_read_back(book.asks, asks, PriceOrder::Descending, price, qty);
    messages_keep_order(book, message);
}

/// A snapshot is always applied: the book then has exactly the levels of the snapshot, each as often as
/// the snapshot, and its number, and keeps its market and mode. Where prices are numbers bids ascend
/// and asks descend, so that the best of either side stands last.
pub proof fn snapshots_fill_books(
    book: BookModel,
    market: MarketKeyModel,
    sequence: Option<u64>,
    bids: Seq<PriceLevel>,
    asks: Seq<PriceLevel>,
    i: int,
    j: int,
)
    requires
        0 <= i < j,
    ensures
        ({
            let message = DepthModel::Snapshot { market, sequence, bids, asks };
            let after = book.after(message);
            &&& book.verdict(message) == BookApplyResult::Applied
            &&& after.market == book.market
            &&& after.mode == book.mode
            &&& after.has_snapshot
            &&& after.last_sequence == sequence
            &&& after.bids.to_multiset() == bids.to_multiset()
            &&& after.asks.to_multiset() == asks.to_multiset()
            &&& after.bids.len() == bids.len()
            &&& after.asks.len() == asks.len()
            &&& prices_are_numbers(bids) && j < bids.len() ==> after.bids[i].price.le(
                after.bids[j].price,
            )
            &&& prices_are_numbers(asks) && j < asks.len() ==> after.asks[j].price.le(
                after.asks[i].price,
            )
        }),
{
    lemma_sorted_length(bids, PriceOrder::Ascending.by_price());
    lemma_sorted_length(asks, PriceOrder::Descending.by_price());
    let after = book.after(DepthModel::Snapshot { market, sequence, bids, asks });
    if prices_are_numbers(bids) && j < bids.len() {
        lemma_sorted_side(bids, PriceOrder::Ascending);
        assert(!after.bids[i].price.nan() && !after.bids[j].price.nan());
    }
    if prices_are_numbers(asks) && j < asks.len() {
        lemma_sorted_side(asks, PriceOrder::Descending);
        assert(!after.asks[i].price.nan() && !after.asks[j].price.nan());
    }
}

/// What a change does besides its levels: an applied one makes the book one that has a snapshot and
/// counts its number if it has one; no message changes the market or the mode of a book.
pub proof fn messages_keep_markets(book: BookModel, message: DepthModel)
    ensures
        book.after(message).market == book.market,
        book.after(message).mode == book.mode,
        book.verdict(message) == BookApplyResult::Applied ==> book.after(message).has_snapshot,
        book.verdict(message) == BookApplyResult::GapDetected ==> {
            let after = book.after(message);
            !after.has_snapshot && after.last_sequence is None && after.bids.len() == 0
                && after.asks.len() == 0
        },
        BookModel::fresh(book.market, book.mode).market == book.market,
        BookModel::fresh(book.market, book.mode).mode == book.mode,
        !BookModel::fresh(book.market, book.mode).has_snapshot,
        BookModel::fresh(book.market, book.mode).last_sequence is None,
        BookModel::fresh(book.market, book.mode).bids.len() == 0,
        BookModel::fresh(book.market, book.mode).asks.len() == 0,
{
}

/// An update looks for its price by halving: whatever the side holds, the search for a price among the
/// levels from `low` up to `high` goes on behind the middle one where that stands before the price, and
/// before the middle one otherwise.
pub proof fn prices_are_looked_for_by_halving(
    side: Seq<PriceLevel>,
    price: Binary64,
    order: PriceOrder,
    low: int,
    high: int,
)
    ensures
        low >= high ==> bisected(side, price, order, low, high) == low,
        low < high ==> {
            let level = side[low + (high - low) / 2].price;
            let before = match order {
                PriceOrder::Ascending => level.lt(price),
                PriceOrder::Descending => price.lt(level),
            };
            bisected(side, price, order, low, high) == (if before {
                bisected(side, price, order, low + (high - low) / 2 + 1, high)
            } else {
                bisected(side, price, order, low, low + (high - low) / 2)
            })
        },
        place_of(side, price, order) == bisected(side, price, order, 0, side.len() as int),
{
    lemma_place_of(side, price, order);
}

/// An update touches one place of a side, whatever the side holds: the one that looking for its price
/// leads to. A level there that is neither before nor behind the price gets the new quantity, or goes
/// where that is zero; otherwise the update becomes a level there, unless its quantity is zero. The
/// other levels stay in their order.
pub proof fn updates_touch_one_place(
    side: Seq<PriceLevel>,
    update: PriceLevel,
    order: PriceOrder,
    at: int,
    i: int,
)
    requires
        at == place_of(side, update.price, order),
    ensures
        0 <= at <= side.len(),
        ({
            let after = level_applied(side, update, order);
            let met = at < side.len() && !side[at].price.lt(update.price) && !update.price.lt(
                side[at].price,
            );
            let none = update.qty.eq_num(zero());
            &&& after.len() == side.len() + (if met || none {
                0int
            } else {
                1
            }) - (if met && none {
                1int
            } else {
                0
            })
            &&& met && !none ==> after[at].price == side[at].price && after[at].qty == update.qty
            &&& !met && !none ==> after[at] == update
            &&& 0 <= i < at ==> after[i] == side[i]
            &&& at < i < side.len() ==> side[i] == after[if met == none {
                if met {
                    i - 1
                } else {
                    i + 1
                }
            } else {
                i
            }]
            &&& !met && at < side.len() ==> side[at] == after[if none {
                at
            } else {
                at + 1
            }]
        }),
{
    lemma_place_of(side, update.price, order);
}

} // verus!
