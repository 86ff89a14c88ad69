use perp_arb::config::model::{DepthMode, Exchange, MarketKey};
use perp_arb::engine::book::{BookApplyResult, LocalBookState, PriceLevel, RawDepthMessage};
use perp_arb::num::Binary64;

fn number(value: f64) -> Binary64 {
    Binary64 { bits: value.to_bits() }
}

fn level(price: f64, qty: f64) -> PriceLevel {
    PriceLevel { price: number(price), qty: number(qty) }
}

fn market() -> MarketKey {
    MarketKey::new(Exchange::BinanceUsdM, "BTCUSDT".to_owned())
}

fn snapshot(sequence: Option<u64>, bids: Vec<PriceLevel>, asks: Vec<PriceLevel>) -> RawDepthMessage {
    RawDepthMessage::Snapshot { market: market(), sequence, bids, asks }
}

fn delta(
    first_sequence: Option<u64>,
    previous_sequence: Option<u64>,
    sequence: Option<u64>,
    bids: Vec<PriceLevel>,
    asks: Vec<PriceLevel>,
) -> RawDepthMessage {
    RawDepthMessage::Delta {
        market: market(),
        first_sequence,
        previous_sequence,
        sequence,
        bids,
        asks,
    }
}

fn book() -> LocalBookState {
    let mut book = LocalBookState::new(market(), DepthMode::SnapshotThenIncremental);
    let message = snapshot(
        Some(10),
        vec![level(2.0, 1.0), level(3.0, 1.0), level(1.0, 1.0)],
        vec![level(5.0, 1.0), level(4.0, 2.0)],
    );
    assert_eq!(book.apply(message), BookApplyResult::Applied);
    book
}

fn unchanged(book: &LocalBookState) {
    assert_eq!(book.last_sequence, Some(10));
    assert_eq!(book.level_counts(), (3, 2));
    assert!(book.has_snapshot());
}

fn cleared(book: &LocalBookState) {
    assert_eq!(book.last_sequence, None);
    assert_eq!(book.level_counts(), (0, 0));
    assert!(!book.has_snapshot());
    assert!(book.best_bid().is_none());
}

#[test]
fn a_snapshot_fills_a_book_in_order() {
    let book = book();
    assert!(book.market().same(&market()));
    assert!(book.has_snapshot());
    assert_eq!(book.last_sequence, Some(10));
    assert_eq!(book.bids_asc(), [level(1.0, 1.0), level(2.0, 1.0), level(3.0, 1.0)]);
    assert_eq!(book.asks_desc(), [level(5.0, 1.0), level(4.0, 2.0)]);
    assert_eq!(book.best_bid(), Some(&level(3.0, 1.0)));
    assert_eq!(book.best_ask(), Some(&level(4.0, 2.0)));
}

#[test]
fn a_snapshot_replaces_everything() {
    let mut book = book();
    assert_eq!(
        book.apply(snapshot(Some(4), vec![level(9.0, 1.0)], vec![])),
        BookApplyResult::Applied
    );
    assert_eq!(book.bids_asc(), [level(9.0, 1.0)]);
    assert_eq!(book.level_counts(), (1, 0));
    assert_eq!(book.last_sequence, Some(4));
    assert!(book.best_ask().is_none());
}

#[test]
fn levels_of_one_price_keep_their_order() {
    let mut book = LocalBookState::new(market(), DepthMode::FullSnapshotOnly);
    book.apply(snapshot(
        None,
        vec![level(2.0, 1.0), level(1.0, 5.0), level(2.0, 3.0)],
        vec![level(2.0, 1.0), level(2.0, 3.0)],
    ));
    assert_eq!(book.bids_asc(), [level(1.0, 5.0), level(2.0, 1.0), level(2.0, 3.0)]);
    assert_eq!(book.asks_desc(), [level(2.0, 1.0), level(2.0, 3.0)]);
}

#[test]
fn changes_wait_for_a_snapshot() {
    let mut book = LocalBookState::new(market(), DepthMode::SnapshotThenIncremental);
    let message = delta(None, None, Some(1), vec![level(1.0, 1.0)], vec![]);
    assert_eq!(book.apply(message.clone()), BookApplyResult::WaitingForSnapshot);
    cleared(&book);
    let mut open = LocalBookState::new(market(), DepthMode::FullSnapshotOnly);
    assert_eq!(open.apply(message), BookApplyResult::Applied);
    assert!(open.has_snapshot());
    assert_eq!(open.last_sequence, Some(1));
}

#[test]
fn changes_set_insert_and_remove_levels() {
    let mut book = book();
    let message = delta(
        Some(11),
        Some(10),
        Some(12),
        vec![level(2.0, 7.0), level(2.5, 1.0), level(1.0, 0.0), level(8.0, 0.0)],
        vec![level(4.0, -0.0), level(4.5, 3.0)],
    );
    let timed = book.apply_timed(message);
    assert_eq!(timed.result, BookApplyResult::Applied);
    assert_eq!(book.bids_asc(), [level(2.0, 7.0), level(2.5, 1.0), level(3.0, 1.0)]);
    assert_eq!(book.asks_desc(), [level(5.0, 1.0), level(4.5, 3.0)]);
    assert_eq!(book.last_sequence, Some(12));
}

#[test]
fn stale_changes_are_ignored() {
    let mut book = book();
    for sequence in [9, 10] {
        let message = delta(Some(1), Some(9), Some(sequence), vec![level(1.0, 0.0)], vec![]);
        assert_eq!(book.apply(message), BookApplyResult::IgnoredStale);
        unchanged(&book);
    }
}

#[test]
fn a_missing_change_clears_the_book() {
    let mut previous = book();
    let message = delta(Some(12), Some(11), Some(13), vec![], vec![]);
    assert_eq!(previous.apply(message), BookApplyResult::GapDetected);
    cleared(&previous);
    let mut first = book();
    let message = delta(Some(12), None, Some(13), vec![], vec![]);
    assert_eq!(first.apply(message), BookApplyResult::GapDetected);
    cleared(&first);
    // Changes then wait for a snapshot again.
    let message = delta(Some(14), Some(13), Some(14), vec![], vec![]);
    assert_eq!(first.apply(message), BookApplyResult::WaitingForSnapshot);
}

#[test]
fn a_change_that_bridges_the_snapshot_is_applied() {
    let mut book = book();
    let message = delta(Some(8), Some(7), Some(11), vec![], vec![level(4.0, 1.0)]);
    assert_eq!(book.apply(message), BookApplyResult::Applied);
    assert_eq!(book.best_ask(), Some(&level(4.0, 1.0)));
    assert_eq!(book.last_sequence, Some(11));
}

#[test]
fn a_change_without_numbers_is_applied() {
    let mut book = book();
    let message = delta(None, None, None, vec![level(3.5, 1.0)], vec![]);
    assert_eq!(book.apply(message), BookApplyResult::Applied);
    assert_eq!(book.best_bid(), Some(&level(3.5, 1.0)));
    assert_eq!(book.last_sequence, Some(10));
}

#[test]
fn what_cannot_be_applied_is_told() {
    let mut book = LocalBookState::new(market(), DepthMode::SnapshotThenIncremental);
    book.apply(snapshot(Some(u64::MAX), vec![], vec![]));
    assert!(!book.can_follow(&delta(Some(1), None, None, vec![], vec![])));
    assert!(book.can_follow(&delta(Some(1), None, Some(3), vec![], vec![])));
    assert!(book.can_follow(&snapshot(None, vec![], vec![])));
}

#[test]
fn a_refused_change_is_refused_whatever_its_prices() {
    let odd = || vec![level(f64::NAN, 1.0)];
    let mut empty = LocalBookState::new(market(), DepthMode::SnapshotThenIncremental);
    let waiting = delta(Some(11), Some(10), Some(11), odd(), odd());
    assert_eq!(empty.verdict(&waiting), BookApplyResult::WaitingForSnapshot);
    assert_eq!(empty.apply(waiting), BookApplyResult::WaitingForSnapshot);
    assert_eq!(empty.level_counts(), (0, 0));
    assert_eq!(empty.last_sequence, None);

    let mut filled = book();
    let stale = delta(Some(9), Some(8), Some(10), odd(), odd());
    assert_eq!(filled.verdict(&stale), BookApplyResult::IgnoredStale);
    assert_eq!(filled.apply(stale), BookApplyResult::IgnoredStale);
    unchanged(&filled);

    let gap = delta(Some(13), Some(12), Some(13), odd(), odd());
    assert_eq!(filled.verdict(&gap), BookApplyResult::GapDetected);
    assert_eq!(filled.apply(gap), BookApplyResult::GapDetected);
    cleared(&filled);
}

#[test]
fn a_price_that_is_not_a_number_ties_with_every_price() {
    let mut book = book();
    let odd = delta(Some(11), Some(10), Some(11), vec![level(f64::NAN, 7.0)], vec![]);
    assert_eq!(book.apply(odd), BookApplyResult::Applied);
    assert_eq!(book.last_sequence, Some(11));
    assert!(book.has_snapshot());
    assert_eq!(book.bids_asc(), [level(1.0, 7.0), level(2.0, 1.0), level(3.0, 1.0)]);
    assert_eq!(book.asks_desc(), [level(5.0, 1.0), level(4.0, 2.0)]);

    let whole = snapshot(Some(20), vec![level(f64::NAN, 1.0)], vec![level(4.0, 1.0)]);
    assert_eq!(book.apply(whole), BookApplyResult::Applied);
    assert_eq!(book.last_sequence, Some(20));
    assert_eq!(book.level_counts(), (1, 1));
    assert_eq!(book.best_ask(), Some(&level(4.0, 1.0)));
}

#[test]
fn an_applied_change_is_stale_the_second_time() {
    for price in [3.5, f64::NAN] {
        let mut book = book();
        let change = || delta(Some(11), Some(10), Some(11), vec![level(price, 2.0)], vec![]);
        assert_eq!(book.apply(change()), BookApplyResult::Applied);
        let bids: Vec<PriceLevel> = book.bids_asc().to_vec();
        assert_eq!(book.apply(change()), BookApplyResult::IgnoredStale);
        assert_eq!(book.last_sequence, Some(11));
        assert_eq!(book.bids_asc(), bids);
        assert_eq!(book.asks_desc(), [level(5.0, 1.0), level(4.0, 2.0)]);
        assert!(book.has_snapshot());
    }
}

#[test]
fn the_best_prices_are_the_highest_bid_and_the_lowest_ask() {
    let mut book = book();
    let change = delta(
        Some(11),
        Some(10),
        Some(11),
        vec![level(2.5, 1.0), level(3.0, 0.0)],
        vec![level(4.5, 1.0), level(3.75, 1.0)],
    );
    assert_eq!(book.apply(change), BookApplyResult::Applied);
    assert_eq!(book.bids_asc(), [level(1.0, 1.0), level(2.0, 1.0), level(2.5, 1.0)]);
    assert_eq!(
        book.asks_desc(),
        [level(5.0, 1.0), level(4.5, 1.0), level(4.0, 2.0), level(3.75, 1.0)]
    );
    assert_eq!(book.best_bid(), Some(&level(2.5, 1.0)));
    assert_eq!(book.best_ask(), Some(&level(3.75, 1.0)));
}

#[test]
fn a_book_tells_its_mode_and_number() {
    let mut book = book();
    assert_eq!(book.mode(), DepthMode::SnapshotThenIncremental);
    assert_eq!(book.last_sequence(), Some(10));
    book.apply(delta(Some(11), Some(10), Some(12), vec![], vec![]));
    assert_eq!(book.last_sequence(), Some(12));
    assert_eq!(book.last_sequence(), book.last_sequence);
}
