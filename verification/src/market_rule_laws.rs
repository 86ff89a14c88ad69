//! What venues publish and which rules it makes.

use vstd::prelude::*;
use vstd::utf8::{is_ascii_chars, is_ascii_chars_encode_utf8};

use crate::config::model::{Exchange, MarketKeyModel};
use crate::config::planner::on_exchange;
use crate::market_rules::{
    behind_point, binance_rule_of, binance_rules_of, bybit_rule_of, bybit_rules_of, filter_values,
    page_refusal, precision_of_step, symbols_of, without_end_zeros, BinanceFilterModel,
    BinanceSymbolModel, BybitInstrumentModel, BybitInstrumentPageModel, BybitPagesModel,
};
use crate::num::{one, Binary64};
use crate::text::{lemma_trimmed_between, read_u32, signed_numeral, white};

verus! {

/// Whether a text is there and stands for a number.
pub open spec fn is_number(
    rd: spec_fn(Seq<char>) -> Option<Binary64>,
    value: Option<Seq<char>>,
) -> bool {
    value is Some && rd(value->0) is Some
}

/// Whether a filter is about lot sizes.
pub open spec fn is_lot_filter(filter: BinanceFilterModel) -> bool {
    filter.filter_type == "LOT_SIZE"@ || filter.filter_type == "MARKET_LOT_SIZE"@
}

/// Whether a filter is about notionals.
pub open spec fn is_notional_filter(filter: BinanceFilterModel) -> bool {
    filter.filter_type == "MIN_NOTIONAL"@ || filter.filter_type == "NOTIONAL"@
}

proof fn lemma_filter_types()
    ensures
        "PRICE_FILTER"@ != "LOT_SIZE"@,
        "PRICE_FILTER"@ != "MARKET_LOT_SIZE"@,
        "PRICE_FILTER"@ != "MIN_NOTIONAL"@,
        "PRICE_FILTER"@ != "NOTIONAL"@,
        "LOT_SIZE"@ != "MIN_NOTIONAL"@,
        "LOT_SIZE"@ != "NOTIONAL"@,
        "MARKET_LOT_SIZE"@ != "MIN_NOTIONAL"@,
        "MARKET_LOT_SIZE"@ != "NOTIONAL"@,
{
    reveal_strlit("PRICE_FILTER");
    reveal_strlit("LOT_SIZE");
    reveal_strlit("MARKET_LOT_SIZE");
    reveal_strlit("MIN_NOTIONAL");
    reveal_strlit("NOTIONAL");
    assert("PRICE_FILTER"@[0] == 'P');
    assert("LOT_SIZE"@[0] == 'L');
    assert("MARKET_LOT_SIZE"@[1] == 'A');
    assert("MIN_NOTIONAL"@[1] == 'I' && "MIN_NOTIONAL"@[0] == 'M');
    assert("NOTIONAL"@[0] == 'N');
    assert("MARKET_LOT_SIZE"@[0] == 'M');
}

/// The tick is that of the last price filter, and there is none without one.
pub proof fn the_last_price_filter_gives_the_tick(
    rd: spec_fn(Seq<char>) -> Option<Binary64>,
    filters: Seq<BinanceFilterModel>,
    k: int,
)
    ensures
        (forall|i: int|
            0 <= i < filters.len() ==> (#[trigger] filters[i]).filter_type != "PRICE_FILTER"@)
            ==> filter_values(rd, filters).price_tick is None,
        0 <= k < filters.len() && filters[k].filter_type == "PRICE_FILTER"@ && (forall|i: int|
            k < i < filters.len() ==> (#[trigger] filters[i]).filter_type != "PRICE_FILTER"@)
            ==> filter_values(rd, filters).price_tick == (if filters[k].tick_size is Some {
            rd(filters[k].tick_size->0)
        } else {
            None
        }),
    decreases filters.len(),
{
    lemma_filter_types();
    if filters.len() > 0 {
        let front = filters.drop_last();
        the_last_price_filter_gives_the_tick(rd, front, k);
        assert(filters[filters.len() - 1] == filters.last());
        assert forall|i: int| 0 <= i < front.len() implies #[trigger] front[i] == filters[i] by {}
        if filters.last().filter_type != "PRICE_FILTER"@ {
            assert(filter_values(rd, filters).price_tick == filter_values(rd, front).price_tick);
        }
    }
}

/// Step and least quantity are those of the first lot filter that says a number, each for itself.
pub proof fn the_first_lot_filter_gives_the_step(
    rd: spec_fn(Seq<char>) -> Option<Binary64>,
    filters: Seq<BinanceFilterModel>,
    k: int,
)
    ensures
        (forall|i: int|
            0 <= i < filters.len() ==> !(is_lot_filter(#[trigger] filters[i]) && is_number(
                rd,
                filters[i].step_size,
            ))) ==> filter_values(rd, filters).qty_step is None,
        0 <= k < filters.len() && is_lot_filter(filters[k]) && is_number(rd, filters[k].step_size)
            && (forall|i: int|
            0 <= i < k ==> !(is_lot_filter(#[trigger] filters[i]) && is_number(
                rd,
                filters[i].step_size,
            ))) ==> filter_values(rd, filters).qty_step == rd(filters[k].step_size->0),
        (forall|i: int|
            0 <= i < filters.len() ==> !(is_lot_filter(#[trigger] filters[i]) && is_number(
                rd,
                filters[i].min_qty,
            ))) ==> filter_values(rd, filters).min_qty is None,
        0 <= k < filters.len() && is_lot_filter(filters[k]) && is_number(rd, filters[k].min_qty) && (
        forall|i: int|
            0 <= i < k ==> !(is_lot_filter(#[trigger] filters[i]) && is_number(
                rd,
                filters[i].min_qty,
            ))) ==> filter_values(rd, filters).min_qty == rd(filters[k].min_qty->0),
    decreases filters.len(),
{
    lemma_filter_types();
    if filters.len() > 0 {
        let front = filters.drop_last();
        the_first_lot_filter_gives_the_step(rd, front, k);
        assert(filters[filters.len() - 1] == filters.last());
        assert forall|i: int| 0 <= i < front.len() implies #[trigger] front[i] == filters[i] by {}
        if !is_lot_filter(filters.last()) {
            assert(filter_values(rd, filters).qty_step == filter_values(rd, front).qty_step);
            assert(filter_values(rd, filters).min_qty == filter_values(rd, front).min_qty);
        }
    }
}

/// The least notional is that of the first notional filter that says a number, be it as `notional` or, in
/// second place, as `min_notional`.
pub proof fn the_first_notional_filter_gives_the_least(
    rd: spec_fn(Seq<char>) -> Option<Binary64>,
    filters: Seq<BinanceFilterModel>,
    k: int,
)
    ensures
        (forall|i: int|
            0 <= i < filters.len() ==> !(is_notional_filter(#[trigger] filters[i]) && (is_number(
                rd,
                filters[i].notional,
            ) || is_number(rd, filters[i].min_notional)))) ==> filter_values(
            rd,
            filters,
        ).min_notional is None,
        0 <= k < filters.len() && is_notional_filter(filters[k]) && (is_number(
            rd,
            filters[k].notional,
        ) || is_number(rd, filters[k].min_notional)) && (forall|i: int|
            0 <= i < k ==> !(is_notional_filter(#[trigger] filters[i]) && (is_number(
                rd,
                filters[i].notional,
            ) || is_number(rd, filters[i].min_notional)))) ==> filter_values(
            rd,
            filters,
        ).min_notional == rd(
            if is_number(rd, filters[k].notional) {
                filters[k].notional->0
            } else {
                filters[k].min_notional->0
            },
        ),
    decreases filters.len(),
{
    lemma_filter_types();
    if filters.len() > 0 {
        let front = filters.drop_last();
        the_first_notional_filter_gives_the_least(rd, front, k);
        assert(filters[filters.len() - 1] == filters.last());
        assert forall|i: int| 0 <= i < front.len() implies #[trigger] front[i] == filters[i] by {}
        if !is_notional_filter(filters.last()) {
            assert(filter_values(rd, filters).min_notional == filter_values(
                rd,
                front,
            ).min_notional);
        }
    }
}

/// The rule of a symbol of Binance has what its filters say and the symbol's own precisions; a contract
/// is one unit.
pub proof fn binance_symbols_make_rules(
    rd: spec_fn(Seq<char>) -> Option<Binary64>,
    symbol: BinanceSymbolModel,
    at: u64,
)
    ensures
        ({
            let rule = binance_rule_of(rd, symbol, at);
            let values = filter_values(rd, symbol.filters);
            &&& rule.market.exchange is BinanceUsdM
            &&& rule.market.symbol == symbol.symbol
            &&& rule.min_qty == values.min_qty
            &&& rule.min_notional == values.min_notional
            &&& rule.price_tick == values.price_tick
            &&& rule.qty_step == values.qty_step
            &&& rule.price_precision == symbol.price_precision
            &&& rule.qty_precision == symbol.quantity_precision
            &&& rule.contract_multiplier == Some(one())
            &&& rule.updated_at_ms == at
        }),
{
}

/// The rule of an instrument of Bybit has what its filters say, the price scale as the precision of
/// prices, and the decimals of the quantity step as that of quantities; a contract is one unit unless
/// its size is said.
pub proof fn bybit_instruments_make_rules(
    rd: spec_fn(Seq<char>) -> Option<Binary64>,
    instrument: BybitInstrumentModel,
    at: u64,
)
    ensures
        ({
            let rule = bybit_rule_of(rd, instrument, at);
            let lots = instrument.lot_size_filter;
            let prices = instrument.price_filter;
            &&& rule.market.exchange is BybitLinear
            &&& rule.market.symbol == instrument.symbol
            &&& rule.updated_at_ms == at
            &&& lots.min_order_qty matches Some(text) ==> rule.min_qty == rd(text)
            &&& lots.min_order_qty is None ==> rule.min_qty is None
            &&& lots.min_notional_value matches Some(text) ==> rule.min_notional == rd(text)
            &&& lots.min_notional_value is None ==> rule.min_notional is None
            &&& prices.tick_size matches Some(text) ==> rule.price_tick == rd(text)
            &&& prices.tick_size is None ==> rule.price_tick is None
            &&& lots.qty_step matches Some(text) ==> rule.qty_step == rd(text)
                && rule.qty_precision == precision_of_step(text)
            &&& lots.qty_step is None ==> rule.qty_step is None && rule.qty_precision is None
            &&& instrument.price_scale matches Some(text) ==> rule.price_precision == read_u32(text)
            &&& instrument.price_scale is None ==> rule.price_precision is None
            &&& is_number(rd, instrument.contract_size) ==> rule.contract_multiplier == rd(
                instrument.contract_size->0,
            )
            &&& !is_number(rd, instrument.contract_size) ==> rule.contract_multiplier == Some(one())
        }),
{
}

/// Rules are made exactly of the wanted symbols of Binance, in their order.
pub proof fn wanted_symbols_get_rules(
    rd: spec_fn(Seq<char>) -> Option<Binary64>,
    symbols: Seq<BinanceSymbolModel>,
    wanted: Seq<Seq<char>>,
    at: u64,
)
    ensures
        ({
            let chosen = symbols.filter(|x: BinanceSymbolModel| wanted.contains(x.symbol));
            let rules = binance_rules_of(rd, symbols, wanted, at);
            &&& rules.len() == chosen.len()
            &&& forall|i: int|
                0 <= i < rules.len() ==> #[trigger] rules[i] == binance_rule_of(rd, chosen[i], at)
        }),
    decreases symbols.len(),
{
    reveal(Seq::filter);
    if symbols.len() > 0 {
        wanted_symbols_get_rules(rd, symbols.drop_last(), wanted, at);
    }
}

/// Rules are made exactly of the wanted instruments of Bybit, in their order.
pub proof fn wanted_instruments_get_rules(
    rd: spec_fn(Seq<char>) -> Option<Binary64>,
    instruments: Seq<BybitInstrumentModel>,
    wanted: Seq<Seq<char>>,
    at: u64,
)
    ensures
        ({
            let chosen = instruments.filter(|x: BybitInstrumentModel| wanted.contains(x.symbol));
            let rules = bybit_rules_of(rd, instruments, wanted, at);
            &&& rules.len() == chosen.len()
            &&& forall|i: int|
                0 <= i < rules.len() ==> #[trigger] rules[i] == bybit_rule_of(rd, chosen[i], at)
        }),
    decreases instruments.len(),
{
    reveal(Seq::filter);
    if instruments.len() > 0 {
        wanted_instruments_get_rules(rd, instruments.drop_last(), wanted, at);
    }
}

/// An exchange is asked for the symbols of exactly the watched markets on it, in their order.
pub proof fn exchanges_are_asked_for_their_symbols(watched: Seq<MarketKeyModel>, exchange: Exchange)
    ensures
        ({
            let chosen = watched.filter(|m: MarketKeyModel| m.exchange == exchange);
            let symbols = symbols_of(on_exchange(watched, exchange));
            &&& symbols.len() == chosen.len()
            &&& forall|i: int| 0 <= i < symbols.len() ==> #[trigger] symbols[i] == chosen[i].symbol
        }),
{
    lemma_on_exchange_filters(watched, exchange);
}

proof fn lemma_on_exchange_filters(watched: Seq<MarketKeyModel>, exchange: Exchange)
    ensures
        on_exchange(watched, exchange) == watched.filter(
            |m: MarketKeyModel| m.exchange == exchange,
        ),
    decreases watched.len(),
{
    reveal(Seq::filter);
    if watched.len() > 0 {
        lemma_on_exchange_filters(watched.drop_last(), exchange);
    }
}

proof fn lemma_zeros_cut(s: Seq<char>, zeros: Seq<char>)
    requires
        forall|i: int| 0 <= i < zeros.len() ==> #[trigger] zeros[i] == '0',
        s.len() > 0 ==> s.last() != '0',
    ensures
        without_end_zeros(s + zeros) == s,
    decreases zeros.len(),
{
    if zeros.len() == 0 {
        assert(s + zeros =~= s);
    } else {
        let front = zeros.drop_last();
        assert forall|i: int| 0 <= i < front.len() implies #[trigger] front[i] == '0' by {
            assert(zeros[i] == '0');
        }
        lemma_zeros_cut(s, front);
        assert((s + zeros).last() == zeros[zeros.len() - 1]);
        assert((s + zeros).drop_last() =~= s + front);
    }
}

proof fn lemma_behind_point(whole: Seq<char>, rest: Seq<char>)
    requires
        forall|i: int| 0 <= i < whole.len() ==> #[trigger] whole[i] != '.',
    ensures
        behind_point(whole + seq!['.'] + rest) == Some(rest),
        behind_point(whole) is None,
    decreases whole.len(),
{
    let all = whole + seq!['.'] + rest;
    if whole.len() == 0 {
        assert(all.drop_first() =~= rest);
    } else {
        let tail = whole.drop_first();
        assert(whole[0] != '.');
        assert(all[0] == whole[0]);
        assert(all.drop_first() =~= tail + seq!['.'] + rest);
        assert forall|i: int| 0 <= i < tail.len() implies #[trigger] tail[i] != '.' by {
            assert(whole[i + 1] != '.');
        }
        lemma_behind_point(tail, rest);
    }
}

/// Whether every character is a decimal digit.
pub open spec fn are_digits(s: Seq<char>) -> bool {
    forall|i: int| 0 <= i < s.len() ==> '0' <= #[trigger] s[i] <= '9'
}

/// A step has as many decimals as there are digits behind its point, zeros at the end and white space
/// around it left out. A step without a point has no number of decimals.
pub proof fn decimals_of_steps_are_counted(
    before: Seq<char>,
    whole: Seq<char>,
    decimals: Seq<char>,
    zeros: Seq<char>,
    after: Seq<char>,
)
    requires
        forall|i: int| 0 <= i < before.len() ==> white(#[trigger] before[i]),
        forall|i: int| 0 <= i < after.len() ==> white(#[trigger] after[i]),
        whole.len() > 0,
        are_digits(whole),
        are_digits(decimals),
        decimals.len() > 0 ==> decimals.last() != '0',
        decimals.len() <= u32::MAX,
        forall|i: int| 0 <= i < zeros.len() ==> #[trigger] zeros[i] == '0',
    ensures
        precision_of_step(before + (whole + seq!['.'] + decimals + zeros) + after) == Some(
            decimals.len() as u32,
        ),
        precision_of_step(before + whole + after) is None,
{
    let text = whole + seq!['.'] + decimals + zeros;
    let kept = whole + seq!['.'] + decimals;
    assert('0' <= whole[0] <= '9');
    assert(text.first() == whole[0]);
    if zeros.len() > 0 {
        assert(text.last() == zeros[zeros.len() - 1]);
    } else if decimals.len() > 0 {
        assert(text.last() == decimals[decimals.len() - 1]);
    } else {
        assert(text.last() == '.');
    }
    assert('0' <= whole[whole.len() - 1] <= '9');
    lemma_trimmed_between(before, text, after);
    lemma_trimmed_between(before, whole, after);
    if decimals.len() > 0 {
        assert(kept.last() == decimals.last());
    } else {
        assert(kept.last() == '.');
    }
    lemma_zeros_cut(kept, zeros);
    assert forall|i: int| 0 <= i < whole.len() implies #[trigger] whole[i] != '.' by {
        assert('0' <= whole[i] <= '9');
    }
    lemma_behind_point(whole, decimals);
    assert(is_ascii_chars(decimals)) by {
        assert forall|i: int| 0 <= i < decimals.len() implies (
        #[trigger] decimals[i] as u32) < 128 by {
            assert('0' <= decimals[i] <= '9');
        }
    }
    is_ascii_chars_encode_utf8(decimals);
    lemma_no_point_left(whole);
}

proof fn lemma_no_point_left(s: Seq<char>)
    requires
        forall|i: int| 0 <= i < s.len() ==> #[trigger] s[i] != '.',
    ensures
        behind_point(without_end_zeros(s)) is None,
    decreases s.len(),
{
    if s.len() > 0 && s.last() == '0' {
        let front = s.drop_last();
        assert forall|i: int| 0 <= i < front.len() implies #[trigger] front[i] != '.' by {
            assert(s[i] != '.');
        }
        lemma_no_point_left(front);
    } else {
        lemma_behind_point(s, Seq::empty());
    }
}

/// A page is refused exactly if its code is not zero, and its code and message are said. Otherwise its
/// instruments stand behind those that came before, and the next page begins at its cursor, if that is
/// there and not empty.
pub proof fn pages_are_put_together(pages: BybitPagesModel, page: BybitInstrumentPageModel)
    ensures
        page_refusal(page) is Some <==> page.ret_code != 0,
        page.ret_code != 0 ==> page_refusal(page) == Some(
            "ret_code="@ + signed_numeral(page.ret_code as int) + " ret_msg="@ + page.ret_msg,
        ),
        pages.with(page).instruments == pages.instruments + page.list,
        pages.with(page).cursor is Some <==> page.next_page_cursor is Some
            && page.next_page_cursor->0.len() > 0,
        pages.with(page).cursor is Some ==> pages.with(page).cursor == page.next_page_cursor,
{
}

} // verus!
