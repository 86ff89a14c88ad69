use perp_arb::config::model::{Exchange, MarketKey};
use perp_arb::market_rules::{
    binance_rule, binance_rules, bybit_rule, decimal_precision_from_step, wanted_symbols,
    BinanceFilter, BinanceSymbol, BybitInstrument, BybitInstrumentPage, BybitLotSizeFilter,
    BybitPages, BybitPriceFilter, MarketRule, MarketRuleStore,
};
use perp_arb::num::Binary64;

fn number(value: f64) -> Binary64 {
    Binary64 { bits: value.to_bits() }
}

fn parse(text: &str) -> Option<Binary64> {
    text.parse::<f64>().ok().map(number)
}

fn market(exchange: Exchange, symbol: &str) -> MarketKey {
    MarketKey::new(exchange, symbol.to_owned())
}

fn text(value: &str) -> Option<String> {
    Some(value.to_owned())
}

fn filter(filter_type: &str) -> BinanceFilter {
    BinanceFilter {
        filter_type: filter_type.to_owned(),
        tick_size: None,
        step_size: None,
        min_qty: None,
        notional: None,
        min_notional: None,
    }
}

fn symbol(symbol: &str, filters: Vec<BinanceFilter>) -> BinanceSymbol {
    BinanceSymbol {
        symbol: symbol.to_owned(),
        price_precision: Some(2),
        quantity_precision: Some(3),
        filters,
    }
}

fn instrument(symbol: &str) -> BybitInstrument {
    BybitInstrument {
        symbol: symbol.to_owned(),
        price_scale: text("2"),
        price_filter: BybitPriceFilter { tick_size: text("0.50") },
        lot_size_filter: BybitLotSizeFilter {
            min_order_qty: text("0.001"),
            min_notional_value: text("5"),
            qty_step: text("0.0010"),
        },
        contract_size: None,
    }
}

fn page(list: Vec<BybitInstrument>, cursor: Option<&str>) -> BybitInstrumentPage {
    BybitInstrumentPage {
        ret_code: 0,
        ret_msg: "OK".to_owned(),
        list,
        next_page_cursor: cursor.map(|cursor| cursor.to_owned()),
    }
}

fn rule(exchange: Exchange, symbol: &str, tick: f64) -> MarketRule {
    MarketRule {
        market: market(exchange, symbol),
        min_qty: None,
        min_notional: None,
        price_tick: Some(number(tick)),
        qty_step: None,
        price_precision: None,
        qty_precision: None,
        contract_multiplier: None,
        updated_at_ms: 1,
    }
}

#[test]
fn binance_filters_make_a_rule() {
    let mut price = filter("PRICE_FILTER");
    price.tick_size = text("0.10");
    let mut lot = filter("LOT_SIZE");
    lot.step_size = text("0.001");
    lot.min_qty = text("not a number");
    let mut market_lot = filter("MARKET_LOT_SIZE");
    market_lot.step_size = text("9");
    market_lot.min_qty = text("0.01");
    let mut notional = filter("MIN_NOTIONAL");
    notional.notional = text("5");
    notional.min_notional = text("7");
    let mut other = filter("PERCENT_PRICE");
    other.tick_size = text("3");
    let made = binance_rule(
        &symbol("BTCUSDT", vec![price, lot, market_lot, notional, other]),
        77,
        &parse,
    );
    assert!(made.market.same(&market(Exchange::BinanceUsdM, "BTCUSDT")));
    assert_eq!(made.price_tick, Some(number(0.1)));
    assert_eq!(made.qty_step, Some(number(0.001)));
    assert_eq!(made.min_qty, Some(number(0.01)));
    assert_eq!(made.min_notional, Some(number(5.0)));
    assert_eq!(made.price_precision, Some(2));
    assert_eq!(made.qty_precision, Some(3));
    assert_eq!(made.contract_multiplier, Some(number(1.0)));
    assert_eq!(made.updated_at_ms, 77);
}

#[test]
fn the_last_price_filter_counts() {
    let mut first = filter("PRICE_FILTER");
    first.tick_size = text("0.10");
    let second = filter("PRICE_FILTER");
    let made = binance_rule(&symbol("X", vec![first, second]), 1, &parse);
    assert_eq!(made.price_tick, None);
    let mut notional = filter("NOTIONAL");
    notional.min_notional = text("20");
    let made = binance_rule(&symbol("X", vec![notional]), 1, &parse);
    assert_eq!(made.min_notional, Some(number(20.0)));
}

#[test]
fn only_wanted_symbols_get_rules() {
    let watched = vec![
        market(Exchange::BinanceUsdM, "A"),
        market(Exchange::BinanceUsdM, "B"),
        market(Exchange::BybitLinear, "C"),
    ];
    let wanted = wanted_symbols(&watched, Exchange::BinanceUsdM);
    assert_eq!(wanted, ["A", "B"]);
    let symbols = vec![symbol("C", vec![]), symbol("B", vec![]), symbol("A", vec![])];
    let rules = binance_rules(&symbols, &wanted, 1, &parse);
    let names: Vec<&str> = rules.iter().map(|rule| rule.market.symbol.as_str()).collect();
    assert_eq!(names, ["B", "A"]);
}

#[test]
fn bybit_instruments_make_rules() {
    let made = bybit_rule(&instrument("BTCUSDT"), 5, &parse);
    assert!(made.market.same(&market(Exchange::BybitLinear, "BTCUSDT")));
    assert_eq!(made.price_tick, Some(number(0.5)));
    assert_eq!(made.qty_step, Some(number(0.001)));
    assert_eq!(made.min_qty, Some(number(0.001)));
    assert_eq!(made.min_notional, Some(number(5.0)));
    assert_eq!(made.price_precision, Some(2));
    assert_eq!(made.qty_precision, Some(3));
    assert_eq!(made.contract_multiplier, Some(number(1.0)));
    let mut odd = instrument("X");
    odd.price_scale = text("x");
    odd.contract_size = text("0.1");
    odd.lot_size_filter.qty_step = None;
    let made = bybit_rule(&odd, 5, &parse);
    assert_eq!(made.price_precision, None);
    assert_eq!(made.qty_precision, None);
    assert_eq!(made.qty_step, None);
    assert_eq!(made.contract_multiplier, Some(number(0.1)));
}

#[test]
fn the_precision_of_a_step_is_the_number_of_its_decimals() {
    assert_eq!(decimal_precision_from_step("0.001"), Some(3));
    assert_eq!(decimal_precision_from_step(" 0.0100 "), Some(2));
    assert_eq!(decimal_precision_from_step("1.0"), Some(0));
    assert_eq!(decimal_precision_from_step("1"), None);
    assert_eq!(decimal_precision_from_step("10"), None);
    assert_eq!(decimal_precision_from_step(""), None);
    assert_eq!(decimal_precision_from_step("1.2.3"), Some(3));
}

#[test]
fn bybit_pages_are_gathered() {
    let mut pages = BybitPages::new();
    assert_eq!(pages.cursor, None);
    assert_eq!(pages.accept(page(vec![instrument("A")], Some("next"))), Ok(true));
    assert_eq!(pages.cursor, text("next"));
    assert_eq!(pages.accept(page(vec![instrument("B"), instrument("C")], Some(""))), Ok(false));
    assert_eq!(pages.cursor, None);
    let rules = pages.rules(&vec!["C".to_owned(), "A".to_owned()], 1, &parse);
    let names: Vec<&str> = rules.iter().map(|rule| rule.market.symbol.as_str()).collect();
    assert_eq!(names, ["A", "C"]);
    assert_eq!(BybitPages::new().accept(page(vec![], None)), Ok(false));
}

#[test]
fn a_refused_page_is_an_error() {
    let mut pages = BybitPages::new();
    let mut refused = page(vec![], None);
    refused.ret_code = -10001;
    refused.ret_msg = "bad".to_owned();
    assert_eq!(pages.accept(refused), Err("ret_code=-10001 ret_msg=bad".to_owned()));
}

#[test]
fn rules_are_kept_for_watched_markets_only() {
    let mut store = MarketRuleStore::new();
    assert_eq!(store.snapshot().len(), 0);
    assert_eq!(store.snapshot().updated_at_ms, 0);
    let a = market(Exchange::BinanceUsdM, "A");
    let b = market(Exchange::BybitLinear, "B");
    store.watch_markets(vec![b.clone(), a.clone(), b.clone()]);
    let watched = store.watched_markets();
    assert_eq!(watched.len(), 2);
    assert!(watched[0].same(&a));
    store.refresh_market_rules(
        &watched,
        vec![
            rule(Exchange::BinanceUsdM, "A", 1.0),
            rule(Exchange::BybitLinear, "B", 2.0),
            rule(Exchange::BybitLinear, "C", 3.0),
        ],
    );
    assert_eq!(store.snapshot().len(), 2);
    assert_eq!(store.get(&b).unwrap().price_tick, Some(number(2.0)));
    assert!(store.get(&market(Exchange::BybitLinear, "C")).is_none());
    // What was fetched wins, what was not stays.
    store.refresh_market_rules(&watched, vec![rule(Exchange::BinanceUsdM, "A", 9.0)]);
    assert_eq!(store.get(&a).unwrap().price_tick, Some(number(9.0)));
    assert_eq!(store.get(&b).unwrap().price_tick, Some(number(2.0)));
    assert!(store.snapshot().updated_at_ms > 0);
    // What is watched no longer goes.
    store.watch_markets(vec![a.clone()]);
    let watched = store.watched_markets();
    store.refresh_market_rules(&watched, vec![]);
    assert!(store.get(&b).is_none());
    assert_eq!(store.snapshot().len(), 1);
}

#[test]
fn nothing_is_refreshed_where_nothing_is_watched() {
    let mut store = MarketRuleStore::new();
    store.refresh_market_rules(&vec![], vec![rule(Exchange::BinanceUsdM, "A", 1.0)]);
    assert_eq!(store.snapshot().len(), 0);
    assert_eq!(store.snapshot().updated_at_ms, 0);
}
