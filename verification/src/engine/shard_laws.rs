//! What holds of a shard from message to message.

use vstd::prelude::*;

use crate::config::model::{MarketKeyModel, StrategyRecordModel};
use crate::config::planner::{ConnectionPlanModel, RuntimePlanModel, ShardPlanModel};
use crate::engine::book::{lemma_after_in_order, BookApplyResult, DepthModel};
use crate::engine::shard::{
    depth_mode_of, last_place, lemma_place_names_market, lemma_trading, order_ready,
    placed_strategies, trading, RuntimeStrategyModel, ShardActionModel, ShardRunnerModel, Turn,
};
use crate::engine::strategy::{StrategyAction, StrategyOrderPlan, StrategyStateModel};
use crate::engine::telemetry::TelemetryEventModel;
use crate::engine::types::{ShardEvent, Side};
use crate::gateway::trade_exec::{prepared, PlaceOrderReject, PreparedPlaceOrder};
use crate::market_rules::MarketRuleModel;
use crate::num::{zero, Arith, Binary64};

verus! {

/// Turns leave the books, the strategies and their places alone, and the states of strategies that
/// have none.
pub proof fn turns_touch_their_strategies_only(
    m: spec_fn(Arith) -> Binary64,
    show: spec_fn(Binary64) -> Seq<char>,
    runner: ShardRunnerModel,
    rules: Map<MarketKeyModel, MarketRuleModel>,
    ts_ms: u64,
    places: Seq<usize>,
    j: int,
)
    requires
        0 <= j < runner.states.len(),
        runner.pending.len() == runner.states.len(),
        forall|i: int| 0 <= i < places.len() ==> #[trigger] places[i] < runner.states.len(),
    ensures
        ({
            let after = runner.turns(m, show, rules, ts_ms, places).runner;
            &&& after.books == runner.books
            &&& after.strategies == runner.strategies
            &&& after.by_book == runner.by_book
            &&& after.states.len() == runner.states.len()
            &&& after.pending.len() == runner.pending.len()
            &&& !places.contains(j as usize) ==> after.states[j] == runner.states[j]
                && after.pending[j] == runner.pending[j]
        }),
    decreases places.len(),
{
    if places.len() > 0 {
        let front = places.drop_last();
        assert forall|i: int| 0 <= i < front.len() implies #[trigger] front[i]
            < runner.states.len() by {
            assert(front[i] == places[i]);
        }
        turns_touch_their_strategies_only(m, show, runner, rules, ts_ms, front, j);
        assert(places[places.len() - 1] == places.last());
        if !places.contains(j as usize) {
            assert(!front.contains(j as usize)) by {
                if front.contains(j as usize) {
                    let i = choose|i: int| 0 <= i < front.len() && front[i] == j as usize;
                    assert(places[i] == j as usize);
                }
            }
            assert(places.last() != j as usize);
        }
    }
}

/// A message changes no book but that of its market.
pub proof fn messages_touch_one_book(
    m: spec_fn(Arith) -> Binary64,
    show: spec_fn(Binary64) -> Seq<char>,
    runner: ShardRunnerModel,
    rules: Map<MarketKeyModel, MarketRuleModel>,
    ts_ms: u64,
    message: DepthModel,
    b: int,
)
    requires
        runner.ok(),
        0 <= b < runner.books.len(),
        last_place(runner.markets(), message.market()) != Some(b as usize),
        runner.books.len() <= usize::MAX,
        runner.strategies.len() <= usize::MAX,
    ensures
        runner.after_message(m, show, rules, ts_ms, message).runner.books[b] == runner.books[b],
{
    lemma_place_names_market(runner.markets(), message.market());
    match last_place(runner.markets(), message.market()) {
        None => {},
        Some(book) => {
            let with = runner.with_message(message);
            assert(runner.by_book[book as int] == trading(runner.strategies, book));
            lemma_trading(runner.strategies, book);
            assert(with.books[b] == runner.books[b]);
            if runner.books[book as int].verdict(message) == BookApplyResult::Applied
                && runner.states.len() > 0 {
                let places = with.by_book[book as int];
                assert forall|i: int| 0 <= i < places.len() implies #[trigger] places[i]
                    < with.states.len() by {
                    assert(runner.by_book[book as int][i] < runner.states.len());
                }
                turns_touch_their_strategies_only(m, show, with, rules, ts_ms, places, 0);
            } else if runner.states.len() == 0 {
                let places = with.by_book[book as int];
                if places.len() > 0 {
                    assert(runner.by_book[book as int][0] < runner.states.len());
                }
                assert(places.len() == 0);
            }
        },
    }
}

/// A message of a market that is not watched changes nothing and asks for nothing.
pub proof fn unwatched_markets_change_nothing(
    m: spec_fn(Arith) -> Binary64,
    show: spec_fn(Binary64) -> Seq<char>,
    runner: ShardRunnerModel,
    rules: Map<MarketKeyModel, MarketRuleModel>,
    ts_ms: u64,
    message: DepthModel,
)
    requires
        !runner.markets().contains(message.market()),
    ensures
        runner.after_message(m, show, rules, ts_ms, message).runner == runner,
        runner.after_message(m, show, rules, ts_ms, message).actions.len() == 0,
{
    lemma_unwatched(runner.markets(), message.market());
}

proof fn lemma_unwatched(markets: Seq<MarketKeyModel>, market: MarketKeyModel)
    requires
        !markets.contains(market),
    ensures
        last_place(markets, market) is None,
    decreases markets.len(),
{
    if markets.len() > 0 {
        assert(markets[markets.len() - 1] != market);
        assert forall|i: int| 0 <= i < markets.drop_last().len() implies #[trigger] markets.drop_last()[i]
            != market by {
            assert(markets[i] != market);
        }
        lemma_unwatched(markets.drop_last(), market);
    }
}

/// A strategy asks for something only where both its books are built and both its markets have a
/// rule; then it reports one planned order and hands on two commands.
pub proof fn orders_need_books_and_rules(
    m: spec_fn(Arith) -> Binary64,
    show: spec_fn(Binary64) -> Seq<char>,
    runner: ShardRunnerModel,
    rules: Map<MarketKeyModel, MarketRuleModel>,
    ts_ms: u64,
    k: int,
)
    requires
        runner.turn(m, show, rules, ts_ms, k).actions.len() > 0,
    ensures
        ({
            let placed = runner.strategies[k];
            &&& runner.books[placed.long_book_index as int].has_snapshot
            &&& runner.books[placed.short_book_index as int].has_snapshot
            &&& rules.contains_key(placed.long_market)
            &&& rules.contains_key(placed.short_market)
            &&& runner.turn(m, show, rules, ts_ms, k).actions.len() == 3
        }),
{
}

/// The times of a market event only serve to measure: events that are equal in all else lead to the
/// same.
pub proof fn times_only_measure(
    m: spec_fn(Arith) -> Binary64,
    show: spec_fn(Binary64) -> Seq<char>,
    runner: ShardRunnerModel,
    rules: Map<MarketKeyModel, MarketRuleModel>,
    ts_ms: u64,
    one: ShardEvent,
    other: ShardEvent,
    message: Option<DepthModel>,
)
    requires
        one is MarketWsRaw,
        other is MarketWsRaw,
        one->MarketWsRaw_connection_id@ == other->MarketWsRaw_connection_id@,
        one->MarketWsRaw_exchange == other->MarketWsRaw_exchange,
        one->MarketWsRaw_payload@ == other->MarketWsRaw_payload@,
    ensures
        runner.after_event(m, show, rules, ts_ms, one, message) == runner.after_event(
            m,
            show,
            rules,
            ts_ms,
            other,
            message,
        ),
{
}

/// The books of a new runner are in order, and a message whose prices are numbers, or that is not
/// applied, keeps all books in order.
pub proof fn books_stay_in_order(
    m: spec_fn(Arith) -> Binary64,
    show: spec_fn(Binary64) -> Seq<char>,
    runner: ShardRunnerModel,
    rules: Map<MarketKeyModel, MarketRuleModel>,
    ts_ms: u64,
    message: DepthModel,
    shard: ShardPlanModel,
    plan: RuntimePlanModel,
    enabled: Seq<StrategyRecordModel>,
    generation: u64,
)
    requires
        runner.ok(),
        runner.in_order(),
        runner.books.len() <= usize::MAX,
        runner.strategies.len() <= usize::MAX,
        last_place(runner.markets(), message.market()) matches Some(book)
            ==> runner.books[book as int].stays_in_order(message),
    ensures
        ShardRunnerModel::first(shard, plan, enabled, generation).in_order(),
        runner.after_message(m, show, rules, ts_ms, message).runner.in_order(),
{
    let after = runner.after_message(m, show, rules, ts_ms, message).runner;
    lemma_place_names_market(runner.markets(), message.market());
    match last_place(runner.markets(), message.market()) {
        None => {},
        Some(book) => {
            let with = runner.with_message(message);
            lemma_after_in_order(runner.books[book as int], message);
            assert(with.in_order());
            assert(runner.by_book[book as int] == trading(runner.strategies, book));
            lemma_trading(runner.strategies, book);
            let places = with.by_book[book as int];
            assert forall|i: int| 0 <= i < places.len() implies #[trigger] places[i]
                < with.states.len() by {
                assert(runner.by_book[book as int][i] < runner.states.len());
            }
            if places.len() > 0 {
                assert(places[0] < with.states.len());
                turns_touch_their_strategies_only(m, show, with, rules, ts_ms, places, 0);
            }
            assert(after.books == with.books);
        },
    }
}

/// Metrics are reported once.
pub proof fn metrics_are_reported_once(runner: ShardRunnerModel, ts_ms: u64, n: nat)
    requires
        n <= runner.pending.len(),
    ensures
        runner.reported().reports(ts_ms, n).len() == 0,
    decreases n,
{
    if n > 0 {
        metrics_are_reported_once(runner, ts_ms, (n - 1) as nat);
    }
}

/// The place of a market is that of the last one that is it, and there is none exactly if it is not
/// among the markets.
pub proof fn markets_are_found(markets: Seq<MarketKeyModel>, market: MarketKeyModel)
    requires
        markets.len() <= usize::MAX,
    ensures
        match last_place(markets, market) {
            Some(at) => {
                &&& at < markets.len()
                &&& markets[at as int] == market
                &&& forall|i: int| at < i < markets.len() ==> #[trigger] markets[i] != market
            },
            None => !markets.contains(market),
        },
    decreases markets.len(),
{
    if markets.len() > 0 {
        let front = markets.drop_last();
        let last = markets.len() - 1;
        markets_are_found(front, market);
        assert(markets[last] == markets.last());
        if markets.last() != market {
            match last_place(front, market) {
                Some(at) => {
                    assert forall|i: int| at < i < markets.len() implies #[trigger] markets[i]
                        != market by {
                        if i < front.len() {
                            assert(front[i] == markets[i]);
                        }
                    }
                },
                None => {
                    if markets.contains(market) {
                        let i = choose|i: int| 0 <= i < markets.len() && markets[i] == market;
                        assert(front[i] == market);
                    }
                },
            }
        }
    }
}

/// Whether a connection brings a market's depth to a shard.
pub open spec fn brings(
    connection: ConnectionPlanModel,
    shard_id: Seq<char>,
    market: MarketKeyModel,
) -> bool {
    &&& connection.shard_id == shard_id
    &&& connection.exchange == market.exchange
    &&& connection.symbols.contains(market.symbol)
}

/// A market's depth comes as the last connection that brings it to the shard says; where there is none,
/// a snapshot comes first and changes follow.
pub proof fn depth_comes_as_planned(
    connections: Seq<ConnectionPlanModel>,
    shard_id: Seq<char>,
    market: MarketKeyModel,
    k: int,
)
    ensures
        0 <= k < connections.len() && brings(connections[k], shard_id, market) && (forall|j: int|
            k < j < connections.len() ==> !#[trigger] brings(connections[j], shard_id, market))
            ==> depth_mode_of(connections, shard_id, market) == connections[k].depth_mode,
        (forall|j: int|
            0 <= j < connections.len() ==> !#[trigger] brings(connections[j], shard_id, market))
            ==> depth_mode_of(connections, shard_id, market) is SnapshotThenIncremental,
    decreases connections.len(),
{
    if connections.len() > 0 {
        let front = connections.drop_last();
        let last = connections.len() - 1;
        depth_comes_as_planned(front, shard_id, market, k);
        assert(connections[last] == connections.last());
        assert(brings(connections[last], shard_id, market) <==> connections.last().shard_id
            == shard_id && connections.last().carries(market));
        if !brings(connections[last], shard_id, market) {
            if 0 <= k < connections.len() && brings(connections[k], shard_id, market) && (forall|
                j: int,
            |
                k < j < connections.len() ==> !#[trigger] brings(
                    connections[j],
                    shard_id,
                    market,
                )) {
                assert(front[k] == connections[k]);
                assert forall|j: int| k < j < front.len() implies !#[trigger] brings(
                    front[j],
                    shard_id,
                    market,
                ) by {
                    assert(front[j] == connections[j]);
                    assert(!brings(connections[j], shard_id, market));
                }
            }
            if forall|j: int|
                0 <= j < connections.len() ==> !#[trigger] brings(
                    connections[j],
                    shard_id,
                    market,
                ) {
                assert forall|j: int| 0 <= j < front.len() implies !#[trigger] brings(
                    front[j],
                    shard_id,
                    market,
                ) by {
                    assert(front[j] == connections[j]);
                    assert(!brings(connections[j], shard_id, market));
                }
            }
        }
    }
}

/// Whether a strategy runs in a shard: it is one of the shard's, and both its markets are watched.
pub open spec fn runs_here(shard: ShardPlanModel, strategy: StrategyRecordModel) -> bool {
    let long = strategy.config.long_leg;
    let short = strategy.config.short_leg;
    &&& shard.strategy_ids.contains(strategy.config.id)
    &&& shard.subscribed_markets.contains(
        MarketKeyModel { exchange: long.exchange, symbol: long.symbol },
    )
    &&& shard.subscribed_markets.contains(
        MarketKeyModel { exchange: short.exchange, symbol: short.symbol },
    )
}

/// Whether a strategy has been placed: its markets are those of its legs, and its books are theirs.
pub open spec fn is_placed(
    shard: ShardPlanModel,
    strategy: StrategyRecordModel,
    placed: RuntimeStrategyModel,
) -> bool {
    let long = strategy.config.long_leg;
    let short = strategy.config.short_leg;
    let markets = shard.subscribed_markets;
    &&& placed.strategy == strategy
    &&& placed.long_market == (MarketKeyModel { exchange: long.exchange, symbol: long.symbol })
    &&& placed.short_market == (MarketKeyModel { exchange: short.exchange, symbol: short.symbol })
    &&& placed.long_book_index < markets.len()
    &&& placed.short_book_index < markets.len()
    &&& markets[placed.long_book_index as int] == placed.long_market
    &&& markets[placed.short_book_index as int] == placed.short_market
}

proof fn lemma_placed(shard: ShardPlanModel, enabled: Seq<StrategyRecordModel>)
    requires
        shard.subscribed_markets.len() <= usize::MAX,
    ensures
        ({
            let placed = placed_strategies(shard, enabled);
            let here = enabled.filter(|s: StrategyRecordModel| runs_here(shard, s));
            &&& placed.len() == here.len()
            &&& forall|i: int|
                0 <= i < placed.len() ==> is_placed(shard, here[i], #[trigger] placed[i])
        }),
    decreases enabled.len(),
{
    reveal(Seq::filter);
    if enabled.len() > 0 {
        let front = enabled.drop_last();
        let p = |s: StrategyRecordModel| runs_here(shard, s);
        lemma_placed(shard, front);
        let last = enabled.last();
        markets_are_found(shard.subscribed_markets, last.config.long_leg.market());
        markets_are_found(shard.subscribed_markets, last.config.short_leg.market());
        let markets = shard.subscribed_markets;
        if last_place(markets, last.config.long_leg.market()) is Some {
            assert(markets.contains(last.config.long_leg.market()));
        }
        if last_place(markets, last.config.short_leg.market()) is Some {
            assert(markets.contains(last.config.short_leg.market()));
        }
        let before = placed_strategies(shard, front);
        let placed = placed_strategies(shard, enabled);
        let here = enabled.filter(p);
        assert forall|i: int| 0 <= i < placed.len() implies is_placed(
            shard,
            here[i],
            #[trigger] placed[i],
        ) by {
            if i < before.len() {
                assert(placed[i] == before[i]);
                assert(here[i] == front.filter(p)[i]);
                assert(is_placed(shard, front.filter(p)[i], before[i]));
            }
        }
    }
}

proof fn lemma_trading_exactly(strategies: Seq<RuntimeStrategyModel>, book: usize, k: int)
    requires
        strategies.len() <= usize::MAX,
        0 <= k < strategies.len(),
    ensures
        trading(strategies, book).contains(k as usize) <==> strategies[k].long_book_index == book
            || strategies[k].short_book_index == book,
    decreases strategies.len(),
{
    let front = strategies.drop_last();
    let before = trading(front, book);
    let all = trading(strategies, book);
    let last = strategies.len() - 1;
    lemma_trading(front, book);
    if k < last {
        lemma_trading_exactly(front, book, k);
        assert(front[k] == strategies[k]);
        if before.contains(k as usize) {
            let i = choose|i: int| 0 <= i < before.len() && before[i] == k as usize;
            assert(all[i] == k as usize);
        }
        if all.contains(k as usize) {
            let i = choose|i: int| 0 <= i < all.len() && all[i] == k as usize;
            assert(i < before.len());
            assert(before[i] == k as usize);
        }
    } else {
        if all.contains(k as usize) {
            let i = choose|i: int| 0 <= i < all.len() && all[i] == k as usize;
            if i < before.len() {
                assert(before[i] < front.len());
            }
        }
        if strategies.last().long_book_index == book || strategies.last().short_book_index == book {
            assert(all[before.len() as int] == k as usize);
        }
    }
}

/// A runner begins as its shard is planned: with an empty book for each watched market, in their order,
/// and with exactly the enabled strategies of the shard whose markets are both watched, in their order,
/// each placed at its books. No strategy holds or waits for anything, and nothing is to be reported.
pub proof fn shards_begin_as_planned(
    shard: ShardPlanModel,
    plan: RuntimePlanModel,
    enabled: Seq<StrategyRecordModel>,
    generation: u64,
    b: int,
    k: int,
)
    requires
        shard.subscribed_markets.len() <= usize::MAX,
        enabled.len() <= usize::MAX,
    ensures
        ({
            let runner = ShardRunnerModel::first(shard, plan, enabled, generation);
            let here = enabled.filter(|s: StrategyRecordModel| runs_here(shard, s));
            &&& runner.shard_id == shard.shard_id
            &&& runner.generation == generation
            &&& runner.books.len() == shard.subscribed_markets.len()
            &&& runner.by_book.len() == runner.books.len()
            &&& runner.strategies.len() == here.len()
            &&& runner.states.len() == here.len()
            &&& runner.pending.len() == here.len()
            &&& 0 <= b < runner.books.len() ==> {
                let book = runner.books[b];
                &&& book.market == shard.subscribed_markets[b]
                &&& book.mode == depth_mode_of(plan.connections, shard.shard_id, book.market)
                &&& !book.has_snapshot
                &&& book.last_sequence is None
                &&& book.bids.len() == 0
                &&& book.asks.len() == 0
            }
            &&& 0 <= k < here.len() ==> {
                let state = runner.states[k];
                &&& is_placed(shard, here[k], runner.strategies[k])
                &&& state.strategy_id == Some(here[k].config.id)
                &&& state.current_pair_notional.eq_num(zero())
                &&& state.pending_open_notional.eq_num(zero())
                &&& state.pending_close_notional.eq_num(zero())
                &&& state.active_order_count == 0
                &&& state.last_open_spread_pct is None
                &&& state.last_close_spread_pct is None
                &&& state.next_order_seq == 0
                &&& runner.pending[k] is None
            }
            &&& 0 <= b < runner.books.len() && 0 <= k < here.len() ==> (
            runner.by_book[b].contains(k as usize) <==> runner.strategies[k].long_book_index == b
                || runner.strategies[k].short_book_index == b)
        }),
{
    lemma_placed(shard, enabled);
    let strategies = placed_strategies(shard, enabled);
    let here = enabled.filter(|s: StrategyRecordModel| runs_here(shard, s));
    enabled.lemma_filter_len(|s: StrategyRecordModel| runs_here(shard, s));
    if 0 <= k < here.len() {
        assert(is_placed(shard, here[k], strategies[k]));
        if 0 <= b < shard.subscribed_markets.len() {
            lemma_trading_exactly(strategies, b as usize, k);
        }
    }
}

/// The strategies that trade a book stand in ascending order, each once.
pub proof fn traders_stand_in_order(
    strategies: Seq<RuntimeStrategyModel>,
    book: usize,
    i: int,
    j: int,
)
    requires
        strategies.len() <= usize::MAX,
        0 <= i < j < trading(strategies, book).len(),
    ensures
        trading(strategies, book)[i] < trading(strategies, book)[j],
        trading(strategies, book)[j] < strategies.len(),
{
    lemma_trading(strategies, book);
}

/// The metrics of a strategy are what it holds and waits for, and the spreads that it last saw.
pub proof fn metrics_show_the_state(state: StrategyStateModel)
    ensures
        state.metrics().open_spread_pct == state.last_open_spread_pct,
        state.metrics().close_spread_pct == state.last_close_spread_pct,
        state.metrics().current_pair_notional == state.current_pair_notional,
        state.metrics().pending_open_notional == state.pending_open_notional,
        state.metrics().pending_close_notional == state.pending_close_notional,
        state.metrics().active_order_count == state.active_order_count,
{
}

/// Whether a planned pair of orders is another one in the shape that both markets' rules ask for: each
/// leg's order is prepared by the rule of its own market, as a buyer or as a seller, and the notional is
/// the smaller of both.
pub open spec fn is_prepared(
    m: spec_fn(Arith) -> Binary64,
    long_rule: MarketRuleModel,
    short_rule: MarketRuleModel,
    plan: StrategyOrderPlan,
    long: PreparedPlaceOrder,
    short: PreparedPlaceOrder,
) -> bool {
    let opens = plan.action == StrategyAction::Open;
    &&& prepared(
        m,
        plan.long_qty,
        Some(plan.long_limit_price),
        if opens {
            Side::Buy
        } else {
            Side::Sell
        },
        long_rule,
    ) == Ok::<PreparedPlaceOrder, PlaceOrderReject>(long)
    &&& prepared(
        m,
        plan.short_qty,
        Some(plan.short_limit_price),
        if opens {
            Side::Sell
        } else {
            Side::Buy
        },
        short_rule,
    ) == Ok::<PreparedPlaceOrder, PlaceOrderReject>(short)
}

/// A plan is carried out exactly if both markets have a rule, both orders can be placed by it, and the
/// smaller of their notionals is above zero. What is carried out then has the quantities and the prices
/// of the prepared orders and that notional, and keeps action and spread.
pub proof fn plans_are_prepared_by_rules(
    m: spec_fn(Arith) -> Binary64,
    rules: Map<MarketKeyModel, MarketRuleModel>,
    long_market: MarketKeyModel,
    short_market: MarketKeyModel,
    plan: StrategyOrderPlan,
    long: PreparedPlaceOrder,
    short: PreparedPlaceOrder,
)
    ensures
        !rules.contains_key(long_market) || !rules.contains_key(short_market) ==> order_ready(
            m,
            rules,
            long_market,
            short_market,
            plan,
        ) is None,
        order_ready(m, rules, long_market, short_market, plan) is Some ==> exists|
            a: PreparedPlaceOrder,
            b: PreparedPlaceOrder,
        | #[trigger]
            is_prepared(m, rules[long_market], rules[short_market], plan, a, b),
        rules.contains_key(long_market) && rules.contains_key(short_market) && is_prepared(
            m,
            rules[long_market],
            rules[short_market],
            plan,
            long,
            short,
        ) ==> {
            let notional_usd = long.notional_usd->0.min_num(short.notional_usd->0);
            &&& order_ready(m, rules, long_market, short_market, plan) is Some <==> zero().lt(
                notional_usd,
            )
            &&& order_ready(m, rules, long_market, short_market, plan) matches Some(ready) ==> {
                &&& ready.action == plan.action
                &&& ready.spread_pct == plan.spread_pct
                &&& ready.notional_usd == notional_usd
                &&& ready.long_qty == long.qty
                &&& ready.short_qty == short.qty
                &&& Some(ready.long_limit_price) == long.limit_price
                &&& Some(ready.short_limit_price) == short.limit_price
            }
        },
{
    if order_ready(m, rules, long_market, short_market, plan) is Some {
        let a = prepared(
            m,
            plan.long_qty,
            Some(plan.long_limit_price),
            plan.action.long_side_model(),
            rules[long_market],
        )->Ok_0;
        let b = prepared(
            m,
            plan.short_qty,
            Some(plan.short_limit_price),
            plan.action.short_side_model(),
            rules[short_market],
        )->Ok_0;
        assert(is_prepared(m, rules[long_market], rules[short_market], plan, a, b));
    }
}

/// A strategy's turn. Where one of its books is not built yet nothing happens. Otherwise it looks at its
/// own two books. If it plans orders that the rules of its markets admit, these are committed to,
/// reported as planned, and handed on, the one on the long market first; if not, nothing is done. Either
/// way its metrics are to be reported, and no other strategy and no book is touched.
pub proof fn strategies_take_their_turns(
    m: spec_fn(Arith) -> Binary64,
    show: spec_fn(Binary64) -> Seq<char>,
    runner: ShardRunnerModel,
    rules: Map<MarketKeyModel, MarketRuleModel>,
    ts_ms: u64,
    k: int,
)
    requires
        0 <= k < runner.strategies.len(),
        runner.states.len() == runner.strategies.len(),
        runner.pending.len() == runner.strategies.len(),
    ensures
        ({
            let placed = runner.strategies[k];
            let config = placed.strategy.config;
            let long = runner.books[placed.long_book_index as int];
            let short = runner.books[placed.short_book_index as int];
            let turn = runner.turn(m, show, rules, ts_ms, k);
            let before = runner.states[k];
            let plan = before.planned(m, config, long, short);
            let seen = before.seen(m, config, long, short);
            let ready = order_ready(m, rules, placed.long_market, placed.short_market, plan->0);
            &&& turn.runner.shard_id == runner.shard_id
            &&& turn.runner.generation == runner.generation
            &&& turn.runner.books == runner.books
            &&& turn.runner.strategies == runner.strategies
            &&& turn.runner.by_book == runner.by_book
            &&& turn.runner.states.len() == runner.states.len()
            &&& turn.runner.pending.len() == runner.pending.len()
            &&& forall|j: int|
                0 <= j < runner.states.len() && j != k ==> #[trigger] turn.runner.states[j]
                    == runner.states[j] && turn.runner.pending[j] == runner.pending[j]
            &&& if !long.has_snapshot || !short.has_snapshot {
                &&& turn.runner == runner
                &&& turn.actions.len() == 0
            } else {
                &&& turn.runner.pending[k] == Some(turn.runner.states[k].metrics())
                &&& if plan is Some && ready is Some {
                    &&& turn.runner.states[k] == seen.committed(m, ready->0)
                    &&& turn.actions.len() == 3
                    &&& is_plan_report(show, runner, config.id, seen, ready->0, ts_ms, turn.actions[0])
                    &&& turn.actions[1] == ShardActionModel::Command(
                        seen.orders_of(runner.shard_id, config, ready->0)[0],
                    )
                    &&& turn.actions[2] == ShardActionModel::Command(
                        seen.orders_of(runner.shard_id, config, ready->0)[1],
                    )
                } else {
                    &&& turn.runner.states[k] == seen
                    &&& turn.actions.len() == 0
                }
            }
        }),
{
}

/// Whether an action reports a planned pair of orders: for the runner's generation, shard and strategy,
/// with the spreads that were seen, the notional, and a message that names the action, the notional and
/// both quantities.
pub open spec fn is_plan_report(
    show: spec_fn(Binary64) -> Seq<char>,
    runner: ShardRunnerModel,
    strategy: Seq<char>,
    seen: StrategyStateModel,
    plan: StrategyOrderPlan,
    now: u64,
    action: ShardActionModel,
) -> bool {
    match action {
        ShardActionModel::Telemetry(TelemetryEventModel::OrderPlanned { generation, event }) => {
            &&& generation == runner.generation
            &&& event.ts_ms == now
            &&& event.shard_id == runner.shard_id
            &&& event.strategy_id == strategy
            &&& event.kind is OpenPlanned <==> plan.action is Open
            &&& event.kind is ClosePlanned <==> plan.action is Close
            &&& event.open_spread_pct == seen.last_open_spread_pct
            &&& event.close_spread_pct == seen.last_close_spread_pct
            &&& event.notional_usd == Some(plan.notional_usd)
            &&& event.message == (if plan.action is Open {
                "Open"@
            } else {
                "Close"@
            }) + " planned notional="@ + show(plan.notional_usd) + " long_qty="@ + show(
                plan.long_qty,
            ) + " short_qty="@ + show(plan.short_qty)
        },
        _ => false,
    }
}

/// The actions of turns, one turn after the other.
pub open spec fn all_actions(turns: Seq<Turn>) -> Seq<ShardActionModel>
    decreases turns.len(),
{
    if turns.len() == 0 {
        Seq::empty()
    } else {
        all_actions(turns.drop_last()) + turns.last().actions
    }
}

/// Strategies have their turns one after the other, in the order of their places: each begins where the
/// one before it ended, and what they ask for is handed on in that order.
pub proof fn turns_follow_one_another(
    m: spec_fn(Arith) -> Binary64,
    show: spec_fn(Binary64) -> Seq<char>,
    runner: ShardRunnerModel,
    rules: Map<MarketKeyModel, MarketRuleModel>,
    ts_ms: u64,
    places: Seq<usize>,
) -> (each: Seq<Turn>)
    ensures
        each.len() == places.len(),
        forall|i: int|
            0 <= i < each.len() ==> #[trigger] each[i] == (if i == 0 {
                runner
            } else {
                each[i - 1].runner
            }).turn(m, show, rules, ts_ms, places[i] as int),
        runner.turns(m, show, rules, ts_ms, places).runner == (if each.len() == 0 {
            runner
        } else {
            each.last().runner
        }),
        runner.turns(m, show, rules, ts_ms, places).actions == all_actions(each),
    decreases places.len(),
{
    if places.len() == 0 {
        Seq::empty()
    } else {
        let front = places.drop_last();
        let before = turns_follow_one_another(m, show, runner, rules, ts_ms, front);
        let reached = runner.turns(m, show, rules, ts_ms, front);
        let last = reached.runner.turn(m, show, rules, ts_ms, places.last() as int);
        let each = before.push(last);
        assert(each.drop_last() =~= before);
        assert forall|i: int| 0 <= i < each.len() implies #[trigger] each[i] == (if i == 0 {
            runner
        } else {
            each[i - 1].runner
        }).turn(m, show, rules, ts_ms, places[i] as int) by {
            if i < before.len() {
                assert(each[i] == before[i]);
                assert(front[i] == places[i]);
            }
        }
        each
    }
}

/// A message goes to the book of its market and to no other. Where it is applied, exactly the strategies
/// that trade that book have their turns with the new book; where it is not, nothing is done.
pub proof fn messages_reach_their_book(
    m: spec_fn(Arith) -> Binary64,
    show: spec_fn(Binary64) -> Seq<char>,
    runner: ShardRunnerModel,
    rules: Map<MarketKeyModel, MarketRuleModel>,
    ts_ms: u64,
    message: DepthModel,
    at: usize,
)
    requires
        runner.books.len() <= usize::MAX,
        at < runner.books.len(),
        forall|i: int| at < i < runner.books.len() ==> (#[trigger] runner.books[i]).market
            != runner.books[at as int].market,
        ({
            let market = match message {
                DepthModel::Snapshot { market, .. } => market,
                DepthModel::Delta { market, .. } => market,
            };
            runner.books[at as int].market == market
        }),
    ensures
        ({
            let book = runner.books[at as int];
            let with = ShardRunnerModel {
                shard_id: runner.shard_id,
                books: runner.books.update(at as int, book.after(message)),
                strategies: runner.strategies,
                by_book: runner.by_book,
                states: runner.states,
                pending: runner.pending,
                generation: runner.generation,
            };
            let turn = runner.after_message(m, show, rules, ts_ms, message);
            if book.verdict(message) == BookApplyResult::Applied {
                turn == with.turns(m, show, rules, ts_ms, runner.by_book[at as int])
            } else {
                turn.runner == with && turn.actions.len() == 0
            }
        }),
{
    let markets = runner.markets();
    markets_are_found(markets, message.market());
    assert(markets[at as int] == message.market());
    assert(markets.contains(message.market()));
    let found = last_place(markets, message.market())->0;
    if found < at {
        assert(markets[at as int] != message.market());
    } else if at < found {
        assert(runner.books[found as int].market != runner.books[at as int].market);
        assert(markets[found as int] == runner.books[found as int].market);
    }
}

/// Only market events with a message lead to anything.
pub proof fn other_events_change_nothing(
    m: spec_fn(Arith) -> Binary64,
    show: spec_fn(Binary64) -> Seq<char>,
    runner: ShardRunnerModel,
    rules: Map<MarketKeyModel, MarketRuleModel>,
    ts_ms: u64,
    event: ShardEvent,
    message: Option<DepthModel>,
)
    ensures
        ({
            let turn = runner.after_event(m, show, rules, ts_ms, event, message);
            &&& event is MarketWsRaw && message is Some ==> turn == runner.after_message(
                m,
                show,
                rules,
                ts_ms,
                message->0,
            )
            &&& event !is MarketWsRaw || message is None ==> turn.runner == runner
                && turn.actions.len() == 0
        }),
{
}

/// Reports are made exactly of the strategies whose metrics have not been reported, in the order of the
/// strategies: each tells the generation, the shard, the strategy, its metrics and the time. Then
/// nothing is to be reported, and nothing else has changed.
pub proof fn waiting_metrics_are_reported(
    runner: ShardRunnerModel,
    ts_ms: u64,
    n: nat,
) -> (of: Seq<int>)
    requires
        n <= runner.pending.len(),
    ensures
        runner.reports(ts_ms, n).len() == of.len(),
        forall|i: int|
            0 <= i < of.len() ==> 0 <= #[trigger] of[i] < n && runner.pending[of[i]] is Some
                && runner.reports(ts_ms, n)[i] == (TelemetryEventModel::MetricsUpdated {
                generation: runner.generation,
                shard_id: runner.shard_id,
                strategy_id: runner.strategies[of[i]].strategy.config.id,
                metrics: runner.pending[of[i]]->0,
                ts_ms,
            }),
        forall|i: int, j: int| 0 <= i < j < of.len() ==> #[trigger] of[i] < #[trigger] of[j],
        forall|k: int| 0 <= k < n && (#[trigger] runner.pending[k]) is Some ==> of.contains(k),
        runner.reported().shard_id == runner.shard_id,
        runner.reported().generation == runner.generation,
        runner.reported().books == runner.books,
        runner.reported().strategies == runner.strategies,
        runner.reported().by_book == runner.by_book,
        runner.reported().states == runner.states,
        runner.reported().pending.len() == runner.pending.len(),
        forall|k: int|
            0 <= k < runner.pending.len() ==> (#[trigger] runner.reported().pending[k]) is None,
    decreases n,
{
    if n == 0 {
        Seq::empty()
    } else {
        let before = waiting_metrics_are_reported(runner, ts_ms, (n - 1) as nat);
        if runner.pending[n - 1] is Some {
            let of = before.push(n - 1);
            assert forall|k: int| 0 <= k < n && (
            #[trigger] runner.pending[k]) is Some implies of.contains(k) by {
                if k < n - 1 {
                    assert(before.contains(k));
                    let i = choose|i: int| 0 <= i < before.len() && before[i] == k;
                    assert(of[i] == k);
                } else {
                    assert(of[before.len() as int] == k);
                }
            }
            of
        } else {
            before
        }
    }
}

/// A message of a market that no book is of changes nothing and asks for nothing.
pub proof fn messages_of_other_markets_change_nothing(
    m: spec_fn(Arith) -> Binary64,
    show: spec_fn(Binary64) -> Seq<char>,
    runner: ShardRunnerModel,
    rules: Map<MarketKeyModel, MarketRuleModel>,
    ts_ms: u64,
    message: DepthModel,
)
    requires
        runner.books.len() <= usize::MAX,
        ({
            let market = match message {
                DepthModel::Snapshot { market, .. } => market,
                DepthModel::Delta { market, .. } => market,
            };
            forall|i: int| 0 <= i < runner.books.len() ==> (#[trigger] runner.books[i]).market != market
        }),
    ensures
        runner.after_message(m, show, rules, ts_ms, message).runner == runner,
        runner.after_message(m, show, rules, ts_ms, message).actions.len() == 0,
{
    let markets = runner.markets();
    markets_are_found(markets, message.market());
    if last_place(markets, message.market()) is Some {
        let at = last_place(markets, message.market())->0 as int;
        assert(markets[at] == runner.books[at].market);
    }
}

} // verus!
