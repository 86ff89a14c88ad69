//! Shards: books and the strategies that trade them.

use vstd::prelude::*;

use crate::config::ids::{ShardId, StrategyId};
use crate::config::model::{
    DepthMode, MarketKey, MarketKeyModel, StrategyRecord, StrategyRecordModel,
};
use crate::config::planner::{
    ConnectionPlan, ConnectionPlanModel, RuntimePlan, RuntimePlanModel, ShardPlan, ShardPlanModel,
};
use crate::engine::book::{BookApplyResult, BookModel, DepthModel, LocalBookState, RawDepthMessage};
use crate::engine::strategy::{
    strategy_markets, StrategyAction, StrategyOrderPlan, StrategyRuntimeState, StrategyStateModel,
};
use crate::engine::telemetry::{
    StrategyMatchEvent, StrategyMatchEventKind, StrategyMatchEventModel, StrategyRuntimeMetrics,
    StrategyTelemetryEvent, TelemetryEventModel,
};
use crate::engine::types::{ShardEvent, TradeCommand, TradeCommandModel};
use crate::gateway::trade_exec::{prepare_place_order, prepared, PreparedPlaceOrder};
use crate::market_rules::{MarketRule, MarketRuleModel, MarketRuleSnapshot};
use crate::num::{answers_all, computes, renders, shows_all, zero, Arith, Binary64};

verus! {

/// A strategy in a shard, with the places of its books.
#[derive(Debug)]
pub struct RuntimeStrategy {
    pub strategy: StrategyRecord,
    pub long_market: MarketKey,
    pub short_market: MarketKey,
    pub long_book_index: usize,
    pub short_book_index: usize,
}

/// What a [`RuntimeStrategy`] holds.
#[verifier::ext_equal]
pub struct RuntimeStrategyModel {
    pub strategy: StrategyRecordModel,
    pub long_market: MarketKeyModel,
    pub short_market: MarketKeyModel,
    pub long_book_index: usize,
    pub short_book_index: usize,
}

impl View for RuntimeStrategy {
    type V = RuntimeStrategyModel;

    open spec fn view(&self) -> RuntimeStrategyModel {
        RuntimeStrategyModel {
            strategy: self.strategy@,
            long_market: self.long_market@,
            short_market: self.short_market@,
            long_book_index: self.long_book_index,
            short_book_index: self.short_book_index,
        }
    }
}

impl DeepView for RuntimeStrategy {
    type V = RuntimeStrategyModel;

    open spec fn deep_view(&self) -> RuntimeStrategyModel {
        self@
    }
}

/// The place of the last market that is `market`.
pub open spec fn last_place(markets: Seq<MarketKeyModel>, market: MarketKeyModel) -> Option<usize>
    decreases markets.len(),
{
    if markets.len() == 0 {
        None
    } else if markets.last() == market {
        Some((markets.len() - 1) as usize)
    } else {
        last_place(markets.drop_last(), market)
    }
}

/// How a market's depth comes: as the last connection of the shard that carries it says, or else as
/// its exchange delivers it.
pub open spec fn depth_mode_of(
    connections: Seq<ConnectionPlanModel>,
    shard_id: Seq<char>,
    market: MarketKeyModel,
) -> DepthMode
    decreases connections.len(),
{
    if connections.len() == 0 {
        market.exchange.capabilities_model().depth_mode
    } else if connections.last().shard_id == shard_id && connections.last().carries(market) {
        connections.last().depth_mode
    } else {
        depth_mode_of(connections.drop_last(), shard_id, market)
    }
}

/// The books of a shard before any message: one for each market that it watches.
pub open spec fn first_books(shard: ShardPlanModel, plan: RuntimePlanModel) -> Seq<BookModel> {
    shard.subscribed_markets.map_values(
        |market: MarketKeyModel|
            BookModel::fresh(market, depth_mode_of(plan.connections, shard.shard_id, market)),
    )
}

/// A strategy with the places of its books, if both markets are watched.
pub open spec fn placed_strategy(
    markets: Seq<MarketKeyModel>,
    strategy: StrategyRecordModel,
) -> Option<RuntimeStrategyModel> {
    let long_market = strategy.config.long_leg.market();
    let short_market = strategy.config.short_leg.market();
    match (last_place(markets, long_market), last_place(markets, short_market)) {
        (Some(long_book_index), Some(short_book_index)) => Some(
            RuntimeStrategyModel {
                strategy,
                long_market,
                short_market,
                long_book_index,
                short_book_index,
            },
        ),
        _ => None,
    }
}

/// The strategies of a shard whose markets are both watched.
pub open spec fn placed_strategies(
    shard: ShardPlanModel,
    enabled: Seq<StrategyRecordModel>,
) -> Seq<RuntimeStrategyModel>
    decreases enabled.len(),
{
    if enabled.len() == 0 {
        Seq::empty()
    } else {
        let before = placed_strategies(shard, enabled.drop_last());
        match placed_strategy(shard.subscribed_markets, enabled.last()) {
            Some(placed) => if shard.strategy_ids.contains(enabled.last().config.id) {
                before.push(placed)
            } else {
                before
            },
            None => before,
        }
    }
}

/// The places of the strategies that trade a book, in ascending order.
pub open spec fn trading(strategies: Seq<RuntimeStrategyModel>, book: usize) -> Seq<usize>
    decreases strategies.len(),
{
    if strategies.len() == 0 {
        Seq::empty()
    } else {
        let before = trading(strategies.drop_last(), book);
        if strategies.last().long_book_index == book || strategies.last().short_book_index == book {
            before.push((strategies.len() - 1) as usize)
        } else {
            before
        }
    }
}

/// A plan for orders in the shape that the markets' rules ask for, if there are rules and the orders
/// can be placed.
pub open spec fn order_ready(
    m: spec_fn(Arith) -> Binary64,
    rules: Map<MarketKeyModel, MarketRuleModel>,
    long_market: MarketKeyModel,
    short_market: MarketKeyModel,
    plan: StrategyOrderPlan,
) -> Option<StrategyOrderPlan> {
    if !rules.contains_key(long_market) || !rules.contains_key(short_market) {
        None
    } else {
        match (
            prepared(
                m,
                plan.long_qty,
                Some(plan.long_limit_price),
                plan.action.long_side_model(),
                rules[long_market],
            ),
            prepared(
                m,
                plan.short_qty,
                Some(plan.short_limit_price),
                plan.action.short_side_model(),
                rules[short_market],
            ),
        ) {
            (Ok(long), Ok(short)) => {
                let notional_usd = notional_or_zero(long).min_num(notional_or_zero(short));
                if notional_usd.positive() {
                    Some(
                        StrategyOrderPlan {
                            action: plan.action,
                            spread_pct: plan.spread_pct,
                            notional_usd,
                            long_qty: long.qty,
                            short_qty: short.qty,
                            long_limit_price: match long.limit_price {
                                Some(price) => price,
                                None => plan.long_limit_price,
                            },
                            short_limit_price: match short.limit_price {
                                Some(price) => price,
                                None => plan.short_limit_price,
                            },
                        },
                    )
                } else {
                    None
                }
            },
            _ => None,
        }
    }
}

/// The notional of an order, zero for one without a price.
pub open spec fn notional_or_zero(order: PreparedPlaceOrder) -> Binary64 {
    match order.notional_usd {
        Some(notional) => notional,
        None => zero(),
    }
}

/// What is told of a planned order.
pub open spec fn plan_words(
    show: spec_fn(Binary64) -> Seq<char>,
    plan: StrategyOrderPlan,
) -> Seq<char> {
    plan.action.label_model() + " planned notional="@ + show(plan.notional_usd) + " long_qty="@
        + show(plan.long_qty) + " short_qty="@ + show(plan.short_qty)
}

/// What a shard asks to be done.
#[derive(Debug)]
pub enum ShardAction {
    /// Report to the telemetry.
    Telemetry(StrategyTelemetryEvent),
    /// Hand a command to order execution.
    Command(TradeCommand),
}

/// What a [`ShardAction`] holds.
pub enum ShardActionModel {
    Telemetry(TelemetryEventModel),
    Command(TradeCommandModel),
}

impl DeepView for ShardAction {
    type V = ShardActionModel;

    open spec fn deep_view(&self) -> ShardActionModel {
        match self {
            ShardAction::Telemetry(event) => ShardActionModel::Telemetry(event@),
            ShardAction::Command(command) => ShardActionModel::Command(command@),
        }
    }
}

/// What a [`ShardRunner`] holds.
#[verifier::ext_equal]
pub struct ShardRunnerModel {
    pub shard_id: Seq<char>,
    pub books: Seq<BookModel>,
    pub strategies: Seq<RuntimeStrategyModel>,
    /// For each book the places of the strategies that trade it.
    pub by_book: Seq<Seq<usize>>,
    pub states: Seq<StrategyStateModel>,
    /// The metrics that have not been reported yet.
    pub pending: Seq<Option<StrategyRuntimeMetrics>>,
    pub generation: u64,
}

/// A runner and what it asks to be done.
#[verifier::ext_equal]
pub struct Turn {
    pub runner: ShardRunnerModel,
    pub actions: Seq<ShardActionModel>,
}

/// The commands among actions.
pub open spec fn command_actions(commands: Seq<TradeCommandModel>) -> Seq<ShardActionModel> {
    commands.map_values(|command: TradeCommandModel| ShardActionModel::Command(command))
}

impl ShardRunnerModel {
    /// The markets of the books.
    pub open spec fn markets(self) -> Seq<MarketKeyModel> {
        self.books.map_values(|book: BookModel| book.market)
    }

    /// Whether places name what is there.
    pub open spec fn ok(self) -> bool {
        &&& self.by_book.len() == self.books.len()
        &&& self.states.len() == self.strategies.len()
        &&& self.pending.len() == self.strategies.len()
        &&& forall|k: int|
            0 <= k < self.strategies.len() ==> (#[trigger] self.strategies[k]).long_book_index
                < self.books.len() && self.strategies[k].short_book_index < self.books.len()
        &&& forall|b: int|
            0 <= b < self.books.len() ==> #[trigger] self.by_book[b] == trading(
                self.strategies,
                b as usize,
            )
    }

    /// Whether the sides of all books are in order.
    pub open spec fn in_order(self) -> bool {
        forall|b: int| 0 <= b < self.books.len() ==> (#[trigger] self.books[b]).ok()
    }

    /// The runner for a shard of a plan.
    pub open spec fn first(
        shard: ShardPlanModel,
        plan: RuntimePlanModel,
        enabled: Seq<StrategyRecordModel>,
        generation: u64,
    ) -> ShardRunnerModel {
        let strategies = placed_strategies(shard, enabled);
        ShardRunnerModel {
            shard_id: shard.shard_id,
            books: first_books(shard, plan),
            strategies,
            by_book: Seq::new(
                shard.subscribed_markets.len(),
                |b: int| trading(strategies, b as usize),
            ),
            states: strategies.map_values(
                |placed: RuntimeStrategyModel|
                    StrategyStateModel::fresh(Some(placed.strategy.config.id)),
            ),
            pending: strategies.map_values(|placed: RuntimeStrategyModel| None),
            generation,
        }
    }

    /// Whether the orders of a strategy can still be counted and numbered.
    pub open spec fn countable(self, k: int) -> bool {
        self.states[k].active_order_count + 2 <= u32::MAX && self.states[k].next_order_seq + 2
            <= u64::MAX
    }

    /// What is told of an order that strategy `k` has planned.
    pub open spec fn planned_event(
        self,
        show: spec_fn(Binary64) -> Seq<char>,
        state: StrategyStateModel,
        k: int,
        plan: StrategyOrderPlan,
        ts_ms: u64,
    ) -> TelemetryEventModel {
        TelemetryEventModel::OrderPlanned {
            generation: self.generation,
            event: StrategyMatchEventModel {
                ts_ms,
                shard_id: self.shard_id,
                strategy_id: self.strategies[k].strategy.config.id,
                kind: match plan.action {
                    StrategyAction::Open => StrategyMatchEventKind::OpenPlanned,
                    StrategyAction::Close => StrategyMatchEventKind::ClosePlanned,
                },
                open_spread_pct: state.last_open_spread_pct,
                close_spread_pct: state.last_close_spread_pct,
                notional_usd: Some(plan.notional_usd),
                message: plan_words(show, plan),
            },
        }
    }

    /// A strategy's turn: it looks at its books, and where both are built it plans orders, places
    /// those that the markets' rules admit, and leaves its metrics to be reported.
    pub open spec fn turn(
        self,
        m: spec_fn(Arith) -> Binary64,
        show: spec_fn(Binary64) -> Seq<char>,
        rules: Map<MarketKeyModel, MarketRuleModel>,
        ts_ms: u64,
        k: int,
    ) -> Turn {
        let placed = self.strategies[k];
        let config = placed.strategy.config;
        let long = self.books[placed.long_book_index as int];
        let short = self.books[placed.short_book_index as int];
        if !long.has_snapshot || !short.has_snapshot {
            Turn { runner: self, actions: Seq::empty() }
        } else {
            let seen = self.states[k].seen(m, config, long, short);
            let ready = match self.states[k].planned(m, config, long, short) {
                Some(plan) => order_ready(
                    m,
                    rules,
                    placed.long_market,
                    placed.short_market,
                    plan,
                ),
                None => None,
            };
            match ready {
                None => Turn {
                    runner: ShardRunnerModel {
                        states: self.states.update(k, seen),
                        pending: self.pending.update(k, Some(seen.metrics())),
                        ..self
                    },
                    actions: Seq::empty(),
                },
                Some(plan) => {
                    let state = seen.committed(m, plan);
                    Turn {
                        runner: ShardRunnerModel {
                            states: self.states.update(k, state),
                            pending: self.pending.update(k, Some(state.metrics())),
                            ..self
                        },
                        actions: seq![
                            ShardActionModel::Telemetry(
                                self.planned_event(show, seen, k, plan, ts_ms),
                            ),
                        ] + command_actions(seen.orders_of(self.shard_id, config, plan)),
                    }
                },
            }
        }
    }

    /// The turns of strategies, one after the other.
    pub open spec fn turns(
        self,
        m: spec_fn(Arith) -> Binary64,
        show: spec_fn(Binary64) -> Seq<char>,
        rules: Map<MarketKeyModel, MarketRuleModel>,
        ts_ms: u64,
        places: Seq<usize>,
    ) -> Turn
        decreases places.len(),
    {
        if places.len() == 0 {
            Turn { runner: self, actions: Seq::empty() }
        } else {
            let before = self.turns(m, show, rules, ts_ms, places.drop_last());
            let last = before.runner.turn(m, show, rules, ts_ms, places.last() as int);
            Turn { runner: last.runner, actions: before.actions + last.actions }
        }
    }

    /// The runner with a message applied to its book, if it has one.
    pub open spec fn with_message(self, message: DepthModel) -> ShardRunnerModel {
        match last_place(self.markets(), message.market()) {
            None => self,
            Some(book) => ShardRunnerModel {
                books: self.books.update(
                    book as int,
                    self.books[book as int].after(message),
                ),
                ..self
            },
        }
    }

    /// What a message leads to: it is applied to its book, and if it was applied the strategies that
    /// trade the book have their turns.
    pub open spec fn after_message(
        self,
        m: spec_fn(Arith) -> Binary64,
        show: spec_fn(Binary64) -> Seq<char>,
        rules: Map<MarketKeyModel, MarketRuleModel>,
        ts_ms: u64,
        message: DepthModel,
    ) -> Turn {
        match last_place(self.markets(), message.market()) {
            None => Turn { runner: self, actions: Seq::empty() },
            Some(book) => {
                let runner = self.with_message(message);
                if self.books[book as int].verdict(message) == BookApplyResult::Applied {
                    runner.turns(m, show, rules, ts_ms, runner.by_book[book as int])
                } else {
                    Turn { runner, actions: Seq::empty() }
                }
            },
        }
    }

    /// What an event leads to; `message` is what the payload of a market event says, if it says
    /// anything.
    pub open spec fn after_event(
        self,
        m: spec_fn(Arith) -> Binary64,
        show: spec_fn(Binary64) -> Seq<char>,
        rules: Map<MarketKeyModel, MarketRuleModel>,
        ts_ms: u64,
        event: ShardEvent,
        message: Option<DepthModel>,
    ) -> Turn {
        match (event, message) {
            (ShardEvent::MarketWsRaw { .. }, Some(message)) => self.after_message(
                m,
                show,
                rules,
                ts_ms,
                message,
            ),
            _ => Turn { runner: self, actions: Seq::empty() },
        }
    }

    /// Whether a message can be taken: the book's next sequence number is representable where it is
    /// needed, and if the message is applied the orders of the strategies that trade the book can be
    /// counted and numbered.
    pub open spec fn can_take(self, message: DepthModel) -> bool {
        match last_place(self.markets(), message.market()) {
            None => true,
            Some(book) => {
                &&& self.books[book as int].can_follow(message)
                &&& self.books[book as int].verdict(message) == BookApplyResult::Applied
                    ==> forall|i: int|
                    0 <= i < self.by_book[book as int].len() ==> self.countable(
                        #[trigger] self.by_book[book as int][i] as int,
                    )
            },
        }
    }

    /// The reports of the metrics of the first `n` strategies that have not been reported yet.
    pub open spec fn reports(self, ts_ms: u64, n: nat) -> Seq<TelemetryEventModel>
        decreases n,
    {
        if n == 0 {
            Seq::empty()
        } else {
            let before = self.reports(ts_ms, (n - 1) as nat);
            match self.pending[n - 1] {
                Some(metrics) => before.push(
                    TelemetryEventModel::MetricsUpdated {
                        generation: self.generation,
                        shard_id: self.shard_id,
                        strategy_id: self.strategies[n - 1].strategy.config.id,
                        metrics,
                        ts_ms,
                    },
                ),
                None => before,
            }
        }
    }

    /// The runner without metrics that are to be reported.
    pub open spec fn reported(self) -> ShardRunnerModel {
        ShardRunnerModel {
            pending: self.pending.map_values(|metrics: Option<StrategyRuntimeMetrics>| None),
            ..self
        }
    }
}

/// A shard at work.
#[derive(Debug)]
pub struct ShardRunner {
    shard_id: ShardId,
    books: Vec<LocalBookState>,
    strategies: Vec<RuntimeStrategy>,
    strategies_by_book: Vec<Vec<usize>>,
    strategy_states: Vec<StrategyRuntimeState>,
    pending_metrics: Vec<Option<StrategyRuntimeMetrics>>,
    telemetry_generation: u64,
}

impl View for ShardRunner {
    type V = ShardRunnerModel;

    closed spec fn view(&self) -> ShardRunnerModel {
        ShardRunnerModel {
            shard_id: self.shard_id@,
            books: self.books.deep_view(),
            strategies: self.strategies.deep_view(),
            by_book: self.strategies_by_book.deep_view(),
            states: self.strategy_states.deep_view(),
            pending: self.pending_metrics@,
            generation: self.telemetry_generation,
        }
    }
}

impl DeepView for ShardRunner {
    type V = ShardRunnerModel;

    open spec fn deep_view(&self) -> ShardRunnerModel {
        self@
    }
}

proof fn lemma_last_place(markets: Seq<MarketKeyModel>, market: MarketKeyModel, at: int)
    requires
        0 <= at < markets.len(),
        markets[at] == market,
        forall|i: int| at < i < markets.len() ==> #[trigger] markets[i] != market,
    ensures
        last_place(markets, market) == Some(at as usize),
    decreases markets.len(),
{
    if at < markets.len() - 1 {
        assert(markets[markets.len() - 1] != market);
        lemma_last_place(markets.drop_last(), market, at);
    }
}

proof fn lemma_no_place(markets: Seq<MarketKeyModel>, market: MarketKeyModel)
    requires
        forall|i: int| 0 <= i < markets.len() ==> #[trigger] markets[i] != market,
    ensures
        last_place(markets, market) is None,
    decreases markets.len(),
{
    if markets.len() > 0 {
        assert(markets[markets.len() - 1] != market);
        lemma_no_place(markets.drop_last(), market);
    }
}

/// The place of a market names the market.
pub(crate) proof fn lemma_place_names_market(markets: Seq<MarketKeyModel>, market: MarketKeyModel)
    requires
        markets.len() <= usize::MAX,
    ensures
        match last_place(markets, market) {
            Some(at) => at < markets.len() && markets[at as int] == market,
            None => !markets.contains(market),
        },
    decreases markets.len(),
{
    if markets.len() > 0 && markets.last() != market {
        lemma_place_names_market(markets.drop_last(), market);
        if last_place(markets.drop_last(), market) is None {
            if markets.contains(market) {
                let i = choose|i: int| 0 <= i < markets.len() && markets[i] == market;
                assert(markets.drop_last()[i] == market);
            }
        }
    }
}

/// The places of the strategies that trade a book ascend and name strategies.
pub(crate) proof fn lemma_trading(strategies: Seq<RuntimeStrategyModel>, book: usize)
    requires
        strategies.len() <= usize::MAX,
    ensures
        forall|i: int|
            0 <= i < trading(strategies, book).len() ==> #[trigger] trading(strategies, book)[i]
                < strategies.len(),
        forall|i: int, j: int|
            0 <= i < j < trading(strategies, book).len() ==> #[trigger] trading(strategies, book)[i]
                < #[trigger] trading(strategies, book)[j],
    decreases strategies.len(),
{
    if strategies.len() > 0 {
        let before = trading(strategies.drop_last(), book);
        let r = trading(strategies, book);
        lemma_trading(strategies.drop_last(), book);
        assert forall|i: int| 0 <= i < r.len() implies #[trigger] r[i] < strategies.len() by {
            if i < before.len() {
                assert(r[i] == before[i]);
            }
        }
        assert forall|i: int, j: int| 0 <= i < j < r.len() implies #[trigger] r[i]
            < #[trigger] r[j] by {
            assert(r[i] == before[i]);
            if j < before.len() {
                assert(r[j] == before[j]);
            }
        }
    }
}

/// The place of the last market that is `market`.
fn find_market(markets: &Vec<MarketKey>, market: &MarketKey) -> (r: Option<usize>)
    ensures
        r == last_place(markets.deep_view(), market@),
{
    let ghost all = markets.deep_view();
    let mut i: usize = markets.len();
    while i > 0
        invariant
            i <= markets.len(),
            all == markets.deep_view(),
            forall|j: int| i <= j < all.len() ==> #[trigger] all[j] != market@,
        decreases i,
    {
        assert(all[i - 1] == markets[i - 1]@);
        if markets[i - 1].same(market) {
            proof {
                lemma_last_place(all, market@, i - 1);
            }
            return Some(i - 1);
        }
        i -= 1;
    }
    proof {
        lemma_no_place(all, market@);
    }
    None
}

fn has_text(texts: &Vec<String>, text: &String) -> (r: bool)
    ensures
        r == texts.deep_view().contains(text@),
{
    let mut i: usize = 0;
    while i < texts.len()
        invariant
            i <= texts.len(),
            forall|j: int| 0 <= j < i ==> texts.deep_view()[j] != text@,
        decreases texts.len() - i,
    {
        if texts[i] == *text {
            assert(texts.deep_view()[i as int] == text@);
            return true;
        }
        i += 1;
    }
    false
}

fn has_strategy(ids: &Vec<StrategyId>, id: &StrategyId) -> (r: bool)
    ensures
        r == ids.deep_view().contains(id@),
{
    let mut i: usize = 0;
    while i < ids.len()
        invariant
            i <= ids.len(),
            forall|j: int| 0 <= j < i ==> ids.deep_view()[j] != id@,
        decreases ids.len() - i,
    {
        if ids[i].same(id) {
            assert(ids.deep_view()[i as int] == id@);
            return true;
        }
        i += 1;
    }
    false
}

fn find_depth_mode(
    connections: &Vec<ConnectionPlan>,
    shard_id: &ShardId,
    market: &MarketKey,
) -> (r: DepthMode)
    ensures
        r == depth_mode_of(connections.deep_view(), shard_id@, market@),
{
    let ghost all = connections.deep_view();
    let mut i: usize = connections.len();
    assert(all.take(all.len() as int) =~= all);
    while i > 0
        invariant
            i <= connections.len(),
            all == connections.deep_view(),
            depth_mode_of(all, shard_id@, market@) == depth_mode_of(
                all.take(i as int),
                shard_id@,
                market@,
            ),
        decreases i,
    {
        let connection = &connections[i - 1];
        assert(all.take(i as int).last() == connection@);
        assert(all.take(i as int).drop_last() =~= all.take(i - 1));
        if connection.shard_id.same(shard_id) && connection.exchange == market.exchange && has_text(
            &connection.symbols,
            &market.symbol,
        ) {
            return connection.depth_mode;
        }
        i -= 1;
    }
    market.exchange.capabilities().depth_mode
}

fn open_books(shard: &ShardPlan, plan: &RuntimePlan) -> (r: Vec<LocalBookState>)
    ensures
        r.deep_view() == first_books(shard@, plan@),
{
    let ghost markets = shard@.subscribed_markets;
    let mut books: Vec<LocalBookState> = Vec::new();
    let mut i: usize = 0;
    while i < shard.subscribed_markets.len()
        invariant
            i <= shard.subscribed_markets.len(),
            markets == shard.subscribed_markets.deep_view(),
            books.len() == i,
            forall|b: int|
                0 <= b < i ==> (#[trigger] books.deep_view()[b]) == BookModel::fresh(
                    markets[b],
                    depth_mode_of(plan@.connections, shard@.shard_id, markets[b]),
                ),
        decreases shard.subscribed_markets.len() - i,
    {
        let ghost before = books.deep_view();
        let market = &shard.subscribed_markets[i];
        assert(market@ == markets[i as int]);
        let mode = find_depth_mode(&plan.connections, &shard.shard_id, market);
        let book = LocalBookState::new(market.clone(), mode);
        let ghost bv = book@;
        books.push(book);
        assert(books.deep_view() =~= before.push(bv));
        i += 1;
    }
    assert(books.deep_view() =~= first_books(shard@, plan@));
    books
}

fn place_strategies(shard: &ShardPlan, enabled: &[StrategyRecord]) -> (r: Vec<RuntimeStrategy>)
    ensures
        r.deep_view() == placed_strategies(shard@, enabled.deep_view()),
{
    let ghost all = enabled.deep_view();
    let mut strategies: Vec<RuntimeStrategy> = Vec::new();
    let mut i: usize = 0;
    assert(strategies.deep_view() =~= placed_strategies(shard@, all.take(0)));
    while i < enabled.len()
        invariant
            i <= enabled.len(),
            all == enabled.deep_view(),
            strategies.deep_view() == placed_strategies(shard@, all.take(i as int)),
        decreases enabled.len() - i,
    {
        let strategy = &enabled[i];
        let ghost before = strategies.deep_view();
        assert(all.take(i + 1).drop_last() =~= all.take(i as int));
        assert(all.take(i + 1).last() == strategy@);
        if has_strategy(&shard.strategy_ids, &strategy.id) {
            let markets = strategy_markets(strategy);
            let long_market = markets[0].clone();
            let short_market = markets[1].clone();
            let long_place = find_market(&shard.subscribed_markets, &long_market);
            let short_place = find_market(&shard.subscribed_markets, &short_market);
            if let (Some(long_book_index), Some(short_book_index)) = (long_place, short_place) {
                let placed = RuntimeStrategy {
                    strategy: strategy.clone(),
                    long_market,
                    short_market,
                    long_book_index,
                    short_book_index,
                };
                let ghost pv = placed@;
                strategies.push(placed);
                assert(strategies.deep_view() =~= before.push(pv));
            }
        }
        i += 1;
    }
    assert(all.take(all.len() as int) =~= all);
    strategies
}

fn find_trading(strategies: &Vec<RuntimeStrategy>, book: usize) -> (r: Vec<usize>)
    ensures
        r@ == trading(strategies.deep_view(), book),
{
    let ghost all = strategies.deep_view();
    let mut out: Vec<usize> = Vec::new();
    let mut i: usize = 0;
    assert(out@ =~= trading(all.take(0), book));
    while i < strategies.len()
        invariant
            i <= strategies.len(),
            all == strategies.deep_view(),
            out@ == trading(all.take(i as int), book),
        decreases strategies.len() - i,
    {
        assert(all.take(i + 1).drop_last() =~= all.take(i as int));
        assert(all.take(i + 1).last() == strategies[i as int]@);
        if strategies[i].long_book_index == book || strategies[i].short_book_index == book {
            out.push(i);
        }
        i += 1;
    }
    assert(all.take(all.len() as int) =~= all);
    out
}

/// Every strategy that has been placed has its books at its places.
proof fn lemma_placed_strategies(shard: ShardPlanModel, enabled: Seq<StrategyRecordModel>, k: int)
    requires
        shard.subscribed_markets.len() <= usize::MAX,
        0 <= k < placed_strategies(shard, enabled).len(),
    ensures
        ({
            let placed = placed_strategies(shard, enabled)[k];
            &&& placed.long_book_index < shard.subscribed_markets.len()
            &&& placed.short_book_index < shard.subscribed_markets.len()
            &&& shard.subscribed_markets[placed.long_book_index as int] == placed.long_market
            &&& shard.subscribed_markets[placed.short_book_index as int] == placed.short_market
        }),
    decreases enabled.len(),
{
    let strategy = enabled.last();
    let before = placed_strategies(shard, enabled.drop_last());
    lemma_place_names_market(shard.subscribed_markets, strategy.config.long_leg.market());
    lemma_place_names_market(shard.subscribed_markets, strategy.config.short_leg.market());
    if k < before.len() {
        lemma_placed_strategies(shard, enabled.drop_last(), k);
    }
}

/// The notional of an order, zero for one without a price.
fn order_notional(order: &PreparedPlaceOrder) -> (r: Binary64)
    ensures
        r == notional_or_zero(*order),
{
    match order.notional_usd {
        Some(notional) => notional,
        None => zero(),
    }
}

/// What is told of a planned order.
fn plan_message<S: Fn(Binary64) -> String>(plan: &StrategyOrderPlan, show: &S) -> (r: String)
    requires
        shows_all(*show),
    ensures
        forall|sh: spec_fn(Binary64) -> Seq<char>| #[trigger]
            renders(*show, sh) ==> r@ == plan_words(sh, *plan),
{
    let mut out = plan.action.label().to_owned();
    out.append(" planned notional=");
    let notional = show(plan.notional_usd);
    out.append(notional.as_str());
    out.append(" long_qty=");
    let long_qty = show(plan.long_qty);
    out.append(long_qty.as_str());
    out.append(" short_qty=");
    let short_qty = show(plan.short_qty);
    out.append(short_qty.as_str());
    out
}

/// Brings the orders of a plan into the shape that the markets' rules ask for.
fn prepare_plan_for_order<F: Fn(Arith) -> Binary64>(
    runtime: &RuntimeStrategy,
    plan: &StrategyOrderPlan,
    rules: &MarketRuleSnapshot,
    arith: &F,
) -> (r: Option<StrategyOrderPlan>)
    requires
        answers_all(*arith),
        rules.wf(),
    ensures
        forall|m: spec_fn(Arith) -> Binary64| #[trigger]
            computes(*arith, m) ==> r == order_ready(
                m,
                rules@.rules,
                runtime@.long_market,
                runtime@.short_market,
                *plan,
            ),
{
    let long_rule = match rules.get(&runtime.long_market) {
        Some(rule) => rule,
        None => return None,
    };
    let short_rule = match rules.get(&runtime.short_market) {
        Some(rule) => rule,
        None => return None,
    };
    let long_order = match prepare_place_order(
        plan.long_qty,
        Some(plan.long_limit_price),
        &plan.action.long_side(),
        long_rule,
        arith,
    ) {
        Ok(order) => order,
        Err(_) => return None,
    };
    let short_order = match prepare_place_order(
        plan.short_qty,
        Some(plan.short_limit_price),
        &plan.action.short_side(),
        short_rule,
        arith,
    ) {
        Ok(order) => order,
        Err(_) => return None,
    };
    let notional_usd = order_notional(&long_order).min(order_notional(&short_order));
    if !notional_usd.is_positive() {
        return None;
    }
    Some(
        StrategyOrderPlan {
            action: plan.action,
            spread_pct: plan.spread_pct,
            notional_usd,
            long_qty: long_order.qty,
            short_qty: short_order.qty,
            long_limit_price: match long_order.limit_price {
                Some(price) => price,
                None => plan.long_limit_price,
            },
            short_limit_price: match short_order.limit_price {
                Some(price) => price,
                None => plan.short_limit_price,
            },
        },
    )
}

impl ShardRunner {
    /// Whether places name what is there; in every runner they do.
    pub open spec fn wf(&self) -> bool {
        self@.ok()
    }

    /// The runner for a shard of a plan.
    pub fn from_plan(
        shard: &ShardPlan,
        plan: &RuntimePlan,
        enabled_strategies: &[StrategyRecord],
        telemetry_generation: u64,
    ) -> (r: Self)
        ensures
            r@ == ShardRunnerModel::first(
                shard@,
                plan@,
                enabled_strategies.deep_view(),
                telemetry_generation,
            ),
            r.wf(),
    {
        let books = open_books(shard, plan);
        let strategies = place_strategies(shard, enabled_strategies);
        let ghost placed = strategies.deep_view();
        let mut strategy_states: Vec<StrategyRuntimeState> = Vec::new();
        let mut pending_metrics: Vec<Option<StrategyRuntimeMetrics>> = Vec::new();
        let mut k: usize = 0;
        while k < strategies.len()
            invariant
                k <= strategies.len(),
                placed == strategies.deep_view(),
                strategy_states.len() == k,
                pending_metrics.len() == k,
                forall|j: int|
                    0 <= j < k ==> (#[trigger] strategy_states.deep_view()[j])
                        == StrategyStateModel::fresh(Some(placed[j].strategy.config.id)),
                forall|j: int| 0 <= j < k ==> (#[trigger] pending_metrics@[j]) is None,
            decreases strategies.len() - k,
        {
            let ghost before = strategy_states.deep_view();
            assert(placed[k as int] == strategies[k as int]@);
            let state = StrategyRuntimeState::new(strategies[k].strategy.id.clone());
            let ghost sv = state@;
            strategy_states.push(state);
            assert(strategy_states.deep_view() =~= before.push(sv));
            pending_metrics.push(None);
            k += 1;
        }
        let mut strategies_by_book: Vec<Vec<usize>> = Vec::new();
        let mut b: usize = 0;
        while b < books.len()
            invariant
                b <= books.len(),
                placed == strategies.deep_view(),
                strategies_by_book.len() == b,
                forall|j: int|
                    0 <= j < b ==> (#[trigger] strategies_by_book.deep_view()[j]) == trading(
                        placed,
                        j as usize,
                    ),
            decreases books.len() - b,
        {
            let ghost before = strategies_by_book.deep_view();
            let places = find_trading(&strategies, b);
            assert(places.deep_view() =~= places@);
            let ghost pv = places@;
            strategies_by_book.push(places);
            assert(strategies_by_book.deep_view() =~= before.push(pv));
            b += 1;
        }
        let r = ShardRunner {
            shard_id: shard.shard_id.clone(),
            books,
            strategies,
            strategies_by_book,
            strategy_states,
            pending_metrics,
            telemetry_generation,
        };
        proof {
            let model = ShardRunnerModel::first(
                shard@,
                plan@,
                enabled_strategies.deep_view(),
                telemetry_generation,
            );
            assert(shard@.subscribed_markets.len() == shard.subscribed_markets.len());
            assert(r@.books.len() == shard@.subscribed_markets.len());
            assert forall|j: int| 0 <= j < r@.by_book.len() implies #[trigger] r@.by_book[j]
                == model.by_book[j] by {
                assert(r@.by_book[j] == r.strategies_by_book.deep_view()[j]);
            }
            assert(r@.by_book =~= model.by_book);
            assert(r@.states =~= model.states);
            assert(r@.pending =~= model.pending);
            assert forall|k: int| 0 <= k < placed.len() implies (
            #[trigger] placed[k]).long_book_index < r@.books.len() && placed[k].short_book_index
                < r@.books.len() by {
                lemma_placed_strategies(shard@, enabled_strategies.deep_view(), k);
            }
        }
        r
    }

    /// Whether a market event with this message can be taken.
    pub fn can_take(&self, message: &RawDepthMessage) -> (r: bool)
        requires
            self.wf(),
        ensures
            r == self@.can_take(message@),
    {
        let book_index = match self.find_book(message.market()) {
            Some(book_index) => book_index,
            None => return true,
        };
        proof {
            self.lemma_find_book(message@.market());
            assert(self@.strategies.len() == self.strategies.len());
            lemma_trading(self@.strategies, book_index);
        }
        assert(self@.books[book_index as int] == self.books[book_index as int]@);
        if !self.books[book_index].can_follow(message) {
            return false;
        }
        if self.books[book_index].verdict(message) != BookApplyResult::Applied {
            return true;
        }
        let ghost places = self@.by_book[book_index as int];
        assert(self.strategies_by_book[book_index as int].deep_view() =~=
            self.strategies_by_book[book_index as int]@);
        assert(places == self.strategies_by_book[book_index as int]@);
        let mut i: usize = 0;
        while i < self.strategies_by_book[book_index].len()
            invariant
                self.wf(),
                book_index < self@.books.len(),
                last_place(self@.markets(), message@.market()) == Some(book_index),
                self@.books[book_index as int].can_follow(message@),
                self@.books[book_index as int].verdict(message@) == BookApplyResult::Applied,
                places == self@.by_book[book_index as int],
                places == self.strategies_by_book[book_index as int]@,
                i <= places.len(),
                forall|j: int| 0 <= j < places.len() ==> #[trigger] places[j] < self@.strategies.len(),
                forall|j: int| 0 <= j < i ==> self@.countable(#[trigger] places[j] as int),
            decreases places.len() - i,
        {
            let k: usize = self.strategies_by_book[book_index][i];
            assert(k == places[i as int]);
            let state = &self.strategy_states[k];
            assert(state@ == self@.states[k as int]);
            if state.active_order_count > u32::MAX - 2 || state.next_order_seq > u64::MAX - 2 {
                assert(!self@.countable(places[i as int] as int));
                return false;
            }
            i += 1;
        }
        true
    }

    proof fn lemma_find_book(&self, market: MarketKeyModel)
        requires
            self.wf(),
        ensures
            match last_place(self@.markets(), market) {
                Some(at) => at < self@.books.len() && self@.books[at as int].market == market,
                None => true,
            },
    {
        assert(self@.markets().len() == self.books.len());
        lemma_place_names_market(self@.markets(), market);
    }

    fn find_book(&self, market: &MarketKey) -> (r: Option<usize>)
        ensures
            r == last_place(self@.markets(), market@),
    {
        let ghost all = self@.markets();
        let mut i: usize = self.books.len();
        while i > 0
            invariant
                i <= self.books.len(),
                all == self@.markets(),
                forall|j: int| i <= j < all.len() ==> #[trigger] all[j] != market@,
            decreases i,
        {
            assert(self@.books[i - 1] == self.books[i - 1]@);
            assert(all[i - 1] == self@.books[i - 1].market);
            if self.books[i - 1].market().same(market) {
                proof {
                    lemma_last_place(all, market@, i - 1);
                }
                return Some(i - 1);
            }
            i -= 1;
        }
        proof {
            lemma_no_place(all, market@);
        }
        None
    }

    /// Takes an event; `message` is what the payload of a market event says, if it says anything.
    /// Gives what is to be done, at time `ts_ms` and by the rules of the markets.
    pub fn handle_event<F: Fn(Arith) -> Binary64, S: Fn(Binary64) -> String>(
        &mut self,
        event: &ShardEvent,
        message: Option<RawDepthMessage>,
        rules: &MarketRuleSnapshot,
        ts_ms: u64,
        arith: &F,
        show: &S,
    ) -> (r: Vec<ShardAction>)
        requires
            old(self).wf(),
            rules.wf(),
            answers_all(*arith),
            shows_all(*show),
            event is MarketWsRaw && message is Some ==> old(self)@.can_take(message->0@),
        ensures
            final(self).wf(),
            forall|m: spec_fn(Arith) -> Binary64, sh: spec_fn(Binary64) -> Seq<char>|
                #![trigger computes(*arith, m), renders(*show, sh)]
                computes(*arith, m) && renders(*show, sh) ==> (Turn {
                    runner: final(self)@,
                    actions: r.deep_view(),
                }) == old(self)@.after_event(
                    m,
                    sh,
                    rules@.rules,
                    ts_ms,
                    *event,
                    message.deep_view(),
                ),
            !(event is MarketWsRaw && message is Some) ==> final(self)@ == old(self)@
                && r.deep_view().len() == 0,
    {
        match event {
            ShardEvent::MarketWsRaw { .. } => match message {
                Some(message) => self.handle_message(message, rules, ts_ms, arith, show),
                None => Vec::new(),
            },
            _ => Vec::new(),
        }
    }

    fn handle_message<F: Fn(Arith) -> Binary64, S: Fn(Binary64) -> String>(
        &mut self,
        message: RawDepthMessage,
        rules: &MarketRuleSnapshot,
        ts_ms: u64,
        arith: &F,
        show: &S,
    ) -> (r: Vec<ShardAction>)
        requires
            old(self).wf(),
            rules.wf(),
            answers_all(*arith),
            shows_all(*show),
            old(self)@.can_take(message@),
        ensures
            final(self).wf(),
            forall|m: spec_fn(Arith) -> Binary64, sh: spec_fn(Binary64) -> Seq<char>|
                #![trigger computes(*arith, m), renders(*show, sh)]
                computes(*arith, m) && renders(*show, sh) ==> (Turn {
                    runner: final(self)@,
                    actions: r.deep_view(),
                }) == old(self)@.after_message(m, sh, rules@.rules, ts_ms, message@),
    {
        let ghost before = self@;
        let ghost mv = message@;
        let found = self.find_book(message.market());
        let book_index = match found {
            Some(book_index) => book_index,
            None => {
                let none: Vec<ShardAction> = Vec::new();
                assert(none.deep_view() =~= Seq::empty());
                return none;
            },
        };
        proof {
            self.lemma_find_book(mv.market());
        }
        assert(before.books[book_index as int] == self.books[book_index as int]@);
        let result = self.apply_to_book(book_index, message);
        if result == BookApplyResult::Applied {
            self.evaluate_book(book_index, rules, ts_ms, arith, show)
        } else {
            let none: Vec<ShardAction> = Vec::new();
            assert(none.deep_view() =~= Seq::empty());
            none
        }
    }

    fn apply_to_book(&mut self, book_index: usize, message: RawDepthMessage) -> (r: BookApplyResult)
        requires
            old(self).wf(),
            book_index < old(self)@.books.len(),
            old(self)@.books[book_index as int].can_follow(message@),
        ensures
            final(self).wf(),
            final(self)@ == (ShardRunnerModel {
                books: old(self)@.books.update(
                    book_index as int,
                    old(self)@.books[book_index as int].after(message@),
                ),
                ..old(self)@
            }),
            r == old(self)@.books[book_index as int].verdict(message@),
    {
        let ghost before = self@;
        assert(before.books[book_index as int] == self.books[book_index as int]@);
        let book = &mut self.books[book_index];
        let r = book.apply(message);
        assert(self@.books =~= before.books.update(
            book_index as int,
            before.books[book_index as int].after(message@),
        ));
        r
    }

    /// Gives the strategies that trade a book their turns.
    fn evaluate_book<F: Fn(Arith) -> Binary64, S: Fn(Binary64) -> String>(
        &mut self,
        book_index: usize,
        rules: &MarketRuleSnapshot,
        ts_ms: u64,
        arith: &F,
        show: &S,
    ) -> (r: Vec<ShardAction>)
        requires
            old(self).wf(),
            rules.wf(),
            answers_all(*arith),
            shows_all(*show),
            book_index < old(self)@.books.len(),
            forall|i: int|
                0 <= i < old(self)@.by_book[book_index as int].len() ==> old(self)@.countable(
                    #[trigger] old(self)@.by_book[book_index as int][i] as int,
                ),
        ensures
            final(self).wf(),
            forall|m: spec_fn(Arith) -> Binary64, sh: spec_fn(Binary64) -> Seq<char>|
                #![trigger computes(*arith, m), renders(*show, sh)]
                computes(*arith, m) && renders(*show, sh) ==> (Turn {
                    runner: final(self)@,
                    actions: r.deep_view(),
                }) == old(self)@.turns(
                    m,
                    sh,
                    rules@.rules,
                    ts_ms,
                    old(self)@.by_book[book_index as int],
                ),
    {
        let ghost start = self@;
        let ghost places = start.by_book[book_index as int];
        proof {
            assert(start.strategies.len() == self.strategies.len());
            lemma_trading(start.strategies, book_index);
        }
        assert(self.strategies_by_book[book_index as int].deep_view() =~=
            self.strategies_by_book[book_index as int]@);
        let indices = self.strategies_by_book[book_index].clone();
        assert(indices@ =~= places);
        let mut actions: Vec<ShardAction> = Vec::new();
        let mut i: usize = 0;
        proof {
            assert(places.take(0) =~= Seq::empty());
            assert(actions.deep_view() =~= Seq::empty());
        }
        while i < indices.len()
            invariant
                self.wf(),
                rules.wf(),
                answers_all(*arith),
                shows_all(*show),
                indices@ == places,
                i <= indices.len(),
                self@.strategies == start.strategies,
                forall|j: int| 0 <= j < places.len() ==> #[trigger] places[j] < start.strategies.len(),
                forall|a: int, b: int|
                    0 <= a < b < places.len() ==> #[trigger] places[a] < #[trigger] places[b],
                forall|j: int|
                    i <= j < places.len() ==> self@.countable(#[trigger] places[j] as int),
                forall|m: spec_fn(Arith) -> Binary64, sh: spec_fn(Binary64) -> Seq<char>|
                    #![trigger computes(*arith, m), renders(*show, sh)]
                    computes(*arith, m) && renders(*show, sh) ==> (Turn {
                        runner: self@,
                        actions: actions.deep_view(),
                    }) == start.turns(m, sh, rules@.rules, ts_ms, places.take(i as int)),
            decreases indices.len() - i,
        {
            let ghost before = self@;
            let ghost done = actions.deep_view();
            let k: usize = indices[i];
            assert(k == places[i as int]);
            let mut more = self.evaluate_strategy(k, rules, ts_ms, arith, show);
            let ghost added = more.deep_view();
            actions.append(&mut more);
            proof {
                assert(actions.deep_view() =~= done + added);
                assert(places.take(i + 1).drop_last() =~= places.take(i as int));
                assert(places.take(i + 1).last() == k);
                assert forall|j: int| i + 1 <= j < places.len() implies self@.countable(
                    #[trigger] places[j] as int,
                ) by {
                    assert(places[i as int] < places[j]);
                    assert(before.countable(places[j] as int));
                }
            }
            i += 1;
        }
        assert(places.take(places.len() as int) =~= places);
        actions
    }

    /// Gives a strategy its turn.
    fn evaluate_strategy<F: Fn(Arith) -> Binary64, S: Fn(Binary64) -> String>(
        &mut self,
        k: usize,
        rules: &MarketRuleSnapshot,
        ts_ms: u64,
        arith: &F,
        show: &S,
    ) -> (r: Vec<ShardAction>)
        requires
            old(self).wf(),
            rules.wf(),
            answers_all(*arith),
            shows_all(*show),
            k < old(self)@.strategies.len(),
            old(self)@.countable(k as int),
        ensures
            final(self).wf(),
            final(self)@.strategies == old(self)@.strategies,
            final(self)@.states.len() == old(self)@.states.len(),
            forall|j: int|
                0 <= j < old(self)@.states.len() && j != k ==> #[trigger] final(self)@.states[j]
                    == old(self)@.states[j],
            forall|m: spec_fn(Arith) -> Binary64, sh: spec_fn(Binary64) -> Seq<char>|
                #![trigger computes(*arith, m), renders(*show, sh)]
                computes(*arith, m) && renders(*show, sh) ==> (Turn {
                    runner: final(self)@,
                    actions: r.deep_view(),
                }) == old(self)@.turn(m, sh, rules@.rules, ts_ms, k as int),
    {
        let ghost before = self@;
        let mut actions: Vec<ShardAction> = Vec::new();
        assert(actions.deep_view() =~= Seq::empty());
        let runtime = &self.strategies[k];
        assert(runtime@ == before.strategies[k as int]);
        let long_book = &self.books[runtime.long_book_index];
        let short_book = &self.books[runtime.short_book_index];
        assert(long_book@ == before.books[runtime.long_book_index as int]);
        assert(short_book@ == before.books[runtime.short_book_index as int]);
        if !long_book.has_snapshot() || !short_book.has_snapshot() {
            return actions;
        }
        let mut state = self.strategy_states[k].clone();
        assert(state@ == before.states[k as int]);
        let evaluation = state.evaluate(&runtime.strategy, long_book, short_book, arith);
        let ghost seen = state@;
        let mut metrics = evaluation.metrics;
        let ready = match evaluation.planned_order {
            Some(plan) => prepare_plan_for_order(runtime, &plan, rules, arith),
            None => None,
        };
        if let Some(plan) = ready {
            let open_spread_pct = state.last_open_spread_pct;
            let close_spread_pct = state.last_close_spread_pct;
            let commands = state.commit_plan(&self.shard_id, &runtime.strategy, &plan, arith);
            metrics = state.metrics();
            let event = StrategyTelemetryEvent::OrderPlanned {
                generation: self.telemetry_generation,
                event: StrategyMatchEvent {
                    ts_ms,
                    shard_id: self.shard_id.clone(),
                    strategy_id: runtime.strategy.id.clone(),
                    kind: match plan.action {
                        StrategyAction::Open => StrategyMatchEventKind::OpenPlanned,
                        StrategyAction::Close => StrategyMatchEventKind::ClosePlanned,
                    },
                    open_spread_pct,
                    close_spread_pct,
                    notional_usd: Some(plan.notional_usd),
                    message: plan_message(&plan, show),
                },
            };
            let ghost ev = event@;
            actions.push(ShardAction::Telemetry(event));
            assert(actions.deep_view() =~= seq![ShardActionModel::Telemetry(ev)]);
            append_commands(&mut actions, commands);
        }
        self.strategy_states[k] = state;
        self.pending_metrics[k] = Some(metrics);
        proof {
            let after = state@;
            assert(self@.states =~= before.states.update(k as int, after));
            assert(self@.pending =~= before.pending.update(k as int, Some(metrics)));
            assert(self@.books == before.books);
            assert(self@.strategies == before.strategies);
            assert(self@.by_book == before.by_book);
        }
        actions
    }

    /// The market of an order and its rule, for the log; nothing for other commands.
    pub fn handle_command(&self, command: &TradeCommand, rules: &MarketRuleSnapshot) -> (r: Option<
        (MarketKey, Option<MarketRule>),
    >)
        requires
            rules.wf(),
        ensures
            match command@ {
                TradeCommandModel::PlaceOrder { exchange, symbol, .. } => {
                    let market = MarketKeyModel { exchange, symbol };
                    &&& r matches Some((of, rule))
                    &&& of@ == market
                    &&& rule.deep_view() == (if rules@.rules.contains_key(market) {
                        Some(rules@.rules[market])
                    } else {
                        None
                    })
                },
                _ => r is None,
            },
    {
        match command {
            TradeCommand::PlaceOrder { exchange, symbol, .. } => {
                let market = MarketKey::new(*exchange, symbol.clone());
                let rule = match rules.get(&market) {
                    Some(rule) => Some(rule.clone()),
                    None => None,
                };
                Some((market, rule))
            },
            _ => None,
        }
    }

    /// Reports the metrics that have not been reported yet, at time `ts_ms`.
    pub fn flush_metrics(&mut self, ts_ms: u64) -> (r: Vec<StrategyTelemetryEvent>)
        requires
            old(self).wf(),
        ensures
            final(self).wf(),
            final(self)@ == old(self)@.reported(),
            r.deep_view() == old(self)@.reports(ts_ms, old(self)@.pending.len()),
    {
        let ghost start = self@;
        let mut events: Vec<StrategyTelemetryEvent> = Vec::new();
        let mut k: usize = 0;
        assert(events.deep_view() =~= Seq::empty());
        while k < self.pending_metrics.len()
            invariant
                start.ok(),
                k <= self.pending_metrics.len(),
                self.pending_metrics@.len() == start.pending.len(),
                self@ == (ShardRunnerModel { pending: self.pending_metrics@, ..start }),
                self.strategies.deep_view() == start.strategies,
                forall|j: int| 0 <= j < k ==> (#[trigger] self.pending_metrics@[j]) is None,
                forall|j: int|
                    k <= j < start.pending.len() ==> #[trigger] self.pending_metrics@[j]
                        == start.pending[j],
                events.deep_view() == start.reports(ts_ms, k as nat),
            decreases self.pending_metrics.len() - k,
        {
            let ghost before = events.deep_view();
            assert(self.pending_metrics@[k as int] == start.pending[k as int]);
            if let Some(metrics) = self.pending_metrics[k] {
                self.pending_metrics[k] = None;
                assert(start.strategies[k as int] == self.strategies[k as int]@);
                let event = StrategyTelemetryEvent::MetricsUpdated {
                    generation: self.telemetry_generation,
                    shard_id: self.shard_id.clone(),
                    strategy_id: self.strategies[k].strategy.id.clone(),
                    metrics,
                    ts_ms,
                };
                let ghost ev = event@;
                events.push(event);
                assert(events.deep_view() =~= before.push(ev));
            }
            k += 1;
        }
        assert(self@.pending =~= start.reported().pending);
        events
    }
}

fn append_commands(actions: &mut Vec<ShardAction>, commands: Vec<TradeCommand>)
    ensures
        final(actions).deep_view() == old(actions).deep_view() + command_actions(
            commands.deep_view(),
        ),
{
    let ghost start = actions.deep_view();
    let ghost all = commands.deep_view();
    let mut i: usize = 0;
    assert(start + command_actions(all.take(0)) =~= start);
    while i < commands.len()
        invariant
            i <= commands.len(),
            all == commands.deep_view(),
            actions.deep_view() == start + command_actions(all.take(i as int)),
        decreases commands.len() - i,
    {
        let ghost before = actions.deep_view();
        let command = commands[i].clone();
        assert(command@ == all[i as int]);
        actions.push(ShardAction::Command(command));
        assert(actions.deep_view() =~= before.push(ShardActionModel::Command(all[i as int])));
        assert(command_actions(all.take(i + 1)) =~= command_actions(all.take(i as int)).push(
            ShardActionModel::Command(all[i as int]),
        ));
        assert(before.push(ShardActionModel::Command(all[i as int])) =~= start + command_actions(
            all.take(i + 1),
        ));
        i += 1;
    }
    assert(all.take(all.len() as int) =~= all);
}

} // verus!
