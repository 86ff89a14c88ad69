//! Strategies at run time: spreads, the notional that they call for, and the orders that follow.

use vstd::prelude::*;

use crate::config::ids::{ClientOrderId, ShardId, StrategyId};
use crate::config::model::{MarketKey, SpreadLevel, StrategyConfigModel, StrategyRecord};
use crate::engine::book::{BookModel, LocalBookState, PriceLevel};
use crate::engine::telemetry::StrategyRuntimeMetrics;
use crate::engine::types::{Side, TradeCommand, TradeCommandModel};
use crate::num::{answers_all, computes, hundred, negative_zero, zero, Arith, Binary64};
use crate::text::{decimal, numeral};

verus! {

/// How many levels of each side are matched at most.
pub const MAX_MATCH_LEVELS: usize = 10;

/// How many steps matching takes at most: each uses up a level of a side, or is the last.
pub const MATCH_STEPS: usize = 20;

/// What a strategy holds and waits for.
#[derive(Debug)]
pub struct StrategyRuntimeState {
    pub strategy_id: Option<StrategyId>,
    pub current_pair_notional: Binary64,
    pub pending_open_notional: Binary64,
    pub pending_close_notional: Binary64,
    pub active_order_count: u32,
    pub last_open_spread_pct: Option<Binary64>,
    pub last_close_spread_pct: Option<Binary64>,
    /// How many orders have got an id.
    pub next_order_seq: u64,
}

/// What a [`StrategyRuntimeState`] holds.
#[verifier::ext_equal]
pub struct StrategyStateModel {
    pub strategy_id: Option<Seq<char>>,
    pub current_pair_notional: Binary64,
    pub pending_open_notional: Binary64,
    pub pending_close_notional: Binary64,
    pub active_order_count: u32,
    pub last_open_spread_pct: Option<Binary64>,
    pub last_close_spread_pct: Option<Binary64>,
    pub next_order_seq: u64,
}

impl View for StrategyRuntimeState {
    type V = StrategyStateModel;

    open spec fn view(&self) -> StrategyStateModel {
        StrategyStateModel {
            strategy_id: self.strategy_id.deep_view(),
            current_pair_notional: self.current_pair_notional,
            pending_open_notional: self.pending_open_notional,
            pending_close_notional: self.pending_close_notional,
            active_order_count: self.active_order_count,
            last_open_spread_pct: self.last_open_spread_pct,
            last_close_spread_pct: self.last_close_spread_pct,
            next_order_seq: self.next_order_seq,
        }
    }
}

impl DeepView for StrategyRuntimeState {
    type V = StrategyStateModel;

    open spec fn deep_view(&self) -> StrategyStateModel {
        self@
    }
}

impl Clone for StrategyRuntimeState {
    fn clone(&self) -> (r: Self)
        ensures
            r == *self,
    {
        StrategyRuntimeState {
            strategy_id: self.strategy_id.clone(),
            current_pair_notional: self.current_pair_notional,
            pending_open_notional: self.pending_open_notional,
            pending_close_notional: self.pending_close_notional,
            active_order_count: self.active_order_count,
            last_open_spread_pct: self.last_open_spread_pct,
            last_close_spread_pct: self.last_close_spread_pct,
            next_order_seq: self.next_order_seq,
        }
    }
}

impl Default for StrategyRuntimeState {
    fn default() -> (r: Self)
        ensures
            r@ == StrategyStateModel::fresh(None),
    {
        StrategyRuntimeState {
            strategy_id: None,
            current_pair_notional: zero(),
            pending_open_notional: zero(),
            pending_close_notional: zero(),
            active_order_count: 0,
            last_open_spread_pct: None,
            last_close_spread_pct: None,
            next_order_seq: 0,
        }
    }
}

/// What a planned pair of orders does.
#[derive(Clone, Copy, Debug, PartialEq, Eq, Structural)]
pub enum StrategyAction {
    Open,
    Close,
}

impl StrategyAction {
    /// The side of the order on the long market.
    pub open spec fn long_side_model(self) -> Side {
        match self {
            StrategyAction::Open => Side::Buy,
            StrategyAction::Close => Side::Sell,
        }
    }

    /// The side of the order on the short market.
    pub open spec fn short_side_model(self) -> Side {
        match self {
            StrategyAction::Open => Side::Sell,
            StrategyAction::Close => Side::Buy,
        }
    }

    /// The action's name in texts.
    pub open spec fn label_model(self) -> Seq<char> {
        match self {
            StrategyAction::Open => "Open"@,
            StrategyAction::Close => "Close"@,
        }
    }

    pub fn long_side(self) -> (r: Side)
        ensures
            r == self.long_side_model(),
    {
        match self {
            StrategyAction::Open => Side::Buy,
            StrategyAction::Close => Side::Sell,
        }
    }

    pub fn short_side(self) -> (r: Side)
        ensures
            r == self.short_side_model(),
    {
        match self {
            StrategyAction::Open => Side::Sell,
            StrategyAction::Close => Side::Buy,
        }
    }

    /// The action's name.
    pub fn label(self) -> (r: &'static str)
        ensures
            r@ == self.label_model(),
    {
        match self {
            StrategyAction::Open => "Open",
            StrategyAction::Close => "Close",
        }
    }
}

/// A planned pair of orders.
#[derive(Clone, Copy, Debug, PartialEq, Eq, Structural)]
pub struct StrategyOrderPlan {
    pub action: StrategyAction,
    pub spread_pct: Binary64,
    pub notional_usd: Binary64,
    pub long_qty: Binary64,
    pub short_qty: Binary64,
    pub long_limit_price: Binary64,
    pub short_limit_price: Binary64,
}

/// What looking at two books gives.
#[derive(Clone, Copy, Debug, PartialEq, Eq, Structural)]
pub struct StrategyEvaluation {
    pub planned_order: Option<StrategyOrderPlan>,
    pub metrics: StrategyRuntimeMetrics,
}

/// What two sides of two books give for a notional.
#[derive(Clone, Copy, Debug, PartialEq, Eq, Structural)]
pub struct DepthMatch {
    pub notional_usd: Binary64,
    pub long_qty: Binary64,
    pub short_qty: Binary64,
    pub long_price: Binary64,
    pub short_price: Binary64,
}

/// The notional on offer at a level: nothing where its price or quantity is not above zero.
pub open spec fn notional_of(m: spec_fn(Arith) -> Binary64, level: PriceLevel) -> Binary64 {
    if level.price.le(zero()) || level.qty.le(zero()) {
        zero()
    } else {
        m(Arith::Mul(level.price, level.qty))
    }
}

/// The levels that are matched, the best first: those of the first ones that offer anything.
pub open spec fn usable(m: spec_fn(Arith) -> Binary64, levels: Seq<PriceLevel>) -> Seq<PriceLevel>
    decreases levels.len(),
{
    if levels.len() == 0 {
        levels
    } else if notional_of(m, levels[0]).positive() {
        seq![levels[0]] + usable(m, levels.drop_first())
    } else {
        usable(m, levels.drop_first())
    }
}

/// The first levels of a side, the best first.
pub open spec fn best_levels(side: Seq<PriceLevel>) -> Seq<PriceLevel> {
    Seq::new(
        if side.len() < MAX_MATCH_LEVELS {
            side.len()
        } else {
            MAX_MATCH_LEVELS as nat
        },
        |k: int| side[side.len() - 1 - k],
    )
}

/// How far matching has come.
#[derive(Clone, Copy, Debug, PartialEq, Eq, Structural)]
pub struct MatchProgress {
    /// The notional that is still wanted.
    pub remaining: Binary64,
    /// What is left of the level that is matched on the long market.
    pub long_left: Binary64,
    /// What is left of the level that is matched on the short market.
    pub short_left: Binary64,
    pub matched: Binary64,
    pub long_qty: Binary64,
    pub short_qty: Binary64,
    /// The price of the last level that was used on the long market.
    pub long_price: Option<Binary64>,
    /// The price of the last level that was used on the short market.
    pub short_price: Option<Binary64>,
}

impl MatchProgress {
    /// As much as the notional and both levels allow is taken, at the prices of the levels.
    pub open spec fn taken(
        self,
        m: spec_fn(Arith) -> Binary64,
        long_price: Binary64,
        short_price: Binary64,
    ) -> MatchProgress {
        let take = self.remaining.min_num(self.long_left).min_num(self.short_left);
        MatchProgress {
            remaining: m(Arith::Sub(self.remaining, take)),
            long_left: m(Arith::Sub(self.long_left, take)),
            short_left: m(Arith::Sub(self.short_left, take)),
            matched: m(Arith::Add(self.matched, take)),
            long_qty: m(Arith::Add(self.long_qty, m(Arith::Div(take, long_price)))),
            short_qty: m(Arith::Add(self.short_qty, m(Arith::Div(take, short_price)))),
            long_price: Some(long_price),
            short_price: Some(short_price),
        }
    }

    fn take<F: Fn(Arith) -> Binary64>(
        self,
        long_price: Binary64,
        short_price: Binary64,
        arith: &F,
    ) -> (r: MatchProgress)
        requires
            answers_all(*arith),
        ensures
            forall|m: spec_fn(Arith) -> Binary64| #[trigger]
                computes(*arith, m) ==> r == self.taken(m, long_price, short_price),
            r.long_price == Some(long_price),
            r.short_price == Some(short_price),
    {
        let take = self.remaining.min(self.long_left).min(self.short_left);
        MatchProgress {
            remaining: arith(Arith::Sub(self.remaining, take)),
            long_left: arith(Arith::Sub(self.long_left, take)),
            short_left: arith(Arith::Sub(self.short_left, take)),
            matched: arith(Arith::Add(self.matched, take)),
            long_qty: arith(Arith::Add(self.long_qty, arith(Arith::Div(take, long_price)))),
            short_qty: arith(Arith::Add(self.short_qty, arith(Arith::Div(take, short_price)))),
            long_price: Some(long_price),
            short_price: Some(short_price),
        }
    }
}

/// Matching in its course: the levels of both markets that are not used up, and the progress.
#[verifier::ext_equal]
pub struct MatchState {
    pub longs: Seq<PriceLevel>,
    pub shorts: Seq<PriceLevel>,
    pub progress: MatchProgress,
}

impl MatchState {
    /// The state in which matching starts.
    pub open spec fn start(
        m: spec_fn(Arith) -> Binary64,
        longs: Seq<PriceLevel>,
        shorts: Seq<PriceLevel>,
        desired: Binary64,
    ) -> MatchState {
        MatchState {
            longs,
            shorts,
            progress: MatchProgress {
                remaining: desired,
                long_left: notional_of(m, longs[0]),
                short_left: notional_of(m, shorts[0]),
                matched: zero(),
                long_qty: zero(),
                short_qty: zero(),
                long_price: None,
                short_price: None,
            },
        }
    }

    /// Whether nothing is wanted any more, or a side is used up.
    pub open spec fn over(self) -> bool {
        !self.progress.remaining.positive() || self.longs.len() == 0 || self.shorts.len() == 0
    }

    /// One step: take what can be taken, and go on to the next level where one is used up.
    pub open spec fn stepped(self, m: spec_fn(Arith) -> Binary64) -> MatchState {
        let p = self.progress.taken(m, self.longs[0].price, self.shorts[0].price);
        let longs = if p.long_left.le(zero()) {
            self.longs.drop_first()
        } else {
            self.longs
        };
        let shorts = if p.short_left.le(zero()) {
            self.shorts.drop_first()
        } else {
            self.shorts
        };
        MatchState {
            longs,
            shorts,
            progress: MatchProgress {
                long_left: if p.long_left.le(zero()) && longs.len() > 0 {
                    notional_of(m, longs[0])
                } else {
                    p.long_left
                },
                short_left: if p.short_left.le(zero()) && shorts.len() > 0 {
                    notional_of(m, shorts[0])
                } else {
                    p.short_left
                },
                ..p
            },
        }
    }

    /// The state after at most `steps` steps.
    pub open spec fn run(self, m: spec_fn(Arith) -> Binary64, steps: nat) -> MatchState
        decreases steps,
    {
        if steps == 0 || self.over() {
            self
        } else {
            self.stepped(m).run(m, (steps - 1) as nat)
        }
    }
}

/// What is matched of `desired` between two sides of two books, each with its best level last.
pub open spec fn depth_match(
    m: spec_fn(Arith) -> Binary64,
    long_side: Seq<PriceLevel>,
    short_side: Seq<PriceLevel>,
    desired: Binary64,
) -> Option<DepthMatch> {
    let longs = usable(m, best_levels(long_side));
    let shorts = usable(m, best_levels(short_side));
    if !desired.finite() || desired.le(zero()) || longs.len() == 0 || shorts.len() == 0 {
        None
    } else {
        let p = MatchState::start(m, longs, shorts, desired).run(m, MATCH_STEPS as nat).progress;
        if p.matched.positive() && p.long_qty.positive() && p.short_qty.positive() {
            Some(
                DepthMatch {
                    notional_usd: p.matched,
                    long_qty: p.long_qty,
                    short_qty: p.short_qty,
                    long_price: p.long_price->0,
                    short_price: p.short_price->0,
                },
            )
        } else {
            None
        }
    }
}

/// The gain in percent of leaving at one price and entering at another.
pub open spec fn spread_of(
    m: spec_fn(Arith) -> Binary64,
    exit_price: Binary64,
    entry_price: Binary64,
) -> Option<Binary64> {
    if entry_price.le(zero()) {
        None
    } else {
        Some(
            m(
                Arith::Mul(
                    m(Arith::Div(m(Arith::Sub(exit_price, entry_price)), entry_price)),
                    hundred(),
                ),
            ),
        )
    }
}

/// What is missing to a target, if anything.
pub open spec fn missing_to(
    m: spec_fn(Arith) -> Binary64,
    target: Binary64,
    current: Binary64,
) -> Option<Binary64> {
    let delta = m(Arith::Sub(target, current));
    if delta.positive() {
        Some(delta)
    } else {
        None
    }
}

/// How many leading levels a spread reaches.
pub open spec fn reached(levels: Seq<SpreadLevel>, spread_pct: Binary64) -> nat
    decreases levels.len(),
{
    if levels.len() > 0 && levels[0].spread_pct.le(spread_pct) {
        1 + reached(levels.drop_first(), spread_pct)
    } else {
        0
    }
}

/// The notionals of levels, added up from the first.
pub open spec fn notional_sum(
    m: spec_fn(Arith) -> Binary64,
    levels: Seq<SpreadLevel>,
) -> Binary64
    decreases levels.len(),
{
    if levels.len() == 0 {
        negative_zero()
    } else {
        m(Arith::Add(notional_sum(m, levels.drop_last()), levels.last().notional_usd))
    }
}

/// The notional that a spread calls for: that of the leading levels that it reaches.
pub open spec fn target_of(
    m: spec_fn(Arith) -> Binary64,
    levels: Seq<SpreadLevel>,
    spread_pct: Binary64,
) -> Binary64 {
    notional_sum(m, levels.take(reached(levels, spread_pct) as int))
}

/// The id of an order.
pub open spec fn order_id(
    shard_id: Seq<char>,
    strategy_id: Seq<char>,
    leg: Seq<char>,
    number: nat,
) -> Seq<char> {
    shard_id + "-"@ + strategy_id + "-"@ + leg + "-"@ + numeral(number)
}

/// The plan for a match.
pub open spec fn plan_of(
    action: StrategyAction,
    spread_pct: Binary64,
    matched: DepthMatch,
) -> StrategyOrderPlan {
    StrategyOrderPlan {
        action,
        spread_pct,
        notional_usd: matched.notional_usd,
        long_qty: matched.long_qty,
        short_qty: matched.short_qty,
        long_limit_price: matched.long_price,
        short_limit_price: matched.short_price,
    }
}

impl StrategyStateModel {
    /// The state of a strategy that holds nothing.
    pub open spec fn fresh(strategy_id: Option<Seq<char>>) -> StrategyStateModel {
        StrategyStateModel {
            strategy_id,
            current_pair_notional: zero(),
            pending_open_notional: zero(),
            pending_close_notional: zero(),
            active_order_count: 0,
            last_open_spread_pct: None,
            last_close_spread_pct: None,
            next_order_seq: 0,
        }
    }

    /// What the strategy measures of itself.
    pub open spec fn metrics(self) -> StrategyRuntimeMetrics {
        StrategyRuntimeMetrics {
            open_spread_pct: self.last_open_spread_pct,
            close_spread_pct: self.last_close_spread_pct,
            current_pair_notional: self.current_pair_notional,
            pending_open_notional: self.pending_open_notional,
            pending_close_notional: self.pending_close_notional,
            active_order_count: self.active_order_count,
        }
    }

    /// The spread at which the pair can be opened: bought on the long market, sold on the short one.
    pub open spec fn open_spread(
        m: spec_fn(Arith) -> Binary64,
        long: BookModel,
        short: BookModel,
    ) -> Option<Binary64> {
        if long.asks.len() == 0 || short.bids.len() == 0 {
            None
        } else {
            spread_of(m, short.bids.last().price, long.asks.last().price)
        }
    }

    /// The spread at which the pair can be closed: sold on the long market, bought on the short one.
    pub open spec fn close_spread(
        m: spec_fn(Arith) -> Binary64,
        long: BookModel,
        short: BookModel,
    ) -> Option<Binary64> {
        if long.bids.len() == 0 || short.asks.len() == 0 {
            None
        } else {
            spread_of(m, long.bids.last().price, short.asks.last().price)
        }
    }

    /// The orders that open more of the pair, if the spread calls for it and there is room.
    pub open spec fn opening(
        self,
        m: spec_fn(Arith) -> Binary64,
        strategy: StrategyConfigModel,
        long: BookModel,
        short: BookModel,
    ) -> Option<StrategyOrderPlan> {
        match Self::open_spread(m, long, short) {
            None => None,
            Some(spread_pct) => {
                let target = target_of(m, strategy.open_levels, spread_pct).min_num(
                    strategy.max_total_notional,
                );
                let held = m(Arith::Add(self.current_pair_notional, self.pending_open_notional));
                match (
                    missing_to(m, target, held),
                    missing_to(m, strategy.max_total_notional, held),
                ) {
                    (Some(desired), Some(room)) => match depth_match(
                        m,
                        long.asks,
                        short.bids,
                        desired.min_num(room),
                    ) {
                        Some(matched) => Some(plan_of(StrategyAction::Open, spread_pct, matched)),
                        None => None,
                    },
                    _ => None,
                }
            },
        }
    }

    /// The orders that close some of the pair, if the spread calls for it and anything is held.
    pub open spec fn closing(
        self,
        m: spec_fn(Arith) -> Binary64,
        strategy: StrategyConfigModel,
        long: BookModel,
        short: BookModel,
    ) -> Option<StrategyOrderPlan> {
        match Self::close_spread(m, long, short) {
            None => None,
            Some(spread_pct) => match missing_to(
                m,
                self.current_pair_notional,
                self.pending_close_notional,
            ) {
                None => None,
                Some(available) => {
                    let desired = target_of(m, strategy.close_levels, spread_pct).min_num(
                        available,
                    );
                    if desired.le(zero()) {
                        None
                    } else {
                        match depth_match(m, long.bids, short.asks, desired) {
                            Some(matched) => Some(
                                plan_of(StrategyAction::Close, spread_pct, matched),
                            ),
                            None => None,
                        }
                    }
                },
            },
        }
    }

    /// The state after a look at the spread for closing.
    pub open spec fn close_seen(
        self,
        m: spec_fn(Arith) -> Binary64,
        long: BookModel,
        short: BookModel,
    ) -> StrategyStateModel {
        match Self::close_spread(m, long, short) {
            Some(spread_pct) => StrategyStateModel {
                last_close_spread_pct: Some(spread_pct),
                ..self
            },
            None => self,
        }
    }

    /// The state after a look at the spread for opening.
    pub open spec fn open_seen(
        self,
        m: spec_fn(Arith) -> Binary64,
        long: BookModel,
        short: BookModel,
    ) -> StrategyStateModel {
        match Self::open_spread(m, long, short) {
            Some(spread_pct) => StrategyStateModel {
                last_open_spread_pct: Some(spread_pct),
                ..self
            },
            None => self,
        }
    }

    /// The orders that two books call for. Closing comes first; nothing is planned where two more
    /// orders would be too many.
    pub open spec fn planned(
        self,
        m: spec_fn(Arith) -> Binary64,
        strategy: StrategyConfigModel,
        long: BookModel,
        short: BookModel,
    ) -> Option<StrategyOrderPlan> {
        if self.active_order_count + 2 > strategy.max_open_orders {
            None
        } else if self.closing(m, strategy, long, short) is Some {
            self.closing(m, strategy, long, short)
        } else {
            self.opening(m, strategy, long, short)
        }
    }

    /// The state after a look at two books.
    pub open spec fn seen(
        self,
        m: spec_fn(Arith) -> Binary64,
        strategy: StrategyConfigModel,
        long: BookModel,
        short: BookModel,
    ) -> StrategyStateModel {
        if self.active_order_count + 2 > strategy.max_open_orders {
            self
        } else if self.closing(m, strategy, long, short) is Some {
            self.close_seen(m, long, short)
        } else {
            self.close_seen(m, long, short).open_seen(m, long, short)
        }
    }

    /// The state after orders have been placed.
    pub open spec fn committed(
        self,
        m: spec_fn(Arith) -> Binary64,
        plan: StrategyOrderPlan,
    ) -> StrategyStateModel {
        StrategyStateModel {
            active_order_count: (self.active_order_count + 2) as u32,
            next_order_seq: (self.next_order_seq + 2) as u64,
            pending_open_notional: match plan.action {
                StrategyAction::Open => m(
                    Arith::Add(self.pending_open_notional, plan.notional_usd),
                ),
                StrategyAction::Close => self.pending_open_notional,
            },
            pending_close_notional: match plan.action {
                StrategyAction::Open => self.pending_close_notional,
                StrategyAction::Close => m(
                    Arith::Add(self.pending_close_notional, plan.notional_usd),
                ),
            },
            ..self
        }
    }

    /// The orders of a plan: the one on the long market, then the one on the short market.
    pub open spec fn orders_of(
        self,
        shard_id: Seq<char>,
        strategy: StrategyConfigModel,
        plan: StrategyOrderPlan,
    ) -> Seq<TradeCommandModel> {
        seq![
            TradeCommandModel::PlaceOrder {
                shard_id,
                strategy_id: strategy.id,
                account_id: strategy.long_leg.account_id,
                exchange: strategy.long_leg.exchange,
                symbol: strategy.long_leg.symbol,
                side: plan.action.long_side_model(),
                qty: plan.long_qty,
                limit_price: Some(plan.long_limit_price),
                client_order_id: order_id(
                    shard_id,
                    strategy.id,
                    "long"@,
                    (self.next_order_seq + 1) as nat,
                ),
            },
            TradeCommandModel::PlaceOrder {
                shard_id,
                strategy_id: strategy.id,
                account_id: strategy.short_leg.account_id,
                exchange: strategy.short_leg.exchange,
                symbol: strategy.short_leg.symbol,
                side: plan.action.short_side_model(),
                qty: plan.short_qty,
                limit_price: Some(plan.short_limit_price),
                client_order_id: order_id(
                    shard_id,
                    strategy.id,
                    "short"@,
                    (self.next_order_seq + 2) as nat,
                ),
            },
        ]
    }
}

impl StrategyRuntimeState {
    pub fn new(strategy_id: StrategyId) -> (r: Self)
        ensures
            r@ == StrategyStateModel::fresh(Some(strategy_id@)),
    {
        let mut state = StrategyRuntimeState::default();
        state.strategy_id = Some(strategy_id);
        state
    }

    /// Looks at the books of both markets and plans orders.
    pub fn evaluate<F: Fn(Arith) -> Binary64>(
        &mut self,
        strategy: &StrategyRecord,
        long_book: &LocalBookState,
        short_book: &LocalBookState,
        arith: &F,
    ) -> (r: StrategyEvaluation)
        requires
            answers_all(*arith),
            old(self).active_order_count + 2 <= u32::MAX,
        ensures
            forall|m: spec_fn(Arith) -> Binary64| #[trigger]
                computes(*arith, m) ==> {
                    &&& final(self)@ == old(self)@.seen(
                        m,
                        strategy@.config,
                        long_book@,
                        short_book@,
                    )
                    &&& r.planned_order == old(self)@.planned(
                        m,
                        strategy@.config,
                        long_book@,
                        short_book@,
                    )
                },
            r.metrics == final(self)@.metrics(),
            final(self).active_order_count == old(self).active_order_count,
            final(self).next_order_seq == old(self).next_order_seq,
    {
        if self.active_order_count + 2 > strategy.max_open_orders {
            return self.evaluation(None);
        }
        let close_plan = self.close_plan(strategy, long_book, short_book, arith);
        if close_plan.is_some() {
            return self.evaluation(close_plan);
        }
        let open_plan = self.open_plan(strategy, long_book, short_book, arith);
        self.evaluation(open_plan)
    }

    pub fn metrics(&self) -> (r: StrategyRuntimeMetrics)
        ensures
            r == self@.metrics(),
    {
        StrategyRuntimeMetrics {
            open_spread_pct: self.last_open_spread_pct,
            close_spread_pct: self.last_close_spread_pct,
            current_pair_notional: self.current_pair_notional,
            pending_open_notional: self.pending_open_notional,
            pending_close_notional: self.pending_close_notional,
            active_order_count: self.active_order_count,
        }
    }

    fn evaluation(&self, planned_order: Option<StrategyOrderPlan>) -> (r: StrategyEvaluation)
        ensures
            r.planned_order == planned_order,
            r.metrics == self@.metrics(),
    {
        StrategyEvaluation { planned_order, metrics: self.metrics() }
    }

    fn open_plan<F: Fn(Arith) -> Binary64>(
        &mut self,
        strategy: &StrategyRecord,
        long_book: &LocalBookState,
        short_book: &LocalBookState,
        arith: &F,
    ) -> (r: Option<StrategyOrderPlan>)
        requires
            answers_all(*arith),
        ensures
            forall|m: spec_fn(Arith) -> Binary64| #[trigger]
                computes(*arith, m) ==> {
                    &&& final(self)@ == old(self)@.open_seen(m, long_book@, short_book@)
                    &&& r == old(self)@.opening(m, strategy@.config, long_book@, short_book@)
                },
            final(self).active_order_count == old(self).active_order_count,
            final(self).next_order_seq == old(self).next_order_seq,
    {
        let ask_long = match long_book.best_ask() {
            Some(level) => *level,
            None => return None,
        };
        let bid_short = match short_book.best_bid() {
            Some(level) => *level,
            None => return None,
        };
        let spread = match spread_pct(bid_short.price, ask_long.price, arith) {
            Some(spread) => spread,
            None => return None,
        };
        self.last_open_spread_pct = Some(spread);
        let target = target_notional(strategy.open_levels.as_slice(), spread, arith).min(
            strategy.max_total_notional,
        );
        let held = arith(Arith::Add(self.current_pair_notional, self.pending_open_notional));
        let desired = match positive_delta(target, held, arith) {
            Some(delta) => delta,
            None => return None,
        };
        let room = match positive_delta(strategy.max_total_notional, held, arith) {
            Some(delta) => delta,
            None => return None,
        };
        let matched = match_depth(
            long_book.asks_desc(),
            short_book.bids_asc(),
            desired.min(room),
            arith,
        );
        match matched {
            Some(matched) => Some(to_plan(StrategyAction::Open, spread, matched)),
            None => None,
        }
    }

    fn close_plan<F: Fn(Arith) -> Binary64>(
        &mut self,
        strategy: &StrategyRecord,
        long_book: &LocalBookState,
        short_book: &LocalBookState,
        arith: &F,
    ) -> (r: Option<StrategyOrderPlan>)
        requires
            answers_all(*arith),
        ensures
            forall|m: spec_fn(Arith) -> Binary64| #[trigger]
                computes(*arith, m) ==> {
                    &&& final(self)@ == old(self)@.close_seen(m, long_book@, short_book@)
                    &&& r == old(self)@.closing(m, strategy@.config, long_book@, short_book@)
                },
            final(self).active_order_count == old(self).active_order_count,
            final(self).next_order_seq == old(self).next_order_seq,
    {
        let bid_long = match long_book.best_bid() {
            Some(level) => *level,
            None => return None,
        };
        let ask_short = match short_book.best_ask() {
            Some(level) => *level,
            None => return None,
        };
        let spread = match spread_pct(bid_long.price, ask_short.price, arith) {
            Some(spread) => spread,
            None => return None,
        };
        self.last_close_spread_pct = Some(spread);
        let close_target = target_notional(strategy.close_levels.as_slice(), spread, arith);
        let available = match positive_delta(
            self.current_pair_notional,
            self.pending_close_notional,
            arith,
        ) {
            Some(delta) => delta,
            None => return None,
        };
        let desired = close_target.min(available);
        if desired.at_most(zero()) {
            return None;
        }
        let matched = match_depth(long_book.bids_asc(), short_book.asks_desc(), desired, arith);
        match matched {
            Some(matched) => Some(to_plan(StrategyAction::Close, spread, matched)),
            None => None,
        }
    }

    /// Counts a plan's notional and orders as pending and gives the orders.
    pub fn commit_plan<F: Fn(Arith) -> Binary64>(
        &mut self,
        shard_id: &ShardId,
        strategy: &StrategyRecord,
        plan: &StrategyOrderPlan,
        arith: &F,
    ) -> (r: Vec<TradeCommand>)
        requires
            answers_all(*arith),
            old(self).active_order_count + 2 <= u32::MAX,
            old(self).next_order_seq + 2 <= u64::MAX,
        ensures
            forall|m: spec_fn(Arith) -> Binary64| #[trigger]
                computes(*arith, m) ==> final(self)@ == old(self)@.committed(m, *plan),
            r.deep_view() == old(self)@.orders_of(shard_id@, strategy@.config, *plan),
            final(self).active_order_count == old(self).active_order_count + 2,
            final(self).next_order_seq == old(self).next_order_seq + 2,
    {
        self.active_order_count = self.active_order_count + 2;
        match plan.action {
            StrategyAction::Open => {
                self.pending_open_notional =
                arith(Arith::Add(self.pending_open_notional, plan.notional_usd));
            },
            StrategyAction::Close => {
                self.pending_close_notional =
                arith(Arith::Add(self.pending_close_notional, plan.notional_usd));
            },
        }
        let long_order_id = self.next_client_order_id(shard_id, &strategy.id, "long");
        let short_order_id = self.next_client_order_id(shard_id, &strategy.id, "short");
        let mut orders: Vec<TradeCommand> = Vec::new();
        orders.push(
            TradeCommand::PlaceOrder {
                shard_id: shard_id.clone(),
                strategy_id: strategy.id.clone(),
                account_id: strategy.long_leg.account_id.clone(),
                exchange: strategy.long_leg.exchange,
                symbol: strategy.long_leg.symbol.clone(),
                side: plan.action.long_side(),
                qty: plan.long_qty,
                limit_price: Some(plan.long_limit_price),
                client_order_id: long_order_id,
            },
        );
        orders.push(
            TradeCommand::PlaceOrder {
                shard_id: shard_id.clone(),
                strategy_id: strategy.id.clone(),
                account_id: strategy.short_leg.account_id.clone(),
                exchange: strategy.short_leg.exchange,
                symbol: strategy.short_leg.symbol.clone(),
                side: plan.action.short_side(),
                qty: plan.short_qty,
                limit_price: Some(plan.short_limit_price),
                client_order_id: short_order_id,
            },
        );
        assert(orders.deep_view() =~= old(self)@.orders_of(shard_id@, strategy@.config, *plan));
        orders
    }

    fn next_client_order_id(
        &mut self,
        shard_id: &ShardId,
        strategy_id: &StrategyId,
        leg: &str,
    ) -> (r: ClientOrderId)
        requires
            old(self).next_order_seq < u64::MAX,
        ensures
            final(self)@ == (StrategyStateModel {
                next_order_seq: (old(self).next_order_seq + 1) as u64,
                ..old(self)@
            }),
            r@ == order_id(shard_id@, strategy_id@, leg@, (old(self).next_order_seq + 1) as nat),
    {
        self.next_order_seq = self.next_order_seq + 1;
        let mut id = shard_id.as_str().to_owned();
        id.append("-");
        id.append(strategy_id.as_str());
        id.append("-");
        id.append(leg);
        id.append("-");
        id.append(decimal(self.next_order_seq as u128).as_str());
        ClientOrderId::new(id)
    }
}

fn to_plan(action: StrategyAction, spread_pct: Binary64, matched: DepthMatch) -> (r:
    StrategyOrderPlan)
    ensures
        r == plan_of(action, spread_pct, matched),
{
    StrategyOrderPlan {
        action,
        spread_pct,
        notional_usd: matched.notional_usd,
        long_qty: matched.long_qty,
        short_qty: matched.short_qty,
        long_limit_price: matched.long_price,
        short_limit_price: matched.short_price,
    }
}

/// The notional that a spread calls for.
pub fn target_notional<F: Fn(Arith) -> Binary64>(
    levels: &[SpreadLevel],
    spread_pct: Binary64,
    arith: &F,
) -> (r: Binary64)
    requires
        answers_all(*arith),
    ensures
        forall|m: spec_fn(Arith) -> Binary64| #[trigger]
            computes(*arith, m) ==> r == target_of(m, levels@, spread_pct),
{
    let mut sum = negative_zero();
    let mut i: usize = 0;
    assert(levels@.skip(0) =~= levels@);
    assert(levels@.take(0) =~= Seq::empty());
    while i < levels.len() && levels[i].spread_pct.at_most(spread_pct)
        invariant
            i <= levels.len(),
            answers_all(*arith),
            reached(levels@, spread_pct) == i + reached(levels@.skip(i as int), spread_pct),
            forall|m: spec_fn(Arith) -> Binary64| #[trigger]
                computes(*arith, m) ==> sum == notional_sum(m, levels@.take(i as int)),
        decreases levels.len() - i,
    {
        assert(levels@.skip(i as int).drop_first() =~= levels@.skip(i + 1));
        assert(levels@.take(i + 1).drop_last() =~= levels@.take(i as int));
        sum = arith(Arith::Add(sum, levels[i].notional_usd));
        i += 1;
    }
    sum
}

/// The markets of a strategy, the long one first.
pub fn strategy_markets(strategy: &StrategyRecord) -> (r: [MarketKey; 2])
    ensures
        r[0]@ == strategy@.config.long_leg.market(),
        r[1]@ == strategy@.config.short_leg.market(),
{
    [strategy.long_leg.market(), strategy.short_leg.market()]
}

fn level_notional<F: Fn(Arith) -> Binary64>(level: &PriceLevel, arith: &F) -> (r: Binary64)
    requires
        answers_all(*arith),
    ensures
        forall|m: spec_fn(Arith) -> Binary64| #[trigger]
            computes(*arith, m) ==> r == notional_of(m, *level),
{
    if level.price.at_most(zero()) || level.qty.at_most(zero()) {
        zero()
    } else {
        arith(Arith::Mul(level.price, level.qty))
    }
}

fn spread_pct<F: Fn(Arith) -> Binary64>(
    exit_price: Binary64,
    entry_price: Binary64,
    arith: &F,
) -> (r: Option<Binary64>)
    requires
        answers_all(*arith),
    ensures
        forall|m: spec_fn(Arith) -> Binary64| #[trigger]
            computes(*arith, m) ==> r == spread_of(m, exit_price, entry_price),
{
    if entry_price.at_most(zero()) {
        return None;
    }
    let delta = arith(Arith::Sub(exit_price, entry_price));
    let ratio = arith(Arith::Div(delta, entry_price));
    Some(arith(Arith::Mul(ratio, hundred())))
}

fn positive_delta<F: Fn(Arith) -> Binary64>(
    target: Binary64,
    current: Binary64,
    arith: &F,
) -> (r: Option<Binary64>)
    requires
        answers_all(*arith),
    ensures
        forall|m: spec_fn(Arith) -> Binary64| #[trigger]
            computes(*arith, m) ==> r == missing_to(m, target, current),
{
    let delta = arith(Arith::Sub(target, current));
    if delta.is_positive() {
        Some(delta)
    } else {
        None
    }
}

proof fn lemma_usable_skips(m: spec_fn(Arith) -> Binary64, levels: Seq<PriceLevel>, k: int)
    requires
        0 <= k < levels.len(),
    ensures
        usable(m, levels.skip(k)) == (if notional_of(m, levels[k]).positive() {
            seq![levels[k]] + usable(m, levels.skip(k + 1))
        } else {
            usable(m, levels.skip(k + 1))
        }),
{
    assert(levels.skip(k).drop_first() =~= levels.skip(k + 1));
}

/// The number of the next level that offers anything, counted from the best, if there is one, and
/// its notional.
fn next_positive_level<F: Fn(Arith) -> Binary64>(
    side: &[PriceLevel],
    from: usize,
    arith: &F,
) -> (r: Option<(usize, Binary64)>)
    requires
        answers_all(*arith),
        from <= best_levels(side@).len(),
    ensures
        match r {
            Some((k, notional)) => {
                &&& from <= k < best_levels(side@).len()
                &&& notional.positive()
                &&& forall|m: spec_fn(Arith) -> Binary64| #[trigger]
                    computes(*arith, m) ==> {
                        &&& notional == notional_of(m, best_levels(side@)[k as int])
                        &&& usable(m, best_levels(side@).skip(from as int)) == seq![
                            best_levels(side@)[k as int],
                        ] + usable(m, best_levels(side@).skip(k + 1))
                    }
            },
            None => forall|m: spec_fn(Arith) -> Binary64| #[trigger]
                computes(*arith, m) ==> usable(
                    m,
                    best_levels(side@).skip(from as int),
                ).len() == 0,
        },
{
    let ghost best = best_levels(side@);
    let count: usize = if side.len() < MAX_MATCH_LEVELS {
        side.len()
    } else {
        MAX_MATCH_LEVELS
    };
    let mut k: usize = from;
    while k < count
        invariant
            answers_all(*arith),
            best == best_levels(side@),
            count == best.len(),
            count <= side@.len(),
            from <= k <= count,
            forall|m: spec_fn(Arith) -> Binary64| #[trigger]
                computes(*arith, m) ==> usable(m, best.skip(from as int)) == usable(
                    m,
                    best.skip(k as int),
                ),
        decreases count - k,
    {
        let level = side[side.len() - 1 - k];
        assert(level == best[k as int]);
        let notional = level_notional(&level, arith);
        proof {
            assert forall|m: spec_fn(Arith) -> Binary64| #[trigger]
                computes(*arith, m) implies usable(m, best.skip(k as int)) == (
            if notional.positive() {
                seq![level] + usable(m, best.skip(k + 1))
            } else {
                usable(m, best.skip(k + 1))
            }) by {
                lemma_usable_skips(m, best, k as int);
            }
        }
        if notional.is_positive() {
            return Some((k, notional));
        }
        k += 1;
    }
    None
}

/// The state of matching when the levels `i` and `j` are matched.
spec fn matching_at(
    m: spec_fn(Arith) -> Binary64,
    long_side: Seq<PriceLevel>,
    short_side: Seq<PriceLevel>,
    i: int,
    j: int,
    progress: MatchProgress,
) -> MatchState {
    MatchState {
        longs: seq![best_levels(long_side)[i]] + usable(m, best_levels(long_side).skip(i + 1)),
        shorts: seq![best_levels(short_side)[j]] + usable(m, best_levels(short_side).skip(j + 1)),
        progress,
    }
}

fn match_depth<F: Fn(Arith) -> Binary64>(
    long_side: &[PriceLevel],
    short_side: &[PriceLevel],
    desired: Binary64,
    arith: &F,
) -> (r: Option<DepthMatch>)
    requires
        answers_all(*arith),
    ensures
        forall|m: spec_fn(Arith) -> Binary64| #[trigger]
            computes(*arith, m) ==> r == depth_match(m, long_side@, short_side@, desired),
{
    if !desired.is_finite() || desired.at_most(zero()) {
        return None;
    }
    let ghost longs = best_levels(long_side@);
    let ghost shorts = best_levels(short_side@);
    assert(longs.skip(0) =~= longs);
    assert(shorts.skip(0) =~= shorts);
    let first_long = next_positive_level(long_side, 0, arith);
    let (mut i, long_notional) = match first_long {
        Some(found) => found,
        None => return None,
    };
    let first_short = next_positive_level(short_side, 0, arith);
    let (mut j, short_notional) = match first_short {
        Some(found) => found,
        None => return None,
    };
    let mut progress = MatchProgress {
        remaining: desired,
        long_left: long_notional,
        short_left: short_notional,
        matched: zero(),
        long_qty: zero(),
        short_qty: zero(),
        long_price: None,
        short_price: None,
    };
    let mut steps: usize = MATCH_STEPS;
    let mut going = true;
    let ghost start = progress;
    let ghost i0 = i as int;
    let ghost j0 = j as int;
    proof {
        assert forall|m: spec_fn(Arith) -> Binary64| #[trigger] computes(*arith, m) implies matching_at(
            m,
            long_side@,
            short_side@,
            i0,
            j0,
            start,
        ) == MatchState::start(m, usable(m, longs), usable(m, shorts), desired) by {
            assert(usable(m, longs)[0] == longs[i0]);
            assert(usable(m, shorts)[0] == shorts[j0]);
        }
    }
    while going && steps > 0 && progress.remaining.is_positive()
        invariant
            answers_all(*arith),
            longs == best_levels(long_side@),
            shorts == best_levels(short_side@),
            i < longs.len(),
            j < shorts.len(),
            steps <= MATCH_STEPS,
            steps == MATCH_STEPS ==> progress == start && going,
            start.remaining.positive(),
            steps < MATCH_STEPS ==> progress.long_price is Some && progress.short_price is Some,
            going ==> forall|m: spec_fn(Arith) -> Binary64| #[trigger]
                computes(*arith, m) ==> matching_at(
                    m,
                    long_side@,
                    short_side@,
                    i as int,
                    j as int,
                    progress,
                ).run(m, steps as nat) == matching_at(
                    m,
                    long_side@,
                    short_side@,
                    i0,
                    j0,
                    start,
                ).run(m, MATCH_STEPS as nat),
            !going ==> forall|m: spec_fn(Arith) -> Binary64| #[trigger]
                computes(*arith, m) ==> {
                    let p = matching_at(m, long_side@, short_side@, i0, j0, start).run(
                        m,
                        MATCH_STEPS as nat,
                    ).progress;
                    &&& p.matched == progress.matched
                    &&& p.long_qty == progress.long_qty
                    &&& p.short_qty == progress.short_qty
                    &&& p.long_price == progress.long_price
                    &&& p.short_price == progress.short_price
                },
        decreases steps + (if going { 1int } else { 0 }),
    {
        let ghost before = progress;
        let ghost i_before = i as int;
        let ghost j_before = j as int;
        let long_level = long_side[long_side.len() - 1 - i];
        let short_level = short_side[short_side.len() - 1 - j];
        assert(long_level == longs[i as int]);
        assert(short_level == shorts[j as int]);
        progress = progress.take(long_level.price, short_level.price, arith);
        let ghost after_take = progress;
        steps -= 1;
        let long_used = progress.long_left.at_most(zero());
        let short_used = progress.short_left.at_most(zero());
        if long_used {
            match next_positive_level(long_side, i + 1, arith) {
                Some((next, notional)) => {
                    i = next;
                    progress.long_left = notional;
                },
                None => {
                    going = false;
                },
            }
        }
        if going && short_used {
            match next_positive_level(short_side, j + 1, arith) {
                Some((next, notional)) => {
                    j = next;
                    progress.short_left = notional;
                },
                None => {
                    going = false;
                },
            }
        }
        proof {
            assert forall|m: spec_fn(Arith) -> Binary64| #[trigger] computes(*arith, m) implies {
                let s = matching_at(
                    m,
                    long_side@,
                    short_side@,
                    i_before,
                    j_before,
                    before,
                ).stepped(m);
                &&& going ==> s == matching_at(
                    m,
                    long_side@,
                    short_side@,
                    i as int,
                    j as int,
                    progress,
                )
                &&& !going ==> s == matching_at(
                    m,
                    long_side@,
                    short_side@,
                    i0,
                    j0,
                    start,
                ).run(m, MATCH_STEPS as nat)
                &&& s.progress.matched == progress.matched
                &&& s.progress.long_qty == progress.long_qty
                &&& s.progress.short_qty == progress.short_qty
                &&& s.progress.long_price == progress.long_price
                &&& s.progress.short_price == progress.short_price
            } by {
                let old_state = matching_at(
                    m,
                    long_side@,
                    short_side@,
                    i_before,
                    j_before,
                    before,
                );
                assert(old_state.longs.drop_first() =~= usable(m, longs.skip(i_before + 1)));
                assert(old_state.shorts.drop_first() =~= usable(m, shorts.skip(j_before + 1)));
                let s = old_state.stepped(m);
                assert(old_state.run(m, (steps + 1) as nat) == s.run(m, steps as nat));
                if going {
                    let new_state = matching_at(
                        m,
                        long_side@,
                        short_side@,
                        i as int,
                        j as int,
                        progress,
                    );
                    assert(s.longs =~= new_state.longs);
                    assert(s.shorts =~= new_state.shorts);
                }
            }
        }
    }
    proof {
        assert(steps < MATCH_STEPS);
        assert forall|m: spec_fn(Arith) -> Binary64| #[trigger] computes(*arith, m) implies {
            let p = matching_at(m, long_side@, short_side@, i0, j0, start).run(
                m,
                MATCH_STEPS as nat,
            ).progress;
            &&& p.matched == progress.matched
            &&& p.long_qty == progress.long_qty
            &&& p.short_qty == progress.short_qty
            &&& p.long_price == progress.long_price
            &&& p.short_price == progress.short_price
        } by {
            if going {
                let s = matching_at(
                    m,
                    long_side@,
                    short_side@,
                    i as int,
                    j as int,
                    progress,
                );
                assert(s.run(m, steps as nat) == s);
            }
        }
    }
    if !progress.matched.is_positive() || !progress.long_qty.is_positive()
        || !progress.short_qty.is_positive() {
        return None;
    }
    match (progress.long_price, progress.short_price) {
        (Some(long_price), Some(short_price)) => Some(
            DepthMatch {
                notional_usd: progress.matched,
                long_qty: progress.long_qty,
                short_qty: progress.short_qty,
                long_price,
                short_price,
            },
        ),
        _ => None,
    }
}

} // verus!
