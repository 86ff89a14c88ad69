//! How plans are made up: which levels are used, and what is taken of each.

use vstd::prelude::*;

use crate::config::model::{SpreadLevel, StrategyConfigModel, StrategyLegModel};
use crate::engine::book::{BookModel, PriceLevel};
use crate::engine::strategy::{
    best_levels, depth_match, notional_of, notional_sum, reached, target_of, usable, MatchState,
    StrategyAction, StrategyOrderPlan, StrategyStateModel, MATCH_STEPS,
};
use crate::engine::strategy_laws::lemma_reached;
use crate::engine::types::TradeCommandModel;
use crate::num::{hundred, zero, Arith, Binary64};
use crate::text::numeral;

verus! {

/// One step of matching: an amount is taken of a level of either side. Levels are counted from the
/// best one.
#[verifier::ext_equal]
pub struct Fill {
    pub long: int,
    pub short: int,
    /// What is still wanted before the step.
    pub wanted: Binary64,
    /// What is left of the level on the long market before the step.
    pub long_left: Binary64,
    /// What is left of the level on the short market before the step.
    pub short_left: Binary64,
}

impl Fill {
    /// What is taken: as much as is wanted and both levels have left.
    pub open spec fn amount(self) -> Binary64 {
        self.wanted.min_num(self.long_left).min_num(self.short_left)
    }
}

/// The level of a side that is the `k`-th best.
pub open spec fn level_at(side: Seq<PriceLevel>, k: int) -> PriceLevel {
    side[side.len() - 1 - k]
}

/// The worth of a level.
pub open spec fn worth(m: spec_fn(Arith) -> Binary64, level: PriceLevel) -> Binary64 {
    m(Arith::Mul(level.price, level.qty))
}

/// Whether a side has a `k`-th best level, it is one of the first ten, and it offers something.
pub open spec fn is_offer(m: spec_fn(Arith) -> Binary64, side: Seq<PriceLevel>, k: int) -> bool {
    &&& 0 <= k < side.len()
    &&& k < 10
    &&& zero().lt(worth(m, level_at(side, k)))
    &&& !level_at(side, k).price.le(zero())
    &&& !level_at(side, k).qty.le(zero())
}

/// Whether `k` is the first offer of a side from the place `from` on.
pub open spec fn is_next_offer(
    m: spec_fn(Arith) -> Binary64,
    side: Seq<PriceLevel>,
    from: int,
    k: int,
) -> bool {
    &&& from <= k
    &&& is_offer(m, side, k)
    &&& forall|j: int| from <= j < k ==> !#[trigger] is_offer(m, side, j)
}

/// Whether a side has no offer from the place `from` on.
pub open spec fn is_used_up(m: spec_fn(Arith) -> Binary64, side: Seq<PriceLevel>, from: int) -> bool {
    forall|j: int| from <= j ==> !#[trigger] is_offer(m, side, j)
}

/// Numbers added up one after the other, beginning with zero.
pub open spec fn added_up(m: spec_fn(Arith) -> Binary64, amounts: Seq<Binary64>) -> Binary64
    decreases amounts.len(),
{
    if amounts.len() == 0 {
        zero()
    } else {
        m(Arith::Add(added_up(m, amounts.drop_last()), amounts.last()))
    }
}

/// Whether a side's level goes on from one step to the next as it has to: the same level with what the
/// step left of it, or the next offer where nothing is left.
pub open spec fn goes_on(
    m: spec_fn(Arith) -> Binary64,
    side: Seq<PriceLevel>,
    k: int,
    left: Binary64,
    amount: Binary64,
    next: int,
    next_left: Binary64,
) -> bool {
    let rest = m(Arith::Sub(left, amount));
    if rest.le(zero()) {
        is_next_offer(m, side, k + 1, next) && next_left == worth(m, level_at(side, next))
    } else {
        next == k && next_left == rest
    }
}

/// Whether one step of matching follows another.
pub open spec fn fill_follows(
    m: spec_fn(Arith) -> Binary64,
    long_side: Seq<PriceLevel>,
    short_side: Seq<PriceLevel>,
    a: Fill,
    b: Fill,
) -> bool {
    &&& b.wanted == m(Arith::Sub(a.wanted, a.amount()))
    &&& zero().lt(b.wanted)
    &&& goes_on(m, long_side, a.long, a.long_left, a.amount(), b.long, b.long_left)
    &&& goes_on(m, short_side, a.short, a.short_left, a.amount(), b.short, b.short_left)
}

/// Whether matching is over with a step: nothing is wanted any more, or a side is used up.
pub open spec fn fill_ends(
    m: spec_fn(Arith) -> Binary64,
    long_side: Seq<PriceLevel>,
    short_side: Seq<PriceLevel>,
    last: Fill,
) -> bool {
    ||| !zero().lt(m(Arith::Sub(last.wanted, last.amount())))
    ||| m(Arith::Sub(last.long_left, last.amount())).le(zero()) && is_used_up(
        m,
        long_side,
        last.long + 1,
    )
    ||| m(Arith::Sub(last.short_left, last.amount())).le(zero()) && is_used_up(
        m,
        short_side,
        last.short + 1,
    )
}

/// Whether steps match `desired` between two sides: they begin with the best offers, each follows the
/// one before it, and they stop where nothing more can be taken, or after the most steps there are.
pub open spec fn fills_match(
    m: spec_fn(Arith) -> Binary64,
    long_side: Seq<PriceLevel>,
    short_side: Seq<PriceLevel>,
    desired: Binary64,
    fills: Seq<Fill>,
) -> bool {
    &&& 0 < fills.len() <= 20
    &&& fills[0].wanted == desired
    &&& is_next_offer(m, long_side, 0, fills[0].long)
    &&& is_next_offer(m, short_side, 0, fills[0].short)
    &&& fills[0].long_left == worth(m, level_at(long_side, fills[0].long))
    &&& fills[0].short_left == worth(m, level_at(short_side, fills[0].short))
    &&& forall|i: int, j: int|
        0 <= i && j == i + 1 && j < fills.len() ==> fill_follows(
            m,
            long_side,
            short_side,
            #[trigger] fills[i],
            #[trigger] fills[j],
        )
    &&& fill_ends(m, long_side, short_side, fills.last()) || fills.len() == 20
}

/// The amounts of steps.
pub open spec fn amounts_of(fills: Seq<Fill>) -> Seq<Binary64> {
    fills.map_values(|fill: Fill| fill.amount())
}

/// What the steps buy or sell on the long market: each amount divided by the price of its level.
pub open spec fn long_quantities(
    m: spec_fn(Arith) -> Binary64,
    long_side: Seq<PriceLevel>,
    fills: Seq<Fill>,
) -> Seq<Binary64> {
    fills.map_values(
        |fill: Fill| m(Arith::Div(fill.amount(), level_at(long_side, fill.long).price)),
    )
}

/// What the steps buy or sell on the short market: each amount divided by the price of its level.
pub open spec fn short_quantities(
    m: spec_fn(Arith) -> Binary64,
    short_side: Seq<PriceLevel>,
    fills: Seq<Fill>,
) -> Seq<Binary64> {
    fills.map_values(
        |fill: Fill| m(Arith::Div(fill.amount(), level_at(short_side, fill.short).price)),
    )
}

/// Whether amounts, quantities and prices are those of steps: the notional is the sum of the amounts,
/// each quantity is the sum of the amounts divided by their levels' prices, and each limit price is
/// that of the last level that was used.
pub open spec fn makes_up(
    m: spec_fn(Arith) -> Binary64,
    long_side: Seq<PriceLevel>,
    short_side: Seq<PriceLevel>,
    fills: Seq<Fill>,
    notional_usd: Binary64,
    long_qty: Binary64,
    short_qty: Binary64,
    long_price: Binary64,
    short_price: Binary64,
) -> bool {
    &&& notional_usd == added_up(m, amounts_of(fills))
    &&& long_qty == added_up(m, long_quantities(m, long_side, fills))
    &&& short_qty == added_up(m, short_quantities(m, short_side, fills))
    &&& fills.len() > 0 ==> long_price == level_at(long_side, fills.last().long).price
    &&& fills.len() > 0 ==> short_price == level_at(short_side, fills.last().short).price
}

proof fn lemma_first_offer(m: spec_fn(Arith) -> Binary64, side: Seq<PriceLevel>, from: int) -> (k: int)
    requires
        0 <= from <= best_levels(side).len(),
    ensures
        ({
            let best = best_levels(side);
            let rest = usable(m, best.skip(from));
            if rest.len() == 0 {
                is_used_up(m, side, from)
            } else {
                &&& is_next_offer(m, side, from, k)
                &&& k < best.len()
                &&& rest[0] == level_at(side, k)
                &&& rest == usable(m, best.skip(k))
                &&& rest.drop_first() == usable(m, best.skip(k + 1))
                &&& notional_of(m, rest[0]) == worth(m, level_at(side, k))
            }
        }),
    decreases best_levels(side).len() - from,
{
    let best = best_levels(side);
    let tail = best.skip(from);
    if tail.len() == 0 {
        assert forall|j: int| from <= j implies !#[trigger] is_offer(m, side, j) by {}
        from
    } else {
        assert(tail[0] == best[from]);
        assert(best[from] == level_at(side, from));
        assert(tail.drop_first() =~= best.skip(from + 1));
        assert(is_offer(m, side, from) <==> notional_of(m, best[from]).positive());
        if notional_of(m, best[from]).positive() {
            let rest = usable(m, tail);
            assert(rest.drop_first() =~= usable(m, tail.drop_first()));
            from
        } else {
            let k = lemma_first_offer(m, side, from + 1);
            assert(usable(m, tail) == usable(m, best.skip(from + 1)));
            k
        }
    }
}

/// Whether a match in its course is before the step `fill`.
spec fn is_before(
    m: spec_fn(Arith) -> Binary64,
    long_side: Seq<PriceLevel>,
    short_side: Seq<PriceLevel>,
    s: MatchState,
    fill: Fill,
) -> bool {
    &&& s.progress.remaining == fill.wanted
    &&& s.progress.long_left == fill.long_left
    &&& s.progress.short_left == fill.short_left
    &&& 0 <= fill.long < best_levels(long_side).len()
    &&& 0 <= fill.short < best_levels(short_side).len()
    &&& s.longs.len() > 0
    &&& s.shorts.len() > 0
    &&& s.longs[0] == level_at(long_side, fill.long)
    &&& s.shorts[0] == level_at(short_side, fill.short)
    &&& s.longs.drop_first() == usable(m, best_levels(long_side).skip(fill.long + 1))
    &&& s.shorts.drop_first() == usable(m, best_levels(short_side).skip(fill.short + 1))
}

/// Whether the progress of a match is what steps have made up.
spec fn is_made_up(
    m: spec_fn(Arith) -> Binary64,
    long_side: Seq<PriceLevel>,
    short_side: Seq<PriceLevel>,
    s: MatchState,
    fills: Seq<Fill>,
) -> bool {
    let p = s.progress;
    &&& p.matched == added_up(m, amounts_of(fills))
    &&& p.long_qty == added_up(m, long_quantities(m, long_side, fills))
    &&& p.short_qty == added_up(m, short_quantities(m, short_side, fills))
    &&& fills.len() > 0 ==> p.long_price == Some(
        level_at(long_side, fills.last().long).price,
    )
    &&& fills.len() > 0 ==> p.short_price == Some(
        level_at(short_side, fills.last().short).price,
    )
}

proof fn lemma_made_up_step(
    m: spec_fn(Arith) -> Binary64,
    long_side: Seq<PriceLevel>,
    short_side: Seq<PriceLevel>,
    s: MatchState,
    fills: Seq<Fill>,
    fill: Fill,
)
    requires
        is_made_up(m, long_side, short_side, s, fills),
        is_before(m, long_side, short_side, s, fill),
    ensures
        is_made_up(m, long_side, short_side, s.stepped(m), fills.push(fill)),
{
    let all = fills.push(fill);
    assert(amounts_of(all).drop_last() =~= amounts_of(fills));
    assert(long_quantities(m, long_side, all).drop_last() =~= long_quantities(m, long_side, fills));
    assert(short_quantities(m, short_side, all).drop_last() =~= short_quantities(
        m,
        short_side,
        fills,
    ));
    assert(all.last() == fill);
    assert(amounts_of(all).last() == fill.amount());
    assert(long_quantities(m, long_side, all).last() == m(
        Arith::Div(fill.amount(), level_at(long_side, fill.long).price),
    ));
    assert(short_quantities(m, short_side, all).last() == m(
        Arith::Div(fill.amount(), level_at(short_side, fill.short).price),
    ));
}

/// Takes the run of a match apart into steps: those before are `fills`, and `fill` is the next.
proof fn lemma_run_fills(
    m: spec_fn(Arith) -> Binary64,
    long_side: Seq<PriceLevel>,
    short_side: Seq<PriceLevel>,
    s: MatchState,
    steps: nat,
    desired: Binary64,
    fills: Seq<Fill>,
    fill: Fill,
) -> (all: Seq<Fill>)
    requires
        steps > 0,
        steps + fills.len() == 20,
        is_before(m, long_side, short_side, s, fill),
        is_made_up(m, long_side, short_side, s, fills),
        zero().lt(fill.wanted),
        ({
            let now = fills.push(fill);
            &&& now[0].wanted == desired
            &&& is_next_offer(m, long_side, 0, now[0].long)
            &&& is_next_offer(m, short_side, 0, now[0].short)
            &&& now[0].long_left == worth(m, level_at(long_side, now[0].long))
            &&& now[0].short_left == worth(m, level_at(short_side, now[0].short))
            &&& forall|i: int, j: int|
                0 <= i && j == i + 1 && j < now.len() ==> fill_follows(
                    m,
                    long_side,
                    short_side,
                    #[trigger] now[i],
                    #[trigger] now[j],
                )
        }),
    ensures
        fills_match(m, long_side, short_side, desired, all),
        is_made_up(m, long_side, short_side, s.run(m, steps), all),
    decreases steps,
{
    let now = fills.push(fill);
    let t = s.stepped(m);
    let take = fill.amount();
    lemma_made_up_step(m, long_side, short_side, s, fills, fill);
    let next_long = lemma_first_offer(m, long_side, fill.long + 1);
    let next_short = lemma_first_offer(m, short_side, fill.short + 1);
    assert(s.run(m, steps) == t.run(m, (steps - 1) as nat));
    if steps == 1 || t.over() {
        assert(t.run(m, (steps - 1) as nat) == t);
        assert(now.last() == fill);
        if t.over() {
            assert(fill_ends(m, long_side, short_side, fill));
        }
        now
    } else {
        let next = Fill {
            long: if m(Arith::Sub(fill.long_left, take)).le(zero()) {
                next_long
            } else {
                fill.long
            },
            short: if m(Arith::Sub(fill.short_left, take)).le(zero()) {
                next_short
            } else {
                fill.short
            },
            wanted: t.progress.remaining,
            long_left: t.progress.long_left,
            short_left: t.progress.short_left,
        };
        assert(fill_follows(m, long_side, short_side, fill, next));
        let then = now.push(next);
        assert forall|i: int, j: int|
            0 <= i && j == i + 1 && j < then.len() implies fill_follows(
            m,
            long_side,
            short_side,
            #[trigger] then[i],
            #[trigger] then[j],
        ) by {
            if j < now.len() {
                assert(then[i] == now[i] && then[j] == now[j]);
            } else {
                assert(then[i] == fill && then[j] == next);
            }
        }
        assert(then[0] == now[0]);
        lemma_run_fills(
            m,
            long_side,
            short_side,
            t,
            (steps - 1) as nat,
            desired,
            now,
            next,
        )
    }
}

/// What is matched of a notional between two sides. There is a match only for a finite notional above
/// zero and where both sides offer something. It is made up of steps from the best offers on: its
/// notional is the sum of what is taken, its quantities are the sums of what is taken at each level
/// divided by that level's price, and its prices are those of the last levels that are used.
pub proof fn matches_are_made_of_fills(
    m: spec_fn(Arith) -> Binary64,
    long_side: Seq<PriceLevel>,
    short_side: Seq<PriceLevel>,
    desired: Binary64,
) -> (fills: Seq<Fill>)
    ensures
        !desired.finite() || !zero().lt(desired) || is_used_up(m, long_side, 0) || is_used_up(
            m,
            short_side,
            0,
        ) ==> depth_match(m, long_side, short_side, desired) is None,
        desired.finite() && zero().lt(desired) && !is_used_up(m, long_side, 0) && !is_used_up(
            m,
            short_side,
            0,
        ) ==> {
            let notional_usd = added_up(m, amounts_of(fills));
            let long_qty = added_up(m, long_quantities(m, long_side, fills));
            let short_qty = added_up(m, short_quantities(m, short_side, fills));
            &&& fills_match(m, long_side, short_side, desired, fills)
            &&& depth_match(m, long_side, short_side, desired) is Some <==> zero().lt(notional_usd)
                && zero().lt(long_qty) && zero().lt(short_qty)
            &&& depth_match(m, long_side, short_side, desired) matches Some(matched)
                ==> makes_up(
                m,
                long_side,
                short_side,
                fills,
                matched.notional_usd,
                matched.long_qty,
                matched.short_qty,
                matched.long_price,
                matched.short_price,
            )
        },
{
    let longs = usable(m, best_levels(long_side));
    let shorts = usable(m, best_levels(short_side));
    assert(best_levels(long_side).skip(0) =~= best_levels(long_side));
    assert(best_levels(short_side).skip(0) =~= best_levels(short_side));
    let k = lemma_first_offer(m, long_side, 0);
    let l = lemma_first_offer(m, short_side, 0);
    assert(longs.len() > 0 ==> is_offer(m, long_side, k));
    assert(shorts.len() > 0 ==> is_offer(m, short_side, l));
    if desired.finite() && zero().lt(desired) && longs.len() > 0 && shorts.len() > 0 {
        let start = MatchState::start(m, longs, shorts, desired);
        let first = Fill {
            long: k,
            short: l,
            wanted: desired,
            long_left: start.progress.long_left,
            short_left: start.progress.short_left,
        };
        let none = Seq::<Fill>::empty();
        assert(amounts_of(none) =~= Seq::empty());
        assert(long_quantities(m, long_side, none) =~= Seq::empty());
        assert(short_quantities(m, short_side, none) =~= Seq::empty());
        assert(is_made_up(m, long_side, short_side, start, none));
        assert(is_before(m, long_side, short_side, start, first));
        lemma_run_fills(m, long_side, short_side, start, MATCH_STEPS as nat, desired, none, first)
    } else {
        Seq::empty()
    }
}

/// The notional that a spread calls for is that of the leading levels whose spreads it reaches, added up
/// one after the other from nothing: `sums` are the sums on the way.
pub proof fn targets_add_up(
    m: spec_fn(Arith) -> Binary64,
    levels: Seq<SpreadLevel>,
    spread_pct: Binary64,
) -> (sums: Seq<Binary64>)
    ensures
        0 < sums.len() <= levels.len() + 1,
        sums[0].eq_num(zero()),
        sums[0].bits == 0x8000_0000_0000_0000,
        forall|i: int, j: int|
            0 <= i && j == i + 1 && j < sums.len() ==> #[trigger] sums[j] == m(
                Arith::Add(#[trigger] sums[i], levels[i].notional_usd),
            ) && levels[i].spread_pct.le(spread_pct),
        sums.len() <= levels.len() ==> !levels[sums.len() - 1].spread_pct.le(spread_pct),
        target_of(m, levels, spread_pct) == sums.last(),
{
    let n = reached(levels, spread_pct);
    lemma_reached(levels, spread_pct);
    let sums = Seq::new(n + 1, |i: int| notional_sum(m, levels.take(i)));
    assert(levels.take(0) =~= Seq::empty());
    assert forall|i: int, j: int| 0 <= i && j == i + 1 && j < sums.len() implies #[trigger] sums[j]
        == m(Arith::Add(#[trigger] sums[i], levels[i].notional_usd)) && levels[i].spread_pct.le(
        spread_pct,
    ) by {
        assert(levels.take(j).drop_last() =~= levels.take(i));
        assert(levels.take(j).last() == levels[i]);
    }
    sums
}

/// The gain in percent of leaving at one price and entering at another.
pub open spec fn gain(m: spec_fn(Arith) -> Binary64, leave: Binary64, enter: Binary64) -> Binary64 {
    m(Arith::Mul(m(Arith::Div(m(Arith::Sub(leave, enter)), enter)), hundred()))
}

/// Whether the books make opening possible at `spread_pct`: by buying at the best ask of the long market
/// and selling at the best bid of the short one.
pub open spec fn opens_at(
    m: spec_fn(Arith) -> Binary64,
    long: BookModel,
    short: BookModel,
    spread_pct: Binary64,
) -> bool {
    &&& long.asks.len() > 0
    &&& short.bids.len() > 0
    &&& !long.asks[long.asks.len() - 1].price.le(zero())
    &&& spread_pct == gain(
        m,
        short.bids[short.bids.len() - 1].price,
        long.asks[long.asks.len() - 1].price,
    )
}

/// Whether the books make closing possible at `spread_pct`: by selling at the best bid of the long
/// market and buying at the best ask of the short one.
pub open spec fn closes_at(
    m: spec_fn(Arith) -> Binary64,
    long: BookModel,
    short: BookModel,
    spread_pct: Binary64,
) -> bool {
    &&& long.bids.len() > 0
    &&& short.asks.len() > 0
    &&& !short.asks[short.asks.len() - 1].price.le(zero())
    &&& spread_pct == gain(
        m,
        long.bids[long.bids.len() - 1].price,
        short.asks[short.asks.len() - 1].price,
    )
}

/// Whether a strategy wants to open `desired` more at a spread: what it holds and waits for is below the
/// notional that the spread calls for and below its limit, by at least that much.
pub open spec fn wants_to_open(
    m: spec_fn(Arith) -> Binary64,
    state: StrategyStateModel,
    strategy: StrategyConfigModel,
    spread_pct: Binary64,
    desired: Binary64,
) -> bool {
    let limit = strategy.max_total_notional;
    let held = m(Arith::Add(state.current_pair_notional, state.pending_open_notional));
    let target = target_of(m, strategy.open_levels, spread_pct).min_num(limit);
    let missing = m(Arith::Sub(target, held));
    let room = m(Arith::Sub(limit, held));
    &&& zero().lt(missing)
    &&& zero().lt(room)
    &&& desired == missing.min_num(room)
}

/// Whether a strategy wants to close `desired` at a spread: the notional that the spread calls for, but
/// not more than it holds and does not close already.
pub open spec fn wants_to_close(
    m: spec_fn(Arith) -> Binary64,
    state: StrategyStateModel,
    strategy: StrategyConfigModel,
    spread_pct: Binary64,
    desired: Binary64,
) -> bool {
    let open = m(Arith::Sub(state.current_pair_notional, state.pending_close_notional));
    &&& zero().lt(open)
    &&& desired == target_of(m, strategy.close_levels, spread_pct).min_num(open)
    &&& !desired.le(zero())
}

/// Whether a plan is one to open `desired`: it is matched between the asks of the long market and the
/// bids of the short one.
pub open spec fn is_open_plan(
    m: spec_fn(Arith) -> Binary64,
    long: BookModel,
    short: BookModel,
    desired: Binary64,
    plan: StrategyOrderPlan,
    fills: Seq<Fill>,
) -> bool {
    &&& fills_match(m, long.asks, short.bids, desired, fills)
    &&& makes_up(
        m,
        long.asks,
        short.bids,
        fills,
        plan.notional_usd,
        plan.long_qty,
        plan.short_qty,
        plan.long_limit_price,
        plan.short_limit_price,
    )
}

/// Whether a plan is one to close `desired`: it is matched between the bids of the long market and the
/// asks of the short one.
pub open spec fn is_close_plan(
    m: spec_fn(Arith) -> Binary64,
    long: BookModel,
    short: BookModel,
    desired: Binary64,
    plan: StrategyOrderPlan,
    fills: Seq<Fill>,
) -> bool {
    &&& fills_match(m, long.bids, short.asks, desired, fills)
    &&& makes_up(
        m,
        long.bids,
        short.asks,
        fills,
        plan.notional_usd,
        plan.long_qty,
        plan.short_qty,
        plan.long_limit_price,
        plan.short_limit_price,
    )
}

/// What is planned. Nothing is where two more orders would be too many. Closing comes first: it is
/// planned exactly where the books allow it, the strategy wants it and something is matched. Otherwise
/// opening is, under the same conditions. Either way the plan names the spread, and its notional,
/// quantities and prices are those of the steps in which the books are matched.
pub proof fn plans_are_made_of_fills(
    m: spec_fn(Arith) -> Binary64,
    state: StrategyStateModel,
    strategy: StrategyConfigModel,
    long: BookModel,
    short: BookModel,
    desired: Binary64,
    spread_pct: Binary64,
) -> (fills: Seq<Fill>)
    ensures
        state.active_order_count + 2 > strategy.max_open_orders ==> state.planned(
            m,
            strategy,
            long,
            short,
        ) is None,
        state.planned(m, strategy, long, short) matches Some(plan) ==> {
            &&& zero().lt(plan.notional_usd)
            &&& zero().lt(plan.long_qty)
            &&& zero().lt(plan.short_qty)
            &&& match plan.action {
                StrategyAction::Open => {
                    &&& opens_at(m, long, short, plan.spread_pct)
                    &&& wants_to_open(m, state, strategy, plan.spread_pct, desired)
                        ==> is_open_plan(m, long, short, desired, plan, fills)
                    &&& exists|d: Binary64| #[trigger]
                        wants_to_open(m, state, strategy, plan.spread_pct, d)
                },
                StrategyAction::Close => {
                    &&& closes_at(m, long, short, plan.spread_pct)
                    &&& wants_to_close(m, state, strategy, plan.spread_pct, desired)
                        ==> is_close_plan(m, long, short, desired, plan, fills)
                    &&& exists|d: Binary64| #[trigger]
                        wants_to_close(m, state, strategy, plan.spread_pct, d)
                },
            }
        },
        state.active_order_count + 2 <= strategy.max_open_orders && closes_at(
            m,
            long,
            short,
            spread_pct,
        ) && wants_to_close(m, state, strategy, spread_pct, desired) && depth_match(
            m,
            long.bids,
            short.asks,
            desired,
        ) is Some ==> state.planned(m, strategy, long, short) is Some && state.planned(
            m,
            strategy,
            long,
            short,
        )->0.action == StrategyAction::Close,
        state.active_order_count + 2 <= strategy.max_open_orders && opens_at(
            m,
            long,
            short,
            spread_pct,
        ) && wants_to_open(m, state, strategy, spread_pct, desired) && depth_match(
            m,
            long.asks,
            short.bids,
            desired,
        ) is Some ==> state.planned(m, strategy, long, short) is Some,
{
    match state.planned(m, strategy, long, short) {
        Some(plan) => {
            match plan.action {
                StrategyAction::Open => {
                    let limit = strategy.max_total_notional;
                    let held = m(
                        Arith::Add(state.current_pair_notional, state.pending_open_notional),
                    );
                    let target = target_of(m, strategy.open_levels, plan.spread_pct).min_num(
                        limit,
                    );
                    let d = m(Arith::Sub(target, held)).min_num(m(Arith::Sub(limit, held)));
                    assert(wants_to_open(m, state, strategy, plan.spread_pct, d));
                    matches_are_made_of_fills(m, long.asks, short.bids, d)
                },
                StrategyAction::Close => {
                    let open = m(
                        Arith::Sub(state.current_pair_notional, state.pending_close_notional),
                    );
                    let d = target_of(m, strategy.close_levels, plan.spread_pct).min_num(open);
                    assert(wants_to_close(m, state, strategy, plan.spread_pct, d));
                    matches_are_made_of_fills(m, long.bids, short.asks, d)
                },
            }
        },
        None => Seq::empty(),
    }
}

/// Where only one level of either leg is used, each leg of a plan is its notional at its limit price:
/// the quantity is the notional divided by the price, for closing as for opening.
pub proof fn single_levels_are_divided(
    m: spec_fn(Arith) -> Binary64,
    long_side: Seq<PriceLevel>,
    short_side: Seq<PriceLevel>,
    fills: Seq<Fill>,
    plan: StrategyOrderPlan,
)
    requires
        fills.len() == 1,
        makes_up(
            m,
            long_side,
            short_side,
            fills,
            plan.notional_usd,
            plan.long_qty,
            plan.short_qty,
            plan.long_limit_price,
            plan.short_limit_price,
        ),
    ensures
        plan.notional_usd == m(Arith::Add(zero(), fills[0].amount())),
        plan.long_qty == m(
            Arith::Add(zero(), m(Arith::Div(fills[0].amount(), plan.long_limit_price))),
        ),
        plan.short_qty == m(
            Arith::Add(zero(), m(Arith::Div(fills[0].amount(), plan.short_limit_price))),
        ),
{
    reveal_with_fuel(added_up, 2);
    assert(amounts_of(fills).drop_last() =~= Seq::empty());
    assert(long_quantities(m, long_side, fills).drop_last() =~= Seq::empty());
    assert(short_quantities(m, short_side, fills).drop_last() =~= Seq::empty());
}

/// What a look at two books leaves behind: the spreads that were looked at, and nothing else. Without
/// room for two orders none is; the one for opening is only if closing is not planned. A spread that
/// the books do not give leaves the one that was last seen.
pub proof fn looks_leave_spreads(
    m: spec_fn(Arith) -> Binary64,
    state: StrategyStateModel,
    strategy: StrategyConfigModel,
    long: BookModel,
    short: BookModel,
    opening: Binary64,
    closing: Binary64,
)
    ensures
        ({
            let seen = state.seen(m, strategy, long, short);
            let room = state.active_order_count + 2 <= strategy.max_open_orders;
            let closes = state.planned(m, strategy, long, short) matches Some(plan)
                && plan.action == StrategyAction::Close;
            &&& seen.strategy_id == state.strategy_id
            &&& seen.current_pair_notional == state.current_pair_notional
            &&& seen.pending_open_notional == state.pending_open_notional
            &&& seen.pending_close_notional == state.pending_close_notional
            &&& seen.active_order_count == state.active_order_count
            &&& seen.next_order_seq == state.next_order_seq
            &&& room && closes_at(m, long, short, closing) ==> seen.last_close_spread_pct == Some(
                closing,
            )
            &&& !room || (forall|s: Binary64| !#[trigger] closes_at(m, long, short, s))
                ==> seen.last_close_spread_pct == state.last_close_spread_pct
            &&& room && !closes && opens_at(m, long, short, opening)
                ==> seen.last_open_spread_pct == Some(opening)
            &&& !room || closes || (forall|s: Binary64| !#[trigger] opens_at(m, long, short, s))
                ==> seen.last_open_spread_pct == state.last_open_spread_pct
        }),
{
    if long.bids.len() > 0 && short.asks.len() > 0 {
        let s = gain(m, long.bids.last().price, short.asks.last().price);
        assert(closes_at(m, long, short, s) <==> !short.asks.last().price.le(zero()));
    }
    if long.asks.len() > 0 && short.bids.len() > 0 {
        let s = gain(m, short.bids.last().price, long.asks.last().price);
        assert(opens_at(m, long, short, s) <==> !long.asks.last().price.le(zero()));
    }
}

/// What committing to a plan changes: two orders more, with the next two numbers, and the notional is
/// added to what waits to be opened, or to be closed.
pub proof fn commitments_are_counted(
    m: spec_fn(Arith) -> Binary64,
    state: StrategyStateModel,
    plan: StrategyOrderPlan,
)
    requires
        state.active_order_count + 2 <= u32::MAX,
        state.next_order_seq + 2 <= u64::MAX,
    ensures
        ({
            let after = state.committed(m, plan);
            &&& after.strategy_id == state.strategy_id
            &&& after.current_pair_notional == state.current_pair_notional
            &&& after.last_open_spread_pct == state.last_open_spread_pct
            &&& after.last_close_spread_pct == state.last_close_spread_pct
            &&& after.active_order_count == state.active_order_count + 2
            &&& after.next_order_seq == state.next_order_seq + 2
            &&& plan.action == StrategyAction::Open ==> after.pending_open_notional == m(
                Arith::Add(state.pending_open_notional, plan.notional_usd),
            ) && after.pending_close_notional == state.pending_close_notional
            &&& plan.action == StrategyAction::Close ==> after.pending_close_notional == m(
                Arith::Add(state.pending_close_notional, plan.notional_usd),
            ) && after.pending_open_notional == state.pending_open_notional
        }),
{
}

/// The orders of a plan: one on each leg's market with the leg's account, for the leg's quantity at the
/// leg's limit price. To open, the long leg is bought and the short leg sold; to close, the other way
/// round. Their ids end with the next two numbers.
pub proof fn orders_carry_out_plans(
    state: StrategyStateModel,
    shard_id: Seq<char>,
    strategy: StrategyConfigModel,
    plan: StrategyOrderPlan,
)
    ensures
        ({
            let orders = state.orders_of(shard_id, strategy, plan);
            let opens = plan.action == StrategyAction::Open;
            &&& orders.len() == 2
            &&& is_order(
                orders[0],
                shard_id,
                strategy.id,
                strategy.long_leg,
                opens,
                plan.long_qty,
                plan.long_limit_price,
                shard_id + "-"@ + strategy.id + "-long-"@ + numeral(
                    (state.next_order_seq + 1) as nat,
                ),
            )
            &&& is_order(
                orders[1],
                shard_id,
                strategy.id,
                strategy.short_leg,
                !opens,
                plan.short_qty,
                plan.short_limit_price,
                shard_id + "-"@ + strategy.id + "-short-"@ + numeral(
                    (state.next_order_seq + 2) as nat,
                ),
            )
        }),
{
    reveal_strlit("-");
    reveal_strlit("long");
    reveal_strlit("short");
    reveal_strlit("-long-");
    reveal_strlit("-short-");
    let orders = state.orders_of(shard_id, strategy, plan);
    assert("-"@ + "long"@ + "-"@ =~= "-long-"@);
    assert("-"@ + "short"@ + "-"@ =~= "-short-"@);
    let a = numeral((state.next_order_seq + 1) as nat);
    let b = numeral((state.next_order_seq + 2) as nat);
    assert(shard_id + "-"@ + strategy.id + "-"@ + "long"@ + "-"@ + a =~= shard_id + "-"@
        + strategy.id + "-long-"@ + a);
    assert(shard_id + "-"@ + strategy.id + "-"@ + "short"@ + "-"@ + b =~= shard_id + "-"@
        + strategy.id + "-short-"@ + b);
}

/// Whether a command places an order of a leg.
pub open spec fn is_order(
    command: TradeCommandModel,
    shard: Seq<char>,
    strategy: Seq<char>,
    leg: StrategyLegModel,
    buys: bool,
    quantity: Binary64,
    price: Binary64,
    order_id: Seq<char>,
) -> bool {
    match command {
        TradeCommandModel::PlaceOrder {
            shard_id,
            strategy_id,
            account_id,
            exchange,
            symbol,
            side,
            qty,
            limit_price,
            client_order_id,
        } => {
            &&& shard_id == shard
            &&& strategy_id == strategy
            &&& account_id == leg.account_id
            &&& exchange == leg.exchange
            &&& symbol == leg.symbol
            &&& side is Buy <==> buys
            &&& qty == quantity
            &&& limit_price == Some(price)
            &&& client_order_id == order_id
        },
        _ => false,
    }
}

} // verus!
