//! What is matched between two books, and the limits that plans keep.
//!
//! Notionals are rounded numbers, and many small amounts can add up to more than was wanted. What is
//! said here is said of matches whose sums and differences are exact, as they are where all amounts
//! are whole numbers of one unit.

use vstd::arithmetic::power2::{lemma2_to64, lemma_pow2_pos, lemma_pow2_unfold, pow2};
use vstd::prelude::*;

use crate::config::model::StrategyConfigModel;
use crate::engine::book::{BookModel, PriceLevel};
use crate::engine::strategy::{
    best_levels, depth_match, notional_of, target_of, usable, MatchState,
    StrategyAction, StrategyStateModel, MATCH_STEPS,
};
use crate::engine::strategy_laws::lemma_usable;
use crate::num::{
    rounding_stays_between, rounds_sums, values_are_ordered, zero, Arith, Binary64,
    FRACTIONS,
};

verus! {

/// Whether the sum of two numbers is exact.
pub open spec fn adds_exactly(m: spec_fn(Arith) -> Binary64, a: Binary64, b: Binary64) -> bool {
    &&& a.finite()
    &&& b.finite()
    &&& m(Arith::Add(a, b)).finite()
    &&& m(Arith::Add(a, b)).value() == a.value() + b.value()
}

/// Whether the difference of two numbers is exact.
pub open spec fn takes_exactly(m: spec_fn(Arith) -> Binary64, a: Binary64, b: Binary64) -> bool {
    &&& a.finite()
    &&& b.finite()
    &&& m(Arith::Sub(a, b)).finite()
    &&& m(Arith::Sub(a, b)).value() == a.value() - b.value()
}

/// What a step of matching takes.
pub open spec fn next_take(s: MatchState) -> Binary64 {
    s.progress.remaining.min_num(s.progress.long_left).min_num(s.progress.short_left)
}

/// Whether the amounts of a step of matching are exact.
pub open spec fn step_is_exact(m: spec_fn(Arith) -> Binary64, s: MatchState) -> bool {
    &&& takes_exactly(m, s.progress.remaining, next_take(s))
    &&& takes_exactly(m, s.progress.long_left, next_take(s))
    &&& takes_exactly(m, s.progress.short_left, next_take(s))
    &&& adds_exactly(m, s.progress.matched, next_take(s))
}

/// Whether the amounts of every step of matching are exact.
pub open spec fn run_is_exact(m: spec_fn(Arith) -> Binary64, s: MatchState, steps: nat) -> bool
    decreases steps,
{
    steps == 0 || s.over() || (step_is_exact(m, s) && run_is_exact(
        m,
        s.stepped(m),
        (steps - 1) as nat,
    ))
}

/// Whether the notionals of levels are of finite magnitude.
pub open spec fn notionals_are_finite(
    m: spec_fn(Arith) -> Binary64,
    levels: Seq<PriceLevel>,
) -> bool {
    forall|i: int| 0 <= i < levels.len() ==> notional_of(m, #[trigger] levels[i]).finite()
}

/// Whether matching `desired` between two sides of two books is exact in all its amounts.
pub open spec fn matching_is_exact(
    m: spec_fn(Arith) -> Binary64,
    long_side: Seq<PriceLevel>,
    short_side: Seq<PriceLevel>,
    desired: Binary64,
) -> bool {
    let longs = usable(m, best_levels(long_side));
    let shorts = usable(m, best_levels(short_side));
    &&& notionals_are_finite(m, longs)
    &&& notionals_are_finite(m, shorts)
    &&& run_is_exact(m, MatchState::start(m, longs, shorts, desired), MATCH_STEPS as nat)
}

/// What levels offer together.
pub open spec fn offered(m: spec_fn(Arith) -> Binary64, levels: Seq<PriceLevel>) -> int
    decreases levels.len(),
{
    if levels.len() == 0 {
        0
    } else {
        notional_of(m, levels[0]).value() + offered(m, levels.drop_first())
    }
}

/// What the levels of a side that are matched offer together.
pub open spec fn side_offers(m: spec_fn(Arith) -> Binary64, side: Seq<PriceLevel>) -> int {
    offered(m, usable(m, best_levels(side)))
}

/// The smallest of three integers.
pub open spec fn smallest(a: int, b: int, c: int) -> int {
    if a <= b && a <= c {
        a
    } else if b <= c {
        b
    } else {
        c
    }
}

/// Whether levels offer something, and a finite amount of it.
spec fn levels_offer(m: spec_fn(Arith) -> Binary64, levels: Seq<PriceLevel>) -> bool {
    forall|i: int|
        0 <= i < levels.len() ==> notional_of(m, #[trigger] levels[i]).finite() && notional_of(
            m,
            levels[i],
        ).positive()
}

/// Whether `matched`, what is left of the first level and the other levels make up `all`.
spec fn side_balances(
    m: spec_fn(Arith) -> Binary64,
    levels: Seq<PriceLevel>,
    left: Binary64,
    matched: Binary64,
    all: int,
) -> bool {
    &&& levels_offer(m, levels)
    &&& if levels.len() == 0 {
        matched.value() == all
    } else {
        &&& left.finite()
        &&& left.value() > 0
        &&& matched.value() + left.value() + offered(m, levels.drop_first()) == all
    }
}

/// Whether what is matched and what is left make up what there was at the start.
spec fn balances(
    m: spec_fn(Arith) -> Binary64,
    s: MatchState,
    desired: int,
    longs: int,
    shorts: int,
) -> bool {
    let p = s.progress;
    &&& p.remaining.finite()
    &&& p.remaining.value() >= 0
    &&& p.matched.finite()
    &&& p.matched.value() >= 0
    &&& p.matched.value() + p.remaining.value() == desired
    &&& side_balances(m, s.longs, p.long_left, p.matched, longs)
    &&& side_balances(m, s.shorts, p.short_left, p.matched, shorts)
}

proof fn lemma_offered(m: spec_fn(Arith) -> Binary64, levels: Seq<PriceLevel>)
    requires
        levels_offer(m, levels),
    ensures
        offered(m, levels) >= 0,
        levels.len() > 0 ==> levels_offer(m, levels.drop_first()),
    decreases levels.len(),
{
    if levels.len() > 0 {
        let rest = levels.drop_first();
        assert forall|i: int| 0 <= i < rest.len() implies notional_of(
            m,
            #[trigger] rest[i],
        ).finite() && notional_of(m, rest[i]).positive() by {
            assert(rest[i] == levels[i + 1]);
        }
        lemma_offered(m, rest);
        assert(notional_of(m, levels[0]).positive());
        values_are_ordered(notional_of(m, levels[0]), zero());
    }
}

proof fn lemma_take(s: MatchState)
    requires
        s.progress.remaining.finite(),
        s.progress.long_left.finite(),
        s.progress.short_left.finite(),
    ensures
        next_take(s).finite(),
        next_take(s).value() == smallest(
            s.progress.remaining.value(),
            s.progress.long_left.value(),
            s.progress.short_left.value(),
        ),
{
    let p = s.progress;
    values_are_ordered(p.long_left, p.remaining);
    values_are_ordered(p.short_left, p.remaining.min_num(p.long_left));
}

proof fn lemma_side_step(
    m: spec_fn(Arith) -> Binary64,
    levels: Seq<PriceLevel>,
    left: Binary64,
    take: Binary64,
    matched: Binary64,
    all: int,
)
    requires
        levels.len() > 0,
        side_balances(m, levels, left, matched, all),
        takes_exactly(m, left, take),
        adds_exactly(m, matched, take),
        take.value() <= left.value(),
    ensures
        ({
            let rest = m(Arith::Sub(left, take));
            let used_up = rest.le(zero());
            let next = if used_up {
                levels.drop_first()
            } else {
                levels
            };
            let next_left = if used_up && next.len() > 0 {
                notional_of(m, next[0])
            } else {
                rest
            };
            &&& used_up <==> take.value() == left.value()
            &&& side_balances(m, next, next_left, m(Arith::Add(matched, take)), all)
        }),
{
    let rest = m(Arith::Sub(left, take));
    values_are_ordered(rest, zero());
    lemma_offered(m, levels);
    let next = levels.drop_first();
    if rest.le(zero()) && next.len() > 0 {
        assert(notional_of(m, next[0]).finite() && notional_of(m, next[0]).positive());
        values_are_ordered(notional_of(m, next[0]), zero());
    }
}

proof fn lemma_step_balances(
    m: spec_fn(Arith) -> Binary64,
    s: MatchState,
    desired: int,
    longs: int,
    shorts: int,
)
    requires
        balances(m, s, desired, longs, shorts),
        !s.over(),
        step_is_exact(m, s),
    ensures
        balances(m, s.stepped(m), desired, longs, shorts),
        s.stepped(m).over() || s.stepped(m).longs.len() + s.stepped(m).shorts.len() < s.longs.len()
            + s.shorts.len(),
{
    let p = s.progress;
    let take = next_take(s);
    lemma_take(s);
    values_are_ordered(p.remaining, zero());
    lemma_side_step(m, s.longs, p.long_left, take, p.matched, longs);
    lemma_side_step(m, s.shorts, p.short_left, take, p.matched, shorts);
    values_are_ordered(m(Arith::Sub(p.remaining, take)), zero());
}

proof fn lemma_run_balances(
    m: spec_fn(Arith) -> Binary64,
    s: MatchState,
    steps: nat,
    desired: int,
    longs: int,
    shorts: int,
)
    requires
        balances(m, s, desired, longs, shorts),
        run_is_exact(m, s, steps),
        s.over() || s.longs.len() + s.shorts.len() <= steps,
    ensures
        balances(m, s.run(m, steps), desired, longs, shorts),
        s.run(m, steps).over(),
    decreases steps,
{
    if !s.over() {
        lemma_step_balances(m, s, desired, longs, shorts);
        lemma_run_balances(m, s.stepped(m), (steps - 1) as nat, desired, longs, shorts);
    }
}

proof fn lemma_start_balances(
    m: spec_fn(Arith) -> Binary64,
    longs: Seq<PriceLevel>,
    shorts: Seq<PriceLevel>,
    desired: Binary64,
)
    requires
        desired.finite(),
        desired.positive(),
        longs.len() > 0,
        shorts.len() > 0,
        levels_offer(m, longs),
        levels_offer(m, shorts),
    ensures
        balances(
            m,
            MatchState::start(m, longs, shorts, desired),
            desired.value(),
            offered(m, longs),
            offered(m, shorts),
        ),
{
    values_are_ordered(desired, zero());
    assert(notional_of(m, longs[0]).positive() && notional_of(m, shorts[0]).positive());
    values_are_ordered(notional_of(m, longs[0]), zero());
    values_are_ordered(notional_of(m, shorts[0]), zero());
}

/// What is matched is exactly the smallest of three: what is desired and what the first levels of
/// either side offer. So it is never more than any of them.
pub proof fn matches_take_the_smallest(
    m: spec_fn(Arith) -> Binary64,
    long_side: Seq<PriceLevel>,
    short_side: Seq<PriceLevel>,
    desired: Binary64,
)
    requires
        matching_is_exact(m, long_side, short_side, desired),
        depth_match(m, long_side, short_side, desired) is Some,
    ensures
        ({
            let matched = depth_match(m, long_side, short_side, desired)->0.notional_usd;
            &&& matched.finite()
            &&& matched.value() == smallest(
                desired.value(),
                side_offers(m, long_side),
                side_offers(m, short_side),
            )
            &&& matched.le(desired)
            &&& matched.value() <= side_offers(m, long_side)
            &&& matched.value() <= side_offers(m, short_side)
        }),
{
    let longs = usable(m, best_levels(long_side));
    let shorts = usable(m, best_levels(short_side));
    lemma_usable(m, best_levels(long_side));
    lemma_usable(m, best_levels(short_side));
    values_are_ordered(desired, zero());
    lemma_start_balances(m, longs, shorts, desired);
    let start = MatchState::start(m, longs, shorts, desired);
    let a = offered(m, longs);
    let b = offered(m, shorts);
    lemma_run_balances(m, start, MATCH_STEPS as nat, desired.value(), a, b);
    let s = start.run(m, MATCH_STEPS as nat);
    lemma_offered(m, s.longs);
    lemma_offered(m, s.shorts);
    if s.longs.len() > 0 {
        lemma_offered(m, s.longs.drop_first());
    }
    if s.shorts.len() > 0 {
        lemma_offered(m, s.shorts.drop_first());
    }
    values_are_ordered(s.progress.remaining, zero());
    values_are_ordered(s.progress.matched, desired);
}

/// Whether the amounts with which opening is planned are exact.
pub open spec fn opening_is_exact(
    m: spec_fn(Arith) -> Binary64,
    state: StrategyStateModel,
    strategy: StrategyConfigModel,
    long: BookModel,
    short: BookModel,
) -> bool {
    let limit = strategy.max_total_notional;
    let held = m(Arith::Add(state.current_pair_notional, state.pending_open_notional));
    &&& StrategyStateModel::open_spread(m, long, short) matches Some(spread_pct)
    &&& {
        let target = target_of(m, strategy.open_levels, spread_pct).min_num(limit);
        let desired = m(Arith::Sub(target, held)).min_num(m(Arith::Sub(limit, held)));
        &&& adds_exactly(m, state.current_pair_notional, state.pending_open_notional)
        &&& takes_exactly(m, target, held)
        &&& takes_exactly(m, limit, held)
        &&& matching_is_exact(m, long.asks, short.bids, desired)
    }
}

/// Whether the amounts with which closing is planned are exact.
pub open spec fn closing_is_exact(
    m: spec_fn(Arith) -> Binary64,
    state: StrategyStateModel,
    strategy: StrategyConfigModel,
    long: BookModel,
    short: BookModel,
) -> bool {
    let available = m(Arith::Sub(state.current_pair_notional, state.pending_close_notional));
    &&& StrategyStateModel::close_spread(m, long, short) matches Some(spread_pct)
    &&& takes_exactly(m, state.current_pair_notional, state.pending_close_notional)
    &&& matching_is_exact(
        m,
        long.bids,
        short.asks,
        target_of(m, strategy.close_levels, spread_pct).min_num(available),
    )
}

/// A plan to open never takes a strategy above its total notional, nor above the notional that the
/// spread calls for: what is held, what is pending and what is planned stay within both.
pub proof fn opening_keeps_the_limit(
    m: spec_fn(Arith) -> Binary64,
    state: StrategyStateModel,
    strategy: StrategyConfigModel,
    long: BookModel,
    short: BookModel,
)
    requires
        state.planned(m, strategy, long, short) is Some,
        state.planned(m, strategy, long, short)->0.action == StrategyAction::Open,
        opening_is_exact(m, state, strategy, long, short),
    ensures
        ({
            let plan = state.planned(m, strategy, long, short)->0;
            let target = target_of(m, strategy.open_levels, plan.spread_pct);
            let total = state.current_pair_notional.value() + state.pending_open_notional.value()
                + plan.notional_usd.value();
            let after = state.seen(m, strategy, long, short).committed(m, plan);
            &&& total <= strategy.max_total_notional.value()
            &&& !target.nan() ==> total <= target.value()
            &&& adds_exactly(m, state.pending_open_notional, plan.notional_usd)
                ==> after.current_pair_notional.value() + after.pending_open_notional.value()
                <= strategy.max_total_notional.value()
        }),
{
    let limit = strategy.max_total_notional;
    let held = m(Arith::Add(state.current_pair_notional, state.pending_open_notional));
    let spread_pct = StrategyStateModel::open_spread(m, long, short)->0;
    let wanted = target_of(m, strategy.open_levels, spread_pct);
    let target = wanted.min_num(limit);
    let missing = m(Arith::Sub(target, held));
    let room = m(Arith::Sub(limit, held));
    matches_take_the_smallest(m, long.asks, short.bids, missing.min_num(room));
    values_are_ordered(room, missing);
    if !wanted.nan() {
        values_are_ordered(limit, wanted);
    }
}

/// A plan to close never takes more than is held: what is pending and what is planned stay within it.
pub proof fn closing_keeps_to_what_is_held(
    m: spec_fn(Arith) -> Binary64,
    state: StrategyStateModel,
    strategy: StrategyConfigModel,
    long: BookModel,
    short: BookModel,
)
    requires
        state.planned(m, strategy, long, short) is Some,
        state.planned(m, strategy, long, short)->0.action == StrategyAction::Close,
        closing_is_exact(m, state, strategy, long, short),
    ensures
        ({
            let plan = state.planned(m, strategy, long, short)->0;
            let target = target_of(m, strategy.close_levels, plan.spread_pct);
            let after = state.seen(m, strategy, long, short).committed(m, plan);
            &&& state.pending_close_notional.value() + plan.notional_usd.value()
                <= state.current_pair_notional.value()
            &&& !target.nan() ==> plan.notional_usd.value() <= target.value()
            &&& adds_exactly(m, state.pending_close_notional, plan.notional_usd)
                ==> after.pending_close_notional.value() <= after.current_pair_notional.value()
        }),
{
    let available = m(Arith::Sub(state.current_pair_notional, state.pending_close_notional));
    let spread_pct = StrategyStateModel::close_spread(m, long, short)->0;
    let wanted = target_of(m, strategy.close_levels, spread_pct);
    matches_take_the_smallest(m, long.bids, short.asks, wanted.min_num(available));
    if !wanted.nan() {
        values_are_ordered(available, wanted);
    }
}

/// Whether a number is a whole number of units, fewer than a binary64 tells apart. A unit is a power
/// of two times the smallest number above zero.
pub open spec fn is_whole(x: Binary64, unit: nat) -> bool {
    &&& x.finite()
    &&& exists|n: int|
        0 <= n < 2 * FRACTIONS && x.value() == #[trigger] units(n, unit)
}

/// The value of `n` units.
pub open spec fn units(n: int, unit: nat) -> int {
    n * pow2(unit)
}

/// Every small enough number of units is a binary64.
proof fn lemma_units_are_numbers(n: int, unit: nat) -> (c: Binary64)
    requires
        0 <= n < 2 * FRACTIONS,
        unit <= 2045,
    ensures
        c.finite(),
        c.value() == units(n, unit),
    decreases unit,
{
    let size = FRACTIONS as int;
    if n >= size {
        let bits = (unit + 1) * size + (n - size);
        assert(0 <= bits < 2047 * size && bits / size == unit + 1 && bits % size == n - size)
            by (nonlinear_arith)
            requires
                size == 0x0010_0000_0000_0000,
                size <= n < 2 * size,
                unit <= 2045,
                bits == (unit + 1) * size + (n - size),
        ;
        let c = Binary64 { bits: bits as u64 };
        assert(c.magnitude() == bits);
        c
    } else if unit == 0 {
        lemma2_to64();
        let c = Binary64 { bits: n as u64 };
        assert(c.magnitude() == n);
        assert(n / size == 0 && n % size == n);
        c
    } else {
        let c = lemma_units_are_numbers(2 * n, (unit - 1) as nat);
        lemma_pow2_unfold(unit);
        let p = pow2((unit - 1) as nat) as int;
        assert((2 * n) * p == n * (2 * p)) by (nonlinear_arith);
        c
    }
}

proof fn lemma_whole_sum(
    m: spec_fn(Arith) -> Binary64,
    a: Binary64,
    b: Binary64,
    unit: nat,
    most: Binary64,
)
    requires
        rounds_sums(m),
        unit <= 2045,
        is_whole(a, unit),
        is_whole(b, unit),
        is_whole(most, unit),
        a.value() + b.value() <= most.value(),
    ensures
        adds_exactly(m, a, b),
        is_whole(m(Arith::Add(a, b)), unit),
{
    let x = choose|n: int| 0 <= n < 2 * FRACTIONS && a.value() == #[trigger] units(n, unit);
    let y = choose|n: int| 0 <= n < 2 * FRACTIONS && b.value() == #[trigger] units(n, unit);
    let z = choose|n: int| 0 <= n < 2 * FRACTIONS && most.value() == #[trigger] units(n, unit);
    let p = pow2(unit) as int;
    lemma_pow2_pos(unit);
    assert((x + y) * p == x * p + y * p && x + y <= z) by (nonlinear_arith)
        requires
            p > 0,
            x * p + y * p <= z * p,
    ;
    let c = lemma_units_are_numbers(x + y, unit);
    rounding_stays_between(m(Arith::Add(a, b)), a.value() + b.value(), c, c);
    assert(m(Arith::Add(a, b)).value() == units(x + y, unit));
}

proof fn lemma_whole_difference(
    m: spec_fn(Arith) -> Binary64,
    a: Binary64,
    b: Binary64,
    unit: nat,
)
    requires
        rounds_sums(m),
        unit <= 2045,
        is_whole(a, unit),
        is_whole(b, unit),
        b.value() <= a.value(),
    ensures
        takes_exactly(m, a, b),
        is_whole(m(Arith::Sub(a, b)), unit),
{
    let x = choose|n: int| 0 <= n < 2 * FRACTIONS && a.value() == #[trigger] units(n, unit);
    let y = choose|n: int| 0 <= n < 2 * FRACTIONS && b.value() == #[trigger] units(n, unit);
    let p = pow2(unit) as int;
    lemma_pow2_pos(unit);
    assert((x - y) * p == x * p - y * p && y <= x) by (nonlinear_arith)
        requires
            p > 0,
            y * p <= x * p,
    ;
    let c = lemma_units_are_numbers(x - y, unit);
    rounding_stays_between(m(Arith::Sub(a, b)), a.value() - b.value(), c, c);
    assert(m(Arith::Sub(a, b)).value() == units(x - y, unit));
}

/// Whether the notionals of levels are whole numbers of units.
pub open spec fn notionals_are_whole(
    m: spec_fn(Arith) -> Binary64,
    levels: Seq<PriceLevel>,
    unit: nat,
) -> bool {
    forall|i: int| 0 <= i < levels.len() ==> is_whole(notional_of(m, #[trigger] levels[i]), unit)
}

/// Whether all amounts of a match in its course are whole numbers of units.
spec fn amounts_are_whole(m: spec_fn(Arith) -> Binary64, s: MatchState, unit: nat) -> bool {
    let p = s.progress;
    &&& is_whole(p.remaining, unit)
    &&& is_whole(p.matched, unit)
    &&& s.longs.len() > 0 ==> is_whole(p.long_left, unit)
    &&& s.shorts.len() > 0 ==> is_whole(p.short_left, unit)
    &&& notionals_are_whole(m, s.longs, unit)
    &&& notionals_are_whole(m, s.shorts, unit)
}

proof fn lemma_whole_step(
    m: spec_fn(Arith) -> Binary64,
    s: MatchState,
    unit: nat,
    desired: Binary64,
    longs: int,
    shorts: int,
)
    requires
        rounds_sums(m),
        unit <= 2045,
        is_whole(desired, unit),
        balances(m, s, desired.value(), longs, shorts),
        amounts_are_whole(m, s, unit),
        !s.over(),
    ensures
        step_is_exact(m, s),
        amounts_are_whole(m, s.stepped(m), unit),
{
    let p = s.progress;
    let take = next_take(s);
    lemma_take(s);
    values_are_ordered(p.remaining, zero());
    assert(take == p.remaining || take == p.long_left || take == p.short_left);
    lemma_whole_difference(m, p.remaining, take, unit);
    lemma_whole_difference(m, p.long_left, take, unit);
    lemma_whole_difference(m, p.short_left, take, unit);
    lemma_whole_sum(m, p.matched, take, unit, desired);
    let t = s.stepped(m);
    assert forall|i: int| 0 <= i < t.longs.len() implies is_whole(
        notional_of(m, #[trigger] t.longs[i]),
        unit,
    ) by {
        assert(t.longs[i] == s.longs[i] || t.longs[i] == s.longs[i + 1]);
    }
    assert forall|i: int| 0 <= i < t.shorts.len() implies is_whole(
        notional_of(m, #[trigger] t.shorts[i]),
        unit,
    ) by {
        assert(t.shorts[i] == s.shorts[i] || t.shorts[i] == s.shorts[i + 1]);
    }
    if t.longs.len() > 0 {
        assert(is_whole(notional_of(m, t.longs[0]), unit));
    }
    if t.shorts.len() > 0 {
        assert(is_whole(notional_of(m, t.shorts[0]), unit));
    }
}

proof fn lemma_whole_run(
    m: spec_fn(Arith) -> Binary64,
    s: MatchState,
    steps: nat,
    unit: nat,
    desired: Binary64,
    longs: int,
    shorts: int,
)
    requires
        rounds_sums(m),
        unit <= 2045,
        is_whole(desired, unit),
        balances(m, s, desired.value(), longs, shorts),
        amounts_are_whole(m, s, unit),
    ensures
        run_is_exact(m, s, steps),
    decreases steps,
{
    if steps > 0 && !s.over() {
        lemma_whole_step(m, s, unit, desired, longs, shorts);
        lemma_step_balances(m, s, desired.value(), longs, shorts);
        lemma_whole_run(m, s.stepped(m), (steps - 1) as nat, unit, desired, longs, shorts);
    }
}

/// Matching is exact where sums and differences are rounded to a nearest number, and what is desired
/// and what the levels offer are whole numbers of one unit.
pub proof fn whole_amounts_match_exactly(
    m: spec_fn(Arith) -> Binary64,
    long_side: Seq<PriceLevel>,
    short_side: Seq<PriceLevel>,
    desired: Binary64,
    unit: nat,
)
    requires
        rounds_sums(m),
        unit <= 2045,
        is_whole(desired, unit),
        desired.positive(),
        usable(m, best_levels(long_side)).len() > 0,
        usable(m, best_levels(short_side)).len() > 0,
        notionals_are_whole(m, usable(m, best_levels(long_side)), unit),
        notionals_are_whole(m, usable(m, best_levels(short_side)), unit),
    ensures
        matching_is_exact(m, long_side, short_side, desired),
{
    let longs = usable(m, best_levels(long_side));
    let shorts = usable(m, best_levels(short_side));
    lemma_usable(m, best_levels(long_side));
    lemma_usable(m, best_levels(short_side));
    lemma_start_balances(m, longs, shorts, desired);
    let start = MatchState::start(m, longs, shorts, desired);
    assert(is_whole(notional_of(m, longs[0]), unit));
    assert(is_whole(notional_of(m, shorts[0]), unit));
    assert(is_whole(zero(), unit)) by {
        values_are_ordered(zero(), zero());
        assert(units(0, unit) == 0);
    }
    lemma_whole_run(
        m,
        start,
        MATCH_STEPS as nat,
        unit,
        desired,
        offered(m, longs),
        offered(m, shorts),
    );
}

} // verus!
