//! What holds of strategies, their matching and their orders.

use vstd::prelude::*;

use crate::config::model::{SpreadLevel, StrategyConfigModel};
use crate::engine::book::{BookModel, PriceLevel};
use crate::engine::strategy::{
    best_levels, notional_of, notional_sum, order_id, reached, target_of, usable, MatchState,
    StrategyAction, StrategyStateModel, MATCH_STEPS,
};
use crate::num::{
    distance, is_rounded, rounding_stays_between, rounds_sums, values_are_ordered, zero, Arith,
    Binary64,
};
use crate::text::{numeral, numerals_hold_digits, numerals_tell_apart};

verus! {

/// The two orders of a plan are on opposite sides, and closing takes the sides that opening does not.
pub proof fn sides_are_opposite(action: StrategyAction)
    ensures
        action.long_side_model() == action.short_side_model().opposite(),
        StrategyAction::Open.long_side_model() == StrategyAction::Close.long_side_model().opposite(),
        StrategyAction::Open.short_side_model()
            == StrategyAction::Close.short_side_model().opposite(),
{
}

/// A plan never takes a strategy above its number of open orders.
pub proof fn order_limit_is_kept(
    m: spec_fn(Arith) -> Binary64,
    state: StrategyStateModel,
    strategy: StrategyConfigModel,
    long: BookModel,
    short: BookModel,
)
    requires
        state.active_order_count + 2 <= u32::MAX,
        state.planned(m, strategy, long, short) is Some,
    ensures
        state.seen(m, strategy, long, short).committed(
            m,
            state.planned(m, strategy, long, short)->0,
        ).active_order_count <= strategy.max_open_orders,
{
}

proof fn lemma_prefix_filter<T>(s: Seq<T>, p: spec_fn(T) -> bool, n: int)
    requires
        0 <= n <= s.len(),
        forall|i: int| 0 <= i < n ==> p(#[trigger] s[i]),
        forall|i: int| n <= i < s.len() ==> !p(#[trigger] s[i]),
    ensures
        s.filter(p) == s.take(n),
    decreases s.len(),
{
    reveal(Seq::filter);
    if s.len() > 0 {
        let front = s.drop_last();
        if n < s.len() {
            lemma_prefix_filter(front, p, n);
            assert(front.take(n) =~= s.take(n));
        } else {
            lemma_prefix_filter(front, p, n - 1);
            assert(front.take(n - 1).push(s.last()) =~= s.take(n));
        }
    } else {
        assert(s.filter(p) =~= s.take(n));
    }
}

pub(crate) proof fn lemma_reached(levels: Seq<SpreadLevel>, spread_pct: Binary64)
    ensures
        reached(levels, spread_pct) <= levels.len(),
        forall|i: int|
            0 <= i < reached(levels, spread_pct) ==> (#[trigger] levels[i]).spread_pct.le(
                spread_pct,
            ),
        reached(levels, spread_pct) < levels.len() ==> !levels[reached(
            levels,
            spread_pct,
        ) as int].spread_pct.le(spread_pct),
    decreases levels.len(),
{
    if levels.len() > 0 && levels[0].spread_pct.le(spread_pct) {
        let rest = levels.drop_first();
        lemma_reached(rest, spread_pct);
        assert forall|i: int| 0 <= i < reached(levels, spread_pct) implies (
        #[trigger] levels[i]).spread_pct.le(spread_pct) by {
            if i > 0 {
                assert(rest[i - 1] == levels[i]);
            }
        }
    }
}

/// Whether the spreads of levels strictly ascend.
pub open spec fn spreads_ascend(levels: Seq<SpreadLevel>) -> bool {
    forall|i: int, j: int|
        0 <= i < j < levels.len() ==> (#[trigger] levels[i]).spread_pct.lt(
            (#[trigger] levels[j]).spread_pct,
        )
}

/// Where spreads ascend, a spread calls for the notionals of all levels that it reaches, those of its
/// own spread among them, and for nothing where it reaches none.
pub proof fn all_reached_levels_count(
    m: spec_fn(Arith) -> Binary64,
    levels: Seq<SpreadLevel>,
    spread_pct: Binary64,
)
    requires
        spreads_ascend(levels),
    ensures
        target_of(m, levels, spread_pct) == notional_sum(
            m,
            levels.filter(|level: SpreadLevel| level.spread_pct.le(spread_pct)),
        ),
        (forall|i: int| 0 <= i < levels.len() ==> !(#[trigger] levels[i]).spread_pct.le(spread_pct))
            ==> target_of(m, levels, spread_pct).eq_num(zero()),
{
    let n = reached(levels, spread_pct) as int;
    lemma_reached(levels, spread_pct);
    let p = |level: SpreadLevel| level.spread_pct.le(spread_pct);
    assert forall|i: int| n <= i < levels.len() implies !p(#[trigger] levels[i]) by {
        if n < i {
            assert(levels[n].spread_pct.lt(levels[i].spread_pct));
        }
    }
    lemma_prefix_filter(levels, p, n);
}

/// Whether adding a finite number above zero does not make a number smaller.
pub open spec fn adding_does_not_shrink(m: spec_fn(Arith) -> Binary64) -> bool {
    forall|a: Binary64, b: Binary64|
        !a.nan() && b.finite() && b.positive() ==> a.le(#[trigger] m(Arith::Add(a, b)))
}

proof fn lemma_sums_grow(
    m: spec_fn(Arith) -> Binary64,
    levels: Seq<SpreadLevel>,
    few: int,
    many: int,
)
    requires
        adding_does_not_shrink(m),
        0 <= few <= many <= levels.len(),
        forall|i: int|
            0 <= i < levels.len() ==> (#[trigger] levels[i]).notional_usd.finite()
                && levels[i].notional_usd.positive(),
    ensures
        notional_sum(m, levels.take(few)).le(notional_sum(m, levels.take(many))),
    decreases many,
{
    if few < many {
        lemma_sums_grow(m, levels, few, many - 1);
    } else if many > 0 {
        lemma_sums_grow(m, levels, few - 1, many - 1);
    }
    if many > 0 {
        assert(levels.take(many).drop_last() =~= levels.take(many - 1));
        assert(levels.take(many).last() == levels[many - 1]);
    }
}

/// A wider spread calls for no less than a narrower one, wherever adding does not shrink, as adding
/// with rounding to a nearest number does not.
pub proof fn targets_grow(
    m: spec_fn(Arith) -> Binary64,
    levels: Seq<SpreadLevel>,
    narrow: Binary64,
    wide: Binary64,
)
    requires
        adding_does_not_shrink(m),
        narrow.le(wide),
        forall|i: int|
            0 <= i < levels.len() ==> (#[trigger] levels[i]).notional_usd.finite()
                && levels[i].notional_usd.positive(),
    ensures
        target_of(m, levels, narrow).le(target_of(m, levels, wide)),
{
    let few = reached(levels, narrow) as int;
    let many = reached(levels, wide) as int;
    lemma_reached(levels, narrow);
    lemma_reached(levels, wide);
    assert(few <= many) by {
        if many < few {
            assert(levels[many].spread_pct.le(narrow));
        }
    }
    lemma_sums_grow(m, levels, few, many);
}

/// A look at the books changes nothing but the spreads that were last seen.
pub proof fn looking_changes_spreads_only(
    m: spec_fn(Arith) -> Binary64,
    state: StrategyStateModel,
    strategy: StrategyConfigModel,
    long: BookModel,
    short: BookModel,
)
    ensures
        state.seen(m, strategy, long, short) == (StrategyStateModel {
            last_open_spread_pct: state.seen(m, strategy, long, short).last_open_spread_pct,
            last_close_spread_pct: state.seen(m, strategy, long, short).last_close_spread_pct,
            ..state
        }),
{
}

/// Whether subtraction is exact where it has to be for matching to end: a finite number taken from
/// itself leaves zero, and a positive number taken from a finite one that is not smaller leaves a
/// finite one.
pub open spec fn subtracts(m: spec_fn(Arith) -> Binary64) -> bool {
    &&& forall|x: Binary64| x.finite() ==> (#[trigger] m(Arith::Sub(x, x))).eq_num(zero())
    &&& forall|a: Binary64, b: Binary64|
        a.finite() && b.positive() && b.le(a) ==> (#[trigger] m(Arith::Sub(a, b))).finite()
}

/// Rounding sums and differences to a nearest number makes adding not shrink, and subtraction exact
/// where matching needs it.
pub proof fn rounded_sums_behave(m: spec_fn(Arith) -> Binary64)
    requires
        rounds_sums(m),
    ensures
        adding_does_not_shrink(m),
        subtracts(m),
{
    assert forall|a: Binary64, b: Binary64|
        !a.nan() && b.finite() && b.positive() implies a.le(#[trigger] m(Arith::Add(a, b))) by {
        if a.finite() {
            let r = m(Arith::Add(a, b));
            let exact = a.value() + b.value();
            values_are_ordered(b, b);
            assert(is_rounded(r, exact));
            if !r.finite() && !r.positive() {
                assert(a.finite());
            }
            values_are_ordered(a, r);
            if r.finite() {
                assert(distance(r.value(), exact) <= distance(a.value(), exact));
            }
        }
    }
    assert forall|x: Binary64| x.finite() implies (#[trigger] m(Arith::Sub(x, x))).eq_num(
        zero(),
    ) by {
        let r = m(Arith::Sub(x, x));
        values_are_ordered(zero(), zero());
        rounding_stays_between(r, x.value() - x.value(), zero(), zero());
        values_are_ordered(r, zero());
        values_are_ordered(zero(), r);
    }
    assert forall|a: Binary64, b: Binary64|
        a.finite() && b.positive() && b.le(a) implies (#[trigger] m(Arith::Sub(a, b))).finite() by {
        assert(b.finite());
        values_are_ordered(b, a);
        rounding_stays_between(m(Arith::Sub(a, b)), a.value() - b.value(), zero(), a);
    }
}

/// Whether what is left of the levels and of the notional is what matching keeps it to be.
spec fn matching_ok(m: spec_fn(Arith) -> Binary64, s: MatchState) -> bool {
    &&& s.progress.remaining.finite()
    &&& s.progress.long_left.nan() || s.progress.long_left.positive() || s.longs.len() == 0
    &&& s.progress.short_left.nan() || s.progress.short_left.positive() || s.shorts.len() == 0
    &&& forall|i: int| 0 <= i < s.longs.len() ==> notional_of(m, #[trigger] s.longs[i]).positive()
    &&& forall|i: int| 0 <= i < s.shorts.len() ==> notional_of(m, #[trigger] s.shorts[i]).positive()
}

proof fn lemma_step_uses_something_up(m: spec_fn(Arith) -> Binary64, s: MatchState)
    requires
        subtracts(m),
        matching_ok(m, s),
        !s.over(),
    ensures
        matching_ok(m, s.stepped(m)),
        s.stepped(m).over() || s.stepped(m).longs.len() + s.stepped(m).shorts.len() < s.longs.len()
            + s.shorts.len(),
{
    let p = s.progress;
    let take = p.remaining.min_num(p.long_left).min_num(p.short_left);
    assert(take == p.remaining || take == p.long_left || take == p.short_left);
    assert(take.positive() && take.finite() && take.le(p.remaining));
    let q = p.taken(m, s.longs[0].price, s.shorts[0].price);
    assert(q.remaining == m(Arith::Sub(p.remaining, take)));
    assert(q.long_left == m(Arith::Sub(p.long_left, take)));
    assert(q.short_left == m(Arith::Sub(p.short_left, take)));
    let t = s.stepped(m);
    assert forall|i: int| 0 <= i < t.longs.len() implies notional_of(
        m,
        #[trigger] t.longs[i],
    ).positive() by {
        assert(t.longs[i] == s.longs[i] || t.longs[i] == s.longs[i + 1]);
    }
    assert forall|i: int| 0 <= i < t.shorts.len() implies notional_of(
        m,
        #[trigger] t.shorts[i],
    ).positive() by {
        assert(t.shorts[i] == s.shorts[i] || t.shorts[i] == s.shorts[i + 1]);
    }
    if t.longs.len() > 0 && q.long_left.le(zero()) {
        assert(notional_of(m, t.longs[0]).positive());
    }
    if t.shorts.len() > 0 && q.short_left.le(zero()) {
        assert(notional_of(m, t.shorts[0]).positive());
    }
}

proof fn lemma_matching_ends(m: spec_fn(Arith) -> Binary64, s: MatchState, steps: nat)
    requires
        subtracts(m),
        matching_ok(m, s),
        s.longs.len() + s.shorts.len() <= steps,
    ensures
        s.run(m, steps).over(),
    decreases steps,
{
    if !s.over() {
        lemma_step_uses_something_up(m, s);
        let t = s.stepped(m);
        if t.over() {
            assert(t.run(m, (steps - 1) as nat) == t);
        } else {
            lemma_matching_ends(m, t, (steps - 1) as nat);
        }
    }
}

pub(crate) proof fn lemma_usable(m: spec_fn(Arith) -> Binary64, levels: Seq<PriceLevel>)
    ensures
        usable(m, levels).len() <= levels.len(),
        forall|i: int|
            0 <= i < usable(m, levels).len() ==> notional_of(
                m,
                #[trigger] usable(m, levels)[i],
            ).positive(),
    decreases levels.len(),
{
    if levels.len() > 0 {
        let rest = usable(m, levels.drop_first());
        lemma_usable(m, levels.drop_first());
        assert forall|i: int| 0 <= i < usable(m, levels).len() implies notional_of(
            m,
            #[trigger] usable(m, levels)[i],
        ).positive() by {
            if notional_of(m, levels[0]).positive() && i > 0 {
                assert(usable(m, levels)[i] == rest[i - 1]);
            }
        }
    }
}

proof fn lemma_more_steps(m: spec_fn(Arith) -> Binary64, s: MatchState, steps: nat, more: nat)
    requires
        s.run(m, steps).over(),
    ensures
        s.run(m, steps + more) == s.run(m, steps),
    decreases steps,
{
    if steps > 0 && !s.over() {
        lemma_more_steps(m, s.stepped(m), (steps - 1) as nat, more);
    }
}

/// Matching always comes to its end within its number of steps: then nothing is wanted any more, or
/// the levels of a side are used up, and more steps would change nothing. It is so for every
/// arithmetic that rounds differences to a nearest number.
pub proof fn steps_suffice(
    m: spec_fn(Arith) -> Binary64,
    long_side: Seq<PriceLevel>,
    short_side: Seq<PriceLevel>,
    desired: Binary64,
    more: nat,
)
    requires
        subtracts(m),
        desired.finite(),
        desired.positive(),
        usable(m, best_levels(long_side)).len() > 0,
        usable(m, best_levels(short_side)).len() > 0,
    ensures
        ({
            let start = MatchState::start(
                m,
                usable(m, best_levels(long_side)),
                usable(m, best_levels(short_side)),
                desired,
            );
            &&& start.run(m, MATCH_STEPS as nat).over()
            &&& start.run(m, MATCH_STEPS as nat + more) == start.run(m, MATCH_STEPS as nat)
        }),
{
    let longs = usable(m, best_levels(long_side));
    let shorts = usable(m, best_levels(short_side));
    lemma_usable(m, best_levels(long_side));
    lemma_usable(m, best_levels(short_side));
    let start = MatchState::start(m, longs, shorts, desired);
    assert(notional_of(m, longs[0]).positive());
    assert(notional_of(m, shorts[0]).positive());
    lemma_matching_ends(m, start, MATCH_STEPS as nat);
    lemma_more_steps(m, start, MATCH_STEPS as nat, more);
}

/// Orders with different numbers have different ids, whatever their shards, strategies and legs.
pub proof fn order_ids_differ(
    shard_a: Seq<char>,
    strategy_a: Seq<char>,
    leg_a: Seq<char>,
    a: nat,
    shard_b: Seq<char>,
    strategy_b: Seq<char>,
    leg_b: Seq<char>,
    b: nat,
)
    requires
        a != b,
    ensures
        order_id(shard_a, strategy_a, leg_a, a) != order_id(shard_b, strategy_b, leg_b, b),
{
    let x = order_id(shard_a, strategy_a, leg_a, a);
    let y = order_id(shard_b, strategy_b, leg_b, b);
    reveal_strlit("-");
    if x == y {
        let p = x.len() - numeral(a).len();
        let q = y.len() - numeral(b).len();
        assert(x.skip(p) =~= numeral(a));
        assert(y.skip(q) =~= numeral(b));
        assert(x[p - 1] == '-');
        assert(y[q - 1] == '-');
        if p < q {
            numerals_hold_digits(a, q - 1 - p);
            assert(x[q - 1] == numeral(a)[q - 1 - p]);
        } else if q < p {
            numerals_hold_digits(b, p - 1 - q);
            assert(y[p - 1] == numeral(b)[p - 1 - q]);
        } else {
            numerals_tell_apart(a, b);
        }
    }
}

} // verus!
