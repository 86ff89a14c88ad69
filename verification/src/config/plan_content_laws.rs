//! What a runtime plan says of strategies, shards and connections.

use vstd::prelude::*;

use crate::config::model::{MarketKeyModel, StrategyRecordModel};
use crate::config::plan_laws::{
    components_are_in_order, lemma_component_members, lemma_component_places, lemma_flat_contains,
    lemma_group_root, lemma_groups, lemma_groups_are_full, lemma_markets_of_contains, lemma_runs_in,
    parts_are_numbered, plan_shards, runs_in, shard_groups, shard_watches_its_markets,
    shards_stay_within_the_limit,
};
use crate::config::plan_order_laws::ids_differ;
use crate::config::planner::{
    by_ids, by_text, component_of, components_model, every_index, flat, ids_of, is_path,
    lemma_closed_holds_path, lemma_linked_bounds, lemma_numbers_below, linked, linked_reflexive,
    linked_symmetric, linked_transitive, markets_of, members, plan_lines, plan_model, shard_members,
    shard_name, share_market, ComponentModel, RuntimePlanModel,
};
use crate::order::{
    in_order, lemma_sorted_contains, lemma_sorted_length, list_lt, market_lt, market_set,
    market_set_is_the_set,
};
use crate::text::{joined, numeral, numeral_padded, text_lt, text_order, text_order_transitive};

verus! {

/// Whether a strategy trades a market with one of its legs.
pub open spec fn trades(strategy: StrategyRecordModel, m: MarketKeyModel) -> bool {
    let long = strategy.config.long_leg;
    let short = strategy.config.short_leg;
    ||| m.exchange == long.exchange && m.symbol == long.symbol
    ||| m.exchange == short.exchange && m.symbol == short.symbol
}

/// Whether two strategies trade one market.
pub open spec fn meet(a: StrategyRecordModel, b: StrategyRecordModel) -> bool {
    exists|m: MarketKeyModel| #[trigger] trades(a, m) && trades(b, m)
}

proof fn lemma_trades(strategy: StrategyRecordModel, m: MarketKeyModel)
    ensures
        trades(strategy, m) <==> strategy.config.markets().contains(m),
{
    let markets = strategy.config.markets();
    assert(markets[0] == strategy.config.long_leg.market());
    assert(markets[1] == strategy.config.short_leg.market());
    if trades(strategy, m) {
        assert(m == markets[0] || m == markets[1]);
    }
}

proof fn lemma_meet(s: Seq<StrategyRecordModel>, i: int, j: int)
    ensures
        meet(s[i], s[j]) <==> share_market(s, i, j),
{
    if meet(s[i], s[j]) {
        let m = choose|m: MarketKeyModel| #[trigger] trades(s[i], m) && trades(s[j], m);
        lemma_trades(s[i], m);
        lemma_trades(s[j], m);
        assert(s[i].config.markets().contains(m) && s[j].config.markets().contains(m));
    }
    if share_market(s, i, j) {
        let m = choose|m: MarketKeyModel| #[trigger]
            s[i].config.markets().contains(m) && s[j].config.markets().contains(m);
        lemma_trades(s[i], m);
        lemma_trades(s[j], m);
        assert(trades(s[i], m) && trades(s[j], m));
    }
}

/// A shard lists the ids of exactly the strategies that run in it, in their order, and there is one at
/// least.
pub proof fn shards_list_who_runs_in_them(
    s: Seq<StrategyRecordModel>,
    generated_at_ms: u64,
    g: int,
) -> (who: Seq<int>)
    requires
        0 <= g < plan_model(s, generated_at_ms).shards.len(),
    ensures
        ({
            let shard = plan_model(s, generated_at_ms).shards[g];
            &&& who.len() > 0
            &&& shard.strategy_ids.len() == who.len()
            &&& forall|k: int|
                0 <= k < who.len() ==> 0 <= #[trigger] who[k] < s.len() && shard.strategy_ids[k]
                    == s[who[k]].config.id
            &&& forall|k: int, l: int|
                0 <= k < l < who.len() ==> #[trigger] who[k] < #[trigger] who[l]
            &&& forall|i: int| #[trigger] runs_in(s, i, g) <==> who.contains(i)
            &&& who == shard_members(s, shard_groups(s)[g])
        }),
{
    lemma_shard_count(s, generated_at_ms);
    plan_shards(s, generated_at_ms, g);
    let group = shard_groups(s)[g];
    let who = shard_members(s, group);
    lemma_numbers_below(s.len(), |i: int| flat(group).contains(i));
    lemma_groups(s, g);
    let root = lemma_group_root(s, g, 0);
    linked_reflexive(s, root);
    lemma_component_members(s, root, root);
    assert(group[0].indices.contains(root));
    lemma_runs_in(s, root, g);
    assert(runs_in(s, root, g));
    assert(who.contains(root));
    assert forall|k: int| 0 <= k < who.len() implies 0 <= #[trigger] who[k] < s.len()
        && plan_model(s, generated_at_ms).shards[g].strategy_ids[k] == s[who[k]].config.id by {
        assert(who.contains(who[k]));
    }
    who
}

proof fn lemma_shard_count(s: Seq<StrategyRecordModel>, generated_at_ms: u64)
    ensures
        plan_model(s, generated_at_ms).shards.len() == shard_groups(s).len(),
{
    crate::config::plan_laws::lemma_parts_length(s, shard_groups(s));
}

/// Strategies are connected only if they have to be: a set of strategies that holds, with each one, all
/// that trade a market with it, holds all that is connected with any of it.
pub proof fn nothing_else_is_connected(
    s: Seq<StrategyRecordModel>,
    inside: spec_fn(int) -> bool,
    i: int,
    j: int,
)
    requires
        linked(s, i, j),
        inside(i),
        forall|a: int, b: int|
            0 <= a < s.len() && 0 <= b < s.len() && #[trigger] inside(a) && #[trigger] meet(
                s[a],
                s[b],
            ) ==> inside(b),
    ensures
        inside(j),
{
    let path = choose|path: Seq<int>|
        #[trigger] is_path(s, path) && path.first() == i && path.last() == j;
    assert forall|a: int, b: int|
        0 <= a < s.len() && 0 <= b < s.len() && #[trigger] inside(a) && #[trigger] share_market(
            s,
            a,
            b,
        ) implies inside(b) by {
        lemma_meet(s, a, b);
        assert(meet(s[a], s[b]));
    }
    lemma_closed_holds_path(s, inside, path);
}

/// Strategies that meet at a market are connected; being connected is reflexive, symmetric and
/// transitive.
pub proof fn meeting_strategies_are_connected(s: Seq<StrategyRecordModel>, i: int, j: int, k: int)
    requires
        0 <= i < s.len(),
        0 <= j < s.len(),
    ensures
        linked(s, i, i),
        meet(s[i], s[j]) ==> linked(s, i, j),
        linked(s, i, j) ==> linked(s, j, i),
        linked(s, i, j) && linked(s, j, k) ==> linked(s, i, k),
{
    linked_reflexive(s, i);
    lemma_meet(s, i, j);
    if meet(s[i], s[j]) {
        crate::config::planner::sharing_links(s, i, j);
    }
    if linked(s, i, j) {
        linked_symmetric(s, i, j);
        if linked(s, j, k) {
            linked_transitive(s, i, j, k);
        }
    }
}

proof fn lemma_runs_in_component(s: Seq<StrategyRecordModel>, i: int, g: int) -> (c: int)
    requires
        runs_in(s, i, g),
    ensures
        0 <= c < shard_groups(s)[g].len(),
        shard_groups(s)[g][c].indices.contains(i),
{
    lemma_runs_in(s, i, g);
    choose|c: int|
        0 <= c < shard_groups(s)[g].len() && (#[trigger] shard_groups(s)[g][c]).indices.contains(i)
}

/// A shard counts its components: there are as many strategies in it of which no two are connected and
/// one of which every other is connected with. A shard of more than one component watches at most
/// twelve markets.
pub proof fn components_are_counted(
    s: Seq<StrategyRecordModel>,
    generated_at_ms: u64,
    g: int,
) -> (of: Seq<int>)
    requires
        0 <= g < plan_model(s, generated_at_ms).shards.len(),
    ensures
        ({
            let shard = plan_model(s, generated_at_ms).shards[g];
            &&& of.len() > 0
            &&& shard.component_count == of.len() as usize
            &&& of.len() > 1 ==> shard.subscribed_markets.len() <= 12
            &&& forall|c: int| 0 <= c < of.len() ==> #[trigger] runs_in(s, of[c], g)
            &&& forall|c: int, d: int|
                0 <= c < d < of.len() ==> !linked(s, #[trigger] of[c], #[trigger] of[d])
            &&& forall|i: int| #[trigger]
                runs_in(s, i, g) ==> exists|c: int|
                    0 <= c < of.len() && linked(s, #[trigger] of[c], i)
        }),
{
    lemma_shard_count(s, generated_at_ms);
    plan_shards(s, generated_at_ms, g);
    shards_stay_within_the_limit(s, generated_at_ms, g);
    lemma_groups(s, g);
    let group = shard_groups(s)[g];
    let of = Seq::new(
        group.len(),
        |c: int| choose|root: int| 0 <= root < s.len() && group[c] == component_of(s, root),
    );
    assert forall|c: int| 0 <= c < of.len() implies 0 <= #[trigger] of[c] < s.len() && group[c]
        == component_of(s, of[c]) by {
        let root = lemma_group_root(s, g, c);
        assert(0 <= root < s.len() && group[c] == component_of(s, root));
    }
    assert forall|c: int| 0 <= c < of.len() implies #[trigger] runs_in(s, of[c], g) by {
        linked_reflexive(s, of[c]);
        lemma_component_members(s, of[c], of[c]);
        assert(group[c].indices.contains(of[c]));
        lemma_runs_in(s, of[c], g);
    }
    assert forall|c: int, d: int| 0 <= c < d < of.len() implies !linked(
        s,
        #[trigger] of[c],
        #[trigger] of[d],
    ) by {
        if linked(s, of[c], of[d]) {
            lemma_same_component(s, of[c], of[d]);
            let at = lemma_component_places(s, g, c, g, d);
            crate::config::plan_laws::lemma_no_component_twice(s);
            assert(components_model(s)[at.0] == components_model(s)[at.1]);
        }
    }
    assert forall|i: int| #[trigger] runs_in(s, i, g) implies exists|c: int|
        0 <= c < of.len() && linked(s, #[trigger] of[c], i) by {
        let c = lemma_runs_in_component(s, i, g);
        lemma_component_members(s, of[c], i);
        assert(linked(s, of[c], i));
    }
    of
}

proof fn lemma_same_component(s: Seq<StrategyRecordModel>, i: int, j: int)
    requires
        linked(s, i, j),
    ensures
        component_of(s, i) == component_of(s, j),
{
    linked_symmetric(s, i, j);
    assert forall|k: int| 0 <= k < s.len() implies linked(s, i, k) == linked(s, j, k) by {
        if linked(s, i, k) {
            linked_transitive(s, j, i, k);
        }
        if linked(s, j, k) {
            linked_transitive(s, i, j, k);
        }
    }
    crate::config::planner::lemma_numbers_below_same(
        s.len(),
        |k: int| linked(s, i, k),
        |k: int| linked(s, j, k),
    );
}

/// A shard is opened only where a component does not fit into the one before it: the strategy `of.0` runs
/// in the next shard, and its component's markets together with those of the shard are more than
/// twelve. They stand in `of.1`, each once.
pub proof fn shards_are_filled(s: Seq<StrategyRecordModel>, generated_at_ms: u64, g: int) -> (of: (
    int,
    Seq<MarketKeyModel>,
))
    requires
        0 <= g,
        g + 1 < plan_model(s, generated_at_ms).shards.len(),
    ensures
        runs_in(s, of.0, g + 1),
        of.1.no_duplicates(),
        of.1.len() > 12,
        forall|m: MarketKeyModel| #[trigger]
            of.1.contains(m) <==> exists|i: int|
                0 <= i < s.len() && (runs_in(s, i, g) || linked(s, of.0, i)) && trades(
                    #[trigger] s[i],
                    m,
                ),
        forall|j: int| #[trigger]
            runs_in(s, j, g + 1) && !linked(s, of.0, j) && ids_differ(s) ==> comes_before(s, of.0, j),
{
    lemma_shard_count(s, generated_at_ms);
    let groups = shard_groups(s);
    lemma_groups_are_full(s, components_model(s), g);
    let first = lemma_group_root(s, g + 1, 0);
    let next = groups[g + 1][0];
    let joint = groups[g].push(next);
    let all = market_set(markets_of(s, flat(joint)));
    market_set_is_the_set(markets_of(s, flat(joint)));
    linked_reflexive(s, first);
    lemma_component_members(s, first, first);
    assert(groups[g + 1][0].indices.contains(first));
    lemma_runs_in(s, first, g + 1);
    assert forall|m: MarketKeyModel| #[trigger] all.contains(m) <==> exists|i: int|
        0 <= i < s.len() && (runs_in(s, i, g) || linked(s, first, i)) && trades(
            #[trigger] s[i],
            m,
        ) by {
        assert(all.contains(m) <==> markets_of(s, flat(joint)).contains(m));
        lemma_markets_of_contains(s, flat(joint), m);
        if all.contains(m) {
            let k = choose|k: int|
                0 <= k < flat(joint).len() && s[#[trigger] flat(joint)[k]].config.markets().contains(
                    m,
                );
            let i = flat(joint)[k];
            assert(flat(joint).contains(i));
            lemma_flat_contains(joint, i);
            let c = choose|c: int| 0 <= c < joint.len() && (#[trigger] joint[c]).indices.contains(i);
            lemma_trades(s[i], m);
            if c < groups[g].len() {
                let root = lemma_group_root(s, g, c);
                lemma_component_members(s, root, i);
                lemma_linked_bounds(s, root, i);
                assert(groups[g][c].indices.contains(i));
                lemma_runs_in(s, i, g);
                assert(runs_in(s, i, g));
            } else {
                lemma_component_members(s, first, i);
                lemma_linked_bounds(s, first, i);
            }
            assert(trades(s[i], m));
        }
        if exists|i: int|
            0 <= i < s.len() && (runs_in(s, i, g) || linked(s, first, i)) && trades(
                #[trigger] s[i],
                m,
            ) {
            let i = choose|i: int|
                0 <= i < s.len() && (runs_in(s, i, g) || linked(s, first, i)) && trades(
                    #[trigger] s[i],
                    m,
                );
            lemma_trades(s[i], m);
            if runs_in(s, i, g) {
                let c = lemma_runs_in_component(s, i, g);
                assert(joint[c].indices.contains(i));
            } else {
                lemma_component_members(s, first, i);
                assert(joint[groups[g].len() as int].indices.contains(i));
            }
            lemma_flat_contains(joint, i);
            let k = choose|k: int| 0 <= k < flat(joint).len() && flat(joint)[k] == i;
            assert(s[flat(joint)[k]].config.markets().contains(m));
        }
    }
    assert forall|j: int| #[trigger]
        runs_in(s, j, g + 1) && !linked(s, first, j) && ids_differ(s) implies comes_before(
        s,
        first,
        j,
    ) by {
        let d = lemma_runs_in_component(s, j, g + 1);
        if d == 0 {
            lemma_component_members(s, first, j);
        }
        lemma_comes_before(s, first, g + 1, 0, j, g + 1, d);
    }
    (first, all)
}

/// Whether the least id among what is connected with one strategy comes before every id among what is
/// connected with another.
pub open spec fn comes_before(s: Seq<StrategyRecordModel>, i: int, j: int) -> bool {
    exists|a: int| #[trigger]
        linked(s, i, a) && forall|b: int| #[trigger]
            linked(s, j, b) ==> text_lt(s[a].config.id, s[b].config.id)
}

proof fn lemma_least_id(s: Seq<StrategyRecordModel>, component: ComponentModel, root: int, at: int)
    -> (a: int)
    requires
        0 <= root < s.len(),
        0 <= at < components_model(s).len(),
        components_model(s)[at] == component,
        component == component_of(s, root),
    ensures
        linked(s, root, a),
        component.ids.len() > 0,
        component.ids[0] == s[a].config.id,
        forall|b: int| #[trigger]
            linked(s, root, b) ==> s[b].config.id == component.ids[0] || text_lt(
                component.ids[0],
                s[b].config.id,
            ),
{
    components_are_in_order(s);
    let own = ids_of(s, members(s, root));
    lemma_sorted_length(own, by_text());
    linked_reflexive(s, root);
    lemma_component_members(s, root, root);
    let x = choose|x: int| 0 <= x < members(s, root).len() && members(s, root)[x] == root;
    assert(own.len() == members(s, root).len());
    assert(component.ids.contains(component.ids[0]));
    lemma_sorted_contains(own, by_text(), component.ids[0]);
    let y = choose|y: int| 0 <= y < own.len() && own[y] == component.ids[0];
    let a = members(s, root)[y];
    assert(members(s, root).contains(a));
    lemma_component_members(s, root, a);
    assert forall|b: int| #[trigger] linked(s, root, b) implies s[b].config.id == component.ids[0]
        || text_lt(component.ids[0], s[b].config.id) by {
        lemma_component_members(s, root, b);
        let z = choose|z: int| 0 <= z < members(s, root).len() && members(s, root)[z] == b;
        assert(own[z] == s[b].config.id);
        assert(own.contains(s[b].config.id));
        lemma_sorted_contains(own, by_text(), s[b].config.id);
        let w = choose|w: int| 0 <= w < component.ids.len() && component.ids[w] == s[b].config.id;
        assert(in_order(component.ids, by_text()));
        if w > 0 {
            assert(!by_text()(component.ids[w], component.ids[0]));
            text_order(component.ids[w], component.ids[0]);
        }
    }
    a
}

proof fn lemma_comes_before(
    s: Seq<StrategyRecordModel>,
    i: int,
    g: int,
    c: int,
    j: int,
    h: int,
    d: int,
)
    requires
        ids_differ(s),
        0 <= g < shard_groups(s).len(),
        0 <= h < shard_groups(s).len(),
        0 <= c < shard_groups(s)[g].len(),
        0 <= d < shard_groups(s)[h].len(),
        g < h || g == h && c < d,
        shard_groups(s)[g][c].indices.contains(i),
        shard_groups(s)[h][d].indices.contains(j),
    ensures
        comes_before(s, i, j),
{
    let p = lemma_group_root(s, g, c);
    let q = lemma_group_root(s, h, d);
    let at = lemma_component_places(s, g, c, h, d);
    let u = shard_groups(s)[g][c];
    let v = shard_groups(s)[h][d];
    let a = lemma_least_id(s, u, p, at.0);
    let b = lemma_least_id(s, v, q, at.1);
    lemma_component_members(s, p, i);
    lemma_component_members(s, q, j);
    linked_symmetric(s, p, i);
    linked_symmetric(s, q, j);
    linked_transitive(s, i, p, a);
    lemma_linked_bounds(s, p, a);
    lemma_linked_bounds(s, q, b);
    components_are_in_order(s);
    assert(!by_ids()(components_model(s)[at.1], components_model(s)[at.0]));
    assert(!list_lt(v.ids, u.ids));
    if a == b {
        linked_symmetric(s, q, b);
        linked_transitive(s, p, a, q);
        lemma_same_component(s, p, q);
        crate::config::plan_laws::lemma_no_component_twice(s);
        assert(components_model(s)[at.0] == components_model(s)[at.1]);
    }
    assert(s[a].config.id != s[b].config.id);
    text_order(u.ids[0], v.ids[0]);
    assert(text_lt(u.ids[0], v.ids[0]));
    assert forall|e: int| #[trigger] linked(s, j, e) implies text_lt(
        s[a].config.id,
        s[e].config.id,
    ) by {
        linked_transitive(s, q, j, e);
        if s[e].config.id != v.ids[0] {
            text_order_transitive(u.ids[0], v.ids[0], s[e].config.id);
        }
    }
    assert(linked(s, i, a));
}

/// Components go into the shards in the order of their least ids.
pub proof fn components_are_placed_in_order(
    s: Seq<StrategyRecordModel>,
    i: int,
    g: int,
    j: int,
    h: int,
)
    requires
        ids_differ(s),
        runs_in(s, i, g),
        runs_in(s, j, h),
        g < h,
    ensures
        comes_before(s, i, j),
{
    let c = lemma_runs_in_component(s, i, g);
    let d = lemma_runs_in_component(s, j, h);
    lemma_comes_before(s, i, g, c, j, h, d);
}

/// A shard watches exactly the markets that its strategies trade: those on Binance first, then those on
/// Bybit, and on one exchange by ascending symbol.
pub proof fn shards_watch_what_they_trade(s: Seq<StrategyRecordModel>, generated_at_ms: u64, g: int)
    requires
        0 <= g < plan_model(s, generated_at_ms).shards.len(),
    ensures
        ({
            let watched = plan_model(s, generated_at_ms).shards[g].subscribed_markets;
            &&& forall|m: MarketKeyModel| #[trigger]
                watched.contains(m) <==> exists|i: int| #[trigger]
                    runs_in(s, i, g) && trades(s[i], m)
            &&& forall|x: int, y: int|
                0 <= x < y < watched.len() ==> {
                    let a = #[trigger] watched[x];
                    let b = #[trigger] watched[y];
                    if a.exchange == b.exchange {
                        text_lt(a.symbol, b.symbol)
                    } else {
                        a.exchange is BinanceUsdM && b.exchange is BybitLinear
                    }
                }
        }),
{
    lemma_shard_count(s, generated_at_ms);
    plan_shards(s, generated_at_ms, g);
    let watched = plan_model(s, generated_at_ms).shards[g].subscribed_markets;
    market_set_is_the_set(markets_of(s, shard_members(s, shard_groups(s)[g])));
    assert forall|m: MarketKeyModel| #[trigger] watched.contains(m) <==> exists|i: int| #[trigger]
        runs_in(s, i, g) && trades(s[i], m) by {
        shard_watches_its_markets(s, generated_at_ms, g, m);
        if watched.contains(m) {
            let i = choose|i: int| #[trigger]
                runs_in(s, i, g) && s[i].config.markets().contains(m);
            lemma_trades(s[i], m);
        }
        if exists|i: int| #[trigger] runs_in(s, i, g) && trades(s[i], m) {
            let i = choose|i: int| #[trigger] runs_in(s, i, g) && trades(s[i], m);
            lemma_trades(s[i], m);
        }
    }
    assert forall|x: int, y: int| 0 <= x < y < watched.len() implies ({
        let a = #[trigger] watched[x];
        let b = #[trigger] watched[y];
        if a.exchange == b.exchange {
            text_lt(a.symbol, b.symbol)
        } else {
            a.exchange is BinanceUsdM && b.exchange is BybitLinear
        }
    }) by {
        assert(market_lt(watched[x], watched[y]));
    }
}

/// A plan counts its strategies, and the markets that any of them trades, each once.
pub proof fn plans_count_strategies_and_markets(
    s: Seq<StrategyRecordModel>,
    generated_at_ms: u64,
) -> (all: Seq<MarketKeyModel>)
    ensures
        plan_model(s, generated_at_ms).generated_at_ms == generated_at_ms,
        plan_model(s, generated_at_ms).total_enabled_strategies == s.len() as usize,
        plan_model(s, generated_at_ms).total_unique_markets == all.len() as usize,
        all.no_duplicates(),
        forall|m: MarketKeyModel| #[trigger]
            all.contains(m) <==> exists|i: int| 0 <= i < s.len() && trades(#[trigger] s[i], m),
{
    let every = every_index(s);
    let all = market_set(markets_of(s, every));
    market_set_is_the_set(markets_of(s, every));
    lemma_numbers_below(s.len(), |i: int| true);
    assert forall|m: MarketKeyModel| #[trigger] all.contains(m) <==> exists|i: int|
        0 <= i < s.len() && trades(#[trigger] s[i], m) by {
        assert(all.contains(m) <==> markets_of(s, every).contains(m));
        lemma_markets_of_contains(s, every, m);
        if all.contains(m) {
            let k = choose|k: int|
                0 <= k < every.len() && s[#[trigger] every[k]].config.markets().contains(m);
            assert(every.contains(every[k]));
            lemma_trades(s[every[k]], m);
        }
        if exists|i: int| 0 <= i < s.len() && trades(#[trigger] s[i], m) {
            let i = choose|i: int| 0 <= i < s.len() && trades(#[trigger] s[i], m);
            lemma_trades(s[i], m);
            assert(every.contains(i));
            let k = choose|k: int| 0 <= k < every.len() && every[k] == i;
            assert(s[every[k]].config.markets().contains(m));
        }
    }
    all
}

/// Shards and connections are named by their places, counted from one.
pub proof fn parts_are_named(s: Seq<StrategyRecordModel>, generated_at_ms: u64, k: int)
    requires
        0 <= k,
    ensures
        ({
            let plan = plan_model(s, generated_at_ms);
            &&& k < plan.shards.len() ==> plan.shards[k].shard_id == "shard-"@ + numeral_padded(
                (k + 1) as nat,
            )
            &&& k < plan.connections.len() ==> plan.connections[k].connection_id == "conn-"@
                + numeral_padded((k + 1) as nat)
        }),
{
    parts_are_numbered(s, generated_at_ms);
    if k < plan_model(s, generated_at_ms).shards.len() {
        assert(plan_model(s, generated_at_ms).shards[k].shard_id == shard_name((k + 1) as nat));
    }
    if k < plan_model(s, generated_at_ms).connections.len() {
        let connection = plan_model(s, generated_at_ms).connections[k];
        assert(connection.connection_id == "conn-"@ + numeral_padded((k + 1) as nat));
    }
}

/// A plan is written as a line that counts strategies, shards, connections and markets, and then a line
/// for each shard and one for each connection, in their order; without shards, a line says that nothing
/// is loaded.
pub proof fn plans_are_written_line_by_line(plan: RuntimePlanModel, k: int)
    ensures
        plan_lines(plan)[0] == "runtime plan: "@ + numeral(plan.total_enabled_strategies as nat)
            + " enabled strategies, "@ + numeral(plan.shards.len()) + " shards, "@ + numeral(
            plan.connections.len(),
        ) + " connections, "@ + numeral(plan.total_unique_markets as nat) + " unique markets"@,
        plan.shards.len() == 0 ==> plan_lines(plan).len() == 2 && plan_lines(plan)[1]
            == "  no enabled strategy loaded"@,
        plan.shards.len() > 0 ==> plan_lines(plan).len() == 1 + plan.shards.len()
            + plan.connections.len(),
        0 <= k < plan.shards.len() ==> plan_lines(plan)[1 + k] == "  "@ + plan.shards[k].shard_id
            + " strategies=["@ + joined(plan.shards[k].strategy_ids, ", "@) + "] connections=["@
            + joined(plan.shards[k].connection_ids, ", "@) + "] markets=["@ + joined(
            Seq::new(
                plan.shards[k].subscribed_markets.len(),
                |i: int| plan.shards[k].subscribed_markets[i].label(),
            ),
            ", "@,
        ) + "]"@,
        plan.shards.len() > 0 && 0 <= k < plan.connections.len() ==> plan_lines(plan)[1
            + plan.shards.len() + k] == "    "@ + plan.connections[k].connection_id + " -> "@
            + plan.connections[k].shard_id + " exchange="@
            + plan.connections[k].exchange.label_model() + " depth_mode="@
            + plan.connections[k].depth_mode.label_model() + " symbols=["@ + joined(
            plan.connections[k].symbols,
            ", "@,
        ) + "]"@,
{
    if 0 <= k < plan.shards.len() {
        let watched = plan.shards[k].subscribed_markets;
        assert(watched.map_values(|m: MarketKeyModel| m.label()) =~= Seq::new(
            watched.len(),
            |i: int| watched[i].label(),
        ));
    }
}

} // verus!
