//! What holds of every runtime plan.

use vstd::prelude::*;

use crate::config::model::{Exchange, MarketKeyModel, StrategyRecordModel};
use crate::config::planner::{
    by_ids, by_text, chunks, component_of, components_below, components_model, exchange_connections,
    flat, group_size, ids_of, is_root, lemma_linked_bounds, lemma_numbers_below, linked,
    linked_reflexive, linked_symmetric, linked_transitive, markets_of, members, on_exchange, packed,
    plan_model, plan_parts, roots_below, shard_connections, shard_members, shard_name, share_market,
    sharing_links, ComponentModel, PlanParts, MAX_MARKETS_PER_SHARD,
};
use crate::order::{
    in_order, lemma_sorted_contains, lemma_sorted_length, list_order, list_order_transitive,
    market_set, market_set_is_the_set, orders, sorting_sorts,
};
use crate::text::{numeral_padded, padded_numerals_tell_apart, text_order, text_order_transitive};

verus! {

/// The components of each shard of the plan for `s`.
pub open spec fn shard_groups(s: Seq<StrategyRecordModel>) -> Seq<Seq<ComponentModel>> {
    packed(s, components_model(s))
}

/// Whether strategy `i` runs in shard `g` of the plan for `s`.
pub open spec fn runs_in(s: Seq<StrategyRecordModel>, i: int, g: int) -> bool {
    0 <= g < shard_groups(s).len() && shard_members(s, shard_groups(s)[g]).contains(i)
}

pub(crate) proof fn lemma_flat_contains(group: Seq<ComponentModel>, i: int)
    ensures
        flat(group).contains(i) <==> exists|c: int|
            0 <= c < group.len() && (#[trigger] group[c]).indices.contains(i),
    decreases group.len(),
{
    if group.len() > 0 {
        let front = group.drop_last();
        lemma_flat_contains(front, i);
        let all = flat(group);
        if all.contains(i) {
            let k = choose|k: int| 0 <= k < all.len() && all[k] == i;
            if k < flat(front).len() {
                assert(flat(front)[k] == i);
                assert(flat(front).contains(i));
                let c = choose|c: int|
                    0 <= c < front.len() && (#[trigger] front[c]).indices.contains(i);
                assert(group[c].indices.contains(i));
            } else {
                assert(group.last().indices[k - flat(front).len()] == i);
                assert(group[group.len() - 1].indices.contains(i));
            }
        }
        if exists|c: int| 0 <= c < group.len() && (#[trigger] group[c]).indices.contains(i) {
            let c = choose|c: int| 0 <= c < group.len() && (#[trigger] group[c]).indices.contains(i);
            if c < group.len() - 1 {
                assert(front[c].indices.contains(i));
                assert(flat(front).contains(i));
                let k = choose|k: int| 0 <= k < flat(front).len() && flat(front)[k] == i;
                assert(all[k] == i);
            } else {
                let k = choose|k: int|
                    0 <= k < group.last().indices.len() && group.last().indices[k] == i;
                assert(all[flat(front).len() + k] == i);
            }
        }
    }
}

pub(crate) proof fn lemma_runs_in(s: Seq<StrategyRecordModel>, i: int, g: int)
    requires
        0 <= g < shard_groups(s).len(),
    ensures
        runs_in(s, i, g) <==> 0 <= i < s.len() && exists|c: int|
            0 <= c < shard_groups(s)[g].len() && (
            #[trigger] shard_groups(s)[g][c]).indices.contains(i),
{
    let group = shard_groups(s)[g];
    lemma_numbers_below(s.len(), |i: int| flat(group).contains(i));
    lemma_flat_contains(group, i);
}

pub(crate) proof fn lemma_component_members(s: Seq<StrategyRecordModel>, root: int, i: int)
    ensures
        component_of(s, root).indices.contains(i) <==> linked(s, root, i),
{
    lemma_numbers_below(s.len(), |j: int| linked(s, root, j));
    if linked(s, root, i) {
        lemma_linked_bounds(s, root, i);
    }
}

pub(crate) proof fn lemma_component_has_root(s: Seq<StrategyRecordModel>, component: ComponentModel)
    requires
        components_model(s).contains(component),
    ensures
        exists|root: int|
            0 <= root < s.len() && is_root(s, root) && component == #[trigger] component_of(s, root),
{
    lemma_sorted_contains(components_below(s, s.len()), by_ids(), component);
    let plain = components_below(s, s.len());
    let d = choose|d: int| 0 <= d < plain.len() && plain[d] == component;
    let root = roots_below(s, s.len())[d];
    lemma_numbers_below(s.len(), |i: int| is_root(s, i));
    assert(roots_below(s, s.len()).contains(root));
    assert(component == component_of(s, root));
}

/// The groups one after the other.
spec fn ungrouped(groups: Seq<Seq<ComponentModel>>) -> Seq<ComponentModel>
    decreases groups.len(),
{
    if groups.len() == 0 {
        Seq::empty()
    } else {
        ungrouped(groups.drop_last()) + groups.last()
    }
}

proof fn lemma_packed_concat(s: Seq<StrategyRecordModel>, components: Seq<ComponentModel>)
    ensures
        ungrouped(packed(s, components)) == components,
        forall|g: int| 0 <= g < packed(s, components).len() ==> (#[trigger] packed(s, components)[g]).len() > 0,
        forall|g: int|
            0 <= g < packed(s, components).len() ==> (#[trigger] packed(s, components)[g]).len()
                == 1 || group_size(s, packed(s, components)[g]) <= MAX_MARKETS_PER_SHARD,
    decreases components.len(),
{
    if components.len() > 0 {
        let front = components.drop_last();
        let next = components.last();
        lemma_packed_concat(s, front);
        let groups = packed(s, front);
        let now = packed(s, components);
        assert(front.push(next) =~= components);
        if groups.len() == 0 || group_size(s, groups.last().push(next)) > MAX_MARKETS_PER_SHARD {
            assert(now.drop_last() =~= groups);
            assert(ungrouped(now) =~= front + seq![next]);
        } else {
            assert(now.drop_last() =~= groups.drop_last());
            assert(ungrouped(now) =~= ungrouped(groups).push(next));
        }
        assert(ungrouped(now) =~= components);
        assert forall|g: int| 0 <= g < now.len() implies (#[trigger] now[g]).len() > 0 && (
        now[g].len() == 1 || group_size(s, now[g]) <= MAX_MARKETS_PER_SHARD) by {
            if g < groups.len() {
                assert(groups[g].len() > 0);
            }
        }
    }
}

proof fn lemma_ungrouped_at(groups: Seq<Seq<ComponentModel>>, g: int, c: int) -> (at: int)
    requires
        0 <= g < groups.len(),
        0 <= c < groups[g].len(),
    ensures
        0 <= at < ungrouped(groups).len(),
        ungrouped(groups)[at] == groups[g][c],
        at == ungrouped(groups.take(g)).len() + c,
    decreases groups.len(),
{
    let front = groups.drop_last();
    if g == groups.len() - 1 {
        assert(groups.take(g) =~= front);
        ungrouped(front).len() as int + c
    } else {
        let at = lemma_ungrouped_at(front, g, c);
        assert(front.take(g) =~= groups.take(g));
        at
    }
}

proof fn lemma_ungrouped_prefix(groups: Seq<Seq<ComponentModel>>, g: int, h: int)
    requires
        0 <= g < h <= groups.len(),
    ensures
        ungrouped(groups.take(g)).len() + groups[g].len() <= ungrouped(groups.take(h)).len(),
    decreases h - g,
{
    if h == g + 1 {
        assert(groups.take(h).drop_last() =~= groups.take(g));
        assert(groups.take(h).last() == groups[g]);
    } else {
        lemma_ungrouped_prefix(groups, g, h - 1);
        assert(groups.take(h).drop_last() =~= groups.take(h - 1));
    }
}

pub(crate) proof fn lemma_no_component_twice(s: Seq<StrategyRecordModel>)
    ensures
        components_model(s).no_duplicates(),
{
    let plain = components_below(s, s.len());
    let roots = roots_below(s, s.len());
    lemma_numbers_below(s.len(), |i: int| is_root(s, i));
    assert forall|a: int, b: int|
        0 <= a < plain.len() && 0 <= b < plain.len() && a != b implies plain[a] != plain[b] by {
        let (low, high) = if a < b {
            (a, b)
        } else {
            (b, a)
        };
        assert(roots[low] < roots[high]);
        assert(roots.contains(roots[low]) && roots.contains(roots[high]));
        linked_reflexive(s, roots[high]);
        lemma_component_members(s, roots[high], roots[high]);
        lemma_component_members(s, roots[low], roots[high]);
        assert(is_root(s, roots[high]));
        assert(!linked(s, roots[low], roots[high]));
    }
    lemma_sorted_length(plain, by_ids());
    plain.lemma_multiset_has_no_duplicates();
    components_model(s).lemma_multiset_has_no_duplicates_conv();
}

pub(crate) proof fn lemma_first_linked(s: Seq<StrategyRecordModel>, i: int, below: int) -> (root: int)
    requires
        0 <= below < s.len(),
        linked(s, below, i),
    ensures
        0 <= root <= below,
        linked(s, root, i),
        is_root(s, root),
    decreases below,
{
    if is_root(s, below) {
        below
    } else {
        let j = choose|j: int| 0 <= j < below && linked(s, j, below);
        linked_transitive(s, j, below, i);
        lemma_first_linked(s, i, j)
    }
}

/// Components are packed in the order of their identifiers, and each lists its own in order.
pub proof fn components_are_in_order(s: Seq<StrategyRecordModel>)
    ensures
        in_order(components_model(s), by_ids()),
        forall|g: int|
            0 <= g < components_model(s).len() ==> in_order(
                (#[trigger] components_model(s)[g]).ids,
                by_text(),
            ),
{
    let before = by_ids();
    assert forall|a: ComponentModel, b: ComponentModel| #[trigger] before(a, b) implies !before(b, a) by {
        list_order(a.ids, b.ids);
    }
    assert forall|a: ComponentModel, b: ComponentModel, c: ComponentModel|
        !(#[trigger] before(b, a)) && !(#[trigger] before(c, b)) implies !before(c, a) by {
        list_order(a.ids, b.ids);
        list_order(b.ids, c.ids);
        if before(c, a) && a.ids != b.ids {
            list_order_transitive(c.ids, a.ids, b.ids);
        }
    }
    let unsorted = components_below(s, s.len());
    sorting_sorts(unsorted, before);
    assert(orders(by_text())) by {
        let less = by_text();
        assert forall|a: Seq<char>, b: Seq<char>| #[trigger] less(a, b) implies !less(b, a) by {
            text_order(a, b);
        }
        assert forall|a: Seq<char>, b: Seq<char>, c: Seq<char>|
            !(#[trigger] less(b, a)) && !(#[trigger] less(c, b)) implies !less(c, a) by {
            text_order(a, b);
            text_order(b, c);
            if less(c, a) && b != a {
                text_order_transitive(c, a, b);
            }
        }
    }
    let components = components_model(s);
    assert forall|g: int| 0 <= g < components.len() implies in_order(
        (#[trigger] components[g]).ids,
        by_text(),
    ) by {
        lemma_sorted_contains(unsorted, before, components[g]);
        assert(components.contains(components[g]));
        let k = choose|k: int| 0 <= k < unsorted.len() && unsorted[k] == components[g];
        let i = roots_below(s, s.len())[k];
        assert(unsorted[k] == component_of(s, i));
        sorting_sorts(ids_of(s, members(s, i)), by_text());
    }
}

pub(crate) proof fn lemma_root_is_listed(s: Seq<StrategyRecordModel>, root: int)
    requires
        0 <= root < s.len(),
        is_root(s, root),
    ensures
        components_model(s).contains(component_of(s, root)),
{
    let plain = components_below(s, s.len());
    let roots = roots_below(s, s.len());
    lemma_numbers_below(s.len(), |i: int| is_root(s, i));
    assert(roots.contains(root));
    let d = choose|d: int| 0 <= d < roots.len() && roots[d] == root;
    assert(plain[d] == component_of(s, root));
    lemma_sorted_contains(plain, by_ids(), component_of(s, root));
}

/// Every strategy runs in a shard.
pub proof fn every_strategy_runs(s: Seq<StrategyRecordModel>, i: int)
    requires
        0 <= i < s.len(),
    ensures
        exists|g: int| runs_in(s, i, g),
{
    linked_reflexive(s, i);
    let root = lemma_first_linked(s, i, i);
    let component = component_of(s, root);
    lemma_component_members(s, root, i);
    lemma_root_is_listed(s, root);
    lemma_packed_concat(s, components_model(s));
    lemma_in_some_group(shard_groups(s), component);
    let (g, c) = choose|g: int, c: int|
        0 <= g < shard_groups(s).len() && 0 <= c < shard_groups(s)[g].len()
            && #[trigger] shard_groups(s)[g][c] == component;
    assert(shard_groups(s)[g][c].indices.contains(i));
    lemma_runs_in(s, i, g);
    assert(runs_in(s, i, g));
}

proof fn lemma_in_some_group(groups: Seq<Seq<ComponentModel>>, component: ComponentModel)
    requires
        ungrouped(groups).contains(component),
    ensures
        exists|g: int, c: int|
            0 <= g < groups.len() && 0 <= c < groups[g].len() && #[trigger] groups[g][c]
                == component,
    decreases groups.len(),
{
    let all = ungrouped(groups);
    let k = choose|k: int| 0 <= k < all.len() && all[k] == component;
    if groups.len() > 0 {
        let front = groups.drop_last();
        if k < ungrouped(front).len() {
            assert(ungrouped(front)[k] == component);
            lemma_in_some_group(front, component);
            let (g, c) = choose|g: int, c: int|
                0 <= g < front.len() && 0 <= c < front[g].len() && #[trigger] front[g][c]
                    == component;
            assert(groups[g][c] == component);
        } else {
            assert(groups[groups.len() - 1][k - ungrouped(front).len()] == component);
        }
    }
}

/// No strategy runs in two shards.
pub proof fn no_strategy_runs_twice(s: Seq<StrategyRecordModel>, i: int, g: int, h: int)
    requires
        runs_in(s, i, g),
        runs_in(s, i, h),
    ensures
        g == h,
{
    let groups = shard_groups(s);
    lemma_runs_in(s, i, g);
    lemma_runs_in(s, i, h);
    let c = choose|c: int| 0 <= c < groups[g].len() && (#[trigger] groups[g][c]).indices.contains(i);
    let d = choose|d: int| 0 <= d < groups[h].len() && (#[trigger] groups[h][d]).indices.contains(i);
    lemma_packed_concat(s, components_model(s));
    let at = lemma_ungrouped_at(groups, g, c);
    let bt = lemma_ungrouped_at(groups, h, d);
    let all = components_model(s);
    lemma_component_has_root(s, all[at]);
    lemma_component_has_root(s, all[bt]);
    let p = choose|root: int|
        0 <= root < s.len() && is_root(s, root) && all[at] == #[trigger] component_of(s, root);
    let q = choose|root: int|
        0 <= root < s.len() && is_root(s, root) && all[bt] == #[trigger] component_of(s, root);
    lemma_component_members(s, p, i);
    lemma_component_members(s, q, i);
    linked_symmetric(s, q, i);
    linked_symmetric(s, p, i);
    linked_transitive(s, p, i, q);
    linked_transitive(s, q, i, p);
    assert(p == q);
    lemma_no_component_twice(s);
    assert(at == bt);
    if g < h {
        lemma_ungrouped_prefix(groups, g, h);
    } else if h < g {
        lemma_ungrouped_prefix(groups, h, g);
    }
}

/// Strategies that trade a market in common run in the same shard.
pub proof fn sharing_strategies_run_together(s: Seq<StrategyRecordModel>, i: int, j: int, g: int)
    requires
        0 <= j < s.len(),
        runs_in(s, i, g),
        share_market(s, i, j),
    ensures
        runs_in(s, j, g),
{
    let groups = shard_groups(s);
    lemma_runs_in(s, i, g);
    lemma_runs_in(s, j, g);
    let c = choose|c: int| 0 <= c < groups[g].len() && (#[trigger] groups[g][c]).indices.contains(i);
    lemma_packed_concat(s, components_model(s));
    let at = lemma_ungrouped_at(groups, g, c);
    lemma_component_has_root(s, components_model(s)[at]);
    let p = choose|root: int|
        0 <= root < s.len() && is_root(s, root) && components_model(s)[at]
            == #[trigger] component_of(s, root);
    lemma_component_members(s, p, i);
    sharing_links(s, i, j);
    linked_transitive(s, p, i, j);
    lemma_component_members(s, p, j);
    assert(groups[g][c].indices.contains(j));
}

/// The shards of a plan are those of the packing, in order: each runs its strategies in ascending
/// order and watches their markets.
pub proof fn plan_shards(s: Seq<StrategyRecordModel>, generated_at_ms: u64, g: int)
    requires
        0 <= g < shard_groups(s).len(),
    ensures
        plan_model(s, generated_at_ms).shards.len() == shard_groups(s).len(),
        ({
            let shard = plan_model(s, generated_at_ms).shards[g];
            let indices = shard_members(s, shard_groups(s)[g]);
            &&& shard.strategy_ids == ids_of(s, indices)
            &&& shard.subscribed_markets == market_set(markets_of(s, indices))
            &&& shard.component_count == shard_groups(s)[g].len() as usize
        }),
{
    lemma_parts_shards(s, shard_groups(s), g);
}

proof fn lemma_parts_shards(
    s: Seq<StrategyRecordModel>,
    groups: Seq<Seq<ComponentModel>>,
    g: int,
)
    requires
        0 <= g < groups.len(),
    ensures
        plan_parts(s, groups).shards.len() == groups.len(),
        ({
            let shard = plan_parts(s, groups).shards[g];
            let indices = shard_members(s, groups[g]);
            &&& shard.strategy_ids == ids_of(s, indices)
            &&& shard.subscribed_markets == market_set(markets_of(s, indices))
            &&& shard.component_count == groups[g].len() as usize
        }),
    decreases groups.len(),
{
    lemma_parts_length(s, groups);
    lemma_parts_length(s, groups.drop_last());
    if g < groups.len() - 1 {
        lemma_parts_shards(s, groups.drop_last(), g);
    }
}

pub(crate) proof fn lemma_parts_length(s: Seq<StrategyRecordModel>, groups: Seq<Seq<ComponentModel>>)
    ensures
        plan_parts(s, groups).shards.len() == groups.len(),
    decreases groups.len(),
{
    if groups.len() > 0 {
        lemma_parts_length(s, groups.drop_last());
    }
}

pub(crate) proof fn lemma_markets_of_contains(s: Seq<StrategyRecordModel>, indices: Seq<int>, m: MarketKeyModel)
    ensures
        markets_of(s, indices).contains(m) <==> exists|k: int|
            0 <= k < indices.len() && s[#[trigger] indices[k]].config.markets().contains(m),
    decreases indices.len(),
{
    let all = markets_of(s, indices);
    if indices.len() > 0 {
        let front = indices.drop_last();
        let tail = s[indices.last()].config.markets();
        lemma_markets_of_contains(s, front, m);
        if all.contains(m) {
            let k = choose|k: int| 0 <= k < all.len() && all[k] == m;
            if k < markets_of(s, front).len() {
                assert(markets_of(s, front)[k] == m);
                assert(markets_of(s, front).contains(m));
                let x = choose|x: int|
                    0 <= x < front.len() && s[#[trigger] front[x]].config.markets().contains(m);
                assert(s[indices[x]].config.markets().contains(m));
            } else {
                assert(tail[k - markets_of(s, front).len()] == m);
                assert(s[indices[indices.len() - 1]].config.markets().contains(m));
            }
        }
        if exists|k: int|
            0 <= k < indices.len() && s[#[trigger] indices[k]].config.markets().contains(m) {
            let k = choose|k: int|
                0 <= k < indices.len() && s[#[trigger] indices[k]].config.markets().contains(m);
            if k < front.len() {
                assert(s[front[k]].config.markets().contains(m));
                assert(markets_of(s, front).contains(m));
                let x = choose|x: int|
                    0 <= x < markets_of(s, front).len() && markets_of(s, front)[x] == m;
                assert(all[x] == m);
            } else {
                let x = choose|x: int| 0 <= x < tail.len() && tail[x] == m;
                assert(all[markets_of(s, front).len() + x] == m);
            }
        }
    }
}

/// A shard watches exactly the markets of the strategies that run in it.
pub proof fn shard_watches_its_markets(
    s: Seq<StrategyRecordModel>,
    generated_at_ms: u64,
    g: int,
    m: MarketKeyModel,
)
    requires
        0 <= g < shard_groups(s).len(),
    ensures
        plan_model(s, generated_at_ms).shards[g].subscribed_markets.contains(m) <==> exists|i: int|
            #[trigger] runs_in(s, i, g) && s[i].config.markets().contains(m),
{
    plan_shards(s, generated_at_ms, g);
    let indices = shard_members(s, shard_groups(s)[g]);
    market_set_is_the_set(markets_of(s, indices));
    lemma_markets_of_contains(s, indices, m);
    let watched = plan_model(s, generated_at_ms).shards[g].subscribed_markets;
    assert(watched.contains(m) <==> markets_of(s, indices).contains(m));
    if watched.contains(m) {
        let k = choose|k: int|
            0 <= k < indices.len() && s[#[trigger] indices[k]].config.markets().contains(m);
        assert(indices.contains(indices[k]));
        assert(runs_in(s, indices[k], g));
    }
    if exists|i: int| #[trigger] runs_in(s, i, g) && s[i].config.markets().contains(m) {
        let i = choose|i: int| #[trigger] runs_in(s, i, g) && s[i].config.markets().contains(m);
        let k = choose|k: int| 0 <= k < indices.len() && indices[k] == i;
        assert(s[indices[k]].config.markets().contains(m));
    }
}

/// No market is watched by two shards.
pub proof fn no_market_is_watched_twice(
    s: Seq<StrategyRecordModel>,
    generated_at_ms: u64,
    g: int,
    h: int,
    m: MarketKeyModel,
)
    requires
        0 <= g < plan_model(s, generated_at_ms).shards.len(),
        0 <= h < plan_model(s, generated_at_ms).shards.len(),
        plan_model(s, generated_at_ms).shards[g].subscribed_markets.contains(m),
        plan_model(s, generated_at_ms).shards[h].subscribed_markets.contains(m),
    ensures
        g == h,
{
    lemma_parts_length(s, shard_groups(s));
    shard_watches_its_markets(s, generated_at_ms, g, m);
    shard_watches_its_markets(s, generated_at_ms, h, m);
    let i = choose|i: int| #[trigger] runs_in(s, i, g) && s[i].config.markets().contains(m);
    let j = choose|j: int| #[trigger] runs_in(s, j, h) && s[j].config.markets().contains(m);
    lemma_runs_in(s, i, g);
    lemma_runs_in(s, j, h);
    assert(share_market(s, i, j));
    sharing_strategies_run_together(s, i, j, g);
    no_strategy_runs_twice(s, j, g, h);
}

/// A shard of more than one component watches at most as many markets as a shard may.
pub proof fn shards_stay_within_the_limit(
    s: Seq<StrategyRecordModel>,
    generated_at_ms: u64,
    g: int,
)
    requires
        0 <= g < shard_groups(s).len(),
    ensures
        shard_groups(s)[g].len() == 1 || plan_model(
            s,
            generated_at_ms,
        ).shards[g].subscribed_markets.len() <= MAX_MARKETS_PER_SHARD,
{
    lemma_packed_concat(s, components_model(s));
    plan_shards(s, generated_at_ms, g);
    let group = shard_groups(s)[g];
    let indices = shard_members(s, group);
    let a = markets_of(s, indices);
    let b = markets_of(s, flat(group));
    market_set_is_the_set(a);
    market_set_is_the_set(b);
    lemma_numbers_below(s.len(), |i: int| flat(group).contains(i));
    if group.len() != 1 {
        assert forall|m: MarketKeyModel| a.to_set().contains(m) implies b.to_set().contains(m) by {
            lemma_markets_of_contains(s, indices, m);
            lemma_markets_of_contains(s, flat(group), m);
            assert(a.contains(m));
            let k = choose|k: int|
                0 <= k < indices.len() && s[#[trigger] indices[k]].config.markets().contains(m);
            assert(indices.contains(indices[k]));
            let x = choose|x: int| 0 <= x < flat(group).len() && flat(group)[x] == indices[k];
            assert(s[flat(group)[x]].config.markets().contains(m));
        }
        vstd::set_lib::lemma_len_subset(a.to_set(), b.to_set());
    }
}

proof fn lemma_chunks(markets: Seq<MarketKeyModel>, size: nat)
    requires
        size > 0,
    ensures
        forall|k: int| 0 <= k < chunks(markets, size).len() ==> 0 < (#[trigger] chunks(markets, size)[k]).len() <= size,
        forall|m: MarketKeyModel| #[trigger]
            markets.contains(m) <==> exists|k: int|
                0 <= k < chunks(markets, size).len() && (#[trigger] chunks(markets, size)[k]).contains(m),
        markets.no_duplicates() ==> forall|k: int, l: int, m: MarketKeyModel|
            0 <= k < chunks(markets, size).len() && 0 <= l < chunks(markets, size).len()
                && #[trigger] chunks(markets, size)[k].contains(m) && #[trigger] chunks(
                markets,
                size,
            )[l].contains(m) ==> k == l,
    decreases markets.len(),
{
    let pieces = chunks(markets, size);
    if markets.len() == 0 {
    } else if markets.len() <= size {
        assert(pieces[0] == markets);
        assert forall|m: MarketKeyModel| #[trigger] markets.contains(m) implies exists|k: int|
            0 <= k < pieces.len() && (#[trigger] pieces[k]).contains(m) by {
            assert(pieces[0].contains(m));
        }
    } else {
        let head = markets.take(size as int);
        let rest = markets.skip(size as int);
        lemma_chunks(rest, size);
        let tail = chunks(rest, size);
        assert(pieces[0] == head);
        assert forall|k: int| 0 <= k < pieces.len() implies 0 < (#[trigger] pieces[k]).len()
            <= size by {
            if k > 0 {
                assert(pieces[k] == tail[k - 1]);
            }
        }
        assert forall|m: MarketKeyModel| #[trigger] markets.contains(m) <==> exists|k: int|
            0 <= k < pieces.len() && (#[trigger] pieces[k]).contains(m) by {
            if markets.contains(m) {
                let x = choose|x: int| 0 <= x < markets.len() && markets[x] == m;
                if x < size {
                    assert(head[x] == m);
                    assert(pieces[0].contains(m));
                } else {
                    assert(rest[x - size] == m);
                    assert(rest.contains(m));
                    let k = choose|k: int| 0 <= k < tail.len() && (#[trigger] tail[k]).contains(m);
                    assert(pieces[k + 1].contains(m));
                }
            }
            if exists|k: int| 0 <= k < pieces.len() && (#[trigger] pieces[k]).contains(m) {
                let k = choose|k: int| 0 <= k < pieces.len() && (#[trigger] pieces[k]).contains(m);
                if k == 0 {
                    let x = choose|x: int| 0 <= x < head.len() && head[x] == m;
                    assert(markets[x] == m);
                } else {
                    assert(tail[k - 1].contains(m));
                    assert(rest.contains(m));
                    let x = choose|x: int| 0 <= x < rest.len() && rest[x] == m;
                    assert(markets[x + size] == m);
                }
            }
        }
        if markets.no_duplicates() {
            assert forall|x: int, y: int|
                0 <= x < rest.len() && 0 <= y < rest.len() && x != y implies rest[x] != rest[y] by {
                assert(markets[x + size] != markets[y + size]);
            }
            assert forall|k: int, l: int, m: MarketKeyModel|
                0 <= k < pieces.len() && 0 <= l < pieces.len() && #[trigger] pieces[k].contains(m)
                    && #[trigger] pieces[l].contains(m) implies k == l by {
                if k > 0 && l > 0 {
                    assert(tail[k - 1].contains(m) && tail[l - 1].contains(m));
                } else if k != l {
                    let high = if k == 0 {
                        l
                    } else {
                        k
                    };
                    assert(tail[high - 1].contains(m));
                    assert(rest.contains(m));
                    let x = choose|x: int| 0 <= x < rest.len() && rest[x] == m;
                    assert(pieces[0].contains(m));
                    let y = choose|y: int| 0 <= y < head.len() && head[y] == m;
                    assert(markets[x + size] == markets[y]);
                }
            }
        }
    }
}

pub(crate) proof fn lemma_on_exchange(markets: Seq<MarketKeyModel>, exchange: Exchange)
    ensures
        forall|m: MarketKeyModel| #[trigger]
            on_exchange(markets, exchange).contains(m) <==> markets.contains(m) && m.exchange
                == exchange,
        markets.no_duplicates() ==> on_exchange(markets, exchange).no_duplicates(),
    decreases markets.len(),
{
    if markets.len() > 0 {
        let front = markets.drop_last();
        let last = markets.last();
        lemma_on_exchange(front, exchange);
        let was = on_exchange(front, exchange);
        let now = on_exchange(markets, exchange);
        assert(front.push(last) =~= markets);
        assert forall|m: MarketKeyModel| #[trigger] now.contains(m) <==> markets.contains(m)
            && m.exchange == exchange by {
            assert(was.contains(m) <==> front.contains(m) && m.exchange == exchange);
            if front.contains(m) {
                let x = choose|x: int| 0 <= x < front.len() && front[x] == m;
                assert(markets[x] == m);
            }
            assert(markets[markets.len() - 1] == last);
            if markets.contains(m) && m != last {
                let x = choose|x: int| 0 <= x < markets.len() && markets[x] == m;
                assert(front[x] == m);
            }
            if was.contains(m) {
                let x = choose|x: int| 0 <= x < was.len() && was[x] == m;
                assert(now[x] == m);
            }
            if last.exchange == exchange {
                assert(now[was.len() as int] == last);
            }
            if now.contains(m) && !was.contains(m) {
                let x = choose|x: int| 0 <= x < now.len() && now[x] == m;
                if x < was.len() {
                    assert(was[x] == m);
                }
            }
        }
        if markets.no_duplicates() {
            assert(front.no_duplicates());
            if last.exchange == exchange {
                assert(!front.contains(last));
                assert(!was.contains(last));
                assert(now.no_duplicates());
            }
        }
    }
}

/// Among the connections of a shard every watched market is carried by exactly one.
pub proof fn one_connection_carries_each_market(
    s: Seq<StrategyRecordModel>,
    indices: Seq<int>,
    shard_id: Seq<char>,
    first: nat,
    m: MarketKeyModel,
)
    ensures
        ({
            let connections = shard_connections(s, indices, shard_id, first);
            &&& market_set(markets_of(s, indices)).contains(m) <==> exists|c: int|
                0 <= c < connections.len() && (#[trigger] connections[c]).carries(m)
            &&& forall|c: int, d: int|
                0 <= c < connections.len() && 0 <= d < connections.len() && (
                #[trigger] connections[c]).carries(m) && (#[trigger] connections[d]).carries(m)
                    ==> c == d
        }),
{
    let markets = market_set(markets_of(s, indices));
    market_set_is_the_set(markets_of(s, indices));
    let binance = exchange_connections(s, indices, shard_id, Exchange::BinanceUsdM, markets, first);
    let bybit = exchange_connections(
        s,
        indices,
        shard_id,
        Exchange::BybitLinear,
        markets,
        first + binance.len(),
    );
    let connections = shard_connections(s, indices, shard_id, first);
    lemma_exchange_connections(s, indices, shard_id, Exchange::BinanceUsdM, markets, first, m);
    lemma_exchange_connections(
        s,
        indices,
        shard_id,
        Exchange::BybitLinear,
        markets,
        first + binance.len(),
        m,
    );
    assert(connections =~= binance + bybit);
    if markets.contains(m) {
        if m.exchange == Exchange::BinanceUsdM {
            let c = choose|c: int| 0 <= c < binance.len() && (#[trigger] binance[c]).carries(m);
            assert(connections[c].carries(m));
        } else {
            let c = choose|c: int| 0 <= c < bybit.len() && (#[trigger] bybit[c]).carries(m);
            assert(connections[binance.len() + c].carries(m));
        }
    }
    if exists|c: int| 0 <= c < connections.len() && (#[trigger] connections[c]).carries(m) {
        let c = choose|c: int| 0 <= c < connections.len() && (#[trigger] connections[c]).carries(m);
        if c < binance.len() {
            assert(binance[c].carries(m));
        } else {
            assert(bybit[c - binance.len()].carries(m));
        }
    }
    assert forall|c: int, d: int|
        0 <= c < connections.len() && 0 <= d < connections.len() && (
        #[trigger] connections[c]).carries(m) && (#[trigger] connections[d]).carries(m) implies c
        == d by {
        if c < binance.len() {
            assert(binance[c].carries(m));
        } else {
            assert(bybit[c - binance.len()].carries(m));
        }
        if d < binance.len() {
            assert(binance[d].carries(m));
        } else {
            assert(bybit[d - binance.len()].carries(m));
        }
    }
}

proof fn lemma_exchange_connections(
    s: Seq<StrategyRecordModel>,
    indices: Seq<int>,
    shard_id: Seq<char>,
    exchange: Exchange,
    markets: Seq<MarketKeyModel>,
    first: nat,
    m: MarketKeyModel,
)
    requires
        markets.no_duplicates(),
    ensures
        ({
            let connections = exchange_connections(s, indices, shard_id, exchange, markets, first);
            &&& markets.contains(m) && m.exchange == exchange <==> exists|c: int|
                0 <= c < connections.len() && (#[trigger] connections[c]).carries(m)
            &&& forall|c: int, d: int|
                0 <= c < connections.len() && 0 <= d < connections.len() && (
                #[trigger] connections[c]).carries(m) && (#[trigger] connections[d]).carries(m)
                    ==> c == d
            &&& forall|c: int|
                0 <= c < connections.len() ==> (#[trigger] connections[c]).exchange == exchange && 0
                    < connections[c].symbols.len()
                    <= exchange.capabilities_model().max_symbols_per_connection
        }),
{
    let size = exchange.capabilities_model().max_symbols_per_connection as nat;
    let selected = on_exchange(markets, exchange);
    let pieces = chunks(selected, size);
    let connections = exchange_connections(s, indices, shard_id, exchange, markets, first);
    lemma_on_exchange(markets, exchange);
    lemma_chunks(selected, size);
    assert forall|c: int| 0 <= c < connections.len() implies ((#[trigger] connections[c]).carries(m)
        <==> pieces[c].contains(m)) by {
        let symbols = connections[c].symbols;
        assert(symbols == pieces[c].map_values(|m: MarketKeyModel| m.symbol));
        if pieces[c].contains(m) {
            let x = choose|x: int| 0 <= x < pieces[c].len() && pieces[c][x] == m;
            assert(symbols[x] == m.symbol);
            assert(selected.contains(m));
        }
        if connections[c].carries(m) {
            let x = choose|x: int| 0 <= x < symbols.len() && symbols[x] == m.symbol;
            let y = pieces[c][x];
            assert(pieces[c].contains(y));
            assert(selected.contains(y));
            assert(y == m);
        }
    }
    if markets.contains(m) && m.exchange == exchange {
        assert(selected.contains(m));
        let k = choose|k: int| 0 <= k < pieces.len() && (#[trigger] pieces[k]).contains(m);
        assert(connections[k].carries(m));
    }
    if exists|c: int| 0 <= c < connections.len() && (#[trigger] connections[c]).carries(m) {
        let c = choose|c: int| 0 <= c < connections.len() && (#[trigger] connections[c]).carries(m);
        assert(pieces[c].contains(m));
        assert(selected.contains(m));
    }
    assert forall|c: int| 0 <= c < connections.len() implies (#[trigger] connections[c]).exchange
        == exchange && 0 < connections[c].symbols.len()
        <= exchange.capabilities_model().max_symbols_per_connection by {
        assert(connections[c].symbols.len() == pieces[c].len());
    }
}

/// No connection of a plan carries more symbols than its exchange allows, and none is empty.
pub proof fn connections_stay_within_the_limit(
    s: Seq<StrategyRecordModel>,
    generated_at_ms: u64,
    c: int,
)
    requires
        0 <= c < plan_model(s, generated_at_ms).connections.len(),
    ensures
        ({
            let connection = plan_model(s, generated_at_ms).connections[c];
            0 < connection.symbols.len()
                <= connection.exchange.capabilities_model().max_symbols_per_connection
        }),
{
    lemma_parts_connections(s, shard_groups(s), c);
}

proof fn lemma_parts_connections(
    s: Seq<StrategyRecordModel>,
    groups: Seq<Seq<ComponentModel>>,
    c: int,
)
    requires
        0 <= c < plan_parts(s, groups).connections.len(),
    ensures
        ({
            let connection = plan_parts(s, groups).connections[c];
            0 < connection.symbols.len()
                <= connection.exchange.capabilities_model().max_symbols_per_connection
        }),
    decreases groups.len(),
{
    let before = plan_parts(s, groups.drop_last());
    if c < before.connections.len() {
        lemma_parts_connections(s, groups.drop_last(), c);
    } else {
        let indices = shard_members(s, groups.last());
        let shard_id = shard_name(before.shards.len() + 1);
        let first = before.connections.len() + 1;
        let markets = market_set(markets_of(s, indices));
        market_set_is_the_set(markets_of(s, indices));
        let binance = exchange_connections(
            s,
            indices,
            shard_id,
            Exchange::BinanceUsdM,
            markets,
            first,
        );
        let m = MarketKeyModel { exchange: Exchange::BinanceUsdM, symbol: Seq::empty() };
        lemma_exchange_connections(s, indices, shard_id, Exchange::BinanceUsdM, markets, first, m);
        lemma_exchange_connections(
            s,
            indices,
            shard_id,
            Exchange::BybitLinear,
            markets,
            first + binance.len(),
            m,
        );
    }
}

/// Whether shards and connections are numbered from one, and each connection is listed by the shard
/// that it belongs to, and by no other.
spec fn numbered(parts: PlanParts) -> bool {
    &&& forall|g: int|
        0 <= g < parts.shards.len() ==> (#[trigger] parts.shards[g]).shard_id == shard_name(
            (g + 1) as nat,
        )
    &&& forall|c: int|
        0 <= c < parts.connections.len() ==> (#[trigger] parts.connections[c]).connection_id
            == "conn-"@ + numeral_padded((c + 1) as nat)
    &&& forall|c: int| 0 <= c < parts.connections.len() ==> #[trigger] listed(parts, c)
    &&& forall|g: int, id: Seq<char>|
        0 <= g < parts.shards.len() && #[trigger] parts.shards[g].connection_ids.contains(id)
            ==> owned(parts, g, id)
}

/// Whether the shard of connection `c` lists it.
spec fn listed(parts: PlanParts, c: int) -> bool {
    exists|g: int|
        0 <= g < parts.shards.len() && (#[trigger] parts.shards[g]).shard_id
            == parts.connections[c].shard_id && parts.shards[g].connection_ids.contains(
            parts.connections[c].connection_id,
        )
}

/// Whether `id` is the id of a connection of shard `g`.
spec fn owned(parts: PlanParts, g: int, id: Seq<char>) -> bool {
    exists|c: int|
        0 <= c < parts.connections.len() && (#[trigger] parts.connections[c]).connection_id == id
            && parts.connections[c].shard_id == parts.shards[g].shard_id
}

proof fn lemma_numbered(s: Seq<StrategyRecordModel>, groups: Seq<Seq<ComponentModel>>)
    ensures
        numbered(plan_parts(s, groups)),
    decreases groups.len(),
{
    if groups.len() > 0 {
        let before = plan_parts(s, groups.drop_last());
        let after = plan_parts(s, groups);
        lemma_numbered(s, groups.drop_last());
        let indices = shard_members(s, groups.last());
        let shard_id = shard_name(before.shards.len() + 1);
        let n = before.connections.len();
        let added = shard_connections(s, indices, shard_id, n + 1);
        let last = after.shards.len() - 1;
        assert(after.shards[last].shard_id == shard_id);
        assert forall|k: int| 0 <= k < added.len() implies (#[trigger] added[k]).connection_id
            == "conn-"@ + numeral_padded((n + 1 + k) as nat) && added[k].shard_id == shard_id by {
            let markets = market_set(markets_of(s, indices));
            let binance = exchange_connections(
                s,
                indices,
                shard_id,
                Exchange::BinanceUsdM,
                markets,
                n + 1,
            );
            if k >= binance.len() {
                assert((n + 1 + binance.len()) + (k - binance.len()) == n + 1 + k);
            }
        }
        assert forall|g: int| 0 <= g < after.shards.len() implies (
        #[trigger] after.shards[g]).shard_id == shard_name((g + 1) as nat) by {
            if g < before.shards.len() {
                assert(after.shards[g] == before.shards[g]);
            }
        }
        assert forall|c: int| 0 <= c < after.connections.len() implies (
        #[trigger] after.connections[c]).connection_id == "conn-"@ + numeral_padded(
            (c + 1) as nat,
        ) by {
            if c < n {
                assert(after.connections[c] == before.connections[c]);
            } else {
                assert(after.connections[c] == added[c - n]);
            }
        }
        assert forall|c: int| 0 <= c < after.connections.len() implies #[trigger] listed(
            after,
            c,
        ) by {
            if c < n {
                assert(after.connections[c] == before.connections[c]);
                assert(listed(before, c));
                let g = choose|g: int|
                    0 <= g < before.shards.len() && (#[trigger] before.shards[g]).shard_id
                        == before.connections[c].shard_id
                        && before.shards[g].connection_ids.contains(
                        before.connections[c].connection_id,
                    );
                assert(after.shards[g] == before.shards[g]);
            } else {
                let k = c - n;
                assert(after.connections[c] == added[k]);
                assert(after.shards[last].connection_ids[k] == added[k].connection_id);
            }
        }
        assert forall|g: int, id: Seq<char>|
            0 <= g < after.shards.len()
                && #[trigger] after.shards[g].connection_ids.contains(id) implies owned(
            after,
            g,
            id,
        ) by {
            if g < before.shards.len() {
                assert(after.shards[g] == before.shards[g]);
                assert(before.shards[g].connection_ids.contains(id));
                assert(owned(before, g, id));
                let c = choose|c: int|
                    0 <= c < before.connections.len() && (
                    #[trigger] before.connections[c]).connection_id == id
                        && before.connections[c].shard_id == before.shards[g].shard_id;
                assert(after.connections[c] == before.connections[c]);
            } else {
                let ids = after.shards[g].connection_ids;
                let k = choose|k: int| 0 <= k < ids.len() && ids[k] == id;
                assert(after.connections[n + k] == added[k]);
                assert(added[k].connection_id == id);
            }
        }
    }
}

/// Shards and connections are numbered from one in the order of the plan.
pub proof fn parts_are_numbered(s: Seq<StrategyRecordModel>, generated_at_ms: u64)
    ensures
        ({
            let plan = plan_model(s, generated_at_ms);
            &&& forall|g: int|
                0 <= g < plan.shards.len() ==> (#[trigger] plan.shards[g]).shard_id == shard_name(
                    (g + 1) as nat,
                )
            &&& forall|c: int|
                0 <= c < plan.connections.len() ==> (#[trigger] plan.connections[c]).connection_id
                    == "conn-"@ + numeral_padded((c + 1) as nat)
        }),
{
    lemma_numbered(s, shard_groups(s));
}

/// No two connections of a plan have the same id.
pub proof fn connection_ids_differ(
    s: Seq<StrategyRecordModel>,
    generated_at_ms: u64,
    c: int,
    d: int,
)
    requires
        0 <= c < d < plan_model(s, generated_at_ms).connections.len(),
    ensures
        plan_model(s, generated_at_ms).connections[c].connection_id != plan_model(
            s,
            generated_at_ms,
        ).connections[d].connection_id,
{
    parts_are_numbered(s, generated_at_ms);
    let a = "conn-"@ + numeral_padded((c + 1) as nat);
    let b = "conn-"@ + numeral_padded((d + 1) as nat);
    if a == b {
        assert(a.skip("conn-"@.len() as int) =~= numeral_padded((c + 1) as nat));
        assert(b.skip("conn-"@.len() as int) =~= numeral_padded((d + 1) as nat));
        padded_numerals_tell_apart((c + 1) as nat, (d + 1) as nat);
    }
}

/// No two shards of a plan have the same id.
pub proof fn shard_ids_differ(s: Seq<StrategyRecordModel>, generated_at_ms: u64, g: int, h: int)
    requires
        0 <= g < h < plan_model(s, generated_at_ms).shards.len(),
    ensures
        plan_model(s, generated_at_ms).shards[g].shard_id != plan_model(
            s,
            generated_at_ms,
        ).shards[h].shard_id,
{
    parts_are_numbered(s, generated_at_ms);
    let a = shard_name((g + 1) as nat);
    let b = shard_name((h + 1) as nat);
    if a == b {
        assert(a.skip("shard-"@.len() as int) =~= numeral_padded((g + 1) as nat));
        assert(b.skip("shard-"@.len() as int) =~= numeral_padded((h + 1) as nat));
        padded_numerals_tell_apart((g + 1) as nat, (h + 1) as nat);
    }
}

/// A connection is listed by exactly one shard: the one that it belongs to.
pub proof fn shard_lists_its_connections(
    s: Seq<StrategyRecordModel>,
    generated_at_ms: u64,
    c: int,
    g: int,
)
    requires
        0 <= c < plan_model(s, generated_at_ms).connections.len(),
        0 <= g < plan_model(s, generated_at_ms).shards.len(),
    ensures
        ({
            let plan = plan_model(s, generated_at_ms);
            &&& plan.shards[g].connection_ids.contains(plan.connections[c].connection_id)
                <==> plan.shards[g].shard_id == plan.connections[c].shard_id
            &&& exists|h: int|
                0 <= h < plan.shards.len() && (#[trigger] plan.shards[h]).shard_id
                    == plan.connections[c].shard_id
        }),
{
    let plan = plan_model(s, generated_at_ms);
    let parts = plan_parts(s, shard_groups(s));
    lemma_numbered(s, shard_groups(s));
    let id = plan.connections[c].connection_id;
    assert(listed(parts, c));
    let h = choose|h: int|
        0 <= h < parts.shards.len() && (#[trigger] parts.shards[h]).shard_id
            == parts.connections[c].shard_id && parts.shards[h].connection_ids.contains(
            parts.connections[c].connection_id,
        );
    assert(plan.shards[h].shard_id == plan.connections[c].shard_id);
    if plan.shards[g].connection_ids.contains(id) {
        assert(owned(parts, g, id));
        let d = choose|d: int|
            0 <= d < parts.connections.len() && (#[trigger] parts.connections[d]).connection_id
                == id && parts.connections[d].shard_id == parts.shards[g].shard_id;
        if c < d {
            connection_ids_differ(s, generated_at_ms, c, d);
        } else if d < c {
            connection_ids_differ(s, generated_at_ms, d, c);
        }
    }
    if plan.shards[g].shard_id == plan.connections[c].shard_id {
        if g < h {
            shard_ids_differ(s, generated_at_ms, g, h);
        } else if h < g {
            shard_ids_differ(s, generated_at_ms, h, g);
        }
    }
}

/// A plan without shards has no connections.
pub proof fn no_shards_no_connections(s: Seq<StrategyRecordModel>, generated_at_ms: u64)
    requires
        plan_model(s, generated_at_ms).shards.len() == 0,
    ensures
        plan_model(s, generated_at_ms).connections.len() == 0,
{
    lemma_parts_length(s, shard_groups(s));
}

/// Components that stand one behind the other in the shards do so in the order of all components.
pub(crate) proof fn lemma_component_places(
    s: Seq<StrategyRecordModel>,
    g: int,
    c: int,
    h: int,
    d: int,
) -> (at: (int, int))
    requires
        0 <= g < shard_groups(s).len(),
        0 <= h < shard_groups(s).len(),
        0 <= c < shard_groups(s)[g].len(),
        0 <= d < shard_groups(s)[h].len(),
        g < h || g == h && c < d,
    ensures
        0 <= at.0 < at.1 < components_model(s).len(),
        components_model(s)[at.0] == shard_groups(s)[g][c],
        components_model(s)[at.1] == shard_groups(s)[h][d],
{
    let groups = shard_groups(s);
    lemma_packed_concat(s, components_model(s));
    let a = lemma_ungrouped_at(groups, g, c);
    let b = lemma_ungrouped_at(groups, h, d);
    if g < h {
        lemma_ungrouped_prefix(groups, g, h);
    }
    (a, b)
}

/// Every component of a shard is that of some strategy.
pub(crate) proof fn lemma_group_root(s: Seq<StrategyRecordModel>, g: int, c: int) -> (root: int)
    requires
        0 <= g < shard_groups(s).len(),
        0 <= c < shard_groups(s)[g].len(),
    ensures
        0 <= root < s.len(),
        is_root(s, root),
        shard_groups(s)[g][c] == component_of(s, root),
{
    let groups = shard_groups(s);
    lemma_packed_concat(s, components_model(s));
    let at = lemma_ungrouped_at(groups, g, c);
    lemma_component_has_root(s, components_model(s)[at]);
    choose|root: int|
        0 <= root < s.len() && is_root(s, root) && components_model(s)[at]
            == #[trigger] component_of(s, root)
}

/// Every shard has a component, and more than one only within the limit.
pub(crate) proof fn lemma_groups(s: Seq<StrategyRecordModel>, g: int)
    requires
        0 <= g < shard_groups(s).len(),
    ensures
        shard_groups(s)[g].len() > 0,
        shard_groups(s)[g].len() == 1 || group_size(s, shard_groups(s)[g])
            <= MAX_MARKETS_PER_SHARD,
{
    lemma_packed_concat(s, components_model(s));
}

/// The component that opened a shard would not have fitted into the shard before it.
pub(crate) proof fn lemma_groups_are_full(
    s: Seq<StrategyRecordModel>,
    components: Seq<ComponentModel>,
    g: int,
)
    requires
        0 <= g,
        g + 1 < packed(s, components).len(),
    ensures
        packed(s, components)[g + 1].len() > 0,
        group_size(s, packed(s, components)[g].push(packed(s, components)[g + 1][0]))
            > MAX_MARKETS_PER_SHARD,
    decreases components.len(),
{
    let front = components.drop_last();
    let next = components.last();
    let groups = packed(s, front);
    let now = packed(s, components);
    lemma_packed_concat(s, front);
    lemma_packed_concat(s, components);
    if groups.len() == 0 || group_size(s, groups.last().push(next)) > MAX_MARKETS_PER_SHARD {
        if g + 1 < groups.len() {
            lemma_groups_are_full(s, front, g);
            assert(now[g] == groups[g] && now[g + 1] == groups[g + 1]);
        } else {
            assert(now[g] == groups.last());
            assert(now[g + 1] == seq![next]);
        }
    } else {
        lemma_groups_are_full(s, front, g);
        assert(now[g] == groups[g]);
        assert(groups[g + 1].len() > 0);
        assert(now[g + 1][0] == groups[g + 1][0]);
    }
}

} // verus!
