//! A plan does not depend on the order in which the strategies are listed.

use vstd::prelude::*;

use crate::config::model::{
    Exchange, MarketKeyModel, StrategyPlacementViewModel, StrategyRecordModel,
};
use crate::config::plan_laws::{
    components_are_in_order, lemma_component_has_root, lemma_component_members, lemma_first_linked,
    lemma_flat_contains, lemma_markets_of_contains, lemma_no_component_twice, lemma_root_is_listed,
};
use crate::config::planner::{
    by_ids, by_text, chunks, component_of, components_model, every_index, exchange_connections,
    flat, group_size, ids_carrying, ids_of, ids_trading, is_path, is_root, lemma_linked_bounds,
    lemma_numbers_below, linked, linked_reflexive, linked_symmetric, linked_transitive, markets_of,
    members, on_exchange, packed, placement_of, plan_model, plan_parts, shard_connections,
    shard_members, shard_name, share_market, with_shard, ComponentModel, ConnectionPlanModel,
    PlanParts, RuntimePlanModel, ShardPlanModel,
};
use crate::order::{
    in_order, lemma_sorted_contains, lemma_sorted_length, list_lt, list_order, market_lt,
    market_order, market_set, market_set_is_the_set, one_order,
};
use crate::text::text_order;

verus! {

/// Whether no two strategies have one identifier.
pub open spec fn ids_differ(s: Seq<StrategyRecordModel>) -> bool {
    forall|i: int, j: int|
        0 <= i < j < s.len() ==> (#[trigger] s[i]).config.id != (#[trigger] s[j]).config.id
}

/// Whether two lists hold the same strategies.
spec fn same_records(s: Seq<StrategyRecordModel>, t: Seq<StrategyRecordModel>) -> bool {
    forall|x: StrategyRecordModel|
        #![trigger s.contains(x)]
        #![trigger t.contains(x)]
        s.contains(x) <==> t.contains(x)
}

/// Where a strategy stands in a list.
spec fn where_in(t: Seq<StrategyRecordModel>, x: StrategyRecordModel) -> int {
    choose|j: int| 0 <= j < t.len() && t[j] == x
}

proof fn lemma_where_in(t: Seq<StrategyRecordModel>, x: StrategyRecordModel)
    requires
        t.contains(x),
    ensures
        0 <= where_in(t, x) < t.len(),
        t[where_in(t, x)] == x,
        ids_differ(t) ==> forall|j: int|
            0 <= j < t.len() && (#[trigger] t[j]).config.id == x.config.id ==> j == where_in(t, x),
{
}

proof fn lemma_linked_elsewhere(
    s: Seq<StrategyRecordModel>,
    t: Seq<StrategyRecordModel>,
    i: int,
    j: int,
)
    requires
        same_records(s, t),
        linked(s, i, j),
    ensures
        linked(t, where_in(t, s[i]), where_in(t, s[j])),
{
    let path = choose|path: Seq<int>| #[trigger]
        is_path(s, path) && path.first() == i && path.last() == j;
    let other = path.map_values(|k: int| where_in(t, s[k]));
    assert forall|k: int| 0 <= k < other.len() implies 0 <= #[trigger] other[k] < t.len()
        && t[other[k]] == s[path[k]] by {
        assert(s.contains(s[path[k]]));
        lemma_where_in(t, s[path[k]]);
    }
    assert forall|k: int, l: int|
        0 <= k && l == k + 1 && l < other.len() implies share_market(
        t,
        #[trigger] other[k],
        #[trigger] other[l],
    ) by {
        assert(share_market(s, path[k], path[l]));
        let m = choose|m: MarketKeyModel| #[trigger]
            s[path[k]].config.markets().contains(m) && s[path[l]].config.markets().contains(m);
        assert(t[other[k]].config.markets().contains(m));
    }
    assert(is_path(t, other));
}

/// Whether `x` is one of the strategies at `indices`.
spec fn held(s: Seq<StrategyRecordModel>, indices: Seq<int>, x: StrategyRecordModel) -> bool {
    exists|k: int| 0 <= k < indices.len() && s[#[trigger] indices[k]] == x
}

/// Whether `indices` are places of `s`.
spec fn in_range(s: Seq<StrategyRecordModel>, indices: Seq<int>) -> bool {
    forall|k: int| 0 <= k < indices.len() ==> 0 <= #[trigger] indices[k] < s.len()
}

/// Whether the same strategies are at `a` in `s` and at `b` in `t`.
spec fn match_up(
    s: Seq<StrategyRecordModel>,
    a: Seq<int>,
    t: Seq<StrategyRecordModel>,
    b: Seq<int>,
) -> bool {
    &&& in_range(s, a)
    &&& in_range(t, b)
    &&& forall|x: StrategyRecordModel|
        #![trigger held(s, a, x)]
        #![trigger held(t, b, x)]
        held(s, a, x) <==> held(t, b, x)
}

proof fn lemma_members_in_range(s: Seq<StrategyRecordModel>, p: int)
    ensures
        in_range(s, members(s, p)),
        members(s, p).no_duplicates(),
{
    let all = members(s, p);
    lemma_numbers_below(s.len(), |j: int| linked(s, p, j));
    assert forall|k: int| 0 <= k < all.len() implies 0 <= #[trigger] all[k] < s.len() by {
        assert(all.contains(all[k]));
    }
    assert forall|k: int, l: int|
        0 <= k < all.len() && 0 <= l < all.len() && k != l implies all[k] != all[l] by {
        if k < l {
            assert(all[k] < all[l]);
        } else {
            assert(all[l] < all[k]);
        }
    }
}

proof fn lemma_members_within(
    s: Seq<StrategyRecordModel>,
    t: Seq<StrategyRecordModel>,
    p: int,
    q: int,
    x: StrategyRecordModel,
)
    requires
        same_records(s, t),
        linked(t, q, where_in(t, s[p])),
        held(s, members(s, p), x),
    ensures
        held(t, members(t, q), x),
{
    let all = members(s, p);
    let k = choose|k: int| 0 <= k < all.len() && s[#[trigger] all[k]] == x;
    let i = all[k];
    lemma_numbers_below(s.len(), |j: int| linked(s, p, j));
    assert(all.contains(i));
    lemma_linked_elsewhere(s, t, p, i);
    assert(s.contains(s[i]));
    lemma_where_in(t, x);
    let j = where_in(t, x);
    linked_transitive(t, q, where_in(t, s[p]), j);
    lemma_numbers_below(t.len(), |j: int| linked(t, q, j));
    assert(members(t, q).contains(j));
    let l = choose|l: int| 0 <= l < members(t, q).len() && members(t, q)[l] == j;
    assert(t[members(t, q)[l]] == x);
}

proof fn lemma_members_match(
    s: Seq<StrategyRecordModel>,
    t: Seq<StrategyRecordModel>,
    p: int,
    q: int,
)
    requires
        ids_differ(s),
        ids_differ(t),
        same_records(s, t),
        0 <= p < s.len(),
        linked(t, q, where_in(t, s[p])),
    ensures
        match_up(s, members(s, p), t, members(t, q)),
{
    lemma_members_in_range(s, p);
    lemma_members_in_range(t, q);
    lemma_linked_bounds(t, q, where_in(t, s[p]));
    assert(s.contains(s[p]));
    lemma_where_in(t, s[p]);
    lemma_where_in(s, s[p]);
    lemma_linked_elsewhere(t, s, q, where_in(t, s[p]));
    assert(where_in(s, s[p]) == p);
    linked_symmetric(s, where_in(s, t[q]), p);
    assert forall|x: StrategyRecordModel|
        held(s, members(s, p), x) <==> held(t, members(t, q), x) by {
        if held(s, members(s, p), x) {
            lemma_members_within(s, t, p, q, x);
        }
        if held(t, members(t, q), x) {
            lemma_members_within(t, s, q, p, x);
        }
    }
}

proof fn lemma_markets_within(
    s: Seq<StrategyRecordModel>,
    a: Seq<int>,
    t: Seq<StrategyRecordModel>,
    b: Seq<int>,
    m: MarketKeyModel,
)
    requires
        match_up(s, a, t, b),
        markets_of(s, a).contains(m),
    ensures
        markets_of(t, b).contains(m),
{
    lemma_markets_of_contains(s, a, m);
    lemma_markets_of_contains(t, b, m);
    let k = choose|k: int|
        0 <= k < a.len() && s[#[trigger] a[k]].config.markets().contains(m);
    let x = s[a[k]];
    assert(held(s, a, x));
    assert(held(t, b, x));
    let l = choose|l: int| 0 <= l < b.len() && t[#[trigger] b[l]] == x;
    assert(t[b[l]].config.markets().contains(m));
}

proof fn lemma_same_markets(
    s: Seq<StrategyRecordModel>,
    a: Seq<int>,
    t: Seq<StrategyRecordModel>,
    b: Seq<int>,
)
    requires
        match_up(s, a, t, b),
    ensures
        market_set(markets_of(s, a)) == market_set(markets_of(t, b)),
{
    let x = market_set(markets_of(s, a));
    let y = market_set(markets_of(t, b));
    market_set_is_the_set(markets_of(s, a));
    market_set_is_the_set(markets_of(t, b));
    let less = |m: MarketKeyModel, n: MarketKeyModel| market_lt(m, n);
    assert forall|m: MarketKeyModel, n: MarketKeyModel|
        m == n || #[trigger] less(m, n) || less(n, m) by {
        market_order(m, n);
    }
    assert forall|i: int, j: int| 0 <= i < j < x.len() implies !less(
        #[trigger] x[j],
        #[trigger] x[i],
    ) by {
        market_order(x[i], x[j]);
    }
    assert forall|i: int, j: int| 0 <= i < j < y.len() implies !less(
        #[trigger] y[j],
        #[trigger] y[i],
    ) by {
        market_order(y[i], y[j]);
    }
    assert forall|m: MarketKeyModel| #[trigger] x.contains(m) <==> y.contains(m) by {
        if markets_of(s, a).contains(m) {
            lemma_markets_within(s, a, t, b, m);
        }
        if markets_of(t, b).contains(m) {
            lemma_markets_within(t, b, s, a, m);
        }
    }
    one_order(x, y, less);
}

proof fn lemma_ids_differ_at(s: Seq<StrategyRecordModel>, indices: Seq<int>)
    requires
        ids_differ(s),
        in_range(s, indices),
        indices.no_duplicates(),
    ensures
        ids_of(s, indices).no_duplicates(),
{
    let ids = ids_of(s, indices);
    assert forall|k: int, l: int|
        0 <= k < ids.len() && 0 <= l < ids.len() && k != l implies ids[k] != ids[l] by {
        if indices[k] < indices[l] {
            assert(s[indices[k]].config.id != s[indices[l]].config.id);
        } else {
            assert(s[indices[l]].config.id != s[indices[k]].config.id);
        }
    }
}

proof fn lemma_ids_within(
    s: Seq<StrategyRecordModel>,
    a: Seq<int>,
    t: Seq<StrategyRecordModel>,
    b: Seq<int>,
    id: Seq<char>,
)
    requires
        match_up(s, a, t, b),
        ids_of(s, a).contains(id),
    ensures
        ids_of(t, b).contains(id),
{
    let k = choose|k: int| 0 <= k < ids_of(s, a).len() && ids_of(s, a)[k] == id;
    let x = s[a[k]];
    assert(held(s, a, x));
    assert(held(t, b, x));
    let l = choose|l: int| 0 <= l < b.len() && t[#[trigger] b[l]] == x;
    assert(ids_of(t, b)[l] == id);
}

proof fn lemma_component_ids(s: Seq<StrategyRecordModel>, p: int)
    requires
        ids_differ(s),
    ensures
        component_of(s, p).ids.no_duplicates(),
        forall|id: Seq<char>| #[trigger]
            component_of(s, p).ids.contains(id) <==> ids_of(s, members(s, p)).contains(id),
{
    let plain = ids_of(s, members(s, p));
    lemma_members_in_range(s, p);
    lemma_ids_differ_at(s, members(s, p));
    lemma_sorted_length(plain, by_text());
    plain.lemma_multiset_has_no_duplicates();
    component_of(s, p).ids.lemma_multiset_has_no_duplicates_conv();
    assert forall|id: Seq<char>| #[trigger]
        component_of(s, p).ids.contains(id) <==> plain.contains(id) by {
        lemma_sorted_contains(plain, by_text(), id);
    }
}

proof fn lemma_root_id(s: Seq<StrategyRecordModel>, p: int, i: int)
    requires
        ids_differ(s),
        0 <= i < s.len(),
    ensures
        component_of(s, p).ids.contains(s[i].config.id) <==> linked(s, p, i),
{
    let all = members(s, p);
    lemma_component_ids(s, p);
    lemma_component_members(s, p, i);
    lemma_members_in_range(s, p);
    if linked(s, p, i) {
        let k = choose|k: int| 0 <= k < all.len() && all[k] == i;
        assert(ids_of(s, all)[k] == s[i].config.id);
    }
    if component_of(s, p).ids.contains(s[i].config.id) {
        let ids = ids_of(s, all);
        assert(ids.contains(s[i].config.id));
        let k = choose|k: int| 0 <= k < ids.len() && ids[k] == s[i].config.id;
        let j = all[k];
        if i < j {
            assert(s[i].config.id != s[j].config.id);
        } else if j < i {
            assert(s[j].config.id != s[i].config.id);
        }
        assert(all.contains(i));
    }
}

/// The identifiers of each component.
spec fn id_lists(components: Seq<ComponentModel>) -> Seq<Seq<Seq<char>>> {
    components.map_values(|c: ComponentModel| c.ids)
}

/// The order of lists of identifiers as a function.
spec fn by_list() -> spec_fn(Seq<Seq<char>>, Seq<Seq<char>>) -> bool {
    |a: Seq<Seq<char>>, b: Seq<Seq<char>>| list_lt(a, b)
}

proof fn lemma_id_lists(s: Seq<StrategyRecordModel>)
    requires
        ids_differ(s),
    ensures
        in_order(id_lists(components_model(s)), by_list()),
        id_lists(components_model(s)).no_duplicates(),
{
    let all = components_model(s);
    let lists = id_lists(all);
    components_are_in_order(s);
    lemma_no_component_twice(s);
    assert forall|i: int, j: int| 0 <= i < j < lists.len() implies !by_list()(
        #[trigger] lists[j],
        #[trigger] lists[i],
    ) by {
        assert(lists[i] == all[i].ids && lists[j] == all[j].ids);
        assert(!by_ids()(all[j], all[i]));
    }
    assert forall|i: int, j: int|
        0 <= i < lists.len() && 0 <= j < lists.len() && i != j implies lists[i] != lists[j] by {
        if lists[i] == lists[j] {
            assert(all.contains(all[i]) && all.contains(all[j]));
            lemma_component_has_root(s, all[i]);
            lemma_component_has_root(s, all[j]);
            let p = choose|root: int|
                0 <= root < s.len() && is_root(s, root) && all[i] == #[trigger] component_of(s, root);
            let q = choose|root: int|
                0 <= root < s.len() && is_root(s, root) && all[j] == #[trigger] component_of(s, root);
            linked_reflexive(s, p);
            lemma_root_id(s, p, p);
            lemma_root_id(s, q, p);
            linked_symmetric(s, q, p);
            assert(p == q);
        }
    }
}

proof fn lemma_component_elsewhere(
    s: Seq<StrategyRecordModel>,
    t: Seq<StrategyRecordModel>,
    p: int,
    q: int,
)
    requires
        ids_differ(s),
        ids_differ(t),
        same_records(s, t),
        0 <= p < s.len(),
        linked(t, q, where_in(t, s[p])),
        in_order(component_of(s, p).ids, by_text()),
        in_order(component_of(t, q).ids, by_text()),
    ensures
        component_of(s, p).ids == component_of(t, q).ids,
{
    lemma_members_match(s, t, p, q);
    lemma_component_ids(s, p);
    lemma_component_ids(t, q);
    let a = component_of(s, p).ids;
    let b = component_of(t, q).ids;
    assert forall|id: Seq<char>| #[trigger] a.contains(id) <==> b.contains(id) by {
        if a.contains(id) {
            lemma_ids_within(s, members(s, p), t, members(t, q), id);
        }
        if b.contains(id) {
            lemma_ids_within(t, members(t, q), s, members(s, p), id);
        }
    }
    let less = by_text();
    assert forall|x: Seq<char>, y: Seq<char>| x == y || #[trigger] less(x, y) || less(y, x) by {
        text_order(x, y);
    }
    one_order(a, b, less);
}

proof fn lemma_lists_within(
    s: Seq<StrategyRecordModel>,
    t: Seq<StrategyRecordModel>,
    ids: Seq<Seq<char>>,
)
    requires
        ids_differ(s),
        ids_differ(t),
        same_records(s, t),
        id_lists(components_model(s)).contains(ids),
    ensures
        id_lists(components_model(t)).contains(ids),
{
    let all = components_model(s);
    let k = choose|k: int| 0 <= k < id_lists(all).len() && id_lists(all)[k] == ids;
    assert(all.contains(all[k]));
    lemma_component_has_root(s, all[k]);
    let p = choose|root: int|
        0 <= root < s.len() && is_root(s, root) && all[k] == #[trigger] component_of(s, root);
    assert(s.contains(s[p]));
    lemma_where_in(t, s[p]);
    let at = where_in(t, s[p]);
    linked_reflexive(t, at);
    let q = lemma_first_linked(t, at, at);
    lemma_root_is_listed(t, q);
    let others = components_model(t);
    let l = choose|l: int| 0 <= l < others.len() && others[l] == component_of(t, q);
    components_are_in_order(s);
    components_are_in_order(t);
    assert(in_order(all[k].ids, by_text()));
    assert(in_order(others[l].ids, by_text()));
    lemma_component_elsewhere(s, t, p, q);
    assert(id_lists(others)[l] == ids);
}

/// Whether two lists of components hold the same strategies, component by component.
spec fn groups_match(
    s: Seq<StrategyRecordModel>,
    g: Seq<ComponentModel>,
    t: Seq<StrategyRecordModel>,
    h: Seq<ComponentModel>,
) -> bool {
    &&& g.len() == h.len()
    &&& forall|k: int|
        #![trigger g[k]]
        #![trigger h[k]]
        0 <= k < g.len() ==> match_up(s, g[k].indices, t, h[k].indices)
}

proof fn lemma_components_match(s: Seq<StrategyRecordModel>, t: Seq<StrategyRecordModel>)
    requires
        ids_differ(s),
        ids_differ(t),
        same_records(s, t),
    ensures
        groups_match(s, components_model(s), t, components_model(t)),
{
    let g = components_model(s);
    let h = components_model(t);
    lemma_id_lists(s);
    lemma_id_lists(t);
    assert forall|ids: Seq<Seq<char>>| #[trigger]
        id_lists(g).contains(ids) <==> id_lists(h).contains(ids) by {
        if id_lists(g).contains(ids) {
            lemma_lists_within(s, t, ids);
        }
        if id_lists(h).contains(ids) {
            lemma_lists_within(t, s, ids);
        }
    }
    let less = by_list();
    assert forall|x: Seq<Seq<char>>, y: Seq<Seq<char>>|
        x == y || #[trigger] less(x, y) || less(y, x) by {
        list_order(x, y);
    }
    one_order(id_lists(g), id_lists(h), less);
    assert(g.len() == id_lists(g).len() && h.len() == id_lists(h).len());
    assert forall|k: int| 0 <= k < g.len() implies match_up(
        s,
        (#[trigger] g[k]).indices,
        t,
        h[k].indices,
    ) by {
        assert(id_lists(g)[k] == g[k].ids);
        assert(id_lists(h)[k] == h[k].ids);
        assert(g.contains(g[k]) && h.contains(h[k]));
        lemma_component_has_root(s, g[k]);
        lemma_component_has_root(t, h[k]);
        let p = choose|root: int|
            0 <= root < s.len() && is_root(s, root) && g[k] == #[trigger] component_of(s, root);
        let q = choose|root: int|
            0 <= root < t.len() && is_root(t, root) && h[k] == #[trigger] component_of(t, root);
        linked_reflexive(s, p);
        lemma_root_id(s, p, p);
        assert(s.contains(s[p]));
        lemma_where_in(t, s[p]);
        lemma_root_id(t, q, where_in(t, s[p]));
        lemma_members_match(s, t, p, q);
    }
}

proof fn lemma_flat_within(
    s: Seq<StrategyRecordModel>,
    g: Seq<ComponentModel>,
    t: Seq<StrategyRecordModel>,
    h: Seq<ComponentModel>,
    x: StrategyRecordModel,
)
    requires
        groups_match(s, g, t, h),
        held(s, flat(g), x),
    ensures
        held(t, flat(h), x),
{
    let k = choose|k: int| 0 <= k < flat(g).len() && s[#[trigger] flat(g)[k]] == x;
    let i = flat(g)[k];
    assert(flat(g).contains(i));
    lemma_flat_contains(g, i);
    let c = choose|c: int| 0 <= c < g.len() && (#[trigger] g[c]).indices.contains(i);
    let n = choose|n: int| 0 <= n < g[c].indices.len() && g[c].indices[n] == i;
    assert(s[g[c].indices[n]] == x);
    assert(held(s, g[c].indices, x));
    assert(match_up(s, g[c].indices, t, h[c].indices));
    assert(held(t, h[c].indices, x));
    let l = choose|l: int| 0 <= l < h[c].indices.len() && t[#[trigger] h[c].indices[l]] == x;
    let j = h[c].indices[l];
    assert(h[c].indices.contains(j));
    lemma_flat_contains(h, j);
    let m = choose|m: int| 0 <= m < flat(h).len() && flat(h)[m] == j;
    assert(t[flat(h)[m]] == x);
}

proof fn lemma_flat_in_range(s: Seq<StrategyRecordModel>, g: Seq<ComponentModel>)
    requires
        forall|k: int| 0 <= k < g.len() ==> in_range(s, (#[trigger] g[k]).indices),
    ensures
        in_range(s, flat(g)),
{
    assert forall|k: int| 0 <= k < flat(g).len() implies 0 <= #[trigger] flat(g)[k] < s.len() by {
        let i = flat(g)[k];
        assert(flat(g).contains(i));
        lemma_flat_contains(g, i);
        let c = choose|c: int| 0 <= c < g.len() && (#[trigger] g[c]).indices.contains(i);
        let n = choose|n: int| 0 <= n < g[c].indices.len() && g[c].indices[n] == i;
        assert(0 <= g[c].indices[n] < s.len());
    }
}

proof fn lemma_flat_match(
    s: Seq<StrategyRecordModel>,
    g: Seq<ComponentModel>,
    t: Seq<StrategyRecordModel>,
    h: Seq<ComponentModel>,
)
    requires
        groups_match(s, g, t, h),
    ensures
        match_up(s, flat(g), t, flat(h)),
        groups_match(t, h, s, g),
{
    assert forall|k: int| 0 <= k < h.len() implies match_up(
        t,
        (#[trigger] h[k]).indices,
        s,
        g[k].indices,
    ) by {
        assert(match_up(s, g[k].indices, t, h[k].indices));
    }
    lemma_flat_in_range(s, g);
    lemma_flat_in_range(t, h);
    assert forall|x: StrategyRecordModel| held(s, flat(g), x) <==> held(t, flat(h), x) by {
        if held(s, flat(g), x) {
            lemma_flat_within(s, g, t, h, x);
        }
        if held(t, flat(h), x) {
            lemma_flat_within(t, h, s, g, x);
        }
    }
}

proof fn lemma_push_match(
    s: Seq<StrategyRecordModel>,
    g: Seq<ComponentModel>,
    c: ComponentModel,
    t: Seq<StrategyRecordModel>,
    h: Seq<ComponentModel>,
    d: ComponentModel,
)
    requires
        groups_match(s, g, t, h),
        match_up(s, c.indices, t, d.indices),
    ensures
        groups_match(s, g.push(c), t, h.push(d)),
        group_size(s, g.push(c)) == group_size(t, h.push(d)),
{
    let a = g.push(c);
    let b = h.push(d);
    assert forall|k: int| 0 <= k < a.len() implies match_up(
        s,
        (#[trigger] a[k]).indices,
        t,
        b[k].indices,
    ) by {
        if k < g.len() {
            assert(match_up(s, g[k].indices, t, h[k].indices));
        }
    }
    lemma_flat_match(s, a, t, b);
    lemma_same_markets(s, flat(a), t, flat(b));
}

/// Whether two packings hold the same strategies, shard by shard and component by component.
spec fn packings_match(
    s: Seq<StrategyRecordModel>,
    g: Seq<Seq<ComponentModel>>,
    t: Seq<StrategyRecordModel>,
    h: Seq<Seq<ComponentModel>>,
) -> bool {
    &&& g.len() == h.len()
    &&& forall|k: int| 0 <= k < g.len() ==> groups_match(s, #[trigger] g[k], t, h[k])
}

proof fn lemma_packed_match(
    s: Seq<StrategyRecordModel>,
    g: Seq<ComponentModel>,
    t: Seq<StrategyRecordModel>,
    h: Seq<ComponentModel>,
)
    requires
        groups_match(s, g, t, h),
    ensures
        packings_match(s, packed(s, g), t, packed(t, h)),
    decreases g.len(),
{
    if g.len() > 0 {
        let c = g.last();
        let d = h.last();
        assert(match_up(s, g[g.len() - 1].indices, t, h[g.len() - 1].indices));
        assert forall|k: int| 0 <= k < g.len() - 1 implies match_up(
            s,
            (#[trigger] g.drop_last()[k]).indices,
            t,
            h.drop_last()[k].indices,
        ) by {
            assert(match_up(s, g[k].indices, t, h[k].indices));
        }
        assert(groups_match(s, g.drop_last(), t, h.drop_last()));
        lemma_packed_match(s, g.drop_last(), t, h.drop_last());
        let before = packed(s, g.drop_last());
        let other = packed(t, h.drop_last());
        let empty = Seq::<ComponentModel>::empty();
        assert(groups_match(s, empty, t, empty));
        lemma_push_match(s, empty, c, t, empty, d);
        assert(empty.push(c) =~= seq![c]);
        assert(empty.push(d) =~= seq![d]);
        if before.len() > 0 {
            assert(groups_match(s, before[before.len() - 1], t, other[before.len() - 1]));
            lemma_push_match(s, before.last(), c, t, other.last(), d);
        }
        let after = packed(s, g);
        let after_other = packed(t, h);
        assert forall|k: int| 0 <= k < after.len() implies groups_match(
            s,
            #[trigger] after[k],
            t,
            after_other[k],
        ) by {
            if k < before.len() {
                assert(groups_match(s, before[k], t, other[k]));
            }
        }
    }
}

proof fn lemma_shard_members(s: Seq<StrategyRecordModel>, g: Seq<ComponentModel>)
    requires
        in_range(s, flat(g)),
    ensures
        in_range(s, shard_members(s, g)),
        shard_members(s, g).no_duplicates(),
        forall|x: StrategyRecordModel|
            #![trigger held(s, shard_members(s, g), x)]
            held(s, shard_members(s, g), x) <==> held(s, flat(g), x),
{
    let all = shard_members(s, g);
    lemma_numbers_below(s.len(), |i: int| flat(g).contains(i));
    assert forall|k: int| 0 <= k < all.len() implies 0 <= #[trigger] all[k] < s.len() by {
        assert(all.contains(all[k]));
    }
    assert forall|k: int, l: int|
        0 <= k < all.len() && 0 <= l < all.len() && k != l implies all[k] != all[l] by {
        if k < l {
            assert(all[k] < all[l]);
        } else {
            assert(all[l] < all[k]);
        }
    }
    assert forall|x: StrategyRecordModel|
        #![trigger held(s, all, x)]
        held(s, all, x) <==> held(s, flat(g), x) by {
        if held(s, all, x) {
            let k = choose|k: int| 0 <= k < all.len() && s[#[trigger] all[k]] == x;
            assert(all.contains(all[k]));
            let l = choose|l: int| 0 <= l < flat(g).len() && flat(g)[l] == all[k];
            assert(s[flat(g)[l]] == x);
        }
        if held(s, flat(g), x) {
            let k = choose|k: int| 0 <= k < flat(g).len() && s[#[trigger] flat(g)[k]] == x;
            assert(flat(g).contains(flat(g)[k]));
            assert(all.contains(flat(g)[k]));
            let l = choose|l: int| 0 <= l < all.len() && all[l] == flat(g)[k];
            assert(s[all[l]] == x);
        }
    }
}

proof fn lemma_shard_members_match(
    s: Seq<StrategyRecordModel>,
    g: Seq<ComponentModel>,
    t: Seq<StrategyRecordModel>,
    h: Seq<ComponentModel>,
)
    requires
        groups_match(s, g, t, h),
    ensures
        match_up(s, shard_members(s, g), t, shard_members(t, h)),
        shard_members(s, g).no_duplicates(),
        shard_members(t, h).no_duplicates(),
{
    lemma_flat_match(s, g, t, h);
    lemma_shard_members(s, g);
    lemma_shard_members(t, h);
    assert forall|x: StrategyRecordModel|
        held(s, shard_members(s, g), x) <==> held(t, shard_members(t, h), x) by {
        assert(held(s, flat(g), x) <==> held(t, flat(h), x));
    }
}

proof fn lemma_same_multiset<T>(a: Seq<T>, b: Seq<T>)
    requires
        a.no_duplicates(),
        b.no_duplicates(),
        forall|x: T| #[trigger] a.contains(x) <==> b.contains(x),
    ensures
        a.to_multiset() == b.to_multiset(),
{
    broadcast use vstd::seq_lib::group_to_multiset_ensures;

    a.lemma_multiset_has_no_duplicates();
    b.lemma_multiset_has_no_duplicates();
    assert forall|x: T| #[trigger] a.to_multiset().count(x) == b.to_multiset().count(x) by {
        assert(a.contains(x) <==> b.contains(x));
        assert(a.contains(x) <==> a.to_multiset().count(x) > 0);
        assert(b.contains(x) <==> b.to_multiset().count(x) > 0);
        if a.to_multiset().contains(x) {
            assert(a.to_multiset().count(x) == 1);
        }
        if b.to_multiset().contains(x) {
            assert(b.to_multiset().count(x) == 1);
        }
    }
    assert(a.to_multiset() =~= b.to_multiset());
}

/// Whether a strategy trades a market of `markets`.
spec fn trades(x: StrategyRecordModel, markets: Seq<MarketKeyModel>) -> bool {
    markets.contains(x.config.long_leg.market()) || markets.contains(x.config.short_leg.market())
}

proof fn lemma_ids_trading(
    s: Seq<StrategyRecordModel>,
    indices: Seq<int>,
    markets: Seq<MarketKeyModel>,
)
    requires
        ids_differ(s),
        in_range(s, indices),
        indices.no_duplicates(),
    ensures
        ids_trading(s, indices, markets).no_duplicates(),
        forall|id: Seq<char>| #[trigger]
            ids_trading(s, indices, markets).contains(id) <==> exists|x: StrategyRecordModel| #[trigger]
                held(s, indices, x) && trades(x, markets) && x.config.id == id,
    decreases indices.len(),
{
    let ids = ids_trading(s, indices, markets);
    if indices.len() > 0 {
        let front = indices.drop_last();
        let before = ids_trading(s, front, markets);
        let last = s[indices.last()];
        assert forall|k: int| 0 <= k < front.len() implies 0 <= #[trigger] front[k] < s.len() by {
            assert(front[k] == indices[k]);
        }
        lemma_ids_trading(s, front, markets);
        assert(s[indices[indices.len() - 1]] == last);
        assert(held(s, indices, last));
        assert forall|x: StrategyRecordModel| #[trigger] held(s, front, x) implies held(s, indices, x)
            && x.config.id != last.config.id by {
            let k = choose|k: int| 0 <= k < front.len() && s[#[trigger] front[k]] == x;
            assert(s[indices[k]] == x);
            let i = indices[k];
            let j = indices[indices.len() - 1];
            assert(i != j);
            if i < j {
                assert(s[i].config.id != s[j].config.id);
            } else {
                assert(s[j].config.id != s[i].config.id);
            }
        }
        assert forall|x: StrategyRecordModel| #[trigger] held(s, indices, x) implies held(s, front, x)
            || x == last by {
            let k = choose|k: int| 0 <= k < indices.len() && s[#[trigger] indices[k]] == x;
            if k < front.len() {
                assert(s[front[k]] == x);
            }
        }
        if before.contains(last.config.id) {
            let x = choose|x: StrategyRecordModel| #[trigger]
                held(s, front, x) && trades(x, markets) && x.config.id == last.config.id;
            assert(false);
        }
        assert(ids.no_duplicates());
        assert forall|id: Seq<char>| #[trigger]
            ids.contains(id) <==> exists|x: StrategyRecordModel| #[trigger]
                held(s, indices, x) && trades(x, markets) && x.config.id == id by {
            if ids.contains(id) {
                let k = choose|k: int| 0 <= k < ids.len() && ids[k] == id;
                if k < before.len() {
                    assert(before[k] == id);
                    assert(before.contains(id));
                    let x = choose|x: StrategyRecordModel| #[trigger]
                        held(s, front, x) && trades(x, markets) && x.config.id == id;
                    assert(held(s, indices, x));
                } else {
                    assert(held(s, indices, last) && trades(last, markets));
                }
            }
            if exists|x: StrategyRecordModel| #[trigger]
                held(s, indices, x) && trades(x, markets) && x.config.id == id {
                let x = choose|x: StrategyRecordModel| #[trigger]
                    held(s, indices, x) && trades(x, markets) && x.config.id == id;
                if held(s, front, x) {
                    assert(before.contains(id));
                    let k = choose|k: int| 0 <= k < before.len() && before[k] == id;
                    assert(ids[k] == id);
                } else {
                    assert(ids[ids.len() - 1] == id);
                }
            }
        }
    }
}

proof fn lemma_ids_trading_match(
    s: Seq<StrategyRecordModel>,
    a: Seq<int>,
    t: Seq<StrategyRecordModel>,
    b: Seq<int>,
    markets: Seq<MarketKeyModel>,
)
    requires
        ids_differ(s),
        ids_differ(t),
        match_up(s, a, t, b),
        a.no_duplicates(),
        b.no_duplicates(),
    ensures
        ids_trading(s, a, markets).to_multiset() == ids_trading(t, b, markets).to_multiset(),
{
    lemma_ids_trading(s, a, markets);
    lemma_ids_trading(t, b, markets);
    let x = ids_trading(s, a, markets);
    let y = ids_trading(t, b, markets);
    assert forall|id: Seq<char>| #[trigger] x.contains(id) <==> y.contains(id) by {
        if x.contains(id) {
            let r = choose|r: StrategyRecordModel| #[trigger]
                held(s, a, r) && trades(r, markets) && r.config.id == id;
            assert(held(t, b, r));
        }
        if y.contains(id) {
            let r = choose|r: StrategyRecordModel| #[trigger]
                held(t, b, r) && trades(r, markets) && r.config.id == id;
            assert(held(s, a, r));
        }
    }
    lemma_same_multiset(x, y);
}

/// Whether two connections are the same up to the order of their strategies.
pub open spec fn same_connection(a: ConnectionPlanModel, b: ConnectionPlanModel) -> bool {
    &&& a.connection_id == b.connection_id
    &&& a.shard_id == b.shard_id
    &&& a.exchange == b.exchange
    &&& a.depth_mode == b.depth_mode
    &&& a.symbols == b.symbols
    &&& a.strategy_ids.to_multiset() == b.strategy_ids.to_multiset()
}

/// Whether two shards are the same up to the order of their strategies.
pub open spec fn same_shard(a: ShardPlanModel, b: ShardPlanModel) -> bool {
    &&& a.shard_id == b.shard_id
    &&& a.strategy_ids.to_multiset() == b.strategy_ids.to_multiset()
    &&& a.connection_ids == b.connection_ids
    &&& a.subscribed_markets == b.subscribed_markets
    &&& a.component_count == b.component_count
}

/// Whether two lists of connections are the same up to the order of their strategies.
pub open spec fn same_connections(
    a: Seq<ConnectionPlanModel>,
    b: Seq<ConnectionPlanModel>,
) -> bool {
    &&& a.len() == b.len()
    &&& forall|k: int|
        #![trigger a[k]]
        #![trigger b[k]]
        0 <= k < a.len() ==> same_connection(a[k], b[k])
}

/// Whether two lists of shards are the same up to the order of their strategies.
pub open spec fn same_shards(a: Seq<ShardPlanModel>, b: Seq<ShardPlanModel>) -> bool {
    &&& a.len() == b.len()
    &&& forall|k: int|
        #![trigger a[k]]
        #![trigger b[k]]
        0 <= k < a.len() ==> same_shard(a[k], b[k])
}

/// Whether two plans are the same but for the time and for the order in which they list their
/// strategies.
pub open spec fn same_plan(a: RuntimePlanModel, b: RuntimePlanModel) -> bool {
    &&& a.total_enabled_strategies == b.total_enabled_strategies
    &&& a.total_unique_markets == b.total_unique_markets
    &&& same_shards(a.shards, b.shards)
    &&& same_connections(a.connections, b.connections)
    &&& a.strategy_placements.to_multiset() == b.strategy_placements.to_multiset()
}

proof fn lemma_exchange_connections_match(
    s: Seq<StrategyRecordModel>,
    a: Seq<int>,
    t: Seq<StrategyRecordModel>,
    b: Seq<int>,
    shard_id: Seq<char>,
    exchange: Exchange,
    markets: Seq<MarketKeyModel>,
    first: nat,
)
    requires
        ids_differ(s),
        ids_differ(t),
        match_up(s, a, t, b),
        a.no_duplicates(),
        b.no_duplicates(),
    ensures
        same_connections(
            exchange_connections(s, a, shard_id, exchange, markets, first),
            exchange_connections(t, b, shard_id, exchange, markets, first),
        ),
{
    let x = exchange_connections(s, a, shard_id, exchange, markets, first);
    let y = exchange_connections(t, b, shard_id, exchange, markets, first);
    let pieces = chunks(
        on_exchange(markets, exchange),
        exchange.capabilities_model().max_symbols_per_connection as nat,
    );
    assert forall|k: int| 0 <= k < x.len() implies same_connection(#[trigger] x[k], y[k]) by {
        lemma_ids_trading_match(s, a, t, b, pieces[k]);
    }
}

proof fn lemma_shard_connections_match(
    s: Seq<StrategyRecordModel>,
    a: Seq<int>,
    t: Seq<StrategyRecordModel>,
    b: Seq<int>,
    shard_id: Seq<char>,
    first: nat,
)
    requires
        ids_differ(s),
        ids_differ(t),
        match_up(s, a, t, b),
        a.no_duplicates(),
        b.no_duplicates(),
    ensures
        same_connections(
            shard_connections(s, a, shard_id, first),
            shard_connections(t, b, shard_id, first),
        ),
{
    lemma_same_markets(s, a, t, b);
    let markets = market_set(markets_of(s, a));
    let binance = exchange_connections(s, a, shard_id, Exchange::BinanceUsdM, markets, first);
    lemma_exchange_connections_match(
        s,
        a,
        t,
        b,
        shard_id,
        Exchange::BinanceUsdM,
        markets,
        first,
    );
    lemma_exchange_connections_match(
        s,
        a,
        t,
        b,
        shard_id,
        Exchange::BybitLinear,
        markets,
        first + binance.len(),
    );
    lemma_same_joined(
        binance,
        exchange_connections(
            s,
            a,
            shard_id,
            Exchange::BybitLinear,
            markets,
            first + binance.len(),
        ),
        exchange_connections(t, b, shard_id, Exchange::BinanceUsdM, markets, first),
        exchange_connections(
            t,
            b,
            shard_id,
            Exchange::BybitLinear,
            markets,
            first + binance.len(),
        ),
    );
}

proof fn lemma_same_joined(
    a: Seq<ConnectionPlanModel>,
    b: Seq<ConnectionPlanModel>,
    c: Seq<ConnectionPlanModel>,
    d: Seq<ConnectionPlanModel>,
)
    requires
        same_connections(a, c),
        same_connections(b, d),
    ensures
        same_connections(a + b, c + d),
{
    assert forall|k: int| 0 <= k < (a + b).len() implies same_connection(
        #[trigger] (a + b)[k],
        (c + d)[k],
    ) by {
        if k < a.len() {
            assert(same_connection(a[k], c[k]));
        } else {
            assert(same_connection(b[k - a.len()], d[k - a.len()]));
        }
    }
}

proof fn lemma_ids_carrying_match(
    a: Seq<ConnectionPlanModel>,
    b: Seq<ConnectionPlanModel>,
    x: StrategyRecordModel,
)
    requires
        same_connections(a, b),
    ensures
        ids_carrying(a, x) == ids_carrying(b, x),
    decreases a.len(),
{
    if a.len() > 0 {
        let c = a.drop_last();
        let d = b.drop_last();
        assert forall|k: int| 0 <= k < c.len() implies same_connection(#[trigger] c[k], d[k]) by {
            assert(same_connection(a[k], b[k]));
        }
        lemma_ids_carrying_match(c, d, x);
        assert(same_connection(a[a.len() - 1], b[a.len() - 1]));
    }
}

/// The placements of some strategies of a shard.
spec fn placements_at(
    s: Seq<StrategyRecordModel>,
    indices: Seq<int>,
    shard_id: Seq<char>,
    connections: Seq<ConnectionPlanModel>,
) -> Seq<StrategyPlacementViewModel> {
    indices.map_values(|i: int| placement_of(s[i], shard_id, connections))
}

proof fn lemma_placements_differ(
    s: Seq<StrategyRecordModel>,
    indices: Seq<int>,
    shard_id: Seq<char>,
    connections: Seq<ConnectionPlanModel>,
)
    requires
        ids_differ(s),
        in_range(s, indices),
        indices.no_duplicates(),
    ensures
        placements_at(s, indices, shard_id, connections).no_duplicates(),
{
    let all = placements_at(s, indices, shard_id, connections);
    lemma_ids_differ_at(s, indices);
    assert forall|k: int, l: int|
        0 <= k < all.len() && 0 <= l < all.len() && k != l implies all[k] != all[l] by {
        assert(ids_of(s, indices)[k] != ids_of(s, indices)[l]);
        assert(all[k].strategy_id == ids_of(s, indices)[k]);
        assert(all[l].strategy_id == ids_of(s, indices)[l]);
    }
}

proof fn lemma_placements_within(
    s: Seq<StrategyRecordModel>,
    a: Seq<int>,
    t: Seq<StrategyRecordModel>,
    b: Seq<int>,
    shard_id: Seq<char>,
    c: Seq<ConnectionPlanModel>,
    d: Seq<ConnectionPlanModel>,
    p: StrategyPlacementViewModel,
)
    requires
        match_up(s, a, t, b),
        same_connections(c, d),
        placements_at(s, a, shard_id, c).contains(p),
    ensures
        placements_at(t, b, shard_id, d).contains(p),
{
    let all = placements_at(s, a, shard_id, c);
    let k = choose|k: int| 0 <= k < all.len() && all[k] == p;
    let x = s[a[k]];
    assert(held(s, a, x));
    assert(held(t, b, x));
    let l = choose|l: int| 0 <= l < b.len() && t[#[trigger] b[l]] == x;
    lemma_ids_carrying_match(c, d, x);
    assert(placements_at(t, b, shard_id, d)[l] == p);
}

proof fn lemma_placements_match(
    s: Seq<StrategyRecordModel>,
    a: Seq<int>,
    t: Seq<StrategyRecordModel>,
    b: Seq<int>,
    shard_id: Seq<char>,
    c: Seq<ConnectionPlanModel>,
    d: Seq<ConnectionPlanModel>,
)
    requires
        ids_differ(s),
        ids_differ(t),
        match_up(s, a, t, b),
        a.no_duplicates(),
        b.no_duplicates(),
        same_connections(c, d),
    ensures
        placements_at(s, a, shard_id, c).to_multiset() == placements_at(
            t,
            b,
            shard_id,
            d,
        ).to_multiset(),
{
    let x = placements_at(s, a, shard_id, c);
    let y = placements_at(t, b, shard_id, d);
    lemma_placements_differ(s, a, shard_id, c);
    lemma_placements_differ(t, b, shard_id, d);
    assert(same_connections(d, c));
    assert forall|p: StrategyPlacementViewModel| #[trigger] x.contains(p) <==> y.contains(p) by {
        if x.contains(p) {
            lemma_placements_within(s, a, t, b, shard_id, c, d, p);
        }
        if y.contains(p) {
            lemma_placements_within(t, b, s, a, shard_id, d, c, p);
        }
    }
    lemma_same_multiset(x, y);
}

proof fn lemma_shard_ids_match(
    s: Seq<StrategyRecordModel>,
    a: Seq<int>,
    t: Seq<StrategyRecordModel>,
    b: Seq<int>,
)
    requires
        ids_differ(s),
        ids_differ(t),
        match_up(s, a, t, b),
        a.no_duplicates(),
        b.no_duplicates(),
    ensures
        ids_of(s, a).to_multiset() == ids_of(t, b).to_multiset(),
{
    lemma_ids_differ_at(s, a);
    lemma_ids_differ_at(t, b);
    assert forall|id: Seq<char>| #[trigger]
        ids_of(s, a).contains(id) <==> ids_of(t, b).contains(id) by {
        if ids_of(s, a).contains(id) {
            lemma_ids_within(s, a, t, b, id);
        }
        if ids_of(t, b).contains(id) {
            lemma_ids_within(t, b, s, a, id);
        }
    }
    lemma_same_multiset(ids_of(s, a), ids_of(t, b));
}

/// Whether the parts of two plans are the same but for the order of their strategies.
spec fn same_parts(a: PlanParts, b: PlanParts) -> bool {
    &&& same_shards(a.shards, b.shards)
    &&& same_connections(a.connections, b.connections)
    &&& a.placements.to_multiset() == b.placements.to_multiset()
}

proof fn lemma_with_shard_match(
    s: Seq<StrategyRecordModel>,
    a: PlanParts,
    g: Seq<ComponentModel>,
    t: Seq<StrategyRecordModel>,
    b: PlanParts,
    h: Seq<ComponentModel>,
)
    requires
        ids_differ(s),
        ids_differ(t),
        same_parts(a, b),
        groups_match(s, g, t, h),
    ensures
        same_parts(with_shard(s, a, g), with_shard(t, b, h)),
{
    let i = shard_members(s, g);
    let j = shard_members(t, h);
    let shard_id = shard_name(a.shards.len() + 1);
    let first = a.connections.len() + 1;
    let c = shard_connections(s, i, shard_id, first);
    let d = shard_connections(t, j, shard_id, first);
    lemma_shard_members_match(s, g, t, h);
    lemma_shard_connections_match(s, i, t, j, shard_id, first);
    lemma_same_joined(a.connections, c, b.connections, d);
    lemma_placements_match(s, i, t, j, shard_id, c, d);
    lemma_shard_ids_match(s, i, t, j);
    lemma_same_markets(s, i, t, j);
    let x = with_shard(s, a, g);
    let y = with_shard(t, b, h);
    assert(c.map_values(|c: ConnectionPlanModel| c.connection_id) =~= d.map_values(
        |c: ConnectionPlanModel| c.connection_id,
    )) by {
        assert forall|k: int| 0 <= k < c.len() implies (#[trigger] c[k]).connection_id
            == d[k].connection_id by {
            assert(same_connection(c[k], d[k]));
        }
    }
    assert forall|k: int| 0 <= k < x.shards.len() implies same_shard(
        #[trigger] x.shards[k],
        y.shards[k],
    ) by {
        if k < a.shards.len() {
            assert(same_shard(a.shards[k], b.shards[k]));
        }
    }
    assert(x.placements =~= a.placements + placements_at(s, i, shard_id, c));
    assert(y.placements =~= b.placements + placements_at(t, j, shard_id, d));
    vstd::seq_lib::lemma_multiset_commutative(a.placements, placements_at(s, i, shard_id, c));
    vstd::seq_lib::lemma_multiset_commutative(b.placements, placements_at(t, j, shard_id, d));
}

proof fn lemma_parts_match(
    s: Seq<StrategyRecordModel>,
    g: Seq<Seq<ComponentModel>>,
    t: Seq<StrategyRecordModel>,
    h: Seq<Seq<ComponentModel>>,
)
    requires
        ids_differ(s),
        ids_differ(t),
        packings_match(s, g, t, h),
    ensures
        same_parts(plan_parts(s, g), plan_parts(t, h)),
    decreases g.len(),
{
    if g.len() > 0 {
        let before = g.drop_last();
        let other = h.drop_last();
        assert forall|k: int| 0 <= k < before.len() implies groups_match(
            s,
            #[trigger] before[k],
            t,
            other[k],
        ) by {
            assert(groups_match(s, g[k], t, h[k]));
        }
        lemma_parts_match(s, before, t, other);
        assert(groups_match(s, g[g.len() - 1], t, h[g.len() - 1]));
        lemma_with_shard_match(
            s,
            plan_parts(s, before),
            g.last(),
            t,
            plan_parts(t, other),
            h.last(),
        );
    }
}

proof fn lemma_every_index(s: Seq<StrategyRecordModel>)
    ensures
        in_range(s, every_index(s)),
        forall|x: StrategyRecordModel|
            #![trigger held(s, every_index(s), x)]
            held(s, every_index(s), x) <==> s.contains(x),
{
    let all = every_index(s);
    lemma_numbers_below(s.len(), |i: int| true);
    assert forall|k: int| 0 <= k < all.len() implies 0 <= #[trigger] all[k] < s.len() by {
        assert(all.contains(all[k]));
    }
    assert forall|x: StrategyRecordModel|
        #![trigger held(s, all, x)]
        held(s, all, x) <==> s.contains(x) by {
        if held(s, all, x) {
            let k = choose|k: int| 0 <= k < all.len() && s[#[trigger] all[k]] == x;
            assert(s[all[k]] == x);
        }
        if s.contains(x) {
            let i = choose|i: int| 0 <= i < s.len() && s[i] == x;
            assert(all.contains(i));
            let k = choose|k: int| 0 <= k < all.len() && all[k] == i;
            assert(s[all[k]] == x);
        }
    }
}

/// The order in which strategies with different identifiers are listed does not matter: whatever
/// the order, the plan has the same shards, watching the same markets over the same connections,
/// and the same strategies run in each of them. Only the order of the strategies within their
/// lists, and the time, may differ.
pub proof fn order_of_strategies_does_not_matter(
    s: Seq<StrategyRecordModel>,
    t: Seq<StrategyRecordModel>,
    at: u64,
    other: u64,
)
    requires
        ids_differ(s),
        s.to_multiset() == t.to_multiset(),
    ensures
        same_plan(plan_model(s, at), plan_model(t, other)),
{
    broadcast use vstd::seq_lib::group_to_multiset_ensures;

    assert(s.len() == s.to_multiset().len());
    assert(t.len() == t.to_multiset().len());
    assert forall|x: StrategyRecordModel| s.contains(x) <==> t.contains(x) by {
        assert(s.contains(x) <==> s.to_multiset().count(x) > 0);
        assert(t.contains(x) <==> t.to_multiset().count(x) > 0);
    }
    lemma_ids_differ_too(s, t);
    lemma_components_match(s, t);
    lemma_packed_match(s, components_model(s), t, components_model(t));
    lemma_parts_match(s, packed(s, components_model(s)), t, packed(t, components_model(t)));
    lemma_every_index(s);
    lemma_every_index(t);
    assert forall|x: StrategyRecordModel|
        held(s, every_index(s), x) <==> held(t, every_index(t), x) by {
        assert(s.contains(x) <==> t.contains(x));
    }
    lemma_same_markets(s, every_index(s), t, every_index(t));
}

proof fn lemma_ids_differ_too(s: Seq<StrategyRecordModel>, t: Seq<StrategyRecordModel>)
    requires
        ids_differ(s),
        s.to_multiset() == t.to_multiset(),
        same_records(s, t),
    ensures
        ids_differ(t),
{
    assert(s.no_duplicates());
    s.lemma_multiset_has_no_duplicates();
    t.lemma_multiset_has_no_duplicates_conv();
    assert forall|i: int, j: int| 0 <= i < j < t.len() implies (#[trigger] t[i]).config.id != (
    #[trigger] t[j]).config.id by {
        assert(t.contains(t[i]) && t.contains(t[j]));
        lemma_where_in(s, t[i]);
        lemma_where_in(s, t[j]);
        assert(t[i] != t[j]);
        let k = where_in(s, t[i]);
        let l = where_in(s, t[j]);
        if k < l {
            assert(s[k].config.id != s[l].config.id);
        } else {
            assert(s[l].config.id != s[k].config.id);
        }
    }
}

} // verus!
