//! The runtime plan: which strategies run together, and which connections feed them.
//!
//! Strategies that share a market, directly or through others, form a component. Components are
//! packed into shards in the order of their strategies' identifiers, a shard taking components as
//! long as it stays within a number of markets. Each shard gets its own connections.

use vstd::prelude::*;

use crate::config::ids::{ConnectionId, ShardId, StrategyId};
use crate::config::model::{
    now_ms, DepthMode, Exchange, MarketKey, MarketKeyModel, StrategyPlacementView,
    StrategyPlacementViewModel, StrategyRecord, StrategyRecordModel,
};
use crate::order::{
    add_market, has_market, lemma_sorted_contains, list_less, list_lt, market_set,
    market_set_is_the_set, stable_sort, stably_sorted,
};
use crate::text::{
    decimal, decimal_padded, join, joined, numeral, numeral_padded, text_less, text_lt,
};

verus! {

/// How many markets a shard may watch before another component opens a new shard.
pub const MAX_MARKETS_PER_SHARD: usize = 12;

/// What one shard runs.
#[derive(Debug)]
pub struct ShardPlan {
    pub shard_id: ShardId,
    pub strategy_ids: Vec<StrategyId>,
    pub connection_ids: Vec<ConnectionId>,
    pub subscribed_markets: Vec<MarketKey>,
    pub component_count: usize,
}

/// What a [`ShardPlan`] holds.
#[verifier::ext_equal]
pub struct ShardPlanModel {
    pub shard_id: Seq<char>,
    pub strategy_ids: Seq<Seq<char>>,
    pub connection_ids: Seq<Seq<char>>,
    pub subscribed_markets: Seq<MarketKeyModel>,
    pub component_count: usize,
}

impl View for ShardPlan {
    type V = ShardPlanModel;

    open spec fn view(&self) -> ShardPlanModel {
        ShardPlanModel {
            shard_id: self.shard_id@,
            strategy_ids: self.strategy_ids.deep_view(),
            connection_ids: self.connection_ids.deep_view(),
            subscribed_markets: self.subscribed_markets.deep_view(),
            component_count: self.component_count,
        }
    }
}

impl DeepView for ShardPlan {
    type V = ShardPlanModel;

    open spec fn deep_view(&self) -> ShardPlanModel {
        self@
    }
}

impl Clone for ShardPlan {
    fn clone(&self) -> (r: Self)
        ensures
            r@ == self@,
    {
        let shard_id = self.shard_id.clone();
        let strategy_ids = self.strategy_ids.clone();
        let connection_ids = self.connection_ids.clone();
        let subscribed_markets = self.subscribed_markets.clone();
        assert(strategy_ids.deep_view() =~= self.strategy_ids.deep_view());
        assert(connection_ids.deep_view() =~= self.connection_ids.deep_view());
        assert(subscribed_markets.deep_view() =~= self.subscribed_markets.deep_view());
        ShardPlan {
            shard_id,
            strategy_ids,
            connection_ids,
            subscribed_markets,
            component_count: self.component_count,
        }
    }
}

/// What one market data connection carries.
#[derive(Debug)]
pub struct ConnectionPlan {
    pub connection_id: ConnectionId,
    pub shard_id: ShardId,
    pub exchange: Exchange,
    pub depth_mode: DepthMode,
    pub symbols: Vec<String>,
    pub strategy_ids: Vec<StrategyId>,
}

/// What a [`ConnectionPlan`] holds.
#[verifier::ext_equal]
pub struct ConnectionPlanModel {
    pub connection_id: Seq<char>,
    pub shard_id: Seq<char>,
    pub exchange: Exchange,
    pub depth_mode: DepthMode,
    pub symbols: Seq<Seq<char>>,
    pub strategy_ids: Seq<Seq<char>>,
}

impl View for ConnectionPlan {
    type V = ConnectionPlanModel;

    open spec fn view(&self) -> ConnectionPlanModel {
        ConnectionPlanModel {
            connection_id: self.connection_id@,
            shard_id: self.shard_id@,
            exchange: self.exchange,
            depth_mode: self.depth_mode,
            symbols: self.symbols.deep_view(),
            strategy_ids: self.strategy_ids.deep_view(),
        }
    }
}

impl DeepView for ConnectionPlan {
    type V = ConnectionPlanModel;

    open spec fn deep_view(&self) -> ConnectionPlanModel {
        self@
    }
}

impl Clone for ConnectionPlan {
    fn clone(&self) -> (r: Self)
        ensures
            r@ == self@,
    {
        let connection_id = self.connection_id.clone();
        let shard_id = self.shard_id.clone();
        let symbols = self.symbols.clone();
        let strategy_ids = self.strategy_ids.clone();
        assert(symbols.deep_view() =~= self.symbols.deep_view());
        assert(strategy_ids.deep_view() =~= self.strategy_ids.deep_view());
        ConnectionPlan {
            connection_id,
            shard_id,
            exchange: self.exchange,
            depth_mode: self.depth_mode,
            symbols,
            strategy_ids,
        }
    }
}

/// How the enabled strategies are spread over shards and connections.
#[derive(Debug)]
pub struct RuntimePlan {
    pub generated_at_ms: u64,
    pub total_enabled_strategies: usize,
    pub total_unique_markets: usize,
    pub shards: Vec<ShardPlan>,
    pub connections: Vec<ConnectionPlan>,
    pub strategy_placements: Vec<StrategyPlacementView>,
}

/// What a [`RuntimePlan`] holds.
#[verifier::ext_equal]
pub struct RuntimePlanModel {
    pub generated_at_ms: u64,
    pub total_enabled_strategies: usize,
    pub total_unique_markets: usize,
    pub shards: Seq<ShardPlanModel>,
    pub connections: Seq<ConnectionPlanModel>,
    pub strategy_placements: Seq<StrategyPlacementViewModel>,
}

impl View for RuntimePlan {
    type V = RuntimePlanModel;

    open spec fn view(&self) -> RuntimePlanModel {
        RuntimePlanModel {
            generated_at_ms: self.generated_at_ms,
            total_enabled_strategies: self.total_enabled_strategies,
            total_unique_markets: self.total_unique_markets,
            shards: self.shards.deep_view(),
            connections: self.connections.deep_view(),
            strategy_placements: self.strategy_placements.deep_view(),
        }
    }
}

impl DeepView for RuntimePlan {
    type V = RuntimePlanModel;

    open spec fn deep_view(&self) -> RuntimePlanModel {
        self@
    }
}

impl Clone for RuntimePlan {
    fn clone(&self) -> (r: Self)
        ensures
            r@ == self@,
    {
        let shards = self.shards.clone();
        let connections = self.connections.clone();
        let strategy_placements = self.strategy_placements.clone();
        assert(shards.deep_view() =~= self.shards.deep_view());
        assert(connections.deep_view() =~= self.connections.deep_view());
        assert(strategy_placements.deep_view() =~= self.strategy_placements.deep_view());
        RuntimePlan {
            generated_at_ms: self.generated_at_ms,
            total_enabled_strategies: self.total_enabled_strategies,
            total_unique_markets: self.total_unique_markets,
            shards,
            connections,
            strategy_placements,
        }
    }
}

/// Whether two strategies trade a market in common.
pub open spec fn share_market(s: Seq<StrategyRecordModel>, i: int, j: int) -> bool {
    exists|m: MarketKeyModel| #[trigger]
        s[i].config.markets().contains(m) && s[j].config.markets().contains(m)
}

/// Whether `path` leads from strategy to strategy over shared markets.
pub open spec fn is_path(s: Seq<StrategyRecordModel>, path: Seq<int>) -> bool {
    &&& path.len() > 0
    &&& forall|k: int| 0 <= k < path.len() ==> 0 <= #[trigger] path[k] < s.len()
    &&& forall|k: int, l: int|
        0 <= k && l == k + 1 && l < path.len() ==> share_market(
            s,
            #[trigger] path[k],
            #[trigger] path[l],
        )
}

/// Whether two strategies are connected, directly or through others.
pub open spec fn linked(s: Seq<StrategyRecordModel>, i: int, j: int) -> bool {
    exists|path: Seq<int>| #[trigger] is_path(s, path) && path.first() == i && path.last() == j
}

/// The numbers below `n` that satisfy `p`, in ascending order.
pub open spec fn numbers_below(n: nat, p: spec_fn(int) -> bool) -> Seq<int>
    decreases n,
{
    if n == 0 {
        Seq::empty()
    } else if p(n - 1) {
        numbers_below((n - 1) as nat, p).push(n - 1)
    } else {
        numbers_below((n - 1) as nat, p)
    }
}

/// The strategies connected with strategy `i`, in ascending order.
pub open spec fn members(s: Seq<StrategyRecordModel>, i: int) -> Seq<int> {
    numbers_below(s.len(), |j: int| linked(s, i, j))
}

/// Whether strategy `i` is the first of its component.
pub open spec fn is_root(s: Seq<StrategyRecordModel>, i: int) -> bool {
    forall|j: int| 0 <= j < i ==> !linked(s, j, i)
}

/// A component: its strategies, and their identifiers in order.
#[verifier::ext_equal]
pub struct ComponentModel {
    pub indices: Seq<int>,
    pub ids: Seq<Seq<char>>,
}

/// The identifiers of some strategies.
pub open spec fn ids_of(s: Seq<StrategyRecordModel>, indices: Seq<int>) -> Seq<Seq<char>> {
    indices.map_values(|i: int| s[i].config.id)
}

/// The order of texts as a function.
pub open spec fn by_text() -> spec_fn(Seq<char>, Seq<char>) -> bool {
    |a: Seq<char>, b: Seq<char>| text_lt(a, b)
}

/// The order of components: by their identifiers.
pub open spec fn by_ids() -> spec_fn(ComponentModel, ComponentModel) -> bool {
    |a: ComponentModel, b: ComponentModel| list_lt(a.ids, b.ids)
}

/// The component of strategy `i`.
pub open spec fn component_of(s: Seq<StrategyRecordModel>, i: int) -> ComponentModel {
    ComponentModel {
        indices: members(s, i),
        ids: stably_sorted(ids_of(s, members(s, i)), by_text()),
    }
}

/// The first strategies of the components among the first `n` strategies.
pub open spec fn roots_below(s: Seq<StrategyRecordModel>, n: nat) -> Seq<int> {
    numbers_below(n, |i: int| is_root(s, i))
}

/// The components that begin among the first `n` strategies.
pub open spec fn components_below(s: Seq<StrategyRecordModel>, n: nat) -> Seq<ComponentModel> {
    roots_below(s, n).map_values(|i: int| component_of(s, i))
}

/// All components, in the order of their identifiers.
pub open spec fn components_model(s: Seq<StrategyRecordModel>) -> Seq<ComponentModel> {
    stably_sorted(components_below(s, s.len()), by_ids())
}

/// The markets of some strategies, one strategy after the other.
pub open spec fn markets_of(s: Seq<StrategyRecordModel>, indices: Seq<int>) -> Seq<MarketKeyModel>
    decreases indices.len(),
{
    if indices.len() == 0 {
        Seq::empty()
    } else {
        markets_of(s, indices.drop_last()) + s[indices.last()].config.markets()
    }
}

/// The strategies of some components, one component after the other.
pub open spec fn flat(group: Seq<ComponentModel>) -> Seq<int>
    decreases group.len(),
{
    if group.len() == 0 {
        Seq::empty()
    } else {
        flat(group.drop_last()) + group.last().indices
    }
}

/// How many different markets some components trade.
pub open spec fn group_size(s: Seq<StrategyRecordModel>, group: Seq<ComponentModel>) -> nat {
    market_set(markets_of(s, flat(group))).len()
}

/// The components packed into shards: a component joins the last shard unless that shard would
/// then watch too many markets.
pub open spec fn packed(
    s: Seq<StrategyRecordModel>,
    components: Seq<ComponentModel>,
) -> Seq<Seq<ComponentModel>>
    decreases components.len(),
{
    if components.len() == 0 {
        Seq::empty()
    } else {
        let groups = packed(s, components.drop_last());
        let next = components.last();
        if groups.len() == 0 || group_size(s, groups.last().push(next)) > MAX_MARKETS_PER_SHARD {
            groups.push(seq![next])
        } else {
            groups.drop_last().push(groups.last().push(next))
        }
    }
}

/// The strategies of a shard, in ascending order.
pub open spec fn shard_members(
    s: Seq<StrategyRecordModel>,
    group: Seq<ComponentModel>,
) -> Seq<int> {
    numbers_below(s.len(), |i: int| flat(group).contains(i))
}

/// The markets of `markets` on one exchange.
pub open spec fn on_exchange(markets: Seq<MarketKeyModel>, exchange: Exchange) -> Seq<
    MarketKeyModel,
>
    decreases markets.len(),
{
    if markets.len() == 0 {
        Seq::empty()
    } else if markets.last().exchange == exchange {
        on_exchange(markets.drop_last(), exchange).push(markets.last())
    } else {
        on_exchange(markets.drop_last(), exchange)
    }
}

/// `markets` cut into pieces of `size`, the last one possibly shorter.
pub open spec fn chunks(markets: Seq<MarketKeyModel>, size: nat) -> Seq<Seq<MarketKeyModel>>
    decreases markets.len(),
{
    if markets.len() == 0 || size == 0 {
        Seq::empty()
    } else if markets.len() <= size {
        seq![markets]
    } else {
        seq![markets.take(size as int)] + chunks(markets.skip(size as int), size)
    }
}

/// The identifiers of those strategies that trade a market of `markets`.
pub open spec fn ids_trading(
    s: Seq<StrategyRecordModel>,
    indices: Seq<int>,
    markets: Seq<MarketKeyModel>,
) -> Seq<Seq<char>>
    decreases indices.len(),
{
    if indices.len() == 0 {
        Seq::empty()
    } else {
        let front = ids_trading(s, indices.drop_last(), markets);
        let config = s[indices.last()].config;
        if markets.contains(config.long_leg.market()) || markets.contains(
            config.short_leg.market(),
        ) {
            front.push(config.id)
        } else {
            front
        }
    }
}

/// The connection with number `number` for some markets of one exchange.
pub open spec fn connection_for(
    s: Seq<StrategyRecordModel>,
    indices: Seq<int>,
    shard_id: Seq<char>,
    exchange: Exchange,
    markets: Seq<MarketKeyModel>,
    number: nat,
) -> ConnectionPlanModel {
    ConnectionPlanModel {
        connection_id: "conn-"@ + numeral_padded(number),
        shard_id,
        exchange,
        depth_mode: exchange.capabilities_model().depth_mode,
        symbols: markets.map_values(|m: MarketKeyModel| m.symbol),
        strategy_ids: ids_trading(s, indices, markets),
    }
}

/// The connections for one exchange's markets of a shard, numbered from `first`.
pub open spec fn exchange_connections(
    s: Seq<StrategyRecordModel>,
    indices: Seq<int>,
    shard_id: Seq<char>,
    exchange: Exchange,
    markets: Seq<MarketKeyModel>,
    first: nat,
) -> Seq<ConnectionPlanModel> {
    let pieces = chunks(
        on_exchange(markets, exchange),
        exchange.capabilities_model().max_symbols_per_connection as nat,
    );
    Seq::new(
        pieces.len(),
        |k: int|
            connection_for(s, indices, shard_id, exchange, pieces[k], (first + k) as nat),
    )
}

/// The connections of a shard, numbered from `first`, exchange by exchange.
pub open spec fn shard_connections(
    s: Seq<StrategyRecordModel>,
    indices: Seq<int>,
    shard_id: Seq<char>,
    first: nat,
) -> Seq<ConnectionPlanModel> {
    let markets = market_set(markets_of(s, indices));
    let binance = exchange_connections(
        s,
        indices,
        shard_id,
        Exchange::BinanceUsdM,
        markets,
        first,
    );
    binance + exchange_connections(
        s,
        indices,
        shard_id,
        Exchange::BybitLinear,
        markets,
        first + binance.len(),
    )
}

impl ConnectionPlanModel {
    /// Whether the connection carries a market.
    pub open spec fn carries(self, market: MarketKeyModel) -> bool {
        self.exchange == market.exchange && self.symbols.contains(market.symbol)
    }
}

/// The identifiers of the connections that carry a market of a strategy.
pub open spec fn ids_carrying(
    connections: Seq<ConnectionPlanModel>,
    strategy: StrategyRecordModel,
) -> Seq<Seq<char>>
    decreases connections.len(),
{
    if connections.len() == 0 {
        Seq::empty()
    } else {
        let front = ids_carrying(connections.drop_last(), strategy);
        let next = connections.last();
        if next.carries(strategy.config.long_leg.market()) || next.carries(
            strategy.config.short_leg.market(),
        ) {
            front.push(next.connection_id)
        } else {
            front
        }
    }
}

/// Where a strategy runs.
pub open spec fn placement_of(
    strategy: StrategyRecordModel,
    shard_id: Seq<char>,
    connections: Seq<ConnectionPlanModel>,
) -> StrategyPlacementViewModel {
    StrategyPlacementViewModel {
        strategy_id: strategy.config.id,
        shard_id,
        connection_ids: ids_carrying(connections, strategy),
        markets: strategy.config.markets(),
    }
}

/// The identifier of the shard with number `number`.
pub open spec fn shard_name(number: nat) -> Seq<char> {
    "shard-"@ + numeral_padded(number)
}

/// Shards, connections and placements of the first shards of a plan.
#[verifier::ext_equal]
pub struct PlanParts {
    pub shards: Seq<ShardPlanModel>,
    pub connections: Seq<ConnectionPlanModel>,
    pub placements: Seq<StrategyPlacementViewModel>,
}

/// A plan's parts with one more shard.
pub open spec fn with_shard(
    s: Seq<StrategyRecordModel>,
    parts: PlanParts,
    group: Seq<ComponentModel>,
) -> PlanParts {
    let indices = shard_members(s, group);
    let shard_id = shard_name(parts.shards.len() + 1);
    let connections = shard_connections(s, indices, shard_id, parts.connections.len() + 1);
    PlanParts {
        shards: parts.shards.push(
            ShardPlanModel {
                shard_id,
                strategy_ids: ids_of(s, indices),
                connection_ids: connections.map_values(|c: ConnectionPlanModel| c.connection_id),
                subscribed_markets: market_set(markets_of(s, indices)),
                component_count: group.len() as usize,
            },
        ),
        connections: parts.connections + connections,
        placements: parts.placements + indices.map_values(
            |i: int| placement_of(s[i], shard_id, connections),
        ),
    }
}

/// The parts of the plan with the shards of `groups`.
pub open spec fn plan_parts(
    s: Seq<StrategyRecordModel>,
    groups: Seq<Seq<ComponentModel>>,
) -> PlanParts
    decreases groups.len(),
{
    if groups.len() == 0 {
        PlanParts { shards: Seq::empty(), connections: Seq::empty(), placements: Seq::empty() }
    } else {
        with_shard(s, plan_parts(s, groups.drop_last()), groups.last())
    }
}

/// All strategies.
pub open spec fn every_index(s: Seq<StrategyRecordModel>) -> Seq<int> {
    numbers_below(s.len(), |i: int| true)
}

/// The plan for the strategies `s`.
pub open spec fn plan_model(
    s: Seq<StrategyRecordModel>,
    generated_at_ms: u64,
) -> RuntimePlanModel {
    let parts = plan_parts(s, packed(s, components_model(s)));
    RuntimePlanModel {
        generated_at_ms,
        total_enabled_strategies: s.len() as usize,
        total_unique_markets: market_set(markets_of(s, every_index(s))).len() as usize,
        shards: parts.shards,
        connections: parts.connections,
        strategy_placements: parts.placements,
    }
}

/// Machine numbers as integers.
pub open spec fn as_ints(v: Seq<usize>) -> Seq<int> {
    v.map_values(|i: usize| i as int)
}

/// A component while the plan is being made.
struct StrategyComponent {
    strategy_indices: Vec<usize>,
    strategy_ids: Vec<StrategyId>,
}

impl DeepView for StrategyComponent {
    type V = ComponentModel;

    closed spec fn deep_view(&self) -> ComponentModel {
        ComponentModel {
            indices: as_ints(self.strategy_indices@),
            ids: self.strategy_ids.deep_view(),
        }
    }
}

pub(crate) proof fn lemma_shares(s: Seq<StrategyRecordModel>, i: int, j: int)
    ensures
        share_market(s, i, j) <==> {
            let a = s[i].config;
            let b = s[j].config;
            ||| a.long_leg.market() == b.long_leg.market()
            ||| a.long_leg.market() == b.short_leg.market()
            ||| a.short_leg.market() == b.long_leg.market()
            ||| a.short_leg.market() == b.short_leg.market()
        },
        share_market(s, i, j) <==> share_market(s, j, i),
        share_market(s, i, i),
{
    let a = s[i].config.markets();
    let b = s[j].config.markets();
    assert(a.contains(a[0]) && a.contains(a[1]));
    assert(b.contains(b[0]) && b.contains(b[1]));
    assert(b.contains(a[0]) ==> share_market(s, i, j));
    assert(b.contains(a[1]) ==> share_market(s, i, j));
    assert(a.contains(b[0]) ==> share_market(s, j, i));
    assert(a.contains(b[1]) ==> share_market(s, j, i));
    if share_market(s, i, j) {
        let m = choose|m: MarketKeyModel| #[trigger] a.contains(m) && b.contains(m);
        assert(b.contains(m) && a.contains(m));
    }
    if share_market(s, j, i) {
        let m = choose|m: MarketKeyModel| #[trigger] b.contains(m) && a.contains(m);
        assert(a.contains(m) && b.contains(m));
    }
}

/// Every strategy is connected with itself.
pub proof fn linked_reflexive(s: Seq<StrategyRecordModel>, i: int)
    requires
        0 <= i < s.len(),
    ensures
        linked(s, i, i),
{
    assert(is_path(s, seq![i]));
}

/// Strategies that trade a market in common are connected.
pub proof fn sharing_links(s: Seq<StrategyRecordModel>, i: int, j: int)
    requires
        0 <= i < s.len(),
        0 <= j < s.len(),
        share_market(s, i, j),
    ensures
        linked(s, i, j),
{
    let path = seq![i, j];
    assert(is_path(s, path));
    assert(path.first() == i && path.last() == j);
}

/// Being connected does not depend on the direction.
pub proof fn linked_symmetric(s: Seq<StrategyRecordModel>, i: int, j: int)
    requires
        linked(s, i, j),
    ensures
        linked(s, j, i),
{
    let path = choose|path: Seq<int>|
        #[trigger] is_path(s, path) && path.first() == i && path.last() == j;
    let back = path.reverse();
    assert forall|k: int, l: int| 0 <= k && l == k + 1 && l < back.len() implies share_market(
        s,
        #[trigger] back[k],
        #[trigger] back[l],
    ) by {
        let n = path.len() as int;
        assert(back[k] == path[n - 1 - k]);
        assert(back[l] == path[n - 1 - l]);
        assert(share_market(s, path[n - 1 - l], path[n - 1 - k]));
        lemma_shares(s, path[n - 1 - l], path[n - 1 - k]);
    }
    assert(is_path(s, back));
}

/// What is connected with a connected strategy is connected.
pub proof fn linked_transitive(s: Seq<StrategyRecordModel>, i: int, j: int, k: int)
    requires
        linked(s, i, j),
        linked(s, j, k),
    ensures
        linked(s, i, k),
{
    let a = choose|path: Seq<int>|
        #[trigger] is_path(s, path) && path.first() == i && path.last() == j;
    let b = choose|path: Seq<int>|
        #[trigger] is_path(s, path) && path.first() == j && path.last() == k;
    let c = a + b;
    assert forall|x: int, y: int| 0 <= x && y == x + 1 && y < c.len() implies share_market(
        s,
        #[trigger] c[x],
        #[trigger] c[y],
    ) by {
        if y < a.len() {
            assert(share_market(s, a[x], a[y]));
        } else if x >= a.len() {
            assert(share_market(s, b[x - a.len()], b[y - a.len()]));
        } else {
            assert(c[x] == j && c[y] == j);
            lemma_shares(s, j, j);
        }
    }
    assert(is_path(s, c));
}

pub(crate) proof fn lemma_linked_bounds(s: Seq<StrategyRecordModel>, i: int, j: int)
    requires
        linked(s, i, j),
    ensures
        0 <= i < s.len(),
        0 <= j < s.len(),
{
    let path = choose|path: Seq<int>|
        #[trigger] is_path(s, path) && path.first() == i && path.last() == j;
    assert(0 <= path[0] < s.len());
    assert(0 <= path[path.len() - 1] < s.len());
}

/// A set of strategies that is closed under sharing markets holds, with a strategy, all that is
/// connected with it.
pub(crate) proof fn lemma_closed_holds_path(
    s: Seq<StrategyRecordModel>,
    inside: spec_fn(int) -> bool,
    path: Seq<int>,
)
    requires
        is_path(s, path),
        inside(path.first()),
        forall|i: int, j: int|
            0 <= i < s.len() && 0 <= j < s.len() && #[trigger] inside(i) && #[trigger] share_market(
                s,
                i,
                j,
            ) ==> inside(j),
    ensures
        inside(path.last()),
    decreases path.len(),
{
    if path.len() > 1 {
        let front = path.drop_last();
        assert forall|k: int, l: int| 0 <= k && l == k + 1 && l < front.len() implies share_market(
            s,
            #[trigger] front[k],
            #[trigger] front[l],
        ) by {
            assert(share_market(s, path[k], path[l]));
        }
        assert(is_path(s, front));
        lemma_closed_holds_path(s, inside, front);
        assert(front.last() == path[path.len() - 2]);
        assert(share_market(s, path[path.len() - 2], path[path.len() - 1]));
        assert(inside(path[path.len() - 2]));
    }
}

pub(crate) proof fn lemma_numbers_below(n: nat, p: spec_fn(int) -> bool)
    ensures
        forall|x: int| #[trigger] numbers_below(n, p).contains(x) <==> 0 <= x < n && p(x),
        forall|i: int, j: int|
            0 <= i < j < numbers_below(n, p).len() ==> #[trigger] numbers_below(n, p)[i]
                < #[trigger] numbers_below(n, p)[j],
    decreases n,
{
    if n > 0 {
        let m = (n - 1) as nat;
        lemma_numbers_below(m, p);
        let front = numbers_below(m, p);
        let all = numbers_below(n, p);
        assert forall|x: int| #[trigger] all.contains(x) <==> 0 <= x < n && p(x) by {
            assert(front.contains(x) <==> 0 <= x < m && p(x));
            if front.contains(x) {
                let k = choose|k: int| 0 <= k < front.len() && front[k] == x;
                assert(all[k] == x);
            }
            if p(n - 1) {
                assert(all[front.len() as int] == n - 1);
            }
            if all.contains(x) {
                let k = choose|k: int| 0 <= k < all.len() && all[k] == x;
                if k < front.len() {
                    assert(front[k] == x);
                }
            }
        }
        assert forall|i: int, j: int| 0 <= i < j < all.len() implies #[trigger] all[i]
            < #[trigger] all[j] by {
            assert(front.contains(front[i]));
            if j < front.len() {
                assert(front[i] < front[j]);
            }
        }
    }
}

pub(crate) proof fn lemma_numbers_below_same(n: nat, p: spec_fn(int) -> bool, q: spec_fn(int) -> bool)
    requires
        forall|x: int| 0 <= x < n ==> #[trigger] p(x) == q(x),
    ensures
        numbers_below(n, p) == numbers_below(n, q),
    decreases n,
{
    if n > 0 {
        lemma_numbers_below_same((n - 1) as nat, p, q);
        assert(p(n - 1) == q(n - 1));
    }
}

fn shares(a: &StrategyRecord, b: &StrategyRecord) -> (r: bool)
    ensures
        r <==> {
            ||| a@.config.long_leg.market() == b@.config.long_leg.market()
            ||| a@.config.long_leg.market() == b@.config.short_leg.market()
            ||| a@.config.short_leg.market() == b@.config.long_leg.market()
            ||| a@.config.short_leg.market() == b@.config.short_leg.market()
        },
{
    let a_long = a.long_leg.market();
    let a_short = a.short_leg.market();
    let b_long = b.long_leg.market();
    let b_short = b.short_leg.market();
    a_long.same(&b_long) || a_long.same(&b_short) || a_short.same(&b_long) || a_short.same(&b_short)
}

spec fn unlabelled(labels: Seq<usize>) -> nat
    decreases labels.len(),
{
    if labels.len() == 0 {
        0
    } else {
        unlabelled(labels.drop_last()) + if labels.last() == 0 {
            1nat
        } else {
            0
        }
    }
}

proof fn lemma_label_one(labels: Seq<usize>, i: int, label: usize)
    requires
        0 <= i < labels.len(),
        labels[i] == 0,
        label != 0,
    ensures
        unlabelled(labels.update(i, label)) == unlabelled(labels) - 1,
    decreases labels.len(),
{
    let after = labels.update(i, label);
    if i == labels.len() - 1 {
        assert(after.drop_last() =~= labels.drop_last());
    } else {
        assert(after.drop_last() =~= labels.drop_last().update(i, label));
        lemma_label_one(labels.drop_last(), i, label);
    }
}

/// Gives every strategy that is connected with `start` the label `start + 1`.
fn label_component(strategies: &[StrategyRecord], start: usize, labels: &mut Vec<usize>)
    requires
        old(labels).len() == strategies@.len(),
        start < strategies@.len(),
        strategies@.len() < usize::MAX,
        old(labels)[start as int] == 0,
        forall|i: int| 0 <= i < old(labels).len() ==> #[trigger] old(labels)[i] <= start,
        forall|i: int, j: int|
            0 <= i < old(labels).len() && 0 <= j < old(labels).len() && #[trigger] old(labels)[i]
                != 0 && #[trigger] share_market(strategies.deep_view(), i, j) ==> old(labels)[j]
                != 0,
    ensures
        final(labels).len() == old(labels).len(),
        forall|i: int|
            0 <= i < old(labels).len() ==> #[trigger] final(labels)[i] == if linked(
                strategies.deep_view(),
                start as int,
                i,
            ) {
                (start + 1) as usize
            } else {
                old(labels)[i]
            },
{
    let ghost s = strategies.deep_view();
    let ghost before = labels@;
    let label: usize = start + 1;
    let mut queue: Vec<usize> = Vec::new();
    let mut head: usize = 0;
    proof {
        lemma_label_one(labels@, start as int, label);
        linked_reflexive(s, start as int);
    }
    labels[start] = label;
    queue.push(start);
    assert(queue@.contains(start)) by {
        assert(queue@[0] == start);
    }
    while head < queue.len()
        invariant
            s == strategies.deep_view(),
            start < s.len(),
            strategies@.len() == s.len(),
            label == start + 1,
            before.len() == s.len(),
            before[start as int] == 0,
            forall|i: int| 0 <= i < before.len() ==> #[trigger] before[i] <= start,
            labels@.len() == s.len(),
            head <= queue@.len(),
            labels@[start as int] == label,
            forall|i: int|
                0 <= i < labels@.len() ==> #[trigger] labels@[i] == before[i] || (before[i] == 0
                    && labels@[i] == label),
            forall|k: int|
                0 <= k < queue@.len() ==> #[trigger] queue@[k] < s.len() && labels@[queue@[k] as int]
                    == label && linked(s, start as int, queue@[k] as int),
            forall|i: int|
                0 <= i < s.len() && #[trigger] labels@[i] == label ==> queue@.contains(i as usize),
            forall|k: int, j: int|
                0 <= k < head && 0 <= j < s.len() && #[trigger] share_market(
                    s,
                    queue@[k] as int,
                    j,
                ) ==> labels@[j] != 0,
        decreases unlabelled(labels@) + queue@.len() - head,
    {
        let current: usize = queue[head];
        let ghost q0 = queue@;
        let ghost measure = unlabelled(labels@) + queue@.len();
        let mut j: usize = 0;
        while j < strategies.len()
            invariant
                s == strategies.deep_view(),
                start < s.len(),
                strategies@.len() == s.len(),
                label == start + 1,
                before.len() == s.len(),
                before[start as int] == 0,
                forall|i: int| 0 <= i < before.len() ==> #[trigger] before[i] <= start,
                labels@.len() == s.len(),
                j <= s.len(),
                head < q0.len() <= queue@.len(),
                queue@.take(q0.len() as int) == q0,
                current == q0[head as int],
                current < s.len(),
                linked(s, start as int, current as int),
                labels@[start as int] == label,
                forall|i: int|
                    0 <= i < labels@.len() ==> #[trigger] labels@[i] == before[i] || (before[i] == 0
                        && labels@[i] == label),
                forall|k: int|
                    0 <= k < queue@.len() ==> #[trigger] queue@[k] < s.len()
                        && labels@[queue@[k] as int] == label && linked(
                        s,
                        start as int,
                        queue@[k] as int,
                    ),
                forall|i: int|
                    0 <= i < s.len() && #[trigger] labels@[i] == label ==> queue@.contains(
                        i as usize,
                    ),
                forall|k: int, i: int|
                    0 <= k < head && 0 <= i < s.len() && #[trigger] share_market(
                        s,
                        q0[k] as int,
                        i,
                    ) ==> labels@[i] != 0,
                forall|i: int|
                    0 <= i < j && #[trigger] share_market(s, current as int, i) ==> labels@[i] != 0,
                unlabelled(labels@) + queue@.len() == measure,
            decreases s.len() - j,
        {
            proof {
                lemma_shares(s, current as int, j as int);
            }
            if labels[j] == 0 && shares(&strategies[current], &strategies[j]) {
                let ghost q1 = queue@;
                let ghost l1 = labels@;
                proof {
                    lemma_label_one(labels@, j as int, label);
                    sharing_links(s, current as int, j as int);
                    linked_transitive(s, start as int, current as int, j as int);
                }
                labels[j] = label;
                queue.push(j);
                proof {
                    assert(queue@.take(q0.len() as int) =~= q0);
                    assert(queue@[q1.len() as int] == j);
                    assert forall|i: int| 0 <= i < s.len() && #[trigger] labels@[i]
                        == label implies queue@.contains(i as usize) by {
                        if i != j {
                            assert(l1[i] == label);
                            let k = choose|k: int| 0 <= k < q1.len() && q1[k] == i as usize;
                            assert(queue@[k] == i as usize);
                        }
                    }
                }
            }
            j += 1;
        }
        proof {
            assert forall|k: int, i: int|
                0 <= k < head + 1 && 0 <= i < s.len() && #[trigger] share_market(
                    s,
                    queue@[k] as int,
                    i,
                ) implies labels@[i] != 0 by {
                assert(queue@[k] == queue@.take(q0.len() as int)[k]);
            }
        }
        head += 1;
    }
    proof {
        let inside = |i: int| 0 <= i < s.len() && labels@[i] == label;
        assert forall|i: int, j: int|
            0 <= i < s.len() && 0 <= j < s.len() && #[trigger] inside(i) && #[trigger] share_market(
                s,
                i,
                j,
            ) implies inside(j) by {
            assert(queue@.contains(i as usize));
            let k = choose|k: int| 0 <= k < queue@.len() && queue@[k] == i as usize;
            assert(share_market(s, queue@[k] as int, j));
            assert(labels@[j] != 0);
            if labels@[j] != label {
                assert(before[j] != 0);
                lemma_shares(s, j, i);
                assert(before[i] != 0);
                assert(labels@[i] == before[i]);
            }
        }
        assert forall|i: int| 0 <= i < s.len() implies (#[trigger] labels@[i] == label <==> linked(
            s,
            start as int,
            i,
        )) by {
            if labels@[i] == label {
                let k = choose|k: int| 0 <= k < queue@.len() && queue@[k] == i as usize;
                assert(linked(s, start as int, queue@[k] as int));
            }
            if linked(s, start as int, i) {
                let path = choose|path: Seq<int>|
                    #[trigger] is_path(s, path) && path.first() == start as int && path.last() == i;
                lemma_closed_holds_path(s, inside, path);
            }
        }
    }
}

/// The strategies with a label, in ascending order.
fn labelled(labels: &Vec<usize>, label: usize) -> (r: Vec<usize>)
    ensures
        as_ints(r@) == numbers_below(labels@.len(), |i: int| labels@[i] == label),
{
    let ghost p = |i: int| labels@[i] == label;
    let mut out: Vec<usize> = Vec::new();
    let mut i: usize = 0;
    assert(as_ints(out@) =~= numbers_below(0, p));
    while i < labels.len()
        invariant
            i <= labels.len(),
            p == (|i: int| labels@[i] == label),
            as_ints(out@) == numbers_below(i as nat, p),
        decreases labels.len() - i,
    {
        if labels[i] == label {
            let ghost o = out@;
            out.push(i);
            assert(as_ints(out@) =~= as_ints(o).push(i as int));
        }
        i += 1;
    }
    out
}

fn ids_at(strategies: &[StrategyRecord], indices: &Vec<usize>) -> (r: Vec<StrategyId>)
    requires
        forall|k: int| 0 <= k < indices@.len() ==> #[trigger] indices@[k] < strategies@.len(),
    ensures
        r.deep_view() == ids_of(strategies.deep_view(), as_ints(indices@)),
{
    let ghost s = strategies.deep_view();
    let mut out: Vec<StrategyId> = Vec::new();
    let mut k: usize = 0;
    while k < indices.len()
        invariant
            s == strategies.deep_view(),
            k <= indices.len(),
            forall|k: int| 0 <= k < indices@.len() ==> #[trigger] indices@[k] < strategies@.len(),
            out.deep_view().len() == k,
            forall|i: int|
                0 <= i < k ==> #[trigger] out.deep_view()[i] == s[indices@[i] as int].config.id,
        decreases indices.len() - k,
    {
        let ghost o = out.deep_view();
        let id = strategies[indices[k]].id.clone();
        assert(id@ == s[indices@[k as int] as int].config.id);
        out.push(id);
        assert(out.deep_view() =~= o.push(id@));
        k += 1;
    }
    assert(out.deep_view() =~= ids_of(s, as_ints(indices@)));
    out
}

fn id_less(a: &StrategyId, b: &StrategyId) -> (r: bool)
    ensures
        r == text_lt(a@, b@),
{
    text_less(a.as_str(), b.as_str())
}

fn component_less(a: &StrategyComponent, b: &StrategyComponent) -> (r: bool)
    ensures
        r == list_lt(a.deep_view().ids, b.deep_view().ids),
{
    list_less(&a.strategy_ids, &b.strategy_ids)
}

/// The components, in the order of their identifiers.
fn build_components(strategies: &[StrategyRecord]) -> (r: Vec<StrategyComponent>)
    requires
        strategies@.len() < usize::MAX,
    ensures
        r.deep_view() == components_model(strategies.deep_view()),
{
    let ghost s = strategies.deep_view();
    let ghost root = |i: int| is_root(s, i);
    let ghost component = |i: int| component_of(s, i);
    let mut labels: Vec<usize> = Vec::new();
    let mut n: usize = 0;
    while n < strategies.len()
        invariant
            n <= strategies@.len(),
            labels@.len() == n,
            forall|i: int| 0 <= i < n ==> #[trigger] labels@[i] == 0,
        decreases strategies.len() - n,
    {
        labels.push(0);
        n += 1;
    }
    let mut components: Vec<StrategyComponent> = Vec::new();
    let mut start: usize = 0;
    assert(components.deep_view() =~= components_below(s, 0));
    while start < strategies.len()
        invariant
            s == strategies.deep_view(),
            s.len() == strategies@.len(),
            s.len() < usize::MAX,
            root == (|i: int| is_root(s, i)),
            component == (|i: int| component_of(s, i)),
            start <= s.len(),
            labels@.len() == s.len(),
            forall|i: int| 0 <= i < s.len() ==> #[trigger] labels@[i] <= start,
            forall|i: int|
                0 <= i < s.len() ==> (#[trigger] labels@[i] != 0 <==> exists|j: int|
                    0 <= j < start && #[trigger] linked(s, j, i)),
            components.deep_view() == components_below(s, start as nat),
        decreases s.len() - start,
    {
        let ghost l0 = labels@;
        let ghost c0 = components.deep_view();
        if labels[start] == 0 {
            assert(is_root(s, start as int)) by {
                assert forall|j: int| 0 <= j < start implies !linked(s, j, start as int) by {
                    assert(labels@[start as int] == 0);
                }
            }
            assert forall|i: int, j: int|
                0 <= i < s.len() && 0 <= j < s.len() && #[trigger] labels@[i] != 0
                    && #[trigger] share_market(s, i, j) implies labels@[j] != 0 by {
                let r = choose|r: int| 0 <= r < start && #[trigger] linked(s, r, i);
                sharing_links(s, i, j);
                linked_transitive(s, r, i, j);
            }
            label_component(strategies, start, &mut labels);
            let indices = labelled(&labels, start + 1);
            proof {
                lemma_numbers_below_same(
                    s.len(),
                    |i: int| labels@[i] == start + 1,
                    |i: int| linked(s, start as int, i),
                );
                assert(as_ints(indices@) == members(s, start as int));
                lemma_numbers_below(s.len(), |i: int| linked(s, start as int, i));
                assert forall|k: int| 0 <= k < indices@.len() implies #[trigger] indices@[k]
                    < strategies@.len() by {
                    assert(as_ints(indices@).contains(as_ints(indices@)[k]));
                }
            }
            let ids = ids_at(strategies, &indices);
            let sorted = stable_sort(
                ids,
                id_less,
                Ghost(by_text()),
            );
            let next = StrategyComponent { strategy_indices: indices, strategy_ids: sorted };
            proof {
                assert(next.deep_view() == component_of(s, start as int));
            }
            components.push(next);
            proof {
                assert(components.deep_view() =~= c0.push(component_of(s, start as int)));
                assert(components_below(s, (start + 1) as nat) =~= c0.push(
                    component_of(s, start as int),
                ));
                assert forall|i: int| 0 <= i < s.len() implies (#[trigger] labels@[i] != 0
                    <==> exists|j: int| 0 <= j < start + 1 && #[trigger] linked(s, j, i)) by {
                    if labels@[i] != 0 {
                        if linked(s, start as int, i) {
                        } else {
                            assert(l0[i] != 0);
                            let j = choose|j: int| 0 <= j < start && #[trigger] linked(s, j, i);
                            assert(linked(s, j, i));
                        }
                    }
                    if exists|j: int| 0 <= j < start + 1 && #[trigger] linked(s, j, i) {
                        let j = choose|j: int| 0 <= j < start + 1 && #[trigger] linked(s, j, i);
                        if j < start {
                            assert(l0[i] != 0);
                        }
                    }
                }
            }
        } else {
            proof {
                let j0 = choose|j: int| 0 <= j < start && #[trigger] linked(s, j, start as int);
                assert(!is_root(s, start as int));
                assert(components_below(s, (start + 1) as nat) =~= c0);
                assert forall|i: int| 0 <= i < s.len() implies (#[trigger] labels@[i] != 0
                    <==> exists|j: int| 0 <= j < start + 1 && #[trigger] linked(s, j, i)) by {
                    if labels@[i] != 0 {
                        let j = choose|j: int| 0 <= j < start && #[trigger] linked(s, j, i);
                        assert(linked(s, j, i));
                    }
                    if exists|j: int| 0 <= j < start + 1 && #[trigger] linked(s, j, i) {
                        let j = choose|j: int| 0 <= j < start + 1 && #[trigger] linked(s, j, i);
                        if j == start {
                            linked_transitive(s, j0, start as int, i);
                            assert(linked(s, j0, i));
                        }
                    }
                }
            }
        }
        start += 1;
    }
    stable_sort(
        components,
        component_less,
        Ghost(by_ids()),
    )
}

proof fn lemma_market_set_push(list: Seq<MarketKeyModel>, m: MarketKeyModel)
    ensures
        market_set(list.push(m)) == crate::order::market_added(market_set(list), m),
{
    assert(list.push(m).drop_last() =~= list);
}

/// Puts the markets of some strategies into a set of markets.
fn add_markets_of(
    set: &mut Vec<MarketKey>,
    strategies: &[StrategyRecord],
    indices: &Vec<usize>,
    Ghost(list): Ghost<Seq<MarketKeyModel>>,
)
    requires
        old(set).deep_view() == market_set(list),
        forall|k: int| 0 <= k < indices@.len() ==> #[trigger] indices@[k] < strategies@.len(),
    ensures
        final(set).deep_view() == market_set(
            list + markets_of(strategies.deep_view(), as_ints(indices@)),
        ),
{
    let ghost s = strategies.deep_view();
    let ghost all = as_ints(indices@);
    let mut k: usize = 0;
    assert(list + markets_of(s, all.take(0)) =~= list);
    while k < indices.len()
        invariant
            s == strategies.deep_view(),
            all == as_ints(indices@),
            k <= indices.len(),
            forall|k: int| 0 <= k < indices@.len() ==> #[trigger] indices@[k] < strategies@.len(),
            set.deep_view() == market_set(list + markets_of(s, all.take(k as int))),
        decreases indices.len() - k,
    {
        let strategy = &strategies[indices[k]];
        let ghost so_far = list + markets_of(s, all.take(k as int));
        proof {
            assert(strategy@ == s[all[k as int]]);
            market_set_is_the_set(so_far);
        }
        let long = strategy.long_leg.market();
        let short = strategy.short_leg.market();
        proof {
            lemma_market_set_push(so_far, long@);
            market_set_is_the_set(so_far.push(long@));
            lemma_market_set_push(so_far.push(long@), short@);
            assert(all.take(k + 1).drop_last() =~= all.take(k as int));
            assert(all.take(k + 1).last() == all[k as int]);
            assert(list + markets_of(s, all.take(k + 1)) =~= so_far.push(long@).push(short@));
        }
        add_market(set, long);
        add_market(set, short);
        k += 1;
    }
    assert(all.take(all.len() as int) =~= all);
}

/// The different markets of some strategies, in ascending order.
fn markets_at(strategies: &[StrategyRecord], indices: &Vec<usize>) -> (r: Vec<MarketKey>)
    requires
        forall|k: int| 0 <= k < indices@.len() ==> #[trigger] indices@[k] < strategies@.len(),
    ensures
        r.deep_view() == market_set(markets_of(strategies.deep_view(), as_ints(indices@))),
{
    let mut out: Vec<MarketKey> = Vec::new();
    assert(out.deep_view() =~= market_set(Seq::empty()));
    add_markets_of(&mut out, strategies, indices, Ghost(Seq::empty()));
    assert(Seq::empty() + markets_of(strategies.deep_view(), as_ints(indices@)) =~= markets_of(
        strategies.deep_view(),
        as_ints(indices@),
    ));
    out
}

proof fn lemma_markets_of_concat(s: Seq<StrategyRecordModel>, a: Seq<int>, b: Seq<int>)
    ensures
        markets_of(s, a + b) == markets_of(s, a) + markets_of(s, b),
    decreases b.len(),
{
    if b.len() == 0 {
        assert(a + b =~= a);
        assert(markets_of(s, a) + markets_of(s, b) =~= markets_of(s, a));
    } else {
        lemma_markets_of_concat(s, a, b.drop_last());
        assert((a + b).drop_last() =~= a + b.drop_last());
        assert((a + b).last() == b.last());
        assert(markets_of(s, a + b) =~= markets_of(s, a) + markets_of(s, b));
    }
}

/// Whether every strategy of the components exists.
spec fn indices_fit(components: Seq<ComponentModel>, n: nat) -> bool {
    forall|c: int, k: int|
        0 <= c < components.len() && 0 <= k < components[c].indices.len() ==> 0
            <= #[trigger] components[c].indices[k] < n
}

proof fn lemma_components_fit(s: Seq<StrategyRecordModel>)
    ensures
        indices_fit(components_model(s), s.len()),
{
    let sorted = components_model(s);
    let plain = components_below(s, s.len());
    assert forall|c: int, k: int|
        0 <= c < sorted.len() && 0 <= k < sorted[c].indices.len() implies 0
        <= #[trigger] sorted[c].indices[k] < s.len() by {
        lemma_sorted_contains(plain, by_ids(), sorted[c]);
        assert(sorted.contains(sorted[c]));
        let d = choose|d: int| 0 <= d < plain.len() && plain[d] == sorted[c];
        let root = roots_below(s, s.len())[d];
        assert(plain[d] == component_of(s, root));
        lemma_numbers_below(s.len(), |j: int| linked(s, root, j));
        assert(members(s, root).contains(members(s, root)[k]));
    }
}

proof fn lemma_flat_fits(group: Seq<ComponentModel>, n: nat)
    requires
        indices_fit(group, n),
    ensures
        forall|k: int| 0 <= k < flat(group).len() ==> 0 <= #[trigger] flat(group)[k] < n,
    decreases group.len(),
{
    if group.len() > 0 {
        let front = group.drop_last();
        assert forall|c: int, k: int|
            0 <= c < front.len() && 0 <= k < front[c].indices.len() implies 0
            <= #[trigger] front[c].indices[k] < n by {
            assert(group[c].indices[k] < n);
        }
        lemma_flat_fits(front, n);
        assert forall|k: int| 0 <= k < flat(group).len() implies 0 <= #[trigger] flat(group)[k]
            < n by {
            if k < flat(front).len() {
                assert(flat(group)[k] == flat(front)[k]);
            } else {
                assert(group[group.len() - 1].indices[k - flat(front).len()] < n);
            }
        }
    }
}

/// The strategies of each shard as the components are packed: the components' strategies one after
/// the other, and how many components there are.
struct ShardGroup {
    indices: Vec<usize>,
    component_count: usize,
}

impl ShardGroup {
    spec fn holds(self, group: Seq<ComponentModel>) -> bool {
        &&& as_ints(self.indices@) == flat(group)
        &&& self.component_count == group.len()
    }
}

spec fn groups_held(held: Seq<ShardGroup>, groups: Seq<Seq<ComponentModel>>) -> bool {
    &&& held.len() == groups.len()
    &&& forall|g: int| 0 <= g < held.len() ==> (#[trigger] held[g]).holds(groups[g])
}

/// Packs components into shards.
fn pack(strategies: &[StrategyRecord], components: &Vec<StrategyComponent>) -> (r: Vec<ShardGroup>)
    requires
        indices_fit(components.deep_view(), strategies@.len()),
    ensures
        groups_held(r@, packed(strategies.deep_view(), components.deep_view())),
{
    let ghost s = strategies.deep_view();
    let ghost all = components.deep_view();
    let mut groups: Vec<ShardGroup> = Vec::new();
    let mut indices: Vec<usize> = Vec::new();
    let mut component_count: usize = 0;
    let mut markets: Vec<MarketKey> = Vec::new();
    let mut c: usize = 0;
    let ghost mut open: Seq<ComponentModel> = Seq::empty();
    proof {
        assert(as_ints(indices@) =~= flat(open));
        assert(markets.deep_view() =~= market_set(markets_of(s, flat(open))));
        assert(packed(s, all.take(0)) =~= Seq::empty());
    }
    while c < components.len()
        invariant
            s == strategies.deep_view(),
            s.len() == strategies@.len(),
            all == components.deep_view(),
            indices_fit(all, s.len()),
            c <= components.len(),
            component_count <= c,
            (component_count == 0) == (c == 0),
            component_count == open.len(),
            as_ints(indices@) == flat(open),
            markets.deep_view() == market_set(markets_of(s, flat(open))),
            c == 0 ==> groups@.len() == 0 && packed(s, all.take(0)) == Seq::<
                Seq<ComponentModel>,
            >::empty(),
            c > 0 ==> {
                &&& packed(s, all.take(c as int)).len() == groups@.len() + 1
                &&& packed(s, all.take(c as int)).last() == open
                &&& groups_held(groups@, packed(s, all.take(c as int)).drop_last())
            },
        decreases components.len() - c,
    {
        let component = &components[c];
        let ghost next = all[c as int];
        proof {
            assert(next == component.deep_view());
            assert(all.take(c + 1).drop_last() =~= all.take(c as int));
            assert(all.take(c + 1).last() == next);
            assert forall|k: int| 0 <= k < component.strategy_indices@.len() implies
                #[trigger] component.strategy_indices@[k] < strategies@.len() by {
                assert(next.indices[k] == component.strategy_indices@[k]);
                assert(all[c as int].indices[k] < s.len());
            }
            lemma_markets_of_concat(s, flat(open), next.indices);
            assert(open.push(next).drop_last() =~= open);
            assert(flat(open.push(next)) == flat(open) + next.indices);
        }
        let mut merged = markets.clone();
        assert(merged.deep_view() =~= markets.deep_view());
        add_markets_of(
            &mut merged,
            strategies,
            &component.strategy_indices,
            Ghost(markets_of(s, flat(open))),
        );
        assert(merged.deep_view().len() == merged@.len());
        assert(merged.deep_view() == market_set(markets_of(s, flat(open.push(next)))));
        if component_count > 0 && merged.len() > MAX_MARKETS_PER_SHARD {
            let ghost before = groups@;
            let ghost known = packed(s, all.take(c as int));
            groups.push(ShardGroup { indices, component_count });
            proof {
                let now = packed(s, all.take(c + 1));
                assert(now =~= known.push(seq![next]));
                assert(now.drop_last() =~= known);
                assert forall|g: int| 0 <= g < groups@.len() implies (
                #[trigger] groups@[g]).holds(known[g]) by {
                    if g < before.len() {
                        assert(before[g].holds(known.drop_last()[g]));
                    }
                }
            }
            indices = Vec::new();
            component_count = 0;
            markets = Vec::new();
            proof {
                open = Seq::empty();
                assert(markets.deep_view() =~= market_set(markets_of(s, flat(open))));
                assert(as_ints(indices@) =~= flat(open));
                lemma_markets_of_concat(s, flat(open), next.indices);
                assert(open.push(next) =~= seq![next]);
                assert(seq![next].drop_last() =~= Seq::<ComponentModel>::empty());
                assert(flat(seq![next]) == flat(open) + next.indices);
            }
        } else {
            proof {
                if c == 0 {
                    assert(open =~= Seq::empty());
                    assert(packed(s, all.take(1)) =~= seq![seq![next]]);
                    assert(packed(s, all.take(1)).drop_last() =~= Seq::empty());
                    assert(open.push(next) =~= seq![next]);
                } else {
                    let known = packed(s, all.take(c as int));
                    let now = packed(s, all.take(c + 1));
                    assert(now =~= known.drop_last().push(open.push(next)));
                    assert(now.drop_last() =~= known.drop_last());
                }
            }
        }
        add_markets_of(
            &mut markets,
            strategies,
            &component.strategy_indices,
            Ghost(markets_of(s, flat(open))),
        );
        let mut k: usize = 0;
        let ghost first = indices@;
        while k < component.strategy_indices.len()
            invariant
                k <= component.strategy_indices.len(),
                indices@ == first + component.strategy_indices@.take(k as int),
            decreases component.strategy_indices.len() - k,
        {
            indices.push(component.strategy_indices[k]);
            assert(first + component.strategy_indices@.take(k + 1) =~= (first
                + component.strategy_indices@.take(k as int)).push(
                component.strategy_indices@[k as int],
            ));
            k += 1;
        }
        component_count += 1;
        proof {
            assert(component.strategy_indices@.take(component.strategy_indices@.len() as int)
                =~= component.strategy_indices@);
            assert(as_ints(indices@) =~= flat(open) + next.indices);
            open = open.push(next);
        }
        c += 1;
    }
    assert(all.take(all.len() as int) =~= all);
    if component_count > 0 {
        let ghost before = groups@;
        let ghost known = packed(s, all);
        groups.push(ShardGroup { indices, component_count });
        proof {
            assert forall|g: int| 0 <= g < groups@.len() implies (#[trigger] groups@[g]).holds(
                known[g],
            ) by {
                if g < before.len() {
                    assert(before[g].holds(known.drop_last()[g]));
                }
            }
        }
    }
    groups
}

/// The strategies of a shard, in ascending order.
fn sorted_members(indices: &Vec<usize>, n: usize, Ghost(group): Ghost<Seq<ComponentModel>>) -> (r:
    Vec<usize>)
    requires
        as_ints(indices@) == flat(group),
        forall|k: int| 0 <= k < indices@.len() ==> #[trigger] indices@[k] < n,
    ensures
        as_ints(r@) == numbers_below(n as nat, |i: int| flat(group).contains(i)),
{
    let mut labels: Vec<usize> = Vec::new();
    let mut i: usize = 0;
    while i < n
        invariant
            i <= n,
            labels@.len() == i,
            forall|j: int| 0 <= j < i ==> #[trigger] labels@[j] == 0,
        decreases n - i,
    {
        labels.push(0);
        i += 1;
    }
    let mut k: usize = 0;
    while k < indices.len()
        invariant
            k <= indices.len(),
            labels@.len() == n,
            forall|k: int| 0 <= k < indices@.len() ==> #[trigger] indices@[k] < n,
            forall|j: int|
                0 <= j < n ==> (#[trigger] labels@[j] == 1 <==> as_ints(
                    indices@.take(k as int),
                ).contains(j)),
        decreases indices.len() - k,
    {
        let ghost l0 = labels@;
        let at: usize = indices[k];
        labels[at] = 1;
        proof {
            let now = as_ints(indices@.take(k + 1));
            let was = as_ints(indices@.take(k as int));
            assert(now =~= was.push(at as int));
            assert forall|j: int| 0 <= j < n implies (#[trigger] labels@[j] == 1 <==> now.contains(
                j,
            )) by {
                assert(l0[j] == 1 <==> was.contains(j));
                if was.contains(j) {
                    let x = choose|x: int| 0 <= x < was.len() && was[x] == j;
                    assert(now[x] == j);
                }
                assert(now[was.len() as int] == at);
                if now.contains(j) && j != at {
                    let x = choose|x: int| 0 <= x < now.len() && now[x] == j;
                    assert(was[x] == j);
                }
            }
        }
        k += 1;
    }
    proof {
        assert(indices@.take(indices@.len() as int) =~= indices@);
        lemma_numbers_below_same(
            n as nat,
            |i: int| labels@[i] == 1,
            |i: int| flat(group).contains(i),
        );
    }
    labelled(&labels, 1)
}

/// The markets of `markets` on one exchange.
fn select_exchange(markets: &Vec<MarketKey>, exchange: Exchange) -> (r: Vec<MarketKey>)
    ensures
        r.deep_view() == on_exchange(markets.deep_view(), exchange),
{
    let ghost all = markets.deep_view();
    let mut out: Vec<MarketKey> = Vec::new();
    let mut i: usize = 0;
    assert(out.deep_view() =~= on_exchange(all.take(0), exchange));
    while i < markets.len()
        invariant
            all == markets.deep_view(),
            i <= markets.len(),
            out.deep_view() == on_exchange(all.take(i as int), exchange),
        decreases markets.len() - i,
    {
        let ghost o = out.deep_view();
        proof {
            assert(all.take(i + 1).drop_last() =~= all.take(i as int));
            assert(all.take(i + 1).last() == markets[i as int]@);
        }
        if markets[i].exchange == exchange {
            out.push(markets[i].clone());
            assert(out.deep_view() =~= o.push(markets[i as int]@));
        }
        i += 1;
    }
    assert(all.take(all.len() as int) =~= all);
    out
}

/// The identifiers of those strategies that trade a market of `markets`.
fn select_trading(
    strategies: &[StrategyRecord],
    indices: &Vec<usize>,
    markets: &Vec<MarketKey>,
) -> (r: Vec<StrategyId>)
    requires
        forall|k: int| 0 <= k < indices@.len() ==> #[trigger] indices@[k] < strategies@.len(),
    ensures
        r.deep_view() == ids_trading(
            strategies.deep_view(),
            as_ints(indices@),
            markets.deep_view(),
        ),
{
    let ghost s = strategies.deep_view();
    let ghost all = as_ints(indices@);
    let ghost ms = markets.deep_view();
    let mut out: Vec<StrategyId> = Vec::new();
    let mut k: usize = 0;
    assert(out.deep_view() =~= ids_trading(s, all.take(0), ms));
    while k < indices.len()
        invariant
            s == strategies.deep_view(),
            all == as_ints(indices@),
            ms == markets.deep_view(),
            k <= indices.len(),
            forall|k: int| 0 <= k < indices@.len() ==> #[trigger] indices@[k] < strategies@.len(),
            out.deep_view() == ids_trading(s, all.take(k as int), ms),
        decreases indices.len() - k,
    {
        let ghost o = out.deep_view();
        let strategy = &strategies[indices[k]];
        proof {
            assert(strategy@ == s[all[k as int]]);
            assert(all.take(k + 1).drop_last() =~= all.take(k as int));
            assert(all.take(k + 1).last() == all[k as int]);
        }
        if has_market(markets, &strategy.long_leg.market()) || has_market(
            markets,
            &strategy.short_leg.market(),
        ) {
            out.push(strategy.id.clone());
            assert(out.deep_view() =~= o.push(strategy@.config.id));
        }
        k += 1;
    }
    assert(all.take(all.len() as int) =~= all);
    out
}

/// The connection with number `number` for some markets of one exchange.
fn make_connection(
    strategies: &[StrategyRecord],
    indices: &Vec<usize>,
    shard_id: &ShardId,
    exchange: Exchange,
    markets: &Vec<MarketKey>,
    number: u128,
) -> (r: ConnectionPlan)
    requires
        forall|k: int| 0 <= k < indices@.len() ==> #[trigger] indices@[k] < strategies@.len(),
    ensures
        r@ == connection_for(
            strategies.deep_view(),
            as_ints(indices@),
            shard_id@,
            exchange,
            markets.deep_view(),
            number as nat,
        ),
{
    let mut name = "conn-".to_owned();
    name.append(decimal_padded(number).as_str());
    let mut symbols: Vec<String> = Vec::new();
    let ghost ms = markets.deep_view();
    let mut i: usize = 0;
    while i < markets.len()
        invariant
            ms == markets.deep_view(),
            i <= markets.len(),
            symbols.deep_view().len() == i,
            forall|j: int| 0 <= j < i ==> #[trigger] symbols.deep_view()[j] == ms[j].symbol,
        decreases markets.len() - i,
    {
        let ghost o = symbols.deep_view();
        let symbol = markets[i].symbol.clone();
        assert(symbol@ == ms[i as int].symbol);
        symbols.push(symbol);
        assert(symbols.deep_view() =~= o.push(symbol@));
        i += 1;
    }
    assert(symbols.deep_view() =~= ms.map_values(|m: MarketKeyModel| m.symbol));
    ConnectionPlan {
        connection_id: ConnectionId::new(name),
        shard_id: shard_id.clone(),
        exchange,
        depth_mode: exchange.capabilities().depth_mode,
        symbols,
        strategy_ids: select_trading(strategies, indices, markets),
    }
}

proof fn lemma_chunks_step(markets: Seq<MarketKeyModel>, size: nat)
    requires
        size > 0,
        markets.len() > 0,
    ensures
        chunks(markets, size) == seq![
            markets.take(
                if markets.len() <= size {
                    markets.len() as int
                } else {
                    size as int
                },
            ),
        ] + chunks(
            markets.skip(
                if markets.len() <= size {
                    markets.len() as int
                } else {
                    size as int
                },
            ),
            size,
        ),
{
    if markets.len() <= size {
        assert(markets.take(markets.len() as int) =~= markets);
        assert(chunks(markets.skip(markets.len() as int), size) =~= Seq::empty());
        assert(chunks(markets, size) =~= seq![markets] + Seq::empty());
    }
}

/// Adds the connections for one exchange's markets of a shard.
fn connect_exchange(
    strategies: &[StrategyRecord],
    indices: &Vec<usize>,
    shard_id: &ShardId,
    exchange: Exchange,
    markets: &Vec<MarketKey>,
    earlier: usize,
    out: &mut Vec<ConnectionPlan>,
)
    requires
        forall|k: int| 0 <= k < indices@.len() ==> #[trigger] indices@[k] < strategies@.len(),
    ensures
        final(out).deep_view() == old(out).deep_view() + exchange_connections(
            strategies.deep_view(),
            as_ints(indices@),
            shard_id@,
            exchange,
            markets.deep_view(),
            earlier as nat + old(out)@.len() + 1,
        ),
{
    let ghost s = strategies.deep_view();
    let ghost members = as_ints(indices@);
    let ghost base = out.deep_view();
    let ghost first = earlier as nat + out@.len() + 1;
    let selected = select_exchange(markets, exchange);
    let size: usize = exchange.capabilities().max_symbols_per_connection;
    let ghost pieces = chunks(selected.deep_view(), size as nat);
    let ghost all = exchange_connections(s, members, shard_id@, exchange, markets.deep_view(), first);
    let mut at: usize = 0;
    let ghost mut done: int = 0;
    proof {
        assert(selected.deep_view().skip(0) =~= selected.deep_view());
        assert(pieces.skip(0) =~= pieces);
        assert(base + all.take(0) =~= base);
    }
    while at < selected.len()
        invariant
            s == strategies.deep_view(),
            members == as_ints(indices@),
            forall|k: int| 0 <= k < indices@.len() ==> #[trigger] indices@[k] < strategies@.len(),
            size > 0,
            at <= selected.len(),
            size == exchange.capabilities_model().max_symbols_per_connection,
            selected.deep_view() == on_exchange(markets.deep_view(), exchange),
            pieces == chunks(selected.deep_view(), size as nat),
            first == earlier + base.len() + 1,
            all == exchange_connections(s, members, shard_id@, exchange, markets.deep_view(), first),
            0 <= done <= pieces.len(),
            pieces.skip(done) == chunks(selected.deep_view().skip(at as int), size as nat),
            out.deep_view() == base + all.take(done),
            at == selected.len() ==> done == pieces.len(),
        decreases selected.len() - at,
    {
        let ghost rest = selected.deep_view().skip(at as int);
        proof {
            lemma_chunks_step(rest, size as nat);
        }
        let end: usize = if selected.len() - at > size {
            at + size
        } else {
            selected.len()
        };
        let mut chunk: Vec<MarketKey> = Vec::new();
        let mut i: usize = at;
        while i < end
            invariant
                at <= i <= end <= selected.len(),
                chunk.deep_view() == selected.deep_view().subrange(at as int, i as int),
            decreases end - i,
        {
            let ghost o = chunk.deep_view();
            chunk.push(selected[i].clone());
            assert(chunk.deep_view() =~= o.push(selected[i as int]@));
            assert(selected.deep_view().subrange(at as int, i + 1) =~= selected.deep_view().subrange(
                at as int,
                i as int,
            ).push(selected[i as int]@));
            i += 1;
        }
        proof {
            assert(chunk.deep_view() =~= rest.take(end - at));
            assert(pieces.skip(done)[0] == chunk.deep_view());
            assert(pieces[done] == chunk.deep_view());
            assert(out.deep_view().len() == out@.len());
        }
        let number: u128 = earlier as u128 + out.len() as u128 + 1;
        let connection = make_connection(strategies, indices, shard_id, exchange, &chunk, number);
        let ghost o = out.deep_view();
        proof {
            assert(number == first + done);
            assert(connection@ == all[done]);
        }
        out.push(connection);
        proof {
            assert(out.deep_view() =~= o.push(all[done]));
            assert(base + all.take(done + 1) =~= (base + all.take(done)).push(all[done]));
            assert(rest.skip(end - at) =~= selected.deep_view().skip(end as int));
            assert(pieces.skip(done + 1) =~= pieces.skip(done).skip(1));
            assert(pieces.skip(done).skip(1) =~= chunks(
                selected.deep_view().skip(end as int),
                size as nat,
            ));
            if end == selected.len() {
                assert(selected.deep_view().skip(end as int) =~= Seq::empty());
                assert(pieces.skip(done + 1).len() == 0);
            }
            done = done + 1;
        }
        at = end;
    }
    proof {
        if selected.len() == 0 {
            assert(selected.deep_view() =~= Seq::empty());
            assert(pieces =~= Seq::empty());
        }
        assert(all.take(done) =~= all);
    }
}

/// Whether a connection carries a market.
fn carries(connection: &ConnectionPlan, market: &MarketKey) -> (r: bool)
    ensures
        r == connection@.carries(market@),
{
    if connection.exchange != market.exchange {
        return false;
    }
    let mut i: usize = 0;
    while i < connection.symbols.len()
        invariant
            i <= connection.symbols.len(),
            connection.exchange == market.exchange,
            forall|j: int| 0 <= j < i ==> connection@.symbols[j] != market@.symbol,
        decreases connection.symbols.len() - i,
    {
        if connection.symbols[i] == market.symbol {
            assert(connection@.symbols[i as int] == market@.symbol);
            return true;
        }
        i += 1;
    }
    false
}

/// Where a strategy runs.
fn make_placement(
    strategy: &StrategyRecord,
    shard_id: &ShardId,
    connections: &Vec<ConnectionPlan>,
) -> (r: StrategyPlacementView)
    ensures
        r@ == placement_of(strategy@, shard_id@, connections.deep_view()),
{
    let ghost all = connections.deep_view();
    let long = strategy.long_leg.market();
    let short = strategy.short_leg.market();
    let mut connection_ids: Vec<ConnectionId> = Vec::new();
    let mut i: usize = 0;
    assert(connection_ids.deep_view() =~= ids_carrying(all.take(0), strategy@));
    while i < connections.len()
        invariant
            all == connections.deep_view(),
            long@ == strategy@.config.long_leg.market(),
            short@ == strategy@.config.short_leg.market(),
            i <= connections.len(),
            connection_ids.deep_view() == ids_carrying(all.take(i as int), strategy@),
        decreases connections.len() - i,
    {
        let ghost o = connection_ids.deep_view();
        proof {
            assert(all.take(i + 1).drop_last() =~= all.take(i as int));
            assert(all.take(i + 1).last() == connections[i as int]@);
        }
        if carries(&connections[i], &long) || carries(&connections[i], &short) {
            connection_ids.push(connections[i].connection_id.clone());
            assert(connection_ids.deep_view() =~= o.push(connections[i as int]@.connection_id));
        }
        i += 1;
    }
    assert(all.take(all.len() as int) =~= all);
    StrategyPlacementView {
        strategy_id: strategy.id.clone(),
        shard_id: shard_id.clone(),
        connection_ids,
        markets: strategy.market_keys(),
    }
}

/// The plan for the enabled strategies. The time at which it was made comes from the clock; all
/// else follows from the strategies.
pub fn build_runtime_plan(enabled_strategies: &[StrategyRecord]) -> (r: RuntimePlan)
    requires
        enabled_strategies@.len() < usize::MAX,
    ensures
        r@ == plan_model(enabled_strategies.deep_view(), r.generated_at_ms),
{
    let ghost s = enabled_strategies.deep_view();
    let n: usize = enabled_strategies.len();
    let mut every: Vec<usize> = Vec::new();
    let mut i: usize = 0;
    assert(as_ints(every@) =~= numbers_below(0, |i: int| true));
    while i < n
        invariant
            i <= n,
            as_ints(every@) == numbers_below(i as nat, |i: int| true),
            every@.len() == i,
            forall|k: int| 0 <= k < i ==> #[trigger] every@[k] < n,
        decreases n - i,
    {
        let ghost o = every@;
        every.push(i);
        assert(as_ints(every@) =~= as_ints(o).push(i as int));
        i += 1;
    }
    let all_markets = markets_at(enabled_strategies, &every);
    assert(all_markets.deep_view().len() == all_markets@.len());
    let components = build_components(enabled_strategies);
    proof {
        lemma_components_fit(s);
    }
    let groups = pack(enabled_strategies, &components);
    let ghost packing = packed(s, components_model(s));
    proof {
        lemma_packed_fits(s, components_model(s), s.len());
    }
    let mut shards: Vec<ShardPlan> = Vec::new();
    let mut connections: Vec<ConnectionPlan> = Vec::new();
    let mut placements: Vec<StrategyPlacementView> = Vec::new();
    let mut g: usize = 0;
    proof {
        assert(shards.deep_view() =~= plan_parts(s, packing.take(0)).shards);
        assert(connections.deep_view() =~= plan_parts(s, packing.take(0)).connections);
        assert(placements.deep_view() =~= plan_parts(s, packing.take(0)).placements);
    }
    while g < groups.len()
        invariant
            s == enabled_strategies.deep_view(),
            n == enabled_strategies@.len(),
            groups_held(groups@, packing),
            forall|g: int| 0 <= g < packing.len() ==> #[trigger] indices_fit(packing[g], n as nat),
            g <= groups.len(),
            shards.deep_view() == plan_parts(s, packing.take(g as int)).shards,
            connections.deep_view() == plan_parts(s, packing.take(g as int)).connections,
            placements.deep_view() == plan_parts(s, packing.take(g as int)).placements,
            shards@.len() == g,
        decreases groups.len() - g,
    {
        let ghost group = packing[g as int];
        let ghost parts = plan_parts(s, packing.take(g as int));
        proof {
            assert(packing.take(g + 1).drop_last() =~= packing.take(g as int));
            assert(packing.take(g + 1).last() == group);
            assert(indices_fit(packing[g as int], n as nat));
            lemma_flat_fits(group, n as nat);
            assert(groups@[g as int].holds(group));
            assert forall|k: int| 0 <= k < groups@[g as int].indices@.len() implies
                #[trigger] groups@[g as int].indices@[k] < n by {
                assert(flat(group)[k] == groups@[g as int].indices@[k]);
            }
        }
        let indices = sorted_members(&groups[g].indices, n, Ghost(group));
        let ghost members = shard_members(s, group);
        proof {
            assert(as_ints(indices@) == members);
            lemma_numbers_below(s.len(), |i: int| flat(group).contains(i));
            assert forall|k: int| 0 <= k < indices@.len() implies #[trigger] indices@[k]
                < enabled_strategies@.len() by {
                assert(members.contains(members[k]));
            }
        }
        let mut name = "shard-".to_owned();
        name.append(decimal_padded(g as u128 + 1).as_str());
        let shard_id = ShardId::new(name);
        assert(parts.shards.len() == g);
        assert(parts.connections.len() == connections@.len());
        let subscribed_markets = markets_at(enabled_strategies, &indices);
        let mut in_shard: Vec<ConnectionPlan> = Vec::new();
        let ghost b = exchange_connections(
            s,
            members,
            shard_id@,
            Exchange::BinanceUsdM,
            subscribed_markets.deep_view(),
            parts.connections.len() + 1,
        );
        assert(in_shard.deep_view() + b =~= b);
        connect_exchange(
            enabled_strategies,
            &indices,
            &shard_id,
            Exchange::BinanceUsdM,
            &subscribed_markets,
            connections.len(),
            &mut in_shard,
        );
        assert(in_shard.deep_view() == b);
        assert(in_shard@.len() == b.len());
        connect_exchange(
            enabled_strategies,
            &indices,
            &shard_id,
            Exchange::BybitLinear,
            &subscribed_markets,
            connections.len(),
            &mut in_shard,
        );
        let ghost own = shard_connections(s, members, shard_id@, parts.connections.len() + 1);
        assert(in_shard.deep_view() == own);
        let mut connection_ids: Vec<ConnectionId> = Vec::new();
        let mut c: usize = 0;
        while c < in_shard.len()
            invariant
                in_shard.deep_view() == own,
                c <= in_shard.len(),
                connection_ids.deep_view().len() == c,
                forall|j: int|
                    0 <= j < c ==> #[trigger] connection_ids.deep_view()[j] == own[j].connection_id,
            decreases in_shard.len() - c,
        {
            let ghost o = connection_ids.deep_view();
            let id = in_shard[c].connection_id.clone();
            assert(id@ == own[c as int].connection_id);
            connection_ids.push(id);
            assert(connection_ids.deep_view() =~= o.push(id@));
            c += 1;
        }
        assert(connection_ids.deep_view() =~= own.map_values(
            |c: ConnectionPlanModel| c.connection_id,
        ));
        let ghost p0 = placements.deep_view();
        let ghost ps = members.map_values(|i: int| placement_of(s[i], shard_id@, own));
        let mut k: usize = 0;
        assert(p0 + ps.take(0) =~= p0);
        while k < indices.len()
            invariant
                s == enabled_strategies.deep_view(),
                in_shard.deep_view() == own,
                members == as_ints(indices@),
                ps == members.map_values(|i: int| placement_of(s[i], shard_id@, own)),
                k <= indices.len(),
                forall|k: int|
                    0 <= k < indices@.len() ==> #[trigger] indices@[k] < enabled_strategies@.len(),
                placements.deep_view() == p0 + ps.take(k as int),
            decreases indices.len() - k,
        {
            let ghost o = placements.deep_view();
            let strategy = &enabled_strategies[indices[k]];
            assert(strategy@ == s[members[k as int]]);
            let placement = make_placement(strategy, &shard_id, &in_shard);
            assert(placement@ == ps[k as int]);
            placements.push(placement);
            assert(placements.deep_view() =~= o.push(ps[k as int]));
            assert(p0 + ps.take(k + 1) =~= (p0 + ps.take(k as int)).push(ps[k as int]));
            k += 1;
        }
        assert(ps.take(ps.len() as int) =~= ps);
        let ghost c0 = connections.deep_view();
        connections.append(&mut in_shard);
        assert(connections.deep_view() =~= c0 + own);
        let ghost s0 = shards.deep_view();
        let shard = ShardPlan {
            shard_id,
            strategy_ids: ids_at(enabled_strategies, &indices),
            connection_ids,
            subscribed_markets,
            component_count: groups[g].component_count,
        };
        let ghost sv = shard@;
        shards.push(shard);
        proof {
            assert(shards.deep_view() =~= s0.push(sv));
            let now = plan_parts(s, packing.take(g + 1));
            assert(now == with_shard(s, parts, group));
            assert(now.shards =~= s0.push(sv));
            assert(now.connections =~= c0 + own);
            assert(now.placements =~= p0 + ps);
        }
        g += 1;
    }
    assert(packing.take(packing.len() as int) =~= packing);
    RuntimePlan {
        generated_at_ms: now_ms(),
        total_enabled_strategies: n,
        total_unique_markets: all_markets.len(),
        shards,
        connections,
        strategy_placements: placements,
    }
}

proof fn lemma_packed_fits(s: Seq<StrategyRecordModel>, components: Seq<ComponentModel>, n: nat)
    requires
        indices_fit(components, n),
    ensures
        forall|g: int|
            0 <= g < packed(s, components).len() ==> #[trigger] indices_fit(
                packed(s, components)[g],
                n,
            ),
    decreases components.len(),
{
    if components.len() > 0 {
        let front = components.drop_last();
        assert forall|c: int, k: int|
            0 <= c < front.len() && 0 <= k < front[c].indices.len() implies 0
            <= #[trigger] front[c].indices[k] < n by {
            assert(components[c].indices[k] < n);
        }
        lemma_packed_fits(s, front, n);
        let groups = packed(s, front);
        let next = components.last();
        let now = packed(s, components);
        assert(indices_fit(seq![next], n)) by {
            assert forall|c: int, k: int|
                0 <= c < seq![next].len() && 0 <= k < seq![next][c].indices.len() implies 0
                <= #[trigger] seq![next][c].indices[k] < n by {
                assert(components[components.len() - 1].indices[k] < n);
            }
        }
        assert forall|g: int| 0 <= g < now.len() implies #[trigger] indices_fit(now[g], n) by {
            if g < groups.len() - 1 {
                assert(now[g] == groups[g]);
                assert(indices_fit(groups[g], n));
            } else if g < groups.len() && now[g] == groups[g] {
                assert(indices_fit(groups[g], n));
            } else if now[g] == seq![next] {
            } else {
                let last = groups.last();
                assert(now[g] == last.push(next));
                assert(indices_fit(groups[groups.len() - 1], n));
                assert forall|c: int, k: int|
                    0 <= c < last.push(next).len() && 0 <= k < last.push(
                        next,
                    )[c].indices.len() implies 0 <= #[trigger] last.push(next)[c].indices[k]
                    < n by {
                    if c < last.len() {
                        assert(last[c].indices[k] < n);
                    } else {
                        assert(seq![next][0].indices[k] < n);
                    }
                }
            }
        }
    }
}

/// The first line of a plan's text.
pub open spec fn heading_line(plan: RuntimePlanModel) -> Seq<char> {
    "runtime plan: "@ + numeral(plan.total_enabled_strategies as nat) + " enabled strategies, "@
        + numeral(plan.shards.len()) + " shards, "@ + numeral(plan.connections.len())
        + " connections, "@ + numeral(plan.total_unique_markets as nat) + " unique markets"@
}

/// The line of a shard.
pub open spec fn shard_line(shard: ShardPlanModel) -> Seq<char> {
    "  "@ + shard.shard_id + " strategies=["@ + joined(shard.strategy_ids, ", "@)
        + "] connections=["@ + joined(shard.connection_ids, ", "@) + "] markets=["@ + joined(
        shard.subscribed_markets.map_values(|m: MarketKeyModel| m.label()),
        ", "@,
    ) + "]"@
}

/// The line of a connection.
pub open spec fn connection_line(connection: ConnectionPlanModel) -> Seq<char> {
    "    "@ + connection.connection_id + " -> "@ + connection.shard_id + " exchange="@
        + connection.exchange.label_model() + " depth_mode="@ + connection.depth_mode.label_model()
        + " symbols=["@ + joined(connection.symbols, ", "@) + "]"@
}

/// The lines of a plan's text.
pub open spec fn plan_lines(plan: RuntimePlanModel) -> Seq<Seq<char>> {
    if plan.shards.len() == 0 {
        seq![heading_line(plan), "  no enabled strategy loaded"@]
    } else {
        seq![heading_line(plan)] + plan.shards.map_values(|x: ShardPlanModel| shard_line(x))
            + plan.connections.map_values(|x: ConnectionPlanModel| connection_line(x))
    }
}

fn join_strategy_ids(ids: &Vec<StrategyId>) -> (r: String)
    ensures
        r@ == joined(ids.deep_view(), ", "@),
{
    let mut texts: Vec<String> = Vec::new();
    let mut i: usize = 0;
    while i < ids.len()
        invariant
            i <= ids.len(),
            texts.deep_view() == ids.deep_view().take(i as int),
        decreases ids.len() - i,
    {
        let ghost o = texts.deep_view();
        let text = ids[i].as_str().to_owned();
        texts.push(text);
        assert(texts.deep_view() =~= o.push(text@));
        assert(ids.deep_view().take(i + 1) =~= ids.deep_view().take(i as int).push(ids[i as int]@));
        i += 1;
    }
    assert(ids.deep_view().take(ids.len() as int) =~= ids.deep_view());
    join(&texts, ", ")
}

fn join_connection_ids(ids: &Vec<ConnectionId>) -> (r: String)
    ensures
        r@ == joined(ids.deep_view(), ", "@),
{
    let mut texts: Vec<String> = Vec::new();
    let mut i: usize = 0;
    while i < ids.len()
        invariant
            i <= ids.len(),
            texts.deep_view() == ids.deep_view().take(i as int),
        decreases ids.len() - i,
    {
        let ghost o = texts.deep_view();
        let text = ids[i].as_str().to_owned();
        texts.push(text);
        assert(texts.deep_view() =~= o.push(text@));
        assert(ids.deep_view().take(i + 1) =~= ids.deep_view().take(i as int).push(ids[i as int]@));
        i += 1;
    }
    assert(ids.deep_view().take(ids.len() as int) =~= ids.deep_view());
    join(&texts, ", ")
}

fn join_markets(markets: &Vec<MarketKey>) -> (r: String)
    ensures
        r@ == joined(markets.deep_view().map_values(|m: MarketKeyModel| m.label()), ", "@),
{
    let ghost labels = markets.deep_view().map_values(|m: MarketKeyModel| m.label());
    let mut texts: Vec<String> = Vec::new();
    let mut i: usize = 0;
    while i < markets.len()
        invariant
            labels == markets.deep_view().map_values(|m: MarketKeyModel| m.label()),
            i <= markets.len(),
            texts.deep_view() == labels.take(i as int),
        decreases markets.len() - i,
    {
        let ghost o = texts.deep_view();
        let text = markets[i].label();
        assert(text@ == labels[i as int]);
        texts.push(text);
        assert(texts.deep_view() =~= o.push(text@));
        assert(labels.take(i + 1) =~= labels.take(i as int).push(labels[i as int]));
        i += 1;
    }
    assert(labels.take(labels.len() as int) =~= labels);
    join(&texts, ", ")
}

fn render_shard(shard: &ShardPlan) -> (r: String)
    ensures
        r@ == shard_line(shard@),
{
    let mut line = "  ".to_owned();
    line.append(shard.shard_id.as_str());
    line.append(" strategies=[");
    line.append(join_strategy_ids(&shard.strategy_ids).as_str());
    line.append("] connections=[");
    line.append(join_connection_ids(&shard.connection_ids).as_str());
    line.append("] markets=[");
    line.append(join_markets(&shard.subscribed_markets).as_str());
    line.append("]");
    line
}

fn render_connection(connection: &ConnectionPlan) -> (r: String)
    ensures
        r@ == connection_line(connection@),
{
    let mut line = "    ".to_owned();
    line.append(connection.connection_id.as_str());
    line.append(" -> ");
    line.append(connection.shard_id.as_str());
    line.append(" exchange=");
    line.append(connection.exchange.label());
    line.append(" depth_mode=");
    line.append(connection.depth_mode.label());
    line.append(" symbols=[");
    line.append(join(&connection.symbols, ", ").as_str());
    line.append("]");
    line
}

impl RuntimePlan {
    /// The plan without strategies. The time at which it was made comes from the clock.
    pub fn empty() -> (r: Self)
        ensures
            r@ == plan_model(Seq::empty(), r.generated_at_ms),
    {
        let r = RuntimePlan {
            generated_at_ms: now_ms(),
            total_enabled_strategies: 0,
            total_unique_markets: 0,
            shards: Vec::new(),
            connections: Vec::new(),
            strategy_placements: Vec::new(),
        };
        proof {
            let s = Seq::<StrategyRecordModel>::empty();
            assert(components_below(s, 0) =~= Seq::empty());
            assert(packed(s, components_model(s)) =~= Seq::empty());
            assert(r@.shards =~= Seq::empty());
            assert(r@.connections =~= Seq::empty());
            assert(r@.strategy_placements =~= Seq::empty());
        }
        r
    }

    /// The plan as a text for a reader.
    pub fn render_text(&self) -> (r: String)
        ensures
            r@ == joined(plan_lines(self@), "\n"@),
    {
        let mut heading = "runtime plan: ".to_owned();
        heading.append(decimal(self.total_enabled_strategies as u128).as_str());
        heading.append(" enabled strategies, ");
        heading.append(decimal(self.shards.len() as u128).as_str());
        heading.append(" shards, ");
        heading.append(decimal(self.connections.len() as u128).as_str());
        heading.append(" connections, ");
        heading.append(decimal(self.total_unique_markets as u128).as_str());
        heading.append(" unique markets");
        assert(heading@ == heading_line(self@));
        let mut lines: Vec<String> = Vec::new();
        lines.push(heading);
        if self.shards.len() == 0 {
            lines.push("  no enabled strategy loaded".to_owned());
            assert(lines.deep_view() =~= plan_lines(self@));
            return join(&lines, "\n");
        }
        let ghost head = seq![heading_line(self@)];
        let ghost shard_lines = self@.shards.map_values(|x: ShardPlanModel| shard_line(x));
        let ghost connection_lines = self@.connections.map_values(
            |x: ConnectionPlanModel| connection_line(x),
        );
        assert(lines.deep_view() =~= head + shard_lines.take(0));
        let mut i: usize = 0;
        while i < self.shards.len()
            invariant
                shard_lines == self@.shards.map_values(|x: ShardPlanModel| shard_line(x)),
                i <= self.shards.len(),
                lines.deep_view() == head + shard_lines.take(i as int),
            decreases self.shards.len() - i,
        {
            let ghost o = lines.deep_view();
            let line = render_shard(&self.shards[i]);
            assert(line@ == shard_lines[i as int]);
            lines.push(line);
            assert(lines.deep_view() =~= o.push(shard_lines[i as int]));
            assert(head + shard_lines.take(i + 1) =~= (head + shard_lines.take(i as int)).push(
                shard_lines[i as int],
            ));
            i += 1;
        }
        assert(shard_lines.take(shard_lines.len() as int) =~= shard_lines);
        let ghost upper = head + shard_lines;
        assert(lines.deep_view() =~= upper + connection_lines.take(0));
        let mut j: usize = 0;
        while j < self.connections.len()
            invariant
                connection_lines == self@.connections.map_values(
                    |x: ConnectionPlanModel| connection_line(x),
                ),
                j <= self.connections.len(),
                lines.deep_view() == upper + connection_lines.take(j as int),
            decreases self.connections.len() - j,
        {
            let ghost o = lines.deep_view();
            let line = render_connection(&self.connections[j]);
            assert(line@ == connection_lines[j as int]);
            lines.push(line);
            assert(lines.deep_view() =~= o.push(connection_lines[j as int]));
            assert(upper + connection_lines.take(j + 1) =~= (upper + connection_lines.take(
                j as int,
            )).push(connection_lines[j as int]));
            j += 1;
        }
        assert(connection_lines.take(connection_lines.len() as int) =~= connection_lines);
        join(&lines, "\n")
    }
}

} // verus!
