//! What a runtime plan says of connections and of where strategies run.

use vstd::prelude::*;

use crate::config::model::{Exchange, MarketKeyModel, StrategyPlacementViewModel, StrategyRecordModel};
use crate::config::plan_content_laws::{shards_list_who_runs_in_them, trades};
use crate::config::plan_laws::{
    lemma_on_exchange, lemma_parts_length, one_connection_carries_each_market, plan_shards, runs_in,
    shard_groups, shard_ids_differ,
};
use crate::config::planner::{
    chunks, exchange_connections, ids_carrying, ids_trading, markets_of, on_exchange, placement_of,
    plan_model, plan_parts, shard_connections, shard_members, shard_name, with_shard,
    ComponentModel, ConnectionPlanModel, RuntimePlanModel,
};
use crate::order::{market_lt, market_set, market_set_is_the_set, markets_ascend};
use crate::text::text_lt;

verus! {

proof fn lemma_parts_prefix(s: Seq<StrategyRecordModel>, groups: Seq<Seq<ComponentModel>>, g: int)
    requires
        0 <= g <= groups.len(),
    ensures
        ({
            let head = plan_parts(s, groups.take(g));
            let all = plan_parts(s, groups);
            &&& head.shards.len() == g
            &&& head.shards.len() <= all.shards.len()
            &&& head.connections.len() <= all.connections.len()
            &&& head.placements.len() <= all.placements.len()
            &&& forall|i: int|
                0 <= i < head.shards.len() ==> #[trigger] all.shards[i] == head.shards[i]
            &&& forall|i: int|
                0 <= i < head.connections.len() ==> #[trigger] all.connections[i]
                    == head.connections[i]
            &&& forall|i: int|
                0 <= i < head.placements.len() ==> #[trigger] all.placements[i]
                    == head.placements[i]
        }),
    decreases groups.len(),
{
    lemma_parts_length(s, groups.take(g));
    if g == groups.len() {
        assert(groups.take(g) =~= groups);
    } else {
        let front = groups.drop_last();
        lemma_parts_prefix(s, front, g);
        assert(front.take(g) =~= groups.take(g));
        let before = plan_parts(s, front);
        let all = plan_parts(s, groups);
        assert forall|i: int| 0 <= i < before.shards.len() implies #[trigger] all.shards[i]
            == before.shards[i] by {}
        assert forall|i: int|
            0 <= i < before.connections.len() implies #[trigger] all.connections[i]
            == before.connections[i] by {}
        assert forall|i: int|
            0 <= i < before.placements.len() implies #[trigger] all.placements[i]
            == before.placements[i] by {}
    }
}

/// How many connections the shards before one have.
spec fn connections_before(s: Seq<StrategyRecordModel>, g: int) -> int {
    plan_parts(s, shard_groups(s).take(g)).connections.len() as int
}

/// How many strategies the shards before one have.
spec fn placements_before(s: Seq<StrategyRecordModel>, g: int) -> int {
    plan_parts(s, shard_groups(s).take(g)).placements.len() as int
}

/// The connections of a shard.
spec fn connections_in(s: Seq<StrategyRecordModel>, g: int) -> Seq<ConnectionPlanModel> {
    shard_connections(
        s,
        shard_members(s, shard_groups(s)[g]),
        shard_name((g + 1) as nat),
        (connections_before(s, g) + 1) as nat,
    )
}

proof fn lemma_shard_part(s: Seq<StrategyRecordModel>, at: u64, g: int)
    requires
        0 <= g < plan_model(s, at).shards.len(),
    ensures
        plan_model(s, at).shards.len() == shard_groups(s).len(),
        connections_before(s, 0) == 0,
        placements_before(s, 0) == 0,
        connections_before(s, shard_groups(s).len() as int) == plan_model(s, at).connections.len(),
        placements_before(s, shard_groups(s).len() as int) == plan_model(
            s,
            at,
        ).strategy_placements.len(),
        ({
            let plan = plan_model(s, at);
            let added = connections_in(s, g);
            let n = connections_before(s, g);
            let p = placements_before(s, g);
            let indices = shard_members(s, shard_groups(s)[g]);
            &&& 0 <= n
            &&& 0 <= p
            &&& plan.shards[g].shard_id == shard_name((g + 1) as nat)
            &&& plan.shards[g].connection_ids == added.map_values(
                |c: ConnectionPlanModel| c.connection_id,
            )
            &&& connections_before(s, g + 1) == n + added.len()
            &&& placements_before(s, g + 1) == p + indices.len()
            &&& n + added.len() <= plan.connections.len()
            &&& p + indices.len() <= plan.strategy_placements.len()
            &&& forall|k: int|
                0 <= k < added.len() ==> #[trigger] added[k] == plan.connections[n + k]
            &&& forall|k: int|
                0 <= k < indices.len() ==> plan.strategy_placements[p + k] == placement_of(
                    s[#[trigger] indices[k]],
                    shard_name((g + 1) as nat),
                    added,
                )
        }),
{
    let groups = shard_groups(s);
    lemma_parts_length(s, groups);
    lemma_parts_prefix(s, groups, g);
    lemma_parts_prefix(s, groups, g + 1);
    assert(groups.take(g + 1).drop_last() =~= groups.take(g));
    assert(groups.take(0) =~= Seq::empty());
    assert(groups.take(groups.len() as int) =~= groups);
    let head = plan_parts(s, groups.take(g));
    let next = plan_parts(s, groups.take(g + 1));
    assert(next == with_shard(s, head, groups[g]));
    let added = connections_in(s, g);
    let indices = shard_members(s, groups[g]);
    assert(next.shards[g] == plan_model(s, at).shards[g]);
    assert forall|k: int| 0 <= k < added.len() implies #[trigger] added[k] == plan_model(
        s,
        at,
    ).connections[connections_before(s, g) + k] by {
        assert(next.connections[head.connections.len() + k] == added[k]);
    }
    assert forall|k: int| 0 <= k < indices.len() implies plan_model(
        s,
        at,
    ).strategy_placements[placements_before(s, g) + k] == placement_of(
        s[#[trigger] indices[k]],
        shard_name((g + 1) as nat),
        added,
    ) by {
        assert(next.placements[head.placements.len() + k] == placement_of(
            s[indices[k]],
            shard_name((g + 1) as nat),
            added,
        ));
    }
}

proof fn lemma_connection_owner(
    s: Seq<StrategyRecordModel>,
    groups: Seq<Seq<ComponentModel>>,
    c: int,
) -> (g: int)
    requires
        0 <= c < plan_parts(s, groups).connections.len(),
    ensures
        0 <= g < groups.len(),
        plan_parts(s, groups.take(g)).connections.len() <= c < plan_parts(
            s,
            groups.take(g + 1),
        ).connections.len(),
    decreases groups.len(),
{
    let front = groups.drop_last();
    let last = groups.len() - 1;
    if c < plan_parts(s, front).connections.len() {
        let g = lemma_connection_owner(s, front, c);
        assert(front.take(g) =~= groups.take(g));
        assert(front.take(g + 1) =~= groups.take(g + 1));
        g
    } else {
        assert(groups.take(last) =~= front);
        assert(groups.take(last + 1) =~= groups);
        last
    }
}

/// The shard of a connection and its place among the shard's connections.
proof fn lemma_owner(s: Seq<StrategyRecordModel>, at: u64, c: int) -> (g: int)
    requires
        0 <= c < plan_model(s, at).connections.len(),
    ensures
        0 <= g < plan_model(s, at).shards.len(),
        connections_before(s, g) <= c < connections_before(s, g + 1),
        plan_model(s, at).connections[c] == connections_in(s, g)[c - connections_before(s, g)],
        plan_model(s, at).connections[c].shard_id == plan_model(s, at).shards[g].shard_id,
        forall|h: int|
            0 <= h < plan_model(s, at).shards.len() && (#[trigger] plan_model(
                s,
                at,
            ).shards[h]).shard_id == plan_model(s, at).connections[c].shard_id ==> h == g,
{
    let plan = plan_model(s, at);
    lemma_parts_length(s, shard_groups(s));
    let g = lemma_connection_owner(s, shard_groups(s), c);
    lemma_shard_part(s, at, g);
    let k = c - connections_before(s, g);
    assert(connections_in(s, g)[k] == plan.connections[c]);
    assert forall|h: int|
        0 <= h < plan.shards.len() && (#[trigger] plan.shards[h]).shard_id
            == plan.connections[c].shard_id implies h == g by {
        if h < g {
            shard_ids_differ(s, at, h, g);
        } else if g < h {
            shard_ids_differ(s, at, g, h);
        }
    }
    g
}

/// The connections stand in the plan shard by shard: those of shard `g` from place `from[g]` up to
/// `from[g + 1]`, and the shard lists their ids in that order.
pub proof fn connections_follow_the_shards(s: Seq<StrategyRecordModel>, generated_at_ms: u64) -> (
    from: Seq<int>)
    ensures
        ({
            let plan = plan_model(s, generated_at_ms);
            &&& from.len() == plan.shards.len() + 1
            &&& from[0] == 0
            &&& from.last() == plan.connections.len()
            &&& forall|g: int|
                0 <= g < plan.shards.len() ==> from[g + 1] == from[g] + (
                #[trigger] plan.shards[g]).connection_ids.len()
            &&& forall|g: int, c: int|
                0 <= g < plan.shards.len() && from[g] <= c < from[g + 1] ==> (
                #[trigger] plan.connections[c]).shard_id == (#[trigger] plan.shards[g]).shard_id
                    && plan.shards[g].connection_ids[c - from[g]]
                    == plan.connections[c].connection_id
        }),
{
    let plan = plan_model(s, generated_at_ms);
    let groups = shard_groups(s);
    lemma_parts_length(s, groups);
    let from = Seq::new(groups.len() + 1, |g: int| connections_before(s, g));
    assert(groups.take(0) =~= Seq::empty());
    assert(groups.take(groups.len() as int) =~= groups);
    assert forall|g: int| 0 <= g < plan.shards.len() implies from[g + 1] == from[g] + (
    #[trigger] plan.shards[g]).connection_ids.len() by {
        lemma_shard_part(s, generated_at_ms, g);
    }
    assert forall|g: int, c: int|
        0 <= g < plan.shards.len() && from[g] <= c < from[g + 1] implies (
    #[trigger] plan.connections[c]).shard_id == (#[trigger] plan.shards[g]).shard_id
        && plan.shards[g].connection_ids[c - from[g]] == plan.connections[c].connection_id by {
        lemma_shard_part(s, generated_at_ms, g);
        let k = c - connections_before(s, g);
        assert(connections_in(s, g)[k] == plan.connections[c]);
    }
    from
}

proof fn lemma_chunk(markets: Seq<MarketKeyModel>, size: nat, k: int)
    requires
        size > 0,
        0 <= k < chunks(markets, size).len(),
    ensures
        0 <= k * size < markets.len(),
        k + 1 < chunks(markets, size).len() ==> (k + 1) * size < markets.len(),
        k + 1 == chunks(markets, size).len() ==> markets.len() <= (k + 1) * size,
        chunks(markets, size)[k] == markets.subrange(
            k * size,
            if (k + 1) * size < markets.len() {
                (k + 1) * size
            } else {
                markets.len() as int
            },
        ),
    decreases markets.len(),
{
    if markets.len() <= size {
        assert(chunks(markets, size) =~= seq![markets]);
        assert(k == 0);
        assert(markets.subrange(0, markets.len() as int) =~= markets);
    } else {
        let rest = markets.skip(size as int);
        let tail = chunks(rest, size);
        let all = chunks(markets, size);
        assert(all =~= seq![markets.take(size as int)] + tail);
        if k == 0 {
            assert(markets.subrange(0, size as int) =~= markets.take(size as int));
            assert(tail.len() > 0);
        } else {
            lemma_chunk(rest, size, k - 1);
            assert((k - 1) * size + size == k * size) by (nonlinear_arith);
            assert(k * size + size == (k + 1) * size) by (nonlinear_arith);
            assert((k - 1 + 1) * size == k * size);
            assert(all[k] == tail[k - 1]);
            let from = (k - 1) * size;
            let to = if k * size < rest.len() {
                k * size
            } else {
                rest.len() as int
            };
            assert(rest.subrange(from, to) =~= markets.subrange(from + size, to + size));
        }
    }
}

proof fn lemma_selected_ascend(markets: Seq<MarketKeyModel>, exchange: Exchange)
    requires
        markets_ascend(markets),
    ensures
        markets_ascend(on_exchange(markets, exchange)),
    decreases markets.len(),
{
    if markets.len() > 0 {
        let front = markets.drop_last();
        let was = on_exchange(front, exchange);
        let now = on_exchange(markets, exchange);
        assert forall|i: int, j: int| 0 <= i < j < front.len() implies market_lt(
            #[trigger] front[i],
            #[trigger] front[j],
        ) by {
            assert(market_lt(markets[i], markets[j]));
        }
        lemma_selected_ascend(front, exchange);
        lemma_on_exchange(front, exchange);
        assert forall|i: int, j: int| 0 <= i < j < now.len() implies market_lt(
            #[trigger] now[i],
            #[trigger] now[j],
        ) by {
            if j < was.len() {
                assert(market_lt(was[i], was[j]));
            } else {
                assert(was.contains(was[i]));
                assert(front.contains(was[i]));
                let y = choose|y: int| 0 <= y < front.len() && front[y] == was[i];
                assert(market_lt(markets[y], markets[markets.len() - 1]));
            }
        }
    }
}

/// The markets of a shard on an exchange.
spec fn selected(s: Seq<StrategyRecordModel>, g: int, exchange: Exchange) -> Seq<MarketKeyModel> {
    on_exchange(
        market_set(markets_of(s, shard_members(s, shard_groups(s)[g]))),
        exchange,
    )
}

/// How many symbols one connection of an exchange carries at most.
pub open spec fn most_symbols(exchange: Exchange) -> nat {
    match exchange {
        Exchange::BinanceUsdM => 64,
        Exchange::BybitLinear => 32,
    }
}

/// How many connections to Binance a shard has.
spec fn binance_count(s: Seq<StrategyRecordModel>, g: int) -> int {
    chunks(selected(s, g, Exchange::BinanceUsdM), 64).len() as int
}

/// Which piece of the markets of its exchange a connection of a shard carries.
proof fn lemma_piece(s: Seq<StrategyRecordModel>, g: int, k: int) -> (x: int)
    requires
        0 <= g < shard_groups(s).len(),
        0 <= k < connections_in(s, g).len(),
    ensures
        ({
            let connection = connections_in(s, g)[k];
            let pieces = chunks(
                selected(s, g, connection.exchange),
                most_symbols(connection.exchange),
            );
            &&& 0 <= x < pieces.len()
            &&& connection.exchange is BinanceUsdM <==> k < binance_count(s, g)
            &&& connection.exchange is BinanceUsdM ==> x == k
            &&& connection.exchange is BybitLinear ==> x == k - binance_count(s, g)
            &&& connection.symbols == pieces[x].map_values(|m: MarketKeyModel| m.symbol)
            &&& connection.depth_mode is SnapshotThenIncremental
            &&& connection.strategy_ids == ids_trading(
                s,
                shard_members(s, shard_groups(s)[g]),
                pieces[x],
            )
        }),
{
    let indices = shard_members(s, shard_groups(s)[g]);
    let markets = market_set(markets_of(s, indices));
    let shard_id = shard_name((g + 1) as nat);
    let first = (connections_before(s, g) + 1) as nat;
    let binance = exchange_connections(s, indices, shard_id, Exchange::BinanceUsdM, markets, first);
    assert(binance.len() == binance_count(s, g));
    if k < binance.len() {
        k
    } else {
        k - binance.len()
    }
}

proof fn lemma_piece_markets(s: Seq<StrategyRecordModel>, g: int, exchange: Exchange, x: int)
    requires
        0 <= g < shard_groups(s).len(),
        0 <= x < chunks(selected(s, g, exchange), most_symbols(exchange)).len(),
    ensures
        ({
            let piece = chunks(selected(s, g, exchange), most_symbols(exchange))[x];
            &&& piece.len() > 0
            &&& forall|y: int|
                0 <= y < piece.len() ==> (#[trigger] piece[y]).exchange == exchange && market_set(
                    markets_of(s, shard_members(s, shard_groups(s)[g])),
                ).contains(piece[y])
            &&& forall|y: int, z: int|
                0 <= y < z < piece.len() ==> text_lt(
                    (#[trigger] piece[y]).symbol,
                    (#[trigger] piece[z]).symbol,
                )
        }),
{
    let all = selected(s, g, exchange);
    let markets = market_set(markets_of(s, shard_members(s, shard_groups(s)[g])));
    let size = most_symbols(exchange);
    let piece = chunks(all, size)[x];
    market_set_is_the_set(markets_of(s, shard_members(s, shard_groups(s)[g])));
    lemma_selected_ascend(markets, exchange);
    lemma_on_exchange(markets, exchange);
    lemma_chunk(all, size, x);
    assert(x * size + size == (x + 1) * size) by (nonlinear_arith);
    assert forall|y: int| 0 <= y < piece.len() implies (#[trigger] piece[y]).exchange == exchange
        && markets.contains(piece[y]) by {
        assert(piece[y] == all[x * size + y]);
        assert(all.contains(piece[y]));
    }
    assert forall|y: int, z: int| 0 <= y < z < piece.len() implies text_lt(
        (#[trigger] piece[y]).symbol,
        (#[trigger] piece[z]).symbol,
    ) by {
        assert(piece[y] == all[x * size + y]);
        assert(piece[z] == all[x * size + z]);
        assert(market_lt(all[x * size + y], all[x * size + z]));
        assert(piece[y].exchange == exchange && piece[z].exchange == exchange);
    }
}

/// Whether a connection carries a market.
pub open spec fn serves(connection: ConnectionPlanModel, m: MarketKeyModel) -> bool {
    connection.exchange == m.exchange && connection.symbols.contains(m.symbol)
}

proof fn lemma_ids_trading(
    s: Seq<StrategyRecordModel>,
    indices: Seq<int>,
    markets: Seq<MarketKeyModel>,
) -> (of: Seq<int>)
    ensures
        ids_trading(s, indices, markets).len() == of.len(),
        forall|k: int|
            0 <= k < of.len() ==> 0 <= #[trigger] of[k] < indices.len() && ids_trading(
                s,
                indices,
                markets,
            )[k] == s[indices[of[k]]].config.id,
        forall|k: int, l: int| 0 <= k < l < of.len() ==> #[trigger] of[k] < #[trigger] of[l],
        forall|p: int|
            0 <= p < indices.len() ==> (#[trigger] of.contains(p) <==> exists|m: MarketKeyModel| #[trigger]
                trades(s[indices[p]], m) && markets.contains(m)),
    decreases indices.len(),
{
    if indices.len() == 0 {
        Seq::empty()
    } else {
        let front = indices.drop_last();
        let last = indices.len() - 1;
        let before = lemma_ids_trading(s, front, markets);
        let config = s[indices.last()].config;
        let long = config.long_leg.market();
        let short = config.short_leg.market();
        assert(trades(s[indices[last]], long) && trades(s[indices[last]], short));
        let hit = markets.contains(long) || markets.contains(short);
        assert(hit <==> exists|m: MarketKeyModel| #[trigger]
            trades(s[indices[last]], m) && markets.contains(m)) by {
            if exists|m: MarketKeyModel| #[trigger]
                trades(s[indices[last]], m) && markets.contains(m) {
                let m = choose|m: MarketKeyModel| #[trigger]
                    trades(s[indices[last]], m) && markets.contains(m);
                assert(m == long || m == short);
            }
        }
        let of = if hit {
            before.push(last)
        } else {
            before
        };
        assert forall|p: int| 0 <= p < indices.len() implies (#[trigger] of.contains(p)
            <==> exists|m: MarketKeyModel| #[trigger]
            trades(s[indices[p]], m) && markets.contains(m)) by {
            if p < last {
                assert(front[p] == indices[p]);
                if before.contains(p) {
                    let k = choose|k: int| 0 <= k < before.len() && before[k] == p;
                    assert(of[k] == p);
                }
                if of.contains(p) {
                    let k = choose|k: int| 0 <= k < of.len() && of[k] == p;
                    assert(before[k] == p);
                }
                assert(before.contains(p) <==> of.contains(p));
            } else {
                if hit {
                    assert(of[before.len() as int] == p);
                } else if of.contains(p) {
                    let k = choose|k: int| 0 <= k < of.len() && of[k] == p;
                    assert(before[k] < front.len());
                }
            }
        }
        assert forall|k: int| 0 <= k < of.len() implies 0 <= #[trigger] of[k] < indices.len()
            && ids_trading(s, indices, markets)[k] == s[indices[of[k]]].config.id by {
            if k < before.len() {
                assert(front[before[k]] == indices[before[k]]);
            }
        }
        of
    }
}

/// What a connection of a shard carries: symbols of markets that the shard watches, in ascending order,
/// one at least and at most as many as its exchange allows, with a snapshot first and changes behind it.
/// It names exactly the strategies of the shard that trade one of them, in their order.
pub proof fn connections_carry_markets_of_their_shard(
    s: Seq<StrategyRecordModel>,
    generated_at_ms: u64,
    g: int,
    c: int,
) -> (who: Seq<int>)
    requires
        0 <= g < plan_model(s, generated_at_ms).shards.len(),
        0 <= c < plan_model(s, generated_at_ms).connections.len(),
        plan_model(s, generated_at_ms).connections[c].shard_id == plan_model(
            s,
            generated_at_ms,
        ).shards[g].shard_id,
    ensures
        ({
            let plan = plan_model(s, generated_at_ms);
            let connection = plan.connections[c];
            &&& connection.depth_mode is SnapshotThenIncremental
            &&& 0 < connection.symbols.len() <= most_symbols(connection.exchange)
            &&& forall|y: int|
                0 <= y < connection.symbols.len() ==> plan.shards[g].subscribed_markets.contains(
                    (MarketKeyModel {
                        exchange: connection.exchange,
                        symbol: #[trigger] connection.symbols[y],
                    }),
                )
            &&& forall|y: int, z: int|
                0 <= y < z < connection.symbols.len() ==> text_lt(
                    #[trigger] connection.symbols[y],
                    #[trigger] connection.symbols[z],
                )
            &&& connection.strategy_ids.len() == who.len()
            &&& forall|k: int|
                0 <= k < who.len() ==> 0 <= #[trigger] who[k] < s.len()
                    && connection.strategy_ids[k] == s[who[k]].config.id
            &&& forall|k: int, l: int|
                0 <= k < l < who.len() ==> #[trigger] who[k] < #[trigger] who[l]
            &&& forall|i: int| #[trigger]
                who.contains(i) <==> runs_in(s, i, g) && exists|m: MarketKeyModel| #[trigger]
                    trades(s[i], m) && serves(connection, m)
        }),
{
    let plan = plan_model(s, generated_at_ms);
    let connection = plan.connections[c];
    let h = lemma_owner(s, generated_at_ms, c);
    assert(plan.shards[g].shard_id == connection.shard_id);
    assert(g == h);
    lemma_shard_part(s, generated_at_ms, g);
    plan_shards(s, generated_at_ms, g);
    let indices = shards_list_who_runs_in_them(s, generated_at_ms, g);
    let k = c - connections_before(s, g);
    let x = lemma_piece(s, g, k);
    let size = most_symbols(connection.exchange);
    let all = selected(s, g, connection.exchange);
    let piece = chunks(all, size)[x];
    lemma_chunk(all, size, x);
    assert(x * size + size == (x + 1) * size) by (nonlinear_arith);
    lemma_piece_markets(s, g, connection.exchange, x);
    let watched = plan.shards[g].subscribed_markets;
    assert forall|y: int| 0 <= y < connection.symbols.len() implies watched.contains(
        (MarketKeyModel {
            exchange: connection.exchange,
            symbol: #[trigger] connection.symbols[y],
        }),
    ) by {
        assert(piece[y] == (MarketKeyModel {
            exchange: connection.exchange,
            symbol: connection.symbols[y],
        }));
    }
    assert forall|y: int, z: int| 0 <= y < z < connection.symbols.len() implies text_lt(
        #[trigger] connection.symbols[y],
        #[trigger] connection.symbols[z],
    ) by {
        assert(text_lt(piece[y].symbol, piece[z].symbol));
    }
    let of = lemma_ids_trading(s, indices, piece);
    let who = of.map_values(|p: int| indices[p]);
    assert forall|a: int| 0 <= a < who.len() implies 0 <= #[trigger] who[a] < s.len()
        && connection.strategy_ids[a] == s[who[a]].config.id by {
        assert(0 <= of[a] < indices.len());
        assert(0 <= indices[of[a]] < s.len());
    }
    assert forall|a: int, b: int| 0 <= a < b < who.len() implies #[trigger] who[a]
        < #[trigger] who[b] by {
        assert(of[a] < of[b]);
        assert(indices[of[a]] < indices[of[b]]);
    }
    assert forall|m: MarketKeyModel| #[trigger] piece.contains(m) <==> serves(connection, m) by {
        if piece.contains(m) {
            let y = choose|y: int| 0 <= y < piece.len() && piece[y] == m;
            assert(connection.symbols[y] == m.symbol);
        }
        if serves(connection, m) {
            let y = choose|y: int|
                0 <= y < connection.symbols.len() && connection.symbols[y] == m.symbol;
            assert(piece[y] == m);
        }
    }
    assert forall|i: int| #[trigger] who.contains(i) <==> runs_in(s, i, g) && exists|
        m: MarketKeyModel,
    | #[trigger]
        trades(s[i], m) && serves(connection, m) by {
        if who.contains(i) {
            let a = choose|a: int| 0 <= a < who.len() && who[a] == i;
            assert(of.contains(of[a]));
            assert(indices.contains(indices[of[a]]));
            let m = choose|m: MarketKeyModel| #[trigger]
                trades(s[indices[of[a]]], m) && piece.contains(m);
            assert(trades(s[i], m) && serves(connection, m));
        }
        if runs_in(s, i, g) && exists|m: MarketKeyModel| #[trigger]
            trades(s[i], m) && serves(connection, m) {
            let m = choose|m: MarketKeyModel| #[trigger]
                trades(s[i], m) && serves(connection, m);
            assert(piece.contains(m));
            assert(indices.contains(i));
            let p = choose|p: int| 0 <= p < indices.len() && indices[p] == i;
            assert(trades(s[indices[p]], m) && piece.contains(m));
            assert(of.contains(p));
            let a = choose|a: int| 0 <= a < of.len() && of[a] == p;
            assert(who[a] == i);
        }
    }
    who
}

/// A shard's connections to Binance stand before those to Bybit. Of two to one exchange, the first
/// carries as many symbols as the exchange allows, and they come before those of the second.
pub proof fn connections_are_filled(
    s: Seq<StrategyRecordModel>,
    generated_at_ms: u64,
    c: int,
    d: int,
)
    requires
        0 <= c < d < plan_model(s, generated_at_ms).connections.len(),
        plan_model(s, generated_at_ms).connections[c].shard_id == plan_model(
            s,
            generated_at_ms,
        ).connections[d].shard_id,
    ensures
        ({
            let a = plan_model(s, generated_at_ms).connections[c];
            let b = plan_model(s, generated_at_ms).connections[d];
            &&& !(a.exchange is BybitLinear && b.exchange is BinanceUsdM)
            &&& a.exchange == b.exchange ==> a.symbols.len() == most_symbols(a.exchange)
                && b.symbols.len() > 0 && text_lt(a.symbols.last(), b.symbols.first())
        }),
{
    let plan = plan_model(s, generated_at_ms);
    let a = plan.connections[c];
    let b = plan.connections[d];
    let g = lemma_owner(s, generated_at_ms, c);
    let h = lemma_owner(s, generated_at_ms, d);
    assert(plan.shards[h].shard_id == plan.connections[c].shard_id);
    assert(g == h);
    lemma_shard_part(s, generated_at_ms, g);
    let x = lemma_piece(s, g, c - connections_before(s, g));
    let y = lemma_piece(s, g, d - connections_before(s, g));
    if a.exchange == b.exchange {
        let size = most_symbols(a.exchange);
        let all = selected(s, g, a.exchange);
        let markets = market_set(markets_of(s, shard_members(s, shard_groups(s)[g])));
        market_set_is_the_set(markets_of(s, shard_members(s, shard_groups(s)[g])));
        lemma_selected_ascend(markets, a.exchange);
        lemma_on_exchange(markets, a.exchange);
        lemma_chunk(all, size, x);
        lemma_chunk(all, size, y);
        lemma_piece_markets(s, g, a.exchange, x);
        lemma_piece_markets(s, g, a.exchange, y);
        assert(x * size + size == (x + 1) * size) by (nonlinear_arith);
        assert(y * size + size == (y + 1) * size) by (nonlinear_arith);
        assert((x + 1) * size <= y * size) by (nonlinear_arith)
            requires
                x < y,
        ;
        let u = chunks(all, size)[x];
        let v = chunks(all, size)[y];
        assert(u.last() == all[x * size + size - 1]);
        assert(v.first() == all[y * size]);
        assert(market_lt(all[x * size + size - 1], all[y * size]));
        assert(u[u.len() - 1].exchange == a.exchange);
        assert(v[0].exchange == a.exchange);
    }
}

/// A shard's markets are exactly those that its connections carry, each by one of them.
pub proof fn watched_markets_are_carried(
    s: Seq<StrategyRecordModel>,
    generated_at_ms: u64,
    g: int,
    m: MarketKeyModel,
)
    requires
        0 <= g < plan_model(s, generated_at_ms).shards.len(),
    ensures
        ({
            let plan = plan_model(s, generated_at_ms);
            &&& plan.shards[g].subscribed_markets.contains(m) <==> exists|c: int|
                0 <= c < plan.connections.len() && (#[trigger] plan.connections[c]).shard_id
                    == plan.shards[g].shard_id && serves(plan.connections[c], m)
            &&& forall|c: int, d: int|
                0 <= c < d < plan.connections.len() && (#[trigger] plan.connections[c]).shard_id
                    == plan.shards[g].shard_id && (#[trigger] plan.connections[d]).shard_id
                    == plan.shards[g].shard_id ==> !(serves(plan.connections[c], m) && serves(
                    plan.connections[d],
                    m,
                ))
        }),
{
    let plan = plan_model(s, generated_at_ms);
    lemma_shard_part(s, generated_at_ms, g);
    plan_shards(s, generated_at_ms, g);
    let added = connections_in(s, g);
    let n = connections_before(s, g);
    one_connection_carries_each_market(
        s,
        shard_members(s, shard_groups(s)[g]),
        shard_name((g + 1) as nat),
        (n + 1) as nat,
        m,
    );
    assert forall|k: int| 0 <= k < added.len() implies (#[trigger] added[k]).carries(m) == serves(
        added[k],
        m,
    ) by {}
    assert forall|c: int|
        0 <= c < plan.connections.len() && (#[trigger] plan.connections[c]).shard_id
            == plan.shards[g].shard_id implies n <= c < n + added.len() && plan.connections[c]
        == added[c - n] by {
        let h = lemma_owner(s, generated_at_ms, c);
        assert(plan.shards[g].shard_id == plan.connections[c].shard_id);
    }
    if plan.shards[g].subscribed_markets.contains(m) {
        let k = choose|k: int| 0 <= k < added.len() && (#[trigger] added[k]).carries(m);
        let h = lemma_owner(s, generated_at_ms, n + k);
        assert(added[k] == plan.connections[n + k]);
        assert(added[k].shard_id == shard_name((g + 1) as nat)) by {
            let x = lemma_piece(s, g, k);
        }
        assert(plan.connections[n + k].shard_id == plan.shards[g].shard_id);
    }
    if exists|c: int|
        0 <= c < plan.connections.len() && (#[trigger] plan.connections[c]).shard_id
            == plan.shards[g].shard_id && serves(plan.connections[c], m) {
        let c = choose|c: int|
            0 <= c < plan.connections.len() && (#[trigger] plan.connections[c]).shard_id
                == plan.shards[g].shard_id && serves(plan.connections[c], m);
        assert(added[c - n].carries(m));
    }
    assert forall|c: int, d: int|
        0 <= c < d < plan.connections.len() && (#[trigger] plan.connections[c]).shard_id
            == plan.shards[g].shard_id && (#[trigger] plan.connections[d]).shard_id
            == plan.shards[g].shard_id implies !(serves(plan.connections[c], m) && serves(
        plan.connections[d],
        m,
    )) by {
        assert(plan.connections[c] == added[c - n]);
        assert(plan.connections[d] == added[d - n]);
        if serves(plan.connections[c], m) && serves(plan.connections[d], m) {
            assert(added[c - n].carries(m) && added[d - n].carries(m));
        }
    }
}

proof fn lemma_ids_carrying(connections: Seq<ConnectionPlanModel>, strategy: StrategyRecordModel)
    -> (of: Seq<int>)
    ensures
        ids_carrying(connections, strategy).len() == of.len(),
        forall|k: int|
            0 <= k < of.len() ==> 0 <= #[trigger] of[k] < connections.len() && ids_carrying(
                connections,
                strategy,
            )[k] == connections[of[k]].connection_id,
        forall|k: int, l: int| 0 <= k < l < of.len() ==> #[trigger] of[k] < #[trigger] of[l],
        forall|p: int| #[trigger]
            of.contains(p) <==> 0 <= p < connections.len() && exists|m: MarketKeyModel| #[trigger]
                trades(strategy, m) && serves(connections[p], m),
    decreases connections.len(),
{
    if connections.len() == 0 {
        Seq::empty()
    } else {
        let front = connections.drop_last();
        let last = connections.len() - 1;
        let before = lemma_ids_carrying(front, strategy);
        let next = connections.last();
        let long = strategy.config.long_leg.market();
        let short = strategy.config.short_leg.market();
        assert(trades(strategy, long) && trades(strategy, short));
        let hit = next.carries(long) || next.carries(short);
        assert(hit <==> exists|m: MarketKeyModel| #[trigger]
            trades(strategy, m) && serves(connections[last], m)) by {
            assert(next.carries(long) == serves(next, long));
            assert(next.carries(short) == serves(next, short));
            if exists|m: MarketKeyModel| #[trigger]
                trades(strategy, m) && serves(connections[last], m) {
                let m = choose|m: MarketKeyModel| #[trigger]
                    trades(strategy, m) && serves(connections[last], m);
                assert(m == long || m == short);
            }
        }
        let of = if hit {
            before.push(last)
        } else {
            before
        };
        assert forall|p: int| #[trigger] of.contains(p) <==> 0 <= p < connections.len() && exists|
            m: MarketKeyModel,
        | #[trigger]
            trades(strategy, m) && serves(connections[p], m) by {
            if p != last {
                if before.contains(p) {
                    let k = choose|k: int| 0 <= k < before.len() && before[k] == p;
                    assert(of[k] == p);
                }
                if of.contains(p) {
                    let k = choose|k: int| 0 <= k < of.len() && of[k] == p;
                    assert(before[k] == p);
                }
                assert(before.contains(p) <==> of.contains(p));
                if 0 <= p < last {
                    assert(front[p] == connections[p]);
                }
            } else {
                if hit {
                    assert(of[before.len() as int] == p);
                } else if of.contains(p) {
                    let k = choose|k: int| 0 <= k < of.len() && of[k] == p;
                    assert(before[k] < front.len());
                }
            }
        }
        assert forall|k: int| 0 <= k < of.len() implies 0 <= #[trigger] of[k] < connections.len()
            && ids_carrying(connections, strategy)[k] == connections[of[k]].connection_id by {
            if k < before.len() {
                assert(front[before[k]] == connections[before[k]]);
            }
        }
        of
    }
}

/// Whether `of` are the places of the connections that a placement names, in their order: exactly those of
/// its shard that carry a market of the strategy.
pub open spec fn are_carriers(
    plan: RuntimePlanModel,
    strategy: StrategyRecordModel,
    placement: StrategyPlacementViewModel,
    of: Seq<int>,
) -> bool {
    &&& placement.connection_ids.len() == of.len()
    &&& forall|k: int|
        0 <= k < of.len() ==> 0 <= #[trigger] of[k] < plan.connections.len()
            && placement.connection_ids[k] == plan.connections[of[k]].connection_id
    &&& forall|k: int, l: int| 0 <= k < l < of.len() ==> #[trigger] of[k] < #[trigger] of[l]
    &&& forall|c: int| #[trigger]
        of.contains(c) <==> 0 <= c < plan.connections.len() && plan.connections[c].shard_id
            == placement.shard_id && exists|m: MarketKeyModel| #[trigger]
            trades(strategy, m) && serves(plan.connections[c], m)
}

/// Whether a placement says where a strategy runs: in which shard, over which connections, on which
/// markets, the long one first.
pub open spec fn is_placement(
    plan: RuntimePlanModel,
    strategy: StrategyRecordModel,
    shard_id: Seq<char>,
    placement: StrategyPlacementViewModel,
) -> bool {
    let long = strategy.config.long_leg;
    let short = strategy.config.short_leg;
    &&& placement.strategy_id == strategy.config.id
    &&& placement.shard_id == shard_id
    &&& placement.markets.len() == 2
    &&& placement.markets[0].exchange == long.exchange
    &&& placement.markets[0].symbol == long.symbol
    &&& placement.markets[1].exchange == short.exchange
    &&& placement.markets[1].symbol == short.symbol
    &&& exists|of: Seq<int>| #[trigger] are_carriers(plan, strategy, placement, of)
}

/// The placements stand in the plan shard by shard, in the order in which each shard lists its
/// strategies: those of shard `g` from place `from[g]` up to `from[g + 1]`.
pub proof fn placements_follow_the_shards(s: Seq<StrategyRecordModel>, generated_at_ms: u64) -> (
    from: Seq<int>)
    ensures
        ({
            let plan = plan_model(s, generated_at_ms);
            &&& from.len() == plan.shards.len() + 1
            &&& from[0] == 0
            &&& from.last() == plan.strategy_placements.len()
            &&& forall|g: int|
                0 <= g < plan.shards.len() ==> from[g + 1] == from[g] + (
                #[trigger] plan.shards[g]).strategy_ids.len()
            &&& forall|g: int, k: int|
                0 <= g < plan.shards.len() && 0 <= k < plan.shards[g].strategy_ids.len()
                    ==> is_placement(
                    plan,
                    s[#[trigger] shard_members(s, shard_groups(s)[g])[k]],
                    plan.shards[g].shard_id,
                    plan.strategy_placements[from[g] + k],
                )
        }),
{
    let plan = plan_model(s, generated_at_ms);
    let groups = shard_groups(s);
    lemma_parts_length(s, groups);
    let from = Seq::new(groups.len() + 1, |g: int| placements_before(s, g));
    assert(groups.take(0) =~= Seq::empty());
    assert(groups.take(groups.len() as int) =~= groups);
    assert forall|g: int| 0 <= g < plan.shards.len() implies from[g + 1] == from[g] + (
    #[trigger] plan.shards[g]).strategy_ids.len() by {
        lemma_shard_part(s, generated_at_ms, g);
        plan_shards(s, generated_at_ms, g);
    }
    assert forall|g: int, k: int|
        0 <= g < plan.shards.len() && 0 <= k
            < plan.shards[g].strategy_ids.len() implies is_placement(
        plan,
        s[#[trigger] shard_members(s, shard_groups(s)[g])[k]],
        plan.shards[g].shard_id,
        plan.strategy_placements[from[g] + k],
    ) by {
        lemma_shard_part(s, generated_at_ms, g);
        plan_shards(s, generated_at_ms, g);
        let strategy = s[shard_members(s, groups[g])[k]];
        let placement = plan.strategy_placements[from[g] + k];
        let added = connections_in(s, g);
        let n = connections_before(s, g);
        let inner = lemma_ids_carrying(added, strategy);
        let of = inner.map_values(|p: int| n + p);
        assert forall|a: int| 0 <= a < of.len() implies 0 <= #[trigger] of[a]
            < plan.connections.len() && placement.connection_ids[a]
            == plan.connections[of[a]].connection_id by {
            assert(0 <= inner[a] < added.len());
            assert(added[inner[a]] == plan.connections[n + inner[a]]);
        }
        assert forall|a: int, b: int| 0 <= a < b < of.len() implies #[trigger] of[a]
            < #[trigger] of[b] by {
            assert(inner[a] < inner[b]);
        }
        assert forall|c: int| #[trigger] of.contains(c) <==> 0 <= c < plan.connections.len()
            && plan.connections[c].shard_id == placement.shard_id && exists|m: MarketKeyModel|
            #[trigger] trades(strategy, m) && serves(plan.connections[c], m) by {
            if of.contains(c) {
                let a = choose|a: int| 0 <= a < of.len() && of[a] == c;
                assert(inner.contains(inner[a]));
                assert(added[inner[a]] == plan.connections[c]);
                let x = lemma_piece(s, g, inner[a]);
            }
            if 0 <= c < plan.connections.len() && plan.connections[c].shard_id
                == placement.shard_id && exists|m: MarketKeyModel| #[trigger]
                trades(strategy, m) && serves(plan.connections[c], m) {
                let h = lemma_owner(s, generated_at_ms, c);
                assert(plan.shards[g].shard_id == plan.connections[c].shard_id);
                assert(plan.connections[c] == added[c - n]);
                assert(inner.contains(c - n));
                let a = choose|a: int| 0 <= a < inner.len() && inner[a] == c - n;
                assert(of[a] == c);
            }
        }
        assert(are_carriers(plan, strategy, placement, of));
    }
    from
}

} // verus!
