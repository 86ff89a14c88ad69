//! The running program: its shards, its routes and what it shows of itself.

use vstd::prelude::*;

use crate::config::ids::{AccountId, ConnectionId, ShardId, StrategyId};
use crate::config::model::{
    ActiveOrderView, ActiveOrderViewModel, BalanceView, BalanceViewModel, PositionView,
    PositionViewModel, RuntimeCatalog, RuntimeCatalogModel, StrategyRecord, StrategyRecordModel,
};
use crate::config::plan_laws::{
    every_strategy_runs, plan_shards, runs_in, shard_groups, shard_ids_differ,
    shard_lists_its_connections, shard_watches_its_markets,
};
use crate::config::planner::{
    build_runtime_plan, ids_of, plan_lines, plan_model, ConnectionPlanModel, RuntimePlan,
    RuntimePlanModel, ShardPlanModel,
};
use crate::engine::shard::{
    lemma_place_names_market, placed_strategies, placed_strategy, ShardRunner, ShardRunnerModel,
};
use crate::engine::strategy::strategy_markets;
use crate::engine::telemetry::{
    StrategyRuntimeDescriptor, StrategyRuntimeDescriptorModel, StrategyTelemetryEvent,
    TelemetryEventModel,
};
use crate::engine::types::ShardEvent;
use crate::error::{AppError, AppErrorModel, AppResult};
use crate::gateway::market_ws::{runtime_of, MarketWsRuntime, MarketWsRuntimeModel};
use crate::text::joined;

verus! {

/// How many events wait for a shard at most.
pub const EVENT_QUEUE_BOUND: usize = 4096;

/// How many commands wait for a shard at most.
pub const COMMAND_QUEUE_BOUND: usize = 1024;

/// What is shown of a shard.
#[derive(Debug)]
pub struct ShardMailboxView {
    pub shard_id: ShardId,
    pub strategy_ids: Vec<StrategyId>,
    pub connection_ids: Vec<ConnectionId>,
    pub event_queue_bound: usize,
    pub command_queue_bound: usize,
}

/// What a [`ShardMailboxView`] holds.
#[verifier::ext_equal]
pub struct ShardMailboxViewModel {
    pub shard_id: Seq<char>,
    pub strategy_ids: Seq<Seq<char>>,
    pub connection_ids: Seq<Seq<char>>,
    pub event_queue_bound: usize,
    pub command_queue_bound: usize,
}

impl View for ShardMailboxView {
    type V = ShardMailboxViewModel;

    open spec fn view(&self) -> ShardMailboxViewModel {
        ShardMailboxViewModel {
            shard_id: self.shard_id@,
            strategy_ids: self.strategy_ids.deep_view(),
            connection_ids: self.connection_ids.deep_view(),
            event_queue_bound: self.event_queue_bound,
            command_queue_bound: self.command_queue_bound,
        }
    }
}

impl DeepView for ShardMailboxView {
    type V = ShardMailboxViewModel;

    open spec fn deep_view(&self) -> ShardMailboxViewModel {
        self@
    }
}

impl Clone for ShardMailboxView {
    fn clone(&self) -> (r: Self)
        ensures
            r@ == self@,
    {
        let shard_id = self.shard_id.clone();
        let strategy_ids = self.strategy_ids.clone();
        let connection_ids = self.connection_ids.clone();
        assert(strategy_ids.deep_view() =~= self.strategy_ids.deep_view());
        assert(connection_ids.deep_view() =~= self.connection_ids.deep_view());
        ShardMailboxView {
            shard_id,
            strategy_ids,
            connection_ids,
            event_queue_bound: self.event_queue_bound,
            command_queue_bound: self.command_queue_bound,
        }
    }
}

/// What is shown of the running program.
#[derive(Debug)]
pub struct RuntimeStatusView {
    pub generated_at_ms: u64,
    pub store_revision: u64,
    pub loaded_strategy_ids: Vec<StrategyId>,
    pub loaded_account_ids: Vec<AccountId>,
    pub shard_mailboxes: Vec<ShardMailboxView>,
    pub plan: RuntimePlan,
    pub rendered_plan: String,
    pub positions: Vec<PositionView>,
    pub balances: Vec<BalanceView>,
    pub active_orders: Vec<ActiveOrderView>,
}

/// What a [`RuntimeStatusView`] holds.
#[verifier::ext_equal]
pub struct RuntimeStatusViewModel {
    pub generated_at_ms: u64,
    pub store_revision: u64,
    pub loaded_strategy_ids: Seq<Seq<char>>,
    pub loaded_account_ids: Seq<Seq<char>>,
    pub shard_mailboxes: Seq<ShardMailboxViewModel>,
    pub plan: RuntimePlanModel,
    pub rendered_plan: Seq<char>,
    pub positions: Seq<PositionViewModel>,
    pub balances: Seq<BalanceViewModel>,
    pub active_orders: Seq<ActiveOrderViewModel>,
}

impl View for RuntimeStatusView {
    type V = RuntimeStatusViewModel;

    open spec fn view(&self) -> RuntimeStatusViewModel {
        RuntimeStatusViewModel {
            generated_at_ms: self.generated_at_ms,
            store_revision: self.store_revision,
            loaded_strategy_ids: self.loaded_strategy_ids.deep_view(),
            loaded_account_ids: self.loaded_account_ids.deep_view(),
            shard_mailboxes: self.shard_mailboxes.deep_view(),
            plan: self.plan@,
            rendered_plan: self.rendered_plan@,
            positions: self.positions.deep_view(),
            balances: self.balances.deep_view(),
            active_orders: self.active_orders.deep_view(),
        }
    }
}

impl DeepView for RuntimeStatusView {
    type V = RuntimeStatusViewModel;

    open spec fn deep_view(&self) -> RuntimeStatusViewModel {
        self@
    }
}

impl Clone for RuntimeStatusView {
    fn clone(&self) -> (r: Self)
        ensures
            r@ == self@,
    {
        let loaded_strategy_ids = self.loaded_strategy_ids.clone();
        let loaded_account_ids = self.loaded_account_ids.clone();
        let shard_mailboxes = self.shard_mailboxes.clone();
        let plan = self.plan.clone();
        let rendered_plan = self.rendered_plan.clone();
        let positions = self.positions.clone();
        let balances = self.balances.clone();
        let active_orders = self.active_orders.clone();
        assert(loaded_strategy_ids.deep_view() =~= self.loaded_strategy_ids.deep_view());
        assert(loaded_account_ids.deep_view() =~= self.loaded_account_ids.deep_view());
        assert(shard_mailboxes.deep_view() =~= self.shard_mailboxes.deep_view());
        assert(positions.deep_view() =~= self.positions.deep_view());
        assert(balances.deep_view() =~= self.balances.deep_view());
        assert(active_orders.deep_view() =~= self.active_orders.deep_view());
        RuntimeStatusView {
            generated_at_ms: self.generated_at_ms,
            store_revision: self.store_revision,
            loaded_strategy_ids,
            loaded_account_ids,
            shard_mailboxes,
            plan,
            rendered_plan,
            positions,
            balances,
            active_orders,
        }
    }
}

/// A connection to be opened, and the shard that its events go to.
#[derive(Debug)]
pub struct GatewayRoute {
    pub runtime: MarketWsRuntime,
    pub shard_index: usize,
}

/// What a [`GatewayRoute`] holds.
#[verifier::ext_equal]
pub struct GatewayRouteModel {
    pub runtime: MarketWsRuntimeModel,
    pub shard_index: usize,
}

impl View for GatewayRoute {
    type V = GatewayRouteModel;

    open spec fn view(&self) -> GatewayRouteModel {
        GatewayRouteModel {
            runtime: self.runtime@,
            shard_index: self.shard_index,
        }
    }
}

impl DeepView for GatewayRoute {
    type V = GatewayRouteModel;

    open spec fn deep_view(&self) -> GatewayRouteModel {
        self@
    }
}

/// What is shown of a shard of a plan.
pub open spec fn mailbox_of(shard: ShardPlanModel) -> ShardMailboxViewModel {
    ShardMailboxViewModel {
        shard_id: shard.shard_id,
        strategy_ids: shard.strategy_ids,
        connection_ids: shard.connection_ids,
        event_queue_bound: EVENT_QUEUE_BOUND,
        command_queue_bound: COMMAND_QUEUE_BOUND,
    }
}

/// What is shown of the program that runs a catalog by a plan.
pub open spec fn status_of(
    catalog: RuntimeCatalogModel,
    plan: RuntimePlanModel,
) -> RuntimeStatusViewModel {
    RuntimeStatusViewModel {
        generated_at_ms: plan.generated_at_ms,
        store_revision: catalog.store_revision,
        loaded_strategy_ids: catalog.enabled_strategies.map_values(
            |strategy: StrategyRecordModel| strategy.config.id,
        ),
        loaded_account_ids: catalog.referenced_accounts.map_values(
            |account: crate::config::model::RuntimeAccountModel| account.id,
        ),
        shard_mailboxes: plan.shards.map_values(|shard: ShardPlanModel| mailbox_of(shard)),
        plan,
        rendered_plan: joined(plan_lines(plan), "\n"@),
        positions: Seq::empty(),
        balances: Seq::empty(),
        active_orders: Seq::empty(),
    }
}

/// A strategy as it is told to the telemetry.
pub open spec fn descriptor_of(strategy: StrategyRecordModel) -> StrategyRuntimeDescriptorModel {
    StrategyRuntimeDescriptorModel {
        strategy_id: strategy.config.id,
        name: strategy.config.name,
        enabled: strategy.config.enabled,
        long_market: strategy.config.long_leg.market(),
        short_market: strategy.config.short_leg.market(),
    }
}

/// The place of the shard that a connection's events go to: the last one that lists the connection.
pub open spec fn route_of(shards: Seq<ShardPlanModel>, connection_id: Seq<char>) -> Option<usize>
    decreases shards.len(),
{
    if shards.len() == 0 {
        None
    } else if shards.last().connection_ids.contains(connection_id) {
        Some((shards.len() - 1) as usize)
    } else {
        route_of(shards.drop_last(), connection_id)
    }
}

/// The connections that are to be opened: those whose events go to a shard.
pub open spec fn gateways_of(
    connections: Seq<ConnectionPlanModel>,
    shards: Seq<ShardPlanModel>,
) -> Seq<GatewayRouteModel>
    decreases connections.len(),
{
    if connections.len() == 0 {
        Seq::empty()
    } else {
        let before = gateways_of(connections.drop_last(), shards);
        match route_of(shards, connections.last().connection_id) {
            Some(shard_index) => before.push(
                GatewayRouteModel { runtime: runtime_of(connections.last()), shard_index },
            ),
            None => before,
        }
    }
}

/// The runners for the shards of a plan.
pub open spec fn runners_of(
    plan: RuntimePlanModel,
    enabled: Seq<StrategyRecordModel>,
) -> Seq<ShardRunnerModel> {
    plan.shards.map_values(
        |shard: ShardPlanModel|
            ShardRunnerModel::first(shard, plan, enabled, plan.generated_at_ms),
    )
}

/// What a reload brings: the new status, what the telemetry is told, the runners to be started and
/// the connections to be opened.
#[derive(Debug)]
pub struct RuntimeReload {
    pub status: RuntimeStatusView,
    pub loaded: StrategyTelemetryEvent,
    pub runners: Vec<ShardRunner>,
    pub gateways: Vec<GatewayRoute>,
}

/// The running program.
#[derive(Debug)]
pub struct RuntimeManager {
    status: RuntimeStatusView,
}

impl View for RuntimeManager {
    type V = RuntimeStatusViewModel;

    closed spec fn view(&self) -> RuntimeStatusViewModel {
        self.status@
    }
}

fn strategy_descriptor(strategy: &StrategyRecord) -> (r: StrategyRuntimeDescriptor)
    ensures
        r@ == descriptor_of(strategy@),
{
    let markets = strategy_markets(strategy);
    StrategyRuntimeDescriptor {
        strategy_id: strategy.id.clone(),
        name: strategy.name.clone(),
        enabled: strategy.enabled,
        long_market: markets[0].clone(),
        short_market: markets[1].clone(),
    }
}

fn find_route(shards: &Vec<crate::config::planner::ShardPlan>, connection_id: &ConnectionId) -> (r:
    Option<usize>)
    ensures
        r == route_of(shards.deep_view(), connection_id@),
{
    let ghost all = shards.deep_view();
    let mut i: usize = shards.len();
    assert(all.take(all.len() as int) =~= all);
    while i > 0
        invariant
            i <= shards.len(),
            all == shards.deep_view(),
            route_of(all, connection_id@) == route_of(all.take(i as int), connection_id@),
        decreases i,
    {
        assert(all.take(i as int).last() == shards[i - 1]@);
        assert(all.take(i as int).drop_last() =~= all.take(i - 1));
        if has_connection(&shards[i - 1].connection_ids, connection_id) {
            return Some(i - 1);
        }
        i -= 1;
    }
    None
}

fn has_connection(ids: &Vec<ConnectionId>, id: &ConnectionId) -> (r: bool)
    ensures
        r == ids.deep_view().contains(id@),
{
    let mut i: usize = 0;
    while i < ids.len()
        invariant
            i <= ids.len(),
            forall|j: int| 0 <= j < i ==> ids.deep_view()[j] != id@,
        decreases ids.len() - i,
    {
        if ids[i].same(id) {
            assert(ids.deep_view()[i as int] == id@);
            return true;
        }
        i += 1;
    }
    false
}

impl RuntimeStatusView {
    /// The status of a program that runs nothing.
    pub fn empty() -> (r: Self)
        ensures
            r@ == status_of(
                (RuntimeCatalogModel {
                    store_revision: 0,
                    enabled_strategies: Seq::empty(),
                    referenced_accounts: Seq::empty(),
                }),
                plan_model(Seq::empty(), r.generated_at_ms),
            ),
    {
        let catalog = RuntimeCatalog {
            store_revision: 0,
            enabled_strategies: Vec::new(),
            referenced_accounts: Vec::new(),
        };
        assert(catalog.enabled_strategies.deep_view() =~= Seq::empty());
        assert(catalog.referenced_accounts.deep_view() =~= Seq::empty());
        make_status(&catalog, RuntimePlan::empty())
    }
}

fn make_status(catalog: &RuntimeCatalog, plan: RuntimePlan) -> (r: RuntimeStatusView)
    ensures
        r@ == status_of(catalog@, plan@),
{
    let mut loaded_strategy_ids: Vec<StrategyId> = Vec::new();
    let mut i: usize = 0;
    while i < catalog.enabled_strategies.len()
        invariant
            i <= catalog.enabled_strategies.len(),
            loaded_strategy_ids.len() == i,
            forall|j: int|
                0 <= j < i ==> (#[trigger] loaded_strategy_ids.deep_view()[j])
                    == catalog@.enabled_strategies[j].config.id,
        decreases catalog.enabled_strategies.len() - i,
    {
        let ghost before = loaded_strategy_ids.deep_view();
        loaded_strategy_ids.push(catalog.enabled_strategies[i].id.clone());
        assert(loaded_strategy_ids.deep_view() =~= before.push(
            catalog@.enabled_strategies[i as int].config.id,
        ));
        i += 1;
    }
    let mut loaded_account_ids: Vec<AccountId> = Vec::new();
    let mut j: usize = 0;
    while j < catalog.referenced_accounts.len()
        invariant
            j <= catalog.referenced_accounts.len(),
            loaded_account_ids.len() == j,
            forall|k: int|
                0 <= k < j ==> (#[trigger] loaded_account_ids.deep_view()[k])
                    == catalog@.referenced_accounts[k].id,
        decreases catalog.referenced_accounts.len() - j,
    {
        let ghost before = loaded_account_ids.deep_view();
        loaded_account_ids.push(catalog.referenced_accounts[j].id.clone());
        assert(loaded_account_ids.deep_view() =~= before.push(
            catalog@.referenced_accounts[j as int].id,
        ));
        j += 1;
    }
    let mut shard_mailboxes: Vec<ShardMailboxView> = Vec::new();
    let mut g: usize = 0;
    while g < plan.shards.len()
        invariant
            g <= plan.shards.len(),
            shard_mailboxes.len() == g,
            forall|k: int|
                0 <= k < g ==> (#[trigger] shard_mailboxes.deep_view()[k]) == mailbox_of(
                    plan@.shards[k],
                ),
        decreases plan.shards.len() - g,
    {
        let ghost before = shard_mailboxes.deep_view();
        let shard = &plan.shards[g];
        let strategy_ids = shard.strategy_ids.clone();
        let connection_ids = shard.connection_ids.clone();
        assert(strategy_ids.deep_view() =~= shard.strategy_ids.deep_view());
        assert(connection_ids.deep_view() =~= shard.connection_ids.deep_view());
        let mailbox = ShardMailboxView {
            shard_id: shard.shard_id.clone(),
            strategy_ids,
            connection_ids,
            event_queue_bound: EVENT_QUEUE_BOUND,
            command_queue_bound: COMMAND_QUEUE_BOUND,
        };
        let ghost mv = mailbox@;
        shard_mailboxes.push(mailbox);
        assert(shard_mailboxes.deep_view() =~= before.push(mv));
        g += 1;
    }
    let rendered_plan = plan.render_text();
    let r = RuntimeStatusView {
        generated_at_ms: plan.generated_at_ms,
        store_revision: catalog.store_revision,
        loaded_strategy_ids,
        loaded_account_ids,
        shard_mailboxes,
        plan,
        rendered_plan,
        positions: Vec::new(),
        balances: Vec::new(),
        active_orders: Vec::new(),
    };
    proof {
        let model = status_of(catalog@, plan@);
        assert(r@.loaded_strategy_ids =~= model.loaded_strategy_ids);
        assert(r@.loaded_account_ids =~= model.loaded_account_ids);
        assert(r@.shard_mailboxes =~= model.shard_mailboxes);
        assert(r@.positions =~= Seq::empty());
        assert(r@.balances =~= Seq::empty());
        assert(r@.active_orders =~= Seq::empty());
    }
    r
}

impl RuntimeManager {
    /// A program that runs nothing.
    pub fn new() -> (r: Self)
        ensures
            r@ == status_of(
                (RuntimeCatalogModel {
                    store_revision: 0,
                    enabled_strategies: Seq::empty(),
                    referenced_accounts: Seq::empty(),
                }),
                plan_model(Seq::empty(), r@.generated_at_ms),
            ),
    {
        RuntimeManager { status: RuntimeStatusView::empty() }
    }

    /// Runs a catalog from now on. Nothing is said of the time that the plan carries, which is also
    /// the generation of what the shards report.
    pub fn reload(&mut self, catalog: RuntimeCatalog) -> (r: RuntimeReload)
        requires
            catalog.enabled_strategies.len() < usize::MAX,
        ensures
            ({
                let enabled = catalog@.enabled_strategies;
                let plan = plan_model(enabled, r.status@.generated_at_ms);
                &&& r.status@ == status_of(catalog@, plan)
                &&& r.loaded@ == (TelemetryEventModel::RuntimeLoaded {
                    generation: plan.generated_at_ms,
                    strategies: enabled.map_values(|s: StrategyRecordModel| descriptor_of(s)),
                })
                &&& r.runners.deep_view() == runners_of(plan, enabled)
                &&& r.gateways.deep_view() == gateways_of(plan.connections, plan.shards)
            }),
            final(self)@ == r.status@,
            forall|g: int|
                0 <= g < r.runners.deep_view().len() ==> (#[trigger] r.runners.deep_view()[g]).ok(),
    {
        let ghost enabled = catalog@.enabled_strategies;
        let plan = build_runtime_plan(catalog.enabled_strategies.as_slice());
        assert(catalog.enabled_strategies.deep_view() =~= enabled);
        let generation: u64 = plan.generated_at_ms;
        let loaded = StrategyTelemetryEvent::RuntimeLoaded {
            generation,
            strategies: describe(&catalog.enabled_strategies),
        };
        let mut runners: Vec<ShardRunner> = Vec::new();
        let mut g: usize = 0;
        while g < plan.shards.len()
            invariant
                g <= plan.shards.len(),
                generation == plan.generated_at_ms,
                enabled == catalog.enabled_strategies.deep_view(),
                runners.len() == g,
                forall|k: int|
                    0 <= k < g ==> (#[trigger] runners.deep_view()[k]) == ShardRunnerModel::first(
                        plan@.shards[k],
                        plan@,
                        enabled,
                        generation,
                    ) && runners.deep_view()[k].ok(),
            decreases plan.shards.len() - g,
        {
            let ghost before = runners.deep_view();
            let runner = ShardRunner::from_plan(
                &plan.shards[g],
                &plan,
                catalog.enabled_strategies.as_slice(),
                generation,
            );
            let ghost rv = runner@;
            assert(plan@.shards[g as int] == plan.shards[g as int]@);
            runners.push(runner);
            assert(runners.deep_view() =~= before.push(rv));
            g += 1;
        }
        assert(runners.deep_view() =~= runners_of(plan@, enabled));
        let gateways = open_gateways(&plan);
        let status = make_status(&catalog, plan);
        self.status = status.clone();
        RuntimeReload { status, loaded, runners, gateways }
    }

    /// What is shown of the program.
    pub fn status(&self) -> (r: RuntimeStatusView)
        ensures
            r@ == self@,
    {
        self.status.clone()
    }

    /// The place of the shard that a market event goes to.
    pub fn route_market_event(&self, event: &ShardEvent) -> (r: AppResult<usize>)
        ensures
            match event {
                ShardEvent::MarketWsRaw { connection_id, .. } => match route_of(
                    self@.plan.shards,
                    connection_id@,
                ) {
                    Some(shard_index) => r matches Ok(at) && at == shard_index,
                    None => r matches Err(why) && why@ == AppErrorModel::NotFound(
                        "no shard route for connection `"@ + connection_id@ + "`"@,
                    ),
                },
                _ => r matches Err(why) && why@ == AppErrorModel::Internal(
                    "only market events can be routed"@,
                ),
            },
    {
        match event {
            ShardEvent::MarketWsRaw { connection_id, .. } => {
                match find_route(&self.status.plan.shards, connection_id) {
                    Some(shard_index) => Ok(shard_index),
                    None => {
                        let mut message = "no shard route for connection `".to_owned();
                        message.append(connection_id.as_str());
                        message.append("`");
                        Err(AppError::NotFound(message))
                    },
                }
            },
            _ => Err(AppError::Internal("only market events can be routed".to_owned())),
        }
    }

    pub fn positions(&self) -> (r: Vec<PositionView>)
        ensures
            r.deep_view() == self@.positions,
    {
        self.status().positions
    }

    pub fn balances(&self) -> (r: Vec<BalanceView>)
        ensures
            r.deep_view() == self@.balances,
    {
        self.status().balances
    }

    pub fn active_orders(&self) -> (r: Vec<ActiveOrderView>)
        ensures
            r.deep_view() == self@.active_orders,
    {
        self.status().active_orders
    }
}

fn describe(strategies: &Vec<StrategyRecord>) -> (r: Vec<StrategyRuntimeDescriptor>)
    ensures
        r.deep_view() == strategies.deep_view().map_values(
            |s: StrategyRecordModel| descriptor_of(s),
        ),
{
    let mut out: Vec<StrategyRuntimeDescriptor> = Vec::new();
    let mut i: usize = 0;
    while i < strategies.len()
        invariant
            i <= strategies.len(),
            out.len() == i,
            forall|j: int|
                0 <= j < i ==> (#[trigger] out.deep_view()[j]) == descriptor_of(
                    strategies.deep_view()[j],
                ),
        decreases strategies.len() - i,
    {
        let ghost before = out.deep_view();
        let descriptor = strategy_descriptor(&strategies[i]);
        let ghost dv = descriptor@;
        out.push(descriptor);
        assert(out.deep_view() =~= before.push(dv));
        i += 1;
    }
    assert(out.deep_view() =~= strategies.deep_view().map_values(
        |s: StrategyRecordModel| descriptor_of(s),
    ));
    out
}

fn open_gateways(plan: &RuntimePlan) -> (r: Vec<GatewayRoute>)
    ensures
        r.deep_view() == gateways_of(plan@.connections, plan@.shards),
{
    let ghost all = plan@.connections;
    let mut out: Vec<GatewayRoute> = Vec::new();
    let mut i: usize = 0;
    assert(out.deep_view() =~= gateways_of(all.take(0), plan@.shards));
    while i < plan.connections.len()
        invariant
            i <= plan.connections.len(),
            all == plan.connections.deep_view(),
            out.deep_view() == gateways_of(all.take(i as int), plan@.shards),
        decreases plan.connections.len() - i,
    {
        let ghost before = out.deep_view();
        let connection = &plan.connections[i];
        assert(all.take(i + 1).drop_last() =~= all.take(i as int));
        assert(all.take(i + 1).last() == connection@);
        if let Some(shard_index) = find_route(&plan.shards, &connection.connection_id) {
            let gateway = GatewayRoute {
                runtime: MarketWsRuntime::from_plan(connection),
                shard_index,
            };
            let ghost gv = gateway@;
            out.push(gateway);
            assert(out.deep_view() =~= before.push(gv));
        }
        i += 1;
    }
    assert(all.take(all.len() as int) =~= all);
    out
}

proof fn lemma_route(shards: Seq<ShardPlanModel>, id: Seq<char>, g: int)
    requires
        0 <= g < shards.len() <= usize::MAX,
        shards[g].connection_ids.contains(id),
        forall|h: int|
            0 <= h < shards.len() && h != g ==> !(#[trigger] shards[h]).connection_ids.contains(id),
    ensures
        route_of(shards, id) == Some(g as usize),
    decreases shards.len(),
{
    if g < shards.len() - 1 {
        assert(!shards[shards.len() - 1].connection_ids.contains(id));
        let front = shards.drop_last();
        assert forall|h: int| 0 <= h < front.len() && h != g implies !(
        #[trigger] front[h]).connection_ids.contains(id) by {
            assert(front[h] == shards[h]);
        }
        lemma_route(front, id, g);
    }
}

/// The events of every connection of a plan go to the shard that the connection belongs to.
pub proof fn events_reach_their_shard(s: Seq<StrategyRecordModel>, generated_at_ms: u64, c: int)
    requires
        0 <= c < plan_model(s, generated_at_ms).connections.len(),
        plan_model(s, generated_at_ms).shards.len() <= usize::MAX,
    ensures
        ({
            let plan = plan_model(s, generated_at_ms);
            let route = route_of(plan.shards, plan.connections[c].connection_id);
            &&& route is Some
            &&& route->0 < plan.shards.len()
            &&& plan.shards[route->0 as int].shard_id == plan.connections[c].shard_id
        }),
{
    let plan = plan_model(s, generated_at_ms);
    let id = plan.connections[c].connection_id;
    lemma_some_shard(s, generated_at_ms, c);
    let g = choose|g: int|
        0 <= g < plan.shards.len() && (#[trigger] plan.shards[g]).shard_id
            == plan.connections[c].shard_id;
    shard_lists_its_connections(s, generated_at_ms, c, g);
    assert forall|h: int| 0 <= h < plan.shards.len() && h != g implies !(
    #[trigger] plan.shards[h]).connection_ids.contains(id) by {
        shard_lists_its_connections(s, generated_at_ms, c, h);
        if h < g {
            shard_ids_differ(s, generated_at_ms, h, g);
        } else {
            shard_ids_differ(s, generated_at_ms, g, h);
        }
    }
    lemma_route(plan.shards, id, g);
}

proof fn lemma_some_shard(s: Seq<StrategyRecordModel>, generated_at_ms: u64, c: int)
    requires
        0 <= c < plan_model(s, generated_at_ms).connections.len(),
    ensures
        ({
            let plan = plan_model(s, generated_at_ms);
            exists|h: int|
                0 <= h < plan.shards.len() && (#[trigger] plan.shards[h]).shard_id
                    == plan.connections[c].shard_id
        }),
{
    let plan = plan_model(s, generated_at_ms);
    if plan.shards.len() > 0 {
        shard_lists_its_connections(s, generated_at_ms, c, 0);
    } else {
        crate::config::plan_laws::no_shards_no_connections(s, generated_at_ms);
    }
}

/// Every connection of a plan is opened, in the order of the plan.
pub proof fn every_connection_is_opened(s: Seq<StrategyRecordModel>, generated_at_ms: u64)
    requires
        plan_model(s, generated_at_ms).shards.len() <= usize::MAX,
    ensures
        ({
            let plan = plan_model(s, generated_at_ms);
            let gateways = gateways_of(plan.connections, plan.shards);
            &&& gateways.len() == plan.connections.len()
            &&& forall|c: int|
                0 <= c < gateways.len() ==> (#[trigger] gateways[c]).runtime == runtime_of(
                    plan.connections[c],
                )
        }),
{
    let plan = plan_model(s, generated_at_ms);
    assert forall|c: int| 0 <= c < plan.connections.len() implies route_of(
        plan.shards,
        (#[trigger] plan.connections[c]).connection_id,
    ) is Some by {
        events_reach_their_shard(s, generated_at_ms, c);
    }
    lemma_gateways(plan.connections, plan.shards);
}

proof fn lemma_gateways(connections: Seq<ConnectionPlanModel>, shards: Seq<ShardPlanModel>)
    requires
        forall|c: int|
            0 <= c < connections.len() ==> route_of(
                shards,
                (#[trigger] connections[c]).connection_id,
            ) is Some,
    ensures
        gateways_of(connections, shards).len() == connections.len(),
        forall|c: int|
            0 <= c < connections.len() ==> (#[trigger] gateways_of(
                connections,
                shards,
            )[c]).runtime == runtime_of(connections[c]),
    decreases connections.len(),
{
    if connections.len() > 0 {
        let front = connections.drop_last();
        assert forall|c: int| 0 <= c < front.len() implies route_of(
            shards,
            (#[trigger] front[c]).connection_id,
        ) is Some by {
            assert(front[c] == connections[c]);
        }
        lemma_gateways(front, shards);
        assert(connections[connections.len() - 1] == connections.last());
        let before = gateways_of(front, shards);
        let after = gateways_of(connections, shards);
        assert forall|c: int| 0 <= c < connections.len() implies (#[trigger] after[c]).runtime
            == runtime_of(connections[c]) by {
            if c < front.len() {
                assert(after[c] == before[c]);
            }
        }
    }
}

proof fn lemma_placed(shard: ShardPlanModel, enabled: Seq<StrategyRecordModel>, i: int)
    requires
        0 <= i < enabled.len(),
        shard.strategy_ids.contains(enabled[i].config.id),
        placed_strategy(shard.subscribed_markets, enabled[i]) is Some,
    ensures
        exists|k: int|
            0 <= k < placed_strategies(shard, enabled).len() && (#[trigger] placed_strategies(
                shard,
                enabled,
            )[k]).strategy == enabled[i],
    decreases enabled.len(),
{
    let front = enabled.drop_last();
    let before = placed_strategies(shard, front);
    let after = placed_strategies(shard, enabled);
    if i < front.len() {
        assert(front[i] == enabled[i]);
        lemma_placed(shard, front, i);
        let k = choose|k: int| 0 <= k < before.len() && (#[trigger] before[k]).strategy == front[i];
        assert(after[k] == before[k]);
    } else {
        assert(after[before.len() as int].strategy == enabled[i]);
    }
}

/// Every enabled strategy is placed in the runner of some shard, with books for both its markets.
pub proof fn every_strategy_has_a_runner(
    s: Seq<StrategyRecordModel>,
    generated_at_ms: u64,
    i: int,
)
    requires
        0 <= i < s.len(),
        forall|g: int|
            0 <= g < plan_model(s, generated_at_ms).shards.len() ==> (#[trigger] plan_model(
                s,
                generated_at_ms,
            ).shards[g]).subscribed_markets.len() <= usize::MAX,
    ensures
        exists|g: int, k: int|
            0 <= g < runners_of(plan_model(s, generated_at_ms), s).len() && 0 <= k < runners_of(
                plan_model(s, generated_at_ms),
                s,
            )[g].strategies.len() && (#[trigger] runners_of(
                plan_model(s, generated_at_ms),
                s,
            )[g].strategies[k]).strategy == s[i],
{
    let plan = plan_model(s, generated_at_ms);
    every_strategy_runs(s, i);
    let g = choose|g: int| runs_in(s, i, g);
    plan_shards(s, generated_at_ms, g);
    let shard = plan.shards[g];
    let indices = crate::config::planner::shard_members(s, shard_groups(s)[g]);
    let x = choose|x: int| 0 <= x < indices.len() && indices[x] == i;
    assert(ids_of(s, indices)[x] == s[i].config.id);
    let long = s[i].config.long_leg.market();
    let short = s[i].config.short_leg.market();
    assert(s[i].config.markets()[0] == long && s[i].config.markets()[1] == short);
    shard_watches_its_markets(s, generated_at_ms, g, long);
    shard_watches_its_markets(s, generated_at_ms, g, short);
    assert(shard.subscribed_markets.contains(long));
    assert(shard.subscribed_markets.contains(short));
    lemma_place_names_market(shard.subscribed_markets, long);
    lemma_place_names_market(shard.subscribed_markets, short);
    lemma_placed(shard, s, i);
    let placed = placed_strategies(shard, s);
    let k = choose|k: int| 0 <= k < placed.len() && (#[trigger] placed[k]).strategy == s[i];
    assert(runners_of(plan, s)[g].strategies == placed);
    assert(runners_of(plan, s)[g].strategies[k].strategy == s[i]);
}

/// Whether a connection to be opened is one of a plan: it has its id, its shard, its exchange, its kind
/// of depth and its symbols.
pub open spec fn opens(connection: ConnectionPlanModel, route: GatewayRouteModel) -> bool {
    &&& route.runtime.connection_id == connection.connection_id
    &&& route.runtime.shard_id == connection.shard_id
    &&& route.runtime.exchange == connection.exchange
    &&& route.runtime.depth_mode == connection.depth_mode
    &&& route.runtime.subscribed_symbols == connection.symbols
}

/// A connection's events go to the last shard that lists the connection, and nowhere exactly if none
/// does.
pub proof fn routes_lead_to_listing_shards(shards: Seq<ShardPlanModel>, id: Seq<char>)
    requires
        shards.len() <= usize::MAX,
    ensures
        match route_of(shards, id) {
            Some(at) => {
                &&& at < shards.len()
                &&& shards[at as int].connection_ids.contains(id)
                &&& forall|h: int|
                    at < h < shards.len() ==> !(#[trigger] shards[h]).connection_ids.contains(id)
            },
            None => forall|h: int|
                0 <= h < shards.len() ==> !(#[trigger] shards[h]).connection_ids.contains(id),
        },
    decreases shards.len(),
{
    if shards.len() > 0 {
        let front = shards.drop_last();
        routes_lead_to_listing_shards(front, id);
        assert(shards[shards.len() - 1] == shards.last());
        assert forall|h: int| 0 <= h < front.len() implies #[trigger] shards[h] == front[h] by {}
    }
}

/// The connections that are opened are those of the plan whose events go to a shard, in the order of the
/// plan, each as the plan has it and with that shard.
pub proof fn connections_are_opened_as_planned(
    connections: Seq<ConnectionPlanModel>,
    shards: Seq<ShardPlanModel>,
) -> (of: Seq<int>)
    ensures
        gateways_of(connections, shards).len() == of.len(),
        forall|i: int|
            0 <= i < of.len() ==> 0 <= #[trigger] of[i] < connections.len() && opens(
                connections[of[i]],
                gateways_of(connections, shards)[i],
            ) && route_of(shards, connections[of[i]].connection_id) == Some(
                gateways_of(connections, shards)[i].shard_index,
            ),
        forall|i: int, j: int| 0 <= i < j < of.len() ==> #[trigger] of[i] < #[trigger] of[j],
        forall|c: int|
            0 <= c < connections.len() && route_of(
                shards,
                (#[trigger] connections[c]).connection_id,
            ) is Some ==> of.contains(c),
    decreases connections.len(),
{
    if connections.len() == 0 {
        Seq::empty()
    } else {
        let front = connections.drop_last();
        let last = connections.len() - 1;
        let before = connections_are_opened_as_planned(front, shards);
        assert forall|i: int| 0 <= i < before.len() implies connections[#[trigger] before[i]]
            == front[before[i]] by {}
        if route_of(shards, connections.last().connection_id) is Some {
            let of = before.push(last);
            assert forall|c: int|
                0 <= c < connections.len() && route_of(
                    shards,
                    (#[trigger] connections[c]).connection_id,
                ) is Some implies of.contains(c) by {
                if c < last {
                    assert(front[c] == connections[c]);
                    assert(before.contains(c));
                    let i = choose|i: int| 0 <= i < before.len() && before[i] == c;
                    assert(of[i] == c);
                } else {
                    assert(of[before.len() as int] == c);
                }
            }
            of
        } else {
            assert forall|c: int|
                0 <= c < connections.len() && route_of(
                    shards,
                    (#[trigger] connections[c]).connection_id,
                ) is Some implies before.contains(c) by {
                if c < last {
                    assert(front[c] == connections[c]);
                }
            }
            before
        }
    }
}

/// What is shown of the program: the plan and its text, the revision of the store, the ids of the
/// strategies and the accounts that were loaded, in their order, and each shard of the plan with its
/// strategies, its connections and how much waits for it at most. It holds no positions, balances or
/// orders.
pub proof fn status_shows_what_runs(catalog: RuntimeCatalogModel, plan: RuntimePlanModel, i: int)
    ensures
        ({
            let status = status_of(catalog, plan);
            &&& status.generated_at_ms == plan.generated_at_ms
            &&& status.store_revision == catalog.store_revision
            &&& status.plan == plan
            &&& status.loaded_strategy_ids.len() == catalog.enabled_strategies.len()
            &&& status.loaded_account_ids.len() == catalog.referenced_accounts.len()
            &&& status.shard_mailboxes.len() == plan.shards.len()
            &&& status.positions.len() == 0
            &&& status.balances.len() == 0
            &&& status.active_orders.len() == 0
            &&& 0 <= i < catalog.enabled_strategies.len() ==> status.loaded_strategy_ids[i]
                == catalog.enabled_strategies[i].config.id
            &&& 0 <= i < catalog.referenced_accounts.len() ==> status.loaded_account_ids[i]
                == catalog.referenced_accounts[i].id
            &&& 0 <= i < plan.shards.len() ==> {
                let mailbox = status.shard_mailboxes[i];
                &&& mailbox.shard_id == plan.shards[i].shard_id
                &&& mailbox.strategy_ids == plan.shards[i].strategy_ids
                &&& mailbox.connection_ids == plan.shards[i].connection_ids
                &&& mailbox.event_queue_bound == 4096
                &&& mailbox.command_queue_bound == 1024
            }
        }),
{
}

/// The telemetry is told of a strategy who it is and which markets its legs trade.
pub proof fn strategies_are_described(strategy: StrategyRecordModel)
    ensures
        ({
            let told = descriptor_of(strategy);
            let config = strategy.config;
            &&& told.strategy_id == config.id
            &&& told.name == config.name
            &&& told.enabled == config.enabled
            &&& told.long_market.exchange == config.long_leg.exchange
            &&& told.long_market.symbol == config.long_leg.symbol
            &&& told.short_market.exchange == config.short_leg.exchange
            &&& told.short_market.symbol == config.short_leg.symbol
        }),
{
}

/// There is one runner for each shard of the plan, in their order, begun by that shard in the plan's
/// generation.
pub proof fn shards_are_run(plan: RuntimePlanModel, enabled: Seq<StrategyRecordModel>, g: int)
    requires
        0 <= g < plan.shards.len(),
    ensures
        runners_of(plan, enabled).len() == plan.shards.len(),
        runners_of(plan, enabled)[g].shard_id == plan.shards[g].shard_id,
        runners_of(plan, enabled)[g].generation == plan.generated_at_ms,
        runners_of(plan, enabled)[g] == ShardRunnerModel::first(
            plan.shards[g],
            plan,
            enabled,
            plan.generated_at_ms,
        ),
{
}

} // verus!
