//! Market data connections.

pub mod binance;
pub mod binance_sync;
pub mod bybit;
pub mod sync_laws;

use vstd::prelude::*;

use crate::config::ids::{ConnectionId, ShardId};
use crate::config::model::{DepthMode, Exchange};
use crate::config::planner::{ConnectionPlan, ConnectionPlanModel};

verus! {

/// A connection at run time.
#[derive(Debug)]
pub struct MarketWsRuntime {
    pub connection_id: ConnectionId,
    pub shard_id: ShardId,
    pub exchange: Exchange,
    pub depth_mode: DepthMode,
    pub subscribed_symbols: Vec<String>,
}

/// What a [`MarketWsRuntime`] holds.
#[verifier::ext_equal]
pub struct MarketWsRuntimeModel {
    pub connection_id: Seq<char>,
    pub shard_id: Seq<char>,
    pub exchange: Exchange,
    pub depth_mode: DepthMode,
    pub subscribed_symbols: Seq<Seq<char>>,
}

impl View for MarketWsRuntime {
    type V = MarketWsRuntimeModel;

    open spec fn view(&self) -> MarketWsRuntimeModel {
        MarketWsRuntimeModel {
            connection_id: self.connection_id@,
            shard_id: self.shard_id@,
            exchange: self.exchange,
            depth_mode: self.depth_mode,
            subscribed_symbols: self.subscribed_symbols.deep_view(),
        }
    }
}

impl DeepView for MarketWsRuntime {
    type V = MarketWsRuntimeModel;

    open spec fn deep_view(&self) -> MarketWsRuntimeModel {
        self@
    }
}

impl Clone for MarketWsRuntime {
    fn clone(&self) -> (r: Self)
        ensures
            r@ == self@,
    {
        let connection_id = self.connection_id.clone();
        let shard_id = self.shard_id.clone();
        let subscribed_symbols = self.subscribed_symbols.clone();
        assert(subscribed_symbols.deep_view() =~= self.subscribed_symbols.deep_view());
        MarketWsRuntime {
            connection_id,
            shard_id,
            exchange: self.exchange,
            depth_mode: self.depth_mode,
            subscribed_symbols,
        }
    }
}

/// The connection that a plan asks for.
pub open spec fn runtime_of(plan: ConnectionPlanModel) -> MarketWsRuntimeModel {
    MarketWsRuntimeModel {
        connection_id: plan.connection_id,
        shard_id: plan.shard_id,
        exchange: plan.exchange,
        depth_mode: plan.depth_mode,
        subscribed_symbols: plan.symbols,
    }
}

impl MarketWsRuntime {
    pub fn from_plan(plan: &ConnectionPlan) -> (r: Self)
        ensures
            r@ == runtime_of(plan@),
    {
        let subscribed_symbols = plan.symbols.clone();
        assert(subscribed_symbols.deep_view() =~= plan.symbols.deep_view());
        MarketWsRuntime {
            connection_id: plan.connection_id.clone(),
            shard_id: plan.shard_id.clone(),
            exchange: plan.exchange,
            depth_mode: plan.depth_mode,
            subscribed_symbols,
        }
    }
}

/// A connection is opened as it was planned.
pub proof fn plans_are_connected(plan: ConnectionPlanModel)
    ensures
        runtime_of(plan).connection_id == plan.connection_id,
        runtime_of(plan).shard_id == plan.shard_id,
        runtime_of(plan).exchange == plan.exchange,
        runtime_of(plan).depth_mode == plan.depth_mode,
        runtime_of(plan).subscribed_symbols == plan.symbols,
{
}

} // verus!
