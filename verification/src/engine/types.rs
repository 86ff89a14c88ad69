//! Events and commands that pass between gateways, shards and order execution.

use vstd::prelude::*;

use crate::config::ids::{AccountId, ClientOrderId, ConnectionId, ShardId, StrategyId};
use crate::config::model::Exchange;
use crate::num::Binary64;

verus! {

/// The side of an order.
#[derive(Clone, Copy, Debug, PartialEq, Eq, Structural)]
pub enum Side {
    Buy,
    Sell,
}

impl Side {
    /// The other side.
    pub open spec fn opposite(self) -> Side {
        match self {
            Side::Buy => Side::Sell,
            Side::Sell => Side::Buy,
        }
    }
}

/// What a shard is told.
#[derive(Debug)]
pub enum ShardEvent {
    MarketWsRaw {
        connection_id: ConnectionId,
        exchange: Exchange,
        /// When the gateway received the payload; only for measuring.
        received_at: std::time::Instant,
        /// When the payload was ready to be handed to the shard; only for measuring.
        serialized_at: std::time::Instant,
        payload: Vec<u8>,
    },
    OrderWsRaw { shard_id: ShardId, account_id: AccountId, exchange: Exchange, payload: Vec<u8> },
    AccountWsRaw { shard_id: ShardId, account_id: AccountId, exchange: Exchange, payload: Vec<u8> },
    PositionWsRaw { shard_id: ShardId, account_id: AccountId, exchange: Exchange, payload: Vec<u8> },
    TimerTick { shard_id: ShardId, now_ms: u64 },
    ConfigReload { shard_id: ShardId, strategy_ids: Vec<StrategyId> },
    Shutdown { shard_id: ShardId },
}

impl ShardEvent {
    /// A market event for `payload`, which was received at `received_at` and is ready now.
    pub fn market(
        connection_id: ConnectionId,
        exchange: Exchange,
        received_at: std::time::Instant,
        payload: Vec<u8>,
    ) -> (r: ShardEvent)
        ensures
            r matches ShardEvent::MarketWsRaw {
                connection_id: c,
                exchange: e,
                received_at: t,
                payload: p,
                ..
            } && c@ == connection_id@ && e == exchange && t == received_at && p@ == payload@,
    {
        ShardEvent::MarketWsRaw {
            connection_id,
            exchange,
            received_at,
            serialized_at: default_received_at(),
            payload,
        }
    }
}

/// The moment that stands for one which was not recorded: now.
pub fn default_received_at() -> (r: std::time::Instant) {
    std::time::Instant::now()
}

/// What order execution is told.
#[derive(Debug)]
pub enum TradeCommand {
    PlaceOrder {
        shard_id: ShardId,
        strategy_id: StrategyId,
        account_id: AccountId,
        exchange: Exchange,
        symbol: String,
        side: Side,
        qty: Binary64,
        limit_price: Option<Binary64>,
        client_order_id: ClientOrderId,
    },
    CancelOrder {
        shard_id: ShardId,
        strategy_id: StrategyId,
        account_id: AccountId,
        exchange: Exchange,
        symbol: String,
        client_order_id: ClientOrderId,
    },
    QueryOrder {
        shard_id: ShardId,
        strategy_id: StrategyId,
        account_id: AccountId,
        exchange: Exchange,
        symbol: String,
        client_order_id: ClientOrderId,
    },
}

/// What a [`TradeCommand`] holds.
#[verifier::ext_equal]
pub enum TradeCommandModel {
    PlaceOrder {
        shard_id: Seq<char>,
        strategy_id: Seq<char>,
        account_id: Seq<char>,
        exchange: Exchange,
        symbol: Seq<char>,
        side: Side,
        qty: Binary64,
        limit_price: Option<Binary64>,
        client_order_id: Seq<char>,
    },
    CancelOrder {
        shard_id: Seq<char>,
        strategy_id: Seq<char>,
        account_id: Seq<char>,
        exchange: Exchange,
        symbol: Seq<char>,
        client_order_id: Seq<char>,
    },
    QueryOrder {
        shard_id: Seq<char>,
        strategy_id: Seq<char>,
        account_id: Seq<char>,
        exchange: Exchange,
        symbol: Seq<char>,
        client_order_id: Seq<char>,
    },
}

impl View for TradeCommand {
    type V = TradeCommandModel;

    open spec fn view(&self) -> TradeCommandModel {
        match self {
            TradeCommand::PlaceOrder {
                shard_id,
                strategy_id,
                account_id,
                exchange,
                symbol,
                side,
                qty,
                limit_price,
                client_order_id,
            } => TradeCommandModel::PlaceOrder {
                shard_id: shard_id@,
                strategy_id: strategy_id@,
                account_id: account_id@,
                exchange: *exchange,
                symbol: symbol@,
                side: *side,
                qty: *qty,
                limit_price: *limit_price,
                client_order_id: client_order_id@,
            },
            TradeCommand::CancelOrder {
                shard_id,
                strategy_id,
                account_id,
                exchange,
                symbol,
                client_order_id,
            } => TradeCommandModel::CancelOrder {
                shard_id: shard_id@,
                strategy_id: strategy_id@,
                account_id: account_id@,
                exchange: *exchange,
                symbol: symbol@,
                client_order_id: client_order_id@,
            },
            TradeCommand::QueryOrder {
                shard_id,
                strategy_id,
                account_id,
                exchange,
                symbol,
                client_order_id,
            } => TradeCommandModel::QueryOrder {
                shard_id: shard_id@,
                strategy_id: strategy_id@,
                account_id: account_id@,
                exchange: *exchange,
                symbol: symbol@,
                client_order_id: client_order_id@,
            },
        }
    }
}

impl DeepView for TradeCommand {
    type V = TradeCommandModel;

    open spec fn deep_view(&self) -> TradeCommandModel {
        self@
    }
}

impl Clone for TradeCommand {
    fn clone(&self) -> (r: Self)
        ensures
            r == *self,
    {
        match self {
            TradeCommand::PlaceOrder {
                shard_id,
                strategy_id,
                account_id,
                exchange,
                symbol,
                side,
                qty,
                limit_price,
                client_order_id,
            } => TradeCommand::PlaceOrder {
                shard_id: shard_id.clone(),
                strategy_id: strategy_id.clone(),
                account_id: account_id.clone(),
                exchange: *exchange,
                symbol: symbol.clone(),
                side: *side,
                qty: *qty,
                limit_price: *limit_price,
                client_order_id: client_order_id.clone(),
            },
            TradeCommand::CancelOrder {
                shard_id,
                strategy_id,
                account_id,
                exchange,
                symbol,
                client_order_id,
            } => TradeCommand::CancelOrder {
                shard_id: shard_id.clone(),
                strategy_id: strategy_id.clone(),
                account_id: account_id.clone(),
                exchange: *exchange,
                symbol: symbol.clone(),
                client_order_id: client_order_id.clone(),
            },
            TradeCommand::QueryOrder {
                shard_id,
                strategy_id,
                account_id,
                exchange,
                symbol,
                client_order_id,
            } => TradeCommand::QueryOrder {
                shard_id: shard_id.clone(),
                strategy_id: strategy_id.clone(),
                account_id: account_id.clone(),
                exchange: *exchange,
                symbol: symbol.clone(),
                client_order_id: client_order_id.clone(),
            },
        }
    }
}

} // verus!
