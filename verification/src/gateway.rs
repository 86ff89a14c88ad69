//! The gateways to venues: market data and orders.

pub mod market_ws;
pub mod trade_exec;
