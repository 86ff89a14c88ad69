//! A cross-exchange arbitrage engine for perpetual futures.
//!
//! Strategies pair a long leg on one exchange with a short leg on another. They are configured and
//! stored ([`config`]), grouped into shards that keep order books and plan orders ([`engine`]), and fed
//! by connections to the venues ([`gateway`]). Everything here decides; reading, sending and waiting
//! is left to the program around it.

pub mod app;
pub mod cli;
pub mod clock;
pub mod config;
pub mod engine;
pub mod error;
pub mod gateway;
pub mod json;
pub mod market_rule_laws;
pub mod market_rules;
pub mod num;
pub mod order;
pub mod text;
pub mod web_ui;
