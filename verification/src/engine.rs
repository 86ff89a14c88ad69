//! The engine: order books, strategies, shards and what they report.

pub mod book;
pub mod book_laws;
pub mod codec_laws;
pub mod fill_laws;
pub mod matching_laws;
pub mod runtime;
pub mod shard;
pub mod shard_laws;
pub mod strategy;
pub mod strategy_laws;
pub mod telemetry;
pub mod telemetry_laws;
pub mod types;
