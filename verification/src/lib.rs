//! Cross-venue order-book engine and arbitrage detection.
//!
//! The crate maintains per-venue limit order books over fixed-point decimal
//! prices and quantities, derives change events from successive book states,
//! aggregates books across venues, and detects fee-adjusted cross-venue
//! arbitrage opportunities.

pub mod aggregator;
pub mod arbitrage;
pub mod assoc;
pub mod book;
pub mod builder;
pub mod cache;
pub mod config;
pub mod events;
pub mod fixed;
pub mod ids;
pub mod laws;
pub mod manager;
pub mod math;
pub mod time;
pub mod types;
pub mod validation;
