//! A simulated foreign-exchange trading venue: a central limit order book
//! matching engine with price-time priority, a broker order-rewriting
//! pipeline, a synthetic participant population, and a derived price/candle
//! feed.
//!
//! All prices and money amounts are fixed-point integers: a price carries
//! six decimal places (micro-units of the quote currency), volumes are whole
//! base-currency units, and money balances are micro-units in an `i128`.

pub mod broker;
pub mod clock;
pub mod fixed;
pub mod market;
pub mod orderbook;
pub mod participants;
pub mod price_feed;
pub mod rng;
pub mod text;
