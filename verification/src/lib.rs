//! Synthetic option-chain market data: a verified generator for strike
//! ladders with randomized risk parameters, a renderer for the JSON wire
//! format, and the per-tick state of the publish loop.

pub mod chain;
pub mod fixed;
pub mod json;
pub mod parse;
pub mod publisher;
