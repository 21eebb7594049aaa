//! Streaming integer aggregation: a fold engine that reads one token at a
//! time and produces a sum, a truncated average or a count.
pub mod decimal;
pub mod strategy;
pub mod engine;
pub mod laws;
