//! Ownership transition records for coin objects, derived checkpoint by
//! checkpoint and buffered until a consumer drains them.

pub mod accumulator;
pub mod builder;
pub mod cache;
pub mod handler;
pub mod laws;
pub mod status;
pub mod transition;
pub mod types;
