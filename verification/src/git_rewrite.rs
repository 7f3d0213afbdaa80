//! The audit of rewritten history: which repositories are paired, what the
//! audit tool reported on each pair, and which repositories stand outside.

pub mod config;
pub mod error;
pub mod executor;
pub mod time;
pub mod tracking;
pub mod worker;
