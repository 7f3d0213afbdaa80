//! The state of one repository, as the version-control tool reports it.

pub mod head;
pub mod metrics;
pub mod refs;
pub mod runner;
