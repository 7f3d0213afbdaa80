//! The report for machines and for people.

pub mod json;
pub mod tab;
