//! The report on a tree of repositories: collecting it, and putting it in words.

pub mod collector;
pub mod format;
pub mod repository;
