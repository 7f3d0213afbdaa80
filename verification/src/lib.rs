//! Reports on the state of a tree of git repositories, and audits how
//! history was rewritten between pairs of them.

use vstd::prelude::*;

pub mod git;
pub mod git_rewrite;
pub mod order;
pub mod output;
pub mod paths;
pub mod report;
pub mod scan;
pub mod system;
pub mod text;
pub mod types;

pub use git::runner::{GitOutput, GitRunner};
pub use git_rewrite::error::GitRewriteError;
pub use git_rewrite::executor::collect_git_rewrite_entries;
pub use git_rewrite::tracking::collect_git_rewrite_untracked;
pub use report::collector::collect_report_data;
pub use report::format::generate_report;
pub use system::{Clock, FsOps, WalkEntry};
pub use types::{
    GitRewriteEntry, Options, PushableEntry, RepoSummary, ReportData, StagedEntry,
    UncommittedEntry, UntrackedReason, UntrackedRepoEntry,
};

verus! {

} // verus!
