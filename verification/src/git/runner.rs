//! The door to the version-control tool.

use vstd::prelude::*;
use crate::order::texts;

verus! {

/// What one finished run of the tool left behind; the two streams are text,
/// decoded leniently by whoever ran it.
#[derive(Debug, Clone)]
pub struct GitOutput {
    /// Whether the tool exited with status zero.
    pub success: bool,
    pub stdout: String,
    pub stderr: String,
}

/// Runs the version-control tool.
pub trait GitRunner {
    /// Runs the tool inside `repo` with `args` and waits for it. `None` when
    /// the tool could not be started.
    fn run_git(&self, repo: &str, args: &[&str]) -> (out: Option<GitOutput>)
        ensures
            self.may_answer(repo@, texts(args@), out),
    ;

    /// Whether `out` is a way in which a run inside `repo` with `args` can
    /// end. A runner that says nothing about itself allows every end.
    open spec fn may_answer(
        &self,
        repo: Seq<char>,
        args: Seq<Seq<char>>,
        out: Option<GitOutput>,
    ) -> bool {
        true
    }
}

} // verus!
