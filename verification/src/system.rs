//! What the library asks of its surroundings: a file system to probe and a
//! clock to read. Callers bring the implementations.

use vstd::prelude::*;
use crate::types::{opt_text, views};

verus! {

/// One entry met while walking a directory tree.
#[derive(Debug, Clone)]
pub struct WalkEntry {
    /// The directory that holds the entry, if it has one.
    pub parent: Option<String>,
    /// The entry's own name, if it has one.
    pub name: Option<String>,
    pub is_dir: bool,
}

pub struct WalkEntryView {
    pub parent: Option<Seq<char>>,
    pub name: Option<Seq<char>>,
    pub is_dir: bool,
}

impl View for WalkEntry {
    type V = WalkEntryView;

    open spec fn view(&self) -> WalkEntryView {
        WalkEntryView {
            parent: opt_text(self.parent),
            name: opt_text(self.name),
            is_dir: self.is_dir,
        }
    }
}

/// File-system probing.
///
/// Paths go in and out as texts, and the library takes two paths for the
/// same path exactly when they are the same text. How a path is spelled is
/// for the implementation to say.
pub trait FsOps {
    /// Whether `dir` is the root of a repository.
    fn is_repo(&self, dir: &str) -> (answer: bool)
        ensures
            self.may_be_repo(dir@, answer),
    ;

    /// `p` with a leading home-directory marker replaced by the home directory.
    fn expand_tilde(&self, p: &str) -> (expanded: String)
        ensures
            self.may_expand(p@, expanded@),
    ;

    /// Whether anything exists at `p`.
    fn path_exists(&self, p: &str) -> (answer: bool)
        ensures
            self.may_exist(p@, answer),
    ;

    /// The current working directory, if it can be had.
    fn current_dir(&self) -> (cwd: Option<String>)
        ensures
            self.may_be_in(opt_text(cwd)),
    ;

    /// The entries at most `max_depth` levels below `root`, `root` itself
    /// included, without following symbolic links; entries that cannot be
    /// read are left out.
    fn walk(&self, root: &str, max_depth: usize) -> (entries: Vec<WalkEntry>)
        ensures
            self.may_walk(root@, max_depth, views(entries@)),
    ;

    /// The canonical form of `p`, if the file system yields one.
    fn canonicalize(&self, p: &str) -> (canonical: Option<String>)
        ensures
            self.may_canonicalize(p@, opt_text(canonical)),
    ;

    /// Whether `answer` is a way to answer whether `dir` is a repository.
    /// Here and below, a file system that says nothing about itself allows
    /// every answer.
    open spec fn may_be_repo(&self, dir: Seq<char>, answer: bool) -> bool {
        true
    }

    /// Whether `expanded` is a way to expand `p`.
    open spec fn may_expand(&self, p: Seq<char>, expanded: Seq<char>) -> bool {
        true
    }

    /// Whether `answer` is a way to answer whether anything exists at `p`.
    open spec fn may_exist(&self, p: Seq<char>, answer: bool) -> bool {
        true
    }

    /// Whether `cwd` is a way to name the working directory.
    open spec fn may_be_in(&self, cwd: Option<Seq<char>>) -> bool {
        true
    }

    /// Whether `entries` is a way for a walk from `root` down to `max_depth`
    /// levels to go.
    open spec fn may_walk(&self, root: Seq<char>, max_depth: usize, entries: Seq<WalkEntryView>) -> bool {
        true
    }

    /// Whether `canonical` is a way to answer for the canonical form of `p`.
    open spec fn may_canonicalize(&self, p: Seq<char>, canonical: Option<Seq<char>>) -> bool {
        true
    }
}

/// A source of the current time.
pub trait Clock {
    /// Seconds since the Unix epoch; negative before it.
    fn now(&self) -> (now: i64)
        ensures
            self.may_read(now),
    ;

    /// Whether `now` is a time that the clock may show. A clock that says
    /// nothing about itself may show any time.
    open spec fn may_read(&self, now: i64) -> bool {
        true
    }
}

} // verus!
