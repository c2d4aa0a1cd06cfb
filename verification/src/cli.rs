//! Command-line options, as plain data.
//!
//! The surrounding binary parses its arguments however it likes and fills
//! this struct; the library only reads it.

use vstd::prelude::*;

verus! {

/// The options that govern one invocation.
#[derive(Debug)]
pub struct Args {
    /// Base branch to create new branches from.
    pub base: Option<String>,
    /// Keep unassigned commits on the current branch (explicit form of the default).
    pub default_current: bool,
    /// Drop unassigned commits entirely.
    pub no_current: bool,
    /// Target branch names given as a flag list.
    pub targets: Vec<String>,
    /// Target branch names given positionally.
    pub positional_targets: Vec<String>,
    /// Editor command to use.
    pub editor: Option<String>,
    /// Render and validate only; apply nothing.
    pub dry_run: bool,
    /// Allow running with a dirty working tree.
    pub allow_dirty: bool,
    /// Use an existing routing file instead of launching the editor.
    pub routing_file: Option<String>,
    /// Resume a previous session after conflicts.
    pub continue_session: bool,
    /// Abort a previous session.
    pub abort: bool,
    /// Do not change directory into the conflict worktree.
    pub no_chdir_conflict: bool,
}

impl Args {
    /// Unassigned commits stay on the current branch unless `--no-current` was given.
    pub fn keep_current(&self) -> (r: bool)
        ensures
            r == !self.no_current,
    {
        !self.no_current
    }
}

} // verus!
