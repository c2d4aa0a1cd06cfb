//! Splitting a linear run of commits onto several target branches.
//!
//! The routing plan model parses a user-edited routing specification into a
//! validated commit-to-destination mapping; the apply engine replays the
//! assigned commits per branch through an isolated worktree, pausing on
//! conflicts with a durable checkpoint that a later run resumes or aborts.

pub mod cli;
pub mod engine;
pub mod routing;
pub mod state;
pub mod text;
