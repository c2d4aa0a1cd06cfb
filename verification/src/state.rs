//! The durable recovery record of one paused replay session.
//!
//! At most one such record exists per repository; its presence is what
//! blocks starting a second fresh plan. Reading and writing the record on
//! disk is the surrounding binary's business; the library only defines the
//! data and its meaning.

use vstd::prelude::*;

verus! {

/// Remaining work for one destination branch: the commits still to replay,
/// oldest first.
#[derive(Debug)]
pub struct BranchQueue {
    pub branch: String,
    pub commits: Vec<String>,
}

pub struct BranchQueueV {
    pub branch: Seq<char>,
    pub commits: Seq<Seq<char>>,
}

impl View for BranchQueue {
    type V = BranchQueueV;

    open spec fn view(&self) -> BranchQueueV {
        BranchQueueV { branch: self.branch@, commits: self.commits.deep_view() }
    }
}

impl DeepView for BranchQueue {
    type V = BranchQueueV;

    open spec fn deep_view(&self) -> BranchQueueV {
        self@
    }
}

/// Everything a fresh process needs to resume or abort a paused replay.
#[derive(Debug)]
pub struct SessionState {
    pub version: u32,
    pub session_id: String,
    pub worktree_path: String,
    pub current_branch_idx: usize,
    pub branch_queues: Vec<BranchQueue>,
    pub in_conflict: bool,
    pub base_oid: String,
    pub original_cwd: String,
}

/// Relies on `uuid::Uuid::new_v4` and its `Display` form: a fresh random
/// identifier rendered hyphenated, always 36 characters.
#[verifier::external_body]
pub(crate) fn new_session_id() -> (r: String)
    ensures
        r@.len() == 36,
{
    uuid::Uuid::new_v4().to_string()
}

impl SessionState {
    /// A fresh, unpaused session record over the given queues.
    pub fn new(
        worktree_path: String,
        branch_queues: Vec<BranchQueue>,
        base_oid: String,
        original_cwd: String,
    ) -> (s: SessionState)
        ensures
            s.version == 1,
            s.session_id@.len() == 36,
            s.worktree_path == worktree_path,
            s.current_branch_idx == 0,
            s.branch_queues == branch_queues,
            s.in_conflict == false,
            s.base_oid == base_oid,
            s.original_cwd == original_cwd,
    {
        SessionState {
            version: 1,
            session_id: new_session_id(),
            worktree_path,
            current_branch_idx: 0,
            branch_queues,
            in_conflict: false,
            base_oid,
            original_cwd,
        }
    }
}

} // verus!
