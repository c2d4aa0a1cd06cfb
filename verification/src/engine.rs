//! The worktree apply engine, as a pure state machine.
//!
//! The engine decides; the surrounding binary acts. Each step hands out one
//! version-control action (create the isolated worktree, replay a commit,
//! move a branch reference, ...), and the caller reports what happened as an
//! event. All invariants — queue order, when a branch reference may move,
//! what a conflict checkpoint must contain — are proved here, independent of
//! what the tool at the other end does.

use vstd::prelude::*;
use crate::routing::{
    Dest, DestV, Assignment, AssignmentV, RoutingPlan, CommitInfo, CommitInfoV, ApplySummary,
    vec_contains_string,
};
use crate::state::{BranchQueue, BranchQueueV, SessionState, new_session_id};
use crate::text::{trim, trim_spec, check_hex40, is_hex40, str_eq};

verus! {

/// The destination branch names of a plan, in first-seen order.
pub open spec fn branch_dests(assigns: Seq<AssignmentV>) -> Seq<Seq<char>>
    decreases assigns.len(),
{
    if assigns.len() == 0 {
        Seq::empty()
    } else {
        let p = branch_dests(assigns.drop_last());
        match assigns.last().dest {
            DestV::Branch(b) => if p.contains(b) {
                p
            } else {
                p.push(b)
            },
            _ => p,
        }
    }
}

/// The destination of the first assignment routing `oid`.
pub open spec fn dest_of(assigns: Seq<AssignmentV>, oid: Seq<char>) -> Option<DestV>
    decreases assigns.len(),
{
    if assigns.len() == 0 {
        None
    } else if assigns[0].oid == oid {
        Some(assigns[0].dest)
    } else {
        dest_of(assigns.skip(1), oid)
    }
}

/// The queue for branch `b`: every candidate commit routed to `b`, in
/// candidate — that is, chronological — order.
pub open spec fn queue_commits(
    commits: Seq<CommitInfoV>,
    assigns: Seq<AssignmentV>,
    b: Seq<char>,
) -> Seq<Seq<char>>
    decreases commits.len(),
{
    if commits.len() == 0 {
        Seq::empty()
    } else {
        let p = queue_commits(commits.drop_last(), assigns, b);
        if dest_of(assigns, commits.last().oid) == Some(DestV::Branch(b)) {
            p.push(commits.last().oid)
        } else {
            p
        }
    }
}

/// Queue ordering does not depend on how the assignments were declared:
/// two plans that route every identifier alike fill each branch's queue
/// with exactly the same commits, in the same chronological order.
pub proof fn lemma_queue_order_independent(
    commits: Seq<CommitInfoV>,
    a1: Seq<AssignmentV>,
    a2: Seq<AssignmentV>,
    b: Seq<char>,
)
    requires
        forall|oid: Seq<char>| #[trigger] dest_of(a1, oid) == dest_of(a2, oid),
    ensures
        queue_commits(commits, a1, b) == queue_commits(commits, a2, b),
    decreases commits.len(),
{
    if commits.len() > 0 {
        lemma_queue_order_independent(commits.drop_last(), a1, a2, b);
    }
}

fn dest_of_exec<'a>(assigns: &'a Vec<Assignment>, oid: &String) -> (r: Option<&'a Dest>)
    ensures
        (match (r, dest_of(assigns.deep_view(), oid@)) {
            (Some(d), Some(dv)) => d@ == dv,
            (None, None) => true,
            _ => false,
        }),
{
    let ghost dv = assigns.deep_view();
    let mut k: usize = 0;
    proof {
        assert(dv.skip(0) =~= dv);
    }
    while k < assigns.len()
        invariant
            k <= assigns@.len(),
            dv == assigns.deep_view(),
            dest_of(dv, oid@) == dest_of(dv.skip(k as int), oid@),
        decreases assigns@.len() - k,
    {
        proof {
            assert(dv.skip(k as int)[0] == dv[k as int]);
            assert(dv.skip(k as int).skip(1) =~= dv.skip(k + 1));
            assert(dv[k as int] == assigns@[k as int]@);
        }
        if str_eq(assigns[k].oid.as_str(), oid.as_str()) {
            return Some(&assigns[k].dest);
        }
        k += 1;
    }
    proof {
        assert(dv.skip(assigns@.len() as int) =~= Seq::<AssignmentV>::empty());
    }
    None
}

/// Builds the per-branch work queues of a plan: branches in first-seen
/// declaration order, each queue holding its commits in chronological order.
pub fn build_branch_queues(plan: &RoutingPlan, commits: &Vec<CommitInfo>) -> (r: Vec<BranchQueue>)
    ensures
        ({
            let av = plan.assignments.deep_view();
            let names = branch_dests(av);
            &&& r.deep_view().len() == names.len()
            &&& forall|i: int|
                0 <= i < names.len() ==> #[trigger] r.deep_view()[i] == (BranchQueueV {
                    branch: names[i],
                    commits: queue_commits(commits.deep_view(), av, names[i]),
                })
        }),
{
    let ghost av = plan.assignments.deep_view();
    let ghost cv = commits.deep_view();

    let mut order: Vec<String> = Vec::new();
    let mut i: usize = 0;
    proof {
        assert(av.take(0) =~= Seq::<AssignmentV>::empty());
        assert(order.deep_view() =~= branch_dests(av.take(0)));
    }
    while i < plan.assignments.len()
        invariant
            i <= plan.assignments@.len(),
            av == plan.assignments.deep_view(),
            order.deep_view() == branch_dests(av.take(i as int)),
        decreases plan.assignments@.len() - i,
    {
        proof {
            assert(av.take(i + 1).drop_last() =~= av.take(i as int));
            assert(av.take(i + 1).last() == av[i as int]);
            assert(av[i as int] == plan.assignments@[i as int]@);
        }
        match &plan.assignments[i].dest {
            Dest::Branch(b) => {
                let ghost before = order.deep_view();
                if !vec_contains_string(&order, b) {
                    order.push(b.clone());
                    proof {
                        assert(order.deep_view() =~= before.push(
                            branch_dests(av.take(i + 1)).last(),
                        ));
                    }
                }
            },
            _ => {},
        }
        i += 1;
    }
    proof {
        assert(av.take(plan.assignments@.len() as int) =~= av);
    }

    let mut r: Vec<BranchQueue> = Vec::new();
    let mut k: usize = 0;
    while k < order.len()
        invariant
            k <= order@.len(),
            av == plan.assignments.deep_view(),
            cv == commits.deep_view(),
            order.deep_view() == branch_dests(av),
            r.deep_view().len() == k,
            forall|j: int|
                0 <= j < k ==> #[trigger] r.deep_view()[j] == (BranchQueueV {
                    branch: order.deep_view()[j],
                    commits: queue_commits(cv, av, order.deep_view()[j]),
                }),
        decreases order@.len() - k,
    {
        let b = order[k].clone();
        proof {
            assert(b@ == order.deep_view()[k as int]);
        }
        let mut q: Vec<String> = Vec::new();
        let mut j: usize = 0;
        proof {
            assert(cv.take(0) =~= Seq::<CommitInfoV>::empty());
            assert(q.deep_view() =~= queue_commits(cv.take(0), av, b@));
        }
        while j < commits.len()
            invariant
                j <= commits@.len(),
                av == plan.assignments.deep_view(),
                cv == commits.deep_view(),
                b@ == order.deep_view()[k as int],
                q.deep_view() == queue_commits(cv.take(j as int), av, b@),
            decreases commits@.len() - j,
        {
            proof {
                assert(cv.take(j + 1).drop_last() =~= cv.take(j as int));
                assert(cv.take(j + 1).last() == cv[j as int]);
                assert(cv[j as int] == commits@[j as int]@);
            }
            let hit: bool = match dest_of_exec(&plan.assignments, &commits[j].oid) {
                Some(d) => match d {
                    Dest::Branch(bb) => str_eq(bb.as_str(), b.as_str()),
                    _ => false,
                },
                None => false,
            };
            assert(hit == (dest_of(av, cv[j as int].oid) == Some(DestV::Branch(b@))));
            if hit {
                let ghost before = q.deep_view();
                q.push(commits[j].oid.clone());
                proof {
                    assert(q.deep_view() =~= before.push(cv[j as int].oid));
                }
            }
            j += 1;
        }
        proof {
            assert(cv.take(commits@.len() as int) =~= cv);
        }
        let ghost before_r = r.deep_view();
        r.push(BranchQueue { branch: b, commits: q });
        proof {
            assert(r.deep_view() =~= before_r.push(
                BranchQueueV {
                    branch: order.deep_view()[k as int],
                    commits: queue_commits(cv, av, order.deep_view()[k as int]),
                },
            ));
        }
        k += 1;
    }
    r
}

/// One version-control action the engine asks the surrounding binary to
/// perform. All paths are implicit: actions concern the one well-known
/// isolated worktree and the repository it belongs to.
#[derive(Debug)]
pub enum GitAction {
    /// Discard the isolated worktree, if any. Best-effort.
    RemoveWorktree,
    /// Report whether the branch exists (its tip is usable as a start point).
    ReadBranchTip { branch: String },
    /// Materialize the isolated worktree detached at `start`.
    CreateWorktree { start: String },
    /// Report whether a replay operation is still pending in the worktree.
    CheckPickInProgress,
    /// Finish the pending replay operation.
    ContinuePick,
    /// Replay one commit onto the worktree.
    Pick { oid: String },
    /// Read the worktree's resulting head commit.
    ReadHead,
    /// Move the branch reference to `oid`: the one durable branch mutation.
    MoveBranchRef { branch: String, oid: String },
    /// Cancel any pending replay operation. Best-effort.
    AbortPick,
}

pub enum GitActionV {
    RemoveWorktree,
    ReadBranchTip { branch: Seq<char> },
    CreateWorktree { start: Seq<char> },
    CheckPickInProgress,
    ContinuePick,
    Pick { oid: Seq<char> },
    ReadHead,
    MoveBranchRef { branch: Seq<char>, oid: Seq<char> },
    AbortPick,
}

impl View for GitAction {
    type V = GitActionV;

    open spec fn view(&self) -> GitActionV {
        match self {
            GitAction::RemoveWorktree => GitActionV::RemoveWorktree,
            GitAction::ReadBranchTip { branch } => GitActionV::ReadBranchTip { branch: branch@ },
            GitAction::CreateWorktree { start } => GitActionV::CreateWorktree { start: start@ },
            GitAction::CheckPickInProgress => GitActionV::CheckPickInProgress,
            GitAction::ContinuePick => GitActionV::ContinuePick,
            GitAction::Pick { oid } => GitActionV::Pick { oid: oid@ },
            GitAction::ReadHead => GitActionV::ReadHead,
            GitAction::MoveBranchRef { branch, oid } => GitActionV::MoveBranchRef {
                branch: branch@,
                oid: oid@,
            },
            GitAction::AbortPick => GitActionV::AbortPick,
        }
    }
}

impl DeepView for GitAction {
    type V = GitActionV;

    open spec fn deep_view(&self) -> GitActionV {
        self@
    }
}

/// What the surrounding binary reports back after performing an action.
#[derive(Debug)]
pub enum GitEvent {
    /// The action succeeded.
    Done,
    /// The action failed; carries the tool's diagnostic text.
    Failed(String),
    /// Answer to `ReadBranchTip`.
    Tip { existing: bool },
    /// Answer to `CheckPickInProgress`.
    InProgress(bool),
    /// Answer to `ReadHead`: the tool's output.
    Head(String),
}

/// Where the engine stands: which answer it is waiting for.
#[derive(Clone, Copy)]
pub enum Phase {
    AwaitCleanup,
    AwaitTip,
    AwaitCreate,
    AwaitCheck,
    AwaitContinue,
    AwaitPick,
    AwaitHead,
    AwaitMove,
    AwaitTeardown,
    Finished,
}

/// An unexpected, fatal failure: anything outside the one anticipated
/// conflict path. Each variant carries the tool's diagnostic text.
#[derive(Debug)]
pub enum EngineError {
    BranchReadFailed(String),
    WorktreeCreateFailed(String),
    CheckFailed(String),
    ContinueFailed(String),
    ReadHeadFailed(String),
    BadHead(String),
    MoveRefFailed(String),
    /// The caller answered with an event the current phase cannot take.
    Protocol,
}

/// What one engine step yields.
#[derive(Debug)]
pub enum StepResult {
    /// Perform this action and report back.
    Do(GitAction),
    /// Every branch is applied; the run is over.
    Complete(ApplySummary),
    /// A replay conflicted: persist this checkpoint and stop.
    Conflict(SessionState, String),
    /// An unexpected failure; the run is over.
    Fatal(EngineError),
}

/// The final outcome of an apply run, fatal failures aside: either every
/// branch was applied, or a replay conflicted and left a checkpoint.
#[derive(Debug)]
pub enum ApplyOutcome {
    Complete(ApplySummary),
    Conflict(SessionState, String),
}

impl StepResult {
    /// What this step settles, if anything: completion and conflict are
    /// final outcomes, a fatal failure is an error, and an action request
    /// means the run goes on.
    pub fn into_outcome(self) -> (r: Result<Option<ApplyOutcome>, EngineError>)
        ensures
            self matches StepResult::Do(_) ==> r == Result::<
                Option<ApplyOutcome>,
                EngineError,
            >::Ok(None),
            self matches StepResult::Complete(s) ==> r == Result::<
                Option<ApplyOutcome>,
                EngineError,
            >::Ok(Some(ApplyOutcome::Complete(s))),
            self matches StepResult::Conflict(st, m) ==> r == Result::<
                Option<ApplyOutcome>,
                EngineError,
            >::Ok(Some(ApplyOutcome::Conflict(st, m))),
            self matches StepResult::Fatal(e) ==> r == Result::<
                Option<ApplyOutcome>,
                EngineError,
            >::Err(e),
    {
        match self {
            StepResult::Do(_) => Ok(None),
            StepResult::Complete(s) => Ok(Some(ApplyOutcome::Complete(s))),
            StepResult::Conflict(st, m) => Ok(Some(ApplyOutcome::Conflict(st, m))),
            StepResult::Fatal(e) => Err(e),
        }
    }
}

/// The queues as a checkpoint records them: earlier branches drained,
/// the current branch less its `off` already-replayed commits, later
/// branches untouched.
pub open spec fn drained(qs: Seq<BranchQueueV>, idx: int, off: int) -> Seq<BranchQueueV> {
    Seq::new(
        qs.len(),
        |i: int|
            BranchQueueV {
                branch: qs[i].branch,
                commits: if i < idx {
                    Seq::empty()
                } else if i == idx {
                    qs[i].commits.skip(off)
                } else {
                    qs[i].commits
                },
            },
    )
}

fn clone_commits_from(q: &BranchQueue, from: usize) -> (r: Vec<String>)
    requires
        from <= q.commits@.len(),
    ensures
        r.deep_view() == q@.commits.skip(from as int),
{
    let mut r: Vec<String> = Vec::new();
    let mut i: usize = from;
    proof {
        assert(r.deep_view() =~= q.commits.deep_view().subrange(from as int, from as int));
    }
    while i < q.commits.len()
        invariant
            from <= i <= q.commits@.len(),
            r.deep_view() == q.commits.deep_view().subrange(from as int, i as int),
        decreases q.commits@.len() - i,
    {
        let ghost before = r.deep_view();
        r.push(q.commits[i].clone());
        proof {
            assert(r.deep_view() =~= before.push(q.commits.deep_view()[i as int]));
            assert(q.commits.deep_view().subrange(from as int, i + 1)
                =~= q.commits.deep_view().subrange(from as int, i as int).push(
                q.commits.deep_view()[i as int],
            ));
        }
        i += 1;
    }
    proof {
        assert(q.commits.deep_view().subrange(from as int, q.commits@.len() as int)
            =~= q.commits.deep_view().skip(from as int));
    }
    r
}

fn snapshot_queues(queues: &Vec<BranchQueue>, idx: usize, off: usize) -> (r: Vec<BranchQueue>)
    requires
        idx < queues@.len(),
        off <= queues.deep_view()[idx as int].commits.len(),
    ensures
        r.deep_view() == drained(queues.deep_view(), idx as int, off as int),
{
    let ghost qv = queues.deep_view();
    let mut r: Vec<BranchQueue> = Vec::new();
    let mut i: usize = 0;
    while i < queues.len()
        invariant
            i <= queues@.len(),
            qv == queues.deep_view(),
            idx < queues@.len(),
            off <= qv[idx as int].commits.len(),
            r.deep_view() =~= drained(qv, idx as int, off as int).take(i as int),
        decreases queues@.len() - i,
    {
        proof {
            assert(qv[i as int] == queues@[i as int]@);
        }
        let q = &queues[i];
        let from: usize = if i < idx {
            q.commits.len()
        } else if i == idx {
            off
        } else {
            0
        };
        let kept = clone_commits_from(q, from);
        let ghost before = r.deep_view();
        r.push(BranchQueue { branch: q.branch.clone(), commits: kept });
        proof {
            let want = drained(qv, idx as int, off as int)[i as int];
            if i < idx {
                assert(qv[i as int].commits.skip(qv[i as int].commits.len() as int)
                    =~= Seq::<Seq<char>>::empty());
            } else if i > idx {
                assert(qv[i as int].commits.skip(0) =~= qv[i as int].commits);
            }
            assert(r.deep_view() =~= before.push(want));
            assert(drained(qv, idx as int, off as int).take(i + 1)
                =~= drained(qv, idx as int, off as int).take(i as int).push(want));
        }
        i += 1;
    }
    proof {
        assert(drained(qv, idx as int, off as int).take(queues@.len() as int)
            =~= drained(qv, idx as int, off as int));
    }
    r
}

fn clone_string_vec(v: &Vec<String>) -> (r: Vec<String>)
    ensures
        r.deep_view() == v.deep_view(),
{
    let mut r: Vec<String> = Vec::new();
    let mut i: usize = 0;
    while i < v.len()
        invariant
            i <= v@.len(),
            r.deep_view() =~= v.deep_view().take(i as int),
        decreases v@.len() - i,
    {
        let ghost before = r.deep_view();
        r.push(v[i].clone());
        proof {
            assert(r.deep_view() =~= before.push(v.deep_view()[i as int]));
            assert(v.deep_view().take(i + 1) =~= v.deep_view().take(i as int).push(
                v.deep_view()[i as int],
            ));
        }
        i += 1;
    }
    proof {
        assert(v.deep_view().take(v@.len() as int) =~= v.deep_view());
    }
    r
}

fn clone_counts(v: &Vec<(String, usize)>) -> (r: Vec<(String, usize)>)
    ensures
        crate::routing::pair_counts_view(r@) == crate::routing::pair_counts_view(v@),
{
    let mut r: Vec<(String, usize)> = Vec::new();
    let mut i: usize = 0;
    while i < v.len()
        invariant
            i <= v@.len(),
            crate::routing::pair_counts_view(r@) =~= crate::routing::pair_counts_view(
                v@,
            ).take(i as int),
        decreases v@.len() - i,
    {
        let ghost before = crate::routing::pair_counts_view(r@);
        let name = v[i].0.clone();
        let cnt = v[i].1;
        r.push((name, cnt));
        proof {
            assert(crate::routing::pair_counts_view(r@) =~= before.push(
                crate::routing::pair_counts_view(v@)[i as int],
            ));
            assert(crate::routing::pair_counts_view(v@).take(i + 1)
                =~= crate::routing::pair_counts_view(v@).take(i as int).push(
                crate::routing::pair_counts_view(v@)[i as int],
            ));
        }
        i += 1;
    }
    proof {
        assert(crate::routing::pair_counts_view(v@).take(v@.len() as int)
            =~= crate::routing::pair_counts_view(v@));
    }
    r
}

/// The apply engine's whole state: the immutable queues of the run, a
/// cursor into them, and the record of what has been done so far.
pub struct Engine {
    /// The per-branch queues, fixed for the whole run.
    pub queues: Vec<BranchQueue>,
    /// The branch currently being processed.
    pub idx: usize,
    /// How many commits of the current branch's queue are behind us.
    pub off: usize,
    /// How many commits were replayed cleanly onto the current branch.
    pub count_cur: usize,
    /// Which answer the engine waits for.
    pub phase: Phase,
    /// Branch names recorded as newly created.
    pub created: Vec<String>,
    /// Applied-commit counts of the branches finished so far.
    pub counts: Vec<(String, usize)>,
    /// The overall base commit identifier.
    pub base_oid: String,
    /// The isolated worktree's path.
    pub worktree_path: String,
    /// The repository's working directory.
    pub repo_workdir: String,
    /// The resumed session's identifier, while its branch is in flight.
    pub resumed_session_id: Option<String>,
    /// The resumed session's original working directory, likewise.
    pub resumed_cwd: Option<String>,
}

impl Engine {
    pub open spec fn qv(self) -> Seq<BranchQueueV> {
        self.queues.deep_view()
    }

    /// The queue of the branch currently being processed.
    pub open spec fn cur(self) -> BranchQueueV {
        self.qv()[self.idx as int]
    }

    /// The engine's invariant: the cursor stays inside the queues, and the
    /// per-branch counters stay inside the current queue.
    pub open spec fn wf(self) -> bool {
        &&& self.idx <= self.qv().len()
        &&& (!(self.phase is Finished) ==> self.idx < self.qv().len())
        &&& (self.idx < self.qv().len() ==> self.off <= self.cur().commits.len()
            && self.count_cur <= self.off)
        &&& (self.phase is AwaitPick ==> self.idx < self.qv().len() && self.off < self.cur().commits.len())
        &&& (self.phase is AwaitHead ==> self.idx < self.qv().len() && self.off
            == self.cur().commits.len())
    }

    /// Everything that never changes during a run.
    pub open spec fn same_core(self, other: Engine) -> bool {
        &&& self.queues == other.queues
        &&& self.base_oid == other.base_oid
        &&& self.worktree_path == other.worktree_path
        &&& self.repo_workdir == other.repo_workdir
    }

    /// Everything a step leaves alone unless it says otherwise.
    pub open spec fn same_progress(self, other: Engine) -> bool {
        &&& self.idx == other.idx
        &&& self.off == other.off
        &&& self.count_cur == other.count_cur
        &&& self.created == other.created
        &&& self.counts == other.counts
        &&& self.resumed_session_id == other.resumed_session_id
        &&& self.resumed_cwd == other.resumed_cwd
    }

    /// After a caller's answer that cannot belong to the current phase.
    pub open spec fn protocol_failed(pre: Engine, post: Engine, r: StepResult) -> bool {
        &&& post.phase is Finished
        &&& pre.same_progress(post)
        &&& r == StepResult::Fatal(EngineError::Protocol)
    }

    /// The next action once the current branch's worktree stands ready:
    /// replay the front of the queue, or read the head if it is drained.
    pub open spec fn replay_next(post: Engine, r: StepResult) -> bool {
        &&& (post.off < post.cur().commits.len() ==> post.phase is AwaitPick && (
        r matches StepResult::Do(a) && a matches GitAction::Pick { oid } && oid@
            == post.cur().commits[post.off as int]))
        &&& (post.off == post.cur().commits.len() ==> post.phase is AwaitHead && r
            == StepResult::Do(GitAction::ReadHead))
    }

    fn protocol_fail(&mut self) -> (r: StepResult)
        ensures
            Engine::protocol_failed(*old(self), *final(self), r),
            old(self).same_core(*final(self)),
            final(self).wf() == (final(self).idx <= final(self).qv().len() && (final(self).idx
                < final(self).qv().len() ==> final(self).off <= final(self).cur().commits.len()
                && final(self).count_cur <= final(self).off)),
    {
        self.phase = Phase::Finished;
        StepResult::Fatal(EngineError::Protocol)
    }

    fn next_replay_action(&mut self) -> (r: StepResult)
        requires
            old(self).idx < old(self).qv().len(),
            old(self).off <= old(self).cur().commits.len(),
            old(self).count_cur <= old(self).off,
        ensures
            final(self).wf(),
            old(self).same_core(*final(self)),
            old(self).same_progress(*final(self)),
            Engine::replay_next(*final(self), r),
    {
        proof {
            assert(self.qv()[self.idx as int] == self.queues@[self.idx as int]@);
        }
        if self.off < self.queues[self.idx].commits.len() {
            let oid = self.queues[self.idx].commits[self.off].clone();
            proof {
                assert(self.cur().commits[self.off as int]
                    == self.queues@[self.idx as int].commits@[self.off as int]@);
            }
            self.phase = Phase::AwaitPick;
            StepResult::Do(GitAction::Pick { oid })
        } else {
            self.phase = Phase::AwaitHead;
            StepResult::Do(GitAction::ReadHead)
        }
    }

    /// Begins a fresh run over `queues`. Returns the engine and its first
    /// request; a run with no branch queues completes immediately, empty.
    pub fn start(
        queues: Vec<BranchQueue>,
        base_oid: String,
        worktree_path: String,
        repo_workdir: String,
    ) -> (r: (Engine, StepResult))
        ensures
            r.0.wf(),
            r.0.queues == queues,
            r.0.base_oid == base_oid,
            r.0.worktree_path == worktree_path,
            r.0.repo_workdir == repo_workdir,
            r.0.idx == 0 && r.0.off == 0 && r.0.count_cur == 0,
            r.0.created@.len() == 0 && r.0.counts@.len() == 0,
            r.0.resumed_session_id is None && r.0.resumed_cwd is None,
            queues.deep_view().len() == 0 ==> r.0.phase is Finished && (
            r.1 matches StepResult::Complete(s) && s.created_branches@.len() == 0
                && s.commits_per_branch@.len() == 0),
            queues.deep_view().len() > 0 ==> r.0.phase is AwaitCleanup && r.1 == StepResult::Do(
                GitAction::RemoveWorktree,
            ),
    {
        let empty = queues.len() == 0;
        let eng = Engine {
            queues,
            idx: 0,
            off: 0,
            count_cur: 0,
            phase: if empty {
                Phase::Finished
            } else {
                Phase::AwaitCleanup
            },
            created: Vec::new(),
            counts: Vec::new(),
            base_oid,
            worktree_path,
            repo_workdir,
            resumed_session_id: None,
            resumed_cwd: None,
        };
        let first = if empty {
            StepResult::Complete(ApplySummary {
                created_branches: Vec::new(),
                commits_per_branch: Vec::new(),
            })
        } else {
            StepResult::Do(GitAction::RemoveWorktree)
        };
        (eng, first)
    }

    /// Rebuilds an engine from a persisted checkpoint. The caller must
    /// already have established that the recorded worktree still exists
    /// (and, unless overridden, is clean).
    pub fn resume(st: SessionState, repo_workdir: String) -> (r: (Engine, StepResult))
        ensures
            r.0.wf(),
            r.0.queues == st.branch_queues,
            r.0.base_oid == st.base_oid,
            r.0.worktree_path == st.worktree_path,
            r.0.repo_workdir == repo_workdir,
            r.0.off == 0 && r.0.count_cur == 0,
            r.0.created@.len() == 0 && r.0.counts@.len() == 0,
            st.current_branch_idx >= st.branch_queues.deep_view().len() ==> r.0.phase is Finished
                && (r.1 matches StepResult::Complete(s) && s.created_branches@.len() == 0
                && s.commits_per_branch@.len() == 0),
            st.current_branch_idx < st.branch_queues.deep_view().len() ==> {
                &&& r.0.idx == st.current_branch_idx
                &&& r.0.resumed_session_id == Some(st.session_id)
                &&& r.0.resumed_cwd == Some(st.original_cwd)
                &&& (st.in_conflict ==> r.0.phase is AwaitCheck && r.1 == StepResult::Do(
                    GitAction::CheckPickInProgress,
                ))
                &&& (!st.in_conflict ==> r.0.phase is AwaitCleanup && r.1 == StepResult::Do(
                    GitAction::RemoveWorktree,
                ))
            },
    {
        let SessionState {
            version: _,
            session_id,
            worktree_path,
            current_branch_idx,
            branch_queues,
            in_conflict,
            base_oid,
            original_cwd,
        } = st;
        let done = current_branch_idx >= branch_queues.len();
        let eng = Engine {
            idx: if done {
                branch_queues.len()
            } else {
                current_branch_idx
            },
            queues: branch_queues,
            off: 0,
            count_cur: 0,
            phase: if done {
                Phase::Finished
            } else if in_conflict {
                Phase::AwaitCheck
            } else {
                Phase::AwaitCleanup
            },
            created: Vec::new(),
            counts: Vec::new(),
            base_oid,
            worktree_path,
            repo_workdir,
            resumed_session_id: Some(session_id),
            resumed_cwd: Some(original_cwd),
        };
        let first = if done {
            StepResult::Complete(ApplySummary {
                created_branches: Vec::new(),
                commits_per_branch: Vec::new(),
            })
        } else if in_conflict {
            StepResult::Do(GitAction::CheckPickInProgress)
        } else {
            StepResult::Do(GitAction::RemoveWorktree)
        };
        (eng, first)
    }

    /// Takes the caller's answer to the last action and decides what
    /// happens next. Every transition is pinned down below; in particular, a
    /// branch reference moves only once its queue is fully drained, and a
    /// conflict checkpoint records exactly the remaining work.
    pub fn step(&mut self, ev: GitEvent) -> (r: StepResult)
        requires
            old(self).wf(),
            !(old(self).phase is Finished),
        ensures
            final(self).wf(),
            old(self).same_core(*final(self)),
            r matches StepResult::Do(act) ==> (act matches GitAction::MoveBranchRef {
                branch,
                oid,
            } ==> old(self).phase is AwaitHead && old(self).off == old(self).cur().commits.len() && branch@ == old(self).cur().branch && is_hex40(oid@)),
            old(self).phase is AwaitCleanup ==> (match ev {
                GitEvent::Done | GitEvent::Failed(_) => {
                    &&& old(self).same_progress(*final(self))
                    &&& final(self).phase is AwaitTip
                    &&& (r matches StepResult::Do(a) && a matches GitAction::ReadBranchTip {
                        branch,
                    } && branch@ == old(self).cur().branch)
                },
                _ => Engine::protocol_failed(*old(self), *final(self), r),
            }),
            old(self).phase is AwaitTip ==> (match ev {
                GitEvent::Tip { existing } => {
                    &&& final(self).idx == old(self).idx && final(self).off == old(self).off
                        && final(self).count_cur == old(self).count_cur && final(self).counts
                        == old(self).counts && final(self).resumed_session_id == old(self).resumed_session_id && final(self).resumed_cwd == old(self).resumed_cwd
                    &&& final(self).phase is AwaitCreate
                    &&& (existing ==> final(self).created == old(self).created && (
                    r matches StepResult::Do(a) && a matches GitAction::CreateWorktree { start }
                        && start@ == old(self).cur().branch))
                    &&& (!existing ==> final(self).created.deep_view() == old(self).created.deep_view().push(old(self).cur().branch) && (
                    r matches StepResult::Do(a) && a matches GitAction::CreateWorktree { start }
                        && start@ == old(self).base_oid@))
                },
                GitEvent::Failed(m) => {
                    &&& old(self).same_progress(*final(self))
                    &&& final(self).phase is Finished
                    &&& (r matches StepResult::Fatal(e) && e matches
                        EngineError::BranchReadFailed(fm) && fm@ == m@)
                },
                _ => Engine::protocol_failed(*old(self), *final(self), r),
            }),
            old(self).phase is AwaitCreate ==> (match ev {
                GitEvent::Done => {
                    &&& old(self).same_progress(*final(self))
                    &&& Engine::replay_next(*final(self), r)
                },
                GitEvent::Failed(m) => {
                    &&& old(self).same_progress(*final(self))
                    &&& final(self).phase is Finished
                    &&& (r matches StepResult::Fatal(e) && e matches
                        EngineError::WorktreeCreateFailed(fm) && fm@ == m@)
                },
                _ => Engine::protocol_failed(*old(self), *final(self), r),
            }),
            old(self).phase is AwaitCheck ==> (match ev {
                GitEvent::InProgress(pending) => {
                    &&& final(self).idx == old(self).idx && final(self).count_cur == old(self).count_cur && final(self).created == old(self).created && final(self).counts
                        == old(self).counts && final(self).resumed_session_id == old(self).resumed_session_id && final(self).resumed_cwd == old(self).resumed_cwd
                    &&& (pending ==> final(self).off == old(self).off && final(self).phase
                        is AwaitContinue && r == StepResult::Do(GitAction::ContinuePick))
                    &&& (!pending ==> Engine::dropped_front(*old(self), *final(self))
                        && Engine::replay_next(*final(self), r))
                },
                GitEvent::Failed(m) => {
                    &&& old(self).same_progress(*final(self))
                    &&& final(self).phase is Finished
                    &&& (r matches StepResult::Fatal(e) && e matches EngineError::CheckFailed(fm)
                        && fm@ == m@)
                },
                _ => Engine::protocol_failed(*old(self), *final(self), r),
            }),
            old(self).phase is AwaitContinue ==> (match ev {
                GitEvent::Done => {
                    &&& final(self).idx == old(self).idx && final(self).count_cur == old(self).count_cur && final(self).created == old(self).created && final(self).counts
                        == old(self).counts && final(self).resumed_session_id == old(self).resumed_session_id && final(self).resumed_cwd == old(self).resumed_cwd
                    &&& Engine::dropped_front(*old(self), *final(self))
                    &&& Engine::replay_next(*final(self), r)
                },
                GitEvent::Failed(m) => {
                    &&& old(self).same_progress(*final(self))
                    &&& final(self).phase is Finished
                    &&& (r matches StepResult::Fatal(e) && e matches EngineError::ContinueFailed(
                        fm,
                    ) && fm@ == m@)
                },
                _ => Engine::protocol_failed(*old(self), *final(self), r),
            }),
            old(self).phase is AwaitPick ==> (match ev {
                GitEvent::Done => {
                    &&& final(self).idx == old(self).idx && final(self).off == old(self).off + 1
                        && final(self).count_cur == old(self).count_cur + 1 && final(self).created
                        == old(self).created && final(self).counts == old(self).counts && final(self).resumed_session_id == old(self).resumed_session_id && final(self).resumed_cwd
                        == old(self).resumed_cwd
                    &&& Engine::replay_next(*final(self), r)
                },
                GitEvent::Failed(m) => {
                    &&& old(self).same_progress(*final(self))
                    &&& final(self).phase is Finished
                    &&& (r matches StepResult::Conflict(st, msg) && msg@ == m@
                        && Engine::checkpoint_of(*old(self), st))
                },
                _ => Engine::protocol_failed(*old(self), *final(self), r),
            }),
            old(self).phase is AwaitHead ==> (match ev {
                GitEvent::Head(h) => {
                    &&& old(self).same_progress(*final(self))
                    &&& (is_hex40(trim_spec(h@)) ==> final(self).phase is AwaitMove && (
                    r matches StepResult::Do(a) && a matches GitAction::MoveBranchRef {
                        branch,
                        oid,
                    } && branch@ == old(self).cur().branch && oid@ == trim_spec(h@)))
                    &&& (!is_hex40(trim_spec(h@)) ==> final(self).phase is Finished && (
                    r matches StepResult::Fatal(e) && e matches EngineError::BadHead(bh) && bh@
                        == h@))
                },
                GitEvent::Failed(m) => {
                    &&& old(self).same_progress(*final(self))
                    &&& final(self).phase is Finished
                    &&& (r matches StepResult::Fatal(e) && e matches EngineError::ReadHeadFailed(
                        fm,
                    ) && fm@ == m@)
                },
                _ => Engine::protocol_failed(*old(self), *final(self), r),
            }),
            old(self).phase is AwaitMove ==> (match ev {
                GitEvent::Done => {
                    &&& final(self).idx == old(self).idx && final(self).off == old(self).off
                        && final(self).count_cur == old(self).count_cur && final(self).created
                        == old(self).created && final(self).resumed_session_id == old(self).resumed_session_id && final(self).resumed_cwd == old(self).resumed_cwd
                    &&& crate::routing::pair_counts_view(final(self).counts@)
                        == crate::routing::pair_counts_view(old(self).counts@).push(
                        (old(self).cur().branch, old(self).count_cur as int),
                    )
                    &&& final(self).phase is AwaitTeardown
                    &&& r == StepResult::Do(GitAction::RemoveWorktree)
                },
                GitEvent::Failed(m) => {
                    &&& old(self).same_progress(*final(self))
                    &&& final(self).phase is Finished
                    &&& (r matches StepResult::Fatal(e) && e matches EngineError::MoveRefFailed(
                        fm,
                    ) && fm@ == m@)
                },
                _ => Engine::protocol_failed(*old(self), *final(self), r),
            }),
            old(self).phase is AwaitTeardown ==> (match ev {
                GitEvent::Done | GitEvent::Failed(_) => {
                    &&& final(self).idx == old(self).idx + 1 && final(self).off == 0 && final(self).count_cur == 0
                    &&& final(self).created == old(self).created && final(self).counts == old(self).counts
                    &&& final(self).resumed_session_id is None && final(self).resumed_cwd is None
                    &&& (old(self).idx + 1 < old(self).qv().len() ==> final(self).phase
                        is AwaitCleanup && r == StepResult::Do(GitAction::RemoveWorktree))
                    &&& (old(self).idx + 1 == old(self).qv().len() ==> final(self).phase
                        is Finished && (r matches StepResult::Complete(s)
                        && s.created_branches.deep_view() == old(self).created.deep_view()
                        && crate::routing::pair_counts_view(s.commits_per_branch@)
                        == crate::routing::pair_counts_view(old(self).counts@)))
                },
                _ => Engine::protocol_failed(*old(self), *final(self), r),
            }),
    {
        let ph = self.phase;
        match ph {
            Phase::AwaitCleanup => match ev {
                GitEvent::Done | GitEvent::Failed(_) => {
                    proof {
                        assert(self.qv()[self.idx as int] == self.queues@[self.idx as int]@);
                    }
                    let b = self.queues[self.idx].branch.clone();
                    self.phase = Phase::AwaitTip;
                    StepResult::Do(GitAction::ReadBranchTip { branch: b })
                },
                _ => self.protocol_fail(),
            },
            Phase::AwaitTip => match ev {
                GitEvent::Tip { existing } => {
                    proof {
                        assert(self.qv()[self.idx as int] == self.queues@[self.idx as int]@);
                    }
                    let start: String = if existing {
                        self.queues[self.idx].branch.clone()
                    } else {
                        let ghost before = self.created.deep_view();
                        let b = self.queues[self.idx].branch.clone();
                        self.created.push(b);
                        proof {
                            assert(self.created.deep_view() =~= before.push(self.cur().branch));
                        }
                        self.base_oid.clone()
                    };
                    self.phase = Phase::AwaitCreate;
                    StepResult::Do(GitAction::CreateWorktree { start })
                },
                GitEvent::Failed(m) => {
                    self.phase = Phase::Finished;
                    StepResult::Fatal(EngineError::BranchReadFailed(m))
                },
                _ => self.protocol_fail(),
            },
            Phase::AwaitCreate => match ev {
                GitEvent::Done => self.next_replay_action(),
                GitEvent::Failed(m) => {
                    self.phase = Phase::Finished;
                    StepResult::Fatal(EngineError::WorktreeCreateFailed(m))
                },
                _ => self.protocol_fail(),
            },
            Phase::AwaitCheck => match ev {
                GitEvent::InProgress(pending) => {
                    if pending {
                        self.phase = Phase::AwaitContinue;
                        StepResult::Do(GitAction::ContinuePick)
                    } else {
                        self.drop_front();
                        self.next_replay_action()
                    }
                },
                GitEvent::Failed(m) => {
                    self.phase = Phase::Finished;
                    StepResult::Fatal(EngineError::CheckFailed(m))
                },
                _ => self.protocol_fail(),
            },
            Phase::AwaitContinue => match ev {
                GitEvent::Done => {
                    self.drop_front();
                    self.next_replay_action()
                },
                GitEvent::Failed(m) => {
                    self.phase = Phase::Finished;
                    StepResult::Fatal(EngineError::ContinueFailed(m))
                },
                _ => self.protocol_fail(),
            },
            Phase::AwaitPick => match ev {
                GitEvent::Done => {
                    proof {
                        assert(self.qv()[self.idx as int] == self.queues@[self.idx as int]@);
                    }
                    let l = self.queues[self.idx].commits.len();
                    assert(self.off < l);
                    self.off = self.off + 1;
                    self.count_cur = self.count_cur + 1;
                    self.next_replay_action()
                },
                GitEvent::Failed(m) => {
                    let sid: String = match &self.resumed_session_id {
                        Some(s) => s.clone(),
                        None => new_session_id(),
                    };
                    let cwd: String = match &self.resumed_cwd {
                        Some(c) => c.clone(),
                        None => self.repo_workdir.clone(),
                    };
                    let bq = snapshot_queues(&self.queues, self.idx, self.off);
                    let st = SessionState {
                        version: 1,
                        session_id: sid,
                        worktree_path: self.worktree_path.clone(),
                        current_branch_idx: self.idx,
                        branch_queues: bq,
                        in_conflict: true,
                        base_oid: self.base_oid.clone(),
                        original_cwd: cwd,
                    };
                    self.phase = Phase::Finished;
                    StepResult::Conflict(st, m)
                },
                _ => self.protocol_fail(),
            },
            Phase::AwaitHead => match ev {
                GitEvent::Head(h) => {
                    let t = trim(h.as_str());
                    if check_hex40(t.as_str()) {
                        proof {
                            assert(self.qv()[self.idx as int] == self.queues@[self.idx as int]@);
                        }
                        let b = self.queues[self.idx].branch.clone();
                        self.phase = Phase::AwaitMove;
                        StepResult::Do(GitAction::MoveBranchRef { branch: b, oid: t })
                    } else {
                        self.phase = Phase::Finished;
                        StepResult::Fatal(EngineError::BadHead(h))
                    }
                },
                GitEvent::Failed(m) => {
                    self.phase = Phase::Finished;
                    StepResult::Fatal(EngineError::ReadHeadFailed(m))
                },
                _ => self.protocol_fail(),
            },
            Phase::AwaitMove => match ev {
                GitEvent::Done => {
                    proof {
                        assert(self.qv()[self.idx as int] == self.queues@[self.idx as int]@);
                    }
                    let ghost before = crate::routing::pair_counts_view(self.counts@);
                    let b = self.queues[self.idx].branch.clone();
                    let n = self.count_cur;
                    self.counts.push((b, n));
                    proof {
                        assert(crate::routing::pair_counts_view(self.counts@) =~= before.push(
                            (self.cur().branch, self.count_cur as int),
                        ));
                    }
                    self.phase = Phase::AwaitTeardown;
                    StepResult::Do(GitAction::RemoveWorktree)
                },
                GitEvent::Failed(m) => {
                    self.phase = Phase::Finished;
                    StepResult::Fatal(EngineError::MoveRefFailed(m))
                },
                _ => self.protocol_fail(),
            },
            Phase::AwaitTeardown => match ev {
                GitEvent::Done | GitEvent::Failed(_) => {
                    let n = self.queues.len();
                    proof {
                        assert(self.qv().len() == self.queues@.len());
                    }
                    assert(self.idx < n);
                    self.idx = self.idx + 1;
                    self.off = 0;
                    self.count_cur = 0;
                    self.resumed_session_id = None;
                    self.resumed_cwd = None;
                    if self.idx < self.queues.len() {
                        self.phase = Phase::AwaitCleanup;
                        StepResult::Do(GitAction::RemoveWorktree)
                    } else {
                        self.phase = Phase::Finished;
                        let created = clone_string_vec(&self.created);
                        let counts = clone_counts(&self.counts);
                        StepResult::Complete(ApplySummary {
                            created_branches: created,
                            commits_per_branch: counts,
                        })
                    }
                },
                _ => self.protocol_fail(),
            },
            Phase::Finished => self.protocol_fail(),
        }
    }

    /// After the in-flight replay of a resumed conflict is settled, the
    /// just-resolved commit leaves the front of the queue.
    pub open spec fn dropped_front(pre: Engine, post: Engine) -> bool {
        if pre.off < pre.cur().commits.len() {
            post.off == pre.off + 1
        } else {
            post.off == pre.off
        }
    }

    /// What a conflict checkpoint must hold, in terms of the engine that
    /// paused: the same worktree and base, the current branch index, the
    /// conflict flag set, and exactly the remaining work of every branch.
    pub open spec fn checkpoint_of(pre: Engine, st: SessionState) -> bool {
        &&& st.version == 1
        &&& (pre.resumed_session_id matches Some(sid) ==> st.session_id == sid)
        &&& (pre.resumed_session_id is None ==> st.session_id@.len() == 36)
        &&& st.worktree_path == pre.worktree_path
        &&& st.current_branch_idx == pre.idx
        &&& st.branch_queues.deep_view() == drained(pre.qv(), pre.idx as int, pre.off as int)
        &&& st.in_conflict == true
        &&& st.base_oid == pre.base_oid
        &&& (pre.resumed_cwd matches Some(c) ==> st.original_cwd == c)
        &&& (pre.resumed_cwd is None ==> st.original_cwd == pre.repo_workdir)
    }

    fn drop_front(&mut self)
        requires
            old(self).idx < old(self).qv().len(),
            old(self).off <= old(self).cur().commits.len(),
        ensures
            old(self).same_core(*final(self)),
            final(self).idx == old(self).idx && final(self).count_cur == old(self).count_cur
                && final(self).created == old(self).created && final(self).counts == old(self).counts && final(self).resumed_session_id == old(self).resumed_session_id && final(self).resumed_cwd == old(self).resumed_cwd && final(self).phase == old(self).phase,
            Engine::dropped_front(*old(self), *final(self)),
            final(self).off <= final(self).cur().commits.len(),
    {
        proof {
            assert(self.qv()[self.idx as int] == self.queues@[self.idx as int]@);
        }
        if self.off < self.queues[self.idx].commits.len() {
            self.off = self.off + 1;
        }
    }
}

/// The actions that cancel a paused session: cancel any pending replay and
/// discard the worktree — nothing more. In particular no branch reference
/// is touched, so a branch that did not exist before the session is not
/// created by aborting it.
pub fn abort_actions() -> (r: Vec<GitAction>)
    ensures
        r.deep_view() =~= seq![GitActionV::AbortPick, GitActionV::RemoveWorktree],
        forall|i: int|
            0 <= i < r.deep_view().len() ==> !((#[trigger] r.deep_view()[i])
                is MoveBranchRef),
{
    let mut v: Vec<GitAction> = Vec::new();
    v.push(GitAction::AbortPick);
    v.push(GitAction::RemoveWorktree);
    proof {
        assert(v.deep_view() =~= seq![GitActionV::AbortPick, GitActionV::RemoveWorktree]);
    }
    v
}

} // verus!
