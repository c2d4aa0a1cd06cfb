use git_extract::engine::{
    abort_actions, build_branch_queues, Engine, GitAction, GitEvent, StepResult,
};
use git_extract::routing::{Assignment, CommitInfo, Dest, RoutingPlan};

fn mk_commit(idx: u8) -> CommitInfo {
    let hex = format!("{:07x}{:033x}", idx as u32, idx);
    CommitInfo {
        oid: hex.clone(),
        short: hex[..7].to_string(),
        summary: format!("Commit {idx}"),
    }
}

fn head_oid() -> String {
    "abcdef0123456789abcdef0123456789abcdef01".to_string()
}

fn assign(c: &CommitInfo, dest: Dest) -> Assignment {
    Assignment {
        oid: c.oid.clone(),
        dest,
    }
}

#[test]
fn queues_preserve_chronological_order() {
    // Declared newest-first in the plan; queues still come out oldest-first.
    let commits = vec![mk_commit(1), mk_commit(2), mk_commit(3)];
    let plan = RoutingPlan {
        assignments: vec![
            assign(&commits[2], Dest::Branch("feature".into())),
            assign(&commits[0], Dest::Branch("feature".into())),
            assign(&commits[1], Dest::Current),
        ],
    };
    let queues = build_branch_queues(&plan, &commits);
    assert_eq!(queues.len(), 1);
    assert_eq!(queues[0].branch, "feature");
    assert_eq!(
        queues[0].commits,
        vec![commits[0].oid.clone(), commits[2].oid.clone()]
    );
}

#[test]
fn queues_keep_first_seen_branch_order() {
    let commits = vec![mk_commit(1), mk_commit(2), mk_commit(3)];
    let plan = RoutingPlan {
        assignments: vec![
            assign(&commits[0], Dest::Branch("b".into())),
            assign(&commits[1], Dest::Branch("a".into())),
            assign(&commits[2], Dest::Branch("b".into())),
        ],
    };
    let queues = build_branch_queues(&plan, &commits);
    let names: Vec<String> = queues.iter().map(|q| q.branch.clone()).collect();
    assert_eq!(names, vec!["b".to_string(), "a".to_string()]);
    assert_eq!(
        queues[0].commits,
        vec![commits[0].oid.clone(), commits[2].oid.clone()]
    );
    assert_eq!(queues[1].commits, vec![commits[1].oid.clone()]);
}

#[test]
fn empty_plan_completes_immediately() {
    let commits = vec![mk_commit(1)];
    let plan = RoutingPlan {
        assignments: vec![assign(&commits[0], Dest::Current)],
    };
    let queues = build_branch_queues(&plan, &commits);
    let (_eng, first) = Engine::start(
        queues,
        "base0000000000000000000000000000000000000".into(),
        "/tmp/wt".into(),
        "/tmp/repo".into(),
    );
    match first {
        StepResult::Complete(s) => {
            assert!(s.created_branches.is_empty());
            assert!(s.commits_per_branch.is_empty());
        }
        _ => panic!("expected immediate completion"),
    }
}

#[test]
fn conflict_checkpoint_roundtrip() {
    // Two commits on one branch; the second conflicts. The checkpoint must
    // hold only the remaining commit; resuming finishes the branch and
    // moves its reference to the resulting head.
    let commits = vec![mk_commit(1), mk_commit(2)];
    let plan = RoutingPlan {
        assignments: vec![
            assign(&commits[0], Dest::Branch("feature".into())),
            assign(&commits[1], Dest::Branch("feature".into())),
        ],
    };
    let queues = build_branch_queues(&plan, &commits);
    let base = head_oid();
    let (mut eng, first) = Engine::start(
        queues,
        base.clone(),
        "/tmp/wt".into(),
        "/tmp/repo".into(),
    );
    assert!(matches!(first, StepResult::Do(GitAction::RemoveWorktree)));
    let r = eng.step(GitEvent::Done);
    assert!(matches!(r, StepResult::Do(GitAction::ReadBranchTip { ref branch }) if branch == "feature"));
    let r = eng.step(GitEvent::Tip { existing: false });
    assert!(matches!(r, StepResult::Do(GitAction::CreateWorktree { ref start }) if *start == base));
    let r = eng.step(GitEvent::Done);
    assert!(matches!(r, StepResult::Do(GitAction::Pick { ref oid }) if *oid == commits[0].oid));
    let r = eng.step(GitEvent::Done);
    assert!(matches!(r, StepResult::Do(GitAction::Pick { ref oid }) if *oid == commits[1].oid));
    let r = eng.step(GitEvent::Failed("merge conflict in file.txt".into()));
    let st = match r {
        StepResult::Conflict(st, msg) => {
            assert_eq!(msg, "merge conflict in file.txt");
            st
        }
        _ => panic!("expected a conflict checkpoint"),
    };
    assert!(st.in_conflict);
    assert_eq!(st.version, 1);
    assert_eq!(st.current_branch_idx, 0);
    assert_eq!(st.worktree_path, "/tmp/wt");
    assert_eq!(st.base_oid, base);
    assert_eq!(st.branch_queues.len(), 1);
    assert_eq!(st.branch_queues[0].branch, "feature");
    assert_eq!(st.branch_queues[0].commits, vec![commits[1].oid.clone()]);
    assert_eq!(st.session_id.len(), 36);

    // Resume: the pending replay is finished, the queue drains, and the
    // branch reference moves exactly once, to the resulting head.
    let (mut eng2, first2) = Engine::resume(st, "/tmp/repo".into());
    assert!(matches!(first2, StepResult::Do(GitAction::CheckPickInProgress)));
    let r = eng2.step(GitEvent::InProgress(true));
    assert!(matches!(r, StepResult::Do(GitAction::ContinuePick)));
    let r = eng2.step(GitEvent::Done);
    assert!(matches!(r, StepResult::Do(GitAction::ReadHead)));
    let new_head = head_oid();
    let r = eng2.step(GitEvent::Head(format!("{new_head}\n")));
    match r {
        StepResult::Do(GitAction::MoveBranchRef { ref branch, ref oid }) => {
            assert_eq!(branch, "feature");
            assert_eq!(*oid, new_head);
        }
        _ => panic!("expected the branch reference to move"),
    }
    let r = eng2.step(GitEvent::Done);
    assert!(matches!(r, StepResult::Do(GitAction::RemoveWorktree)));
    let r = eng2.step(GitEvent::Done);
    match r {
        StepResult::Complete(s) => {
            assert!(s.created_branches.is_empty());
            assert_eq!(
                s.commits_per_branch,
                vec![("feature".to_string(), 0usize)]
            );
        }
        _ => panic!("expected completion after resume"),
    }
}

#[test]
fn resume_with_already_continued_pick_drops_front() {
    let commits = vec![mk_commit(1), mk_commit(2)];
    let plan = RoutingPlan {
        assignments: vec![
            assign(&commits[0], Dest::Branch("feature".into())),
            assign(&commits[1], Dest::Branch("feature".into())),
        ],
    };
    let queues = build_branch_queues(&plan, &commits);
    let (mut eng, _) = Engine::start(
        queues,
        head_oid(),
        "/tmp/wt".into(),
        "/tmp/repo".into(),
    );
    eng.step(GitEvent::Done);
    eng.step(GitEvent::Tip { existing: true });
    eng.step(GitEvent::Done);
    let r = eng.step(GitEvent::Failed("conflict".into()));
    let st = match r {
        StepResult::Conflict(st, _) => st,
        _ => panic!("expected a conflict"),
    };
    // The operator already ran the tool's own continue: no pending replay.
    let (mut eng2, _) = Engine::resume(st, "/tmp/repo".into());
    let r = eng2.step(GitEvent::InProgress(false));
    // The resolved commit leaves the queue; the second one is next.
    assert!(matches!(r, StepResult::Do(GitAction::Pick { ref oid }) if *oid == commits[1].oid));
}

#[test]
fn abort_leaves_references_alone() {
    let actions = abort_actions();
    assert_eq!(actions.len(), 2);
    assert!(matches!(actions[0], GitAction::AbortPick));
    assert!(matches!(actions[1], GitAction::RemoveWorktree));
    for a in &actions {
        assert!(!matches!(a, GitAction::MoveBranchRef { .. }));
    }
}

#[test]
fn full_coverage_end_to_end() {
    // Two commits: one routed to `feature`, one kept on the current branch.
    // The engine replays exactly the routed commit onto `feature` and never
    // touches the other.
    let commits = vec![mk_commit(1), mk_commit(2)];
    let plan = RoutingPlan {
        assignments: vec![
            assign(&commits[0], Dest::Branch("feature".into())),
            assign(&commits[1], Dest::Current),
        ],
    };
    let queues = build_branch_queues(&plan, &commits);
    let (mut eng, first) = Engine::start(
        queues,
        head_oid(),
        "/tmp/wt".into(),
        "/tmp/repo".into(),
    );
    assert!(matches!(first, StepResult::Do(GitAction::RemoveWorktree)));
    let mut picked: Vec<String> = Vec::new();
    let r = eng.step(GitEvent::Done);
    assert!(matches!(r, StepResult::Do(GitAction::ReadBranchTip { .. })));
    let r = eng.step(GitEvent::Tip { existing: false });
    assert!(matches!(r, StepResult::Do(GitAction::CreateWorktree { .. })));
    let mut r = eng.step(GitEvent::Done);
    loop {
        match r {
            StepResult::Do(GitAction::Pick { ref oid }) => {
                picked.push(oid.clone());
                r = eng.step(GitEvent::Done);
            }
            StepResult::Do(GitAction::ReadHead) => {
                r = eng.step(GitEvent::Head(head_oid()));
            }
            StepResult::Do(GitAction::MoveBranchRef { ref branch, ref oid }) => {
                assert_eq!(branch, "feature");
                assert_eq!(*oid, head_oid());
                r = eng.step(GitEvent::Done);
            }
            StepResult::Do(GitAction::RemoveWorktree) => {
                r = eng.step(GitEvent::Done);
            }
            StepResult::Complete(s) => {
                assert_eq!(s.created_branches, vec!["feature".to_string()]);
                assert_eq!(
                    s.commits_per_branch,
                    vec![("feature".to_string(), 1usize)]
                );
                break;
            }
            _ => panic!("unexpected step result"),
        }
    }
    // Only the routed commit was ever replayed.
    assert_eq!(picked, vec![commits[0].oid.clone()]);
}

#[test]
fn existing_branch_starts_from_its_tip() {
    let commits = vec![mk_commit(1)];
    let plan = RoutingPlan {
        assignments: vec![assign(&commits[0], Dest::Branch("feature".into()))],
    };
    let queues = build_branch_queues(&plan, &commits);
    let (mut eng, _) = Engine::start(
        queues,
        head_oid(),
        "/tmp/wt".into(),
        "/tmp/repo".into(),
    );
    eng.step(GitEvent::Done);
    let r = eng.step(GitEvent::Tip { existing: true });
    // Append mode: the worktree starts at the branch itself, and the branch
    // is not recorded as newly created.
    assert!(matches!(r, StepResult::Do(GitAction::CreateWorktree { ref start }) if start == "feature"));
    eng.step(GitEvent::Done);
    eng.step(GitEvent::Done);
    eng.step(GitEvent::Head(head_oid()));
    eng.step(GitEvent::Done);
    let r = eng.step(GitEvent::Done);
    match r {
        StepResult::Complete(s) => assert!(s.created_branches.is_empty()),
        _ => panic!("expected completion"),
    }
}

#[test]
fn malformed_head_is_fatal() {
    let commits = vec![mk_commit(1)];
    let plan = RoutingPlan {
        assignments: vec![assign(&commits[0], Dest::Branch("feature".into()))],
    };
    let queues = build_branch_queues(&plan, &commits);
    let (mut eng, _) = Engine::start(
        queues,
        head_oid(),
        "/tmp/wt".into(),
        "/tmp/repo".into(),
    );
    eng.step(GitEvent::Done);
    eng.step(GitEvent::Tip { existing: false });
    eng.step(GitEvent::Done);
    eng.step(GitEvent::Done);
    let r = eng.step(GitEvent::Head("not a commit id".into()));
    assert!(matches!(
        r,
        StepResult::Fatal(git_extract::engine::EngineError::BadHead(_))
    ));
}

#[test]
fn mismatched_event_is_fatal() {
    let commits = vec![mk_commit(1)];
    let plan = RoutingPlan {
        assignments: vec![assign(&commits[0], Dest::Branch("feature".into()))],
    };
    let queues = build_branch_queues(&plan, &commits);
    let (mut eng, _) = Engine::start(
        queues,
        head_oid(),
        "/tmp/wt".into(),
        "/tmp/repo".into(),
    );
    // The engine asked for a worktree cleanup; answering with a head
    // reading makes no sense and must end the run.
    let r = eng.step(GitEvent::Head(head_oid()));
    assert!(matches!(
        r,
        StepResult::Fatal(git_extract::engine::EngineError::Protocol)
    ));
}

#[test]
fn fresh_conflict_gets_new_session_id() {
    let commits = vec![mk_commit(1)];
    let plan = RoutingPlan {
        assignments: vec![assign(&commits[0], Dest::Branch("feature".into()))],
    };
    let queues = build_branch_queues(&plan, &commits);
    let (mut eng, _) = Engine::start(
        queues,
        head_oid(),
        "/tmp/wt".into(),
        "/tmp/repo".into(),
    );
    eng.step(GitEvent::Done);
    eng.step(GitEvent::Tip { existing: false });
    eng.step(GitEvent::Done);
    let r = eng.step(GitEvent::Failed("conflict".into()));
    match r {
        StepResult::Conflict(st, _) => {
            assert_eq!(st.session_id.len(), 36);
            assert_eq!(st.original_cwd, "/tmp/repo");
            // The queue still holds the conflicted commit itself.
            assert_eq!(st.branch_queues[0].commits, vec![commits[0].oid.clone()]);
        }
        _ => panic!("expected a conflict"),
    }
}
