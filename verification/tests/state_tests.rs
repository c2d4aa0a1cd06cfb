use git_extract::state::{BranchQueue, SessionState};

#[test]
fn session_state_new_is_fresh_and_unpaused() {
    let st = SessionState::new(
        "/tmp/wt".into(),
        vec![BranchQueue {
            branch: "feature".into(),
            commits: vec!["abcdef0123456789abcdef0123456789abcdef01".into()],
        }],
        "abcdef0123456789abcdef0123456789abcdef01".into(),
        "/tmp/repo".into(),
    );
    assert_eq!(st.version, 1);
    assert_eq!(st.current_branch_idx, 0);
    assert!(!st.in_conflict);
    assert_eq!(st.session_id.len(), 36);
    assert_eq!(st.worktree_path, "/tmp/wt");
    assert_eq!(st.base_oid, "abcdef0123456789abcdef0123456789abcdef01");
    assert_eq!(st.original_cwd, "/tmp/repo");
    assert_eq!(st.branch_queues.len(), 1);
}

#[test]
fn distinct_sessions_get_distinct_identifiers() {
    let a = SessionState::new("/tmp/wt".into(), vec![], "x".into(), "/tmp".into());
    let b = SessionState::new("/tmp/wt".into(), vec![], "x".into(), "/tmp".into());
    assert_ne!(a.session_id, b.session_id);
}
