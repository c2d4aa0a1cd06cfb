use git_extract::cli::Args;
use git_extract::routing::{
    parse_routing_file, render_routing_file, summarize_plan, CommitInfo, Dest, ParseError,
    RoutingPlan, TargetDef, TargetDefs,
};

fn mk_commit(idx: u8) -> CommitInfo {
    let hex = format!("{:07x}{:033x}", idx as u32, idx);
    CommitInfo {
        oid: hex.clone(),
        short: hex[..7].to_string(),
        summary: format!("Commit {idx}"),
    }
}

fn mk_args(targets: Vec<String>, positional: Vec<String>) -> Args {
    Args {
        base: None,
        default_current: false,
        no_current: false,
        targets,
        positional_targets: positional,
        editor: None,
        dry_run: false,
        allow_dirty: false,
        routing_file: None,
        continue_session: false,
        abort: false,
        no_chdir_conflict: false,
    }
}

#[test]
fn merges_positional_and_flag_targets_dedup() {
    let args = mk_args(
        vec!["a".into(), "b".into()],
        vec!["b".into(), "c".into()],
    );

    let defs = TargetDefs::from_args(&args);
    let branches: Vec<String> = defs.targets.iter().map(|t| t.branch.clone()).collect();
    assert_eq!(branches, vec!["a", "b", "c"]);
    let aliases: Vec<u32> = defs.targets.iter().map(|t| t.alias).collect();
    assert_eq!(aliases, vec![1, 2, 3]);
}

#[test]
fn from_args_trims_and_drops_blanks() {
    let args = mk_args(
        vec!["  a ".into(), "   ".into()],
        vec!["a".into(), "b".into()],
    );
    let defs = TargetDefs::from_args(&args);
    let branches: Vec<String> = defs.targets.iter().map(|t| t.branch.clone()).collect();
    assert_eq!(branches, vec!["a", "b"]);
    let aliases: Vec<u32> = defs.targets.iter().map(|t| t.alias).collect();
    assert_eq!(aliases, vec![1, 2]);
}

fn feature_targets() -> TargetDefs {
    TargetDefs {
        targets: vec![TargetDef {
            alias: 1,
            branch: "feature".into(),
        }],
    }
}

#[test]
fn parse_basic_plan() {
    let commits = vec![mk_commit(1), mk_commit(2)];
    let targets = feature_targets();

    let content = format!(
        "target 1 feature\n1 {} Commit 1\ncurrent {} Commit 2\n",
        commits[0].short, commits[1].short
    );

    let plan = parse_routing_file(&content, &commits, &targets, true).unwrap();
    assert_eq!(plan.assignments.len(), 2);
    assert!(matches!(plan.assignments[0].dest, Dest::Branch(ref b) if b == "feature"));
    assert!(matches!(plan.assignments[1].dest, Dest::Current));
}

#[test]
fn parse_rejects_unknown_commit() {
    let commits = vec![mk_commit(1)];
    let targets = TargetDefs { targets: vec![] };
    let err = parse_routing_file("current deadbeef Missing\n", &commits, &targets, true)
        .unwrap_err();
    assert!(matches!(err, ParseError::UnknownCommit(ref t) if t == "deadbeef"));
}

#[test]
fn parse_rejects_duplicate_commit() {
    let commits = vec![mk_commit(1), mk_commit(2)];
    let targets = feature_targets();
    let content = format!(
        "1 {} Commit 1\n1 {} Commit 1 again\ncurrent {} Commit 2\n",
        commits[0].short, commits[0].short, commits[1].short
    );
    let err = parse_routing_file(&content, &commits, &targets, true).unwrap_err();
    assert!(matches!(err, ParseError::DuplicateCommit(_)));
}

#[test]
fn parse_rejects_count_mismatch() {
    // Plan coverage: leaving one candidate commit unassigned is an error.
    let commits = vec![mk_commit(1), mk_commit(2)];
    let targets = feature_targets();
    let content = format!("1 {} Commit 1\n", commits[0].short);
    let err = parse_routing_file(&content, &commits, &targets, true).unwrap_err();
    assert!(matches!(err, ParseError::IncompleteAssignment));
}

#[test]
fn parse_alias_redefinition_overrides() {
    // Alias resolution: a later `target` line overrides an earlier alias.
    let commits = vec![mk_commit(1), mk_commit(2)];
    let targets = feature_targets();
    let content = format!(
        "target 1 other\n1 {} Commit 1\ntarget 1 third\n1 {} Commit 2\n",
        commits[0].short, commits[1].short
    );
    let plan = parse_routing_file(&content, &commits, &targets, true).unwrap();
    assert!(matches!(plan.assignments[0].dest, Dest::Branch(ref b) if b == "other"));
    assert!(matches!(plan.assignments[1].dest, Dest::Branch(ref b) if b == "third"));
}

#[test]
fn parse_rejects_unknown_alias() {
    let commits = vec![mk_commit(1)];
    let targets = feature_targets();
    let content = format!("7 {} Commit 1\n", commits[0].short);
    let err = parse_routing_file(&content, &commits, &targets, true).unwrap_err();
    assert!(matches!(err, ParseError::UnknownAlias(7)));
}

#[test]
fn parse_rejects_missing_subject() {
    let commits = vec![mk_commit(1)];
    let targets = feature_targets();
    let content = format!("1 {}\n", commits[0].short);
    let err = parse_routing_file(&content, &commits, &targets, true).unwrap_err();
    assert!(matches!(err, ParseError::MissingSubject(_)));
}

#[test]
fn parse_rejects_missing_sha_token() {
    let commits = vec![mk_commit(1)];
    let targets = feature_targets();
    let err = parse_routing_file("loneword\n", &commits, &targets, true).unwrap_err();
    assert!(matches!(err, ParseError::MissingSha));
}

#[test]
fn parse_rejects_bad_target_alias() {
    let commits: Vec<CommitInfo> = vec![];
    let targets = TargetDefs { targets: vec![] };
    let err =
        parse_routing_file("target 4294967296 huge\n", &commits, &targets, true).unwrap_err();
    assert!(matches!(err, ParseError::TargetBadAlias(ref t) if t == "4294967296"));
}

#[test]
fn parse_rejects_target_missing_branch() {
    let commits: Vec<CommitInfo> = vec![];
    let targets = TargetDefs { targets: vec![] };
    let err = parse_routing_file("target 2\n", &commits, &targets, true).unwrap_err();
    assert!(matches!(err, ParseError::TargetMissingBranch));
}

#[test]
fn parse_literal_branch_name_destination() {
    let commits = vec![mk_commit(1)];
    let targets = TargetDefs { targets: vec![] };
    let content = format!("topic/x {} Commit 1\n", commits[0].short);
    let plan = parse_routing_file(&content, &commits, &targets, true).unwrap();
    assert!(matches!(plan.assignments[0].dest, Dest::Branch(ref b) if b == "topic/x"));
}

#[test]
fn parse_resolves_full_sha_prefix() {
    let commits = vec![mk_commit(1), mk_commit(2)];
    let targets = TargetDefs { targets: vec![] };
    // A nine-character prefix of the full identifier, not the short form.
    let prefix: String = commits[1].oid[..9].to_string();
    let content = format!(
        "current {} Commit 1\ncurrent {} Commit 2\n",
        commits[0].short, prefix
    );
    let plan = parse_routing_file(&content, &commits, &targets, true).unwrap();
    assert_eq!(plan.assignments[1].oid, commits[1].oid);
}

#[test]
fn parse_drops_current_when_not_kept() {
    let commits = vec![mk_commit(1)];
    let targets = TargetDefs { targets: vec![] };
    let content = format!("current {} Commit 1\n", commits[0].short);
    let plan = parse_routing_file(&content, &commits, &targets, false).unwrap();
    assert!(matches!(plan.assignments[0].dest, Dest::Drop));
}

#[test]
fn parse_skips_comments_and_blanks() {
    let commits = vec![mk_commit(1)];
    let targets = feature_targets();
    let content = format!("# a comment\n\n  \n1 {} Commit 1\n", commits[0].short);
    let plan = parse_routing_file(&content, &commits, &targets, true).unwrap();
    assert_eq!(plan.assignments.len(), 1);
}

#[test]
fn parse_handles_crlf_and_extra_spaces() {
    let commits = vec![mk_commit(1)];
    let targets = TargetDefs { targets: vec![] };
    let content = format!("target   2    other\r\n2 {} Commit 1\r\n", commits[0].short);
    let plan = parse_routing_file(&content, &commits, &targets, true).unwrap();
    assert!(matches!(plan.assignments[0].dest, Dest::Branch(ref b) if b == "other"));
}

#[test]
fn parse_short_unknown_token_not_treated_as_prefix() {
    // A token under seven characters never matches by prefix.
    let commits = vec![mk_commit(1)];
    let targets = TargetDefs { targets: vec![] };
    let prefix: String = commits[0].oid[..5].to_string();
    let content = format!("current {prefix} Commit 1\n");
    let err = parse_routing_file(&content, &commits, &targets, true).unwrap_err();
    assert!(matches!(err, ParseError::UnknownCommit(_)));
}

#[test]
fn render_draft_exact_text() {
    let commits = vec![mk_commit(1), mk_commit(2)];
    let targets = TargetDefs {
        targets: vec![
            TargetDef {
                alias: 1,
                branch: "feature".into(),
            },
            TargetDef {
                alias: 12,
                branch: "other".into(),
            },
        ],
    };
    let text = render_routing_file(&targets, &commits);
    let expected = format!(
        "target 1 feature\ntarget 12 other\n\ncurrent {} Commit 1\ncurrent {} Commit 2\n",
        commits[0].short, commits[1].short
    );
    assert_eq!(text, expected);
}

#[test]
fn render_draft_without_targets_has_no_separator() {
    let commits = vec![mk_commit(1)];
    let targets = TargetDefs { targets: vec![] };
    let text = render_routing_file(&targets, &commits);
    let expected = format!("current {} Commit 1\n", commits[0].short);
    assert_eq!(text, expected);
}

#[test]
fn summarize_groups_and_counts() {
    let commits = vec![mk_commit(1), mk_commit(2), mk_commit(3), mk_commit(4)];
    let plan = RoutingPlan {
        assignments: vec![
            git_extract::routing::Assignment {
                oid: commits[0].oid.clone(),
                dest: Dest::Branch("feature".into()),
            },
            git_extract::routing::Assignment {
                oid: commits[1].oid.clone(),
                dest: Dest::Current,
            },
            git_extract::routing::Assignment {
                oid: commits[2].oid.clone(),
                dest: Dest::Branch("feature".into()),
            },
            git_extract::routing::Assignment {
                oid: commits[3].oid.clone(),
                dest: Dest::Drop,
            },
        ],
    };
    let s = summarize_plan(&plan);
    assert_eq!(s.dropped, 1);
    let pairs: Vec<(String, usize)> = s.per_branch.clone();
    assert_eq!(
        pairs,
        vec![("feature".to_string(), 2), ("current".to_string(), 1)]
    );
}
