use dura::config::Config;
use dura::snapshot::{
    backup_ref_name, commit_identity, plan_snapshot, snapshot_message, CommitRef, SnapshotPlan,
};

fn cref(commit: &str, tree: &str) -> CommitRef {
    CommitRef { commit: commit.to_string(), tree: tree.to_string() }
}

fn parent_and_tree(p: &SnapshotPlan) -> Option<(Option<String>, String)> {
    match p {
        SnapshotPlan::Unchanged => None,
        SnapshotPlan::Commit { parent, tree } => Some((parent.clone(), tree.clone())),
    }
}

#[test]
fn modified_file_gives_one_commit_then_none() {
    // A fresh repository: no backup line yet, HEAD records tree t0.
    let head = Some(cref("c0", "t0"));
    let first = plan_snapshot(&None, &head, &"t1".to_string());
    assert_eq!(parent_and_tree(&first), Some((Some("c0".to_string()), "t1".to_string())));
    // The commit made for it becomes the tip; an immediate second cycle does nothing.
    let tip = Some(cref("s1", "t1"));
    let second = plan_snapshot(&tip, &head, &"t1".to_string());
    assert!(matches!(second, SnapshotPlan::Unchanged));
}

#[test]
fn unchanged_working_tree_gives_no_commit() {
    let head = Some(cref("c0", "t0"));
    assert!(matches!(plan_snapshot(&None, &head, &"t0".to_string()), SnapshotPlan::Unchanged));
}

#[test]
fn snapshots_chain_on_the_backup_line() {
    let head = Some(cref("c0", "t0"));
    let mut tip: Option<CommitRef> = None;
    let mut parents = Vec::new();
    for (k, tree) in ["t1", "t2", "t3"].iter().enumerate() {
        let plan = plan_snapshot(&tip, &head, &tree.to_string());
        let (parent, t) = parent_and_tree(&plan).expect("a commit");
        parents.push(parent);
        tip = Some(cref(&format!("s{}", k + 1), &t));
    }
    assert_eq!(
        parents,
        vec![Some("c0".to_string()), Some("s1".to_string()), Some("s2".to_string())]
    );
}

#[test]
fn repository_without_commits_gets_a_root_snapshot() {
    let plan = plan_snapshot(&None, &None, &"t1".to_string());
    assert_eq!(parent_and_tree(&plan), Some((None, "t1".to_string())));
}

#[test]
fn identity_precedence() {
    let mut cfg = Config::empty();
    let id = commit_identity(&cfg, Some("Ann".to_string()), Some("ann@x".to_string()));
    assert_eq!((id.name.as_str(), id.email.as_str()), ("Ann", "ann@x"));
    let id = commit_identity(&cfg, None, None);
    assert_eq!((id.name.as_str(), id.email.as_str()), ("dura", "dura@github.io"));
    cfg.commit_exclude_git_config = true;
    let id = commit_identity(&cfg, Some("Ann".to_string()), Some("ann@x".to_string()));
    assert_eq!((id.name.as_str(), id.email.as_str()), ("dura", "dura@github.io"));
    cfg.commit_author = Some("Bot".to_string());
    let id = commit_identity(&cfg, Some("Ann".to_string()), Some("ann@x".to_string()));
    assert_eq!((id.name.as_str(), id.email.as_str()), ("Bot", "dura@github.io"));
}

#[test]
fn backup_reference_and_marker() {
    assert_eq!(backup_ref_name(&"abc123".to_string()), "refs/dura/abc123");
    assert_eq!(snapshot_message(), "dura auto-backup");
}
