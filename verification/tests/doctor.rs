use git_wt::doctor::{gitdir_link_target, repair, scan, Issue, Probed};
use git_wt::style::{RED, YELLOW};
use git_wt::worktree::Worktree;

fn wt(path: &str) -> Worktree {
    Worktree {
        id: 1,
        path: path.to_string(),
        branch: Some("main".into()),
        detached: false,
        bare: false,
        locked: None,
        prunable: None,
    }
}

/// What the filesystem says of a directory that is there and whose HEAD
/// reads: the state of this crate's own checkout.
fn healthy() -> Probed {
    Probed { exists: true, link_target: None, target_exists: false, head_ok: true }
}

/// What the filesystem says of a path that is not there.
fn missing() -> Probed {
    Probed { exists: false, link_target: None, target_exists: false, head_ok: false }
}

fn probe(path: &str) -> Probed {
    if path == "." {
        healthy()
    } else {
        missing()
    }
}

fn summaries(issues: &[Issue]) -> Vec<&str> {
    issues.iter().map(|i| i.summary.as_str()).collect()
}

#[test]
fn doctor_a_healthy_worktree_has_no_issues() {
    let w = wt(".");
    assert!(scan(&w, &probe(&w.path)).is_empty());
}

#[test]
fn doctor_a_missing_directory_is_reported() {
    let w = wt("/no/such/path/git-wt-doctor-test");
    let issues = scan(&w, &probe(&w.path));
    assert_eq!(issues.len(), 1);
    assert!(issues[0].summary.contains("not found"));
    assert_eq!(issues[0].severity, RED);
}

#[test]
fn doctor_prunable_wins_over_the_bare_directory_check() {
    let mut w = wt("/no/such/path/git-wt-doctor-test");
    w.prunable = Some("gitdir file points to non-existent location".into());
    let issues = scan(&w, &probe(&w.path));
    assert_eq!(issues.len(), 1);
    assert!(issues[0].summary.starts_with("prunable:"));
}

#[test]
fn doctor_a_locked_worktree_is_flagged_but_not_broken() {
    let mut w = wt(".");
    w.locked = Some("reviewing".into());
    let issues = scan(&w, &probe(&w.path));
    assert_eq!(issues.len(), 1);
    assert_eq!(issues[0].summary, "locked: reviewing");
    assert_eq!(issues[0].severity, YELLOW);
}

#[test]
fn mod_a_healthy_worktree_has_no_issues() {
    let w = wt(".");
    assert!(scan(&w, &probe(&w.path)).is_empty());
}

#[test]
fn mod_a_missing_directory_is_reported() {
    let w = wt("/no/such/path/git-wt-doctor-test");
    let issues = scan(&w, &probe(&w.path));
    assert_eq!(issues.len(), 1);
    assert!(issues[0].summary.contains("not found"));
    assert_eq!(issues[0].severity, RED);
}

#[test]
fn mod_prunable_wins_over_the_bare_directory_check() {
    let mut w = wt("/no/such/path/git-wt-doctor-test");
    w.prunable = Some("gitdir file points to non-existent location".into());
    let issues = scan(&w, &probe(&w.path));
    assert_eq!(issues.len(), 1);
    assert!(issues[0].summary.starts_with("prunable:"));
}

#[test]
fn mod_a_locked_worktree_is_flagged_but_not_broken() {
    let mut w = wt(".");
    w.locked = Some("reviewing".into());
    let issues = scan(&w, &probe(&w.path));
    assert_eq!(issues.len(), 1);
    assert_eq!(issues[0].summary, "locked: reviewing");
    assert_eq!(issues[0].severity, YELLOW);
}

#[test]
fn a_moved_main_worktree_and_an_unreadable_head_are_named() {
    let w = wt("/wt/feature");
    let moved = Probed {
        exists: true,
        link_target: Some("/old/repo/.git/worktrees/feature".into()),
        target_exists: false,
        head_ok: true,
    };
    assert_eq!(
        summaries(&scan(&w, &moved)),
        ["'.git' points to a missing admin dir (/old/repo/.git/worktrees/feature) -- the main worktree was likely moved or renamed"]
    );
    let corrupt = Probed { head_ok: false, ..healthy() };
    assert_eq!(summaries(&scan(&w, &corrupt)), ["HEAD unreadable (repository may be corrupt)"]);
    let mut bare = wt("/wt/bare");
    bare.bare = true;
    assert!(scan(&bare, &corrupt).is_empty());
}

#[test]
fn empty_reasons_get_a_default_wording() {
    let mut w = wt("/gone");
    w.prunable = Some(String::new());
    w.locked = Some(String::new());
    assert_eq!(
        summaries(&scan(&w, &missing())),
        ["prunable: directory is gone or unreachable", "locked: no reason given"]
    );
}

#[test]
fn the_gitdir_link_and_the_repair_candidates() {
    assert_eq!(
        gitdir_link_target(Some("gitdir: /repo/.git/worktrees/x\n")).as_deref(),
        Some("/repo/.git/worktrees/x")
    );
    assert_eq!(gitdir_link_target(Some("something else")), None);
    assert_eq!(gitdir_link_target(None), None);

    let mut bare = wt("/repo");
    bare.bare = true;
    let trees = vec![bare, wt("/wt/a")];
    let argv = repair(&trees, &["/wt/a".to_string(), "/old/b".to_string()]).unwrap();
    assert_eq!(argv, ["worktree", "repair", "/wt/a", "/old/b"]);
    assert_eq!(repair(&trees[..1], &[]), None);
}
