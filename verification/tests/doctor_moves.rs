use git_wt::doctor::{candidate_name, migrates, moves_end, rename_target, report, Probed};
use git_wt::worktree::Worktree;

fn wt(id: usize, path: &str, branch: Option<&str>) -> Worktree {
    Worktree {
        id,
        path: path.to_string(),
        branch: branch.map(|b| b.to_string()),
        detached: branch.is_none(),
        bare: false,
        locked: None,
        prunable: None,
    }
}

fn probed(exists: bool) -> Probed {
    Probed { exists, link_target: None, target_exists: false, head_ok: true }
}

#[test]
fn the_report_lists_only_worktrees_with_issues() {
    let mut locked = wt(3, "/r/locked", Some("lk"));
    locked.locked = Some(String::new());
    let trees = vec![wt(1, "/r/main", Some("main")), wt(2, "/r/gone", Some("feat/x")), locked];
    let probes = vec![probed(true), probed(false), probed(true)];
    let (text, total) = report(&trees, &probes, false);
    assert_eq!(total, 2);
    assert_eq!(
        text,
        "2  feat/x  /r/gone\n    directory not found on disk (moved or deleted)\n\
         3  lk  /r/locked\n    locked: no reason given\n"
    );
    let (colored, _) = report(&trees[1..2], &probes[1..2], true);
    assert!(colored.starts_with("\x1b[2m2\x1b[0m  feat/x"), "{colored:?}");
    assert_eq!(report(&trees[..1], &probes[..1], false), (String::new(), 0));
}

#[test]
fn a_taken_name_gets_a_number() {
    assert_eq!(candidate_name("feat-x", 0), "feat-x");
    assert_eq!(candidate_name("feat-x", 1), "feat-x");
    assert_eq!(candidate_name("feat-x", 2), "feat-x-2");
    assert_eq!(candidate_name("feat-x", 12), "feat-x-12");
}

#[test]
fn migrate_skips_the_main_and_the_already_moved() {
    assert!(migrates(false, "/r/feat", "/r/main", "/r/main-worktrees"));
    assert!(!migrates(true, "/r/feat", "/r/main", "/r/main-worktrees"));
    assert!(!migrates(false, "/r/main", "/r/main", "/r/main-worktrees"));
    assert!(!migrates(false, "/r/main-worktrees/feat", "/r/main", "/r/main-worktrees"));
    // A sibling whose name merely starts the same is not under it.
    assert!(migrates(false, "/r/main-worktrees-old/feat", "/r/main", "/r/main-worktrees"));
}

#[test]
fn syncname_wants_the_sanitized_branch() {
    let w = wt(2, "/r/repo-feat-x", Some("feat/x"));
    assert_eq!(rename_target(&w, false, "repo-feat-x").as_deref(), Some("feat-x"));
    assert_eq!(rename_target(&w, false, "feat-x"), None);
    assert_eq!(rename_target(&w, true, "repo-feat-x"), None);
    assert_eq!(rename_target(&wt(3, "/r/d", None), false, "d"), None);
}

#[test]
fn a_run_of_moves_ends_with_its_counts() {
    let (line, err) = moves_end(0, 0, "nothing to rename", "renamed", "rename");
    assert_eq!(line, "nothing to rename");
    assert_eq!(err, None);
    let (line, err) = moves_end(2, 1, "nothing", "moved", "migrate");
    assert_eq!(line, "2 moved, 1 failed");
    assert_eq!(err.as_deref(), Some("1 worktree(s) failed to migrate (see above)"));
    assert_eq!(moves_end(3, 0, "n", "moved", "migrate"), ("3 moved, 0 failed".to_string(), None));
}
