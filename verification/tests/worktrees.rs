use git_wt::worktree::{current_worktree_index, parse_worktrees};

const LISTING: &str = "worktree /code/app\nHEAD 1111\nbranch refs/heads/main\n\nworktree /code/app-feat\nHEAD 2222\nbranch refs/heads/feat/x\nlocked\n\nworktree /code/app-old\nHEAD 3333\ndetached\nprunable gitdir file points to non-existent location\n\nworktree /code/app.git\nbare\n";

#[test]
fn the_porcelain_listing_reads_as_numbered_worktrees() {
    let ws = parse_worktrees(LISTING);
    assert_eq!(ws.len(), 4);
    assert_eq!(ws[0].id, 1);
    assert_eq!(ws[0].path, "/code/app");
    assert_eq!(ws[0].branch.as_deref(), Some("main"));
    assert_eq!(ws[1].branch.as_deref(), Some("feat/x"));
    assert_eq!(ws[1].locked.as_deref(), Some(""));
    assert!(ws[2].detached && ws[2].branch.is_none());
    assert_eq!(ws[2].prunable.as_deref(), Some("gitdir file points to non-existent location"));
    assert!(ws[3].bare);
    assert_eq!(ws[3].id, 4);
    assert!(parse_worktrees("").is_empty());
}

#[test]
fn the_current_worktree_is_the_nearest_one_holding_the_directory() {
    let ws = parse_worktrees(
        "worktree /code/app\nbranch refs/heads/main\n\nworktree /code/app/.worktrees/app-feat\nbranch refs/heads/feat\n",
    );
    assert_eq!(current_worktree_index(&ws, "/code/app/src"), Some(0));
    assert_eq!(current_worktree_index(&ws, "/code/app"), Some(0));
    assert_eq!(current_worktree_index(&ws, "/code/app/.worktrees/app-feat/src"), Some(1));
    assert_eq!(current_worktree_index(&ws, "/code/application"), None);
    assert_eq!(current_worktree_index(&ws, "/elsewhere"), None);
}
