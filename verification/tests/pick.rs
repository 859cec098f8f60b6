use git_wt::merge::{dirty_refusal, restart, same_branch_refusal, Restart, Side};
use git_wt::pick::{
    branch_list, branch_menu, fzf_choice, number_choice, picked_number, split_branches,
    switch_items, switch_menu, taken_note, typed_branch,
};
use git_wt::worktree::Worktree;

fn tree(id: usize, path: &str, branch: Option<&str>) -> Worktree {
    Worktree {
        id,
        path: path.to_string(),
        branch: branch.map(|b| b.to_string()),
        detached: branch.is_none(),
        bare: false,
        locked: None,
        prunable: None,
    }
}

fn pair(a: &str, b: &str) -> (String, String) {
    (a.to_string(), b.to_string())
}

#[test]
fn branch_list_splits_name_and_age_and_skips_blank_lines() {
    let got = branch_list("main\t2 hours ago\n\nfeat/x\t3 days ago\nlone\n");
    assert_eq!(
        got,
        vec![pair("main", "2 hours ago"), pair("feat/x", "3 days ago"), pair("lone", "")]
    );
    assert!(branch_list("").is_empty());
}

#[test]
fn checked_out_branches_are_set_aside_with_their_paths() {
    let bs = vec![pair("main", "1 day ago"), pair("feat", "2 days ago"), pair("old", "1 year ago")];
    let trees = vec![tree(1, "/code/app", Some("main")), tree(2, "/code/app-old", Some("old"))];
    let (free, busy) = split_branches(&bs, &trees);
    assert_eq!(free, vec![pair("feat", "2 days ago")]);
    assert_eq!(busy, vec![pair("main", "/code/app"), pair("old", "/code/app-old")]);
}

#[test]
fn taken_note_pads_names_and_ends_with_a_rule() {
    let note = taken_note(&[pair("main", "/a"), pair("feature", "/b")]);
    let rule = "─".repeat(48);
    assert_eq!(
        note,
        format!("Already checked out (not selectable):\n  main     /a\n  feature  /b\n{rule}\n")
    );
}

#[test]
fn branch_menu_numbers_and_aligns_each_branch() {
    let items = vec![pair("main", "2 hours ago"), pair("feature", "")];
    assert_eq!(
        branch_menu(&items, false),
        "Available branches (most recent first):\n  1  main     2 hours ago\n  2  feature  \nSelect a branch [1-2], or Enter to cancel: "
    );
    // Painted ages are dimmed; an empty age stays plain.
    let painted = branch_menu(&items, true);
    assert!(painted.contains("  1  main     \x1b[2m2 hours ago\x1b[0m\n"));
    assert!(painted.contains("  2  feature  \n"));
}

#[test]
fn number_choice_reads_a_one_based_pick() {
    assert_eq!(number_choice(Some(" 2\n"), 3), Ok(1));
    assert_eq!(number_choice(Some("+1"), 3), Ok(0));
    assert_eq!(number_choice(Some("\n"), 3), Err("no branch selected".to_string()));
    assert_eq!(number_choice(None, 3), Err("no branch selected".to_string()));
    assert_eq!(number_choice(Some("two"), 3), Err("'two' is not a number".to_string()));
    assert_eq!(number_choice(Some("0"), 3), Err("no branch #0".to_string()));
    assert_eq!(number_choice(Some("4"), 3), Err("no branch #4".to_string()));
}

#[test]
fn typed_and_fzf_answers_are_trimmed_and_empty_cancels() {
    assert_eq!(typed_branch(Some("  feat/new \n")), Ok("feat/new".to_string()));
    assert_eq!(typed_branch(Some("   ")), Err("no branch selected".to_string()));
    assert_eq!(typed_branch(None), Err("no branch selected".to_string()));
    assert_eq!(fzf_choice(true, "feat\n"), Ok("feat".to_string()));
    assert_eq!(fzf_choice(true, "\n"), Err("no branch selected".to_string()));
    assert_eq!(fzf_choice(false, "feat\n"), Err("no branch selected".to_string()));
}

#[test]
fn switch_lines_lead_with_their_number() {
    let mut trees: Vec<Worktree> = (1..=10)
        .map(|i| tree(i, &format!("/w{i}"), Some("b")))
        .collect();
    trees[0].branch = Some("main".to_string());
    trees[1].branch = None;
    let items = switch_items(&trees);
    assert_eq!(items.len(), 10);
    assert_eq!(items[0], " 1  main        /w1");
    assert_eq!(items[1], " 2  (detached)  /w2");
    assert_eq!(items[9], "10  b           /w10");
    assert_eq!(picked_number(&items[9]), Some(10));
    assert_eq!(picked_number(&items[1]), Some(2));
    assert_eq!(picked_number("  "), None);
    assert_eq!(picked_number("x 3"), None);
}

#[test]
fn switch_menu_dims_paths_when_painted() {
    let trees = vec![tree(1, "/a", Some("main")), tree(2, "/b", None)];
    assert_eq!(
        switch_menu(&trees, false),
        "Worktrees:\n  1  main        /a\n  2  (detached)  /b\nPick a number (Enter to cancel): "
    );
    assert!(switch_menu(&trees, true).contains("  1  main        \x1b[2m/a\x1b[0m\n"));
}

#[test]
fn a_stopped_merge_is_refused_or_asked_about() {
    assert_eq!(restart(false, Some(Side::Ours), true, "feat", "/w", 2), Restart::Clear);
    assert_eq!(
        restart(true, None, false, "feat", "/w", 2),
        Restart::Refuse(
            "a merge is already in progress in /w\nhint: 'git-wt 2 merge continue' or 'git-wt 2 merge abort'"
                .to_string()
        )
    );
    assert_eq!(
        restart(true, Some(Side::Theirs), false, "feat", "/w", 2),
        Restart::Ask(
            "Abort it and re-merge 'feat' with 'theirs'? Any conflict resolution already done there is discarded. [y/N] "
                .to_string()
        )
    );
    match restart(true, Some(Side::Ours), true, "feat", "/w", 2) {
        Restart::Ask(m) => assert!(m.contains("'ours'? Uncommitted changes in that tree")),
        other => panic!("unexpected {other:?}"),
    }
}

#[test]
fn merges_into_dirty_or_same_branch_trees_are_refused() {
    assert_eq!(dirty_refusal(true, true, 3), None);
    assert_eq!(dirty_refusal(false, false, 3), None);
    assert_eq!(
        dirty_refusal(false, true, 3),
        Some("worktree 3 has uncommitted changes\nhint: commit or stash them, or re-run with -f".to_string())
    );
    assert_eq!(
        same_branch_refusal(Some("feat"), "feat", 4),
        Some("'feat' is already checked out in worktree 4".to_string())
    );
    assert_eq!(same_branch_refusal(Some("main"), "feat", 4), None);
    assert_eq!(same_branch_refusal(None, "feat", 4), None);
}
