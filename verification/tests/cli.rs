use git_wt::targets::{
    check_index, gather_targets, parse_target_list, resolve_target, resolve_target_list,
};
use git_wt::worktree::Worktree;

fn trees_on(branches: &[&str]) -> Vec<Worktree> {
    branches
        .iter()
        .enumerate()
        .map(|(i, b)| Worktree {
            id: i + 1,
            path: format!("/tmp/{b}"),
            branch: Some((*b).to_string()),
            detached: false,
            bare: false,
            locked: None,
            prunable: None,
        })
        .collect()
}

#[test]
fn check_index_bounds() {
    assert_eq!(check_index(1, 3), Ok(0));
    assert_eq!(check_index(3, 3), Ok(2));
    assert_eq!(check_index(0, 3), Err("no worktree #0".into()));
    assert_eq!(
        check_index(4, 3),
        Err("no worktree #4; there are 3 (see 'git-wt list')".into())
    );
}

#[test]
fn target_list_tokenizes_without_judging_the_parts() {
    assert_eq!(
        parse_target_list("1,main"),
        Ok(Some(vec!["1".into(), "main".into()]))
    );
    assert_eq!(parse_target_list("main"), Ok(None));
}

#[test]
fn an_empty_part_is_a_malformed_list() {
    let want = Err("bad worktree list '1,,2'; want numbers or branches, \
                    e.g. '1,2' or 'main,2'"
        .into());
    assert_eq!(parse_target_list("1,,2"), want);
    assert!(parse_target_list("1,").is_err());
    assert!(parse_target_list(",1").is_err());
}

#[test]
fn a_branch_resolves_to_its_worktree_number() {
    let trees = trees_on(&["main", "feat/x", "feat/y"]);
    assert_eq!(
        resolve_target_list(&trees, &["main".into(), "feat/y".into()]),
        Ok(vec![1, 3])
    );
    assert_eq!(
        resolve_target_list(&trees, &["2".into(), "main".into()]),
        Ok(vec![2, 1])
    );
}

#[test]
fn a_bare_number_is_the_worktree_not_a_branch_of_that_name() {
    let trees = trees_on(&["main", "feat/x", "2"]);
    assert_eq!(resolve_target_list(&trees, &["2".into()]), Ok(vec![2]));
    assert_eq!(resolve_target_list(&trees, &["heads/2".into()]), Ok(vec![3]));
}

#[test]
fn an_out_of_range_number_stays_a_number() {
    let trees = trees_on(&["main", "feat/x"]);
    assert_eq!(resolve_target_list(&trees, &["9".into()]), Ok(vec![9]));
    assert_eq!(resolve_target_list(&trees, &["+9".into()]), Ok(vec![9]));
    assert_eq!(
        check_index(9, trees.len()),
        Err("no worktree #9; there are 2 (see 'git-wt list')".into())
    );
}

#[test]
fn a_branch_no_worktree_holds_is_rejected() {
    let trees = trees_on(&["main", "feat/x"]);
    assert_eq!(
        resolve_target_list(&trees, &["main".into(), "feat/gone".into()]),
        Err("no worktree on branch 'feat/gone' (see 'git-wt list')".into())
    );
}

#[test]
fn gather_targets_concatenates_positional_and_branch_flags() {
    assert_eq!(
        gather_targets(Some(&"1,2".into()), &["main".into()]),
        Ok(vec!["1".into(), "2".into(), "main".into()])
    );
    assert_eq!(
        gather_targets(None, &["3".into(), "feat/x".into()]),
        Ok(vec!["3".into(), "feat/x".into()])
    );
    assert!(gather_targets(Some(&"1,".into()), &[]).is_err());
}

#[test]
fn a_lone_branch_names_its_worktree() {
    let trees = trees_on(&["main", "feat/x"]);
    assert_eq!(resolve_target(&trees, "feat/x"), Some(2));
    assert_eq!(resolve_target(&trees, "heads/main"), Some(1));
    assert_eq!(resolve_target(&trees, "feat/gone"), None);
}

#[test]
fn a_lone_number_is_left_to_the_caller() {
    let trees = trees_on(&["main", "2"]);
    assert_eq!(resolve_target(&trees, "2"), None);
    assert_eq!(resolve_target(&trees, "heads/2"), Some(2));
}

#[test]
fn a_detached_worktree_matches_no_branch_name() {
    let mut trees = trees_on(&["main", "feat/x"]);
    trees[1].branch = None;
    trees[1].detached = true;
    assert!(resolve_target_list(&trees, &["feat/x".into()]).is_err());
    assert_eq!(resolve_target_list(&trees, &["2".into()]), Ok(vec![2]));
}
