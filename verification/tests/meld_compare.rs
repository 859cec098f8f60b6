use git_wt::compare::{compare_target, meld_pairs};
use git_wt::meld::{meld_check, meld_diff_count, panes, MeldArgs};
use git_wt::text::sorted_unique;

fn strings(v: &[&str]) -> Vec<String> {
    v.iter().map(|s| s.to_string()).collect()
}

fn plain() -> MeldArgs {
    MeldArgs { diff: false, range: None, three_way: false, base: None }
}

#[test]
fn meld_takes_two_or_three_distinct_worktrees() {
    assert!(meld_check(&[0, 1], &plain()).is_ok());
    assert!(meld_check(&[0, 1, 2], &plain()).is_ok());
    assert_eq!(meld_check(&[0], &plain()).unwrap_err(), "meld needs 2 or 3 worktrees, e.g. 'git-wt 1,2 meld'");
    assert_eq!(meld_check(&[0, 1, 2, 3], &plain()).unwrap_err(), "meld takes at most 3 worktrees, got 4");
    assert_eq!(meld_check(&[], &plain()).unwrap_err(), "meld takes at most 3 worktrees, got 0");
    assert_eq!(meld_check(&[1, 1], &plain()).unwrap_err(), "worktree #2 listed twice");
    // Under --diff a tree against itself is left to the diff.
    assert!(meld_check(&[1, 1], &MeldArgs { diff: true, ..plain() }).is_ok());
}

#[test]
fn diff_options_need_diff() {
    let m = MeldArgs { three_way: true, base: Some("main".into()), ..plain() };
    assert_eq!(
        meld_check(&[0, 1], &m).unwrap_err(),
        "--3way, --base only applies to 'meld --diff'; add --diff or drop --3way, --base"
    );
    let m = MeldArgs { diff: true, three_way: true, base: Some("main".into()), ..plain() };
    assert_eq!(meld_check(&[0, 1], &m).unwrap_err(), "--3way and --base are alternatives; use one or the other");
    let m = MeldArgs { diff: true, range: Some("..".into()), ..plain() };
    assert_eq!(
        meld_check(&[0, 1], &m).unwrap_err(),
        "'..' is the default range for meld --diff; use '...' for the fork view"
    );
    let m = MeldArgs { diff: true, range: Some("^".into()), ..plain() };
    assert_eq!(meld_check(&[0, 1], &m).unwrap_err(), "range for meld --diff must be '..' or '...', got '^'");
    let m = MeldArgs { diff: true, range: Some("...".into()), ..plain() };
    assert!(meld_check(&[0, 1], &m).is_ok());
    assert!(meld_diff_count(true, 3).is_err());
    assert!(meld_diff_count(true, 2).is_ok());
    assert!(meld_diff_count(false, 3).is_ok());
}

#[test]
fn panes_are_announced_base_first() {
    assert_eq!(panes(None, "main", "feat"), "main  ↔  feat");
    assert_eq!(panes(Some("abc123"), "main", "feat"), "abc123  ↔  main  ↔  feat");
}

#[test]
fn changed_paths_are_sorted_once_each() {
    assert_eq!(
        sorted_unique(&strings(&["b.rs", "a.rs", "b.rs", "A.rs", "a.rs"])),
        strings(&["A.rs", "a.rs", "b.rs"])
    );
    assert!(sorted_unique(&[]).is_empty());
}

#[test]
fn compare_needs_files_and_one_ref() {
    assert_eq!(compare_target(&strings(&["a.rs"]), &strings(&["main"])).unwrap(), "main");
    assert_eq!(
        compare_target(&[], &strings(&["main"])).unwrap_err(),
        "compare needs at least one file: '-p/--path <FILE_LIST>'"
    );
    assert_eq!(
        compare_target(&strings(&["a.rs", " "]), &strings(&["main"])).unwrap_err(),
        "bad file list 'a.rs, '; want paths, e.g. 'a.rs,b.rs'"
    );
    assert_eq!(
        compare_target(&strings(&["a.rs"]), &[]).unwrap_err(),
        "compare needs a ref: '-x/--reference <REF>' (or '--ref')"
    );
    assert_eq!(
        compare_target(&strings(&["a.rs"]), &strings(&["main", "feat"])).unwrap_err(),
        "compare takes exactly one ref, got 2: 'main, feat'"
    );
}

#[test]
fn compare_pairs_each_file_with_its_copy() {
    assert_eq!(
        meld_pairs("/w", "/tmp/x", &strings(&["src/a.rs", "b.rs"])),
        strings(&["--diff", "/w/src/a.rs", "/tmp/x/src/a.rs", "--diff", "/w/b.rs", "/tmp/x/b.rs"])
    );
}
