use git_wt::commits::rows::{older_than, parents_rev, reachable_from};
use git_wt::commits::view::cmd_commits;
use git_wt::list::{cmd_list, ListMode};
use git_wt::log::paths::{exists_in_tree, normalize_lexically, to_pathspec};
use git_wt::merge::{cmd_merge_review, review_header, MergeVerdict};
use git_wt::worktree::Worktree;

fn trees_on(branches: &[&str]) -> Vec<Worktree> {
    branches
        .iter()
        .enumerate()
        .map(|(i, b)| Worktree {
            id: i + 1,
            path: format!("/tmp/{b}"),
            branch: Some((*b).to_string()),
            detached: false,
            bare: false,
            locked: None,
            prunable: None,
        })
        .collect()
}

fn strings(v: &[&str]) -> Vec<String> {
    v.iter().map(|s| s.to_string()).collect()
}

fn comps(v: &[&str]) -> Vec<Vec<char>> {
    v.iter().map(|s| s.chars().collect()).collect()
}

#[test]
fn bounds_walk_every_parent_and_read_one_sha_per_line() {
    assert_eq!(parents_rev("abc123"), "abc123^@");
    assert_eq!(older_than("p1\np2\n"), strings(&["p1", "p2"]));
    assert!(older_than("").is_empty());
    assert_eq!(reachable_from("c\np\n"), strings(&["c", "p"]));
}

#[test]
fn lexical_normalizing_drops_dots_and_climbs_on_dot_dot() {
    let got = normalize_lexically(&comps(&["", "code", ".", "app", "..", "lib", "x.rs"]));
    assert_eq!(got, comps(&["code", "lib", "x.rs"]));
    // A `..` above the top has nothing to take back.
    assert_eq!(normalize_lexically(&comps(&["..", "a"])), comps(&["a"]));
}

#[test]
fn a_pathspec_joins_with_slashes_and_the_root_is_a_dot() {
    let c = comps(&["code", "app", "src", "ui.rs"]);
    assert_eq!(to_pathspec(&c, 2), "src/ui.rs");
    assert_eq!(to_pathspec(&c, 4), ".");
    assert!(exists_in_tree("src/ui.rs", true));
    assert!(!exists_in_tree("src/ui.rs", false));
    assert!(!exists_in_tree("", true));
}

#[test]
fn the_review_header_counts_what_the_merge_carries() {
    assert_eq!(
        review_header("3\n", &MergeVerdict::Clean, "feat", "main", false),
        "feat -> main   3 commits, merges cleanly"
    );
    assert_eq!(
        review_header("1\n", &MergeVerdict::Conflict(strings(&["a.rs"])), "feat", "main", false),
        "feat -> main   1 commit, does NOT merge cleanly"
    );
    assert_eq!(
        review_header("0\n", &MergeVerdict::Clean, "feat", "main", false),
        "Merged feat is already in main"
    );
    assert_eq!(
        review_header("junk", &MergeVerdict::Clean, "feat", "main", true),
        "\x1b[32mMerged\x1b[0m feat is already in main"
    );
    assert_eq!(
        review_header("2", &MergeVerdict::Clean, "feat", "main", true),
        "feat -> main   2 commits, \x1b[32mmerges cleanly\x1b[0m"
    );
}

#[test]
fn a_review_ends_in_error_only_on_conflicts() {
    assert_eq!(cmd_merge_review(&MergeVerdict::Clean), Ok(()));
    assert_eq!(
        cmd_merge_review(&MergeVerdict::Conflict(strings(&["a.rs", "b.rs"]))),
        Err("2 conflicting paths:\n  a.rs\n  b.rs\nhint: nothing was changed — this was a review\nhint: 'ours' or 'theirs' would settle these automatically".to_string())
    );
    assert_eq!(
        cmd_merge_review(&MergeVerdict::Conflict(strings(&["a.rs"]))).unwrap_err().lines().next(),
        Some("1 conflicting path:")
    );
}

#[test]
fn list_looks_up_only_what_its_columns_show() {
    let p = cmd_list(&[1, 2, 4, 5, 6, 9, 10], false, false, true, ListMode::Normal, false);
    assert!(p.status && p.last && p.merged && p.push_pull && p.here && p.header);
    assert!(!p.merged_ref && !p.merged_at);

    let p = cmd_list(&[1, 2, 3], false, false, false, ListMode::Normal, false);
    assert!(!p.status && !p.last && !p.merged && !p.push_pull && !p.here && !p.header);

    // Color needs the status to tint the branch; --col hides the header.
    let p = cmd_list(&[1, 2], true, true, true, ListMode::Long, false);
    assert!(p.status && !p.header);

    // Under --others the ref is given, so 7/8 need no branch stood in.
    let p = cmd_list(&[1, 2, 7, 8], false, false, true, ListMode::Normal, true);
    assert!(p.merged_ref && p.merged_at && !p.here);
    let p = cmd_list(&[1, 2, 7], false, false, true, ListMode::Short, false);
    assert!(p.here && !p.header);
}

#[test]
fn commits_branch_flag_adds_each_worktree_once() {
    let trees = trees_on(&["main", "feat", "fix"]);
    let (idxs, rest) = cmd_commits(&trees, &[0], &strings(&["-n", "5", "-b", "feat,main,3"])).unwrap();
    assert_eq!(idxs, vec![0, 1, 2]);
    assert_eq!(rest, strings(&["-n", "5"]));

    let (idxs, rest) = cmd_commits(&trees, &[2], &strings(&["--stat"])).unwrap();
    assert_eq!(idxs, vec![2]);
    assert_eq!(rest, strings(&["--stat"]));

    assert!(cmd_commits(&trees, &[0], &strings(&["-b", "nope"])).is_err());
    assert_eq!(
        cmd_commits(&trees, &[0], &strings(&["-b", "1,,2"])).unwrap_err(),
        "bad worktree list '1,,2'; want numbers or branches, e.g. '1,2' or 'main,2'"
    );
}
