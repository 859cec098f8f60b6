use git_wt::log::paths::{resolve_pathspec, tree_candidate};
use git_wt::worktree::Worktree;

fn wt(path: &str) -> Worktree {
    Worktree {
        id: 1,
        path: path.to_string(),
        branch: Some("main".into()),
        detached: false,
        bare: false,
        locked: None,
        prunable: None,
    }
}

#[test]
fn an_absolute_path_strips_the_worktree_it_sits_under() {
    let trees = [wt("/repo/main"), wt("/repo/feat-x")];
    let root = "/repo/main";
    let cwd = "/repo/main";
    assert_eq!(
        resolve_pathspec(root, &trees, cwd, "/repo/main/src/ui.rs", false).unwrap(),
        "src/ui.rs"
    );
    assert_eq!(
        resolve_pathspec(root, &trees, cwd, "/repo/feat-x/src/ui.rs", false).unwrap(),
        "src/ui.rs"
    );
}

#[test]
fn a_relative_path_resolves_against_cwd_first() {
    let trees = [wt("/repo/main")];
    let root = "/repo/main";
    let cwd = "/repo/main/src/cmd";
    assert_eq!(
        resolve_pathspec(root, &trees, cwd, "render.rs", false).unwrap(),
        "src/cmd/render.rs"
    );
    assert_eq!(
        resolve_pathspec(root, &trees, cwd, "../other/render.rs", false).unwrap(),
        "src/other/render.rs"
    );
}

#[test]
fn a_path_outside_every_worktree_is_an_error_naming_both_readings() {
    let trees = [wt("/repo/main")];
    let root = "/repo/main";
    let cwd = "/repo/main";
    let err = resolve_pathspec(root, &trees, cwd, "/etc/hosts", false).unwrap_err();
    assert!(err.contains("'/etc/hosts' is outside the repository"), "{err}");
    assert!(err.contains("hint: paths are resolved"), "{err}");
}

#[test]
fn a_path_missing_on_disk_still_resolves_lexically() {
    let trees = [wt("/repo/main")];
    let root = "/repo/main";
    let cwd = "/repo/main";
    assert_eq!(
        resolve_pathspec(root, &trees, cwd, "src/long-gone.rs", false).unwrap(),
        "src/long-gone.rs"
    );
}

#[test]
fn the_worktree_root_itself_is_dot() {
    let trees = [wt("/repo/main")];
    assert_eq!(resolve_pathspec("/repo/main", &trees, "/repo/main/src", "..", false).unwrap(), ".");
    assert_eq!(resolve_pathspec("/repo/main", &trees, "/repo/main", ".", false).unwrap(), ".");
    assert_eq!(
        resolve_pathspec("/repo/main", &trees, "/repo/main", "./a//b/./c", false).unwrap(),
        "a/b/c"
    );
}

#[test]
fn a_repo_relative_path_needs_the_tree_to_name_it() {
    let cwd = "/tmp";
    assert_eq!(tree_candidate("./src/ui.rs").as_deref(), Some("src/ui.rs"));
    assert_eq!(tree_candidate("/abs/ui.rs"), None);
    assert_eq!(tree_candidate("./"), None);
    assert_eq!(resolve_pathspec("/repo", &[], cwd, "./src/ui.rs", true).unwrap(), "src/ui.rs");
    let err = resolve_pathspec("/repo", &[], cwd, "src/nope.rs", false).unwrap_err();
    assert!(err.contains("is outside the repository"), "{err}");
    let err = resolve_pathspec("/repo", &[], cwd, "/etc/hosts", true).unwrap_err();
    assert!(err.contains("is outside the repository"), "{err}");
}
