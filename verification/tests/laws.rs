use git_wt::commits::args::Wrap;
use git_wt::commits::render::Highlight;
use git_wt::commits::rows::{window_to_divergent, CommitRow};
use git_wt::commits::table::commit_table;
use git_wt::log::paths::resolve_pathspec;
use git_wt::merge::{parse_merge_args, MergeOp};
use git_wt::worktree::Worktree;

fn wt(path: &str, branch: &str) -> Worktree {
    Worktree {
        id: 1,
        path: path.to_string(),
        branch: Some(branch.into()),
        detached: false,
        bare: false,
        locked: None,
        prunable: None,
    }
}

fn row(sha: &str, stamp: &str, text: &str) -> CommitRow {
    CommitRow {
        sha: sha.into(),
        short: sha.into(),
        text: text.into(),
        author: "Ann".into(),
        date: "2026-01-01".into(),
        key: "2026-01-01".into(),
        stamp: stamp.into(),
        email: String::new(),
        author_iso: String::new(),
        body: String::new(),
    }
}

fn strings(v: &[&str]) -> Vec<String> {
    v.iter().map(|s| s.to_string()).collect()
}

#[test]
fn a_path_typed_relative_or_absolute_names_the_same_file() {
    let trees = vec![wt("/repo/main", "main"), wt("/repo/feat", "feat")];
    for rel in ["ui.rs", "../src/ui.rs", "./ui.rs"] {
        let a = resolve_pathspec("/repo/main", &trees, "/repo/feat/src", rel, false);
        let b = resolve_pathspec("/repo/main", &trees, "/tmp", &format!("/repo/feat/src/{rel}"), false);
        assert_eq!(a, b);
        assert_eq!(a.unwrap(), "src/ui.rs");
    }
}

#[test]
fn the_window_is_the_rows_since_the_oldest_divergent_one_in_any_order() {
    let rows = || vec![row("c", "300", "c"), row("b", "200", "b"), row("a", "100", "a"), row("d", "250", "d")];
    let div = strings(&["b", "d"]);
    let kept: Vec<String> = window_to_divergent(rows(), &div).iter().map(|r| r.sha.clone()).collect();
    assert_eq!(kept, strings(&["c", "b", "d"]));
    let mut shuffled = rows();
    shuffled.reverse();
    let mut again: Vec<String> = window_to_divergent(shuffled, &div).iter().map(|r| r.sha.clone()).collect();
    again.sort();
    let mut want = kept.clone();
    want.sort();
    assert_eq!(again, want);
    assert!(window_to_divergent(rows(), &strings(&["zzz"])).is_empty());
}

#[test]
fn an_accepted_merge_means_one_thing() {
    let words = |v: &[&str]| parse_merge_args(&strings(v));
    let a = words(&["continue"]).unwrap();
    assert_eq!(a.op, MergeOp::Continue);
    assert!(!a.no_ff && !a.squash && a.message.is_none() && a.side.is_none() && !a.dry_run);
    assert!(words(&["continue", "--no-ff"]).is_err());
    assert!(words(&["2", "--no-ff", "--ff-only"]).is_err());
    assert!(words(&["2", "--squash", "--no-ff"]).is_err());
    assert!(words(&["2", "--no-ff", "--review"]).is_err());
}

#[test]
fn every_table_row_has_a_cell_per_column() {
    let rows = vec![row("a1", "1", "a subject long enough to be wrapped over lines")];
    let files = vec![vec![]];
    let bodies = vec![(strings(&["one", "two"]), 3)];
    let names = strings(&["main", "feat"]);
    let sets = vec![strings(&["a1"]), Vec::new()];
    let none: Vec<Vec<String>> = vec![Vec::new(), Vec::new()];
    let t = commit_table(
        &rows, &files, &bodies, &names, &sets, &none, &none, &none, None, None, None, false, &Vec::new(), true,
        Some(60), Wrap::Lines(2), None, None, None, &Highlight::default(),
    );
    assert_eq!(t.header.len(), t.cols.len());
    assert_eq!(t.body.len(), 4);
    assert!(t.body.iter().all(|r| r.len() == t.cols.len()));
}
