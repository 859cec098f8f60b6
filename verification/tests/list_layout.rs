use git_wt::list::{branch_cap, column_widths, porcelain_untracked, worktree_files};

fn strings(v: &[&str]) -> Vec<String> {
    v.iter().map(|s| s.to_string()).collect()
}

#[test]
fn widths_fit_the_widest_cell_and_the_header() {
    let cells = vec![strings(&["1", "main", "clean"]), strings(&["2", "feat/日本", "dirty"])];
    let header = strings(&["#", "branch", "status"]);
    assert_eq!(column_widths(&cells, Some(&header), 3), vec![1, 7, 6]);
    assert_eq!(column_widths(&cells, None, 3), vec![1, 7, 5]);
    assert_eq!(column_widths(&[], None, 2), vec![0, 0]);
}

#[test]
fn the_branch_column_gives_way_to_the_terminal() {
    // 3 + 2 + 40 + 2 + 6 = 53 columns on a 40-column terminal.
    let widths = [3, 40, 6];
    assert_eq!(branch_cap(40, &widths, 1), Some(27));
    // Never under the floor.
    assert_eq!(branch_cap(15, &widths, 1), Some(10));
    // Nothing to cut when it fits.
    assert_eq!(branch_cap(80, &widths, 1), None);
}

#[test]
fn a_worktrees_files_come_from_status_and_diff() {
    let porcelain = " M src/a.rs\nR  old.rs -> new.rs\n?? notes.txt\n?? build/\nxx\n";
    assert_eq!(porcelain_untracked(porcelain), strings(&["notes.txt", "build/"]));
    let numstat = "3\t1\tsrc/a.rs\0\
                   0\t0\t\0old.rs\0new.rs\0";
    let got = worktree_files(false, Some(porcelain), Some(numstat), &[Some(12), None]);
    let view: Vec<(char, &str, Option<usize>, Option<usize>)> =
        got.iter().map(|f| (f.status, f.path.as_str(), f.added, f.removed)).collect();
    assert_eq!(
        view,
        vec![
            ('M', "src/a.rs", Some(3), Some(1)),
            ('R', "old.rs => new.rs", Some(0), Some(0)),
            ('?', "build/", None, None),
            ('?', "notes.txt", Some(12), Some(0)),
        ]
    );
    assert!(worktree_files(true, Some(porcelain), None, &[None, None]).is_empty());
    assert!(worktree_files(false, None, None, &[]).is_empty());
}
