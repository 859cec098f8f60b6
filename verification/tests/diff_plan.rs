use git_wt::diff::{committed_head, diff_argv, diff_plan, dirty_warning, DiffPlan};

fn strings(v: &[&str]) -> Vec<String> {
    v.iter().map(|s| s.to_string()).collect()
}

/// Everything off: a plain ref diff of worktrees 1 and 2.
fn plan(idxs: &[usize], f: impl FnOnce(&mut Flags)) -> Result<DiffPlan, String> {
    let mut fl = Flags::default();
    f(&mut fl);
    let matched: Vec<bool> = match &fl.matched {
        Some(m) => m.clone(),
        None => vec![true; fl.paths.len()],
    };
    diff_plan(
        idxs,
        ("main", "feat"),
        fl.name_only,
        fl.name_status,
        fl.stat,
        fl.range.as_deref(),
        fl.range_is_path,
        &fl.paths,
        &matched,
        fl.live,
        fl.hunks,
        fl.meld,
        fl.a_only,
        fl.b_only,
    )
}

#[derive(Default)]
struct Flags {
    name_only: bool,
    name_status: bool,
    stat: bool,
    range: Option<String>,
    range_is_path: bool,
    paths: Vec<String>,
    matched: Option<Vec<bool>>,
    live: bool,
    hunks: bool,
    meld: bool,
    a_only: bool,
    b_only: bool,
}

#[test]
fn diff_takes_two_distinct_worktrees() {
    assert_eq!(plan(&[0], |_| {}).unwrap_err(), "diff takes exactly two worktrees, got 1");
    assert_eq!(plan(&[1, 1], |_| {}).unwrap_err(), "worktree #2 against itself is always empty");
    let p = plan(&[0, 1], |_| {}).unwrap();
    assert_eq!(p, DiffPlan { a: 0, b: 1, listing: None, dots: "...", only: None });
}

#[test]
fn one_listing_and_a_real_range_word() {
    assert_eq!(
        plan(&[0, 1], |f| {
            f.name_only = true;
            f.stat = true;
        })
        .unwrap_err(),
        "'--name-only', '--name-status' and '--stat' are alternatives; use one"
    );
    assert_eq!(plan(&[0, 1], |f| f.name_status = true).unwrap().listing, Some("--name-status"));
    assert_eq!(plan(&[0, 1], |f| f.range = Some("..".into())).unwrap().dots, "..");
    assert_eq!(
        plan(&[0, 1], |f| {
            f.range = Some("src/ui.rs".into());
            f.range_is_path = true;
        })
        .unwrap_err(),
        "unexpected argument 'src/ui.rs' for diff: paths go in '-p/--path'"
    );
    assert_eq!(
        plan(&[0, 1], |f| f.range = Some("....".into())).unwrap_err(),
        "unexpected argument '....' for diff: range must be '..' or '...'"
    );
}

#[test]
fn paths_must_be_written_and_must_match() {
    assert_eq!(
        plan(&[0, 1], |f| f.paths = strings(&["src/", " "])).unwrap_err(),
        "bad path list 'src/, '; want paths, e.g. 'src/,docs/'"
    );
    assert_eq!(
        plan(&[0, 1], |f| {
            f.paths = strings(&["src/", "nope", "gone"]);
            f.matched = Some(vec![true, false, false]);
        })
        .unwrap_err(),
        "no file matches 'nope' in main or feat"
    );
}

#[test]
fn modes_that_cannot_combine_are_refused() {
    assert_eq!(
        plan(&[0, 1], |f| {
            f.live = true;
            f.range = Some("..".into());
        })
        .unwrap_err(),
        "'--live' and '..' cannot combine: a range compares commits, --live compares the files on disk"
    );
    assert_eq!(
        plan(&[0, 1], |f| {
            f.hunks = true;
            f.stat = true;
        })
        .unwrap_err(),
        "'--hunks' and '--stat' cannot combine: --hunks prints line numbers per file, --stat prints a listing"
    );
    assert_eq!(
        plan(&[0, 1], |f| {
            f.meld = true;
            f.hunks = true;
        })
        .unwrap_err(),
        "'--meld' and '--hunks' cannot combine: --hunks prints line numbers per file, --meld opens a diff viewer"
    );
    assert_eq!(
        plan(&[0, 1], |f| {
            f.meld = true;
            f.name_only = true;
        })
        .unwrap_err(),
        "'--meld' and '--name-only' cannot combine: --name-only prints a listing, --meld opens a diff viewer"
    );
    assert_eq!(
        plan(&[0, 1], |f| {
            f.a_only = true;
            f.b_only = true;
        })
        .unwrap_err(),
        "'-A/--a-only' and '-B/--b-only' cannot combine: no file is missing from both sides"
    );
    assert_eq!(plan(&[0, 1], |f| f.a_only = true).unwrap().only, Some('D'));
    assert_eq!(plan(&[0, 1], |f| f.b_only = true).unwrap().only, Some('A'));
}

#[test]
fn a_plain_ref_diff_runs_git_diff_over_the_range() {
    let p = plan(&[0, 1], |f| f.stat = true).unwrap();
    assert_eq!(diff_argv(&p, "main", "feat", &[]), strings(&["diff", "main...feat", "--stat"]));
    let p = plan(&[0, 1], |f| {
        f.a_only = true;
        f.range = Some("..".into());
    })
    .unwrap();
    assert_eq!(
        diff_argv(&p, "main", "feat", &strings(&["src/"])),
        strings(&["diff", "main..feat", "--no-renames", "--diff-filter=D", "--", "src/"])
    );
}

#[test]
fn headers_and_warnings_name_both_sides() {
    assert_eq!(
        committed_head("main", "feat", "...", &None),
        "diff main ↔ feat   main...feat — committed state"
    );
    assert_eq!(
        committed_head("main", "feat", "..", &Some("main".to_string())),
        "diff main ↔ feat   main..feat — committed state   only in main"
    );
    assert_eq!(
        dirty_warning(1, "feat", false),
        "warning: #2 feat has uncommitted changes; this diff is committed state only"
    );
    assert_eq!(
        dirty_warning(0, "main", true),
        "\x1b[33mwarning:\x1b[0m #1 main has uncommitted changes; this diff is committed state only"
    );
}
