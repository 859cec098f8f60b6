use git_wt::commits::args::{CommitsFlags, DateFilter, DateOp};
use git_wt::commits::files::FileStat;
use git_wt::commits::rows::CommitRow;
use git_wt::commits::view::{
    check_targets, commits_cmd, decorate, empty_commits_msg, empty_log_msg, git_cap, is_filtered,
    is_subseq, keep_rows, labels_vary, leading_paths, log_cmd, log_header, narrow_files,
    review_cmd, row_path_labels, view_limit, RowFilter,
};

fn row(sha: &str, author: &str, key: &str, text: &str, body: &str) -> CommitRow {
    CommitRow {
        sha: sha.into(),
        short: sha.into(),
        text: text.into(),
        author: author.into(),
        date: key.into(),
        key: key.into(),
        stamp: "0".into(),
        email: String::new(),
        author_iso: String::new(),
        body: body.into(),
    }
}

fn rows() -> Vec<CommitRow> {
    vec![
        row("c3", "Nino Escalera", "2026-03-01", "feat: three", ""),
        row("c2", "Ann Lee", "2026-02-01", "fix: two", "the Pipe broke"),
        row("c1", "Nino Escalera", "2026-01-01", "init", ""),
    ]
}

fn none() -> RowFilter {
    RowFilter { dates: Vec::new(), wanted: Vec::new(), author: None, message: None, shas: None, older: None }
}

fn shas(v: &[CommitRow]) -> Vec<&str> {
    v.iter().map(|r| r.sha.as_str()).collect()
}

fn strings(v: &[&str]) -> Vec<String> {
    v.iter().map(|s| s.to_string()).collect()
}

#[test]
fn subsequence_is_the_fuzzy_author_match() {
    assert!(is_subseq("nino escalera", "nes"));
    assert!(is_subseq("anything", ""));
    assert!(!is_subseq("nino", "non"));
    assert!(!is_subseq("", "a"));
}

#[test]
fn filters_keep_rows_then_cap_then_reverse() {
    assert_eq!(shas(&keep_rows(rows(), &none(), None, false)), vec!["c3", "c2", "c1"]);
    let f = RowFilter { author: Some("nes".into()), ..none() };
    assert_eq!(shas(&keep_rows(rows(), &f, None, false)), vec!["c3", "c1"]);
    let f = RowFilter { message: Some("pipe".into()), ..none() };
    assert_eq!(shas(&keep_rows(rows(), &f, None, false)), vec!["c2"]);
    let f = RowFilter { dates: vec![DateFilter { op: DateOp::Ge, date: "2026-02-01".into() }], ..none() };
    assert_eq!(shas(&keep_rows(rows(), &f, None, false)), vec!["c3", "c2"]);
    let f = RowFilter { wanted: strings(&["c1", "c3"]), ..none() };
    assert_eq!(shas(&keep_rows(rows(), &f, None, false)), vec!["c3", "c1"]);
    let f = RowFilter { shas: Some(strings(&["c2"])), ..none() };
    assert_eq!(shas(&keep_rows(rows(), &f, None, false)), vec!["c2"]);
    // `--from` drops what is strictly older than the bound, and only that.
    let f = RowFilter { older: Some(strings(&["c1"])), ..none() };
    assert_eq!(shas(&keep_rows(rows(), &f, None, false)), vec!["c3", "c2"]);
    // The cap comes first, then the reversal reads the same rows bottom-up.
    assert_eq!(shas(&keep_rows(rows(), &none(), Some(2), true)), vec!["c2", "c3"]);
    assert_eq!(shas(&keep_rows(rows(), &none(), Some(5), true)), vec!["c1", "c2", "c3"]);
}

#[test]
fn targets_must_be_there_and_distinct() {
    assert!(check_targets(&[0, 1], Some("commits needs a worktree")).is_ok());
    assert_eq!(check_targets(&[], Some("commits needs a worktree")).unwrap_err(), "commits needs a worktree");
    assert!(check_targets(&[], None).is_ok());
    assert_eq!(check_targets(&[2, 0, 2], None).unwrap_err(), "worktree #3 listed twice");
}

#[test]
fn ten_rows_unless_told_otherwise() {
    assert_eq!(view_limit(None, false, false), Some(10));
    assert_eq!(view_limit(None, true, false), None);
    assert_eq!(view_limit(None, false, true), None);
    assert_eq!(view_limit(Some(3), false, false), Some(3));
    assert_eq!(git_cap(false, false, Some(3)), Some(3));
    assert_eq!(git_cap(true, false, Some(3)), None);
    assert_eq!(git_cap(false, true, Some(3)), None);
}

#[test]
fn a_filter_is_any_row_reading_flag() {
    let mut a = CommitsFlags::default().into_args().unwrap();
    assert!(!is_filtered(&a));
    a.author = Some("x".into());
    assert!(is_filtered(&a));
    let mut b = CommitsFlags::default().into_args().unwrap();
    b.commits = strings(&["abc"]);
    assert!(is_filtered(&b));
}

#[test]
fn an_empty_table_says_why() {
    assert_eq!(
        empty_commits_msg(true, 7, false, false, false, false, false, "feat").unwrap(),
        "no commits match those filters: 7 commits, none kept\nhint: these are only the rows ahead of the other branches -- try --all (this branch's whole log), --union (every branch listed), or --date-since to start further back"
    );
    assert!(empty_commits_msg(true, 7, false, false, false, false, true, "feat").unwrap().ends_with("or --commit-since to start further back"));
    assert_eq!(
        empty_commits_msg(true, 7, true, false, false, false, false, "feat").unwrap(),
        "no commits match those filters: 7 commits, none kept"
    );
    assert_eq!(empty_commits_msg(false, 0, false, false, false, true, false, "feat"), None);
    assert_eq!(empty_commits_msg(false, 0, false, false, true, false, false, "feat").unwrap(), "no commits");
    assert_eq!(empty_commits_msg(false, 0, true, false, false, false, false, "feat").unwrap(), "no commits on feat");
    assert_eq!(empty_commits_msg(false, 0, false, false, false, false, false, "feat").unwrap(), "no commits ahead of feat");
    assert_eq!(
        empty_log_msg(false, 0, &strings(&["a.rs", "b.rs"]), &strings(&["main", "feat"]), false),
        "no commits touched 'a.rs, b.rs' on main, feat\nhint: it may live under another name; --no-follow shows the literal path only"
    );
    assert_eq!(empty_log_msg(false, 0, &strings(&["a.rs"]), &strings(&["main"]), true), "no commits touched 'a.rs' on main");
    assert_eq!(empty_log_msg(true, 4, &[], &[], false), "no commits match those filters: 4 commits, none kept");
}

#[test]
fn log_paths_are_the_leading_words() {
    assert_eq!(leading_paths(&strings(&["a.rs", "b.rs", "-n", "3", "c.rs"])), 2);
    assert_eq!(leading_paths(&strings(&["--union"])), 0);
    assert_eq!(leading_paths(&[]), 0);
}

#[test]
fn log_header_sums_counts_and_authors() {
    let stats = vec![(Some(3), Some(1)), (Some(2), Some(0)), (Some(1), Some(4))];
    assert_eq!(
        log_header(&strings(&["src/ui.rs"]), &strings(&["main", "feat"]), &rows(), &stats, false),
        "src/ui.rs   main, feat   3 commits, +6 -5, 2 authors"
    );
    assert_eq!(
        log_header(&strings(&["src/ui.rs"]), &strings(&["main"]), &rows(), &stats, true),
        "src/ui.rs   main   3 commits, +6 -5, 2 authors, first 2026-01-01, last 2026-03-01"
    );
    let binary = vec![(None, None)];
    assert_eq!(
        log_header(&strings(&["logo.png"]), &strings(&["main"]), &rows()[..1], &binary, false),
        "logo.png   main   1 commit, - -, 1 author"
    );
}

#[test]
fn reports_name_the_command_that_made_them() {
    assert_eq!(commits_cmd(&[0, 2], &strings(&["--topo", "-n", "5"])), "git-wt 1,3 commits --topo -n 5");
    assert_eq!(commits_cmd(&[0], &[]), "git-wt 1 commits");
    assert_eq!(review_cmd(&[], "feat", "main"), "git-wt <dest> merge --review   # feat -> main");
    assert_eq!(log_cmd(&[1], &strings(&["a.rs", "b.rs"]), &strings(&["--md"])), "git-wt 2 log a.rs b.rs --md");
}

#[test]
fn filename_cuts_the_blocks_unless_all_files() {
    let fs = |p: &str| FileStat { status: 'M', path: p.into(), added: Some(1), removed: Some(0) };
    let blocks = vec![vec![fs("src/UI.rs"), fs("README.md")], vec![fs("docs/x.md")]];
    let got = narrow_files(blocks, Some("ui"), false);
    assert_eq!(got.len(), 2);
    assert_eq!(got[0].len(), 1);
    assert_eq!(got[0][0].path, "src/UI.rs");
    assert!(got[1].is_empty());
    let blocks = vec![vec![fs("src/UI.rs"), fs("README.md")]];
    assert_eq!(narrow_files(blocks, Some("ui"), true)[0].len(), 2);
}

#[test]
fn the_path_column_prints_only_when_it_varies() {
    let names = vec![strings(&["a.rs"]), Vec::new(), strings(&["old.rs", "a.rs"])];
    let labels = row_path_labels(&names, &strings(&["a.rs"]));
    assert_eq!(labels, strings(&["a.rs", "a.rs", "old.rs, a.rs"]));
    assert!(labels_vary(&labels));
    assert!(!labels_vary(&labels[..2]));
    assert!(!labels_vary(&[]));
}

#[test]
fn a_log_report_folds_the_cells_into_the_subject() {
    let rs = rows();
    let stats = vec![(Some(3), Some(1)), (None, None), (Some(0), Some(2))];
    let got = decorate(&rs, &stats, None);
    assert_eq!(got[0].text, "`+3 -1` feat: three");
    assert_eq!(got[1].text, "`- -` fix: two");
    assert_eq!(got[0].sha, "c3");
    let paths = strings(&["a.rs", "b.rs", "c.rs"]);
    let got = decorate(&rs, &stats, Some(&paths));
    assert_eq!(got[2].text, "`+0 -2` `c.rs` init");
}
