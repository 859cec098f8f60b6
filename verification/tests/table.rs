use git_wt::commits::args::{BranchWidth, PathWidth, SubjectWidth, Wrap};
use git_wt::commits::files::FileStat;
use git_wt::commits::render::{Highlight, Hue};
use git_wt::commits::rows::{CommitRow, Pick};
use git_wt::commits::table::{
    commit_table, ellipsize, render_commits, render_log, wrap_text, Align, ColPlan, Tint,
};

fn row(sha: &str, author: &str, date: &str, text: &str) -> CommitRow {
    CommitRow {
        sha: format!("{sha}full"),
        short: sha.into(),
        text: text.into(),
        author: author.into(),
        date: date.into(),
        key: date.into(),
        stamp: "0".into(),
        email: String::new(),
        author_iso: String::new(),
        body: String::new(),
    }
}

fn strings(v: &[&str]) -> Vec<String> {
    v.iter().map(|s| s.to_string()).collect()
}

fn texts(cells: &[git_wt::commits::table::CellPlan]) -> Vec<String> {
    cells.iter().map(|c| c.text.clone()).collect()
}

#[test]
fn ellipsize_keeps_what_fits_and_marks_a_cut() {
    assert_eq!(ellipsize("main", 10), "main");
    assert_eq!(ellipsize("feature/login", 8), "feature…");
    assert_eq!(ellipsize("abc", 0), "");
    assert_eq!(ellipsize("abc", 3), "abc");
}

#[test]
fn a_long_subject_wraps_up_to_its_budget() {
    assert_eq!(wrap_text("short", 10, 1), strings(&["short"]));
    assert_eq!(wrap_text("abcdefghij", 4, 1), strings(&["abc…"]));
    assert_eq!(wrap_text("abcdefghij", 4, 2), strings(&["abcd", "efg…"]));
    assert_eq!(wrap_text("abcdefghij", 4, usize::MAX), strings(&["abcd", "efgh", "ij"]));
}

#[test]
fn the_plan_sizes_each_column_and_marks_each_row() {
    let rows = vec![row("a1", "Ann", "2026-01-02", "fix the pipe"), row("b2", "Bob Builder", "2026-01-01", "add")];
    let names = strings(&["main", "feat"]);
    let sets = vec![strings(&["a1full"]), strings(&["a1full", "b2full"])];
    let none: Vec<Vec<String>> = vec![Vec::new(), Vec::new()];
    let t = commit_table(
        &rows,
        &[],
        &[],
        &names,
        &sets,
        &none,
        &none,
        &none,
        None,
        None,
        None,
        false,
        &Vec::new(),
        false,
        None,
        Wrap::Lines(1),
        None,
        None,
        None,
        &Highlight::default(),
    );
    // commit, author, date, two marks, subject; each a space either side.
    let spans: Vec<usize> = t.cols.iter().map(|c: &ColPlan| c.span).collect();
    assert_eq!(spans, vec![8, 13, 12, 6, 6, 14]);
    assert_eq!(t.cols[2].align, Align::Right);
    assert_eq!(t.cols[3].align, Align::Centred);
    assert_eq!(
        texts(&t.header),
        strings(&[" commit ", " author      ", " date       ", " main ", " feat ", " subject      "])
    );
    assert!(t.header.iter().all(|c| c.tint == Tint::Plain));
    assert_eq!(t.body.len(), 2);
    assert_eq!(
        texts(&t.body[0]),
        strings(&[" a1     ", " Ann         ", " 2026-01-02 ", "✓", "✓", " fix the pipe "])
    );
    assert_eq!(texts(&t.body[1])[3..5].to_vec(), strings(&["·", "✓"]));
}

#[test]
fn painted_cells_take_their_hues() {
    let rows = vec![row("a1", "Ann", "2026-01-02", "fix the pipe")];
    let names = strings(&["main"]);
    let sets = vec![strings(&["a1full"])];
    let none: Vec<Vec<String>> = vec![Vec::new()];
    let mut hl = Highlight::default();
    hl.search = strings(&["pipe"]);
    hl.author = true;
    let t = commit_table(
        &rows, &[], &[], &names, &sets, &none, &none, &none, None, None, None, false, &Vec::new(), true,
        None, Wrap::Lines(1), None, None, None, &hl,
    );
    assert_eq!(t.header[0].tint, Tint::Head(Hue::BrightRed));
    assert_eq!(t.header[1].tint, Tint::Head(Hue::BrightMagenta));
    assert_eq!(t.body[0][1].tint, Tint::Lit(Hue::BrightYellow));
    assert_eq!(t.body[0][3].tint, Tint::Lit(Hue::Green));
    assert_eq!(t.body[0][4].tint, Tint::Lit(Hue::BrightBlue));
    assert_eq!(t.body[0][0].tint, Tint::Plain);
}

#[test]
fn bodies_files_and_picks_fold_under_their_row() {
    let rows = vec![row("a1", "Ann", "2026-01-02", "fix")];
    let files = vec![vec![FileStat { status: 'M', path: "src/a.rs".into(), added: Some(3), removed: Some(1) }]];
    let bodies = vec![(strings(&["why it broke"]), 2)];
    let picks = vec![Pick { sha: "a1full".into(), other: "ffff0000".into() }];
    let none: Vec<Vec<String>> = Vec::new();
    let t = commit_table(
        &rows, &files, &bodies, &[], &none, &none, &none, &none, Some(&picks), None, None, false, &Vec::new(),
        false, None, Wrap::Lines(1), Some(SubjectWidth::Cols(20)), None, None, &Highlight::default(),
    );
    // commit, pick, author, date, subject.
    assert_eq!(t.cols.len(), 5);
    assert_eq!(texts(&t.body[0])[1], " ffff00 ");
    assert_eq!(t.body.len(), 4);
    assert_eq!(texts(&t.body[1])[4], format!(" {:<20} ", "  why it broke"));
    assert_eq!(texts(&t.body[2])[4], format!(" {:<20} ", "  +2 more"));
    assert!(texts(&t.body[3])[4].contains("src/a.rs"));
    assert_eq!(texts(&t.body[1])[0], "        ");
}

#[test]
fn the_log_table_adds_churn_and_path_columns() {
    let rows = vec![row("a1", "Ann", "2026-01-02", "rename")];
    let stats = vec![(Some(12), Some(3))];
    let paths = vec![strings(&["src/new.rs", "src/old.rs"])];
    let none: Vec<Vec<String>> = Vec::new();
    let t = commit_table(
        &rows, &[], &[], &[], &none, &none, &none, &none, None, Some(&stats), Some(&paths), false, &Vec::new(),
        false, None, Wrap::Lines(1), None, Some(BranchWidth::Full), Some(PathWidth::Cols(6)), &Highlight::default(),
    );
    assert_eq!(texts(&t.header)[3], format!(" {:<6} ", "±"));
    assert_eq!(texts(&t.header)[4], format!(" {:<6} ", "path"));
    assert_eq!(texts(&t.body[0])[3], " +12 -3 ");
    assert_eq!(texts(&t.body[0])[4], " src/n… ");
    assert_eq!(t.body.len(), 2);
    assert_eq!(texts(&t.body[1])[5], format!(" {:<10} ", "  src/old…"));
}

#[test]
fn renderers_draw_the_legend_and_the_table() {
    let rows = vec![row("a1", "Ann", "2026-01-02", "fix the pipe")];
    let names = strings(&["main"]);
    let sets = vec![strings(&["a1full"])];
    let none: Vec<Vec<String>> = vec![Vec::new()];
    let (legend, text) = render_commits(
        &rows, &[], &[], &names, &sets, &none, &none, &none, None, false, false, None, Wrap::Lines(1), None,
        None, &Highlight::default(),
    );
    assert_eq!(legend.as_deref(), Some("✓ has commit   · neither"));
    assert!(text.contains("fix the pipe"));
    assert!(text.contains("commit"));
    let (legend, text) = render_log(
        &rows, &[(Some(1), Some(0))], None, &[], &[], &[], &[], &[], &[], &[], None, false, None,
        Wrap::Lines(1), None, None, None, &Highlight::default(),
    );
    assert_eq!(legend, None);
    assert!(text.contains("+1 -0"));
}
