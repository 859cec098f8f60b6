use git_wt::diff::{diff_report, stat_text, FileDiff, Hunk};

fn sample() -> Vec<FileDiff> {
    vec![
        FileDiff {
            path: "src/a.rs".into(),
            status: 'M',
            plus: 3,
            minus: 1,
            binary: false,
            hunks: vec![
                Hunk { line: 12, kind: "modified", count: 3 },
                Hunk { line: 7, kind: "added", count: 1 },
            ],
        },
        FileDiff {
            path: "img.png".into(),
            status: 'A',
            plus: 0,
            minus: 0,
            binary: true,
            hunks: Vec::new(),
        },
    ]
}

#[test]
fn nothing_differs_prints_nothing() {
    assert_eq!(diff_report(&[], "main..feat", None, false, false), None);
    assert_eq!(diff_report(&[], "main..feat", Some("--stat"), false, false), None);
}

#[test]
fn the_full_report_aligns_paths_and_counts() {
    let got = diff_report(&sample(), "main..feat", None, true, false).unwrap();
    assert_eq!(
        got,
        "main..feat\n\n\
         M src/a.rs  +3 −1\n\
         \x20     12  modified 3\n\
         \x20      7  added 1\n\
         A img.png   binary\n\
         \n\
         2 files changed, 3 insertions(+), 1 deletion(-)\n"
    );
    let without_hunks = diff_report(&sample(), "main..feat", None, false, false).unwrap();
    assert!(!without_hunks.contains("modified"));
}

#[test]
fn color_pads_past_the_escape_codes() {
    let got = diff_report(&sample()[..1], "h", None, false, true).unwrap();
    assert!(got.contains("\x1b[33mM\x1b[0m src/a.rs  \x1b[32m+3\x1b[0m \x1b[31m−1\x1b[0m\n"), "{got:?}");
}

#[test]
fn listings_print_paths_or_status_and_path() {
    assert_eq!(
        diff_report(&sample(), "h", Some("--name-only"), false, false).unwrap(),
        "src/a.rs\nimg.png\n"
    );
    assert_eq!(
        diff_report(&sample(), "h", Some("--name-status"), false, false).unwrap(),
        "M\tsrc/a.rs\nA\timg.png\n"
    );
}

#[test]
fn stat_bars_count_one_cell_per_line_when_they_fit() {
    let want = " src/a.rs | 4 +++-\n img.png  | Bin\n2 files changed, 3 insertions(+), 1 deletion(-)\n";
    assert_eq!(stat_text(&sample(), false), want);
    assert_eq!(diff_report(&sample(), "h", Some("--stat"), false, false).unwrap(), want);
}

#[test]
fn stat_bars_scale_to_forty_and_never_drop_a_change() {
    let big = FileDiff { path: "big".into(), status: 'M', plus: 100, minus: 0, binary: false, hunks: Vec::new() };
    let small = FileDiff { path: "s".into(), status: 'M', plus: 1, minus: 0, binary: false, hunks: Vec::new() };
    let got = stat_text(&[big, small], false);
    let lines: Vec<&str> = got.lines().collect();
    assert_eq!(lines[0], format!(" big | 100 {}", "+".repeat(40)));
    assert_eq!(lines[1], " s   |   1 +");
    assert_eq!(lines[2], "2 files changed, 101 insertions(+)");
}
