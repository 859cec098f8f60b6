use git_wt::diff::{
    keep_only, live_candidates, live_contents, live_diff, live_files, no_index_diff, only_note, parse_hunk_header,
    parse_patch_into, parse_range, path_matches, ref_diff, split_patch, status_paint, summary,
    FileDiff, PathProbe,
};

fn hunk(line: &str) -> (usize, &'static str, usize) {
    let h = parse_hunk_header(line).expect("header should parse");
    (h.line, h.kind, h.count)
}

fn blank(path: &str) -> FileDiff {
    FileDiff { path: path.into(), status: 'M', plus: 0, minus: 0, binary: false, hunks: Vec::new() }
}

#[test]
fn omitted_hunk_count_means_one() {
    assert_eq!(hunk("@@ -119 +119 @@"), (119, "modified", 1));
    assert_eq!(parse_range("-119"), Some((119, 1)));
    assert_eq!(parse_range("+42,7"), Some((42, 7)));
}

#[test]
fn zero_hunk_count_is_not_an_edit() {
    assert_eq!(hunk("@@ -0,0 +290,2 @@"), (290, "added", 2));
    assert_eq!(hunk("@@ -5,3 +4,0 @@"), (4, "deleted", 3));
    assert_eq!(hunk("@@ -119,3 +119,5 @@ fn x() {"), (119, "modified", 5));
}

#[test]
fn patch_counts_skip_the_file_headers() {
    let patch = "diff --git a/x b/x\n--- a/x\n+++ b/x\n@@ -1 +1,2 @@\n-old\n+new\n+extra\n";
    let mut fd = blank("x");
    parse_patch_into(patch, &mut fd);
    assert_eq!((fd.plus, fd.minus), (2, 1));
    assert_eq!(fd.hunks.len(), 1);
}

#[test]
fn patch_splits_by_file_and_reads_status_from_dev_null() {
    let patch = "\
diff --git a/add.txt b/add.txt
--- /dev/null
+++ b/add.txt
@@ -0,0 +1 @@
+hi
diff --git a/gone.txt b/gone.txt
--- a/gone.txt
+++ /dev/null
@@ -1 +0,0 @@
-bye
";
    let files = split_patch(patch);
    assert_eq!(files.len(), 2);
    assert_eq!((files[0].path.as_str(), files[0].status), ("add.txt", 'A'));
    assert_eq!((files[0].plus, files[0].minus), (1, 0));
    assert_eq!((files[1].path.as_str(), files[1].status), ("gone.txt", 'D'));
    assert_eq!((files[1].plus, files[1].minus), (0, 1));
}

#[test]
fn binary_patch_reports_no_counts() {
    let mut fd = blank("i.png");
    parse_patch_into("Binary files a/i.png and b/i.png differ\n", &mut fd);
    assert!(fd.binary);
    assert_eq!((fd.plus, fd.minus), (0, 0));
}

#[test]
fn summary_matches_gits_phrasing() {
    let f = |p, m| FileDiff { plus: p, minus: m, ..blank("x") };
    assert_eq!(
        summary(&[f(90, 10), f(345, 38), f(73, 4)]),
        "3 files changed, 508 insertions(+), 52 deletions(-)"
    );
    assert_eq!(summary(&[f(1, 1)]), "1 file changed, 1 insertion(+), 1 deletion(-)");
    assert_eq!(summary(&[f(0, 2)]), "1 file changed, 2 deletions(-)");
}

#[test]
fn a_range_diff_reads_every_file_of_the_patch() {
    let patch = "diff --git a/m.rs b/m.rs\n--- a/m.rs\n+++ b/m.rs\n@@ -3,2 +3,3 @@\n-a\n+b\n+c\n";
    let files = ref_diff(patch);
    assert_eq!(files.len(), 1);
    assert_eq!((files[0].path.as_str(), files[0].status), ("m.rs", 'M'));
    assert_eq!((files[0].plus, files[0].minus), (2, 1));
    assert_eq!(files[0].hunks[0].line, 3);
    assert!(split_patch("no header here\n+x\n").is_empty());
}

#[test]
fn keep_only_and_the_only_note() {
    let files = vec![
        FileDiff { status: 'A', ..blank("a") },
        FileDiff { status: 'D', ..blank("d") },
        blank("m"),
    ];
    let kept = keep_only(files, Some('D'));
    assert_eq!(kept.len(), 1);
    assert_eq!(kept[0].path, "d");
    assert_eq!(keep_only(vec![blank("m")], None).len(), 1);
    assert_eq!(only_note(&Some("feature".to_string())), "   only in feature");
    assert_eq!(only_note(&None), "");
    assert_eq!(status_paint('A'), "32");
    assert_eq!(status_paint('D'), "31");
    assert_eq!(status_paint('M'), "33");
}

#[test]
fn live_side_status_and_listing() {
    assert_eq!(live_files("a.rs\0b/c.rs\0\0"), ["a.rs", "b/c.rs"]);
    let probe = |p: &str, a: bool, b: bool, same: bool| PathProbe {
        path: p.into(),
        in_a: a,
        in_b: b,
        same_bytes: same,
    };
    let probes = vec![
        probe("new", false, true, false),
        probe("gone", true, false, false),
        probe("same", true, true, true),
        probe("edit", true, true, false),
        probe("ghost", false, false, false),
    ];
    let got: Vec<(String, char)> =
        live_diff(&probes, None).into_iter().map(|f| (f.path, f.status)).collect();
    assert_eq!(
        got,
        [("new".to_string(), 'A'), ("gone".to_string(), 'D'), ("edit".to_string(), 'M')]
    );
    assert_eq!(live_diff(&probes, Some('A')).len(), 1);
}

#[test]
fn no_index_exit_codes_and_path_matching() {
    assert_eq!(no_index_diff(Some(1), "patch", "", "x"), Ok("patch".to_string()));
    assert_eq!(no_index_diff(Some(0), "", "", "x"), Ok(String::new()));
    assert_eq!(
        no_index_diff(Some(2), "", " boom \n", "x"),
        Err("git diff --no-index failed on 'x': boom".to_string())
    );
    assert!(path_matches(&[None, Some("a.rs\0".into())], true, &[]));
    assert!(!path_matches(&[Some("".into())], true, &[Some("a.rs\n".into())]));
    assert!(path_matches(&[Some("".into())], false, &[Some("a.rs\n".into())]));
    assert!(!path_matches(&[Some("".into())], false, &[Some("\n".into()), None]));
}

#[test]
fn live_candidates_are_the_sorted_union_of_both_listings() {
    let got = live_candidates("b.rs\0a.rs\0\0", "c.rs\0a.rs\0");
    assert_eq!(got, ["a.rs", "b.rs", "c.rs"]);
}

#[test]
fn live_contents_count_each_patch_and_stop_at_a_failed_one() {
    let patch = "diff --git a/x b/x\n@@ -1,0 +2,2 @@\n+a\n+b\n".to_string();
    let got = live_contents(vec![blank("x")], &[Ok(patch.clone())]).unwrap();
    assert_eq!((got[0].plus, got[0].minus), (2, 0));
    let err = live_contents(vec![blank("x"), blank("y")], &[Ok(patch), Err("boom".to_string())]);
    assert_eq!(err.unwrap_err(), "boom");
}
