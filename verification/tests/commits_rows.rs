use git_wt::commits::args::{DateFmt, Order};
use git_wt::commits::files::{
    commit_files, consolidate_file_stats, file_stat_lines, first_parent_or_empty,
    parse_numstat_z, path_row_stat, sort_file_stats, FileStat, EMPTY_TREE,
};
use git_wt::commits::rows::{
    author_fingerprints, author_match_sets, body_hits, cherry_trailer_source, commit_day,
    commit_of, commit_rows, commit_rows_args, divergent_set, equivalents, escape_pathspec,
    icase_pathspec, merge_base, parse_patch_ids, path_shas, pick_ids, ref_shas, trailer_sets,
    window_to_divergent, picks_from_base, prints_from_base, trailers_from_base, Mark, BODY_HITS_MAX,
};

fn fs(st: char, p: &str, a: Option<usize>, r: Option<usize>) -> FileStat {
    FileStat { status: st, path: p.into(), added: a, removed: r }
}

#[test]
fn numstat_z_reads_renames_as_separate_old_and_new_paths() {
    let out = "0\t0\t\0src/deep/old.rs\0src/deep/new.rs\0\
               3\t1\tplain.rs\0\
               -\t-\tlogo.png\0";
    let got = parse_numstat_z(out);

    assert_eq!(got.len(), 3);
    assert_eq!(got[0].path, "src/deep/new.rs");
    assert_eq!(got[0].old_path.as_deref(), Some("src/deep/old.rs"));
    assert_eq!((got[0].added, got[0].removed), (Some(0), Some(0)));
    assert_eq!(got[1].path, "plain.rs");
    assert_eq!(got[1].old_path, None);
    assert_eq!((got[1].added, got[1].removed), (Some(3), Some(1)));
    assert_eq!(got[2].path, "logo.png");
    assert_eq!((got[2].added, got[2].removed), (None, None));
}

#[test]
fn body_hits_keeps_only_the_lines_that_matched() {
    let body = "fixes ISSUE-42 in the parser\n\nunrelated paragraph\n  ISSUE-42 again  \n";
    let (lines, extra) = body_hits(body, "issue-42");
    assert_eq!(lines, ["fixes ISSUE-42 in the parser", "ISSUE-42 again"]);
    assert_eq!(extra, 0);
    assert!(!lines.iter().any(|l| l.contains("unrelated")));
    assert_eq!(body_hits(body, "zzz"), (Vec::new(), 0));
    assert_eq!(body_hits("", "x"), (Vec::new(), 0));
}

#[test]
fn body_hits_caps_a_verbose_commit() {
    let body = (1..=7).map(|i| format!("line {i} has term")).collect::<Vec<_>>().join("\n");
    let (lines, extra) = body_hits(&body, "term");
    assert_eq!(lines.len(), BODY_HITS_MAX);
    assert_eq!(extra, 7 - BODY_HITS_MAX);
    assert_eq!(lines[0], "line 1 has term");
}

#[test]
fn a_pathspec_term_is_a_substring_not_a_glob() {
    assert_eq!(escape_pathspec("render.rs"), "render.rs");
    assert_eq!(escape_pathspec("a[0]"), "a\\[0]");
    assert_eq!(escape_pathspec("*.rs"), "\\*.rs");
    assert_eq!(escape_pathspec("a?b"), "a\\?b");
    assert_eq!(escape_pathspec("a\\b"), "a\\\\b");
}

#[test]
fn a_block_groups_by_status_then_path() {
    let mut files: Vec<FileStat> = [
        "M docs/base.txt",
        "A src/cli.rs",
        "M src/main.rs",
        "A src/ui.rs",
        "D old.rs",
        "? new.txt",
        "R moved.rs",
    ]
    .iter()
    .map(|s| {
        let (st, path) = s.split_once(' ').unwrap();
        FileStat {
            status: st.chars().next().unwrap(),
            path: path.into(),
            added: Some(1),
            removed: Some(0),
        }
    })
    .collect();
    sort_file_stats(&mut files);
    let got: Vec<String> = files.iter().map(|f| format!("{} {}", f.status, f.path)).collect();
    assert_eq!(
        got,
        vec![
            "A src/cli.rs",
            "A src/ui.rs",
            "M docs/base.txt",
            "M src/main.rs",
            "R moved.rs",
            "D old.rs",
            "? new.txt",
        ]
    );
}

#[test]
fn file_stat_lines_pads_paths_and_counts() {
    let files = vec![
        FileStat { status: 'M', path: "a.rs".into(), added: Some(4), removed: Some(1) },
        FileStat { status: 'A', path: "long/name.rs".into(), added: Some(11), removed: Some(0) },
        FileStat { status: 'M', path: "logo.png".into(), added: None, removed: None },
    ];
    assert_eq!(
        file_stat_lines(&files),
        vec![
            "\tM  a.rs           +4  -1".to_string(),
            "\tA  long/name.rs  +11  -0".to_string(),
            "\tM  logo.png        -   -".to_string(),
        ]
    );
}

#[test]
fn consolidate_sums_churn_and_takes_the_earliest_status() {
    let row_files = vec![
        vec![fs('M', "a.rs", Some(2), Some(1)), fs('M', "logo.png", None, None)],
        vec![fs('M', "a.rs", Some(3), Some(0)), fs('A', "b.rs", Some(9), Some(0))],
        vec![fs('A', "a.rs", Some(5), Some(0)), fs('M', "logo.png", Some(4), Some(4))],
    ];
    let got = consolidate_file_stats(&row_files);

    let by = |p: &str| got.iter().find(|f| f.path == p).unwrap();
    assert_eq!((by("a.rs").added, by("a.rs").removed), (Some(10), Some(1)));
    assert_eq!(by("a.rs").status, 'A', "the add outranks the later modifies");
    assert_eq!((by("b.rs").added, by("b.rs").removed), (Some(9), Some(0)));
    assert_eq!((by("logo.png").added, by("logo.png").removed), (None, None));

    assert_eq!(got.len(), 3);
    let order: Vec<&str> = got.iter().map(|f| f.path.as_str()).collect();
    assert_eq!(order, ["a.rs", "b.rs", "logo.png"], "A's before the M");

    assert!(consolidate_file_stats(&[]).is_empty());
    assert!(consolidate_file_stats(&[vec![]]).is_empty());
}

#[test]
fn rows_containment_beats_equivalence_in_a_mark() {
    let has = vec!["a".to_string()];
    let equiv = vec!["a".to_string(), "b".to_string()];
    let trailer = vec!["c".to_string()];
    let author = vec!["d".to_string()];
    assert_eq!(Mark::of("a", &has, &equiv, &trailer, &author), Mark::Has);
    assert_eq!(Mark::of("b", &has, &equiv, &trailer, &author), Mark::Equivalent);
    assert_eq!(Mark::of("c", &has, &equiv, &trailer, &author), Mark::Trailer);
    assert_eq!(Mark::of("d", &has, &equiv, &trailer, &author), Mark::AuthorMatch);
    assert_eq!(Mark::of("e", &has, &equiv, &trailer, &author), Mark::Missing);
    assert_eq!(Mark::Has.glyph(), "✓");
    assert_eq!(Mark::Equivalent.glyph(), "≈");
    assert_eq!(Mark::Trailer.glyph(), "←");
    assert_eq!(Mark::AuthorMatch.glyph(), "~");
    assert_eq!(Mark::Missing.glyph(), "·");
}

#[test]
fn cherry_trailer_source_finds_the_last_marker() {
    assert_eq!(
        cherry_trailer_source("some body\n\n(cherry picked from commit abc123)").as_deref(),
        Some("abc123")
    );
    assert_eq!(
        cherry_trailer_source(
            "discussed (cherry picked from commit old)\n\n(cherry picked from commit new)"
        )
        .as_deref(),
        Some("new")
    );
    assert!(cherry_trailer_source("plain body").is_none());
    assert!(cherry_trailer_source("body without a closing paren (cherry picked from commit abc123")
        .is_none());
}

#[test]
fn a_commit_block_keys_status_on_the_new_name_and_sorts() {
    let status = "M\tsrc/main.rs\nR100\tsrc/deep/old.rs\tsrc/deep/new.rs\nA\tREADME.md\n";
    let numstat = "2\t1\tsrc/main.rs\0\
                   0\t0\t\0src/deep/old.rs\0src/deep/new.rs\0\
                   5\t0\tREADME.md\0";
    let got = commit_files(status, numstat);
    let lines: Vec<String> = got
        .iter()
        .map(|f| format!("{} {} {:?} {:?}", f.status, f.path, f.added, f.removed))
        .collect();
    assert_eq!(
        lines,
        vec![
            "A README.md Some(5) Some(0)",
            "M src/main.rs Some(2) Some(1)",
            "R src/deep/old.rs => src/deep/new.rs Some(0) Some(0)",
        ]
    );
}

#[test]
fn first_parent_falls_back_to_the_empty_tree() {
    assert_eq!(first_parent_or_empty("abc def ghi\n"), "def");
    assert_eq!(first_parent_or_empty("abc\n"), EMPTY_TREE);
    assert_eq!(first_parent_or_empty(""), EMPTY_TREE);
}

#[test]
fn path_row_stat_sums_and_goes_binary() {
    let (a, r, names) = path_row_stat("3\t1\ta.rs\0\x32\t2\tb.rs\0");
    assert_eq!((a, r), (Some(5), Some(3)));
    assert_eq!(names, ["a.rs", "b.rs"]);
    let (a, r, _) = path_row_stat("3\t1\ta.rs\0-\t-\tlogo.png\0");
    assert_eq!((a, r), (None, None));
    let (a, r, names) = path_row_stat("");
    assert_eq!((a, r), (None, None));
    assert!(names.is_empty());
}

#[test]
fn commit_rows_reads_records_and_keeps_body_tabs() {
    let out = "abc\tAnn\t2026-01-02\t2026-01-02\tab\t100\tann@x\t2026-01-02T00:00:00+00:00\tfix it\tbody\twith tab\0\n\
               def\tBob\t2026-01-01\t2026-01-01\tde\t50\tbob@x\t2026-01-01T00:00:00+00:00\tstart\0\n\
               short\trecord\0";
    let rows = commit_rows(out);
    assert_eq!(rows.len(), 2);
    assert_eq!(rows[0].sha, "abc");
    assert_eq!(rows[0].short, "ab");
    assert_eq!(rows[0].text, "fix it");
    assert_eq!(rows[0].body, "body\twith tab");
    assert_eq!(rows[1].author, "Bob");
    assert_eq!(rows[1].stamp, "50");
    assert_eq!(rows[1].body, "");
}

#[test]
fn commit_rows_args_put_the_pathspec_last() {
    let refs = vec!["main".to_string(), "topic".to_string()];
    let paths = vec!["src/a.rs".to_string()];
    let args = commit_rows_args(
        &refs,
        Some("base"),
        Some(20),
        Order::Topo,
        DateFmt { human: false, time: false },
        false,
        false,
        &paths,
        true,
    );
    assert_eq!(
        args,
        vec![
            "log",
            "--topo-order",
            "--date=format:%Y-%m-%d",
            "--format=%H%x09%aN%x09%ad%x09%as%x09%h%x09%at%x09%ae%x09%aI%x09%s%x00",
            "--follow",
            "--full-history",
            "--diff-merges=first-parent",
            "-n20",
            "main",
            "topic",
            "--not",
            "base",
            "--",
            "src/a.rs",
        ]
    );
    let plain = commit_rows_args(
        &refs,
        None,
        None,
        Order::Date,
        DateFmt { human: false, time: false },
        true,
        true,
        &[],
        false,
    );
    assert_eq!(plain[1], "--author-date-order");
    assert!(plain[3].ends_with("%s%x09%b%x00"));
    assert_eq!(plain[4], "--no-merges");
    assert_eq!(plain.len(), 7);
}

#[test]
fn window_keeps_rows_no_older_than_the_oldest_divergent() {
    let row = |sha: &str, stamp: &str| {
        let out = format!("{sha}\ta\td\tk\ts\t{stamp}\te\ti\tt\0");
        commit_rows(&out).pop().unwrap()
    };
    let rows = vec![row("c", "30"), row("b", "20"), row("shared", "15"), row("a", "10")];
    let kept = window_to_divergent(rows, &["b".to_string()]);
    let shas: Vec<&str> = kept.iter().map(|r| r.sha.as_str()).collect();
    assert_eq!(shas, ["c", "b"]);
    let none = window_to_divergent(vec![row("c", "30")], &["x".to_string()]);
    assert!(none.is_empty());
}

#[test]
fn commit_naming_reports_the_flag_and_the_blank_day() {
    assert_eq!(commit_of(Some("abc\n"), "main", "--since"), Ok("abc".to_string()));
    assert_eq!(commit_of(None, "nope", "--since"), Err("--since: no commit 'nope'".to_string()));
    assert_eq!(commit_of(Some("  \n"), "x", "--until"), Err("--until: no commit 'x'".to_string()));
    assert_eq!(commit_day("2026-01-31\n", "abc"), Ok("2026-01-31".to_string()));
    assert_eq!(commit_day("\n", "abc"), Err("no author date for commit 'abc'".to_string()));
}

#[test]
fn sets_read_from_git_listings() {
    assert_eq!(ref_shas("a\nb\n"), ["a", "b"]);
    assert_eq!(divergent_set(&["a\nb\n".to_string(), "c\n".to_string()]), ["a", "b", "c"]);
    assert_eq!(path_shas("\0abc\nsrc/x.rs\n\n\0def\n\0"), ["abc"]);
    assert_eq!(icase_pathspec("a*b"), ":(icase)*a\\*b*");
    assert_eq!(merge_base(&["a".to_string()], Some("base\n")), None);
    assert_eq!(merge_base(&["a".to_string(), "b".to_string()], Some("base\n")), Some("base".into()));
    assert_eq!(merge_base(&["a".to_string(), "b".to_string()], Some("\n")), None);
}

#[test]
fn equivalents_skip_a_ref_against_itself() {
    let refs = vec!["main".to_string(), "topic".to_string()];
    let cherry = vec![
        vec![Some("- aaa\n".to_string()), Some("- bbb\n+ ccc\n".to_string())],
        vec![None, Some("- zzz\n".to_string())],
    ];
    let got = equivalents(&refs, &cherry);
    assert_eq!(got[0], ["bbb"]);
    assert!(got[1].is_empty());
}

#[test]
fn picks_name_the_first_other_sha_with_the_same_patch() {
    let pairs = parse_patch_ids("p1 a\np2 b\np1 c\nnospace\n");
    assert_eq!(pairs.len(), 3);
    let picks = pick_ids(&pairs);
    let got: Vec<(String, String)> = picks.into_iter().map(|p| (p.sha, p.other)).collect();
    assert_eq!(got, [("a".to_string(), "c".to_string()), ("c".to_string(), "a".to_string())]);
}

#[test]
fn trailers_and_fingerprints_per_column() {
    let logs = vec![
        Some("x1\tbody\n(cherry picked from commit src1)\0\nx2\tplain\0".to_string()),
        None,
    ];
    let sets = trailer_sets(&logs);
    assert_eq!(sets[0], ["src1"]);
    assert!(sets[1].is_empty());

    let prints = author_fingerprints(&[Some("p1\tann@x\t2026-01-02T00:00:00+00:00\tfix it\0".to_string())]);
    assert_eq!(prints[0].len(), 1);
    let out = "abc\tAnn\t2026-01-02\t2026-01-02\tab\t100\tann@x\t2026-01-02T00:00:00+00:00\tfix it\0";
    let rows = commit_rows(out);
    let matched = author_match_sets(&prints, &rows);
    assert_eq!(matched[0], ["abc"]);
    let same_sha = author_fingerprints(&[Some("abc\tann@x\t2026-01-02T00:00:00+00:00\tfix it\0".to_string())]);
    assert!(author_match_sets(&same_sha, &rows)[0].is_empty());
}

#[test]
fn window_keeps_the_same_rows_in_any_order() {
    let row = |sha: &str, stamp: &str| {
        let out = format!("{sha}\ta\td\tk\ts\t{stamp}\te\ti\tt\0");
        commit_rows(&out).pop().unwrap()
    };
    let div = ["b".to_string(), "d".to_string()];
    let one = vec![row("c", "30"), row("b", "20"), row("d", "25"), row("shared", "15"), row("a", "10")];
    let two = vec![row("a", "10"), row("d", "25"), row("shared", "15"), row("b", "20"), row("c", "30")];
    let mut x: Vec<String> = window_to_divergent(one, &div).iter().map(|r| r.sha.clone()).collect();
    let mut y: Vec<String> = window_to_divergent(two, &div).iter().map(|r| r.sha.clone()).collect();
    x.sort();
    y.sort();
    assert_eq!(x, ["b", "c", "d"]);
    assert_eq!(x, y);
}

#[test]
fn without_a_merge_base_nothing_is_walked_or_paired() {
    let walk = Some("p1 a\np2 b\np1 c\n");
    assert!(picks_from_base(&None, walk).is_empty());
    let got: Vec<(String, String)> =
        picks_from_base(&Some("base".to_string()), walk).into_iter().map(|p| (p.sha, p.other)).collect();
    assert_eq!(got, [("a".to_string(), "c".to_string()), ("c".to_string(), "a".to_string())]);
    assert!(picks_from_base(&Some("base".to_string()), None).is_empty());

    let logs = vec![Some("x1\tbody\n(cherry picked from commit src1)\0".to_string()), None];
    let none = trailers_from_base(&None, 2, &logs);
    assert_eq!(none.len(), 2);
    assert!(none.iter().all(|s| s.is_empty()));
    let some = trailers_from_base(&Some("base".to_string()), 2, &logs);
    assert_eq!(some[0], ["src1"]);
    assert!(some[1].is_empty());

    let prints = vec![Some("p1\tann@x\t2026-01-02T00:00:00+00:00\tfix it\0".to_string())];
    let none = prints_from_base(&None, 1, &prints);
    assert_eq!(none.len(), 1);
    assert!(none[0].is_empty());
    assert_eq!(prints_from_base(&Some("base".to_string()), 1, &prints)[0].len(), 1);
}

#[test]
fn file_block_sort_is_stable_for_the_same_status_and_path() {
    let mut v = vec![
        fs('M', "b.rs", Some(1), Some(0)),
        fs('M', "a.rs", Some(2), Some(0)),
        fs('M', "b.rs", Some(3), Some(0)),
        fs('A', "z.rs", Some(4), Some(0)),
    ];
    sort_file_stats(&mut v);
    let got: Vec<(char, &str, Option<usize>)> = v.iter().map(|f| (f.status, f.path.as_str(), f.added)).collect();
    assert_eq!(got[1..], [('M', "a.rs", Some(2)), ('M', "b.rs", Some(1)), ('M', "b.rs", Some(3))]);
    assert_eq!(got.len(), 4);
}
