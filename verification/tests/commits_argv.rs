use git_wt::commits::args::{DateFilter, DateFmt, DateOp, SubjectWidth, Wrap};
use git_wt::commits::argv::{
    iso_date, parse_commits_args, parse_date_filter, parse_subjectw, parse_wrap, strict_msg,
    CommitsArgs, Mark,
};

fn parse(args: &[&str]) -> Result<CommitsArgs, String> {
    let v: Vec<String> = args.iter().map(|s| s.to_string()).collect();
    parse_commits_args(&v)
}

#[test]
fn commits_args_take_a_limit_and_all() {
    let a = parse(&[]).unwrap();
    assert_eq!(a.limit, None);
    assert!(!a.union);
    assert!(!a.all);

    assert_eq!(parse(&["-n", "20"]).unwrap().limit, Some(20));
    assert_eq!(parse(&["--limit", "20"]).unwrap().limit, Some(20));
    assert_eq!(parse(&["--limit=5"]).unwrap().limit, Some(5));
    assert!(parse(&["--union"]).unwrap().union);
    assert!(parse(&["--any"]).unwrap().union);
    assert!(parse(&["--all"]).unwrap().all);
    assert!(parse(&["--all", "--union"]).unwrap_err().contains("--union"));

    assert!(parse(&["-n", "0"]).unwrap_err().contains("show nothing"));
    assert!(parse(&["-n", "x"]).unwrap_err().contains("bad count 'x'"));
    assert!(parse(&["-n"]).unwrap_err().contains("needs a count"));
    assert!(parse(&["--stat"]).unwrap_err().contains("unexpected argument"));

    assert!(!parse(&[]).unwrap().pick);
    assert!(parse(&["--pick-id"]).unwrap().pick);
    assert!(parse(&["--pick-id", "--no-cherry"]).unwrap_err().contains("drop one of them"));

    assert!(!parse(&[]).unwrap().files);
    assert!(parse(&["--files"]).unwrap().files);
}

#[test]
fn date_filters_parse_every_comparison() {
    let f = |s: &str| parse_date_filter(s).unwrap();
    assert_eq!(f(">=2026-01-01"), DateFilter { op: DateOp::Ge, date: "2026-01-01".into() });
    assert_eq!(f("<=2026-01-01"), DateFilter { op: DateOp::Le, date: "2026-01-01".into() });
    assert_eq!(f("=2026-01-01"), DateFilter { op: DateOp::Eq, date: "2026-01-01".into() });
    assert_eq!(f("2026-01-01"), DateFilter { op: DateOp::Eq, date: "2026-01-01".into() });

    assert!(parse_date_filter(">2026-01-01").unwrap_err().contains("use '>='"));
    assert!(parse_date_filter("<2026-01-01").unwrap_err().contains("use '<='"));

    assert!(parse_date_filter(">=2026-1-1").unwrap_err().contains("want YYYY-MM-DD"));
    assert!(parse_date_filter(">=2026-01").unwrap_err().contains("want YYYY-MM-DD"));
    assert!(parse_date_filter("2026-13-01").unwrap_err().contains("no such date"));
    assert!(parse_date_filter("2026-01-32").unwrap_err().contains("no such date"));
    assert!(parse_date_filter(">=").unwrap_err().contains("redirect"));
}

#[test]
fn commits_date_filters_compare_iso_dates_as_text() {
    let admits = |s: &str, key: &str| parse_date_filter(s).unwrap().admits(key);
    assert!(admits(">=2026-03-01", "2026-03-01"));
    assert!(admits("<=2026-03-01", "2026-03-01"));
    assert!(!admits(">=2026-03-02", "2026-03-01"));
    assert!(!admits("<=2026-02-28", "2026-03-01"));
    assert!(admits(">=2026-01-01", "2026-10-01"));
    assert!(admits("<=2026-12-31", "2026-12-31"));
    assert!(!admits(">=2026-01-01", "2025-12-31"));
}

#[test]
fn commits_args_take_the_filters() {
    let a = parse(&["--date", ">=2026-01-01", "--date", "<=2026-06-01"]).unwrap();
    assert_eq!(a.dates.len(), 2);
    assert_eq!(a.dates[0].op, DateOp::Ge);
    assert_eq!(a.dates[1].op, DateOp::Le);

    let a = parse(&["--from-date", "2026-01-01", "--to-date=2026-06-01"]).unwrap();
    assert_eq!(a.dates[0], DateFilter { op: DateOp::Ge, date: "2026-01-01".into() });
    assert_eq!(a.dates[1], DateFilter { op: DateOp::Le, date: "2026-06-01".into() });

    let a = parse(&["--from-id", "abc123", "--to-id=def456"]).unwrap();
    assert_eq!(a.from.as_deref(), Some("abc123"));
    assert_eq!(a.to.as_deref(), Some("def456"));
    assert_eq!(parse(&["--author=nino"]).unwrap().author.as_deref(), Some("nino"));
    assert!(!parse(&[]).unwrap().topo);
    assert!(parse(&["--topo"]).unwrap().topo);
    assert!(parse(&["--topo-order"]).unwrap().topo);
    assert!(!parse(&[]).unwrap().no_merges);
    assert!(parse(&["--no-merges"]).unwrap().no_merges);

    assert_eq!(parse(&[]).unwrap().fmt, DateFmt { human: false, time: false });
    assert_eq!(parse(&["--show-time"]).unwrap().fmt.spec(), "%Y-%m-%d %H:%M:%S");
    assert_eq!(parse(&["--date-human"]).unwrap().fmt.spec(), "%b. %-d, %Y");
    assert_eq!(
        parse(&["--date-human", "--show-time"]).unwrap().fmt.spec(),
        "%b. %-d, %Y %H:%M:%S"
    );
    assert!(parse(&["--date-human"]).unwrap().dates.is_empty());

    assert!(!parse(&[]).unwrap().reverse);
    assert!(parse(&["--reverse"]).unwrap().reverse);
    assert!(parse(&["--oldest-first"]).unwrap().reverse);

    assert_eq!(parse(&[]).unwrap().md, None);
    assert_eq!(parse(&["--md"]).unwrap().md, Some(None));
    assert_eq!(parse(&["--md", "out.md"]).unwrap().md, Some(Some("out.md".into())));
    assert_eq!(parse(&["--md=out.md"]).unwrap().md, Some(Some("out.md".into())));
    let a = parse(&["--md", "--topo"]).unwrap();
    assert_eq!(a.md, Some(None), "--topo is a flag, not a filename");
    assert!(a.topo, "--topo must still take effect");

    assert!(parse(&["--from-id"]).unwrap_err().contains("--from-id needs a commit"));
    assert!(parse(&["--from-date", "nope"]).unwrap_err().contains("want YYYY-MM-DD"));
    assert!(parse(&["--from", "x"]).unwrap_err().contains("'--from-id' takes a commit"));
    assert!(parse(&["--since", "2026-01-01"]).unwrap_err().contains("--from-date"));
    assert!(parse(&["--until", "2026-01-01"]).unwrap_err().contains("--to-date"));
}

#[test]
fn wrap_reads_a_count_or_full() {
    assert_eq!(parse(&[]).unwrap().wrap, Wrap::Lines(1));
    assert_eq!(parse(&["--wrap", "2"]).unwrap().wrap, Wrap::Lines(2));
    assert_eq!(parse(&["--wrap=3"]).unwrap().wrap, Wrap::Lines(3));
    assert_eq!(parse(&["-w", "2"]).unwrap().wrap, Wrap::Lines(2));
    assert_eq!(parse(&["--wrap", "full"]).unwrap().wrap, Wrap::Full);
    assert_eq!(parse(&["--wrap=full"]).unwrap().wrap, Wrap::Full);
    assert_eq!(parse(&["--wrap"]).unwrap().wrap, Wrap::Full);
    let a = parse(&["--wrap", "--topo"]).unwrap();
    assert_eq!(a.wrap, Wrap::Full);
    assert!(a.topo, "--topo must still take effect");
    assert!(parse(&["--wrap=0"]).unwrap_err().contains("1 or more"));
    assert!(parse(&["--wrap=two"]).unwrap_err().contains("1 or more"));
}

#[test]
fn subject_width_is_a_width_not_a_filter() {
    assert_eq!(parse(&[]).unwrap().subjectw, None);
    assert_eq!(parse(&["--subject-width", "80"]).unwrap().subjectw, Some(SubjectWidth::Cols(80)));
    assert_eq!(parse(&["--subject-width=80"]).unwrap().subjectw, Some(SubjectWidth::Cols(80)));
    assert_eq!(parse(&["--subjw", "80"]).unwrap().subjectw, Some(SubjectWidth::Cols(80)));
    assert_eq!(parse(&["--subjw=full"]).unwrap().subjectw, Some(SubjectWidth::Full));
    assert!(parse(&["--subject-width"]).unwrap_err().contains("needs a column count"));
    assert!(parse(&["--subjw=wide"]).unwrap_err().contains("needs a column count"));
    assert!(parse(&["--subjw=8"]).unwrap_err().contains("columns or more"));
    assert!(parse(&["--subjw=0"]).unwrap_err().contains("needs a column count"));
    assert!(parse(&["--subject", "fix"]).unwrap_err().contains("--subject-width 80"));
}

#[test]
fn commits_containment_beats_equivalence_in_a_mark() {
    let has = vec!["a".to_string()];
    let equiv = vec!["a".to_string(), "b".to_string()];
    assert_eq!(Mark::of("a", &has, &equiv), Mark::Has);
    assert_eq!(Mark::of("b", &has, &equiv), Mark::Equivalent);
    assert_eq!(Mark::of("c", &has, &equiv), Mark::Missing);
    assert_eq!(Mark::Has.glyph(), "✓");
    assert_eq!(Mark::Equivalent.glyph(), "≈");
    assert_eq!(Mark::Missing.glyph(), "·");
}

#[test]
fn argv_messages_spell_out_the_fix() {
    assert_eq!(
        strict_msg('>', ">=", "--from-date"),
        "no '>' comparison; bounds are inclusive: use '>=' (or --from-date)\nhint: a day either side is '>=' on the next day"
    );
    assert_eq!(
        parse(&["--to"]).unwrap_err(),
        "no '--to' for commits; '--to-id' takes a commit, '--to-date' takes a date"
    );
    assert_eq!(
        parse(&["--stat"]).unwrap_err(),
        "unexpected argument '--stat' for commits\nTry 'git-wt --help'"
    );
    assert_eq!(
        parse_wrap("0").unwrap_err(),
        "--wrap needs a line count of 1 or more, or 'full', e.g. '--wrap 2'\nhint: a bare '--wrap' is 'full'\n  got: '0'"
    );
    assert_eq!(
        parse_subjectw("8").unwrap_err(),
        "--subject-width needs 10 columns or more: below that, a cut subject says nothing\nhint: 'commits | grep' and '--md' never cut, however narrow the terminal\n  got: '8'"
    );
    assert_eq!(iso_date("").unwrap_err(), "--date needs a date after the comparison\nhint: quote the comparison -- --date '>=2026-01-01' -- or the shell reads '>' as a redirect");
    assert_eq!(iso_date("2026-02-31").unwrap(), "2026-02-31");
    assert_eq!(parse(&["--date", " =2026-01-01"]).unwrap_err(), "bad date '=2026-01-01'; want YYYY-MM-DD, e.g. '>=2026-01-01'");
}
