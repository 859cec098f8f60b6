use git_wt::commits::args::{
    iso_date, parse_branchw, parse_date_filter, parse_limit, parse_pathw, parse_subjectw,
    parse_wrap, DateFilter, DateOp, SubjectWidth, Wrap,
};

#[test]
fn iso_date_rejects_days_the_month_does_not_have() {
    assert!(iso_date("2026-02-31").is_err());
    assert!(iso_date("2026-04-31").is_err());
    assert!(iso_date("2026-02-29").is_err(), "2026 is not a leap year");
    assert!(iso_date("2026-13-01").is_err());
    assert!(iso_date("2026-01-00").is_err());

    assert!(iso_date("2026-01-31").is_ok());
    assert!(iso_date("2026-04-30").is_ok());
    assert!(iso_date("2026-02-28").is_ok());
    assert!(iso_date("2024-02-29").is_ok());
    assert!(iso_date("2000-02-29").is_ok());
    assert!(iso_date("1900-02-29").is_err());
}

#[test]
fn date_takes_one_day_and_no_operator() {
    let f = |s: &str| parse_date_filter(s).unwrap();
    assert_eq!(f("2026-01-01"), DateFilter { op: DateOp::Eq, date: "2026-01-01".into() });
    for given in [">=2026-01-01", ">2026-01-01", "=2026-01-01", "<=2026-01-01", "<2026-01-01"] {
        let err = parse_date_filter(given).unwrap_err();
        assert!(err.contains("in --date"), "{given}: {err}");
        assert!(err.contains("2026-01-01"), "{given}: {err}");
    }
    assert!(parse_date_filter("2026-1-1").unwrap_err().contains("want YYYY-MM-DD"));
    assert!(parse_date_filter("").unwrap_err().contains("a date is missing"));
}

#[test]
fn args_date_filters_compare_iso_dates_as_text() {
    let admits = |op: DateOp, d: &str, key: &str| DateFilter { op, date: d.into() }.admits(key);
    assert!(admits(DateOp::Ge, "2026-03-01", "2026-03-01"));
    assert!(admits(DateOp::Le, "2026-03-01", "2026-03-01"));
    assert!(!admits(DateOp::Ge, "2026-03-02", "2026-03-01"));
    assert!(admits(DateOp::Ge, "2026-01-01", "2026-10-01"));
}

#[test]
fn parse_limit_rejects_zero_and_non_numbers() {
    assert_eq!(parse_limit("20").unwrap(), 20);
    assert!(parse_limit("0").unwrap_err().contains("show nothing"));
    assert!(parse_limit("x").unwrap_err().contains("bad count 'x'"));
}

#[test]
fn widths_enforce_their_floor() {
    assert!(parse_subjectw("8").unwrap_err().contains("columns or more"));
    assert_eq!(parse_subjectw("full").unwrap(), SubjectWidth::Full);
    assert!(parse_branchw("8").unwrap_err().contains("columns or more"));
    assert!(parse_pathw("4").unwrap_err().contains("columns or more"));
    assert!(parse_wrap("0").unwrap_err().contains("1 or more"));
    assert_eq!(parse_wrap("full").unwrap(), Wrap::Full);
}
