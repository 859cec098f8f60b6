use git_wt::commits::args::SubjectWidth;
use git_wt::commits::files::FileStat;
use git_wt::commits::render::{
    cell_hue, header_hue, hits, mark_fg, pad_cell, pad_lines, stat_cell, subject_width,
    term_legend, Highlight, Hue,
};
use git_wt::commits::rows::{CommitRow, Mark};

fn row(sha: &str, text: &str) -> CommitRow {
    CommitRow {
        sha: sha.into(),
        short: sha.into(),
        text: text.into(),
        author: "Ann".into(),
        date: "2026-01-02".into(),
        key: "2026-01-02".into(),
        stamp: "0".into(),
        email: String::new(),
        author_iso: String::new(),
        body: String::new(),
    }
}

#[test]
fn hits_checks_search_terms_and_an_extra_needle_case_insensitively() {
    let hl = Highlight {
        search: vec!["EAT".to_string()],
        ..Default::default()
    };
    assert!(hits("feature", &hl, None));
    assert!(hits("anything", &hl, Some("thing")));
    assert!(!hits("nothing here", &hl, Some("")));
}

#[test]
fn hits_ignores_empty_search_terms() {
    let hl = Highlight {
        search: vec![String::new()],
        ..Default::default()
    };
    assert!(!hits("anything", &hl, None));
    assert!(hits("ANYTHING", &hl, Some("thing")));
}

#[test]
fn mark_fg_maps_every_mark() {
    assert_eq!(mark_fg(Mark::Has), Some(Hue::Green));
    assert_eq!(mark_fg(Mark::Equivalent), Some(Hue::Yellow));
    assert_eq!(mark_fg(Mark::Trailer), Some(Hue::Blue));
    assert_eq!(mark_fg(Mark::AuthorMatch), Some(Hue::Magenta));
    assert_eq!(mark_fg(Mark::Missing), None);
}

#[test]
fn a_hit_outranks_the_filter_accent_and_color_off_paints_nothing() {
    assert_eq!(cell_hue(true, true, true, Hue::BrightYellow), Some(Hue::BrightBlue));
    assert_eq!(cell_hue(true, false, true, Hue::BrightYellow), Some(Hue::BrightYellow));
    assert_eq!(cell_hue(true, false, false, Hue::BrightYellow), None);
    assert_eq!(cell_hue(false, true, true, Hue::BrightYellow), None);
}

#[test]
fn header_hues_cycle_through_six() {
    assert_eq!(header_hue(0), Hue::BrightRed);
    assert_eq!(header_hue(5), Hue::BrightYellow);
    assert_eq!(header_hue(6), Hue::BrightRed);
    assert_eq!(header_hue(8), Hue::BrightBlue);
}

#[test]
fn cells_pad_to_their_width_and_never_cut() {
    assert_eq!(pad_cell("ab", 4), " ab   ");
    assert_eq!(pad_cell("abcdef", 4), " abcdef ");
    assert_eq!(pad_cell("日本", 3), " 日本  ");
    assert_eq!(pad_lines(&["a".to_string(), "bc".to_string()], 3), " a   \n bc  ");
    assert_eq!(pad_lines(&[], 3), "");
}

#[test]
fn stat_cell_spells_both_counts() {
    assert_eq!(stat_cell(Some(12), Some(3)), "+12 -3");
    assert_eq!(stat_cell(None, None), "- -");
    assert_eq!(stat_cell(Some(0), None), "+0 -");
}

#[test]
fn legend_names_only_what_the_table_can_carry() {
    let rows = vec![row("aaa", "one")];
    let sets = vec![vec!["aaa".to_string()]];
    let empty = vec![Vec::<String>::new()];
    assert_eq!(
        term_legend(&rows, 1, &sets, &empty, &empty, &empty, false),
        Some("✓ has commit   · neither".to_string())
    );
    let eq = vec![vec!["zzz".to_string()]];
    assert_eq!(
        term_legend(&rows, 1, &empty, &eq, &empty, &empty, false),
        Some("≈ same patch, other sha   · neither".to_string())
    );
    assert_eq!(term_legend(&rows, 1, &empty, &empty, &empty, &empty, false), None);
    assert_eq!(term_legend(&rows, 0, &sets, &eq, &empty, &empty, false), None);
    assert_eq!(
        term_legend(&rows, 1, &sets, &empty, &empty, &empty, true),
        Some("\x1b[32m✓\x1b[0m \x1b[2mhas commit\x1b[0m   \x1b[2m·\x1b[0m \x1b[2mneither\x1b[0m".to_string())
    );
}

#[test]
fn subject_width_follows_the_flag_then_the_terminal_then_the_content() {
    let rows = vec![row("a", "a fairly long subject line"), row("b", "short")];
    assert_eq!(subject_width(&rows, &[], &[], Some(SubjectWidth::Cols(7)), Some(80), 40), 7);
    assert_eq!(subject_width(&rows, &[], &[], Some(SubjectWidth::Full), Some(80), 40), 26);
    assert_eq!(subject_width(&rows, &[], &[], None, Some(80), 40), 40);
    assert_eq!(subject_width(&rows, &[], &[], None, Some(30), 40), 10);
    assert_eq!(subject_width(&rows, &[], &[], None, None, 40), 26);
    let bodies = vec![(vec!["x".repeat(30)], 0usize)];
    assert_eq!(subject_width(&rows, &[], &bodies, None, None, 40), 30);
    let files = vec![vec![FileStat { status: 'M', path: "p".repeat(40), added: Some(1), removed: Some(2) }]];
    assert_eq!(subject_width(&rows, &files, &[], None, None, 0), 52);
    assert_eq!(subject_width(&[], &[], &[], None, None, 0), 10);
}
