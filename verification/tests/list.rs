use git_wt::list::{
    cmd_list_from_args, col_header, last_commit, list_columns, parse_cols, push_pull_text,
    render_row, ListMode, COL_HELP,
};
use git_wt::style::SEARCH_MATCH;
use git_wt::worktree::{classify_status, status_color, status_text, Status};

#[test]
fn list_parse_cols_accepts_status_last_and_merged() {
    assert_eq!(parse_cols("1,4,5").unwrap(), vec![1, 4, 5]);
    assert_eq!(parse_cols("1,2,6").unwrap(), vec![1, 2, 6]);
    assert_eq!(parse_cols("1,7,8").unwrap(), vec![1, 7, 8]);
    assert_eq!(parse_cols("1,9,10").unwrap(), vec![1, 9, 10]);
    assert!(parse_cols("11").is_err());
}

#[test]
fn list_col_header_uses_last_commit_name() {
    assert_eq!(col_header(5), "last-commit");
    assert_eq!(col_header(7), "merged");
    assert_eq!(col_header(8), "merged-at");
    assert_eq!(col_header(9), "push");
    assert_eq!(col_header(10), "pull");
}

#[test]
fn list_render_row_pads_and_tints() {
    let cols = vec![1, 2];
    let row = vec!["1".to_string(), "main".to_string()];
    let widths = vec![1, 7];
    let plain = render_row(&row, &cols, &widths, Status::Clean, false, None, false);
    assert_eq!(plain, "1  main");
    let tinted = render_row(&row, &cols, &widths, Status::Clean, true, None, false);
    assert_eq!(tinted, "1  \x1b[32mmain\x1b[0m");
}

#[test]
fn list_render_row_search_overwrites_the_tint_for_the_match_only() {
    let cols = vec![1, 2];
    let row = vec!["1".to_string(), "main".to_string()];
    let widths = vec![1, 7];
    let hit = render_row(&row, &cols, &widths, Status::Clean, true, Some("ai"), false);
    assert_eq!(
        hit,
        format!("1  \x1b[32mm\x1b[0m\x1b[{SEARCH_MATCH}mai\x1b[0m\x1b[32mn\x1b[0m")
    );
    let no_color = render_row(&row, &cols, &widths, Status::Clean, false, Some("ai"), false);
    assert_eq!(no_color, "1  main");
}

#[test]
fn mod_parse_cols_accepts_status_last_and_merged() {
    assert_eq!(parse_cols("1,4,5").unwrap(), vec![1, 4, 5]);
    assert_eq!(parse_cols("1,2,6").unwrap(), vec![1, 2, 6]);
    assert_eq!(parse_cols("1,7,8").unwrap(), vec![1, 7, 8]);
    assert_eq!(parse_cols("1,9,10").unwrap(), vec![1, 9, 10]);
    assert!(parse_cols("11").is_err());
}

#[test]
fn mod_col_header_uses_last_commit_name() {
    assert_eq!(col_header(5), "last-commit");
    assert_eq!(col_header(7), "merged");
    assert_eq!(col_header(8), "merged-at");
    assert_eq!(col_header(9), "push");
    assert_eq!(col_header(10), "pull");
}

#[test]
fn mod_render_row_pads_and_tints() {
    let cols = vec![1, 2];
    let row = vec!["1".to_string(), "main".to_string()];
    let widths = vec![1, 7];
    let plain = render_row(&row, &cols, &widths, Status::Clean, false, None, false);
    assert_eq!(plain, "1  main");
    let tinted = render_row(&row, &cols, &widths, Status::Clean, true, None, false);
    assert_eq!(tinted, "1  \x1b[32mmain\x1b[0m");
}

#[test]
fn mod_render_row_search_overwrites_the_tint_for_the_match_only() {
    let cols = vec![1, 2];
    let row = vec!["1".to_string(), "main".to_string()];
    let widths = vec![1, 7];
    let hit = render_row(&row, &cols, &widths, Status::Clean, true, Some("ai"), false);
    assert_eq!(
        hit,
        format!("1  \x1b[32mm\x1b[0m\x1b[{SEARCH_MATCH}mai\x1b[0m\x1b[32mn\x1b[0m")
    );
    let no_color = render_row(&row, &cols, &widths, Status::Clean, false, Some("ai"), false);
    assert_eq!(no_color, "1  main");
}

#[test]
fn parse_cols_names_the_bad_part() {
    assert_eq!(parse_cols(" 1 , ,2"), Ok(vec![1, 2]));
    assert_eq!(parse_cols("1,x"), Err(format!("bad column 'x' (use {COL_HELP})")));
    assert_eq!(parse_cols("0"), Err(format!("no column 0 (use {COL_HELP})")));
    assert_eq!(parse_cols(" , "), Err("--col needs columns, e.g. 1,2,3".to_string()));
}

#[test]
fn a_padded_middle_column_and_the_current_branch() {
    let cols = vec![2, 4, 3];
    let row = vec!["main".to_string(), "clean".to_string(), "/w".to_string()];
    let widths = vec![6, 5, 2];
    let line = render_row(&row, &cols, &widths, Status::Dirty, true, None, true);
    assert_eq!(line, "\x1b[34mmain  \x1b[0m  \x1b[33mclean\x1b[0m  /w");
    let unknown = render_row(&row, &cols, &widths, Status::Unknown, true, None, false);
    assert_eq!(unknown, "main    clean  /w");
}

#[test]
fn push_pull_and_last_commit_cells() {
    assert_eq!(push_pull_text(false, Some("0\t3\n")), ("ahead 3".to_string(), "-".to_string()));
    assert_eq!(push_pull_text(false, Some("2\t0\n")), ("-".to_string(), "behind 2".to_string()));
    assert_eq!(push_pull_text(true, Some("2\t1\n")), ("-".to_string(), "-".to_string()));
    assert_eq!(push_pull_text(false, None), ("-".to_string(), "-".to_string()));
    assert_eq!(last_commit(Some("3 days ago\n")), "3 days ago");
    assert_eq!(last_commit(None), "");
}

#[test]
fn columns_follow_the_mode_and_the_terminal() {
    assert_eq!(list_columns(Some(vec![3, 1]), true, ListMode::Long, true, true), vec![3, 1]);
    assert_eq!(list_columns(None, false, ListMode::Short, true, false), vec![1, 2, 4]);
    assert_eq!(list_columns(None, false, ListMode::Normal, false, false), vec![1, 2, 3]);
    assert_eq!(list_columns(None, false, ListMode::Normal, true, false), vec![1, 2, 4, 5, 6, 9, 10]);
    assert_eq!(list_columns(None, true, ListMode::Normal, true, true), vec![1, 2, 3, 4, 5, 7, 8]);
    assert_eq!(cmd_list_from_args(true, true, None), Ok((ListMode::Long, None)));
    assert_eq!(cmd_list_from_args(false, true, Some("2")), Ok((ListMode::Short, Some(vec![2]))));
    assert!(cmd_list_from_args(false, false, Some("99")).is_err());
}

#[test]
fn porcelain_status_and_its_tint() {
    assert_eq!(classify_status(""), Status::Clean);
    assert_eq!(classify_status(" M a\n"), Status::Dirty);
    assert_eq!(classify_status(" M a\n?? b"), Status::Untracked);
    assert_eq!(status_color(Status::Clean), "32");
    assert_eq!(status_color(Status::Unknown), "");
    assert_eq!(status_text(Status::Dirty), "dirty");
}

#[test]
fn list_row_cells_follow_the_chosen_columns() {
    let w = git_wt::worktree::Worktree {
        id: 3,
        path: "/code/app-feat".to_string(),
        branch: Some("feat".to_string()),
        detached: false,
        bare: false,
        locked: None,
        prunable: None,
    };
    let cells = git_wt::list::row_cells(
        &[1, 2, 3, 4, 5, 9, 10, 6, 7, 8],
        3,
        2,
        &w,
        git_wt::worktree::Status::Dirty,
        "2 days ago",
        ("yes", "no", "main"),
        "1",
        "0",
    );
    assert_eq!(cells, [" 3", "feat", "/code/app-feat", "dirty", "2 days ago", "1", "0", "yes", "no", "main"]);
}

#[test]
fn list_header_cycles_the_bright_hues_and_pads_all_but_the_last() {
    let cells = vec!["#".to_string(), "branch".to_string(), "path".to_string()];
    assert_eq!(git_wt::list::list_header(&cells, &[2, 8, 4], false), "#   branch    path");
    assert_eq!(
        git_wt::list::list_header(&cells, &[2, 8, 4], true),
        "\x1b[91m# \x1b[0m  \x1b[95mbranch  \x1b[0m  \x1b[94mpath\x1b[0m"
    );
}
