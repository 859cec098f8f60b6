use git_wt::commits::files::FileStat;
use git_wt::commits::md::{md_cell, md_name, md_report, MdHead};
use git_wt::commits::rows::{CommitRow, Pick};

fn row(sha: &str, short: &str, text: &str, author: &str, date: &str) -> CommitRow {
    CommitRow {
        sha: sha.into(),
        short: short.into(),
        text: text.into(),
        author: author.into(),
        date: date.into(),
        key: date.into(),
        stamp: "0".into(),
        email: String::new(),
        author_iso: String::new(),
        body: String::new(),
    }
}

fn strings(v: &[&str]) -> Vec<String> {
    v.iter().map(|s| s.to_string()).collect()
}

fn cells_cannot_invent_columns() {
    assert_eq!(md_cell("plain subject"), "plain subject");
    assert_eq!(md_cell("fix: a|pipe"), "fix: a\\|pipe");
    assert_eq!(md_cell("a|b|c"), "a\\|b\\|c");
    assert_eq!(md_cell("back\\slash"), "back\\\\slash");
    assert_eq!(md_cell("both\\|here"), "both\\\\\\|here");
    assert_eq!(md_cell("🚀 ship 日本語"), "🚀 ship 日本語");
}

#[test]
fn md_md_cells_cannot_invent_columns() {
    cells_cannot_invent_columns();
}

#[test]
fn commits_md_cells_cannot_invent_columns() {
    cells_cannot_invent_columns();
}

#[test]
fn md_name_is_stamped() {
    assert_eq!(md_name("2026-07-17_14-30-05"), "commits_2026-07-17_14-30-05.md");
}

#[test]
fn md_heads_name_their_command() {
    assert_eq!(MdHead::commits().title, "git-wt commits");
    assert_eq!(MdHead::commits().labels, "Worktrees");
    assert_eq!(MdHead::review().title, "git-wt merge --review");
    assert_eq!(MdHead::review().labels, "Merging");
    assert_eq!(MdHead::log().title, "git-wt log");
    assert_eq!(MdHead::log().labels, "Branches");
}

#[test]
fn md_report_writes_the_table_with_marks_and_legend() {
    let rows = vec![
        row("aaaa1111", "aaaa111", "fix: a|pipe", "Ann", "2026-01-02"),
        row("bbbb2222", "bbbb222", "feat: more", "Bob", "2026-01-03"),
    ];
    let names = strings(&["main"]);
    let sets = vec![strings(&["aaaa1111"])];
    let equiv = vec![strings(&["bbbb2222"])];
    let none = vec![Vec::<String>::new()];
    let text = md_report(
        &MdHead::commits(),
        "git-wt commits main",
        &strings(&["feature", "main"]),
        &rows,
        &names,
        &sets,
        &equiv,
        &none,
        &none,
        None,
        &[],
        &[],
        false,
    );
    let want = "# git-wt commits\n\n\
                - Command: `git-wt commits main`\n\
                - Worktrees: `feature`, `main`\n\
                - Commits: 2\n\
                - Legend: `✓` has the commit · `≈` has the same patch under another sha · `·` has neither\n\
                \n\
                | commit | author | date | main | subject |\n\
                |---|---|---|:-:|---|\n\
                | `aaaa111` | Ann | 2026-01-02 | ✓ | fix: a\\|pipe |\n\
                | `bbbb222` | Bob | 2026-01-03 | ≈ | feat: more |\n";
    assert_eq!(text, want);
}

#[test]
fn md_report_without_columns_has_no_legend() {
    let rows = vec![row("aaaa1111", "aaaa111", "one", "Ann", "2026-01-02")];
    let text = md_report(
        &MdHead::log(),
        "git-wt log",
        &strings(&["main"]),
        &rows,
        &[],
        &[],
        &[],
        &[],
        &[],
        None,
        &[],
        &[],
        false,
    );
    assert!(!text.contains("Legend"));
    assert!(text.contains("| commit | author | date | subject |\n|---|---|---|---|\n"));
}

#[test]
fn md_report_prints_picks_bodies_and_files() {
    let rows = vec![row("aaaa1111", "aaaa111", "one", "Ann", "2026-01-02")];
    let picks = vec![Pick { sha: "aaaa1111".into(), other: "cccc3333dddd".into() }];
    let bodies = vec![(strings(&["why: a|b"]), 2usize)];
    let files = vec![vec![FileStat { status: 'M', path: "src/a.rs".into(), added: Some(3), removed: None }]];
    let text = md_report(
        &MdHead::review(),
        "git-wt merge --review",
        &strings(&["topic"]),
        &rows,
        &strings(&["main"]),
        &[Vec::new()],
        &[Vec::new()],
        &[Vec::new()],
        &[Vec::new()],
        Some(&picks),
        &bodies,
        &files,
        false,
    );
    assert!(text.contains("- `pick`: the sha that other copy of the patch was committed under\n"));
    assert!(text.contains("| commit | pick | author | date | main | subject |\n|---|---|---|---|:-:|---|\n"));
    assert!(text.contains(
        "| `aaaa111` | `cccc333` | Ann | 2026-01-02 | · | one<br><br>why: a\\|b<br>+2 more<br><br><br>M src/a.rs +3 --<br> |\n"
    ));
    assert!(!text.contains("Legend"));
}

#[test]
fn md_report_squash_moves_files_below_the_table() {
    let rows = vec![
        row("aaaa1111", "aaaa111", "one", "Ann", "2026-01-02"),
        row("bbbb2222", "bbbb222", "two", "Bob", "2026-01-03"),
    ];
    let files = vec![
        vec![FileStat { status: 'A', path: "b.rs".into(), added: Some(2), removed: Some(0) }],
        vec![
            FileStat { status: 'M', path: "b.rs".into(), added: Some(1), removed: Some(1) },
            FileStat { status: 'M', path: "a.rs".into(), added: Some(5), removed: Some(0) },
        ],
    ];
    let text = md_report(
        &MdHead::commits(),
        "git-wt commits --squash",
        &strings(&["main"]),
        &rows,
        &[],
        &[],
        &[],
        &[],
        &[],
        None,
        &[],
        &files,
        true,
    );
    assert!(text.contains("| `aaaa111` | Ann | 2026-01-02 | one |\n"));
    assert!(text.ends_with(
        "\n## Consolidated files\n\n\
         | status | file | +added | -removed |\n|---|---|--:|--:|\n\
         | A | b.rs | 3 | 1 |\n\
         | M | a.rs | 5 | 0 |\n"
    ));
}
