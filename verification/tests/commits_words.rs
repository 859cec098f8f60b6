use git_wt::commits::args::{CommitsArgs, Mode, PathWidth, Wrap};
use git_wt::commits::words::{long_name, long_word, parse_words, short_word, Word};
use git_wt::commits::view::{cmd_commits_review, log_plan, view_plan};

fn w(v: &[&str]) -> Vec<String> {
    v.iter().map(|s| s.to_string()).collect()
}

fn commits(v: &[&str]) -> Result<CommitsArgs, String> {
    parse_words(Mode::Commits, &w(v))?.into_commits().into_args()
}

fn log(v: &[&str]) -> Result<CommitsArgs, String> {
    parse_words(Mode::Log, &w(v))?.into_log().into_args()
}

fn review(v: &[&str]) -> Result<CommitsArgs, String> {
    parse_words(Mode::Review, &w(v))?.into_review().into_args()
}

const ALL_WORDS: [Word; 32] = [
    Word::Branch,
    Word::Target,
    Word::Limit,
    Word::Date,
    Word::DateSince,
    Word::DateUntil,
    Word::CommitSince,
    Word::CommitUntil,
    Word::Commits,
    Word::Author,
    Word::Message,
    Word::Search,
    Word::Topo,
    Word::Merges,
    Word::Reverse,
    Word::NoCherry,
    Word::Pick,
    Word::Files,
    Word::Squash,
    Word::Union,
    Word::Time,
    Word::DateHuman,
    Word::Wrap,
    Word::SubjectW,
    Word::BranchW,
    Word::Md,
    Word::All,
    Word::AllFiles,
    Word::Filename,
    Word::NoFollow,
    Word::PathW,
    Word::NoMerges,
];

/// Every flag a verb knows answers to its own long name, so no two flags
/// share one; and each short letter names one flag.
fn vocab_is_unambiguous(mode: Mode) {
    let mut known = 0;
    for word in ALL_WORDS {
        let name: Vec<char> = long_name(word).chars().collect();
        match long_word(mode, &name) {
            Some(found) => {
                assert_eq!(found, word, "{}", long_name(word));
                known += 1;
            }
            None => {}
        }
    }
    assert!(known >= 26);
    let mut letters: Vec<(char, Word)> = Vec::new();
    for c in 'a'..='z' {
        if let Some(word) = short_word(mode, c) {
            assert!(letters.iter().all(|(_, other)| *other != word), "-{c}");
            letters.push((c, word));
        }
    }
}

#[test]
fn review_vocab_has_no_flag_collisions() {
    vocab_is_unambiguous(Mode::Review);
}

#[test]
fn commits_vocab_has_no_flag_collisions() {
    vocab_is_unambiguous(Mode::Commits);
}

#[test]
fn log_vocab_has_no_flag_collisions() {
    vocab_is_unambiguous(Mode::Log);
}

#[test]
fn commits_rejects_undeclared_flags() {
    assert!(commits(&["1", "--oneline"]).is_err());
    assert!(commits(&["1", "--stat"]).is_err());
}

#[test]
fn commits_knows_its_own_flags() {
    assert_eq!(commits(&["--limit", "5"]).unwrap().limit, Some(5));
    assert!(commits(&["--all"]).unwrap().all);
    assert!(commits(&["--filename", "ui.rs"]).unwrap().filename.is_some());
    assert!(commits(&["--filename", "ui.rs", "--all-files"]).unwrap().all_files);
    assert!(commits(&["--all-files"]).unwrap_err().contains("--filename"));
    assert!(commits(&["--pick-id", "--no-cherry"]).unwrap_err().contains("drop one of them"));
    assert!(commits(&["--all", "--union"]).unwrap_err().contains("--union"));
}

#[test]
fn commits_bundles_short_flags() {
    let a = commits(&["-af"]).unwrap();
    assert!(a.all && a.files);
}

#[test]
fn commits_optional_value_flags() {
    assert_eq!(commits(&[]).unwrap().wrap, Wrap::Lines(1));
    assert_eq!(commits(&["--wrap"]).unwrap().wrap, Wrap::Full);
    assert_eq!(commits(&["--wrap", "2"]).unwrap().wrap, Wrap::Lines(2));
    assert_eq!(commits(&["--md"]).unwrap().md, Some(None));
    assert_eq!(commits(&["--md", "out.md"]).unwrap().md, Some(Some("out.md".into())));
}

#[test]
fn log_does_not_know_the_flags_the_path_already_answers() {
    for word in ["--filename", "--all", "-a", "--all-files"] {
        assert!(log(&[word]).is_err(), "{word}");
    }
    assert!(commits(&["--all"]).unwrap().all);
    assert!(log(&["--union"]).unwrap().union);
    assert!(log(&["-f"]).unwrap().files);
}

#[test]
fn log_only_words() {
    assert!(!log(&[]).unwrap().no_follow);
    assert!(log(&["--no-follow"]).unwrap().no_follow);
    assert!(commits(&["--no-follow"]).is_err());
    assert_eq!(log(&["--path-width", "60"]).unwrap().pathw, Some(PathWidth::Cols(60)));
    assert!(commits(&["--path-width", "60"]).is_err());
}

#[test]
fn log_leading_run_is_the_positional() {
    let a = parse_words(Mode::Log, &w(&["src/a.rs", "src/b.rs", "--union"])).unwrap().into_log();
    assert_eq!(a.leading, vec!["src/a.rs".to_string(), "src/b.rs".to_string()]);
    assert!(a.common.union);
}

#[test]
fn review_merges_default_to_kept() {
    assert!(review(&[]).unwrap().merges);
    assert!(!review(&["--no-merges"]).unwrap().merges);
    assert!(!commits(&[]).unwrap().merges);
}

#[test]
fn review_refuses_the_flags_that_would_redefine_its_range() {
    let e = review(&["--all"]).unwrap_err();
    assert!(e.contains("no '--all' under '--review'"), "{e}");
    assert!(e.contains("dest..src"), "{e}");
    assert!(review(&["-f"]).unwrap().files);
}

#[test]
fn review_rejects_merge_vocabulary_as_an_unknown_argument() {
    assert!(review(&["--dry-run"]).is_err());
    assert!(review(&["--continue"]).is_err());
}

#[test]
fn words_take_values_attached_or_next_and_refuse_repeats() {
    assert_eq!(commits(&["-n5"]).unwrap().limit, Some(5));
    assert_eq!(commits(&["--limit=7"]).unwrap().limit, Some(7));
    assert_eq!(commits(&["--limit"]).unwrap_err(), "a value is required for '--limit <N>' but none was supplied");
    assert!(commits(&["--limit", "x"]).unwrap_err().starts_with("invalid value 'x' for '--limit <N>': bad count 'x'"));
    assert_eq!(
        commits(&["--all=yes"]).unwrap_err(),
        "unexpected value 'yes' for '--all' found; no more were expected"
    );
    assert_eq!(commits(&["--wrap", "2", "-w"]).unwrap_err(), "the argument '--wrap [<N>]' cannot be used multiple times");
    assert_eq!(commits(&["--oneline"]).unwrap_err(), "unexpected argument '--oneline' found");
    assert!(commits(&["--all", "-a"]).unwrap_err().contains("cannot be used multiple times"));
    assert_eq!(commits(&["-c", "abc,def"]).unwrap().commits, ["abc", "def"]);
    assert_eq!(commits(&["--cs", "abc"]).unwrap().commit_since.as_deref(), Some("abc"));
    assert!(commits(&["1", "2"]).unwrap_err().contains("unexpected argument '2'"));
    let p = parse_words(Mode::Commits, &w(&["3", "-b", "x", "--branch", "y"])).unwrap();
    assert_eq!(p.branch, ["x", "y"]);
    assert_eq!(p.into_commits().target.as_deref(), Some("3"));
    assert!(review(&["2"]).is_err());
    let after = parse_words(Mode::Log, &w(&["--", "-f"])).unwrap().into_log();
    assert_eq!(after.leading, ["-f"]);
}

#[test]
fn view_plan_decides_rows_marks_and_the_floor() {
    let refs = w(&["a", "b"]);
    let p = view_plan(&commits(&[]).unwrap(), &refs, None);
    assert_eq!(p.limit, Some(10));
    assert_eq!(p.row_refs, ["a"]);
    assert_eq!(p.mark_refs, ["a", "b"]);
    assert!(!p.solo && p.divergent);
    assert_eq!(p.git_limit, None);
    assert_eq!(p.not_ref, None);

    let solo = view_plan(&commits(&[]).unwrap(), &w(&["a"]), None);
    assert!(solo.solo && !solo.divergent && solo.mark_refs.is_empty());
    assert_eq!(solo.git_limit, Some(10));

    let union = view_plan(&commits(&["--union"]).unwrap(), &refs, None);
    assert_eq!(union.row_refs, ["a", "b"]);
    assert_eq!(union.limit, None);
    assert!(!union.divergent);

    let filtered = view_plan(&commits(&["--author", "x"]).unwrap(), &w(&["a"]), None);
    assert_eq!(filtered.git_limit, None);
    assert!(view_plan(&commits(&["-m", "fix"]).unwrap(), &w(&["a"]), None).bodies);

    let rv = view_plan(&review(&[]).unwrap(), &w(&["src"]), Some("dest"));
    assert_eq!(rv.mark_refs, ["dest"]);
    assert_eq!(rv.cherry_refs, ["dest", "src"]);
    assert!(rv.cherry && rv.walk_marks && !rv.picks);
    assert!(!solo.cherry && !solo.walk_marks);
    assert!(!view_plan(&commits(&["--no-cherry"]).unwrap(), &refs, None).cherry);
    assert!(view_plan(&commits(&["--pick-id"]).unwrap(), &refs, None).picks);
    assert!(!view_plan(&commits(&["--pick-id"]).unwrap(), &w(&["a"]), None).picks);
    assert_eq!(p.cherry_refs, ["a", "b"]);
    assert_eq!(rv.not_ref.as_deref(), Some("dest"));
    assert!(!rv.solo && !rv.divergent);
}

#[test]
fn log_plan_follows_one_path_and_caps_unfiltered_walks() {
    let refs = w(&["a", "b"]);
    let p = log_plan(&log(&[]).unwrap(), &refs, 1);
    assert_eq!(p.limit, Some(10));
    assert_eq!(p.row_refs, ["a"]);
    assert_eq!(p.mark_refs, ["a", "b"]);
    assert!(p.follow);
    assert_eq!(p.git_limit, Some(10));
    assert!(!log_plan(&log(&["--no-follow"]).unwrap(), &refs, 1).follow);
    assert!(!log_plan(&log(&[]).unwrap(), &refs, 2).follow);
    let u = log_plan(&log(&["--union"]).unwrap(), &refs, 1);
    assert_eq!(u.row_refs, ["a", "b"]);
    assert_eq!(u.limit, None);
    let solo = log_plan(&log(&["-m", "x"]).unwrap(), &w(&["a"]), 1);
    assert!(solo.mark_refs.is_empty());
    assert_eq!(solo.git_limit, None);
    assert!(solo.bodies);
}

#[test]
fn review_plan_reads_the_source_against_the_destination() {
    let p = cmd_commits_review(&review(&[]).unwrap(), "feat", "main");
    assert_eq!(p.row_refs, ["feat"]);
    assert_eq!(p.mark_refs, ["main"]);
    assert_eq!(p.not_ref.as_deref(), Some("main"));
    assert_eq!(p.cherry_refs, ["main", "feat"]);
    assert!(!p.solo && !p.divergent);
    assert_eq!(p.limit, Some(10));
}
