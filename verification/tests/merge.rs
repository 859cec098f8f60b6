use git_wt::merge::{
    conflict_msg, conflicted_files, has_tracked_changes, merge_argv, merge_dry_run, merge_probe,
    parse_merge_args, resolve_merge_source, set_merge_op, set_side, start_only_flags, MergeArgs,
    MergeOp, MergeVerdict, Side, merge_action, MergeAction,
};
use git_wt::worktree::{classify_status, Status, Worktree};

fn merge_args(args: &[&str]) -> Result<MergeArgs, String> {
    let v: Vec<String> = args.iter().map(|s| s.to_string()).collect();
    parse_merge_args(&v)
}

#[test]
fn tracked_changes_ignore_untracked_only() {
    assert!(!has_tracked_changes(""));
    assert!(!has_tracked_changes("?? new.txt"));
    assert!(!has_tracked_changes("?? a\n?? b"));
    assert!(has_tracked_changes(" M src/main.rs"));
    assert!(has_tracked_changes("A  staged.rs"));
    assert!(has_tracked_changes("?? new.txt\n M src/main.rs"));
    assert!(has_tracked_changes(" M src/main.rs\n?? new.txt"));
    assert_eq!(classify_status(" M a\n?? b"), Status::Untracked);
}

#[test]
fn merge_parses_source_and_options() {
    let a = merge_args(&["2"]).unwrap();
    assert_eq!(a.op, MergeOp::Start("2".into()));
    assert!(!a.no_ff && !a.squash && !a.force && a.message.is_none());

    let a = merge_args(&["feat/x", "--no-ff", "-m", "sync", "-f"]).unwrap();
    assert_eq!(a.op, MergeOp::Start("feat/x".into()));
    assert!(a.no_ff && a.force);
    assert_eq!(a.message.as_deref(), Some("sync"));

    assert_eq!(merge_args(&["2", "--message=hi"]).unwrap().message.as_deref(), Some("hi"));
}

#[test]
fn short_aliases_set_the_same_field_as_their_long_form() {
    assert_eq!(merge_args(&["2", "--nf"]).unwrap().no_ff, merge_args(&["2", "--no-ff"]).unwrap().no_ff);
    assert_eq!(
        merge_args(&["2", "--fo"]).unwrap().ff_only,
        merge_args(&["2", "--ff-only"]).unwrap().ff_only
    );
}

#[test]
fn merge_accepts_bare_and_dashed_resume_words() {
    assert_eq!(merge_args(&["continue"]).unwrap().op, MergeOp::Continue);
    assert_eq!(merge_args(&["--continue"]).unwrap().op, MergeOp::Continue);
    assert_eq!(merge_args(&["abort"]).unwrap().op, MergeOp::Abort);
    assert_eq!(merge_args(&["--abort"]).unwrap().op, MergeOp::Abort);
}

#[test]
fn merge_words_take_optional_dashes_and_shorts() {
    for (bare, dashed, short) in [("continue", "--continue", "-c"), ("abort", "--abort", "-a")] {
        let want = merge_args(&[bare]).unwrap().op;
        assert_eq!(merge_args(&[dashed]).unwrap().op, want, "{dashed}");
        assert_eq!(merge_args(&[short]).unwrap().op, want, "{short}");
    }
    for (bare, dashed, short, want) in
        [("ours", "--ours", "-o", Side::Ours), ("theirs", "--theirs", "-t", Side::Theirs)]
    {
        for w in [bare, dashed, short] {
            assert_eq!(merge_args(&["2", w]).unwrap().side, Some(want), "{w}");
        }
    }
    for w in ["dry-run", "--dry-run", "-d"] {
        assert!(merge_args(&["2", w]).unwrap().dry_run, "{w}");
    }
}

#[test]
fn merge_side_maps_to_strategy_option() {
    assert_eq!(Side::Ours.strategy_option(), "ours");
    assert_eq!(Side::Theirs.strategy_option(), "theirs");
}

#[test]
fn merge_rejects_both_ops_but_allows_repeats() {
    let e = merge_args(&["continue", "abort"]).unwrap_err();
    assert_eq!(e, "continue and abort conflict");
    assert!(merge_args(&["-c", "--abort"]).is_err());
    assert_eq!(merge_args(&["continue", "-c"]).unwrap().op, MergeOp::Continue);
}

#[test]
fn merge_rejections_name_the_offending_flag() {
    let e = merge_args(&["abort", "-m", "x", "--squash"]).unwrap_err();
    assert!(e.contains("got -m, --squash"), "{e}");
    let e = merge_args(&["2", "dry-run", "--no-ff", "-f"]).unwrap_err();
    assert!(e.contains("got --no-ff, -f"), "{e}");
}

#[test]
fn merge_rejects_both_sides_but_allows_repeats() {
    assert!(merge_args(&["2", "ours", "theirs"]).is_err());
    assert!(merge_args(&["2", "-o", "--theirs"]).is_err());
    assert_eq!(merge_args(&["2", "ours", "-o"]).unwrap().side, Some(Side::Ours));
}

#[test]
fn merge_resume_rejects_a_side_with_a_pointed_hint() {
    let e = merge_args(&["theirs", "continue"]).unwrap_err();
    assert!(e.contains("applied when a merge starts"), "{e}");
    assert!(e.contains("merge abort"), "{e}");
}

#[test]
fn merge_dry_run_rejects_start_only_flags() {
    assert!(merge_args(&["2", "dry-run", "--no-ff"]).is_err());
    assert!(merge_args(&["2", "dry-run", "-m", "x"]).is_err());
    assert!(merge_args(&["2", "dry-run", "-f"]).is_err());
    let e = merge_args(&["2", "dry-run", "--ff-only"]).unwrap_err();
    assert!(e.contains("got --ff-only"), "{e}");
    assert!(merge_args(&["2", "dry-run", "theirs"]).is_ok());
}

#[test]
fn review_hands_the_tail_over_untouched() {
    let a = merge_args(&["2", "--review"]).unwrap();
    assert_eq!(a.review.as_deref(), Some(&[][..]));
    assert!(!a.force);

    let a = merge_args(&["2", "--review", "-f", "-n", "5", "-af", "-m", "x", "-d", "1"]).unwrap();
    assert!(!a.force && !a.dry_run && a.message.is_none());
    assert_eq!(a.review.unwrap(), ["-f", "-n", "5", "-af", "-m", "x", "-d", "1"]);

    assert!(merge_args(&["2", "review"]).unwrap().review.is_some());

    let a = merge_args(&["feat/x", "--review", "-f"]).unwrap();
    assert_eq!(a.op, MergeOp::Start("feat/x".into()));
    assert_eq!(a.review.unwrap(), ["-f"]);
    assert_eq!(
        merge_args(&["1", "2", "--review"]).unwrap_err(),
        "too many arguments\nTry 'git-wt --help'"
    );
}

#[test]
fn review_rejects_merge_flags_typed_before_it() {
    for (args, want) in [
        (vec!["2", "-f", "--review"], "-f"),
        (vec!["2", "-m", "x", "--review"], "-m"),
        (vec!["2", "--squash", "--review"], "--squash"),
        (vec!["2", "dry-run", "--review"], "dry-run"),
        (vec!["2", "theirs", "--review"], "theirs"),
        (vec!["-a", "--review"], "abort"),
    ] {
        let e = merge_args(&args).unwrap_err();
        assert!(e.starts_with("review takes no merge options"), "{args:?}: {e}");
        assert!(e.contains(want), "{args:?}: {e}");
        assert!(e.contains("ends merge's own flags"), "{args:?}: {e}");
    }
}

#[test]
fn merge_rejects_bad_combinations() {
    assert!(merge_args(&[]).is_err());
    assert!(merge_args(&["--continue", "2"]).is_err());
    assert!(merge_args(&["--continue", "--no-ff"]).is_err());
    assert!(merge_args(&["--continue", "--abort"]).is_err());
    assert!(merge_args(&["2", "--no-ff", "--ff-only"]).is_err());
    assert!(merge_args(&["2", "--squash", "--no-ff"]).is_err());
    assert!(merge_args(&["2", "3"]).is_err());
    assert!(merge_args(&["2", "--rebase"]).is_err());
    assert!(merge_args(&["-m"]).is_err());
}

#[test]
fn merge_errors_spell_out_their_rule() {
    assert_eq!(merge_args(&["--continue", "2"]).unwrap_err(), "continue takes no argument (got '2')");
    assert_eq!(
        merge_args(&["--abort", "--no-ff"]).unwrap_err(),
        "abort takes no merge options (got --no-ff)"
    );
    assert_eq!(merge_args(&["2", "--no-ff", "--ff-only"]).unwrap_err(), "--no-ff and --ff-only conflict");
    assert_eq!(merge_args(&["2", "--squash", "--no-ff"]).unwrap_err(), "--squash and --no-ff conflict");
    assert_eq!(
        merge_args(&["2", "--rebase"]).unwrap_err(),
        "unknown option '--rebase' for merge\nTry 'git-wt --help'"
    );
    assert_eq!(merge_args(&["-m"]).unwrap_err(), "--message needs a message");
    assert_eq!(
        merge_args(&[]).unwrap_err(),
        "merge needs a source: 'git-wt <N>,<M> merge' (or 'git-wt <N> merge <BRANCH>', or continue/abort)"
    );
    assert_eq!(
        merge_args(&["2", "-f", "--review"]).unwrap_err(),
        "review takes no merge options (got -f)\nhint: '--review' ends merge's own flags -- anything meant for the commit table goes after it, e.g. 'merge --review -f'"
    );
}

#[test]
fn slots_and_start_only_flags() {
    let mut side = None;
    assert_eq!(set_side(&mut side, Side::Ours), Ok(()));
    assert_eq!(set_side(&mut side, Side::Ours), Ok(()));
    assert_eq!(set_side(&mut side, Side::Theirs), Err("ours and theirs conflict".to_string()));
    assert_eq!(side, Some(Side::Ours));
    let mut op = None;
    assert_eq!(set_merge_op(&mut op, MergeOp::Abort), Ok(()));
    assert_eq!(set_merge_op(&mut op, MergeOp::Continue), Err("continue and abort conflict".to_string()));
    assert_eq!(op, Some(MergeOp::Abort));
    let m = "x".to_string();
    assert_eq!(start_only_flags(Some(&m), true, true, true, true), ["-m", "--no-ff", "--ff-only", "--squash", "-f"]);
    assert!(start_only_flags(None, false, false, false, false).is_empty());
}

#[test]
fn the_merge_call_and_its_stops() {
    let a = merge_args(&["feat", "--no-ff", "theirs", "-m", "sync"]).unwrap();
    assert_eq!(merge_argv(&a, "feat"), ["merge", "--no-ff", "-X", "theirs", "-m", "sync", "feat"]);
    assert_eq!(
        conflict_msg("/w/app", &["a.rs".to_string()], 1),
        "merge conflict in /w/app\n  a.rs\nhint: resolve them there, 'git add' each, then 'git-wt 2 merge continue'\nhint: or undo the merge with 'git-wt 2 merge abort'\nhint: or redo it letting one side win: 'git-wt 2 merge abort', then 'git-wt 2,<M> merge theirs'"
    );
    assert_eq!(conflicted_files(Some("a\nb\n")), ["a", "b"]);
    assert!(conflicted_files(None).is_empty());
}

#[test]
fn probe_and_dry_run_reports() {
    assert_eq!(merge_probe(Some(0), "", ""), Ok(MergeVerdict::Clean));
    assert_eq!(
        merge_probe(Some(1), "oid\na.rs\nb.rs\n\nAuto-merging a.rs\n", ""),
        Ok(MergeVerdict::Conflict(vec!["a.rs".to_string(), "b.rs".to_string()]))
    );
    assert_eq!(
        merge_probe(Some(129), "", "error: unknown option `write-tree'"),
        Err("dry-run needs git 2.38 or newer (git merge-tree --write-tree)".to_string())
    );
    assert_eq!(merge_probe(None, "", " fatal: bad \n"), Err("fatal: bad".to_string()));
    assert_eq!(
        merge_dry_run(&MergeVerdict::Clean, "feat", "main", false),
        Ok("Clean feat merges into main cleanly".to_string())
    );
    assert_eq!(
        merge_dry_run(&MergeVerdict::Conflict(vec!["a.rs".into()]), "feat", "main", false),
        Err("feat does NOT merge into main cleanly\n  a.rs\nhint: nothing was changed — this was a dry run\nhint: 'ours' or 'theirs' would settle these automatically".to_string())
    );
}

#[test]
fn merge_sources_prefer_worktree_numbers() {
    let wt = |branch: Option<&str>| Worktree {
        id: 1,
        path: "/w".into(),
        branch: branch.map(String::from),
        detached: branch.is_none(),
        bare: false,
        locked: None,
        prunable: None,
    };
    let trees = vec![wt(Some("main")), wt(None)];
    assert_eq!(resolve_merge_source(&trees, "1", false), Ok("main".to_string()));
    assert_eq!(
        resolve_merge_source(&trees, "2", true),
        Err("worktree 2 is (detached) — no branch to merge".to_string())
    );
    assert_eq!(resolve_merge_source(&trees, "3", true), Ok("3".to_string()));
    assert_eq!(
        resolve_merge_source(&trees, "nope", false),
        Err("no worktree or branch 'nope' (see 'git-wt list')".to_string())
    );
}

#[test]
fn review_never_reaches_a_real_merge() {
    assert_eq!(merge_action(&merge_args(&["feat", "--review"]).unwrap()), MergeAction::Review);
    assert_eq!(merge_action(&merge_args(&["feat", "--dry-run"]).unwrap()), MergeAction::DryRun);
    assert_eq!(merge_action(&merge_args(&["feat"]).unwrap()), MergeAction::Merge);
    assert_eq!(merge_action(&merge_args(&["--abort"]).unwrap()), MergeAction::Abort);
}

#[test]
fn merge_has_no_flag_collisions() {
    for w in ["continue", "--continue", "-c"] {
        assert_eq!(merge_args(&[w]).unwrap().op, MergeOp::Continue, "{w}");
    }
    for w in ["abort", "--abort", "-a"] {
        assert_eq!(merge_args(&[w]).unwrap().op, MergeOp::Abort, "{w}");
    }
    let only = |w: &[&str]| merge_args(&[&["feat"][..], w].concat()).unwrap();
    for (w, side) in [("ours", Side::Ours), ("--ours", Side::Ours), ("-o", Side::Ours), ("theirs", Side::Theirs), ("--theirs", Side::Theirs), ("-t", Side::Theirs)] {
        let a = only(&[w]);
        assert_eq!(a.side, Some(side), "{w}");
        assert!(!a.dry_run && !a.force && !a.no_ff && !a.ff_only && !a.squash && a.message.is_none(), "{w}");
    }
    for w in ["dry-run", "--dry-run", "-d"] {
        let a = only(&[w]);
        assert!(a.dry_run && a.side.is_none() && !a.force, "{w}");
    }
    for w in ["--no-ff", "--nf"] {
        let a = only(&[w]);
        assert!(a.no_ff && !a.ff_only && !a.squash, "{w}");
    }
    for w in ["--ff-only", "--fo"] {
        let a = only(&[w]);
        assert!(a.ff_only && !a.no_ff && !a.squash, "{w}");
    }
    let s = only(&["--squash"]);
    assert!(s.squash && !s.no_ff && !s.ff_only);
    for w in ["-f", "--force"] {
        let a = only(&[w]);
        assert!(a.force && !a.dry_run, "{w}");
    }
    for w in [&["-m", "x"][..], &["--message", "x"][..], &["--message=x"][..]] {
        assert_eq!(only(w).message.as_deref(), Some("x"));
    }
    assert!(only(&["--review"]).review.is_some());
}
