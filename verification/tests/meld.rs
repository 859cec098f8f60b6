use git_wt::meld::{
    changed_paths, changed_paths_status, merge_base, name_status_args, parse_meld_args,
    parse_name_status, MeldArgs,
};

#[test]
fn meld_name_status_keeps_both_sides_of_a_rename() {
    let out = "M\tkeep.txt\nR075\told.txt\tnew.txt\n";
    let v = parse_name_status(out).unwrap();
    assert_eq!(
        v,
        vec![
            ("keep.txt".to_string(), 'M'),
            ("old.txt".to_string(), 'R'),
            ("new.txt".to_string(), 'R'),
        ]
    );
    assert!(v.iter().all(|(p, _)| !p.contains('\t') && !p.starts_with('0')));
}

#[test]
fn meld_name_status_reads_the_ordinary_statuses() {
    let out = "A\tadded.rs\nD\tgone.rs\nM\tsrc/a b.rs\nC100\tfrom.rs\tto.rs\n";
    let v = parse_name_status(out).unwrap();
    assert_eq!(
        v,
        vec![
            ("added.rs".to_string(), 'A'),
            ("gone.rs".to_string(), 'D'),
            ("src/a b.rs".to_string(), 'M'),
            ("from.rs".to_string(), 'C'),
            ("to.rs".to_string(), 'C'),
        ]
    );
}

#[test]
fn meld_name_status_skips_blanks_and_rejects_a_pathless_line() {
    assert!(parse_name_status("\n\n").unwrap().is_empty());
    assert!(parse_name_status("M\t\n").is_err());
    assert!(parse_name_status("M").is_err());
}

#[test]
fn mod_name_status_keeps_both_sides_of_a_rename() {
    let out = "M\tkeep.txt\nR075\told.txt\tnew.txt\n";
    let v = parse_name_status(out).unwrap();
    assert_eq!(
        v,
        vec![
            ("keep.txt".to_string(), 'M'),
            ("old.txt".to_string(), 'R'),
            ("new.txt".to_string(), 'R'),
        ]
    );
    assert!(v.iter().all(|(p, _)| !p.contains('\t') && !p.starts_with('0')));
}

#[test]
fn mod_name_status_reads_the_ordinary_statuses() {
    let out = "A\tadded.rs\nD\tgone.rs\nM\tsrc/a b.rs\nC100\tfrom.rs\tto.rs\n";
    let v = parse_name_status(out).unwrap();
    assert_eq!(
        v,
        vec![
            ("added.rs".to_string(), 'A'),
            ("gone.rs".to_string(), 'D'),
            ("src/a b.rs".to_string(), 'M'),
            ("from.rs".to_string(), 'C'),
            ("to.rs".to_string(), 'C'),
        ]
    );
}

#[test]
fn mod_name_status_skips_blanks_and_rejects_a_pathless_line() {
    assert!(parse_name_status("\n\n").unwrap().is_empty());
    assert!(parse_name_status("M\t\n").is_err());
    assert!(parse_name_status("M").is_err());
}

#[test]
fn name_status_quotes_the_bad_line_and_reads_a_tabless_one() {
    assert_eq!(
        parse_name_status("M\t\r\n"),
        Err("malformed --name-status line: 'M\t'".to_string())
    );
    assert_eq!(parse_name_status("Mpath.rs\n"), Ok(vec![("path.rs".to_string(), 'M')]));
    assert_eq!(changed_paths_status("A\tx\n"), Ok(vec![("x".to_string(), 'A')]));
    assert_eq!(changed_paths("A\tx\nR100\ty\tz\n"), Ok(vec!["x".to_string(), "y".to_string(), "z".to_string()]));
    assert_eq!(name_status_args("a  b"), ["diff", "--name-status", "a", "b"]);
    assert_eq!(name_status_args("a...b"), ["diff", "--name-status", "a...b"]);
    assert_eq!(merge_base("abc\n"), "abc");
}

#[test]
fn meld_arguments_and_their_refusals() {
    let parse = |args: &[&str]| {
        let v: Vec<String> = args.iter().map(|s| s.to_string()).collect();
        parse_meld_args(&v)
    };
    assert_eq!(
        parse(&["--diff", "...", "--base", "main"]),
        Ok(MeldArgs { diff: true, range: Some("...".into()), three_way: false, base: Some("main".into()) })
    );
    assert_eq!(parse(&[]), Ok(MeldArgs::default()));
    assert_eq!(
        parse(&[".."]),
        Err("'..' is the default range for meld --diff; use '...' for the fork view".to_string())
    );
    assert_eq!(parse(&["--base"]), Err("--base needs a ref".to_string()));
    assert_eq!(parse(&["-x"]), Err("unknown option '-x' for meld\nTry 'git-wt --help'".to_string()));
    assert_eq!(
        parse(&["foo"]),
        Err("meld takes no positional arguments, got 'foo'\nTry 'git-wt --help'".to_string())
    );
    assert_eq!(
        parse(&["--3way", "--base", "b"]),
        Err("--3way and --base are alternatives; use one or the other".to_string())
    );
}
