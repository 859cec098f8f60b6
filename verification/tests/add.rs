use std::path::PathBuf;

use git_wt::add::{
    add_plan, find_remote_branch, join_path, needs_confirm, parent_dir, parse_add_args,
    repo_name, resolve_add_path, sanitize, AddRequest,
};

fn resolve(
    root: &str,
    branch: &str,
    name: Option<&str>,
    dirname: Option<&str>,
    parentdir: Option<&str>,
) -> Result<Option<PathBuf>, String> {
    resolve_add_path(root, branch, name, dirname, parentdir, false).map(|p| p.map(PathBuf::from))
}

fn parse(args: &[&str]) -> AddRequest {
    let v: Vec<String> = args.iter().map(|s| s.to_string()).collect();
    parse_add_args(&v).unwrap()
}

#[test]
fn add_add_path_default_is_sibling() {
    let p = resolve("/code/myapp", "feat/x", None, None, None).unwrap().unwrap();
    assert_eq!(p, PathBuf::from("/code/myapp-feat-x"));
}

#[test]
fn add_add_path_name_is_suffix() {
    let p = resolve("/code/myapp", "feat/x", Some("test"), None, None).unwrap().unwrap();
    assert_eq!(p, PathBuf::from("/code/myapp-test"));
}

#[test]
fn add_add_path_dirname_is_whole_leaf() {
    let p = resolve("/code/myapp", "feat/x", None, Some("test"), None).unwrap().unwrap();
    assert_eq!(p, PathBuf::from("/code/test"));
}

#[test]
fn add_add_path_parentdir_overrides() {
    let p = resolve("/code/myapp", "feat/x", None, None, Some("/work")).unwrap().unwrap();
    assert_eq!(p, PathBuf::from("/work/myapp-feat-x"));
}

#[test]
fn add_add_path_dirname_absolute_is_verbatim() {
    let p = resolve("/code/myapp", "feat/x", None, Some("/tmp/scratch"), None).unwrap().unwrap();
    assert_eq!(p, PathBuf::from("/tmp/scratch"));
}

#[test]
fn add_add_path_dirname_relative_path_is_parent_relative() {
    let p = resolve("/code/myapp", "feat/x", None, Some("sub/test"), None).unwrap().unwrap();
    assert_eq!(p, PathBuf::from("/code/sub/test"));
}

#[test]
fn mod_add_path_default_is_sibling() {
    let p = resolve("/code/myapp", "feat/x", None, None, None).unwrap().unwrap();
    assert_eq!(p, PathBuf::from("/code/myapp-feat-x"));
}

#[test]
fn mod_add_path_name_is_suffix() {
    let p = resolve("/code/myapp", "feat/x", Some("test"), None, None).unwrap().unwrap();
    assert_eq!(p, PathBuf::from("/code/myapp-test"));
}

#[test]
fn mod_add_path_dirname_is_whole_leaf() {
    let p = resolve("/code/myapp", "feat/x", None, Some("test"), None).unwrap().unwrap();
    assert_eq!(p, PathBuf::from("/code/test"));
}

#[test]
fn mod_add_path_parentdir_overrides() {
    let p = resolve("/code/myapp", "feat/x", None, None, Some("/work")).unwrap().unwrap();
    assert_eq!(p, PathBuf::from("/work/myapp-feat-x"));
}

#[test]
fn mod_add_path_dirname_absolute_is_verbatim() {
    let p = resolve("/code/myapp", "feat/x", None, Some("/tmp/scratch"), None).unwrap().unwrap();
    assert_eq!(p, PathBuf::from("/tmp/scratch"));
}

#[test]
fn mod_add_path_dirname_relative_path_is_parent_relative() {
    let p = resolve("/code/myapp", "feat/x", None, Some("sub/test"), None).unwrap().unwrap();
    assert_eq!(p, PathBuf::from("/code/sub/test"));
}

#[test]
fn add_args_take_branch_and_flags() {
    let a = parse(&["feature/login"]);
    assert_eq!(a.branch.as_deref(), Some("feature/login"));
    assert!(a.name.is_none());

    let a = parse(&["feature/login", "--name", "review"]);
    assert_eq!(a.name.as_deref(), Some("review"));

    let a = parse(&["feature/login", "--parentdir", "/work", "--from", "develop"]);
    assert_eq!(a.parentdir.as_deref(), Some("/work"));
    assert_eq!(a.from.as_deref(), Some("develop"));
}

#[test]
fn add_args_reject_unknown_flags() {
    assert!(parse_add_args(&["--bogus".to_string()]).is_err());
}

#[test]
fn add_arguments_name_each_mistake() {
    let err = |args: &[&str]| {
        let v: Vec<String> = args.iter().map(|s| s.to_string()).collect();
        parse_add_args(&v).unwrap_err()
    };
    assert_eq!(err(&["--bogus"]), "unknown option '--bogus'\nTry 'git-wt --help'");
    assert_eq!(err(&["a", "b"]), "too many arguments\nTry 'git-wt --help'");
    assert_eq!(err(&["-n"]), "--name needs a name");
    assert_eq!(err(&["--dirname"]), "--dirname needs a directory");
    assert_eq!(err(&["-p"]), "--parentdir needs a directory");
    assert_eq!(err(&["--from"]), "--from needs a ref");
    assert_eq!(err(&["x", "-n", "a", "--dirname", "b"]), "--name and --dirname conflict");
    assert_eq!(err(&["x", "--name="]), "--name cannot be empty");
    assert_eq!(err(&["x", "--dirname="]), "--dirname cannot be empty");
    let a = parse(&["--stay", "-", "--from=main", "--dirname=d", "-p", "/w"]);
    assert_eq!(a.branch.as_deref(), Some("-"));
    assert_eq!(a.from.as_deref(), Some("main"));
    assert_eq!(a.dirname.as_deref(), Some("d"));
    assert_eq!(a.parentdir.as_deref(), Some("/w"));
}

#[test]
fn a_path_dirname_with_a_parentdir_asks_first() {
    assert!(needs_confirm(Some("sub/x"), Some("/w")));
    assert!(!needs_confirm(Some("x"), Some("/w")));
    assert!(!needs_confirm(Some("sub/x"), None));
    assert_eq!(
        resolve_add_path("/code/myapp", "b", None, Some("sub/x"), Some("/w"), false),
        Ok(None)
    );
    assert_eq!(
        resolve_add_path("/code/myapp", "b", None, Some("sub/x"), Some("/w"), true),
        Ok(Some("/code/sub/x".to_string()))
    );
    assert_eq!(
        resolve_add_path("/", "b", None, None, None, false),
        Err("cannot determine repo folder name".to_string())
    );
}

#[test]
fn root_parts_and_joins() {
    assert_eq!(repo_name("/code/myapp/").as_deref(), Some("myapp"));
    assert_eq!(repo_name("/"), None);
    assert_eq!(parent_dir("/myapp").as_deref(), Some("/"));
    assert_eq!(parent_dir("myapp").as_deref(), Some(""));
    assert_eq!(join_path("/code/", "x"), "/code/x");
    assert_eq!(join_path("", "x"), "x");
    assert_eq!(join_path("/code", "/abs"), "/abs");
    assert_eq!(sanitize("feat/x/y"), "feat-x-y");
}

#[test]
fn the_worktree_add_call_and_its_note() {
    let (argv, note) = add_plan("feat", "/w/app-feat", true, None, "main");
    assert_eq!(argv, ["worktree", "add", "/w/app-feat", "feat"]);
    assert_eq!(note, "branch feat");
    let (argv, note) = add_plan("feat", "/w/app-feat", false, Some("up"), "main");
    assert_eq!(argv, ["worktree", "add", "--track", "-b", "feat", "/w/app-feat", "up/feat"]);
    assert_eq!(note, "branch feat tracking up/feat");
    let (argv, note) = add_plan("feat", "/w/app-feat", false, None, "main");
    assert_eq!(argv, ["worktree", "add", "-b", "feat", "/w/app-feat", "main"]);
    assert_eq!(note, "branch feat from main");
    let remotes = vec!["up".to_string(), "fork".to_string()];
    assert_eq!(find_remote_branch(true, &remotes, &[false, true]).as_deref(), Some("origin"));
    assert_eq!(find_remote_branch(false, &remotes, &[false, true]).as_deref(), Some("fork"));
    assert_eq!(find_remote_branch(false, &remotes, &[false, false]), None);
}

#[test]
fn add_path_ignores_dot_components_of_the_root() {
    let p = resolve("/code/myapp/.", "feat/x", None, None, None).unwrap().unwrap();
    assert_eq!(p, PathBuf::from("/code/myapp-feat-x"));
    let q = resolve("/code/./myapp/./", "feat/x", None, None, None).unwrap().unwrap();
    assert_eq!(q, PathBuf::from("/code/myapp-feat-x"));
}
