//! `add`: its argument grammar, where the new worktree goes, and the `git
//! worktree add` that creates it.

use vstd::prelude::*;

use crate::text::{
    chars_of, is_prefix, push_all, push_str, slice_from, slice_range, str_views, string_of,
    strip_prefix,
};
use crate::worktree::opt_view;

verus! {

// ---------------------------------------------------------------------------
// Paths
// ---------------------------------------------------------------------------

/// A branch or name made safe as one directory name: every `/` becomes `-`.
pub open spec fn sanitize_spec(s: Seq<char>) -> Seq<char> {
    s.map_values(|c: char| if c == '/' {
        '-'
    } else {
        c
    })
}

/// A sanitized name is one directory name, as long as what it came from.
pub proof fn lemma_sanitized_is_one_name(s: Seq<char>)
    ensures
        !sanitize_spec(s).contains('/'),
        sanitize_spec(s).len() == s.len(),
{
    if sanitize_spec(s).contains('/') {
        let i = choose|i: int| 0 <= i < sanitize_spec(s).len() && sanitize_spec(s)[i] == '/';
        assert(sanitize_spec(s)[i] == (if s[i] == '/' { '-' } else { s[i] }));
    }
}

/// `s` as one directory name.
pub fn sanitize(s: &str) -> (r: String)
    ensures
        r@ == sanitize_spec(s@),
{
    let c = chars_of(s);
    let mut out: Vec<char> = Vec::new();
    let mut i: usize = 0;
    while i < c.len()
        invariant
            i <= c.len(),
            c@ == s@,
            out@ == sanitize_spec(c@.take(i as int)),
        decreases c.len() - i,
    {
        out.push(if c[i] == '/' {
            '-'
        } else {
            c[i]
        });
        assert(sanitize_spec(c@.take(i + 1)) =~= sanitize_spec(c@.take(i as int)).push(
            if c@[i as int] == '/' {
                '-'
            } else {
                c@[i as int]
            },
        ));
        i = i + 1;
    }
    assert(c@.take(i as int) =~= c@);
    string_of(out.as_slice())
}

/// `s` without what a path's end holds that names no component: trailing
/// `/`s and `.` components (`/code/myapp/./` is `/code/myapp`). A `.` that
/// is the whole path stays: it is the current directory.
pub open spec fn trim_tail(s: Seq<char>) -> Seq<char>
    decreases s.len(),
{
    if s.len() > 0 && s.last() == '/' {
        trim_tail(s.drop_last())
    } else if s.len() >= 2 && s.last() == '.' && s[s.len() - 2] == '/' {
        trim_tail(s.drop_last())
    } else {
        s
    }
}

/// Where the last `/` of `s` is.
pub open spec fn last_slash(s: Seq<char>) -> Option<int>
    decreases s.len(),
{
    if s.len() == 0 {
        None
    } else if s.last() == '/' {
        Some(s.len() - 1)
    } else {
        last_slash(s.drop_last())
    }
}

/// The repository's folder name: the last component of the root, `.`
/// components aside, `None` for a root that has none (`/`, `.`, or one
/// ending in `..`).
pub open spec fn repo_name_spec(root: Seq<char>) -> Option<Seq<char>> {
    let t = trim_tail(root);
    let name = match last_slash(t) {
        Some(i) => t.skip(i + 1),
        None => t,
    };
    if name.len() == 0 || name == ".."@ || name == "."@ {
        None
    } else {
        Some(name)
    }
}

/// The directory holding the root: everything before its last component
/// (trailing `/`s and `.` components aside), `/` for a root directly under
/// it, empty for a bare name.
pub open spec fn parent_spec(root: Seq<char>) -> Option<Seq<char>> {
    let t = trim_tail(root);
    if t.len() == 0 {
        None
    } else {
        match last_slash(t) {
            Some(i) => {
                let p = trim_tail(t.take(i));
                if p.len() == 0 {
                    Some("/"@)
                } else {
                    Some(p)
                }
            },
            None => Some(Seq::empty()),
        }
    }
}

/// `p` under `base`: `p` itself when it is absolute or there is no base.
pub open spec fn join_spec(base: Seq<char>, p: Seq<char>) -> Seq<char> {
    if p.len() > 0 && p[0] == '/' {
        p
    } else if base.len() == 0 {
        p
    } else if base.last() == '/' {
        base + p
    } else {
        base + seq!['/'] + p
    }
}

fn trim_tail_of(s: &[char]) -> (r: Vec<char>)
    ensures
        r@ == trim_tail(s@),
{
    let mut n: usize = s.len();
    assert(s@.take(n as int) =~= s@);
    while n > 0 && (s[n - 1] == '/' || (n >= 2 && s[n - 1] == '.' && s[n - 2] == '/'))
        invariant
            n <= s.len(),
            trim_tail(s@) == trim_tail(s@.take(n as int)),
        decreases n,
    {
        assert(s@.take(n as int).drop_last() =~= s@.take(n - 1));
        n = n - 1;
    }
    slice_range(s, 0, n)
}

fn last_slash_of(s: &[char]) -> (r: Option<usize>)
    ensures
        r matches Some(i) ==> last_slash(s@) == Some(i as int) && i < s.len(),
        r is None ==> last_slash(s@) is None,
{
    let mut n: usize = s.len();
    assert(s@.take(n as int) =~= s@);
    while n > 0 && s[n - 1] != '/'
        invariant
            n <= s.len(),
            last_slash(s@) == last_slash(s@.take(n as int)),
        decreases n,
    {
        assert(s@.take(n as int).drop_last() =~= s@.take(n - 1));
        n = n - 1;
    }
    if n == 0 {
        None
    } else {
        Some(n - 1)
    }
}

/// The repository's folder name.
pub fn repo_name(root: &str) -> (r: Option<String>)
    ensures
        r matches Some(s) ==> repo_name_spec(root@) == Some(s@),
        r is None ==> repo_name_spec(root@) is None,
{
    let c = chars_of(root);
    let t = trim_tail_of(c.as_slice());
    let name = match last_slash_of(t.as_slice()) {
        Some(i) => slice_from(t.as_slice(), i + 1),
        None => t,
    };
    if name.len() == 0 || crate::text::is(name.as_slice(), "..") || crate::text::is(name.as_slice(), ".") {
        None
    } else {
        Some(string_of(name.as_slice()))
    }
}

/// The directory holding the root.
pub fn parent_dir(root: &str) -> (r: Option<String>)
    ensures
        r matches Some(s) ==> parent_spec(root@) == Some(s@),
        r is None ==> parent_spec(root@) is None,
{
    let c = chars_of(root);
    let t = trim_tail_of(c.as_slice());
    if t.len() == 0 {
        return None;
    }
    match last_slash_of(t.as_slice()) {
        Some(i) => {
            let head = slice_range(t.as_slice(), 0, i);
            assert(head@ =~= t@.take(i as int));
            let p = trim_tail_of(head.as_slice());
            if p.len() == 0 {
                Some("/".to_string())
            } else {
                Some(string_of(p.as_slice()))
            }
        },
        None => Some(String::new()),
    }
}

/// `p` under `base`.
pub fn join_path(base: &str, p: &str) -> (r: String)
    ensures
        r@ == join_spec(base@, p@),
{
    let b = chars_of(base);
    let pc = chars_of(p);
    if (pc.len() > 0 && pc[0] == '/') || b.len() == 0 {
        return p.to_string();
    }
    let mut out = b;
    if out[out.len() - 1] != '/' {
        out.push('/');
    }
    push_all(&mut out, pc.as_slice());
    string_of(out.as_slice())
}

/// Whether `add` has to ask before going on: `--dirname` is a path (holds a
/// `/`), so `--parentdir` would be ignored.
pub open spec fn needs_confirm_spec(dirname: Option<Seq<char>>, parentdir: Option<Seq<char>>) -> bool {
    dirname matches Some(d) && d.contains('/') && parentdir is Some
}

/// Where a new worktree goes. A `--dirname` holding a `/` is a path,
/// taken verbatim when absolute and under the root's parent otherwise
/// (`--parentdir` is then ignored, once the user agrees: `proceed` is
/// their answer, and a no is `Ok(None)`). Else the leaf is
/// `<repo>-<name>`, the `--dirname` as given, or `<repo>-<branch>`, each
/// made a single directory name, under `--parentdir` or the root's parent.
pub open spec fn add_path_spec(
    root: Seq<char>,
    branch: Seq<char>,
    name: Option<Seq<char>>,
    dirname: Option<Seq<char>>,
    parentdir: Option<Seq<char>>,
    proceed: bool,
) -> Result<Option<Seq<char>>, Seq<char>> {
    match repo_name_spec(root) {
        None => Err("cannot determine repo folder name"@),
        Some(repo) => match parent_spec(root) {
            None => Err("repo root has no parent directory"@),
            Some(dp) => if dirname matches Some(d) && d.contains('/') {
                if parentdir is Some && !proceed {
                    Ok(None)
                } else {
                    Ok(Some(join_spec(dp, dirname->0)))
                }
            } else {
                let parent = match parentdir {
                    Some(p) => p,
                    None => dp,
                };
                let leaf = match (name, dirname) {
                    (Some(n), _) => repo + seq!['-'] + sanitize_spec(n),
                    (_, Some(d)) => sanitize_spec(d),
                    _ => repo + seq!['-'] + sanitize_spec(branch),
                };
                Ok(Some(join_spec(parent, leaf)))
            },
        },
    }
}

pub open spec fn opt_path_result(r: Result<Option<String>, String>) -> Result<Option<Seq<char>>, Seq<char>> {
    match r {
        Ok(o) => Ok(opt_view(o)),
        Err(e) => Err(e@),
    }
}

/// Whether `add` must ask before going on.
pub fn needs_confirm(dirname: Option<&str>, parentdir: Option<&str>) -> (r: bool)
    ensures
        r == needs_confirm_spec(
            crate::commits::rows::opt_str(dirname),
            crate::commits::rows::opt_str(parentdir),
        ),
{
    match (dirname, parentdir) {
        (Some(d), Some(_)) => {
            let c = chars_of(d);
            crate::text::has_char(c.as_slice(), '/')
        },
        _ => false,
    }
}

/// Resolve the worktree directory for `add`.
pub fn resolve_add_path(
    root: &str,
    branch: &str,
    name: Option<&str>,
    dirname: Option<&str>,
    parentdir: Option<&str>,
    proceed: bool,
) -> (r: Result<Option<String>, String>)
    ensures
        opt_path_result(r) == add_path_spec(
            root@,
            branch@,
            crate::commits::rows::opt_str(name),
            crate::commits::rows::opt_str(dirname),
            crate::commits::rows::opt_str(parentdir),
            proceed,
        ),
{
    let repo = match repo_name(root) {
        Some(r) => r,
        None => {
            return Err("cannot determine repo folder name".to_string());
        },
    };
    let default_parent = match parent_dir(root) {
        Some(p) => p,
        None => {
            return Err("repo root has no parent directory".to_string());
        },
    };
    match dirname {
        Some(d) => {
            let dc = chars_of(d);
            if crate::text::has_char(dc.as_slice(), '/') {
                if parentdir.is_some() && !proceed {
                    return Ok(None);
                }
                return Ok(Some(join_path(default_parent.as_str(), d)));
            }
        },
        None => {},
    }
    let parent = match parentdir {
        Some(p) => p.to_string(),
        None => default_parent,
    };
    let ghost want_leaf = match (crate::commits::rows::opt_str(name), crate::commits::rows::opt_str(dirname)) {
        (Some(n), _) => repo@ + seq!['-'] + sanitize_spec(n),
        (_, Some(d)) => sanitize_spec(d),
        _ => repo@ + seq!['-'] + sanitize_spec(branch@),
    };
    let leaf = match (name, dirname) {
        (Some(n), _) => {
            let mut l = chars_of(repo.as_str());
            l.push('-');
            let s = sanitize(n);
            push_str(&mut l, s.as_str());
            assert(l@ =~= repo@ + seq!['-'] + sanitize_spec(n@));
            string_of(l.as_slice())
        },
        (_, Some(d)) => sanitize(d),
        _ => {
            let mut l = chars_of(repo.as_str());
            l.push('-');
            let s = sanitize(branch);
            push_str(&mut l, s.as_str());
            assert(l@ =~= repo@ + seq!['-'] + sanitize_spec(branch@));
            string_of(l.as_slice())
        },
    };
    assert(leaf@ == want_leaf);
    Ok(Some(join_path(parent.as_str(), leaf.as_str())))
}

// ---------------------------------------------------------------------------
// Arguments
// ---------------------------------------------------------------------------

/// What `add`'s arguments ask for.
#[derive(Debug, PartialEq, Eq)]
pub struct AddRequest {
    pub branch: Option<String>,
    pub name: Option<String>,
    pub dirname: Option<String>,
    pub parentdir: Option<String>,
    pub from: Option<String>,
}

pub struct AddReqSpec {
    pub branch: Option<Seq<char>>,
    pub name: Option<Seq<char>>,
    pub dirname: Option<Seq<char>>,
    pub parentdir: Option<Seq<char>>,
    pub from: Option<Seq<char>>,
}

impl View for AddRequest {
    type V = AddReqSpec;

    open spec fn view(&self) -> AddReqSpec {
        AddReqSpec {
            branch: opt_view(self.branch),
            name: opt_view(self.name),
            dirname: opt_view(self.dirname),
            parentdir: opt_view(self.parentdir),
            from: opt_view(self.from),
        }
    }
}

pub open spec fn no_request() -> AddReqSpec {
    AddReqSpec { branch: None, name: None, dirname: None, parentdir: None, from: None }
}

/// `args[i..]` read into `req`: `-n`/`--name`, `--dirname`,
/// `-p`/`--parentdir` and `--from` take the next argument (or their
/// `--flag=value` form), `--stay` is accepted and ignored, any other dash
/// word (but `-` itself) is unknown, and one positional is the branch.
pub open spec fn add_args_from(args: Seq<Seq<char>>, i: int, req: AddReqSpec) -> Result<AddReqSpec, Seq<char>>
    decreases args.len() - i,
{
    if i < 0 || i >= args.len() {
        Ok(req)
    } else {
        let a = args[i];
        if a == "-n"@ || a == "--name"@ {
            if i + 1 < args.len() {
                add_args_from(args, i + 2, AddReqSpec { name: Some(args[i + 1]), ..req })
            } else {
                Err("--name needs a name"@)
            }
        } else if a == "--dirname"@ {
            if i + 1 < args.len() {
                add_args_from(args, i + 2, AddReqSpec { dirname: Some(args[i + 1]), ..req })
            } else {
                Err("--dirname needs a directory"@)
            }
        } else if a == "-p"@ || a == "--parentdir"@ {
            if i + 1 < args.len() {
                add_args_from(args, i + 2, AddReqSpec { parentdir: Some(args[i + 1]), ..req })
            } else {
                Err("--parentdir needs a directory"@)
            }
        } else if a == "--from"@ {
            if i + 1 < args.len() {
                add_args_from(args, i + 2, AddReqSpec { from: Some(args[i + 1]), ..req })
            } else {
                Err("--from needs a ref"@)
            }
        } else if is_prefix("--name="@, a) {
            add_args_from(args, i + 1, AddReqSpec { name: Some(a.skip("--name="@.len() as int)), ..req })
        } else if is_prefix("--dirname="@, a) {
            add_args_from(
                args,
                i + 1,
                AddReqSpec { dirname: Some(a.skip("--dirname="@.len() as int)), ..req },
            )
        } else if is_prefix("--parentdir="@, a) {
            add_args_from(
                args,
                i + 1,
                AddReqSpec { parentdir: Some(a.skip("--parentdir="@.len() as int)), ..req },
            )
        } else if is_prefix("--from="@, a) {
            add_args_from(args, i + 1, AddReqSpec { from: Some(a.skip("--from="@.len() as int)), ..req })
        } else if a == "--stay"@ {
            add_args_from(args, i + 1, req)
        } else if a.len() > 0 && a[0] == '-' && a != "-"@ {
            Err("unknown option '"@ + a + "'\nTry 'git-wt --help'"@)
        } else if req.branch is Some {
            Err("too many arguments\nTry 'git-wt --help'"@)
        } else {
            add_args_from(args, i + 1, AddReqSpec { branch: Some(a), ..req })
        }
    }
}

/// `add`'s arguments read, then checked: `--name` and `--dirname` exclude
/// each other, and neither may be empty.
pub open spec fn parse_add_spec(args: Seq<Seq<char>>) -> Result<AddReqSpec, Seq<char>> {
    match add_args_from(args, 0, no_request()) {
        Err(e) => Err(e),
        Ok(r) => if r.name is Some && r.dirname is Some {
            Err("--name and --dirname conflict"@)
        } else if r.name matches Some(n) && n.len() == 0 {
            Err("--name cannot be empty"@)
        } else if r.dirname matches Some(d) && d.len() == 0 {
            Err("--dirname cannot be empty"@)
        } else {
            Ok(r)
        },
    }
}

pub open spec fn add_result(r: Result<AddRequest, String>) -> Result<AddReqSpec, Seq<char>> {
    match r {
        Ok(q) => Ok(q@),
        Err(e) => Err(e@),
    }
}

fn err_with(head: &str, a: &[char], tail: &str) -> (r: String)
    ensures
        r@ == head@ + a@ + tail@,
{
    let mut e = chars_of(head);
    push_all(&mut e, a);
    push_str(&mut e, tail);
    string_of(e.as_slice())
}

/// Read `add`'s arguments.
pub fn parse_add_args(args: &[String]) -> (r: Result<AddRequest, String>)
    ensures
        add_result(r) == parse_add_spec(str_views(args@)),
{
    let ghost av = str_views(args@);
    let mut req = AddRequest { branch: None, name: None, dirname: None, parentdir: None, from: None };
    let mut i: usize = 0;
    while i < args.len()
        invariant
            i <= args.len(),
            av == str_views(args@),
            add_args_from(av, 0, no_request()) == add_args_from(av, i as int, req@),
        decreases args.len() - i,
    {
        let a = chars_of(args[i].as_str());
        assert(av[i as int] == a@);
        let has_next = i + 1 < args.len();
        if crate::text::is(a.as_slice(), "-n") || crate::text::is(a.as_slice(), "--name") {
            if !has_next {
                return Err("--name needs a name".to_string());
            }
            assert(av[i + 1] == args@[i + 1]@);
            req.name = Some(args[i + 1].clone());
            i = i + 2;
        } else if crate::text::is(a.as_slice(), "--dirname") {
            if !has_next {
                return Err("--dirname needs a directory".to_string());
            }
            assert(av[i + 1] == args@[i + 1]@);
            req.dirname = Some(args[i + 1].clone());
            i = i + 2;
        } else if crate::text::is(a.as_slice(), "-p") || crate::text::is(a.as_slice(), "--parentdir") {
            if !has_next {
                return Err("--parentdir needs a directory".to_string());
            }
            assert(av[i + 1] == args@[i + 1]@);
            req.parentdir = Some(args[i + 1].clone());
            i = i + 2;
        } else if crate::text::is(a.as_slice(), "--from") {
            if !has_next {
                return Err("--from needs a ref".to_string());
            }
            assert(av[i + 1] == args@[i + 1]@);
            req.from = Some(args[i + 1].clone());
            i = i + 2;
        } else {
            match strip_prefix(a.as_slice(), "--name=") {
                Some(v) => {
                    req.name = Some(string_of(v.as_slice()));
                },
                None => match strip_prefix(a.as_slice(), "--dirname=") {
                    Some(v) => {
                        req.dirname = Some(string_of(v.as_slice()));
                    },
                    None => match strip_prefix(a.as_slice(), "--parentdir=") {
                        Some(v) => {
                            req.parentdir = Some(string_of(v.as_slice()));
                        },
                        None => match strip_prefix(a.as_slice(), "--from=") {
                            Some(v) => {
                                req.from = Some(string_of(v.as_slice()));
                            },
                            None => {
                                if crate::text::is(a.as_slice(), "--stay") {
                                } else if a.len() > 0 && a[0] == '-' && !crate::text::is(a.as_slice(), "-") {
                                    return Err(err_with("unknown option '", a.as_slice(), "'\nTry 'git-wt --help'"));
                                } else if req.branch.is_some() {
                                    return Err("too many arguments\nTry 'git-wt --help'".to_string());
                                } else {
                                    req.branch = Some(args[i].clone());
                                }
                            },
                        },
                    },
                },
            }
            i = i + 1;
        }
    }
    let both = req.name.is_some() && req.dirname.is_some();
    if both {
        return Err("--name and --dirname conflict".to_string());
    }
    match &req.name {
        Some(n) => {
            if n.as_str().is_empty() {
                return Err("--name cannot be empty".to_string());
            }
        },
        None => {},
    }
    match &req.dirname {
        Some(d) => {
            if d.as_str().is_empty() {
                return Err("--dirname cannot be empty".to_string());
            }
        },
        None => {},
    }
    Ok(req)
}

// ---------------------------------------------------------------------------
// The git call
// ---------------------------------------------------------------------------

/// The `git worktree add` that creates the worktree: check out the local
/// branch when there is one, else track the remote branch, else create
/// the branch from `from_ref`.
pub open spec fn add_argv_spec(
    branch: Seq<char>,
    dir: Seq<char>,
    has_local: bool,
    remote: Option<Seq<char>>,
    from_ref: Seq<char>,
) -> Seq<Seq<char>> {
    let head = seq!["worktree"@, "add"@];
    if has_local {
        head + seq![dir, branch]
    } else {
        match remote {
            Some(r) => head + seq!["--track"@, "-b"@, branch, dir, r + seq!['/'] + branch],
            None => head + seq!["-b"@, branch, dir, from_ref],
        }
    }
}

/// The note printed beside the new worktree's name.
pub open spec fn add_summary_spec(branch: Seq<char>, has_local: bool, remote: Option<Seq<char>>, from_ref: Seq<char>) -> Seq<char> {
    if has_local {
        "branch "@ + branch
    } else {
        match remote {
            Some(r) => "branch "@ + branch + " tracking "@ + r + seq!['/'] + branch,
            None => "branch "@ + branch + " from "@ + from_ref,
        }
    }
}

/// The `git worktree add` arguments and the note for a new worktree.
pub fn add_plan(branch: &str, dir: &str, has_local: bool, remote: Option<&str>, from_ref: &str) -> (r: (Vec<String>, String))
    ensures
        str_views(r.0@) == add_argv_spec(branch@, dir@, has_local, crate::commits::rows::opt_str(remote), from_ref@),
        r.1@ == add_summary_spec(branch@, has_local, crate::commits::rows::opt_str(remote), from_ref@),
{
    let mut argv: Vec<String> = Vec::new();
    argv.push("worktree".to_string());
    argv.push("add".to_string());
    let mut note = chars_of("branch ");
    push_str(&mut note, branch);
    let ghost head = str_views(argv@);
    assert(head =~= seq!["worktree"@, "add"@]);
    if has_local {
        argv.push(dir.to_string());
        argv.push(branch.to_string());
        assert(str_views(argv@) =~= head + seq![dir@, branch@]);
    } else {
        match remote {
            Some(r) => {
                argv.push("--track".to_string());
                argv.push("-b".to_string());
                argv.push(branch.to_string());
                argv.push(dir.to_string());
                let mut t = chars_of(r);
                t.push('/');
                push_str(&mut t, branch);
                assert(t@ =~= r@ + seq!['/'] + branch@);
                argv.push(string_of(t.as_slice()));
                assert(str_views(argv@) =~= head + seq!["--track"@, "-b"@, branch@, dir@, r@ + seq!['/'] + branch@]);
                push_str(&mut note, " tracking ");
                crate::text::push_all(&mut note, t.as_slice());
            },
            None => {
                argv.push("-b".to_string());
                argv.push(branch.to_string());
                argv.push(dir.to_string());
                argv.push(from_ref.to_string());
                assert(str_views(argv@) =~= head + seq!["-b"@, branch@, dir@, from_ref@]);
                push_str(&mut note, " from ");
                push_str(&mut note, from_ref);
            },
        }
    }
    assert(str_views(argv@) =~= add_argv_spec(
        branch@,
        dir@,
        has_local,
        crate::commits::rows::opt_str(remote),
        from_ref@,
    ));
    assert(note@ =~= add_summary_spec(branch@, has_local, crate::commits::rows::opt_str(remote), from_ref@));
    (argv, string_of(note.as_slice()))
}

/// The remote whose tracking ref `<remote>/<branch>` exists: `origin`
/// first, else the first configured remote that has it. `remote_has[i]`
/// says whether `remotes[i]` has it.
pub open spec fn remote_spec(origin_has: bool, remotes: Seq<Seq<char>>, remote_has: Seq<bool>, n: int) -> Option<Seq<char>>
    decreases n,
{
    if origin_has {
        Some("origin"@)
    } else if n <= 0 {
        None
    } else {
        match remote_spec(origin_has, remotes, remote_has, n - 1) {
            Some(r) => Some(r),
            None => if remote_has[n - 1] {
                Some(remotes[n - 1])
            } else {
                None
            },
        }
    }
}

/// Find the remote to track for a branch no local ref has.
pub fn find_remote_branch(origin_has: bool, remotes: &[String], remote_has: &[bool]) -> (r: Option<String>)
    requires
        remotes.len() == remote_has.len(),
    ensures
        crate::worktree::opt_view(r) == remote_spec(origin_has, str_views(remotes@), remote_has@, remotes.len() as int),
{
    if origin_has {
        return Some("origin".to_string());
    }
    let mut i: usize = 0;
    while i < remotes.len()
        invariant
            i <= remotes.len(),
            remotes.len() == remote_has.len(),
            !origin_has,
            remote_spec(origin_has, str_views(remotes@), remote_has@, i as int) is None,
        decreases remotes.len() - i,
    {
        if remote_has[i] {
            let r = remotes[i].clone();
            proof {
                lemma_remote_found(origin_has, str_views(remotes@), remote_has@, i as int + 1, remotes.len() as int);
            }
            return Some(r);
        }
        i = i + 1;
    }
    None
}

proof fn lemma_remote_found(origin_has: bool, remotes: Seq<Seq<char>>, remote_has: Seq<bool>, k: int, n: int)
    requires
        1 <= k <= n,
        remote_spec(origin_has, remotes, remote_has, k) is Some,
    ensures
        remote_spec(origin_has, remotes, remote_has, n) == remote_spec(origin_has, remotes, remote_has, k),
    decreases n - k,
{
    if n > k {
        lemma_remote_found(origin_has, remotes, remote_has, k, n - 1);
    }
}

} // verus!
