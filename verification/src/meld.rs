//! `meld`: its arguments, and the `--name-status` listings that say which
//! files to extract for each pane.

use vstd::prelude::*;

use crate::text::{
    chars_of, lines, lines_spec, push_all, push_str, slice_from, split, split_once,
    split_once_spec, split_spec, str_views, string_of, trim, trim_spec, trim_start,
    trim_start_spec, views, words, words_spec,
};
use crate::commits::md::{joined, push_joined};
use crate::commits::view::{check_targets, first_repeat, targets_spec};
use crate::text::{decimal, decimal_of, is};
use crate::worktree::opt_view;

verus! {

/// `s` without its trailing `c`s.
pub open spec fn trim_end_char(s: Seq<char>, c: char) -> Seq<char>
    decreases s.len(),
{
    if s.len() > 0 && s.last() == c {
        trim_end_char(s.drop_last(), c)
    } else {
        s
    }
}

fn trim_end_char_of(s: &[char], c: char) -> (r: Vec<char>)
    ensures
        r@ == trim_end_char(s@, c),
{
    let mut n: usize = s.len();
    assert(s@.take(n as int) =~= s@);
    while n > 0 && s[n - 1] == c
        invariant
            n <= s.len(),
            trim_end_char(s@, c) == trim_end_char(s@.take(n as int), c),
        decreases n,
    {
        assert(s@.take(n as int).drop_last() =~= s@.take(n - 1));
        n = n - 1;
    }
    crate::text::slice_range(s, 0, n)
}

/// The paths of one listing line's path fields: each tab-separated field
/// without its leading whitespace, empty ones dropped.
pub open spec fn field_paths(fs: Seq<Seq<char>>) -> Seq<Seq<char>>
    decreases fs.len(),
{
    if fs.len() == 0 {
        Seq::empty()
    } else {
        let p = field_paths(fs.drop_last());
        let f = trim_start_spec(fs.last());
        if f.len() > 0 {
            p.push(f)
        } else {
            p
        }
    }
}

/// A line with no tab and a first character wider than one byte, which
/// the listing reader cannot cut after its first byte.
pub open spec fn uncuttable(l: Seq<char>) -> bool {
    split_once_spec(l, '\t') is None && l.len() > 0 && l[0] as u32 >= 0x80
}

/// A listing line without its trailing `\r`s.
pub open spec fn listing_line(l: Seq<char>) -> Seq<char> {
    trim_end_char(l, '\r')
}

/// The status field and the path fields of a listing line: cut at the
/// first tab, or after the first character of a line without one.
pub open spec fn line_parts(l: Seq<char>) -> (Seq<char>, Seq<char>) {
    match split_once_spec(l, '\t') {
        Some(p) => p,
        None => (l.take(1), l.skip(1)),
    }
}

/// The status letter of a status field: its first character once
/// trimmed, `?` for a blank one.
pub open spec fn status_of(code: Seq<char>) -> char {
    let t = trim_spec(code);
    if t.len() > 0 {
        t[0]
    } else {
        '?'
    }
}

/// The `(path, status)` entries of listing lines `ls[i..]`: blank lines
/// skipped, every path of a rename or copy kept, and the first line that
/// names no path an error quoting it.
pub open spec fn name_status_from(ls: Seq<Seq<char>>, i: int) -> Result<Seq<(Seq<char>, char)>, Seq<char>>
    decreases ls.len() - i,
{
    if i < 0 || i >= ls.len() {
        Ok(Seq::empty())
    } else {
        let l = listing_line(ls[i]);
        if trim_spec(l).len() == 0 {
            name_status_from(ls, i + 1)
        } else {
            let parts = line_parts(l);
            let st = status_of(parts.0);
            let paths = field_paths(split_spec(parts.1, '\t'));
            if paths.len() == 0 {
                Err("malformed --name-status line: '"@ + l + "'"@)
            } else {
                match name_status_from(ls, i + 1) {
                    Ok(rest) => Ok(paths.map_values(|p: Seq<char>| (p, st)) + rest),
                    Err(e) => Err(e),
                }
            }
        }
    }
}

/// No line of `out` is one the reader cannot cut.
pub open spec fn cuttable_listing(out: Seq<char>) -> bool {
    forall|i: int|
        0 <= i < lines_spec(out).len() ==> !uncuttable(#[trigger] listing_line(lines_spec(out)[i]))
}

pub open spec fn pair_result(r: Result<Vec<(String, char)>, String>) -> Result<Seq<(Seq<char>, char)>, Seq<char>> {
    match r {
        Ok(v) => Ok(v@.map_values(|p: (String, char)| (p.0@, p.1))),
        Err(e) => Err(e@),
    }
}

/// The paths one line's fields name.
fn paths_of_fields(rest: &[char]) -> (r: Vec<Vec<char>>)
    ensures
        views(r@) == field_paths(split_spec(rest@, '\t')),
{
    let fs = split(rest, '\t');
    let ghost fv = views(fs@);
    let mut out: Vec<Vec<char>> = Vec::new();
    let mut k: usize = 0;
    while k < fs.len()
        invariant
            k <= fs.len(),
            fv == views(fs@),
            views(out@) == field_paths(fv.take(k as int)),
        decreases fs.len() - k,
    {
        assert(fv.take(k + 1).drop_last() =~= fv.take(k as int));
        assert(fv.take(k + 1).last() == fs@[k as int]@);
        let p = trim_start(fs[k].as_slice());
        if p.len() > 0 {
            let ghost before = views(out@);
            out.push(p);
            assert(views(out@) =~= before.push(trim_start_spec(fs@[k as int]@)));
        }
        k = k + 1;
    }
    assert(fv.take(k as int) =~= fv);
    out
}

/// Read `git diff --name-status` output into `(path, status)` entries: a
/// rename's similarity score stays in the status field, and both of its
/// paths are kept.
pub fn parse_name_status(out: &str) -> (r: Result<Vec<(String, char)>, String>)
    requires
        cuttable_listing(out@),
    ensures
        pair_result(r) == name_status_from(lines_spec(out@), 0),
{
    let c = chars_of(out);
    let ls = lines(c.as_slice());
    let ghost lv = views(ls@);
    let mut v: Vec<(String, char)> = Vec::new();
    let mut i: usize = 0;
    while i < ls.len()
        invariant
            i <= ls.len(),
            lv == views(ls@),
            lv == lines_spec(out@),
            cuttable_listing(out@),
            name_status_from(lv, 0) == match name_status_from(lv, i as int) {
                Ok(w) => Ok(v@.map_values(|p: (String, char)| (p.0@, p.1)) + w),
                Err(e) => Err(e),
            },
        decreases ls.len() - i,
    {
        assert(lv[i as int] == ls@[i as int]@);
        let l = trim_end_char_of(ls[i].as_slice(), '\r');
        assert(!uncuttable(listing_line(lv[i as int])));
        let t = trim(l.as_slice());
        if t.len() > 0 {
            let (code, rest) = match split_once(l.as_slice(), '\t') {
                Some((a, b)) => (a, b),
                None => {
                    let a = crate::text::slice_range(l.as_slice(), 0, 1);
                    let b = slice_from(l.as_slice(), 1);
                    (a, b)
                },
            };
            let ct = trim(code.as_slice());
            let st = if ct.len() > 0 {
                ct[0]
            } else {
                '?'
            };
            let paths = paths_of_fields(rest.as_slice());
            if paths.len() == 0 {
                let mut e = chars_of("malformed --name-status line: '");
                push_all(&mut e, l.as_slice());
                push_str(&mut e, "'");
                return Err(string_of(e.as_slice()));
            }
            let ghost before = v@.map_values(|p: (String, char)| (p.0@, p.1));
            let ghost pv = views(paths@);
            let mut k: usize = 0;
            while k < paths.len()
                invariant
                    k <= paths.len(),
                    pv == views(paths@),
                    v@.map_values(|p: (String, char)| (p.0@, p.1)) == before + pv.take(k as int).map_values(
                        |p: Seq<char>| (p, st),
                    ),
                decreases paths.len() - k,
            {
                let ghost vb = v@.map_values(|p: (String, char)| (p.0@, p.1));
                v.push((string_of(paths[k].as_slice()), st));
                assert(v@.map_values(|p: (String, char)| (p.0@, p.1)) =~= vb.push((pv[k as int], st)));
                assert(pv.take(k + 1).map_values(|p: Seq<char>| (p, st)) =~= pv.take(k as int).map_values(
                    |p: Seq<char>| (p, st),
                ).push((pv[k as int], st)));
                k = k + 1;
            }
            assert(pv.take(k as int) =~= pv);
            proof {
                match name_status_from(lv, i + 1) {
                    Ok(w) => {
                        assert(before + (pv.map_values(|p: Seq<char>| (p, st)) + w) =~= (before
                            + pv.map_values(|p: Seq<char>| (p, st))) + w);
                    },
                    Err(_) => {},
                }
            }
        }
        i = i + 1;
    }
    assert(v@.map_values(|p: (String, char)| (p.0@, p.1)) + Seq::<(Seq<char>, char)>::empty() =~= v@.map_values(
        |p: (String, char)| (p.0@, p.1),
    ));
    Ok(v)
}

/// The changed paths with their statuses, from `git diff --name-status`.
pub fn changed_paths_status(out: &str) -> (r: Result<Vec<(String, char)>, String>)
    requires
        cuttable_listing(out@),
    ensures
        pair_result(r) == name_status_from(lines_spec(out@), 0),
{
    parse_name_status(out)
}

/// The arguments of the `git diff --name-status` for a range spec: its
/// whitespace-separated words after the two fixed ones.
pub fn name_status_args(spec: &str) -> (r: Vec<String>)
    ensures
        str_views(r@) == seq!["diff"@, "--name-status"@] + words_spec(spec@),
{
    let mut argv: Vec<String> = Vec::new();
    argv.push("diff".to_string());
    argv.push("--name-status".to_string());
    let c = chars_of(spec);
    let w = words(c.as_slice());
    let mut i: usize = 0;
    while i < w.len()
        invariant
            i <= w.len(),
            str_views(argv@) == seq!["diff"@, "--name-status"@] + views(w@).take(i as int),
        decreases w.len() - i,
    {
        let ghost before = str_views(argv@);
        argv.push(string_of(w[i].as_slice()));
        assert(str_views(argv@) =~= before.push(w@[i as int]@));
        assert(views(w@).take(i + 1) =~= views(w@).take(i as int).push(w@[i as int]@));
        i = i + 1;
    }
    assert(views(w@).take(i as int) =~= views(w@));
    argv
}

/// Just the changed paths, in listing order.
pub fn changed_paths(out: &str) -> (r: Result<Vec<String>, String>)
    requires
        cuttable_listing(out@),
    ensures
        match r {
            Ok(v) => name_status_from(lines_spec(out@), 0) matches Ok(w) && str_views(v@) == w.map_values(
                |p: (Seq<char>, char)| p.0,
            ),
            Err(e) => name_status_from(lines_spec(out@), 0) == Err::<Seq<(Seq<char>, char)>, Seq<char>>(e@),
        },
{
    let pairs = match parse_name_status(out) {
        Ok(p) => p,
        Err(e) => {
            return Err(e);
        },
    };
    let ghost pv = pairs@.map_values(|p: (String, char)| (p.0@, p.1));
    let mut paths: Vec<String> = Vec::new();
    let mut i: usize = 0;
    while i < pairs.len()
        invariant
            i <= pairs.len(),
            pv == pairs@.map_values(|p: (String, char)| (p.0@, p.1)),
            str_views(paths@) == pv.take(i as int).map_values(|p: (Seq<char>, char)| p.0),
        decreases pairs.len() - i,
    {
        let ghost before = str_views(paths@);
        paths.push(pairs[i].0.clone());
        assert(str_views(paths@) =~= before.push(pv[i as int].0));
        assert(pv.take(i + 1).map_values(|p: (Seq<char>, char)| p.0) =~= pv.take(i as int).map_values(
            |p: (Seq<char>, char)| p.0,
        ).push(pv[i as int].0));
        i = i + 1;
    }
    assert(pv.take(i as int) =~= pv);
    Ok(paths)
}

/// The merge base `git merge-base <a> <b>` printed, trimmed.
pub fn merge_base(out: &str) -> (r: String)
    ensures
        r@ == trim_spec(out@),
{
    let c = chars_of(out);
    let t = trim(c.as_slice());
    string_of(t.as_slice())
}

// ---------------------------------------------------------------------------
// Arguments
// ---------------------------------------------------------------------------

/// What `meld`'s arguments ask for.
#[derive(Debug, Default, PartialEq, Eq)]
pub struct MeldArgs {
    /// Only the differing files, extracted into temporary directories.
    pub diff: bool,
    /// The range for `--diff`: `None` for `A..B`, `...` for `A...B`.
    pub range: Option<String>,
    /// Three panes: the merge base of A and B in the middle.
    pub three_way: bool,
    /// An explicit base ref for the middle pane.
    pub base: Option<String>,
}

pub struct MeldSpec {
    pub diff: bool,
    pub range: Option<Seq<char>>,
    pub three_way: bool,
    pub base: Option<Seq<char>>,
}

impl View for MeldArgs {
    type V = MeldSpec;

    open spec fn view(&self) -> MeldSpec {
        MeldSpec { diff: self.diff, range: opt_view(self.range), three_way: self.three_way, base: opt_view(self.base) }
    }
}

/// `args[i..]` read into `m`: `--diff`, `...` (the fork view), `--3way`,
/// `--base <ref>`; `..` is refused as the default spelled out, and any
/// other dash word or positional is an error.
pub open spec fn meld_from(args: Seq<Seq<char>>, i: int, m: MeldSpec) -> Result<MeldSpec, Seq<char>>
    decreases args.len() - i,
{
    if i < 0 || i >= args.len() {
        Ok(m)
    } else {
        let a = args[i];
        if a == "--diff"@ {
            meld_from(args, i + 1, MeldSpec { diff: true, ..m })
        } else if a == "..."@ {
            meld_from(args, i + 1, MeldSpec { range: Some("..."@), ..m })
        } else if a == ".."@ {
            Err("'..' is the default range for meld --diff; use '...' for the fork view"@)
        } else if a == "--3way"@ {
            meld_from(args, i + 1, MeldSpec { three_way: true, ..m })
        } else if a == "--base"@ {
            if i + 1 < args.len() {
                meld_from(args, i + 2, MeldSpec { base: Some(args[i + 1]), ..m })
            } else {
                Err("--base needs a ref"@)
            }
        } else if a.len() > 0 && a[0] == '-' && a != "-"@ {
            Err("unknown option '"@ + a + "' for meld\nTry 'git-wt --help'"@)
        } else {
            Err("meld takes no positional arguments, got '"@ + a + "'\nTry 'git-wt --help'"@)
        }
    }
}

/// `meld`'s arguments read, then `--3way` and `--base` refused together.
pub open spec fn parse_meld_spec(args: Seq<Seq<char>>) -> Result<MeldSpec, Seq<char>> {
    match meld_from(args, 0, MeldSpec { diff: false, range: None, three_way: false, base: None }) {
        Ok(m) => if m.three_way && m.base is Some {
            Err("--3way and --base are alternatives; use one or the other"@)
        } else {
            Ok(m)
        },
        Err(e) => Err(e),
    }
}

pub open spec fn meld_result(r: Result<MeldArgs, String>) -> Result<MeldSpec, Seq<char>> {
    match r {
        Ok(m) => Ok(m@),
        Err(e) => Err(e@),
    }
}

/// Read `meld`'s arguments.
pub fn parse_meld_args(args: &[String]) -> (r: Result<MeldArgs, String>)
    ensures
        meld_result(r) == parse_meld_spec(str_views(args@)),
{
    let ghost av = str_views(args@);
    let mut out = MeldArgs { diff: false, range: None, three_way: false, base: None };
    let mut i: usize = 0;
    while i < args.len()
        invariant
            i <= args.len(),
            av == str_views(args@),
            meld_from(av, 0, MeldSpec { diff: false, range: None, three_way: false, base: None })
                == meld_from(av, i as int, out@),
        decreases args.len() - i,
    {
        let a = chars_of(args[i].as_str());
        assert(av[i as int] == a@);
        if crate::text::is(a.as_slice(), "--diff") {
            out.diff = true;
            i = i + 1;
        } else if crate::text::is(a.as_slice(), "...") {
            out.range = Some("...".to_string());
            i = i + 1;
        } else if crate::text::is(a.as_slice(), "..") {
            return Err("'..' is the default range for meld --diff; use '...' for the fork view".to_string());
        } else if crate::text::is(a.as_slice(), "--3way") {
            out.three_way = true;
            i = i + 1;
        } else if crate::text::is(a.as_slice(), "--base") {
            if i + 1 >= args.len() {
                return Err("--base needs a ref".to_string());
            }
            assert(av[i + 1] == args@[i + 1]@);
            out.base = Some(args[i + 1].clone());
            i = i + 2;
        } else if a.len() > 0 && a[0] == '-' && !crate::text::is(a.as_slice(), "-") {
            let mut e = chars_of("unknown option '");
            push_all(&mut e, a.as_slice());
            push_str(&mut e, "' for meld\nTry 'git-wt --help'");
            return Err(string_of(e.as_slice()));
        } else {
            let mut e = chars_of("meld takes no positional arguments, got '");
            push_all(&mut e, a.as_slice());
            push_str(&mut e, "'\nTry 'git-wt --help'");
            return Err(string_of(e.as_slice()));
        }
    }
    if out.three_way && out.base.is_some() {
        return Err("--3way and --base are alternatives; use one or the other".to_string());
    }
    Ok(out)
}

// ---------------------------------------------------------------------------
// What `meld` checks before it opens anything
// ---------------------------------------------------------------------------

/// The options that only make sense with `--diff`, as they are named back.
pub open spec fn diff_only(m: MeldSpec) -> Seq<Seq<char>> {
    let a: Seq<Seq<char>> = if m.three_way {
        seq!["--3way"@]
    } else {
        Seq::empty()
    };
    let b = if m.base is Some {
        a.push("--base"@)
    } else {
        a
    };
    if m.range is Some {
        b.push("'..'/'...'"@)
    } else {
        b
    }
}

/// What `meld` refuses before looking for the program: two or three
/// worktrees, none twice unless diffing, the `--diff` options only with
/// `--diff`, `--3way` or `--base` but not both, and `...` as the only range
/// worth spelling.
pub open spec fn meld_check_spec(idxs: Seq<usize>, m: MeldSpec) -> Result<(), Seq<char>> {
    let n = idxs.len();
    if n == 1 {
        Err("meld needs 2 or 3 worktrees, e.g. 'git-wt 1,2 meld'"@)
    } else if n != 2 && n != 3 {
        Err("meld takes at most 3 worktrees, got "@ + decimal(n))
    } else if !m.diff && first_repeat(idxs, 0) is Some {
        Err("worktree #"@ + decimal((first_repeat(idxs, 0)->0 + 1) as nat) + " listed twice"@)
    } else if !m.diff && diff_only(m).len() > 0 {
        Err(joined(diff_only(m), ", "@) + " only applies to 'meld --diff'; add --diff or drop "@ + joined(
            diff_only(m),
            ", "@,
        ))
    } else if m.three_way && m.base is Some {
        Err("--3way and --base are alternatives; use one or the other"@)
    } else if m.range matches Some(r) && r != ".."@ && r != "..."@ {
        Err("range for meld --diff must be '..' or '...', got '"@ + m.range->0 + "'"@)
    } else if m.range == Some(".."@) {
        Err("'..' is the default range for meld --diff; use '...' for the fork view"@)
    } else {
        Ok(())
    }
}

fn push_item(out: &mut Vec<char>, Ghost(items): Ghost<Seq<Seq<char>>>, first: bool, item: &str)
    requires
        old(out)@ == joined(items, ", "@),
        first == (items.len() == 0),
    ensures
        final(out)@ == joined(items.push(item@), ", "@),
{
    let c = chars_of(item);
    push_joined(out, Ghost(items), first, c.as_slice(), ", ");
}

/// Check `meld`'s targets and options: see `meld_check_spec`.
pub fn meld_check(idxs: &[usize], m: &MeldArgs) -> (r: Result<(), String>)
    requires
        forall|k: int| 0 <= k < idxs.len() ==> idxs[k] < usize::MAX,
    ensures
        match meld_check_spec(idxs@, m@) {
            Ok(()) => r is Ok,
            Err(e) => r matches Err(x) && x@ == e,
        },
{
    let n = idxs.len();
    if n == 1 {
        return Err(string_of(chars_of("meld needs 2 or 3 worktrees, e.g. 'git-wt 1,2 meld'").as_slice()));
    }
    if n != 2 && n != 3 {
        let mut e: Vec<char> = Vec::new();
        push_str(&mut e, "meld takes at most 3 worktrees, got ");
        push_all(&mut e, decimal_of(n).as_slice());
        return Err(string_of(e.as_slice()));
    }
    if !m.diff {
        match check_targets(idxs, None) {
            Err(e) => {
                return Err(e);
            },
            Ok(()) => {},
        }
        let mut bad: Vec<char> = Vec::new();
        let ghost mut items: Seq<Seq<char>> = Seq::empty();
        let mut count: usize = 0;
        assert(bad@ =~= joined(items, ", "@));
        if m.three_way {
            push_item(&mut bad, Ghost(items), count == 0, "--3way");
            proof {
                items = items.push("--3way"@);
            }
            count = count + 1;
        }
        if m.base.is_some() {
            push_item(&mut bad, Ghost(items), count == 0, "--base");
            proof {
                items = items.push("--base"@);
            }
            count = count + 1;
        }
        if m.range.is_some() {
            push_item(&mut bad, Ghost(items), count == 0, "'..'/'...'");
            proof {
                items = items.push("'..'/'...'"@);
            }
            count = count + 1;
        }
        assert(items =~= diff_only(m@));
        if count > 0 {
            let mut e: Vec<char> = Vec::new();
            push_all(&mut e, bad.as_slice());
            push_str(&mut e, " only applies to 'meld --diff'; add --diff or drop ");
            push_all(&mut e, bad.as_slice());
            return Err(string_of(e.as_slice()));
        }
    }
    if m.three_way && m.base.is_some() {
        return Err(string_of(chars_of("--3way and --base are alternatives; use one or the other").as_slice()));
    }
    if let Some(r) = &m.range {
        let rc = chars_of(r.as_str());
        if !crate::text::is(rc.as_slice(), "..") && !crate::text::is(rc.as_slice(), "...") {
            let mut e: Vec<char> = Vec::new();
            push_str(&mut e, "range for meld --diff must be '..' or '...', got '");
            push_all(&mut e, rc.as_slice());
            push_str(&mut e, "'");
            return Err(string_of(e.as_slice()));
        }
        if is(rc.as_slice(), "..") {
            return Err(
                string_of(chars_of("'..' is the default range for meld --diff; use '...' for the fork view").as_slice()),
            );
        }
    }
    Ok(())
}

/// `--diff` compares two trees; three are for the plain three-pane view.
pub fn meld_diff_count(diff: bool, n: usize) -> (r: Result<(), String>)
    ensures
        r is Err <==> diff && n != 2,
        r matches Err(e) ==> e@ == "'--diff' takes exactly 2 worktrees; use meld without --diff for 3-way"@,
{
    if diff && n != 2 {
        Err(string_of(chars_of("'--diff' takes exactly 2 worktrees; use meld without --diff for 3-way").as_slice()))
    } else {
        Ok(())
    }
}

/// The pane labels: the base ref first under `--3way`/`--base`, then the two
/// sides; joined as `meld` announces them.
pub open spec fn panes_spec(base: Option<Seq<char>>, left: Seq<char>, right: Seq<char>) -> Seq<char> {
    match base {
        Some(b) => b + "  ↔  "@ + left + "  ↔  "@ + right,
        None => left + "  ↔  "@ + right,
    }
}

/// What `meld` announces before it opens: see `panes_spec`.
pub fn panes(base: Option<&str>, left: &str, right: &str) -> (r: String)
    ensures
        r@ == panes_spec(crate::commits::rows::opt_str(base), left@, right@),
{
    let mut m: Vec<char> = Vec::new();
    if let Some(b) = base {
        push_str(&mut m, b);
        push_str(&mut m, "  ↔  ");
    }
    push_str(&mut m, left);
    push_str(&mut m, "  ↔  ");
    push_str(&mut m, right);
    string_of(m.as_slice())
}


} // verus!
