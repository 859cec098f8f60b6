//! The target grammar: a comma-separated list of worktree numbers and branch
//! names (`1,2`, `main,2`), the `-b/--branch` and `-t/--target` flags that
//! add to it, and the 1-based numbering every command runs on.

use vstd::prelude::*;

use crate::text::{
    chars_all, chars_of, decimal, decimal_of, has_char, is, is_digit, is_prefix, parse_usize,
    parse_usize_spec, push_all, push_str, same, slice_from, split, split_spec, starts_with,
    starts_with_str, str_views, string_of, strings_of, strip_prefix, views,
};
use crate::worktree::{
    branch_position, lemma_position_of_branch, on_branch, opt_view, position_of_branch,
    worktree_on_branch,
    Worktree,
};

verus! {

// ---------------------------------------------------------------------------
// Specifications
// ---------------------------------------------------------------------------

pub open spec fn bad_list_msg(tok: Seq<char>) -> Seq<char> {
    "bad worktree list '"@ + tok + "'; want numbers or branches, e.g. '1,2' or 'main,2'"@
}

pub open spec fn has_empty_piece(parts: Seq<Seq<char>>) -> bool {
    exists|i: int| 0 <= i < parts.len() && (#[trigger] parts[i]).len() == 0
}

/// What `parse_target_list` answers for `tok`.
pub open spec fn target_list_spec(tok: Seq<char>) -> Result<Option<Seq<Seq<char>>>, Seq<char>> {
    if !tok.contains(',') {
        Ok(None)
    } else if has_empty_piece(split_spec(tok, ',')) {
        Err(bad_list_msg(tok))
    } else {
        Ok(Some(split_spec(tok, ',')))
    }
}

/// A `heads/` prefix only spells the branch name that follows it.
pub open spec fn without_heads(part: Seq<char>) -> Seq<char> {
    if is_prefix("heads/"@, part) {
        part.skip(6)
    } else {
        part
    }
}

pub open spec fn no_branch_msg(want: Seq<char>) -> Seq<char> {
    "no worktree on branch '"@ + want + "' (see 'git-wt list')"@
}

/// One part of a target list as a 1-based worktree number.
pub open spec fn resolve_one_spec(trees: Seq<Worktree>, part: Seq<char>) -> Result<
    usize,
    Seq<char>,
> {
    match parse_usize_spec(part) {
        Some(n) => Ok(n),
        None => match position_of_branch(trees, without_heads(part)) {
            Some(i) => Ok((i + 1) as usize),
            None => Err(no_branch_msg(without_heads(part))),
        },
    }
}

/// A branch name (that is not itself a number) resolves to the first
/// worktree holding it, spelled with or without `heads/`, and that number
/// checks back to the worktree's index.
pub proof fn lemma_branch_resolves(trees: Seq<Worktree>, b: Seq<char>, i: int)
    requires
        0 <= i < trees.len(),
        trees.len() <= usize::MAX,
        on_branch(trees[i], b),
        forall|j: int| 0 <= j < i ==> !on_branch(#[trigger] trees[j], b),
        parse_usize_spec(b) is None,
        !is_prefix("heads/"@, b),
    ensures
        resolve_one_spec(trees, b) == Ok::<usize, Seq<char>>((i + 1) as usize),
        resolve_one_spec(trees, "heads/"@ + b) == Ok::<usize, Seq<char>>((i + 1) as usize),
        check_index_spec((i + 1) as usize, trees.len() as usize) == Ok::<usize, Seq<char>>(i as usize),
{
    reveal_strlit("heads/");
    lemma_position_of_branch(trees, b);
    match position_of_branch(trees, b) {
        Some(p) => {
            if p < i {
                assert(!on_branch(trees[p], b));
            }
            if p > i {
                assert(!on_branch(trees[i], b));
            }
        },
        None => {
            assert(!on_branch(trees[i], b));
        },
    }
    let h = "heads/"@ + b;
    assert(h.take(6) =~= "heads/"@);
    assert(h.skip(6) =~= b);
    assert(without_heads(h) == b);
    assert(h[0] == 'h');
    assert(!is_digit(h[0]));
    assert(parse_usize_spec(h) is None);
}

/// Every part resolved in order; the first part that fails names the error.
pub open spec fn resolve_list_spec(trees: Seq<Worktree>, parts: Seq<Seq<char>>) -> Result<
    Seq<usize>,
    Seq<char>,
>
    decreases parts.len(),
{
    if parts.len() == 0 {
        Ok(Seq::empty())
    } else {
        match resolve_list_spec(trees, parts.drop_last()) {
            Err(e) => Err(e),
            Ok(v) => match resolve_one_spec(trees, parts.last()) {
                Ok(n) => Ok(v.push(n)),
                Err(e) => Err(e),
            },
        }
    }
}

pub open spec fn check_index_spec(n: usize, len: usize) -> Result<usize, Seq<char>> {
    if n == 0 {
        Err("no worktree #0"@)
    } else if n > len {
        Err("no worktree #"@ + decimal(n as nat) + "; there are "@ + decimal(len as nat)
            + " (see 'git-wt list')"@)
    } else {
        Ok((n - 1) as usize)
    }
}

/// Every number checked in order; the first out of range names the error.
pub open spec fn check_all_spec(ns: Seq<usize>, len: usize) -> Result<Seq<usize>, Seq<char>>
    decreases ns.len(),
{
    if ns.len() == 0 {
        Ok(Seq::empty())
    } else {
        match check_all_spec(ns.drop_last(), len) {
            Err(e) => Err(e),
            Ok(v) => match check_index_spec(ns.last(), len) {
                Ok(k) => Ok(v.push(k)),
                Err(e) => Err(e),
            },
        }
    }
}

/// Each source split at its commas, all pieces in order.
pub open spec fn split_each(srcs: Seq<Seq<char>>) -> Seq<Seq<char>>
    decreases srcs.len(),
{
    if srcs.len() == 0 {
        Seq::empty()
    } else {
        split_each(srcs.drop_last()) + split_spec(srcs.last(), ',')
    }
}

pub open spec fn gather_spec(targets: Option<Seq<char>>, branch: Seq<Seq<char>>) -> Seq<
    Seq<char>,
> {
    match targets {
        Some(t) => split_spec(t, ',') + split_each(branch),
        None => split_each(branch),
    }
}

/// The result of pulling one flag and its value out of `args[i..]`, having
/// already taken `val` from the part before `i`: what is left, the value,
/// or the complaint.
pub open spec fn extract_spec(
    args: Seq<Seq<char>>,
    i: int,
    val: Option<Seq<char>>,
    short: Seq<char>,
    long: Seq<char>,
    example: Seq<char>,
) -> Result<(Seq<Seq<char>>, Option<Seq<char>>), Seq<char>>
    decreases args.len() - i,
{
    if i < 0 || i >= args.len() {
        Ok((Seq::empty(), val))
    } else {
        let a = args[i];
        if a == short || a == long {
            if val is Some {
                Err("'"@ + a + "' given twice"@)
            } else if i + 1 >= args.len() {
                Err("'"@ + a + "' needs a value, e.g. '"@ + a + " "@ + example + "'"@)
            } else {
                extract_spec(args, i + 2, Some(args[i + 1]), short, long, example)
            }
        } else if is_prefix(long.push('='), a) {
            if val is Some {
                Err("'"@ + long + "' given twice"@)
            } else {
                extract_spec(args, i + 1, Some(a.skip(long.len() as int + 1)), short, long, example)
            }
        } else {
            match extract_spec(args, i + 1, val, short, long, example) {
                Ok((rest, v)) => Ok((seq![a] + rest, v)),
                Err(e) => Err(e),
            }
        }
    }
}

/// The verb a raw argument list names, skipping the global flags that may
/// stand before it.
pub open spec fn verb_spec(args: Seq<Seq<char>>, i: int) -> Option<Seq<char>>
    decreases args.len() - i,
{
    if i < 0 || i >= args.len() {
        None
    } else {
        let a = args[i];
        if a == "-h"@ || a == "--help"@ || a == "-f"@ || a == "--full"@ {
            verb_spec(args, i + 1)
        } else if a == "-b"@ || a == "--branch"@ {
            if i + 1 >= args.len() {
                None
            } else {
                verb_spec(args, i + 2)
            }
        } else if is_prefix("--branch="@, a) {
            verb_spec(args, i + 1)
        } else if !is_prefix("-"@, a) {
            Some(a)
        } else {
            verb_spec(args, i + 1)
        }
    }
}

// ---------------------------------------------------------------------------
// Target lists
// ---------------------------------------------------------------------------

/// Recognize a comma-separated target list like `1,2,3` or `main,2`:
/// `Ok(None)` when the token has no comma at all, an error when a part is
/// empty (`1,,2`), and otherwise the parts as written.
pub fn parse_target_list(tok: &str) -> (r: Result<Option<Vec<String>>, String>)
    ensures
        r matches Ok(None) ==> target_list_spec(tok@) == Ok::<
            Option<Seq<Seq<char>>>,
            Seq<char>,
        >(None),
        r matches Ok(Some(v)) ==> target_list_spec(tok@) == Ok::<
            Option<Seq<Seq<char>>>,
            Seq<char>,
        >(Some(str_views(v@))),
        r matches Err(e) ==> target_list_spec(tok@) == Err::<Option<Seq<Seq<char>>>, Seq<char>>(
            e@,
        ),
{
    let t = chars_of(tok);
    if !has_char(t.as_slice(), ',') {
        return Ok(None);
    }
    let parts = split(t.as_slice(), ',');
    if any_empty(&parts) {
        let mut m: Vec<char> = Vec::new();
        push_str(&mut m, "bad worktree list '");
        push_all(&mut m, t.as_slice());
        push_str(&mut m, "'; want numbers or branches, e.g. '1,2' or 'main,2'");
        return Err(string_of(m.as_slice()));
    }
    let out = strings_of(parts.as_slice());
    Ok(Some(out))
}

/// Whether any part is empty.
fn any_empty(parts: &Vec<Vec<char>>) -> (r: bool)
    ensures
        r == has_empty_piece(views(parts@)),
{
    let mut i: usize = 0;
    while i < parts.len()
        invariant
            i <= parts.len(),
            forall|j: int| 0 <= j < i ==> views(parts@)[j].len() != 0,
        decreases parts.len() - i,
    {
        if parts[i].len() == 0 {
            assert(views(parts@)[i as int].len() == 0);
            return true;
        }
        i = i + 1;
    }
    false
}

/// One part of a target list as a 1-based worktree number. A bare number is
/// that worktree, even when a branch shares the name; `heads/NAME` is the way
/// to mean the branch.
fn resolve_one(trees: &[Worktree], part: &[char]) -> (r: Result<usize, Vec<char>>)
    ensures
        r matches Ok(n) ==> resolve_one_spec(trees@, part@) == Ok::<usize, Seq<char>>(n),
        r matches Err(e) ==> resolve_one_spec(trees@, part@) == Err::<usize, Seq<char>>(e@),
{
    if let Some(n) = parse_usize(part) {
        return Ok(n);
    }
    let want = strip_heads(part);
    match branch_position(trees, want.as_slice()) {
        Some(i) => {
            proof {
                lemma_position_of_branch(trees@, want@);
            }
            assert(i < trees.len());
            Ok(i + 1)
        },
        None => {
            let mut m: Vec<char> = Vec::new();
            push_str(&mut m, "no worktree on branch '");
            push_all(&mut m, want.as_slice());
            push_str(&mut m, "' (see 'git-wt list')");
            Err(m)
        },
    }
}

/// `part` without a leading `heads/`.
fn strip_heads(part: &[char]) -> (r: Vec<char>)
    ensures
        r@ == without_heads(part@),
{
    match strip_prefix(part, "heads/") {
        Some(v) => {
            assert("heads/"@.len() == 6) by {
                reveal_strlit("heads/");
            }
            v
        },
        None => slice_from(part, 0),
    }
}

/// Turn each part of a target list into a 1-based worktree number, so
/// everything downstream works on numbers alone. A number is taken as
/// written, in range or not; anything else must name a checked-out branch.
pub fn resolve_target_list(trees: &[Worktree], parts: &[String]) -> (r: Result<Vec<usize>, String>)
    ensures
        r matches Ok(v) ==> resolve_list_spec(trees@, str_views(parts@)) == Ok::<
            Seq<usize>,
            Seq<char>,
        >(v@),
        r matches Err(e) ==> resolve_list_spec(trees@, str_views(parts@)) == Err::<
            Seq<usize>,
            Seq<char>,
        >(e@),
{
    let ps = chars_all(parts);
    resolve_parts(trees, &ps)
}

/// `resolve_target_list` over parts already in characters.
fn resolve_parts(trees: &[Worktree], ps: &Vec<Vec<char>>) -> (r: Result<Vec<usize>, String>)
    ensures
        r matches Ok(v) ==> resolve_list_spec(trees@, views(ps@)) == Ok::<Seq<usize>, Seq<char>>(
            v@,
        ),
        r matches Err(e) ==> resolve_list_spec(trees@, views(ps@)) == Err::<
            Seq<usize>,
            Seq<char>,
        >(e@),
{
    let mut out: Vec<usize> = Vec::new();
    let mut i: usize = 0;
    while i < ps.len()
        invariant
            i <= ps.len(),
            resolve_list_spec(trees@, views(ps@).take(i as int)) == Ok::<Seq<usize>, Seq<char>>(
                out@,
            ),
        decreases ps.len() - i,
    {
        assert(views(ps@).take(i + 1).drop_last() =~= views(ps@).take(i as int));
        assert(views(ps@).take(i + 1).last() == ps@[i as int]@);
        match resolve_one(trees, ps[i].as_slice()) {
            Ok(n) => out.push(n),
            Err(e) => {
                proof {
                    lemma_resolve_err_sticks(trees@, views(ps@), i as int + 1);
                }
                return Err(string_of(e.as_slice()));
            },
        }
        i = i + 1;
    }
    assert(views(ps@).take(i as int) =~= views(ps@));
    Ok(out)
}

/// Once a prefix of the parts fails, the whole list fails the same way.
proof fn lemma_resolve_err_sticks(trees: Seq<Worktree>, parts: Seq<Seq<char>>, k: int)
    requires
        0 <= k <= parts.len(),
        resolve_list_spec(trees, parts.take(k)) is Err,
    ensures
        resolve_list_spec(trees, parts) == resolve_list_spec(trees, parts.take(k)),
    decreases parts.len() - k,
{
    if k < parts.len() {
        assert(parts.take(k + 1).drop_last() =~= parts.take(k));
        lemma_resolve_err_sticks(trees, parts, k + 1);
    } else {
        assert(parts.take(k) =~= parts);
    }
}

/// Fold a command's own positional target into its `-t/--target` flag:
/// they name the same thing, so only one may be given.
pub fn effective_target(positional: Option<String>, flag: Option<&String>) -> (r: Result<
    Option<String>,
    String,
>)
    ensures
        match (positional, flag) {
            (Some(p), Some(f)) => r matches Err(e) && e@ == "target given twice: '"@ + p@
                + "' and '-t/--target "@ + f@ + "'; use one or the other"@,
            (Some(p), None) => r matches Ok(Some(t)) && t@ == p@,
            (None, Some(f)) => r matches Ok(Some(t)) && t@ == f@,
            (None, None) => r matches Ok(None),
        },
{
    match (positional, flag) {
        (Some(p), Some(f)) => {
            let mut m: Vec<char> = Vec::new();
            push_str(&mut m, "target given twice: '");
            push_str(&mut m, p.as_str());
            push_str(&mut m, "' and '-t/--target ");
            push_str(&mut m, f.as_str());
            push_str(&mut m, "'; use one or the other");
            Err(string_of(m.as_slice()))
        },
        (Some(p), None) => Ok(Some(p)),
        (None, Some(f)) => Ok(Some(f.clone())),
        (None, None) => Ok(None),
    }
}

/// Combine a positional target list and any `-b/--branch` values into one
/// flat list of raw target parts; an empty part anywhere is malformed.
pub fn gather_targets(targets: Option<&String>, branch: &[String]) -> (r: Result<
    Vec<String>,
    String,
>)
    ensures
        r matches Ok(v) ==> str_views(v@) == gather_spec(opt_ref_view(targets), str_views(
            branch@,
        )) && !has_empty_piece(str_views(v@)),
        r matches Err(e) ==> has_empty_piece(
            gather_spec(opt_ref_view(targets), str_views(branch@)),
        ) && e@ == "bad worktree list; want numbers or branches, e.g. '1,2' or 'main,2'"@,
{
    let mut parts: Vec<Vec<char>> = Vec::new();
    match targets {
        Some(t) => {
            let tc = chars_of(t.as_str());
            let mut sp = split(tc.as_slice(), ',');
            parts.append(&mut sp);
        },
        None => {},
    }
    let ghost head = views(parts@);
    let bs = chars_all(branch);
    let mut i: usize = 0;
    assert(views(bs@).take(0) =~= Seq::<Seq<char>>::empty());
    assert(views(parts@) =~= head + split_each(views(bs@).take(0)));
    while i < bs.len()
        invariant
            i <= bs.len(),
            views(parts@) =~= head + split_each(views(bs@).take(i as int)),
        decreases bs.len() - i,
    {
        let mut sp = split(bs[i].as_slice(), ',');
        assert(views(bs@).take(i + 1).drop_last() =~= views(bs@).take(i as int));
        assert(views(bs@).take(i + 1).last() == bs@[i as int]@);
        let ghost before = parts@;
        let ghost added = sp@;
        parts.append(&mut sp);
        assert(views(parts@) =~= views(before) + views(added)) by {
            assert(parts@ =~= before + added);
        }
        i = i + 1;
    }
    assert(views(bs@).take(i as int) =~= views(bs@));
    assert(views(parts@) =~= gather_spec(opt_ref_view(targets), str_views(branch@))) by {
        assert(views(bs@) =~= str_views(branch@));
        match targets {
            Some(t) => {},
            None => {
                assert(head =~= Seq::<Seq<char>>::empty());
            },
        }
    }
    if any_empty(&parts) {
        return Err(
            string_of(
                chars_of("bad worktree list; want numbers or branches, e.g. '1,2' or 'main,2'").as_slice(),
            ),
        );
    }
    let out = strings_of(parts.as_slice());
    Ok(out)
}

// ---------------------------------------------------------------------------
// Flags caught by a catch-all
// ---------------------------------------------------------------------------

/// Pull `short`/`long`/`long=VALUE` and its value out of `args`, wherever
/// it sits, returning the remaining arguments alongside the value.
fn extract_flag(args: &[String], short: &str, long: &str, example: &str) -> (r: Result<
    (Vec<String>, Option<String>),
    String,
>)
    ensures
        r matches Ok((rest, val)) ==> extract_spec(
            str_views(args@),
            0,
            None,
            short@,
            long@,
            example@,
        ) == Ok::<(Seq<Seq<char>>, Option<Seq<char>>), Seq<char>>(
            (str_views(rest@), opt_view(val)),
        ),
        r matches Err(e) ==> extract_spec(str_views(args@), 0, None, short@, long@, example@)
            == Err::<(Seq<Seq<char>>, Option<Seq<char>>), Seq<char>>(e@),
{
    let a = chars_all(args);
    let sh = chars_of(short);
    let lg = chars_of(long);
    let mut lg_eq = lg.clone();
    lg_eq.push('=');
    let ex = chars_of(example);
    let ghost all = views(a@);
    let mut out: Vec<Vec<char>> = Vec::new();
    let mut val: Option<Vec<char>> = None;
    let mut i: usize = 0;
    while i < a.len()
        invariant
            i <= a.len() + 1,
            all == views(a@),
            all == str_views(args@),
            sh@ == short@,
            lg@ == long@,
            lg_eq@ == long@.push('='),
            ex@ == example@,
            extract_spec(all, 0, None, short@, long@, example@) == match extract_spec(
                all,
                i as int,
                opt_chars(val),
                short@,
                long@,
                example@,
            ) {
                Ok((rest, v)) => Ok::<(Seq<Seq<char>>, Option<Seq<char>>), Seq<char>>(
                    (views(out@) + rest, v),
                ),
                Err(e) => Err(e),
            },
        decreases a.len() + 1 - i,
    {
        let cur = &a[i];
        assert(all[i as int] == cur@);
        if same(cur.as_slice(), sh.as_slice()) || same(cur.as_slice(), lg.as_slice()) {
            if val.is_some() {
                let mut m: Vec<char> = Vec::new();
                m.push('\'');
                push_all(&mut m, cur.as_slice());
                push_str(&mut m, "' given twice");
                assert(m@ =~= "'"@ + cur@ + "' given twice"@) by {
                    reveal_strlit("'");
                }
                return Err(string_of(m.as_slice()));
            }
            if i + 1 >= a.len() {
                let mut m: Vec<char> = Vec::new();
                m.push('\'');
                push_all(&mut m, cur.as_slice());
                push_str(&mut m, "' needs a value, e.g. '");
                push_all(&mut m, cur.as_slice());
                m.push(' ');
                push_all(&mut m, ex.as_slice());
                m.push('\'');
                assert(m@ =~= "'"@ + cur@ + "' needs a value, e.g. '"@ + cur@ + " "@ + example@
                    + "'"@) by {
                    reveal_strlit("'");
                    reveal_strlit(" ");
                }
                return Err(string_of(m.as_slice()));
            }
            assert(all[i + 1] == a@[i + 1]@);
            val = Some(a[i + 1].clone());
            i = i + 2;
        } else if starts_with(cur.as_slice(), lg_eq.as_slice()) {
            if val.is_some() {
                let mut m: Vec<char> = Vec::new();
                m.push('\'');
                push_all(&mut m, lg.as_slice());
                push_str(&mut m, "' given twice");
                assert(m@ =~= "'"@ + long@ + "' given twice"@) by {
                    reveal_strlit("'");
                }
                return Err(string_of(m.as_slice()));
            }
            val = Some(slice_from(cur.as_slice(), lg_eq.len()));
            i = i + 1;
        } else {
            let ghost before = out@;
            out.push(cur.clone());
            assert(views(out@) =~= views(before).push(cur@));
            proof {
                let tail = extract_spec(all, i + 1, opt_chars(val), short@, long@, example@);
                match tail {
                    Ok((rest, v)) => {
                        assert(views(before) + (seq![cur@] + rest) =~= views(out@) + rest);
                    },
                    Err(e) => {},
                }
            }
            i = i + 1;
        }
    }
    let rest = strings_of(out.as_slice());
    let v = match val {
        Some(x) => Some(string_of(x.as_slice())),
        None => None,
    };
    assert(views(out@) + Seq::<Seq<char>>::empty() =~= views(out@));
    Ok((rest, v))
}

pub open spec fn opt_ref_view(o: Option<&String>) -> Option<Seq<char>> {
    match o {
        Some(s) => Some(s@),
        None => None,
    }
}

pub open spec fn opt_chars(o: Option<Vec<char>>) -> Option<Seq<char>> {
    match o {
        Some(v) => Some(v@),
        None => None,
    }
}

/// Pull a `-b`/`--branch`/`--branch=VALUE` flag out of an argument list,
/// wherever it sits, and return the arguments without it alongside its
/// value. The catch-all tail of `commits`/`log`/`merge` swallows the global
/// flag once a target precedes it; this recovers it from there.
pub fn extract_branch_flag(args: &[String]) -> (r: Result<(Vec<String>, Option<String>), String>)
    ensures
        r matches Ok((rest, val)) ==> extract_spec(
            str_views(args@),
            0,
            None,
            "-b"@,
            "--branch"@,
            "1,2"@,
        ) == Ok::<(Seq<Seq<char>>, Option<Seq<char>>), Seq<char>>(
            (str_views(rest@), opt_view(val)),
        ),
        r matches Err(e) ==> extract_spec(str_views(args@), 0, None, "-b"@, "--branch"@, "1,2"@)
            == Err::<(Seq<Seq<char>>, Option<Seq<char>>), Seq<char>>(e@),
{
    extract_flag(args, "-b", "--branch", "1,2")
}

/// The `-t`/`--target` twin of `extract_branch_flag`.
pub fn extract_target_flag(args: &[String]) -> (r: Result<(Vec<String>, Option<String>), String>)
    ensures
        r matches Ok((rest, val)) ==> extract_spec(
            str_views(args@),
            0,
            None,
            "-t"@,
            "--target"@,
            "1"@,
        ) == Ok::<(Seq<Seq<char>>, Option<Seq<char>>), Seq<char>>(
            (str_views(rest@), opt_view(val)),
        ),
        r matches Err(e) ==> extract_spec(str_views(args@), 0, None, "-t"@, "--target"@, "1"@)
            == Err::<(Seq<Seq<char>>, Option<Seq<char>>), Seq<char>>(e@),
{
    extract_flag(args, "-t", "--target", "1")
}

// ---------------------------------------------------------------------------
// Numbers and names
// ---------------------------------------------------------------------------

/// Map a 1-based worktree number to a 0-based index, or say why not.
pub fn check_index(n: usize, len: usize) -> (r: Result<usize, String>)
    ensures
        r matches Ok(k) ==> check_index_spec(n, len) == Ok::<usize, Seq<char>>(k),
        r matches Err(e) ==> check_index_spec(n, len) == Err::<usize, Seq<char>>(e@),
{
    if n == 0 {
        return Err(string_of(chars_of("no worktree #0").as_slice()));
    }
    if n > len {
        let mut m: Vec<char> = Vec::new();
        push_str(&mut m, "no worktree #");
        push_all(&mut m, decimal_of(n).as_slice());
        push_str(&mut m, "; there are ");
        push_all(&mut m, decimal_of(len).as_slice());
        push_str(&mut m, " (see 'git-wt list')");
        return Err(string_of(m.as_slice()));
    }
    Ok(n - 1)
}

/// What a `--branch` value resolves to: see `branch_targets`.
pub open spec fn branch_targets_spec(trees: Seq<Worktree>, val: Seq<char>) -> Result<Seq<usize>, Seq<char>> {
    if has_empty_piece(split_spec(val, ',')) {
        Err(bad_list_msg(val))
    } else {
        match resolve_list_spec(trees, split_spec(val, ',')) {
            Err(e) => Err(e),
            Ok(ns) => check_all_spec(ns, trees.len() as usize),
        }
    }
}

/// A `--branch` value resolved to 0-based worktree indexes, the way any
/// other comma list is: split, resolved, then each number range-checked.
pub fn branch_targets(trees: &[Worktree], val: &str) -> (r: Result<Vec<usize>, String>)
    ensures
        has_empty_piece(split_spec(val@, ',')) ==> (r matches Err(e) && e@ == bad_list_msg(val@)),
        !has_empty_piece(split_spec(val@, ',')) ==> match resolve_list_spec(
            trees@,
            split_spec(val@, ','),
        ) {
            Err(e) => r matches Err(x) && x@ == e,
            Ok(ns) => match check_all_spec(ns, trees@.len() as usize) {
                Err(e) => r matches Err(x) && x@ == e,
                Ok(ks) => r matches Ok(v) && v@ == ks,
            },
        },
{
    let vc = chars_of(val);
    let parts = split(vc.as_slice(), ',');
    if any_empty(&parts) {
        let mut m: Vec<char> = Vec::new();
        push_str(&mut m, "bad worktree list '");
        push_all(&mut m, vc.as_slice());
        push_str(&mut m, "'; want numbers or branches, e.g. '1,2' or 'main,2'");
        return Err(string_of(m.as_slice()));
    }
    assert(!has_empty_piece(split_spec(val@, ',')));
    let ns = match resolve_parts(trees, &parts) {
        Ok(ns) => ns,
        Err(e) => return Err(e),
    };
    let mut out: Vec<usize> = Vec::new();
    let mut i: usize = 0;
    while i < ns.len()
        invariant
            i <= ns.len(),
            check_all_spec(ns@.take(i as int), trees@.len() as usize) == Ok::<
                Seq<usize>,
                Seq<char>,
            >(out@),
            !has_empty_piece(split_spec(val@, ',')),
            resolve_list_spec(trees@, split_spec(val@, ',')) == Ok::<Seq<usize>, Seq<char>>(ns@),
        decreases ns.len() - i,
    {
        assert(ns@.take(i + 1).drop_last() =~= ns@.take(i as int));
        assert(ns@.take(i + 1).last() == ns@[i as int]);
        match check_index(ns[i], trees.len()) {
            Ok(k) => out.push(k),
            Err(e) => {
                proof {
                    lemma_check_err_sticks(ns@, trees@.len() as usize, i + 1);
                }
                return Err(e);
            },
        }
        i = i + 1;
    }
    assert(ns@.take(i as int) =~= ns@);
    Ok(out)
}

proof fn lemma_check_err_sticks(ns: Seq<usize>, len: usize, k: int)
    requires
        0 <= k <= ns.len(),
        check_all_spec(ns.take(k), len) is Err,
    ensures
        check_all_spec(ns, len) == check_all_spec(ns.take(k), len),
    decreases ns.len() - k,
{
    if k < ns.len() {
        assert(ns.take(k + 1).drop_last() =~= ns.take(k));
        lemma_check_err_sticks(ns, len, k + 1);
    } else {
        assert(ns.take(k) =~= ns);
    }
}

/// The worktree number a lone leading token names, when it names one. A
/// number is the caller's own path and is not answered here; a miss is
/// "not a target", not an error.
pub fn resolve_target(trees: &[Worktree], tok: &str) -> (r: Option<usize>)
    ensures
        parse_usize_spec(tok@) is Some ==> r is None,
        parse_usize_spec(tok@) is None ==> match position_of_branch(trees@, without_heads(tok@)) {
            Some(i) => r == Some((i + 1) as usize),
            None => r is None,
        },
{
    let t = chars_of(tok);
    if parse_usize(t.as_slice()).is_some() {
        return None;
    }
    let want = strip_heads(t.as_slice());
    match branch_position(trees, want.as_slice()) {
        Some(i) => {
            proof {
                lemma_position_of_branch(trees@, want@);
            }
            assert(i < trees.len());
            Some(i + 1)
        },
        None => None,
    }
}

/// The warning owed when a bare one-letter alias was typed that is also the
/// name of a checked-out branch; `None` when no branch shares the name.
pub fn alias_shadow_warning(trees: &[Worktree], tok: &str, full_word: &str) -> (r: Option<String>)
    ensures
        position_of_branch(trees@, tok@) is None ==> r is None,
        position_of_branch(trees@, tok@) is Some ==> (r matches Some(m) && m@ == "warning: branch '"@
            + tok@ + "' is checked out here; '"@ + tok@ + "' is read as the '"@ + full_word@
            + "' alias, not the branch\nhint: 'heads/"@ + tok@ + "' reaches the branch's worktree"@),
{
    if worktree_on_branch(trees, tok).is_none() {
        return None;
    }
    let mut m: Vec<char> = Vec::new();
    push_str(&mut m, "warning: branch '");
    push_str(&mut m, tok);
    push_str(&mut m, "' is checked out here; '");
    push_str(&mut m, tok);
    push_str(&mut m, "' is read as the '");
    push_str(&mut m, full_word);
    push_str(&mut m, "' alias, not the branch\nhint: 'heads/");
    push_str(&mut m, tok);
    push_str(&mut m, "' reaches the branch's worktree");
    Some(string_of(m.as_slice()))
}

/// The verb token in a raw argument list (the program name already
/// dropped): the first word that is not a flag, skipping the global flags
/// that can precede the verb (`-b`/`--branch` with its value).
pub fn typed_verb(args: &[String]) -> (r: Option<String>)
    ensures
        opt_view(r) == verb_spec(str_views(args@), 0),
{
    let a = chars_all(args);
    let ghost all = views(a@);
    let mut i: usize = 0;
    while i < a.len()
        invariant
            all == views(a@),
            all == str_views(args@),
            verb_spec(all, 0) == verb_spec(all, i as int),
        decreases a.len() + 2 - i,
    {
        let s = a[i].as_slice();
        assert(all[i as int] == s@);
        if is(s, "-h") || is(s, "--help") || is(s, "-f") || is(s, "--full") {
            i = i + 1;
        } else if is(s, "-b") || is(s, "--branch") {
            if i + 1 >= a.len() {
                return None;
            }
            i = i + 2;
        } else if starts_with_str(s, "--branch=") {
            i = i + 1;
        } else if !starts_with_str(s, "-") {
            return Some(string_of(s));
        } else {
            i = i + 1;
        }
    }
    None
}

} // verus!
