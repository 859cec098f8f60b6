//! Turning a path typed in any shape (absolute, relative to the current
//! directory, or already repo-relative) into the one repo-relative pathspec
//! `log` applies to every branch alike. Paths are read lexically: a file
//! deleted on this branch is on no disk to resolve, and still has a history.

use vstd::prelude::*;

use crate::commits::md::{joined, push_joined};
use crate::text::{chars_of, is, is_prefix, push_all, push_str, same, split, split_spec, string_of, views};
use crate::worktree::Worktree;

verus! {

/// A path read lexically: whether it starts at the root, and its
/// components with `.` dropped and each `..` taking the one before it.
pub struct LexPath {
    pub absolute: bool,
    pub comps: Seq<Seq<char>>,
}

/// The components `parts` (the text between slashes) leave: empty and `.`
/// pieces name nothing, and `..` removes the component before it (at the
/// top there is nothing to remove).
pub open spec fn normalized(parts: Seq<Seq<char>>) -> Seq<Seq<char>>
    decreases parts.len(),
{
    if parts.len() == 0 {
        Seq::empty()
    } else {
        let a = normalized(parts.drop_last());
        let p = parts.last();
        if p.len() == 0 || p == "."@ {
            a
        } else if p == ".."@ {
            if a.len() > 0 {
                a.drop_last()
            } else {
                a
            }
        } else {
            a.push(p)
        }
    }
}

/// `s` read lexically.
pub open spec fn lex(s: Seq<char>) -> LexPath {
    LexPath { absolute: is_prefix("/"@, s), comps: normalized(split_spec(s, '/')) }
}

/// `input` joined onto `cwd` (an absolute `input` stands alone), read
/// lexically.
pub open spec fn joined_lex(cwd: Seq<char>, input: Seq<char>) -> LexPath {
    if is_prefix("/"@, input) {
        lex(input)
    } else {
        LexPath {
            absolute: is_prefix("/"@, cwd),
            comps: normalized(split_spec(cwd, '/') + split_spec(input, '/')),
        }
    }
}

/// `base` is `p` or one of its ancestors.
pub open spec fn under(p: LexPath, base: LexPath) -> bool {
    p.absolute == base.absolute && base.comps.len() <= p.comps.len() && p.comps.take(
        base.comps.len() as int,
    ) == base.comps
}

/// Components as git wants them: joined by `/`, and `.` for none at all
/// (an empty pathspec matches nothing).
pub open spec fn pathspec_of(comps: Seq<Seq<char>>) -> Seq<char> {
    if comps.len() == 0 {
        "."@
    } else {
        joined(comps, "/"@)
    }
}

/// The pathspec of `p` under the first of `bases` it sits under.
pub open spec fn first_claim(p: LexPath, bases: Seq<Seq<char>>) -> Option<Seq<char>>
    decreases bases.len(),
{
    if bases.len() == 0 {
        None
    } else {
        let b = lex(bases[0]);
        if under(p, b) {
            Some(pathspec_of(p.comps.skip(b.comps.len() as int)))
        } else {
            first_claim(p, bases.drop_first())
        }
    }
}

/// A relative path read from `cwd` is the same path as `cwd`, a slash and
/// it, typed out in full: whichever way a file was named, the same
/// worktree claims it, under the same pathspec.
pub proof fn lemma_spelled_alike(
    root: Seq<char>,
    trees: Seq<Worktree>,
    cwd: Seq<char>,
    rel: Seq<char>,
    elsewhere: Seq<char>,
    in_tree: bool,
)
    requires
        is_prefix("/"@, cwd),
        !is_prefix("/"@, rel),
    ensures
        joined_lex(cwd, rel) == joined_lex(elsewhere, cwd + "/"@ + rel),
        first_claim(joined_lex(cwd, rel), bases_of(trees, root)) is Some ==> pathspec_spec(
            root,
            trees,
            cwd,
            rel,
            in_tree,
        ) == pathspec_spec(root, trees, elsewhere, cwd + "/"@ + rel, in_tree),
{
    reveal_strlit("/");
    let full = cwd + "/"@ + rel;
    assert(full =~= cwd + seq!['/'] + rel);
    crate::text::lemma_split_concat(cwd, rel, '/');
    assert(full.take(1) =~= cwd.take(1));
    assert(is_prefix("/"@, full));
    assert(joined_lex(elsewhere, full) == lex(full));
}

/// The worktree paths, then the primary root.
pub open spec fn bases_of(trees: Seq<Worktree>, root: Seq<char>) -> Seq<Seq<char>> {
    trees.map_values(|w: Worktree| w.path@).push(root)
}

/// `s` without its leading `./` pieces.
pub open spec fn strip_dot_slash(s: Seq<char>) -> Seq<char>
    decreases s.len(),
{
    if is_prefix("./"@, s) && s.len() >= 2 {
        strip_dot_slash(s.skip(2))
    } else {
        s
    }
}

/// The repo-relative reading of `input`, to look up in the tree when no
/// worktree claims it: only for a relative path, and never an empty one.
pub open spec fn candidate_spec(input: Seq<char>) -> Option<Seq<char>> {
    if is_prefix("/"@, input) {
        None
    } else {
        let c = strip_dot_slash(input);
        if c.len() == 0 {
            None
        } else {
            Some(c)
        }
    }
}

pub open spec fn outside_msg(input: Seq<char>) -> Seq<char> {
    "'"@ + input + "' is outside the repository\nhint: paths are resolved against the worktree they sit in"@
}

/// What `resolve_pathspec` answers, `in_tree` being whether the candidate
/// names a path in the primary root's `HEAD` tree.
pub open spec fn pathspec_spec(
    root: Seq<char>,
    trees: Seq<Worktree>,
    cwd: Seq<char>,
    input: Seq<char>,
    in_tree: bool,
) -> Result<Seq<char>, Seq<char>> {
    match first_claim(joined_lex(cwd, input), bases_of(trees, root)) {
        Some(p) => Ok(p),
        None => match candidate_spec(input) {
            Some(c) => if in_tree {
                Ok(c)
            } else {
                Err(outside_msg(input))
            },
            None => Err(outside_msg(input)),
        },
    }
}

/// Path components with `.` (and empty ones) dropped and each `..` taking
/// back the one before it, without touching the filesystem: see
/// `normalized`.
pub fn normalize_lexically(parts: &Vec<Vec<char>>) -> (r: Vec<Vec<char>>)
    ensures
        views(r@) == normalized(views(parts@)),
{
    let ghost pv = views(parts@);
    let mut acc: Vec<Vec<char>> = Vec::new();
    let mut i: usize = 0;
    while i < parts.len()
        invariant
            i <= parts.len(),
            pv == views(parts@),
            views(acc@) == normalized(pv.take(i as int)),
        decreases parts.len() - i,
    {
        assert(pv.take(i + 1).drop_last() =~= pv.take(i as int));
        assert(pv.take(i + 1).last() == parts@[i as int]@);
        let p = &parts[i];
        let ghost before = views(acc@);
        if p.len() == 0 || is(p.as_slice(), ".") {
        } else if is(p.as_slice(), "..") {
            if acc.len() > 0 {
                acc.pop();
                assert(views(acc@) =~= before.drop_last());
            }
        } else {
            acc.push(p.clone());
            assert(views(acc@) =~= before.push(p@));
        }
        i = i + 1;
    }
    assert(pv.take(parts.len() as int) =~= pv);
    acc
}

fn lex_of(s: &[char]) -> (r: (bool, Vec<Vec<char>>))
    ensures
        r.0 == lex(s@).absolute,
        views(r.1@) == lex(s@).comps,
{
    let a = crate::text::starts_with_str(s, "/");
    let parts = split(s, '/');
    (a, normalize_lexically(&parts))
}

pub(crate) fn comps_under(p: &Vec<Vec<char>>, base: &Vec<Vec<char>>) -> (r: bool)
    ensures
        r == (base.len() <= p.len() && views(p@).take(base.len() as int) == views(base@)),
{
    if base.len() > p.len() {
        return false;
    }
    let mut i: usize = 0;
    while i < base.len()
        invariant
            i <= base.len() <= p.len(),
            forall|k: int| 0 <= k < i ==> p@[k]@ == base@[k]@,
        decreases base.len() - i,
    {
        if !same(p[i].as_slice(), base[i].as_slice()) {
            assert(views(p@).take(base.len() as int)[i as int] != views(base@)[i as int]);
            return false;
        }
        i = i + 1;
    }
    assert(views(p@).take(base.len() as int) =~= views(base@));
    true
}

/// Components from `from` on, as git wants a path: joined by `/`, and `.`
/// when there are none (the worktree root itself).
pub fn to_pathspec(comps: &Vec<Vec<char>>, from: usize) -> (r: String)
    requires
        from <= comps.len(),
    ensures
        r@ == pathspec_of(views(comps@).skip(from as int)),
{
    let ghost rest = views(comps@).skip(from as int);
    if from == comps.len() {
        return string_of(chars_of(".").as_slice());
    }
    let mut out: Vec<char> = Vec::new();
    let mut i: usize = from;
    assert(rest.take(0) =~= Seq::<Seq<char>>::empty());
    assert(out@ =~= joined(rest.take(0), "/"@));
    while i < comps.len()
        invariant
            from <= i <= comps.len(),
            from < comps.len(),
            rest == views(comps@).skip(from as int),
            out@ == joined(rest.take(i - from), "/"@),
        decreases comps.len() - i,
    {
        push_joined(&mut out, Ghost(rest.take(i - from)), i == from, comps[i].as_slice(), "/");
        assert(rest.take(i - from).push(comps@[i as int]@) =~= rest.take(i + 1 - from));
        i = i + 1;
    }
    assert(rest.take(comps.len() - from) =~= rest);
    string_of(out.as_slice())
}

fn strip_dots(s: &[char]) -> (r: Vec<char>)
    ensures
        r@ == strip_dot_slash(s@),
{
    let mut cur: Vec<char> = crate::text::slice_from(s, 0);
    assert(cur@ =~= s@);
    while cur.len() >= 2 && cur[0] == '.' && cur[1] == '/'
        invariant
            strip_dot_slash(cur@) == strip_dot_slash(s@),
        decreases cur.len(),
    {
        let ghost before = cur@;
        assert(is_prefix("./"@, before)) by {
            reveal_strlit("./");
            assert(before.take(2) =~= "./"@);
        }
        cur = crate::text::slice_from(cur.as_slice(), 2);
        assert(cur@ =~= before.skip(2));
    }
    if cur.len() >= 2 {
        assert(!is_prefix("./"@, cur@)) by {
            reveal_strlit("./");
            if is_prefix("./"@, cur@) {
                assert(cur@[0] == "./"@[0]);
                assert(cur@[1] == "./"@[1]);
            }
        }
    }
    cur
}

fn claim(absolute: bool, comps: &Vec<Vec<char>>, base: &[char]) -> (r: Option<String>)
    ensures
        under(LexPath { absolute, comps: views(comps@) }, lex(base@)) ==> (r matches Some(x) && x@
            == pathspec_of(views(comps@).skip(lex(base@).comps.len() as int))),
        !under(LexPath { absolute, comps: views(comps@) }, lex(base@)) ==> r is None,
{
    let (ba, bcomps) = lex_of(base);
    if ba == absolute && comps_under(comps, &bcomps) {
        Some(to_pathspec(comps, bcomps.len()))
    } else {
        None
    }
}

/// `s` read lexically, as a flag and components.
pub(crate) fn lex_parts(s: &str) -> (r: (bool, Vec<Vec<char>>))
    ensures
        r.0 == lex(s@).absolute,
        views(r.1@) == lex(s@).comps,
{
    let c = chars_of(s);
    lex_of(c.as_slice())
}

/// The same components.
pub(crate) fn same_comps(a: &Vec<Vec<char>>, b: &Vec<Vec<char>>) -> (r: bool)
    ensures
        r == (views(a@) == views(b@)),
{
    if a.len() != b.len() {
        assert(views(a@).len() != views(b@).len());
        return false;
    }
    let r = comps_under(a, b);
    if r {
        assert(views(a@).take(b.len() as int) =~= views(a@));
    } else {
        assert(views(a@).take(b.len() as int) =~= views(a@));
    }
    r
}

/// The repo-relative reading of `input`, for the caller to look up in the
/// tree: see `candidate_spec`.
pub fn tree_candidate(input: &str) -> (r: Option<String>)
    ensures
        match candidate_spec(input@) {
            Some(c) => r matches Some(x) && x@ == c,
            None => r is None,
        },
{
    let ic = chars_of(input);
    if crate::text::starts_with_str(ic.as_slice(), "/") {
        return None;
    }
    let c = strip_dots(ic.as_slice());
    if c.len() == 0 {
        None
    } else {
        Some(string_of(c.as_slice()))
    }
}

/// Whether a candidate names a real path in the primary root's `HEAD`
/// tree, `head_has` being whether `git cat-file -e HEAD:<candidate>`
/// succeeded: an empty candidate never does.
pub fn exists_in_tree(candidate: &str, head_has: bool) -> (r: bool)
    ensures
        r == (candidate@.len() > 0 && head_has),
{
    !candidate.is_empty() && head_has
}

/// The pathspec `input` names: under the first worktree (then the primary
/// root) its lexical absolute path sits under; else, for a relative path
/// that names something in the tree (`in_tree`), the path itself; else the
/// outside-the-repository error.
pub fn resolve_pathspec(root: &str, trees: &[Worktree], cwd: &str, input: &str, in_tree: bool) -> (r:
    Result<String, String>)
    ensures
        match pathspec_spec(root@, trees@, cwd@, input@, in_tree) {
            Ok(p) => r matches Ok(x) && x@ == p,
            Err(e) => r matches Err(x) && x@ == e,
        },
{
    let ic = chars_of(input);
    let (absolute, comps) = if crate::text::starts_with_str(ic.as_slice(), "/") {
        lex_of(ic.as_slice())
    } else {
        let cc = chars_of(cwd);
        let mut parts = split(cc.as_slice(), '/');
        let mut more = split(ic.as_slice(), '/');
        let ghost a = views(parts@);
        let ghost m = views(more@);
        parts.append(&mut more);
        assert(views(parts@) =~= a + m);
        (crate::text::starts_with_str(cc.as_slice(), "/"), normalize_lexically(&parts))
    };
    let ghost p = LexPath { absolute, comps: views(comps@) };
    assert(p == joined_lex(cwd@, input@));
    let ghost bases = bases_of(trees@, root@);
    assert(bases.skip(0) =~= bases);
    let mut k: usize = 0;
    while k < trees.len()
        invariant
            k <= trees.len(),
            bases == bases_of(trees@, root@),
            bases.len() == trees.len() + 1,
            p == (LexPath { absolute, comps: views(comps@) }),
            p == joined_lex(cwd@, input@),
            first_claim(p, bases) == first_claim(p, bases.skip(k as int)),
        decreases trees.len() - k,
    {
        let bc = chars_of(trees[k].path.as_str());
        assert(bases[k as int] == bc@);
        let ghost rest = bases.skip(k as int);
        assert(rest[0] == bc@);
        assert(rest.drop_first() =~= bases.skip(k + 1));
        if let Some(s) = claim(absolute, &comps, bc.as_slice()) {
            return Ok(s);
        }
        k = k + 1;
    }
    let rc = chars_of(root);
    let ghost rest = bases.skip(k as int);
    assert(rest[0] == root@);
    assert(rest.drop_first() =~= Seq::<Seq<char>>::empty());
    assert(first_claim(p, rest.drop_first()) is None);
    if let Some(s) = claim(absolute, &comps, rc.as_slice()) {
        return Ok(s);
    }
    assert(first_claim(p, bases) is None);
    let msg = {
        let mut m: Vec<char> = Vec::new();
        push_str(&mut m, "'");
        push_all(&mut m, ic.as_slice());
        push_str(&mut m, "' is outside the repository\nhint: paths are resolved against the worktree they sit in");
        assert(m@ =~= outside_msg(input@));
        string_of(m.as_slice())
    };
    match tree_candidate(input) {
        Some(c) => if in_tree {
            Ok(c)
        } else {
            Err(msg)
        },
        None => Err(msg),
    }
}

} // verus!
