//! A worktree as `git worktree list --porcelain` describes it, and the
//! lookups every command makes against the list.

use vstd::prelude::*;

use crate::text::{chars_of, is, is_prefix, lines, lines_spec, same, string_of, strip_prefix, views};

verus! {

/// One entry of the worktree list.
#[derive(Clone, Debug)]
pub struct Worktree {
    /// 1-based position in the list, as `list` numbers it.
    pub id: usize,
    pub path: String,
    /// The checked-out branch; `None` when detached or bare.
    pub branch: Option<String>,
    pub detached: bool,
    pub bare: bool,
    /// The lock reason (possibly empty) when the worktree is locked.
    pub locked: Option<String>,
    /// The prune reason (possibly empty) when git considers it prunable.
    pub prunable: Option<String>,
}

/// An optional string as an optional character sequence.
pub open spec fn opt_view(o: Option<String>) -> Option<Seq<char>> {
    match o {
        Some(s) => Some(s@),
        None => None,
    }
}

/// `w` has `b` checked out.
pub open spec fn on_branch(w: Worktree, b: Seq<char>) -> bool {
    w.branch matches Some(x) && x@ == b
}

/// The index of the first worktree with `b` checked out.
pub open spec fn position_of_branch(trees: Seq<Worktree>, b: Seq<char>) -> Option<int>
    decreases trees.len(),
{
    if trees.len() == 0 {
        None
    } else {
        match position_of_branch(trees.drop_last(), b) {
            Some(i) => Some(i),
            None => if on_branch(trees.last(), b) {
                Some(trees.len() - 1)
            } else {
                None
            },
        }
    }
}

pub proof fn lemma_position_of_branch(trees: Seq<Worktree>, b: Seq<char>)
    ensures
        position_of_branch(trees, b) matches Some(i) ==> 0 <= i < trees.len() && on_branch(
            trees[i],
            b,
        ) && forall|j: int| 0 <= j < i ==> !on_branch(#[trigger] trees[j], b),
        position_of_branch(trees, b) is None ==> forall|j: int|
            0 <= j < trees.len() ==> !on_branch(#[trigger] trees[j], b),
    decreases trees.len(),
{
    if trees.len() > 0 {
        lemma_position_of_branch(trees.drop_last(), b);
        assert forall|j: int| 0 <= j < trees.len() - 1 implies trees.drop_last()[j] == trees[j] by {}
    }
}

/// The index of the worktree with `branch` checked out, if any.
pub fn worktree_on_branch(trees: &[Worktree], branch: &str) -> (r: Option<usize>)
    ensures
        r matches Some(i) ==> position_of_branch(trees@, branch@) == Some(i as int),
        r is None ==> position_of_branch(trees@, branch@) is None,
{
    let want = chars_of(branch);
    branch_position(trees, want.as_slice())
}

/// `worktree_on_branch` over a branch name already in characters.
pub fn branch_position(trees: &[Worktree], want: &[char]) -> (r: Option<usize>)
    ensures
        r matches Some(i) ==> position_of_branch(trees@, want@) == Some(i as int),
        r is None ==> position_of_branch(trees@, want@) is None,
{
    let mut i: usize = 0;
    while i < trees.len()
        invariant
            i <= trees.len(),
            position_of_branch(trees@.take(i as int), want@) is None,
        decreases trees.len() - i,
    {
        assert(trees@.take(i + 1).drop_last() =~= trees@.take(i as int));
        let hit = match &trees[i].branch {
            Some(b) => {
                let bc = chars_of(b.as_str());
                same(bc.as_slice(), want)
            },
            None => false,
        };
        if hit {
            proof {
                lemma_prefix_position(trees@, want@, i as int);
            }
            return Some(i);
        }
        i = i + 1;
    }
    assert(trees@.take(i as int) =~= trees@);
    None
}

/// A first hit in a prefix is the first hit in the whole list.
proof fn lemma_prefix_position(trees: Seq<Worktree>, b: Seq<char>, i: int)
    requires
        0 <= i < trees.len(),
        position_of_branch(trees.take(i), b) is None,
        on_branch(trees[i], b),
    ensures
        position_of_branch(trees, b) == Some(i),
    decreases trees.len(),
{
    if trees.len() - 1 > i {
        assert(trees.drop_last().take(i) =~= trees.take(i));
        lemma_prefix_position(trees.drop_last(), b, i);
    } else {
        assert(trees.drop_last() =~= trees.take(i));
    }
}

/// What `git status --porcelain` says of a worktree, as the table colors
/// it.
#[derive(Debug, Clone, Copy, PartialEq, Eq, Structural)]
pub enum Status {
    /// Nothing to report.
    Clean,
    /// Changes to tracked files only.
    Dirty,
    /// Untracked files, whatever else there is.
    Untracked,
    /// Not read (a bare worktree, or a column nobody asked for).
    Unknown,
}

/// A porcelain line that says something.
pub open spec fn reports(l: Seq<char>) -> bool {
    crate::text::trim_spec(l).len() > 0
}

/// A porcelain line about an untracked file.
pub open spec fn untracked_line(l: Seq<char>) -> bool {
    reports(l) && crate::text::is_prefix("??"@, l)
}

/// The status `git status --porcelain` output spells: clean with nothing
/// to report, untracked as soon as any line is `??`, dirty otherwise.
pub open spec fn status_spec(porcelain: Seq<char>) -> Status {
    let ls = crate::text::lines_spec(porcelain);
    if exists|i: int| 0 <= i < ls.len() && untracked_line(#[trigger] ls[i]) {
        Status::Untracked
    } else if exists|i: int| 0 <= i < ls.len() && reports(#[trigger] ls[i]) {
        Status::Dirty
    } else {
        Status::Clean
    }
}

/// Classify a worktree from its `git status --porcelain` output.
pub fn classify_status(porcelain: &str) -> (r: Status)
    ensures
        r == status_spec(porcelain@),
{
    let c = chars_of(porcelain);
    let ls = crate::text::lines(c.as_slice());
    let ghost lv = crate::text::views(ls@);
    let mut any = false;
    let mut i: usize = 0;
    while i < ls.len()
        invariant
            i <= ls.len(),
            lv == crate::text::views(ls@),
            lv == crate::text::lines_spec(porcelain@),
            any == exists|k: int| 0 <= k < i && reports(#[trigger] lv[k]),
            forall|k: int| 0 <= k < i ==> !untracked_line(#[trigger] lv[k]),
        decreases ls.len() - i,
    {
        assert(lv[i as int] == ls@[i as int]@);
        let t = crate::text::trim(ls[i].as_slice());
        if t.len() > 0 {
            if crate::text::starts_with_str(ls[i].as_slice(), "??") {
                assert(untracked_line(lv[i as int]));
                return Status::Untracked;
            }
            any = true;
        }
        i = i + 1;
    }
    if any {
        Status::Dirty
    } else {
        Status::Clean
    }
}

/// The color a status tints its row: green when clean, yellow when dirty,
/// magenta with untracked files, none when unknown.
pub open spec fn status_code(st: Status) -> Seq<char> {
    match st {
        Status::Clean => crate::style::GREEN@,
        Status::Dirty => crate::style::YELLOW@,
        Status::Untracked => crate::style::MAGENTA@,
        Status::Unknown => Seq::empty(),
    }
}

/// The color a status tints its row.
pub fn status_color(st: Status) -> (r: &'static str)
    ensures
        r@ == status_code(st),
{
    match st {
        Status::Clean => crate::style::GREEN,
        Status::Dirty => crate::style::YELLOW,
        Status::Untracked => crate::style::MAGENTA,
        Status::Unknown => {
            proof {
                reveal_strlit("");
            }
            ""
        },
    }
}

/// The word the status column prints.
pub fn status_text(st: Status) -> (r: &'static str)
    ensures
        st == Status::Clean ==> r@ == "clean"@,
        st == Status::Dirty ==> r@ == "dirty"@,
        st == Status::Untracked ==> r@ == "untracked"@,
        st == Status::Unknown ==> r@ == "-"@,
{
    match st {
        Status::Clean => "clean",
        Status::Dirty => "dirty",
        Status::Untracked => "untracked",
        Status::Unknown => "-",
    }
}

/// How a worktree is named to the user: its branch, or what it is when it
/// has none.
pub open spec fn label_spec(w: Worktree) -> Seq<char> {
    match w.branch {
        Some(b) => b@,
        None => if w.bare {
            "(bare)"@
        } else {
            "(detached)"@
        },
    }
}

/// How a worktree is named to the user.
pub fn label(w: &Worktree) -> (r: String)
    ensures
        r@ == label_spec(*w),
{
    match &w.branch {
        Some(b) => b.clone(),
        None => if w.bare {
            "(bare)".to_string()
        } else {
            "(detached)".to_string()
        },
    }
}

// ---------------------------------------------------------------------------
// Reading the list
// ---------------------------------------------------------------------------

/// A worktree as a value.
pub struct TreeSpec {
    pub id: usize,
    pub path: Seq<char>,
    pub branch: Option<Seq<char>>,
    pub detached: bool,
    pub bare: bool,
    pub locked: Option<Seq<char>>,
    pub prunable: Option<Seq<char>>,
}

pub open spec fn tree_spec(w: Worktree) -> TreeSpec {
    TreeSpec {
        id: w.id,
        path: w.path@,
        branch: opt_view(w.branch),
        detached: w.detached,
        bare: w.bare,
        locked: opt_view(w.locked),
        prunable: opt_view(w.prunable),
    }
}

pub open spec fn tree_specs(v: Seq<Worktree>) -> Seq<TreeSpec> {
    v.map_values(|w: Worktree| tree_spec(w))
}

/// An optional reason: none for `word` alone, what follows `word ` else.
pub open spec fn reason(l: Seq<char>, word: Seq<char>) -> Option<Seq<char>> {
    if l == word {
        Some(Seq::empty())
    } else if is_prefix(word + " "@, l) {
        Some(l.skip(word.len() as int + 1))
    } else {
        None
    }
}

/// A `branch` line's ref, without `refs/heads/`.
pub open spec fn branch_name(r: Seq<char>) -> Seq<char> {
    if is_prefix("refs/heads/"@, r) {
        r.skip(11)
    } else {
        r
    }
}

/// What one line of the listing adds: a `worktree` line starts the next
/// entry (numbered from 1), and the lines after it describe that entry.
pub open spec fn apply_line(ws: Seq<TreeSpec>, l: Seq<char>) -> Seq<TreeSpec> {
    if is_prefix("worktree "@, l) {
        ws.push(
            TreeSpec {
                id: (ws.len() + 1) as usize,
                path: l.skip(9),
                branch: None,
                detached: false,
                bare: false,
                locked: None,
                prunable: None,
            },
        )
    } else if ws.len() == 0 {
        ws
    } else {
        let w = ws.last();
        let n = if is_prefix("branch "@, l) {
            TreeSpec { branch: Some(branch_name(l.skip(7))), ..w }
        } else if l == "detached"@ {
            TreeSpec { detached: true, ..w }
        } else if l == "bare"@ {
            TreeSpec { bare: true, ..w }
        } else if reason(l, "locked"@) is Some {
            TreeSpec { locked: reason(l, "locked"@), ..w }
        } else if reason(l, "prunable"@) is Some {
            TreeSpec { prunable: reason(l, "prunable"@), ..w }
        } else {
            w
        };
        ws.update(ws.len() - 1, n)
    }
}

/// The worktrees `git worktree list --porcelain` lists, line by line.
pub open spec fn listed(ls: Seq<Seq<char>>) -> Seq<TreeSpec>
    decreases ls.len(),
{
    if ls.len() == 0 {
        Seq::empty()
    } else {
        apply_line(listed(ls.drop_last()), ls.last())
    }
}

fn reason_of(l: &[char], word: &str) -> (r: Option<Option<String>>)
    ensures
        r matches Some(x) ==> (x matches Some(s) && reason(l@, word@) == Some(s@)),
        r is None ==> reason(l@, word@) is None,
{
    if is(l, word) {
        return Some(Some(string_of(Vec::<char>::new().as_slice())));
    }
    let mut wl = chars_of(word);
    wl.push(' ');
    assert(wl@ =~= word@ + " "@) by {
        reveal_strlit(" ");
    }
    let ws = string_of(wl.as_slice());
    match strip_prefix(l, ws.as_str()) {
        Some(rest) => {
            assert(word@ + " "@ == ws@);
            Some(Some(string_of(rest.as_slice())))
        },
        None => None,
    }
}

/// The worktrees a `git worktree list --porcelain` listing names: see
/// `listed`.
pub fn parse_worktrees(porcelain: &str) -> (r: Vec<Worktree>)
    ensures
        tree_specs(r@) == listed(lines_spec(porcelain@)),
{
    let c = chars_of(porcelain);
    let ls = lines(c.as_slice());
    let ghost lv = views(ls@);
    let mut out: Vec<Worktree> = Vec::new();
    let mut i: usize = 0;
    while i < ls.len()
        invariant
            i <= ls.len(),
            lv == views(ls@),
            tree_specs(out@) == listed(lv.take(i as int)),
            out.len() == listed(lv.take(i as int)).len(),
            out.len() <= i,
        decreases ls.len() - i,
    {
        assert(lv.take(i + 1).drop_last() =~= lv.take(i as int));
        assert(lv.take(i + 1).last() == ls@[i as int]@);
        let l = ls[i].as_slice();
        let ghost before = tree_specs(out@);
        match strip_prefix(l, "worktree ") {
            Some(p) => {
                proof {
                    reveal_strlit("worktree ");
                }
                let id = out.len() + 1;
                out.push(
                    Worktree {
                        id,
                        path: string_of(p.as_slice()),
                        branch: None,
                        detached: false,
                        bare: false,
                        locked: None,
                        prunable: None,
                    },
                );
                assert(tree_specs(out@) =~= apply_line(before, l@));
            },
            None => {
                if out.len() > 0 {
                    let mut w = out.pop().unwrap();
                    let ghost wv = tree_spec(w);
                    assert(wv == before.last());
                    if let Some(b) = strip_prefix(l, "branch ") {
                        proof {
                            reveal_strlit("branch ");
                        }
                        let name = match strip_prefix(b.as_slice(), "refs/heads/") {
                            Some(n) => {
                                proof {
                                    reveal_strlit("refs/heads/");
                                }
                                n
                            },
                            None => b,
                        };
                        w.branch = Some(string_of(name.as_slice()));
                    } else if is(l, "detached") {
                        w.detached = true;
                    } else if is(l, "bare") {
                        w.bare = true;
                    } else if let Some(x) = reason_of(l, "locked") {
                        w.locked = x;
                    } else if let Some(x) = reason_of(l, "prunable") {
                        w.prunable = x;
                    }
                    let ghost mid = tree_specs(out@);
                    out.push(w);
                    assert(mid =~= before.drop_last());
                    assert(tree_specs(out@) =~= apply_line(before, l@));
                } else {
                    assert(apply_line(before, l@) == before);
                }
            },
        }
        i = i + 1;
    }
    assert(lv.take(ls.len() as int) =~= lv);
    out
}

/// `dir` is the worktree's own directory or lies somewhere under it.
pub open spec fn holds_dir(w: Worktree, dir: Seq<char>) -> bool {
    dir == w.path@ || is_prefix(w.path@ + "/"@, dir)
}

/// Among the first `n` worktrees, the one holding `dir` with the longest
/// path (a worktree nested in another is the nearer one); the first of
/// equals.
pub open spec fn nearest(trees: Seq<Worktree>, dir: Seq<char>, n: nat) -> Option<int>
    decreases n,
{
    if n == 0 {
        None
    } else {
        let k = n - 1;
        let best = nearest(trees, dir, (n - 1) as nat);
        if holds_dir(trees[k], dir) && (best matches Some(b) ==> trees[b].path@.len() < trees[k].path@.len()) {
            Some(k as int)
        } else {
            best
        }
    }
}

/// The worktree the working directory `cwd` is in: see `nearest`.
pub fn current_worktree_index(trees: &[Worktree], cwd: &str) -> (r: Option<usize>)
    ensures
        match nearest(trees@, cwd@, trees.len() as nat) {
            Some(k) => r == Some(k as usize),
            None => r is None,
        },
{
    let c = chars_of(cwd);
    let mut best: Option<usize> = None;
    let mut best_len: usize = 0;
    let mut i: usize = 0;
    while i < trees.len()
        invariant
            i <= trees.len(),
            c@ == cwd@,
            match nearest(trees@, cwd@, i as nat) {
                Some(k) => best == Some(k as usize) && best_len == trees@[k].path@.len() && k < i,
                None => best is None,
            },
        decreases trees.len() - i,
    {
        let p = chars_of(trees[i].path.as_str());
        let mut ps = p.clone();
        ps.push('/');
        assert(ps@ =~= trees@[i as int].path@ + "/"@) by {
            reveal_strlit("/");
        }
        let inside = same(c.as_slice(), p.as_slice()) || crate::text::starts_with(c.as_slice(), ps.as_slice());
        let better = match best {
            Some(_) => best_len < p.len(),
            None => true,
        };
        if inside && better {
            best = Some(i);
            best_len = p.len();
        }
        i = i + 1;
    }
    best
}

} // verus!
