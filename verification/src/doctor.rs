//! `doctor`: what is wrong with each worktree, judged from git's own
//! porcelain fields and a few facts read off the filesystem, and the
//! candidates `--repair` hands to `git worktree repair`.

use vstd::prelude::*;

use crate::add::{sanitize, sanitize_spec};
use crate::log::paths::{lex, under};
use crate::style::{paint_spec, push_painted, DIM, GREEN, RED, YELLOW};
use crate::text::{
    chars_of, decimal, decimal_of, push_all, push_str, str_views, string_of, strip_prefix, trim,
    trim_spec, is_prefix,
};
use crate::worktree::{label, label_spec, Worktree};

verus! {

/// One problem found with a worktree, and the color it is reported in.
#[derive(Debug)]
pub struct Issue {
    pub summary: String,
    pub severity: &'static str,
}

pub open spec fn issue_views(v: Seq<Issue>) -> Seq<(Seq<char>, Seq<char>)> {
    v.map_values(|i: Issue| (i.summary@, i.severity@))
}

/// What the filesystem and git say of a worktree's directory.
#[derive(Debug)]
pub struct Probed {
    /// The directory exists.
    pub exists: bool,
    /// The admin dir its `.git` file points to, when it has one.
    pub link_target: Option<String>,
    /// That admin dir exists.
    pub target_exists: bool,
    /// `git rev-parse -q --verify HEAD` succeeds in it.
    pub head_ok: bool,
}

/// The admin dir a `.git` file names: its trimmed content after `gitdir:`,
/// trimmed again; `None` when there is no such file (`content` is `None`)
/// or it does not start that way.
pub open spec fn link_spec(content: Option<Seq<char>>) -> Option<Seq<char>> {
    match content {
        None => None,
        Some(c) => {
            let t = trim_spec(c);
            if is_prefix("gitdir:"@, t) {
                Some(trim_spec(t.skip(7)))
            } else {
                None
            }
        },
    }
}

/// Where a linked worktree's `.git` file points.
pub fn gitdir_link_target(content: Option<&str>) -> (r: Option<String>)
    ensures
        r matches Some(s) ==> link_spec(crate::commits::rows::opt_str(content)) == Some(s@),
        r is None ==> link_spec(crate::commits::rows::opt_str(content)) is None,
{
    match content {
        None => None,
        Some(c) => {
            let cc = chars_of(c);
            let t = trim(cc.as_slice());
            proof {
                reveal_strlit("gitdir:");
            }
            match strip_prefix(t.as_slice(), "gitdir:") {
                Some(rest) => {
                    let r = trim(rest.as_slice());
                    Some(string_of(r.as_slice()))
                },
                None => None,
            }
        },
    }
}

/// A reason, or what to say when git gave none.
pub open spec fn or_else(reason: Seq<char>, fallback: Seq<char>) -> Seq<char> {
    if reason.len() == 0 {
        fallback
    } else {
        reason
    }
}

/// What is broken about the directory: git's own prune verdict first (it
/// already covers a directory gone or unreachable), then a directory
/// missing on disk, then, for a non-bare worktree, a `.git` file pointing
/// at an admin dir that no longer exists (the main worktree was moved),
/// or else a HEAD git cannot read.
pub open spec fn broken_spec(w: Worktree, p: Probed) -> Seq<(Seq<char>, Seq<char>)> {
    match w.prunable {
        Some(r) => seq![("prunable: "@ + or_else(r@, "directory is gone or unreachable"@), RED@)],
        None => if !p.exists {
            seq![("directory not found on disk (moved or deleted)"@, RED@)]
        } else if w.bare {
            Seq::empty()
        } else {
            match p.link_target {
                Some(t) if !p.target_exists => seq![
                    (
                        "'.git' points to a missing admin dir ("@ + t@
                            + ") -- the main worktree was likely moved or renamed"@,
                        RED@,
                    ),
                ],
                _ => if !p.head_ok {
                    seq![("HEAD unreadable (repository may be corrupt)"@, RED@)]
                } else {
                    Seq::empty()
                },
            }
        },
    }
}

/// Every issue of a worktree: what is broken, then a lock, which is not
/// broken (it is why `remove` and `prune` refuse to touch it) and so never
/// hides the checks above it.
pub open spec fn scan_spec(w: Worktree, p: Probed) -> Seq<(Seq<char>, Seq<char>)> {
    broken_spec(w, p) + match w.locked {
        Some(r) => seq![("locked: "@ + or_else(r@, "no reason given"@), YELLOW@)],
        None => Seq::empty(),
    }
}

/// A HEAD that does not read is reported for every non-bare, non-prunable
/// worktree whose directory exists, unless its `.git` file points at an
/// admin dir that is gone; whatever the link target is, it is the first
/// issue, and it is reported only when HEAD does not read.
pub proof fn lemma_head_unreadable_reported(w: Worktree, p: Probed)
    requires
        w.prunable is None,
        p.exists,
        !w.bare,
        p.link_target is None || p.target_exists,
    ensures
        !p.head_ok ==> scan_spec(w, p).len() >= 1,
        !p.head_ok ==> scan_spec(w, p)[0] == ("HEAD unreadable (repository may be corrupt)"@, RED@),
        !p.head_ok ==> scan_spec(w, p).contains(("HEAD unreadable (repository may be corrupt)"@, RED@)),
        p.head_ok ==> !scan_spec(w, p).contains(("HEAD unreadable (repository may be corrupt)"@, RED@)),
{
    let head = "HEAD unreadable (repository may be corrupt)"@;
    reveal_strlit("HEAD unreadable (repository may be corrupt)");
    reveal_strlit("locked: ");
    let s = scan_spec(w, p);
    if !p.head_ok {
        assert(s[0] == (head, RED@));
    } else {
        if s.contains((head, RED@)) {
            let i = choose|i: int| 0 <= i < s.len() && s[i] == (head, RED@);
            match w.locked {
                Some(r) => {
                    let l = "locked: "@ + or_else(r@, "no reason given"@);
                    assert(s =~= seq![(l, YELLOW@)]);
                    assert(l[0] == 'l');
                    assert(head[0] == 'H');
                },
                None => {
                    assert(s.len() == 0);
                },
            }
        }
    }
}

fn labelled(head: &str, reason: &String, fallback: &str) -> (r: String)
    ensures
        r@ == head@ + or_else(reason@, fallback@),
{
    let mut c = chars_of(head);
    if reason.as_str().is_empty() {
        push_str(&mut c, fallback);
    } else {
        push_str(&mut c, reason.as_str());
    }
    string_of(c.as_slice())
}

/// Everything doctor checks about one worktree, read off git's porcelain
/// fields and the filesystem facts in `p`.
pub fn scan(w: &Worktree, p: &Probed) -> (r: Vec<Issue>)
    ensures
        issue_views(r@) == scan_spec(*w, *p),
{
    let mut out: Vec<Issue> = Vec::new();
    match &w.prunable {
        Some(reason) => {
            let s = labelled("prunable: ", reason, "directory is gone or unreachable");
            out.push(Issue { summary: s, severity: RED });
        },
        None => {
            if !p.exists {
                out.push(
                    Issue { summary: "directory not found on disk (moved or deleted)".to_string(), severity: RED },
                );
            } else if !w.bare {
                let mut handled = false;
                match &p.link_target {
                    Some(t) => {
                        if !p.target_exists {
                            let mut c = chars_of("'.git' points to a missing admin dir (");
                            push_str(&mut c, t.as_str());
                            push_str(&mut c, ") -- the main worktree was likely moved or renamed");
                            out.push(Issue { summary: string_of(c.as_slice()), severity: RED });
                            handled = true;
                        }
                    },
                    None => {},
                }
                if !handled && !p.head_ok {
                    out.push(
                        Issue { summary: "HEAD unreadable (repository may be corrupt)".to_string(), severity: RED },
                    );
                }
            }
        },
    }
    let ghost first = issue_views(out@);
    assert(first =~= broken_spec(*w, *p));
    match &w.locked {
        Some(reason) => {
            let s = labelled("locked: ", reason, "no reason given");
            out.push(Issue { summary: s, severity: YELLOW });
        },
        None => {},
    }
    assert(issue_views(out@) =~= scan_spec(*w, *p));
    out
}

/// The paths `doctor --repair` hands to `git worktree repair`: every
/// non-bare worktree, then each orphan candidate the list does not
/// already hold.
pub open spec fn repair_spec(trees: Seq<Worktree>, orphans: Seq<Seq<char>>) -> Seq<Seq<char>>
    decreases orphans.len(),
{
    if orphans.len() == 0 {
        own_paths(trees)
    } else {
        let p = repair_spec(trees, orphans.drop_last());
        if p.contains(orphans.last()) {
            p
        } else {
            p.push(orphans.last())
        }
    }
}

/// The paths of the non-bare worktrees, in order.
pub open spec fn own_paths(trees: Seq<Worktree>) -> Seq<Seq<char>>
    decreases trees.len(),
{
    if trees.len() == 0 {
        Seq::empty()
    } else {
        let p = own_paths(trees.drop_last());
        if trees.last().bare {
            p
        } else {
            p.push(trees.last().path@)
        }
    }
}

/// The arguments of the `git worktree repair` that `doctor --repair`
/// runs, `None` when there is nothing to repair. `orphans` are the
/// directories beside the repository that hold a `.git` file.
pub fn repair(trees: &[Worktree], orphans: &[String]) -> (r: Option<Vec<String>>)
    ensures
        repair_spec(trees@, str_views(orphans@)).len() == 0 ==> r is None,
        repair_spec(trees@, str_views(orphans@)).len() > 0 ==> (r matches Some(a) && str_views(a@)
            == seq!["worktree"@, "repair"@] + repair_spec(trees@, str_views(orphans@))),
{
    let mut cands: Vec<String> = Vec::new();
    let mut i: usize = 0;
    while i < trees.len()
        invariant
            i <= trees.len(),
            str_views(cands@) == own_paths(trees@.take(i as int)),
        decreases trees.len() - i,
    {
        assert(trees@.take(i + 1).drop_last() =~= trees@.take(i as int));
        assert(trees@.take(i + 1).last() == trees@[i as int]);
        if !trees[i].bare {
            let ghost before = str_views(cands@);
            cands.push(trees[i].path.clone());
            assert(str_views(cands@) =~= before.push(trees@[i as int].path@));
        }
        i = i + 1;
    }
    assert(trees@.take(i as int) =~= trees@);
    let ghost ov = str_views(orphans@);
    let mut k: usize = 0;
    while k < orphans.len()
        invariant
            k <= orphans.len(),
            ov == str_views(orphans@),
            str_views(cands@) == repair_spec(trees@, ov.take(k as int)),
        decreases orphans.len() - k,
    {
        assert(ov.take(k + 1).drop_last() =~= ov.take(k as int));
        assert(ov.take(k + 1).last() == orphans@[k as int]@);
        if !crate::text::member(cands.as_slice(), orphans[k].as_str()) {
            let ghost before = str_views(cands@);
            cands.push(orphans[k].clone());
            assert(str_views(cands@) =~= before.push(orphans@[k as int]@));
        }
        k = k + 1;
    }
    assert(ov.take(k as int) =~= ov);
    if cands.len() == 0 {
        return None;
    }
    let mut argv: Vec<String> = Vec::new();
    argv.push("worktree".to_string());
    argv.push("repair".to_string());
    let ghost head = str_views(argv@);
    assert(head =~= seq!["worktree"@, "repair"@]);
    let ghost cv = str_views(cands@);
    argv.append(&mut cands);
    assert(str_views(argv@) =~= head + cv);
    Some(argv)
}

// ---------------------------------------------------------------------------
// The report
// ---------------------------------------------------------------------------

/// One worktree's part of the report: its number, label and path, then an
/// indented line per issue in the issue's color; nothing when it is
/// healthy.
pub open spec fn tree_report(w: Worktree, issues: Seq<(Seq<char>, Seq<char>)>, color: bool) -> Seq<char> {
    if issues.len() == 0 {
        Seq::empty()
    } else {
        paint_spec(decimal(w.id as nat), DIM@, color) + "  "@ + label_spec(w) + "  "@ + w.path@ + "\n"@
            + issue_lines(issues, color)
    }
}

pub open spec fn issue_lines(issues: Seq<(Seq<char>, Seq<char>)>, color: bool) -> Seq<char>
    decreases issues.len(),
{
    if issues.len() == 0 {
        Seq::empty()
    } else {
        issue_lines(issues.drop_last(), color) + "    "@ + paint_spec(
            issues.last().0,
            issues.last().1,
            color,
        ) + "\n"@
    }
}

/// The whole report over the first `n` worktrees, and how many issues it
/// names.
pub open spec fn report_spec(trees: Seq<Worktree>, probes: Seq<Probed>, n: int, color: bool) -> (Seq<char>, nat)
    decreases n,
{
    if n <= 0 {
        (Seq::empty(), 0)
    } else {
        let (text, total) = report_spec(trees, probes, n - 1, color);
        let issues = scan_spec(trees[n - 1], probes[n - 1]);
        (text + tree_report(trees[n - 1], issues, color), total + issues.len())
    }
}

fn push_tree_report(out: &mut Vec<char>, w: &Worktree, issues: &Vec<Issue>, color: bool)
    ensures
        final(out)@ == old(out)@ + tree_report(*w, issue_views(issues@), color),
{
    let ghost base = out@;
    let ghost iv = issue_views(issues@);
    if issues.len() == 0 {
        assert(out@ =~= base + tree_report(*w, iv, color));
        return;
    }
    let id = decimal_of(w.id);
    push_painted(out, id.as_slice(), DIM, color);
    push_str(out, "  ");
    let l = label(w);
    push_str(out, l.as_str());
    push_str(out, "  ");
    push_str(out, w.path.as_str());
    push_str(out, "\n");
    let ghost head = out@;
    let mut i: usize = 0;
    while i < issues.len()
        invariant
            i <= issues.len(),
            iv == issue_views(issues@),
            out@ == head + issue_lines(iv.take(i as int), color),
        decreases issues.len() - i,
    {
        push_str(out, "    ");
        let sc = chars_of(issues[i].summary.as_str());
        push_painted(out, sc.as_slice(), issues[i].severity, color);
        push_str(out, "\n");
        assert(iv.take(i + 1).drop_last() =~= iv.take(i as int));
        assert(iv.take(i + 1).last() == (issues@[i as int].summary@, issues@[i as int].severity@));
        assert(out@ =~= head + issue_lines(iv.take(i + 1), color));
        i = i + 1;
    }
    assert(iv.take(issues.len() as int) =~= iv);
    assert(out@ =~= base + tree_report(*w, iv, color));
}

/// The report `doctor` prints, and the number of issues in it: see
/// `report_spec`. `probes[i]` is what was found of `trees[i]`.
pub fn report(trees: &[Worktree], probes: &[Probed], color: bool) -> (r: (String, usize))
    requires
        probes.len() == trees.len(),
        trees.len() <= usize::MAX / 2,
    ensures
        r.0@ == report_spec(trees@, probes@, trees.len() as int, color).0,
        r.1 == report_spec(trees@, probes@, trees.len() as int, color).1,
{
    let mut out: Vec<char> = Vec::new();
    let mut total: usize = 0;
    let mut i: usize = 0;
    while i < trees.len()
        invariant
            i <= trees.len(),
            probes.len() == trees.len(),
            trees.len() <= usize::MAX / 2,
            out@ == report_spec(trees@, probes@, i as int, color).0,
            total == report_spec(trees@, probes@, i as int, color).1,
            total <= 2 * i,
        decreases trees.len() - i,
    {
        let issues = scan(&trees[i], &probes[i]);
        assert(issue_views(issues@).len() <= 2) by {
            lemma_scan_short(trees@[i as int], probes@[i as int]);
        }
        push_tree_report(&mut out, &trees[i], &issues, color);
        total = total + issues.len();
        i = i + 1;
    }
    (string_of(out.as_slice()), total)
}

proof fn lemma_scan_short(w: Worktree, p: Probed)
    ensures
        scan_spec(w, p).len() <= 2,
{
}

// ---------------------------------------------------------------------------
// Moving worktrees
// ---------------------------------------------------------------------------

/// The name a moved worktree takes when `leaf` is taken: `leaf` itself
/// first, then `leaf-2`, `leaf-3`, and so on.
pub open spec fn candidate_spec(leaf: Seq<char>, n: nat) -> Seq<char> {
    if n < 2 {
        leaf
    } else {
        leaf + "-"@ + decimal(n)
    }
}

/// The `n`th name tried for a moved worktree: see `candidate_spec`.
pub fn candidate_name(leaf: &str, n: usize) -> (r: String)
    ensures
        r@ == candidate_spec(leaf@, n as nat),
{
    let mut m: Vec<char> = Vec::new();
    push_str(&mut m, leaf);
    if n >= 2 {
        push_str(&mut m, "-");
        push_all(&mut m, decimal_of(n).as_slice());
    }
    string_of(m.as_slice())
}

/// `--migrate` moves a worktree unless it is bare, is the main worktree, or
/// already sits under the default directory (paths canonical).
pub open spec fn migrates_spec(bare: bool, path: Seq<char>, root: Seq<char>, target: Seq<char>) -> bool {
    !bare && lex(path) != lex(root) && !under(lex(path), lex(target))
}

/// Whether `--migrate` moves this worktree: see `migrates_spec`.
pub fn migrates(bare: bool, path: &str, root: &str, target: &str) -> (r: bool)
    ensures
        r == migrates_spec(bare, path@, root@, target@),
{
    if bare {
        return false;
    }
    let (pa, pc) = crate::log::paths::lex_parts(path);
    let (ra, rc) = crate::log::paths::lex_parts(root);
    let (ta, tc) = crate::log::paths::lex_parts(target);
    if pa == ra && crate::log::paths::same_comps(&pc, &rc) {
        return false;
    }
    !(pa == ta && crate::log::paths::comps_under(&pc, &tc))
}

/// The name `--syncname` gives a worktree: its branch, sanitized; nothing
/// for a bare or branchless worktree, the main one, or one already named
/// so.
pub open spec fn rename_spec(w: Worktree, is_main: bool, leaf: Seq<char>) -> Option<Seq<char>> {
    if w.bare || is_main {
        None
    } else {
        match w.branch {
            None => None,
            Some(b) => if sanitize_spec(b@) == leaf {
                None
            } else {
                Some(sanitize_spec(b@))
            },
        }
    }
}

/// The name `--syncname` wants for a worktree: see `rename_spec`.
pub fn rename_target(w: &Worktree, is_main: bool, leaf: &str) -> (r: Option<String>)
    ensures
        match rename_spec(*w, is_main, leaf@) {
            Some(n) => r matches Some(x) && x@ == n,
            None => r is None,
        },
{
    if w.bare || is_main {
        return None;
    }
    match &w.branch {
        None => None,
        Some(b) => {
            let wanted = sanitize(b.as_str());
            let wc = chars_of(wanted.as_str());
            let lc = chars_of(leaf);
            if crate::text::same(wc.as_slice(), lc.as_slice()) {
                None
            } else {
                Some(wanted)
            }
        },
    }
}

/// How a run of moves ends: the all-clear when nothing needed moving, the
/// counts otherwise, and an error when any move failed.
pub open spec fn moves_end_spec(
    moved: nat,
    failed: nat,
    nothing: Seq<char>,
    done: Seq<char>,
    noun: Seq<char>,
) -> (Seq<char>, Option<Seq<char>>) {
    if moved == 0 && failed == 0 {
        (nothing, None)
    } else {
        (decimal(moved) + " "@ + done + ", "@ + decimal(failed) + " failed"@, if failed > 0 {
            Some(decimal(failed) + " worktree(s) failed to "@ + noun + " (see above)"@)
        } else {
            None
        })
    }
}

/// The closing line of `--migrate` or `--syncname`, and the error owed when
/// a move failed: see `moves_end_spec`.
pub fn moves_end(moved: usize, failed: usize, nothing: &str, done: &str, noun: &str) -> (r: (String, Option<String>))
    ensures
        r.0@ == moves_end_spec(moved as nat, failed as nat, nothing@, done@, noun@).0,
        match moves_end_spec(moved as nat, failed as nat, nothing@, done@, noun@).1 {
            Some(e) => r.1 matches Some(x) && x@ == e,
            None => r.1 is None,
        },
{
    if moved == 0 && failed == 0 {
        return (string_of(chars_of(nothing).as_slice()), None);
    }
    let mut m: Vec<char> = Vec::new();
    push_all(&mut m, decimal_of(moved).as_slice());
    push_str(&mut m, " ");
    push_str(&mut m, done);
    push_str(&mut m, ", ");
    push_all(&mut m, decimal_of(failed).as_slice());
    push_str(&mut m, " failed");
    let err = if failed > 0 {
        let mut e: Vec<char> = Vec::new();
        push_all(&mut e, decimal_of(failed).as_slice());
        push_str(&mut e, " worktree(s) failed to ");
        push_str(&mut e, noun);
        push_str(&mut e, " (see above)");
        Some(string_of(e.as_slice()))
    } else {
        None
    };
    (string_of(m.as_slice()), err)
}


/// What `doctor` says after its report: that all is well; else how many
/// issues it found and how to ask for a repair; or, when a repair was
/// asked for, that it is under way.
pub open spec fn health_end_spec(total: nat, repair: bool, color: bool) -> Seq<char> {
    if total == 0 {
        crate::style::paint_spec("all worktrees healthy"@, crate::style::GREEN@, color) + "\n"@
    } else if !repair {
        "\n"@ + crate::text::decimal(total) + " issue(s) found (see above)\n'git-wt doctor --repair' attempts to fix them\n"@
    } else {
        "\nrepairing...\n"@
    }
}

/// What `doctor` says after its report: see `health_end_spec`.
pub fn health_end(total: usize, repair: bool, color: bool) -> (r: String)
    ensures
        r@ == health_end_spec(total as nat, repair, color),
{
    let mut m: Vec<char> = Vec::new();
    if total == 0 {
        crate::style::push_painted(&mut m, chars_of("all worktrees healthy").as_slice(), crate::style::GREEN, color);
        push_str(&mut m, "\n");
    } else if !repair {
        push_str(&mut m, "\n");
        crate::text::push_all(&mut m, crate::text::decimal_of(total).as_slice());
        push_str(&mut m, " issue(s) found (see above)\n'git-wt doctor --repair' attempts to fix them\n");
    } else {
        push_str(&mut m, "\nrepairing...\n");
    }
    string_of(m.as_slice())
}

/// What `doctor --repair` says under the fresh report: all repaired, or
/// how many issues remain and what a deleted worktree needs.
pub open spec fn repaired_spec(remaining: nat, color: bool) -> Seq<char> {
    if remaining == 0 {
        crate::style::paint_spec("all issues repaired"@, crate::style::GREEN@, color) + "\n"@
    } else {
        crate::text::decimal(remaining) + " issue(s) remain -- not everything can be auto-repaired\na deleted (not moved) worktree needs 'git-wt <N> remove -f' or 'git worktree prune'\n"@
    }
}

/// What `doctor --repair` says under the fresh report: see
/// `repaired_spec`.
pub fn repaired(remaining: usize, color: bool) -> (r: String)
    ensures
        r@ == repaired_spec(remaining as nat, color),
{
    let mut m: Vec<char> = Vec::new();
    if remaining == 0 {
        crate::style::push_painted(&mut m, chars_of("all issues repaired").as_slice(), crate::style::GREEN, color);
        push_str(&mut m, "\n");
    } else {
        crate::text::push_all(&mut m, crate::text::decimal_of(remaining).as_slice());
        push_str(
            &mut m,
            " issue(s) remain -- not everything can be auto-repaired\na deleted (not moved) worktree needs 'git-wt <N> remove -f' or 'git worktree prune'\n",
        );
    }
    string_of(m.as_slice())
}

} // verus!
