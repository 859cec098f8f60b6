//! What `commits`, `log` and `merge --review` decide between reading the
//! rows and drawing them: which rows a filter keeps, how many show, what an
//! empty table says instead, and the lines printed around the table.

use vstd::prelude::*;

use crate::commits::args::{admits_spec, CommitsArgs, DateFilter};
use crate::commits::md::{joined, push_joined};
use crate::commits::render::{stat_cell, stat_cell_spec};
use crate::commits::files::{stat_views, FileStat, FileStatSpec};
use crate::commits::rows::{opt_str, row_views, CommitRow, CommitRowSpec};
use crate::targets::{branch_targets, branch_targets_spec, extract_branch_flag, extract_spec};
use crate::worktree::Worktree;
use crate::text::{
    chars_of, contains, contains_spec, decimal, decimal_of, lex_le, less_or_equal, lowercase,
    member, push_all, push_str, str_views, string_of, to_lower,
};

verus! {

// ---------------------------------------------------------------------------
// Filtering
// ---------------------------------------------------------------------------

/// `needle`'s characters appear in `hay` in order, not necessarily side by
/// side: the fuzzy match `--author` and `list --search` share.
pub open spec fn subseq_spec(hay: Seq<char>, needle: Seq<char>) -> bool
    decreases hay.len(),
{
    if needle.len() == 0 {
        true
    } else if hay.len() == 0 {
        false
    } else if hay[0] == needle[0] {
        subseq_spec(hay.skip(1), needle.skip(1))
    } else {
        subseq_spec(hay.skip(1), needle)
    }
}

/// Whether `needle` is a subsequence of `hay`.
pub fn is_subseq(hay: &str, needle: &str) -> (r: bool)
    ensures
        r == subseq_spec(hay@, needle@),
{
    let h = chars_of(hay);
    let n = chars_of(needle);
    let mut i: usize = 0;
    let mut j: usize = 0;
    assert(h@.skip(0) =~= h@);
    assert(n@.skip(0) =~= n@);
    while i < h.len() && j < n.len()
        invariant
            i <= h.len(),
            j <= n.len(),
            h@ == hay@,
            n@ == needle@,
            subseq_spec(hay@, needle@) == subseq_spec(h@.skip(i as int), n@.skip(j as int)),
        decreases h.len() - i,
    {
        assert(h@.skip(i as int).skip(1) =~= h@.skip(i + 1));
        assert(n@.skip(j as int).skip(1) =~= n@.skip(j + 1));
        if h[i] == n[j] {
            j = j + 1;
        }
        i = i + 1;
    }
    if j == n.len() {
        assert(n@.skip(j as int).len() == 0);
        true
    } else {
        assert(h@.skip(i as int).len() == 0);
        false
    }
}

/// What a row must pass to stay: every date bound, the named commits, the
/// author (a lowercased subsequence), the message (a lowercased substring
/// of subject or body), and the commits a `--filename` walk found.
pub struct RowFilter {
    pub dates: Vec<DateFilter>,
    /// Empty means every commit.
    pub wanted: Vec<String>,
    pub author: Option<String>,
    pub message: Option<String>,
    pub shas: Option<Vec<String>>,
    /// Commits strictly older than a `--from` bound: none of them is kept.
    pub older: Option<Vec<String>>,
}

/// A `RowFilter` as a value.
pub struct RowFilterSpec {
    pub dates: Seq<DateFilter>,
    pub wanted: Seq<Seq<char>>,
    pub author: Option<Seq<char>>,
    pub message: Option<Seq<char>>,
    pub shas: Option<Seq<Seq<char>>>,
    pub older: Option<Seq<Seq<char>>>,
}

impl View for RowFilter {
    type V = RowFilterSpec;

    open spec fn view(&self) -> RowFilterSpec {
        RowFilterSpec {
            dates: self.dates@,
            wanted: str_views(self.wanted@),
            author: crate::worktree::opt_view(self.author),
            message: crate::worktree::opt_view(self.message),
            shas: match self.shas {
                Some(v) => Some(str_views(v@)),
                None => None,
            },
            older: match self.older {
                Some(v) => Some(str_views(v@)),
                None => None,
            },
        }
    }
}

/// Row `r` passes `f`.
pub open spec fn keeps(f: RowFilterSpec, r: CommitRowSpec) -> bool {
    &&& forall|k: int| 0 <= k < f.dates.len() ==> admits_spec(
        (#[trigger] f.dates[k]).op,
        f.dates[k].date@,
        r.key,
    )
    &&& (f.wanted.len() == 0 || f.wanted.contains(r.sha))
    &&& (f.author matches Some(n) ==> subseq_spec(lowercase(r.author), n))
    &&& (f.message matches Some(n) ==> contains_spec(lowercase(r.text), n) || contains_spec(
        lowercase(r.body),
        n,
    ))
    &&& (f.shas matches Some(s) ==> s.contains(r.sha))
    &&& (f.older matches Some(o) ==> !o.contains(r.sha))
}

/// The rows `f` keeps, in order.
pub open spec fn kept(rows: Seq<CommitRowSpec>, f: RowFilterSpec) -> Seq<CommitRowSpec>
    decreases rows.len(),
{
    if rows.len() == 0 {
        Seq::empty()
    } else if keeps(f, rows.last()) {
        kept(rows.drop_last(), f).push(rows.last())
    } else {
        kept(rows.drop_last(), f)
    }
}

/// The rows shown: those `f` keeps, cut to `limit`, then reversed under
/// `--reverse` (after the cut, so it is the same rows read bottom-up).
pub open spec fn shown(
    rows: Seq<CommitRowSpec>,
    f: RowFilterSpec,
    limit: Option<usize>,
    reverse: bool,
) -> Seq<CommitRowSpec> {
    let k = kept(rows, f);
    let c = match limit {
        Some(n) => if n < k.len() {
            k.take(n as int)
        } else {
            k
        },
        None => k,
    };
    if reverse {
        c.reverse()
    } else {
        c
    }
}

/// Every row a filter keeps passes it and comes from the rows given, and
/// no more are kept than given.
pub proof fn lemma_kept_rows(rows: Seq<CommitRowSpec>, f: RowFilterSpec)
    ensures
        kept(rows, f).len() <= rows.len(),
        forall|i: int|
            0 <= i < kept(rows, f).len() ==> keeps(f, #[trigger] kept(rows, f)[i]) && rows.contains(
                kept(rows, f)[i],
            ),
    decreases rows.len(),
{
    if rows.len() > 0 {
        let d = rows.drop_last();
        lemma_kept_rows(d, f);
        let k0 = kept(d, f);
        assert forall|i: int| 0 <= i < kept(rows, f).len() implies keeps(
            f,
            #[trigger] kept(rows, f)[i],
        ) && rows.contains(kept(rows, f)[i]) by {
            if i < k0.len() {
                assert(kept(rows, f)[i] == k0[i]);
                let j = choose|j: int| 0 <= j < d.len() && d[j] == k0[i];
                assert(rows[j] == d[j]);
            } else {
                assert(kept(rows, f)[i] == rows.last());
                assert(rows[rows.len() - 1] == rows.last());
            }
        }
    }
}

/// What a table shows: only rows the filter keeps, taken from the rows
/// read, at most `limit` of them; and `--reverse` shows those same rows
/// read bottom-up (the cap comes first).
pub proof fn lemma_shown_rows(rows: Seq<CommitRowSpec>, f: RowFilterSpec, limit: Option<usize>)
    ensures
        shown(rows, f, limit, true) == shown(rows, f, limit, false).reverse(),
        limit matches Some(n) ==> shown(rows, f, limit, false).len() <= n,
        shown(rows, f, limit, false).len() <= rows.len(),
        forall|i: int|
            0 <= i < shown(rows, f, limit, false).len() ==> keeps(
                f,
                #[trigger] shown(rows, f, limit, false)[i],
            ) && rows.contains(shown(rows, f, limit, false)[i]),
{
    lemma_kept_rows(rows, f);
    let k = kept(rows, f);
    let s = shown(rows, f, limit, false);
    assert forall|i: int| 0 <= i < s.len() implies keeps(f, #[trigger] s[i]) && rows.contains(s[i]) by {
        assert(s[i] == k[i]);
    }
}

fn all_admit(dates: &Vec<DateFilter>, key: &str) -> (r: bool)
    ensures
        r == forall|k: int| 0 <= k < dates@.len() ==> admits_spec(
            (#[trigger] dates@[k]).op,
            dates@[k].date@,
            key@,
        ),
{
    let mut i: usize = 0;
    while i < dates.len()
        invariant
            i <= dates.len(),
            forall|k: int| 0 <= k < i ==> admits_spec(
                (#[trigger] dates@[k]).op,
                dates@[k].date@,
                key@,
            ),
        decreases dates.len() - i,
    {
        if !dates[i].admits(key) {
            return false;
        }
        i = i + 1;
    }
    true
}

/// Whether row `r` passes `f`.
pub fn row_kept(f: &RowFilter, r: &CommitRow) -> (b: bool)
    ensures
        b == keeps(f@, r@),
{
    if !all_admit(&f.dates, r.key.as_str()) {
        return false;
    }
    if f.wanted.len() > 0 && !member(f.wanted.as_slice(), r.sha.as_str()) {
        return false;
    }
    if let Some(n) = &f.author {
        let a = to_lower(r.author.as_str());
        if !is_subseq(a.as_str(), n.as_str()) {
            return false;
        }
    }
    if let Some(n) = &f.message {
        let nc = chars_of(n.as_str());
        let t = chars_of(to_lower(r.text.as_str()).as_str());
        let b = chars_of(to_lower(r.body.as_str()).as_str());
        if !contains(t.as_slice(), nc.as_slice()) && !contains(b.as_slice(), nc.as_slice()) {
            return false;
        }
    }
    if let Some(s) = &f.shas {
        if !member(s.as_slice(), r.sha.as_str()) {
            return false;
        }
    }
    if let Some(o) = &f.older {
        if member(o.as_slice(), r.sha.as_str()) {
            return false;
        }
    }
    true
}

/// The rows to show: see `shown`.
pub fn keep_rows(rows: Vec<CommitRow>, f: &RowFilter, limit: Option<usize>, reverse: bool) -> (r: Vec<
    CommitRow,
>)
    ensures
        row_views(r@) == shown(row_views(rows@), f@, limit, reverse),
{
    let ghost rv = row_views(rows@);
    let mut rows = rows;
    let mut out: Vec<CommitRow> = Vec::new();
    let mut i: usize = 0;
    let n = rows.len();
    while i < n
        invariant
            i <= n,
            n == rv.len(),
            rows@.len() == n - i,
            row_views(rows@) == rv.skip(i as int),
            row_views(out@) == kept(rv.take(i as int), f@),
        decreases n - i,
    {
        let ghost before = rows@;
        assert(row_views(before)[0] == rv[i as int]);
        let r = rows.remove(0);
        assert(r == before[0]);
        assert forall|k: int| 0 <= k < rows@.len() implies (#[trigger] row_views(rows@)[k]) == rv.skip(
            i + 1,
        )[k] by {
            assert(rows@[k] == before[k + 1]);
            assert(row_views(before)[k + 1] == rv.skip(i as int)[k + 1]);
        }
        assert(row_views(rows@) =~= rv.skip(i + 1));
        assert(rv.take(i + 1).drop_last() =~= rv.take(i as int));
        assert(rv.take(i + 1).last() == rv[i as int]);
        if row_kept(f, &r) {
            let ghost before = row_views(out@);
            out.push(r);
            assert(row_views(out@) =~= before.push(rv[i as int]));
        }
        i = i + 1;
    }
    assert(rv.take(n as int) =~= rv);
    let ghost k = row_views(out@);
    if let Some(m) = limit {
        if m < out.len() {
            out.truncate(m);
            assert(row_views(out@) =~= k.take(m as int));
        }
    }
    if reverse {
        let ghost c = row_views(out@);
        let mut back: Vec<CommitRow> = Vec::new();
        let len = out.len();
        while out.len() > 0
            invariant
                len == c.len(),
                out@.len() <= len,
                row_views(out@) == c.take(out@.len() as int),
                row_views(back@) == c.reverse().take(len - out@.len()),
            decreases out.len(),
        {
            let ghost before = row_views(back@);
            let ghost m = out@.len();
            let ghost prev = out@;
            assert(row_views(prev)[m - 1] == c.take(m as int)[m - 1]);
            let x = out.pop().unwrap();
            assert(x == prev[m - 1]);
            assert(x@ == c[m - 1]);
            back.push(x);
            assert(out@ =~= prev.drop_last());
            assert(row_views(out@) =~= c.take(m - 1));
            assert(c.reverse()[len - m] == c[m - 1]);
            assert(row_views(back@) =~= before.push(x@));
            assert(row_views(back@) =~= c.reverse().take(len - (m - 1)));
        }
        assert(c.reverse().take(len as int) =~= c.reverse());
        return back;
    }
    out
}

// ---------------------------------------------------------------------------
// Targets, caps and the empty table
// ---------------------------------------------------------------------------

/// The first index listed again later in `idxs`, from position `i` on.
pub open spec fn first_repeat(idxs: Seq<usize>, i: int) -> Option<usize>
    decreases idxs.len() - i,
{
    if i < 0 || i >= idxs.len() {
        None
    } else if idxs.skip(i + 1).contains(idxs[i]) {
        Some(idxs[i])
    } else {
        first_repeat(idxs, i + 1)
    }
}

/// The target list a table accepts: not empty when `empty` names the
/// complaint for that, and no worktree twice.
pub open spec fn targets_spec(idxs: Seq<usize>, empty: Option<Seq<char>>) -> Result<(), Seq<char>> {
    if idxs.len() == 0 && empty is Some {
        Err(empty->0)
    } else {
        match first_repeat(idxs, 0) {
            Some(a) => Err("worktree #"@ + decimal((a + 1) as nat) + " listed twice"@),
            None => Ok(()),
        }
    }
}

/// Check a table's target list: see `targets_spec`.
pub fn check_targets(idxs: &[usize], empty: Option<&str>) -> (r: Result<(), String>)
    requires
        forall|k: int| 0 <= k < idxs.len() ==> idxs[k] < usize::MAX,
    ensures
        match targets_spec(idxs@, opt_str(empty)) {
            Ok(()) => r is Ok,
            Err(e) => r matches Err(x) && x@ == e,
        },
{
    if idxs.len() == 0 {
        if let Some(m) = empty {
            return Err(string_of(chars_of(m).as_slice()));
        }
    }
    let mut i: usize = 0;
    assert(first_repeat(idxs@, 0) == first_repeat(idxs@, 0));
    while i < idxs.len()
        invariant
            i <= idxs.len(),
            forall|k: int| 0 <= k < idxs.len() ==> idxs[k] < usize::MAX,
            first_repeat(idxs@, 0) == first_repeat(idxs@, i as int),
        decreases idxs.len() - i,
    {
        let a = idxs[i];
        let mut j: usize = i + 1;
        let mut again = false;
        while j < idxs.len()
            invariant
                i < j <= idxs.len(),
                !again ==> forall|k: int| i < k < j ==> idxs[k] != a,
                again ==> idxs@.skip(i + 1).contains(a),
            decreases idxs.len() - j,
        {
            if idxs[j] == a {
                assert(idxs@.skip(i + 1)[j - i - 1] == a);
                again = true;
            }
            j = j + 1;
        }
        if again {
            let mut m: Vec<char> = Vec::new();
            push_str(&mut m, "worktree #");
            push_all(&mut m, decimal_of(a + 1).as_slice());
            push_str(&mut m, " listed twice");
            return Err(string_of(m.as_slice()));
        }
        assert(!idxs@.skip(i + 1).contains(a)) by {
            if idxs@.skip(i + 1).contains(a) {
                let tail = idxs@.skip(i + 1);
                let k = choose|k: int| 0 <= k < tail.len() && #[trigger] tail[k] == a;
                assert(idxs[i + 1 + k] == a);
            }
        }
        i = i + 1;
    }
    Ok(())
}

/// `idxs` with each of `more` not already among them appended, in order.
pub open spec fn added_targets(idxs: Seq<usize>, more: Seq<usize>) -> Seq<usize>
    decreases more.len(),
{
    if more.len() == 0 {
        idxs
    } else {
        let a = added_targets(idxs, more.drop_last());
        if a.contains(more.last()) {
            a
        } else {
            a.push(more.last())
        }
    }
}

/// What `commits` works on: a `-b`/`--branch` anywhere in its arguments
/// adds the worktrees it names to the targets already picked (each once),
/// and the rest of the arguments are the table's own.
pub open spec fn commits_targets_spec(trees: Seq<Worktree>, idxs: Seq<usize>, rest: Seq<Seq<char>>) -> Result<
    (Seq<usize>, Seq<Seq<char>>),
    Seq<char>,
> {
    match extract_spec(rest, 0, None, "-b"@, "--branch"@, "1,2"@) {
        Err(e) => Err(e),
        Ok((args, None)) => Ok((idxs, args)),
        Ok((args, Some(val))) => match branch_targets_spec(trees, val) {
            Err(e) => Err(e),
            Ok(ks) => Ok((added_targets(idxs, ks), args)),
        },
    }
}

/// The targets and arguments of a `commits` run: see `commits_targets_spec`.
pub fn cmd_commits(trees: &[Worktree], idxs: &[usize], rest: &[String]) -> (r: Result<(Vec<usize>, Vec<String>), String>)
    ensures
        match commits_targets_spec(trees@, idxs@, str_views(rest@)) {
            Ok((v, a)) => r matches Ok((x, y)) && x@ == v && str_views(y@) == a,
            Err(e) => r matches Err(x) && x@ == e,
        },
{
    let (args, branch) = match extract_branch_flag(rest) {
        Ok(p) => p,
        Err(e) => return Err(e),
    };
    let mut out: Vec<usize> = Vec::new();
    let mut c: usize = 0;
    while c < idxs.len()
        invariant
            c <= idxs.len(),
            out@ == idxs@.take(c as int),
        decreases idxs.len() - c,
    {
        out.push(idxs[c]);
        assert(idxs@.take(c + 1) =~= idxs@.take(c as int).push(idxs@[c as int]));
        c = c + 1;
    }
    assert(idxs@.take(idxs.len() as int) =~= idxs@);
    let val = match branch {
        None => return Ok((out, args)),
        Some(v) => v,
    };
    let ks = match branch_targets(trees, val.as_str()) {
        Ok(ks) => ks,
        Err(e) => return Err(e),
    };
    let mut i: usize = 0;
    while i < ks.len()
        invariant
            i <= ks.len(),
            out@ == added_targets(idxs@, ks@.take(i as int)),
        decreases ks.len() - i,
    {
        assert(ks@.take(i + 1).drop_last() =~= ks@.take(i as int));
        assert(ks@.take(i + 1).last() == ks@[i as int]);
        let k = ks[i];
        let mut j: usize = 0;
        let mut seen = false;
        while j < out.len()
            invariant
                j <= out.len(),
                seen == exists|t: int| 0 <= t < j && out@[t] == k,
            decreases out.len() - j,
        {
            if out[j] == k {
                seen = true;
            }
            j = j + 1;
        }
        if !seen {
            out.push(k);
        }
        i = i + 1;
    }
    assert(ks@.take(ks.len() as int) =~= ks@);
    Ok((out, args))
}

/// Ten rows unless told otherwise: `--all` and `--union` ask for everything
/// outright, and `-n` already said.
pub fn view_limit(limit: Option<usize>, all: bool, union: bool) -> (r: Option<usize>)
    ensures
        r == (if limit is None && !all && !union {
            Some(10usize)
        } else {
            limit
        }),
{
    if limit.is_none() && !all && !union {
        Some(10)
    } else {
        limit
    }
}

/// Some filter reads the rows, so git cannot cap the walk for them.
pub open spec fn filtered_spec(a: CommitsArgs) -> bool {
    a.dates@.len() > 0 || a.commit_since is Some || a.commit_until is Some || a.commits@.len() > 0
        || a.author is Some || a.message is Some || a.filename is Some
}

/// Whether a filter runs over the rows: see `filtered_spec`.
pub fn is_filtered(a: &CommitsArgs) -> (r: bool)
    ensures
        r == filtered_spec(*a),
{
    a.dates.len() > 0 || a.commit_since.is_some() || a.commit_until.is_some() || a.commits.len() > 0
        || a.author.is_some() || a.message.is_some() || a.filename.is_some()
}

/// The cap handed to git: none when a filter or the divergence window still
/// has rows to drop, since capping first would show fewer than asked for.
pub fn git_cap(filtered: bool, windowed: bool, limit: Option<usize>) -> (r: Option<usize>)
    ensures
        r == (if filtered || windowed {
            None
        } else {
            limit
        }),
{
    if filtered || windowed {
        None
    } else {
        limit
    }
}

pub open spec fn none_kept(unfiltered: nat) -> Seq<char> {
    "no commits match those filters: "@ + decimal(unfiltered) + " commits, none kept"@
}

/// What an empty `commits` table says instead: a filter that kept nothing
/// (with a hint at a wider source when the rows were only a slice), the
/// branch that has nothing, or, for a review whose range is empty, nothing
/// at all (its header said so already).
pub open spec fn empty_commits_spec(
    filtered: bool,
    unfiltered: nat,
    solo: bool,
    all: bool,
    union: bool,
    review: bool,
    until_only: bool,
    label: Seq<char>,
) -> Option<Seq<char>> {
    if filtered && unfiltered > 0 {
        if !solo && !all && !union && !review {
            Some(none_kept(unfiltered)
                + "\nhint: these are only the rows ahead of the other branches -- try --all (this branch's whole log), --union (every branch listed), or "@
                + (if until_only {
                "--commit-since"@
            } else {
                "--date-since"@
            }) + " to start further back"@)
        } else {
            Some(none_kept(unfiltered))
        }
    } else if review {
        None
    } else if union {
        Some("no commits"@)
    } else if solo || all {
        Some("no commits on "@ + label)
    } else {
        Some("no commits ahead of "@ + label)
    }
}

fn push_none_kept(out: &mut Vec<char>, unfiltered: usize)
    ensures
        final(out)@ == old(out)@ + none_kept(unfiltered as nat),
{
    push_str(out, "no commits match those filters: ");
    push_all(out, decimal_of(unfiltered).as_slice());
    push_str(out, " commits, none kept");
}

/// What an empty table says: see `empty_commits_spec`.
pub fn empty_commits_msg(
    filtered: bool,
    unfiltered: usize,
    solo: bool,
    all: bool,
    union: bool,
    review: bool,
    until_only: bool,
    label: &str,
) -> (r: Option<String>)
    ensures
        match empty_commits_spec(filtered, unfiltered as nat, solo, all, union, review, until_only, label@) {
            Some(m) => r matches Some(x) && x@ == m,
            None => r is None,
        },
{
    let mut m: Vec<char> = Vec::new();
    if filtered && unfiltered > 0 {
        push_none_kept(&mut m, unfiltered);
        if !solo && !all && !union && !review {
            push_str(
                &mut m,
                "\nhint: these are only the rows ahead of the other branches -- try --all (this branch's whole log), --union (every branch listed), or ",
            );
            if until_only {
                push_str(&mut m, "--commit-since");
            } else {
                push_str(&mut m, "--date-since");
            }
            push_str(&mut m, " to start further back");
        }
    } else if review {
        return None;
    } else if union {
        push_str(&mut m, "no commits");
    } else if solo || all {
        push_str(&mut m, "no commits on ");
        push_str(&mut m, label);
    } else {
        push_str(&mut m, "no commits ahead of ");
        push_str(&mut m, label);
    }
    proof {
        assert(m@ =~= empty_commits_spec(filtered, unfiltered as nat, solo, all, union, review, until_only, label@)->0);
    }
    Some(string_of(m.as_slice()))
}

/// Appends `items` joined by `sep`.
pub(crate) fn push_join(out: &mut Vec<char>, items: &[String], sep: &str)
    ensures
        final(out)@ == old(out)@ + joined(str_views(items@), sep@),
{
    let ghost base = out@;
    let ghost iv = str_views(items@);
    let mut part: Vec<char> = Vec::new();
    let mut i: usize = 0;
    assert(part@ =~= joined(iv.take(0), sep@));
    while i < items.len()
        invariant
            i <= items.len(),
            iv == str_views(items@),
            part@ == joined(iv.take(i as int), sep@),
        decreases items.len() - i,
    {
        let it = chars_of(items[i].as_str());
        push_joined(&mut part, Ghost(iv.take(i as int)), i == 0, it.as_slice(), sep);
        assert(iv.take(i as int).push(it@) =~= iv.take(i + 1));
        i = i + 1;
    }
    assert(iv.take(items.len() as int) =~= iv);
    push_all(out, part.as_slice());
}

/// What an empty `log` says: a filter that kept nothing, or the path no
/// commit touched on the listed branches, with the rename hint unless
/// `--no-follow` already ruled renames out.
pub open spec fn empty_log_spec(
    filtered: bool,
    unfiltered: nat,
    paths: Seq<Seq<char>>,
    labels: Seq<Seq<char>>,
    no_follow: bool,
) -> Seq<char> {
    if filtered && unfiltered > 0 {
        none_kept(unfiltered)
    } else {
        "no commits touched '"@ + joined(paths, ", "@) + "' on "@ + joined(labels, ", "@) + (if no_follow {
            Seq::empty()
        } else {
            "\nhint: it may live under another name; --no-follow shows the literal path only"@
        })
    }
}

/// What an empty `log` says: see `empty_log_spec`.
pub fn empty_log_msg(
    filtered: bool,
    unfiltered: usize,
    paths: &[String],
    labels: &[String],
    no_follow: bool,
) -> (r: String)
    ensures
        r@ == empty_log_spec(filtered, unfiltered as nat, str_views(paths@), str_views(labels@), no_follow),
{
    let mut m: Vec<char> = Vec::new();
    if filtered && unfiltered > 0 {
        push_none_kept(&mut m, unfiltered);
    } else {
        push_str(&mut m, "no commits touched '");
        push_join(&mut m, paths, ", ");
        push_str(&mut m, "' on ");
        push_join(&mut m, labels, ", ");
        if !no_follow {
            push_str(&mut m, "\nhint: it may live under another name; --no-follow shows the literal path only");
        }
    }
    assert(m@ =~= empty_log_spec(filtered, unfiltered as nat, str_views(paths@), str_views(labels@), no_follow));
    string_of(m.as_slice())
}

/// The leading run of `log`'s words that are not flags: its paths.
pub open spec fn leading_spec(rest: Seq<Seq<char>>) -> nat
    decreases rest.len(),
{
    if rest.len() == 0 || crate::text::is_prefix("-"@, rest[0]) {
        0
    } else {
        1 + leading_spec(rest.skip(1))
    }
}

/// How many of `rest`'s first words are paths: see `leading_spec`.
pub fn leading_paths(rest: &[String]) -> (n: usize)
    ensures
        n == leading_spec(str_views(rest@)),
{
    let ghost rv = str_views(rest@);
    let mut i: usize = 0;
    assert(rv.skip(0) =~= rv);
    while i < rest.len()
        invariant
            i <= rest.len(),
            rv == str_views(rest@),
            leading_spec(rv) == i + leading_spec(rv.skip(i as int)),
        decreases rest.len() - i,
    {
        let w = chars_of(rest[i].as_str());
        assert(rv.skip(i as int)[0] == w@);
        if crate::text::starts_with_str(w.as_slice(), "-") {
            return i;
        }
        assert(rv.skip(i as int).skip(1) =~= rv.skip(i + 1));
        i = i + 1;
    }
    assert(rv.skip(i as int).len() == 0);
    i
}


// ---------------------------------------------------------------------------
// The lines around the table
// ---------------------------------------------------------------------------

/// The total of optional counts: none once any is missing.
pub open spec fn sum_opt(s: Seq<Option<usize>>) -> Option<int>
    decreases s.len(),
{
    if s.len() == 0 {
        Some(0)
    } else {
        match (sum_opt(s.drop_last()), s.last()) {
            (Some(x), Some(y)) => Some(x + y),
            _ => None,
        }
    }
}

/// The total of the counts that are there.
pub open spec fn pos_sum(s: Seq<Option<usize>>) -> int
    decreases s.len(),
{
    if s.len() == 0 {
        0
    } else {
        pos_sum(s.drop_last()) + match s.last() {
            Some(y) => y as int,
            None => 0,
        }
    }
}

proof fn lemma_pos_sum_prefix(s: Seq<Option<usize>>, i: int)
    requires
        0 <= i <= s.len(),
    ensures
        0 <= pos_sum(s.take(i)) <= pos_sum(s),
        sum_opt(s.take(i)) matches Some(t) ==> t == pos_sum(s.take(i)),
    decreases s.len() - i,
{
    lemma_pos_sum_nonneg(s.take(i));
    if i < s.len() {
        lemma_pos_sum_prefix(s, i + 1);
        assert(s.take(i + 1).drop_last() =~= s.take(i));
    } else {
        assert(s.take(i) =~= s);
    }
}

proof fn lemma_pos_sum_nonneg(s: Seq<Option<usize>>)
    ensures
        pos_sum(s) >= 0,
        sum_opt(s) matches Some(t) ==> t == pos_sum(s),
    decreases s.len(),
{
    if s.len() > 0 {
        lemma_pos_sum_nonneg(s.drop_last());
    }
}

/// A total as the header spells it: `+N`, or `-` once a count is missing.
pub open spec fn total_cell(n: Option<int>, sign: char) -> Seq<char> {
    match n {
        Some(v) => seq![sign] + decimal(v as nat),
        None => "-"@,
    }
}

pub open spec fn plural_s(n: nat) -> Seq<char> {
    if n == 1 {
        Seq::empty()
    } else {
        "s"@
    }
}

/// The earliest of `ks`, compared as text.
pub open spec fn min_key(ks: Seq<Seq<char>>) -> Option<Seq<char>>
    decreases ks.len(),
{
    if ks.len() == 0 {
        None
    } else {
        match min_key(ks.drop_last()) {
            None => Some(ks.last()),
            Some(m) => Some(if lex_le(m, ks.last()) {
                m
            } else {
                ks.last()
            }),
        }
    }
}

/// The latest of `ks`, compared as text.
pub open spec fn max_key(ks: Seq<Seq<char>>) -> Option<Seq<char>>
    decreases ks.len(),
{
    if ks.len() == 0 {
        None
    } else {
        match max_key(ks.drop_last()) {
            None => Some(ks.last()),
            Some(m) => Some(if lex_le(m, ks.last()) {
                ks.last()
            } else {
                m
            }),
        }
    }
}

pub open spec fn or_empty(o: Option<Seq<char>>) -> Seq<char> {
    match o {
        Some(s) => s,
        None => Seq::empty(),
    }
}

/// How many rows have their `±` counted: one count per row, as far as both
/// go.
pub open spec fn counted(rows: nat, stats: nat) -> nat {
    if rows < stats {
        rows
    } else {
        stats
    }
}

/// `log`'s header: the paths, the branches, and the shown rows' commits,
/// summed counts and distinct authors; under `--squash` also the first and
/// last day the path was touched.
pub open spec fn log_header_spec(
    paths: Seq<Seq<char>>,
    labels: Seq<Seq<char>>,
    rows: Seq<CommitRowSpec>,
    stats: Seq<(Option<usize>, Option<usize>)>,
    squash: bool,
) -> Seq<char> {
    let k = counted(rows.len(), stats.len());
    let adds = stats.take(k as int).map_values(|p: (Option<usize>, Option<usize>)| p.0);
    let rems = stats.take(k as int).map_values(|p: (Option<usize>, Option<usize>)| p.1);
    let authors = rows.take(k as int).map_values(|r: CommitRowSpec| r.author).to_set().len();
    let keys = rows.map_values(|r: CommitRowSpec| r.key);
    joined(paths, ", "@) + "   "@ + joined(labels, ", "@) + "   "@ + decimal(rows.len()) + " commit"@
        + plural_s(rows.len()) + ", "@ + total_cell(sum_opt(adds), '+') + " "@ + total_cell(
        sum_opt(rems),
        '-',
    ) + ", "@ + decimal(authors) + " author"@ + plural_s(authors) + (if squash {
        ", first "@ + or_empty(min_key(keys)) + ", last "@ + or_empty(max_key(keys))
    } else {
        Seq::empty()
    })
}

fn push_total(out: &mut Vec<char>, n: Option<usize>, sign: char, Ghost(t): Ghost<Option<int>>)
    requires
        t matches Some(v) ==> n == Some(v as usize) && 0 <= v <= usize::MAX,
        t is None ==> n is None,
    ensures
        final(out)@ == old(out)@ + total_cell(t, sign),
{
    match n {
        Some(v) => {
            out.push(sign);
            push_all(out, decimal_of(v).as_slice());
            assert(final(out)@ =~= old(out)@ + total_cell(t, sign));
        },
        None => push_str(out, "-"),
    }
}

fn sums(stats: &[(Option<usize>, Option<usize>)], k: usize) -> (r: (Option<usize>, Option<usize>))
    requires
        k <= stats.len(),
        pos_sum(stats@.map_values(|p: (Option<usize>, Option<usize>)| p.0)) <= usize::MAX,
        pos_sum(stats@.map_values(|p: (Option<usize>, Option<usize>)| p.1)) <= usize::MAX,
    ensures
        sum_opt(stats@.take(k as int).map_values(|p: (Option<usize>, Option<usize>)| p.0)) matches Some(
            v,
        ) ==> r.0 == Some(v as usize) && 0 <= v <= usize::MAX,
        sum_opt(stats@.take(k as int).map_values(|p: (Option<usize>, Option<usize>)| p.0)) is None
            ==> r.0 is None,
        sum_opt(stats@.take(k as int).map_values(|p: (Option<usize>, Option<usize>)| p.1)) matches Some(
            v,
        ) ==> r.1 == Some(v as usize) && 0 <= v <= usize::MAX,
        sum_opt(stats@.take(k as int).map_values(|p: (Option<usize>, Option<usize>)| p.1)) is None
            ==> r.1 is None,
{
    let ghost all_a = stats@.map_values(|p: (Option<usize>, Option<usize>)| p.0);
    let ghost all_r = stats@.map_values(|p: (Option<usize>, Option<usize>)| p.1);
    let mut a: Option<usize> = Some(0);
    let mut r: Option<usize> = Some(0);
    let mut i: usize = 0;
    while i < k
        invariant
            i <= k <= stats.len(),
            all_a == stats@.map_values(|p: (Option<usize>, Option<usize>)| p.0),
            all_r == stats@.map_values(|p: (Option<usize>, Option<usize>)| p.1),
            pos_sum(all_a) <= usize::MAX,
            pos_sum(all_r) <= usize::MAX,
            sum_opt(all_a.take(i as int)) matches Some(v) ==> a == Some(v as usize),
            sum_opt(all_a.take(i as int)) is None ==> a is None,
            sum_opt(all_r.take(i as int)) matches Some(v) ==> r == Some(v as usize),
            sum_opt(all_r.take(i as int)) is None ==> r is None,
        decreases k - i,
    {
        proof {
            lemma_pos_sum_prefix(all_a, i + 1);
            lemma_pos_sum_prefix(all_r, i + 1);
            lemma_pos_sum_prefix(all_a, i as int);
            lemma_pos_sum_prefix(all_r, i as int);
            assert(all_a.take(i + 1).drop_last() =~= all_a.take(i as int));
            assert(all_r.take(i + 1).drop_last() =~= all_r.take(i as int));
            assert(all_a.take(i + 1).last() == stats@[i as int].0);
            assert(all_r.take(i + 1).last() == stats@[i as int].1);
        }
        a = match (a, stats[i].0) {
            (Some(x), Some(y)) => Some(x + y),
            _ => None,
        };
        r = match (r, stats[i].1) {
            (Some(x), Some(y)) => Some(x + y),
            _ => None,
        };
        i = i + 1;
    }
    proof {
        lemma_pos_sum_prefix(all_a, k as int);
        lemma_pos_sum_prefix(all_r, k as int);
        assert(all_a.take(k as int) =~= stats@.take(k as int).map_values(
            |p: (Option<usize>, Option<usize>)| p.0,
        ));
        assert(all_r.take(k as int) =~= stats@.take(k as int).map_values(
            |p: (Option<usize>, Option<usize>)| p.1,
        ));
    }
    (a, r)
}

fn distinct_authors(rows: &[CommitRow], k: usize) -> (n: usize)
    requires
        k <= rows.len(),
    ensures
        n == row_views(rows@).take(k as int).map_values(|r: CommitRowSpec| r.author).to_set().len(),
{
    let ghost names = row_views(rows@).map_values(|r: CommitRowSpec| r.author);
    let mut seen: Vec<String> = Vec::new();
    let mut i: usize = 0;
    while i < k
        invariant
            i <= k <= rows.len(),
            names == row_views(rows@).map_values(|r: CommitRowSpec| r.author),
            str_views(seen@).no_duplicates(),
            str_views(seen@).to_set() == names.take(i as int).to_set(),
        decreases k - i,
    {
        let a = rows[i].author.as_str();
        assert(names[i as int] == a@);
        assert(names.take(i + 1) =~= names.take(i as int).push(a@));
        proof {
            names.take(i as int).lemma_push_to_set_commute(a@);
        }
        if !member(seen.as_slice(), a) {
            let ghost before = str_views(seen@);
            seen.push(rows[i].author.clone());
            assert(str_views(seen@) =~= before.push(a@));
            proof {
                before.lemma_push_to_set_commute(a@);
                assert forall|x: int, y: int|
                    0 <= x < before.push(a@).len() && 0 <= y < before.push(a@).len() && x != y implies
                    before.push(a@)[x] != before.push(a@)[y] by {
                    if x < before.len() && y < before.len() {
                    } else if x == before.len() {
                        assert(before[y] != a@);
                    } else {
                        assert(before[x] != a@);
                    }
                }
            }
        } else {
            assert(names.take(i as int).to_set().contains(a@));
            assert(names.take(i as int).to_set().insert(a@) =~= names.take(i as int).to_set());
        }
        i = i + 1;
    }
    proof {
        str_views(seen@).unique_seq_to_set();
        assert(row_views(rows@).take(k as int).map_values(|r: CommitRowSpec| r.author) =~= names.take(
            k as int,
        ));
    }
    seen.len()
}

fn key_bounds(rows: &[CommitRow]) -> (r: (Vec<char>, Vec<char>))
    ensures
        r.0@ == or_empty(min_key(row_views(rows@).map_values(|x: CommitRowSpec| x.key))),
        r.1@ == or_empty(max_key(row_views(rows@).map_values(|x: CommitRowSpec| x.key))),
{
    let ghost ks = row_views(rows@).map_values(|x: CommitRowSpec| x.key);
    let mut lo: Option<Vec<char>> = None;
    let mut hi: Option<Vec<char>> = None;
    let mut i: usize = 0;
    while i < rows.len()
        invariant
            i <= rows.len(),
            ks == row_views(rows@).map_values(|x: CommitRowSpec| x.key),
            min_key(ks.take(i as int)) == (match lo {
                Some(v) => Some(v@),
                None => None::<Seq<char>>,
            }),
            max_key(ks.take(i as int)) == (match hi {
                Some(v) => Some(v@),
                None => None::<Seq<char>>,
            }),
        decreases rows.len() - i,
    {
        let k = chars_of(rows[i].key.as_str());
        assert(ks.take(i + 1).drop_last() =~= ks.take(i as int));
        assert(ks.take(i + 1).last() == k@);
        lo = match lo {
            None => Some(crate::text::slice_from(k.as_slice(), 0)),
            Some(m) => if less_or_equal(m.as_slice(), k.as_slice()) {
                Some(m)
            } else {
                Some(crate::text::slice_from(k.as_slice(), 0))
            },
        };
        hi = match hi {
            None => Some(crate::text::slice_from(k.as_slice(), 0)),
            Some(m) => if less_or_equal(m.as_slice(), k.as_slice()) {
                Some(crate::text::slice_from(k.as_slice(), 0))
            } else {
                Some(m)
            },
        };
        assert(k@.skip(0) =~= k@);
        i = i + 1;
    }
    assert(ks.take(rows.len() as int) =~= ks);
    let a = match lo {
        Some(v) => v,
        None => Vec::new(),
    };
    let b = match hi {
        Some(v) => v,
        None => Vec::new(),
    };
    (a, b)
}

/// `log`'s header line: see `log_header_spec`.
pub fn log_header(
    paths: &[String],
    labels: &[String],
    rows: &[CommitRow],
    stats: &[(Option<usize>, Option<usize>)],
    squash: bool,
) -> (r: String)
    requires
        pos_sum(stats@.map_values(|p: (Option<usize>, Option<usize>)| p.0)) <= usize::MAX,
        pos_sum(stats@.map_values(|p: (Option<usize>, Option<usize>)| p.1)) <= usize::MAX,
    ensures
        r@ == log_header_spec(str_views(paths@), str_views(labels@), row_views(rows@), stats@, squash),
{
    let k = if rows.len() < stats.len() {
        rows.len()
    } else {
        stats.len()
    };
    let (added, removed) = sums(stats, k);
    let authors = distinct_authors(rows, k);
    let mut m: Vec<char> = Vec::new();
    push_join(&mut m, paths, ", ");
    push_str(&mut m, "   ");
    push_join(&mut m, labels, ", ");
    push_str(&mut m, "   ");
    push_all(&mut m, decimal_of(rows.len()).as_slice());
    push_str(&mut m, " commit");
    if rows.len() != 1 {
        push_str(&mut m, "s");
    }
    push_str(&mut m, ", ");
    push_total(
        &mut m,
        added,
        '+',
        Ghost(sum_opt(stats@.take(k as int).map_values(|p: (Option<usize>, Option<usize>)| p.0))),
    );
    push_str(&mut m, " ");
    push_total(
        &mut m,
        removed,
        '-',
        Ghost(sum_opt(stats@.take(k as int).map_values(|p: (Option<usize>, Option<usize>)| p.1))),
    );
    push_str(&mut m, ", ");
    push_all(&mut m, decimal_of(authors).as_slice());
    push_str(&mut m, " author");
    if authors != 1 {
        push_str(&mut m, "s");
    }
    if squash {
        let (lo, hi) = key_bounds(rows);
        push_str(&mut m, ", first ");
        push_all(&mut m, lo.as_slice());
        push_str(&mut m, ", last ");
        push_all(&mut m, hi.as_slice());
    }
    assert(m@ =~= log_header_spec(str_views(paths@), str_views(labels@), row_views(rows@), stats@, squash));
    string_of(m.as_slice())
}


// ---------------------------------------------------------------------------
// What the report says it was made by, and what it holds
// ---------------------------------------------------------------------------

/// The targets as the user numbers them, `1,2,3`.
pub open spec fn numbers(idxs: Seq<usize>) -> Seq<char> {
    joined(idxs.map_values(|i: usize| decimal((i + 1) as nat)), ","@)
}

/// `rest`, after a space when there is any.
pub open spec fn tail_words(rest: Seq<Seq<char>>) -> Seq<char> {
    (if rest.len() == 0 {
        Seq::empty()
    } else {
        " "@
    }) + joined(rest, " "@)
}

/// The command a `commits` report says made it.
pub open spec fn commits_cmd_spec(idxs: Seq<usize>, rest: Seq<Seq<char>>) -> Seq<char> {
    "git-wt "@ + numbers(idxs) + " commits"@ + tail_words(rest)
}

/// The command a review report says made it, and which way the merge goes.
pub open spec fn review_cmd_spec(rest: Seq<Seq<char>>, src: Seq<char>, dest: Seq<char>) -> Seq<char> {
    "git-wt <dest> merge --review"@ + tail_words(rest) + "   # "@ + src + " -> "@ + dest
}

/// The command a `log` report says made it.
pub open spec fn log_cmd_spec(idxs: Seq<usize>, paths: Seq<Seq<char>>, rest: Seq<Seq<char>>) -> Seq<char> {
    "git-wt "@ + numbers(idxs) + " log "@ + joined(paths, " "@) + tail_words(rest)
}

fn push_numbers(out: &mut Vec<char>, idxs: &[usize])
    requires
        forall|k: int| 0 <= k < idxs.len() ==> idxs[k] < usize::MAX,
    ensures
        final(out)@ == old(out)@ + numbers(idxs@),
{
    let ghost ns = idxs@.map_values(|i: usize| decimal((i + 1) as nat));
    let mut part: Vec<char> = Vec::new();
    let mut i: usize = 0;
    assert(part@ =~= joined(ns.take(0), ","@));
    while i < idxs.len()
        invariant
            i <= idxs.len(),
            forall|k: int| 0 <= k < idxs.len() ==> idxs[k] < usize::MAX,
            ns == idxs@.map_values(|i: usize| decimal((i + 1) as nat)),
            part@ == joined(ns.take(i as int), ","@),
        decreases idxs.len() - i,
    {
        let d = decimal_of(idxs[i] + 1);
        push_joined(&mut part, Ghost(ns.take(i as int)), i == 0, d.as_slice(), ",");
        assert(ns.take(i as int).push(d@) =~= ns.take(i + 1));
        i = i + 1;
    }
    assert(ns.take(idxs.len() as int) =~= ns);
    push_all(out, part.as_slice());
}

fn push_tail(out: &mut Vec<char>, rest: &[String])
    ensures
        final(out)@ == old(out)@ + tail_words(str_views(rest@)),
{
    let ghost base = out@;
    if rest.len() > 0 {
        push_str(out, " ");
    }
    push_join(out, rest, " ");
    assert(out@ =~= base + tail_words(str_views(rest@)));
}

/// The command a `commits` report says made it: see `commits_cmd_spec`.
pub fn commits_cmd(idxs: &[usize], rest: &[String]) -> (r: String)
    requires
        forall|k: int| 0 <= k < idxs.len() ==> idxs[k] < usize::MAX,
    ensures
        r@ == commits_cmd_spec(idxs@, str_views(rest@)),
{
    let mut m: Vec<char> = Vec::new();
    push_str(&mut m, "git-wt ");
    push_numbers(&mut m, idxs);
    push_str(&mut m, " commits");
    push_tail(&mut m, rest);
    assert(m@ =~= commits_cmd_spec(idxs@, str_views(rest@)));
    string_of(m.as_slice())
}

/// The command a review report says made it: see `review_cmd_spec`.
pub fn review_cmd(rest: &[String], src: &str, dest: &str) -> (r: String)
    ensures
        r@ == review_cmd_spec(str_views(rest@), src@, dest@),
{
    let mut m: Vec<char> = Vec::new();
    push_str(&mut m, "git-wt <dest> merge --review");
    push_tail(&mut m, rest);
    push_str(&mut m, "   # ");
    push_str(&mut m, src);
    push_str(&mut m, " -> ");
    push_str(&mut m, dest);
    assert(m@ =~= review_cmd_spec(str_views(rest@), src@, dest@));
    string_of(m.as_slice())
}

/// The command a `log` report says made it: see `log_cmd_spec`.
pub fn log_cmd(idxs: &[usize], paths: &[String], rest: &[String]) -> (r: String)
    requires
        forall|k: int| 0 <= k < idxs.len() ==> idxs[k] < usize::MAX,
    ensures
        r@ == log_cmd_spec(idxs@, str_views(paths@), str_views(rest@)),
{
    let mut m: Vec<char> = Vec::new();
    push_str(&mut m, "git-wt ");
    push_numbers(&mut m, idxs);
    push_str(&mut m, " log ");
    push_join(&mut m, paths, " ");
    push_tail(&mut m, rest);
    assert(m@ =~= log_cmd_spec(idxs@, str_views(paths@), str_views(rest@)));
    string_of(m.as_slice())
}

/// A file block cut to the paths holding `term` (lowercased), ignoring case.
pub open spec fn narrowed(fs: Seq<FileStatSpec>, term: Seq<char>) -> Seq<FileStatSpec>
    decreases fs.len(),
{
    if fs.len() == 0 {
        Seq::empty()
    } else if contains_spec(lowercase(fs.last().path), term) {
        narrowed(fs.drop_last(), term).push(fs.last())
    } else {
        narrowed(fs.drop_last(), term)
    }
}

/// `--filename` cuts each row's block to the paths it matched, unless
/// `--all-files` asks for everything the commit touched.
pub fn narrow_files(row_files: Vec<Vec<FileStat>>, term: Option<&str>, all_files: bool) -> (r: Vec<
    Vec<FileStat>,
>)
    ensures
        r.len() == row_files.len(),
        forall|i: int|
            0 <= i < r.len() ==> stat_views((#[trigger] r@[i])@) == (match term {
                Some(t) => if all_files {
                    stat_views(row_files@[i]@)
                } else {
                    narrowed(stat_views(row_files@[i]@), t@)
                },
                None => stat_views(row_files@[i]@),
            }),
{
    if all_files || term.is_none() {
        return row_files;
    }
    let t = chars_of(term.unwrap());
    let mut out: Vec<Vec<FileStat>> = Vec::new();
    let mut i: usize = 0;
    while i < row_files.len()
        invariant
            i <= row_files.len(),
            !all_files,
            term matches Some(tt) && tt@ == t@,
            out.len() == i,
            forall|k: int|
                0 <= k < i ==> stat_views((#[trigger] out@[k])@) == narrowed(stat_views(row_files@[k]@), t@),
        decreases row_files.len() - i,
    {
        let fs = &row_files[i];
        let ghost fv = stat_views(fs@);
        let mut keep: Vec<FileStat> = Vec::new();
        let mut j: usize = 0;
        while j < fs.len()
            invariant
                j <= fs.len(),
                fv == stat_views(fs@),
                stat_views(keep@) == narrowed(fv.take(j as int), t@),
            decreases fs.len() - j,
        {
            let p = chars_of(to_lower(fs[j].path.as_str()).as_str());
            assert(fv.take(j + 1).drop_last() =~= fv.take(j as int));
            assert(fv.take(j + 1).last() == fs@[j as int]@);
            if contains(p.as_slice(), t.as_slice()) {
                let ghost before = stat_views(keep@);
                keep.push(crate::commits::files::copy_stat(&fs[j]));
                assert(stat_views(keep@) =~= before.push(fs@[j as int]@));
            }
            j = j + 1;
        }
        assert(fv.take(fs.len() as int) =~= fv);
        out.push(keep);
        i = i + 1;
    }
    out
}

/// Each row's path label: the names its own diff touched, or the paths
/// asked about when it named none; and whether the labels differ at all.
pub open spec fn path_label(names: Seq<Seq<char>>, paths: Seq<Seq<char>>) -> Seq<char> {
    if names.len() == 0 {
        joined(paths, ", "@)
    } else {
        joined(names, ", "@)
    }
}

/// The path column's cells: see `path_label`.
pub fn row_path_labels(names: &[Vec<String>], paths: &[String]) -> (r: Vec<String>)
    ensures
        r.len() == names.len(),
        forall|i: int|
            0 <= i < names.len() ==> (#[trigger] r@[i])@ == path_label(str_views(names@[i]@), str_views(paths@)),
{
    let mut out: Vec<String> = Vec::new();
    let mut i: usize = 0;
    while i < names.len()
        invariant
            i <= names.len(),
            out.len() == i,
            forall|k: int|
                0 <= k < i ==> (#[trigger] out@[k])@ == path_label(str_views(names@[k]@), str_views(paths@)),
        decreases names.len() - i,
    {
        let mut m: Vec<char> = Vec::new();
        if names[i].len() == 0 {
            push_join(&mut m, paths, ", ");
        } else {
            push_join(&mut m, names[i].as_slice(), ", ");
        }
        assert(m@ =~= path_label(str_views(names@[i as int]@), str_views(paths@)));
        out.push(string_of(m.as_slice()));
        i = i + 1;
    }
    out
}

/// Whether the labels differ at all: the path column prints only then, and
/// is the header's job otherwise.
pub fn labels_vary(labels: &[String]) -> (r: bool)
    ensures
        r == exists|i: int| 0 <= i < labels.len() && (#[trigger] labels@[i])@ != labels@[0]@,
{
    let mut k: usize = 0;
    while k < labels.len()
        invariant
            k <= labels.len(),
            forall|j: int| 0 <= j < k ==> (#[trigger] labels@[j])@ == labels@[0]@,
        decreases labels.len() - k,
    {
        let a = chars_of(labels[k].as_str());
        let b = chars_of(labels[0].as_str());
        if !crate::text::same(a.as_slice(), b.as_slice()) {
            assert(labels@[k as int]@ != labels@[0]@);
            return true;
        }
        k = k + 1;
    }
    false
}

/// A `log` row as its report writes it: the `±` cell, and the path when the
/// path column would print, in backticks in front of the subject.
pub open spec fn decorated_text(
    text: Seq<char>,
    stat: (Option<usize>, Option<usize>),
    path: Option<Seq<char>>,
) -> Seq<char> {
    "`"@ + stat_cell_spec(stat.0, stat.1) + "` "@ + (match path {
        Some(p) => "`"@ + p + "` "@,
        None => Seq::empty(),
    }) + text
}

/// The rows a `log` report writes: see `decorated_text`; everything else
/// about a row is kept.
pub fn decorate(rows: &[CommitRow], stats: &[(Option<usize>, Option<usize>)], row_paths: Option<&[String]>) -> (r:
    Vec<CommitRow>)
    requires
        stats.len() >= rows.len(),
        row_paths matches Some(p) ==> p.len() >= rows.len(),
    ensures
        r.len() == rows.len(),
        forall|i: int|
            0 <= i < rows.len() ==> {
                let (a, b) = ((#[trigger] r@[i])@, rows@[i]@);
                &&& a.text == decorated_text(
                    b.text,
                    stats@[i],
                    match row_paths {
                        Some(p) => Some(p@[i]@),
                        None => None,
                    },
                )
                &&& a.sha == b.sha && a.short == b.short && a.author == b.author && a.date == b.date
                &&& a.key == b.key && a.stamp == b.stamp && a.email == b.email
                &&& a.author_iso == b.author_iso && a.body == b.body
            },
{
    let mut out: Vec<CommitRow> = Vec::new();
    let mut i: usize = 0;
    while i < rows.len()
        invariant
            i <= rows.len(),
            stats.len() >= rows.len(),
            row_paths matches Some(p) ==> p.len() >= rows.len(),
            out.len() == i,
            forall|k: int|
                0 <= k < i ==> {
                    let (a, b) = ((#[trigger] out@[k])@, rows@[k]@);
                    &&& a.text == decorated_text(
                        b.text,
                        stats@[k],
                        match row_paths {
                            Some(p) => Some(p@[k]@),
                            None => None,
                        },
                    )
                    &&& a.sha == b.sha && a.short == b.short && a.author == b.author && a.date == b.date
                    &&& a.key == b.key && a.stamp == b.stamp && a.email == b.email
                    &&& a.author_iso == b.author_iso && a.body == b.body
                },
        decreases rows.len() - i,
    {
        let r = &rows[i];
        let mut t: Vec<char> = Vec::new();
        push_str(&mut t, "`");
        let c = stat_cell(stats[i].0, stats[i].1);
        push_str(&mut t, c.as_str());
        push_str(&mut t, "` ");
        if let Some(p) = row_paths {
            push_str(&mut t, "`");
            push_str(&mut t, p[i].as_str());
            push_str(&mut t, "` ");
        }
        push_str(&mut t, r.text.as_str());
        assert(t@ =~= decorated_text(
            r.text@,
            stats@[i as int],
            match row_paths {
                Some(p) => Some(p@[i as int]@),
                None => None,
            },
        ));
        out.push(
            CommitRow {
                sha: r.sha.clone(),
                short: r.short.clone(),
                text: string_of(t.as_slice()),
                author: r.author.clone(),
                date: r.date.clone(),
                key: r.key.clone(),
                stamp: r.stamp.clone(),
                email: r.email.clone(),
                author_iso: r.author_iso.clone(),
                body: r.body.clone(),
            },
        );
        i = i + 1;
    }
    out
}


// ---------------------------------------------------------------------------
// What a table view asks git for
// ---------------------------------------------------------------------------

/// What a `commits` view (or a review) reads, decided before git runs: the
/// row cap, which refs give the rows and which answer for the mark
/// columns, whether the default view's divergent floor is worked out,
/// how many rows git itself may cap the walk at, the `--not` base of a
/// review, and whether bodies and file blocks are read.
pub struct ViewPlan {
    pub limit: Option<usize>,
    pub row_refs: Vec<String>,
    pub mark_refs: Vec<String>,
    pub solo: bool,
    pub divergent: bool,
    pub git_limit: Option<usize>,
    pub not_ref: Option<String>,
    pub bodies: bool,
    pub files: bool,
    pub cherry_refs: Vec<String>,
    pub cherry: bool,
    pub picks: bool,
    pub walk_marks: bool,
}

pub struct ViewPlanSpec {
    pub limit: Option<usize>,
    pub row_refs: Seq<Seq<char>>,
    pub mark_refs: Seq<Seq<char>>,
    pub solo: bool,
    pub divergent: bool,
    pub git_limit: Option<usize>,
    pub not_ref: Option<Seq<char>>,
    pub bodies: bool,
    pub files: bool,
    pub cherry_refs: Seq<Seq<char>>,
    pub cherry: bool,
    pub picks: bool,
    pub walk_marks: bool,
}

impl View for ViewPlan {
    type V = ViewPlanSpec;

    open spec fn view(&self) -> ViewPlanSpec {
        ViewPlanSpec {
            limit: self.limit,
            row_refs: str_views(self.row_refs@),
            mark_refs: str_views(self.mark_refs@),
            solo: self.solo,
            divergent: self.divergent,
            git_limit: self.git_limit,
            not_ref: crate::worktree::opt_view(self.not_ref),
            bodies: self.bodies,
            files: self.files,
            cherry_refs: str_views(self.cherry_refs@),
            cherry: self.cherry,
            picks: self.picks,
            walk_marks: self.walk_marks,
        }
    }
}

/// A filter that runs on the rows rather than in git.
pub open spec fn row_filtered(a: CommitsArgs) -> bool {
    a.dates@.len() > 0 || a.commit_since is Some || a.commit_until is Some || a.commits@.len() > 0
        || a.author is Some || a.message is Some || a.filename is Some
}

/// The plan for `refs` (the worktrees' refs in order; a review's one
/// source ref) and, for a review, its destination: ten rows unless told;
/// the rows from every ref under `--union`, else the first; one worktree
/// is a log with no mark columns, a review's one mark column is the
/// destination, else every ref has one; the divergent floor only for the
/// default view of several worktrees; git caps the walk only when nothing
/// is filtered and no floor is wanted; bodies only for `--message`; file
/// blocks for `--files` or `--squash`. The patch comparisons run over the
/// refs, a review's over destination then source; a lone worktree has
/// nothing to compare, `--no-cherry` skips `git cherry`, and the pick
/// column is walked only under `--pick-id`.
pub open spec fn view_plan_spec(a: CommitsArgs, refs: Seq<Seq<char>>, dest: Option<Seq<char>>) -> ViewPlanSpec {
    let limit = if a.limit is None && !a.all && !a.union {
        Some(10usize)
    } else {
        a.limit
    };
    let solo = refs.len() == 1 && dest is None;
    let divergent = !(solo || a.union || a.all || dest is Some);
    ViewPlanSpec {
        limit,
        row_refs: if a.union {
            refs
        } else {
            refs.take(1)
        },
        mark_refs: match dest {
            Some(d) => seq![d],
            None => if solo {
                Seq::empty()
            } else {
                refs
            },
        },
        solo,
        divergent,
        git_limit: if row_filtered(a) || divergent {
            None
        } else {
            limit
        },
        not_ref: dest,
        bodies: a.message is Some,
        files: a.files || a.squash,
        cherry_refs: match dest {
            Some(d) => seq![d] + refs,
            None => refs,
        },
        cherry: !solo && !a.no_cherry,
        picks: a.pick && !solo,
        walk_marks: !solo,
    }
}

fn clone_strings(v: &[String]) -> (r: Vec<String>)
    ensures
        str_views(r@) == str_views(v@),
{
    let mut out: Vec<String> = Vec::new();
    let mut i: usize = 0;
    while i < v.len()
        invariant
            i <= v.len(),
            str_views(out@) == str_views(v@).take(i as int),
        decreases v.len() - i,
    {
        let ghost before = str_views(out@);
        out.push(v[i].clone());
        assert(str_views(v@).take(i + 1) =~= str_views(v@).take(i as int).push(v@[i as int]@));
        assert(str_views(out@) =~= before.push(v@[i as int]@));
        i = i + 1;
    }
    assert(str_views(v@).take(i as int) =~= str_views(v@));
    out
}

/// What a view reads: see `view_plan_spec`.
pub fn view_plan(a: &CommitsArgs, refs: &[String], dest: Option<&str>) -> (r: ViewPlan)
    requires
        refs.len() >= 1,
    ensures
        r@ == view_plan_spec(*a, str_views(refs@), opt_str(dest)),
{
    let limit = view_limit(a.limit, a.all, a.union);
    let solo = refs.len() == 1 && dest.is_none();
    let divergent = !(solo || a.union || a.all || dest.is_some());
    let row_refs = if a.union {
        clone_strings(refs)
    } else {
        let mut v: Vec<String> = Vec::new();
        v.push(refs[0].clone());
        assert(str_views(v@) =~= str_views(refs@).take(1));
        v
    };
    let mark_refs = match dest {
        Some(d) => {
            let mut v: Vec<String> = Vec::new();
            v.push(d.to_string());
            assert(str_views(v@) =~= seq![d@]);
            v
        },
        None => if solo {
            let v: Vec<String> = Vec::new();
            assert(str_views(v@) =~= Seq::<Seq<char>>::empty());
            v
        } else {
            clone_strings(refs)
        },
    };
    let filtered = a.dates.len() > 0 || a.commit_since.is_some() || a.commit_until.is_some() || a.commits.len() > 0
        || a.author.is_some() || a.message.is_some() || a.filename.is_some();
    let git_limit = if filtered || divergent {
        None
    } else {
        limit
    };
    let not_ref = match dest {
        Some(d) => Some(d.to_string()),
        None => None,
    };
    let cherry_refs = match dest {
        Some(d) => {
            let mut v: Vec<String> = Vec::new();
            v.push(d.to_string());
            let rest = clone_strings(refs);
            let ghost before = str_views(v@);
            let mut k: usize = 0;
            while k < rest.len()
                invariant
                    k <= rest.len(),
                    str_views(rest@) == str_views(refs@),
                    before == seq![d@],
                    str_views(v@) == before + str_views(rest@).take(k as int),
                decreases rest.len() - k,
            {
                let ghost b2 = str_views(v@);
                v.push(rest[k].clone());
                assert(str_views(rest@).take(k + 1) =~= str_views(rest@).take(k as int).push(rest@[k as int]@));
                assert(str_views(v@) =~= b2.push(rest@[k as int]@));
                k = k + 1;
            }
            assert(str_views(rest@).take(k as int) =~= str_views(rest@));
            v
        },
        None => clone_strings(refs),
    };
    ViewPlan {
        limit,
        row_refs,
        mark_refs,
        solo,
        divergent,
        git_limit,
        not_ref,
        bodies: a.message.is_some(),
        files: a.files || a.squash,
        cherry_refs,
        cherry: !solo && !a.no_cherry,
        picks: a.pick && !solo,
        walk_marks: !solo,
    }
}

/// What `log` reads before git runs: ten rows unless `-n` or `--union`
/// says otherwise (there is no floor to lift); the rows from every ref
/// under `--union`, else the first; one worktree has no mark columns;
/// `--follow` only for a single path and without `--no-follow`; git caps
/// the walk unless a filter runs on the rows; bodies for `--message`; the
/// patch comparisons run over the refs unless there is one, `git cherry`
/// unless `--no-cherry`, the pick column under `--pick-id`.
pub struct LogPlan {
    pub limit: Option<usize>,
    pub row_refs: Vec<String>,
    pub mark_refs: Vec<String>,
    pub follow: bool,
    pub git_limit: Option<usize>,
    pub bodies: bool,
    pub cherry: bool,
    pub picks: bool,
    pub walk_marks: bool,
}

pub struct LogPlanSpec {
    pub limit: Option<usize>,
    pub row_refs: Seq<Seq<char>>,
    pub mark_refs: Seq<Seq<char>>,
    pub follow: bool,
    pub git_limit: Option<usize>,
    pub bodies: bool,
    pub cherry: bool,
    pub picks: bool,
    pub walk_marks: bool,
}

impl View for LogPlan {
    type V = LogPlanSpec;

    open spec fn view(&self) -> LogPlanSpec {
        LogPlanSpec {
            limit: self.limit,
            row_refs: str_views(self.row_refs@),
            mark_refs: str_views(self.mark_refs@),
            follow: self.follow,
            git_limit: self.git_limit,
            bodies: self.bodies,
            cherry: self.cherry,
            picks: self.picks,
            walk_marks: self.walk_marks,
        }
    }
}

pub open spec fn log_plan_spec(a: CommitsArgs, refs: Seq<Seq<char>>, n_paths: nat) -> LogPlanSpec {
    let limit = if a.limit is None && !a.union {
        Some(10usize)
    } else {
        a.limit
    };
    let filtered = a.dates@.len() > 0 || a.commit_since is Some || a.commit_until is Some || a.commits@.len() > 0
        || a.author is Some || a.message is Some;
    LogPlanSpec {
        limit,
        row_refs: if a.union {
            refs
        } else {
            refs.take(1)
        },
        mark_refs: if refs.len() == 1 {
            Seq::empty()
        } else {
            refs
        },
        follow: n_paths == 1 && !a.no_follow,
        git_limit: if filtered {
            None
        } else {
            limit
        },
        bodies: a.message is Some,
        cherry: refs.len() != 1 && !a.no_cherry,
        picks: a.pick && refs.len() != 1,
        walk_marks: refs.len() != 1,
    }
}

/// What `log` reads: see `log_plan_spec`.
pub fn log_plan(a: &CommitsArgs, refs: &[String], n_paths: usize) -> (r: LogPlan)
    requires
        refs.len() >= 1,
    ensures
        r@ == log_plan_spec(*a, str_views(refs@), n_paths as nat),
{
    let limit = if a.limit.is_none() && !a.union {
        Some(10)
    } else {
        a.limit
    };
    let row_refs = if a.union {
        clone_strings(refs)
    } else {
        let mut v: Vec<String> = Vec::new();
        v.push(refs[0].clone());
        assert(str_views(v@) =~= str_views(refs@).take(1));
        v
    };
    let mark_refs = if refs.len() == 1 {
        let v: Vec<String> = Vec::new();
        assert(str_views(v@) =~= Seq::<Seq<char>>::empty());
        v
    } else {
        clone_strings(refs)
    };
    let filtered = a.dates.len() > 0 || a.commit_since.is_some() || a.commit_until.is_some() || a.commits.len() > 0
        || a.author.is_some() || a.message.is_some();
    LogPlan {
        limit,
        row_refs,
        mark_refs,
        follow: n_paths == 1 && !a.no_follow,
        git_limit: if filtered {
            None
        } else {
            limit
        },
        bodies: a.message.is_some(),
        cherry: refs.len() != 1 && !a.no_cherry,
        picks: a.pick && refs.len() != 1,
        walk_marks: refs.len() != 1,
    }
}

/// What `merge --review`'s table reads: the view of the one source ref
/// with the destination as its `--not` base and its one mark column (see
/// `view_plan_spec`).
pub fn cmd_commits_review(a: &CommitsArgs, src_ref: &str, dest_ref: &str) -> (r: ViewPlan)
    ensures
        r@ == view_plan_spec(*a, seq![src_ref@], Some(dest_ref@)),
{
    let mut refs: Vec<String> = Vec::new();
    refs.push(src_ref.to_string());
    assert(str_views(refs@) =~= seq![src_ref@]);
    view_plan(a, refs.as_slice(), Some(dest_ref))
}

} // verus!
