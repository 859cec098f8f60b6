//! `diff` between two worktrees: reading unified patches into per-file
//! counts and hunks, the status a path has across the two sides, and the
//! summary line in git's own phrasing.

use vstd::prelude::*;

use crate::style::{paint_spec, push_painted, DIM, GREEN, RED, YELLOW};
use crate::text::{
    chars_of, decimal, decimal_of, is_prefix, lines, lines_spec, max_nat, max_of, pad_left_spec,
    pad_right_spec, parse_usize, parse_usize_spec, push_all, push_pad_left, push_pad_right,
    push_str, same, slice_from, split, split_once, split_once_spec, split_spec, starts_with_str,
    str_views, string_of, trim, trim_spec, views, widest, words, words_spec,
};

verus! {

/// One hunk of a file's diff: where it lands on the new side, what kind of
/// edit it is, and how many lines it spans.
#[derive(Debug)]
pub struct Hunk {
    pub line: usize,
    /// `added`, `deleted` or `modified`.
    pub kind: &'static str,
    pub count: usize,
}

pub struct HunkSpec {
    pub line: usize,
    pub kind: Seq<char>,
    pub count: usize,
}

impl View for Hunk {
    type V = HunkSpec;

    open spec fn view(&self) -> HunkSpec {
        HunkSpec { line: self.line, kind: self.kind@, count: self.count }
    }
}

pub open spec fn hunk_views(v: Seq<Hunk>) -> Seq<HunkSpec> {
    v.map_values(|h: Hunk| h@)
}

/// One differing path.
#[derive(Debug)]
pub struct FileDiff {
    pub path: String,
    /// `A`, `M` or `D`.
    pub status: char,
    pub plus: usize,
    pub minus: usize,
    pub binary: bool,
    pub hunks: Vec<Hunk>,
}

pub struct FileDiffSpec {
    pub path: Seq<char>,
    pub status: char,
    pub plus: nat,
    pub minus: nat,
    pub binary: bool,
    pub hunks: Seq<HunkSpec>,
}

impl View for FileDiff {
    type V = FileDiffSpec;

    open spec fn view(&self) -> FileDiffSpec {
        FileDiffSpec {
            path: self.path@,
            status: self.status,
            plus: self.plus as nat,
            minus: self.minus as nat,
            binary: self.binary,
            hunks: hunk_views(self.hunks@),
        }
    }
}

pub open spec fn diff_views(v: Seq<FileDiff>) -> Seq<FileDiffSpec> {
    v.map_values(|f: FileDiff| f@)
}

// ---------------------------------------------------------------------------
// Hunk headers
// ---------------------------------------------------------------------------

/// A range token of a hunk header: `-start[,count]` or `+start[,count]`,
/// an omitted count meaning one line.
pub open spec fn range_spec(tok: Seq<char>) -> Option<(usize, usize)> {
    if tok.len() == 0 || (tok[0] != '-' && tok[0] != '+') {
        None
    } else {
        let body = tok.drop_first();
        match split_once_spec(body, ',') {
            Some(p) => match (parse_usize_spec(p.0), parse_usize_spec(p.1)) {
                (Some(s), Some(c)) => Some((s, c)),
                _ => None,
            },
            None => match parse_usize_spec(body) {
                Some(s) => Some((s, 1)),
                None => None,
            },
        }
    }
}

/// Read a range token of a hunk header.
pub fn parse_range(tok: &str) -> (r: Option<(usize, usize)>)
    ensures
        r == range_spec(tok@),
{
    let t = chars_of(tok);
    if t.len() == 0 || (t[0] != '-' && t[0] != '+') {
        return None;
    }
    let body = slice_from(t.as_slice(), 1);
    assert(body@ =~= t@.drop_first());
    match split_once(body.as_slice(), ',') {
        Some((s, c)) => match (parse_usize(s.as_slice()), parse_usize(c.as_slice())) {
            (Some(s), Some(c)) => Some((s, c)),
            _ => None,
        },
        None => match parse_usize(body.as_slice()) {
            Some(s) => Some((s, 1)),
            None => None,
        },
    }
}

/// What a hunk header `@@ -a,b +c,d @@ ...` says: nothing on the old side
/// is an add of the new count, nothing on the new side a delete of the
/// old count, anything else a modification of the new count; always at
/// the new start.
pub open spec fn hunk_spec(line: Seq<char>) -> Option<HunkSpec> {
    let w = words_spec(line);
    if w.len() < 3 {
        None
    } else {
        match (range_spec(w[1]), range_spec(w[2])) {
            (Some(old), Some(new)) => Some(
                if old.1 == 0 {
                    HunkSpec { line: new.0, kind: "added"@, count: new.1 }
                } else if new.1 == 0 {
                    HunkSpec { line: new.0, kind: "deleted"@, count: old.1 }
                } else {
                    HunkSpec { line: new.0, kind: "modified"@, count: new.1 }
                },
            ),
            _ => None,
        }
    }
}

/// Read a hunk header.
pub fn parse_hunk_header(line: &str) -> (r: Option<Hunk>)
    ensures
        r matches Some(h) ==> hunk_spec(line@) == Some(h@),
        r is None ==> hunk_spec(line@) is None,
{
    let c = chars_of(line);
    let w = words(c.as_slice());
    if w.len() < 3 {
        return None;
    }
    assert(views(w@)[1] == w@[1]@ && views(w@)[2] == w@[2]@);
    let a = string_of(w[1].as_slice());
    let b = string_of(w[2].as_slice());
    match (parse_range(a.as_str()), parse_range(b.as_str())) {
        (Some((_, old_count)), Some((new_start, new_count))) => {
            if old_count == 0 {
                Some(Hunk { line: new_start, kind: "added", count: new_count })
            } else if new_count == 0 {
                Some(Hunk { line: new_start, kind: "deleted", count: old_count })
            } else {
                Some(Hunk { line: new_start, kind: "modified", count: new_count })
            }
        },
        _ => None,
    }
}

// ---------------------------------------------------------------------------
// Patch lines
// ---------------------------------------------------------------------------

/// What one patch line does to a file's record: a `Binary files` line
/// marks it binary, a hunk header adds a hunk (when it reads), and a body
/// line counts as an insertion or a deletion by its first character.
pub open spec fn eat_spec(line: Seq<char>, f: FileDiffSpec) -> FileDiffSpec {
    if is_prefix("Binary files "@, line) {
        FileDiffSpec { binary: true, ..f }
    } else if is_prefix("@@"@, line) {
        match hunk_spec(line) {
            Some(h) => FileDiffSpec { hunks: f.hunks.push(h), ..f },
            None => f,
        }
    } else if line.len() > 0 && line[0] == '+' {
        FileDiffSpec { plus: f.plus + 1, ..f }
    } else if line.len() > 0 && line[0] == '-' {
        FileDiffSpec { minus: f.minus + 1, ..f }
    } else {
        f
    }
}

/// Count one patch line into `fd`.
pub fn eat_patch_line(line: &str, fd: &mut FileDiff)
    requires
        old(fd).plus < usize::MAX,
        old(fd).minus < usize::MAX,
    ensures
        final(fd)@ == eat_spec(line@, old(fd)@),
{
    let c = chars_of(line);
    if starts_with_str(c.as_slice(), "Binary files ") {
        fd.binary = true;
        return;
    }
    if starts_with_str(c.as_slice(), "@@") {
        match parse_hunk_header(line) {
            Some(h) => {
                let ghost before = hunk_views(fd.hunks@);
                let ghost hv = h@;
                fd.hunks.push(h);
                assert(hunk_views(fd.hunks@) =~= before.push(hv));
            },
            None => {},
        }
        return;
    }
    if c.len() > 0 && c[0] == '+' {
        fd.plus = fd.plus + 1;
    } else if c.len() > 0 && c[0] == '-' {
        fd.minus = fd.minus + 1;
    }
}

/// Whether a hunk header occurs among `ls`.
pub open spec fn seen_hunk(ls: Seq<Seq<char>>) -> bool
    decreases ls.len(),
{
    ls.len() > 0 && (seen_hunk(ls.drop_last()) || is_prefix("@@"@, ls.last()))
}

/// A one-file patch's lines counted into `fd`: only from the first hunk
/// header on (the `---`/`+++` headers would count as a deletion and an
/// insertion), except for a `Binary files` line wherever it stands.
pub open spec fn patch_into(ls: Seq<Seq<char>>, fd: FileDiffSpec) -> FileDiffSpec
    decreases ls.len(),
{
    if ls.len() == 0 {
        fd
    } else {
        let f = patch_into(ls.drop_last(), fd);
        let l = ls.last();
        if !seen_hunk(ls) && !is_prefix("Binary files "@, l) {
            f
        } else {
            eat_spec(l, f)
        }
    }
}

proof fn lemma_patch_into_bounded(ls: Seq<Seq<char>>, fd: FileDiffSpec)
    ensures
        patch_into(ls, fd).plus <= fd.plus + ls.len(),
        patch_into(ls, fd).minus <= fd.minus + ls.len(),
    decreases ls.len(),
{
    if ls.len() > 0 {
        lemma_patch_into_bounded(ls.drop_last(), fd);
    }
}

/// Count a one-file patch (from `git diff --no-index -U0`) into `fd`.
pub fn parse_patch_into(text: &str, fd: &mut FileDiff)
    requires
        old(fd).plus + lines_spec(text@).len() <= usize::MAX,
        old(fd).minus + lines_spec(text@).len() <= usize::MAX,
    ensures
        final(fd)@ == patch_into(lines_spec(text@), old(fd)@),
{
    let c = chars_of(text);
    let ls = lines(c.as_slice());
    let ghost lv = views(ls@);
    let ghost start = fd@;
    let mut in_hunks = false;
    let mut i: usize = 0;
    while i < ls.len()
        invariant
            i <= ls.len(),
            lv == views(ls@),
            lv == lines_spec(text@),
            start.plus + lv.len() <= usize::MAX,
            start.minus + lv.len() <= usize::MAX,
            in_hunks == seen_hunk(lv.take(i as int)),
            fd@ == patch_into(lv.take(i as int), start),
        decreases ls.len() - i,
    {
        let ghost t = lv.take(i + 1);
        assert(t.drop_last() =~= lv.take(i as int));
        assert(t.last() == ls@[i as int]@);
        proof {
            lemma_patch_into_bounded(lv.take(i as int), start);
        }
        let l = &ls[i];
        if starts_with_str(l.as_slice(), "@@") {
            in_hunks = true;
        }
        if in_hunks || starts_with_str(l.as_slice(), "Binary files ") {
            let s = string_of(l.as_slice());
            eat_patch_line(s.as_str(), fd);
        }
        i = i + 1;
    }
    assert(lv.take(i as int) =~= lv);
}

// ---------------------------------------------------------------------------
// Whole patches
// ---------------------------------------------------------------------------

/// A fresh record, before its headers are read.
pub open spec fn fresh_diff() -> FileDiffSpec {
    FileDiffSpec { path: Seq::empty(), status: 'M', plus: 0, minus: 0, binary: false, hunks: Seq::empty() }
}

/// `s` without `p` in front, when it is there.
pub open spec fn strip_or_keep(s: Seq<char>, p: Seq<char>) -> Seq<char> {
    if is_prefix(p, s) {
        s.skip(p.len() as int)
    } else {
        s
    }
}

/// Reading a multi-file patch up to some line: the files finished, the
/// one being read, and whether its hunks have begun.
pub struct SplitState {
    pub done: Seq<FileDiffSpec>,
    pub cur: Option<FileDiffSpec>,
    pub in_hunks: bool,
}

/// One line of a multi-file patch read into the state. `diff --git`
/// starts a file; before its first hunk, `--- ` names the old side
/// (`/dev/null` makes it an add) and `+++ ` the new (`/dev/null` makes it
/// a delete); everything else is counted as `eat_spec` says.
pub open spec fn split_step(st: SplitState, l: Seq<char>) -> SplitState {
    if is_prefix("diff --git "@, l) {
        SplitState {
            done: match st.cur {
                Some(f) => st.done.push(f),
                None => st.done,
            },
            cur: Some(fresh_diff()),
            in_hunks: false,
        }
    } else {
        match st.cur {
            None => st,
            Some(f) => if !st.in_hunks && is_prefix("--- "@, l) {
                let p = l.skip(4);
                let g = if p == "/dev/null"@ {
                    FileDiffSpec { status: 'A', ..f }
                } else if f.path.len() == 0 {
                    FileDiffSpec { path: strip_or_keep(p, "a/"@), ..f }
                } else {
                    f
                };
                SplitState { cur: Some(g), ..st }
            } else if !st.in_hunks && is_prefix("+++ "@, l) {
                let p = l.skip(4);
                let g = if p == "/dev/null"@ {
                    FileDiffSpec { status: 'D', ..f }
                } else {
                    FileDiffSpec { path: strip_or_keep(p, "b/"@), ..f }
                };
                SplitState { cur: Some(g), ..st }
            } else {
                SplitState {
                    done: st.done,
                    cur: Some(eat_spec(l, f)),
                    in_hunks: st.in_hunks || is_prefix("@@"@, l),
                }
            },
        }
    }
}

pub open spec fn split_state(ls: Seq<Seq<char>>) -> SplitState
    decreases ls.len(),
{
    if ls.len() == 0 {
        SplitState { done: Seq::empty(), cur: None, in_hunks: false }
    } else {
        split_step(split_state(ls.drop_last()), ls.last())
    }
}

/// The files of a multi-file patch, in order.
pub open spec fn split_patch_spec(text: Seq<char>) -> Seq<FileDiffSpec> {
    let st = split_state(lines_spec(text));
    match st.cur {
        Some(f) => st.done.push(f),
        None => st.done,
    }
}

fn fresh() -> (f: FileDiff)
    ensures
        f@ == fresh_diff(),
{
    let f = FileDiff { path: String::new(), status: 'M', plus: 0, minus: 0, binary: false, hunks: Vec::new() };
    assert(f@.hunks =~= Seq::<HunkSpec>::empty());
    assert(f@.path =~= Seq::<char>::empty());
    f
}

/// `s` without `p` in front, when it is there.
fn strip_or_keep_of(s: &[char], p: &str) -> (r: String)
    ensures
        r@ == strip_or_keep(s@, p@),
{
    let pc = chars_of(p);
    if crate::text::starts_with(s, pc.as_slice()) {
        string_of(slice_from(s, pc.len()).as_slice())
    } else {
        string_of(s)
    }
}

proof fn lemma_split_bounded(ls: Seq<Seq<char>>)
    ensures
        split_state(ls).cur matches Some(f) ==> f.plus <= ls.len() && f.minus <= ls.len(),
    decreases ls.len(),
{
    if ls.len() > 0 {
        lemma_split_bounded(ls.drop_last());
    }
}

/// Split a multi-file patch (`git diff -U0 --no-renames`) into per-file
/// records.
pub fn split_patch(text: &str) -> (r: Vec<FileDiff>)
    ensures
        diff_views(r@) == split_patch_spec(text@),
{
    let c = chars_of(text);
    let ls = lines(c.as_slice());
    let ghost lv = views(ls@);
    let mut out: Vec<FileDiff> = Vec::new();
    let mut cur = fresh();
    let mut has_cur = false;
    let mut in_hunks = false;
    let mut i: usize = 0;
    while i < ls.len()
        invariant
            i <= ls.len(),
            lv == views(ls@),
            lv == lines_spec(text@),
            ({
                let st = split_state(lv.take(i as int));
                &&& diff_views(out@) == st.done
                &&& has_cur <==> st.cur is Some
                &&& has_cur ==> st.cur == Some(cur@)
                &&& in_hunks == st.in_hunks
            }),
        decreases ls.len() - i,
    {
        let ghost t = lv.take(i + 1);
        assert(t.drop_last() =~= lv.take(i as int));
        assert(t.last() == ls@[i as int]@);
        proof {
            lemma_split_bounded(lv.take(i as int));
        }
        let l = &ls[i];
        if starts_with_str(l.as_slice(), "diff --git ") {
            if has_cur {
                let ghost before = diff_views(out@);
                let ghost cv = cur@;
                let done = cur;
                out.push(done);
                assert(diff_views(out@) =~= before.push(cv));
            }
            cur = fresh();
            has_cur = true;
            in_hunks = false;
        } else if has_cur {
            proof {
                reveal_strlit("--- ");
                reveal_strlit("+++ ");
            }
            let is_old = !in_hunks && starts_with_str(l.as_slice(), "--- ");
            let is_new = !in_hunks && starts_with_str(l.as_slice(), "+++ ");
            if is_old || is_new {
                let p = slice_from(l.as_slice(), 4);
                assert("/dev/null"@.len() == 9) by {
                    reveal_strlit("/dev/null");
                }
                let null = crate::text::is(p.as_slice(), "/dev/null");
                if is_old {
                    if null {
                        cur.status = 'A';
                    } else if cur.path.as_str().is_empty() {
                        cur.path = strip_or_keep_of(p.as_slice(), "a/");
                    }
                } else {
                    if null {
                        cur.status = 'D';
                    } else {
                        cur.path = strip_or_keep_of(p.as_slice(), "b/");
                    }
                }
            } else {
                if starts_with_str(l.as_slice(), "@@") {
                    in_hunks = true;
                }
                let s = string_of(l.as_slice());
                eat_patch_line(s.as_str(), &mut cur);
            }
        }
        i = i + 1;
    }
    assert(lv.take(i as int) =~= lv);
    if has_cur {
        out.push(cur);
    }
    out
}

/// The files of `git diff -U0 --no-color --no-renames <range>` output.
pub fn ref_diff(out: &str) -> (r: Vec<FileDiff>)
    ensures
        diff_views(r@) == split_patch_spec(out@),
{
    split_patch(out)
}

// ---------------------------------------------------------------------------
// Choosing and naming
// ---------------------------------------------------------------------------

/// The files of `fs` whose status is `s`.
pub open spec fn with_status(fs: Seq<FileDiffSpec>, s: char) -> Seq<FileDiffSpec>
    decreases fs.len(),
{
    if fs.len() == 0 {
        Seq::empty()
    } else {
        let p = with_status(fs.drop_last(), s);
        if fs.last().status == s {
            p.push(fs.last())
        } else {
            p
        }
    }
}

/// Drop every file whose status is not the one asked for; `None` keeps all.
pub fn keep_only(files: Vec<FileDiff>, only: Option<char>) -> (r: Vec<FileDiff>)
    ensures
        only is None ==> diff_views(r@) == diff_views(files@),
        only matches Some(s) ==> diff_views(r@) == with_status(diff_views(files@), s),
{
    let s = match only {
        None => {
            return files;
        },
        Some(s) => s,
    };
    let ghost all = diff_views(files@);
    let n = files.len();
    assert(all.len() == files@.len() && files@.len() <= usize::MAX);
    let mut rest = files;
    let mut kept: Vec<FileDiff> = Vec::new();
    let mut k: usize = 0;
    assert(all.skip(0) =~= all);
    while rest.len() > 0
        invariant
            diff_views(rest@) == all.skip(k as int),
            k + rest@.len() == all.len(),
            all.len() <= usize::MAX,
            diff_views(kept@) == with_status(all.take(k as int), s),
        decreases rest.len(),
    {
        let ghost rb = rest@;
        assert(diff_views(rb)[0] == rb[0]@);
        assert(all.skip(k as int)[0] == all[k as int]);
        let f = rest.remove(0);
        assert forall|j: int| 0 <= j < rest@.len() implies diff_views(rest@)[j] == all.skip(k + 1)[j] by {
            assert(rest@[j] == rb[j + 1]);
            assert(diff_views(rb)[j + 1] == rb[j + 1]@);
        }
        assert(diff_views(rest@) =~= all.skip(k + 1));
        assert(all.take(k + 1).drop_last() =~= all.take(k as int));
        assert(all.take(k + 1).last() == all[k as int]);
        if f.status == s {
            let ghost kb = diff_views(kept@);
            let ghost fv = f@;
            kept.push(f);
            assert(diff_views(kept@) =~= kb.push(fv));
        }
        k = k + 1;
    }
    assert(all.take(k as int) =~= all);
    kept
}

/// The header's tail naming the side a `-A`/`-B` run kept, empty
/// without one.
pub fn only_note(side: &Option<String>) -> (r: String)
    ensures
        side matches Some(s) ==> r@ == "   only in "@ + s@,
        side is None ==> r@ == Seq::<char>::empty(),
{
    match side {
        Some(s) => {
            let mut c = chars_of("   only in ");
            push_str(&mut c, s.as_str());
            string_of(c.as_slice())
        },
        None => String::new(),
    }
}

/// The color a status letter is painted: adds green, deletes red, the
/// rest yellow.
pub fn status_paint(s: char) -> (r: &'static str)
    ensures
        s == 'A' ==> r@ == GREEN@,
        s == 'D' ==> r@ == RED@,
        s != 'A' && s != 'D' ==> r@ == YELLOW@,
{
    match s {
        'A' => GREEN,
        'D' => RED,
        _ => YELLOW,
    }
}

pub open spec fn total_plus(fs: Seq<FileDiffSpec>) -> nat
    decreases fs.len(),
{
    if fs.len() == 0 {
        0
    } else {
        total_plus(fs.drop_last()) + fs.last().plus
    }
}

pub open spec fn total_minus(fs: Seq<FileDiffSpec>) -> nat
    decreases fs.len(),
{
    if fs.len() == 0 {
        0
    } else {
        total_minus(fs.drop_last()) + fs.last().minus
    }
}

/// `word`, plural unless `n` is one.
pub open spec fn plural(n: nat) -> Seq<char> {
    if n == 1 {
        Seq::empty()
    } else {
        seq!['s']
    }
}

/// git's summary line: `N files changed, P insertions(+), M deletions(-)`,
/// each count singular at one and each side left out at zero.
pub open spec fn summary_spec(fs: Seq<FileDiffSpec>) -> Seq<char> {
    let p = total_plus(fs);
    let m = total_minus(fs);
    decimal(fs.len()) + " file"@ + plural(fs.len()) + " changed"@ + (if p > 0 {
        ", "@ + decimal(p) + " insertion"@ + plural(p) + "(+)"@
    } else {
        Seq::empty()
    }) + (if m > 0 {
        ", "@ + decimal(m) + " deletion"@ + plural(m) + "(-)"@
    } else {
        Seq::empty()
    })
}

fn push_plural(out: &mut Vec<char>, n: usize)
    ensures
        final(out)@ == old(out)@ + plural(n as nat),
{
    if n != 1 {
        out.push('s');
    } else {
        assert(old(out)@ + plural(n as nat) =~= old(out)@);
    }
}

/// The summary line below a diff.
pub fn summary(files: &[FileDiff]) -> (r: String)
    requires
        total_plus(diff_views(files@)) <= usize::MAX,
        total_minus(diff_views(files@)) <= usize::MAX,
    ensures
        r@ == summary_spec(diff_views(files@)),
{
    let ghost fs = diff_views(files@);
    let mut p: usize = 0;
    let mut m: usize = 0;
    let mut i: usize = 0;
    while i < files.len()
        invariant
            i <= files.len(),
            fs == diff_views(files@),
            total_plus(fs) <= usize::MAX,
            total_minus(fs) <= usize::MAX,
            p == total_plus(fs.take(i as int)),
            m == total_minus(fs.take(i as int)),
        decreases files.len() - i,
    {
        let ghost t = fs.take(i + 1);
        assert(t.drop_last() =~= fs.take(i as int));
        assert(t.last() == files@[i as int]@);
        proof {
            lemma_totals_grow(fs, i + 1);
        }
        p = p + files[i].plus;
        m = m + files[i].minus;
        i = i + 1;
    }
    assert(fs.take(i as int) =~= fs);
    let n = files.len();
    let mut out = decimal_of(n);
    push_str(&mut out, " file");
    push_plural(&mut out, n);
    push_str(&mut out, " changed");
    let ghost head = out@;
    if p > 0 {
        push_str(&mut out, ", ");
        let d = decimal_of(p);
        crate::text::push_all(&mut out, d.as_slice());
        push_str(&mut out, " insertion");
        push_plural(&mut out, p);
        push_str(&mut out, "(+)");
    }
    let ghost mid = out@;
    assert(mid =~= head + (if p > 0 {
        ", "@ + decimal(p as nat) + " insertion"@ + plural(p as nat) + "(+)"@
    } else {
        Seq::empty()
    }));
    if m > 0 {
        push_str(&mut out, ", ");
        let d = decimal_of(m);
        crate::text::push_all(&mut out, d.as_slice());
        push_str(&mut out, " deletion");
        push_plural(&mut out, m);
        push_str(&mut out, "(-)");
    }
    assert(out@ =~= mid + (if m > 0 {
        ", "@ + decimal(m as nat) + " deletion"@ + plural(m as nat) + "(-)"@
    } else {
        Seq::empty()
    }));
    string_of(out.as_slice())
}

proof fn lemma_totals_grow(fs: Seq<FileDiffSpec>, i: int)
    requires
        0 <= i <= fs.len(),
    ensures
        total_plus(fs.take(i)) <= total_plus(fs),
        total_minus(fs.take(i)) <= total_minus(fs),
    decreases fs.len() - i,
{
    if i < fs.len() {
        lemma_totals_grow(fs, i + 1);
        assert(fs.take(i + 1).drop_last() =~= fs.take(i));
    } else {
        assert(fs.take(i) =~= fs);
    }
}

// ---------------------------------------------------------------------------
// The live side
// ---------------------------------------------------------------------------

/// The non-empty NUL-separated names of `s`, in order.
pub open spec fn nonempty_fields(fs: Seq<Seq<char>>) -> Seq<Seq<char>>
    decreases fs.len(),
{
    if fs.len() == 0 {
        Seq::empty()
    } else {
        let p = nonempty_fields(fs.drop_last());
        if fs.last().len() > 0 {
            p.push(fs.last())
        } else {
            p
        }
    }
}

/// The paths worth considering in a worktree (tracked, plus untracked that
/// `.gitignore` does not hide), from what `git ls-files -z --cached
/// --others --exclude-standard [-- <paths>]` printed.
pub fn live_files(out: &str) -> (r: Vec<String>)
    ensures
        str_views(r@) == nonempty_fields(split_spec(out@, '\0')),
{
    let c = chars_of(out);
    let fields = split(c.as_slice(), '\0');
    let ghost fv = views(fields@);
    let mut names: Vec<String> = Vec::new();
    let mut i: usize = 0;
    while i < fields.len()
        invariant
            i <= fields.len(),
            fv == views(fields@),
            str_views(names@) == nonempty_fields(fv.take(i as int)),
        decreases fields.len() - i,
    {
        assert(fv.take(i + 1).drop_last() =~= fv.take(i as int));
        assert(fv.take(i + 1).last() == fields@[i as int]@);
        if fields[i].len() > 0 {
            let ghost before = str_views(names@);
            names.push(string_of(fields[i].as_slice()));
            assert(str_views(names@) =~= before.push(fields@[i as int]@));
        }
        i = i + 1;
    }
    assert(fv.take(i as int) =~= fv);
    names
}

/// The outcome of `git diff --no-index` on two literal paths: exit 0 (same)
/// and 1 (they differ) both hand back the patch; anything else is a
/// failure naming `show`, the path the user knows it by.
pub fn no_index_diff(code: Option<i32>, stdout: &str, stderr: &str, show: &str) -> (r: Result<String, String>)
    ensures
        (code == Some(0i32) || code == Some(1i32)) ==> (r matches Ok(s) && s@ == stdout@),
        !(code == Some(0i32) || code == Some(1i32)) ==> (r matches Err(e) && e@
            == "git diff --no-index failed on '"@ + show@ + "': "@ + trim_spec(stderr@)),
{
    match code {
        Some(0) | Some(1) => Ok(stdout.to_string()),
        _ => {
            let mut e = chars_of("git diff --no-index failed on '");
            push_str(&mut e, show);
            push_str(&mut e, "': ");
            let sc = chars_of(stderr);
            let t = trim(sc.as_slice());
            crate::text::push_all(&mut e, t.as_slice());
            Err(string_of(e.as_slice()))
        },
    }
}

/// The status a path has between two working trees, from whether it is a
/// file on each side and, where it is on both, whether the bytes agree:
/// nothing to report when it is on neither side or the same on both.
pub open spec fn live_status_spec(in_a: bool, in_b: bool, same_bytes: bool) -> Option<char> {
    if !in_a && !in_b {
        None
    } else if !in_a {
        Some('A')
    } else if !in_b {
        Some('D')
    } else if same_bytes {
        None
    } else {
        Some('M')
    }
}

/// What the live diff knows of one candidate path.
#[derive(Debug)]
pub struct PathProbe {
    pub path: String,
    pub in_a: bool,
    pub in_b: bool,
    /// Byte-for-byte equal; only read when the path is a file on both sides.
    pub same_bytes: bool,
}

/// The records of the paths that differ between two working trees, in
/// probe order, keeping only the status asked for (before any content is
/// read, so a dropped file never needs its diff).
pub open spec fn live_entries(ps: Seq<(Seq<char>, bool, bool, bool)>, only: Option<char>) -> Seq<FileDiffSpec>
    decreases ps.len(),
{
    if ps.len() == 0 {
        Seq::empty()
    } else {
        let prev = live_entries(ps.drop_last(), only);
        let p = ps.last();
        match live_status_spec(p.1, p.2, p.3) {
            None => prev,
            Some(st) => if only matches Some(s) && s != st {
                prev
            } else {
                prev.push(FileDiffSpec { path: p.0, status: st, ..fresh_diff() })
            },
        }
    }
}

/// `-A`/`-B` only ever narrow: the live diff keeping one status holds
/// exactly the records of the full live diff that have that status, in
/// the same order, and nothing else.
pub proof fn lemma_live_only_narrows(ps: Seq<(Seq<char>, bool, bool, bool)>, s: char)
    ensures
        forall|i: int|
            0 <= i < live_entries(ps, Some(s)).len() ==> (#[trigger] live_entries(ps, Some(s))[i]).status == s,
        live_entries(ps, Some(s)) == live_entries(ps, None).filter(|e: FileDiffSpec| e.status == s),
    decreases ps.len(),
{
    reveal(Seq::filter);
    let pred = |e: FileDiffSpec| e.status == s;
    if ps.len() > 0 {
        lemma_live_only_narrows(ps.drop_last(), s);
        let prev_all = live_entries(ps.drop_last(), None);
        let p = ps.last();
        match live_status_spec(p.1, p.2, p.3) {
            None => {},
            Some(st) => {
                let e = FileDiffSpec { path: p.0, status: st, ..fresh_diff() };
                assert(prev_all.push(e).drop_last() =~= prev_all);
                assert(prev_all.push(e).last() == e);
                if st == s {
                    assert(live_entries(ps, Some(s)) == live_entries(ps.drop_last(), Some(s)).push(e));
                } else {
                    assert(live_entries(ps, Some(s)) == live_entries(ps.drop_last(), Some(s)));
                }
            },
        }
    }
}

pub open spec fn probe_views(v: Seq<PathProbe>) -> Seq<(Seq<char>, bool, bool, bool)> {
    v.map_values(|p: PathProbe| (p.path@, p.in_a, p.in_b, p.same_bytes))
}

/// The differing paths of a live diff, without content: the caller reads
/// each one's patch with `no_index_diff` and counts it with
/// `parse_patch_into` when content was asked for.
pub fn live_diff(probes: &[PathProbe], only: Option<char>) -> (r: Vec<FileDiff>)
    ensures
        diff_views(r@) == live_entries(probe_views(probes@), only),
{
    let ghost pv = probe_views(probes@);
    let mut out: Vec<FileDiff> = Vec::new();
    let mut i: usize = 0;
    while i < probes.len()
        invariant
            i <= probes.len(),
            pv == probe_views(probes@),
            diff_views(out@) == live_entries(pv.take(i as int), only),
        decreases probes.len() - i,
    {
        let p = &probes[i];
        assert(pv.take(i + 1).drop_last() =~= pv.take(i as int));
        assert(pv.take(i + 1).last() == (p.path@, p.in_a, p.in_b, p.same_bytes));
        let status = if !p.in_a && !p.in_b {
            None
        } else if !p.in_a {
            Some('A')
        } else if !p.in_b {
            Some('D')
        } else if p.same_bytes {
            None
        } else {
            Some('M')
        };
        match status {
            None => {},
            Some(st) => {
                let keep = match only {
                    Some(s) => s == st,
                    None => true,
                };
                if keep {
                    let mut f = fresh();
                    f.path = p.path.clone();
                    f.status = st;
                    let ghost before = diff_views(out@);
                    let ghost fv = f@;
                    out.push(f);
                    assert(diff_views(out@) =~= before.push(fv));
                }
            },
        }
        i = i + 1;
    }
    assert(pv.take(i as int) =~= pv);
    out
}

/// The paths a live diff looks at: every name either working tree lists
/// (each `git ls-files -z --cached --others --exclude-standard` answer),
/// sorted, each once.
pub fn live_candidates(a_out: &str, b_out: &str) -> (r: Vec<String>)
    ensures
        crate::text::strictly_sorted(str_views(r@)),
        str_views(r@).to_set() == (nonempty_fields(split_spec(a_out@, '\0')) + nonempty_fields(
            split_spec(b_out@, '\0'),
        )).to_set(),
{
    let mut all = live_files(a_out);
    let b = live_files(b_out);
    let ghost av = str_views(all@);
    let ghost bv = str_views(b@);
    let mut i: usize = 0;
    while i < b.len()
        invariant
            i <= b.len(),
            bv == str_views(b@),
            str_views(all@) == av + bv.take(i as int),
        decreases b.len() - i,
    {
        let ghost before = str_views(all@);
        all.push(b[i].clone());
        assert(bv.take(i + 1) =~= bv.take(i as int).push(b@[i as int]@));
        assert(str_views(all@) =~= before.push(b@[i as int]@));
        i = i + 1;
    }
    assert(bv.take(b.len() as int) =~= bv);
    crate::text::sorted_unique(all.as_slice())
}

/// The live diff's records with their content read in: each record's
/// patch (`no_index_diff`'s answer for it, in order) counted into it; the
/// first failed patch fails the whole diff.
pub open spec fn with_patches(
    es: Seq<FileDiffSpec>,
    ps: Seq<Result<String, String>>,
    n: nat,
) -> Result<Seq<FileDiffSpec>, Seq<char>>
    decreases n,
{
    if n == 0 {
        Ok(Seq::empty())
    } else {
        match with_patches(es, ps, (n - 1) as nat) {
            Err(e) => Err(e),
            Ok(v) => match ps[n - 1] {
                Err(e) => Err(e@),
                Ok(t) => Ok(v.push(patch_into(lines_spec(t@), es[n - 1]))),
            },
        }
    }
}

/// Once a patch has failed, every longer run fails the same way.
proof fn lemma_failed_stays(es: Seq<FileDiffSpec>, ps: Seq<Result<String, String>>, m: nat, n: nat)
    requires
        m <= n,
        with_patches(es, ps, m) is Err,
    ensures
        with_patches(es, ps, n) == with_patches(es, ps, m),
    decreases n - m,
{
    if m < n {
        lemma_failed_stays(es, ps, m, (n - 1) as nat);
    }
}

/// Count each live record's patch into it, when `--hunks` or the stat
/// asked for content: see `with_patches`.
pub fn live_contents(entries: Vec<FileDiff>, patches: &[Result<String, String>]) -> (r: Result<
    Vec<FileDiff>,
    String,
>)
    requires
        patches.len() == entries.len(),
        forall|i: int|
            0 <= i < patches.len() ==> (#[trigger] patches@[i] matches Ok(t) ==> entries@[i].plus + lines_spec(
                t@,
            ).len() <= usize::MAX && entries@[i].minus + lines_spec(t@).len() <= usize::MAX),
    ensures
        match r {
            Ok(v) => with_patches(diff_views(entries@), patches@, entries.len() as nat) == Ok::<
                Seq<FileDiffSpec>,
                Seq<char>,
            >(diff_views(v@)),
            Err(e) => with_patches(diff_views(entries@), patches@, entries.len() as nat) == Err::<
                Seq<FileDiffSpec>,
                Seq<char>,
            >(e@),
        },
{
    let ghost ev = diff_views(entries@);
    let n = entries.len();
    let mut rest = entries;
    let mut out: Vec<FileDiff> = Vec::new();
    assert(diff_views(out@) =~= Seq::<FileDiffSpec>::empty());
    let mut i: usize = 0;
    while i < n
        invariant
            i <= n,
            n == patches.len(),
            n == entries.len(),
            ev == diff_views(entries@),
            ev.len() == n,
            rest.len() == n - i,
            forall|k: int| 0 <= k < rest.len() ==> (#[trigger] rest@[k])@ == ev[i + k],
            forall|k: int|
                0 <= k < patches.len() ==> (#[trigger] patches@[k] matches Ok(t) ==> ev[k].plus + lines_spec(t@).len()
                    <= usize::MAX && ev[k].minus + lines_spec(t@).len() <= usize::MAX),
            with_patches(ev, patches@, i as nat) == Ok::<Seq<FileDiffSpec>, Seq<char>>(diff_views(out@)),
        decreases n - i,
    {
        let ghost rv = rest@;
        let mut f = rest.remove(0);
        assert forall|k: int| 0 <= k < rest.len() implies (#[trigger] rest@[k])@ == ev[i + 1 + k] by {
            assert(rest@[k] == rv[k + 1]);
        }
        assert(f@ == ev[i as int]);
        match &patches[i] {
            Err(e) => {
                proof {
                    assert(with_patches(ev, patches@, (i + 1) as nat) == Err::<Seq<FileDiffSpec>, Seq<char>>(e@));
                    lemma_failed_stays(ev, patches@, (i + 1) as nat, n as nat);
                }
                let msg = e.clone();
                assert(msg@ == e@);
                return Err(msg);
            },
            Ok(t) => {
                assert(patches@[i as int] matches Ok(u) && u@ == t@);
                parse_patch_into(t.as_str(), &mut f);
                let ghost before = diff_views(out@);
                out.push(f);
                assert(diff_views(out@) =~= before.push(patch_into(lines_spec(t@), ev[i as int])));
            },
        }
        i = i + 1;
    }
    Ok(out)
}

/// Whether a pathspec matches anything either side of a diff: either
/// working tree lists it (`dir_outs`, each `git ls-files` answer, `None`
/// where it failed), or, for a committed diff, either tree does
/// (`tree_outs`, each `git ls-tree -r --name-only` answer).
pub open spec fn path_matches_spec(dir_outs: Seq<Option<String>>, live: bool, tree_outs: Seq<Option<String>>) -> bool {
    (exists|i: int| 0 <= i < dir_outs.len() && dir_lists(#[trigger] dir_outs[i])) || (!live
        && exists|i: int| 0 <= i < tree_outs.len() && tree_lists(#[trigger] tree_outs[i]))
}

/// An `ls-files` answer that names something.
pub open spec fn dir_lists(o: Option<String>) -> bool {
    match o {
        Some(t) => nonempty_fields(split_spec(t@, '\0')).len() > 0,
        None => false,
    }
}

/// An `ls-tree` answer that is not blank.
pub open spec fn tree_lists(o: Option<String>) -> bool {
    match o {
        Some(t) => trim_spec(t@).len() > 0,
        None => false,
    }
}

/// Whether a pathspec matches anything either side of the diff.
pub fn path_matches(dir_outs: &[Option<String>], live: bool, tree_outs: &[Option<String>]) -> (r: bool)
    ensures
        r == path_matches_spec(dir_outs@, live, tree_outs@),
{
    let mut i: usize = 0;
    while i < dir_outs.len()
        invariant
            i <= dir_outs.len(),
            forall|k: int| 0 <= k < i ==> !dir_lists(#[trigger] dir_outs@[k]),
        decreases dir_outs.len() - i,
    {
        match &dir_outs[i] {
            Some(o) => {
                let names = live_files(o.as_str());
                if names.len() > 0 {
                    assert(dir_lists(dir_outs@[i as int]));
                    return true;
                }
            },
            None => {},
        }
        i = i + 1;
    }
    if live {
        return false;
    }
    let mut k: usize = 0;
    while k < tree_outs.len()
        invariant
            k <= tree_outs.len(),
            !live,
            forall|k: int| 0 <= k < dir_outs.len() ==> !dir_lists(#[trigger] dir_outs@[k]),
            forall|j: int| 0 <= j < k ==> !tree_lists(#[trigger] tree_outs@[j]),
        decreases tree_outs.len() - k,
    {
        match &tree_outs[k] {
            Some(o) => {
                let c = chars_of(o.as_str());
                let t = trim(c.as_slice());
                if t.len() > 0 {
                    assert(tree_lists(tree_outs@[k as int]));
                    return true;
                }
            },
            None => {},
        }
        k = k + 1;
    }
    false
}

// ---------------------------------------------------------------------------
// The report
// ---------------------------------------------------------------------------

/// The widest a `--stat` bar gets.
pub const BAR: usize = 40;

/// How many cells of a bar `n` changed lines get when the largest churn is
/// `max`: one per line while every row fits, scaled down otherwise, and
/// never none for a count that is not zero.
pub open spec fn bar_cells(n: nat, max: nat) -> nat {
    if max <= BAR {
        n
    } else if n == 0 {
        0
    } else {
        max_nat(n * (BAR as nat) / max, 1)
    }
}

/// A `--stat` bar never runs past `BAR` cells, a count that is not zero
/// always shows, and a larger count never gets a shorter run.
pub proof fn lemma_stat_bar_fits(n: nat, m: nat, max: nat)
    requires
        n <= m <= max,
        max >= 1,
    ensures
        bar_cells(n, max) <= BAR,
        n > 0 ==> bar_cells(n, max) >= 1,
        bar_cells(n, max) <= bar_cells(m, max),
{
    if max > BAR {
        assert(n * 40 / max <= 40) by (nonlinear_arith)
            requires
                n <= max,
                max > 0,
        {
            assert(n * 40 <= max * 40);
        }
        assert(n * 40 / max <= m * 40 / max) by (nonlinear_arith)
            requires
                n <= m,
                max > 0,
        {
            assert(n * 40 <= m * 40);
        }
    }
}

/// `n` copies of `ch`, painted, or nothing at all for none: an empty run
/// stays empty rather than a color code around nothing.
pub open spec fn run_spec(n: nat, ch: char, code: Seq<char>, on: bool) -> Seq<char> {
    if n == 0 {
        Seq::empty()
    } else {
        paint_spec(Seq::new(n, |i: int| ch), code, on)
    }
}

pub open spec fn churn_of(f: FileDiffSpec) -> nat {
    f.plus + f.minus
}

pub open spec fn paths_of(fs: Seq<FileDiffSpec>) -> Seq<Seq<char>> {
    fs.map_values(|f: FileDiffSpec| f.path)
}

/// The largest churn, at least one.
pub open spec fn churn_max(fs: Seq<FileDiffSpec>) -> nat {
    max_nat(max_of(fs.map_values(|f: FileDiffSpec| churn_of(f))), 1)
}

/// The widest churn count, in digits.
pub open spec fn churn_digits(fs: Seq<FileDiffSpec>) -> nat {
    max_of(fs.map_values(|f: FileDiffSpec| decimal(churn_of(f)).len()))
}

/// Each line followed by a newline.
pub open spec fn each_line(ls: Seq<Seq<char>>) -> Seq<char>
    decreases ls.len(),
{
    if ls.len() == 0 {
        Seq::empty()
    } else {
        each_line(ls.drop_last()) + ls.last() + "\n"@
    }
}

/// One `--stat` row: path, churn, and the bar; `Bin` for a binary file.
pub open spec fn stat_row(f: FileDiffSpec, w: nat, nw: nat, max: nat, on: bool) -> Seq<char> {
    if f.binary {
        " "@ + pad_right_spec(f.path, w) + " | Bin"@
    } else {
        " "@ + pad_right_spec(f.path, w) + " | "@ + pad_left_spec(decimal(churn_of(f)), nw) + " "@
            + run_spec(bar_cells(f.plus, max), '+', GREEN@, on) + run_spec(
            bar_cells(f.minus, max),
            '-',
            RED@,
            on,
        )
    }
}

/// `git diff --stat`'s shape: a churn bar per file, then the summary line.
pub open spec fn stat_text_spec(fs: Seq<FileDiffSpec>, on: bool) -> Seq<char> {
    let w = widest(paths_of(fs));
    let nw = churn_digits(fs);
    let max = churn_max(fs);
    each_line(fs.map_values(|f: FileDiffSpec| stat_row(f, w, nw, max, on))) + paint_spec(
        summary_spec(fs),
        DIM@,
        on,
    ) + "\n"@
}

/// The counts every row can spell: each file's churn and both totals fit a
/// machine word.
pub open spec fn counts_fit(fs: Seq<FileDiffSpec>) -> bool {
    &&& total_plus(fs) <= usize::MAX
    &&& total_minus(fs) <= usize::MAX
    &&& forall|i: int| 0 <= i < fs.len() ==> churn_of(#[trigger] fs[i]) <= usize::MAX
}

pub open spec fn status_code(s: char) -> Seq<char> {
    if s == 'A' {
        GREEN@
    } else if s == 'D' {
        RED@
    } else {
        YELLOW@
    }
}

/// A row's counts: `+P −M`, the `+P` padded to `pw` columns (the color
/// codes around it take no columns, so they widen the pad); `binary` for a
/// binary file.
pub open spec fn count_cells(f: FileDiffSpec, pw: nat, on: bool) -> Seq<char> {
    if f.binary {
        "binary"@
    } else {
        pad_right_spec(paint_spec("+"@ + decimal(f.plus), GREEN@, on), pw + (if on {
            9nat
        } else {
            0nat
        })) + " "@ + paint_spec("−"@ + decimal(f.minus), RED@, on)
    }
}

pub open spec fn file_line(f: FileDiffSpec, w: nat, pw: nat, on: bool) -> Seq<char> {
    paint_spec(seq![f.status], status_code(f.status), on) + " "@ + pad_right_spec(f.path, w) + "  "@
        + count_cells(f, pw, on)
}

/// One hunk under its file: the line number right-aligned to the file's
/// widest, then the kind and the span.
pub open spec fn hunk_line(h: HunkSpec, lw: nat) -> Seq<char> {
    "      "@ + pad_left_spec(decimal(h.line as nat), lw) + "  "@ + h.kind + " "@ + decimal(
        h.count as nat,
    )
}

pub open spec fn hunk_block(hs: Seq<HunkSpec>) -> Seq<char> {
    let lw = max_of(hs.map_values(|h: HunkSpec| decimal(h.line as nat).len()));
    each_line(hs.map_values(|h: HunkSpec| hunk_line(h, lw)))
}

pub open spec fn file_block(f: FileDiffSpec, w: nat, pw: nat, on: bool, hunks: bool) -> Seq<char> {
    file_line(f, w, pw, on) + "\n"@ + (if hunks {
        hunk_block(f.hunks)
    } else {
        Seq::empty()
    })
}

pub open spec fn file_blocks(fs: Seq<FileDiffSpec>, w: nat, pw: nat, on: bool, hunks: bool) -> Seq<char>
    decreases fs.len(),
{
    if fs.len() == 0 {
        Seq::empty()
    } else {
        file_blocks(fs.drop_last(), w, pw, on, hunks) + file_block(fs.last(), w, pw, on, hunks)
    }
}

/// The widest `+P`.
pub open spec fn plus_width(fs: Seq<FileDiffSpec>) -> nat {
    max_of(fs.map_values(|f: FileDiffSpec| decimal(f.plus).len() + 1))
}

/// The default view: the heading, a row per file (with its hunks when
/// asked), then the summary line.
pub open spec fn full_report(fs: Seq<FileDiffSpec>, head: Seq<char>, hunks: bool, on: bool) -> Seq<char> {
    paint_spec(head, DIM@, on) + "\n\n"@ + file_blocks(fs, widest(paths_of(fs)), plus_width(fs), on, hunks)
        + "\n"@ + paint_spec(summary_spec(fs), DIM@, on) + "\n"@
}

/// What `diff` prints for `fs`: nothing when nothing differs (the caller
/// says so on stderr), the bare paths or status and path for a listing,
/// the `--stat` bars, or the full report.
pub open spec fn report_spec(
    fs: Seq<FileDiffSpec>,
    head: Seq<char>,
    listing: Option<Seq<char>>,
    hunks: bool,
    on: bool,
) -> Option<Seq<char>> {
    if fs.len() == 0 {
        None
    } else if listing == Some("--name-only"@) {
        Some(each_line(paths_of(fs)))
    } else if listing == Some("--name-status"@) {
        Some(each_line(fs.map_values(|f: FileDiffSpec| seq![f.status] + "\t"@ + f.path)))
    } else if listing == Some("--stat"@) {
        Some(stat_text_spec(fs, on))
    } else {
        Some(full_report(fs, head, hunks, on))
    }
}

fn bar_len(n: usize, max: usize) -> (r: usize)
    requires
        n <= max,
        max >= 1,
    ensures
        r == bar_cells(n as nat, max as nat),
{
    if max <= BAR {
        n
    } else if n == 0 {
        0
    } else {
        let q = (n as u128) * 40u128 / (max as u128);
        assert(q <= 40) by (nonlinear_arith)
            requires
                q == (n as int) * 40 / (max as int),
                n <= max,
                max > 0,
        {
            assert((n as int) * 40 <= (max as int) * 40);
        }
        if q >= 1 {
            q as usize
        } else {
            1
        }
    }
}

fn push_run(out: &mut Vec<char>, n: usize, ch: char, code: &str, on: bool)
    ensures
        final(out)@ == old(out)@ + run_spec(n as nat, ch, code@, on),
{
    if n == 0 {
        assert(old(out)@ + run_spec(n as nat, ch, code@, on) =~= old(out)@);
        return;
    }
    let mut cells: Vec<char> = Vec::new();
    let mut i: usize = 0;
    while i < n
        invariant
            i <= n,
            cells@ == Seq::new(i as nat, |k: int| ch),
        decreases n - i,
    {
        cells.push(ch);
        assert(cells@ =~= Seq::new((i + 1) as nat, |k: int| ch));
        i = i + 1;
    }
    push_painted(out, cells.as_slice(), code, on);
}

fn path_width(files: &[FileDiff]) -> (w: usize)
    ensures
        w == widest(paths_of(diff_views(files@))),
{
    let ghost cells = paths_of(diff_views(files@));
    let mut w: usize = 0;
    let mut i: usize = 0;
    while i < files.len()
        invariant
            i <= files.len(),
            cells == paths_of(diff_views(files@)),
            cells.len() == files.len(),
            w == widest(cells.take(i as int)),
        decreases files.len() - i,
    {
        assert(cells.take(i + 1).drop_last() =~= cells.take(i as int));
        assert(cells.take(i + 1).last() == files@[i as int].path@);
        let n = chars_of(files[i].path.as_str()).len();
        if n > w {
            w = n;
        }
        i = i + 1;
    }
    assert(cells.take(files.len() as int) =~= cells);
    w
}

/// The largest of the numbers `f` gives each file, over `files`.
fn churn_stats(files: &[FileDiff]) -> (r: (usize, usize))
    requires
        counts_fit(diff_views(files@)),
    ensures
        r.0 == churn_max(diff_views(files@)),
        r.1 == churn_digits(diff_views(files@)),
{
    let ghost fs = diff_views(files@);
    let ghost cm = fs.map_values(|f: FileDiffSpec| churn_of(f));
    let ghost cd = fs.map_values(|f: FileDiffSpec| decimal(churn_of(f)).len());
    let mut m: usize = 0;
    let mut d: usize = 0;
    let mut i: usize = 0;
    while i < files.len()
        invariant
            i <= files.len(),
            fs == diff_views(files@),
            cm == fs.map_values(|f: FileDiffSpec| churn_of(f)),
            cd == fs.map_values(|f: FileDiffSpec| decimal(churn_of(f)).len()),
            counts_fit(fs),
            m == max_of(cm.take(i as int)),
            d == max_of(cd.take(i as int)),
        decreases files.len() - i,
    {
        assert(churn_of(fs[i as int]) <= usize::MAX);
        let c = files[i].plus + files[i].minus;
        let n = decimal_of(c).len();
        assert(cm.take(i + 1).drop_last() =~= cm.take(i as int));
        assert(cd.take(i + 1).drop_last() =~= cd.take(i as int));
        assert(cm.take(i + 1).last() == c);
        assert(cd.take(i + 1).last() == n);
        if c > m {
            m = c;
        }
        if n > d {
            d = n;
        }
        i = i + 1;
    }
    assert(cm.take(files.len() as int) =~= cm);
    assert(cd.take(files.len() as int) =~= cd);
    (if m >= 1 {
        m
    } else {
        1
    }, d)
}

proof fn lemma_max_of_bound(s: Seq<nat>, i: int)
    requires
        0 <= i < s.len(),
    ensures
        s[i] <= max_of(s),
    decreases s.len(),
{
    if i < s.len() - 1 {
        lemma_max_of_bound(s.drop_last(), i);
    }
}

fn push_lines_end(out: &mut Vec<char>, line: &Vec<char>)
    ensures
        final(out)@ == old(out)@ + line@ + "\n"@,
{
    push_all(out, line.as_slice());
    push_str(out, "\n");
}

fn stat_row_text(f: &FileDiff, w: usize, nw: usize, max: usize, on: bool) -> (r: Vec<char>)
    requires
        churn_of(f@) <= max,
        max >= 1,
        churn_of(f@) <= usize::MAX,
    ensures
        r@ == stat_row(f@, w as nat, nw as nat, max as nat, on),
{
    let mut out: Vec<char> = Vec::new();
    push_str(&mut out, " ");
    let p = chars_of(f.path.as_str());
    push_pad_right(&mut out, p.as_slice(), w);
    if f.binary {
        push_str(&mut out, " | Bin");
        assert(out@ =~= stat_row(f@, w as nat, nw as nat, max as nat, on));
        return out;
    }
    push_str(&mut out, " | ");
    let total = f.plus + f.minus;
    let d = decimal_of(total);
    push_pad_left(&mut out, d.as_slice(), nw);
    push_str(&mut out, " ");
    push_run(&mut out, bar_len(f.plus, max), '+', GREEN, on);
    push_run(&mut out, bar_len(f.minus, max), '-', RED, on);
    assert(out@ =~= stat_row(f@, w as nat, nw as nat, max as nat, on));
    out
}

/// The `--stat` view: see `stat_text_spec`.
pub fn stat_text(files: &[FileDiff], on: bool) -> (r: String)
    requires
        counts_fit(diff_views(files@)),
    ensures
        r@ == stat_text_spec(diff_views(files@), on),
{
    let ghost fs = diff_views(files@);
    let w = path_width(files);
    let (max, nw) = churn_stats(files);
    let ghost rows = fs.map_values(|f: FileDiffSpec| stat_row(f, w as nat, nw as nat, max as nat, on));
    let mut out: Vec<char> = Vec::new();
    let mut i: usize = 0;
    while i < files.len()
        invariant
            i <= files.len(),
            fs == diff_views(files@),
            counts_fit(fs),
            max == churn_max(fs),
            max >= 1,
            rows == fs.map_values(|f: FileDiffSpec| stat_row(f, w as nat, nw as nat, max as nat, on)),
            out@ == each_line(rows.take(i as int)),
        decreases files.len() - i,
    {
        proof {
            let cm = fs.map_values(|f: FileDiffSpec| churn_of(f));
            lemma_max_of_bound(cm, i as int);
            assert(churn_of(fs[i as int]) <= usize::MAX);
        }
        let row = stat_row_text(&files[i], w, nw, max, on);
        push_lines_end(&mut out, &row);
        assert(rows.take(i + 1).drop_last() =~= rows.take(i as int));
        assert(rows.take(i + 1).last() == row@);
        i = i + 1;
    }
    assert(rows.take(files.len() as int) =~= rows);
    let s = summary(files);
    let sc = chars_of(s.as_str());
    push_painted(&mut out, sc.as_slice(), DIM, on);
    push_str(&mut out, "\n");
    string_of(out.as_slice())
}


fn plus_cols(files: &[FileDiff]) -> (w: usize)
    ensures
        w == plus_width(diff_views(files@)),
{
    let ghost fs = diff_views(files@);
    let ghost cw = fs.map_values(|f: FileDiffSpec| decimal(f.plus).len() + 1);
    let mut w: usize = 0;
    let mut i: usize = 0;
    while i < files.len()
        invariant
            i <= files.len(),
            fs == diff_views(files@),
            cw == fs.map_values(|f: FileDiffSpec| decimal(f.plus).len() + 1),
            w == max_of(cw.take(i as int)),
        decreases files.len() - i,
    {
        let d = decimal_of(files[i].plus);
        proof {
            crate::text::lemma_decimal_word(files@[i as int].plus as nat);
        }
        let n = d.len() + 1;
        assert(cw.take(i + 1).drop_last() =~= cw.take(i as int));
        assert(cw.take(i + 1).last() == n);
        if n > w {
            w = n;
        }
        i = i + 1;
    }
    assert(cw.take(files.len() as int) =~= cw);
    w
}

fn push_hunks(out: &mut Vec<char>, hs: &Vec<Hunk>)
    ensures
        final(out)@ == old(out)@ + hunk_block(hunk_views(hs@)),
{
    let ghost hv = hunk_views(hs@);
    let ghost lws = hv.map_values(|h: HunkSpec| decimal(h.line as nat).len());
    let mut lw: usize = 0;
    let mut i: usize = 0;
    while i < hs.len()
        invariant
            i <= hs.len(),
            hv == hunk_views(hs@),
            lws == hv.map_values(|h: HunkSpec| decimal(h.line as nat).len()),
            lw == max_of(lws.take(i as int)),
        decreases hs.len() - i,
    {
        let n = decimal_of(hs[i].line).len();
        assert(lws.take(i + 1).drop_last() =~= lws.take(i as int));
        assert(lws.take(i + 1).last() == n);
        if n > lw {
            lw = n;
        }
        i = i + 1;
    }
    assert(lws.take(hs.len() as int) =~= lws);
    let ghost ls = hv.map_values(|h: HunkSpec| hunk_line(h, lw as nat));
    let ghost base = out@;
    let mut k: usize = 0;
    while k < hs.len()
        invariant
            k <= hs.len(),
            hv == hunk_views(hs@),
            ls == hv.map_values(|h: HunkSpec| hunk_line(h, lw as nat)),
            out@ == base + each_line(ls.take(k as int)),
        decreases hs.len() - k,
    {
        let ghost before = out@;
        let h = &hs[k];
        push_str(out, "      ");
        let d = decimal_of(h.line);
        push_pad_left(out, d.as_slice(), lw);
        push_str(out, "  ");
        push_str(out, h.kind);
        push_str(out, " ");
        let c = decimal_of(h.count);
        push_all(out, c.as_slice());
        push_str(out, "\n");
        assert(ls.take(k + 1).drop_last() =~= ls.take(k as int));
        assert(ls.take(k + 1).last() == hunk_line(h@, lw as nat));
        assert(out@ =~= base + each_line(ls.take(k + 1)));
        k = k + 1;
    }
    assert(ls.take(hs.len() as int) =~= ls);
}

fn counts_text(f: &FileDiff, pw: usize, on: bool) -> (r: Vec<char>)
    requires
        pw <= usize::MAX - 9,
    ensures
        r@ == count_cells(f@, pw as nat, on),
{
    let mut out: Vec<char> = Vec::new();
    if f.binary {
        push_str(&mut out, "binary");
        return out;
    }
    let mut plus: Vec<char> = Vec::new();
    push_str(&mut plus, "+");
    push_all(&mut plus, decimal_of(f.plus).as_slice());
    let mut painted: Vec<char> = Vec::new();
    push_painted(&mut painted, plus.as_slice(), GREEN, on);
    let width = if on {
        pw + 9
    } else {
        pw
    };
    push_pad_right(&mut out, painted.as_slice(), width);
    push_str(&mut out, " ");
    let mut minus: Vec<char> = Vec::new();
    push_str(&mut minus, "−");
    push_all(&mut minus, decimal_of(f.minus).as_slice());
    push_painted(&mut out, minus.as_slice(), RED, on);
    assert(out@ =~= count_cells(f@, pw as nat, on));
    out
}

fn file_line_text(f: &FileDiff, w: usize, pw: usize, on: bool) -> (r: Vec<char>)
    requires
        pw <= usize::MAX - 9,
    ensures
        r@ == file_line(f@, w as nat, pw as nat, on),
{
    let mut out: Vec<char> = Vec::new();
    let code = status_paint(f.status);
    push_painted(&mut out, &[f.status], code, on);
    assert(seq![f.status] =~= [f.status]@);
    push_str(&mut out, " ");
    let p = chars_of(f.path.as_str());
    push_pad_right(&mut out, p.as_slice(), w);
    push_str(&mut out, "  ");
    let counts = counts_text(f, pw, on);
    push_all(&mut out, counts.as_slice());
    assert(out@ =~= file_line(f@, w as nat, pw as nat, on));
    out
}

fn push_file_block(out: &mut Vec<char>, f: &FileDiff, w: usize, pw: usize, on: bool, hunks: bool)
    requires
        pw <= usize::MAX - 9,
    ensures
        final(out)@ == old(out)@ + file_block(f@, w as nat, pw as nat, on, hunks),
{
    let ghost base = out@;
    let line = file_line_text(f, w, pw, on);
    push_all(out, line.as_slice());
    push_str(out, "\n");
    let ghost at_hunks = out@;
    if hunks {
        push_hunks(out, &f.hunks);
    }
    assert(out@ =~= at_hunks + (if hunks {
        hunk_block(f@.hunks)
    } else {
        Seq::<char>::empty()
    }));
    assert(out@ =~= base + file_block(f@, w as nat, pw as nat, on, hunks));
}

fn listing_is(listing: Option<&str>, word: &str) -> (r: bool)
    ensures
        r == (crate::commits::rows::opt_str(listing) == Some(word@)),
{
    match listing {
        Some(l) => {
            let lc = chars_of(l);
            crate::text::is(lc.as_slice(), word)
        },
        None => false,
    }
}

fn push_file_blocks(out: &mut Vec<char>, files: &[FileDiff], w: usize, pw: usize, on: bool, hunks: bool)
    requires
        pw <= usize::MAX - 9,
    ensures
        final(out)@ == old(out)@ + file_blocks(diff_views(files@), w as nat, pw as nat, on, hunks),
{
    let ghost fs = diff_views(files@);
    let ghost base = out@;
    let mut i: usize = 0;
    while i < files.len()
        invariant
            i <= files.len(),
            fs == diff_views(files@),
            pw <= usize::MAX - 9,
            out@ == base + file_blocks(fs.take(i as int), w as nat, pw as nat, on, hunks),
        decreases files.len() - i,
    {
        push_file_block(out, &files[i], w, pw, on, hunks);
        assert(fs.take(i + 1).drop_last() =~= fs.take(i as int));
        assert(fs.take(i + 1).last() == files@[i as int]@);
        assert(out@ =~= base + file_blocks(fs.take(i + 1), w as nat, pw as nat, on, hunks));
        i = i + 1;
    }
    assert(fs.take(files.len() as int) =~= fs);
}

/// What `diff` prints: see `report_spec`. `None` means nothing differs.
pub fn diff_report(files: &[FileDiff], head: &str, listing: Option<&str>, hunks: bool, on: bool) -> (r:
    Option<String>)
    requires
        counts_fit(diff_views(files@)),
    ensures
        match report_spec(diff_views(files@), head@, crate::commits::rows::opt_str(listing), hunks, on) {
            Some(t) => r matches Some(x) && x@ == t,
            None => r is None,
        },
{
    let ghost fs = diff_views(files@);
    if files.len() == 0 {
        return None;
    }
    if listing_is(listing, "--name-only") {
        let ghost ls = paths_of(fs);
        let mut out: Vec<char> = Vec::new();
        let mut i: usize = 0;
        while i < files.len()
            invariant
                i <= files.len(),
                fs == diff_views(files@),
                ls == paths_of(fs),
                out@ == each_line(ls.take(i as int)),
            decreases files.len() - i,
        {
            push_str(&mut out, files[i].path.as_str());
            push_str(&mut out, "\n");
            assert(ls.take(i + 1).drop_last() =~= ls.take(i as int));
            assert(ls.take(i + 1).last() == files@[i as int].path@);
            assert(out@ =~= each_line(ls.take(i + 1)));
            i = i + 1;
        }
        assert(ls.take(files.len() as int) =~= ls);
        return Some(string_of(out.as_slice()));
    }
    if listing_is(listing, "--name-status") {
        let ghost ls = fs.map_values(|f: FileDiffSpec| seq![f.status] + "\t"@ + f.path);
        let mut out: Vec<char> = Vec::new();
        let mut i: usize = 0;
        while i < files.len()
            invariant
                i <= files.len(),
                fs == diff_views(files@),
                ls == fs.map_values(|f: FileDiffSpec| seq![f.status] + "\t"@ + f.path),
                out@ == each_line(ls.take(i as int)),
            decreases files.len() - i,
        {
            out.push(files[i].status);
            push_str(&mut out, "\t");
            push_str(&mut out, files[i].path.as_str());
            push_str(&mut out, "\n");
            assert(ls.take(i + 1).drop_last() =~= ls.take(i as int));
            assert(ls.take(i + 1).last() == seq![files@[i as int].status] + "\t"@ + files@[i as int].path@);
            assert(out@ =~= each_line(ls.take(i + 1)));
            i = i + 1;
        }
        assert(ls.take(files.len() as int) =~= ls);
        return Some(string_of(out.as_slice()));
    }
    if listing_is(listing, "--stat") {
        return Some(stat_text(files, on));
    }
    let w = path_width(files);
    let pw = plus_cols(files);
    proof {
        let cw = fs.map_values(|f: FileDiffSpec| decimal(f.plus).len() + 1);
        assert forall|i: int| 0 <= i < cw.len() implies cw[i] <= 21 by {
            crate::text::lemma_decimal_word(fs[i].plus);
        }
        lemma_plus_cols_small(cw);
    }
    let mut out: Vec<char> = Vec::new();
    let hc = chars_of(head);
    push_painted(&mut out, hc.as_slice(), DIM, on);
    push_str(&mut out, "\n\n");
    push_file_blocks(&mut out, files, w, pw, on, hunks);
    push_str(&mut out, "\n");
    let s = summary(files);
    let sc = chars_of(s.as_str());
    push_painted(&mut out, sc.as_slice(), DIM, on);
    push_str(&mut out, "\n");
    assert(out@ =~= full_report(fs, head@, hunks, on));
    Some(string_of(out.as_slice()))
}

/// Every `+P` is short: a count has at most twenty digits.
proof fn lemma_plus_cols_small(cw: Seq<nat>)
    requires
        forall|i: int| 0 <= i < cw.len() ==> cw[i] <= 21,
    ensures
        max_of(cw) <= 21,
    decreases cw.len(),
{
    if cw.len() > 0 {
        lemma_plus_cols_small(cw.drop_last());
    }
}


// ---------------------------------------------------------------------------
// The flags of `diff`
// ---------------------------------------------------------------------------

/// What a `diff` run compares and how it reports, once its flags agree.
#[derive(Debug, PartialEq, Eq)]
pub struct DiffPlan {
    /// The two worktrees, A then B (0-based).
    pub a: usize,
    pub b: usize,
    /// `--name-only`, `--name-status` or `--stat`, when one was asked for.
    pub listing: Option<&'static str>,
    /// `..` or `...`.
    pub dots: &'static str,
    /// The one status `-A` (`D`) or `-B` (`A`) keeps.
    pub only: Option<char>,
}

/// The listing flag asked for, or why more than one was.
pub open spec fn listing_spec(name_only: bool, name_status: bool, stat: bool) -> Result<Option<Seq<char>>, Seq<char>> {
    if name_only && !name_status && !stat {
        Ok(Some("--name-only"@))
    } else if !name_only && name_status && !stat {
        Ok(Some("--name-status"@))
    } else if !name_only && !name_status && stat {
        Ok(Some("--stat"@))
    } else if !name_only && !name_status && !stat {
        Ok(None)
    } else {
        Err("'--name-only', '--name-status' and '--stat' are alternatives; use one"@)
    }
}

/// The range word: `...` by default; a stray word is a path typed the git
/// way (`is_path`) or not a range at all.
pub open spec fn dots_spec(range: Option<Seq<char>>, is_path: bool) -> Result<Seq<char>, Seq<char>> {
    match range {
        None => Ok("..."@),
        Some(w) => if w == ".."@ {
            Ok(".."@)
        } else if w == "..."@ {
            Ok("..."@)
        } else if is_path {
            Err("unexpected argument '"@ + w + "' for diff: paths go in '-p/--path'"@)
        } else {
            Err("unexpected argument '"@ + w + "' for diff: range must be '..' or '...'"@)
        },
    }
}

/// The first path that matches nothing on either side, if any.
pub open spec fn first_unmatched(matched: Seq<bool>, n: nat) -> Option<int>
    decreases n,
{
    if n == 0 {
        None
    } else {
        match first_unmatched(matched, (n - 1) as nat) {
            Some(k) => Some(k),
            None => if !matched[n - 1] {
                Some(n - 1)
            } else {
                None
            },
        }
    }
}

/// The rules `diff`'s flags obey, checked in this order: exactly two
/// worktrees, and not one twice; one listing at most; the range word;
/// no blank path; every path matching something (`matched`, per path);
/// `--live` without a range; `--hunks` and `--meld` without a listing nor
/// each other; not both `-A` and `-B`.
pub open spec fn diff_plan_spec(
    idxs: Seq<usize>,
    labels: (Seq<char>, Seq<char>),
    name_only: bool,
    name_status: bool,
    stat: bool,
    range: Option<Seq<char>>,
    range_is_path: bool,
    paths: Seq<Seq<char>>,
    matched: Seq<bool>,
    live: bool,
    hunks: bool,
    meld: bool,
    a_only: bool,
    b_only: bool,
) -> Result<(usize, usize, Option<Seq<char>>, Seq<char>, Option<char>), Seq<char>> {
    if idxs.len() != 2 {
        Err("diff takes exactly two worktrees, got "@ + decimal(idxs.len()))
    } else if idxs[0] == idxs[1] {
        Err("worktree #"@ + decimal((idxs[0] + 1) as nat) + " against itself is always empty"@)
    } else {
        match listing_spec(name_only, name_status, stat) {
            Err(e) => Err(e),
            Ok(listing) => match dots_spec(range, range_is_path) {
                Err(e) => Err(e),
                Ok(dots) => if exists|k: int| 0 <= k < paths.len() && trim_spec(#[trigger] paths[k]).len() == 0 {
                    Err("bad path list '"@ + crate::commits::md::joined(paths, ","@) + "'; want paths, e.g. 'src/,docs/'"@)
                } else if first_unmatched(matched, paths.len()) is Some {
                    Err("no file matches '"@ + paths[first_unmatched(matched, paths.len())->0] + "' in "@ + labels.0
                        + " or "@ + labels.1)
                } else if live && range is Some {
                    Err("'--live' and '"@ + dots + "' cannot combine: a range compares commits, --live compares the files on disk"@)
                } else if hunks && listing is Some {
                    Err("'--hunks' and '"@ + listing->0 + "' cannot combine: --hunks prints line numbers per file, "@
                        + listing->0 + " prints a listing"@)
                } else if meld && hunks {
                    Err("'--meld' and '--hunks' cannot combine: --hunks prints line numbers per file, --meld opens a diff viewer"@)
                } else if meld && listing is Some {
                    Err("'--meld' and '"@ + listing->0 + "' cannot combine: "@ + listing->0
                        + " prints a listing, --meld opens a diff viewer"@)
                } else if a_only && b_only {
                    Err("'-A/--a-only' and '-B/--b-only' cannot combine: no file is missing from both sides"@)
                } else {
                    Ok(
                        (
                            idxs[0],
                            idxs[1],
                            listing,
                            dots,
                            if a_only {
                                Some('D')
                            } else if b_only {
                                Some('A')
                            } else {
                                None
                            },
                        ),
                    )
                },
            },
        }
    }
}

/// `diff`'s flags checked against each other: see `diff_plan_spec`.
/// `labels` names the two worktrees; `matched[k]` is whether path `k`
/// matches anything on either side.
pub fn diff_plan(
    idxs: &[usize],
    labels: (&str, &str),
    name_only: bool,
    name_status: bool,
    stat: bool,
    range: Option<&str>,
    range_is_path: bool,
    paths: &[String],
    matched: &[bool],
    live: bool,
    hunks: bool,
    meld: bool,
    a_only: bool,
    b_only: bool,
) -> (r: Result<DiffPlan, String>)
    requires
        matched.len() == paths.len(),
        forall|k: int| 0 <= k < idxs.len() ==> idxs[k] < usize::MAX,
    ensures
        match diff_plan_spec(
            idxs@,
            (labels.0@, labels.1@),
            name_only,
            name_status,
            stat,
            crate::commits::rows::opt_str(range),
            range_is_path,
            str_views(paths@),
            matched@,
            live,
            hunks,
            meld,
            a_only,
            b_only,
        ) {
            Ok((a, b, l, d, o)) => r matches Ok(p) && p.a == a && p.b == b && crate::commits::rows::opt_str(p.listing) == l
                && p.dots@ == d && p.only == o,
            Err(e) => r matches Err(x) && x@ == e,
        },
{
    proof {
        reveal_strlit("");
    }
    if idxs.len() != 2 {
        let mut m = chars_of("diff takes exactly two worktrees, got ");
        push_all(&mut m, decimal_of(idxs.len()).as_slice());
        return Err(string_of(m.as_slice()));
    }
    if idxs[0] == idxs[1] {
        let mut m = chars_of("worktree #");
        push_all(&mut m, decimal_of(idxs[0] + 1).as_slice());
        push_str(&mut m, " against itself is always empty");
        return Err(string_of(m.as_slice()));
    }
    let listing: Option<&'static str> = if name_only && !name_status && !stat {
        Some("--name-only")
    } else if !name_only && name_status && !stat {
        Some("--name-status")
    } else if !name_only && !name_status && stat {
        Some("--stat")
    } else if !name_only && !name_status && !stat {
        None
    } else {
        return Err("'--name-only', '--name-status' and '--stat' are alternatives; use one".to_string());
    };
    let dots: &'static str = match range {
        None => "...",
        Some(w) => {
            let wc = chars_of(w);
            if crate::text::is(wc.as_slice(), "..") {
                ".."
            } else if crate::text::is(wc.as_slice(), "...") {
                "..."
            } else if range_is_path {
                let mut m = chars_of("unexpected argument '");
                push_str(&mut m, w);
                push_str(&mut m, "' for diff: paths go in '-p/--path'");
                return Err(string_of(m.as_slice()));
            } else {
                let mut m = chars_of("unexpected argument '");
                push_str(&mut m, w);
                push_str(&mut m, "' for diff: range must be '..' or '...'");
                return Err(string_of(m.as_slice()));
            }
        },
    };
    let mut k: usize = 0;
    while k < paths.len()
        invariant
            k <= paths.len(),
            idxs.len() == 2,
            idxs[0] != idxs[1],
            listing_spec(name_only, name_status, stat) == Ok::<Option<Seq<char>>, Seq<char>>(crate::commits::rows::opt_str(listing)),
            dots_spec(crate::commits::rows::opt_str(range), range_is_path) == Ok::<Seq<char>, Seq<char>>(dots@),
            matched.len() == paths.len(),
            forall|j: int| 0 <= j < k ==> trim_spec(#[trigger] str_views(paths@)[j]).len() > 0,
        decreases paths.len() - k,
    {
        let t = trim(chars_of(paths[k].as_str()).as_slice());
        if t.len() == 0 {
            let ghost pv = str_views(paths@);
            let mut body: Vec<char> = Vec::new();
            let mut j: usize = 0;
            assert(body@ =~= crate::commits::md::joined(pv.take(0), ","@));
            while j < paths.len()
                invariant
                    j <= paths.len(),
                    pv == str_views(paths@),
                    body@ == crate::commits::md::joined(pv.take(j as int), ","@),
                decreases paths.len() - j,
            {
                let pc = chars_of(paths[j].as_str());
                crate::commits::md::push_joined(&mut body, Ghost(pv.take(j as int)), j == 0, pc.as_slice(), ",");
                assert(pv.take(j as int).push(pc@) =~= pv.take(j + 1));
                j = j + 1;
            }
            assert(pv.take(paths.len() as int) =~= pv);
            let mut m = chars_of("bad path list '");
            push_all(&mut m, body.as_slice());
            push_str(&mut m, "'; want paths, e.g. 'src/,docs/'");
            assert(trim_spec(str_views(paths@)[k as int]).len() == 0);
            return Err(string_of(m.as_slice()));
        }
        k = k + 1;
    }
    let mut u: usize = 0;
    while u < matched.len()
        invariant
            u <= matched.len(),
            idxs.len() == 2,
            idxs[0] != idxs[1],
            listing_spec(name_only, name_status, stat) == Ok::<Option<Seq<char>>, Seq<char>>(crate::commits::rows::opt_str(listing)),
            dots_spec(crate::commits::rows::opt_str(range), range_is_path) == Ok::<Seq<char>, Seq<char>>(dots@),
            matched.len() == paths.len(),
            forall|j: int| 0 <= j < paths.len() ==> trim_spec(#[trigger] str_views(paths@)[j]).len() > 0,
            first_unmatched(matched@, u as nat) is None,
        decreases matched.len() - u,
    {
        if !matched[u] {
            assert(first_unmatched(matched@, (u + 1) as nat) == Some(u as int));
            proof {
                lemma_first_unmatched_sticks(matched@, (u + 1) as nat, paths.len() as nat);
            }
            let mut m = chars_of("no file matches '");
            push_str(&mut m, paths[u].as_str());
            push_str(&mut m, "' in ");
            push_str(&mut m, labels.0);
            push_str(&mut m, " or ");
            push_str(&mut m, labels.1);
            return Err(string_of(m.as_slice()));
        }
        u = u + 1;
    }
    if live && range.is_some() {
        let mut m = chars_of("'--live' and '");
        push_str(&mut m, dots);
        push_str(&mut m, "' cannot combine: a range compares commits, --live compares the files on disk");
        return Err(string_of(m.as_slice()));
    }
    if hunks && listing.is_some() {
        let l = listing.unwrap();
        let mut m = chars_of("'--hunks' and '");
        push_str(&mut m, l);
        push_str(&mut m, "' cannot combine: --hunks prints line numbers per file, ");
        push_str(&mut m, l);
        push_str(&mut m, " prints a listing");
        return Err(string_of(m.as_slice()));
    }
    if meld && hunks {
        return Err("'--meld' and '--hunks' cannot combine: --hunks prints line numbers per file, --meld opens a diff viewer".to_string());
    }
    if meld && listing.is_some() {
        let l = listing.unwrap();
        let mut m = chars_of("'--meld' and '");
        push_str(&mut m, l);
        push_str(&mut m, "' cannot combine: ");
        push_str(&mut m, l);
        push_str(&mut m, " prints a listing, --meld opens a diff viewer");
        return Err(string_of(m.as_slice()));
    }
    if a_only && b_only {
        return Err("'-A/--a-only' and '-B/--b-only' cannot combine: no file is missing from both sides".to_string());
    }
    let only = if a_only {
        Some('D')
    } else if b_only {
        Some('A')
    } else {
        None
    };
    Ok(DiffPlan { a: idxs[0], b: idxs[1], listing, dots, only })
}

proof fn lemma_first_unmatched_sticks(matched: Seq<bool>, k: nat, n: nat)
    requires
        k <= n,
        first_unmatched(matched, k) is Some,
    ensures
        first_unmatched(matched, n) == first_unmatched(matched, k),
    decreases n - k,
{
    if k < n {
        lemma_first_unmatched_sticks(matched, k, (n - 1) as nat);
    }
}

/// The `git diff` a plain ref diff runs: `<a><dots><b>`, the listing
/// flag, and under `-A`/`-B` renames off (so a rename cannot hide as one
/// `R`) and the one status kept; then the paths.
pub open spec fn diff_argv_spec(p: DiffPlan, a: Seq<char>, b: Seq<char>, paths: Seq<Seq<char>>) -> Seq<Seq<char>> {
    seq!["diff"@, a + p.dots@ + b] + (match p.listing {
        Some(l) => seq![l@],
        None => Seq::empty(),
    }) + (match p.only {
        Some(s) => seq!["--no-renames"@, "--diff-filter="@.push(s)],
        None => Seq::empty(),
    }) + (if paths.len() > 0 {
        seq!["--"@] + paths
    } else {
        Seq::empty()
    })
}

fn push_word(v: &mut Vec<String>, w: Vec<char>)
    ensures
        str_views(final(v)@) == str_views(old(v)@).push(w@),
{
    let ghost before = str_views(v@);
    v.push(string_of(w.as_slice()));
    assert(str_views(v@) =~= before.push(w@));
}

/// The arguments of a plain ref diff: see `diff_argv_spec`.
pub fn diff_argv(p: &DiffPlan, a: &str, b: &str, paths: &[String]) -> (r: Vec<String>)
    ensures
        str_views(r@) == diff_argv_spec(*p, a@, b@, str_views(paths@)),
{
    let mut v: Vec<String> = Vec::new();
    push_word(&mut v, chars_of("diff"));
    let mut range = chars_of(a);
    push_str(&mut range, p.dots);
    push_str(&mut range, b);
    push_word(&mut v, range);
    if let Some(l) = p.listing {
        push_word(&mut v, chars_of(l));
    }
    if let Some(s) = p.only {
        push_word(&mut v, chars_of("--no-renames"));
        let mut f = chars_of("--diff-filter=");
        f.push(s);
        push_word(&mut v, f);
    }
    let ghost head = str_views(v@);
    if paths.len() > 0 {
        push_word(&mut v, chars_of("--"));
        let mut i: usize = 0;
        while i < paths.len()
            invariant
                i <= paths.len(),
                str_views(v@) == head + seq!["--"@] + str_views(paths@).take(i as int),
            decreases paths.len() - i,
        {
            push_word(&mut v, chars_of(paths[i].as_str()));
            assert(str_views(paths@).take(i + 1) =~= str_views(paths@).take(i as int).push(paths@[i as int]@));
            i = i + 1;
        }
        assert(str_views(paths@).take(paths.len() as int) =~= str_views(paths@));
    }
    assert(str_views(v@) =~= diff_argv_spec(*p, a@, b@, str_views(paths@)));
    v
}

/// The header above a `--hunks` ref diff.
pub open spec fn committed_head_spec(a: Seq<char>, b: Seq<char>, dots: Seq<char>, side: Option<Seq<char>>) -> Seq<char> {
    "diff "@ + a + " ↔ "@ + b + "   "@ + a + dots + b + " — committed state"@ + match side {
        Some(s) => "   only in "@ + s,
        None => Seq::empty(),
    }
}

/// The header above a `--hunks` ref diff: see `committed_head_spec`.
pub fn committed_head(a: &str, b: &str, dots: &str, side: &Option<String>) -> (r: String)
    ensures
        r@ == committed_head_spec(a@, b@, dots@, crate::worktree::opt_view(*side)),
{
    let mut m = chars_of("diff ");
    push_str(&mut m, a);
    push_str(&mut m, " ↔ ");
    push_str(&mut m, b);
    push_str(&mut m, "   ");
    push_str(&mut m, a);
    push_str(&mut m, dots);
    push_str(&mut m, b);
    push_str(&mut m, " — committed state");
    let note = only_note(side);
    push_str(&mut m, note.as_str());
    string_of(m.as_slice())
}

/// The header above a live diff: the two sides, that it compares the files
/// on disk, and the side a `-A`/`-B` run kept.
pub open spec fn live_head_spec(a: Seq<char>, b: Seq<char>, side: Option<Seq<char>>) -> Seq<char> {
    "diff "@ + a + " ↔ "@ + b + "   live — literal contents, .gitignore honored"@ + match side {
        Some(s) => "   only in "@ + s,
        None => Seq::empty(),
    }
}

/// The header above a live diff: see `live_head_spec`.
pub fn live_head(a: &str, b: &str, side: &Option<String>) -> (r: String)
    ensures
        r@ == live_head_spec(a@, b@, crate::worktree::opt_view(*side)),
{
    let mut m = chars_of("diff ");
    push_str(&mut m, a);
    push_str(&mut m, " ↔ ");
    push_str(&mut m, b);
    push_str(&mut m, "   live — literal contents, .gitignore honored");
    let note = only_note(side);
    push_str(&mut m, note.as_str());
    string_of(m.as_slice())
}

/// Whether a live diff reads each file's content: for `--hunks`, `--stat`
/// and the plain report, not for a name listing.
pub fn live_reads_content(listing: Option<&str>) -> (r: bool)
    ensures
        r == !(listing matches Some(l) && (l@ == "--name-only"@ || l@ == "--name-status"@)),
{
    match listing {
        Some(l) => !(crate::text::is(chars_of(l).as_slice(), "--name-only") || crate::text::is(chars_of(l).as_slice(), "--name-status")),
        None => true,
    }
}

/// The warning that a worktree's uncommitted changes are not in a ref
/// diff: `#n label`, `warning:` yellow when painted.
pub fn dirty_warning(n: usize, label: &str, on: bool) -> (r: String)
    requires
        n < usize::MAX,
    ensures
        r@ == paint_spec("warning:"@, YELLOW@, on) + " #"@ + decimal((n + 1) as nat) + " "@ + label@
            + " has uncommitted changes; this diff is committed state only"@,
{
    let mut m: Vec<char> = Vec::new();
    push_painted(&mut m, chars_of("warning:").as_slice(), YELLOW, on);
    push_str(&mut m, " #");
    push_all(&mut m, decimal_of(n + 1).as_slice());
    push_str(&mut m, " ");
    push_str(&mut m, label);
    push_str(&mut m, " has uncommitted changes; this diff is committed state only");
    string_of(m.as_slice())
}

} // verus!
