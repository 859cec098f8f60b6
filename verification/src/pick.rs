//! The interactive pickers of `add` (a branch) and `switch` (a worktree):
//! what is offered, how the lists are laid out, and how an answer reads.

use vstd::prelude::*;

use crate::style::{paint_spec, push_painted, DIM};
use crate::text::{
    chars_of, decimal, decimal_of, lines, lines_spec, pad_left_spec, pad_right_spec, parse_usize,
    parse_usize_spec, push_all, push_pad_left, push_pad_right, push_str, split_once,
    split_once_spec, str_views, string_of, trim, trim_spec, views, widest, words, words_spec,
};
use crate::diff::each_line;
use crate::worktree::{label, label_spec, Worktree};

verus! {

// ---------------------------------------------------------------------------
// Branches
// ---------------------------------------------------------------------------

/// One `for-each-ref` line, `name<TAB>age`: the name, and the age (empty
/// when the line has no tab).
pub open spec fn branch_entry(l: Seq<char>) -> (Seq<char>, Seq<char>) {
    match split_once_spec(l, '\t') {
        Some(p) => p,
        None => (l, Seq::empty()),
    }
}

/// The local branches a listing names, most recent first, blank lines
/// skipped.
pub open spec fn branch_entries(ls: Seq<Seq<char>>) -> Seq<(Seq<char>, Seq<char>)>
    decreases ls.len(),
{
    if ls.len() == 0 {
        Seq::empty()
    } else if ls.last().len() == 0 {
        branch_entries(ls.drop_last())
    } else {
        branch_entries(ls.drop_last()).push(branch_entry(ls.last()))
    }
}

pub open spec fn pair_views(v: Seq<(String, String)>) -> Seq<(Seq<char>, Seq<char>)> {
    v.map_values(|p: (String, String)| (p.0@, p.1@))
}

/// The branches of a `for-each-ref --format=%(refname:short)%09%(...)`
/// listing, with their ages.
pub fn branch_list(out: &str) -> (r: Vec<(String, String)>)
    ensures
        pair_views(r@) == branch_entries(lines_spec(out@)),
{
    let oc = chars_of(out);
    let ls = lines(oc.as_slice());
    let ghost lv = views(ls@);
    let mut v: Vec<(String, String)> = Vec::new();
    let mut i: usize = 0;
    while i < ls.len()
        invariant
            i <= ls.len(),
            lv == views(ls@),
            pair_views(v@) == branch_entries(lv.take(i as int)),
        decreases ls.len() - i,
    {
        assert(lv.take(i + 1).drop_last() =~= lv.take(i as int));
        assert(lv.take(i + 1).last() == ls@[i as int]@);
        if ls[i].len() > 0 {
            let ghost before = pair_views(v@);
            let e = match split_once(ls[i].as_slice(), '\t') {
                Some(p) => (string_of(p.0.as_slice()), string_of(p.1.as_slice())),
                None => (string_of(ls[i].as_slice()), String::new()),
            };
            v.push(e);
            assert(pair_views(v@) =~= before.push(branch_entry(ls@[i as int]@)));
        }
        i = i + 1;
    }
    assert(lv.take(ls.len() as int) =~= lv);
    v
}

/// The worktree `b` is checked out in, if any: the first.
pub open spec fn checked_out_in(trees: Seq<Worktree>, b: Seq<char>) -> Option<Worktree>
    decreases trees.len(),
{
    if trees.len() == 0 {
        None
    } else if trees[0].branch matches Some(x) && x@ == b {
        Some(trees[0])
    } else {
        checked_out_in(trees.drop_first(), b)
    }
}

/// The branches a picker offers: those checked out nowhere, in order.
pub open spec fn selectable(bs: Seq<(Seq<char>, Seq<char>)>, trees: Seq<Worktree>) -> Seq<(Seq<char>, Seq<char>)>
    decreases bs.len(),
{
    if bs.len() == 0 {
        Seq::empty()
    } else if checked_out_in(trees, bs.last().0) is Some {
        selectable(bs.drop_last(), trees)
    } else {
        selectable(bs.drop_last(), trees).push(bs.last())
    }
}

/// The branches a picker shows as taken, with where: in order.
pub open spec fn taken(bs: Seq<(Seq<char>, Seq<char>)>, trees: Seq<Worktree>) -> Seq<(Seq<char>, Seq<char>)>
    decreases bs.len(),
{
    if bs.len() == 0 {
        Seq::empty()
    } else {
        match checked_out_in(trees, bs.last().0) {
            Some(w) => taken(bs.drop_last(), trees).push((bs.last().0, w.path@)),
            None => taken(bs.drop_last(), trees),
        }
    }
}

fn find_tree(trees: &[Worktree], b: &str) -> (r: Option<usize>)
    ensures
        match checked_out_in(trees@, b@) {
            Some(w) => r matches Some(k) && k < trees.len() && trees@[k as int] == w,
            None => r is None,
        },
{
    let bc = chars_of(b);
    let mut i: usize = 0;
    assert(trees@.skip(0) =~= trees@);
    while i < trees.len()
        invariant
            i <= trees.len(),
            bc@ == b@,
            checked_out_in(trees@, b@) == checked_out_in(trees@.skip(i as int), b@),
        decreases trees.len() - i,
    {
        assert(trees@.skip(i as int)[0] == trees@[i as int]);
        assert(trees@.skip(i as int).drop_first() =~= trees@.skip(i + 1));
        match &trees[i].branch {
            Some(x) => {
                let xc = chars_of(x.as_str());
                if crate::text::same(xc.as_slice(), bc.as_slice()) {
                    return Some(i);
                }
            },
            None => {},
        }
        i = i + 1;
    }
    None
}

/// The branches split into those a picker offers and those checked out
/// somewhere (with the worktree's path).
pub fn split_branches(bs: &[(String, String)], trees: &[Worktree]) -> (r: (Vec<(String, String)>, Vec<(String, String)>))
    ensures
        pair_views(r.0@) == selectable(pair_views(bs@), trees@),
        pair_views(r.1@) == taken(pair_views(bs@), trees@),
{
    let ghost bv = pair_views(bs@);
    let mut free: Vec<(String, String)> = Vec::new();
    let mut busy: Vec<(String, String)> = Vec::new();
    let mut i: usize = 0;
    while i < bs.len()
        invariant
            i <= bs.len(),
            bv == pair_views(bs@),
            pair_views(free@) == selectable(bv.take(i as int), trees@),
            pair_views(busy@) == taken(bv.take(i as int), trees@),
        decreases bs.len() - i,
    {
        assert(bv.take(i + 1).drop_last() =~= bv.take(i as int));
        assert(bv.take(i + 1).last() == (bs@[i as int].0@, bs@[i as int].1@));
        let ghost bf = pair_views(free@);
        let ghost bb = pair_views(busy@);
        match find_tree(trees, bs[i].0.as_str()) {
            Some(k) => {
                busy.push((bs[i].0.clone(), trees[k].path.clone()));
                assert(pair_views(busy@) =~= bb.push((bs@[i as int].0@, trees@[k as int].path@)));
            },
            None => {
                free.push((bs[i].0.clone(), bs[i].1.clone()));
                assert(pair_views(free@) =~= bf.push((bs@[i as int].0@, bs@[i as int].1@)));
            },
        }
        i = i + 1;
    }
    assert(bv.take(bs.len() as int) =~= bv);
    (free, busy)
}

/// The note above the picker naming the branches it cannot offer, each
/// with where it is checked out, then a rule.
pub open spec fn taken_note_spec(ts: Seq<(Seq<char>, Seq<char>)>) -> Seq<char> {
    let w = widest(ts.map_values(|p: (Seq<char>, Seq<char>)| p.0));
    "Already checked out (not selectable):\n"@ + each_line(
        ts.map_values(|p: (Seq<char>, Seq<char>)| "  "@ + pad_right_spec(p.0, w) + "  "@ + p.1),
    ) + Seq::new(48, |i: int| '─') + "\n"@
}

fn widest_first(v: &[(String, String)]) -> (w: usize)
    ensures
        w == widest(pair_views(v@).map_values(|p: (Seq<char>, Seq<char>)| p.0)),
{
    let ghost cells = pair_views(v@).map_values(|p: (Seq<char>, Seq<char>)| p.0);
    let mut w: usize = 0;
    let mut i: usize = 0;
    while i < v.len()
        invariant
            i <= v.len(),
            cells == pair_views(v@).map_values(|p: (Seq<char>, Seq<char>)| p.0),
            w == widest(cells.take(i as int)),
        decreases v.len() - i,
    {
        assert(cells.take(i + 1).drop_last() =~= cells.take(i as int));
        assert(cells.take(i + 1).last() == v@[i as int].0@);
        let n = chars_of(v[i].0.as_str()).len();
        if n > w {
            w = n;
        }
        i = i + 1;
    }
    assert(cells.take(v.len() as int) =~= cells);
    w
}

/// The note naming the branches already checked out: see
/// `taken_note_spec`.
pub fn taken_note(ts: &[(String, String)]) -> (r: String)
    ensures
        r@ == taken_note_spec(pair_views(ts@)),
{
    let ghost tv = pair_views(ts@);
    let w = widest_first(ts);
    let ghost ls = tv.map_values(|p: (Seq<char>, Seq<char>)| "  "@ + pad_right_spec(p.0, w as nat) + "  "@ + p.1);
    let mut out: Vec<char> = Vec::new();
    push_str(&mut out, "Already checked out (not selectable):\n");
    let ghost head = out@;
    let mut i: usize = 0;
    while i < ts.len()
        invariant
            i <= ts.len(),
            tv == pair_views(ts@),
            ls == tv.map_values(|p: (Seq<char>, Seq<char>)| "  "@ + pad_right_spec(p.0, w as nat) + "  "@ + p.1),
            out@ == head + each_line(ls.take(i as int)),
        decreases ts.len() - i,
    {
        push_str(&mut out, "  ");
        let b = chars_of(ts[i].0.as_str());
        push_pad_right(&mut out, b.as_slice(), w);
        push_str(&mut out, "  ");
        push_str(&mut out, ts[i].1.as_str());
        push_str(&mut out, "\n");
        assert(ls.take(i + 1).drop_last() =~= ls.take(i as int));
        assert(ls.take(i + 1).last() == "  "@ + pad_right_spec(ts@[i as int].0@, w as nat) + "  "@
            + ts@[i as int].1@);
        assert(out@ =~= head + each_line(ls.take(i + 1)));
        i = i + 1;
    }
    assert(ls.take(ts.len() as int) =~= ls);
    let ghost before_rule = out@;
    let mut k: usize = 0;
    while k < 48
        invariant
            k <= 48,
            out@ == before_rule + Seq::new(k as nat, |i: int| '─'),
        decreases 48 - k,
    {
        out.push('─');
        assert(out@ =~= before_rule + Seq::new((k + 1) as nat, |i: int| '─'));
        k = k + 1;
    }
    push_str(&mut out, "\n");
    assert(out@ =~= taken_note_spec(tv));
    string_of(out.as_slice())
}

/// The numbered list of branches on offer, then the prompt: each age dimmed
/// (and left plain when empty).
pub open spec fn branch_menu_spec(items: Seq<(Seq<char>, Seq<char>)>, color: bool) -> Seq<char> {
    let w = decimal(items.len()).len();
    let bw = widest(items.map_values(|p: (Seq<char>, Seq<char>)| p.0));
    "Available branches (most recent first):\n"@ + each_line(
        Seq::new(
            items.len(),
            |i: int|
                "  "@ + pad_left_spec(decimal((i + 1) as nat), w) + "  "@ + pad_right_spec(items[i].0, bw)
                    + "  "@ + paint_spec(items[i].1, DIM@, color && items[i].1.len() > 0),
        ),
    ) + "Select a branch [1-"@ + decimal(items.len()) + "], or Enter to cancel: "@
}

fn branch_row(i: usize, w: usize, name: &str, age: &str, bw: usize, color: bool) -> (m: Vec<char>)
    requires
        i < usize::MAX,
    ensures
        m@ == "  "@ + pad_left_spec(decimal((i + 1) as nat), w as nat) + "  "@ + pad_right_spec(
            name@,
            bw as nat,
        ) + "  "@ + paint_spec(age@, DIM@, color && age@.len() > 0),
{
    let mut m: Vec<char> = Vec::new();
    push_str(&mut m, "  ");
    let d = decimal_of(i + 1);
    push_pad_left(&mut m, d.as_slice(), w);
    push_str(&mut m, "  ");
    let b = chars_of(name);
    push_pad_right(&mut m, b.as_slice(), bw);
    push_str(&mut m, "  ");
    let a = chars_of(age);
    push_painted(&mut m, a.as_slice(), DIM, color && a.len() > 0);
    m
}

/// The numbered branch picker's text: see `branch_menu_spec`.
pub fn branch_menu(items: &[(String, String)], color: bool) -> (r: String)
    requires
        items.len() < usize::MAX,
    ensures
        r@ == branch_menu_spec(pair_views(items@), color),
{
    let ghost iv = pair_views(items@);
    let w = decimal_of(items.len()).len();
    let bw = widest_first(items);
    let ghost ls = Seq::new(
        iv.len(),
        |i: int|
            "  "@ + pad_left_spec(decimal((i + 1) as nat), w as nat) + "  "@ + pad_right_spec(iv[i].0, bw as nat)
                + "  "@ + paint_spec(iv[i].1, DIM@, color && iv[i].1.len() > 0),
    );
    let mut out: Vec<char> = Vec::new();
    push_str(&mut out, "Available branches (most recent first):\n");
    let ghost head = out@;
    let mut i: usize = 0;
    while i < items.len()
        invariant
            i <= items.len(),
            items.len() < usize::MAX,
            iv == pair_views(items@),
            ls.len() == iv.len(),
            forall|k: int| 0 <= k < iv.len() ==> #[trigger] ls[k] == "  "@ + pad_left_spec(
                decimal((k + 1) as nat),
                w as nat,
            ) + "  "@ + pad_right_spec(iv[k].0, bw as nat) + "  "@ + paint_spec(
                iv[k].1,
                DIM@,
                color && iv[k].1.len() > 0,
            ),
            out@ == head + each_line(ls.take(i as int)),
        decreases items.len() - i,
    {
        let m = branch_row(i, w, items[i].0.as_str(), items[i].1.as_str(), bw, color);
        push_all(&mut out, m.as_slice());
        push_str(&mut out, "\n");
        assert(ls.take(i + 1).drop_last() =~= ls.take(i as int));
        assert(ls.take(i + 1).last() == ls[i as int]);
        assert(out@ =~= head + each_line(ls.take(i + 1)));
        i = i + 1;
    }
    assert(ls.take(items.len() as int) =~= ls);
    push_str(&mut out, "Select a branch [1-");
    push_all(&mut out, decimal_of(items.len()).as_slice());
    push_str(&mut out, "], or Enter to cancel: ");
    assert(out@ =~= branch_menu_spec(iv, color));
    string_of(out.as_slice())
}

/// What a typed answer to the numbered picker means: the 0-based item, or
/// why not. Nothing typed (or end of input) cancels.
pub open spec fn number_choice_spec(line: Option<Seq<char>>, n: nat) -> Result<nat, Seq<char>> {
    match line {
        None => Err("no branch selected"@),
        Some(l) => {
            let t = trim_spec(l);
            if t.len() == 0 {
                Err("no branch selected"@)
            } else {
                match parse_usize_spec(t) {
                    None => Err("'"@ + t + "' is not a number"@),
                    Some(k) => if k == 0 || k > n {
                        Err("no branch #"@ + decimal(k as nat))
                    } else {
                        Ok((k - 1) as nat)
                    },
                }
            }
        },
    }
}

/// Read the numbered picker's answer: see `number_choice_spec`.
pub fn number_choice(line: Option<&str>, n: usize) -> (r: Result<usize, String>)
    ensures
        match number_choice_spec(crate::commits::rows::opt_str(line), n as nat) {
            Ok(k) => r == Ok::<usize, String>(k as usize),
            Err(e) => r matches Err(x) && x@ == e,
        },
{
    let none = "no branch selected";
    match line {
        None => Err(string_of(chars_of(none).as_slice())),
        Some(l) => {
            let t = trim(chars_of(l).as_slice());
            if t.len() == 0 {
                return Err(string_of(chars_of(none).as_slice()));
            }
            match parse_usize(t.as_slice()) {
                None => {
                    let mut m: Vec<char> = Vec::new();
                    push_str(&mut m, "'");
                    push_all(&mut m, t.as_slice());
                    push_str(&mut m, "' is not a number");
                    Err(string_of(m.as_slice()))
                },
                Some(k) => if k == 0 || k > n {
                    let mut m: Vec<char> = Vec::new();
                    push_str(&mut m, "no branch #");
                    push_all(&mut m, decimal_of(k).as_slice());
                    Err(string_of(m.as_slice()))
                } else {
                    Ok(k - 1)
                },
            }
        },
    }
}

/// A name typed for a new branch (`None` at end of input): trimmed, and
/// nothing typed cancels.
pub open spec fn typed_spec(line: Option<Seq<char>>) -> Result<Seq<char>, Seq<char>> {
    match line {
        None => Err("no branch selected"@),
        Some(l) => if trim_spec(l).len() == 0 {
            Err("no branch selected"@)
        } else {
            Ok(trim_spec(l))
        },
    }
}

/// The branch typed at the empty-state prompt, or fzf's pick: see
/// `typed_spec`.
pub fn typed_branch(line: Option<&str>) -> (r: Result<String, String>)
    ensures
        match typed_spec(crate::commits::rows::opt_str(line)) {
            Ok(x) => r matches Ok(y) && y@ == x,
            Err(e) => r matches Err(y) && y@ == e,
        },
{
    match line {
        None => Err(string_of(chars_of("no branch selected").as_slice())),
        Some(l) => {
            let t = trim(chars_of(l).as_slice());
            if t.len() == 0 {
                Err(string_of(chars_of("no branch selected").as_slice()))
            } else {
                Ok(string_of(t.as_slice()))
            }
        },
    }
}

/// What fzf's answer means: a failed fzf (cancelled) or an empty pick is no
/// selection; otherwise the trimmed line.
pub fn fzf_choice(success: bool, out: &str) -> (r: Result<String, String>)
    ensures
        !success ==> (r matches Err(e) && e@ == "no branch selected"@),
        success ==> match typed_spec(Some(out@)) {
            Ok(x) => r matches Ok(y) && y@ == x,
            Err(e) => r matches Err(y) && y@ == e,
        },
{
    if !success {
        return Err(string_of(chars_of("no branch selected").as_slice()));
    }
    typed_branch(Some(out))
}

// ---------------------------------------------------------------------------
// Worktrees
// ---------------------------------------------------------------------------

/// One worktree as `switch` lists it: its number right-aligned, its label
/// padded, then its path (dimmed when painted).
pub open spec fn switch_line(i: nat, w: Worktree, numw: nat, bw: nat, path: Seq<char>) -> Seq<char> {
    pad_left_spec(decimal(i + 1), numw) + "  "@ + pad_right_spec(label_spec(w), bw) + "  "@ + path
}

pub open spec fn label_width(trees: Seq<Worktree>) -> nat {
    widest(trees.map_values(|w: Worktree| label_spec(w)))
}

fn labels_width(trees: &[Worktree]) -> (w: usize)
    ensures
        w == label_width(trees@),
{
    let ghost cells = trees@.map_values(|w: Worktree| label_spec(w));
    let mut w: usize = 0;
    let mut i: usize = 0;
    while i < trees.len()
        invariant
            i <= trees.len(),
            cells == trees@.map_values(|w: Worktree| label_spec(w)),
            w == widest(cells.take(i as int)),
        decreases trees.len() - i,
    {
        assert(cells.take(i + 1).drop_last() =~= cells.take(i as int));
        assert(cells.take(i + 1).last() == label_spec(trees@[i as int]));
        let n = chars_of(label(&trees[i]).as_str()).len();
        if n > w {
            w = n;
        }
        i = i + 1;
    }
    assert(cells.take(trees.len() as int) =~= cells);
    w
}

fn switch_row(i: usize, t: &Worktree, numw: usize, bw: usize, tail: &[char]) -> (m: Vec<char>)
    requires
        i < usize::MAX,
    ensures
        m@ == switch_line(i as nat, *t, numw as nat, bw as nat, tail@),
{
    let mut m: Vec<char> = Vec::new();
    push_pad_left(&mut m, decimal_of(i + 1).as_slice(), numw);
    push_str(&mut m, "  ");
    push_pad_right(&mut m, chars_of(label(t).as_str()).as_slice(), bw);
    push_str(&mut m, "  ");
    push_all(&mut m, tail);
    m
}

/// What `switch` offers fzf: a line per worktree, each leading with its
/// number so a pick maps straight back to it.
pub fn switch_items(trees: &[Worktree]) -> (r: Vec<String>)
    requires
        trees.len() < usize::MAX,
    ensures
        r.len() == trees.len(),
        forall|i: int|
            0 <= i < trees.len() ==> (#[trigger] r@[i])@ == switch_line(
                i as nat,
                trees@[i],
                decimal(trees.len() as nat).len(),
                label_width(trees@),
                trees@[i].path@,
            ),
{
    let numw = decimal_of(trees.len()).len();
    let bw = labels_width(trees);
    let mut out: Vec<String> = Vec::new();
    let mut i: usize = 0;
    while i < trees.len()
        invariant
            i <= trees.len(),
            trees.len() < usize::MAX,
            numw == decimal(trees.len() as nat).len(),
            bw == label_width(trees@),
            out.len() == i,
            forall|k: int|
                0 <= k < i ==> (#[trigger] out@[k])@ == switch_line(
                    k as nat,
                    trees@[k],
                    numw as nat,
                    bw as nat,
                    trees@[k].path@,
                ),
        decreases trees.len() - i,
    {
        let p = chars_of(trees[i].path.as_str());
        let m = switch_row(i, &trees[i], numw, bw, p.as_slice());
        out.push(string_of(m.as_slice()));
        i = i + 1;
    }
    out
}

/// The numbered worktree list `switch` falls back to, then its prompt.
pub open spec fn switch_menu_spec(trees: Seq<Worktree>, color: bool) -> Seq<char> {
    let numw = decimal(trees.len()).len();
    let bw = label_width(trees);
    "Worktrees:\n"@ + each_line(
        Seq::new(
            trees.len(),
            |i: int| "  "@ + switch_line(i as nat, trees[i], numw, bw, paint_spec(trees[i].path@, DIM@, color)),
        ),
    ) + "Pick a number (Enter to cancel): "@
}

/// The numbered worktree list and prompt: see `switch_menu_spec`.
pub fn switch_menu(trees: &[Worktree], color: bool) -> (r: String)
    requires
        trees.len() < usize::MAX,
    ensures
        r@ == switch_menu_spec(trees@, color),
{
    let numw = decimal_of(trees.len()).len();
    let bw = labels_width(trees);
    let ghost ls = Seq::new(
        trees@.len(),
        |i: int| "  "@ + switch_line(i as nat, trees@[i], numw as nat, bw as nat, paint_spec(trees@[i].path@, DIM@, color)),
    );
    let mut out: Vec<char> = Vec::new();
    push_str(&mut out, "Worktrees:\n");
    let ghost head = out@;
    let mut i: usize = 0;
    while i < trees.len()
        invariant
            i <= trees.len(),
            trees.len() < usize::MAX,
            ls.len() == trees@.len(),
            forall|k: int| 0 <= k < trees@.len() ==> #[trigger] ls[k] == "  "@ + switch_line(
                k as nat,
                trees@[k],
                numw as nat,
                bw as nat,
                paint_spec(trees@[k].path@, DIM@, color),
            ),
            out@ == head + each_line(ls.take(i as int)),
        decreases trees.len() - i,
    {
        let p = chars_of(trees[i].path.as_str());
        let mut tail: Vec<char> = Vec::new();
        push_painted(&mut tail, p.as_slice(), DIM, color);
        let m = switch_row(i, &trees[i], numw, bw, tail.as_slice());
        push_str(&mut out, "  ");
        push_all(&mut out, m.as_slice());
        push_str(&mut out, "\n");
        assert(ls.take(i + 1).drop_last() =~= ls.take(i as int));
        assert(ls.take(i + 1).last() == ls[i as int]);
        assert(out@ =~= head + each_line(ls.take(i + 1)));
        i = i + 1;
    }
    assert(ls.take(trees.len() as int) =~= ls);
    push_str(&mut out, "Pick a number (Enter to cancel): ");
    assert(out@ =~= switch_menu_spec(trees@, color));
    string_of(out.as_slice())
}

/// The number a `switch` pick leads with (fzf's line, or what was typed):
/// its first word, when that is a number.
pub open spec fn picked_spec(sel: Seq<char>) -> Option<usize> {
    let ws = words_spec(sel);
    if ws.len() == 0 {
        None
    } else {
        parse_usize_spec(ws[0])
    }
}

/// The number a pick leads with: see `picked_spec`.
pub fn picked_number(sel: &str) -> (r: Option<usize>)
    ensures
        r == picked_spec(sel@),
{
    let ws = words(chars_of(sel).as_slice());
    if ws.len() == 0 {
        None
    } else {
        assert(views(ws@)[0] == ws@[0]@);
        parse_usize(ws[0].as_slice())
    }
}

// ---------------------------------------------------------------------------
// Laws
// ---------------------------------------------------------------------------

/// Every branch lands on exactly one side of the picker: offered when no
/// worktree has it checked out, set aside (with where) when one does.
pub proof fn lemma_split_partitions(bs: Seq<(Seq<char>, Seq<char>)>, trees: Seq<Worktree>)
    ensures
        selectable(bs, trees).len() + taken(bs, trees).len() == bs.len(),
        forall|i: int|
            0 <= i < selectable(bs, trees).len() ==> checked_out_in(
                trees,
                (#[trigger] selectable(bs, trees)[i]).0,
            ) is None,
        forall|i: int|
            0 <= i < taken(bs, trees).len() ==> (checked_out_in(trees, (#[trigger] taken(bs, trees)[i]).0)
                matches Some(w) && (taken(bs, trees)[i]).1 == w.path@),
    decreases bs.len(),
{
    if bs.len() > 0 {
        lemma_split_partitions(bs.drop_last(), trees);
        let s0 = selectable(bs.drop_last(), trees);
        let t0 = taken(bs.drop_last(), trees);
        assert forall|i: int| 0 <= i < selectable(bs, trees).len() implies checked_out_in(
            trees,
            (#[trigger] selectable(bs, trees)[i]).0,
        ) is None by {
            if i < s0.len() {
                assert(selectable(bs, trees)[i] == s0[i]);
            }
        }
        assert forall|i: int| 0 <= i < taken(bs, trees).len() implies (checked_out_in(
            trees,
            (#[trigger] taken(bs, trees)[i]).0,
        ) matches Some(w) && (taken(bs, trees)[i]).1 == w.path@) by {
            if i < t0.len() {
                assert(taken(bs, trees)[i] == t0[i]);
            }
        }
    }
}

/// The number a `switch` line leads with is its worktree's number: a pick,
/// fzf's line or a typed number alike, maps straight back to that worktree.
pub proof fn lemma_switch_pick_round_trip(i: nat, w: Worktree, numw: nat, bw: nat, path: Seq<char>, len: usize)
    requires
        i < len,
    ensures
        picked_spec(switch_line(i, w, numw, bw, path)) == Some((i + 1) as usize),
        picked_spec(decimal(i + 1)) == Some((i + 1) as usize),
        crate::targets::check_index_spec((i + 1) as usize, len) == Ok::<usize, Seq<char>>(i as usize),
{
    let d = decimal(i + 1);
    crate::text::lemma_decimal_digits(i + 1);
    crate::text::lemma_decimal_parses(i + 1);
    crate::text::lemma_words_single(d);
    let lead = pad_left_spec(d, numw);
    let rest = "  "@ + pad_right_spec(label_spec(w), bw) + "  "@ + path;
    assert(switch_line(i, w, numw, bw, path) =~= lead + rest);
    assert(rest[0] == ' ') by {
        reveal_strlit("  ");
    }
    crate::text::lemma_words_concat(lead, rest);
    if d.len() < numw {
        let k = (numw - d.len()) as nat;
        crate::text::lemma_words_spaces(k);
        crate::text::lemma_words_concat(crate::text::spaces(k), d);
        assert(crate::text::spaces(k).last() == ' ');
        assert(words_spec(crate::text::spaces(k)) + words_spec(d) =~= seq![d]);
    }
    assert(words_spec(lead) == seq![d]);
    assert((seq![d] + words_spec(rest))[0] == d);
}

/// The number typed at the branch picker (then Enter) picks the branch
/// listed under it.
pub proof fn lemma_number_pick_round_trip(k: nat, n: nat)
    requires
        1 <= k <= n,
        n <= usize::MAX,
    ensures
        number_choice_spec(Some(decimal(k)), n) == Ok::<nat, Seq<char>>((k - 1) as nat),
        number_choice_spec(Some(decimal(k) + "\n"@), n) == Ok::<nat, Seq<char>>((k - 1) as nat),
{
    let d = decimal(k);
    crate::text::lemma_decimal_digits(k);
    crate::text::lemma_decimal_parses(k);
    let t = d + "\n"@;
    assert(t.drop_last() =~= d) by {
        reveal_strlit("\n");
    }
    assert(t.last() == '\n') by {
        reveal_strlit("\n");
    }
    assert(t[0] == d[0]);
    assert(!crate::text::is_ws(d[0]));
    assert(crate::text::trim_start_spec(t) == t);
    assert(crate::text::trim_start_spec(d) == d);
    assert(crate::text::trim_end_spec(t) == crate::text::trim_end_spec(d));
    assert(trim_spec(t) == d);
}

} // verus!
