//! The markdown report `--md` writes: the commit table as a file, each cell
//! escaped so that its text cannot be read as table syntax.

use vstd::prelude::*;

use crate::commits::files::{
    all_files, block_strictly_sorted, churn, consolidate_file_stats, squashed, stat_views,
    FileStat, FileStatSpec,
};
use crate::commits::rows::{
    glyph_spec, mark_spec, pick_views, row_views, CommitRow, CommitRowSpec, Mark, Pick,
};
use crate::style::{abbrev, abbrev_spec, PICK_HEAD};
use crate::text::{
    chars_of, decimal, decimal_of, member, push_all, push_str, str_views, string_of, widest,
};

verus! {

// ---------------------------------------------------------------------------
// Cells
// ---------------------------------------------------------------------------

/// One character of a cell as the report writes it: a backslash or a pipe
/// gets a backslash in front.
pub open spec fn escaped(c: char) -> Seq<char> {
    if c == '\\' {
        seq!['\\', '\\']
    } else if c == '|' {
        seq!['\\', '|']
    } else {
        seq![c]
    }
}

/// A cell's text, escaped character by character.
pub open spec fn md_cell_spec(s: Seq<char>) -> Seq<char>
    decreases s.len(),
{
    if s.len() == 0 {
        Seq::empty()
    } else {
        md_cell_spec(s.drop_last()) + escaped(s.last())
    }
}

/// Read left to right as markdown reads a cell (a backslash takes the next
/// character with it), `t` ends on a whole token and no token is a bare
/// `|`.
pub open spec fn cell_safe(t: Seq<char>) -> bool
    decreases t.len(),
{
    if t.len() == 0 {
        true
    } else if t[0] == '\\' {
        t.len() >= 2 && cell_safe(t.skip(2))
    } else {
        t[0] != '|' && cell_safe(t.skip(1))
    }
}

/// What markdown shows for a cell: each backslash dropped, the character
/// after it kept as it is.
pub open spec fn md_unescape(t: Seq<char>) -> Seq<char>
    decreases t.len(),
{
    if t.len() == 0 {
        Seq::empty()
    } else if t[0] == '\\' && t.len() >= 2 {
        seq![t[1]] + md_unescape(t.skip(2))
    } else {
        seq![t[0]] + md_unescape(t.skip(1))
    }
}

proof fn lemma_safe_concat(a: Seq<char>, b: Seq<char>)
    requires
        cell_safe(a),
        cell_safe(b),
    ensures
        cell_safe(a + b),
        md_unescape(a + b) == md_unescape(a) + md_unescape(b),
    decreases a.len(),
{
    if a.len() == 0 {
        assert(a + b =~= b);
        assert(md_unescape(a) =~= Seq::<char>::empty());
    } else if a[0] == '\\' {
        assert((a + b).skip(2) =~= a.skip(2) + b);
        lemma_safe_concat(a.skip(2), b);
        assert(md_unescape(a + b) =~= seq![a[1]] + md_unescape(a.skip(2) + b));
    } else {
        assert((a + b).skip(1) =~= a.skip(1) + b);
        lemma_safe_concat(a.skip(1), b);
        assert(md_unescape(a + b) =~= seq![a[0]] + md_unescape(a.skip(1) + b));
    }
}

proof fn lemma_escaped_char(c: char)
    ensures
        cell_safe(escaped(c)),
        md_unescape(escaped(c)) == seq![c],
{
    let e = escaped(c);
    if c == '\\' || c == '|' {
        assert(e.skip(2) =~= Seq::<char>::empty());
        assert(cell_safe(e.skip(2)));
        assert(md_unescape(e.skip(2)) =~= Seq::<char>::empty());
        assert(e[0] == '\\');
    } else {
        assert(e.skip(1) =~= Seq::<char>::empty());
        assert(cell_safe(e.skip(1)));
        assert(md_unescape(e.skip(1)) =~= Seq::<char>::empty());
        assert(e[0] == c);
    }
    assert(md_unescape(e) =~= seq![c]);
}

/// An escaped cell never holds a `|` that markdown would read as the end of
/// the cell, whatever the text: a subject cannot invent columns.
pub proof fn lemma_md_cell_cannot_invent_columns(s: Seq<char>)
    ensures
        cell_safe(md_cell_spec(s)),
    decreases s.len(),
{
    lemma_md_cell_round_trip(s);
}

/// Escaping loses nothing: what markdown shows for an escaped cell is the
/// text that went in.
pub proof fn lemma_md_cell_round_trip(s: Seq<char>)
    ensures
        cell_safe(md_cell_spec(s)),
        md_unescape(md_cell_spec(s)) == s,
    decreases s.len(),
{
    if s.len() == 0 {
        assert(md_unescape(Seq::<char>::empty()) =~= Seq::<char>::empty());
    } else {
        lemma_md_cell_round_trip(s.drop_last());
        lemma_escaped_char(s.last());
        lemma_safe_concat(md_cell_spec(s.drop_last()), escaped(s.last()));
        assert(s.drop_last() + seq![s.last()] =~= s);
    }
}

/// Append `s`, escaped, to `out`.
pub fn push_cell(out: &mut Vec<char>, s: &str)
    ensures
        final(out)@ == old(out)@ + md_cell_spec(s@),
{
    let cs = chars_of(s);
    let ghost base = out@;
    let mut i: usize = 0;
    while i < cs.len()
        invariant
            i <= cs.len(),
            cs@ == s@,
            out@ == base + md_cell_spec(s@.take(i as int)),
        decreases cs.len() - i,
    {
        assert(s@.take(i + 1).drop_last() =~= s@.take(i as int));
        assert(s@.take(i + 1).last() == cs@[i as int]);
        let c = cs[i];
        let ghost before = out@;
        if c == '\\' {
            out.push('\\');
            out.push('\\');
        } else if c == '|' {
            out.push('\\');
            out.push('|');
        } else {
            out.push(c);
        }
        assert(out@ =~= before + escaped(c));
        assert(base + md_cell_spec(s@.take(i as int)) + escaped(c) =~= base + (md_cell_spec(
            s@.take(i as int),
        ) + escaped(c)));
        i = i + 1;
    }
    assert(s@.take(cs.len() as int) =~= s@);
}

/// Escape a cell so that its content cannot be read as table syntax: a
/// backslash is doubled, then a `|` gets a backslash.
pub fn md_cell(s: &str) -> (r: String)
    ensures
        r@ == md_cell_spec(s@),
{
    let mut out: Vec<char> = Vec::new();
    push_cell(&mut out, s);
    assert(Seq::<char>::empty() + md_cell_spec(s@) =~= md_cell_spec(s@));
    string_of(out.as_slice())
}

// ---------------------------------------------------------------------------
// Heading
// ---------------------------------------------------------------------------

/// What a report calls itself: `commits`, `log` and `merge --review` all
/// write one, and each names its own command and what its labels are.
pub struct MdHead {
    pub title: &'static str,
    /// The word before the labels list.
    pub labels: &'static str,
}

impl MdHead {
    pub fn commits() -> (h: MdHead)
        ensures
            h.title@ == "git-wt commits"@,
            h.labels@ == "Worktrees"@,
    {
        MdHead { title: "git-wt commits", labels: "Worktrees" }
    }

    pub fn review() -> (h: MdHead)
        ensures
            h.title@ == "git-wt merge --review"@,
            h.labels@ == "Merging"@,
    {
        MdHead { title: "git-wt merge --review", labels: "Merging" }
    }

    pub fn log() -> (h: MdHead)
        ensures
            h.title@ == "git-wt log"@,
            h.labels@ == "Branches"@,
    {
        MdHead { title: "git-wt log", labels: "Branches" }
    }
}

/// A label in backticks, escaped.
pub open spec fn ticked(s: Seq<char>) -> Seq<char> {
    "`"@ + md_cell_spec(s) + "`"@
}

/// The labels, each in backticks, joined by `, `.
pub open spec fn ticked_list(ls: Seq<Seq<char>>) -> Seq<char>
    decreases ls.len(),
{
    if ls.len() == 0 {
        Seq::empty()
    } else if ls.len() == 1 {
        ticked(ls[0])
    } else {
        ticked_list(ls.drop_last()) + ", "@ + ticked(ls.last())
    }
}

/// `items` joined by `sep`.
pub open spec fn joined(items: Seq<Seq<char>>, sep: Seq<char>) -> Seq<char>
    decreases items.len(),
{
    if items.len() == 0 {
        Seq::empty()
    } else if items.len() == 1 {
        items[0]
    } else {
        joined(items.drop_last(), sep) + sep + items.last()
    }
}

/// The report's first lines: title, the command that made it, whose log it
/// is, and how many commits it holds.
pub open spec fn md_head_spec(
    title: Seq<char>,
    word: Seq<char>,
    cmd: Seq<char>,
    labels: Seq<Seq<char>>,
    n: nat,
) -> Seq<char> {
    "# "@ + title + "\n\n"@ + "- Command: `"@ + md_cell_spec(cmd) + "`\n"@ + "- "@ + word + ": "@
        + ticked_list(labels) + "\n"@ + "- Commits: "@ + decimal(n) + "\n"@
}

fn push_ticked_list(out: &mut Vec<char>, labels: &[String])
    ensures
        final(out)@ == old(out)@ + ticked_list(str_views(labels@)),
{
    let ghost base = out@;
    let ghost ls = str_views(labels@);
    let mut i: usize = 0;
    while i < labels.len()
        invariant
            i <= labels.len(),
            ls == str_views(labels@),
            out@ == base + ticked_list(ls.take(i as int)),
        decreases labels.len() - i,
    {
        let ghost before = out@;
        if i > 0 {
            push_str(out, ", ");
        }
        let ghost mid = out@;
        push_str(out, "`");
        push_cell(out, labels[i].as_str());
        push_str(out, "`");
        assert(ls.take(i + 1).drop_last() =~= ls.take(i as int));
        assert(ls.take(i + 1).last() == labels@[i as int]@);
        if i == 0 {
            assert(ls.take(0) =~= Seq::<Seq<char>>::empty());
            assert(out@ =~= base + ticked_list(ls.take(i + 1)));
        } else {
            assert(out@ =~= base + ticked_list(ls.take(i + 1)));
        }
        i = i + 1;
    }
    assert(ls.take(labels.len() as int) =~= ls);
}

fn md_head(head: &MdHead, cmd: &str, labels: &[String], n: usize) -> (r: Vec<char>)
    ensures
        r@ == md_head_spec(head.title@, head.labels@, cmd@, str_views(labels@), n as nat),
{
    let mut out: Vec<char> = Vec::new();
    push_str(&mut out, "# ");
    push_str(&mut out, head.title);
    push_str(&mut out, "\n\n");
    push_str(&mut out, "- Command: `");
    push_cell(&mut out, cmd);
    push_str(&mut out, "`\n");
    push_str(&mut out, "- ");
    push_str(&mut out, head.labels);
    push_str(&mut out, ": ");
    push_ticked_list(&mut out, labels);
    push_str(&mut out, "\n");
    push_str(&mut out, "- Commits: ");
    let d = decimal_of(n);
    push_all(&mut out, d.as_slice());
    push_str(&mut out, "\n");
    assert(out@ =~= md_head_spec(head.title@, head.labels@, cmd@, str_views(labels@), n as nat));
    out
}

// ---------------------------------------------------------------------------
// Legend
// ---------------------------------------------------------------------------

/// The mark columns, each as the set of shas it reads.
pub open spec fn set_views(v: Seq<Vec<String>>) -> Seq<Seq<Seq<char>>> {
    v.map_values(|s: Vec<String>| str_views(s@))
}

/// Some shown row is in some column's set: the table prints a `✓`.
pub open spec fn any_has(rows: Seq<CommitRowSpec>, sets: Seq<Seq<Seq<char>>>) -> bool {
    exists|i: int, j: int|
        0 <= i < rows.len() && 0 <= j < sets.len() && (#[trigger] sets[j]).contains(
            (#[trigger] rows[i]).sha,
        )
}

/// Some column's set is not empty.
pub open spec fn any_nonempty(v: Seq<Vec<String>>) -> bool {
    exists|j: int| 0 <= j < v.len() && (#[trigger] v[j]).len() > 0
}

/// The glyphs the table can carry, each named once.
pub open spec fn legend_items(has: bool, eq: bool, tr: bool, am: bool) -> Seq<Seq<char>> {
    let a: Seq<Seq<char>> = if has {
        seq!["`✓` has the commit"@]
    } else {
        Seq::empty()
    };
    let b = if eq {
        a.push("`≈` has the same patch under another sha"@)
    } else {
        a
    };
    let c = if tr {
        b.push("`←` picked via `-x` trailer from this commit"@)
    } else {
        b
    };
    if am {
        c.push("`~` same author/date/subject under another sha"@)
    } else {
        c
    }
}

/// The legend line: only with mark columns, only naming what the table can
/// carry, and `·` only beside something else.
pub open spec fn legend_spec(no_columns: bool, has: bool, eq: bool, tr: bool, am: bool) -> Seq<char> {
    let items = legend_items(has, eq, tr, am);
    if no_columns || items.len() == 0 {
        Seq::empty()
    } else {
        "- Legend: "@ + joined(items.push("`·` has neither"@), " · "@) + "\n"@
    }
}

/// Appends `item` to a list joined by `sep`: after `sep` unless it is the
/// first.
pub(crate) fn push_joined(
    out: &mut Vec<char>,
    Ghost(items): Ghost<Seq<Seq<char>>>,
    first: bool,
    item: &[char],
    sep: &str,
)
    requires
        old(out)@ == joined(items, sep@),
        first == (items.len() == 0),
    ensures
        final(out)@ == joined(items.push(item@), sep@),
{
    if !first {
        push_str(out, sep);
        push_all(out, item);
        assert(items.push(item@).drop_last() =~= items);
        assert(out@ =~= joined(items.push(item@), sep@));
    } else {
        assert(joined(items, sep@) =~= Seq::<char>::empty());
        push_all(out, item);
        assert(out@ =~= joined(items.push(item@), sep@));
    }
}

pub(crate) fn any_has_row(rows: &[CommitRow], sets: &[Vec<String>]) -> (r: bool)
    ensures
        r == any_has(row_views(rows@), set_views(sets@)),
{
    let ghost rv = row_views(rows@);
    let ghost sv = set_views(sets@);
    let mut i: usize = 0;
    while i < rows.len()
        invariant
            i <= rows.len(),
            rv == row_views(rows@),
            sv == set_views(sets@),
            sv.len() == sets.len(),
            rv.len() == rows.len(),
            forall|a: int, b: int| 0 <= a < i && 0 <= b < sv.len() ==> !(#[trigger] sv[b]).contains(
                (#[trigger] rv[a]).sha,
            ),
        decreases rows.len() - i,
    {
        let mut j: usize = 0;
        while j < sets.len()
            invariant
                i < rows.len(),
                j <= sets.len(),
                rv == row_views(rows@),
                sv == set_views(sets@),
                sv.len() == sets.len(),
                rv.len() == rows.len(),
                forall|a: int, b: int| 0 <= a < i && 0 <= b < sv.len() ==> !(#[trigger] sv[b]).contains(
                    (#[trigger] rv[a]).sha,
                ),
                forall|b: int| 0 <= b < j ==> !(#[trigger] sv[b]).contains(rv[i as int].sha),
            decreases sets.len() - j,
        {
            assert(sv[j as int] == str_views(sets@[j as int]@));
            assert(rv[i as int].sha == rows@[i as int].sha@);
            if member(sets[j].as_slice(), rows[i].sha.as_str()) {
                assert(sv[j as int].contains(rv[i as int].sha));
                return true;
            }
            j = j + 1;
        }
        i = i + 1;
    }
    false
}

pub(crate) fn any_filled(v: &[Vec<String>]) -> (r: bool)
    ensures
        r == any_nonempty(v@),
{
    let mut j: usize = 0;
    while j < v.len()
        invariant
            j <= v.len(),
            forall|b: int| 0 <= b < j ==> (#[trigger] v@[b]).len() == 0,
        decreases v.len() - j,
    {
        if v[j].len() > 0 {
            assert(v@[j as int].len() > 0);
            return true;
        }
        j = j + 1;
    }
    false
}

fn md_legend(no_columns: bool, has: bool, eq: bool, tr: bool, am: bool) -> (r: Vec<char>)
    ensures
        r@ == legend_spec(no_columns, has, eq, tr, am),
{
    let mut items: Vec<char> = Vec::new();
    let ghost mut names: Seq<Seq<char>> = Seq::empty();
    let mut count: usize = 0;
    assert(items@ =~= joined(names, " · "@));
    if has {
        let it = chars_of("`✓` has the commit");
        push_joined(&mut items, Ghost(names), count == 0, it.as_slice(), " · ");
        proof {
            names = names.push("`✓` has the commit"@);
        }
        count = count + 1;
    }
    if eq {
        let it = chars_of("`≈` has the same patch under another sha");
        push_joined(&mut items, Ghost(names), count == 0, it.as_slice(), " · ");
        proof {
            names = names.push("`≈` has the same patch under another sha"@);
        }
        count = count + 1;
    }
    if tr {
        let it = chars_of("`←` picked via `-x` trailer from this commit");
        push_joined(&mut items, Ghost(names), count == 0, it.as_slice(), " · ");
        proof {
            names = names.push("`←` picked via `-x` trailer from this commit"@);
        }
        count = count + 1;
    }
    if am {
        let it = chars_of("`~` same author/date/subject under another sha");
        push_joined(&mut items, Ghost(names), count == 0, it.as_slice(), " · ");
        proof {
            names = names.push("`~` same author/date/subject under another sha"@);
        }
        count = count + 1;
    }
    assert(names =~= legend_items(has, eq, tr, am));
    let mut out: Vec<char> = Vec::new();
    if no_columns || !(has || eq || tr || am) {
        assert(out@ =~= legend_spec(no_columns, has, eq, tr, am));
        return out;
    }
    assert(names.len() > 0);
    let it = chars_of("`·` has neither");
    push_joined(&mut items, Ghost(names), false, it.as_slice(), " · ");
    push_str(&mut out, "- Legend: ");
    push_all(&mut out, items.as_slice());
    push_str(&mut out, "\n");
    assert(out@ =~= legend_spec(no_columns, has, eq, tr, am));
    out
}


// ---------------------------------------------------------------------------
// Table
// ---------------------------------------------------------------------------

/// One header cell per mark column.
pub open spec fn name_cells(names: Seq<Seq<char>>) -> Seq<char>
    decreases names.len(),
{
    if names.len() == 0 {
        Seq::empty()
    } else {
        name_cells(names.drop_last()) + " "@ + md_cell_spec(names.last()) + " |"@
    }
}

/// `s`, `n` times over.
pub open spec fn repeated(s: Seq<char>, n: nat) -> Seq<char>
    decreases n,
{
    if n == 0 {
        Seq::empty()
    } else {
        repeated(s, (n - 1) as nat) + s
    }
}

/// The header row and the alignment row: commit, the pick column when
/// there is one, author, date, a centred column per name, subject.
pub open spec fn table_head_spec(names: Seq<Seq<char>>, picks: bool) -> Seq<char> {
    "| commit |"@ + (if picks {
        " "@ + PICK_HEAD@ + " |"@
    } else {
        Seq::empty()
    }) + " author | date |"@ + name_cells(names) + " subject |\n|---|"@ + (if picks {
        "---|"@
    } else {
        Seq::empty()
    }) + "---|---|"@ + repeated(":-:|"@, names.len()) + "---|\n"@
}

fn md_table_head(names: &[String], picks: bool) -> (r: Vec<char>)
    ensures
        r@ == table_head_spec(str_views(names@), picks),
{
    let ghost ns = str_views(names@);
    let mut out: Vec<char> = Vec::new();
    push_str(&mut out, "| commit |");
    if picks {
        push_str(&mut out, " ");
        push_str(&mut out, PICK_HEAD);
        push_str(&mut out, " |");
    }
    push_str(&mut out, " author | date |");
    let ghost before = out@;
    let mut i: usize = 0;
    while i < names.len()
        invariant
            i <= names.len(),
            ns == str_views(names@),
            out@ == before + name_cells(ns.take(i as int)),
        decreases names.len() - i,
    {
        push_str(&mut out, " ");
        push_cell(&mut out, names[i].as_str());
        push_str(&mut out, " |");
        assert(ns.take(i + 1).drop_last() =~= ns.take(i as int));
        assert(ns.take(i + 1).last() == names@[i as int]@);
        assert(out@ =~= before + name_cells(ns.take(i + 1)));
        i = i + 1;
    }
    assert(ns.take(names.len() as int) =~= ns);
    push_str(&mut out, " subject |\n|---|");
    if picks {
        push_str(&mut out, "---|");
    }
    push_str(&mut out, "---|---|");
    let ghost mid = out@;
    let mut k: usize = 0;
    while k < names.len()
        invariant
            k <= names.len(),
            out@ == mid + repeated(":-:|"@, k as nat),
        decreases names.len() - k,
    {
        push_str(&mut out, ":-:|");
        assert(out@ =~= mid + repeated(":-:|"@, (k + 1) as nat));
        k = k + 1;
    }
    push_str(&mut out, "---|\n");
    assert(out@ =~= table_head_spec(ns, picks));
    out
}

/// The other sha a commit's patch was committed under, if the picks name
/// one: the first entry for the commit.
pub open spec fn pick_for(picks: Seq<(Seq<char>, Seq<char>)>, sha: Seq<char>) -> Option<Seq<char>>
    decreases picks.len(),
{
    if picks.len() == 0 {
        None
    } else if picks[0].0 == sha {
        Some(picks[0].1)
    } else {
        pick_for(picks.drop_first(), sha)
    }
}

/// A count as the report prints it, `-` where git gave none.
pub open spec fn count_or_dash(n: Option<usize>) -> Seq<char> {
    match n {
        Some(v) => decimal(v as nat),
        None => "-"@,
    }
}

/// The pick cell: the other sha cut to the sha width, or blank.
pub open spec fn pick_cell_spec(
    picks: Option<Seq<(Seq<char>, Seq<char>)>>,
    sha: Seq<char>,
    shaw: nat,
) -> Seq<char> {
    match picks {
        None => Seq::empty(),
        Some(p) => match pick_for(p, sha) {
            Some(o) => " `"@ + md_cell_spec(abbrev_spec(o, shaw)) + "` |"@,
            None => "  |"@,
        },
    }
}

/// The first `n` mark cells of a row.
pub open spec fn mark_cells(
    sha: Seq<char>,
    sets: Seq<Seq<Seq<char>>>,
    equiv: Seq<Seq<Seq<char>>>,
    trailer: Seq<Seq<Seq<char>>>,
    author_match: Seq<Seq<Seq<char>>>,
    n: nat,
) -> Seq<char>
    decreases n,
{
    if n == 0 {
        Seq::empty()
    } else {
        let k = n - 1;
        mark_cells(sha, sets, equiv, trailer, author_match, (n - 1) as nat) + " "@ + glyph_spec(
            mark_spec(sha, sets[k], equiv[k], trailer[k], author_match[k]),
        ) + " |"@
    }
}

/// Lines, each escaped and ended by `<br>`.
pub open spec fn br_lines(ls: Seq<Seq<char>>) -> Seq<char>
    decreases ls.len(),
{
    if ls.len() == 0 {
        Seq::empty()
    } else {
        br_lines(ls.drop_last()) + md_cell_spec(ls.last()) + "<br>"@
    }
}

/// The body lines a row was kept for, below its subject.
pub open spec fn body_part(b: Option<(Seq<Seq<char>>, usize)>) -> Seq<char> {
    match b {
        Some(p) => if p.0.len() == 0 {
            Seq::empty()
        } else {
            "<br><br>"@ + br_lines(p.0) + (if p.1 > 0 {
                "+"@ + decimal(p.1 as nat) + " more<br>"@
            } else {
                Seq::empty()
            })
        },
        None => Seq::empty(),
    }
}

/// One file of a row's block: status, path, both counts.
pub open spec fn file_br(f: FileStatSpec) -> Seq<char> {
    seq![f.status] + " "@ + md_cell_spec(f.path) + " +"@ + count_or_dash(f.added) + " -"@
        + count_or_dash(f.removed) + "<br>"@
}

pub open spec fn file_brs(fs: Seq<FileStatSpec>) -> Seq<char>
    decreases fs.len(),
{
    if fs.len() == 0 {
        Seq::empty()
    } else {
        file_brs(fs.drop_last()) + file_br(fs.last())
    }
}

/// The files a row touched, below its subject.
pub open spec fn file_part(fs: Option<Seq<FileStatSpec>>) -> Seq<char> {
    match fs {
        Some(f) => if f.len() == 0 {
            Seq::empty()
        } else {
            "<br><br>"@ + file_brs(f)
        },
        None => Seq::empty(),
    }
}

/// The per-row bodies as values.
pub open spec fn body_views(v: Seq<(Vec<String>, usize)>) -> Seq<(Seq<Seq<char>>, usize)> {
    v.map_values(|b: (Vec<String>, usize)| (str_views(b.0@), b.1))
}

/// The per-row file blocks as values.
pub open spec fn files_views(v: Seq<Vec<FileStat>>) -> Seq<Seq<FileStatSpec>> {
    v.map_values(|f: Vec<FileStat>| stat_views(f@))
}

pub open spec fn nth<T>(v: Seq<T>, i: int) -> Option<T> {
    if 0 <= i < v.len() {
        Some(v[i])
    } else {
        None
    }
}

/// The widest short sha the rows print.
pub open spec fn sha_width(rows: Seq<CommitRowSpec>) -> nat {
    widest(rows.map_values(|r: CommitRowSpec| r.short))
}

/// Everything a row's line reads besides the row itself.
pub struct MdTable {
    pub sets: Seq<Seq<Seq<char>>>,
    pub equiv: Seq<Seq<Seq<char>>>,
    pub trailer: Seq<Seq<Seq<char>>>,
    pub author_match: Seq<Seq<Seq<char>>>,
    pub picks: Option<Seq<(Seq<char>, Seq<char>)>>,
    pub bodies: Seq<(Seq<Seq<char>>, usize)>,
    pub files: Seq<Seq<FileStatSpec>>,
    pub squash: bool,
    pub shaw: nat,
}

/// Row `i`'s line: sha, pick, author, date, a mark per column, then the
/// subject with the body lines and (unless squashed) the files below it.
pub open spec fn md_row_spec(r: CommitRowSpec, i: int, t: MdTable) -> Seq<char> {
    row_lead(r, t) + mark_cells(r.sha, t.sets, t.equiv, t.trailer, t.author_match, t.sets.len())
        + row_subject(r, i, t) + " |\n"@
}

/// A row's cells up to the marks: sha, pick, author, date.
pub open spec fn row_lead(r: CommitRowSpec, t: MdTable) -> Seq<char> {
    "| `"@ + md_cell_spec(r.short) + "` |"@ + pick_cell_spec(t.picks, r.sha, t.shaw) + " "@
        + md_cell_spec(r.author) + " | "@ + md_cell_spec(r.date) + " |"@
}

/// A row's subject cell, with the body lines and (unless squashed) the
/// files below the subject.
pub open spec fn row_subject(r: CommitRowSpec, i: int, t: MdTable) -> Seq<char> {
    " "@ + md_cell_spec(r.text) + body_part(nth(t.bodies, i)) + (if t.squash {
        Seq::empty()
    } else {
        file_part(nth(t.files, i))
    })
}

/// The rows' lines, in order.
pub open spec fn md_rows_spec(rows: Seq<CommitRowSpec>, t: MdTable) -> Seq<char>
    decreases rows.len(),
{
    if rows.len() == 0 {
        Seq::empty()
    } else {
        md_rows_spec(rows.drop_last(), t) + md_row_spec(rows.last(), rows.len() - 1, t)
    }
}

fn push_count(out: &mut Vec<char>, n: Option<usize>)
    ensures
        final(out)@ == old(out)@ + count_or_dash(n),
{
    match n {
        Some(v) => {
            let d = decimal_of(v);
            push_all(out, d.as_slice());
        },
        None => push_str(out, "-"),
    }
}

pub(crate) fn find_pick(picks: &[Pick], sha: &str) -> (r: Option<usize>)
    ensures
        r matches Some(k) ==> k < picks.len() && pick_for(pick_views(picks@), sha@) == Some(
            picks@[k as int].other@,
        ),
        r is None ==> pick_for(pick_views(picks@), sha@) is None,
{
    let ghost pv = pick_views(picks@);
    let mut i: usize = 0;
    assert(pv.skip(0) =~= pv);
    while i < picks.len()
        invariant
            i <= picks.len(),
            pv == pick_views(picks@),
            pick_for(pv.skip(i as int), sha@) == pick_for(pv, sha@),
        decreases picks.len() - i,
    {
        let one: Vec<String> = vec![picks[i].sha.clone()];
        assert(pv.skip(i as int)[0] == (picks@[i as int].sha@, picks@[i as int].other@));
        assert(pv.skip(i as int).drop_first() =~= pv.skip(i + 1));
        if member(one.as_slice(), sha) {
            assert(str_views(one@)[0] == picks@[i as int].sha@);
            assert(str_views(one@).contains(sha@) ==> picks@[i as int].sha@ == sha@);
            return Some(i);
        }
        assert(str_views(one@)[0] == picks@[i as int].sha@);
        assert(picks@[i as int].sha@ != sha@);
        i = i + 1;
    }
    assert(pv.skip(i as int) =~= Seq::<(Seq<char>, Seq<char>)>::empty());
    None
}

fn push_marks(
    out: &mut Vec<char>,
    sha: &str,
    sets: &[Vec<String>],
    equiv: &[Vec<String>],
    trailer: &[Vec<String>],
    author_match: &[Vec<String>],
)
    requires
        equiv.len() >= sets.len(),
        trailer.len() >= sets.len(),
        author_match.len() >= sets.len(),
    ensures
        final(out)@ == old(out)@ + mark_cells(
            sha@,
            set_views(sets@),
            set_views(equiv@),
            set_views(trailer@),
            set_views(author_match@),
            sets.len() as nat,
        ),
{
    let ghost base = out@;
    let mut col: usize = 0;
    while col < sets.len()
        invariant
            col <= sets.len(),
            equiv.len() >= sets.len(),
            trailer.len() >= sets.len(),
            author_match.len() >= sets.len(),
            out@ == base + mark_cells(
                sha@,
                set_views(sets@),
                set_views(equiv@),
                set_views(trailer@),
                set_views(author_match@),
                col as nat,
            ),
        decreases sets.len() - col,
    {
        let m = Mark::of(
            sha,
            sets[col].as_slice(),
            equiv[col].as_slice(),
            trailer[col].as_slice(),
            author_match[col].as_slice(),
        );
        push_str(out, " ");
        push_str(out, m.glyph());
        push_str(out, " |");
        assert(out@ =~= base + mark_cells(
            sha@,
            set_views(sets@),
            set_views(equiv@),
            set_views(trailer@),
            set_views(author_match@),
            (col + 1) as nat,
        ));
        col = col + 1;
    }
}

fn push_body(out: &mut Vec<char>, bodies: &[(Vec<String>, usize)], i: usize)
    ensures
        final(out)@ == old(out)@ + body_part(nth(body_views(bodies@), i as int)),
{
    if i >= bodies.len() {
        return;
    }
    let lines = &bodies[i].0;
    let extra = bodies[i].1;
    let ghost ls = str_views(lines@);
    assert(body_views(bodies@)[i as int] == (ls, extra));
    if lines.len() == 0 {
        return;
    }
    let ghost base = out@;
    push_str(out, "<br><br>");
    let ghost mid = out@;
    let mut k: usize = 0;
    while k < lines.len()
        invariant
            k <= lines.len(),
            ls == str_views(lines@),
            out@ == mid + br_lines(ls.take(k as int)),
        decreases lines.len() - k,
    {
        push_cell(out, lines[k].as_str());
        push_str(out, "<br>");
        assert(ls.take(k + 1).drop_last() =~= ls.take(k as int));
        assert(ls.take(k + 1).last() == lines@[k as int]@);
        assert(out@ =~= mid + br_lines(ls.take(k + 1)));
        k = k + 1;
    }
    assert(ls.take(lines.len() as int) =~= ls);
    if extra > 0 {
        push_str(out, "+");
        let d = decimal_of(extra);
        push_all(out, d.as_slice());
        push_str(out, " more<br>");
    }
    assert(out@ =~= base + body_part(nth(body_views(bodies@), i as int)));
}

fn push_file_br(out: &mut Vec<char>, f: &FileStat)
    ensures
        final(out)@ == old(out)@ + file_br(f@),
{
    let ghost base = out@;
    out.push(f.status);
    push_str(out, " ");
    push_cell(out, f.path.as_str());
    push_str(out, " +");
    push_count(out, f.added);
    push_str(out, " -");
    push_count(out, f.removed);
    push_str(out, "<br>");
    assert(out@ =~= base + file_br(f@));
}

fn push_files(out: &mut Vec<char>, files: &[Vec<FileStat>], i: usize)
    ensures
        final(out)@ == old(out)@ + file_part(nth(files_views(files@), i as int)),
{
    if i >= files.len() {
        return;
    }
    let fs = &files[i];
    let ghost v = stat_views(fs@);
    assert(files_views(files@)[i as int] == v);
    if fs.len() == 0 {
        return;
    }
    let ghost base = out@;
    push_str(out, "<br><br>");
    let ghost mid = out@;
    let mut k: usize = 0;
    while k < fs.len()
        invariant
            k <= fs.len(),
            v == stat_views(fs@),
            out@ == mid + file_brs(v.take(k as int)),
        decreases fs.len() - k,
    {
        push_file_br(out, &fs[k]);
        assert(v.take(k + 1).drop_last() =~= v.take(k as int));
        assert(v.take(k + 1).last() == fs@[k as int]@);
        assert(out@ =~= mid + file_brs(v.take(k + 1)));
        k = k + 1;
    }
    assert(v.take(fs.len() as int) =~= v);
    assert(out@ =~= base + file_part(nth(files_views(files@), i as int)));
}


fn push_lead(
    out: &mut Vec<char>,
    row: &CommitRow,
    Ghost(t): Ghost<MdTable>,
    picks: Option<&[Pick]>,
    shaw: usize,
)
    requires
        t.picks == (match picks {
            Some(p) => Some(pick_views(p@)),
            None => None,
        }),
        t.shaw == shaw,
    ensures
        final(out)@ == old(out)@ + row_lead(row@, t),
{
    let ghost base = out@;
    push_str(out, "| `");
    push_cell(out, row.short.as_str());
    push_str(out, "` |");
    let ghost at_pick = out@;
    match picks {
        Some(p) => match find_pick(p, row.sha.as_str()) {
            Some(k) => {
                push_str(out, " `");
                let a = abbrev(p[k].other.as_str(), shaw);
                push_cell(out, a.as_str());
                push_str(out, "` |");
            },
            None => push_str(out, "  |"),
        },
        None => {},
    }
    assert(out@ =~= at_pick + pick_cell_spec(t.picks, row.sha@, t.shaw));
    push_str(out, " ");
    push_cell(out, row.author.as_str());
    push_str(out, " | ");
    push_cell(out, row.date.as_str());
    push_str(out, " |");
    assert(out@ =~= base + row_lead(row@, t));
}

fn push_subject(
    out: &mut Vec<char>,
    row: &CommitRow,
    i: usize,
    Ghost(t): Ghost<MdTable>,
    bodies: &[(Vec<String>, usize)],
    files: &[Vec<FileStat>],
    squash: bool,
)
    requires
        t.bodies == body_views(bodies@),
        t.files == files_views(files@),
        t.squash == squash,
    ensures
        final(out)@ == old(out)@ + row_subject(row@, i as int, t),
{
    let ghost base = out@;
    push_str(out, " ");
    push_cell(out, row.text.as_str());
    push_body(out, bodies, i);
    let ghost at_files = out@;
    if !squash {
        push_files(out, files, i);
    }
    assert(out@ =~= at_files + (if t.squash {
        Seq::<char>::empty()
    } else {
        file_part(nth(t.files, i as int))
    }));
    assert(out@ =~= base + row_subject(row@, i as int, t));
}

fn push_row(
    out: &mut Vec<char>,
    row: &CommitRow,
    i: usize,
    Ghost(t): Ghost<MdTable>,
    sets: &[Vec<String>],
    equiv: &[Vec<String>],
    trailer: &[Vec<String>],
    author_match: &[Vec<String>],
    picks: Option<&[Pick]>,
    shaw: usize,
    bodies: &[(Vec<String>, usize)],
    files: &[Vec<FileStat>],
    squash: bool,
)
    requires
        equiv.len() >= sets.len(),
        trailer.len() >= sets.len(),
        author_match.len() >= sets.len(),
        t.sets == set_views(sets@),
        t.equiv == set_views(equiv@),
        t.trailer == set_views(trailer@),
        t.author_match == set_views(author_match@),
        t.picks == (match picks {
            Some(p) => Some(pick_views(p@)),
            None => None,
        }),
        t.bodies == body_views(bodies@),
        t.files == files_views(files@),
        t.squash == squash,
        t.shaw == shaw,
    ensures
        final(out)@ == old(out)@ + md_row_spec(row@, i as int, t),
{
    let ghost base = out@;
    push_lead(out, row, Ghost(t), picks, shaw);
    let ghost a = out@;
    push_marks(out, row.sha.as_str(), sets, equiv, trailer, author_match);
    let ghost b = out@;
    push_subject(out, row, i, Ghost(t), bodies, files, squash);
    let ghost c = out@;
    push_str(out, " |\n");
    assert(out@ =~= base + md_row_spec(row@, i as int, t));
}

// ---------------------------------------------------------------------------
// The consolidated block
// ---------------------------------------------------------------------------

/// One file of the `--squash` block, as a table row.
pub open spec fn squash_line(f: FileStatSpec) -> Seq<char> {
    "| "@ + seq![f.status] + " | "@ + md_cell_spec(f.path) + " | "@ + count_or_dash(f.added) + " | "@
        + count_or_dash(f.removed) + " |\n"@
}

pub open spec fn squash_lines(fs: Seq<FileStatSpec>) -> Seq<char>
    decreases fs.len(),
{
    if fs.len() == 0 {
        Seq::empty()
    } else {
        squash_lines(fs.drop_last()) + squash_line(fs.last())
    }
}

/// The block `--squash` puts below the table: every file the shown commits
/// touched, as a table of its own; nothing when there is none.
pub open spec fn squash_block_spec(fs: Seq<FileStatSpec>) -> Seq<char> {
    if fs.len() == 0 {
        Seq::empty()
    } else {
        "\n## Consolidated files\n\n"@ + "| status | file | +added | -removed |\n|---|---|--:|--:|\n"@
            + squash_lines(fs)
    }
}

fn md_squash_block(fs: &[FileStat]) -> (r: Vec<char>)
    ensures
        r@ == squash_block_spec(stat_views(fs@)),
{
    let ghost v = stat_views(fs@);
    let mut out: Vec<char> = Vec::new();
    if fs.len() == 0 {
        assert(out@ =~= squash_block_spec(v));
        return out;
    }
    push_str(&mut out, "\n## Consolidated files\n\n");
    push_str(&mut out, "| status | file | +added | -removed |\n|---|---|--:|--:|\n");
    let ghost mid = out@;
    let mut k: usize = 0;
    while k < fs.len()
        invariant
            k <= fs.len(),
            v == stat_views(fs@),
            out@ == mid + squash_lines(v.take(k as int)),
        decreases fs.len() - k,
    {
        let ghost before = out@;
        let f = &fs[k];
        push_str(&mut out, "| ");
        out.push(f.status);
        push_str(&mut out, " | ");
        push_cell(&mut out, f.path.as_str());
        push_str(&mut out, " | ");
        push_count(&mut out, f.added);
        push_str(&mut out, " | ");
        push_count(&mut out, f.removed);
        push_str(&mut out, " |\n");
        assert(out@ =~= before + squash_line(f@));
        assert(v.take(k + 1).drop_last() =~= v.take(k as int));
        assert(v.take(k + 1).last() == fs@[k as int]@);
        assert(out@ =~= mid + squash_lines(v.take(k + 1)));
        k = k + 1;
    }
    assert(v.take(fs.len() as int) =~= v);
    assert(out@ =~= squash_block_spec(v));
    out
}

// ---------------------------------------------------------------------------
// The report
// ---------------------------------------------------------------------------

/// `c` is the `--squash` block of the files `fs`: one entry per path in
/// block order (status, then path), each the path's changes summed, no
/// path left out.
pub open spec fn consolidation(fs: Seq<FileStatSpec>, c: Seq<FileStatSpec>) -> bool {
    &&& block_strictly_sorted(c)
    &&& forall|i: int| 0 <= i < c.len() ==> squashed(#[trigger] c[i], fs)
    &&& forall|j: int|
        0 <= j < fs.len() ==> exists|i: int| 0 <= i < c.len() && (#[trigger] c[i]).path == (
        #[trigger] fs[j]).path
}

/// Everything above the `--squash` block: heading, legend, the pick note,
/// the table.
pub open spec fn md_body_spec(
    title: Seq<char>,
    word: Seq<char>,
    cmd: Seq<char>,
    labels: Seq<Seq<char>>,
    rows: Seq<CommitRowSpec>,
    names: Seq<Seq<char>>,
    t: MdTable,
) -> Seq<char> {
    md_head_spec(title, word, cmd, labels, rows.len()) + legend_spec(
        names.len() == 0,
        any_has(rows, t.sets),
        exists|j: int| 0 <= j < t.equiv.len() && (#[trigger] t.equiv[j]).len() > 0,
        exists|j: int| 0 <= j < t.trailer.len() && (#[trigger] t.trailer[j]).len() > 0,
        exists|j: int| 0 <= j < t.author_match.len() && (#[trigger] t.author_match[j]).len() > 0,
    ) + (if t.picks is Some {
        "- `pick`: the sha that other copy of the patch was committed under\n"@
    } else {
        Seq::empty()
    }) + "\n"@ + table_head_spec(names, t.picks is Some) + md_rows_spec(rows, t)
}

/// The report's text: heading, legend, the table with every cell escaped
/// and no subject cut, and under `--squash` the consolidated file block.
#[verifier::rlimit(40)]
pub fn md_report(
    head: &MdHead,
    cmd: &str,
    labels: &[String],
    rows: &[CommitRow],
    names: &[String],
    sets: &[Vec<String>],
    equiv: &[Vec<String>],
    trailer: &[Vec<String>],
    author_match: &[Vec<String>],
    picks: Option<&[Pick]>,
    row_bodies: &[(Vec<String>, usize)],
    row_files: &[Vec<FileStat>],
    squash: bool,
) -> (r: String)
    requires
        equiv.len() >= sets.len(),
        trailer.len() >= sets.len(),
        author_match.len() >= sets.len(),
        squash ==> churn(all_files(row_files@)) <= usize::MAX,
    ensures
        ({
            let t = MdTable {
                sets: set_views(sets@),
                equiv: set_views(equiv@),
                trailer: set_views(trailer@),
                author_match: set_views(author_match@),
                picks: match picks {
                    Some(p) => Some(pick_views(p@)),
                    None => None,
                },
                bodies: body_views(row_bodies@),
                files: files_views(row_files@),
                squash,
                shaw: sha_width(row_views(rows@)),
            };
            let body = md_body_spec(
                head.title@,
                head.labels@,
                cmd@,
                str_views(labels@),
                row_views(rows@),
                str_views(names@),
                t,
            );
            &&& !squash ==> r@ == body
            &&& squash ==> exists|c: Seq<FileStatSpec>|
                consolidation(all_files(row_files@), c) && r@ == body + squash_block_spec(c)
        }),
{
    let ghost rv = row_views(rows@);
    let ghost t = MdTable {
        sets: set_views(sets@),
        equiv: set_views(equiv@),
        trailer: set_views(trailer@),
        author_match: set_views(author_match@),
        picks: match picks {
            Some(p) => Some(pick_views(p@)),
            None => None,
        },
        bodies: body_views(row_bodies@),
        files: files_views(row_files@),
        squash,
        shaw: sha_width(row_views(rows@)),
    };
    let mut out = md_head(head, cmd, labels, rows.len());
    let has = any_has_row(rows, sets);
    let eq = any_filled(equiv);
    let tr = any_filled(trailer);
    let am = any_filled(author_match);
    proof {
        assert(eq == exists|j: int| 0 <= j < t.equiv.len() && (#[trigger] t.equiv[j]).len() > 0) by {
            if eq {
                let j = choose|j: int| 0 <= j < equiv@.len() && (#[trigger] equiv@[j]).len() > 0;
                assert(t.equiv[j].len() > 0);
            }
            if exists|j: int| 0 <= j < t.equiv.len() && (#[trigger] t.equiv[j]).len() > 0 {
                let j = choose|j: int| 0 <= j < t.equiv.len() && (#[trigger] t.equiv[j]).len() > 0;
                assert(equiv@[j].len() > 0);
            }
        }
        assert(tr == exists|j: int| 0 <= j < t.trailer.len() && (#[trigger] t.trailer[j]).len() > 0) by {
            if tr {
                let j = choose|j: int| 0 <= j < trailer@.len() && (#[trigger] trailer@[j]).len() > 0;
                assert(t.trailer[j].len() > 0);
            }
            if exists|j: int| 0 <= j < t.trailer.len() && (#[trigger] t.trailer[j]).len() > 0 {
                let j = choose|j: int| 0 <= j < t.trailer.len() && (#[trigger] t.trailer[j]).len() > 0;
                assert(trailer@[j].len() > 0);
            }
        }
        assert(am == exists|j: int|
            0 <= j < t.author_match.len() && (#[trigger] t.author_match[j]).len() > 0) by {
            if am {
                let j = choose|j: int|
                    0 <= j < author_match@.len() && (#[trigger] author_match@[j]).len() > 0;
                assert(t.author_match[j].len() > 0);
            }
            if exists|j: int| 0 <= j < t.author_match.len() && (#[trigger] t.author_match[j]).len() > 0 {
                let j = choose|j: int|
                    0 <= j < t.author_match.len() && (#[trigger] t.author_match[j]).len() > 0;
                assert(author_match@[j].len() > 0);
            }
        }
    }
    let legend = md_legend(names.len() == 0, has, eq, tr, am);
    push_all(&mut out, legend.as_slice());
    if picks.is_some() {
        push_str(&mut out, "- `pick`: the sha that other copy of the patch was committed under\n");
    }
    push_str(&mut out, "\n");
    let th = md_table_head(names, picks.is_some());
    push_all(&mut out, th.as_slice());
    let shaw = short_width(rows);
    let ghost before_rows = out@;
    let mut i: usize = 0;
    while i < rows.len()
        invariant
            i <= rows.len(),
            equiv.len() >= sets.len(),
            trailer.len() >= sets.len(),
            author_match.len() >= sets.len(),
            rv == row_views(rows@),
            t.sets == set_views(sets@),
            t.equiv == set_views(equiv@),
            t.trailer == set_views(trailer@),
            t.author_match == set_views(author_match@),
            t.picks == (match picks {
                Some(p) => Some(pick_views(p@)),
                None => None,
            }),
            t.bodies == body_views(row_bodies@),
            t.files == files_views(row_files@),
            t.squash == squash,
            t.shaw == shaw,
            out@ == before_rows + md_rows_spec(rv.take(i as int), t),
        decreases rows.len() - i,
    {
        push_row(
            &mut out,
            &rows[i],
            i,
            Ghost(t),
            sets,
            equiv,
            trailer,
            author_match,
            picks,
            shaw,
            row_bodies,
            row_files,
            squash,
        );
        assert(rv.take(i + 1).drop_last() =~= rv.take(i as int));
        assert(rv.take(i + 1).last() == rows@[i as int]@);
        assert(out@ =~= before_rows + md_rows_spec(rv.take(i + 1), t));
        i = i + 1;
    }
    assert(rv.take(rows.len() as int) =~= rv);
    let ghost body = out@;
    assert(body =~= md_body_spec(
        head.title@,
        head.labels@,
        cmd@,
        str_views(labels@),
        rv,
        str_views(names@),
        t,
    ));
    if squash {
        let c = consolidate_file_stats(row_files);
        let block = md_squash_block(c.as_slice());
        push_all(&mut out, block.as_slice());
        proof {
            let fs = all_files(row_files@);
            let cv = stat_views(c@);
            assert forall|j: int| 0 <= j < fs.len() implies exists|k: int|
                0 <= k < cv.len() && (#[trigger] cv[k]).path == (#[trigger] fs[j]).path by {
                let k = choose|k: int| 0 <= k < c.len() && (#[trigger] c@[k]).path@ == fs[j].path;
                assert(cv[k] == c@[k]@);
            }
            assert(consolidation(fs, cv));
        }
    }
    string_of(out.as_slice())
}

fn short_width(rows: &[CommitRow]) -> (w: usize)
    ensures
        w == sha_width(row_views(rows@)),
{
    let ghost cells = row_views(rows@).map_values(|r: CommitRowSpec| r.short);
    let mut w: usize = 0;
    let mut i: usize = 0;
    while i < rows.len()
        invariant
            i <= rows.len(),
            cells == row_views(rows@).map_values(|r: CommitRowSpec| r.short),
            cells.len() == rows.len(),
            w == widest(cells.take(i as int)),
        decreases rows.len() - i,
    {
        assert(cells.take(i + 1).drop_last() =~= cells.take(i as int));
        assert(cells.take(i + 1).last() == rows@[i as int].short@);
        let n = chars_of(rows[i].short.as_str()).len();
        if n > w {
            w = n;
        }
        i = i + 1;
    }
    assert(cells.take(rows.len() as int) =~= cells);
    w
}

/// The report's file name, stamped so that names sort as the runs did.
pub fn md_name(stamp: &str) -> (r: String)
    ensures
        r@ == "commits_"@ + stamp@ + ".md"@,
{
    let mut out: Vec<char> = Vec::new();
    push_str(&mut out, "commits_");
    push_str(&mut out, stamp);
    push_str(&mut out, ".md");
    string_of(out.as_slice())
}


} // verus!
