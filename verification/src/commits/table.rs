//! The commit table `commits`, `log` and `merge --review` print: every
//! column's width, every cell's text and tint, the lines folded under a
//! row, and the hand-off to Stanza, which draws it.

use vstd::prelude::*;

use stanza::renderer::console::Console;
use stanza::renderer::Renderer;
use stanza::style::{Bold, HAlign, Header, MaxWidth, MinWidth, Palette16, Styles, TextFg};
use stanza::table::{Cell, Col, Row, Table};

use crate::commits::args::{BranchWidth, PathWidth, SubjectWidth, Wrap};
use crate::commits::files::{stat_lines_spec, stat_views, FileStat, FileStatSpec};
use crate::commits::render::{
    term_legend, term_legend_spec, cell_hue, cell_hue_spec, extra_lines, header_hue, header_hue_spec, hit_spec, hits, mark_fg,
    mark_hue, pad_cell, pad_cell_spec, pad_lines, pad_lines_spec, stat_cell, stat_cell_spec,
    subject_width, subject_width_spec, subjects, widest_strings, Highlight, Hue,
};
use crate::commits::md::{find_pick, pick_for};
use crate::commits::rows::{glyph_spec, mark_spec, opt_str, row_views, CommitRow, CommitRowSpec, Mark, Pick};
use crate::style::{abbrev, abbrev_spec};
use crate::style::{AUTHOR_MAX, BRANCH_HEAD_MAX, PATH_MAX};
use crate::text::{chars_of, decimal, decimal_of, max_nat, member, push_all, push_str, str_views, string_of, widest};

verus! {

// ---------------------------------------------------------------------------
// Cutting text to a width
// ---------------------------------------------------------------------------

/// `s` cut to `max` columns: whole when it fits, else its first `max - 1`
/// characters and an ellipsis.
pub open spec fn ellipsize_spec(s: Seq<char>, max: nat) -> Seq<char> {
    if s.len() <= max {
        s
    } else if max == 0 {
        Seq::empty()
    } else {
        s.take(max - 1) + "…"@
    }
}

/// `s` cut to `max` columns: see `ellipsize_spec`.
pub fn ellipsize(s: &str, max: usize) -> (r: String)
    ensures
        r@ == ellipsize_spec(s@, max as nat),
{
    let cs = chars_of(s);
    if cs.len() <= max {
        return string_of(cs.as_slice());
    }
    if max == 0 {
        return String::new();
    }
    let mut out: Vec<char> = Vec::new();
    let mut i: usize = 0;
    while i < max - 1
        invariant
            i <= max - 1,
            max <= cs.len(),
            out@ == cs@.take(i as int),
        decreases max - 1 - i,
    {
        out.push(cs[i]);
        assert(cs@.take(i + 1) =~= cs@.take(i as int).push(cs@[i as int]));
        i = i + 1;
    }
    push_str(&mut out, "…");
    string_of(out.as_slice())
}

/// A subject broken into lines of `w` columns, at most `lines` of them,
/// the last ellipsized when the subject runs on.
pub open spec fn wrap_spec(t: Seq<char>, w: nat, lines: nat) -> Seq<Seq<char>>
    decreases t.len(),
{
    if t.len() <= w {
        seq![t]
    } else if lines <= 1 || w == 0 {
        seq![ellipsize_spec(t, w)]
    } else {
        seq![t.take(w as int)] + wrap_spec(t.skip(w as int), w, (lines - 1) as nat)
    }
}

/// A subject's lines: see `wrap_spec`.
pub fn wrap_text(t: &str, w: usize, lines: usize) -> (r: Vec<String>)
    ensures
        crate::text::str_views(r@) == wrap_spec(t@, w as nat, lines as nat),
{
    let cs = chars_of(t);
    let mut out: Vec<String> = Vec::new();
    let mut rest: Vec<char> = cs;
    let mut left: usize = lines;
    while rest.len() > w && left > 1 && w > 0
        invariant
            crate::text::str_views(out@) + wrap_spec(rest@, w as nat, left as nat) == wrap_spec(
                t@,
                w as nat,
                lines as nat,
            ),
        decreases rest.len(),
    {
        let ghost before = rest@;
        let head = crate::text::slice_range(rest.as_slice(), 0, w);
        let tail = crate::text::slice_from(rest.as_slice(), w);
        let ghost ov = crate::text::str_views(out@);
        out.push(string_of(head.as_slice()));
        assert(crate::text::str_views(out@) =~= ov.push(before.take(w as int)));
        assert(ov + (seq![before.take(w as int)] + wrap_spec(before.skip(w as int), w as nat, (left - 1) as nat))
            =~= crate::text::str_views(out@) + wrap_spec(tail@, w as nat, (left - 1) as nat));
        rest = tail;
        left = left - 1;
    }
    let ghost ov = crate::text::str_views(out@);
    let last = if rest.len() <= w {
        string_of(rest.as_slice())
    } else {
        ellipsize(string_of(rest.as_slice()).as_str(), w)
    };
    out.push(last);
    assert(crate::text::str_views(out@) =~= ov + wrap_spec(rest@, w as nat, left as nat));
    out
}

// ---------------------------------------------------------------------------
// The plan of a table
// ---------------------------------------------------------------------------

/// How a column sets its cells.
#[derive(Debug, Clone, Copy, PartialEq, Eq, Structural)]
pub enum Align {
    Left,
    Right,
    Centred,
}

/// How a cell is drawn: plain; in a header hue; or bold in a hue.
#[derive(Debug, Clone, Copy, PartialEq, Eq, Structural)]
pub enum Tint {
    Plain,
    Head(Hue),
    Lit(Hue),
}

/// One column: exactly `span` characters wide (its padding included).
#[derive(Debug, Clone, Copy, PartialEq, Eq, Structural)]
pub struct ColPlan {
    pub span: usize,
    pub align: Align,
}

/// One cell: its text and how it is drawn.
#[derive(Debug)]
pub struct CellPlan {
    pub text: String,
    pub tint: Tint,
}

pub struct CellSpec {
    pub text: Seq<char>,
    pub tint: Tint,
}

impl View for CellPlan {
    type V = CellSpec;

    open spec fn view(&self) -> CellSpec {
        CellSpec { text: self.text@, tint: self.tint }
    }
}

pub open spec fn cell_views(v: Seq<CellPlan>) -> Seq<CellSpec> {
    v.map_values(|c: CellPlan| c@)
}

pub open spec fn row_cell_views(v: Seq<Vec<CellPlan>>) -> Seq<Seq<CellSpec>> {
    v.map_values(|r: Vec<CellPlan>| cell_views(r@))
}

/// A whole table: its columns, the header row, then the body rows.
#[derive(Debug)]
pub struct TablePlan {
    pub cols: Vec<ColPlan>,
    pub header: Vec<CellPlan>,
    pub body: Vec<Vec<CellPlan>>,
}

pub struct TableSpec {
    pub cols: Seq<ColPlan>,
    pub header: Seq<CellSpec>,
    pub body: Seq<Seq<CellSpec>>,
}

impl View for TablePlan {
    type V = TableSpec;

    open spec fn view(&self) -> TableSpec {
        TableSpec { cols: self.cols@, header: cell_views(self.header@), body: row_cell_views(self.body@) }
    }
}

// ---------------------------------------------------------------------------
// Drawing it with Stanza
// ---------------------------------------------------------------------------

#[verifier::external_type_specification]
#[verifier::external_body]
pub struct ExStanzaCol(stanza::table::Col);

#[verifier::external_type_specification]
#[verifier::external_body]
pub struct ExStanzaRow(stanza::table::Row);

#[verifier::external_type_specification]
#[verifier::external_body]
pub struct ExStanzaCell(stanza::table::Cell);

#[verifier::external_type_specification]
#[verifier::external_body]
pub struct ExStanzaPalette(stanza::style::Palette16);

/// Stanza's `Col::new`, fixed at `span` characters (its `MinWidth` and
/// `MaxWidth`) and set by `align`. Nothing is claimed of the column: it
/// is one piece of `stanza_draw`'s conversion.
#[verifier::external_body]
fn stanza_col(span: usize, align: Align) -> Col {
    let a = match align {
        Align::Left => HAlign::Left,
        Align::Right => HAlign::Right,
        Align::Centred => HAlign::Centred,
    };
    Col::new(Styles::default().with(MinWidth(span)).with(MaxWidth(span)).with(a))
}

/// A hue as Stanza's 16-color palette names it. Nothing is claimed of the
/// value: it is one piece of `stanza_draw`'s conversion.
#[verifier::external_body]
fn stanza_palette(h: Hue) -> Palette16 {
    match h {
        Hue::Green => Palette16::Green,
        Hue::Yellow => Palette16::Yellow,
        Hue::Blue => Palette16::Blue,
        Hue::Magenta => Palette16::Magenta,
        Hue::BrightRed => Palette16::BrightRed,
        Hue::BrightMagenta => Palette16::BrightMagenta,
        Hue::BrightBlue => Palette16::BrightBlue,
        Hue::BrightCyan => Palette16::BrightCyan,
        Hue::BrightGreen => Palette16::BrightGreen,
        Hue::BrightYellow => Palette16::BrightYellow,
    }
}

/// Stanza's `Cell::new` holding the cell's text: plain, in its header hue,
/// or bold in its hue. Nothing is claimed of the cell: it is one piece of
/// `stanza_draw`'s conversion.
#[verifier::external_body]
fn stanza_cell(c: &CellPlan) -> Cell {
    let s = match c.tint {
        Tint::Plain => Styles::default(),
        Tint::Head(h) => Styles::default().with(Bold(false)).with(TextFg(stanza_palette(h))),
        Tint::Lit(h) => Styles::default().with(Bold(true)).with(TextFg(stanza_palette(h))),
    };
    Cell::new(s, c.text.as_str().into())
}

/// Stanza's `Row::new` over the row's cells, a header row when `header`.
/// Nothing is claimed of the row: it is one piece of `stanza_draw`'s
/// conversion.
#[verifier::external_body]
fn stanza_row(header: bool, cells: &Vec<CellPlan>) -> Row {
    Row::new(Styles::default().with(Header(header)), cells.iter().map(stanza_cell).collect())
}

/// The text Stanza's `Console` renderer (its default decor) draws for a
/// planned table: a fixed function of the columns' spans and alignments
/// and of every cell's text and tint, header row first.
pub uninterp spec fn drawn(t: TableSpec) -> Seq<char>;

/// Stanza's `Table::new` over the plan's columns, its header row and then
/// its body rows, each converted one for one, drawn by `Console::render`.
/// The contract claims that the text is `drawn` of the plan, and nothing
/// more of it. The renderer panics on a table without a column ("table
/// cannot be empty"; the header row is always there), so the plan must
/// have one.
#[verifier::external_body]
fn stanza_draw(t: &TablePlan) -> (s: String)
    requires
        t.cols@.len() > 0,
    ensures
        s@ == drawn(t@),
{
    let cols: Vec<Col> = t.cols.iter().map(|c| stanza_col(c.span, c.align)).collect();
    let mut rows: Vec<Row> = vec![stanza_row(true, &t.header)];
    rows.extend(t.body.iter().map(|r| stanza_row(false, r)));
    Console::default().render(&Table::new(Styles::default(), cols, rows))
}

// ---------------------------------------------------------------------------
// What a table is made from
// ---------------------------------------------------------------------------

/// Everything a commit table is drawn from, as values: the rows and what
/// is folded under them, the branches (mark columns) and their sets, the
/// picks, `log`'s per-row churn and paths, and the flags that shape it.
pub struct TableInputs {
    pub rows: Seq<CommitRowSpec>,
    pub files: Seq<Vec<FileStat>>,
    pub bodies: Seq<(Vec<String>, usize)>,
    pub names: Seq<Seq<char>>,
    pub sets: Seq<Seq<Seq<char>>>,
    pub equiv: Seq<Seq<Seq<char>>>,
    pub trailer: Seq<Seq<Seq<char>>>,
    pub author_match: Seq<Seq<Seq<char>>>,
    pub picks: Option<Seq<(Seq<char>, Seq<char>)>>,
    pub stats: Option<Seq<(Option<usize>, Option<usize>)>>,
    pub paths: Option<Seq<Seq<Seq<char>>>>,
    pub squash: bool,
    pub consolidated: Seq<FileStatSpec>,
    pub color: bool,
    pub width: Option<usize>,
    pub lines: nat,
    pub subjectw: Option<SubjectWidth>,
    pub branchw: Option<BranchWidth>,
    pub pathw: Option<PathWidth>,
    pub search: Seq<Seq<char>>,
    pub shas: Seq<Seq<char>>,
    pub hl_author: bool,
    pub hl_date: bool,
    pub message: Option<Seq<char>>,
    pub file: Option<Seq<char>>,
}

/// Every column's width (its text, without the padding): the mark
/// columns' headers as cut, and each column's width.
pub struct WidthsSpec {
    pub names: Seq<Seq<char>>,
    pub marks: Seq<nat>,
    pub sha: nat,
    pub pick: Option<nat>,
    pub author: nat,
    pub date: nat,
    pub stat: Option<nat>,
    pub path: Option<nat>,
    pub text: nat,
}

/// How far a branch-name header is cut.
pub open spec fn branch_cap(b: Option<BranchWidth>) -> nat {
    match b {
        Some(BranchWidth::Full) => usize::MAX as nat,
        Some(BranchWidth::Cols(n)) => n as nat,
        None => BRANCH_HEAD_MAX as nat,
    }
}

/// How far `log`'s path column is cut.
pub open spec fn path_cap(p: Option<PathWidth>) -> nat {
    match p {
        Some(PathWidth::Full) => usize::MAX as nat,
        Some(PathWidth::Cols(n)) => n as nat,
        None => PATH_MAX as nat,
    }
}

pub open spec fn min_nat(a: nat, b: nat) -> nat {
    if a < b {
        a
    } else {
        b
    }
}

pub open spec fn shorts(rows: Seq<CommitRowSpec>) -> Seq<Seq<char>> {
    rows.map_values(|r: CommitRowSpec| r.short)
}

pub open spec fn authors(rows: Seq<CommitRowSpec>) -> Seq<Seq<char>> {
    rows.map_values(|r: CommitRowSpec| r.author)
}

pub open spec fn dates(rows: Seq<CommitRowSpec>) -> Seq<Seq<char>> {
    rows.map_values(|r: CommitRowSpec| r.date)
}

pub open spec fn stat_texts(stats: Seq<(Option<usize>, Option<usize>)>) -> Seq<Seq<char>> {
    stats.map_values(|s: (Option<usize>, Option<usize>)| stat_cell_spec(s.0, s.1))
}

/// Every path of every row, in order.
pub open spec fn all_paths(p: Seq<Seq<Seq<char>>>) -> Seq<Seq<char>>
    decreases p.len(),
{
    if p.len() == 0 {
        Seq::empty()
    } else {
        all_paths(p.drop_last()) + p.last()
    }
}

/// What the mark columns take, a space of padding and a rule each side.
pub open spec fn marks_total(marks: Seq<nat>) -> nat
    decreases marks.len(),
{
    if marks.len() == 0 {
        0
    } else {
        marks_total(marks.drop_last()) + marks.last() + 4
    }
}

pub open spec fn opt_col(o: Option<nat>) -> nat {
    match o {
        Some(w) => w + 4,
        None => 0,
    }
}

/// Everything left of the subject, each column with its padding.
pub open spec fn fixed_of(w: WidthsSpec) -> nat {
    w.sha + 4 + opt_col(w.pick) + w.author + 4 + w.date + 4 + marks_total(w.marks) + 4 + opt_col(w.stat)
        + opt_col(w.path)
}

/// The widths before the subject's, which they decide.
pub open spec fn lead_widths(inp: TableInputs) -> WidthsSpec {
    let names = inp.names.map_values(|n: Seq<char>| ellipsize_spec(n, branch_cap(inp.branchw)));
    let sha = max_nat(widest(shorts(inp.rows)), 6);
    let a = max_nat(widest(authors(inp.rows)), 6);
    WidthsSpec {
        names,
        marks: names.map_values(|n: Seq<char>| max_nat(n.len(), 1)),
        sha,
        pick: if inp.picks is Some {
            Some(max_nat(sha, 4))
        } else {
            None
        },
        author: if inp.width is Some {
            min_nat(a, AUTHOR_MAX as nat)
        } else {
            a
        },
        date: max_nat(widest(dates(inp.rows)), 4),
        stat: match inp.stats {
            Some(st) => Some(max_nat(widest(stat_texts(st)), 1)),
            None => None,
        },
        path: match inp.paths {
            Some(p) => Some(min_nat(max_nat(widest(all_paths(p)), 4), path_cap(inp.pathw))),
            None => None,
        },
        text: 0,
    }
}

/// Every column's width; the subject's from what the others leave.
pub open spec fn widths_spec(inp: TableInputs) -> WidthsSpec {
    let w = lead_widths(inp);
    WidthsSpec {
        text: subject_width_spec(
            inp.subjectw,
            inp.width,
            fixed_of(w),
            widest(subjects(inp.rows)),
            extra_lines(inp.files, inp.bodies),
        ),
        ..w
    }
}

/// The widths as the table holds them.
pub struct Widths {
    pub names: Vec<String>,
    pub marks: Vec<usize>,
    pub sha: usize,
    pub pick: Option<usize>,
    pub author: usize,
    pub date: usize,
    pub stat: Option<usize>,
    pub path: Option<usize>,
    pub text: usize,
}

pub open spec fn opt_nat(o: Option<usize>) -> Option<nat> {
    match o {
        Some(v) => Some(v as nat),
        None => None,
    }
}

impl View for Widths {
    type V = WidthsSpec;

    open spec fn view(&self) -> WidthsSpec {
        WidthsSpec {
            names: str_views(self.names@),
            marks: self.marks@.map_values(|m: usize| m as nat),
            sha: self.sha as nat,
            pick: opt_nat(self.pick),
            author: self.author as nat,
            date: self.date as nat,
            stat: opt_nat(self.stat),
            path: opt_nat(self.path),
            text: self.text as nat,
        }
    }
}

fn widest_row_field(rows: &[CommitRow], which: u8) -> (w: usize)
    ensures
        which == 0 ==> w == widest(shorts(row_views(rows@))),
        which == 1 ==> w == widest(authors(row_views(rows@))),
        which != 0 && which != 1 ==> w == widest(dates(row_views(rows@))),
{
    let ghost cells = if which == 0 {
        shorts(row_views(rows@))
    } else if which == 1 {
        authors(row_views(rows@))
    } else {
        dates(row_views(rows@))
    };
    let mut w: usize = 0;
    let mut i: usize = 0;
    while i < rows.len()
        invariant
            i <= rows.len(),
            cells.len() == rows.len(),
            cells == (if which == 0 {
                shorts(row_views(rows@))
            } else if which == 1 {
                authors(row_views(rows@))
            } else {
                dates(row_views(rows@))
            }),
            w == widest(cells.take(i as int)),
        decreases rows.len() - i,
    {
        assert(cells.take(i + 1).drop_last() =~= cells.take(i as int));
        let f = if which == 0 {
            rows[i].short.as_str()
        } else if which == 1 {
            rows[i].author.as_str()
        } else {
            rows[i].date.as_str()
        };
        assert(cells.take(i + 1).last() == f@);
        let n = chars_of(f).len();
        if n > w {
            w = n;
        }
        i = i + 1;
    }
    assert(cells.take(rows.len() as int) =~= cells);
    w
}

fn widest_paths(p: &[Vec<String>]) -> (w: usize)
    ensures
        w == widest(all_paths(p@.map_values(|v: Vec<String>| str_views(v@)))),
{
    let ghost pv = p@.map_values(|v: Vec<String>| str_views(v@));
    let mut w: usize = 0;
    let mut i: usize = 0;
    while i < p.len()
        invariant
            i <= p.len(),
            pv == p@.map_values(|v: Vec<String>| str_views(v@)),
            w == widest(all_paths(pv.take(i as int))),
        decreases p.len() - i,
    {
        assert(pv.take(i + 1).drop_last() =~= pv.take(i as int));
        assert(pv.take(i + 1).last() == str_views(p@[i as int]@));
        let ghost before = all_paths(pv.take(i as int));
        let mut k: usize = 0;
        while k < p[i].len()
            invariant
                i < p.len(),
                k <= p[i as int].len(),
                w == widest(before + str_views(p@[i as int]@).take(k as int)),
            decreases p[i as int].len() - k,
        {
            let ghost cur = before + str_views(p@[i as int]@).take(k as int);
            assert((before + str_views(p@[i as int]@).take(k + 1)).drop_last() =~= cur);
            assert((before + str_views(p@[i as int]@).take(k + 1)).last() == p[i as int][k as int]@);
            let n = chars_of(p[i][k].as_str()).len();
            if n > w {
                w = n;
            }
            k = k + 1;
        }
        assert(before + str_views(p@[i as int]@).take(p[i as int].len() as int) =~= all_paths(pv.take(i + 1)));
        i = i + 1;
    }
    assert(pv.take(p.len() as int) =~= pv);
    w
}

fn stat_texts_of(stats: &[(Option<usize>, Option<usize>)]) -> (r: Vec<String>)
    ensures
        str_views(r@) == stat_texts(stats@),
{
    let mut out: Vec<String> = Vec::new();
    let mut i: usize = 0;
    while i < stats.len()
        invariant
            i <= stats.len(),
            str_views(out@) == stat_texts(stats@).take(i as int),
        decreases stats.len() - i,
    {
        let ghost before = str_views(out@);
        out.push(stat_cell(stats[i].0, stats[i].1));
        assert(str_views(out@) =~= before.push(stat_texts(stats@)[i as int]));
        assert(stat_texts(stats@).take(i + 1) =~= stat_texts(stats@).take(i as int).push(
            stat_texts(stats@)[i as int],
        ));
        i = i + 1;
    }
    assert(stat_texts(stats@).take(stats.len() as int) =~= stat_texts(stats@));
    out
}

fn lower(a: usize, b: usize) -> (r: usize)
    ensures
        r == min_nat(a as nat, b as nat),
{
    if a < b {
        a
    } else {
        b
    }
}

fn higher(a: usize, b: usize) -> (r: usize)
    ensures
        r == max_nat(a as nat, b as nat),
{
    if a > b {
        a
    } else {
        b
    }
}

/// What a `wrap` budget allows, as a count.
pub open spec fn wrap_lines(wrap: Wrap) -> nat {
    match wrap {
        Wrap::Lines(n) => n as nat,
        Wrap::Full => usize::MAX as nat,
    }
}

pub open spec fn opt_seq<T>(o: Option<&[T]>) -> Option<Seq<T>> {
    match o {
        Some(s) => Some(s@),
        None => None,
    }
}

pub open spec fn path_views(o: Option<&[Vec<String>]>) -> Option<Seq<Seq<Seq<char>>>> {
    match o {
        Some(p) => Some(p@.map_values(|v: Vec<String>| str_views(v@))),
        None => None,
    }
}

pub open spec fn pick_pairs(o: Option<&[Pick]>) -> Option<Seq<(Seq<char>, Seq<char>)>> {
    match o {
        Some(p) => Some(crate::commits::rows::pick_views(p@)),
        None => None,
    }
}

/// The table's inputs, from what the renderers are handed.
pub open spec fn inputs_of(
    rows: &[CommitRow],
    row_files: &[Vec<FileStat>],
    row_bodies: &[(Vec<String>, usize)],
    names: &[String],
    sets: &[Vec<String>],
    equiv: &[Vec<String>],
    trailer: &[Vec<String>],
    author_match: &[Vec<String>],
    picks: Option<&[Pick]>,
    stats: Option<&[(Option<usize>, Option<usize>)]>,
    row_paths: Option<&[Vec<String>]>,
    squash: bool,
    consolidated: Seq<FileStatSpec>,
    color: bool,
    width: Option<usize>,
    wrap: Wrap,
    subjectw: Option<SubjectWidth>,
    branchw: Option<BranchWidth>,
    pathw: Option<PathWidth>,
    hl: &Highlight,
) -> TableInputs {
    TableInputs {
        rows: row_views(rows@),
        files: row_files@,
        bodies: row_bodies@,
        names: str_views(names@),
        sets: crate::commits::md::set_views(sets@),
        equiv: crate::commits::md::set_views(equiv@),
        trailer: crate::commits::md::set_views(trailer@),
        author_match: crate::commits::md::set_views(author_match@),
        picks: pick_pairs(picks),
        stats: opt_seq(stats),
        paths: path_views(row_paths),
        squash,
        consolidated,
        color,
        width,
        lines: wrap_lines(wrap),
        subjectw,
        branchw,
        pathw,
        search: str_views(hl.search@),
        shas: str_views(hl.shas@),
        hl_author: hl.author,
        hl_date: hl.date,
        message: crate::worktree::opt_view(hl.message),
        file: crate::worktree::opt_view(hl.file),
    }
}

/// The table fits the machine: its columns' widths add up without
/// overflowing, the subject's padding included.
pub open spec fn table_fits(inp: TableInputs) -> bool {
    &&& fixed_of(lead_widths(inp)) <= usize::MAX
    &&& widths_spec(inp).text + 2 <= usize::MAX
}

/// The table fits the machine, from what decides its widths alone.
pub open spec fn layout_fits(
    rows: &[CommitRow],
    row_files: &[Vec<FileStat>],
    row_bodies: &[(Vec<String>, usize)],
    names: &[String],
    has_picks: bool,
    stats: Option<&[(Option<usize>, Option<usize>)]>,
    row_paths: Option<&[Vec<String>]>,
    width: Option<usize>,
    subjectw: Option<SubjectWidth>,
    branchw: Option<BranchWidth>,
    pathw: Option<PathWidth>,
) -> bool {
    table_fits(
        TableInputs {
            rows: row_views(rows@),
            files: row_files@,
            bodies: row_bodies@,
            names: str_views(names@),
            sets: Seq::empty(),
            equiv: Seq::empty(),
            trailer: Seq::empty(),
            author_match: Seq::empty(),
            picks: if has_picks {
                Some(Seq::empty())
            } else {
                None
            },
            stats: opt_seq(stats),
            paths: path_views(row_paths),
            squash: false,
            consolidated: Seq::empty(),
            color: false,
            width,
            lines: 0,
            subjectw,
            branchw,
            pathw,
            search: Seq::empty(),
            shas: Seq::empty(),
            hl_author: false,
            hl_date: false,
            message: None,
            file: None,
        },
    )
}

/// Every column's width: see `widths_spec`.
pub fn table_widths(
    rows: &[CommitRow],
    row_files: &[Vec<FileStat>],
    row_bodies: &[(Vec<String>, usize)],
    names: &[String],
    has_picks: bool,
    stats: Option<&[(Option<usize>, Option<usize>)]>,
    row_paths: Option<&[Vec<String>]>,
    width: Option<usize>,
    subjectw: Option<SubjectWidth>,
    branchw: Option<BranchWidth>,
    pathw: Option<PathWidth>,
    Ghost(inp): Ghost<TableInputs>,
) -> (w: Widths)
    requires
        inp.rows == row_views(rows@),
        inp.files == row_files@,
        inp.bodies == row_bodies@,
        inp.names == str_views(names@),
        (inp.picks is Some) == has_picks,
        inp.stats == opt_seq(stats),
        inp.paths == path_views(row_paths),
        inp.width == width,
        inp.subjectw == subjectw,
        inp.branchw == branchw,
        inp.pathw == pathw,
        fixed_of(lead_widths(inp)) <= usize::MAX,
    ensures
        w@ == widths_spec(inp),
        widths_wf(w@),
{
    let ghost lw = lead_widths(inp);
    let cap: usize = match branchw {
        Some(BranchWidth::Full) => usize::MAX,
        Some(BranchWidth::Cols(n)) => n,
        None => BRANCH_HEAD_MAX,
    };
    let mut cut: Vec<String> = Vec::new();
    let mut marks: Vec<usize> = Vec::new();
    let mut i: usize = 0;
    while i < names.len()
        invariant
            i <= names.len(),
            cap as nat == branch_cap(branchw),
            lw == lead_widths(inp),
            inp.names == str_views(names@),
            inp.branchw == branchw,
            str_views(cut@) == lw.names.take(i as int),
            marks@.map_values(|m: usize| m as nat) == lw.marks.take(i as int),
        decreases names.len() - i,
    {
        let c = ellipsize(names[i].as_str(), cap);
        let n = chars_of(c.as_str()).len();
        let m = higher(n, 1);
        let ghost cv = str_views(cut@);
        let ghost mv = marks@.map_values(|m: usize| m as nat);
        cut.push(c);
        marks.push(m);
        assert(str_views(cut@) =~= cv.push(lw.names[i as int]));
        assert(lw.names.take(i + 1) =~= lw.names.take(i as int).push(lw.names[i as int]));
        assert(marks@.map_values(|m: usize| m as nat) =~= mv.push(lw.marks[i as int]));
        assert(lw.marks.take(i + 1) =~= lw.marks.take(i as int).push(lw.marks[i as int]));
        i = i + 1;
    }
    assert(lw.names.take(names.len() as int) =~= lw.names);
    assert(lw.marks.take(names.len() as int) =~= lw.marks);
    let sha = higher(widest_row_field(rows, 0), 6);
    let pick = if has_picks {
        Some(higher(sha, 4))
    } else {
        None
    };
    let a = higher(widest_row_field(rows, 1), 6);
    let author = match width {
        Some(_) => lower(a, AUTHOR_MAX),
        None => a,
    };
    let date = higher(widest_row_field(rows, 2), 4);
    let stat = match stats {
        Some(st) => {
            let t = stat_texts_of(st);
            Some(higher(widest_strings(t.as_slice()), 1))
        },
        None => None,
    };
    let path = match row_paths {
        Some(p) => {
            let pc: usize = match pathw {
                Some(PathWidth::Full) => usize::MAX,
                Some(PathWidth::Cols(n)) => n,
                None => PATH_MAX,
            };
            Some(lower(higher(widest_paths(p), 4), pc))
        },
        None => None,
    };
    let mut w = Widths { names: cut, marks, sha, pick, author, date, stat, path, text: 0 };
    assert(w@ == lw);
    let fixed = fixed_width(&w);
    w.text = subject_width(rows, row_files, row_bodies, subjectw, width, fixed);
    w
}

/// Everything left of the subject: see `fixed_of`.
fn fixed_width(w: &Widths) -> (f: usize)
    requires
        fixed_of(w@) <= usize::MAX,
    ensures
        f == fixed_of(w@),
{
    let ghost mv = w@.marks;
    let mut m: usize = 0;
    let mut i: usize = 0;
    proof {
        lemma_marks_total_grows(mv, 0);
    }
    while i < w.marks.len()
        invariant
            i <= w.marks.len(),
            mv == w@.marks,
            mv.len() == w.marks.len(),
            m == marks_total(mv.take(i as int)),
            marks_total(mv) <= fixed_of(w@) <= usize::MAX,
        decreases w.marks.len() - i,
    {
        proof {
            lemma_marks_total_grows(mv, i + 1);
        }
        assert(mv.take(i + 1).drop_last() =~= mv.take(i as int));
        assert(mv.take(i + 1).last() == w.marks[i as int]);
        m = m + w.marks[i] + 4;
        i = i + 1;
    }
    assert(mv.take(w.marks.len() as int) =~= mv);
    let pick = match w.pick {
        Some(p) => p + 4,
        None => 0,
    };
    let stat = match w.stat {
        Some(p) => p + 4,
        None => 0,
    };
    let path = match w.path {
        Some(p) => p + 4,
        None => 0,
    };
    w.sha + 4 + pick + w.author + 4 + w.date + 4 + m + 4 + stat + path
}

proof fn lemma_marks_total_grows(marks: Seq<nat>, k: int)
    requires
        0 <= k <= marks.len(),
    ensures
        marks_total(marks.take(k)) <= marks_total(marks),
    decreases marks.len() - k,
{
    if k < marks.len() {
        lemma_marks_total_grows(marks, k + 1);
        assert(marks.take(k + 1).drop_last() =~= marks.take(k));
    } else {
        assert(marks.take(k) =~= marks);
    }
}

// ---------------------------------------------------------------------------
// Columns, the header, and the lines folded under a row
// ---------------------------------------------------------------------------

/// The columns left of the subject, each as its header label, width and
/// alignment: commit, [pick], author, date, a mark column per branch,
/// [`±`], [path].
pub open spec fn lead_cols(w: WidthsSpec) -> Seq<(Seq<char>, nat, Align)> {
    seq![("commit"@, w.sha, Align::Left)] + (match w.pick {
        Some(p) => seq![("pick"@, p, Align::Left)],
        None => Seq::empty(),
    }) + seq![("author"@, w.author, Align::Left), ("date"@, w.date, Align::Right)] + Seq::new(
        w.marks.len(),
        |k: int| (w.names[k], w.marks[k], Align::Centred),
    ) + (match w.stat {
        Some(st) => seq![("\u{b1}"@, st, Align::Right)],
        None => Seq::empty(),
    }) + (match w.path {
        Some(p) => seq![("path"@, p, Align::Left)],
        None => Seq::empty(),
    })
}

/// Every column: the lead, then the subject.
pub open spec fn all_cols(w: WidthsSpec) -> Seq<(Seq<char>, nat, Align)> {
    lead_cols(w).push(("subject"@, w.text, Align::Left))
}

/// Each column exactly its width and a space either side.
pub open spec fn col_plans(w: WidthsSpec) -> Seq<ColPlan> {
    all_cols(w).map_values(|c: (Seq<char>, nat, Align)| ColPlan { span: (c.1 + 2) as usize, align: c.2 })
}

pub open spec fn cell(text: Seq<char>, tint: Tint) -> CellSpec {
    CellSpec { text, tint }
}

/// The header row: each label padded to its column, in the hue its
/// position cycles to when painted.
pub open spec fn header_spec(w: WidthsSpec, color: bool) -> Seq<CellSpec> {
    all_cols(w).map(
        |k: int, c: (Seq<char>, nat, Align)|
            cell(
                pad_cell_spec(c.0, c.1),
                if color {
                    Tint::Head(header_hue_spec(k as nat))
                } else {
                    Tint::Plain
                },
            ),
    )
}

pub open spec fn tint_of(fg: Option<Hue>) -> Tint {
    match fg {
        Some(h) => Tint::Lit(h),
        None => Tint::Plain,
    }
}

/// The hit accent, on a painted cell that holds a hit.
pub open spec fn lit(color: bool, hit: bool) -> Option<Hue> {
    if color && hit {
        Some(Hue::BrightBlue)
    } else {
        None
    }
}

pub open spec fn sat2(n: nat) -> nat {
    if n >= 2 {
        (n - 2) as nat
    } else {
        0
    }
}

/// A line folded under a row (a matched body line, a file, a rename's
/// other name): blank in every column but the subject's, where it sits
/// indented and cut to fit.
pub open spec fn extra_row(w: WidthsSpec, text: Seq<char>, fg: Option<Hue>) -> Seq<CellSpec> {
    lead_cols(w).map_values(|c: (Seq<char>, nat, Align)| cell(pad_cell_spec(Seq::empty(), c.1), Tint::Plain)).push(
        cell(pad_cell_spec("  "@ + ellipsize_spec(text, sat2(w.text)), w.text), tint_of(fg)),
    )
}

/// Lines folded under a row, each lit where it holds a hit (`term` or a
/// search term).
pub open spec fn lit_rows(inp: TableInputs, w: WidthsSpec, texts: Seq<Seq<char>>, term: Option<Seq<char>>) -> Seq<
    Seq<CellSpec>,
> {
    texts.map_values(|t: Seq<char>| extra_row(w, t, lit(inp.color, hit_spec(t, inp.search, term))))
}

fn col_plan(span: usize, align: Align) -> (c: ColPlan)
    ensures
        c == (ColPlan { span, align }),
{
    ColPlan { span, align }
}

pub open spec fn lead_views(v: Seq<(Vec<char>, usize, Align)>) -> Seq<(Seq<char>, nat, Align)> {
    v.map_values(|c: (Vec<char>, usize, Align)| (c.0@, c.1 as nat, c.2))
}

/// The widths are of one table: a cut header per mark column.
pub open spec fn widths_wf(w: WidthsSpec) -> bool {
    w.names.len() == w.marks.len()
}

fn push_lead(v: &mut Vec<(Vec<char>, usize, Align)>, label: &str, width: usize, align: Align)
    ensures
        lead_views(final(v)@) == lead_views(old(v)@).push((label@, width as nat, align)),
{
    let ghost before = lead_views(v@);
    v.push((chars_of(label), width, align));
    assert(lead_views(v@) =~= before.push((label@, width as nat, align)));
}

/// The lead columns as (label, width, alignment), in order.
fn lead_of(w: &Widths) -> (r: Vec<(Vec<char>, usize, Align)>)
    requires
        widths_wf(w@),
    ensures
        lead_views(r@) == lead_cols(w@),
{
    let ghost wv = w@;
    let mut v: Vec<(Vec<char>, usize, Align)> = Vec::new();
    push_lead(&mut v, "commit", w.sha, Align::Left);
    if let Some(p) = w.pick {
        push_lead(&mut v, "pick", p, Align::Left);
    }
    push_lead(&mut v, "author", w.author, Align::Left);
    push_lead(&mut v, "date", w.date, Align::Right);
    let ghost head = lead_views(v@);
    assert(head =~= seq![("commit"@, wv.sha, Align::Left)] + (match wv.pick {
        Some(p) => seq![("pick"@, p, Align::Left)],
        None => Seq::empty(),
    }) + seq![("author"@, wv.author, Align::Left), ("date"@, wv.date, Align::Right)]);
    let mut k: usize = 0;
    while k < w.marks.len()
        invariant
            k <= w.marks.len(),
            wv == w@,
            widths_wf(wv),
            lead_views(v@) == head + Seq::new(k as nat, |j: int| (wv.names[j], wv.marks[j], Align::Centred)),
        decreases w.marks.len() - k,
    {
        assert(wv.names[k as int] == w.names@[k as int]@);
        push_lead(&mut v, w.names[k].as_str(), w.marks[k], Align::Centred);
        assert(Seq::new(k as nat, |j: int| (wv.names[j], wv.marks[j], Align::Centred)).push(
            (wv.names[k as int], wv.marks[k as int], Align::Centred),
        ) =~= Seq::new((k + 1) as nat, |j: int| (wv.names[j], wv.marks[j], Align::Centred)));
        k = k + 1;
    }
    if let Some(st) = w.stat {
        push_lead(&mut v, "\u{b1}", st, Align::Right);
    }
    if let Some(p) = w.path {
        push_lead(&mut v, "path", p, Align::Left);
    }
    assert(lead_views(v@) =~= lead_cols(wv));
    v
}

/// A mark column's width stays inside what the mark columns take.
proof fn lemma_mark_fits(marks: Seq<nat>, k: int)
    requires
        0 <= k < marks.len(),
    ensures
        marks[k] + 4 <= marks_total(marks),
    decreases marks.len(),
{
    if k < marks.len() - 1 {
        lemma_mark_fits(marks.drop_last(), k);
        assert(marks.drop_last()[k] == marks[k]);
    }
}

/// Every lead column, with its padding, stays inside the fixed width.
proof fn lemma_lead_fits(w: WidthsSpec)
    requires
        widths_wf(w),
    ensures
        forall|k: int| 0 <= k < lead_cols(w).len() ==> (#[trigger] lead_cols(w)[k]).1 + 4 <= fixed_of(w),
{
    let a = seq![("commit"@, w.sha, Align::Left)] + (match w.pick {
        Some(p) => seq![("pick"@, p, Align::Left)],
        None => Seq::empty(),
    }) + seq![("author"@, w.author, Align::Left), ("date"@, w.date, Align::Right)];
    let m = Seq::new(w.marks.len(), |j: int| (w.names[j], w.marks[j], Align::Centred));
    let b = (match w.stat {
        Some(st) => seq![("\u{b1}"@, st, Align::Right)],
        None => Seq::<(Seq<char>, nat, Align)>::empty(),
    });
    let c = (match w.path {
        Some(p) => seq![("path"@, p, Align::Left)],
        None => Seq::<(Seq<char>, nat, Align)>::empty(),
    });
    assert(lead_cols(w) =~= a + m + b + c);
    assert forall|k: int| 0 <= k < lead_cols(w).len() implies (#[trigger] lead_cols(w)[k]).1 + 4 <= fixed_of(w) by {
        let l = lead_cols(w);
        if k < a.len() {
            assert(l[k] == a[k]);
        } else if k < a.len() + m.len() {
            assert(l[k] == m[k - a.len()]);
            lemma_mark_fits(w.marks, k - a.len());
        } else if k < a.len() + m.len() + b.len() {
            assert(l[k] == b[k - a.len() - m.len()]);
        } else {
            assert(l[k] == c[k - a.len() - m.len() - b.len()]);
        }
    }
}

fn string_from(v: &Vec<char>) -> (s: String)
    ensures
        s@ == v@,
{
    string_of(v.as_slice())
}

/// The table's columns: see `col_plans`.
fn cols_of(w: &Widths, lead: &Vec<(Vec<char>, usize, Align)>) -> (r: Vec<ColPlan>)
    requires
        widths_wf(w@),
        lead_views(lead@) == lead_cols(w@),
        fixed_of(w@) <= usize::MAX,
        w.text + 2 <= usize::MAX,
    ensures
        r@ == col_plans(w@),
{
    let ghost all = all_cols(w@);
    proof {
        lemma_lead_fits(w@);
    }
    let mut r: Vec<ColPlan> = Vec::new();
    let mut k: usize = 0;
    while k < lead.len()
        invariant
            k <= lead.len(),
            all == all_cols(w@),
            lead_views(lead@) == lead_cols(w@),
            forall|j: int| 0 <= j < lead_cols(w@).len() ==> (#[trigger] lead_cols(w@)[j]).1 + 4 <= fixed_of(w@),
            fixed_of(w@) <= usize::MAX,
            r@ == col_plans(w@).take(k as int),
        decreases lead.len() - k,
    {
        assert(lead_cols(w@)[k as int] == lead_views(lead@)[k as int]);
        assert(all[k as int] == lead_cols(w@)[k as int]);
        let c = col_plan(lead[k].1 + 2, lead[k].2);
        r.push(c);
        assert(col_plans(w@).take(k + 1) =~= col_plans(w@).take(k as int).push(col_plans(w@)[k as int]));
        k = k + 1;
    }
    assert(all[lead.len() as int] == ("subject"@, w@.text, Align::Left));
    r.push(col_plan(w.text + 2, Align::Left));
    assert(r@ =~= col_plans(w@));
    r
}

fn plan_cell(text: String, tint: Tint) -> (c: CellPlan)
    ensures
        c@ == cell(text@, tint),
{
    CellPlan { text, tint }
}

/// The header row: see `header_spec`.
fn header_of(w: &Widths, lead: &Vec<(Vec<char>, usize, Align)>, color: bool) -> (r: Vec<CellPlan>)
    requires
        lead_views(lead@) == lead_cols(w@),
    ensures
        cell_views(r@) == header_spec(w@, color),
{
    let ghost all = all_cols(w@);
    let mut r: Vec<CellPlan> = Vec::new();
    let mut k: usize = 0;
    while k < lead.len()
        invariant
            k <= lead.len(),
            all == all_cols(w@),
            lead_views(lead@) == lead_cols(w@),
            cell_views(r@) == header_spec(w@, color).take(k as int),
        decreases lead.len() - k,
    {
        assert(all[k as int] == lead_views(lead@)[k as int]);
        let text = pad_cell(string_from(&lead[k].0).as_str(), lead[k].1);
        let tint = if color {
            Tint::Head(header_hue(k))
        } else {
            Tint::Plain
        };
        let ghost before = cell_views(r@);
        r.push(plan_cell(text, tint));
        assert(cell_views(r@) =~= before.push(header_spec(w@, color)[k as int]));
        assert(header_spec(w@, color).take(k + 1) =~= header_spec(w@, color).take(k as int).push(
            header_spec(w@, color)[k as int],
        ));
        k = k + 1;
    }
    let text = pad_cell("subject", w.text);
    let tint = if color {
        Tint::Head(header_hue(k))
    } else {
        Tint::Plain
    };
    let ghost before = cell_views(r@);
    r.push(plan_cell(text, tint));
    assert(cell_views(r@) =~= before.push(header_spec(w@, color)[k as int]));
    assert(cell_views(r@) =~= header_spec(w@, color));
    r
}

/// A line folded under a row: see `extra_row`.
fn extra_row_of(w: &Widths, lead: &Vec<(Vec<char>, usize, Align)>, text: &str, fg: Option<Hue>) -> (r: Vec<CellPlan>)
    requires
        lead_views(lead@) == lead_cols(w@),
    ensures
        cell_views(r@) == extra_row(w@, text@, fg),
{
    let ghost blank = lead_cols(w@).map_values(
        |c: (Seq<char>, nat, Align)| cell(pad_cell_spec(Seq::empty(), c.1), Tint::Plain),
    );
    let mut r: Vec<CellPlan> = Vec::new();
    let mut k: usize = 0;
    while k < lead.len()
        invariant
            k <= lead.len(),
            lead_views(lead@) == lead_cols(w@),
            blank == lead_cols(w@).map_values(
                |c: (Seq<char>, nat, Align)| cell(pad_cell_spec(Seq::empty(), c.1), Tint::Plain),
            ),
            cell_views(r@) == blank.take(k as int),
        decreases lead.len() - k,
    {
        assert(lead_cols(w@)[k as int] == lead_views(lead@)[k as int]);
        let t = pad_cell("", lead[k].1);
        proof {
            reveal_strlit("");
        }
        assert(""@ =~= Seq::<char>::empty());
        let ghost before = cell_views(r@);
        r.push(plan_cell(t, Tint::Plain));
        assert(cell_views(r@) =~= before.push(blank[k as int]));
        assert(blank.take(k + 1) =~= blank.take(k as int).push(blank[k as int]));
        k = k + 1;
    }
    assert(blank.take(lead.len() as int) =~= blank);
    let room: usize = if w.text >= 2 {
        w.text - 2
    } else {
        0
    };
    let cut = ellipsize(text, room);
    let mut content: Vec<char> = Vec::new();
    push_str(&mut content, "  ");
    crate::text::push_all(&mut content, chars_of(cut.as_str()).as_slice());
    let t = pad_cell(string_of(content.as_slice()).as_str(), w.text);
    let tint = match fg {
        Some(h) => Tint::Lit(h),
        None => Tint::Plain,
    };
    let ghost before = cell_views(r@);
    r.push(plan_cell(t, tint));
    assert(cell_views(r@) =~= before.push(
        cell(pad_cell_spec("  "@ + ellipsize_spec(text@, sat2(w@.text)), w@.text), tint_of(fg)),
    ));
    r
}

// ---------------------------------------------------------------------------
// The rows
// ---------------------------------------------------------------------------

/// The mark a row gets in mark column `k`, drawn in its hue when painted.
pub open spec fn mark_cell(inp: TableInputs, sha: Seq<char>, k: int) -> CellSpec {
    let m = mark_spec(sha, inp.sets[k], inp.equiv[k], inp.trailer[k], inp.author_match[k]);
    cell(
        glyph_spec(m),
        tint_of(
            if inp.color {
                mark_hue(m)
            } else {
                None
            },
        ),
    )
}

/// The first path a row names in `log`'s path column, blank for none.
pub open spec fn first_path(paths: Option<Seq<Seq<Seq<char>>>>, i: int) -> Seq<char> {
    match paths {
        Some(p) => if 0 <= i < p.len() && p[i].len() > 0 {
            p[i][0]
        } else {
            Seq::empty()
        },
        None => Seq::empty(),
    }
}

/// The pick cell: the other sha cut to the sha column's width, or blank.
pub open spec fn pick_text(picks: Seq<(Seq<char>, Seq<char>)>, sha: Seq<char>, shaw: nat) -> Seq<char> {
    match pick_for(picks, sha) {
        Some(o) => abbrev_spec(o, shaw),
        None => Seq::empty(),
    }
}

/// Row `i`'s cells. The sha is lit on a hit, or when the filter named it
/// outright; the pick, author and date likewise (the pick always tinted,
/// the author and date when a filter read them); each mark in its hue;
/// `log`'s churn plain and its path lit on a hit; the subject wrapped to
/// its column and lit on a hit.
pub open spec fn row_cells(inp: TableInputs, w: WidthsSpec, i: int) -> Seq<CellSpec> {
    front_cells(inp, w, i) + Seq::new(w.marks.len(), |k: int| mark_cell(inp, inp.rows[i].sha, k)) + back_cells(
        inp,
        w,
        i,
    )
}

/// The cells left of the marks: sha, [pick], author, date.
pub open spec fn front_cells(inp: TableInputs, w: WidthsSpec, i: int) -> Seq<CellSpec> {
    let r = inp.rows[i];
    let a = ellipsize_spec(r.author, w.author);
    seq![
        cell(
            pad_cell_spec(r.short, w.sha),
            tint_of(
                cell_hue_spec(
                    inp.color,
                    hit_spec(r.short, inp.search, None),
                    inp.shas.contains(r.sha),
                    Hue::BrightYellow,
                ),
            ),
        ),
    ] + (match (inp.picks, w.pick) {
        (Some(ps), Some(pw)) => seq![
            cell(
                pad_cell_spec(pick_text(ps, r.sha, w.sha), pw),
                tint_of(
                    cell_hue_spec(
                        inp.color,
                        hit_spec(pick_text(ps, r.sha, w.sha), inp.search, None),
                        true,
                        Hue::Yellow,
                    ),
                ),
            ),
        ],
        _ => Seq::empty(),
    }) + seq![
        cell(
            pad_cell_spec(a, w.author),
            tint_of(cell_hue_spec(inp.color, hit_spec(a, inp.search, None), inp.hl_author, Hue::BrightYellow)),
        ),
        cell(
            pad_cell_spec(r.date, w.date),
            tint_of(cell_hue_spec(inp.color, hit_spec(r.date, inp.search, None), inp.hl_date, Hue::BrightYellow)),
        ),
    ]
}

/// The cells right of the marks: [`±`], [path], subject.
pub open spec fn back_cells(inp: TableInputs, w: WidthsSpec, i: int) -> Seq<CellSpec> {
    let r = inp.rows[i];
    (match (inp.stats, w.stat) {
        (Some(st), Some(sw)) => seq![cell(pad_cell_spec(stat_cell_spec(st[i].0, st[i].1), sw), Tint::Plain)],
        _ => Seq::empty(),
    }) + (match w.path {
        Some(pw) => seq![
            cell(
                pad_cell_spec(ellipsize_spec(first_path(inp.paths, i), pw), pw),
                tint_of(lit(inp.color, hit_spec(ellipsize_spec(first_path(inp.paths, i), pw), inp.search, None))),
            ),
        ],
        None => Seq::empty(),
    }) + seq![
        cell(
            pad_lines_spec(wrap_spec(r.text, w.text, inp.lines), w.text),
            tint_of(lit(inp.color, hit_spec(r.text, inp.search, inp.message))),
        ),
    ]
}

/// A rename's other names (or a multi-path `log`'s other files) under
/// row `i`, when the path column is shown.
pub open spec fn path_extras(inp: TableInputs, w: WidthsSpec, i: int) -> Seq<Seq<CellSpec>> {
    match (w.path, inp.paths) {
        (Some(_), Some(p)) => if 0 <= i < p.len() && p[i].len() > 0 {
            lit_rows(inp, w, p[i].skip(1), None)
        } else {
            Seq::empty()
        },
        _ => Seq::empty(),
    }
}

/// The body lines `--message` matched under row `i`, and how many more
/// there were.
pub open spec fn body_extras(inp: TableInputs, w: WidthsSpec, i: int) -> Seq<Seq<CellSpec>> {
    if 0 <= i < inp.bodies.len() {
        lit_rows(inp, w, str_views(inp.bodies[i].0@), inp.message) + (if inp.bodies[i].1 > 0 {
            seq![extra_row(w, "+"@ + decimal(inp.bodies[i].1 as nat) + " more"@, None)]
        } else {
            Seq::empty()
        })
    } else {
        Seq::empty()
    }
}

/// Row `i`'s file block, unless the blocks are squashed into one.
pub open spec fn file_extras(inp: TableInputs, w: WidthsSpec, i: int) -> Seq<Seq<CellSpec>> {
    if !inp.squash && 0 <= i < inp.files.len() {
        lit_rows(inp, w, stat_lines_spec(stat_views(inp.files[i]@)), inp.file)
    } else {
        Seq::empty()
    }
}

/// Row `i` and every line folded under it.
pub open spec fn row_block(inp: TableInputs, w: WidthsSpec, i: int) -> Seq<Seq<CellSpec>> {
    seq![row_cells(inp, w, i)] + path_extras(inp, w, i) + body_extras(inp, w, i) + file_extras(inp, w, i)
}

/// The blocks of the first `n` rows.
pub open spec fn blocks(inp: TableInputs, w: WidthsSpec, n: nat) -> Seq<Seq<CellSpec>>
    decreases n,
{
    if n == 0 {
        Seq::empty()
    } else {
        blocks(inp, w, (n - 1) as nat) + row_block(inp, w, n - 1)
    }
}

/// Under `--squash`, every file the shown commits touched, once, after the
/// last row; nothing when there is none.
pub open spec fn squash_rows(inp: TableInputs, w: WidthsSpec) -> Seq<Seq<CellSpec>> {
    if inp.squash && inp.consolidated.len() > 0 {
        seq![extra_row(w, "consolidated files"@, None)] + lit_rows(inp, w, stat_lines_spec(inp.consolidated), inp.file)
    } else {
        Seq::empty()
    }
}

/// The whole table.
pub open spec fn table_spec(inp: TableInputs) -> TableSpec {
    let w = widths_spec(inp);
    TableSpec {
        cols: col_plans(w),
        header: header_spec(w, inp.color),
        body: blocks(inp, w, inp.rows.len()) + squash_rows(inp, w),
    }
}

/// What the row builders read, as values: the same as `inp`.
pub open spec fn reads(
    inp: TableInputs,
    sets: &[Vec<String>],
    equiv: &[Vec<String>],
    trailer: &[Vec<String>],
    author_match: &[Vec<String>],
    picks: Option<&[Pick]>,
    stats: Option<&[(Option<usize>, Option<usize>)]>,
    row_paths: Option<&[Vec<String>]>,
    color: bool,
    hl: &Highlight,
) -> bool {
    &&& inp.sets == crate::commits::md::set_views(sets@)
    &&& inp.equiv == crate::commits::md::set_views(equiv@)
    &&& inp.trailer == crate::commits::md::set_views(trailer@)
    &&& inp.author_match == crate::commits::md::set_views(author_match@)
    &&& inp.picks == pick_pairs(picks)
    &&& inp.stats == opt_seq(stats)
    &&& inp.paths == path_views(row_paths)
    &&& inp.color == color
    &&& inp.search == str_views(hl.search@)
    &&& inp.shas == str_views(hl.shas@)
    &&& inp.hl_author == hl.author
    &&& inp.hl_date == hl.date
    &&& inp.message == crate::worktree::opt_view(hl.message)
    &&& inp.file == crate::worktree::opt_view(hl.file)
}

/// Every table has a column: the subject's, after the lead.
proof fn lemma_table_has_columns()
    ensures
        forall|inp: TableInputs| (#[trigger] table_spec(inp)).cols.len() > 0,
{
    assert forall|inp: TableInputs| (#[trigger] table_spec(inp)).cols.len() > 0 by {
        let w = widths_spec(inp);
        assert(col_plans(w).len() == all_cols(w).len());
    }
}

proof fn lemma_lead_len(w: WidthsSpec)
    ensures
        lead_cols(w).len() == 3 + (if w.pick is Some { 1int } else { 0 }) + w.marks.len() + (if w.stat is Some {
            1int
        } else {
            0
        }) + (if w.path is Some {
            1int
        } else {
            0
        }),
{
}

proof fn lemma_extra_width(w: WidthsSpec, text: Seq<char>, fg: Option<Hue>)
    ensures
        extra_row(w, text, fg).len() == lead_cols(w).len() + 1,
{
}

proof fn lemma_lit_rows_width(inp: TableInputs, w: WidthsSpec, texts: Seq<Seq<char>>, term: Option<Seq<char>>)
    ensures
        forall|k: int| 0 <= k < lit_rows(inp, w, texts, term).len() ==> (#[trigger] lit_rows(inp, w, texts, term)[k]).len()
            == lead_cols(w).len() + 1,
{
    assert forall|k: int| 0 <= k < lit_rows(inp, w, texts, term).len() implies (#[trigger] lit_rows(
        inp,
        w,
        texts,
        term,
    )[k]).len() == lead_cols(w).len() + 1 by {
        lemma_extra_width(w, texts[k], lit(inp.color, hit_spec(texts[k], inp.search, term)));
    }
}

/// Row `i`'s block is as wide as the table, row after row.
proof fn lemma_block_width(inp: TableInputs, i: int)
    requires
        0 <= i < inp.rows.len(),
    ensures
        forall|k: int|
            0 <= k < row_block(inp, widths_spec(inp), i).len() ==> (#[trigger] row_block(inp, widths_spec(inp), i)[k]).len()
                == all_cols(widths_spec(inp)).len(),
{
    let w = widths_spec(inp);
    lemma_lead_len(w);
    let pe = path_extras(inp, w, i);
    let be = body_extras(inp, w, i);
    let fe = file_extras(inp, w, i);
    let n = lead_cols(w).len() + 1;
    assert(row_cells(inp, w, i).len() == n);
    assert forall|k: int| 0 <= k < pe.len() implies (#[trigger] pe[k]).len() == n by {
        if let (Some(_), Some(p)) = (w.path, inp.paths) {
            if 0 <= i < p.len() && p[i].len() > 0 {
                lemma_lit_rows_width(inp, w, p[i].skip(1), None);
            }
        }
    }
    assert forall|k: int| 0 <= k < be.len() implies (#[trigger] be[k]).len() == n by {
        if 0 <= i < inp.bodies.len() {
            let lr = lit_rows(inp, w, str_views(inp.bodies[i].0@), inp.message);
            lemma_lit_rows_width(inp, w, str_views(inp.bodies[i].0@), inp.message);
            if k < lr.len() {
                assert(be[k] == lr[k]);
            } else {
                lemma_extra_width(w, "+"@ + decimal(inp.bodies[i].1 as nat) + " more"@, None);
            }
        }
    }
    assert forall|k: int| 0 <= k < fe.len() implies (#[trigger] fe[k]).len() == n by {
        if !inp.squash && 0 <= i < inp.files.len() {
            lemma_lit_rows_width(inp, w, stat_lines_spec(stat_views(inp.files[i]@)), inp.file);
        }
    }
    let b = row_block(inp, w, i);
    assert forall|k: int| 0 <= k < b.len() implies (#[trigger] b[k]).len() == n by {
        if k == 0 {
        } else if k < 1 + pe.len() {
            assert(b[k] == pe[k - 1]);
        } else if k < 1 + pe.len() + be.len() {
            assert(b[k] == be[k - 1 - pe.len()]);
        } else {
            assert(b[k] == fe[k - 1 - pe.len() - be.len()]);
        }
    }
}

proof fn lemma_blocks_width(inp: TableInputs, n: nat)
    requires
        n <= inp.rows.len(),
    ensures
        forall|k: int|
            0 <= k < blocks(inp, widths_spec(inp), n).len() ==> (#[trigger] blocks(inp, widths_spec(inp), n)[k]).len()
                == all_cols(widths_spec(inp)).len(),
    decreases n,
{
    if n > 0 {
        let w = widths_spec(inp);
        lemma_blocks_width(inp, (n - 1) as nat);
        lemma_block_width(inp, n - 1);
        let a = blocks(inp, w, (n - 1) as nat);
        let b = row_block(inp, w, n - 1);
        assert forall|k: int| 0 <= k < blocks(inp, w, n).len() implies (#[trigger] blocks(inp, w, n)[k]).len()
            == all_cols(w).len() by {
            if k < a.len() {
                assert(blocks(inp, w, n)[k] == a[k]);
            } else {
                assert(blocks(inp, w, n)[k] == b[k - a.len()]);
            }
        }
    }
}

/// The table never comes apart: the header and every body row, a commit
/// or a line folded under one, hold exactly one cell per column.
pub proof fn lemma_table_is_rectangular(inp: TableInputs)
    ensures
        table_spec(inp).header.len() == table_spec(inp).cols.len(),
        forall|k: int|
            0 <= k < table_spec(inp).body.len() ==> (#[trigger] table_spec(inp).body[k]).len() == table_spec(
                inp,
            ).cols.len(),
{
    let w = widths_spec(inp);
    let t = table_spec(inp);
    lemma_blocks_width(inp, inp.rows.len());
    lemma_lead_len(w);
    let a = blocks(inp, w, inp.rows.len());
    let sq = squash_rows(inp, w);
    assert forall|k: int| 0 <= k < sq.len() implies (#[trigger] sq[k]).len() == all_cols(w).len() by {
        if inp.squash && inp.consolidated.len() > 0 {
            lemma_lit_rows_width(inp, w, stat_lines_spec(inp.consolidated), inp.file);
            if k == 0 {
                lemma_extra_width(w, "consolidated files"@, None);
            } else {
                assert(sq[k] == lit_rows(inp, w, stat_lines_spec(inp.consolidated), inp.file)[k - 1]);
            }
        }
    }
    assert forall|k: int| 0 <= k < t.body.len() implies (#[trigger] t.body[k]).len() == t.cols.len() by {
        if k < a.len() {
            assert(t.body[k] == a[k]);
        } else {
            assert(t.body[k] == sq[k - a.len()]);
        }
    }
}

fn opt_as_str(o: &Option<String>) -> (r: Option<&str>)
    ensures
        opt_str(r) == crate::worktree::opt_view(*o),
{
    match o {
        Some(s) => Some(s.as_str()),
        None => None,
    }
}

fn lit_hue(color: bool, hit: bool) -> (r: Option<Hue>)
    ensures
        r == lit(color, hit),
{
    if color && hit {
        Some(Hue::BrightBlue)
    } else {
        None
    }
}

fn tint_for(fg: Option<Hue>) -> (t: Tint)
    ensures
        t == tint_of(fg),
{
    match fg {
        Some(h) => Tint::Lit(h),
        None => Tint::Plain,
    }
}

/// Lines folded under a row: see `lit_rows`.
fn lit_rows_of(
    w: &Widths,
    lead: &Vec<(Vec<char>, usize, Align)>,
    texts: &[String],
    from: usize,
    term: Option<&str>,
    color: bool,
    hl: &Highlight,
    Ghost(inp): Ghost<TableInputs>,
) -> (r: Vec<Vec<CellPlan>>)
    requires
        lead_views(lead@) == lead_cols(w@),
        inp.color == color,
        inp.search == str_views(hl.search@),
        from <= texts.len(),
    ensures
        row_cell_views(r@) == lit_rows(inp, w@, str_views(texts@).skip(from as int), opt_str(term)),
{
    let ghost want = lit_rows(inp, w@, str_views(texts@).skip(from as int), opt_str(term));
    let mut r: Vec<Vec<CellPlan>> = Vec::new();
    let mut k: usize = from;
    while k < texts.len()
        invariant
            from <= k <= texts.len(),
            lead_views(lead@) == lead_cols(w@),
            inp.color == color,
            inp.search == str_views(hl.search@),
            want == lit_rows(inp, w@, str_views(texts@).skip(from as int), opt_str(term)),
            want.len() == texts.len() - from,
            row_cell_views(r@) == want.take(k - from),
        decreases texts.len() - k,
    {
        let t = texts[k].as_str();
        assert(str_views(texts@).skip(from as int)[k - from] == t@);
        let fg = lit_hue(color, hits(t, hl, term));
        let row = extra_row_of(w, lead, t, fg);
        let ghost before = row_cell_views(r@);
        r.push(row);
        assert(row_cell_views(r@) =~= before.push(want[k - from]));
        assert(want.take(k + 1 - from) =~= want.take(k - from).push(want[k - from]));
        k = k + 1;
    }
    assert(want.take(texts.len() - from) =~= want);
    r
}

fn push_cell(out: &mut Vec<CellPlan>, text: String, tint: Tint)
    ensures
        cell_views(final(out)@) == cell_views(old(out)@).push(cell(text@, tint)),
{
    let ghost before = cell_views(out@);
    out.push(CellPlan { text, tint });
    assert(cell_views(out@) =~= before.push(cell(text@, tint)));
}

fn empty_string() -> (s: String)
    ensures
        s@ == Seq::<char>::empty(),
{
    let e: Vec<char> = Vec::new();
    string_of(e.as_slice())
}

fn front_of(
    w: &Widths,
    r: &CommitRow,
    i: usize,
    picks: Option<&[Pick]>,
    color: bool,
    hl: &Highlight,
    Ghost(inp): Ghost<TableInputs>,
) -> (out: Vec<CellPlan>)
    requires
        inp.picks == pick_pairs(picks),
        inp.color == color,
        inp.search == str_views(hl.search@),
        inp.shas == str_views(hl.shas@),
        inp.hl_author == hl.author,
        inp.hl_date == hl.date,
        0 <= i < inp.rows.len(),
        inp.rows[i as int] == r@,
    ensures
        cell_views(out@) == front_cells(inp, w@, i as int),
{
    let mut out: Vec<CellPlan> = Vec::new();
    let sha_hit = hits(r.short.as_str(), hl, None);
    let named = member(hl.shas.as_slice(), r.sha.as_str());
    push_cell(&mut out, pad_cell(r.short.as_str(), w.sha), tint_for(cell_hue(color, sha_hit, named, Hue::BrightYellow)));
    match (picks, w.pick) {
        (Some(ps), Some(pw)) => {
            let pc = match find_pick(ps, r.sha.as_str()) {
                Some(k) => abbrev(ps[k].other.as_str(), w.sha),
                None => empty_string(),
            };
            let h = hits(pc.as_str(), hl, None);
            let t = tint_for(cell_hue(color, h, true, Hue::Yellow));
            push_cell(&mut out, pad_cell(pc.as_str(), pw), t);
        },
        _ => {},
    }
    let a = ellipsize(r.author.as_str(), w.author);
    let ah = hits(a.as_str(), hl, None);
    push_cell(&mut out, pad_cell(a.as_str(), w.author), tint_for(cell_hue(color, ah, hl.author, Hue::BrightYellow)));
    let dh = hits(r.date.as_str(), hl, None);
    push_cell(&mut out, pad_cell(r.date.as_str(), w.date), tint_for(cell_hue(color, dh, hl.date, Hue::BrightYellow)));
    assert(cell_views(out@) =~= front_cells(inp, w@, i as int));
    out
}

fn marks_of(
    out: &mut Vec<CellPlan>,
    w: &Widths,
    sha: &str,
    sets: &[Vec<String>],
    equiv: &[Vec<String>],
    trailer: &[Vec<String>],
    author_match: &[Vec<String>],
    color: bool,
    Ghost(inp): Ghost<TableInputs>,
)
    requires
        inp.sets == crate::commits::md::set_views(sets@),
        inp.equiv == crate::commits::md::set_views(equiv@),
        inp.trailer == crate::commits::md::set_views(trailer@),
        inp.author_match == crate::commits::md::set_views(author_match@),
        inp.color == color,
        sets.len() >= w.marks.len(),
        equiv.len() >= w.marks.len(),
        trailer.len() >= w.marks.len(),
        author_match.len() >= w.marks.len(),
    ensures
        cell_views(final(out)@) == cell_views(old(out)@) + Seq::new(w.marks.len() as nat, |j: int| mark_cell(inp, sha@, j)),
{
    let ghost start = cell_views(out@);
    let mut k: usize = 0;
    while k < w.marks.len()
        invariant
            k <= w.marks.len(),
            inp.sets == crate::commits::md::set_views(sets@),
            inp.equiv == crate::commits::md::set_views(equiv@),
            inp.trailer == crate::commits::md::set_views(trailer@),
            inp.author_match == crate::commits::md::set_views(author_match@),
            inp.color == color,
            sets.len() >= w.marks.len(),
            equiv.len() >= w.marks.len(),
            trailer.len() >= w.marks.len(),
            author_match.len() >= w.marks.len(),
            cell_views(out@) == start + Seq::new(k as nat, |j: int| mark_cell(inp, sha@, j)),
        decreases w.marks.len() - k,
    {
        let m = Mark::of(sha, sets[k].as_slice(), equiv[k].as_slice(), trailer[k].as_slice(), author_match[k].as_slice());
        let fg = if color {
            mark_fg(m)
        } else {
            None
        };
        let g = string_of(chars_of(m.glyph()).as_slice());
        push_cell(out, g, tint_for(fg));
        assert(Seq::new(k as nat, |j: int| mark_cell(inp, sha@, j)).push(mark_cell(inp, sha@, k as int))
            =~= Seq::new((k + 1) as nat, |j: int| mark_cell(inp, sha@, j)));
        k = k + 1;
    }
}

fn back_of(
    out: &mut Vec<CellPlan>,
    w: &Widths,
    r: &CommitRow,
    i: usize,
    stats: Option<&[(Option<usize>, Option<usize>)]>,
    row_paths: Option<&[Vec<String>]>,
    color: bool,
    lines: usize,
    hl: &Highlight,
    Ghost(inp): Ghost<TableInputs>,
)
    requires
        inp.stats == opt_seq(stats),
        inp.paths == path_views(row_paths),
        inp.color == color,
        inp.search == str_views(hl.search@),
        inp.message == crate::worktree::opt_view(hl.message),
        inp.lines == lines as nat,
        0 <= i < inp.rows.len(),
        inp.rows[i as int] == r@,
        inp.stats matches Some(st) ==> i < st.len(),
    ensures
        cell_views(final(out)@) == cell_views(old(out)@) + back_cells(inp, w@, i as int),
{
    let ghost start = cell_views(out@);
    match (stats, w.stat) {
        (Some(st), Some(sw)) => {
            let sc = stat_cell(st[i].0, st[i].1);
            push_cell(out, pad_cell(sc.as_str(), sw), Tint::Plain);
        },
        _ => {},
    }
    match w.path {
        Some(pw) => {
            let fp: String = match row_paths {
                Some(p) => if i < p.len() && p[i].len() > 0 {
                    p[i][0].clone()
                } else {
                    empty_string()
                },
                None => empty_string(),
            };
            proof {
                if let Some(p) = row_paths {
                    if i < p.len() && p[i as int].len() > 0 {
                        assert(path_views(row_paths) matches Some(pv) && pv[i as int][0] == p@[i as int]@[0]@);
                    }
                }
            }
            let pcut = ellipsize(fp.as_str(), pw);
            let ph = hits(pcut.as_str(), hl, None);
            push_cell(out, pad_cell(pcut.as_str(), pw), tint_for(lit_hue(color, ph)));
        },
        None => {},
    }
    let wrapped = wrap_text(r.text.as_str(), w.text, lines);
    let th = hits(r.text.as_str(), hl, opt_as_str(&hl.message));
    push_cell(out, pad_lines(wrapped.as_slice(), w.text), tint_for(lit_hue(color, th)));
    assert(cell_views(out@) =~= start + back_cells(inp, w@, i as int));
}

/// Row `i`'s cells: see `row_cells`.
fn row_cells_of(
    w: &Widths,
    r: &CommitRow,
    i: usize,
    sets: &[Vec<String>],
    equiv: &[Vec<String>],
    trailer: &[Vec<String>],
    author_match: &[Vec<String>],
    picks: Option<&[Pick]>,
    stats: Option<&[(Option<usize>, Option<usize>)]>,
    row_paths: Option<&[Vec<String>]>,
    color: bool,
    lines: usize,
    hl: &Highlight,
    Ghost(inp): Ghost<TableInputs>,
) -> (out: Vec<CellPlan>)
    requires
        reads(inp, sets, equiv, trailer, author_match, picks, stats, row_paths, color, hl),
        inp.lines == lines as nat,
        0 <= i < inp.rows.len(),
        inp.rows[i as int] == r@,
        sets.len() >= w.marks.len(),
        equiv.len() >= w.marks.len(),
        trailer.len() >= w.marks.len(),
        author_match.len() >= w.marks.len(),
        inp.stats matches Some(st) ==> i < st.len(),
    ensures
        cell_views(out@) == row_cells(inp, w@, i as int),
{
    let mut out = front_of(w, r, i, picks, color, hl, Ghost(inp));
    marks_of(&mut out, w, r.sha.as_str(), sets, equiv, trailer, author_match, color, Ghost(inp));
    back_of(&mut out, w, r, i, stats, row_paths, color, lines, hl, Ghost(inp));
    out
}

fn append_rows(out: &mut Vec<Vec<CellPlan>>, more: Vec<Vec<CellPlan>>)
    ensures
        row_cell_views(final(out)@) == row_cell_views(old(out)@) + row_cell_views(more@),
{
    let ghost a = row_cell_views(out@);
    let ghost b = row_cell_views(more@);
    let mut more = more;
    out.append(&mut more);
    assert(row_cell_views(out@) =~= a + b);
}

fn push_row(out: &mut Vec<Vec<CellPlan>>, row: Vec<CellPlan>)
    ensures
        row_cell_views(final(out)@) == row_cell_views(old(out)@).push(cell_views(row@)),
{
    let ghost a = row_cell_views(out@);
    out.push(row);
    assert(row_cell_views(out@) =~= a.push(cell_views(row@)));
}

/// What `row_block` folds under a row: see `path_extras`, `body_extras`
/// and `file_extras`.
fn extras_of(
    out: &mut Vec<Vec<CellPlan>>,
    w: &Widths,
    lead: &Vec<(Vec<char>, usize, Align)>,
    i: usize,
    row_files: &[Vec<FileStat>],
    row_bodies: &[(Vec<String>, usize)],
    row_paths: Option<&[Vec<String>]>,
    squash: bool,
    color: bool,
    hl: &Highlight,
    Ghost(inp): Ghost<TableInputs>,
)
    requires
        lead_views(lead@) == lead_cols(w@),
        inp.files == row_files@,
        inp.bodies == row_bodies@,
        inp.paths == path_views(row_paths),
        inp.squash == squash,
        inp.color == color,
        inp.search == str_views(hl.search@),
        inp.message == crate::worktree::opt_view(hl.message),
        inp.file == crate::worktree::opt_view(hl.file),
    ensures
        row_cell_views(final(out)@) == row_cell_views(old(out)@) + path_extras(inp, w@, i as int) + body_extras(
            inp,
            w@,
            i as int,
        ) + file_extras(inp, w@, i as int),
{
    let ghost start = row_cell_views(out@);
    match (w.path, row_paths) {
        (Some(_), Some(p)) => if i < p.len() && p[i].len() > 0 {
            let more = lit_rows_of(w, lead, p[i].as_slice(), 1, None, color, hl, Ghost(inp));
            assert(path_views(row_paths) matches Some(pv) && pv[i as int] == str_views(p@[i as int]@));
            append_rows(out, more);
        },
        _ => {},
    }
    assert(row_cell_views(out@) =~= start + path_extras(inp, w@, i as int));
    let ghost mid = row_cell_views(out@);
    if i < row_bodies.len() {
        let more = lit_rows_of(w, lead, row_bodies[i].0.as_slice(), 0, opt_as_str(&hl.message), color, hl, Ghost(inp));
        assert(str_views(row_bodies@[i as int].0@).skip(0) =~= str_views(row_bodies@[i as int].0@));
        append_rows(out, more);
        if row_bodies[i].1 > 0 {
            let mut m: Vec<char> = Vec::new();
            push_str(&mut m, "+");
            push_all(&mut m, decimal_of(row_bodies[i].1).as_slice());
            push_str(&mut m, " more");
            let t = string_of(m.as_slice());
            let row = extra_row_of(w, lead, t.as_str(), None);
            push_row(out, row);
        }
    }
    assert(row_cell_views(out@) =~= mid + body_extras(inp, w@, i as int));
    let ghost mid2 = row_cell_views(out@);
    if !squash && i < row_files.len() {
        let ls = crate::commits::files::file_stat_lines(&row_files[i]);
        let more = lit_rows_of(w, lead, ls.as_slice(), 0, opt_as_str(&hl.file), color, hl, Ghost(inp));
        assert(str_views(ls@).skip(0) =~= str_views(ls@));
        append_rows(out, more);
    }
    assert(row_cell_views(out@) =~= mid2 + file_extras(inp, w@, i as int));
}

/// The body rows: every row's block, then the squashed file block.
fn body_of(
    w: &Widths,
    lead: &Vec<(Vec<char>, usize, Align)>,
    rows: &[CommitRow],
    row_files: &[Vec<FileStat>],
    row_bodies: &[(Vec<String>, usize)],
    sets: &[Vec<String>],
    equiv: &[Vec<String>],
    trailer: &[Vec<String>],
    author_match: &[Vec<String>],
    picks: Option<&[Pick]>,
    stats: Option<&[(Option<usize>, Option<usize>)]>,
    row_paths: Option<&[Vec<String>]>,
    squash: bool,
    consolidated: &Vec<FileStat>,
    color: bool,
    lines: usize,
    hl: &Highlight,
    Ghost(inp): Ghost<TableInputs>,
) -> (out: Vec<Vec<CellPlan>>)
    requires
        lead_views(lead@) == lead_cols(w@),
        reads(inp, sets, equiv, trailer, author_match, picks, stats, row_paths, color, hl),
        inp.rows == row_views(rows@),
        inp.files == row_files@,
        inp.bodies == row_bodies@,
        inp.squash == squash,
        inp.consolidated == stat_views(consolidated@),
        inp.lines == lines as nat,
        sets.len() >= w.marks.len(),
        equiv.len() >= w.marks.len(),
        trailer.len() >= w.marks.len(),
        author_match.len() >= w.marks.len(),
        inp.stats matches Some(st) ==> rows.len() <= st.len(),
    ensures
        row_cell_views(out@) == blocks(inp, w@, rows.len() as nat) + squash_rows(inp, w@),
{
    let mut out: Vec<Vec<CellPlan>> = Vec::new();
    let mut i: usize = 0;
    while i < rows.len()
        invariant
            i <= rows.len(),
            lead_views(lead@) == lead_cols(w@),
            reads(inp, sets, equiv, trailer, author_match, picks, stats, row_paths, color, hl),
            inp.rows == row_views(rows@),
            inp.files == row_files@,
            inp.bodies == row_bodies@,
            inp.squash == squash,
            inp.lines == lines as nat,
            sets.len() >= w.marks.len(),
            equiv.len() >= w.marks.len(),
            trailer.len() >= w.marks.len(),
            author_match.len() >= w.marks.len(),
            inp.stats matches Some(st) ==> rows.len() <= st.len(),
            row_cell_views(out@) == blocks(inp, w@, i as nat),
        decreases rows.len() - i,
    {
        let cells = row_cells_of(w, &rows[i], i, sets, equiv, trailer, author_match, picks, stats, row_paths, color, lines, hl, Ghost(inp));
        push_row(&mut out, cells);
        extras_of(&mut out, w, lead, i, row_files, row_bodies, row_paths, squash, color, hl, Ghost(inp));
        assert(blocks(inp, w@, (i + 1) as nat) =~= blocks(inp, w@, i as nat) + row_block(inp, w@, i as int));
        i = i + 1;
    }
    let ghost done = row_cell_views(out@);
    if squash && consolidated.len() > 0 {
        let head = extra_row_of(w, lead, "consolidated files", None);
        push_row(&mut out, head);
        let ls = crate::commits::files::file_stat_lines(consolidated);
        let more = lit_rows_of(w, lead, ls.as_slice(), 0, opt_as_str(&hl.file), color, hl, Ghost(inp));
        assert(str_views(ls@).skip(0) =~= str_views(ls@));
        append_rows(&mut out, more);
    }
    assert(row_cell_views(out@) =~= done + squash_rows(inp, w@));
    out
}

// ---------------------------------------------------------------------------
// The tables
// ---------------------------------------------------------------------------

/// The plan of the table `commits`, `log` and `merge --review` print: see
/// `table_spec`. `stats` and `row_paths` are `log`'s own columns.
pub fn commit_table(
    rows: &[CommitRow],
    row_files: &[Vec<FileStat>],
    row_bodies: &[(Vec<String>, usize)],
    names: &[String],
    sets: &[Vec<String>],
    equiv: &[Vec<String>],
    trailer: &[Vec<String>],
    author_match: &[Vec<String>],
    picks: Option<&[Pick]>,
    stats: Option<&[(Option<usize>, Option<usize>)]>,
    row_paths: Option<&[Vec<String>]>,
    squash: bool,
    consolidated: &Vec<FileStat>,
    color: bool,
    width: Option<usize>,
    wrap: Wrap,
    subjectw: Option<SubjectWidth>,
    branchw: Option<BranchWidth>,
    pathw: Option<PathWidth>,
    hl: &Highlight,
) -> (t: TablePlan)
    requires
        sets.len() >= names.len(),
        equiv.len() >= names.len(),
        trailer.len() >= names.len(),
        author_match.len() >= names.len(),
        stats matches Some(st) ==> rows.len() <= st.len(),
        layout_fits(
            rows,
            row_files,
            row_bodies,
            names,
            picks is Some,
            stats,
            row_paths,
            width,
            subjectw,
            branchw,
            pathw,
        ),
    ensures
        t@ == table_spec(
            inputs_of(
                rows,
                row_files,
                row_bodies,
                names,
                sets,
                equiv,
                trailer,
                author_match,
                picks,
                stats,
                row_paths,
                squash,
                stat_views(consolidated@),
                color,
                width,
                wrap,
                subjectw,
                branchw,
                pathw,
                hl,
            ),
        ),
{
    let ghost inp = inputs_of(
        rows,
        row_files,
        row_bodies,
        names,
        sets,
        equiv,
        trailer,
        author_match,
        picks,
        stats,
        row_paths,
        squash,
        stat_views(consolidated@),
        color,
        width,
        wrap,
        subjectw,
        branchw,
        pathw,
        hl,
    );
    let w = table_widths(
        rows,
        row_files,
        row_bodies,
        names,
        picks.is_some(),
        stats,
        row_paths,
        width,
        subjectw,
        branchw,
        pathw,
        Ghost(inp),
    );
    assert(w@.marks.len() == names.len());
    let lead = lead_of(&w);
    let cols = cols_of(&w, &lead);
    let header = header_of(&w, &lead, color);
    let body = body_of(
        &w,
        &lead,
        rows,
        row_files,
        row_bodies,
        sets,
        equiv,
        trailer,
        author_match,
        picks,
        stats,
        row_paths,
        squash,
        consolidated,
        color,
        wrap.lines(),
        hl,
        Ghost(inp),
    );
    TablePlan { cols, header, body }
}

/// The block `--squash` folds under the table: with it, every path the
/// rows' file blocks touch, once, in path order, each line the sum of that
/// path's lines (see `consolidate_file_stats`); without it, none.
pub open spec fn squash_block(squash: bool, row_files: Seq<Vec<FileStat>>, c: Seq<FileStatSpec>) -> bool {
    if squash {
        &&& crate::commits::files::block_strictly_sorted(c)
        &&& forall|i: int| 0 <= i < c.len() ==> crate::commits::files::squashed(#[trigger] c[i], crate::commits::files::all_files(row_files))
        &&& forall|j: int|
            0 <= j < crate::commits::files::all_files(row_files).len() ==> exists|i: int|
                0 <= i < c.len() && (#[trigger] c[i]).path == (#[trigger] crate::commits::files::all_files(row_files)[j]).path
    } else {
        c.len() == 0
    }
}

/// `commits` (and `merge --review`): the legend line naming the glyphs the
/// table can carry, when it has one, and the table as Stanza draws
/// `commit_table`'s plan (the per-row file blocks squashed into one under
/// `--squash`).
pub fn render_commits(
    rows: &[CommitRow],
    row_files: &[Vec<FileStat>],
    row_bodies: &[(Vec<String>, usize)],
    names: &[String],
    sets: &[Vec<String>],
    equiv: &[Vec<String>],
    trailer: &[Vec<String>],
    author_match: &[Vec<String>],
    picks: Option<&[Pick]>,
    squash: bool,
    color: bool,
    width: Option<usize>,
    wrap: Wrap,
    subjectw: Option<SubjectWidth>,
    branchw: Option<BranchWidth>,
    hl: &Highlight,
) -> (r: (Option<String>, String))
    requires
        sets.len() >= names.len(),
        equiv.len() >= names.len(),
        trailer.len() >= names.len(),
        author_match.len() >= names.len(),
        squash ==> crate::commits::files::churn(crate::commits::files::all_files(row_files@)) <= usize::MAX,
        layout_fits(rows, row_files, row_bodies, names, picks is Some, None, None, width, subjectw, branchw, None),
    ensures
        match r.0 {
            Some(l) => term_legend_spec(
                row_views(rows@),
                names.len() as nat,
                sets@,
                equiv@,
                trailer@,
                author_match@,
                color,
            ) == Some(l@),
            None => term_legend_spec(
                row_views(rows@),
                names.len() as nat,
                sets@,
                equiv@,
                trailer@,
                author_match@,
                color,
            ) is None,
        },
        exists|c: Seq<FileStatSpec>|
            squash_block(squash, row_files@, c) && r.1@ == drawn(
                table_spec(
                    inputs_of(
                        rows,
                        row_files,
                        row_bodies,
                        names,
                        sets,
                        equiv,
                        trailer,
                        author_match,
                        picks,
                        None,
                        None,
                        squash,
                        c,
                        color,
                        width,
                        wrap,
                        subjectw,
                        branchw,
                        None,
                        hl,
                    ),
                ),
            ),
{
    let legend = term_legend(rows, names.len(), sets, equiv, trailer, author_match, color);
    let consolidated = if squash {
        crate::commits::files::consolidate_file_stats(row_files)
    } else {
        Vec::new()
    };
    proof {
        let c = stat_views(consolidated@);
        let a = crate::commits::files::all_files(row_files@);
        if squash {
            assert forall|j: int| 0 <= j < a.len() implies exists|i: int|
                0 <= i < c.len() && (#[trigger] c[i]).path == (#[trigger] a[j]).path by {
                let i = choose|i: int| 0 <= i < consolidated.len() && (#[trigger] consolidated@[i]).path@ == a[j].path;
                assert(c[i].path == consolidated@[i].path@);
            }
        }
        assert(squash_block(squash, row_files@, c));
    }
    let plan = commit_table(
        rows,
        row_files,
        row_bodies,
        names,
        sets,
        equiv,
        trailer,
        author_match,
        picks,
        None,
        None,
        squash,
        &consolidated,
        color,
        width,
        wrap,
        subjectw,
        branchw,
        None,
        hl,
    );
    proof {
        lemma_table_has_columns();
    }
    (legend, stanza_draw(&plan))
}

/// `log`: the legend line, when it has one, and the table as Stanza draws
/// `commit_table`'s plan with `log`'s own columns, each row's churn on the
/// path (`stats`) and, when given, the paths it touched.
pub fn render_log(
    rows: &[CommitRow],
    stats: &[(Option<usize>, Option<usize>)],
    row_paths: Option<&[Vec<String>]>,
    row_files: &[Vec<FileStat>],
    row_bodies: &[(Vec<String>, usize)],
    names: &[String],
    sets: &[Vec<String>],
    equiv: &[Vec<String>],
    trailer: &[Vec<String>],
    author_match: &[Vec<String>],
    picks: Option<&[Pick]>,
    color: bool,
    width: Option<usize>,
    wrap: Wrap,
    subjectw: Option<SubjectWidth>,
    branchw: Option<BranchWidth>,
    pathw: Option<PathWidth>,
    hl: &Highlight,
) -> (r: (Option<String>, String))
    requires
        sets.len() >= names.len(),
        equiv.len() >= names.len(),
        trailer.len() >= names.len(),
        author_match.len() >= names.len(),
        rows.len() <= stats.len(),
        layout_fits(
            rows,
            row_files,
            row_bodies,
            names,
            picks is Some,
            Some(stats),
            row_paths,
            width,
            subjectw,
            branchw,
            pathw,
        ),
    ensures
        match r.0 {
            Some(l) => term_legend_spec(
                row_views(rows@),
                names.len() as nat,
                sets@,
                equiv@,
                trailer@,
                author_match@,
                color,
            ) == Some(l@),
            None => term_legend_spec(
                row_views(rows@),
                names.len() as nat,
                sets@,
                equiv@,
                trailer@,
                author_match@,
                color,
            ) is None,
        },
        r.1@ == drawn(
            table_spec(
                inputs_of(
                    rows,
                    row_files,
                    row_bodies,
                    names,
                    sets,
                    equiv,
                    trailer,
                    author_match,
                    picks,
                    Some(stats),
                    row_paths,
                    false,
                    Seq::empty(),
                    color,
                    width,
                    wrap,
                    subjectw,
                    branchw,
                    pathw,
                    hl,
                ),
            ),
        ),
{
    let legend = term_legend(rows, names.len(), sets, equiv, trailer, author_match, color);
    let none: Vec<FileStat> = Vec::new();
    assert(stat_views(none@) =~= Seq::<FileStatSpec>::empty());
    let plan = commit_table(
        rows,
        row_files,
        row_bodies,
        names,
        sets,
        equiv,
        trailer,
        author_match,
        picks,
        Some(stats),
        row_paths,
        false,
        &none,
        color,
        width,
        wrap,
        subjectw,
        branchw,
        pathw,
        hl,
    );
    proof {
        lemma_table_has_columns();
    }
    (legend, stanza_draw(&plan))
}

} // verus!
