//! What the terminal table of `commits`, `log` and `merge --review` decides
//! before any cell is drawn: which cells a filter lit, which hue each mark
//! takes, the legend above the table, the subject column's width, and the
//! padding every cell carries.

use vstd::prelude::*;

use crate::commits::args::SubjectWidth;
use crate::commits::files::{count_cell, file_stat_lines, stat_lines_spec, stat_views, FileStat};
use crate::commits::md::{
    any_filled, any_has, any_has_row, any_nonempty, body_views, joined, push_joined, set_views,
};
use crate::commits::rows::{opt_str, row_views, CommitRow, CommitRowSpec, Mark};
use crate::style::{
    paint_spec, push_painted, BLUE, CHECK, DIM, EQUIV, FINGERPRINT, GREEN, MAGENTA, MIN_TEXTW, MISS,
    TRAILER, YELLOW,
};
use crate::text::{
    chars_of, contains, contains_spec, lowercase, max_nat, max_of, pad_right_spec, push_all,
    push_pad_right, push_str, str_views, string_of, to_lower, widest,
};

verus! {

// ---------------------------------------------------------------------------
// Highlighting
// ---------------------------------------------------------------------------

/// Which cells a filter acted on, so that the eye can find them in a long
/// table: the column a date filter or `--author` read, the commits named
/// outright, and the text terms (lowercased) that light a cell holding them.
#[derive(Debug)]
pub struct Highlight {
    pub date: bool,
    pub author: bool,
    pub shas: Vec<String>,
    /// The `--message` term, or `None` when it was not asked for.
    pub message: Option<String>,
    /// The `--filename` term, or `None` when it was not asked for.
    pub file: Option<String>,
    /// `--search`'s terms: highlight only, lit wherever they sit.
    pub search: Vec<String>,
}

impl Default for Highlight {
    fn default() -> (h: Highlight)
        ensures
            !h.date,
            !h.author,
            h.shas@.len() == 0,
            h.message is None,
            h.file is None,
            h.search@.len() == 0,
    {
        Highlight {
            date: false,
            author: false,
            shas: Vec::new(),
            message: None,
            file: None,
            search: Vec::new(),
        }
    }
}

/// `text` holds, ignoring case, `term` (when one is given and not empty) or
/// one of the search terms that is not empty.
pub open spec fn hit_spec(text: Seq<char>, search: Seq<Seq<char>>, term: Option<Seq<char>>) -> bool {
    let low = lowercase(text);
    ||| (term matches Some(t) && t.len() > 0 && contains_spec(low, lowercase(t)))
    ||| exists|k: int|
        0 <= k < search.len() && (#[trigger] search[k]).len() > 0 && contains_spec(
            low,
            lowercase(search[k]),
        )
}

/// Does `text` contain any of the search terms, or `term`, ignoring case?
pub fn hits(text: &str, hl: &Highlight, term: Option<&str>) -> (r: bool)
    ensures
        r == hit_spec(text@, str_views(hl.search@), opt_str(term)),
{
    let low = chars_of(to_lower(text).as_str());
    if let Some(t) = term {
        if !t.is_empty() {
            let lt = chars_of(to_lower(t).as_str());
            if contains(low.as_slice(), lt.as_slice()) {
                return true;
            }
        }
    }
    let ghost sv = str_views(hl.search@);
    let mut k: usize = 0;
    while k < hl.search.len()
        invariant
            k <= hl.search.len(),
            sv == str_views(hl.search@),
            low@ == lowercase(text@),
            !(opt_str(term) matches Some(t) && t.len() > 0 && contains_spec(low@, lowercase(t))),
            forall|j: int|
                0 <= j < k ==> !((#[trigger] sv[j]).len() > 0 && contains_spec(
                    low@,
                    lowercase(sv[j]),
                )),
        decreases hl.search.len() - k,
    {
        let s = hl.search[k].as_str();
        assert(sv[k as int] == s@);
        if !s.is_empty() {
            let ls = chars_of(to_lower(s).as_str());
            if contains(low.as_slice(), ls.as_slice()) {
                return true;
            }
        }
        k = k + 1;
    }
    false
}

/// The foreground hues the table paints with.
#[derive(Debug, Clone, Copy, PartialEq, Eq, Structural)]
pub enum Hue {
    Green,
    Yellow,
    Blue,
    Magenta,
    BrightRed,
    BrightMagenta,
    BrightBlue,
    BrightCyan,
    BrightGreen,
    BrightYellow,
}

/// The hue of a mark glyph; a miss keeps the terminal's default.
pub open spec fn mark_hue(m: Mark) -> Option<Hue> {
    match m {
        Mark::Has => Some(Hue::Green),
        Mark::Equivalent => Some(Hue::Yellow),
        Mark::Trailer => Some(Hue::Blue),
        Mark::AuthorMatch => Some(Hue::Magenta),
        Mark::Missing => None,
    }
}

/// The foreground a mark glyph is drawn in.
pub fn mark_fg(m: Mark) -> (r: Option<Hue>)
    ensures
        r == mark_hue(m),
{
    match m {
        Mark::Has => Some(Hue::Green),
        Mark::Equivalent => Some(Hue::Yellow),
        Mark::Trailer => Some(Hue::Blue),
        Mark::AuthorMatch => Some(Hue::Magenta),
        Mark::Missing => None,
    }
}

/// The one accent every search or filter hit shares.
pub open spec fn hit_hue() -> Hue {
    Hue::BrightBlue
}

/// The hue of a cell a filter may have acted on: the hit accent when the
/// cell holds a hit, the filter's own accent when the filter read this
/// column, nothing otherwise, and nothing at all without color.
pub open spec fn cell_hue_spec(color: bool, hit: bool, read: bool, read_hue: Hue) -> Option<Hue> {
    if !color {
        None
    } else if hit {
        Some(hit_hue())
    } else if read {
        Some(read_hue)
    } else {
        None
    }
}

/// The hue of a cell: see `cell_hue_spec`.
pub fn cell_hue(color: bool, hit: bool, read: bool, read_hue: Hue) -> (r: Option<Hue>)
    ensures
        r == cell_hue_spec(color, hit, read, read_hue),
{
    if !color {
        None
    } else if hit {
        Some(Hue::BrightBlue)
    } else if read {
        Some(read_hue)
    } else {
        None
    }
}

/// The hues the header row cycles through, column by column.
pub open spec fn header_hue_spec(k: nat) -> Hue {
    let i = k % 6;
    if i == 0 {
        Hue::BrightRed
    } else if i == 1 {
        Hue::BrightMagenta
    } else if i == 2 {
        Hue::BrightBlue
    } else if i == 3 {
        Hue::BrightCyan
    } else if i == 4 {
        Hue::BrightGreen
    } else {
        Hue::BrightYellow
    }
}

/// The header hue of column `k`.
pub fn header_hue(k: usize) -> (r: Hue)
    ensures
        r == header_hue_spec(k as nat),
{
    let i = k % 6;
    if i == 0 {
        Hue::BrightRed
    } else if i == 1 {
        Hue::BrightMagenta
    } else if i == 2 {
        Hue::BrightBlue
    } else if i == 3 {
        Hue::BrightCyan
    } else if i == 4 {
        Hue::BrightGreen
    } else {
        Hue::BrightYellow
    }
}

// ---------------------------------------------------------------------------
// Cells
// ---------------------------------------------------------------------------

/// One space of padding on each side, the text left-aligned in `width`.
pub open spec fn pad_cell_spec(s: Seq<char>, width: nat) -> Seq<char> {
    " "@ + pad_right_spec(s, width) + " "@
}

/// A cell's content: `s` padded to `width`, a space on each side.
pub fn pad_cell(s: &str, width: usize) -> (r: String)
    ensures
        r@ == pad_cell_spec(s@, width as nat),
{
    let mut out: Vec<char> = Vec::new();
    push_str(&mut out, " ");
    let cs = chars_of(s);
    push_pad_right(&mut out, cs.as_slice(), width);
    push_str(&mut out, " ");
    string_of(out.as_slice())
}

/// Lines of one cell, each padded as a cell is, joined by newlines.
pub open spec fn pad_lines_spec(lines: Seq<Seq<char>>, width: nat) -> Seq<char> {
    joined(lines.map_values(|l: Seq<char>| pad_cell_spec(l, width)), "\n"@)
}

/// A wrapped subject's lines as one cell's content.
pub fn pad_lines(lines: &[String], width: usize) -> (r: String)
    ensures
        r@ == pad_lines_spec(str_views(lines@), width as nat),
{
    let ghost padded = str_views(lines@).map_values(|l: Seq<char>| pad_cell_spec(l, width as nat));
    let mut out: Vec<char> = Vec::new();
    let mut i: usize = 0;
    while i < lines.len()
        invariant
            i <= lines.len(),
            padded == str_views(lines@).map_values(|l: Seq<char>| pad_cell_spec(l, width as nat)),
            out@ == joined(padded.take(i as int), "\n"@),
        decreases lines.len() - i,
    {
        let ghost before = out@;
        let cell = pad_cell(lines[i].as_str(), width);
        assert(padded.take(i + 1).drop_last() =~= padded.take(i as int));
        assert(padded.take(i + 1).last() == cell@);
        if i > 0 {
            push_str(&mut out, "\n");
            push_str(&mut out, cell.as_str());
            assert(out@ =~= joined(padded.take(i + 1), "\n"@));
        } else {
            push_str(&mut out, cell.as_str());
            assert(out@ =~= joined(padded.take(i + 1), "\n"@));
        }
        i = i + 1;
    }
    assert(padded.take(lines.len() as int) =~= padded);
    string_of(out.as_slice())
}

/// `log`'s `±` cell: the churn a commit made to the path, `-` for a count
/// git did not give.
pub open spec fn stat_cell_spec(added: Option<usize>, removed: Option<usize>) -> Seq<char> {
    count_cell(added, '+') + " "@ + count_cell(removed, '-')
}

/// One row's `±` cell, e.g. `+12 -3`.
pub fn stat_cell(added: Option<usize>, removed: Option<usize>) -> (r: String)
    ensures
        r@ == stat_cell_spec(added, removed),
{
    let mut out = crate::commits::files::count_text(added, '+');
    push_str(&mut out, " ");
    let rem = crate::commits::files::count_text(removed, '-');
    push_all(&mut out, rem.as_slice());
    string_of(out.as_slice())
}

// ---------------------------------------------------------------------------
// Legend
// ---------------------------------------------------------------------------

/// A glyph painted in its hue, then its meaning dimmed.
pub open spec fn legend_entry(glyph: Seq<char>, code: Seq<char>, meaning: Seq<char>, color: bool) -> Seq<
    char,
> {
    paint_spec(glyph, code, color) + " "@ + paint_spec(meaning, DIM@, color)
}

/// The glyphs the table can carry, each with what it means.
pub open spec fn term_legend_items(has: bool, eq: bool, tr: bool, am: bool, color: bool) -> Seq<
    Seq<char>,
> {
    let a: Seq<Seq<char>> = if has {
        seq![legend_entry(CHECK@, GREEN@, "has commit"@, color)]
    } else {
        Seq::empty()
    };
    let b = if eq {
        a.push(legend_entry(EQUIV@, YELLOW@, "same patch, other sha"@, color))
    } else {
        a
    };
    let c = if tr {
        b.push(legend_entry(TRAILER@, BLUE@, "picked via -x trailer"@, color))
    } else {
        b
    };
    if am {
        c.push(legend_entry(FINGERPRINT@, MAGENTA@, "same author/date/subject"@, color))
    } else {
        c
    }
}

/// The legend line above the table: only with mark columns, naming only
/// the glyphs the table can carry, and `·` only beside another glyph.
pub open spec fn term_legend_spec(
    rows: Seq<CommitRowSpec>,
    names_len: nat,
    sets: Seq<Vec<String>>,
    equiv: Seq<Vec<String>>,
    trailer: Seq<Vec<String>>,
    author_match: Seq<Vec<String>>,
    color: bool,
) -> Option<Seq<char>> {
    let items = term_legend_items(
        any_has(rows, set_views(sets)),
        any_nonempty(equiv),
        any_nonempty(trailer),
        any_nonempty(author_match),
        color,
    );
    if names_len == 0 || items.len() == 0 {
        None
    } else {
        Some(joined(items.push(legend_entry(MISS@, DIM@, "neither"@, color)), "   "@))
    }
}

fn entry(glyph: &str, code: &str, meaning: &str, color: bool) -> (r: Vec<char>)
    ensures
        r@ == legend_entry(glyph@, code@, meaning@, color),
{
    let mut out: Vec<char> = Vec::new();
    let g = chars_of(glyph);
    push_painted(&mut out, g.as_slice(), code, color);
    push_str(&mut out, " ");
    let m = chars_of(meaning);
    push_painted(&mut out, m.as_slice(), DIM, color);
    assert(out@ =~= legend_entry(glyph@, code@, meaning@, color));
    out
}

/// The legend line the table prints above itself, if it has one.
pub fn term_legend(
    rows: &[CommitRow],
    names_len: usize,
    sets: &[Vec<String>],
    equiv: &[Vec<String>],
    trailer: &[Vec<String>],
    author_match: &[Vec<String>],
    color: bool,
) -> (r: Option<String>)
    ensures
        match r {
            Some(s) => term_legend_spec(
                row_views(rows@),
                names_len as nat,
                sets@,
                equiv@,
                trailer@,
                author_match@,
                color,
            ) == Some(s@),
            None => term_legend_spec(
                row_views(rows@),
                names_len as nat,
                sets@,
                equiv@,
                trailer@,
                author_match@,
                color,
            ) is None,
        },
{
    let has = any_has_row(rows, sets);
    let eq = any_filled(equiv);
    let tr = any_filled(trailer);
    let am = any_filled(author_match);
    let mut out: Vec<char> = Vec::new();
    let ghost mut items: Seq<Seq<char>> = Seq::empty();
    let mut count: usize = 0;
    assert(out@ =~= joined(items, "   "@));
    if has {
        let e = entry(CHECK, GREEN, "has commit", color);
        push_joined(&mut out, Ghost(items), count == 0, e.as_slice(), "   ");
        proof {
            items = items.push(e@);
        }
        count = count + 1;
    }
    if eq {
        let e = entry(EQUIV, YELLOW, "same patch, other sha", color);
        push_joined(&mut out, Ghost(items), count == 0, e.as_slice(), "   ");
        proof {
            items = items.push(e@);
        }
        count = count + 1;
    }
    if tr {
        let e = entry(TRAILER, BLUE, "picked via -x trailer", color);
        push_joined(&mut out, Ghost(items), count == 0, e.as_slice(), "   ");
        proof {
            items = items.push(e@);
        }
        count = count + 1;
    }
    if am {
        let e = entry(FINGERPRINT, MAGENTA, "same author/date/subject", color);
        push_joined(&mut out, Ghost(items), count == 0, e.as_slice(), "   ");
        proof {
            items = items.push(e@);
        }
        count = count + 1;
    }
    assert(items =~= term_legend_items(has, eq, tr, am, color));
    if names_len == 0 || count == 0 {
        return None;
    }
    let e = entry(MISS, DIM, "neither", color);
    push_joined(&mut out, Ghost(items), false, e.as_slice(), "   ");
    Some(string_of(out.as_slice()))
}

// ---------------------------------------------------------------------------
// Widths
// ---------------------------------------------------------------------------

/// The subject texts of the rows.
pub open spec fn subjects(rows: Seq<CommitRowSpec>) -> Seq<Seq<char>> {
    rows.map_values(|r: CommitRowSpec| r.text)
}

/// The longest line folded into the subject column below some row: a line
/// of a row's file block, or a body line.
pub open spec fn extra_lines(files: Seq<Vec<FileStat>>, bodies: Seq<(Vec<String>, usize)>) -> nat {
    max_nat(
        max_of(files.map_values(|v: Vec<FileStat>| widest(stat_lines_spec(stat_views(v@))))),
        max_of(body_views(bodies).map_values(|p: (Seq<Seq<char>>, usize)| widest(p.0))),
    )
}

/// What the subject gets. A width asked for is the width; `full` fits the
/// longest subject; on a terminal the subject takes what the `fixed`
/// columns leave; off one it fits every subject and every line folded below
/// a row, so that nothing is cut. Never under `MIN_TEXTW` but when asked.
pub open spec fn subject_width_spec(
    subjectw: Option<SubjectWidth>,
    width: Option<usize>,
    fixed: nat,
    texts: nat,
    extra: nat,
) -> nat {
    match subjectw {
        Some(SubjectWidth::Cols(n)) => n as nat,
        Some(SubjectWidth::Full) => max_nat(texts, MIN_TEXTW as nat),
        None => match width {
            Some(w) => max_nat(
                if w >= fixed {
                    (w - fixed) as nat
                } else {
                    0
                },
                MIN_TEXTW as nat,
            ),
            None => max_nat(max_nat(texts, extra), MIN_TEXTW as nat),
        },
    }
}

fn widest_text(rows: &[CommitRow]) -> (w: usize)
    ensures
        w == widest(subjects(row_views(rows@))),
{
    let ghost cells = subjects(row_views(rows@));
    let mut w: usize = 0;
    let mut i: usize = 0;
    while i < rows.len()
        invariant
            i <= rows.len(),
            cells == subjects(row_views(rows@)),
            cells.len() == rows.len(),
            w == widest(cells.take(i as int)),
        decreases rows.len() - i,
    {
        assert(cells.take(i + 1).drop_last() =~= cells.take(i as int));
        assert(cells.take(i + 1).last() == rows@[i as int].text@);
        let n = chars_of(rows[i].text.as_str()).len();
        if n > w {
            w = n;
        }
        i = i + 1;
    }
    assert(cells.take(rows.len() as int) =~= cells);
    w
}

pub(crate) fn widest_strings(v: &[String]) -> (w: usize)
    ensures
        w == widest(str_views(v@)),
{
    let ghost cells = str_views(v@);
    let mut w: usize = 0;
    let mut i: usize = 0;
    while i < v.len()
        invariant
            i <= v.len(),
            cells == str_views(v@),
            w == widest(cells.take(i as int)),
        decreases v.len() - i,
    {
        assert(cells.take(i + 1).drop_last() =~= cells.take(i as int));
        assert(cells.take(i + 1).last() == v@[i as int]@);
        let n = chars_of(v[i].as_str()).len();
        if n > w {
            w = n;
        }
        i = i + 1;
    }
    assert(cells.take(v.len() as int) =~= cells);
    w
}

pub(crate) fn widest_extra(files: &[Vec<FileStat>], bodies: &[(Vec<String>, usize)]) -> (w: usize)
    ensures
        w == extra_lines(files@, bodies@),
{
    let ghost fw = files@.map_values(|v: Vec<FileStat>| widest(stat_lines_spec(stat_views(v@))));
    let mut f: usize = 0;
    let mut i: usize = 0;
    while i < files.len()
        invariant
            i <= files.len(),
            fw == files@.map_values(|v: Vec<FileStat>| widest(stat_lines_spec(stat_views(v@)))),
            f == max_of(fw.take(i as int)),
        decreases files.len() - i,
    {
        let lines = file_stat_lines(&files[i]);
        let n = widest_strings(lines.as_slice());
        assert(fw.take(i + 1).drop_last() =~= fw.take(i as int));
        assert(fw.take(i + 1).last() == n);
        if n > f {
            f = n;
        }
        i = i + 1;
    }
    assert(fw.take(files.len() as int) =~= fw);
    let ghost bw = body_views(bodies@).map_values(|p: (Seq<Seq<char>>, usize)| widest(p.0));
    let mut b: usize = 0;
    let mut k: usize = 0;
    while k < bodies.len()
        invariant
            k <= bodies.len(),
            bw == body_views(bodies@).map_values(|p: (Seq<Seq<char>>, usize)| widest(p.0)),
            bw.len() == bodies.len(),
            b == max_of(bw.take(k as int)),
        decreases bodies.len() - k,
    {
        let n = widest_strings(bodies[k].0.as_slice());
        assert(bw.take(k + 1).drop_last() =~= bw.take(k as int));
        assert(body_views(bodies@)[k as int].0 == str_views(bodies@[k as int].0@));
        assert(bw.take(k + 1).last() == n);
        if n > b {
            b = n;
        }
        k = k + 1;
    }
    assert(bw.take(bodies.len() as int) =~= bw);
    if f > b {
        f
    } else {
        b
    }
}

/// The subject column's width: see `subject_width_spec`. `fixed` is what
/// every column left of the subject takes, padding included.
pub fn subject_width(
    rows: &[CommitRow],
    row_files: &[Vec<FileStat>],
    row_bodies: &[(Vec<String>, usize)],
    subjectw: Option<SubjectWidth>,
    width: Option<usize>,
    fixed: usize,
) -> (r: usize)
    ensures
        r == subject_width_spec(
            subjectw,
            width,
            fixed as nat,
            widest(subjects(row_views(rows@))),
            extra_lines(row_files@, row_bodies@),
        ),
{
    match subjectw {
        Some(SubjectWidth::Cols(n)) => n,
        Some(SubjectWidth::Full) => {
            let t = widest_text(rows);
            if t > MIN_TEXTW {
                t
            } else {
                MIN_TEXTW
            }
        },
        None => match width {
            Some(w) => {
                let left = if w >= fixed {
                    w - fixed
                } else {
                    0
                };
                if left > MIN_TEXTW {
                    left
                } else {
                    MIN_TEXTW
                }
            },
            None => {
                let t = widest_text(rows);
                let e = widest_extra(row_files, row_bodies);
                let m = if t > e {
                    t
                } else {
                    e
                };
                if m > MIN_TEXTW {
                    m
                } else {
                    MIN_TEXTW
                }
            },
        },
    }
}

} // verus!
