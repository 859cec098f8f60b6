//! `list`: the worktree table's columns, the `--col` grammar, the row
//! layout with its tints and search highlights, and the push/pull cells.

use vstd::prelude::*;

use crate::style::{
    closed, lemma_matches_invisible, lemma_paint_invisible, lemma_visible_concat, lemma_visible_plain,
    paint_matches_spec, paint_spec, plain_text, push_matches, push_painted, visible, BLUE, SEARCH_MATCH,
};
use crate::text::{
    chars_of, decimal, decimal_of, pad_right_spec, parse_usize, parse_usize_spec, push_pad_right,
    push_str, split, split_spec, str_views, string_of, trim, trim_spec, views, words, words_spec,
    widest,
};
use crate::commits::files::{
    block_entry, block_line, block_sorted, numstat_spec, numstat_views, parse_numstat_z,
    sort_file_stats, stat_views, FileStat, FileStatSpec,
};
use crate::style::BRANCH_MIN;
use crate::text::{
    find, is_suffix, lines, lines_spec, max_nat, max_of, member, occurs_at, push_all, slice_from,
};
use crate::worktree::{label, label_spec, status_code, status_color, status_text, Status, Worktree};
use crate::text::{pad_left_spec, push_pad_left};

verus! {

/// The header label of a column id.
pub open spec fn header_spec(c: usize) -> Seq<char> {
    if c == 1 {
        "#"@
    } else if c == 2 {
        "branch"@
    } else if c == 3 {
        "path"@
    } else if c == 4 {
        "status"@
    } else if c == 5 {
        "last-commit"@
    } else if c == 6 || c == 7 {
        "merged"@
    } else if c == 8 {
        "merged-at"@
    } else if c == 9 {
        "push"@
    } else {
        "pull"@
    }
}

/// The header label of a column id.
pub fn col_header(c: usize) -> (r: &'static str)
    ensures
        r@ == header_spec(c),
{
    match c {
        1 => "#",
        2 => "branch",
        3 => "path",
        4 => "status",
        5 => "last-commit",
        6 => "merged",
        7 => "merged",
        8 => "merged-at",
        9 => "push",
        _ => "pull",
    }
}

/// The column ids `--col` takes.
pub const COL_HELP: &'static str = "1=id, 2=branch, 3=dir, 4=status, 5=last-commit, 6=merged, 7=merged-ref, 8=merged-at, 9=push, 10=pull";

/// The columns named by the comma-separated `parts` from `i` on: blanks
/// skipped, the first part that is not a number or not a column failing.
pub open spec fn cols_from(parts: Seq<Seq<char>>, i: int) -> Result<Seq<usize>, Seq<char>>
    decreases parts.len() - i,
{
    if i < 0 || i >= parts.len() {
        Ok(Seq::empty())
    } else {
        let p = trim_spec(parts[i]);
        if p.len() == 0 {
            cols_from(parts, i + 1)
        } else {
            match parse_usize_spec(p) {
                None => Err("bad column '"@ + p + "' (use "@ + COL_HELP@ + ")"@),
                Some(n) => if n < 1 || n > 10 {
                    Err("no column "@ + decimal(n as nat) + " (use "@ + COL_HELP@ + ")"@)
                } else {
                    match cols_from(parts, i + 1) {
                        Ok(v) => Ok(seq![n] + v),
                        Err(e) => Err(e),
                    }
                },
            }
        }
    }
}

/// What `--col` with value `s` selects: at least one column.
pub open spec fn parse_cols_spec(s: Seq<char>) -> Result<Seq<usize>, Seq<char>> {
    match cols_from(split_spec(s, ','), 0) {
        Ok(v) => if v.len() == 0 {
            Err("--col needs columns, e.g. 1,2,3"@)
        } else {
            Ok(v)
        },
        Err(e) => Err(e),
    }
}

pub open spec fn cols_result(r: Result<Vec<usize>, String>) -> Result<Seq<usize>, Seq<char>> {
    match r {
        Ok(v) => Ok(v@),
        Err(e) => Err(e@),
    }
}

/// Parse a `--col` value like `1,2,4` into column ids.
pub fn parse_cols(s: &str) -> (r: Result<Vec<usize>, String>)
    ensures
        cols_result(r) == parse_cols_spec(s@),
{
    let c = chars_of(s);
    let parts = split(c.as_slice(), ',');
    let ghost pv = views(parts@);
    let mut v: Vec<usize> = Vec::new();
    let mut i: usize = 0;
    while i < parts.len()
        invariant
            i <= parts.len(),
            pv == views(parts@),
            pv == split_spec(s@, ','),
            cols_from(pv, 0) == match cols_from(pv, i as int) {
                Ok(w) => Ok(v@ + w),
                Err(e) => Err(e),
            },
        decreases parts.len() - i,
    {
        assert(pv[i as int] == parts@[i as int]@);
        let p = trim(parts[i].as_slice());
        if p.len() > 0 {
            match parse_usize(p.as_slice()) {
                None => {
                    let mut e = chars_of("bad column '");
                    crate::text::push_all(&mut e, p.as_slice());
                    push_str(&mut e, "' (use ");
                    push_str(&mut e, COL_HELP);
                    push_str(&mut e, ")");
                    return Err(string_of(e.as_slice()));
                },
                Some(n) => {
                    if n < 1 || n > 10 {
                        let mut e = chars_of("no column ");
                        let d = decimal_of(n);
                        crate::text::push_all(&mut e, d.as_slice());
                        push_str(&mut e, " (use ");
                        push_str(&mut e, COL_HELP);
                        push_str(&mut e, ")");
                        return Err(string_of(e.as_slice()));
                    }
                    let ghost before = v@;
                    v.push(n);
                    proof {
                        match cols_from(pv, i + 1) {
                            Ok(w) => {
                                assert(before + (seq![n] + w) =~= v@ + w);
                            },
                            Err(_) => {},
                        }
                    }
                },
            }
        }
        i = i + 1;
    }
    assert(v@ + Seq::<usize>::empty() =~= v@);
    if v.len() == 0 {
        return Err("--col needs columns, e.g. 1,2,3".to_string());
    }
    Ok(v)
}

// ---------------------------------------------------------------------------
// Rows
// ---------------------------------------------------------------------------

/// One cell of a row as printed: padded to its column's width unless it is
/// the last; in a branch or path column with a search, its hits
/// highlighted over the row's tint; otherwise tinted when it is a branch
/// or status cell, color is on and the row has a tint (blue for the
/// current worktree's branch, the status color else).
pub open spec fn cell_spec(
    cell: Seq<char>,
    col: usize,
    width: usize,
    last: bool,
    code: Seq<char>,
    color: bool,
    search: Option<Seq<char>>,
) -> Seq<char> {
    let padded = if last {
        cell
    } else {
        pad_right_spec(cell, width as nat)
    };
    let tinted = (col == 2 || col == 4) && color && code.len() > 0;
    let searchable = col == 2 || col == 3;
    match search {
        Some(term) if searchable => paint_matches_spec(
            padded,
            term,
            SEARCH_MATCH@,
            if tinted {
                code
            } else {
                Seq::empty()
            },
            color,
        ),
        _ => if tinted {
            paint_spec(padded, code, true)
        } else {
            padded
        },
    }
}

proof fn lemma_spaces_plain(n: nat)
    ensures
        plain_text(crate::text::spaces(n)),
{
    if crate::text::spaces(n).contains('\x1b') {
        let k = choose|k: int| 0 <= k < n && crate::text::spaces(n)[k] == '\x1b';
    }
}

/// A cell shows the same with color as without.
proof fn lemma_cell_invisible(
    cell: Seq<char>,
    col: usize,
    width: usize,
    last: bool,
    code: Seq<char>,
    search: Option<Seq<char>>,
)
    requires
        plain_text(cell),
        search matches Some(t) ==> plain_text(t),
        !code.contains('m'),
    ensures
        visible(cell_spec(cell, col, width, last, code, true, search)) == cell_spec(cell, col, width, last, code, false, search),
        closed(cell_spec(cell, col, width, last, code, true, search)),
{
    let padded = if last {
        cell
    } else {
        pad_right_spec(cell, width as nat)
    };
    if !last && cell.len() < width {
        let sp = crate::text::spaces((width - cell.len()) as nat);
        lemma_spaces_plain((width - cell.len()) as nat);
        if (cell + sp).contains('\x1b') {
            let k = choose|k: int| 0 <= k < (cell + sp).len() && (cell + sp)[k] == '\x1b';
            if k < cell.len() {
                assert(cell[k] == '\x1b');
                assert(cell.contains('\x1b'));
            } else {
                assert(sp[k - cell.len()] == '\x1b');
                assert(sp.contains('\x1b'));
            }
        }
    }
    assert(plain_text(padded));
    let searchable = col == 2 || col == 3;
    let tinted = (col == 2 || col == 4) && code.len() > 0;
    assert(!SEARCH_MATCH@.contains('m')) by {
        reveal_strlit("1;94");
        if SEARCH_MATCH@.contains('m') {
            let k = choose|k: int| 0 <= k < SEARCH_MATCH@.len() && SEARCH_MATCH@[k] == 'm';
        }
    }
    assert(!Seq::<char>::empty().contains('m'));
    match search {
        Some(term) => {
            if searchable {
                let base = if tinted {
                    code
                } else {
                    Seq::empty()
                };
                lemma_matches_invisible(padded, term, SEARCH_MATCH@, base, 0, Seq::empty());
                assert(Seq::<char>::empty() + padded.skip(0) =~= padded);
            } else {
                lemma_paint_invisible(padded, code, tinted);
            }
        },
        None => {
            lemma_paint_invisible(padded, code, tinted);
        },
    }
}

/// Color never moves a column: what a painted row shows is the row as it
/// prints without color, cell for cell, so widths measured on the plain
/// cells hold on a terminal (for cells and a search term with no escape
/// in them, and a status code without `m`).
pub proof fn lemma_color_keeps_alignment(
    row: Seq<Seq<char>>,
    cols: Seq<usize>,
    widths: Seq<usize>,
    st_code: Seq<char>,
    search: Option<Seq<char>>,
    current: bool,
    n: int,
)
    requires
        0 <= n <= row.len(),
        forall|k: int| 0 <= k < row.len() ==> plain_text(#[trigger] row[k]),
        search matches Some(t) ==> plain_text(t),
        !st_code.contains('m'),
    ensures
        visible(row_prefix(row, cols, widths, st_code, true, search, current, n)) == row_prefix(
            row,
            cols,
            widths,
            st_code,
            false,
            search,
            current,
            n,
        ),
        closed(row_prefix(row, cols, widths, st_code, true, search, current, n)),
    decreases n,
{
    if n > 0 {
        let k = n - 1;
        lemma_color_keeps_alignment(row, cols, widths, st_code, search, current, k);
        let code = row_code(cols, k, st_code, current);
        assert(!BLUE@.contains('m')) by {
            reveal_strlit("34");
            if BLUE@.contains('m') {
                let j = choose|j: int| 0 <= j < BLUE@.len() && BLUE@[j] == 'm';
            }
        }
        let w = if k < widths.len() {
            widths[k]
        } else {
            0
        };
        lemma_cell_invisible(row[k], cols[k], w, k == row.len() - 1, code, search);
        let gap = if k > 0 {
            "  "@
        } else {
            Seq::empty()
        };
        assert(plain_text(gap)) by {
            reveal_strlit("  ");
            if gap.contains('\x1b') {
                let j = choose|j: int| 0 <= j < gap.len() && gap[j] == '\x1b';
            }
        }
        let p = row_prefix(row, cols, widths, st_code, true, search, current, k);
        let c = cell_spec(row[k], cols[k], w, k == row.len() - 1, code, true, search);
        let q = row_prefix(row, cols, widths, st_code, false, search, current, k);
        let d = cell_spec(row[k], cols[k], w, k == row.len() - 1, code, false, search);
        lemma_join_shown(p, gap, c, q, d);
        assert(row_prefix(row, cols, widths, st_code, true, search, current, n) == p + gap + c);
        assert(row_prefix(row, cols, widths, st_code, false, search, current, n) == q + gap + d);
    }
}

/// Closed runs joined by plain text show as what each shows, joined.
proof fn lemma_join_shown(p: Seq<char>, gap: Seq<char>, c: Seq<char>, q: Seq<char>, d: Seq<char>)
    requires
        visible(p) == q,
        closed(p),
        plain_text(gap),
        visible(c) == d,
        closed(c),
    ensures
        visible(p + gap + c) == q + gap + d,
        closed(p + gap + c),
{
    lemma_visible_plain(gap, c);
    lemma_visible_concat(p, gap + c);
    assert(p + gap + c =~= p + (gap + c));
    assert(q + (gap + d) =~= q + gap + d);
}

/// The tint of cell `k`: blue for the current worktree's branch, the
/// status color else.
pub open spec fn row_code(cols: Seq<usize>, k: int, st_code: Seq<char>, current: bool) -> Seq<char> {
    if current && cols[k] == 2 {
        BLUE@
    } else {
        st_code
    }
}

/// The first `n` cells of a row, joined with two-space gaps.
pub open spec fn row_prefix(
    row: Seq<Seq<char>>,
    cols: Seq<usize>,
    widths: Seq<usize>,
    st_code: Seq<char>,
    color: bool,
    search: Option<Seq<char>>,
    current: bool,
    n: int,
) -> Seq<char>
    decreases n,
{
    if n <= 0 {
        Seq::empty()
    } else {
        let k = n - 1;
        let gap = if k > 0 {
            "  "@
        } else {
            Seq::empty()
        };
        row_prefix(row, cols, widths, st_code, color, search, current, k) + gap + cell_spec(
            row[k],
            cols[k],
            if k < widths.len() {
                widths[k]
            } else {
                0
            },
            k == row.len() - 1,
            row_code(cols, k, st_code, current),
            color,
            search,
        )
    }
}

/// A table row: its cells joined with two-space gaps, all but the last
/// padded to its column's width.
pub fn render_row(
    row: &[String],
    cols: &[usize],
    widths: &[usize],
    st: Status,
    color: bool,
    search: Option<&str>,
    current: bool,
) -> (r: String)
    requires
        row.len() >= 1,
        cols.len() >= row.len(),
        widths.len() + 1 >= row.len(),
    ensures
        r@ == row_prefix(
            str_views(row@),
            cols@,
            widths@,
            status_code(st),
            color,
            crate::commits::rows::opt_str(search),
            current,
            row.len() as int,
        ),
{
    let st_code = status_color(st);
    let ghost rv = str_views(row@);
    let ghost sv = crate::commits::rows::opt_str(search);
    let last = row.len() - 1;
    let mut line: Vec<char> = Vec::new();
    let mut k: usize = 0;
    while k < row.len()
        invariant
            k <= row.len(),
            last == row.len() - 1,
            cols.len() >= row.len(),
            widths.len() + 1 >= row.len(),
            rv == str_views(row@),
            sv == crate::commits::rows::opt_str(search),
            line@ == row_prefix(rv, cols@, widths@, st_code@, color, sv, current, k as int),
        decreases row.len() - k,
    {
        let ghost before = line@;
        proof {
            reveal_strlit("");
        }
        if k > 0 {
            push_str(&mut line, "  ");
        }
        let cell = chars_of(row[k].as_str());
        assert(rv[k as int] == cell@);
        let padded = if k == last {
            cell
        } else {
            let mut p: Vec<char> = Vec::new();
            push_pad_right(&mut p, cell.as_slice(), widths[k]);
            p
        };
        let code = if current && cols[k] == 2 {
            BLUE
        } else {
            st_code
        };
        let tinted = (cols[k] == 2 || cols[k] == 4) && color && !code.is_empty();
        assert(padded@ == if k == last {
            rv[k as int]
        } else {
            pad_right_spec(rv[k as int], widths@[k as int] as nat)
        });
        assert(code@ == row_code(cols@, k as int, st_code@, current));
        let searchable = cols[k] == 2 || cols[k] == 3;
        let ghost mid = line@;
        match search {
            Some(term) if searchable => {
                let t = chars_of(term);
                let base = if tinted {
                    code
                } else {
                    ""
                };
                assert(base@ == if tinted {
                    code@
                } else {
                    Seq::<char>::empty()
                });
                push_matches(&mut line, padded.as_slice(), t.as_slice(), SEARCH_MATCH, base, color);
                assert(line@ == mid + paint_matches_spec(
                    padded@,
                    term@,
                    SEARCH_MATCH@,
                    if tinted {
                        code@
                    } else {
                        Seq::empty()
                    },
                    color,
                ));
            },
            _ => {
                if tinted {
                    push_painted(&mut line, padded.as_slice(), code, true);
                } else {
                    crate::text::push_all(&mut line, padded.as_slice());
                }
            },
        }
        assert(line@ =~= before + (if k > 0 {
            "  "@
        } else {
            Seq::empty()
        }) + cell_spec(
            rv[k as int],
            cols@[k as int],
            if k < widths.len() {
                widths@[k as int]
            } else {
                0
            },
            k == last,
            row_code(cols@, k as int, st_code@, current),
            color,
            sv,
        ));
        k = k + 1;
    }
    string_of(line.as_slice())
}

// ---------------------------------------------------------------------------
// Cells read from git
// ---------------------------------------------------------------------------

/// The push and pull cells from what `git rev-list --left-right --count
/// @{upstream}...HEAD` printed (`None` where it failed, as it does without
/// an upstream): `ahead N` / `behind N`, or `-` for nothing to push or
/// pull, and `-` on both sides for a bare worktree or no answer.
pub open spec fn push_pull_spec(bare: bool, out: Option<Seq<char>>) -> (Seq<char>, Seq<char>) {
    match out {
        Some(o) if !bare && words_spec(o).len() >= 2 => {
            let behind = words_spec(o)[0];
            let ahead = words_spec(o)[1];
            (
                if ahead == "0"@ {
                    "-"@
                } else {
                    "ahead "@ + ahead
                },
                if behind == "0"@ {
                    "-"@
                } else {
                    "behind "@ + behind
                },
            )
        },
        _ => ("-"@, "-"@),
    }
}

/// The `pull` cell reads the first count of `git rev-list --left-right
/// --count` (commits behind) and nothing else: `-` when it is `0`, else
/// `behind N`; the `push` cell reads the second count (ahead) alone in the
/// same way. A bare worktree, or output without two counts, shows `-` in
/// both.
pub proof fn lemma_push_pull_each_own_count(bare: bool, o: Seq<char>)
    ensures
        !bare && words_spec(o).len() >= 2 ==> {
            &&& push_pull_spec(bare, Some(o)).1 == "-"@ <==> words_spec(o)[0] == "0"@
            &&& words_spec(o)[0] != "0"@ ==> push_pull_spec(bare, Some(o)).1 == "behind "@ + words_spec(o)[0]
            &&& push_pull_spec(bare, Some(o)).0 == "-"@ <==> words_spec(o)[1] == "0"@
            &&& words_spec(o)[1] != "0"@ ==> push_pull_spec(bare, Some(o)).0 == "ahead "@ + words_spec(o)[1]
        },
        bare ==> push_pull_spec(bare, Some(o)) == ("-"@, "-"@),
        words_spec(o).len() < 2 ==> push_pull_spec(bare, Some(o)) == ("-"@, "-"@),
        push_pull_spec(bare, None) == ("-"@, "-"@),
{
    reveal_strlit("-");
    reveal_strlit("behind ");
    reveal_strlit("ahead ");
    if !bare && words_spec(o).len() >= 2 {
        let behind = words_spec(o)[0];
        let ahead = words_spec(o)[1];
        if behind != "0"@ {
            assert(("behind "@ + behind).len() > 1);
        }
        if ahead != "0"@ {
            assert(("ahead "@ + ahead).len() > 1);
        }
    }
}

/// Two outputs with the same behind count give the same `pull` cell, and
/// two with the same ahead count the same `push` cell, whatever the other
/// count is.
pub proof fn lemma_push_pull_independent(o1: Seq<char>, o2: Seq<char>)
    requires
        words_spec(o1).len() >= 2,
        words_spec(o2).len() >= 2,
    ensures
        words_spec(o1)[0] == words_spec(o2)[0] ==> push_pull_spec(false, Some(o1)).1 == push_pull_spec(
            false,
            Some(o2),
        ).1,
        words_spec(o1)[1] == words_spec(o2)[1] ==> push_pull_spec(false, Some(o1)).0 == push_pull_spec(
            false,
            Some(o2),
        ).0,
{
    lemma_push_pull_each_own_count(false, o1);
    lemma_push_pull_each_own_count(false, o2);
}

/// Text for the `push` and `pull` columns.
pub fn push_pull_text(bare: bool, out: Option<&str>) -> (r: (String, String))
    ensures
        (r.0@, r.1@) == push_pull_spec(bare, crate::commits::rows::opt_str(out)),
{
    let o = match out {
        Some(o) if !bare => o,
        _ => {
            return ("-".to_string(), "-".to_string());
        },
    };
    let c = chars_of(o);
    let w = words(c.as_slice());
    if w.len() < 2 {
        return ("-".to_string(), "-".to_string());
    }
    assert(views(w@)[0] == w@[0]@ && views(w@)[1] == w@[1]@);
    let push = if crate::text::is(w[1].as_slice(), "0") {
        "-".to_string()
    } else {
        let mut t = chars_of("ahead ");
        crate::text::push_all(&mut t, w[1].as_slice());
        string_of(t.as_slice())
    };
    let pull = if crate::text::is(w[0].as_slice(), "0") {
        "-".to_string()
    } else {
        let mut t = chars_of("behind ");
        crate::text::push_all(&mut t, w[0].as_slice());
        string_of(t.as_slice())
    };
    (push, pull)
}

/// The last-commit cell: what `git log -1 --format=%ar` printed, trimmed,
/// or nothing where it failed.
pub fn last_commit(out: Option<&str>) -> (r: String)
    ensures
        out matches Some(o) ==> r@ == trim_spec(o@),
        out is None ==> r@ == Seq::<char>::empty(),
{
    match out {
        Some(o) => {
            let c = chars_of(o);
            let t = trim(c.as_slice());
            string_of(t.as_slice())
        },
        None => String::new(),
    }
}

// ---------------------------------------------------------------------------
// Choosing columns
// ---------------------------------------------------------------------------

/// How much the table shows by default.
#[derive(Debug, Clone, Copy, PartialEq, Eq, Structural)]
pub enum ListMode {
    Short,
    Normal,
    Long,
}

/// The mode and the columns `list`'s flags ask for: `--long` beats
/// `--short`, and a `--col` value must parse.
pub fn cmd_list_from_args(long: bool, short: bool, col: Option<&str>) -> (r: Result<(ListMode, Option<Vec<usize>>), String>)
    ensures
        match r {
            Ok((m, c)) => m == (if long {
                ListMode::Long
            } else if short {
                ListMode::Short
            } else {
                ListMode::Normal
            }) && match col {
                None => c is None,
                Some(s) => c matches Some(v) && parse_cols_spec(s@) == Ok::<Seq<usize>, Seq<char>>(v@),
            },
            Err(e) => col matches Some(s) && parse_cols_spec(s@) == Err::<Seq<usize>, Seq<char>>(e@),
        },
{
    let mode = if long {
        ListMode::Long
    } else if short {
        ListMode::Short
    } else {
        ListMode::Normal
    };
    match col {
        None => Ok((mode, None)),
        Some(s) => match parse_cols(s) {
            Ok(v) => Ok((mode, Some(v))),
            Err(e) => Err(e),
        },
    }
}

/// The columns shown when `--col` is not given: what the mode asks for,
/// narrowed off a terminal (where the path is what scripts want) and
/// widened by `--path`; with a merged-into ref, the merged columns in
/// place of the push and pull ones.
pub open spec fn default_cols_spec(merged_ref: bool, mode: ListMode, tty: bool, show_path: bool) -> Seq<usize> {
    if merged_ref {
        if tty && show_path {
            seq![1, 2, 3, 4, 5, 7, 8]
        } else if tty {
            seq![1, 2, 4, 5, 7, 8]
        } else {
            seq![1, 2, 3, 7, 8]
        }
    } else {
        match mode {
            ListMode::Short => seq![1, 2, 4],
            ListMode::Long => seq![1, 2, 3, 4, 5, 6, 9, 10],
            ListMode::Normal => if tty && show_path {
                seq![1, 2, 3, 4, 5, 6, 9, 10]
            } else if tty {
                seq![1, 2, 4, 5, 6, 9, 10]
            } else {
                seq![1, 2, 3]
            },
        }
    }
}

/// The table's columns: the `--col` selection when there is one, the
/// default for the mode else.
pub fn list_columns(cols: Option<Vec<usize>>, merged_ref: bool, mode: ListMode, tty: bool, show_path: bool) -> (r: Vec<usize>)
    ensures
        cols matches Some(c) ==> r@ == c@,
        cols is None ==> r@ == default_cols_spec(merged_ref, mode, tty, show_path),
{
    match cols {
        Some(c) => c,
        None => {
            let v = if merged_ref {
                if tty && show_path {
                    vec![1, 2, 3, 4, 5, 7, 8]
                } else if tty {
                    vec![1, 2, 4, 5, 7, 8]
                } else {
                    vec![1, 2, 3, 7, 8]
                }
            } else {
                match mode {
                    ListMode::Short => vec![1, 2, 4],
                    ListMode::Long => vec![1, 2, 3, 4, 5, 6, 9, 10],
                    ListMode::Normal => if tty && show_path {
                        vec![1, 2, 3, 4, 5, 6, 9, 10]
                    } else if tty {
                        vec![1, 2, 4, 5, 6, 9, 10]
                    } else {
                        vec![1, 2, 3]
                    },
                }
            };
            assert(v@ =~= default_cols_spec(merged_ref, mode, tty, show_path));
            v
        },
    }
}

/// What a `list` run has to look up for its columns, and whether the
/// header row prints.
#[derive(Debug, Clone, Copy, PartialEq, Eq)]
pub struct ListPlan {
    /// Each row's status: shown in column 4, and coloring the branch.
    pub status: bool,
    pub last: bool,
    pub merged: bool,
    pub merged_ref: bool,
    pub merged_at: bool,
    pub push_pull: bool,
    /// The branch stood in, which column 6 (and 7/8 with no ref given) asks
    /// about.
    pub here: bool,
    pub header: bool,
}

fn has_col(cols: &[usize], c: usize) -> (r: bool)
    ensures
        r == cols@.contains(c),
{
    let mut i: usize = 0;
    while i < cols.len()
        invariant
            i <= cols.len(),
            forall|k: int| 0 <= k < i ==> cols@[k] != c,
        decreases cols.len() - i,
    {
        if cols[i] == c {
            return true;
        }
        i = i + 1;
    }
    false
}

/// The plan for `list` over `cols`: `explicit` when they came from `--col`,
/// `merged_ref` when `--others` named the ref rows are measured against.
pub fn cmd_list(cols: &[usize], explicit: bool, color: bool, tty: bool, mode: ListMode, merged_ref: bool) -> (r: ListPlan)
    ensures
        r.status == (color || cols@.contains(4)),
        r.last == cols@.contains(5),
        r.merged == cols@.contains(6),
        r.merged_ref == cols@.contains(7),
        r.merged_at == cols@.contains(8),
        r.push_pull == (cols@.contains(9) || cols@.contains(10)),
        r.here == (cols@.contains(6) || ((cols@.contains(7) || cols@.contains(8)) && !merged_ref)),
        r.header == (!explicit && tty && mode != ListMode::Short),
{
    let merged = has_col(cols, 6);
    let mref = has_col(cols, 7);
    let mat = has_col(cols, 8);
    let short = match mode {
        ListMode::Short => true,
        _ => false,
    };
    ListPlan {
        status: color || has_col(cols, 4),
        last: has_col(cols, 5),
        merged,
        merged_ref: mref,
        merged_at: mat,
        push_pull: has_col(cols, 9) || has_col(cols, 10),
        here: merged || ((mref || mat) && !merged_ref),
        header: !explicit && tty && !short,
    }
}

// ---------------------------------------------------------------------------
// Column widths
// ---------------------------------------------------------------------------

/// How wide column `k` gets: its widest cell over the rows (and the header
/// when one prints).
pub open spec fn col_width(rows: Seq<Seq<Seq<char>>>, k: int) -> nat {
    max_of(rows.map_values(|r: Seq<Seq<char>>| if 0 <= k < r.len() {
        r[k].len()
    } else {
        0
    }))
}

pub open spec fn cell_rows(cells: Seq<Vec<String>>) -> Seq<Seq<Seq<char>>> {
    cells.map_values(|r: Vec<String>| str_views(r@))
}

/// The rows a width is measured over: every row, then the header when it
/// prints.
pub open spec fn measured(cells: Seq<Vec<String>>, header: Option<Seq<Seq<char>>>) -> Seq<Seq<Seq<char>>> {
    match header {
        Some(h) => cell_rows(cells).push(h),
        None => cell_rows(cells),
    }
}

/// Each column's width: see `col_width`.
pub fn column_widths(cells: &[Vec<String>], header: Option<&[String]>, n: usize) -> (w: Vec<usize>)
    ensures
        w.len() == n,
        forall|k: int|
            0 <= k < n ==> (#[trigger] w@[k]) == col_width(
                measured(
                    cells@,
                    match header {
                        Some(h) => Some(str_views(h@)),
                        None => None,
                    },
                ),
                k,
            ),
{
    let ghost hv = match header {
        Some(h) => Some(str_views(h@)),
        None => None::<Seq<Seq<char>>>,
    };
    let ghost all = measured(cells@, hv);
    let mut w: Vec<usize> = Vec::new();
    let mut k: usize = 0;
    while k < n
        invariant
            k <= n,
            w.len() == k,
            all == measured(cells@, hv),
            hv == (match header {
                Some(h) => Some(str_views(h@)),
                None => None::<Seq<Seq<char>>>,
            }),
            forall|j: int| 0 <= j < k ==> (#[trigger] w@[j]) == col_width(all, j),
        decreases n - k,
    {
        let ghost col = all.map_values(|r: Seq<Seq<char>>| if 0 <= k < r.len() {
            r[k as int].len()
        } else {
            0
        });
        let mut m: usize = 0;
        let mut i: usize = 0;
        while i < cells.len()
            invariant
                i <= cells.len(),
                all == measured(cells@, hv),
                col == all.map_values(|r: Seq<Seq<char>>| if 0 <= k < r.len() {
                    r[k as int].len()
                } else {
                    0
                }),
                m == max_of(col.take(i as int)),
            decreases cells.len() - i,
        {
            let c: usize = if k < cells[i].len() {
                chars_of(cells[i][k].as_str()).len()
            } else {
                0
            };
            assert(all[i as int] == str_views(cells@[i as int]@));
            assert(col.take(i + 1).drop_last() =~= col.take(i as int));
            assert(col.take(i + 1).last() == c);
            if c > m {
                m = c;
            }
            i = i + 1;
        }
        if let Some(h) = header {
            let c: usize = if k < h.len() {
                chars_of(h[k].as_str()).len()
            } else {
                0
            };
            assert(all[cells.len() as int] == str_views(h@));
            assert(col.take(cells.len() + 1).drop_last() =~= col.take(cells.len() as int));
            assert(col.take(cells.len() + 1).last() == c);
            if c > m {
                m = c;
            }
            assert(col.take(cells.len() + 1) =~= col);
        } else {
            assert(col.take(cells.len() as int) =~= col);
        }
        w.push(m);
        k = k + 1;
    }
    w
}

/// Everything but column `k`, gaps included.
pub open spec fn others_width(widths: Seq<usize>, k: int) -> int
    decreases widths.len(),
{
    if widths.len() == 0 {
        0
    } else {
        others_width(widths.drop_last(), k) + (if k == widths.len() - 1 {
            0
        } else {
            widths.last() as int
        })
    }
}

/// How far the branch column (`k`) gets cut on a `term`-wide terminal: to
/// what the other columns and the two-space gaps leave, never under
/// `BRANCH_MIN`, and not at all when it already fits.
pub open spec fn branch_cap_spec(term: nat, widths: Seq<usize>, k: int) -> Option<nat> {
    let used = 2 * (widths.len() - 1) + others_width(widths, k);
    let budget = if term >= used {
        (term - used) as nat
    } else {
        0
    };
    if budget < widths[k] {
        Some(max_nat(budget, BRANCH_MIN as nat))
    } else {
        None
    }
}

/// The width the branch column is cut to, if it must be: see
/// `branch_cap_spec`.
pub fn branch_cap(term: usize, widths: &[usize], k: usize) -> (r: Option<usize>)
    requires
        k < widths.len(),
        2 * widths.len() + others_width(widths@, k as int) <= usize::MAX,
    ensures
        match branch_cap_spec(term as nat, widths@, k as int) {
            Some(c) => r == Some(c as usize),
            None => r is None,
        },
{
    let mut others: usize = 0;
    let mut j: usize = 0;
    proof {
        lemma_others_prefix(widths@, k as int, widths.len() as int);
        assert(widths@.take(widths.len() as int) =~= widths@);
    }
    while j < widths.len()
        invariant
            j <= widths.len(),
            k < widths.len(),
            2 * widths.len() + others_width(widths@, k as int) <= usize::MAX,
            others == others_width(widths@.take(j as int), k as int),
            forall|i: int| 0 <= i <= widths.len() ==> others_width(widths@.take(i), k as int) <= others_width(widths@, k as int),
        decreases widths.len() - j,
    {
        assert(widths@.take(j + 1).drop_last() =~= widths@.take(j as int));
        assert(others_width(widths@.take(j + 1), k as int) <= others_width(widths@, k as int));
        if j != k {
            others = others + widths[j];
        }
        j = j + 1;
    }
    assert(widths@.take(widths.len() as int) =~= widths@);
    let used = 2 * (widths.len() - 1) + others;
    let budget = if term >= used {
        term - used
    } else {
        0
    };
    if budget < widths[k] {
        Some(if budget > BRANCH_MIN {
            budget
        } else {
            BRANCH_MIN
        })
    } else {
        None
    }
}

proof fn lemma_others_prefix(widths: Seq<usize>, k: int, n: int)
    requires
        0 <= n <= widths.len(),
    ensures
        forall|i: int| 0 <= i <= n ==> others_width(widths.take(i), k) <= others_width(widths.take(n), k),
    decreases n,
{
    if n > 0 {
        lemma_others_prefix(widths, k, n - 1);
        assert(widths.take(n).drop_last() =~= widths.take(n - 1));
    }
    assert(widths.take(widths.len() as int) =~= widths);
}

// ---------------------------------------------------------------------------
// A worktree's uncommitted files
// ---------------------------------------------------------------------------

/// `i` is where `t` first occurs in `s`.
pub open spec fn first_at(s: Seq<char>, t: Seq<char>, i: int) -> bool {
    occurs_at(s, t, i) && forall|j: int| 0 <= j < i ==> !occurs_at(s, t, j)
}

/// A rename's new name: what follows the first ` -> `.
pub open spec fn renamed_to(rest: Seq<char>) -> Seq<char> {
    if exists|i: int| first_at(rest, " -> "@, i) {
        let i = choose|i: int| first_at(rest, " -> "@, i);
        rest.skip(i + 4)
    } else {
        rest
    }
}

/// One `git status --porcelain` line: the path and its status letter (the
/// index's, or the worktree's when the index has none), and whether it is
/// untracked; nothing for a line too short to hold a path.
pub open spec fn porcelain_entry(line: Seq<char>) -> Option<(Seq<char>, char, bool)> {
    if line.len() < 4 {
        None
    } else if line[0] == '?' {
        Some((line.skip(3), '?', true))
    } else {
        Some((renamed_to(line.skip(3)), if line[0] != ' ' {
            line[0]
        } else {
            line[1]
        }, false))
    }
}

pub open spec fn porcelain_entries(ls: Seq<Seq<char>>) -> Seq<(Seq<char>, char, bool)>
    decreases ls.len(),
{
    if ls.len() == 0 {
        Seq::empty()
    } else {
        match porcelain_entry(ls.last()) {
            Some(e) => porcelain_entries(ls.drop_last()).push(e),
            None => porcelain_entries(ls.drop_last()),
        }
    }
}

/// The status recorded for each path, in order.
pub open spec fn porcelain_pairs(porcelain: Seq<char>) -> Seq<(Seq<char>, char)> {
    porcelain_entries(lines_spec(porcelain)).map_values(|e: (Seq<char>, char, bool)| (e.0, e.1))
}

/// The untracked paths, in order.
pub open spec fn untracked_paths(porcelain: Seq<char>) -> Seq<Seq<char>> {
    porcelain_entries(lines_spec(porcelain)).filter(|e: (Seq<char>, char, bool)| e.2).map_values(
        |e: (Seq<char>, char, bool)| e.0,
    )
}

/// The untracked files a block lists: those the diff did not count, with
/// their line count (none for a directory, or a file that could not be
/// read) and no removed lines.
pub open spec fn untracked_block(
    paths: Seq<Seq<char>>,
    counts: Seq<Option<usize>>,
    counted: Seq<Seq<char>>,
) -> Seq<FileStatSpec>
    decreases paths.len(),
{
    if paths.len() == 0 {
        Seq::empty()
    } else {
        let rest = untracked_block(paths.drop_last(), counts, counted);
        let p = paths.last();
        if counted.contains(p) {
            rest
        } else {
            let added = if is_suffix("/"@, p) {
                None
            } else {
                counts[paths.len() - 1]
            };
            rest.push(FileStatSpec {
                status: '?',
                path: p,
                added,
                removed: match added {
                    Some(_) => Some(0usize),
                    None => None,
                },
            })
        }
    }
}

/// A worktree's uncommitted files before ordering: what the diff against
/// `HEAD` counts (status from the porcelain, `M` without one), then the
/// untracked files it did not count.
pub open spec fn worktree_block(porcelain: Seq<char>, numstat: Option<Seq<char>>, counts: Seq<Option<usize>>) -> Seq<
    FileStatSpec,
> {
    let pairs = porcelain_pairs(porcelain);
    let es = match numstat {
        Some(n) => numstat_spec(n),
        None => Seq::empty(),
    };
    es.map_values(|e| block_entry(e, pairs)) + untracked_block(
        untracked_paths(porcelain),
        counts,
        es.map_values(|e: crate::commits::files::NumstatSpec| e.path),
    )
}

fn renamed_to_of(rest: &[char]) -> (r: Vec<char>)
    ensures
        r@ == renamed_to(rest@),
{
    let arrow = chars_of(" -> ");
    proof {
        reveal_strlit(" -> ");
    }
    match find(rest, arrow.as_slice()) {
        Some(i) => {
            assert(first_at(rest@, " -> "@, i as int));
            assert(" -> "@.len() == 4);
            assert(i + 4 <= rest.len());
            let ghost c = choose|c: int| first_at(rest@, " -> "@, c);
            assert(c == i) by {
                if c < i {
                    assert(!occurs_at(rest@, " -> "@, c));
                } else if c > i {
                    assert(!occurs_at(rest@, " -> "@, i as int));
                }
            }
            slice_from(rest, i + 4)
        },
        None => {
            assert(!exists|i: int| first_at(rest@, " -> "@, i)) by {
                if exists|i: int| first_at(rest@, " -> "@, i) {
                    let i = choose|i: int| first_at(rest@, " -> "@, i);
                    assert(rest@.subrange(i, i + 4) == " -> "@);
                }
            }
            slice_from(rest, 0)
        },
    }
}

fn porcelain_entry_of(line: &[char]) -> (r: Option<(Vec<char>, char, bool)>)
    ensures
        match porcelain_entry(line@) {
            Some(e) => r matches Some(x) && x.0@ == e.0 && x.1 == e.1 && x.2 == e.2,
            None => r is None,
        },
{
    if line.len() < 4 {
        return None;
    }
    if line[0] == '?' {
        return Some((slice_from(line, 3), '?', true));
    }
    let rest = slice_from(line, 3);
    let st = if line[0] != ' ' {
        line[0]
    } else {
        line[1]
    };
    Some((renamed_to_of(rest.as_slice()), st, false))
}

/// The untracked paths of a `git status --porcelain` listing, in order:
/// the files whose line counts `worktree_files` takes.
pub fn porcelain_untracked(porcelain: &str) -> (r: Vec<String>)
    ensures
        str_views(r@) == untracked_paths(porcelain@),
{
    let (_, u) = read_porcelain(porcelain);
    u
}

fn read_porcelain(porcelain: &str) -> (r: (Vec<(Vec<char>, char)>, Vec<String>))
    ensures
        crate::commits::files::pair_views(r.0@) == porcelain_pairs(porcelain@),
        str_views(r.1@) == untracked_paths(porcelain@),
{
    let pc = chars_of(porcelain);
    let ls = lines(pc.as_slice());
    let ghost lv = views(ls@);
    let ghost es = porcelain_entries(lv);
    let mut pairs: Vec<(Vec<char>, char)> = Vec::new();
    let mut untracked: Vec<String> = Vec::new();
    let mut i: usize = 0;
    while i < ls.len()
        invariant
            i <= ls.len(),
            lv == views(ls@),
            lv == lines_spec(porcelain@),
            crate::commits::files::pair_views(pairs@) == porcelain_entries(lv.take(i as int)).map_values(
                |e: (Seq<char>, char, bool)| (e.0, e.1),
            ),
            str_views(untracked@) == porcelain_entries(lv.take(i as int)).filter(
                |e: (Seq<char>, char, bool)| e.2,
            ).map_values(|e: (Seq<char>, char, bool)| e.0),
        decreases ls.len() - i,
    {
        assert(lv.take(i + 1).drop_last() =~= lv.take(i as int));
        assert(lv.take(i + 1).last() == ls@[i as int]@);
        let ghost prev = porcelain_entries(lv.take(i as int));
        let ghost before_p = crate::commits::files::pair_views(pairs@);
        let ghost before_u = str_views(untracked@);
        match porcelain_entry_of(ls[i].as_slice()) {
            Some(e) => {
                let ghost ev = (e.0@, e.1, e.2);
                assert(porcelain_entries(lv.take(i + 1)) == prev.push(ev));
                if e.2 {
                    untracked.push(string_of(e.0.as_slice()));
                }
                pairs.push((e.0, e.1));
                assert(crate::commits::files::pair_views(pairs@) =~= before_p.push((ev.0, ev.1)));
                assert(prev.push(ev).map_values(|e: (Seq<char>, char, bool)| (e.0, e.1)) =~= prev.map_values(
                    |e: (Seq<char>, char, bool)| (e.0, e.1),
                ).push((ev.0, ev.1)));
                proof {
                    let f = |e: (Seq<char>, char, bool)| e.2;
                    assert(prev.push(ev).drop_last() =~= prev);
                    reveal(Seq::filter);
                    if ev.2 {
                        assert(prev.push(ev).filter(f) == prev.filter(f).push(ev));
                        assert(str_views(untracked@) =~= before_u.push(ev.0));
                        assert(prev.filter(f).push(ev).map_values(|e: (Seq<char>, char, bool)| e.0)
                            =~= prev.filter(f).map_values(|e: (Seq<char>, char, bool)| e.0).push(ev.0));
                    } else {
                        assert(prev.push(ev).filter(f) == prev.filter(f));
                    }
                }
            },
            None => {},
        }
        i = i + 1;
    }
    assert(lv.take(ls.len() as int) =~= lv);
    (pairs, untracked)
}

/// A worktree's uncommitted files, ordered as a block: from its
/// `git status --porcelain` listing, its `git diff --numstat -z HEAD`
/// listing when there is one, and the line counts of its untracked files
/// (in `porcelain_untracked`'s order). A bare worktree has none.
pub fn worktree_files(bare: bool, porcelain: Option<&str>, numstat: Option<&str>, counts: &[Option<usize>]) -> (r:
    Vec<FileStat>)
    requires
        porcelain matches Some(p) ==> counts.len() == untracked_paths(p@).len(),
    ensures
        block_sorted(stat_views(r@)),
        bare || porcelain is None ==> r.len() == 0,
        !bare ==> (porcelain matches Some(p) ==> stat_views(r@).to_multiset() == worktree_block(
            p@,
            crate::commits::rows::opt_str(numstat),
            counts@,
        ).to_multiset()),
{
    if bare || porcelain.is_none() {
        let v: Vec<FileStat> = Vec::new();
        assert(stat_views(v@) =~= Seq::<FileStatSpec>::empty());
        return v;
    }
    let p = porcelain.unwrap();
    let (pairs, untracked) = read_porcelain(p);
    let ghost pv = crate::commits::files::pair_views(pairs@);
    let entries = match numstat {
        Some(n) => parse_numstat_z(n),
        None => Vec::new(),
    };
    let ghost es = numstat_views(entries@);
    assert(es == match crate::commits::rows::opt_str(numstat) {
        Some(n) => numstat_spec(n),
        None => Seq::empty(),
    });
    let mut stats: Vec<FileStat> = Vec::new();
    let mut counted: Vec<String> = Vec::new();
    let mut k: usize = 0;
    while k < entries.len()
        invariant
            k <= entries.len(),
            pv == crate::commits::files::pair_views(pairs@),
            pv == porcelain_pairs(p@),
            es == numstat_views(entries@),
            stat_views(stats@) == es.take(k as int).map_values(|e| block_entry(e, pv)),
            str_views(counted@) == es.take(k as int).map_values(|e: crate::commits::files::NumstatSpec| e.path),
        decreases entries.len() - k,
    {
        let f = block_line(&entries[k], &pairs);
        let ghost before = stat_views(stats@);
        let ghost before_c = str_views(counted@);
        stats.push(f);
        counted.push(entries[k].path.clone());
        assert(es.take(k + 1) =~= es.take(k as int).push(es[k as int]));
        assert(stat_views(stats@) =~= before.push(block_entry(es[k as int], pv)));
        assert(str_views(counted@) =~= before_c.push(es[k as int].path));
        k = k + 1;
    }
    assert(es.take(entries.len() as int) =~= es);
    let ghost head = stat_views(stats@);
    let ghost cv = str_views(counted@);
    let ghost uv = str_views(untracked@);
    let mut tail: Vec<FileStat> = Vec::new();
    let mut j: usize = 0;
    while j < untracked.len()
        invariant
            j <= untracked.len(),
            uv == str_views(untracked@),
            uv == untracked_paths(p@),
            counts.len() == uv.len(),
            cv == str_views(counted@),
            stat_views(tail@) == untracked_block(uv.take(j as int), counts@, cv),
        decreases untracked.len() - j,
    {
        let u = chars_of(untracked[j].as_str());
        assert(uv.take(j + 1).drop_last() =~= uv.take(j as int));
        assert(uv.take(j + 1).last() == u@);
        if !member(counted.as_slice(), untracked[j].as_str()) {
            let added = if crate::text::ends_with(u.as_slice(), chars_of("/").as_slice()) {
                None
            } else {
                counts[j]
            };
            let removed = match added {
                Some(_) => Some(0usize),
                None => None,
            };
            let ghost before = stat_views(tail@);
            tail.push(FileStat { status: '?', path: untracked[j].clone(), added, removed });
            assert(stat_views(tail@) =~= before.push(
                FileStatSpec { status: '?', path: u@, added, removed },
            ));
        }
        j = j + 1;
    }
    assert(uv.take(untracked.len() as int) =~= uv);
    let ghost tv = stat_views(tail@);
    stats.append(&mut tail);
    assert(stat_views(stats@) =~= head + tv);
    sort_file_stats(&mut stats);
    stats
}


/// The word the status column shows.
pub open spec fn status_word(st: Status) -> Seq<char> {
    match st {
        Status::Clean => "clean"@,
        Status::Dirty => "dirty"@,
        Status::Untracked => "untracked"@,
        Status::Unknown => "-"@,
    }
}

/// A worktree's cell in column `c`: its number right-aligned to `numw`,
/// its label, its path, its status word, its last commit, whether it is
/// merged into the current branch, into `--merged`'s ref and where, and
/// its push and pull counts, each as measured.
pub open spec fn row_cell_spec(
    c: usize,
    number: nat,
    numw: nat,
    w: Worktree,
    st: Status,
    last: Seq<char>,
    merged: (Seq<char>, Seq<char>, Seq<char>),
    push: Seq<char>,
    pull: Seq<char>,
) -> Seq<char> {
    if c == 1 {
        pad_left_spec(decimal(number), numw)
    } else if c == 2 {
        label_spec(w)
    } else if c == 3 {
        w.path@
    } else if c == 4 {
        status_word(st)
    } else if c == 5 {
        last
    } else if c == 6 {
        merged.0
    } else if c == 7 {
        merged.1
    } else if c == 8 {
        merged.2
    } else if c == 9 {
        push
    } else {
        pull
    }
}

/// One worktree's row of cells, a cell per chosen column in their order:
/// see `row_cell_spec`. `number` is its place in the list (from 1);
/// `merged` is the merge columns' texts, as measured.
pub fn row_cells(
    cols: &[usize],
    number: usize,
    numw: usize,
    w: &Worktree,
    st: Status,
    last: &str,
    merged: (&str, &str, &str),
    push: &str,
    pull: &str,
) -> (r: Vec<String>)
    ensures
        r.len() == cols.len(),
        forall|k: int|
            0 <= k < cols.len() ==> (#[trigger] r@[k])@ == row_cell_spec(
                cols@[k],
                number as nat,
                numw as nat,
                *w,
                st,
                last@,
                (merged.0@, merged.1@, merged.2@),
                push@,
                pull@,
            ),
{
    let mut out: Vec<String> = Vec::new();
    let mut k: usize = 0;
    while k < cols.len()
        invariant
            k <= cols.len(),
            out.len() == k,
            forall|j: int|
                0 <= j < k ==> (#[trigger] out@[j])@ == row_cell_spec(
                    cols@[j],
                    number as nat,
                    numw as nat,
                    *w,
                    st,
                    last@,
                    (merged.0@, merged.1@, merged.2@),
                    push@,
                    pull@,
                ),
        decreases cols.len() - k,
    {
        let c = cols[k];
        let cell = if c == 1 {
            let d = decimal_of(number);
            let mut v: Vec<char> = Vec::new();
            push_pad_left(&mut v, d.as_slice(), numw);
            assert(v@ =~= pad_left_spec(decimal(number as nat), numw as nat));
            string_of(v.as_slice())
        } else if c == 2 {
            label(w)
        } else if c == 3 {
            w.path.clone()
        } else if c == 4 {
            status_text(st).to_string()
        } else if c == 5 {
            last.to_string()
        } else if c == 6 {
            merged.0.to_string()
        } else if c == 7 {
            merged.1.to_string()
        } else if c == 8 {
            merged.2.to_string()
        } else if c == 9 {
            push.to_string()
        } else {
            pull.to_string()
        };
        out.push(cell);
        k = k + 1;
    }
    out
}

/// The colour code of the header's column `k`: the six bright hues the
/// commit table's header cycles too (red, magenta, blue, cyan, green,
/// yellow).
pub open spec fn header_code_spec(k: nat) -> Seq<char> {
    let i = k % 6;
    if i == 0 {
        "91"@
    } else if i == 1 {
        "95"@
    } else if i == 2 {
        "94"@
    } else if i == 3 {
        "96"@
    } else if i == 4 {
        "92"@
    } else {
        "93"@
    }
}

/// The colour code of the header's column `k`.
pub fn header_code(k: usize) -> (r: &'static str)
    ensures
        r@ == header_code_spec(k as nat),
{
    proof {
        reveal_strlit("91");
        reveal_strlit("95");
        reveal_strlit("94");
        reveal_strlit("96");
        reveal_strlit("92");
        reveal_strlit("93");
    }
    let i = k % 6;
    if i == 0 {
        "91"
    } else if i == 1 {
        "95"
    } else if i == 2 {
        "94"
    } else if i == 3 {
        "96"
    } else if i == 4 {
        "92"
    } else {
        "93"
    }
}

/// The first `n` header labels laid out: two spaces between columns, each
/// label padded to its column but the last, each painted in its
/// column's hue.
pub open spec fn header_line(cells: Seq<Seq<char>>, widths: Seq<usize>, color: bool, n: nat) -> Seq<char>
    decreases n,
{
    if n == 0 {
        Seq::empty()
    } else {
        let k = (n - 1) as nat;
        let text = if k + 1 == cells.len() {
            cells[k as int]
        } else {
            pad_right_spec(cells[k as int], widths[k as int] as nat)
        };
        header_line(cells, widths, color, k) + (if k > 0 {
            "  "@
        } else {
            Seq::empty()
        }) + crate::style::paint_spec(text, header_code_spec(k), color)
    }
}

/// The header line of `list`: see `header_line`.
pub fn list_header(cells: &[String], widths: &[usize], color: bool) -> (r: String)
    requires
        widths.len() >= cells.len(),
    ensures
        r@ == header_line(str_views(cells@), widths@, color, cells.len() as nat),
{
    let ghost cv = str_views(cells@);
    let mut out: Vec<char> = Vec::new();
    let mut k: usize = 0;
    while k < cells.len()
        invariant
            k <= cells.len(),
            widths.len() >= cells.len(),
            cv == str_views(cells@),
            out@ == header_line(cv, widths@, color, k as nat),
        decreases cells.len() - k,
    {
        if k > 0 {
            push_str(&mut out, "  ");
        }
        let c = chars_of(cells[k].as_str());
        assert(cv[k as int] == c@);
        let mut text: Vec<char> = Vec::new();
        if k + 1 == cells.len() {
            push_all(&mut text, c.as_slice());
        } else {
            push_pad_right(&mut text, c.as_slice(), widths[k]);
        }
        assert(text@ == (if k + 1 == cv.len() {
            cv[k as int]
        } else {
            pad_right_spec(cv[k as int], widths@[k as int] as nat)
        }));
        push_painted(&mut out, text.as_slice(), header_code(k), color);
        k = k + 1;
    }
    string_of(out.as_slice())
}

} // verus!
