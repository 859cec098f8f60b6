//! The rows of a commit table, read from git's NUL-terminated record
//! output, and what each branch has of them.

use vstd::prelude::*;

use crate::commits::args::{DateFmt, Order};
use crate::style::{CHECK, EQUIV, FINGERPRINT, MISS, TRAILER};
use crate::text::{
    chars_of, contains, contains_spec, cut_fields, decimal, decimal_of, fields_spec, lines,
    lines_spec, lower_chars, lowercase, member, occurs_at, parse_i64, parse_i64_spec, push_all,
    push_str, rfind, slice_from, slice_range, split, split_once, split_once_spec, split_spec,
    str_views, string_of, trim, trim_spec, trim_start_set, trim_start_set_spec, views,
};

verus! {

/// One table row: a commit, its short name, who wrote it when, and its
/// subject.
#[derive(Debug)]
pub struct CommitRow {
    /// Full sha, for the set lookups; never printed.
    pub sha: String,
    pub short: String,
    pub text: String,
    pub author: String,
    /// Author date as printed.
    pub date: String,
    /// The same date as `YYYY-MM-DD`, which `--date` compares against.
    pub key: String,
    /// Author date as a Unix timestamp.
    pub stamp: String,
    /// Author email; feeds the author-fingerprint mark, never printed.
    pub email: String,
    /// Author date in strict ISO-8601 with timezone; feeds the
    /// author-fingerprint mark, never printed.
    pub author_iso: String,
    /// The message below the subject, empty unless a filter asked for it.
    pub body: String,
}

/// A `CommitRow` as a value.
pub struct CommitRowSpec {
    pub sha: Seq<char>,
    pub short: Seq<char>,
    pub text: Seq<char>,
    pub author: Seq<char>,
    pub date: Seq<char>,
    pub key: Seq<char>,
    pub stamp: Seq<char>,
    pub email: Seq<char>,
    pub author_iso: Seq<char>,
    pub body: Seq<char>,
}

impl View for CommitRow {
    type V = CommitRowSpec;

    open spec fn view(&self) -> CommitRowSpec {
        CommitRowSpec {
            sha: self.sha@,
            short: self.short@,
            text: self.text@,
            author: self.author@,
            date: self.date@,
            key: self.key@,
            stamp: self.stamp@,
            email: self.email@,
            author_iso: self.author_iso@,
            body: self.body@,
        }
    }
}

pub open spec fn row_views(v: Seq<CommitRow>) -> Seq<CommitRowSpec> {
    v.map_values(|r: CommitRow| r@)
}

// ---------------------------------------------------------------------------
// Reading the log
// ---------------------------------------------------------------------------

/// The row one record spells: eight tab-ended fields (sha, author, date,
/// day, short sha, timestamp, email, ISO date), then the subject, then,
/// after one more tab, the body (which may hold tabs of its own); `None`
/// when the record has fewer than eight tabs.
pub open spec fn row_of(rec: Seq<char>) -> Option<CommitRowSpec> {
    match fields_spec(rec, '\t', 8) {
        None => None,
        Some(p) => {
            let f = p.0;
            let tb = match split_once_spec(p.1, '\t') {
                Some(q) => q,
                None => (p.1, Seq::empty()),
            };
            Some(
                CommitRowSpec {
                    sha: f[0],
                    author: f[1],
                    date: f[2],
                    key: f[3],
                    short: f[4],
                    stamp: f[5],
                    email: f[6],
                    author_iso: f[7],
                    text: tb.0,
                    body: tb.1,
                },
            )
        },
    }
}

/// The rows of NUL-terminated records, each without the newlines git puts
/// between records, empty records and malformed ones passed over.
pub open spec fn rows_of(recs: Seq<Seq<char>>) -> Seq<CommitRowSpec>
    decreases recs.len(),
{
    if recs.len() == 0 {
        Seq::empty()
    } else {
        let p = rows_of(recs.drop_last());
        let r = trim_start_set_spec(recs.last(), seq!['\n']);
        if r.len() == 0 {
            p
        } else {
            match row_of(r) {
                Some(x) => p.push(x),
                None => p,
            }
        }
    }
}

/// The rows in what `commit_rows_args` asked git for.
pub open spec fn commit_rows_spec(out: Seq<char>) -> Seq<CommitRowSpec> {
    rows_of(split_spec(out, '\0'))
}

/// The row one record spells.
fn row_from(rec: &[char]) -> (r: Option<CommitRow>)
    ensures
        r matches Some(x) ==> row_of(rec@) == Some(x@),
        r is None ==> row_of(rec@) is None,
{
    match cut_fields(rec, '\t', 8) {
        None => None,
        Some((f, rest)) => {
            let (text, body) = match split_once(rest.as_slice(), '\t') {
                Some((t, b)) => (t, b),
                None => (rest, Vec::new()),
            };
            proof {
                assert(views(f@).len() == 8);
                assert forall|k: int| 0 <= k < 8 implies views(f@)[k] == (#[trigger] f@[k])@ by {}
            }
            let row = CommitRow {
                sha: string_of(f[0].as_slice()),
                author: string_of(f[1].as_slice()),
                date: string_of(f[2].as_slice()),
                key: string_of(f[3].as_slice()),
                short: string_of(f[4].as_slice()),
                stamp: string_of(f[5].as_slice()),
                email: string_of(f[6].as_slice()),
                author_iso: string_of(f[7].as_slice()),
                text: string_of(text.as_slice()),
                body: string_of(body.as_slice()),
            };
            assert(body@ =~= (match split_once_spec(rest@, '\t') {
                Some(q) => q,
                None => (rest@, Seq::empty()),
            }).1);
            Some(row)
        },
    }
}

/// The table's rows, newest first, from the output of the `git log` that
/// `commit_rows_args` spells.
pub fn commit_rows(out: &str) -> (r: Vec<CommitRow>)
    ensures
        row_views(r@) == commit_rows_spec(out@),
{
    let chars = chars_of(out);
    let recs = split(chars.as_slice(), '\0');
    let ghost rv = views(recs@);
    let nl = vec!['\n'];
    let mut rows: Vec<CommitRow> = Vec::new();
    let mut i: usize = 0;
    while i < recs.len()
        invariant
            i <= recs.len(),
            rv == views(recs@),
            nl@ == seq!['\n'],
            row_views(rows@) == rows_of(rv.take(i as int)),
        decreases recs.len() - i,
    {
        assert(rv.take(i + 1).drop_last() =~= rv.take(i as int));
        assert(rv.take(i + 1).last() == recs@[i as int]@);
        let rec = trim_start_set(recs[i].as_slice(), nl.as_slice());
        if rec.len() > 0 {
            match row_from(rec.as_slice()) {
                Some(row) => {
                    let ghost before = row_views(rows@);
                    rows.push(row);
                    assert(row_views(rows@) =~= before.push(row_of(rec@)->0));
                },
                None => {},
            }
        }
        i = i + 1;
    }
    assert(rv.take(i as int) =~= rv);
    rows
}

/// The `git log` that lists the table's rows: author dates in `fmt`, one
/// NUL-terminated record per commit (the body last, and only when asked
/// for), in `order`. Merges are dropped for `no_merges`; under a pathspec
/// without it, `--full-history` and first-parent diffs keep the merges git
/// would simplify away. Then the count limit, the refs, the base they stop
/// at, and the pathspec, last.
pub open spec fn rows_args_spec(
    refs: Seq<Seq<char>>,
    base: Option<Seq<char>>,
    limit: Option<usize>,
    order: Order,
    fmt: DateFmt,
    no_merges: bool,
    want_body: bool,
    paths: Seq<Seq<char>>,
    follow: bool,
) -> Seq<Seq<char>> {
    let order_flag = match order {
        Order::Date => "--author-date-order"@,
        Order::Topo => "--topo-order"@,
    };
    let date = "--date=format:"@ + date_format(fmt);
    let format = if want_body {
        ROW_FORMAT_BODY@
    } else {
        ROW_FORMAT@
    };
    let head = seq!["log"@, order_flag, date, format];
    let head = if follow {
        head.push("--follow"@)
    } else {
        head
    };
    let head = if no_merges {
        head.push("--no-merges"@)
    } else if paths.len() > 0 {
        head.push("--full-history"@).push("--diff-merges=first-parent"@)
    } else {
        head
    };
    let head = match limit {
        Some(n) => head.push("-n"@ + decimal(n as nat)),
        None => head,
    };
    let head = head + refs;
    let head = match base {
        Some(b) => head.push("--not"@).push(b),
        None => head,
    };
    if paths.len() > 0 {
        head.push("--"@) + paths
    } else {
        head
    }
}

/// The strftime a `DateFmt` asks git for.
pub open spec fn date_format(fmt: DateFmt) -> Seq<char> {
    if !fmt.human && !fmt.time {
        "%Y-%m-%d"@
    } else if !fmt.human && fmt.time {
        "%Y-%m-%d %H:%M:%S"@
    } else if fmt.human && !fmt.time {
        "%b. %-d, %Y"@
    } else {
        "%b. %-d, %Y %H:%M:%S"@
    }
}

/// The record format without the body.
pub const ROW_FORMAT: &'static str = "--format=%H%x09%aN%x09%ad%x09%as%x09%h%x09%at%x09%ae%x09%aI%x09%s%x00";

/// The record format with the body, last, where its tabs cannot shift the
/// printed fields.
pub const ROW_FORMAT_BODY: &'static str = "--format=%H%x09%aN%x09%ad%x09%as%x09%h%x09%at%x09%ae%x09%aI%x09%s%x09%b%x00";

fn push_arg(args: &mut Vec<String>, a: &str)
    ensures
        str_views(final(args)@) == str_views(old(args)@).push(a@),
{
    let ghost before = str_views(args@);
    args.push(a.to_string());
    assert(str_views(args@) =~= before.push(a@));
}

fn push_all_args(args: &mut Vec<String>, more: &[String])
    ensures
        str_views(final(args)@) == str_views(old(args)@) + str_views(more@),
{
    let mut i: usize = 0;
    while i < more.len()
        invariant
            i <= more.len(),
            str_views(args@) == str_views(old(args)@) + str_views(more@).take(i as int),
        decreases more.len() - i,
    {
        push_arg(args, more[i].as_str());
        assert(str_views(more@).take(i + 1) =~= str_views(more@).take(i as int).push(more@[i as int]@));
        i = i + 1;
    }
    assert(str_views(more@).take(i as int) =~= str_views(more@));
}

/// The arguments of the `git log` whose output `commit_rows` reads. With
/// `paths`, `follow` is only sound for exactly one path; the caller
/// decides.
pub fn commit_rows_args(
    refs: &[String],
    base: Option<&str>,
    limit: Option<usize>,
    order: Order,
    fmt: DateFmt,
    no_merges: bool,
    want_body: bool,
    paths: &[String],
    follow: bool,
) -> (r: Vec<String>)
    ensures
        str_views(r@) == rows_args_spec(
            str_views(refs@),
            match base {
                Some(b) => Some(b@),
                None => None,
            },
            limit,
            order,
            fmt,
            no_merges,
            want_body,
            str_views(paths@),
            follow,
        ),
{
    let ghost vrefs = str_views(refs@);
    let ghost vpaths = str_views(paths@);
    let ghost order_flag = match order {
        Order::Date => "--author-date-order"@,
        Order::Topo => "--topo-order"@,
    };
    let ghost format = if want_body {
        ROW_FORMAT_BODY@
    } else {
        ROW_FORMAT@
    };
    let mut args: Vec<String> = Vec::new();
    push_arg(&mut args, "log");
    push_arg(&mut args, order.flag());
    let mut date = chars_of("--date=format:");
    push_str(&mut date, fmt.spec());
    let ds = string_of(date.as_slice());
    assert(ds@ == "--date=format:"@ + date_format(fmt));
    push_arg(&mut args, ds.as_str());
    if want_body {
        push_arg(&mut args, ROW_FORMAT_BODY);
    } else {
        push_arg(&mut args, ROW_FORMAT);
    }
    let ghost h1 = seq!["log"@, order_flag, "--date=format:"@ + date_format(fmt), format];
    assert(str_views(args@) =~= h1);
    if follow {
        push_arg(&mut args, "--follow");
    }
    let ghost h2 = if follow {
        h1.push("--follow"@)
    } else {
        h1
    };
    assert(str_views(args@) =~= h2);
    if no_merges {
        push_arg(&mut args, "--no-merges");
    } else if paths.len() > 0 {
        push_arg(&mut args, "--full-history");
        push_arg(&mut args, "--diff-merges=first-parent");
    }
    let ghost h3 = if no_merges {
        h2.push("--no-merges"@)
    } else if vpaths.len() > 0 {
        h2.push("--full-history"@).push("--diff-merges=first-parent"@)
    } else {
        h2
    };
    assert(str_views(args@) =~= h3);
    match limit {
        Some(n) => {
            let mut c = chars_of("-n");
            let d = decimal_of(n);
            push_all(&mut c, d.as_slice());
            let cs = string_of(c.as_slice());
            push_arg(&mut args, cs.as_str());
        },
        None => {},
    }
    let ghost h4 = match limit {
        Some(n) => h3.push("-n"@ + decimal(n as nat)),
        None => h3,
    };
    assert(str_views(args@) =~= h4);
    push_all_args(&mut args, refs);
    match base {
        Some(b) => {
            push_arg(&mut args, "--not");
            push_arg(&mut args, b);
        },
        None => {},
    }
    let ghost h6 = match base {
        Some(b) => (h4 + vrefs).push("--not"@).push(b@),
        None => h4 + vrefs,
    };
    assert(str_views(args@) =~= h6);
    if paths.len() > 0 {
        push_arg(&mut args, "--");
        push_all_args(&mut args, paths);
    }
    args
}

// ---------------------------------------------------------------------------
// Filters on a row
// ---------------------------------------------------------------------------

/// How many matching body lines a row prints before the rest are counted.
pub const BODY_HITS_MAX: usize = 3;

/// The lines of `ls`, trimmed, that are not blank and whose lowercase
/// holds `term`.
pub open spec fn hit_lines(ls: Seq<Seq<char>>, term: Seq<char>) -> Seq<Seq<char>>
    decreases ls.len(),
{
    if ls.len() == 0 {
        Seq::empty()
    } else {
        let h = hit_lines(ls.drop_last(), term);
        let l = trim_spec(ls.last());
        if l.len() > 0 && contains_spec(lowercase(l), term) {
            h.push(l)
        } else {
            h
        }
    }
}

/// The body lines containing `term` (which the caller has lowercased),
/// case-folded, trimmed, blank ones gone: the first `BODY_HITS_MAX` of
/// them, and how many more there were.
pub fn body_hits(body: &str, term: &str) -> (r: (Vec<String>, usize))
    ensures
        ({
            let all = hit_lines(lines_spec(body@), term@);
            &&& all.len() <= BODY_HITS_MAX ==> str_views(r.0@) == all && r.1 == 0
            &&& all.len() > BODY_HITS_MAX ==> str_views(r.0@) == all.take(BODY_HITS_MAX as int)
                && r.1 == all.len() - BODY_HITS_MAX
        }),
{
    let bc = chars_of(body);
    let tc = chars_of(term);
    let ls = lines(bc.as_slice());
    let ghost lv = views(ls@);
    let mut hits: Vec<Vec<char>> = Vec::new();
    let mut i: usize = 0;
    while i < ls.len()
        invariant
            i <= ls.len(),
            lv == views(ls@),
            tc@ == term@,
            views(hits@) == hit_lines(lv.take(i as int), term@),
            hits@.len() <= i,
        decreases ls.len() - i,
    {
        assert(lv.take(i + 1).drop_last() =~= lv.take(i as int));
        assert(lv.take(i + 1).last() == ls@[i as int]@);
        let l = trim(ls[i].as_slice());
        if l.len() > 0 {
            let low = lower_chars(l.as_slice());
            if contains(low.as_slice(), tc.as_slice()) {
                let ghost before = views(hits@);
                hits.push(l);
                assert(views(hits@) =~= before.push(trim_spec(ls@[i as int]@)));
            }
        }
        i = i + 1;
    }
    assert(lv.take(i as int) =~= lv);
    let ghost all = views(hits@);
    let mut shown: Vec<String> = Vec::new();
    let mut k: usize = 0;
    while k < hits.len() && k < BODY_HITS_MAX
        invariant
            k <= hits.len(),
            k <= BODY_HITS_MAX,
            all == views(hits@),
            str_views(shown@) == all.take(k as int),
        decreases hits.len() - k,
    {
        let ghost before = str_views(shown@);
        shown.push(string_of(hits[k].as_slice()));
        assert(str_views(shown@) =~= before.push(all[k as int]));
        assert(all.take(k + 1) =~= all.take(k as int).push(all[k as int]));
        k = k + 1;
    }
    if hits.len() <= BODY_HITS_MAX {
        assert(all.take(k as int) =~= all);
    }
    let extra = if hits.len() > BODY_HITS_MAX {
        hits.len() - BODY_HITS_MAX
    } else {
        0
    };
    (shown, extra)
}

/// The characters a pathspec reads as glob syntax.
pub open spec fn glob_char(c: char) -> bool {
    c == '\\' || c == '*' || c == '?' || c == '['
}

/// `s` with a backslash before every glob character.
pub open spec fn escape_spec(s: Seq<char>) -> Seq<char>
    decreases s.len(),
{
    if s.len() == 0 {
        Seq::empty()
    } else {
        let p = escape_spec(s.drop_last());
        if glob_char(s.last()) {
            p.push('\\').push(s.last())
        } else {
            p.push(s.last())
        }
    }
}

/// A path substring as a pathspec git reads literally: the glob
/// characters the user typed are theirs, not syntax.
pub fn escape_pathspec(term: &str) -> (r: String)
    ensures
        r@ == escape_spec(term@),
{
    let t = chars_of(term);
    let mut out: Vec<char> = Vec::new();
    let mut i: usize = 0;
    while i < t.len()
        invariant
            i <= t.len(),
            t@ == term@,
            out@ == escape_spec(t@.take(i as int)),
        decreases t.len() - i,
    {
        assert(t@.take(i + 1).drop_last() =~= t@.take(i as int));
        let c = t[i];
        if c == '\\' || c == '*' || c == '?' || c == '[' {
            out.push('\\');
        }
        out.push(c);
        i = i + 1;
    }
    assert(t@.take(i as int) =~= t@);
    string_of(out.as_slice())
}

/// The case-folded substring pathspec `--filename` walks with: `*` on
/// either side crosses directory separators.
pub fn icase_pathspec(term: &str) -> (r: String)
    ensures
        r@ == ":(icase)*"@ + escape_spec(term@) + "*"@,
{
    let mut out = chars_of(":(icase)*");
    let e = escape_pathspec(term);
    push_str(&mut out, e.as_str());
    push_str(&mut out, "*");
    string_of(out.as_slice())
}

/// The lines of `ls`, trimmed, that are not blank.
pub open spec fn nonblank(ls: Seq<Seq<char>>) -> Seq<Seq<char>>
    decreases ls.len(),
{
    if ls.len() == 0 {
        Seq::empty()
    } else {
        let p = nonblank(ls.drop_last());
        let l = trim_spec(ls.last());
        if l.len() > 0 {
            p.push(l)
        } else {
            p
        }
    }
}

/// The trimmed, non-blank lines of `s`.
pub fn nonblank_lines(s: &[char]) -> (r: Vec<Vec<char>>)
    ensures
        views(r@) == nonblank(lines_spec(s@)),
{
    let ls = lines(s);
    let ghost lv = views(ls@);
    let mut out: Vec<Vec<char>> = Vec::new();
    let mut i: usize = 0;
    while i < ls.len()
        invariant
            i <= ls.len(),
            lv == views(ls@),
            views(out@) == nonblank(lv.take(i as int)),
        decreases ls.len() - i,
    {
        assert(lv.take(i + 1).drop_last() =~= lv.take(i as int));
        assert(lv.take(i + 1).last() == ls@[i as int]@);
        let l = trim(ls[i].as_slice());
        if l.len() > 0 {
            let ghost before = views(out@);
            out.push(l);
            assert(views(out@) =~= before.push(trim_spec(ls@[i as int]@)));
        }
        i = i + 1;
    }
    assert(lv.take(i as int) =~= lv);
    out
}

/// The shas of the records (`NUL`, sha, then the matching paths it
/// touched) that list at least one path.
pub open spec fn path_shas_of(recs: Seq<Seq<char>>) -> Seq<Seq<char>>
    decreases recs.len(),
{
    if recs.len() == 0 {
        Seq::empty()
    } else {
        let p = path_shas_of(recs.drop_last());
        let ls = nonblank(lines_spec(recs.last()));
        if ls.len() >= 2 {
            p.push(ls[0])
        } else {
            p
        }
    }
}

/// The shas whose file block would name a path holding the `--filename`
/// term, from the output of `git log --format=%x00%H --name-only
/// --full-history --diff-merges=first-parent <refs> -- <icase_pathspec>`:
/// a commit the walk kept but listed no path for touched none.
pub fn path_shas(out: &str) -> (r: Vec<String>)
    ensures
        str_views(r@) == path_shas_of(split_spec(out@, '\0')),
{
    let oc = chars_of(out);
    let recs = split(oc.as_slice(), '\0');
    let ghost rv = views(recs@);
    let mut shas: Vec<String> = Vec::new();
    let mut i: usize = 0;
    while i < recs.len()
        invariant
            i <= recs.len(),
            rv == views(recs@),
            str_views(shas@) == path_shas_of(rv.take(i as int)),
        decreases recs.len() - i,
    {
        assert(rv.take(i + 1).drop_last() =~= rv.take(i as int));
        assert(rv.take(i + 1).last() == recs@[i as int]@);
        let ls = nonblank_lines(recs[i].as_slice());
        if ls.len() >= 2 {
            let ghost before = str_views(shas@);
            assert(views(ls@)[0] == ls@[0]@);
            shas.push(string_of(ls[0].as_slice()));
            assert(str_views(shas@) =~= before.push(ls@[0]@));
        }
        i = i + 1;
    }
    assert(rv.take(i as int) =~= rv);
    shas
}

// ---------------------------------------------------------------------------
// Naming commits
// ---------------------------------------------------------------------------

/// `r` resolved to a commit from what `git rev-parse --verify --quiet
/// <r>^{commit}` printed (`None` when it failed), or the error naming the
/// flag that could not find it.
pub open spec fn commit_of_spec(out: Option<Seq<char>>, r: Seq<char>, flag: Seq<char>) -> Result<Seq<char>, Seq<char>> {
    match out {
        Some(o) if trim_spec(o).len() > 0 => Ok(trim_spec(o)),
        _ => Err(flag + ": no commit '"@ + r + "'"@),
    }
}

pub open spec fn opt_str(o: Option<&str>) -> Option<Seq<char>> {
    match o {
        Some(s) => Some(s@),
        None => None,
    }
}

pub open spec fn result_view(r: Result<String, String>) -> Result<Seq<char>, Seq<char>> {
    match r {
        Ok(s) => Ok(s@),
        Err(e) => Err(e@),
    }
}

/// Resolve `r` to a commit, or say which flag could not find it.
pub fn commit_of(out: Option<&str>, r: &str, flag: &str) -> (res: Result<String, String>)
    ensures
        result_view(res) == commit_of_spec(opt_str(out), r@, flag@),
{
    match out {
        Some(o) => {
            let oc = chars_of(o);
            let t = trim(oc.as_slice());
            if t.len() > 0 {
                return Ok(string_of(t.as_slice()));
            }
        },
        None => {},
    }
    let mut e = chars_of(flag);
    push_str(&mut e, ": no commit '");
    push_str(&mut e, r);
    push_str(&mut e, "'");
    Err(string_of(e.as_slice()))
}

/// The day a commit was authored, as `YYYY-MM-DD`, from what `git log -1
/// --format=%ad --date=format:%Y-%m-%d <c>` printed.
pub fn commit_day(out: &str, c: &str) -> (res: Result<String, String>)
    ensures
        trim_spec(out@).len() > 0 ==> result_view(res) == Ok::<Seq<char>, Seq<char>>(trim_spec(out@)),
        trim_spec(out@).len() == 0 ==> result_view(res) == Err::<Seq<char>, Seq<char>>(
            "no author date for commit '"@ + c@ + "'"@,
        ),
{
    let oc = chars_of(out);
    let t = trim(oc.as_slice());
    if t.len() == 0 {
        let mut e = chars_of("no author date for commit '");
        push_str(&mut e, c);
        push_str(&mut e, "'");
        return Err(string_of(e.as_slice()));
    }
    Ok(string_of(t.as_slice()))
}

/// Every line of every output, in order.
pub open spec fn all_lines(outs: Seq<Seq<char>>) -> Seq<Seq<char>>
    decreases outs.len(),
{
    if outs.len() == 0 {
        Seq::empty()
    } else {
        all_lines(outs.drop_last()) + lines_spec(outs.last())
    }
}

/// The lines of `s`, as strings.
pub fn line_strings(s: &str) -> (r: Vec<String>)
    ensures
        str_views(r@) == lines_spec(s@),
{
    let c = chars_of(s);
    let ls = lines(c.as_slice());
    let mut out: Vec<String> = Vec::new();
    let mut i: usize = 0;
    while i < ls.len()
        invariant
            i <= ls.len(),
            str_views(out@) == views(ls@).take(i as int),
        decreases ls.len() - i,
    {
        let ghost before = str_views(out@);
        out.push(string_of(ls[i].as_slice()));
        assert(str_views(out@) =~= before.push(ls@[i as int]@));
        assert(views(ls@).take(i + 1) =~= views(ls@).take(i as int).push(ls@[i as int]@));
        i = i + 1;
    }
    assert(views(ls@).take(i as int) =~= views(ls@));
    out
}

/// Every commit reachable from a ref, cut at a base the same way the rows
/// are, from what `git rev-list <r> [--not <base>]` printed: one sha per
/// line.
pub fn ref_shas(out: &str) -> (r: Vec<String>)
    ensures
        str_views(r@) == lines_spec(out@),
{
    line_strings(out)
}

/// The revision `git rev-list` walks for everything strictly older than
/// `c`: every parent at once, so `c` itself is never listed (and a root
/// commit lists nothing).
pub fn parents_rev(c: &str) -> (r: String)
    ensures
        r@ == c@ + "^@"@,
{
    let mut m: Vec<char> = Vec::new();
    push_str(&mut m, c);
    push_str(&mut m, "^@");
    string_of(m.as_slice())
}

/// The commits strictly older than a `--from` bound, from what
/// `git rev-list <c>^@` printed: one sha per line.
pub fn older_than(out: &str) -> (r: Vec<String>)
    ensures
        str_views(r@) == lines_spec(out@),
{
    line_strings(out)
}

/// A `--to` bound and everything it reaches, from what `git rev-list <c>`
/// printed: one sha per line.
pub fn reachable_from(out: &str) -> (r: Vec<String>)
    ensures
        str_views(r@) == lines_spec(out@),
{
    line_strings(out)
}

/// The commits of the target that some source branch is missing, from
/// what `git rev-list <source>..<target>` printed for each source.
pub fn divergent_set(outs: &[String]) -> (r: Vec<String>)
    ensures
        str_views(r@) == all_lines(str_views(outs@)),
{
    let ghost ov = str_views(outs@);
    let mut all: Vec<String> = Vec::new();
    let mut i: usize = 0;
    while i < outs.len()
        invariant
            i <= outs.len(),
            ov == str_views(outs@),
            str_views(all@) == all_lines(ov.take(i as int)),
        decreases outs.len() - i,
    {
        assert(ov.take(i + 1).drop_last() =~= ov.take(i as int));
        assert(ov.take(i + 1).last() == outs@[i as int]@);
        let mut more = line_strings(outs[i].as_str());
        let ghost before = str_views(all@);
        let ghost mv = str_views(more@);
        all.append(&mut more);
        assert(str_views(all@) =~= before + mv);
        i = i + 1;
    }
    assert(ov.take(i as int) =~= ov);
    all
}

// ---------------------------------------------------------------------------
// The default window
// ---------------------------------------------------------------------------

/// A row's timestamp; one that does not parse sorts before every other.
pub open spec fn stamp_of(r: CommitRowSpec) -> i64 {
    match parse_i64_spec(r.stamp) {
        Some(v) => v,
        None => i64::MIN,
    }
}

/// The oldest timestamp among the rows whose sha is in `div`.
pub open spec fn floor_of(rows: Seq<CommitRowSpec>, div: Seq<Seq<char>>) -> Option<i64>
    decreases rows.len(),
{
    if rows.len() == 0 {
        None
    } else {
        let prev = floor_of(rows.drop_last(), div);
        let r = rows.last();
        if div.contains(r.sha) {
            match prev {
                Some(f) if f <= stamp_of(r) => Some(f),
                _ => Some(stamp_of(r)),
            }
        } else {
            prev
        }
    }
}

/// The rows at least as new as `floor`, in order.
pub open spec fn rows_since(rows: Seq<CommitRowSpec>, floor: i64) -> Seq<CommitRowSpec>
    decreases rows.len(),
{
    if rows.len() == 0 {
        Seq::empty()
    } else {
        let p = rows_since(rows.drop_last(), floor);
        if stamp_of(rows.last()) >= floor {
            p.push(rows.last())
        } else {
            p
        }
    }
}

/// The floor is no newer than any divergent row.
pub proof fn lemma_floor_below(rows: Seq<CommitRowSpec>, div: Seq<Seq<char>>)
    ensures
        forall|i: int|
            0 <= i < rows.len() && div.contains(#[trigger] rows[i].sha) ==> (floor_of(rows, div) matches Some(
                f,
            ) && f <= stamp_of(rows[i])),
    decreases rows.len(),
{
    if rows.len() > 0 {
        let d = rows.drop_last();
        lemma_floor_below(d, div);
        assert forall|i: int| 0 <= i < rows.len() && div.contains(#[trigger] rows[i].sha) implies (floor_of(
            rows,
            div,
        ) matches Some(f) && f <= stamp_of(rows[i])) by {
            if i < d.len() {
                assert(rows[i] == d[i]);
                assert(div.contains(d[i].sha));
            }
        }
    }
}

/// Every row at least as new as the floor is in the window.
pub proof fn lemma_since_keeps(rows: Seq<CommitRowSpec>, floor: i64)
    ensures
        forall|i: int|
            0 <= i < rows.len() && stamp_of(#[trigger] rows[i]) >= floor ==> rows_since(rows, floor).contains(
                rows[i],
            ),
        forall|i: int|
            0 <= i < rows_since(rows, floor).len() ==> stamp_of(#[trigger] rows_since(rows, floor)[i])
                >= floor,
    decreases rows.len(),
{
    if rows.len() > 0 {
        let d = rows.drop_last();
        lemma_since_keeps(d, floor);
        let p = rows_since(d, floor);
        assert forall|i: int| 0 <= i < rows.len() && stamp_of(#[trigger] rows[i]) >= floor implies rows_since(
            rows,
            floor,
        ).contains(rows[i]) by {
            if i < d.len() {
                assert(rows[i] == d[i]);
                assert(p.contains(d[i]));
                let k = choose|k: int| 0 <= k < p.len() && p[k] == d[i];
                assert(rows_since(rows, floor)[k] == p[k]);
            } else {
                assert(rows[i] == rows.last());
                assert(rows_since(rows, floor)[p.len() as int] == rows.last());
            }
        }
        assert forall|i: int| 0 <= i < rows_since(rows, floor).len() implies stamp_of(
            #[trigger] rows_since(rows, floor)[i],
        ) >= floor by {
            if i < p.len() {
                assert(rows_since(rows, floor)[i] == p[i]);
            }
        }
    }
}

/// The floor, when there is one, is some divergent row's own timestamp.
pub proof fn lemma_floor_attained(rows: Seq<CommitRowSpec>, div: Seq<Seq<char>>)
    ensures
        floor_of(rows, div) matches Some(f) ==> exists|i: int|
            0 <= i < rows.len() && div.contains(#[trigger] rows[i].sha) && stamp_of(rows[i]) == f,
        floor_of(rows, div) is None ==> forall|i: int| 0 <= i < rows.len() ==> !div.contains(#[trigger] rows[i].sha),
    decreases rows.len(),
{
    if rows.len() > 0 {
        let d = rows.drop_last();
        lemma_floor_attained(d, div);
        let last = rows.len() - 1;
        assert(rows[last] == rows.last());
        if let Some(f) = floor_of(rows, div) {
            if floor_of(d, div) == Some(f) && !(div.contains(rows.last().sha) && stamp_of(rows.last()) == f) {
                let i = choose|i: int| 0 <= i < d.len() && div.contains(#[trigger] d[i].sha) && stamp_of(d[i]) == f;
                assert(rows[i] == d[i]);
            }
        } else {
            assert forall|i: int| 0 <= i < rows.len() implies !div.contains(#[trigger] rows[i].sha) by {
                if i < d.len() {
                    assert(rows[i] == d[i]);
                }
            }
        }
    }
}

/// The default window is a threshold, not a cut at a position: a row the
/// log holds is in it exactly when it is at least as new as the oldest
/// divergent row (so it is the same set of commits whatever order the
/// rows came in), every divergent row among them; and with no divergent
/// row the window is empty.
pub proof fn lemma_window_keeps_divergent(rows: Seq<CommitRowSpec>, div: Seq<Seq<char>>)
    ensures
        floor_of(rows, div) matches Some(f) ==> {
            &&& exists|i: int| 0 <= i < rows.len() && div.contains(#[trigger] rows[i].sha) && stamp_of(rows[i]) == f
            &&& forall|i: int| 0 <= i < rows.len() && div.contains(#[trigger] rows[i].sha) ==> f <= stamp_of(rows[i])
            &&& forall|i: int|
                0 <= i < rows.len() && stamp_of(#[trigger] rows[i]) >= f ==> rows_since(rows, f).contains(rows[i])
            &&& forall|i: int|
                0 <= i < rows_since(rows, f).len() ==> stamp_of(#[trigger] rows_since(rows, f)[i]) >= f && rows.contains(
                    rows_since(rows, f)[i],
                )
        },
        floor_of(rows, div) is None ==> forall|i: int| 0 <= i < rows.len() ==> !div.contains(#[trigger] rows[i].sha),
{
    lemma_floor_below(rows, div);
    lemma_floor_attained(rows, div);
    if let Some(f) = floor_of(rows, div) {
        lemma_since_keeps(rows, f);
        lemma_since_from(rows, f);
    }
}

/// What the default view keeps of `rows`: the rows since the oldest
/// divergent one, in order, and none when no row is divergent.
pub open spec fn window_spec(rows: Seq<CommitRowSpec>, div: Seq<Seq<char>>) -> Seq<CommitRowSpec> {
    match floor_of(rows, div) {
        Some(f) => rows_since(rows, f),
        None => Seq::empty(),
    }
}

/// How often a row occurs in the rows since `floor`: as often as in the
/// rows when it is at least that new, else never.
proof fn lemma_since_counts(rows: Seq<CommitRowSpec>, floor: i64)
    ensures
        forall|x: CommitRowSpec|
            #[trigger] rows_since(rows, floor).to_multiset().count(x) == if stamp_of(x) >= floor {
                rows.to_multiset().count(x)
            } else {
                0
            },
    decreases rows.len(),
{
    broadcast use vstd::seq_lib::group_to_multiset_ensures;

    if rows.len() == 0 {
        assert forall|x: CommitRowSpec| #[trigger] rows_since(rows, floor).to_multiset().count(x) == 0
            && rows.to_multiset().count(x) == 0 by {
            assert(!rows.contains(x));
            assert(!rows_since(rows, floor).contains(x));
        }
    } else {
        let d = rows.drop_last();
        let last = rows.last();
        lemma_since_counts(d, floor);
        assert(rows =~= d.push(last));
        assert(rows.to_multiset() =~= d.to_multiset().insert(last));
        let p = rows_since(d, floor);
        if stamp_of(last) >= floor {
            assert(rows_since(rows, floor).to_multiset() =~= p.to_multiset().insert(last));
        }
    }
}

/// The order the log hands the rows in does not matter: rows that are a
/// rearrangement of each other have the same oldest divergent row, and
/// the default view keeps the same rows of both, as often.
pub proof fn lemma_window_ignores_order(rows: Seq<CommitRowSpec>, other: Seq<CommitRowSpec>, div: Seq<Seq<char>>)
    requires
        rows.to_multiset() =~= other.to_multiset(),
    ensures
        floor_of(rows, div) == floor_of(other, div),
        window_spec(rows, div).to_multiset() =~= window_spec(other, div).to_multiset(),
{
    broadcast use vstd::seq_lib::group_to_multiset_ensures;

    lemma_floor_below(rows, div);
    lemma_floor_attained(rows, div);
    lemma_floor_below(other, div);
    lemma_floor_attained(other, div);
    assert forall|x: CommitRowSpec| rows.contains(x) <==> other.contains(x) by {
        assert(rows.to_multiset().count(x) == other.to_multiset().count(x));
    }
    match floor_of(rows, div) {
        Some(f) => {
            let i = choose|i: int| 0 <= i < rows.len() && div.contains(#[trigger] rows[i].sha) && stamp_of(rows[i]) == f;
            assert(rows.contains(rows[i]));
            let k = choose|k: int| 0 <= k < other.len() && other[k] == rows[i];
            assert(div.contains(other[k].sha));
            let g = floor_of(other, div)->0;
            let j = choose|j: int| 0 <= j < other.len() && div.contains(#[trigger] other[j].sha) && stamp_of(other[j]) == g;
            assert(other.contains(other[j]));
            let m = choose|m: int| 0 <= m < rows.len() && rows[m] == other[j];
            assert(div.contains(rows[m].sha));
            assert(f == g);
            lemma_since_counts(rows, f);
            lemma_since_counts(other, f);
            assert forall|x: CommitRowSpec|
                #[trigger] window_spec(rows, div).to_multiset().count(x) == window_spec(other, div).to_multiset().count(x) by {
                assert(rows_since(rows, f).to_multiset().count(x) == rows_since(other, f).to_multiset().count(x));
            }
        },
        None => {
            if floor_of(other, div) is Some {
                let g = floor_of(other, div)->0;
                let j = choose|j: int| 0 <= j < other.len() && div.contains(#[trigger] other[j].sha) && stamp_of(other[j]) == g;
                assert(other.contains(other[j]));
                let m = choose|m: int| 0 <= m < rows.len() && rows[m] == other[j];
                assert(div.contains(rows[m].sha));
            }
        },
    }
}

/// Every row of the window comes from the rows given.
proof fn lemma_since_from(rows: Seq<CommitRowSpec>, floor: i64)
    ensures
        forall|i: int| 0 <= i < rows_since(rows, floor).len() ==> rows.contains(#[trigger] rows_since(rows, floor)[i]),
    decreases rows.len(),
{
    if rows.len() > 0 {
        let d = rows.drop_last();
        lemma_since_from(d, floor);
        let p = rows_since(d, floor);
        assert forall|i: int| 0 <= i < rows_since(rows, floor).len() implies rows.contains(
            #[trigger] rows_since(rows, floor)[i],
        ) by {
            if i < p.len() {
                assert(rows_since(rows, floor)[i] == p[i]);
                let j = choose|j: int| 0 <= j < d.len() && d[j] == p[i];
                assert(rows[j] == d[j]);
            } else {
                assert(rows[rows.len() - 1] == rows.last());
            }
        }
    }
}

/// A row's timestamp.
fn stamp(r: &CommitRow) -> (v: i64)
    ensures
        v == stamp_of(r@),
{
    let c = chars_of(r.stamp.as_str());
    match parse_i64(c.as_slice()) {
        Some(v) => v,
        None => i64::MIN,
    }
}

/// Keep the first branch's log down to its earliest divergent commit: the
/// oldest timestamp among the divergent rows is the floor, and every row
/// at least that new stays. A threshold, not a cut at a position, so the
/// window is the same set of commits whatever order produced the rows. No
/// divergent row leaves nothing.
pub fn window_to_divergent(rows: Vec<CommitRow>, divergent: &[String]) -> (r: Vec<CommitRow>)
    ensures
        floor_of(row_views(rows@), str_views(divergent@)) is None ==> r@.len() == 0,
        floor_of(row_views(rows@), str_views(divergent@)) matches Some(f) ==> row_views(r@)
            == rows_since(row_views(rows@), f),
{
    let ghost all = row_views(rows@);
    let ghost div = str_views(divergent@);
    let mut floor: Option<i64> = None;
    let mut i: usize = 0;
    while i < rows.len()
        invariant
            i <= rows.len(),
            all == row_views(rows@),
            div == str_views(divergent@),
            floor == floor_of(all.take(i as int), div),
        decreases rows.len() - i,
    {
        assert(all.take(i + 1).drop_last() =~= all.take(i as int));
        assert(all.take(i + 1).last() == rows@[i as int]@);
        if member(divergent, rows[i].sha.as_str()) {
            let s = stamp(&rows[i]);
            floor = match floor {
                Some(f) if f <= s => Some(f),
                _ => Some(s),
            };
        }
        i = i + 1;
    }
    assert(all.take(i as int) =~= all);
    let f = match floor {
        None => {
            return Vec::new();
        },
        Some(f) => f,
    };
    assert(all.len() == rows@.len() && rows@.len() <= usize::MAX);
    let mut rest = rows;
    let mut kept: Vec<CommitRow> = Vec::new();
    let mut k: usize = 0;
    assert(all.skip(0) =~= all);
    while rest.len() > 0
        invariant
            row_views(rest@) == all.skip(k as int),
            k + rest@.len() == all.len(),
            all.len() <= usize::MAX,
            row_views(kept@) == rows_since(all.take(k as int), f),
        decreases rest.len(),
    {
        let ghost rb = rest@;
        assert(row_views(rb)[0] == rb[0]@);
        assert(all.skip(k as int)[0] == all[k as int]);
        let r = rest.remove(0);
        assert(r@ == all[k as int]);
        assert forall|j: int| 0 <= j < rest@.len() implies row_views(rest@)[j] == all.skip(k + 1)[j] by {
            assert(rest@[j] == rb[j + 1]);
            assert(row_views(rb)[j + 1] == rb[j + 1]@);
        }
        assert(row_views(rest@) =~= all.skip(k + 1));
        assert(all.take(k + 1).drop_last() =~= all.take(k as int));
        assert(all.take(k + 1).last() == all[k as int]);
        if stamp(&r) >= f {
            let ghost kb = row_views(kept@);
            kept.push(r);
            assert(row_views(kept@) =~= kb.push(all[k as int]));
        }
        k = k + 1;
    }
    assert(all.take(k as int) =~= all);
    kept
}

// ---------------------------------------------------------------------------
// Equivalents, picks and trailers
// ---------------------------------------------------------------------------

/// The shas `git cherry` marks `-` (the upstream carries the same patch
/// under another sha), trimmed.
pub open spec fn dash_shas(ls: Seq<Seq<char>>) -> Seq<Seq<char>>
    decreases ls.len(),
{
    if ls.len() == 0 {
        Seq::empty()
    } else {
        let p = dash_shas(ls.drop_last());
        let l = ls.last();
        if l.len() >= 2 && l[0] == '-' && l[1] == ' ' {
            p.push(trim_spec(l.skip(2)))
        } else {
            p
        }
    }
}

/// What the cherry outputs `outs[0..n]` say upstream `i` has an
/// equivalent of, skipping the pairs that compare a ref with itself and
/// the ones git could not compare.
pub open spec fn equivalents_upto(refs: Seq<Seq<char>>, outs: Seq<Option<String>>, i: int, n: int) -> Seq<Seq<char>>
    decreases n,
{
    if n <= 0 {
        Seq::empty()
    } else {
        let p = equivalents_upto(refs, outs, i, n - 1);
        if refs[n - 1] == refs[i] {
            p
        } else {
            match outs[n - 1] {
                Some(t) => p + dash_shas(lines_spec(t@)),
                None => p,
            }
        }
    }
}

/// The `-` shas of one `git cherry` output.
fn dash_shas_of(out: &str) -> (r: Vec<String>)
    ensures
        str_views(r@) == dash_shas(lines_spec(out@)),
{
    let c = chars_of(out);
    let ls = lines(c.as_slice());
    let ghost lv = views(ls@);
    let mut shas: Vec<String> = Vec::new();
    let mut i: usize = 0;
    while i < ls.len()
        invariant
            i <= ls.len(),
            lv == views(ls@),
            str_views(shas@) == dash_shas(lv.take(i as int)),
        decreases ls.len() - i,
    {
        assert(lv.take(i + 1).drop_last() =~= lv.take(i as int));
        assert(lv.take(i + 1).last() == ls@[i as int]@);
        let l = &ls[i];
        if l.len() >= 2 && l[0] == '-' && l[1] == ' ' {
            let rest = slice_from(l.as_slice(), 2);
            let t = trim(rest.as_slice());
            let ghost before = str_views(shas@);
            shas.push(string_of(t.as_slice()));
            assert(str_views(shas@) =~= before.push(trim_spec(l@.skip(2))));
        }
        i = i + 1;
    }
    assert(lv.take(i as int) =~= lv);
    shas
}

/// Per column, the commits it has an equivalent of but not the commit
/// itself: same patch, different sha. `cherry[i][j]` is what `git cherry
/// <refs[i]> <refs[j]>` printed, `None` where the pair could not be
/// compared (unrelated histories), which leaves that column's marks as
/// they were.
pub fn equivalents(refs: &[String], cherry: &[Vec<Option<String>>]) -> (r: Vec<Vec<String>>)
    requires
        cherry.len() == refs.len(),
        forall|i: int| 0 <= i < cherry.len() ==> (#[trigger] cherry@[i]).len() == refs.len(),
    ensures
        r.len() == refs.len(),
        forall|i: int|
            0 <= i < r.len() ==> str_views(#[trigger] r@[i]@) == equivalents_upto(
                str_views(refs@),
                cherry@[i]@,
                i,
                refs.len() as int,
            ),
{
    let ghost rv = str_views(refs@);
    let mut out: Vec<Vec<String>> = Vec::new();
    let mut i: usize = 0;
    while i < refs.len()
        invariant
            i <= refs.len(),
            rv == str_views(refs@),
            cherry.len() == refs.len(),
            forall|k: int| 0 <= k < cherry.len() ==> (#[trigger] cherry@[k]).len() == refs.len(),
            out.len() == i,
            forall|k: int|
                0 <= k < i ==> str_views(#[trigger] out@[k]@) == equivalents_upto(
                    rv,
                    cherry@[k]@,
                    k,
                    refs.len() as int,
                ),
        decreases refs.len() - i,
    {
        let row = &cherry[i];
        let up = chars_of(refs[i].as_str());
        let mut set: Vec<String> = Vec::new();
        let mut j: usize = 0;
        while j < refs.len()
            invariant
                j <= refs.len(),
                i < refs.len(),
                rv == str_views(refs@),
                row@ == cherry@[i as int]@,
                row.len() == refs.len(),
                up@ == refs@[i as int]@,
                str_views(set@) == equivalents_upto(rv, row@, i as int, j as int),
            decreases refs.len() - j,
        {
            let head = chars_of(refs[j].as_str());
            assert(rv[j as int] == refs@[j as int]@ && rv[i as int] == refs@[i as int]@);
            if !crate::text::same(head.as_slice(), up.as_slice()) {
                match &row[j] {
                    Some(t) => {
                        let mut more = dash_shas_of(t.as_str());
                        let ghost before = str_views(set@);
                        let ghost mv = str_views(more@);
                        set.append(&mut more);
                        assert(str_views(set@) =~= before + mv);
                    },
                    None => {},
                }
            }
            j = j + 1;
        }
        let ghost ob = out@;
        out.push(set);
        assert forall|k: int| 0 <= k < i + 1 implies str_views(#[trigger] out@[k]@) == equivalents_upto(
            rv,
            cherry@[k]@,
            k,
            refs.len() as int,
        ) by {
            if k < i {
                assert(out@[k] == ob[k]);
            }
        }
        i = i + 1;
    }
    out
}

/// A patch-id and the commit that carries it.
#[derive(Debug)]
pub struct PatchId {
    pub patch: String,
    pub sha: String,
}

/// The `(patch, sha)` pairs of `git patch-id --stable` output: one `patch
/// sha` per line, the sha trimmed; lines without a space passed over.
pub open spec fn patch_pairs(ls: Seq<Seq<char>>) -> Seq<(Seq<char>, Seq<char>)>
    decreases ls.len(),
{
    if ls.len() == 0 {
        Seq::empty()
    } else {
        let p = patch_pairs(ls.drop_last());
        match split_once_spec(ls.last(), ' ') {
            Some(q) => p.push((q.0, trim_spec(q.1))),
            None => p,
        }
    }
}

pub open spec fn patch_views(v: Seq<PatchId>) -> Seq<(Seq<char>, Seq<char>)> {
    v.map_values(|p: PatchId| (p.patch@, p.sha@))
}

/// The pairs `git patch-id --stable` printed.
pub fn parse_patch_ids(out: &str) -> (r: Vec<PatchId>)
    ensures
        patch_views(r@) == patch_pairs(lines_spec(out@)),
{
    let c = chars_of(out);
    let ls = lines(c.as_slice());
    let ghost lv = views(ls@);
    let mut pairs: Vec<PatchId> = Vec::new();
    let mut i: usize = 0;
    while i < ls.len()
        invariant
            i <= ls.len(),
            lv == views(ls@),
            patch_views(pairs@) == patch_pairs(lv.take(i as int)),
        decreases ls.len() - i,
    {
        assert(lv.take(i + 1).drop_last() =~= lv.take(i as int));
        assert(lv.take(i + 1).last() == ls@[i as int]@);
        match split_once(ls[i].as_slice(), ' ') {
            Some((patch, sha)) => {
                let t = trim(sha.as_slice());
                let ghost before = patch_views(pairs@);
                pairs.push(PatchId { patch: string_of(patch.as_slice()), sha: string_of(t.as_slice()) });
                assert(patch_views(pairs@) =~= before.push((patch@, trim_spec(sha@))));
            },
            None => {},
        }
        i = i + 1;
    }
    assert(lv.take(i as int) =~= lv);
    pairs
}

/// The first sha in `pairs` carrying `patch` other than `sha`.
pub open spec fn first_other(pairs: Seq<(Seq<char>, Seq<char>)>, patch: Seq<char>, sha: Seq<char>) -> Option<Seq<char>>
    decreases pairs.len(),
{
    if pairs.len() == 0 {
        None
    } else if pairs[0].0 == patch && pairs[0].1 != sha {
        Some(pairs[0].1)
    } else {
        first_other(pairs.drop_first(), patch, sha)
    }
}

/// For each of the first `n` pairs whose patch another sha also carries,
/// that sha and the first of its others.
pub open spec fn picks(pairs: Seq<(Seq<char>, Seq<char>)>, n: int) -> Seq<(Seq<char>, Seq<char>)>
    decreases n,
{
    if n <= 0 {
        Seq::empty()
    } else {
        let p = picks(pairs, n - 1);
        match first_other(pairs, pairs[n - 1].0, pairs[n - 1].1) {
            Some(o) => p.push((pairs[n - 1].1, o)),
            None => p,
        }
    }
}

/// A picked commit and another sha carrying its patch.
#[derive(Debug)]
pub struct Pick {
    pub sha: String,
    pub other: String,
}

pub open spec fn pick_views(v: Seq<Pick>) -> Seq<(Seq<char>, Seq<char>)> {
    v.map_values(|p: Pick| (p.sha@, p.other@))
}

/// The first sha after position `from` of `pairs` that carries `patch`
/// and is not `sha`.
fn first_other_from(pairs: &[PatchId], from: usize, patch: &[char], sha: &[char]) -> (r: Option<usize>)
    requires
        from <= pairs.len(),
    ensures
        r matches Some(k) ==> k < pairs.len() && first_other(patch_views(pairs@).skip(from as int), patch@, sha@)
            == Some(pairs@[k as int].sha@),
        r is None ==> first_other(patch_views(pairs@).skip(from as int), patch@, sha@) is None,
    decreases pairs.len() - from,
{
    if from == pairs.len() {
        assert(patch_views(pairs@).skip(from as int) =~= Seq::<(Seq<char>, Seq<char>)>::empty());
        return None;
    }
    let ghost rest = patch_views(pairs@).skip(from as int);
    assert(rest[0] == (pairs@[from as int].patch@, pairs@[from as int].sha@));
    assert(rest.drop_first() =~= patch_views(pairs@).skip(from + 1));
    let p = chars_of(pairs[from].patch.as_str());
    let s = chars_of(pairs[from].sha.as_str());
    if crate::text::same(p.as_slice(), patch) && !crate::text::same(s.as_slice(), sha) {
        Some(from)
    } else {
        first_other_from(pairs, from + 1, patch, sha)
    }
}

/// Per commit, another sha carrying the same patch: the other half of an
/// `≈`. `pairs` is every commit the refs do not share with its patch-id;
/// a patch under several shas names, for each, the first of its others.
pub fn pick_ids(pairs: &[PatchId]) -> (r: Vec<Pick>)
    ensures
        pick_views(r@) == picks(patch_views(pairs@), pairs.len() as int),
{
    let ghost pv = patch_views(pairs@);
    let mut out: Vec<Pick> = Vec::new();
    let mut i: usize = 0;
    assert(pv.skip(0) =~= pv);
    while i < pairs.len()
        invariant
            i <= pairs.len(),
            pv == patch_views(pairs@),
            pv.skip(0) == pv,
            pick_views(out@) == picks(pv, i as int),
        decreases pairs.len() - i,
    {
        let patch = chars_of(pairs[i].patch.as_str());
        let sha = chars_of(pairs[i].sha.as_str());
        assert(pv[i as int] == (patch@, sha@));
        match first_other_from(pairs, 0, patch.as_slice(), sha.as_slice()) {
            Some(k) => {
                let ghost before = pick_views(out@);
                out.push(Pick { sha: pairs[i].sha.clone(), other: pairs[k].sha.clone() });
                assert(pick_views(out@) =~= before.push((sha@, pairs@[k as int].sha@)));
            },
            None => {},
        }
        i = i + 1;
    }
    out
}

/// The marker `git cherry-pick -x` appends to a message.
pub const CHERRY_MARKER: &'static str = "(cherry picked from commit ";

/// The source sha a `-x` trailer names: after the last marker, up to the
/// next `)`, trimmed; `None` without a marker or a closing `)`.
pub open spec fn cherry_source_spec(body: Seq<char>) -> Option<Seq<char>> {
    if !contains_spec(body, CHERRY_MARKER@) {
        None
    } else {
        let i = choose|i: int|
            occurs_at(body, CHERRY_MARKER@, i) && forall|j: int| i < j ==> !occurs_at(body, CHERRY_MARKER@, j);
        match split_once_spec(body.skip(i + CHERRY_MARKER@.len()), ')') {
            Some(q) => Some(trim_spec(q.0)),
            None => None,
        }
    }
}

/// The source sha named by a `git cherry-pick -x` trailer, if any: the
/// last marker is the one that counts.
pub fn cherry_trailer_source(body: &str) -> (r: Option<String>)
    ensures
        r matches Some(s) ==> cherry_source_spec(body@) == Some(s@),
        r is None ==> cherry_source_spec(body@) is None,
{
    let b = chars_of(body);
    let m = chars_of(CHERRY_MARKER);
    match rfind(b.as_slice(), m.as_slice()) {
        None => None,
        Some(i) => {
            proof {
                let k = choose|k: int|
                    occurs_at(b@, m@, k) && forall|j: int| k < j ==> !occurs_at(b@, m@, j);
                assert(occurs_at(b@, m@, i as int));
                assert(contains_spec(b@, m@));
                if k != i {
                    assert(!occurs_at(b@, m@, k) || !occurs_at(b@, m@, i as int));
                }
            }
            assert(occurs_at(b@, m@, i as int));
            let ml = m.len();
            let bl = b.len();
            assert(i + ml <= bl);
            let rest = slice_from(b.as_slice(), i + ml);
            match split_once(rest.as_slice(), ')') {
                Some((inner, _)) => {
                    let t = trim(inner.as_slice());
                    Some(string_of(t.as_slice()))
                },
                None => None,
            }
        },
    }
}

/// The trailer sources named in a `git log --no-merges
/// --format=%H%x09%b%x00` listing, one per record that has one.
pub open spec fn trailer_sources(recs: Seq<Seq<char>>) -> Seq<Seq<char>>
    decreases recs.len(),
{
    if recs.len() == 0 {
        Seq::empty()
    } else {
        let p = trailer_sources(recs.drop_last());
        let r = trim_start_set_spec(recs.last(), seq!['\n']);
        let body = match split_once_spec(r, '\t') {
            Some(q) => q.1,
            None => Seq::empty(),
        };
        if r.len() == 0 {
            p
        } else {
            match cherry_source_spec(body) {
                Some(src) => p.push(src),
                None => p,
            }
        }
    }
}

/// The trailer sources one listing names.
fn trailer_sources_of(text: &str) -> (r: Vec<String>)
    ensures
        str_views(r@) == trailer_sources(split_spec(text@, '\0')),
{
    let c = chars_of(text);
    let recs = split(c.as_slice(), '\0');
    let ghost rv = views(recs@);
    let nl = vec!['\n'];
    let mut out: Vec<String> = Vec::new();
    let mut i: usize = 0;
    while i < recs.len()
        invariant
            i <= recs.len(),
            rv == views(recs@),
            nl@ == seq!['\n'],
            str_views(out@) == trailer_sources(rv.take(i as int)),
        decreases recs.len() - i,
    {
        assert(rv.take(i + 1).drop_last() =~= rv.take(i as int));
        assert(rv.take(i + 1).last() == recs@[i as int]@);
        let r = trim_start_set(recs[i].as_slice(), nl.as_slice());
        if r.len() > 0 {
            let body = match split_once(r.as_slice(), '\t') {
                Some((_, b)) => b,
                None => Vec::new(),
            };
            assert(body@ =~= (match split_once_spec(r@, '\t') {
                Some(q) => q.1,
                None => Seq::empty(),
            }));
            let bs = string_of(body.as_slice());
            match cherry_trailer_source(bs.as_str()) {
                Some(src) => {
                    let ghost before = str_views(out@);
                    let ghost sv = src@;
                    out.push(src);
                    assert(str_views(out@) =~= before.push(sv));
                },
                None => {},
            }
        }
        i = i + 1;
    }
    assert(rv.take(i as int) =~= rv);
    out
}

/// Per column, the shas that a `-x` trailer on that branch names as
/// cherry-pick sources. `logs[i]` is what `git log --no-merges
/// --format=%H%x09%b%x00 <refs[i]> --not <merge base>` printed, `None`
/// where that failed or there is no merge base.
pub fn trailer_sets(logs: &[Option<String>]) -> (r: Vec<Vec<String>>)
    ensures
        r.len() == logs.len(),
        forall|i: int|
            0 <= i < r.len() ==> str_views(#[trigger] r@[i]@) == match logs@[i] {
                Some(t) => trailer_sources(split_spec(t@, '\0')),
                None => Seq::empty(),
            },
{
    let mut out: Vec<Vec<String>> = Vec::new();
    let mut i: usize = 0;
    while i < logs.len()
        invariant
            i <= logs.len(),
            out.len() == i,
            forall|k: int|
                0 <= k < i ==> str_views(#[trigger] out@[k]@) == match logs@[k] {
                    Some(t) => trailer_sources(split_spec(t@, '\0')),
                    None => Seq::empty(),
                },
        decreases logs.len() - i,
    {
        let set = match &logs[i] {
            Some(t) => trailer_sources_of(t.as_str()),
            None => {
                let v: Vec<String> = Vec::new();
                assert(str_views(v@) =~= Seq::<Seq<char>>::empty());
                v
            },
        };
        let ghost ob = out@;
        out.push(set);
        assert forall|k: int| 0 <= k < i + 1 implies str_views(#[trigger] out@[k]@) == match logs@[k] {
            Some(t) => trailer_sources(split_spec(t@, '\0')),
            None => Seq::empty(),
        } by {
            if k < i {
                assert(out@[k] == ob[k]);
            }
        }
        i = i + 1;
    }
    out
}

/// The refs' shared octopus merge-base, from what `git merge-base
/// --octopus <refs>` printed (`None` where it failed); none for fewer than
/// two refs or a blank answer.
pub fn merge_base(refs: &[String], out: Option<&str>) -> (r: Option<String>)
    ensures
        refs.len() < 2 ==> r is None,
        refs.len() >= 2 ==> match out {
            Some(o) if trim_spec(o@).len() > 0 => r matches Some(b) && b@ == trim_spec(o@),
            _ => r is None,
        },
{
    if refs.len() < 2 {
        return None;
    }
    match out {
        Some(o) => {
            let c = chars_of(o);
            let t = trim(c.as_slice());
            if t.len() > 0 {
                Some(string_of(t.as_slice()))
            } else {
                None
            }
        },
        None => None,
    }
}

// ---------------------------------------------------------------------------
// Author fingerprints
// ---------------------------------------------------------------------------

/// A commit with the three fields `git cherry-pick` keeps exactly, even
/// through a conflict: author email, author date (ISO-8601 with zone),
/// subject.
#[derive(Debug)]
pub struct AuthorPrint {
    pub sha: String,
    pub email: String,
    pub date: String,
    pub subject: String,
}

pub open spec fn print_views(v: Seq<AuthorPrint>) -> Seq<(Seq<char>, Seq<char>, Seq<char>, Seq<char>)> {
    v.map_values(|a: AuthorPrint| (a.sha@, a.email@, a.date@, a.subject@))
}

/// The fingerprints in a `git log --no-merges --format=%H%x09%ae%x09%aI%x09%s%x00`
/// listing: three tab-ended fields and the subject, records without
/// three tabs passed over.
pub open spec fn prints_of(recs: Seq<Seq<char>>) -> Seq<(Seq<char>, Seq<char>, Seq<char>, Seq<char>)>
    decreases recs.len(),
{
    if recs.len() == 0 {
        Seq::empty()
    } else {
        let p = prints_of(recs.drop_last());
        let r = trim_start_set_spec(recs.last(), seq!['\n']);
        if r.len() == 0 {
            p
        } else {
            match fields_spec(r, '\t', 3) {
                Some(q) => p.push((q.0[0], q.0[1], q.0[2], q.1)),
                None => p,
            }
        }
    }
}

fn prints_of_log(text: &str) -> (r: Vec<AuthorPrint>)
    ensures
        print_views(r@) == prints_of(split_spec(text@, '\0')),
{
    let c = chars_of(text);
    let recs = split(c.as_slice(), '\0');
    let ghost rv = views(recs@);
    let nl = vec!['\n'];
    let mut out: Vec<AuthorPrint> = Vec::new();
    let mut i: usize = 0;
    while i < recs.len()
        invariant
            i <= recs.len(),
            rv == views(recs@),
            nl@ == seq!['\n'],
            print_views(out@) == prints_of(rv.take(i as int)),
        decreases recs.len() - i,
    {
        assert(rv.take(i + 1).drop_last() =~= rv.take(i as int));
        assert(rv.take(i + 1).last() == recs@[i as int]@);
        let r = trim_start_set(recs[i].as_slice(), nl.as_slice());
        if r.len() > 0 {
            match cut_fields(r.as_slice(), '\t', 3) {
                Some((f, subject)) => {
                    assert(views(f@)[0] == f@[0]@ && views(f@)[1] == f@[1]@ && views(f@)[2] == f@[2]@);
                    let a = AuthorPrint {
                        sha: string_of(f[0].as_slice()),
                        email: string_of(f[1].as_slice()),
                        date: string_of(f[2].as_slice()),
                        subject: string_of(subject.as_slice()),
                    };
                    let ghost before = print_views(out@);
                    let ghost av = (a.sha@, a.email@, a.date@, a.subject@);
                    out.push(a);
                    assert(print_views(out@) =~= before.push(av));
                },
                None => {},
            }
        }
        i = i + 1;
    }
    assert(rv.take(i as int) =~= rv);
    out
}

/// Every commit above the merge base on each ref, with its fingerprint.
/// `logs[i]` is what `git log --no-merges --format=%H%x09%ae%x09%aI%x09%s%x00
/// <refs[i]> --not <merge base>` printed, `None` where that failed or
/// there is no merge base.
pub fn author_fingerprints(logs: &[Option<String>]) -> (r: Vec<Vec<AuthorPrint>>)
    ensures
        r.len() == logs.len(),
        forall|i: int|
            0 <= i < r.len() ==> print_views(#[trigger] r@[i]@) == match logs@[i] {
                Some(t) => prints_of(split_spec(t@, '\0')),
                None => Seq::empty(),
            },
{
    let mut out: Vec<Vec<AuthorPrint>> = Vec::new();
    let mut i: usize = 0;
    while i < logs.len()
        invariant
            i <= logs.len(),
            out.len() == i,
            forall|k: int|
                0 <= k < i ==> print_views(#[trigger] out@[k]@) == match logs@[k] {
                    Some(t) => prints_of(split_spec(t@, '\0')),
                    None => Seq::empty(),
                },
        decreases logs.len() - i,
    {
        let list = match &logs[i] {
            Some(t) => prints_of_log(t.as_str()),
            None => {
                let v: Vec<AuthorPrint> = Vec::new();
                assert(print_views(v@) =~= Seq::empty());
                v
            },
        };
        let ghost ob = out@;
        out.push(list);
        assert forall|k: int| 0 <= k < i + 1 implies print_views(#[trigger] out@[k]@) == match logs@[k] {
            Some(t) => prints_of(split_spec(t@, '\0')),
            None => Seq::empty(),
        } by {
            if k < i {
                assert(out@[k] == ob[k]);
            }
        }
        i = i + 1;
    }
    out
}

/// Some commit of `prints` has `row`'s fingerprint under another sha.
pub open spec fn fingerprint_match(prints: Seq<(Seq<char>, Seq<char>, Seq<char>, Seq<char>)>, row: CommitRowSpec) -> bool {
    exists|k: int|
        0 <= k < prints.len() && (#[trigger] prints[k]).1 == row.email && prints[k].2 == row.author_iso
            && prints[k].3 == row.text && prints[k].0 != row.sha
}

/// The shas of the first `n` rows that match a fingerprint of `prints`.
pub open spec fn matched_rows(prints: Seq<(Seq<char>, Seq<char>, Seq<char>, Seq<char>)>, rows: Seq<CommitRowSpec>, n: int) -> Seq<Seq<char>>
    decreases n,
{
    if n <= 0 {
        Seq::empty()
    } else {
        let p = matched_rows(prints, rows, n - 1);
        if fingerprint_match(prints, rows[n - 1]) {
            p.push(rows[n - 1].sha)
        } else {
            p
        }
    }
}

fn has_fingerprint(prints: &Vec<AuthorPrint>, row: &CommitRow) -> (r: bool)
    ensures
        r == fingerprint_match(print_views(prints@), row@),
{
    let ghost pv = print_views(prints@);
    let e = chars_of(row.email.as_str());
    let d = chars_of(row.author_iso.as_str());
    let t = chars_of(row.text.as_str());
    let h = chars_of(row.sha.as_str());
    let mut k: usize = 0;
    while k < prints.len()
        invariant
            k <= prints.len(),
            pv == print_views(prints@),
            e@ == row.email@,
            d@ == row.author_iso@,
            t@ == row.text@,
            h@ == row.sha@,
            forall|j: int|
                0 <= j < k ==> !((#[trigger] pv[j]).1 == row.email@ && pv[j].2 == row.author_iso@
                    && pv[j].3 == row.text@ && pv[j].0 != row.sha@),
        decreases prints.len() - k,
    {
        let p = &prints[k];
        assert(pv[k as int] == (p.sha@, p.email@, p.date@, p.subject@));
        let pe = chars_of(p.email.as_str());
        let pd = chars_of(p.date.as_str());
        let ps = chars_of(p.subject.as_str());
        let ph = chars_of(p.sha.as_str());
        if crate::text::same(pe.as_slice(), e.as_slice()) && crate::text::same(pd.as_slice(), d.as_slice())
            && crate::text::same(ps.as_slice(), t.as_slice()) && !crate::text::same(ph.as_slice(), h.as_slice()) {
            return true;
        }
        k = k + 1;
    }
    false
}

/// Per column, the row shas whose author fingerprint appears on that
/// branch under a different commit: same author, same second, same
/// subject, another sha. Catches a pick whose patch a conflict changed.
pub fn author_match_sets(per_ref: &[Vec<AuthorPrint>], rows: &[CommitRow]) -> (r: Vec<Vec<String>>)
    ensures
        r.len() == per_ref.len(),
        forall|i: int|
            0 <= i < r.len() ==> str_views(#[trigger] r@[i]@) == matched_rows(
                print_views(per_ref@[i]@),
                row_views(rows@),
                rows.len() as int,
            ),
{
    let ghost rv = row_views(rows@);
    let mut out: Vec<Vec<String>> = Vec::new();
    let mut i: usize = 0;
    while i < per_ref.len()
        invariant
            i <= per_ref.len(),
            rv == row_views(rows@),
            out.len() == i,
            forall|k: int|
                0 <= k < i ==> str_views(#[trigger] out@[k]@) == matched_rows(
                    print_views(per_ref@[k]@),
                    rv,
                    rows.len() as int,
                ),
        decreases per_ref.len() - i,
    {
        let prints = &per_ref[i];
        let mut set: Vec<String> = Vec::new();
        let mut j: usize = 0;
        while j < rows.len()
            invariant
                j <= rows.len(),
                rv == row_views(rows@),
                prints@ == per_ref@[i as int]@,
                str_views(set@) == matched_rows(print_views(prints@), rv, j as int),
            decreases rows.len() - j,
        {
            assert(rv[j as int] == rows@[j as int]@);
            if has_fingerprint(prints, &rows[j]) {
                let ghost before = str_views(set@);
                set.push(rows[j].sha.clone());
                assert(str_views(set@) =~= before.push(rv[j as int].sha));
            }
            j = j + 1;
        }
        let ghost ob = out@;
        out.push(set);
        assert forall|k: int| 0 <= k < i + 1 implies str_views(#[trigger] out@[k]@) == matched_rows(
            print_views(per_ref@[k]@),
            rv,
            rows.len() as int,
        ) by {
            if k < i {
                assert(out@[k] == ob[k]);
            }
        }
        i = i + 1;
    }
    out
}

// ---------------------------------------------------------------------------
// Marks
// ---------------------------------------------------------------------------

/// What a branch has of a given commit.
#[derive(Debug, Clone, Copy, PartialEq, Eq, Structural)]
pub enum Mark {
    /// The commit itself.
    Has,
    /// The same patch under a different sha.
    Equivalent,
    /// A `-x` trailer on another branch names this commit as its source.
    Trailer,
    /// Another branch has a commit with the same author fingerprint.
    AuthorMatch,
    /// None of these.
    Missing,
}

/// The mark for `sha` in one column: containment wins, then an equivalent
/// patch, then a trailer, then a fingerprint.
pub open spec fn mark_spec(
    sha: Seq<char>,
    has: Seq<Seq<char>>,
    equiv: Seq<Seq<char>>,
    trailer: Seq<Seq<char>>,
    author_match: Seq<Seq<char>>,
) -> Mark {
    if has.contains(sha) {
        Mark::Has
    } else if equiv.contains(sha) {
        Mark::Equivalent
    } else if trailer.contains(sha) {
        Mark::Trailer
    } else if author_match.contains(sha) {
        Mark::AuthorMatch
    } else {
        Mark::Missing
    }
}

/// Which mark a column gives a commit: the commit itself wherever the
/// branch has it; else an equivalent patch; else, with neither, a `-x`
/// trailer naming it, whether or not an author fingerprint also matches
/// (a hand-resolved pick keeps its trailer and its author); else a
/// fingerprint; else missing. Each mark is given exactly when its own set
/// holds the commit and no stronger one does.
pub proof fn lemma_mark_precedence(
    sha: Seq<char>,
    held: Seq<Seq<char>>,
    equiv: Seq<Seq<char>>,
    trailer: Seq<Seq<char>>,
    author_match: Seq<Seq<char>>,
)
    ensures
        (mark_spec(sha, held, equiv, trailer, author_match) == Mark::Has) == held.contains(sha),
        (mark_spec(sha, held, equiv, trailer, author_match) == Mark::Equivalent) == (!held.contains(sha)
            && equiv.contains(sha)),
        (mark_spec(sha, held, equiv, trailer, author_match) == Mark::Trailer) == (!held.contains(sha)
            && !equiv.contains(sha) && trailer.contains(sha)),
        (mark_spec(sha, held, equiv, trailer, author_match) == Mark::AuthorMatch) == (!held.contains(sha)
            && !equiv.contains(sha) && !trailer.contains(sha) && author_match.contains(sha)),
        (mark_spec(sha, held, equiv, trailer, author_match) == Mark::Missing) == (!held.contains(sha)
            && !equiv.contains(sha) && !trailer.contains(sha) && !author_match.contains(sha)),
{
}

/// A trailer outranks a fingerprint: once no stronger set holds a commit
/// and a trailer names it, what the fingerprint sets say changes nothing.
pub proof fn lemma_trailer_ignores_fingerprints(
    sha: Seq<char>,
    held: Seq<Seq<char>>,
    equiv: Seq<Seq<char>>,
    trailer: Seq<Seq<char>>,
    one: Seq<Seq<char>>,
    other: Seq<Seq<char>>,
)
    requires
        !held.contains(sha),
        !equiv.contains(sha),
        trailer.contains(sha),
    ensures
        mark_spec(sha, held, equiv, trailer, one) == Mark::Trailer,
        mark_spec(sha, held, equiv, trailer, one) == mark_spec(sha, held, equiv, trailer, other),
{
}

/// The glyph each mark prints as.
pub open spec fn glyph_spec(m: Mark) -> Seq<char> {
    match m {
        Mark::Has => CHECK@,
        Mark::Equivalent => EQUIV@,
        Mark::Trailer => TRAILER@,
        Mark::AuthorMatch => FINGERPRINT@,
        Mark::Missing => MISS@,
    }
}

impl Mark {
    /// The mark for `sha` in one column: containment wins, then an
    /// equivalent patch, then a trailer, then a fingerprint.
    pub fn of(
        sha: &str,
        has: &[String],
        equiv: &[String],
        trailer: &[String],
        author_match: &[String],
    ) -> (m: Mark)
        ensures
            m == mark_spec(sha@, str_views(has@), str_views(equiv@), str_views(trailer@), str_views(author_match@)),
    {
        if member(has, sha) {
            Mark::Has
        } else if member(equiv, sha) {
            Mark::Equivalent
        } else if member(trailer, sha) {
            Mark::Trailer
        } else if member(author_match, sha) {
            Mark::AuthorMatch
        } else {
            Mark::Missing
        }
    }

    /// The glyph the table prints for this mark.
    pub fn glyph(self) -> (g: &'static str)
        ensures
            g@ == glyph_spec(self),
    {
        match self {
            Mark::Has => CHECK,
            Mark::Equivalent => EQUIV,
            Mark::Trailer => TRAILER,
            Mark::AuthorMatch => FINGERPRINT,
            Mark::Missing => MISS,
        }
    }
}

// ---------------------------------------------------------------------------
// Walks from the merge base
// ---------------------------------------------------------------------------

/// The cherry-picks among the commits only some refs hold. They are walked
/// from the merge base (`rev-list --no-merges refs --not <base>`, piped
/// through `patch-id --stable`): with no base there is no walk and no
/// pick, and a walk that failed (`None`) gives none either; else each
/// commit sharing its patch with another is paired with the first other.
pub fn picks_from_base(base: &Option<String>, walk: Option<&str>) -> (r: Vec<Pick>)
    ensures
        base is None ==> r@.len() == 0,
        base is Some ==> match walk {
            Some(o) => pick_views(r@) == picks(patch_pairs(lines_spec(o@)), patch_pairs(lines_spec(o@)).len() as int),
            None => r@.len() == 0,
        },
{
    if base.is_none() {
        return Vec::new();
    }
    match walk {
        Some(o) => {
            let pairs = parse_patch_ids(o);
            pick_ids(pairs.as_slice())
        },
        None => Vec::new(),
    }
}

/// Each ref's commits since the merge base, as author fingerprints (one
/// `log --format=%H%x09%ae%x09%aI%x09%s%x00 <ref> --not <base>` per ref).
/// With no base nothing is walked and every ref has none.
pub fn prints_from_base(base: &Option<String>, n_refs: usize, logs: &[Option<String>]) -> (r: Vec<Vec<AuthorPrint>>)
    ensures
        base is None ==> r.len() == n_refs && forall|i: int| 0 <= i < r.len() ==> (#[trigger] r@[i]@).len() == 0,
        base is Some ==> r.len() == logs.len() && forall|i: int|
            0 <= i < r.len() ==> print_views(#[trigger] r@[i]@) == match logs@[i] {
                Some(t) => prints_of(split_spec(t@, '\0')),
                None => Seq::empty(),
            },
{
    if base.is_some() {
        return author_fingerprints(logs);
    }
    let mut out: Vec<Vec<AuthorPrint>> = Vec::new();
    let mut i: usize = 0;
    while i < n_refs
        invariant
            i <= n_refs,
            out.len() == i,
            forall|k: int| 0 <= k < i ==> (#[trigger] out@[k]@).len() == 0,
        decreases n_refs - i,
    {
        out.push(Vec::new());
        i = i + 1;
    }
    out
}

/// Each ref's `-x` trailer sources since the merge base (one
/// `log --format=%H%x09%b%x00 <ref> --not <base>` per ref). With no base
/// nothing is walked and every set is empty.
pub fn trailers_from_base(base: &Option<String>, n_refs: usize, logs: &[Option<String>]) -> (r: Vec<Vec<String>>)
    ensures
        base is None ==> r.len() == n_refs && forall|i: int| 0 <= i < r.len() ==> (#[trigger] r@[i]@).len() == 0,
        base is Some ==> r.len() == logs.len() && forall|i: int|
            0 <= i < r.len() ==> str_views(#[trigger] r@[i]@) == match logs@[i] {
                Some(t) => trailer_sources(split_spec(t@, '\0')),
                None => Seq::empty(),
            },
{
    if base.is_some() {
        return trailer_sets(logs);
    }
    let mut out: Vec<Vec<String>> = Vec::new();
    let mut i: usize = 0;
    while i < n_refs
        invariant
            i <= n_refs,
            out.len() == i,
            forall|k: int| 0 <= k < i ==> (#[trigger] out@[k]@).len() == 0,
        decreases n_refs - i,
    {
        out.push(Vec::new());
        i = i + 1;
    }
    out
}

} // verus!
