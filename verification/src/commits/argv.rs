//! `commits` read straight from its words: the flags, their values, and the
//! refusals that point a habit from `git log` at the flag that means it.

use vstd::prelude::*;

use crate::commits::args::{
    digits_of, iso_shape, iso_shaped, limit_spec, parse_limit, parse_line_count,
    parse_width, pick_msg, sources_msg, width_spec, wrap_spec, DateFilter, DateFmt, DateOp,
    SubjectWidth, Wrap,
};
use crate::style::{DIM, GREEN, MIN_TEXTW, YELLOW, CHECK, EQUIV, MISS};
use crate::text::{
    chars_of, digits_value, is, is_digit, is_prefix, member, push_all, push_str, str_views,
    strip_prefix, string_of, trim, trim_spec,
};
use crate::commits::rows::opt_str;
use crate::worktree::opt_view;

verus! {

pub const WRAP_BAD: &'static str =
    "--wrap needs a line count of 1 or more, or 'full', e.g. '--wrap 2'\nhint: a bare '--wrap' is 'full'";

pub const SUBJW_MISSING: &'static str =
    "--subject-width needs a column count, or 'full', e.g. '--subject-width 80'";

pub const SUBJW_BAD: &'static str =
    "--subject-width needs a column count, or 'full', e.g. '--subject-width 80'\nhint: 'full' never cuts the subject, however wide it is";

/// Said under a too-narrow `--subject-width`.
pub const SUBJW_HINT: &'static str =
    "\nhint: 'commits | grep' and '--md' never cut, however narrow the terminal";

pub const SUBJECT_MSG: &'static str =
    "no '--subject' for commits: it would read as a filter, and it is a width\nhint: '--subject-width 80' widens the column; '--author NAME' filters rows";

pub const DATE_MISSING: &'static str =
    "--date needs a comparison, e.g. --date '>=2026-01-01'\nhint: quote it, or the shell reads '>' as a redirect";

pub const FROM_DATE_MISSING: &'static str = "--from-date needs a date, e.g. '--from-date 2026-01-01'";

pub const TO_DATE_MISSING: &'static str = "--to-date needs a date, e.g. '--to-date 2026-06-30'";

pub const FROM_MISSING: &'static str = "--from-id needs a commit, e.g. '--from-id 5568a21'";

pub const TO_MISSING: &'static str = "--to-id needs a commit, e.g. '--to-id HEAD~3'";

pub const AUTHOR_MISSING: &'static str = "--author needs a name, e.g. '--author nino'";

pub const SINCE_MSG: &'static str = "no '--since' for commits; use '--from-date 2026-01-01'";

pub const UNTIL_MSG: &'static str = "no '--until' for commits; use '--to-date 2026-06-30'";

pub const LIMIT_MISSING: &'static str = "-n needs a count, e.g. '-n 20'";

pub const QUOTE_HINT: &'static str =
    "quote the comparison -- --date '>=2026-01-01' -- or the shell reads '>' as a redirect";

// ---------------------------------------------------------------------------
// Dates
// ---------------------------------------------------------------------------

/// What a malformed date gets: an empty one most often means the shell ate
/// an unquoted `>`.
pub open spec fn bad_day_msg(s: Seq<char>) -> Seq<char> {
    if s.len() == 0 {
        "--date needs a date after the comparison\nhint: "@ + QUOTE_HINT@
    } else {
        "bad date '"@ + s + "'; want YYYY-MM-DD, e.g. '>=2026-01-01'"@
    }
}

/// A `YYYY-MM-DD` date with a month of 1 to 12 and a day of 1 to 31.
pub open spec fn day_spec(s: Seq<char>) -> Result<Seq<char>, Seq<char>> {
    if !iso_shape(s) {
        Err(bad_day_msg(s))
    } else {
        let m = digits_value(s.subrange(5, 7));
        let d = digits_value(s.subrange(8, 10));
        if !(1 <= m <= 12) || !(1 <= d <= 31) {
            Err("no such date '"@ + s + "'"@)
        } else {
            Ok(s)
        }
    }
}

/// A strict bound names a day the inclusive bounds already reach.
pub open spec fn strict_msg_spec(op: char, incl: Seq<char>, flag: Seq<char>) -> Seq<char> {
    "no '"@ + seq![op] + "' comparison; bounds are inclusive: use '"@ + incl + "' (or "@ + flag
        + ")\nhint: a day either side is '"@ + incl + "' on the next day"@
}

/// The bound with `op` on the trimmed date `rest`.
pub open spec fn bound(op: DateOp, rest: Seq<char>) -> Result<(DateOp, Seq<char>), Seq<char>> {
    match day_spec(trim_spec(rest)) {
        Ok(d) => Ok((op, d)),
        Err(e) => Err(e),
    }
}

/// `>=DAY`, `<=DAY`, `=DAY` or a bare `DAY`; a strict `>` or `<` is refused.
pub open spec fn date_bound_spec(s: Seq<char>) -> Result<(DateOp, Seq<char>), Seq<char>> {
    if is_prefix(">="@, s) {
        bound(DateOp::Ge, s.skip(">="@.len() as int))
    } else if is_prefix("<="@, s) {
        bound(DateOp::Le, s.skip("<="@.len() as int))
    } else if is_prefix("="@, s) {
        bound(DateOp::Eq, s.skip("="@.len() as int))
    } else if is_prefix(">"@, s) {
        Err(strict_msg_spec('>', ">="@, "--from-date"@))
    } else if is_prefix("<"@, s) {
        Err(strict_msg_spec('<', "<="@, "--to-date"@))
    } else {
        bound(DateOp::Eq, s)
    }
}

/// Validate a `YYYY-MM-DD` date: the only shape a text compare is sound for.
pub fn iso_date(s: &str) -> (r: Result<String, String>)
    ensures
        r matches Ok(x) ==> day_spec(s@) == Ok::<Seq<char>, Seq<char>>(x@),
        r matches Err(e) ==> day_spec(s@) == Err::<Seq<char>, Seq<char>>(e@),
{
    let sc = chars_of(s);
    day_of(sc.as_slice())
}

fn day_of(sc: &[char]) -> (r: Result<String, String>)
    ensures
        r matches Ok(x) ==> day_spec(sc@) == Ok::<Seq<char>, Seq<char>>(x@),
        r matches Err(e) ==> day_spec(sc@) == Err::<Seq<char>, Seq<char>>(e@),
{
    if !iso_shaped(sc) {
        let mut m: Vec<char> = Vec::new();
        if sc.len() == 0 {
            push_str(&mut m, "--date needs a date after the comparison\nhint: ");
            push_str(&mut m, QUOTE_HINT);
        } else {
            push_str(&mut m, "bad date '");
            push_all(&mut m, sc);
            push_str(&mut m, "'; want YYYY-MM-DD, e.g. '>=2026-01-01'");
        }
        return Err(string_of(m.as_slice()));
    }
    proof {
        assert forall|i: int| 0 <= i < 2 implies is_digit(#[trigger] sc@.subrange(5, 7)[i]) by {
            assert(sc@.subrange(5, 7)[i] == sc@[i + 5]);
        }
        assert forall|i: int| 0 <= i < 2 implies is_digit(#[trigger] sc@.subrange(8, 10)[i]) by {
            assert(sc@.subrange(8, 10)[i] == sc@[i + 8]);
        }
    }
    let m = digits_of(sc, 5, 7);
    let d = digits_of(sc, 8, 10);
    if !(1 <= m && m <= 12) || !(1 <= d && d <= 31) {
        let mut msg: Vec<char> = Vec::new();
        push_str(&mut msg, "no such date '");
        push_all(&mut msg, sc);
        push_str(&mut msg, "'");
        return Err(string_of(msg.as_slice()));
    }
    Ok(string_of(sc))
}

/// The message for a strict comparison.
pub fn strict_msg(op: char, incl: &str, flag: &str) -> (r: String)
    ensures
        r@ == strict_msg_spec(op, incl@, flag@),
{
    let mut m: Vec<char> = Vec::new();
    push_str(&mut m, "no '");
    m.push(op);
    push_str(&mut m, "' comparison; bounds are inclusive: use '");
    push_str(&mut m, incl);
    push_str(&mut m, "' (or ");
    push_str(&mut m, flag);
    push_str(&mut m, ")\nhint: a day either side is '");
    push_str(&mut m, incl);
    push_str(&mut m, "' on the next day");
    assert(m@ =~= strict_msg_spec(op, incl@, flag@));
    string_of(m.as_slice())
}

fn bound_of(op: DateOp, rest: &[char]) -> (r: Result<DateFilter, String>)
    ensures
        r matches Ok(f) ==> bound(op, rest@) == Ok::<(DateOp, Seq<char>), Seq<char>>((f.op, f.date@)),
        r matches Err(e) ==> bound(op, rest@) == Err::<(DateOp, Seq<char>), Seq<char>>(e@),
{
    let t = trim(rest);
    match day_of(t.as_slice()) {
        Ok(d) => Ok(DateFilter { op, date: d }),
        Err(e) => Err(e),
    }
}

/// Parse `>=2026-01-01`, `<=2026-06-30`, `=2026-01-01`, or a bare date.
pub fn parse_date_filter(s: &str) -> (r: Result<DateFilter, String>)
    ensures
        r matches Ok(f) ==> date_bound_spec(s@) == Ok::<(DateOp, Seq<char>), Seq<char>>((f.op, f.date@)),
        r matches Err(e) ==> date_bound_spec(s@) == Err::<(DateOp, Seq<char>), Seq<char>>(e@),
{
    let sc = chars_of(s);
    if let Some(rest) = strip_prefix(sc.as_slice(), ">=") {
        return bound_of(DateOp::Ge, rest.as_slice());
    }
    if let Some(rest) = strip_prefix(sc.as_slice(), "<=") {
        return bound_of(DateOp::Le, rest.as_slice());
    }
    if let Some(rest) = strip_prefix(sc.as_slice(), "=") {
        return bound_of(DateOp::Eq, rest.as_slice());
    }
    if crate::text::starts_with_str(sc.as_slice(), ">") {
        return Err(strict_msg('>', ">=", "--from-date"));
    }
    if crate::text::starts_with_str(sc.as_slice(), "<") {
        return Err(strict_msg('<', "<=", "--to-date"));
    }
    bound_of(DateOp::Eq, sc.as_slice())
}

// ---------------------------------------------------------------------------
// Values
// ---------------------------------------------------------------------------

/// Read `--subject-width`'s value: a column count of `MIN_TEXTW` or more,
/// or 'full' for no cut.
pub fn parse_subjectw(v: &str) -> (r: Result<SubjectWidth, String>)
    ensures
        match width_spec(v@, MIN_TEXTW, "--subject-width"@, "subject"@, SUBJW_HINT@, SUBJW_BAD@) {
            Ok(None) => r == Ok::<SubjectWidth, String>(SubjectWidth::Full),
            Ok(Some(n)) => r == Ok::<SubjectWidth, String>(SubjectWidth::Cols(n)),
            Err(e) => r matches Err(x) && x@ == e,
        },
{
    match parse_width(v, MIN_TEXTW, "--subject-width", "subject", SUBJW_HINT, SUBJW_BAD) {
        Ok(None) => Ok(SubjectWidth::Full),
        Ok(Some(n)) => Ok(SubjectWidth::Cols(n)),
        Err(e) => Err(e),
    }
}

/// Read `--wrap`'s value: a line count of one or more, or 'full'.
pub fn parse_wrap(v: &str) -> (r: Result<Wrap, String>)
    ensures
        match wrap_spec(v@, WRAP_BAD@) {
            Ok(None) => r == Ok::<Wrap, String>(Wrap::Full),
            Ok(Some(n)) => r == Ok::<Wrap, String>(Wrap::Lines(n)),
            Err(e) => r matches Err(x) && x@ == e,
        },
{
    match parse_line_count(v, WRAP_BAD) {
        Ok(None) => Ok(Wrap::Full),
        Ok(Some(n)) => Ok(Wrap::Lines(n)),
        Err(e) => Err(e),
    }
}

// ---------------------------------------------------------------------------
// Marks
// ---------------------------------------------------------------------------

/// What a branch has of a given commit, as this table marks it.
#[derive(Debug, Clone, Copy, PartialEq, Eq, Structural)]
pub enum Mark {
    /// The commit itself.
    Has,
    /// The same patch under a different sha.
    Equivalent,
    /// Neither.
    Missing,
}

impl Mark {
    /// Containment wins: a branch that has the commit has it, whatever a
    /// patch comparison would also say.
    pub fn of(sha: &str, has: &[String], equiv: &[String]) -> (m: Mark)
        ensures
            m == (if str_views(has@).contains(sha@) {
                Mark::Has
            } else if str_views(equiv@).contains(sha@) {
                Mark::Equivalent
            } else {
                Mark::Missing
            }),
    {
        if member(has, sha) {
            Mark::Has
        } else if member(equiv, sha) {
            Mark::Equivalent
        } else {
            Mark::Missing
        }
    }

    pub fn glyph(self) -> (g: &'static str)
        ensures
            g@ == (match self {
                Mark::Has => CHECK@,
                Mark::Equivalent => EQUIV@,
                Mark::Missing => MISS@,
            }),
    {
        match self {
            Mark::Has => CHECK,
            Mark::Equivalent => EQUIV,
            Mark::Missing => MISS,
        }
    }

    /// The color code the glyph is painted in: yellow for a copy, dim for a
    /// miss.
    pub fn color(self) -> (c: &'static str)
        ensures
            c@ == (match self {
                Mark::Has => GREEN@,
                Mark::Equivalent => YELLOW@,
                Mark::Missing => DIM@,
            }),
    {
        match self {
            Mark::Has => GREEN,
            Mark::Equivalent => YELLOW,
            Mark::Missing => DIM,
        }
    }
}

// ---------------------------------------------------------------------------
// The parser
// ---------------------------------------------------------------------------

/// Options for `commits`, as its words spell them.
#[derive(Debug)]
pub struct CommitsArgs {
    pub limit: Option<usize>,
    pub dates: Vec<DateFilter>,
    pub from: Option<String>,
    pub to: Option<String>,
    pub author: Option<String>,
    pub topo: bool,
    pub no_merges: bool,
    pub fmt: DateFmt,
    /// `Some(None)` is `--md` with no path: a timestamped name in the cwd.
    pub md: Option<Option<String>>,
    pub reverse: bool,
    pub no_cherry: bool,
    /// Print the sha the `≈` copy of each row carries elsewhere.
    pub pick: bool,
    /// Rows come from every worktree at once.
    pub union: bool,
    /// The full first-branch log instead of the merge-request-style range.
    pub all: bool,
    /// Add the changed files under each displayed commit.
    pub files: bool,
    /// Terminal lines a subject may take.
    pub wrap: Wrap,
    /// Columns the subject gets; `None` lets the terminal decide.
    pub subjectw: Option<SubjectWidth>,
}

/// `CommitsArgs` as a value.
pub struct ArgvState {
    pub limit: Option<usize>,
    pub dates: Seq<(DateOp, Seq<char>)>,
    pub from: Option<Seq<char>>,
    pub to: Option<Seq<char>>,
    pub author: Option<Seq<char>>,
    pub topo: bool,
    pub no_merges: bool,
    pub fmt: DateFmt,
    pub md: Option<Option<Seq<char>>>,
    pub reverse: bool,
    pub no_cherry: bool,
    pub pick: bool,
    pub union: bool,
    pub all: bool,
    pub files: bool,
    pub wrap: Wrap,
    pub subjectw: Option<SubjectWidth>,
}

pub open spec fn bound_views(v: Seq<DateFilter>) -> Seq<(DateOp, Seq<char>)> {
    v.map_values(|f: DateFilter| (f.op, f.date@))
}

pub open spec fn md_view(md: Option<Option<String>>) -> Option<Option<Seq<char>>> {
    match md {
        Some(Some(p)) => Some(Some(p@)),
        Some(None) => Some(None),
        None => None,
    }
}

impl View for CommitsArgs {
    type V = ArgvState;

    open spec fn view(&self) -> ArgvState {
        ArgvState {
            limit: self.limit,
            dates: bound_views(self.dates@),
            from: opt_view(self.from),
            to: opt_view(self.to),
            author: opt_view(self.author),
            topo: self.topo,
            no_merges: self.no_merges,
            fmt: self.fmt,
            md: md_view(self.md),
            reverse: self.reverse,
            no_cherry: self.no_cherry,
            pick: self.pick,
            union: self.union,
            all: self.all,
            files: self.files,
            wrap: self.wrap,
            subjectw: self.subjectw,
        }
    }
}

/// Nothing asked for: the merge-request-style range, one line a subject.
pub open spec fn fresh_argv() -> ArgvState {
    ArgvState {
        limit: None,
        dates: Seq::empty(),
        from: None,
        to: None,
        author: None,
        topo: false,
        no_merges: false,
        fmt: DateFmt { human: false, time: false },
        md: None,
        reverse: false,
        no_cherry: false,
        pick: false,
        union: false,
        all: false,
        files: false,
        wrap: Wrap::Lines(1),
        subjectw: None,
    }
}

/// The switches: flags that take no value.
pub open spec fn switch_spec(st: ArgvState, a: Seq<char>) -> Option<ArgvState> {
    if a == "--topo"@ || a == "--topo-order"@ {
        Some(ArgvState { topo: true, ..st })
    } else if a == "--no-merges"@ {
        Some(ArgvState { no_merges: true, ..st })
    } else if a == "--reverse"@ || a == "--oldest-first"@ {
        Some(ArgvState { reverse: true, ..st })
    } else if a == "--no-cherry"@ {
        Some(ArgvState { no_cherry: true, ..st })
    } else if a == "--pick-id"@ {
        Some(ArgvState { pick: true, ..st })
    } else if a == "--files"@ {
        Some(ArgvState { files: true, ..st })
    } else if a == "--union"@ || a == "--any"@ {
        Some(ArgvState { union: true, ..st })
    } else if a == "--all"@ {
        Some(ArgvState { all: true, ..st })
    } else if a == "--show-time"@ {
        Some(ArgvState { fmt: DateFmt { time: true, ..st.fmt }, ..st })
    } else if a == "--date-human"@ {
        Some(ArgvState { fmt: DateFmt { human: true, ..st.fmt }, ..st })
    } else {
        None
    }
}

/// What a step answers: the state after it and whether it took the next
/// word as its value, or the complaint.
pub type Step = Result<(ArgvState, bool), Seq<char>>;

pub open spec fn wrap_of(w: Option<usize>) -> Wrap {
    match w {
        Some(n) => Wrap::Lines(n),
        None => Wrap::Full,
    }
}

pub open spec fn subjw_of(w: Option<usize>) -> SubjectWidth {
    match w {
        Some(n) => SubjectWidth::Cols(n),
        None => SubjectWidth::Full,
    }
}

pub open spec fn subjw_value(v: Seq<char>) -> Result<Option<usize>, Seq<char>> {
    width_spec(v, MIN_TEXTW, "--subject-width"@, "subject"@, SUBJW_HINT@, SUBJW_BAD@)
}

/// `-n`/`--limit`, with the count after it or after `=`.
pub open spec fn limit_arm(st: ArgvState, a: Seq<char>, next: Option<Seq<char>>) -> Option<Step> {
    if a == "-n"@ || a == "--limit"@ {
        Some(
            match next {
                None => Err(LIMIT_MISSING@),
                Some(v) => match limit_spec(v) {
                    Ok(n) => Ok((ArgvState { limit: Some(n), ..st }, true)),
                    Err(e) => Err(e),
                },
            },
        )
    } else if is_prefix("--limit="@, a) {
        Some(
            match limit_spec(a.skip("--limit="@.len() as int)) {
                Ok(n) => Ok((ArgvState { limit: Some(n), ..st }, false)),
                Err(e) => Err(e),
            },
        )
    } else {
        None
    }
}

/// `--wrap`/`-w`: the count is optional, and only a count or 'full' is read
/// as one; `--subject-width`'s is required; a bare `--subject` is refused.
pub open spec fn width_arm(st: ArgvState, a: Seq<char>, next: Option<Seq<char>>) -> Option<Step> {
    if a == "--wrap"@ || a == "-w"@ {
        Some(
            match next {
                Some(v) => match wrap_spec(v, WRAP_BAD@) {
                    Ok(w) => Ok((ArgvState { wrap: wrap_of(w), ..st }, true)),
                    Err(_) => Ok((ArgvState { wrap: Wrap::Full, ..st }, false)),
                },
                None => Ok((ArgvState { wrap: Wrap::Full, ..st }, false)),
            },
        )
    } else if is_prefix("--wrap="@, a) {
        Some(
            match wrap_spec(a.skip("--wrap="@.len() as int), WRAP_BAD@) {
                Ok(w) => Ok((ArgvState { wrap: wrap_of(w), ..st }, false)),
                Err(e) => Err(e),
            },
        )
    } else if a == "--subject-width"@ || a == "--subjw"@ {
        Some(
            match next {
                None => Err(SUBJW_MISSING@),
                Some(v) => match subjw_value(v) {
                    Ok(w) => Ok((ArgvState { subjectw: Some(subjw_of(w)), ..st }, true)),
                    Err(e) => Err(e),
                },
            },
        )
    } else if is_prefix("--subject-width="@, a) {
        Some(
            match subjw_value(a.skip("--subject-width="@.len() as int)) {
                Ok(w) => Ok((ArgvState { subjectw: Some(subjw_of(w)), ..st }, false)),
                Err(e) => Err(e),
            },
        )
    } else if is_prefix("--subjw="@, a) {
        Some(
            match subjw_value(a.skip("--subjw="@.len() as int)) {
                Ok(w) => Ok((ArgvState { subjectw: Some(subjw_of(w)), ..st }, false)),
                Err(e) => Err(e),
            },
        )
    } else if a == "--subject"@ {
        Some(Err(SUBJECT_MSG@))
    } else {
        None
    }
}

/// `--md`: the path is optional, so the next word is it only when it is not
/// another flag.
pub open spec fn md_arm(st: ArgvState, a: Seq<char>, next: Option<Seq<char>>) -> Option<Step> {
    if a == "--md"@ {
        Some(
            match next {
                Some(v) => if !is_prefix("-"@, v) {
                    Ok((ArgvState { md: Some(Some(v)), ..st }, true))
                } else {
                    Ok((ArgvState { md: Some(None), ..st }, false))
                },
                None => Ok((ArgvState { md: Some(None), ..st }, false)),
            },
        )
    } else if is_prefix("--md="@, a) {
        Some(Ok((ArgvState { md: Some(Some(a.skip("--md="@.len() as int))), ..st }, false)))
    } else {
        None
    }
}

pub open spec fn push_bound(st: ArgvState, r: Result<(DateOp, Seq<char>), Seq<char>>, took: bool) -> Step {
    match r {
        Ok(b) => Ok((ArgvState { dates: st.dates.push(b), ..st }, took)),
        Err(e) => Err(e),
    }
}

pub open spec fn as_bound(op: DateOp, r: Result<Seq<char>, Seq<char>>) -> Result<(DateOp, Seq<char>), Seq<char>> {
    match r {
        Ok(d) => Ok((op, d)),
        Err(e) => Err(e),
    }
}

/// The date bounds: `--date`, and `--from-date`/`--to-date`, the same two
/// bounds spelled with no operator to quote.
pub open spec fn date_arm(st: ArgvState, a: Seq<char>, next: Option<Seq<char>>) -> Option<Step> {
    if a == "--date"@ || a == "-d"@ {
        Some(
            match next {
                None => Err(DATE_MISSING@),
                Some(v) => push_bound(st, date_bound_spec(v), true),
            },
        )
    } else if is_prefix("--date="@, a) {
        Some(push_bound(st, date_bound_spec(a.skip("--date="@.len() as int)), false))
    } else if a == "--from-date"@ {
        Some(
            match next {
                None => Err(FROM_DATE_MISSING@),
                Some(v) => push_bound(st, as_bound(DateOp::Ge, day_spec(v)), true),
            },
        )
    } else if is_prefix("--from-date="@, a) {
        Some(push_bound(st, as_bound(DateOp::Ge, day_spec(a.skip("--from-date="@.len() as int))), false))
    } else if a == "--to-date"@ {
        Some(
            match next {
                None => Err(TO_DATE_MISSING@),
                Some(v) => push_bound(st, as_bound(DateOp::Le, day_spec(v)), true),
            },
        )
    } else if is_prefix("--to-date="@, a) {
        Some(push_bound(st, as_bound(DateOp::Le, day_spec(a.skip("--to-date="@.len() as int))), false))
    } else {
        None
    }
}

/// `--author`, `--from-id`, `--to-id`: a word each, taken as it is.
pub open spec fn word_arm(st: ArgvState, a: Seq<char>, next: Option<Seq<char>>) -> Option<Step> {
    if a == "--author"@ {
        Some(
            match next {
                None => Err(AUTHOR_MISSING@),
                Some(v) => Ok((ArgvState { author: Some(v), ..st }, true)),
            },
        )
    } else if is_prefix("--author="@, a) {
        Some(Ok((ArgvState { author: Some(a.skip("--author="@.len() as int)), ..st }, false)))
    } else if a == "--from-id"@ {
        Some(
            match next {
                None => Err(FROM_MISSING@),
                Some(v) => Ok((ArgvState { from: Some(v), ..st }, true)),
            },
        )
    } else if is_prefix("--from-id="@, a) {
        Some(Ok((ArgvState { from: Some(a.skip("--from-id="@.len() as int)), ..st }, false)))
    } else if a == "--to-id"@ {
        Some(
            match next {
                None => Err(TO_MISSING@),
                Some(v) => Ok((ArgvState { to: Some(v), ..st }, true)),
            },
        )
    } else if is_prefix("--to-id="@, a) {
        Some(Ok((ArgvState { to: Some(a.skip("--to-id="@.len() as int)), ..st }, false)))
    } else {
        None
    }
}

/// What no flag claims: a bare `--from`/`--to`, git's `--since`/`--until`,
/// and anything else.
pub open spec fn refusal_spec(a: Seq<char>) -> Seq<char> {
    if a == "--from"@ || a == "--to"@ {
        "no '"@ + a + "' for commits; '"@ + a + "-id' takes a commit, '"@ + a + "-date' takes a date"@
    } else if a == "--since"@ {
        SINCE_MSG@
    } else if a == "--until"@ {
        UNTIL_MSG@
    } else {
        "unexpected argument '"@ + a + "' for commits\nTry 'git-wt --help'"@
    }
}

/// One word's step, `next` being the word after it.
pub open spec fn step_spec(st: ArgvState, a: Seq<char>, next: Option<Seq<char>>) -> Step {
    match switch_spec(st, a) {
        Some(s2) => Ok((s2, false)),
        None => match limit_arm(st, a, next) {
            Some(r) => r,
            None => match width_arm(st, a, next) {
                Some(r) => r,
                None => match md_arm(st, a, next) {
                    Some(r) => r,
                    None => match date_arm(st, a, next) {
                        Some(r) => r,
                        None => match word_arm(st, a, next) {
                            Some(r) => r,
                            None => Err(refusal_spec(a)),
                        },
                    },
                },
            },
        },
    }
}

pub open spec fn next_word(args: Seq<Seq<char>>, i: int) -> Option<Seq<char>> {
    if 0 <= i + 1 < args.len() {
        Some(args[i + 1])
    } else {
        None
    }
}

/// The words from `i` on, read into `st`.
pub open spec fn argv_scan(args: Seq<Seq<char>>, i: int, st: ArgvState) -> Result<ArgvState, Seq<char>>
    decreases args.len() - i,
{
    if i < 0 || i >= args.len() {
        Ok(st)
    } else {
        match step_spec(st, args[i], next_word(args, i)) {
            Err(e) => Err(e),
            Ok((s2, took)) => argv_scan(args, i + 1 + (if took {
                1int
            } else {
                0int
            }), s2),
        }
    }
}

/// What `parse_commits_args` answers: the words read in order, then the
/// two conflicts between them.
pub open spec fn argv_spec(args: Seq<Seq<char>>) -> Result<ArgvState, Seq<char>> {
    match argv_scan(args, 0, fresh_argv()) {
        Err(e) => Err(e),
        Ok(st) => if st.pick && st.no_cherry {
            Err(pick_msg())
        } else if st.all && st.union {
            Err(sources_msg())
        } else {
            Ok(st)
        },
    }
}


spec fn arm_done(want: Option<Step>, r: Option<Result<bool, String>>, before: ArgvState, after: ArgvState) -> bool {
    match r {
        None => want is None && after == before,
        Some(Ok(t)) => want == Some(Ok::<(ArgvState, bool), Seq<char>>((after, t))),
        Some(Err(e)) => want == Some(Err::<(ArgvState, bool), Seq<char>>(e@)),
    }
}

fn msg(s: &str) -> (r: String)
    ensures
        r@ == s@,
{
    string_of(chars_of(s).as_slice())
}

fn switch_step(a: &[char], st: &mut CommitsArgs) -> (r: bool)
    ensures
        r == switch_spec(old(st)@, a@) is Some,
        r ==> switch_spec(old(st)@, a@) == Some(final(st)@),
        !r ==> final(st)@ == old(st)@,
{
    if is(a, "--topo") || is(a, "--topo-order") {
        st.topo = true;
    } else if is(a, "--no-merges") {
        st.no_merges = true;
    } else if is(a, "--reverse") || is(a, "--oldest-first") {
        st.reverse = true;
    } else if is(a, "--no-cherry") {
        st.no_cherry = true;
    } else if is(a, "--pick-id") {
        st.pick = true;
    } else if is(a, "--files") {
        st.files = true;
    } else if is(a, "--union") || is(a, "--any") {
        st.union = true;
    } else if is(a, "--all") {
        st.all = true;
    } else if is(a, "--show-time") {
        st.fmt = DateFmt { time: true, ..st.fmt };
    } else if is(a, "--date-human") {
        st.fmt = DateFmt { human: true, ..st.fmt };
    } else {
        return false;
    }
    true
}

fn limit_step(a: &[char], next: Option<&str>, st: &mut CommitsArgs) -> (r: Option<Result<bool, String>>)
    ensures
        arm_done(limit_arm(old(st)@, a@, opt_str(next)), r, old(st)@, final(st)@),
{
    if is(a, "-n") || is(a, "--limit") {
        return match next {
            None => Some(Err(msg(LIMIT_MISSING))),
            Some(v) => match parse_limit(v) {
                Ok(n) => {
                    st.limit = Some(n);
                    Some(Ok(true))
                },
                Err(e) => Some(Err(e)),
            },
        };
    }
    match strip_prefix(a, "--limit=") {
        Some(rest) => {
            let rs = string_of(rest.as_slice());
            match parse_limit(rs.as_str()) {
                Ok(n) => {
                    st.limit = Some(n);
                    Some(Ok(false))
                },
                Err(e) => Some(Err(e)),
            }
        },
        None => None,
    }
}

fn set_subjw(st: &mut CommitsArgs, v: &str) -> (r: Result<(), String>)
    ensures
        match subjw_value(v@) {
            Ok(w) => r is Ok && final(st)@ == (ArgvState { subjectw: Some(subjw_of(w)), ..old(st)@ }),
            Err(e) => r matches Err(x) && x@ == e,
        },
{
    match parse_width(v, MIN_TEXTW, "--subject-width", "subject", SUBJW_HINT, SUBJW_BAD) {
        Ok(w) => {
            st.subjectw = Some(
                match w {
                    Some(n) => SubjectWidth::Cols(n),
                    None => SubjectWidth::Full,
                },
            );
            Ok(())
        },
        Err(e) => Err(e),
    }
}

fn width_step(a: &[char], next: Option<&str>, st: &mut CommitsArgs) -> (r: Option<Result<bool, String>>)
    ensures
        arm_done(width_arm(old(st)@, a@, opt_str(next)), r, old(st)@, final(st)@),
{
    if is(a, "--wrap") || is(a, "-w") {
        match next {
            Some(v) => match parse_line_count(v, WRAP_BAD) {
                Ok(w) => {
                    st.wrap = match w {
                        Some(n) => Wrap::Lines(n),
                        None => Wrap::Full,
                    };
                    return Some(Ok(true));
                },
                Err(_) => {
                    st.wrap = Wrap::Full;
                    return Some(Ok(false));
                },
            },
            None => {
                st.wrap = Wrap::Full;
                return Some(Ok(false));
            },
        }
    }
    if let Some(rest) = strip_prefix(a, "--wrap=") {
        let rs = string_of(rest.as_slice());
        return match parse_line_count(rs.as_str(), WRAP_BAD) {
            Ok(w) => {
                st.wrap = match w {
                    Some(n) => Wrap::Lines(n),
                    None => Wrap::Full,
                };
                Some(Ok(false))
            },
            Err(e) => Some(Err(e)),
        };
    }
    if is(a, "--subject-width") || is(a, "--subjw") {
        return match next {
            None => Some(Err(msg(SUBJW_MISSING))),
            Some(v) => match set_subjw(st, v) {
                Ok(()) => Some(Ok(true)),
                Err(e) => Some(Err(e)),
            },
        };
    }
    if let Some(rest) = strip_prefix(a, "--subject-width=") {
        let rs = string_of(rest.as_slice());
        return match set_subjw(st, rs.as_str()) {
            Ok(()) => Some(Ok(false)),
            Err(e) => Some(Err(e)),
        };
    }
    if let Some(rest) = strip_prefix(a, "--subjw=") {
        let rs = string_of(rest.as_slice());
        return match set_subjw(st, rs.as_str()) {
            Ok(()) => Some(Ok(false)),
            Err(e) => Some(Err(e)),
        };
    }
    if is(a, "--subject") {
        return Some(Err(msg(SUBJECT_MSG)));
    }
    None
}

fn md_step(a: &[char], next: Option<&str>, st: &mut CommitsArgs) -> (r: Option<Result<bool, String>>)
    ensures
        arm_done(md_arm(old(st)@, a@, opt_str(next)), r, old(st)@, final(st)@),
{
    if is(a, "--md") {
        match next {
            Some(v) => {
                let vc = chars_of(v);
                if !crate::text::starts_with_str(vc.as_slice(), "-") {
                    st.md = Some(Some(string_of(vc.as_slice())));
                    return Some(Ok(true));
                }
                st.md = Some(None);
                return Some(Ok(false));
            },
            None => {
                st.md = Some(None);
                return Some(Ok(false));
            },
        }
    }
    match strip_prefix(a, "--md=") {
        Some(rest) => {
            st.md = Some(Some(string_of(rest.as_slice())));
            Some(Ok(false))
        },
        None => None,
    }
}

fn add_bound(st: &mut CommitsArgs, f: DateFilter)
    ensures
        final(st)@ == (ArgvState { dates: old(st)@.dates.push((f.op, f.date@)), ..old(st)@ }),
{
    let ghost before = st.dates@;
    st.dates.push(f);
    assert(bound_views(st.dates@) =~= bound_views(before).push((f.op, f.date@)));
}

fn add_day(st: &mut CommitsArgs, op: DateOp, v: &str) -> (r: Result<(), String>)
    ensures
        match day_spec(v@) {
            Ok(d) => r is Ok && final(st)@ == (ArgvState { dates: old(st)@.dates.push((op, d)), ..old(st)@ }),
            Err(e) => r matches Err(x) && x@ == e,
        },
{
    match iso_date(v) {
        Ok(d) => {
            add_bound(st, DateFilter { op, date: d });
            Ok(())
        },
        Err(e) => Err(e),
    }
}

fn add_filter(st: &mut CommitsArgs, v: &str) -> (r: Result<(), String>)
    ensures
        match date_bound_spec(v@) {
            Ok(b) => r is Ok && final(st)@ == (ArgvState { dates: old(st)@.dates.push(b), ..old(st)@ }),
            Err(e) => r matches Err(x) && x@ == e,
        },
{
    match parse_date_filter(v) {
        Ok(f) => {
            add_bound(st, f);
            Ok(())
        },
        Err(e) => Err(e),
    }
}

fn took(r: Result<(), String>, t: bool) -> (o: Option<Result<bool, String>>)
    ensures
        match r {
            Ok(()) => o == Some(Ok::<bool, String>(t)),
            Err(e) => o == Some(Err::<bool, String>(e)),
        },
{
    match r {
        Ok(()) => Some(Ok(t)),
        Err(e) => Some(Err(e)),
    }
}

fn date_step(a: &[char], next: Option<&str>, st: &mut CommitsArgs) -> (r: Option<Result<bool, String>>)
    ensures
        arm_done(date_arm(old(st)@, a@, opt_str(next)), r, old(st)@, final(st)@),
{
    if is(a, "--date") || is(a, "-d") {
        return match next {
            None => Some(Err(msg(DATE_MISSING))),
            Some(v) => took(add_filter(st, v), true),
        };
    }
    if let Some(rest) = strip_prefix(a, "--date=") {
        let rs = string_of(rest.as_slice());
        return took(add_filter(st, rs.as_str()), false);
    }
    if is(a, "--from-date") {
        return match next {
            None => Some(Err(msg(FROM_DATE_MISSING))),
            Some(v) => took(add_day(st, DateOp::Ge, v), true),
        };
    }
    if let Some(rest) = strip_prefix(a, "--from-date=") {
        let rs = string_of(rest.as_slice());
        return took(add_day(st, DateOp::Ge, rs.as_str()), false);
    }
    if is(a, "--to-date") {
        return match next {
            None => Some(Err(msg(TO_DATE_MISSING))),
            Some(v) => took(add_day(st, DateOp::Le, v), true),
        };
    }
    if let Some(rest) = strip_prefix(a, "--to-date=") {
        let rs = string_of(rest.as_slice());
        return took(add_day(st, DateOp::Le, rs.as_str()), false);
    }
    None
}

fn word_step(a: &[char], next: Option<&str>, st: &mut CommitsArgs) -> (r: Option<Result<bool, String>>)
    ensures
        arm_done(word_arm(old(st)@, a@, opt_str(next)), r, old(st)@, final(st)@),
{
    if is(a, "--author") {
        return match next {
            None => Some(Err(msg(AUTHOR_MISSING))),
            Some(v) => {
                st.author = Some(msg(v));
                Some(Ok(true))
            },
        };
    }
    if let Some(rest) = strip_prefix(a, "--author=") {
        st.author = Some(string_of(rest.as_slice()));
        return Some(Ok(false));
    }
    if is(a, "--from-id") {
        return match next {
            None => Some(Err(msg(FROM_MISSING))),
            Some(v) => {
                st.from = Some(msg(v));
                Some(Ok(true))
            },
        };
    }
    if let Some(rest) = strip_prefix(a, "--from-id=") {
        st.from = Some(string_of(rest.as_slice()));
        return Some(Ok(false));
    }
    if is(a, "--to-id") {
        return match next {
            None => Some(Err(msg(TO_MISSING))),
            Some(v) => {
                st.to = Some(msg(v));
                Some(Ok(true))
            },
        };
    }
    if let Some(rest) = strip_prefix(a, "--to-id=") {
        st.to = Some(string_of(rest.as_slice()));
        return Some(Ok(false));
    }
    None
}

fn refusal(a: &[char]) -> (r: String)
    ensures
        r@ == refusal_spec(a@),
{
    let mut m: Vec<char> = Vec::new();
    if is(a, "--from") || is(a, "--to") {
        push_str(&mut m, "no '");
        push_all(&mut m, a);
        push_str(&mut m, "' for commits; '");
        push_all(&mut m, a);
        push_str(&mut m, "-id' takes a commit, '");
        push_all(&mut m, a);
        push_str(&mut m, "-date' takes a date");
    } else if is(a, "--since") {
        push_str(&mut m, SINCE_MSG);
    } else if is(a, "--until") {
        push_str(&mut m, UNTIL_MSG);
    } else {
        push_str(&mut m, "unexpected argument '");
        push_all(&mut m, a);
        push_str(&mut m, "' for commits\nTry 'git-wt --help'");
    }
    assert(m@ =~= refusal_spec(a@));
    string_of(m.as_slice())
}

fn step(a: &[char], next: Option<&str>, st: &mut CommitsArgs) -> (r: Result<bool, String>)
    ensures
        match r {
            Ok(t) => step_spec(old(st)@, a@, opt_str(next)) == Ok::<(ArgvState, bool), Seq<char>>((final(st)@, t)),
            Err(e) => step_spec(old(st)@, a@, opt_str(next)) == Err::<(ArgvState, bool), Seq<char>>(e@),
        },
{
    if switch_step(a, st) {
        return Ok(false);
    }
    if let Some(r) = limit_step(a, next, st) {
        return r;
    }
    if let Some(r) = width_step(a, next, st) {
        return r;
    }
    if let Some(r) = md_step(a, next, st) {
        return r;
    }
    if let Some(r) = date_step(a, next, st) {
        return r;
    }
    if let Some(r) = word_step(a, next, st) {
        return r;
    }
    Err(refusal(a))
}

/// Read `commits`' words: see `argv_spec`.
pub fn parse_commits_args(args: &[String]) -> (r: Result<CommitsArgs, String>)
    ensures
        match argv_spec(str_views(args@)) {
            Ok(st) => r matches Ok(a) && a@ == st,
            Err(e) => r matches Err(x) && x@ == e,
        },
{
    let ghost av = str_views(args@);
    let mut st = CommitsArgs {
        limit: None,
        dates: Vec::new(),
        from: None,
        to: None,
        author: None,
        topo: false,
        no_merges: false,
        fmt: DateFmt { human: false, time: false },
        md: None,
        reverse: false,
        no_cherry: false,
        pick: false,
        union: false,
        all: false,
        files: false,
        wrap: Wrap::Lines(1),
        subjectw: None,
    };
    assert(bound_views(st.dates@) =~= Seq::<(DateOp, Seq<char>)>::empty());
    assert(st@ == fresh_argv());
    let mut i: usize = 0;
    while i < args.len()
        invariant
            i <= args.len(),
            av == str_views(args@),
            argv_scan(av, 0, fresh_argv()) == argv_scan(av, i as int, st@),
        decreases args.len() - i,
    {
        let a = chars_of(args[i].as_str());
        assert(av[i as int] == a@);
        let next: Option<&str> = if i + 1 < args.len() {
            Some(args[i + 1].as_str())
        } else {
            None
        };
        assert(opt_str(next) == next_word(av, i as int));
        let ghost before = st@;
        match step(a.as_slice(), next, &mut st) {
            Err(e) => {
                assert(argv_scan(av, i as int, before) == Err::<ArgvState, Seq<char>>(e@));
                return Err(e);
            },
            Ok(t) => {
                if t {
                    if i + 2 <= args.len() {
                        i = i + 2;
                    } else {
                        assert(argv_scan(av, i + 2, st@) == Ok::<ArgvState, Seq<char>>(st@));
                        assert(argv_scan(av, args.len() as int, st@) == Ok::<ArgvState, Seq<char>>(st@));
                        i = args.len();
                    }
                } else {
                    i = i + 1;
                }
            },
        }
    }
    assert(argv_scan(av, i as int, st@) == Ok::<ArgvState, Seq<char>>(st@));
    if st.pick && st.no_cherry {
        return Err(msg("--pick-id needs the patch comparison that --no-cherry skips: drop one of them"));
    }
    if st.all && st.union {
        return Err(msg("--all and --union are two different row sources: use one of them"));
    }
    Ok(st)
}


} // verus!
