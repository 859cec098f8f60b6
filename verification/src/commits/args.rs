//! The `commits`/`log`/`review` vocabulary: row order, date spelling and
//! filters, column widths, and the cross-field rules every source of a
//! `CommitsArgs` runs once its flags are collected.

use vstd::prelude::*;

use crate::style::{BRANCH_MIN, MIN_TEXTW, PATH_MIN};
use crate::text::{
    all_digits, chars_of, decimal, decimal_of, digits_value, eq_ignore_ascii_case,
    eq_ignore_case_spec, is_digit, lex_le, less_or_equal, parse_usize, parse_usize_spec,
    push_all, push_str, same, slice_range, string_of, trim, trim_spec, trim_start_set,
    trim_start_set_spec,
};

verus! {

/// Which of the two readings of "the story" the rows are in. Both keep
/// ancestry; they differ in what fills the gaps between unrelated commits.
#[derive(Debug, Clone, Copy, PartialEq, Eq, Structural)]
pub enum Order {
    /// By author date: a row's neighbors are its contemporaries.
    Date,
    /// By topology: each branch's line of history stays in one block.
    Topo,
}

impl Order {
    /// The `git log` flag that asks for this order.
    pub fn flag(self) -> (r: &'static str)
        ensures
            self == Order::Date ==> r@ == "--author-date-order"@,
            self == Order::Topo ==> r@ == "--topo-order"@,
    {
        match self {
            Order::Date => "--author-date-order",
            Order::Topo => "--topo-order",
        }
    }
}

/// How the date column is spelled: ISO by default, the shape the filters
/// take.
#[derive(Debug, Clone, Copy, PartialEq, Eq, Structural)]
pub struct DateFmt {
    /// `Jan. 31, 2026` instead of `2026-01-31`.
    pub human: bool,
    /// Append the time, 24-hour.
    pub time: bool,
}

impl DateFmt {
    /// The strftime git is asked for. `%-d` drops the day's leading zero,
    /// which only the human spelling wants.
    pub fn spec(self) -> (r: &'static str)
        ensures
            !self.human && !self.time ==> r@ == "%Y-%m-%d"@,
            !self.human && self.time ==> r@ == "%Y-%m-%d %H:%M:%S"@,
            self.human && !self.time ==> r@ == "%b. %-d, %Y"@,
            self.human && self.time ==> r@ == "%b. %-d, %Y %H:%M:%S"@,
    {
        match (self.human, self.time) {
            (false, false) => "%Y-%m-%d",
            (false, true) => "%Y-%m-%d %H:%M:%S",
            (true, false) => "%b. %-d, %Y",
            (true, true) => "%b. %-d, %Y %H:%M:%S",
        }
    }
}

/// How a date bound compares: inclusive bounds only.
#[derive(Debug, Clone, Copy, PartialEq, Eq, Structural)]
pub enum DateOp {
    Eq,
    Ge,
    Le,
}

/// One date bound; several are an AND.
#[derive(Debug, Clone, PartialEq, Eq)]
pub struct DateFilter {
    pub op: DateOp,
    pub date: String,
}

/// Whether a filter with `op` and `date` keeps a row dated `key`.
pub open spec fn admits_spec(op: DateOp, date: Seq<char>, key: Seq<char>) -> bool {
    match op {
        DateOp::Eq => key == date,
        DateOp::Ge => lex_le(date, key),
        DateOp::Le => lex_le(key, date),
    }
}

impl DateFilter {
    /// ISO dates sort as text, so a string compare is a date compare.
    pub fn admits(&self, key: &str) -> (r: bool)
        ensures
            r == admits_spec(self.op, self.date@, key@),
    {
        let k = chars_of(key);
        let d = chars_of(self.date.as_str());
        match self.op {
            DateOp::Eq => same(k.as_slice(), d.as_slice()),
            DateOp::Ge => less_or_equal(d.as_slice(), k.as_slice()),
            DateOp::Le => less_or_equal(k.as_slice(), d.as_slice()),
        }
    }
}

/// How wide the subject column is, when the terminal is not the one to say.
#[derive(Debug, Clone, Copy, PartialEq, Eq, Structural)]
pub enum SubjectWidth {
    Cols(usize),
    Full,
}

/// How wide a mark column's branch-name header gets cut to.
#[derive(Debug, Clone, Copy, PartialEq, Eq, Structural)]
pub enum BranchWidth {
    Cols(usize),
    Full,
}

/// How wide `log`'s path column gets.
#[derive(Debug, Clone, Copy, PartialEq, Eq, Structural)]
pub enum PathWidth {
    Cols(usize),
    Full,
}

/// How many terminal lines a subject may take before it is cut.
#[derive(Debug, Clone, Copy, PartialEq, Eq, Structural)]
pub enum Wrap {
    Lines(usize),
    Full,
}

impl Wrap {
    /// The budget as a count; `Full` is unbounded.
    pub fn lines(self) -> (r: usize)
        ensures
            self matches Wrap::Lines(n) ==> r == n,
            self is Full ==> r == usize::MAX,
    {
        match self {
            Wrap::Lines(n) => n,
            Wrap::Full => usize::MAX,
        }
    }
}

/// Which of the three verbs that render through this table asked for it.
#[derive(Debug, Clone, Copy, PartialEq, Eq, Structural)]
pub enum Mode {
    Commits,
    Review,
    Log,
}

/// Options for `commits`, `log` and `merge --review`.
#[derive(Debug)]
pub struct CommitsArgs {
    pub limit: Option<usize>,
    pub dates: Vec<DateFilter>,
    /// Lower date bound named by a commit: that commit's day, and after.
    pub commit_since: Option<String>,
    /// Upper date bound named by a commit: that commit's day, and before.
    pub commit_until: Option<String>,
    /// Only these commits, by sha prefix. Empty means every row.
    pub commits: Vec<String>,
    pub author: Option<String>,
    /// Only commits whose subject or body contains this, case-folded.
    pub message: Option<String>,
    /// Highlight only -- never drops a row.
    pub search: Option<String>,
    /// Only commits touching a path containing this, case-folded.
    pub filename: Option<String>,
    /// Show every file a commit touched, not only the matched paths.
    pub all_files: bool,
    pub topo: bool,
    /// Keep merge commits.
    pub merges: bool,
    pub fmt: DateFmt,
    /// `Some(None)` is `--md` with no path: a timestamped name in the cwd.
    pub md: Option<Option<String>>,
    pub reverse: bool,
    pub no_cherry: bool,
    /// Print the sha the '≈' copy of each row carries elsewhere.
    pub pick: bool,
    /// Rows come from every worktree at once.
    pub union: bool,
    /// Full first-branch log instead of the merge-request-style range.
    pub all: bool,
    /// Add the changed files under each displayed commit.
    pub files: bool,
    /// One consolidated file block below the table instead of one per row.
    pub squash: bool,
    pub wrap: Wrap,
    pub subjectw: Option<SubjectWidth>,
    pub branchw: Option<BranchWidth>,
    pub pathw: Option<PathWidth>,
    /// `log` only: don't follow a rename, even with one path given.
    pub no_follow: bool,
}

/// `CommitsArgs` before the cross-field rules have run.
#[derive(Debug)]
pub struct RawCommitsArgs {
    pub limit: Option<usize>,
    pub dates: Vec<DateFilter>,
    pub commit_since: Option<String>,
    pub commit_until: Option<String>,
    pub commits: Vec<String>,
    pub author: Option<String>,
    pub message: Option<String>,
    pub search: Option<String>,
    pub filename: Option<String>,
    pub all_files: bool,
    pub topo: bool,
    pub merges: bool,
    pub fmt: DateFmt,
    pub md: Option<Option<String>>,
    pub reverse: bool,
    pub no_cherry: bool,
    pub pick: bool,
    pub union: bool,
    pub all: bool,
    pub files: bool,
    pub squash: bool,
    pub wrap: Option<Wrap>,
    pub subjectw: Option<SubjectWidth>,
    pub branchw: Option<BranchWidth>,
    pub pathw: Option<PathWidth>,
    pub no_follow: bool,
}

/// The flags `commits`, `log` and `review` share, as plain values.
#[derive(Debug, Default)]
pub struct CommonCommitsFlags {
    pub limit: Option<usize>,
    pub date: Vec<DateFilter>,
    pub date_since: Option<String>,
    pub date_until: Option<String>,
    pub commit_since: Option<String>,
    pub commit_until: Option<String>,
    pub commits: Vec<String>,
    pub author: Option<String>,
    pub message: Option<String>,
    pub search: Option<String>,
    pub topo: bool,
    pub merges: bool,
    pub reverse: bool,
    pub no_cherry: bool,
    pub pick: bool,
    pub files: bool,
    pub squash: bool,
    pub union: bool,
    pub time: bool,
    pub date_human: bool,
    pub wrap: Option<Wrap>,
    pub subjectw: Option<SubjectWidth>,
    pub branchw: Option<BranchWidth>,
    /// `Some("")` is a bare `--md`.
    pub md: Option<String>,
}

// ---------------------------------------------------------------------------
// Folding and cross-field rules
// ---------------------------------------------------------------------------

/// The dates `into_raw` keeps: the `--date` days, then the since bound, then
/// the until bound.
pub open spec fn folded_dates(
    date: Seq<DateFilter>,
    since: Option<String>,
    until: Option<String>,
) -> Seq<DateFilter> {
    let a = match since {
        Some(d) => date.push(DateFilter { op: DateOp::Ge, date: d }),
        None => date,
    };
    match until {
        Some(d) => a.push(DateFilter { op: DateOp::Le, date: d }),
        None => a,
    }
}

impl CommonCommitsFlags {
    /// Fold the shared fields into a `RawCommitsArgs`, leaving the
    /// verb-specific ones (`all`, `all_files`, `filename`, `no_follow`,
    /// `pathw`) at their defaults for the caller to fill in.
    pub fn into_raw(self) -> (r: RawCommitsArgs)
        ensures
            r.dates@ == folded_dates(self.date@, self.date_since, self.date_until),
            r.limit == self.limit,
            r.commit_since == self.commit_since,
            r.commit_until == self.commit_until,
            r.commits == self.commits,
            r.author == self.author,
            r.message == self.message,
            r.search == self.search,
            r.filename is None,
            !r.all_files,
            r.topo == self.topo,
            r.merges == self.merges,
            r.fmt == (DateFmt { human: self.date_human, time: self.time }),
            self.md is None ==> r.md is None,
            self.md matches Some(s) ==> if s@.len() == 0 {
                r.md == Some(None::<String>)
            } else {
                r.md == Some(Some(s))
            },
            r.reverse == self.reverse,
            r.no_cherry == self.no_cherry,
            r.pick == self.pick,
            r.union == self.union,
            !r.all,
            r.files == self.files,
            r.squash == self.squash,
            r.wrap == self.wrap,
            r.subjectw == self.subjectw,
            r.branchw == self.branchw,
            r.pathw is None,
            !r.no_follow,
    {
        let mut dates = self.date;
        if let Some(d) = self.date_since {
            dates.push(DateFilter { op: DateOp::Ge, date: d });
        }
        if let Some(d) = self.date_until {
            dates.push(DateFilter { op: DateOp::Le, date: d });
        }
        let md = match self.md {
            Some(s) => if s.as_str().is_empty() {
                Some(None)
            } else {
                Some(Some(s))
            },
            None => None,
        };
        RawCommitsArgs {
            limit: self.limit,
            dates,
            commit_since: self.commit_since,
            commit_until: self.commit_until,
            commits: self.commits,
            author: self.author,
            message: self.message,
            search: self.search,
            filename: None,
            all_files: false,
            topo: self.topo,
            merges: self.merges,
            fmt: DateFmt { human: self.date_human, time: self.time },
            md,
            reverse: self.reverse,
            no_cherry: self.no_cherry,
            pick: self.pick,
            union: self.union,
            all: false,
            files: self.files,
            squash: self.squash,
            wrap: self.wrap,
            subjectw: self.subjectw,
            branchw: self.branchw,
            pathw: None,
            no_follow: false,
        }
    }
}

pub open spec fn review_refusal(what: Seq<char>) -> Seq<char> {
    "no '"@ + what
        + "' under '--review': the rows are the range 'dest..src', which is the one source a review has"@
}

pub open spec fn pick_msg() -> Seq<char> {
    "--pick-id needs the patch comparison that --no-cherry skips: drop one of them"@
}

pub open spec fn sources_msg() -> Seq<char> {
    "--all and --union are two different row sources: use one of them"@
}

pub open spec fn all_files_msg() -> Seq<char> {
    "--all-files needs a '--filename TERM' to widen: on its own the file block is already whole"@
}

/// Some date bound is a lower bound or an exact day: a floor.
pub open spec fn has_floor_date(dates: Seq<DateFilter>) -> bool {
    exists|i: int| 0 <= i < dates.len() && (#[trigger] dates[i]).op != DateOp::Le
}

/// The error `finalize_commits_args` owes for `raw`, if any, in the order
/// the rules are checked.
pub open spec fn finalize_error(mode: Mode, raw: RawCommitsArgs) -> Option<Seq<char>> {
    if mode == Mode::Review && raw.all {
        Some(review_refusal("--all"@))
    } else if mode == Mode::Review && raw.union {
        Some(review_refusal("--union"@))
    } else if raw.pick && raw.no_cherry {
        Some(pick_msg())
    } else if raw.all && raw.union {
        Some(sources_msg())
    } else if raw.all_files && raw.filename is None {
        Some(all_files_msg())
    } else {
        None
    }
}

/// The cross-field rules every `CommitsArgs` source runs: `--review`'s
/// row-source refusal, `--pick-id` against `--no-cherry`, `--all` against
/// `--union`, the `--all` a lower bound implies, the `--message`/
/// `--filename` implications on `wrap`/`files`, and `--all-files`' need for
/// something to widen.
pub fn finalize_commits_args(mode: Mode, raw: RawCommitsArgs) -> (r: Result<CommitsArgs, String>)
    ensures
        finalize_error(mode, raw) matches Some(m) ==> (r matches Err(e) && e@ == m),
        finalize_error(mode, raw) is None ==> (r matches Ok(a) && {
            &&& a.limit == raw.limit
            &&& a.dates == raw.dates
            &&& a.commit_since == raw.commit_since
            &&& a.commit_until == raw.commit_until
            &&& a.commits == raw.commits
            &&& a.author == raw.author
            &&& a.message == raw.message
            &&& a.search == raw.search
            &&& a.filename == raw.filename
            &&& a.all_files == raw.all_files
            &&& a.topo == raw.topo
            &&& a.merges == raw.merges
            &&& a.fmt == raw.fmt
            &&& a.md == raw.md
            &&& a.reverse == raw.reverse
            &&& a.no_cherry == raw.no_cherry
            &&& a.pick == raw.pick
            &&& a.union == raw.union
            &&& a.all == (raw.all || ((raw.commits@.len() > 0 || raw.commit_since is Some
                || has_floor_date(raw.dates@)) && !raw.union))
            &&& a.files == (raw.files || raw.filename is Some)
            &&& a.squash == raw.squash
            &&& a.wrap == match raw.wrap {
                Some(w) => w,
                None => if raw.message is Some {
                    Wrap::Full
                } else {
                    Wrap::Lines(1)
                },
            }
            &&& a.subjectw == raw.subjectw
            &&& a.branchw == raw.branchw
            &&& a.pathw == raw.pathw
            &&& a.no_follow == raw.no_follow
        }),
{
    let review = matches!(mode, Mode::Review);
    if review && raw.all {
        return Err(refusal("--all"));
    }
    if review && raw.union {
        return Err(refusal("--union"));
    }
    if raw.pick && raw.no_cherry {
        return Err(
            string_of(
                chars_of(
                    "--pick-id needs the patch comparison that --no-cherry skips: drop one of them",
                ).as_slice(),
            ),
        );
    }
    if raw.all && raw.union {
        return Err(
            string_of(
                chars_of("--all and --union are two different row sources: use one of them").as_slice(),
            ),
        );
    }
    let floor = raw.commits.len() > 0 || raw.commit_since.is_some() || any_floor(&raw.dates);
    let all = raw.all || (floor && !raw.union);
    let wrap = match raw.wrap {
        Some(w) => w,
        None => if raw.message.is_some() {
            Wrap::Full
        } else {
            Wrap::Lines(1)
        },
    };
    let files = raw.files || raw.filename.is_some();
    if raw.all_files && raw.filename.is_none() {
        return Err(
            string_of(
                chars_of(
                    "--all-files needs a '--filename TERM' to widen: on its own the file block is already whole",
                ).as_slice(),
            ),
        );
    }
    Ok(CommitsArgs {
        limit: raw.limit,
        dates: raw.dates,
        commit_since: raw.commit_since,
        commit_until: raw.commit_until,
        commits: raw.commits,
        author: raw.author,
        message: raw.message,
        search: raw.search,
        filename: raw.filename,
        all_files: raw.all_files,
        topo: raw.topo,
        merges: raw.merges,
        fmt: raw.fmt,
        md: raw.md,
        reverse: raw.reverse,
        no_cherry: raw.no_cherry,
        pick: raw.pick,
        union: raw.union,
        all,
        files,
        squash: raw.squash,
        wrap,
        subjectw: raw.subjectw,
        branchw: raw.branchw,
        pathw: raw.pathw,
        no_follow: raw.no_follow,
    })
}

fn refusal(what: &str) -> (r: String)
    ensures
        r@ == review_refusal(what@),
{
    let mut m: Vec<char> = Vec::new();
    push_str(&mut m, "no '");
    push_str(&mut m, what);
    push_str(
        &mut m,
        "' under '--review': the rows are the range 'dest..src', which is the one source a review has",
    );
    string_of(m.as_slice())
}

fn any_floor(dates: &Vec<DateFilter>) -> (r: bool)
    ensures
        r == has_floor_date(dates@),
{
    let mut i: usize = 0;
    while i < dates.len()
        invariant
            i <= dates.len(),
            forall|j: int| 0 <= j < i ==> (#[trigger] dates@[j]).op == DateOp::Le,
        decreases dates.len() - i,
    {
        if !matches!(dates[i].op, DateOp::Le) {
            assert(dates@[i as int].op != DateOp::Le);
            return true;
        }
        i = i + 1;
    }
    false
}

/// The `--md` destination the shared flags fold to: a bare `--md` (an empty
/// value) is the timestamped default name.
pub open spec fn md_choice(md: Option<String>) -> Option<Option<String>> {
    match md {
        Some(s) => if s@.len() == 0 {
            Some(None)
        } else {
            Some(Some(s))
        },
        None => None,
    }
}

/// How many subject lines a row shows when `--wrap` was not given: the
/// whole subject under `--message`, one line otherwise.
pub open spec fn wrap_choice(wrap: Option<Wrap>, message: Option<String>) -> Wrap {
    match wrap {
        Some(w) => w,
        None => if message is Some {
            Wrap::Full
        } else {
            Wrap::Lines(1)
        },
    }
}

/// The full-log source a lower bound implies: a named commit, a commit
/// floor or a date floor reaches past the merge-request range, unless the
/// rows already come from every worktree.
pub open spec fn implied_all(c: CommonCommitsFlags, all: bool) -> bool {
    all || ((c.commits@.len() > 0 || c.commit_since is Some || has_floor_date(
        folded_dates(c.date@, c.date_since, c.date_until),
    )) && !c.union)
}

/// `a` carries every shared flag of `c` as `commits`, `log` and `review`
/// all read them.
pub open spec fn carries(c: CommonCommitsFlags, a: CommitsArgs) -> bool {
    &&& a.limit == c.limit
    &&& a.dates@ == folded_dates(c.date@, c.date_since, c.date_until)
    &&& a.commit_since == c.commit_since
    &&& a.commit_until == c.commit_until
    &&& a.commits == c.commits
    &&& a.author == c.author
    &&& a.message == c.message
    &&& a.search == c.search
    &&& a.topo == c.topo
    &&& a.fmt == (DateFmt { human: c.date_human, time: c.time })
    &&& a.md == md_choice(c.md)
    &&& a.reverse == c.reverse
    &&& a.no_cherry == c.no_cherry
    &&& a.pick == c.pick
    &&& a.union == c.union
    &&& a.squash == c.squash
    &&& a.wrap == wrap_choice(c.wrap, c.message)
    &&& a.subjectw == c.subjectw
    &&& a.branchw == c.branchw
}

/// The cross-field complaint owed, if any, in the order the rules run; the
/// same rules `finalize_error` states, over the flags they read.
pub open spec fn rule_error(
    mode: Mode,
    all: bool,
    union: bool,
    pick: bool,
    no_cherry: bool,
    all_files: bool,
    has_filename: bool,
) -> Option<Seq<char>> {
    if mode == Mode::Review && all {
        Some(review_refusal("--all"@))
    } else if mode == Mode::Review && union {
        Some(review_refusal("--union"@))
    } else if pick && no_cherry {
        Some(pick_msg())
    } else if all && union {
        Some(sources_msg())
    } else if all_files && !has_filename {
        Some(all_files_msg())
    } else {
        None
    }
}

/// `commits`' own flags, on top of the shared ones.
#[derive(Debug, Default)]
pub struct CommitsFlags {
    pub target: Option<String>,
    pub common: CommonCommitsFlags,
    pub all: bool,
    pub all_files: bool,
    pub filename: Option<String>,
}

impl CommitsFlags {
    /// The `commits` options these flags spell, or the rule they break.
    pub fn into_args(self) -> (r: Result<CommitsArgs, String>)
        ensures
            rule_error(
                Mode::Commits,
                self.all,
                self.common.union,
                self.common.pick,
                self.common.no_cherry,
                self.all_files,
                self.filename is Some,
            ) matches Some(m) ==> (r matches Err(e) && e@ == m),
            rule_error(
                Mode::Commits,
                self.all,
                self.common.union,
                self.common.pick,
                self.common.no_cherry,
                self.all_files,
                self.filename is Some,
            ) is None ==> (r matches Ok(a) && {
                &&& carries(self.common, a)
                &&& a.merges == self.common.merges
                &&& a.all == implied_all(self.common, self.all)
                &&& a.all_files == self.all_files
                &&& a.filename == self.filename
                &&& a.files == (self.common.files || self.filename is Some)
                &&& a.pathw is None
                &&& !a.no_follow
            }),
    {
        let ghost c = self.common;
        let mut raw = self.common.into_raw();
        raw.all = self.all;
        raw.all_files = self.all_files;
        raw.filename = self.filename;
        let r = finalize_commits_args(Mode::Commits, raw);
        proof {
            assert(md_choice(c.md) == raw.md);
        }
        r
    }
}

/// `log`'s own flags, on top of the shared ones. `leading` is the run of
/// words before the first flag: an optional target, then paths.
#[derive(Debug, Default)]
pub struct LogFlags {
    pub leading: Vec<String>,
    pub common: CommonCommitsFlags,
    pub no_follow: bool,
    pub pathw: Option<PathWidth>,
}

impl LogFlags {
    /// The `log` options these flags spell, or the rule they break.
    pub fn into_args(self) -> (r: Result<CommitsArgs, String>)
        ensures
            rule_error(
                Mode::Log,
                false,
                self.common.union,
                self.common.pick,
                self.common.no_cherry,
                false,
                false,
            ) matches Some(m) ==> (r matches Err(e) && e@ == m),
            rule_error(
                Mode::Log,
                false,
                self.common.union,
                self.common.pick,
                self.common.no_cherry,
                false,
                false,
            ) is None ==> (r matches Ok(a) && {
                &&& carries(self.common, a)
                &&& a.merges == self.common.merges
                &&& a.all == implied_all(self.common, false)
                &&& !a.all_files
                &&& a.filename is None
                &&& a.files == self.common.files
                &&& a.pathw == self.pathw
                &&& a.no_follow == self.no_follow
            }),
    {
        let ghost c = self.common;
        let mut raw = self.common.into_raw();
        raw.no_follow = self.no_follow;
        raw.pathw = self.pathw;
        let r = finalize_commits_args(Mode::Log, raw);
        proof {
            assert(md_choice(c.md) == raw.md);
        }
        r
    }
}

/// `merge --review`'s flags: the shared ones, plus the words only a review
/// knows. Merges are kept unless `--no-merges` drops them.
#[derive(Debug, Default)]
pub struct ReviewFlags {
    pub common: CommonCommitsFlags,
    pub no_merges: bool,
    pub all: bool,
    pub all_files: bool,
    pub filename: Option<String>,
}

impl ReviewFlags {
    /// The review options these flags spell, or the rule they break.
    pub fn into_args(self) -> (r: Result<CommitsArgs, String>)
        ensures
            rule_error(
                Mode::Review,
                self.all,
                self.common.union,
                self.common.pick,
                self.common.no_cherry,
                self.all_files,
                self.filename is Some,
            ) matches Some(m) ==> (r matches Err(e) && e@ == m),
            rule_error(
                Mode::Review,
                self.all,
                self.common.union,
                self.common.pick,
                self.common.no_cherry,
                self.all_files,
                self.filename is Some,
            ) is None ==> (r matches Ok(a) && {
                &&& carries(self.common, a)
                &&& a.merges == !self.no_merges
                &&& a.all == implied_all(self.common, self.all)
                &&& a.all_files == self.all_files
                &&& a.filename == self.filename
                &&& a.files == (self.common.files || self.filename is Some)
                &&& a.pathw is None
                &&& !a.no_follow
            }),
    {
        let ghost c = self.common;
        let mut raw = self.common.into_raw();
        raw.merges = !self.no_merges;
        raw.all = self.all;
        raw.all_files = self.all_files;
        raw.filename = self.filename;
        let r = finalize_commits_args(Mode::Review, raw);
        proof {
            assert(md_choice(c.md) == raw.md);
        }
        r
    }
}

// ---------------------------------------------------------------------------
// Values
// ---------------------------------------------------------------------------

/// What a width flag's value reads as: `Ok(None)` for 'full'/'all' (any
/// case), `Ok(Some(n))` for a count at or above `floor`, or the complaint.
pub open spec fn width_spec(
    v: Seq<char>,
    floor: usize,
    flag: Seq<char>,
    noun: Seq<char>,
    hint: Seq<char>,
    bad: Seq<char>,
) -> Result<Option<usize>, Seq<char>> {
    if eq_ignore_case_spec(v, "full"@) || eq_ignore_case_spec(v, "all"@) {
        Ok(None)
    } else {
        match parse_usize_spec(v) {
            Some(n) => if n >= floor {
                Ok(Some(n))
            } else if n > 0 {
                Err(flag + " needs "@ + decimal(floor as nat) + " columns or more: below that, a cut "@
                    + noun + " says nothing"@ + hint + "\n  got: '"@ + decimal(n as nat) + "'"@)
            } else {
                Err(bad + "\n  got: '"@ + v + "'"@)
            },
            None => Err(bad + "\n  got: '"@ + v + "'"@),
        }
    }
}

/// `v` is 'full' or 'all', in any case.
pub fn is_full_word(v: &[char]) -> (r: bool)
    ensures
        r == (eq_ignore_case_spec(v@, "full"@) || eq_ignore_case_spec(v@, "all"@)),
{
    let full = chars_of("full");
    let all = chars_of("all");
    eq_ignore_ascii_case(v, full.as_slice()) || eq_ignore_ascii_case(v, all.as_slice())
}

/// Read a width flag's value; see `width_spec`.
pub fn parse_width(v: &str, floor: usize, flag: &str, noun: &str, hint: &str, bad: &str) -> (r:
    Result<Option<usize>, String>)
    ensures
        r matches Ok(w) ==> width_spec(v@, floor, flag@, noun@, hint@, bad@) == Ok::<
            Option<usize>,
            Seq<char>,
        >(w),
        r matches Err(e) ==> width_spec(v@, floor, flag@, noun@, hint@, bad@) == Err::<
            Option<usize>,
            Seq<char>,
        >(e@),
{
    let vc = chars_of(v);
    if is_full_word(vc.as_slice()) {
        return Ok(None);
    }
    match parse_usize(vc.as_slice()) {
        Some(n) => {
            if n >= floor {
                return Ok(Some(n));
            }
            if n > 0 {
                let mut m: Vec<char> = Vec::new();
                push_str(&mut m, flag);
                push_str(&mut m, " needs ");
                push_all(&mut m, decimal_of(floor).as_slice());
                push_str(&mut m, " columns or more: below that, a cut ");
                push_str(&mut m, noun);
                push_str(&mut m, " says nothing");
                push_str(&mut m, hint);
                push_str(&mut m, "\n  got: '");
                push_all(&mut m, decimal_of(n).as_slice());
                push_str(&mut m, "'");
                return Err(string_of(m.as_slice()));
            }
        },
        None => {},
    }
    let mut m: Vec<char> = Vec::new();
    push_str(&mut m, bad);
    push_str(&mut m, "\n  got: '");
    push_all(&mut m, vc.as_slice());
    push_str(&mut m, "'");
    Err(string_of(m.as_slice()))
}

pub open spec fn subjw_bad() -> Seq<char> {
    "--subject-width needs a column count, or 'full', e.g. '--subject-width 80'"@
}

/// Read `--subject-width`'s value: a column count, or 'full' for no cut.
pub fn parse_subjectw(v: &str) -> (r: Result<SubjectWidth, String>)
    ensures
        match width_spec(v@, MIN_TEXTW, "--subject-width"@, "subject"@, ""@, subjw_bad()) {
            Ok(None) => r == Ok::<SubjectWidth, String>(SubjectWidth::Full),
            Ok(Some(n)) => r == Ok::<SubjectWidth, String>(SubjectWidth::Cols(n)),
            Err(e) => r matches Err(x) && x@ == e,
        },
{
    match parse_width(
        v,
        MIN_TEXTW,
        "--subject-width",
        "subject",
        "",
        "--subject-width needs a column count, or 'full', e.g. '--subject-width 80'",
    ) {
        Ok(None) => Ok(SubjectWidth::Full),
        Ok(Some(n)) => Ok(SubjectWidth::Cols(n)),
        Err(e) => Err(e),
    }
}

pub open spec fn branchw_bad() -> Seq<char> {
    "--branch-width needs a column count, or 'full', e.g. '--branch-width 20'"@
}

/// Read `--branch-width`'s value: a column count, or 'full' for no cut.
pub fn parse_branchw(v: &str) -> (r: Result<BranchWidth, String>)
    ensures
        match width_spec(v@, BRANCH_MIN, "--branch-width"@, "name"@, ""@, branchw_bad()) {
            Ok(None) => r == Ok::<BranchWidth, String>(BranchWidth::Full),
            Ok(Some(n)) => r == Ok::<BranchWidth, String>(BranchWidth::Cols(n)),
            Err(e) => r matches Err(x) && x@ == e,
        },
{
    match parse_width(
        v,
        BRANCH_MIN,
        "--branch-width",
        "name",
        "",
        "--branch-width needs a column count, or 'full', e.g. '--branch-width 20'",
    ) {
        Ok(None) => Ok(BranchWidth::Full),
        Ok(Some(n)) => Ok(BranchWidth::Cols(n)),
        Err(e) => Err(e),
    }
}

pub open spec fn pathw_bad() -> Seq<char> {
    "--path-width needs a column count, or 'full', e.g. '--path-width 60'"@
}

/// Read `--path-width`'s value: a column count, or 'full' for no cut.
pub fn parse_pathw(v: &str) -> (r: Result<PathWidth, String>)
    ensures
        match width_spec(v@, PATH_MIN, "--path-width"@, "path"@, ""@, pathw_bad()) {
            Ok(None) => r == Ok::<PathWidth, String>(PathWidth::Full),
            Ok(Some(n)) => r == Ok::<PathWidth, String>(PathWidth::Cols(n)),
            Err(e) => r matches Err(x) && x@ == e,
        },
{
    match parse_width(
        v,
        PATH_MIN,
        "--path-width",
        "path",
        "",
        "--path-width needs a column count, or 'full', e.g. '--path-width 60'",
    ) {
        Ok(None) => Ok(PathWidth::Full),
        Ok(Some(n)) => Ok(PathWidth::Cols(n)),
        Err(e) => Err(e),
    }
}

pub open spec fn wrap_bad() -> Seq<char> {
    "--wrap needs a line count of 1 or more, or 'full', e.g. '--wrap 2'"@
}

/// What a line-count value reads as: `Ok(None)` for 'full'/'all', a count
/// of one or more, or `bad` with the value echoed.
pub open spec fn wrap_spec(v: Seq<char>, bad: Seq<char>) -> Result<Option<usize>, Seq<char>> {
    if eq_ignore_case_spec(v, "full"@) || eq_ignore_case_spec(v, "all"@) {
        Ok(None)
    } else {
        match parse_usize_spec(v) {
            Some(n) => if n == 0 {
                Err(bad + "\n  got: '"@ + v + "'"@)
            } else {
                Ok(Some(n))
            },
            None => Err(bad + "\n  got: '"@ + v + "'"@),
        }
    }
}

/// Read a line-count value; see `wrap_spec`.
pub fn parse_line_count(v: &str, bad: &str) -> (r: Result<Option<usize>, String>)
    ensures
        r matches Ok(w) ==> wrap_spec(v@, bad@) == Ok::<Option<usize>, Seq<char>>(w),
        r matches Err(e) ==> wrap_spec(v@, bad@) == Err::<Option<usize>, Seq<char>>(e@),
{
    let vc = chars_of(v);
    if is_full_word(vc.as_slice()) {
        return Ok(None);
    }
    match parse_usize(vc.as_slice()) {
        Some(n) => {
            if n != 0 {
                return Ok(Some(n));
            }
        },
        None => {},
    }
    let mut m: Vec<char> = Vec::new();
    push_str(&mut m, bad);
    push_str(&mut m, "\n  got: '");
    push_all(&mut m, vc.as_slice());
    push_str(&mut m, "'");
    Err(string_of(m.as_slice()))
}

/// Read `--wrap`'s value: a line count, or 'full' for as many as it takes.
pub fn parse_wrap(v: &str) -> (r: Result<Wrap, String>)
    ensures
        match wrap_spec(v@, wrap_bad()) {
            Ok(None) => r == Ok::<Wrap, String>(Wrap::Full),
            Ok(Some(n)) => r == Ok::<Wrap, String>(Wrap::Lines(n)),
            Err(e) => r matches Err(x) && x@ == e,
        },
{
    match parse_line_count(v, "--wrap needs a line count of 1 or more, or 'full', e.g. '--wrap 2'") {
        Ok(None) => Ok(Wrap::Full),
        Ok(Some(n)) => Ok(Wrap::Lines(n)),
        Err(e) => Err(e),
    }
}

/// What `parse_limit` answers.
pub open spec fn limit_spec(s: Seq<char>) -> Result<usize, Seq<char>> {
    match parse_usize_spec(s) {
        Some(n) => if n == 0 {
            Err("-n 0 would show nothing"@)
        } else {
            Ok(n)
        },
        None => Err("bad count '"@ + s + "'; want a number, e.g. '-n 20'"@),
    }
}

/// Read `-n`'s value: a count of one or more.
pub fn parse_limit(s: &str) -> (r: Result<usize, String>)
    ensures
        r matches Ok(n) ==> limit_spec(s@) == Ok::<usize, Seq<char>>(n),
        r matches Err(e) ==> limit_spec(s@) == Err::<usize, Seq<char>>(e@),
{
    let sc = chars_of(s);
    match parse_usize(sc.as_slice()) {
        Some(n) => if n == 0 {
            Err(string_of(chars_of("-n 0 would show nothing").as_slice()))
        } else {
            Ok(n)
        },
        None => {
            let mut m: Vec<char> = Vec::new();
            push_str(&mut m, "bad count '");
            push_all(&mut m, sc.as_slice());
            push_str(&mut m, "'; want a number, e.g. '-n 20'");
            Err(string_of(m.as_slice()))
        },
    }
}

// ---------------------------------------------------------------------------
// Dates
// ---------------------------------------------------------------------------

/// The shape `YYYY-MM-DD`: ten characters, dashes at 4 and 7, digits
/// elsewhere.
pub open spec fn iso_shape(s: Seq<char>) -> bool {
    &&& s.len() == 10
    &&& s[4] == '-'
    &&& s[7] == '-'
    &&& forall|i: int| 0 <= i < 10 && i != 4 && i != 7 ==> is_digit(#[trigger] s[i])
}

pub open spec fn is_leap(y: nat) -> bool {
    y % 4 == 0 && (y % 100 != 0 || y % 400 == 0)
}

/// Days in month `m` of year `y`.
pub open spec fn month_days(y: nat, m: nat) -> nat {
    if m == 1 || m == 3 || m == 5 || m == 7 || m == 8 || m == 10 || m == 12 {
        31
    } else if m == 4 || m == 6 || m == 9 || m == 11 {
        30
    } else if is_leap(y) {
        29
    } else {
        28
    }
}

pub open spec fn bad_date_msg(s: Seq<char>) -> Seq<char> {
    if s.len() == 0 {
        "a date is missing; want YYYY-MM-DD"@
    } else {
        "bad date '"@ + s + "'; want YYYY-MM-DD, e.g. '2026-01-01'"@
    }
}

/// What `iso_date` answers: the date itself when it is a real calendar day
/// spelled `YYYY-MM-DD`.
pub open spec fn iso_date_spec(s: Seq<char>) -> Result<Seq<char>, Seq<char>> {
    if !iso_shape(s) {
        Err(bad_date_msg(s))
    } else {
        let y = digits_value(s.subrange(0, 4));
        let m = digits_value(s.subrange(5, 7));
        let d = digits_value(s.subrange(8, 10));
        if !(1 <= m <= 12) || !(1 <= d <= month_days(y, m)) {
            Err("no such date '"@ + s + "'"@)
        } else {
            Ok(s)
        }
    }
}

/// The value of a short run of digits.
pub(crate) fn digits_of(s: &[char], from: usize, to: usize) -> (r: u32)
    requires
        from <= to <= s.len(),
        to - from <= 4,
        all_digits(s@.subrange(from as int, to as int)),
    ensures
        r == digits_value(s@.subrange(from as int, to as int)),
{
    let mut v: u32 = 0;
    let mut i: usize = from;
    while i < to
        invariant
            from <= i <= to <= s.len(),
            to - from <= 4,
            all_digits(s@.subrange(from as int, to as int)),
            v == digits_value(s@.subrange(from as int, i as int)),
            v < pow10((i - from) as nat),
        decreases to - i,
    {
        let ghost sub = s@.subrange(from as int, (i + 1) as int);
        assert(sub.drop_last() =~= s@.subrange(from as int, i as int));
        assert(sub.last() == s@[i as int]);
        assert(is_digit(s@[i as int])) by {
            assert(s@.subrange(from as int, to as int)[i - from] == s@[i as int]);
        }
        let d = (s[i] as u32) - ('0' as u32);
        proof {
            lemma_pow10_small((i - from) as nat);
        }
        assert(v * 10 + d < pow10((i + 1 - from) as nat)) by {
            assert(pow10((i + 1 - from) as nat) == pow10((i - from) as nat) * 10);
        }
        v = v * 10 + d;
        i = i + 1;
    }
    v
}

proof fn lemma_pow10_small(k: nat)
    requires
        k <= 3,
    ensures
        pow10(k) <= 1000,
{
    reveal_with_fuel(pow10, 4);
}

spec fn pow10(n: nat) -> nat
    decreases n,
{
    if n == 0 {
        1
    } else {
        pow10((n - 1) as nat) * 10
    }
}

/// Validate a `YYYY-MM-DD` date, the only shape a text compare is sound
/// for, and a day the month actually has.
pub fn iso_date(s: &str) -> (r: Result<String, String>)
    ensures
        r matches Ok(x) ==> iso_date_spec(s@) == Ok::<Seq<char>, Seq<char>>(x@),
        r matches Err(e) ==> iso_date_spec(s@) == Err::<Seq<char>, Seq<char>>(e@),
{
    let sc = chars_of(s);
    if !iso_shaped(sc.as_slice()) {
        if sc.len() == 0 {
            return Err(string_of(chars_of("a date is missing; want YYYY-MM-DD").as_slice()));
        }
        let mut m: Vec<char> = Vec::new();
        push_str(&mut m, "bad date '");
        push_all(&mut m, sc.as_slice());
        push_str(&mut m, "'; want YYYY-MM-DD, e.g. '2026-01-01'");
        return Err(string_of(m.as_slice()));
    }
    proof {
        assert forall|i: int| 0 <= i < 4 implies is_digit(#[trigger] sc@.subrange(0, 4)[i]) by {
            assert(sc@.subrange(0, 4)[i] == sc@[i]);
        }
        assert forall|i: int| 0 <= i < 2 implies is_digit(#[trigger] sc@.subrange(5, 7)[i]) by {
            assert(sc@.subrange(5, 7)[i] == sc@[i + 5]);
        }
        assert forall|i: int| 0 <= i < 2 implies is_digit(#[trigger] sc@.subrange(8, 10)[i]) by {
            assert(sc@.subrange(8, 10)[i] == sc@[i + 8]);
        }
    }
    let y = digits_of(sc.as_slice(), 0, 4);
    let m = digits_of(sc.as_slice(), 5, 7);
    let d = digits_of(sc.as_slice(), 8, 10);
    let leap = y % 4 == 0 && (y % 100 != 0 || y % 400 == 0);
    let last: u32 = if m == 1 || m == 3 || m == 5 || m == 7 || m == 8 || m == 10 || m == 12 {
        31
    } else if m == 4 || m == 6 || m == 9 || m == 11 {
        30
    } else if leap {
        29
    } else {
        28
    };
    if !(1 <= m && m <= 12) || !(1 <= d && d <= last) {
        let mut msg: Vec<char> = Vec::new();
        push_str(&mut msg, "no such date '");
        push_all(&mut msg, sc.as_slice());
        push_str(&mut msg, "'");
        return Err(string_of(msg.as_slice()));
    }
    Ok(string_of(sc.as_slice()))
}

/// Whether `s` has the shape `YYYY-MM-DD`.
pub fn iso_shaped(s: &[char]) -> (r: bool)
    ensures
        r == iso_shape(s@),
{
    if s.len() != 10 || s[4] != '-' || s[7] != '-' {
        return false;
    }
    let mut i: usize = 0;
    while i < 10
        invariant
            i <= 10,
            s.len() == 10,
            forall|j: int| 0 <= j < i && j != 4 && j != 7 ==> is_digit(#[trigger] s@[j]),
        decreases 10 - i,
    {
        if i != 4 && i != 7 && !('0' <= s[i] && s[i] <= '9') {
            return false;
        }
        i = i + 1;
    }
    true
}

/// The complaint for an operator typed into `--date`'s value.
pub open spec fn operator_msg_spec(op: char, given: Seq<char>) -> Seq<char> {
    let bare = trim_spec(trim_start_set_spec(given, seq!['>', '<', '=']));
    let shown = if bare.len() == 0 {
        "2026-01-01"@
    } else {
        bare
    };
    "no '"@ + seq![op] + "' in --date; it takes one day, e.g. '--date "@ + shown + "'"@
}

/// A comparison in `--date`'s value names a bound that has its own flag.
pub fn operator_msg(op: char, given: &str) -> (r: String)
    ensures
        r@ == operator_msg_spec(op, given@),
{
    let g = chars_of(given);
    let set: Vec<char> = vec!['>', '<', '='];
    let stripped = trim_start_set(g.as_slice(), set.as_slice());
    let bare = trim(stripped.as_slice());
    let mut m: Vec<char> = Vec::new();
    push_str(&mut m, "no '");
    m.push(op);
    push_str(&mut m, "' in --date; it takes one day, e.g. '--date ");
    if bare.len() == 0 {
        push_str(&mut m, "2026-01-01");
    } else {
        push_all(&mut m, bare.as_slice());
    }
    push_str(&mut m, "'");
    assert(set@ =~= seq!['>', '<', '=']);
    string_of(m.as_slice())
}

/// What `parse_date_filter` answers: one exact day, never an operator.
pub open spec fn date_filter_spec(s: Seq<char>) -> Result<Seq<char>, Seq<char>> {
    let t = trim_spec(s);
    if t.len() > 0 && (t[0] == '>' || t[0] == '<' || t[0] == '=') {
        Err(operator_msg_spec(t[0], t))
    } else {
        iso_date_spec(t)
    }
}

/// Read `--date`'s value: one day, named plainly. The comparisons live in
/// `--date-since`/`--date-until`, which need no quoting.
pub fn parse_date_filter(s: &str) -> (r: Result<DateFilter, String>)
    ensures
        r matches Ok(f) ==> f.op == DateOp::Eq && date_filter_spec(s@) == Ok::<
            Seq<char>,
            Seq<char>,
        >(f.date@),
        r matches Err(e) ==> date_filter_spec(s@) == Err::<Seq<char>, Seq<char>>(e@),
{
    let sc = chars_of(s);
    let t = trim(sc.as_slice());
    let ts = string_of(t.as_slice());
    if t.len() > 0 && (t[0] == '>' || t[0] == '<' || t[0] == '=') {
        return Err(operator_msg(t[0], ts.as_str()));
    }
    match iso_date(ts.as_str()) {
        Ok(d) => Ok(DateFilter { op: DateOp::Eq, date: d }),
        Err(e) => Err(e),
    }
}

} // verus!
