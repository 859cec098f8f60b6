//! The words `commits`, `log` and `merge --review` are typed with, read
//! into their flags: long names (`--limit 5`, `--limit=5`, and the short
//! aliases such as `--cs`), bundles of short ones (`-af`, `-n5`), values
//! that may be left out (`--wrap`, `--md`), and the positionals each verb
//! takes. Each verb knows its own words and no others.

use vstd::prelude::*;

use crate::commits::args::{
    date_filter_spec, iso_date_spec, limit_spec, width_spec, wrap_spec, wrap_bad, subjw_bad, branchw_bad, pathw_bad,
    iso_date, parse_date_filter, parse_limit, parse_wrap, parse_subjectw, parse_branchw, parse_pathw,
    BranchWidth, CommitsFlags, CommonCommitsFlags, DateFilter, DateOp, LogFlags, Mode, PathWidth, ReviewFlags,
    SubjectWidth, Wrap,
};
use crate::style::{BRANCH_MIN, MIN_TEXTW, PATH_MIN};
use crate::text::{chars_of, is, push_str, slice_from, split, split_once, split_once_spec, split_spec, str_views, string_of, views};

verus! {

// ---------------------------------------------------------------------------
// The vocabulary
// ---------------------------------------------------------------------------

/// Every flag the three verbs know between them.
#[derive(Debug, Clone, Copy, PartialEq, Eq, Structural)]
pub enum Word {
    Branch,
    Target,
    Limit,
    Date,
    DateSince,
    DateUntil,
    CommitSince,
    CommitUntil,
    Commits,
    Author,
    Message,
    Search,
    Topo,
    Merges,
    Reverse,
    NoCherry,
    Pick,
    Files,
    Squash,
    Union,
    Time,
    DateHuman,
    Wrap,
    SubjectW,
    BranchW,
    Md,
    All,
    AllFiles,
    Filename,
    NoFollow,
    PathW,
    NoMerges,
}

/// How a flag takes its value: none, always one, or one that may be left
/// out.
#[derive(Debug, Clone, Copy, PartialEq, Eq, Structural)]
pub enum Arity {
    Switch,
    Value,
    Optional,
}

pub open spec fn arity_spec(w: Word) -> Arity {
    match w {
        Word::Branch | Word::Target | Word::Limit | Word::Date | Word::DateSince | Word::DateUntil
        | Word::CommitSince | Word::CommitUntil | Word::Commits | Word::Author | Word::Message | Word::Search
        | Word::SubjectW | Word::BranchW | Word::Filename | Word::PathW => Arity::Value,
        Word::Wrap | Word::Md => Arity::Optional,
        _ => Arity::Switch,
    }
}

/// How a flag takes its value.
pub fn arity(w: Word) -> (r: Arity)
    ensures
        r == arity_spec(w),
{
    match w {
        Word::Branch | Word::Target | Word::Limit | Word::Date | Word::DateSince | Word::DateUntil
        | Word::CommitSince | Word::CommitUntil | Word::Commits | Word::Author | Word::Message | Word::Search
        | Word::SubjectW | Word::BranchW | Word::Filename | Word::PathW => Arity::Value,
        Word::Wrap | Word::Md => Arity::Optional,
        _ => Arity::Switch,
    }
}

/// A flag's long name, as messages spell it.
pub open spec fn long_name_spec(w: Word) -> Seq<char> {
    match w {
        Word::Branch => "branch"@,
        Word::Target => "target"@,
        Word::Limit => "limit"@,
        Word::Date => "date"@,
        Word::DateSince => "date-since"@,
        Word::DateUntil => "date-until"@,
        Word::CommitSince => "commit-since"@,
        Word::CommitUntil => "commit-until"@,
        Word::Commits => "commits"@,
        Word::Author => "author"@,
        Word::Message => "message"@,
        Word::Search => "search"@,
        Word::Topo => "topo"@,
        Word::Merges => "merges"@,
        Word::Reverse => "reverse"@,
        Word::NoCherry => "no-cherry"@,
        Word::Pick => "pick-id"@,
        Word::Files => "files"@,
        Word::Squash => "squash"@,
        Word::Union => "union"@,
        Word::Time => "time"@,
        Word::DateHuman => "date-human"@,
        Word::Wrap => "wrap"@,
        Word::SubjectW => "subject-width"@,
        Word::BranchW => "branch-width"@,
        Word::Md => "md"@,
        Word::All => "all"@,
        Word::AllFiles => "all-files"@,
        Word::Filename => "filename"@,
        Word::NoFollow => "no-follow"@,
        Word::PathW => "path-width"@,
        Word::NoMerges => "no-merges"@,
    }
}

/// A flag's long name.
pub fn long_name(w: Word) -> (r: &'static str)
    ensures
        r@ == long_name_spec(w),
{
    proof {
        reveal_strlit("branch");
        reveal_strlit("target");
        reveal_strlit("limit");
        reveal_strlit("date");
        reveal_strlit("date-since");
        reveal_strlit("date-until");
        reveal_strlit("commit-since");
        reveal_strlit("commit-until");
        reveal_strlit("commits");
        reveal_strlit("author");
        reveal_strlit("message");
        reveal_strlit("search");
        reveal_strlit("topo");
        reveal_strlit("merges");
        reveal_strlit("reverse");
        reveal_strlit("no-cherry");
        reveal_strlit("pick-id");
        reveal_strlit("files");
        reveal_strlit("squash");
        reveal_strlit("union");
        reveal_strlit("time");
        reveal_strlit("date-human");
        reveal_strlit("wrap");
        reveal_strlit("subject-width");
        reveal_strlit("branch-width");
        reveal_strlit("md");
        reveal_strlit("all");
        reveal_strlit("all-files");
        reveal_strlit("filename");
        reveal_strlit("no-follow");
        reveal_strlit("path-width");
        reveal_strlit("no-merges");
    }
    match w {
        Word::Branch => "branch",
        Word::Target => "target",
        Word::Limit => "limit",
        Word::Date => "date",
        Word::DateSince => "date-since",
        Word::DateUntil => "date-until",
        Word::CommitSince => "commit-since",
        Word::CommitUntil => "commit-until",
        Word::Commits => "commits",
        Word::Author => "author",
        Word::Message => "message",
        Word::Search => "search",
        Word::Topo => "topo",
        Word::Merges => "merges",
        Word::Reverse => "reverse",
        Word::NoCherry => "no-cherry",
        Word::Pick => "pick-id",
        Word::Files => "files",
        Word::Squash => "squash",
        Word::Union => "union",
        Word::Time => "time",
        Word::DateHuman => "date-human",
        Word::Wrap => "wrap",
        Word::SubjectW => "subject-width",
        Word::BranchW => "branch-width",
        Word::Md => "md",
        Word::All => "all",
        Word::AllFiles => "all-files",
        Word::Filename => "filename",
        Word::NoFollow => "no-follow",
        Word::PathW => "path-width",
        Word::NoMerges => "no-merges",
    }
}

/// The name a flag's value goes by in messages.
pub open spec fn value_name_spec(w: Word) -> Seq<char> {
    match w {
        Word::Branch => "TARGET_LIST"@,
        Word::Target => "TARGET_LIST"@,
        Word::Limit => "N"@,
        Word::Date => "DATE"@,
        Word::DateSince => "DATE"@,
        Word::DateUntil => "DATE"@,
        Word::CommitSince => "COMMIT"@,
        Word::CommitUntil => "COMMIT"@,
        Word::Commits => "IDS"@,
        Word::Author => "NAME"@,
        Word::Message => "TERM"@,
        Word::Search => "TERM"@,
        Word::Wrap => "N"@,
        Word::SubjectW => "COLS"@,
        Word::BranchW => "COLS"@,
        Word::Md => "PATH"@,
        Word::Filename => "TERM"@,
        Word::PathW => "COLS"@,
        _ => Seq::empty(),
    }
}

/// A flag as messages show it: its long name, then its value's name,
/// bracketed when the value may be left out.
pub open spec fn display_spec(w: Word) -> Seq<char> {
    "--"@ + long_name_spec(w) + match arity_spec(w) {
        Arity::Switch => Seq::empty(),
        Arity::Value => " <"@ + value_name_spec(w) + ">"@,
        Arity::Optional => " [<"@ + value_name_spec(w) + ">]"@,
    }
}

fn value_name(w: Word) -> (r: &'static str)
    ensures
        arity_spec(w) != Arity::Switch ==> r@ == value_name_spec(w),
{
    proof {
        reveal_strlit("COLS");
        reveal_strlit("COMMIT");
        reveal_strlit("DATE");
        reveal_strlit("IDS");
        reveal_strlit("N");
        reveal_strlit("NAME");
        reveal_strlit("PATH");
        reveal_strlit("TARGET_LIST");
        reveal_strlit("TERM");
        reveal_strlit("");
    }
    match w {
        Word::Branch => "TARGET_LIST",
        Word::Target => "TARGET_LIST",
        Word::Limit => "N",
        Word::Date => "DATE",
        Word::DateSince => "DATE",
        Word::DateUntil => "DATE",
        Word::CommitSince => "COMMIT",
        Word::CommitUntil => "COMMIT",
        Word::Commits => "IDS",
        Word::Author => "NAME",
        Word::Message => "TERM",
        Word::Search => "TERM",
        Word::Wrap => "N",
        Word::SubjectW => "COLS",
        Word::BranchW => "COLS",
        Word::Md => "PATH",
        Word::Filename => "TERM",
        Word::PathW => "COLS",
        _ => "",
    }
}

/// A flag as messages show it: see `display_spec`.
fn display(w: Word) -> (r: Vec<char>)
    ensures
        r@ == display_spec(w),
{
    let mut m = chars_of("--");
    push_str(&mut m, long_name(w));
    match arity(w) {
        Arity::Switch => {},
        Arity::Value => {
            push_str(&mut m, " <");
            push_str(&mut m, value_name(w));
            push_str(&mut m, ">");
        },
        Arity::Optional => {
            push_str(&mut m, " [<");
            push_str(&mut m, value_name(w));
            push_str(&mut m, ">]");
        },
    }
    m
}

/// Whether `mode` knows the flag: the shared ones everywhere; `--all`,
/// `--all-files` and `--filename` for `commits` and the review (which
/// refuses them by name); `--no-follow` and `--path-width` for `log`;
/// `--no-merges` for the review.
pub open spec fn known_spec(mode: Mode, w: Word) -> bool {
    match w {
        Word::All | Word::AllFiles | Word::Filename => mode != Mode::Log,
        Word::NoFollow | Word::PathW => mode == Mode::Log,
        Word::NoMerges => mode == Mode::Review,
        _ => true,
    }
}

/// Whether `mode` knows the flag.
pub fn known(mode: Mode, w: Word) -> (r: bool)
    ensures
        r == known_spec(mode, w),
{
    match w {
        Word::All | Word::AllFiles | Word::Filename => mode != Mode::Log,
        Word::NoFollow | Word::PathW => mode == Mode::Log,
        Word::NoMerges => mode == Mode::Review,
        _ => true,
    }
}

/// The flag a long name (or one of its aliases) names, whatever the verb.
pub open spec fn any_long_spec(n: Seq<char>) -> Option<Word> {
    if n == "branch"@ {
        Some(Word::Branch)
    } else if n == "target"@ {
        Some(Word::Target)
    } else if n == "limit"@ {
        Some(Word::Limit)
    } else if n == "date"@ {
        Some(Word::Date)
    } else if n == "date-since"@ || n == "ds"@ {
        Some(Word::DateSince)
    } else if n == "date-until"@ || n == "du"@ {
        Some(Word::DateUntil)
    } else if n == "commit-since"@ || n == "cs"@ {
        Some(Word::CommitSince)
    } else if n == "commit-until"@ || n == "cu"@ {
        Some(Word::CommitUntil)
    } else if n == "commits"@ {
        Some(Word::Commits)
    } else if n == "author"@ || n == "au"@ {
        Some(Word::Author)
    } else if n == "message"@ {
        Some(Word::Message)
    } else if n == "search"@ {
        Some(Word::Search)
    } else if n == "topo"@ || n == "topo-order"@ {
        Some(Word::Topo)
    } else if n == "merges"@ {
        Some(Word::Merges)
    } else if n == "reverse"@ || n == "oldest-first"@ {
        Some(Word::Reverse)
    } else if n == "no-cherry"@ || n == "nc"@ {
        Some(Word::NoCherry)
    } else if n == "pick-id"@ || n == "pi"@ {
        Some(Word::Pick)
    } else if n == "files"@ {
        Some(Word::Files)
    } else if n == "squash"@ {
        Some(Word::Squash)
    } else if n == "union"@ {
        Some(Word::Union)
    } else if n == "time"@ {
        Some(Word::Time)
    } else if n == "date-human"@ || n == "dh"@ {
        Some(Word::DateHuman)
    } else if n == "wrap"@ {
        Some(Word::Wrap)
    } else if n == "subject-width"@ || n == "subjw"@ {
        Some(Word::SubjectW)
    } else if n == "branch-width"@ || n == "branchw"@ {
        Some(Word::BranchW)
    } else if n == "md"@ {
        Some(Word::Md)
    } else if n == "all"@ {
        Some(Word::All)
    } else if n == "all-files"@ || n == "af"@ {
        Some(Word::AllFiles)
    } else if n == "filename"@ || n == "fn"@ {
        Some(Word::Filename)
    } else if n == "no-follow"@ {
        Some(Word::NoFollow)
    } else if n == "path-width"@ || n == "pathw"@ {
        Some(Word::PathW)
    } else if n == "no-merges"@ {
        Some(Word::NoMerges)
    } else {
        None
    }
}

/// The flag a long name names for `mode`.
pub open spec fn long_spec(mode: Mode, n: Seq<char>) -> Option<Word> {
    match any_long_spec(n) {
        Some(w) => if known_spec(mode, w) {
            Some(w)
        } else {
            None
        },
        None => None,
    }
}

/// The flag a short letter names for `mode`.
pub open spec fn short_spec(mode: Mode, c: char) -> Option<Word> {
    if c == 'b' {
        Some(Word::Branch)
    } else if c == 't' {
        Some(Word::Target)
    } else if c == 'n' {
        Some(Word::Limit)
    } else if c == 'd' {
        Some(Word::Date)
    } else if c == 'c' {
        Some(Word::Commits)
    } else if c == 'm' {
        Some(Word::Message)
    } else if c == 'f' {
        Some(Word::Files)
    } else if c == 'w' {
        Some(Word::Wrap)
    } else if c == 'a' && mode != Mode::Log {
        Some(Word::All)
    } else {
        None
    }
}

fn any_long(n: &[char]) -> (r: Option<Word>)
    ensures
        r == any_long_spec(n@),
{
    if is(n, "branch") {
        Some(Word::Branch)
    } else if is(n, "target") {
        Some(Word::Target)
    } else if is(n, "limit") {
        Some(Word::Limit)
    } else if is(n, "date") {
        Some(Word::Date)
    } else if is(n, "date-since") || is(n, "ds") {
        Some(Word::DateSince)
    } else if is(n, "date-until") || is(n, "du") {
        Some(Word::DateUntil)
    } else if is(n, "commit-since") || is(n, "cs") {
        Some(Word::CommitSince)
    } else if is(n, "commit-until") || is(n, "cu") {
        Some(Word::CommitUntil)
    } else if is(n, "commits") {
        Some(Word::Commits)
    } else if is(n, "author") || is(n, "au") {
        Some(Word::Author)
    } else if is(n, "message") {
        Some(Word::Message)
    } else if is(n, "search") {
        Some(Word::Search)
    } else if is(n, "topo") || is(n, "topo-order") {
        Some(Word::Topo)
    } else if is(n, "merges") {
        Some(Word::Merges)
    } else if is(n, "reverse") || is(n, "oldest-first") {
        Some(Word::Reverse)
    } else if is(n, "no-cherry") || is(n, "nc") {
        Some(Word::NoCherry)
    } else if is(n, "pick-id") || is(n, "pi") {
        Some(Word::Pick)
    } else if is(n, "files") {
        Some(Word::Files)
    } else if is(n, "squash") {
        Some(Word::Squash)
    } else if is(n, "union") {
        Some(Word::Union)
    } else if is(n, "time") {
        Some(Word::Time)
    } else if is(n, "date-human") || is(n, "dh") {
        Some(Word::DateHuman)
    } else if is(n, "wrap") {
        Some(Word::Wrap)
    } else if is(n, "subject-width") || is(n, "subjw") {
        Some(Word::SubjectW)
    } else if is(n, "branch-width") || is(n, "branchw") {
        Some(Word::BranchW)
    } else if is(n, "md") {
        Some(Word::Md)
    } else if is(n, "all") {
        Some(Word::All)
    } else if is(n, "all-files") || is(n, "af") {
        Some(Word::AllFiles)
    } else if is(n, "filename") || is(n, "fn") {
        Some(Word::Filename)
    } else if is(n, "no-follow") {
        Some(Word::NoFollow)
    } else if is(n, "path-width") || is(n, "pathw") {
        Some(Word::PathW)
    } else if is(n, "no-merges") {
        Some(Word::NoMerges)
    } else {
        None
    }
}

/// The flag a long name names for `mode`: see `long_spec`.
pub fn long_word(mode: Mode, n: &[char]) -> (r: Option<Word>)
    ensures
        r == long_spec(mode, n@),
{
    match any_long(n) {
        Some(w) => if known(mode, w) {
            Some(w)
        } else {
            None
        },
        None => None,
    }
}

/// The flag a short letter names for `mode`: see `short_spec`.
pub fn short_word(mode: Mode, c: char) -> (r: Option<Word>)
    ensures
        r == short_spec(mode, c),
{
    if c == 'b' {
        Some(Word::Branch)
    } else if c == 't' {
        Some(Word::Target)
    } else if c == 'n' {
        Some(Word::Limit)
    } else if c == 'd' {
        Some(Word::Date)
    } else if c == 'c' {
        Some(Word::Commits)
    } else if c == 'm' {
        Some(Word::Message)
    } else if c == 'f' {
        Some(Word::Files)
    } else if c == 'w' {
        Some(Word::Wrap)
    } else if c == 'a' && mode != Mode::Log {
        Some(Word::All)
    } else {
        None
    }
}

// ---------------------------------------------------------------------------
// Words into tokens
// ---------------------------------------------------------------------------

/// One flag as typed, with its value when it took one; or a positional
/// word (`word` is `None`, `value` the word).
#[derive(Debug)]
pub struct Tok {
    pub word: Option<Word>,
    pub value: Option<String>,
}

pub open spec fn tok_views(v: Seq<Tok>) -> Seq<(Option<Word>, Option<Seq<char>>)> {
    v.map_values(|t: Tok| (t.word, crate::worktree::opt_view(t.value)))
}

/// A word that reads as a flag: a `-` and more.
pub open spec fn dashy(w: Seq<char>) -> bool {
    w.len() > 1 && w[0] == '-'
}

pub open spec fn unknown_msg(w: Seq<char>) -> Seq<char> {
    "unexpected argument '"@ + w + "' found"@
}

pub open spec fn missing_msg(w: Word) -> Seq<char> {
    "a value is required for '"@ + display_spec(w) + "' but none was supplied"@
}

pub open spec fn switch_value_msg(w: Word, v: Seq<char>) -> Seq<char> {
    "unexpected value '"@ + v + "' for '"@ + display_spec(w) + "' found; no more were expected"@
}

/// The flag `w` at word `i`, its value attached (`--x=v`, `-xv`) or not:
/// a value flag takes the next word unless it reads as a flag; a flag
/// whose value may be left out takes it on the same terms and goes
/// without otherwise. The token, and where reading goes on.
pub open spec fn take_value(
    w: Word,
    attached: Option<Seq<char>>,
    ws: Seq<Seq<char>>,
    i: int,
) -> Result<((Option<Word>, Option<Seq<char>>), int), Seq<char>> {
    match attached {
        Some(v) => Ok(((Some(w), Some(v)), i + 1)),
        None => if i + 1 < ws.len() && !dashy(ws[i + 1]) {
            Ok(((Some(w), Some(ws[i + 1])), i + 2))
        } else if arity_spec(w) == Arity::Optional {
            Ok(((Some(w), None), i + 1))
        } else {
            Err(missing_msg(w))
        },
    }
}

/// A bundle of short flags in word `i`, from its `j`th character: switches
/// one after another, until a flag that takes a value, which takes the
/// rest of the word (past an `=`) or, when that is empty, as
/// `take_value` says.
pub open spec fn cluster(mode: Mode, ws: Seq<Seq<char>>, i: int, j: int) -> Result<
    (Seq<(Option<Word>, Option<Seq<char>>)>, int),
    Seq<char>,
>
    decreases ws[i].len() - j,
{
    let w = ws[i];
    if j < 0 || j >= w.len() {
        Ok((Seq::empty(), i + 1))
    } else {
        match short_spec(mode, w[j]) {
            None => Err(unknown_msg(seq!['-', w[j]])),
            Some(id) => if arity_spec(id) == Arity::Switch {
                match cluster(mode, ws, i, j + 1) {
                    Ok((t, n)) => Ok((seq![(Some(id), None::<Seq<char>>)] + t, n)),
                    Err(e) => Err(e),
                }
            } else {
                let att = if j + 1 < w.len() {
                    Some(strip_eq(w.skip(j + 1)))
                } else {
                    None
                };
                match take_value(id, att, ws, i) {
                    Ok((t, n)) => Ok((seq![t], n)),
                    Err(e) => Err(e),
                }
            },
        }
    }
}

/// A short flag's attached value without the `=` that may lead it.
pub open spec fn strip_eq(v: Seq<char>) -> Seq<char> {
    if v.len() > 0 && v[0] == '=' {
        v.skip(1)
    } else {
        v
    }
}

/// A long flag at word `i` (past its `--`): its name up to an `=`, the
/// rest its value.
pub open spec fn long_step(mode: Mode, ws: Seq<Seq<char>>, i: int) -> Result<
    (Seq<(Option<Word>, Option<Seq<char>>)>, int),
    Seq<char>,
> {
    let body = ws[i].skip(2);
    let (name, att) = match split_once_spec(body, '=') {
        Some((n, v)) => (n, Some(v)),
        None => (body, None),
    };
    match long_spec(mode, name) {
        None => Err(unknown_msg(ws[i])),
        Some(id) => if arity_spec(id) == Arity::Switch {
            if att is Some {
                Err(switch_value_msg(id, att->0))
            } else {
                Ok((seq![(Some(id), None::<Seq<char>>)], i + 1))
            }
        } else {
            match take_value(id, att, ws, i) {
                Ok((t, n)) => Ok((seq![t], n)),
                Err(e) => Err(e),
            }
        },
    }
}

/// What word `i` reads as: a long flag, a bundle of short ones, or a
/// positional.
pub open spec fn step_spec(mode: Mode, ws: Seq<Seq<char>>, i: int) -> Result<
    (Seq<(Option<Word>, Option<Seq<char>>)>, int),
    Seq<char>,
> {
    let w = ws[i];
    if w.len() > 2 && w[0] == '-' && w[1] == '-' {
        long_step(mode, ws, i)
    } else if dashy(w) && w != "--"@ {
        cluster(mode, ws, i, 1)
    } else {
        Ok((seq![(None::<Word>, Some(w))], i + 1))
    }
}

/// Positional tokens for every word.
pub open spec fn positionals(ws: Seq<Seq<char>>) -> Seq<(Option<Word>, Option<Seq<char>>)> {
    ws.map_values(|w: Seq<char>| (None::<Word>, Some(w)))
}

/// The tokens of the words from `i` on: after a bare `--` every word is a
/// positional.
pub open spec fn toks_from(mode: Mode, ws: Seq<Seq<char>>, i: int) -> Result<
    Seq<(Option<Word>, Option<Seq<char>>)>,
    Seq<char>,
>
    decreases ws.len() - i,
{
    if i < 0 || i >= ws.len() {
        Ok(Seq::empty())
    } else if ws[i] == "--"@ {
        Ok(positionals(ws.skip(i + 1)))
    } else {
        match step_spec(mode, ws, i) {
            Err(e) => Err(e),
            Ok((t, n)) => if i < n <= ws.len() {
                match toks_from(mode, ws, n) {
                    Ok(u) => Ok(t + u),
                    Err(e) => Err(e),
                }
            } else {
                Err(Seq::empty())
            },
        }
    }
}

pub open spec fn opt_chars(o: Option<Vec<char>>) -> Option<Seq<char>> {
    match o {
        Some(v) => Some(v@),
        None => None,
    }
}

/// `acc` ahead of whatever tokens `r` holds.
pub open spec fn prefixed(
    acc: Seq<(Option<Word>, Option<Seq<char>>)>,
    r: Result<(Seq<(Option<Word>, Option<Seq<char>>)>, int), Seq<char>>,
) -> Result<(Seq<(Option<Word>, Option<Seq<char>>)>, int), Seq<char>> {
    match r {
        Ok((t, n)) => Ok((acc + t, n)),
        Err(e) => Err(e),
    }
}

/// `r` as the tokens read so far and where reading goes on.
pub open spec fn read_as(
    r: Result<(Vec<Tok>, usize), String>,
    s: Result<(Seq<(Option<Word>, Option<Seq<char>>)>, int), Seq<char>>,
) -> bool {
    match s {
        Ok((t, n)) => r matches Ok((v, m)) && tok_views(v@) == t && m as int == n,
        Err(e) => r matches Err(x) && x@ == e,
    }
}

fn flag_msg(head: &str, w: Word, tail: &str) -> (r: String)
    ensures
        r@ == head@ + display_spec(w) + tail@,
{
    let mut m = chars_of(head);
    crate::text::push_all(&mut m, display(w).as_slice());
    push_str(&mut m, tail);
    string_of(m.as_slice())
}

fn unknown(w: &[char]) -> (r: String)
    ensures
        r@ == unknown_msg(w@),
{
    let mut m = chars_of("unexpected argument '");
    crate::text::push_all(&mut m, w);
    push_str(&mut m, "' found");
    string_of(m.as_slice())
}

fn take_value_exec(w: Word, attached: Option<Vec<char>>, ws: &[String], i: usize) -> (r: Result<
    (Tok, usize),
    String,
>)
    requires
        i < ws.len(),
    ensures
        match take_value(w, opt_chars(attached), str_views(ws@), i as int) {
            Ok((t, n)) => r matches Ok((x, m)) && (x.word, crate::worktree::opt_view(x.value)) == t && m as int == n,
            Err(e) => r matches Err(x) && x@ == e,
        },
{
    match attached {
        Some(v) => Ok((Tok { word: Some(w), value: Some(string_of(v.as_slice())) }, i + 1)),
        None => {
            if i + 1 < ws.len() {
                let next = chars_of(ws[i + 1].as_str());
                assert(str_views(ws@)[i + 1] == next@);
                if !(next.len() > 1 && next[0] == '-') {
                    return Ok((Tok { word: Some(w), value: Some(ws[i + 1].clone()) }, i + 2));
                }
            }
            if arity(w) == Arity::Optional {
                Ok((Tok { word: Some(w), value: None }, i + 1))
            } else {
                Err(flag_msg("a value is required for '", w, "' but none was supplied"))
            }
        },
    }
}

fn strip_eq_exec(v: Vec<char>) -> (r: Vec<char>)
    ensures
        r@ == strip_eq(v@),
{
    if v.len() > 0 && v[0] == '=' {
        slice_from(v.as_slice(), 1)
    } else {
        v
    }
}

fn cluster_exec(mode: Mode, ws: &[String], i: usize) -> (r: Result<(Vec<Tok>, usize), String>)
    requires
        i < ws.len(),
        dashy(str_views(ws@)[i as int]),
    ensures
        read_as(r, cluster(mode, str_views(ws@), i as int, 1)),
{
    let ghost wsv = str_views(ws@);
    let w = chars_of(ws[i].as_str());
    assert(wsv[i as int] == w@);
    let mut acc: Vec<Tok> = Vec::new();
    let mut j: usize = 1;
    assert(tok_views(acc@) =~= Seq::<(Option<Word>, Option<Seq<char>>)>::empty());
    assert(prefixed(tok_views(acc@), cluster(mode, wsv, i as int, 1)) =~= cluster(mode, wsv, i as int, 1)) by {
        match cluster(mode, wsv, i as int, 1) {
            Ok((t, n)) => {
                assert(tok_views(acc@) + t =~= t);
            },
            Err(_) => {},
        }
    }
    while j < w.len()
        invariant
            i < ws.len(),
            wsv == str_views(ws@),
            wsv[i as int] == w@,
            1 <= j <= w.len(),
            cluster(mode, wsv, i as int, 1) == prefixed(tok_views(acc@), cluster(mode, wsv, i as int, j as int)),
        decreases w.len() - j,
    {
        let c = w[j];
        match short_word(mode, c) {
            None => {
                let mut u: Vec<char> = Vec::new();
                u.push('-');
                u.push(c);
                assert(u@ =~= seq!['-', c]);
                return Err(unknown(u.as_slice()));
            },
            Some(id) => {
                if arity(id) == Arity::Switch {
                    let ghost before = tok_views(acc@);
                    acc.push(Tok { word: Some(id), value: None });
                    assert(tok_views(acc@) =~= before.push((Some(id), None::<Seq<char>>)));
                    proof {
                        match cluster(mode, wsv, i as int, j + 1) {
                            Ok((t, n)) => {
                                assert(before + (seq![(Some(id), None::<Seq<char>>)] + t) =~= tok_views(acc@) + t);
                            },
                            Err(_) => {},
                        }
                    }
                    j = j + 1;
                } else {
                    let att = if j + 1 < w.len() {
                        Some(strip_eq_exec(slice_from(w.as_slice(), j + 1)))
                    } else {
                        None
                    };
                    assert(opt_chars(att) == (if j + 1 < w@.len() {
                        Some(strip_eq(w@.skip(j + 1)))
                    } else {
                        None
                    }));
                    match take_value_exec(id, att, ws, i) {
                        Ok((t, n)) => {
                            let ghost before = tok_views(acc@);
                            let ghost tv = (t.word, crate::worktree::opt_view(t.value));
                            acc.push(t);
                            assert(tok_views(acc@) =~= before + seq![tv]);
                            return Ok((acc, n));
                        },
                        Err(e) => {
                            return Err(e);
                        },
                    }
                }
            },
        }
    }
    Ok((acc, i + 1))
}

fn long_exec(mode: Mode, ws: &[String], i: usize) -> (r: Result<(Vec<Tok>, usize), String>)
    requires
        i < ws.len(),
        str_views(ws@)[i as int].len() >= 2,
    ensures
        read_as(r, long_step(mode, str_views(ws@), i as int)),
{
    let ghost wsv = str_views(ws@);
    let w = chars_of(ws[i].as_str());
    assert(wsv[i as int] == w@);
    let body = slice_from(w.as_slice(), 2);
    let (name, att) = match split_once(body.as_slice(), '=') {
        Some((n, v)) => (n, Some(v)),
        None => (body, None),
    };
    assert(opt_chars(att) == (match split_once_spec(w@.skip(2), '=') {
        Some((n, v)) => Some(v),
        None => None::<Seq<char>>,
    }));
    match long_word(mode, name.as_slice()) {
        None => Err(unknown(w.as_slice())),
        Some(id) => if arity(id) == Arity::Switch {
            if let Some(v) = &att {
                let mut m = chars_of("unexpected value '");
                crate::text::push_all(&mut m, v.as_slice());
                push_str(&mut m, "' for '");
                crate::text::push_all(&mut m, display(id).as_slice());
                push_str(&mut m, "' found; no more were expected");
                Err(string_of(m.as_slice()))
            } else {
                let mut v: Vec<Tok> = Vec::new();
                v.push(Tok { word: Some(id), value: None });
                assert(tok_views(v@) =~= seq![(Some(id), None::<Seq<char>>)]);
                Ok((v, i + 1))
            }
        } else {
            match take_value_exec(id, att, ws, i) {
                Ok((t, n)) => {
                    let ghost tv = (t.word, crate::worktree::opt_view(t.value));
                    let mut v: Vec<Tok> = Vec::new();
                    v.push(t);
                    assert(tok_views(v@) =~= seq![tv]);
                    Ok((v, n))
                },
                Err(e) => Err(e),
            }
        },
    }
}

fn step_exec(mode: Mode, ws: &[String], i: usize) -> (r: Result<(Vec<Tok>, usize), String>)
    requires
        i < ws.len(),
    ensures
        read_as(r, step_spec(mode, str_views(ws@), i as int)),
{
    let ghost wsv = str_views(ws@);
    let w = chars_of(ws[i].as_str());
    assert(wsv[i as int] == w@);
    let bare = is(w.as_slice(), "--");
    if w.len() > 2 && w[0] == '-' && w[1] == '-' {
        long_exec(mode, ws, i)
    } else if w.len() > 1 && w[0] == '-' && !bare {
        cluster_exec(mode, ws, i)
    } else {
        let mut v: Vec<Tok> = Vec::new();
        v.push(Tok { word: None, value: Some(ws[i].clone()) });
        assert(tok_views(v@) =~= seq![(None::<Word>, Some(w@))]);
        Ok((v, i + 1))
    }
}

/// The tokens `words` read as for `mode`: see `toks_from`.
pub fn tokens(mode: Mode, words: &[String]) -> (r: Result<Vec<Tok>, String>)
    ensures
        match toks_from(mode, str_views(words@), 0) {
            Ok(t) => r matches Ok(v) && tok_views(v@) == t,
            Err(e) => r matches Err(x) && x@ == e,
        },
{
    let ghost wsv = str_views(words@);
    let mut acc: Vec<Tok> = Vec::new();
    let mut i: usize = 0;
    proof {
        match toks_from(mode, wsv, 0) {
            Ok(t) => {
                assert(tok_views(acc@) + t =~= t);
            },
            Err(_) => {},
        }
    }
    while i < words.len()
        invariant
            i <= words.len(),
            wsv == str_views(words@),
            match toks_from(mode, wsv, i as int) {
                Ok(t) => toks_from(mode, wsv, 0) == Ok::<Seq<(Option<Word>, Option<Seq<char>>)>, Seq<char>>(tok_views(acc@) + t),
                Err(e) => toks_from(mode, wsv, 0) == Err::<Seq<(Option<Word>, Option<Seq<char>>)>, Seq<char>>(e),
            },
        decreases words.len() - i,
    {
        if is(chars_of(words[i].as_str()).as_slice(), "--") {
            assert(wsv[i as int] == "--"@);
            let mut k: usize = i + 1;
            let ghost rest = wsv.skip(i + 1);
            let ghost base = tok_views(acc@);
            while k < words.len()
                invariant
                    i < k <= words.len(),
                    wsv == str_views(words@),
                    rest == wsv.skip(i + 1),
                    tok_views(acc@) == base + positionals(rest.take(k - i - 1)),
                decreases words.len() - k,
            {
                let ghost before = tok_views(acc@);
                acc.push(Tok { word: None, value: Some(words[k].clone()) });
                assert(rest.take(k - i) =~= rest.take(k - i - 1).push(wsv[k as int]));
                assert(positionals(rest.take(k - i)) =~= positionals(rest.take(k - i - 1)).push(
                    (None::<Word>, Some(wsv[k as int])),
                ));
                assert(tok_views(acc@) =~= before.push((None::<Word>, Some(wsv[k as int]))));
                k = k + 1;
            }
            assert(rest.take(words.len() - i - 1) =~= rest);
            return Ok(acc);
        }
        match step_exec(mode, words, i) {
            Err(e) => {
                return Err(e);
            },
            Ok((t, n)) => {
                if !(i < n && n <= words.len()) {
                    return Err(String::new());
                }
                let ghost before = tok_views(acc@);
                let ghost tv = tok_views(t@);
                let mut t = t;
                let mut q: usize = 0;
                let ghost tt = t@;
                assert(tt.len() == t.len());
                while 0 < t.len()
                    invariant
                        q <= tt.len(),
                        tt.len() <= usize::MAX,
                        t@ == tt.skip(q as int),
                        tok_views(acc@) == before + tok_views(tt.take(q as int)),
                    decreases tt.len() - q,
                {
                    let x = t.remove(0);
                    let ghost bb = tok_views(acc@);
                    acc.push(x);
                    assert(tt.take(q + 1) =~= tt.take(q as int).push(tt[q as int]));
                    assert(tok_views(tt.take(q + 1)) =~= tok_views(tt.take(q as int)).push(tok_views(tt)[q as int]));
                    assert(tok_views(acc@) =~= bb.push(tok_views(tt)[q as int]));
                    assert(tt.skip(q + 1) =~= tt.skip(q as int).skip(1));
                    q = q + 1;
                }
                assert(q == tt.len());
                assert(tt.take(q as int) =~= tt);
                assert(tok_views(tt) == tv);
                assert(tok_views(acc@) =~= before + tv);
                proof {
                    match toks_from(mode, wsv, n as int) {
                        Ok(u) => {
                            assert(before + (tv + u) =~= tok_views(acc@) + u);
                        },
                        Err(_) => {},
                    }
                }
                i = n;
            },
        }
    }
    proof {
        assert(toks_from(mode, wsv, i as int) == Ok::<Seq<(Option<Word>, Option<Seq<char>>)>, Seq<char>>(Seq::empty()));
        assert(tok_views(acc@) + Seq::empty() =~= tok_views(acc@));
    }
    Ok(acc)
}

// ---------------------------------------------------------------------------
// Tokens into flags
// ---------------------------------------------------------------------------

/// Everything the words set, as values.
#[verifier::ext_equal]
pub struct WordsView {
    pub branch: Seq<Seq<char>>,
    pub target_flag: Option<Seq<char>>,
    pub positional: Seq<Seq<char>>,
    pub limit: Option<usize>,
    pub date: Seq<(DateOp, Seq<char>)>,
    pub date_since: Option<Seq<char>>,
    pub date_until: Option<Seq<char>>,
    pub commit_since: Option<Seq<char>>,
    pub commit_until: Option<Seq<char>>,
    pub commits: Seq<Seq<char>>,
    pub author: Option<Seq<char>>,
    pub message: Option<Seq<char>>,
    pub search: Option<Seq<char>>,
    pub topo: bool,
    pub merges: bool,
    pub reverse: bool,
    pub no_cherry: bool,
    pub pick: bool,
    pub files: bool,
    pub squash: bool,
    pub union: bool,
    pub time: bool,
    pub date_human: bool,
    pub wrap: Option<Wrap>,
    pub subjectw: Option<SubjectWidth>,
    pub branchw: Option<BranchWidth>,
    pub md: Option<Seq<char>>,
    pub all: bool,
    pub all_files: bool,
    pub filename: Option<Seq<char>>,
    pub no_follow: bool,
    pub pathw: Option<PathWidth>,
    pub no_merges: bool,
}

/// What the words of one verb set: `-b` refs, the `-t` target, the
/// positionals, the shared flags, and each verb's own.
pub struct Words {
    pub branch: Vec<String>,
    pub target_flag: Option<String>,
    pub positional: Vec<String>,
    pub common: CommonCommitsFlags,
    pub all: bool,
    pub all_files: bool,
    pub filename: Option<String>,
    pub no_follow: bool,
    pub pathw: Option<PathWidth>,
    pub no_merges: bool,
}

pub open spec fn date_views(v: Seq<DateFilter>) -> Seq<(DateOp, Seq<char>)> {
    v.map_values(|d: DateFilter| (d.op, d.date@))
}

impl View for Words {
    type V = WordsView;

    open spec fn view(&self) -> WordsView {
        WordsView {
            branch: str_views(self.branch@),
            target_flag: crate::worktree::opt_view(self.target_flag),
            positional: str_views(self.positional@),
            limit: self.common.limit,
            date: date_views(self.common.date@),
            date_since: crate::worktree::opt_view(self.common.date_since),
            date_until: crate::worktree::opt_view(self.common.date_until),
            commit_since: crate::worktree::opt_view(self.common.commit_since),
            commit_until: crate::worktree::opt_view(self.common.commit_until),
            commits: str_views(self.common.commits@),
            author: crate::worktree::opt_view(self.common.author),
            message: crate::worktree::opt_view(self.common.message),
            search: crate::worktree::opt_view(self.common.search),
            topo: self.common.topo,
            merges: self.common.merges,
            reverse: self.common.reverse,
            no_cherry: self.common.no_cherry,
            pick: self.common.pick,
            files: self.common.files,
            squash: self.common.squash,
            union: self.common.union,
            time: self.common.time,
            date_human: self.common.date_human,
            wrap: self.common.wrap,
            subjectw: self.common.subjectw,
            branchw: self.common.branchw,
            md: crate::worktree::opt_view(self.common.md),
            all: self.all,
            all_files: self.all_files,
            filename: crate::worktree::opt_view(self.filename),
            no_follow: self.no_follow,
            pathw: self.pathw,
            no_merges: self.no_merges,
        }
    }
}

/// Nothing typed yet.
pub open spec fn unset() -> WordsView {
    WordsView {
        branch: Seq::empty(),
        target_flag: None,
        positional: Seq::empty(),
        limit: None,
        date: Seq::empty(),
        date_since: None,
        date_until: None,
        commit_since: None,
        commit_until: None,
        commits: Seq::empty(),
        author: None,
        message: None,
        search: None,
        topo: false,
        merges: false,
        reverse: false,
        no_cherry: false,
        pick: false,
        files: false,
        squash: false,
        union: false,
        time: false,
        date_human: false,
        wrap: None,
        subjectw: None,
        branchw: None,
        md: None,
        all: false,
        all_files: false,
        filename: None,
        no_follow: false,
        pathw: None,
        no_merges: false,
    }
}

/// Whether a flag that may be typed only once already was. `-b`, `-d`
/// and `-c` gather every use.
pub open spec fn seen(v: WordsView, w: Word) -> bool {
    match w {
        Word::Branch | Word::Date | Word::Commits => false,
        Word::Target => v.target_flag is Some,
        Word::Limit => v.limit is Some,
        Word::DateSince => v.date_since is Some,
        Word::DateUntil => v.date_until is Some,
        Word::CommitSince => v.commit_since is Some,
        Word::CommitUntil => v.commit_until is Some,
        Word::Author => v.author is Some,
        Word::Message => v.message is Some,
        Word::Search => v.search is Some,
        Word::Topo => v.topo,
        Word::Merges => v.merges,
        Word::Reverse => v.reverse,
        Word::NoCherry => v.no_cherry,
        Word::Pick => v.pick,
        Word::Files => v.files,
        Word::Squash => v.squash,
        Word::Union => v.union,
        Word::Time => v.time,
        Word::DateHuman => v.date_human,
        Word::Wrap => v.wrap is Some,
        Word::SubjectW => v.subjectw is Some,
        Word::BranchW => v.branchw is Some,
        Word::Md => v.md is Some,
        Word::All => v.all,
        Word::AllFiles => v.all_files,
        Word::Filename => v.filename is Some,
        Word::NoFollow => v.no_follow,
        Word::PathW => v.pathw is Some,
        Word::NoMerges => v.no_merges,
    }
}

pub open spec fn dup_msg(w: Word) -> Seq<char> {
    "the argument '"@ + display_spec(w) + "' cannot be used multiple times"@
}

pub open spec fn invalid_msg(x: Seq<char>, w: Word, e: Seq<char>) -> Seq<char> {
    "invalid value '"@ + x + "' for '"@ + display_spec(w) + "': "@ + e
}

/// The value a flag took: what was typed, else `full` for `--wrap` and
/// nothing (the default name) for `--md`.
pub open spec fn value_of(w: Word, o: Option<Seq<char>>) -> Seq<char> {
    match o {
        Some(x) => x,
        None => if w == Word::Wrap {
            "full"@
        } else {
            Seq::empty()
        },
    }
}

/// A flag set to its value `x`: read through the flag's own value
/// reader, its complaint wrapped to name the flag.
pub open spec fn set_spec(v: WordsView, w: Word, x: Seq<char>) -> Result<WordsView, Seq<char>> {
    match w {
        Word::Branch => Ok(WordsView { branch: v.branch.push(x), ..v }),
        Word::Target => Ok(WordsView { target_flag: Some(x), ..v }),
        Word::Limit => match limit_spec(x) {
            Ok(n) => Ok(WordsView { limit: Some(n), ..v }),
            Err(e) => Err(invalid_msg(x, w, e)),
        },
        Word::Date => match date_filter_spec(x) {
            Ok(d) => Ok(WordsView { date: v.date.push((DateOp::Eq, d)), ..v }),
            Err(e) => Err(invalid_msg(x, w, e)),
        },
        Word::DateSince => match iso_date_spec(x) {
            Ok(d) => Ok(WordsView { date_since: Some(d), ..v }),
            Err(e) => Err(invalid_msg(x, w, e)),
        },
        Word::DateUntil => match iso_date_spec(x) {
            Ok(d) => Ok(WordsView { date_until: Some(d), ..v }),
            Err(e) => Err(invalid_msg(x, w, e)),
        },
        Word::CommitSince => Ok(WordsView { commit_since: Some(x), ..v }),
        Word::CommitUntil => Ok(WordsView { commit_until: Some(x), ..v }),
        Word::Commits => Ok(WordsView { commits: v.commits + split_spec(x, ','), ..v }),
        Word::Author => Ok(WordsView { author: Some(x), ..v }),
        Word::Message => Ok(WordsView { message: Some(x), ..v }),
        Word::Search => Ok(WordsView { search: Some(x), ..v }),
        Word::Topo => Ok(WordsView { topo: true, ..v }),
        Word::Merges => Ok(WordsView { merges: true, ..v }),
        Word::Reverse => Ok(WordsView { reverse: true, ..v }),
        Word::NoCherry => Ok(WordsView { no_cherry: true, ..v }),
        Word::Pick => Ok(WordsView { pick: true, ..v }),
        Word::Files => Ok(WordsView { files: true, ..v }),
        Word::Squash => Ok(WordsView { squash: true, ..v }),
        Word::Union => Ok(WordsView { union: true, ..v }),
        Word::Time => Ok(WordsView { time: true, ..v }),
        Word::DateHuman => Ok(WordsView { date_human: true, ..v }),
        Word::Wrap => match wrap_spec(x, wrap_bad()) {
            Ok(None) => Ok(WordsView { wrap: Some(Wrap::Full), ..v }),
            Ok(Some(n)) => Ok(WordsView { wrap: Some(Wrap::Lines(n)), ..v }),
            Err(e) => Err(invalid_msg(x, w, e)),
        },
        Word::SubjectW => match width_spec(x, MIN_TEXTW, "--subject-width"@, "subject"@, ""@, subjw_bad()) {
            Ok(None) => Ok(WordsView { subjectw: Some(SubjectWidth::Full), ..v }),
            Ok(Some(n)) => Ok(WordsView { subjectw: Some(SubjectWidth::Cols(n)), ..v }),
            Err(e) => Err(invalid_msg(x, w, e)),
        },
        Word::BranchW => match width_spec(x, BRANCH_MIN, "--branch-width"@, "name"@, ""@, branchw_bad()) {
            Ok(None) => Ok(WordsView { branchw: Some(BranchWidth::Full), ..v }),
            Ok(Some(n)) => Ok(WordsView { branchw: Some(BranchWidth::Cols(n)), ..v }),
            Err(e) => Err(invalid_msg(x, w, e)),
        },
        Word::Md => Ok(WordsView { md: Some(x), ..v }),
        Word::All => Ok(WordsView { all: true, ..v }),
        Word::AllFiles => Ok(WordsView { all_files: true, ..v }),
        Word::Filename => Ok(WordsView { filename: Some(x), ..v }),
        Word::NoFollow => Ok(WordsView { no_follow: true, ..v }),
        Word::PathW => match width_spec(x, PATH_MIN, "--path-width"@, "path"@, ""@, pathw_bad()) {
            Ok(None) => Ok(WordsView { pathw: Some(PathWidth::Full), ..v }),
            Ok(Some(n)) => Ok(WordsView { pathw: Some(PathWidth::Cols(n)), ..v }),
            Err(e) => Err(invalid_msg(x, w, e)),
        },
        Word::NoMerges => Ok(WordsView { no_merges: true, ..v }),
    }
}

/// One token applied: a positional is `log`'s path (any number), the
/// `commits` target (one at most), and nothing a review knows; a flag
/// typed twice is refused, else set.
pub open spec fn apply_spec(mode: Mode, v: WordsView, t: (Option<Word>, Option<Seq<char>>)) -> Result<
    WordsView,
    Seq<char>,
> {
    match t.0 {
        None => {
            let p = value_of(Word::Target, t.1);
            if mode == Mode::Log || (mode == Mode::Commits && v.positional.len() == 0) {
                Ok(WordsView { positional: v.positional.push(p), ..v })
            } else {
                Err(unknown_msg(p))
            }
        },
        Some(w) => if seen(v, w) {
            Err(dup_msg(w))
        } else {
            set_spec(v, w, value_of(w, t.1))
        },
    }
}

/// Every token applied in order, from nothing typed; the first refusal
/// stops it.
pub open spec fn fold_spec(mode: Mode, ts: Seq<(Option<Word>, Option<Seq<char>>)>) -> Result<WordsView, Seq<char>>
    decreases ts.len(),
{
    if ts.len() == 0 {
        Ok(unset())
    } else {
        match fold_spec(mode, ts.drop_last()) {
            Ok(v) => apply_spec(mode, v, ts.last()),
            Err(e) => Err(e),
        }
    }
}

/// What a verb's words set, or the first thing wrong with them.
pub open spec fn words_spec(mode: Mode, ws: Seq<Seq<char>>) -> Result<WordsView, Seq<char>> {
    match toks_from(mode, ws, 0) {
        Ok(t) => fold_spec(mode, t),
        Err(e) => Err(e),
    }
}

fn dup(w: Word) -> (r: String)
    ensures
        r@ == dup_msg(w),
{
    flag_msg("the argument '", w, "' cannot be used multiple times")
}

fn invalid(x: &str, w: Word, e: &str) -> (r: String)
    ensures
        r@ == invalid_msg(x@, w, e@),
{
    let mut m = chars_of("invalid value '");
    push_str(&mut m, x);
    push_str(&mut m, "' for '");
    crate::text::push_all(&mut m, display(w).as_slice());
    push_str(&mut m, "': ");
    push_str(&mut m, e);
    string_of(m.as_slice())
}

fn seen_exec(st: &Words, w: Word) -> (r: bool)
    ensures
        r == seen(st@, w),
{
    match w {
        Word::Branch | Word::Date | Word::Commits => false,
        Word::Target => st.target_flag.is_some(),
        Word::CommitSince => st.common.commit_since.is_some(),
        Word::CommitUntil => st.common.commit_until.is_some(),
        Word::Author => st.common.author.is_some(),
        Word::Message => st.common.message.is_some(),
        Word::Search => st.common.search.is_some(),
        Word::Md => st.common.md.is_some(),
        Word::Filename => st.filename.is_some(),
        Word::Topo => st.common.topo,
        Word::Merges => st.common.merges,
        Word::Reverse => st.common.reverse,
        Word::NoCherry => st.common.no_cherry,
        Word::Pick => st.common.pick,
        Word::Files => st.common.files,
        Word::Squash => st.common.squash,
        Word::Union => st.common.union,
        Word::Time => st.common.time,
        Word::DateHuman => st.common.date_human,
        Word::All => st.all,
        Word::AllFiles => st.all_files,
        Word::NoFollow => st.no_follow,
        Word::NoMerges => st.no_merges,
        Word::Limit => st.common.limit.is_some(),
        Word::DateSince => st.common.date_since.is_some(),
        Word::DateUntil => st.common.date_until.is_some(),
        Word::Wrap => st.common.wrap.is_some(),
        Word::SubjectW => st.common.subjectw.is_some(),
        Word::BranchW => st.common.branchw.is_some(),
        Word::PathW => st.pathw.is_some(),
    }
}

fn push_commits(st: &mut Words, x: String)
    ensures
        final(st)@ == (WordsView { commits: old(st)@.commits + split_spec(x@, ','), ..old(st)@ }),
{
    let pieces = split(chars_of(x.as_str()).as_slice(), ',');
    let ghost pv = views(pieces@);
    let ghost before = str_views(st.common.commits@);
    let mut k: usize = 0;
    while k < pieces.len()
        invariant
            k <= pieces.len(),
            pv == views(pieces@),
            str_views(st.common.commits@) == before + pv.take(k as int),
            before == old(st)@.commits,
            st@ == (WordsView { commits: str_views(st.common.commits@), ..old(st)@ }),
        decreases pieces.len() - k,
    {
        let ghost b2 = str_views(st.common.commits@);
        st.common.commits.push(string_of(pieces[k].as_slice()));
        assert(pv.take(k + 1) =~= pv.take(k as int).push(pv[k as int]));
        assert(str_views(st.common.commits@) =~= b2.push(pv[k as int]));
        k = k + 1;
    }
    assert(pv.take(k as int) =~= pv);
}

#[verifier::rlimit(100)]
fn set_parsed(st: &mut Words, w: Word, x: String) -> (r: Result<(), String>)
    requires
        w == Word::Limit || w == Word::Date || w == Word::DateSince || w == Word::DateUntil || w == Word::Wrap || w == Word::SubjectW || w == Word::BranchW || w == Word::PathW,
    ensures
        match set_spec(old(st)@, w, x@) {
            Ok(v) => r is Ok && final(st)@ == v,
            Err(e) => r matches Err(m) && m@ == e,
        },
{
    proof {
        reveal_strlit("--subject-width");
        reveal_strlit("subject");
        reveal_strlit("--branch-width");
        reveal_strlit("name");
        reveal_strlit("--path-width");
        reveal_strlit("path");
        reveal_strlit("");
    }
    match w {
        Word::Limit => match parse_limit(x.as_str()) {
            Ok(n) => {
                st.common.limit = Some(n);
                Ok(())
            },
            Err(e) => Err(invalid(x.as_str(), w, e.as_str())),
        },
        Word::Date => match parse_date_filter(x.as_str()) {
            Ok(f) => {
                let ghost before = date_views(st.common.date@);
                let ghost fv = (f.op, f.date@);
                st.common.date.push(f);
                assert(date_views(st.common.date@) =~= before.push(fv));
                Ok(())
            },
            Err(e) => Err(invalid(x.as_str(), w, e.as_str())),
        },
        Word::DateSince => match iso_date(x.as_str()) {
            Ok(d) => {
                st.common.date_since = Some(d);
                Ok(())
            },
            Err(e) => Err(invalid(x.as_str(), w, e.as_str())),
        },
        Word::DateUntil => match iso_date(x.as_str()) {
            Ok(d) => {
                st.common.date_until = Some(d);
                Ok(())
            },
            Err(e) => Err(invalid(x.as_str(), w, e.as_str())),
        },
        Word::Wrap => match parse_wrap(x.as_str()) {
            Ok(v) => {
                st.common.wrap = Some(v);
                Ok(())
            },
            Err(e) => Err(invalid(x.as_str(), w, e.as_str())),
        },
        Word::SubjectW => match parse_subjectw(x.as_str()) {
            Ok(v) => {
                st.common.subjectw = Some(v);
                Ok(())
            },
            Err(e) => Err(invalid(x.as_str(), w, e.as_str())),
        },
        Word::BranchW => match parse_branchw(x.as_str()) {
            Ok(v) => {
                st.common.branchw = Some(v);
                Ok(())
            },
            Err(e) => Err(invalid(x.as_str(), w, e.as_str())),
        },
        Word::PathW => match parse_pathw(x.as_str()) {
            Ok(v) => {
                st.pathw = Some(v);
                Ok(())
            },
            Err(e) => Err(invalid(x.as_str(), w, e.as_str())),
        },
        _ => Ok(()),
    }
}

#[verifier::rlimit(100)]
fn set_switch(st: &mut Words, w: Word, x: String) -> (r: Result<(), String>)
    requires
        w == Word::Topo || w == Word::Merges || w == Word::Reverse || w == Word::NoCherry || w == Word::Pick || w == Word::Files || w == Word::Squash || w == Word::Union || w == Word::Time || w == Word::DateHuman || w == Word::All || w == Word::AllFiles || w == Word::NoFollow || w == Word::NoMerges,
    ensures
        match set_spec(old(st)@, w, x@) {
            Ok(v) => r is Ok && final(st)@ == v,
            Err(e) => r matches Err(m) && m@ == e,
        },
{
    match w {
        Word::Topo => {
            st.common.topo = true;
            Ok(())
        },
        Word::Merges => {
            st.common.merges = true;
            Ok(())
        },
        Word::Reverse => {
            st.common.reverse = true;
            Ok(())
        },
        Word::NoCherry => {
            st.common.no_cherry = true;
            Ok(())
        },
        Word::Pick => {
            st.common.pick = true;
            Ok(())
        },
        Word::Files => {
            st.common.files = true;
            Ok(())
        },
        Word::Squash => {
            st.common.squash = true;
            Ok(())
        },
        Word::Union => {
            st.common.union = true;
            Ok(())
        },
        Word::Time => {
            st.common.time = true;
            Ok(())
        },
        Word::DateHuman => {
            st.common.date_human = true;
            Ok(())
        },
        Word::All => {
            st.all = true;
            Ok(())
        },
        Word::AllFiles => {
            st.all_files = true;
            Ok(())
        },
        Word::NoFollow => {
            st.no_follow = true;
            Ok(())
        },
        Word::NoMerges => {
            st.no_merges = true;
            Ok(())
        },
        _ => Ok(()),
    }
}

#[verifier::rlimit(100)]
fn set_text(st: &mut Words, w: Word, x: String) -> (r: Result<(), String>)
    requires
        w == Word::Branch || w == Word::Target || w == Word::CommitSince || w == Word::CommitUntil || w == Word::Author || w == Word::Message || w == Word::Search || w == Word::Md || w == Word::Filename,
    ensures
        match set_spec(old(st)@, w, x@) {
            Ok(v) => r is Ok && final(st)@ == v,
            Err(e) => r matches Err(m) && m@ == e,
        },
{
    let ghost xv = x@;
    match w {
        Word::Branch => {
            let ghost before = str_views(st.branch@);
            st.branch.push(x);
            assert(str_views(st.branch@) =~= before.push(xv));
            Ok(())
        },
        Word::Target => {
            st.target_flag = Some(x);
            Ok(())
        },
        Word::CommitSince => {
            st.common.commit_since = Some(x);
            Ok(())
        },
        Word::CommitUntil => {
            st.common.commit_until = Some(x);
            Ok(())
        },
        Word::Author => {
            st.common.author = Some(x);
            Ok(())
        },
        Word::Message => {
            st.common.message = Some(x);
            Ok(())
        },
        Word::Search => {
            st.common.search = Some(x);
            Ok(())
        },
        Word::Md => {
            st.common.md = Some(x);
            Ok(())
        },
        Word::Filename => {
            st.filename = Some(x);
            Ok(())
        },
        _ => Ok(()),
    }
}

fn set_exec(st: &mut Words, w: Word, x: String) -> (r: Result<(), String>)
    ensures
        match set_spec(old(st)@, w, x@) {
            Ok(v) => r is Ok && final(st)@ == v,
            Err(e) => r matches Err(m) && m@ == e,
        },
{
    match w {
        Word::Limit | Word::Date | Word::DateSince | Word::DateUntil | Word::Wrap | Word::SubjectW | Word::BranchW
        | Word::PathW => set_parsed(st, w, x),
        Word::Branch | Word::Target | Word::CommitSince | Word::CommitUntil | Word::Author | Word::Message
        | Word::Search | Word::Md | Word::Filename | Word::Commits => if w == Word::Commits {
            push_commits(st, x);
            Ok(())
        } else {
            set_text(st, w, x)
        },
        _ => set_switch(st, w, x),
    }
}

/// One token applied to what the words set so far: see `apply_spec`.
pub fn apply(mode: Mode, st: &mut Words, t: Tok) -> (r: Result<(), String>)
    ensures
        match apply_spec(mode, old(st)@, (t.word, crate::worktree::opt_view(t.value))) {
            Ok(v) => r is Ok && final(st)@ == v,
            Err(e) => r matches Err(m) && m@ == e,
        },
{
    proof {
        reveal_strlit("full");
    }
    match t.word {
        None => {
            let p = match t.value {
                Some(x) => x,
                None => String::new(),
            };
            if mode == Mode::Log || (mode == Mode::Commits && st.positional.len() == 0) {
                let ghost before = str_views(st.positional@);
                let ghost pv = p@;
                st.positional.push(p);
                assert(str_views(st.positional@) =~= before.push(pv));
                Ok(())
            } else {
                Err(unknown(chars_of(p.as_str()).as_slice()))
            }
        },
        Some(w) => {
            if seen_exec(st, w) {
                return Err(dup(w));
            }
            let x: String = match t.value {
                Some(v) => v,
                None => if w == Word::Wrap {
                    "full".to_string()
                } else {
                    String::new()
                },
            };
            set_exec(st, w, x)
        },
    }
}

/// What a verb's words set: see `words_spec`.
pub fn parse_words(mode: Mode, words: &[String]) -> (r: Result<Words, String>)
    ensures
        match words_spec(mode, str_views(words@)) {
            Ok(v) => r matches Ok(w) && w@ == v,
            Err(e) => r matches Err(x) && x@ == e,
        },
{
    let mut toks = match tokens(mode, words) {
        Ok(t) => t,
        Err(e) => {
            return Err(e);
        },
    };
    let ghost ts = tok_views(toks@);
    let mut st = Words {
        branch: Vec::new(),
        target_flag: None,
        positional: Vec::new(),
        common: CommonCommitsFlags {
            limit: None,
            date: Vec::new(),
            date_since: None,
            date_until: None,
            commit_since: None,
            commit_until: None,
            commits: Vec::new(),
            author: None,
            message: None,
            search: None,
            topo: false,
            merges: false,
            reverse: false,
            no_cherry: false,
            pick: false,
            files: false,
            squash: false,
            union: false,
            time: false,
            date_human: false,
            wrap: None,
            subjectw: None,
            branchw: None,
            md: None,
        },
        all: false,
        all_files: false,
        filename: None,
        no_follow: false,
        pathw: None,
        no_merges: false,
    };
    assert(st@ =~= unset());
    assert(words_spec(mode, str_views(words@)) == fold_spec(mode, ts));
    assert(ts.take(0) =~= Seq::<(Option<Word>, Option<Seq<char>>)>::empty());
    let n = toks.len();
    let mut k: usize = 0;
    while k < n
        invariant
            k <= n,
            n == ts.len(),
            toks.len() == n - k,
            tok_views(toks@) == ts.skip(k as int),
            words_spec(mode, str_views(words@)) == fold_spec(mode, ts),
            fold_spec(mode, ts.take(k as int)) == Ok::<WordsView, Seq<char>>(st@),
        decreases n - k,
    {
        let ghost before = toks@;
        let t = toks.remove(0);
        let ghost tv = (t.word, crate::worktree::opt_view(t.value));
        assert(tok_views(before)[0] == tv);
        assert(ts.skip(k as int)[0] == tv);
        assert(ts[k as int] == tv);
        assert(tok_views(toks@) =~= tok_views(before).skip(1));
        assert(ts.skip(k as int).skip(1) =~= ts.skip(k + 1));
        assert(ts.take(k + 1).drop_last() =~= ts.take(k as int));
        assert(ts.take(k + 1).last() == tv);
        let ghost sv = st@;
        assert(fold_spec(mode, ts.take(k + 1)) == apply_spec(mode, sv, tv));
        match apply(mode, &mut st, t) {
            Ok(()) => {},
            Err(e) => {
                proof {
                    lemma_fold_fails(mode, ts, (k + 1) as nat, ts.len());
                    assert(ts.take(ts.len() as int) =~= ts);
                }
                return Err(e);
            },
        }
        k = k + 1;
    }
    assert(ts.take(n as int) =~= ts);
    Ok(st)
}

/// Once a token is refused, the whole fold is.
proof fn lemma_fold_fails(mode: Mode, ts: Seq<(Option<Word>, Option<Seq<char>>)>, m: nat, n: nat)
    requires
        m <= n <= ts.len(),
        fold_spec(mode, ts.take(m as int)) is Err,
    ensures
        fold_spec(mode, ts.take(n as int)) == fold_spec(mode, ts.take(m as int)),
    decreases n - m,
{
    if m < n {
        lemma_fold_fails(mode, ts, m, (n - 1) as nat);
        assert(ts.take(n as int).drop_last() =~= ts.take(n - 1));
    }
}

impl Words {
    /// `commits`' flags: its positional is the target.
    pub fn into_commits(self) -> (r: CommitsFlags)
        ensures
            r.common == self.common,
            r.all == self.all,
            r.all_files == self.all_files,
            r.filename == self.filename,
            r.target matches Some(t) ==> self.positional@.len() > 0 && t@ == self.positional@[0]@,
            r.target is None ==> self.positional@.len() == 0,
    {
        let mut pos = self.positional;
        let target = if pos.len() > 0 {
            Some(pos.remove(0))
        } else {
            None
        };
        CommitsFlags { target, common: self.common, all: self.all, all_files: self.all_files, filename: self.filename }
    }

    /// `log`'s flags: its positionals are the leading run.
    pub fn into_log(self) -> (r: LogFlags)
        ensures
            r.common == self.common,
            r.leading == self.positional,
            r.no_follow == self.no_follow,
            r.pathw == self.pathw,
    {
        LogFlags { leading: self.positional, common: self.common, no_follow: self.no_follow, pathw: self.pathw }
    }

    /// The review's flags.
    pub fn into_review(self) -> (r: ReviewFlags)
        ensures
            r.common == self.common,
            r.no_merges == self.no_merges,
            r.all == self.all,
            r.all_files == self.all_files,
            r.filename == self.filename,
    {
        ReviewFlags {
            common: self.common,
            no_merges: self.no_merges,
            all: self.all,
            all_files: self.all_files,
            filename: self.filename,
        }
    }
}

} // verus!
