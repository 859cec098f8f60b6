//! `merge`: its word-and-flag grammar with every rule that keeps one
//! invocation from meaning two things, the `git merge` it runs, and the
//! messages for the ways a merge stops.

use vstd::prelude::*;

use crate::style::{paint_spec, push_painted, GREEN};
use crate::text::{
    chars_of, contains_spec, decimal, decimal_of, is_prefix, lines, lines_spec, parse_usize,
    parse_usize_spec, push_all, push_str, str_views, string_of, strip_prefix, trim, trim_spec,
    views,
};
use crate::worktree::{opt_view, Worktree};

verus! {

/// What a `merge` invocation asks for: a merge to start from a source, or
/// the one in progress continued or undone.
#[derive(Debug, PartialEq, Eq)]
pub enum MergeOp {
    Start(String),
    Continue,
    Abort,
}

pub enum MergeOpSpec {
    Start(Seq<char>),
    Continue,
    Abort,
}

impl View for MergeOp {
    type V = MergeOpSpec;

    open spec fn view(&self) -> MergeOpSpec {
        match self {
            MergeOp::Start(s) => MergeOpSpec::Start(s@),
            MergeOp::Continue => MergeOpSpec::Continue,
            MergeOp::Abort => MergeOpSpec::Abort,
        }
    }
}

/// Which side wins a hunk both branches touched: git's `-X ours` / `-X
/// theirs`, never the whole-tree `-s ours` that would drop the source's
/// changes and still record a merge.
#[derive(Debug, Clone, Copy, PartialEq, Eq, Structural)]
pub enum Side {
    Ours,
    Theirs,
}

pub open spec fn side_word(s: Side) -> Seq<char> {
    match s {
        Side::Ours => "ours"@,
        Side::Theirs => "theirs"@,
    }
}

impl Side {
    /// The word the user typed, for echoing back in messages.
    pub fn word(self) -> (r: &'static str)
        ensures
            r@ == side_word(self),
    {
        match self {
            Side::Ours => "ours",
            Side::Theirs => "theirs",
        }
    }

    /// git's `-X` argument.
    pub fn strategy_option(self) -> (r: &'static str)
        ensures
            r@ == side_word(self),
    {
        self.word()
    }
}

/// What `merge`'s words ask for.
#[derive(Debug, PartialEq, Eq)]
pub struct MergeArgs {
    pub op: MergeOp,
    pub message: Option<String>,
    pub no_ff: bool,
    pub ff_only: bool,
    pub squash: bool,
    pub force: bool,
    pub side: Option<Side>,
    pub dry_run: bool,
    /// `--review` and everything after it, untouched: the tail is the
    /// commit table's to read.
    pub review: Option<Vec<String>>,
}

pub struct MergeArgsSpec {
    pub op: MergeOpSpec,
    pub message: Option<Seq<char>>,
    pub no_ff: bool,
    pub ff_only: bool,
    pub squash: bool,
    pub force: bool,
    pub side: Option<Side>,
    pub dry_run: bool,
    pub review: Option<Seq<Seq<char>>>,
}

impl View for MergeArgs {
    type V = MergeArgsSpec;

    open spec fn view(&self) -> MergeArgsSpec {
        MergeArgsSpec {
            op: self.op@,
            message: opt_view(self.message),
            no_ff: self.no_ff,
            ff_only: self.ff_only,
            squash: self.squash,
            force: self.force,
            side: self.side,
            dry_run: self.dry_run,
            review: match self.review {
                Some(v) => Some(str_views(v@)),
                None => None,
            },
        }
    }
}

// ---------------------------------------------------------------------------
// Slots that take one answer
// ---------------------------------------------------------------------------

/// Record `ours`/`theirs`: the same side twice is only redundant, the
/// other side a conflict.
pub fn set_side(slot: &mut Option<Side>, side: Side) -> (r: Result<(), String>)
    ensures
        match *old(slot) {
            Some(s) => if s == side {
                r is Ok && *final(slot) == *old(slot)
            } else {
                r matches Err(e) && e@ == "ours and theirs conflict"@ && *final(slot) == *old(slot)
            },
            None => r is Ok && *final(slot) == Some(side),
        },
{
    match *slot {
        Some(s) => {
            if s == side {
                Ok(())
            } else {
                Err("ours and theirs conflict".to_string())
            }
        },
        None => {
            *slot = Some(side);
            Ok(())
        },
    }
}

pub open spec fn same_op(a: MergeOpSpec, b: MergeOpSpec) -> bool {
    match (a, b) {
        (MergeOpSpec::Start(x), MergeOpSpec::Start(y)) => x == y,
        (MergeOpSpec::Continue, MergeOpSpec::Continue) => true,
        (MergeOpSpec::Abort, MergeOpSpec::Abort) => true,
        _ => false,
    }
}

/// Record `continue`/`abort`: the same one twice is only redundant, the
/// other a conflict.
pub fn set_merge_op(slot: &mut Option<MergeOp>, op: MergeOp) -> (r: Result<(), String>)
    ensures
        match *old(slot) {
            Some(cur) => if same_op(cur@, op@) {
                r is Ok && *final(slot) == *old(slot)
            } else {
                r matches Err(e) && e@ == "continue and abort conflict"@ && *final(slot) == *old(slot)
            },
            None => r is Ok && *final(slot) == Some(op),
        },
{
    let same = match (&*slot, &op) {
        (Some(MergeOp::Start(x)), MergeOp::Start(y)) => {
            let a = chars_of(x.as_str());
            let b = chars_of(y.as_str());
            crate::text::same(a.as_slice(), b.as_slice())
        },
        (Some(MergeOp::Continue), MergeOp::Continue) => true,
        (Some(MergeOp::Abort), MergeOp::Abort) => true,
        _ => false,
    };
    if slot.is_none() {
        *slot = Some(op);
        return Ok(());
    }
    if same {
        Ok(())
    } else {
        Err("continue and abort conflict".to_string())
    }
}

/// The flags that only mean something when a real merge runs, as the
/// user would type them.
pub open spec fn start_only_spec(message: bool, no_ff: bool, ff_only: bool, squash: bool, force: bool) -> Seq<Seq<char>> {
    (if message {
        seq!["-m"@]
    } else {
        Seq::empty()
    }) + (if no_ff {
        seq!["--no-ff"@]
    } else {
        Seq::empty()
    }) + (if ff_only {
        seq!["--ff-only"@]
    } else {
        Seq::empty()
    }) + (if squash {
        seq!["--squash"@]
    } else {
        Seq::empty()
    }) + (if force {
        seq!["-f"@]
    } else {
        Seq::empty()
    })
}

pub open spec fn word_views(v: Seq<&'static str>) -> Seq<Seq<char>> {
    v.map_values(|s: &'static str| s@)
}

/// The start-only flags that were given.
pub fn start_only_flags(message: Option<&String>, no_ff: bool, ff_only: bool, squash: bool, force: bool) -> (r: Vec<&'static str>)
    ensures
        word_views(r@) == start_only_spec(message is Some, no_ff, ff_only, squash, force),
{
    let mut v: Vec<&'static str> = Vec::new();
    if message.is_some() {
        v.push("-m");
    }
    if no_ff {
        v.push("--no-ff");
    }
    if ff_only {
        v.push("--ff-only");
    }
    if squash {
        v.push("--squash");
    }
    if force {
        v.push("-f");
    }
    assert(word_views(v@) =~= start_only_spec(message is Some, no_ff, ff_only, squash, force));
    v
}

/// `words` joined with `, `.
pub open spec fn join_words(words: Seq<Seq<char>>) -> Seq<char>
    decreases words.len(),
{
    if words.len() == 0 {
        Seq::empty()
    } else if words.len() == 1 {
        words[0]
    } else {
        join_words(words.drop_last()) + ", "@ + words.last()
    }
}

fn join_of(words: &Vec<&'static str>) -> (r: Vec<char>)
    ensures
        r@ == join_words(word_views(words@)),
{
    let ghost wv = word_views(words@);
    let mut out: Vec<char> = Vec::new();
    let mut i: usize = 0;
    while i < words.len()
        invariant
            i <= words.len(),
            wv == word_views(words@),
            out@ == join_words(wv.take(i as int)),
        decreases words.len() - i,
    {
        assert(wv.take(i + 1).drop_last() =~= wv.take(i as int));
        assert(wv.take(i + 1).last() == words@[i as int]@);
        if i > 0 {
            push_str(&mut out, ", ");
        } else {
            assert(wv.take(1) =~= seq![words@[0]@]);
        }
        push_str(&mut out, words[i]);
        i = i + 1;
    }
    assert(wv.take(i as int) =~= wv);
    out
}

// ---------------------------------------------------------------------------
// The grammar
// ---------------------------------------------------------------------------

/// Where `merge`'s words have got to.
pub struct ScanSpec {
    pub source: Option<Seq<char>>,
    pub op: Option<MergeOpSpec>,
    pub message: Option<Seq<char>>,
    pub side: Option<Side>,
    pub no_ff: bool,
    pub ff_only: bool,
    pub squash: bool,
    pub force: bool,
    pub dry_run: bool,
    pub review: Option<Seq<Seq<char>>>,
}

pub open spec fn fresh_scan() -> ScanSpec {
    ScanSpec {
        source: None,
        op: None,
        message: None,
        side: None,
        no_ff: false,
        ff_only: false,
        squash: false,
        force: false,
        dry_run: false,
        review: None,
    }
}

pub open spec fn word3(a: Seq<char>, bare: Seq<char>, dashed: Seq<char>, short: Seq<char>) -> bool {
    a == bare || a == dashed || a == short
}

/// `op` recorded: `Err` when the other resume word is already there.
pub open spec fn with_op(st: ScanSpec, op: MergeOpSpec) -> Result<ScanSpec, Seq<char>> {
    match st.op {
        Some(cur) => if same_op(cur, op) {
            Ok(st)
        } else {
            Err("continue and abort conflict"@)
        },
        None => Ok(ScanSpec { op: Some(op), ..st }),
    }
}

/// `side` recorded: `Err` when the other side is already there.
pub open spec fn with_side(st: ScanSpec, side: Side) -> Result<ScanSpec, Seq<char>> {
    match st.side {
        Some(s) => if s == side {
            Ok(st)
        } else {
            Err("ours and theirs conflict"@)
        },
        None => Ok(ScanSpec { side: Some(side), ..st }),
    }
}

pub open spec fn then_scan(r: Result<ScanSpec, Seq<char>>, args: Seq<Seq<char>>, i: int) -> Result<ScanSpec, Seq<char>>
    decreases args.len() - i, 1int,
{
    match r {
        Ok(st) => merge_scan(args, i, st),
        Err(e) => Err(e),
    }
}

/// `args[i..]` read into `st`. `review`/`--review` ends the reading and
/// keeps the rest as the commit table's; the verb-ish words (`continue`,
/// `abort`, `ours`, `theirs`, `dry-run`) read the same bare, dashed or as
/// one letter; git's own flags keep their spelling; keywords are matched
/// ahead of the one positional source.
pub open spec fn merge_scan(args: Seq<Seq<char>>, i: int, st: ScanSpec) -> Result<ScanSpec, Seq<char>>
    decreases args.len() - i, 0int,
{
    if i < 0 || i >= args.len() {
        Ok(st)
    } else {
        let a = args[i];
        if a == "review"@ || a == "--review"@ {
            Ok(ScanSpec { review: Some(args.skip(i + 1)), ..st })
        } else if word3(a, "continue"@, "--continue"@, "-c"@) {
            then_scan(with_op(st, MergeOpSpec::Continue), args, i + 1)
        } else if word3(a, "abort"@, "--abort"@, "-a"@) {
            then_scan(with_op(st, MergeOpSpec::Abort), args, i + 1)
        } else if word3(a, "ours"@, "--ours"@, "-o"@) {
            then_scan(with_side(st, Side::Ours), args, i + 1)
        } else if word3(a, "theirs"@, "--theirs"@, "-t"@) {
            then_scan(with_side(st, Side::Theirs), args, i + 1)
        } else if word3(a, "dry-run"@, "--dry-run"@, "-d"@) {
            merge_scan(args, i + 1, ScanSpec { dry_run: true, ..st })
        } else if a == "-m"@ || a == "--message"@ {
            if i + 1 < args.len() {
                merge_scan(args, i + 2, ScanSpec { message: Some(args[i + 1]), ..st })
            } else {
                Err("--message needs a message"@)
            }
        } else if is_prefix("--message="@, a) {
            merge_scan(args, i + 1, ScanSpec { message: Some(a.skip("--message="@.len() as int)), ..st })
        } else if a == "--no-ff"@ || a == "--nf"@ {
            merge_scan(args, i + 1, ScanSpec { no_ff: true, ..st })
        } else if a == "--ff-only"@ || a == "--fo"@ {
            merge_scan(args, i + 1, ScanSpec { ff_only: true, ..st })
        } else if a == "--squash"@ {
            merge_scan(args, i + 1, ScanSpec { squash: true, ..st })
        } else if a == "-f"@ || a == "--force"@ {
            merge_scan(args, i + 1, ScanSpec { force: true, ..st })
        } else if a.len() > 0 && a[0] == '-' && a != "-"@ {
            Err("unknown option '"@ + a + "' for merge\nTry 'git-wt --help'"@)
        } else if st.source is Some {
            Err("too many arguments\nTry 'git-wt --help'"@)
        } else {
            merge_scan(args, i + 1, ScanSpec { source: Some(a), ..st })
        }
    }
}

/// The word a resume op is typed as.
pub open spec fn op_word(op: MergeOpSpec) -> Seq<char> {
    match op {
        MergeOpSpec::Continue => "continue"@,
        _ => "abort"@,
    }
}

/// Everything a `--review` refuses: the merge options claimed before it.
pub open spec fn review_bad(st: ScanSpec) -> Seq<Seq<char>> {
    start_only_spec(st.message is Some, st.no_ff, st.ff_only, st.squash, st.force) + (if st.dry_run {
        seq!["dry-run"@]
    } else {
        Seq::empty()
    }) + (match st.side {
        Some(sd) => seq![side_word(sd)],
        None => Seq::empty(),
    }) + (match st.op {
        Some(o) => seq![op_word(o)],
        None => Seq::empty(),
    })
}

pub const REVIEW_HINT: &'static str = "\nhint: '--review' ends merge's own flags -- anything meant for the commit table goes after it, e.g. 'merge --review -f'";

pub const NEEDS_SOURCE: &'static str = "merge needs a source: 'git-wt <N>,<M> merge' (or 'git-wt <N> merge <BRANCH>', or continue/abort)";

/// The rules once every word is read: `--review` takes no merge options;
/// `--no-ff` excludes `--ff-only` and `--squash` excludes `--no-ff`; a
/// resume takes no source, no side (with a hint at the real way to get
/// one) and no start-only flag; a dry run takes no start-only flag; and
/// a merge to start needs its source.
pub open spec fn finish_spec(st: ScanSpec) -> Result<MergeArgsSpec, Seq<char>> {
    if st.review is Some && review_bad(st).len() > 0 {
        Err("review takes no merge options (got "@ + join_words(review_bad(st)) + ")"@ + REVIEW_HINT@)
    } else if st.no_ff && st.ff_only {
        Err("--no-ff and --ff-only conflict"@)
    } else if st.squash && st.no_ff {
        Err("--squash and --no-ff conflict"@)
    } else if st.op is Some {
        let op = st.op->0;
        let word = op_word(op);
        let bad = start_only_spec(st.message is Some, st.no_ff, st.ff_only, st.squash, st.force) + (
        if st.dry_run {
            seq!["dry-run"@]
        } else {
            Seq::empty()
        });
        if st.source is Some {
            Err(word + " takes no argument (got '"@ + st.source->0 + "')"@)
        } else if st.side is Some {
            let w = side_word(st.side->0);
            Err(word + " takes no merge options\nhint: '"@ + w
                + "' is applied when a merge starts, so it cannot join one already stopped\nhint: 'git-wt <N> merge abort', then re-run the merge with '"@
                + w + "'"@)
        } else if bad.len() > 0 {
            Err(word + " takes no merge options"@ + " (got "@ + join_words(bad) + ")"@)
        } else {
            Ok(
                MergeArgsSpec {
                    op,
                    message: None,
                    no_ff: false,
                    ff_only: false,
                    squash: false,
                    force: false,
                    side: None,
                    dry_run: false,
                    review: None,
                },
            )
        }
    } else if st.dry_run && start_only_spec(st.message is Some, st.no_ff, st.ff_only, st.squash, st.force).len() > 0 {
        Err("dry-run takes no merge options"@ + " (got "@ + join_words(
            start_only_spec(st.message is Some, st.no_ff, st.ff_only, st.squash, st.force),
        ) + ")"@)
    } else if st.source is None {
        Err(NEEDS_SOURCE@)
    } else {
        Ok(
            MergeArgsSpec {
                op: MergeOpSpec::Start(st.source->0),
                message: st.message,
                no_ff: st.no_ff,
                ff_only: st.ff_only,
                squash: st.squash,
                force: st.force,
                side: st.side,
                dry_run: st.dry_run,
                review: st.review,
            },
        )
    }
}

/// What the words after a `merge` verb ask for.
pub open spec fn parse_merge_spec(args: Seq<Seq<char>>) -> Result<MergeArgsSpec, Seq<char>> {
    match merge_scan(args, 0, fresh_scan()) {
        Ok(st) => finish_spec(st),
        Err(e) => Err(e),
    }
}

/// Whatever the words, an accepted `merge` means one thing: a resume
/// carries no option, `--no-ff` never stands with `--ff-only` nor
/// `--squash` with `--no-ff`, and a review carries no merge option.
pub proof fn lemma_merge_means_one_thing(args: Seq<Seq<char>>)
    ensures
        parse_merge_spec(args) matches Ok(a) ==> {
            &&& !(a.op is Start) ==> (a.message is None && !a.no_ff && !a.ff_only && !a.squash && !a.force
                && a.side is None && !a.dry_run && a.review is None)
            &&& !(a.no_ff && a.ff_only)
            &&& !(a.squash && a.no_ff)
            &&& a.review is Some ==> (a.message is None && !a.no_ff && !a.ff_only && !a.squash && !a.force
                && a.side is None && !a.dry_run)
        },
{
    if let Ok(st) = merge_scan(args, 0, fresh_scan()) {
        if st.review is Some && review_bad(st).len() == 0 {
            assert(st.message is None && !st.no_ff && !st.ff_only && !st.squash && !st.force) by {
                if st.message is Some || st.no_ff || st.ff_only || st.squash || st.force {
                    assert(start_only_spec(st.message is Some, st.no_ff, st.ff_only, st.squash, st.force).len() > 0);
                }
            }
        }
    }
}

pub open spec fn merge_result(r: Result<MergeArgs, String>) -> Result<MergeArgsSpec, Seq<char>> {
    match r {
        Ok(m) => Ok(m@),
        Err(e) => Err(e@),
    }
}

pub open spec fn op_view(o: Option<MergeOp>) -> Option<MergeOpSpec> {
    match o {
        Some(x) => Some(x@),
        None => None,
    }
}

pub open spec fn review_view(r: Option<Vec<String>>) -> Option<Seq<Seq<char>>> {
    match r {
        Some(v) => Some(str_views(v@)),
        None => None,
    }
}

/// The scan state the parser's variables hold.
pub open spec fn scan_of(
    source: Option<String>,
    op: Option<MergeOp>,
    message: Option<String>,
    side: Option<Side>,
    flags: (bool, bool, bool, bool, bool),
    review: Option<Vec<String>>,
) -> ScanSpec {
    ScanSpec {
        source: opt_view(source),
        op: op_view(op),
        message: opt_view(message),
        side,
        no_ff: flags.0,
        ff_only: flags.1,
        squash: flags.2,
        force: flags.3,
        dry_run: flags.4,
        review: review_view(review),
    }
}

fn copy_tail(args: &[String], from: usize) -> (r: Vec<String>)
    requires
        from <= args.len(),
    ensures
        str_views(r@) == str_views(args@).skip(from as int),
{
    let mut out: Vec<String> = Vec::new();
    let mut k: usize = from;
    while k < args.len()
        invariant
            from <= k <= args.len(),
            str_views(out@) == str_views(args@).subrange(from as int, k as int),
        decreases args.len() - k,
    {
        let ghost before = str_views(out@);
        out.push(args[k].clone());
        assert(str_views(out@) =~= before.push(args@[k as int]@));
        assert(str_views(args@).subrange(from as int, k + 1) =~= str_views(args@).subrange(
            from as int,
            k as int,
        ).push(args@[k as int]@));
        k = k + 1;
    }
    assert(str_views(args@).subrange(from as int, k as int) =~= str_views(args@).skip(from as int));
    out
}

fn err_of(head: &str, a: &[char], tail: &str) -> (r: String)
    ensures
        r@ == head@ + a@ + tail@,
{
    let mut e = chars_of(head);
    push_all(&mut e, a);
    push_str(&mut e, tail);
    string_of(e.as_slice())
}

fn resume_word(op: &MergeOp) -> (r: &'static str)
    ensures
        r@ == op_word(op@),
{
    match op {
        MergeOp::Continue => "continue",
        _ => "abort",
    }
}

/// Parse the words after a `merge` verb, in either target form.
pub fn parse_merge_args(args: &[String]) -> (r: Result<MergeArgs, String>)
    ensures
        merge_result(r) == parse_merge_spec(str_views(args@)),
{
    let ghost av = str_views(args@);
    let mut source: Option<String> = None;
    let mut op: Option<MergeOp> = None;
    let mut message: Option<String> = None;
    let mut side: Option<Side> = None;
    let mut no_ff = false;
    let mut ff_only = false;
    let mut squash = false;
    let mut force = false;
    let mut dry_run = false;
    let mut review: Option<Vec<String>> = None;
    let mut i: usize = 0;
    while i < args.len()
        invariant
            i <= args.len(),
            av == str_views(args@),
            review is None,
            merge_scan(av, 0, fresh_scan()) == merge_scan(
                av,
                i as int,
                scan_of(source, op, message, side, (no_ff, ff_only, squash, force, dry_run), review),
            ),
        decreases args.len() - i,
    {
        let a = chars_of(args[i].as_str());
        assert(av[i as int] == a@);
        let ghost st = scan_of(source, op, message, side, (no_ff, ff_only, squash, force, dry_run), review);
        if crate::text::is(a.as_slice(), "review") || crate::text::is(a.as_slice(), "--review") {
            let tail = copy_tail(args, i + 1);
            let ghost done = ScanSpec { review: Some(av.skip(i + 1)), ..st };
            proof {
                assert(merge_scan(av, i as int, st) == Ok::<ScanSpec, Seq<char>>(done));
            }
            review = Some(tail);
            let ghost after = scan_of(source, op, message, side, (no_ff, ff_only, squash, force, dry_run), review);
            assert(after == done);
            return finish(source, op, message, side, no_ff, ff_only, squash, force, dry_run, review, Ghost(av));
        } else if crate::text::is(a.as_slice(), "continue") || crate::text::is(a.as_slice(), "--continue")
            || crate::text::is(a.as_slice(), "-c") {
            let ghost next = with_op(st, MergeOpSpec::Continue);
            assert(merge_scan(av, i as int, st) == then_scan(next, av, i + 1));
            match set_merge_op(&mut op, MergeOp::Continue) {
                Ok(()) => {},
                Err(e) => {
                    assert(next == Err::<ScanSpec, Seq<char>>(e@));
                    return Err(e);
                },
            }
            assert(next == Ok::<ScanSpec, Seq<char>>(
                scan_of(source, op, message, side, (no_ff, ff_only, squash, force, dry_run), review),
            ));
            i = i + 1;
        } else if crate::text::is(a.as_slice(), "abort") || crate::text::is(a.as_slice(), "--abort")
            || crate::text::is(a.as_slice(), "-a") {
            let ghost next = with_op(st, MergeOpSpec::Abort);
            assert(merge_scan(av, i as int, st) == then_scan(next, av, i + 1));
            match set_merge_op(&mut op, MergeOp::Abort) {
                Ok(()) => {},
                Err(e) => {
                    assert(next == Err::<ScanSpec, Seq<char>>(e@));
                    return Err(e);
                },
            }
            assert(next == Ok::<ScanSpec, Seq<char>>(
                scan_of(source, op, message, side, (no_ff, ff_only, squash, force, dry_run), review),
            ));
            i = i + 1;
        } else if crate::text::is(a.as_slice(), "ours") || crate::text::is(a.as_slice(), "--ours")
            || crate::text::is(a.as_slice(), "-o") {
            let ghost next = with_side(st, Side::Ours);
            assert(merge_scan(av, i as int, st) == then_scan(next, av, i + 1));
            match set_side(&mut side, Side::Ours) {
                Ok(()) => {},
                Err(e) => {
                    assert(next == Err::<ScanSpec, Seq<char>>(e@));
                    return Err(e);
                },
            }
            assert(next == Ok::<ScanSpec, Seq<char>>(
                scan_of(source, op, message, side, (no_ff, ff_only, squash, force, dry_run), review),
            ));
            i = i + 1;
        } else if crate::text::is(a.as_slice(), "theirs") || crate::text::is(a.as_slice(), "--theirs")
            || crate::text::is(a.as_slice(), "-t") {
            let ghost next = with_side(st, Side::Theirs);
            assert(merge_scan(av, i as int, st) == then_scan(next, av, i + 1));
            match set_side(&mut side, Side::Theirs) {
                Ok(()) => {},
                Err(e) => {
                    assert(next == Err::<ScanSpec, Seq<char>>(e@));
                    return Err(e);
                },
            }
            assert(next == Ok::<ScanSpec, Seq<char>>(
                scan_of(source, op, message, side, (no_ff, ff_only, squash, force, dry_run), review),
            ));
            i = i + 1;
        } else if crate::text::is(a.as_slice(), "dry-run") || crate::text::is(a.as_slice(), "--dry-run")
            || crate::text::is(a.as_slice(), "-d") {
            dry_run = true;
            i = i + 1;
        } else if crate::text::is(a.as_slice(), "-m") || crate::text::is(a.as_slice(), "--message") {
            if i + 1 >= args.len() {
                return Err("--message needs a message".to_string());
            }
            assert(av[i + 1] == args@[i + 1]@);
            message = Some(args[i + 1].clone());
            i = i + 2;
        } else {
            match strip_prefix(a.as_slice(), "--message=") {
                Some(v) => {
                    message = Some(string_of(v.as_slice()));
                },
                None => {
                    if crate::text::is(a.as_slice(), "--no-ff") || crate::text::is(a.as_slice(), "--nf") {
                        no_ff = true;
                    } else if crate::text::is(a.as_slice(), "--ff-only") || crate::text::is(a.as_slice(), "--fo") {
                        ff_only = true;
                    } else if crate::text::is(a.as_slice(), "--squash") {
                        squash = true;
                    } else if crate::text::is(a.as_slice(), "-f") || crate::text::is(a.as_slice(), "--force") {
                        force = true;
                    } else if a.len() > 0 && a[0] == '-' && !crate::text::is(a.as_slice(), "-") {
                        return Err(err_of("unknown option '", a.as_slice(), "' for merge\nTry 'git-wt --help'"));
                    } else if source.is_some() {
                        return Err("too many arguments\nTry 'git-wt --help'".to_string());
                    } else {
                        source = Some(args[i].clone());
                    }
                },
            }
            i = i + 1;
        }
    }
    finish(source, op, message, side, no_ff, ff_only, squash, force, dry_run, review, Ghost(av))
}

/// The refusal a `--review` owes for the merge options claimed before it.
fn review_refusal(st_review: bool, bad: &Vec<&'static str>) -> (r: Option<String>)
    ensures
        (st_review && bad@.len() > 0) ==> (r matches Some(e) && e@ == "review takes no merge options (got "@
            + join_words(word_views(bad@)) + ")"@ + REVIEW_HINT@),
        !(st_review && bad@.len() > 0) ==> r is None,
{
    if st_review && bad.len() > 0 {
        let mut e = chars_of("review takes no merge options (got ");
        let j = join_of(bad);
        push_all(&mut e, j.as_slice());
        push_str(&mut e, ")");
        push_str(&mut e, REVIEW_HINT);
        Some(string_of(e.as_slice()))
    } else {
        None
    }
}

/// The refusal a resume owes for a side it cannot honor.
fn side_refusal(word: &str, w: &str) -> (r: String)
    ensures
        r@ == word@ + " takes no merge options\nhint: '"@ + w@
            + "' is applied when a merge starts, so it cannot join one already stopped\nhint: 'git-wt <N> merge abort', then re-run the merge with '"@
            + w@ + "'"@,
{
    let mut e = chars_of(word);
    push_str(&mut e, " takes no merge options\nhint: '");
    push_str(&mut e, w);
    push_str(
        &mut e,
        "' is applied when a merge starts, so it cannot join one already stopped\nhint: 'git-wt <N> merge abort', then re-run the merge with '",
    );
    push_str(&mut e, w);
    push_str(&mut e, "'");
    string_of(e.as_slice())
}

/// `<head> (got <flags>)`.
fn got_refusal(head: &str, bad: &Vec<&'static str>) -> (r: String)
    ensures
        r@ == head@ + " (got "@ + join_words(word_views(bad@)) + ")"@,
{
    let mut e = chars_of(head);
    push_str(&mut e, " (got ");
    let j = join_of(bad);
    push_all(&mut e, j.as_slice());
    push_str(&mut e, ")");
    string_of(e.as_slice())
}

/// What a resume word's invocation comes to.
fn finish_resume(
    o: MergeOp,
    source: Option<String>,
    side: Option<Side>,
    bad: Vec<&'static str>,
) -> (r: Result<MergeArgs, String>)
    ensures
        ({
            let word = op_word(o@);
            match r {
                Ok(m) => source is None && side is None && bad@.len() == 0 && m@ == (MergeArgsSpec {
                    op: o@,
                    message: None,
                    no_ff: false,
                    ff_only: false,
                    squash: false,
                    force: false,
                    side: None,
                    dry_run: false,
                    review: None,
                }),
                Err(e) => if source is Some {
                    e@ == word + " takes no argument (got '"@ + opt_view(source)->0 + "')"@
                } else if side is Some {
                    e@ == word + " takes no merge options\nhint: '"@ + side_word(side->0)
                        + "' is applied when a merge starts, so it cannot join one already stopped\nhint: 'git-wt <N> merge abort', then re-run the merge with '"@
                        + side_word(side->0) + "'"@
                } else {
                    bad@.len() > 0 && e@ == word + " takes no merge options"@ + " (got "@ + join_words(
                        word_views(bad@),
                    ) + ")"@
                },
            }
        }),
{
    let word = resume_word(&o);
    match &source {
        Some(s) => {
            let mut e = chars_of(word);
            push_str(&mut e, " takes no argument (got '");
            push_str(&mut e, s.as_str());
            push_str(&mut e, "')");
            return Err(string_of(e.as_slice()));
        },
        None => {},
    }
    match side {
        Some(sd) => {
            return Err(side_refusal(word, sd.word()));
        },
        None => {},
    }
    if bad.len() > 0 {
        let mut head = chars_of(word);
        push_str(&mut head, " takes no merge options");
        let hs = string_of(head.as_slice());
        return Err(got_refusal(hs.as_str(), &bad));
    }
    Ok(
        MergeArgs {
            op: o,
            message: None,
            no_ff: false,
            ff_only: false,
            squash: false,
            force: false,
            side: None,
            dry_run: false,
            review: None,
        },
    )
}

/// The rules checked once every word is read.
#[verifier::rlimit(40)]
fn finish(
    source: Option<String>,
    op: Option<MergeOp>,
    message: Option<String>,
    side: Option<Side>,
    no_ff: bool,
    ff_only: bool,
    squash: bool,
    force: bool,
    dry_run: bool,
    review: Option<Vec<String>>,
    Ghost(av): Ghost<Seq<Seq<char>>>,
) -> (r: Result<MergeArgs, String>)
    requires
        merge_scan(av, 0, fresh_scan()) == Ok::<ScanSpec, Seq<char>>(
            scan_of(source, op, message, side, (no_ff, ff_only, squash, force, dry_run), review),
        ),
    ensures
        merge_result(r) == parse_merge_spec(av),
{
    let ghost st = scan_of(source, op, message, side, (no_ff, ff_only, squash, force, dry_run), review);
    let mut rbad = start_only_flags(message.as_ref(), no_ff, ff_only, squash, force);
    if dry_run {
        rbad.push("dry-run");
    }
    match side {
        Some(sd) => {
            rbad.push(sd.word());
        },
        None => {},
    }
    match &op {
        Some(o) => {
            rbad.push(resume_word(o));
        },
        None => {},
    }
    assert(word_views(rbad@) =~= review_bad(st));
    match review_refusal(review.is_some(), &rbad) {
        Some(e) => {
            return Err(e);
        },
        None => {},
    }
    if no_ff && ff_only {
        return Err("--no-ff and --ff-only conflict".to_string());
    }
    if squash && no_ff {
        return Err("--squash and --no-ff conflict".to_string());
    }
    let mut bad = start_only_flags(message.as_ref(), no_ff, ff_only, squash, force);
    let ghost plain = word_views(bad@);
    match op {
        Some(o) => {
            if dry_run {
                bad.push("dry-run");
            }
            assert(word_views(bad@) =~= plain + (if dry_run {
                seq!["dry-run"@]
            } else {
                Seq::empty()
            }));
            return finish_resume(o, source, side, bad);
        },
        None => {},
    }
    if dry_run && bad.len() > 0 {
        return Err(got_refusal("dry-run takes no merge options", &bad));
    }
    let src = match source {
        Some(s) => s,
        None => {
            return Err(NEEDS_SOURCE.to_string());
        },
    };
    Ok(MergeArgs { op: MergeOp::Start(src), message, no_ff, ff_only, squash, force, side, dry_run, review })
}

// ---------------------------------------------------------------------------
// Running the merge
// ---------------------------------------------------------------------------

/// Whether `git status --porcelain` reports changes to tracked files,
/// staged or not: any line that is not blank and not `??`. Untracked files
/// do not count; git refuses on its own a merge that would overwrite one.
pub open spec fn tracked_changes_spec(porcelain: Seq<char>) -> bool {
    exists|i: int|
        0 <= i < lines_spec(porcelain).len() && trim_spec(#[trigger] lines_spec(porcelain)[i]).len() > 0
            && !is_prefix("??"@, lines_spec(porcelain)[i])
}

/// Whether a worktree has uncommitted changes to tracked files.
pub fn has_tracked_changes(porcelain: &str) -> (r: bool)
    ensures
        r == tracked_changes_spec(porcelain@),
{
    let c = chars_of(porcelain);
    let ls = lines(c.as_slice());
    let ghost lv = views(ls@);
    let mut i: usize = 0;
    while i < ls.len()
        invariant
            i <= ls.len(),
            lv == views(ls@),
            lv == lines_spec(porcelain@),
            forall|k: int| 0 <= k < i ==> !(trim_spec(#[trigger] lv[k]).len() > 0 && !is_prefix("??"@, lv[k])),
        decreases ls.len() - i,
    {
        assert(lv[i as int] == ls@[i as int]@);
        let t = trim(ls[i].as_slice());
        if t.len() > 0 && !crate::text::starts_with_str(ls[i].as_slice(), "??") {
            return true;
        }
        i = i + 1;
    }
    false
}

/// The paths with unresolved conflicts: one per line of `git diff
/// --name-only --diff-filter=U`, nothing where it failed.
pub fn conflicted_files(out: Option<&str>) -> (r: Vec<String>)
    ensures
        out matches Some(o) ==> str_views(r@) == lines_spec(o@),
        out is None ==> r@.len() == 0,
{
    match out {
        Some(o) => crate::commits::rows::line_strings(o),
        None => Vec::new(),
    }
}

/// The lines naming each conflicted file.
pub open spec fn file_list(files: Seq<Seq<char>>) -> Seq<char>
    decreases files.len(),
{
    if files.len() == 0 {
        Seq::empty()
    } else {
        file_list(files.drop_last()) + "  "@ + files.last() + "\n"@
    }
}

fn push_file_list(out: &mut Vec<char>, files: &[String])
    ensures
        final(out)@ == old(out)@ + file_list(str_views(files@)),
{
    let ghost fv = str_views(files@);
    let mut i: usize = 0;
    while i < files.len()
        invariant
            i <= files.len(),
            fv == str_views(files@),
            out@ == old(out)@ + file_list(fv.take(i as int)),
        decreases files.len() - i,
    {
        assert(fv.take(i + 1).drop_last() =~= fv.take(i as int));
        assert(fv.take(i + 1).last() == files@[i as int]@);
        push_str(out, "  ");
        push_str(out, files[i].as_str());
        push_str(out, "\n");
        i = i + 1;
    }
    assert(fv.take(i as int) =~= fv);
}

/// The message a merge that stopped on conflicts ends with: where, which
/// files, and the ways out, naming the worktree by its number (`idx + 1`).
pub open spec fn conflict_msg_spec(dir: Seq<char>, files: Seq<Seq<char>>, idx: nat) -> Seq<char> {
    let n = decimal(idx + 1);
    "merge conflict in "@ + dir + "\n"@ + file_list(files) + "hint: resolve them there, 'git add' each, then 'git-wt "@
        + n + " merge continue'\nhint: or undo the merge with 'git-wt "@ + n
        + " merge abort'\nhint: or redo it letting one side win: 'git-wt "@ + n
        + " merge abort', then 'git-wt "@ + n + ",<M> merge theirs'"@
}

/// The message shown when a merge stops on conflicts.
pub fn conflict_msg(dir: &str, files: &[String], idx: usize) -> (r: String)
    requires
        idx < usize::MAX,
    ensures
        r@ == conflict_msg_spec(dir@, str_views(files@), idx as nat),
{
    let mut m = chars_of("merge conflict in ");
    push_str(&mut m, dir);
    push_str(&mut m, "\n");
    push_file_list(&mut m, files);
    let n = decimal_of(idx + 1);
    push_str(&mut m, "hint: resolve them there, 'git add' each, then 'git-wt ");
    push_all(&mut m, n.as_slice());
    push_str(&mut m, " merge continue'\nhint: or undo the merge with 'git-wt ");
    push_all(&mut m, n.as_slice());
    push_str(&mut m, " merge abort'\nhint: or redo it letting one side win: 'git-wt ");
    push_all(&mut m, n.as_slice());
    push_str(&mut m, " merge abort', then 'git-wt ");
    push_all(&mut m, n.as_slice());
    push_str(&mut m, ",<M> merge theirs'");
    assert(m@ =~= conflict_msg_spec(dir@, str_views(files@), idx as nat));
    string_of(m.as_slice())
}

/// A merge source resolved to a branch: a number naming a worktree wins
/// over a branch of that name and gives its branch (an error for one with
/// none); otherwise the word itself when git resolves it to a commit
/// (`is_commit`).
pub open spec fn merge_source_spec(trees: Seq<Worktree>, source: Seq<char>, is_commit: bool) -> Result<Seq<char>, Seq<char>> {
    match parse_usize_spec(source) {
        Some(n) if 1 <= n <= trees.len() => match trees[n - 1].branch {
            Some(b) => Ok(b@),
            None => Err("worktree "@ + decimal(n as nat) + " is "@ + crate::worktree::label_spec(trees[n - 1])
                + " — no branch to merge"@),
        },
        _ => if is_commit {
            Ok(source)
        } else {
            Err("no worktree or branch '"@ + source + "' (see 'git-wt list')"@)
        },
    }
}

/// Resolve a merge source word to a branch name.
pub fn resolve_merge_source(trees: &[Worktree], source: &str, is_commit: bool) -> (r: Result<String, String>)
    ensures
        crate::commits::rows::result_view(r) == merge_source_spec(trees@, source@, is_commit),
{
    let c = chars_of(source);
    match parse_usize(c.as_slice()) {
        Some(n) => {
            if n >= 1 && n <= trees.len() {
                let w = &trees[n - 1];
                match &w.branch {
                    Some(b) => {
                        return Ok(b.clone());
                    },
                    None => {
                        let mut e = chars_of("worktree ");
                        let d = decimal_of(n);
                        push_all(&mut e, d.as_slice());
                        push_str(&mut e, " is ");
                        let l = crate::worktree::label(w);
                        push_str(&mut e, l.as_str());
                        push_str(&mut e, " — no branch to merge");
                        return Err(string_of(e.as_slice()));
                    },
                }
            }
        },
        None => {},
    }
    if is_commit {
        return Ok(source.to_string());
    }
    let mut e = chars_of("no worktree or branch '");
    push_str(&mut e, source);
    push_str(&mut e, "' (see 'git-wt list')");
    Err(string_of(e.as_slice()))
}

/// What a merge probe found: a merge that resolves, or the paths that
/// collide.
#[derive(Debug, PartialEq, Eq)]
pub enum MergeVerdict {
    Clean,
    Conflict(Vec<String>),
}

/// The conflicted paths of `git merge-tree --write-tree --name-only`
/// output: after the tree's oid, up to the blank line before git's own
/// commentary.
pub open spec fn collided_from(ls: Seq<Seq<char>>, i: int) -> Seq<Seq<char>>
    decreases ls.len() - i,
{
    if i < 1 || i >= ls.len() || trim_spec(ls[i]).len() == 0 {
        Seq::empty()
    } else {
        seq![ls[i]] + collided_from(ls, i + 1)
    }
}

/// Would the source merge cleanly? From `git merge-tree --write-tree
/// --name-only HEAD <src>`'s exit code and output: 0 is clean, 1 lists the
/// collisions, anything else is git failing (an old git without
/// `--write-tree` named as such).
pub open spec fn probe_spec(code: Option<i32>, stdout: Seq<char>, stderr: Seq<char>) -> Result<Option<Seq<Seq<char>>>, Seq<char>> {
    if code == Some(0i32) {
        Ok(None)
    } else if code == Some(1i32) {
        Ok(Some(collided_from(lines_spec(stdout), 1)))
    } else if contains_spec(stderr, "unknown option"@) || contains_spec(stderr, "usage:"@) {
        Err("dry-run needs git 2.38 or newer (git merge-tree --write-tree)"@)
    } else {
        Err(trim_spec(stderr))
    }
}

pub open spec fn verdict_view(r: Result<MergeVerdict, String>) -> Result<Option<Seq<Seq<char>>>, Seq<char>> {
    match r {
        Ok(MergeVerdict::Clean) => Ok(None),
        Ok(MergeVerdict::Conflict(v)) => Ok(Some(str_views(v@))),
        Err(e) => Err(e@),
    }
}

/// Read the merge probe's outcome.
pub fn merge_probe(code: Option<i32>, stdout: &str, stderr: &str) -> (r: Result<MergeVerdict, String>)
    ensures
        verdict_view(r) == probe_spec(code, stdout@, stderr@),
{
    match code {
        Some(0) => Ok(MergeVerdict::Clean),
        Some(1) => {
            let c = chars_of(stdout);
            let ls = lines(c.as_slice());
            let ghost lv = views(ls@);
            let mut files: Vec<String> = Vec::new();
            let mut i: usize = 1;
            let mut going = true;
            while going && i < ls.len()
                invariant
                    1 <= i <= ls.len() || (ls.len() == 0 && i == 1),
                    lv == views(ls@),
                    going ==> collided_from(lv, 1) == str_views(files@) + collided_from(lv, i as int),
                    !going ==> collided_from(lv, 1) == str_views(files@),
                decreases ls.len() + (if going { 1int } else { 0int }) - i,
            {
                assert(lv[i as int] == ls@[i as int]@);
                let t = trim(ls[i].as_slice());
                if t.len() == 0 {
                    going = false;
                    assert(str_views(files@) + Seq::<Seq<char>>::empty() =~= str_views(files@));
                } else {
                    let ghost before = str_views(files@);
                    files.push(string_of(ls[i].as_slice()));
                    assert(str_views(files@) =~= before.push(lv[i as int]));
                    assert(before + collided_from(lv, i as int) =~= str_views(files@) + collided_from(
                        lv,
                        i + 1,
                    ));
                    i = i + 1;
                }
            }
            if going {
                assert(str_views(files@) + collided_from(lv, i as int) =~= str_views(files@));
            }
            Ok(MergeVerdict::Conflict(files))
        },
        _ => {
            let e = chars_of(stderr);
            let u1 = chars_of("unknown option");
            let u2 = chars_of("usage:");
            if crate::text::contains(e.as_slice(), u1.as_slice()) || crate::text::contains(
                e.as_slice(),
                u2.as_slice(),
            ) {
                return Err("dry-run needs git 2.38 or newer (git merge-tree --write-tree)".to_string());
            }
            let t = trim(e.as_slice());
            Err(string_of(t.as_slice()))
        },
    }
}

/// What a dry run reports: `Clean` (painted) and that the source merges
/// cleanly; or, as the error, that it does not, the colliding files, and
/// two hints.
pub open spec fn dry_run_spec(v: Option<Seq<Seq<char>>>, src: Seq<char>, into: Seq<char>, color: bool) -> Result<Seq<char>, Seq<char>> {
    match v {
        None => Ok(paint_spec("Clean"@, GREEN@, color) + " "@ + src + " merges into "@ + into + " cleanly"@),
        Some(files) => Err(src + " does NOT merge into "@ + into + " cleanly\n"@ + file_list(files)
            + "hint: nothing was changed — this was a dry run\n"@
            + "hint: 'ours' or 'theirs' would settle these automatically"@),
    }
}

/// The dry run's report from the probe's verdict.
pub fn merge_dry_run(v: &MergeVerdict, src: &str, into: &str, color: bool) -> (r: Result<String, String>)
    ensures
        crate::commits::rows::result_view(r) == dry_run_spec(
            match v {
                MergeVerdict::Clean => None,
                MergeVerdict::Conflict(f) => Some(str_views(f@)),
            },
            src@,
            into@,
            color,
        ),
{
    match v {
        MergeVerdict::Clean => {
            let mut m: Vec<char> = Vec::new();
            let clean = chars_of("Clean");
            push_painted(&mut m, clean.as_slice(), GREEN, color);
            push_str(&mut m, " ");
            push_str(&mut m, src);
            push_str(&mut m, " merges into ");
            push_str(&mut m, into);
            push_str(&mut m, " cleanly");
            Ok(string_of(m.as_slice()))
        },
        MergeVerdict::Conflict(files) => {
            let mut m = chars_of(src);
            push_str(&mut m, " does NOT merge into ");
            push_str(&mut m, into);
            push_str(&mut m, " cleanly\n");
            push_file_list(&mut m, files.as_slice());
            push_str(&mut m, "hint: nothing was changed — this was a dry run\n");
            push_str(&mut m, "hint: 'ours' or 'theirs' would settle these automatically");
            Err(string_of(m.as_slice()))
        },
    }
}

/// How many commits `git rev-list --count <dest>..<src>` counted: its
/// trimmed output as a number, 0 when it is none.
pub open spec fn count_of(out: Seq<char>) -> nat {
    match parse_usize_spec(trim_spec(out)) {
        Some(n) => n as nat,
        None => 0,
    }
}

/// The verdict line above a `merge --review` table: what the merge would
/// carry and whether it lands, or, with nothing to carry, that the
/// destination already has it all.
pub open spec fn review_header_spec(n: nat, conflict: bool, src: Seq<char>, dest: Seq<char>, color: bool) -> Seq<char> {
    if n == 0 {
        paint_spec("Merged"@, GREEN@, color) + " "@ + src + " is already in "@ + dest
    } else {
        src + " -> "@ + dest + "   "@ + decimal(n) + (if n == 1 {
            " commit, "@
        } else {
            " commits, "@
        }) + (if conflict {
            "does NOT merge cleanly"@
        } else {
            paint_spec("merges cleanly"@, GREEN@, color)
        })
    }
}

/// The review's verdict line, from the range's count and the probe.
pub fn review_header(count_out: &str, v: &MergeVerdict, src: &str, dest: &str, color: bool) -> (r: String)
    ensures
        r@ == review_header_spec(count_of(count_out@), v is Conflict, src@, dest@, color),
{
    let t = trim(chars_of(count_out).as_slice());
    let n: usize = match parse_usize(t.as_slice()) {
        Some(k) => k,
        None => 0,
    };
    let mut m: Vec<char> = Vec::new();
    if n == 0 {
        push_painted(&mut m, chars_of("Merged").as_slice(), GREEN, color);
        push_str(&mut m, " ");
        push_str(&mut m, src);
        push_str(&mut m, " is already in ");
        push_str(&mut m, dest);
    } else {
        push_str(&mut m, src);
        push_str(&mut m, " -> ");
        push_str(&mut m, dest);
        push_str(&mut m, "   ");
        push_all(&mut m, decimal_of(n).as_slice());
        if n == 1 {
            push_str(&mut m, " commit, ");
        } else {
            push_str(&mut m, " commits, ");
        }
        match v {
            MergeVerdict::Conflict(_) => push_str(&mut m, "does NOT merge cleanly"),
            MergeVerdict::Clean => push_painted(&mut m, chars_of("merges cleanly").as_slice(), GREEN, color),
        }
    }
    string_of(m.as_slice())
}

/// How `merge --review` ends once its table is out: cleanly, or with the
/// colliding paths (counted, one per line) and two hints.
pub open spec fn review_end_spec(files: Seq<Seq<char>>) -> Seq<char> {
    decimal(files.len()) + (if files.len() == 1 {
        " conflicting path:\n"@
    } else {
        " conflicting paths:\n"@
    }) + file_list(files) + "hint: nothing was changed — this was a review\n"@
        + "hint: 'ours' or 'theirs' would settle these automatically"@
}

/// `merge --review`'s outcome after the table: `Ok` when the probe found
/// the merge clean, else the conflict report as the error.
pub fn cmd_merge_review(v: &MergeVerdict) -> (r: Result<(), String>)
    ensures
        v is Clean ==> r is Ok,
        v matches MergeVerdict::Conflict(f) ==> (r matches Err(e) && e@ == review_end_spec(str_views(f@))),
{
    match v {
        MergeVerdict::Clean => Ok(()),
        MergeVerdict::Conflict(files) => {
            let mut m: Vec<char> = Vec::new();
            push_all(&mut m, decimal_of(files.len()).as_slice());
            if files.len() == 1 {
                push_str(&mut m, " conflicting path:\n");
            } else {
                push_str(&mut m, " conflicting paths:\n");
            }
            push_file_list(&mut m, files.as_slice());
            push_str(&mut m, "hint: nothing was changed — this was a review\n");
            push_str(&mut m, "hint: 'ours' or 'theirs' would settle these automatically");
            Err(string_of(m.as_slice()))
        },
    }
}

/// The `git merge` a started merge runs: its shaping flags, the side as a
/// strategy option, the message, then the source branch.
pub open spec fn merge_argv_spec(a: MergeArgsSpec, src: Seq<char>) -> Seq<Seq<char>> {
    seq!["merge"@] + (if a.no_ff {
        seq!["--no-ff"@]
    } else {
        Seq::empty()
    }) + (if a.ff_only {
        seq!["--ff-only"@]
    } else {
        Seq::empty()
    }) + (if a.squash {
        seq!["--squash"@]
    } else {
        Seq::empty()
    }) + (match a.side {
        Some(sd) => seq!["-X"@, side_word(sd)],
        None => Seq::empty(),
    }) + (match a.message {
        Some(m) => seq!["-m"@, m],
        None => Seq::empty(),
    }) + seq![src]
}

/// The `git merge` command line asks for what was asked and nothing else:
/// it starts with `merge` and ends with the source branch; each flag the
/// user gave is on it (`--ff-only` for `--ff-only`, `--no-ff`, `--squash`,
/// `-X` with the side, `-m` with the message); every word on it is one of
/// those; and `--ff-only` is on it only when it was asked for (or is the
/// message or branch name itself).
pub proof fn lemma_merge_argv_asks_what_was_asked(a: MergeArgsSpec, src: Seq<char>)
    ensures
        merge_argv_spec(a, src).len() >= 2,
        merge_argv_spec(a, src)[0] == "merge"@,
        merge_argv_spec(a, src).last() == src,
        a.ff_only ==> merge_argv_spec(a, src).contains("--ff-only"@),
        a.no_ff ==> merge_argv_spec(a, src).contains("--no-ff"@),
        a.squash ==> merge_argv_spec(a, src).contains("--squash"@),
        a.side matches Some(sd) ==> merge_argv_spec(a, src).contains("-X"@) && merge_argv_spec(
            a,
            src,
        ).contains(side_word(sd)),
        a.message matches Some(m) ==> merge_argv_spec(a, src).contains("-m"@) && merge_argv_spec(
            a,
            src,
        ).contains(m),
        forall|i: int|
            0 <= i < merge_argv_spec(a, src).len() ==> {
                let w = #[trigger] merge_argv_spec(a, src)[i];
                ||| w == "merge"@
                ||| w == "--no-ff"@ && a.no_ff
                ||| w == "--ff-only"@ && a.ff_only
                ||| w == "--squash"@ && a.squash
                ||| w == "-X"@ && a.side is Some
                ||| (a.side matches Some(sd) && w == side_word(sd))
                ||| w == "-m"@ && a.message is Some
                ||| a.message == Some(w)
                ||| w == src
            },
        !a.ff_only && a.message != Some("--ff-only"@) && src != "--ff-only"@ ==> !merge_argv_spec(
            a,
            src,
        ).contains("--ff-only"@),
{
    reveal_strlit("merge");
    reveal_strlit("--no-ff");
    reveal_strlit("--ff-only");
    reveal_strlit("--squash");
    reveal_strlit("-X");
    reveal_strlit("-m");
    reveal_strlit("ours");
    reveal_strlit("theirs");
    let p0: Seq<Seq<char>> = seq!["merge"@];
    let p1: Seq<Seq<char>> = if a.no_ff { seq!["--no-ff"@] } else { Seq::empty() };
    let p2: Seq<Seq<char>> = if a.ff_only { seq!["--ff-only"@] } else { Seq::empty() };
    let p3: Seq<Seq<char>> = if a.squash { seq!["--squash"@] } else { Seq::empty() };
    let p4: Seq<Seq<char>> = match a.side {
        Some(sd) => seq!["-X"@, side_word(sd)],
        None => Seq::empty(),
    };
    let p5: Seq<Seq<char>> = match a.message {
        Some(m) => seq!["-m"@, m],
        None => Seq::empty(),
    };
    let p6: Seq<Seq<char>> = seq![src];
    let v = merge_argv_spec(a, src);
    assert(v =~= p0 + p1 + p2 + p3 + p4 + p5 + p6);
    let o1 = p0.len() as int;
    let o2 = o1 + p1.len();
    let o3 = o2 + p2.len();
    let o4 = o3 + p3.len();
    let o5 = o4 + p4.len();
    let o6 = o5 + p5.len();
    assert(v.len() == o6 + 1);
    assert forall|i: int| 0 <= i < v.len() implies {
        let w = #[trigger] v[i];
        ||| w == "merge"@
        ||| w == "--no-ff"@ && a.no_ff
        ||| w == "--ff-only"@ && a.ff_only
        ||| w == "--squash"@ && a.squash
        ||| w == "-X"@ && a.side is Some
        ||| (a.side matches Some(sd) && w == side_word(sd))
        ||| w == "-m"@ && a.message is Some
        ||| a.message == Some(w)
        ||| w == src
    } by {
        if i < o1 {
            assert(v[i] == p0[i]);
        } else if i < o2 {
            assert(v[i] == p1[i - o1]);
        } else if i < o3 {
            assert(v[i] == p2[i - o2]);
        } else if i < o4 {
            assert(v[i] == p3[i - o3]);
        } else if i < o5 {
            assert(v[i] == p4[i - o4]);
        } else if i < o6 {
            assert(v[i] == p5[i - o5]);
        } else {
            assert(v[i] == p6[i - o6]);
        }
    }
    if a.no_ff {
        assert(v[o1] == "--no-ff"@);
    }
    if a.ff_only {
        assert(v[o2] == "--ff-only"@);
    }
    if a.squash {
        assert(v[o3] == "--squash"@);
    }
    if let Some(sd) = a.side {
        assert(v[o4] == "-X"@);
        assert(v[o4 + 1] == side_word(sd));
    }
    if let Some(m) = a.message {
        assert(v[o5] == "-m"@);
        assert(v[o5 + 1] == m);
    }
    assert(v[o6] == src);
    if !a.ff_only && a.message != Some("--ff-only"@) && src != "--ff-only"@ {
        assert forall|i: int| 0 <= i < v.len() implies v[i] != "--ff-only"@ by {
            let w = v[i];
            if w == "--ff-only"@ {
                assert(w.len() == 9);
                match a.side {
                    Some(sd) => {
                        assert(side_word(sd).len() != 9);
                    },
                    None => {},
                }
            }
        }
    }
}

/// The arguments of the `git merge` for a started merge.
pub fn merge_argv(args: &MergeArgs, src_branch: &str) -> (r: Vec<String>)
    ensures
        str_views(r@) == merge_argv_spec(args@, src_branch@),
{
    let mut argv: Vec<String> = Vec::new();
    argv.push("merge".to_string());
    if args.no_ff {
        argv.push("--no-ff".to_string());
    }
    if args.ff_only {
        argv.push("--ff-only".to_string());
    }
    if args.squash {
        argv.push("--squash".to_string());
    }
    match args.side {
        Some(sd) => {
            argv.push("-X".to_string());
            argv.push(sd.strategy_option().to_string());
        },
        None => {},
    }
    match &args.message {
        Some(m) => {
            argv.push("-m".to_string());
            argv.push(m.clone());
        },
        None => {},
    }
    argv.push(src_branch.to_string());
    assert(str_views(argv@) =~= merge_argv_spec(args@, src_branch@));
    argv
}

// ---------------------------------------------------------------------------
// Before a merge starts
// ---------------------------------------------------------------------------

/// What happens to a merge already stopped in the destination when a new
/// one is asked for.
#[derive(Debug, PartialEq, Eq)]
pub enum Restart {
    /// None is in progress: go on.
    Clear,
    /// Refused: finish or abort the one in progress first.
    Refuse(String),
    /// `ours`/`theirs` only apply as a merge starts: ask whether to abort
    /// the stopped one and merge again, with this prompt.
    Ask(String),
}

pub open spec fn in_progress_msg(dir: Seq<char>, n: nat) -> Seq<char> {
    "a merge is already in progress in "@ + dir + "\nhint: 'git-wt "@ + decimal(n) + " merge continue' or 'git-wt "@
        + decimal(n) + " merge abort'"@
}

/// The prompt before redoing a stopped merge under a side: what is lost
/// says whether the tree holds uncommitted work beyond the conflict.
pub open spec fn restart_prompt(src: Seq<char>, word: Seq<char>, at_risk: bool) -> Seq<char> {
    "Abort it and re-merge '"@ + src + "' with '"@ + word + "'? "@ + (if at_risk {
        "Uncommitted changes in that tree, including any conflict resolution already done, are discarded"@
    } else {
        "Any conflict resolution already done there is discarded"@
    }) + ". [y/N] "@
}

/// What a new merge does about one in progress in `dir` (worktree `n`):
/// nothing when none is; refused without a side; asked about with one.
/// `at_risk` is whether the tree's status shows tracked changes (or could
/// not be read).
pub fn restart(in_progress: bool, side: Option<Side>, at_risk: bool, src: &str, dir: &str, n: usize) -> (r: Restart)
    ensures
        !in_progress ==> r == Restart::Clear,
        in_progress && side is None ==> (r matches Restart::Refuse(m) && m@ == in_progress_msg(dir@, n as nat)),
        in_progress ==> (side matches Some(sd) ==> (r matches Restart::Ask(m) && m@ == restart_prompt(
            src@,
            side_word(sd),
            at_risk,
        ))),
{
    if !in_progress {
        return Restart::Clear;
    }
    match side {
        None => {
            let mut m: Vec<char> = Vec::new();
            push_str(&mut m, "a merge is already in progress in ");
            push_str(&mut m, dir);
            push_str(&mut m, "\nhint: 'git-wt ");
            push_all(&mut m, decimal_of(n).as_slice());
            push_str(&mut m, " merge continue' or 'git-wt ");
            push_all(&mut m, decimal_of(n).as_slice());
            push_str(&mut m, " merge abort'");
            Restart::Refuse(string_of(m.as_slice()))
        },
        Some(sd) => {
            let mut m: Vec<char> = Vec::new();
            push_str(&mut m, "Abort it and re-merge '");
            push_str(&mut m, src);
            push_str(&mut m, "' with '");
            push_str(&mut m, sd.word());
            push_str(&mut m, "'? ");
            if at_risk {
                push_str(
                    &mut m,
                    "Uncommitted changes in that tree, including any conflict resolution already done, are discarded",
                );
            } else {
                push_str(&mut m, "Any conflict resolution already done there is discarded");
            }
            push_str(&mut m, ". [y/N] ");
            assert(m@ =~= restart_prompt(src@, side_word(sd), at_risk));
            Restart::Ask(string_of(m.as_slice()))
        },
    }
}

/// A merge into uncommitted work needs `--force`: the refusal, when owed.
pub fn dirty_refusal(force: bool, dirty: bool, n: usize) -> (r: Option<String>)
    ensures
        (r is Some) == (!force && dirty),
        r matches Some(m) ==> m@ == "worktree "@ + decimal(n as nat)
            + " has uncommitted changes\nhint: commit or stash them, or re-run with -f"@,
{
    if force || !dirty {
        return None;
    }
    let mut m: Vec<char> = Vec::new();
    push_str(&mut m, "worktree ");
    push_all(&mut m, decimal_of(n).as_slice());
    push_str(&mut m, " has uncommitted changes\nhint: commit or stash them, or re-run with -f");
    Some(string_of(m.as_slice()))
}

/// The source is the destination's own branch: a merge of a branch into
/// itself is refused.
pub fn same_branch_refusal(dest_branch: Option<&str>, src: &str, n: usize) -> (r: Option<String>)
    ensures
        (r is Some) == (crate::commits::rows::opt_str(dest_branch) == Some(src@)),
        r matches Some(m) ==> m@ == "'"@ + src@ + "' is already checked out in worktree "@ + decimal(n as nat),
{
    match dest_branch {
        Some(b) => {
            let bc = chars_of(b);
            let sc = chars_of(src);
            if crate::text::same(bc.as_slice(), sc.as_slice()) {
                let mut m: Vec<char> = Vec::new();
                push_str(&mut m, "'");
                push_str(&mut m, src);
                push_str(&mut m, "' is already checked out in worktree ");
                push_all(&mut m, decimal_of(n).as_slice());
                Some(string_of(m.as_slice()))
            } else {
                None
            }
        },
        None => None,
    }
}


/// What a parsed `merge` goes on to do: carry on or abandon the merge in
/// progress, or, for a source, review it (nothing is merged), probe it
/// (`--dry-run`, nothing is merged), or merge it.
#[derive(Debug, Clone, Copy, PartialEq, Eq, Structural)]
pub enum MergeAction {
    Continue,
    Abort,
    Review,
    DryRun,
    Merge,
}

/// `--review` wins over everything a start could do, then `--dry-run`; only
/// a start with neither merges.
pub open spec fn merge_action_spec(a: MergeArgsSpec) -> MergeAction {
    match a.op {
        MergeOpSpec::Continue => MergeAction::Continue,
        MergeOpSpec::Abort => MergeAction::Abort,
        MergeOpSpec::Start(_) => if a.review is Some {
            MergeAction::Review
        } else if a.dry_run {
            MergeAction::DryRun
        } else {
            MergeAction::Merge
        },
    }
}

/// What a parsed `merge` does: see `merge_action_spec`. A review never
/// reaches a real merge.
pub fn merge_action(args: &MergeArgs) -> (r: MergeAction)
    ensures
        r == merge_action_spec(args@),
        args.review is Some ==> r != MergeAction::Merge,
{
    match &args.op {
        MergeOp::Continue => MergeAction::Continue,
        MergeOp::Abort => MergeAction::Abort,
        MergeOp::Start(_) => if args.review.is_some() {
            MergeAction::Review
        } else if args.dry_run {
            MergeAction::DryRun
        } else {
            MergeAction::Merge
        },
    }
}

} // verus!
