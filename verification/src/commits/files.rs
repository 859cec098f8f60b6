//! File blocks: the files a commit touched, read from git's `--numstat -z`
//! records, ordered by where each status sits in a file's life, summed
//! across a range, and laid out as padded lines.

use vstd::prelude::*;
use vstd::seq_lib::lemma_multiset_commutative;

use crate::text::{
    chars_of, decimal, decimal_of, fields_spec, cut_fields, lex_lt, lemma_lex_irreflexive,
    lemma_lex_total, lemma_lex_transitive, less_than, pad_left_spec, pad_right_spec,
    parse_usize, parse_usize_spec, push_all, push_pad_left, push_pad_right, same, split,
    split_spec, string_of, views, widest,
};
use crate::text::{lines, lines_spec, slice_from, words, words_spec};
use crate::worktree::opt_view;

verus! {

/// One file touched by a commit, with status and line-count summary.
#[derive(Debug)]
pub struct FileStat {
    pub status: char,
    pub path: String,
    /// Added lines; `None` means the file is binary.
    pub added: Option<usize>,
    /// Removed lines; `None` means the file is binary.
    pub removed: Option<usize>,
}

/// A `FileStat` as a value.
pub struct FileStatSpec {
    pub status: char,
    pub path: Seq<char>,
    pub added: Option<usize>,
    pub removed: Option<usize>,
}

impl View for FileStat {
    type V = FileStatSpec;

    open spec fn view(&self) -> FileStatSpec {
        FileStatSpec {
            status: self.status,
            path: self.path@,
            added: self.added,
            removed: self.removed,
        }
    }
}

pub open spec fn stat_views(v: Seq<FileStat>) -> Seq<FileStatSpec> {
    v.map_values(|f: FileStat| f@)
}

/// One `--numstat -z` record: line counts plus the path the change lands on.
#[derive(Debug)]
pub struct NumstatEntry {
    pub added: Option<usize>,
    pub removed: Option<usize>,
    /// The path after the change: the new name for a rename.
    pub path: String,
    /// The name before a rename, `None` when the file did not move.
    pub old_path: Option<String>,
}

/// A `NumstatEntry` as a value.
pub struct NumstatSpec {
    pub added: Option<usize>,
    pub removed: Option<usize>,
    pub path: Seq<char>,
    pub old_path: Option<Seq<char>>,
}

impl View for NumstatEntry {
    type V = NumstatSpec;

    open spec fn view(&self) -> NumstatSpec {
        NumstatSpec {
            added: self.added,
            removed: self.removed,
            path: self.path@,
            old_path: opt_view(self.old_path),
        }
    }
}

pub open spec fn numstat_views(v: Seq<NumstatEntry>) -> Seq<NumstatSpec> {
    v.map_values(|e: NumstatEntry| e@)
}

/// An entry from its two count columns: `-` (binary) and anything else that
/// is not a number read as no count.
pub open spec fn numstat_entry(cols: Seq<Seq<char>>, path: Seq<char>, old: Option<Seq<char>>) -> NumstatSpec {
    NumstatSpec {
        added: parse_usize_spec(cols[0]),
        removed: parse_usize_spec(cols[1]),
        path,
        old_path: old,
    }
}

/// The entries of the NUL-separated `fields`, from field `i` on. A record
/// is `added<TAB>removed<TAB>path`; an empty path marks a rename or copy,
/// whose old and new names follow as the next two fields. Empty fields and
/// records without two tabs are passed over.
pub open spec fn numstat_from(fields: Seq<Seq<char>>, i: int) -> Seq<NumstatSpec>
    decreases fields.len() - i,
{
    if i < 0 || i >= fields.len() {
        Seq::empty()
    } else if fields[i].len() == 0 {
        numstat_from(fields, i + 1)
    } else {
        match fields_spec(fields[i], '\t', 2) {
            None => numstat_from(fields, i + 1),
            Some(p) => if p.1.len() == 0 {
                if fields.len() - i > 2 {
                    seq![numstat_entry(p.0, fields[i + 2], Some(fields[i + 1]))] + numstat_from(
                        fields,
                        i + 3,
                    )
                } else {
                    Seq::empty()
                }
            } else {
                seq![numstat_entry(p.0, p.1, None)] + numstat_from(fields, i + 1)
            },
        }
    }
}

/// What `git diff-tree --numstat -z` output `out` lists.
pub open spec fn numstat_spec(out: Seq<char>) -> Seq<NumstatSpec> {
    numstat_from(split_spec(out, '\0'), 0)
}

/// Parse `--numstat -z` output.
///
/// The `-z` form is the unambiguous one: the plain form brace-compacts a
/// rename's common prefix into a string that is neither path, where `-z`
/// gives the counts, then the old name, then the new one, as fields.
pub fn parse_numstat_z(out: &str) -> (r: Vec<NumstatEntry>)
    ensures
        numstat_views(r@) == numstat_spec(out@),
{
    let chars = chars_of(out);
    let fields = split(chars.as_slice(), '\0');
    let ghost fv = views(fields@);
    let mut entries: Vec<NumstatEntry> = Vec::new();
    let mut i: usize = 0;
    assert(numstat_views(entries@) + numstat_from(fv, 0) =~= numstat_from(fv, 0));
    while i < fields.len()
        invariant
            fv == views(fields@),
            fv == split_spec(out@, '\0'),
            i <= fields.len(),
            numstat_from(fv, 0) == numstat_views(entries@) + numstat_from(fv, i as int),
        decreases fields.len() - i,
    {
        let ghost before = numstat_views(entries@);
        assert(fields@[i as int]@ == fv[i as int]);
        if fields[i].len() == 0 {
            i = i + 1;
        } else {
            match cut_fields(fields[i].as_slice(), '\t', 2) {
                None => {
                    i = i + 1;
                },
                Some((cols, path)) => {
                    assert(views(cols@).len() == 2);
                    let added = parse_usize(cols[0].as_slice());
                    let removed = parse_usize(cols[1].as_slice());
                    assert(views(cols@)[0] == cols@[0]@ && views(cols@)[1] == cols@[1]@);
                    if path.len() == 0 {
                        if fields.len() - i > 2 {
                            let old = string_of(fields[i + 1].as_slice());
                            let new = string_of(fields[i + 2].as_slice());
                            assert(fields@[i + 1]@ == fv[i + 1] && fields@[i + 2]@ == fv[i + 2]);
                            let e = NumstatEntry { added, removed, path: new, old_path: Some(old) };
                            assert(e@ == numstat_entry(views(cols@), fv[i + 2], Some(fv[i + 1])));
                            entries.push(e);
                            assert(numstat_views(entries@) =~= before.push(e@));
                            i = i + 3;
                        } else {
                            assert(numstat_from(fv, i as int) =~= Seq::<NumstatSpec>::empty());
                            assert(numstat_from(fv, fields.len() as int) =~= Seq::<NumstatSpec>::empty());
                            i = fields.len();
                        }
                    } else {
                        let e = NumstatEntry {
                            added,
                            removed,
                            path: string_of(path.as_slice()),
                            old_path: None,
                        };
                        assert(e@ == numstat_entry(views(cols@), path@, None));
                        entries.push(e);
                        assert(numstat_views(entries@) =~= before.push(e@));
                        i = i + 1;
                    }
                },
            }
        }
    }
    assert(numstat_views(entries@) + numstat_from(fv, i as int) =~= numstat_views(entries@));
    entries
}

// ---------------------------------------------------------------------------
// Order
// ---------------------------------------------------------------------------

/// Where a status letter sorts in a file block: the life of a file in
/// order (appears, changes, moves, is copied, changes type, goes away),
/// anything else after that, and untracked last.
pub open spec fn rank(c: char) -> u8 {
    if c == 'A' {
        0
    } else if c == 'M' {
        1
    } else if c == 'R' {
        2
    } else if c == 'C' {
        3
    } else if c == 'T' {
        4
    } else if c == 'D' {
        5
    } else if c == '?' {
        7
    } else {
        6
    }
}

/// Where status `c` sorts in a file block.
pub fn status_rank(c: char) -> (r: u8)
    ensures
        r == rank(c),
{
    match c {
        'A' => 0,
        'M' => 1,
        'R' => 2,
        'C' => 3,
        'T' => 4,
        'D' => 5,
        '?' => 7,
        _ => 6,
    }
}

/// `a` sorts strictly before `b`: by status rank, then by path.
pub open spec fn stat_before(a: FileStatSpec, b: FileStatSpec) -> bool {
    rank(a.status) < rank(b.status) || (rank(a.status) == rank(b.status) && lex_lt(a.path, b.path))
}

/// No entry of `s` sorts strictly before one that precedes it.
pub open spec fn block_sorted(s: Seq<FileStatSpec>) -> bool {
    forall|i: int, j: int| 0 <= i < j < s.len() ==> !stat_before(#[trigger] s[j], #[trigger] s[i])
}

/// Every entry of `s` sorts strictly before each one after it.
pub open spec fn block_strictly_sorted(s: Seq<FileStatSpec>) -> bool {
    forall|i: int, j: int| 0 <= i < j < s.len() ==> stat_before(#[trigger] s[i], #[trigger] s[j])
}

proof fn lemma_before_asymmetric(a: FileStatSpec, b: FileStatSpec)
    ensures
        stat_before(a, b) ==> !stat_before(b, a),
{
    if lex_lt(a.path, b.path) && lex_lt(b.path, a.path) {
        lemma_lex_transitive(a.path, b.path, a.path);
        lemma_lex_irreflexive(a.path);
    }
}

proof fn lemma_before_transitive(a: FileStatSpec, b: FileStatSpec, c: FileStatSpec)
    requires
        stat_before(a, b),
        stat_before(b, c),
    ensures
        stat_before(a, c),
{
    if rank(a.status) == rank(b.status) && rank(b.status) == rank(c.status) {
        lemma_lex_transitive(a.path, b.path, c.path);
    }
}

/// Two entries neither of which sorts before the other share status rank
/// and path.
proof fn lemma_before_total(a: FileStatSpec, b: FileStatSpec)
    ensures
        stat_before(a, b) || stat_before(b, a) || (rank(a.status) == rank(b.status) && a.path
            == b.path),
{
    lemma_lex_total(a.path, b.path);
}

proof fn lemma_not_before_transitive(a: FileStatSpec, b: FileStatSpec, c: FileStatSpec)
    requires
        !stat_before(c, b),
        !stat_before(b, a),
    ensures
        !stat_before(c, a),
{
    if stat_before(c, a) {
        lemma_before_total(c, b);
        lemma_before_total(b, a);
        if stat_before(b, c) && stat_before(a, b) {
            lemma_before_transitive(a, b, c);
            lemma_before_asymmetric(a, c);
        } else if stat_before(b, c) {
            assert(a.path == b.path);
            lemma_before_asymmetric(a, c);
        } else if stat_before(a, b) {
            assert(c.path == b.path);
            lemma_before_asymmetric(a, c);
        } else {
            lemma_lex_irreflexive(a.path);
        }
    }
}

proof fn lemma_insert_keeps_sorted(s: Seq<FileStatSpec>, x: FileStatSpec, p: int)
    requires
        block_sorted(s),
        0 <= p <= s.len(),
        forall|k: int| 0 <= k < p ==> stat_before(#[trigger] s[k], x),
        p < s.len() ==> !stat_before(s[p], x),
    ensures
        block_sorted(s.insert(p, x)),
{
    let t = s.insert(p, x);
    assert forall|i: int, j: int| 0 <= i < j < t.len() implies !stat_before(
        #[trigger] t[j],
        #[trigger] t[i],
    ) by {
        if j < p {
            assert(t[i] == s[i] && t[j] == s[j]);
        } else if j == p {
            assert(t[i] == s[i] && t[j] == x);
            lemma_before_asymmetric(s[i], x);
        } else if i < p {
            assert(t[i] == s[i] && t[j] == s[j - 1]);
        } else if i == p {
            assert(t[i] == x && t[j] == s[j - 1]);
            if j - 1 > p {
                lemma_not_before_transitive(x, s[p], s[j - 1]);
            }
        } else {
            assert(t[i] == s[i - 1] && t[j] == s[j - 1]);
        }
    }
}

proof fn lemma_insert_keeps_strict(s: Seq<FileStatSpec>, x: FileStatSpec, p: int)
    requires
        block_strictly_sorted(s),
        0 <= p <= s.len(),
        forall|k: int| 0 <= k < p ==> stat_before(#[trigger] s[k], x),
        p < s.len() ==> stat_before(x, s[p]),
    ensures
        block_strictly_sorted(s.insert(p, x)),
{
    let t = s.insert(p, x);
    assert forall|i: int, j: int| 0 <= i < j < t.len() implies stat_before(
        #[trigger] t[i],
        #[trigger] t[j],
    ) by {
        if j < p {
            assert(t[i] == s[i] && t[j] == s[j]);
        } else if j == p {
            assert(t[i] == s[i] && t[j] == x);
        } else if i < p {
            assert(t[i] == s[i] && t[j] == s[j - 1]);
        } else if i == p {
            assert(t[i] == x && t[j] == s[j - 1]);
            if j - 1 > p {
                lemma_before_transitive(x, s[p], s[j - 1]);
            }
        } else {
            assert(t[i] == s[i - 1] && t[j] == s[j - 1]);
        }
    }
}

proof fn lemma_multiset_insert<A>(s: Seq<A>, p: int, x: A)
    requires
        0 <= p <= s.len(),
    ensures
        s.insert(p, x).to_multiset() =~= s.to_multiset().insert(x),
{
    broadcast use vstd::multiset::group_multiset_axioms;

    let a = s.take(p);
    let b = s.skip(p);
    assert(s =~= a + b);
    assert(s.insert(p, x) =~= a.push(x) + b);
    lemma_multiset_commutative(a, b);
    lemma_multiset_commutative(a.push(x), b);
    a.to_multiset_ensures();
}

proof fn lemma_empty_multiset<A>(s: Seq<A>)
    requires
        s.len() == 0,
    ensures
        s.to_multiset() =~= vstd::multiset::Multiset::empty(),
{
    s.to_multiset_ensures();
    vstd::multiset::lemma_multiset_empty_len(s.to_multiset());
}

/// Whether `a` sorts strictly before `b` in a file block.
pub fn stat_less(a: &FileStat, b: &FileStat) -> (r: bool)
    ensures
        r == stat_before(a@, b@),
{
    let ra = status_rank(a.status);
    let rb = status_rank(b.status);
    if ra != rb {
        return ra < rb;
    }
    let pa = chars_of(a.path.as_str());
    let pb = chars_of(b.path.as_str());
    less_than(pa.as_slice(), pb.as_slice())
}

/// Where `x` goes in the sorted `out`: after every entry that sorts
/// strictly before it.
fn insert_position(out: &Vec<FileStat>, x: &FileStat) -> (p: usize)
    ensures
        p <= out.len(),
        forall|k: int| 0 <= k < p ==> stat_before(#[trigger] stat_views(out@)[k], x@),
        p < out.len() ==> !stat_before(stat_views(out@)[p as int], x@),
{
    let mut p: usize = 0;
    while p < out.len() && stat_less(&out[p], x)
        invariant
            p <= out.len(),
            forall|k: int| 0 <= k < p ==> stat_before(#[trigger] stat_views(out@)[k], x@),
        decreases out.len() - p,
    {
        p = p + 1;
    }
    p
}

/// Where `x` goes in a block: after every leading entry that sorts
/// strictly before it, so ahead of any entry with its status and path.
pub open spec fn place_of(out: Seq<FileStatSpec>, x: FileStatSpec) -> int
    decreases out.len(),
{
    if out.len() == 0 {
        0
    } else if stat_before(out[0], x) {
        1 + place_of(out.drop_first(), x)
    } else {
        0
    }
}

/// A block in order, stably: each entry, first to last, placed into the
/// order of the entries after it ahead of those with its own status and
/// path; so two entries with the same status and path keep the order
/// they came in, as a stable sort leaves them.
pub open spec fn stable_block(s: Seq<FileStatSpec>) -> Seq<FileStatSpec>
    decreases s.len(),
{
    if s.len() == 0 {
        s
    } else {
        let rest = stable_block(s.drop_first());
        rest.insert(place_of(rest, s[0]), s[0])
    }
}

proof fn lemma_place_of(out: Seq<FileStatSpec>, x: FileStatSpec, p: int)
    requires
        0 <= p <= out.len(),
        forall|k: int| 0 <= k < p ==> stat_before(#[trigger] out[k], x),
        p < out.len() ==> !stat_before(out[p], x),
    ensures
        place_of(out, x) == p,
    decreases p,
{
    if p > 0 {
        assert forall|k: int| 0 <= k < p - 1 implies stat_before(#[trigger] out.drop_first()[k], x) by {
            assert(out.drop_first()[k] == out[k + 1]);
        }
        if p - 1 < out.drop_first().len() {
            assert(out.drop_first()[p - 1] == out[p]);
        }
        assert(stat_before(out[0], x));
        lemma_place_of(out.drop_first(), x, p - 1);
    }
}

/// Whether `a` sorts level with `y`: the same status group and path.
pub open spec fn same_place(a: FileStatSpec, y: FileStatSpec) -> bool {
    rank(a.status) == rank(y.status) && a.path == y.path
}

/// The entries of `s` that sort level with `y`, in the order of `s`.
pub open spec fn level_with(s: Seq<FileStatSpec>, y: FileStatSpec) -> Seq<FileStatSpec>
    decreases s.len(),
{
    if s.len() == 0 {
        s
    } else if same_place(s[0], y) {
        seq![s[0]] + level_with(s.drop_first(), y)
    } else {
        level_with(s.drop_first(), y)
    }
}

proof fn lemma_level_with_add(a: Seq<FileStatSpec>, b: Seq<FileStatSpec>, y: FileStatSpec)
    ensures
        level_with(a + b, y) == level_with(a, y) + level_with(b, y),
    decreases a.len(),
{
    if a.len() == 0 {
        assert(a + b =~= b);
        assert(level_with(a, y) + level_with(b, y) =~= level_with(b, y));
    } else {
        assert((a + b).drop_first() =~= a.drop_first() + b);
        assert((a + b)[0] == a[0]);
        lemma_level_with_add(a.drop_first(), b, y);
        if same_place(a[0], y) {
            assert(seq![a[0]] + (level_with(a.drop_first(), y) + level_with(b, y)) =~= (seq![a[0]] + level_with(
                a.drop_first(),
                y,
            )) + level_with(b, y));
        }
    }
}

proof fn lemma_level_with_none(a: Seq<FileStatSpec>, y: FileStatSpec)
    requires
        forall|k: int| 0 <= k < a.len() ==> !same_place(#[trigger] a[k], y),
    ensures
        level_with(a, y) == Seq::<FileStatSpec>::empty(),
    decreases a.len(),
{
    if a.len() > 0 {
        assert forall|k: int| 0 <= k < a.drop_first().len() implies !same_place(#[trigger] a.drop_first()[k], y) by {
            assert(a.drop_first()[k] == a[k + 1]);
        }
        assert(!same_place(a[0], y));
        lemma_level_with_none(a.drop_first(), y);
    }
}

proof fn lemma_place_bounds(out: Seq<FileStatSpec>, x: FileStatSpec)
    ensures
        0 <= place_of(out, x) <= out.len(),
        forall|k: int| 0 <= k < place_of(out, x) ==> stat_before(#[trigger] out[k], x),
    decreases out.len(),
{
    if out.len() > 0 && stat_before(out[0], x) {
        lemma_place_bounds(out.drop_first(), x);
        assert forall|k: int| 0 <= k < place_of(out, x) implies stat_before(#[trigger] out[k], x) by {
            if k > 0 {
                assert(out[k] == out.drop_first()[k - 1]);
            }
        }
    }
}

/// The block order is stable: the entries sorting level with any entry
/// (the same status group and path) come out in the order they went in.
pub proof fn lemma_block_is_stable(s: Seq<FileStatSpec>, y: FileStatSpec)
    ensures
        level_with(stable_block(s), y) == level_with(s, y),
    decreases s.len(),
{
    if s.len() > 0 {
        let x = s[0];
        let rest = stable_block(s.drop_first());
        lemma_block_is_stable(s.drop_first(), y);
        lemma_place_bounds(rest, x);
        let p = place_of(rest, x);
        assert(rest.insert(p, x) =~= rest.take(p) + (seq![x] + rest.skip(p)));
        assert(rest =~= rest.take(p) + rest.skip(p));
        lemma_level_with_add(rest.take(p), seq![x] + rest.skip(p), y);
        lemma_level_with_add(seq![x], rest.skip(p), y);
        lemma_level_with_add(rest.take(p), rest.skip(p), y);
        assert(seq![x].drop_first() =~= Seq::<FileStatSpec>::empty());
        assert(level_with(Seq::<FileStatSpec>::empty(), y) =~= Seq::<FileStatSpec>::empty());
        if same_place(x, y) {
            assert forall|k: int| 0 <= k < rest.take(p).len() implies !same_place(#[trigger] rest.take(p)[k], y) by {
                assert(rest.take(p)[k] == rest[k]);
                assert(stat_before(rest[k], x));
                if same_place(rest[k], y) {
                    crate::text::lemma_lex_irreflexive(x.path);
                }
            }
            lemma_level_with_none(rest.take(p), y);
            assert(level_with(seq![x], y) =~= seq![x]);
            assert(Seq::<FileStatSpec>::empty() + (seq![x] + level_with(rest.skip(p), y)) =~= seq![x] + level_with(
                rest.skip(p),
                y,
            ));
            assert(Seq::<FileStatSpec>::empty() + level_with(rest.skip(p), y) =~= level_with(rest.skip(p), y));
        } else {
            assert(level_with(seq![x], y) =~= Seq::<FileStatSpec>::empty());
            assert(Seq::<FileStatSpec>::empty() + level_with(rest.skip(p), y) =~= level_with(rest.skip(p), y));
        }
    }
}

/// Order a file block: status first, so every add sits with the adds and
/// every delete with the deletes, then path within each group; entries
/// with the same status and path stay in the order given.
pub fn sort_file_stats(stats: &mut Vec<FileStat>)
    ensures
        block_sorted(stat_views(final(stats)@)),
        stat_views(final(stats)@).to_multiset() == stat_views(old(stats)@).to_multiset(),
        stat_views(final(stats)@) == stable_block(stat_views(old(stats)@)),
{
    broadcast use vstd::multiset::group_multiset_axioms;

    let mut out: Vec<FileStat> = Vec::new();
    let ghost whole = stat_views(stats@).to_multiset();
    let ghost orig = stat_views(stats@);
    proof {
        lemma_empty_multiset(stat_views(out@));
        assert(orig.skip(orig.len() as int) =~= Seq::<FileStatSpec>::empty());
        assert(stat_views(out@) =~= Seq::<FileStatSpec>::empty());
    }
    while stats.len() > 0
        invariant
            block_sorted(stat_views(out@)),
            stat_views(stats@).to_multiset().add(stat_views(out@).to_multiset()) == whole,
            stats.len() <= orig.len(),
            stat_views(stats@) == orig.take(stats.len() as int),
            stat_views(out@) == stable_block(orig.skip(stats.len() as int)),
        decreases stats.len(),
    {
        let ghost rest = stat_views(stats@);
        let ghost n = stats.len() as int;
        let x = stats.pop().unwrap();
        assert(rest =~= stat_views(stats@).push(x@));
        assert(orig[n - 1] == x@) by {
            assert(rest[n - 1] == x@);
            assert(orig.take(n)[n - 1] == orig[n - 1]);
        }
        assert(stat_views(stats@) =~= orig.take(n - 1));
        assert(orig.skip(n - 1).drop_first() =~= orig.skip(n));
        assert(orig.skip(n - 1)[0] == x@);
        proof {
            stat_views(stats@).to_multiset_ensures();
        }
        let p = insert_position(&out, &x);
        let ghost before = stat_views(out@);
        proof {
            lemma_insert_keeps_sorted(before, x@, p as int);
            lemma_multiset_insert(before, p as int, x@);
            lemma_place_of(before, x@, p as int);
        }
        out.insert(p, x);
        assert(stat_views(out@) =~= before.insert(p as int, x@));
    }
    assert(orig.skip(0) =~= orig);
    proof {
        lemma_empty_multiset(stat_views(stats@));
    }
    *stats = out;
}

// ---------------------------------------------------------------------------
// Squashing a range
// ---------------------------------------------------------------------------

/// `f` with a fresh copy of its path.
pub fn copy_stat(f: &FileStat) -> (r: FileStat)
    ensures
        r@ == f@,
{
    FileStat { status: f.status, path: f.path.clone(), added: f.added, removed: f.removed }
}

/// Every file entry of `rows`, one block after another.
pub open spec fn all_files(rows: Seq<Vec<FileStat>>) -> Seq<FileStatSpec>
    decreases rows.len(),
{
    if rows.len() == 0 {
        Seq::empty()
    } else {
        all_files(rows.drop_last()) + stat_views(rows.last()@)
    }
}

pub open spec fn as_int(a: Option<usize>) -> Option<int> {
    match a {
        Some(x) => Some(x as int),
        None => None,
    }
}

/// A running count plus one more: no count (binary) once either is.
pub open spec fn plus(a: Option<int>, b: Option<usize>) -> Option<int> {
    match (a, b) {
        (Some(x), Some(y)) => Some(x + y),
        _ => None,
    }
}

/// What the entries `fs` say of `path` taken together: the status earliest
/// in a file's life (the first seen among equals), and the summed line
/// counts, binary once any entry is; `None` when no entry names `path`.
pub open spec fn tally(fs: Seq<FileStatSpec>, path: Seq<char>) -> Option<(char, Option<int>, Option<int>)>
    decreases fs.len(),
{
    if fs.len() == 0 {
        None
    } else {
        let f = fs.last();
        let prev = tally(fs.drop_last(), path);
        if f.path != path {
            prev
        } else {
            match prev {
                None => Some((f.status, as_int(f.added), as_int(f.removed))),
                Some(t) => Some(
                    (
                        if rank(f.status) < rank(t.0) {
                            f.status
                        } else {
                            t.0
                        },
                        plus(t.1, f.added),
                        plus(t.2, f.removed),
                    ),
                ),
            }
        }
    }
}

/// `e` is what the entries `fs` add up to for its path.
pub open spec fn squashed(e: FileStatSpec, fs: Seq<FileStatSpec>) -> bool {
    tally(fs, e.path) == Some((e.status, as_int(e.added), as_int(e.removed)))
}

pub open spec fn count_or_zero(a: Option<usize>) -> int {
    match a {
        Some(x) => x as int,
        None => 0,
    }
}

/// Every line count `fs` holds, added up: the most any sum can reach.
pub open spec fn churn(fs: Seq<FileStatSpec>) -> int
    decreases fs.len(),
{
    if fs.len() == 0 {
        0
    } else {
        churn(fs.drop_last()) + count_or_zero(fs.last().added) + count_or_zero(fs.last().removed)
    }
}

proof fn lemma_churn_grows(fs: Seq<FileStatSpec>, i: int)
    requires
        0 <= i <= fs.len(),
    ensures
        0 <= churn(fs.take(i)) <= churn(fs),
    decreases fs.len() - i,
{
    if i < fs.len() {
        lemma_churn_grows(fs, i + 1);
        lemma_churn_nonneg(fs.take(i));
        assert(fs.take(i + 1).drop_last() =~= fs.take(i));
    } else {
        assert(fs.take(i) =~= fs);
        lemma_churn_nonneg(fs);
    }
}

proof fn lemma_churn_nonneg(fs: Seq<FileStatSpec>)
    ensures
        churn(fs) >= 0,
    decreases fs.len(),
{
    if fs.len() > 0 {
        lemma_churn_nonneg(fs.drop_last());
    }
}

proof fn lemma_tally_bounded(fs: Seq<FileStatSpec>, path: Seq<char>)
    ensures
        tally(fs, path) matches Some(t) ==> (t.1 matches Some(x) ==> 0 <= x <= churn(fs)) && (
        t.2 matches Some(x) ==> 0 <= x <= churn(fs)),
        tally(fs, path) is Some ==> exists|j: int| 0 <= j < fs.len() && fs[j].path == path,
    decreases fs.len(),
{
    if fs.len() > 0 {
        lemma_tally_bounded(fs.drop_last(), path);
        lemma_churn_nonneg(fs.drop_last());
        if tally(fs.drop_last(), path) is Some {
            let j = choose|j: int| 0 <= j < fs.drop_last().len() && fs.drop_last()[j].path == path;
            assert(fs[j].path == path);
        }
        if fs.last().path == path {
            assert(fs[fs.len() - 1].path == path);
        }
    }
}

/// The position in `acc` of the entry for `path`.
fn position_of_path(acc: &Vec<FileStat>, path: &String) -> (r: Option<usize>)
    ensures
        r matches Some(k) ==> k < acc.len() && acc@[k as int].path@ == path@,
        r is None ==> forall|k: int| 0 <= k < acc.len() ==> acc@[k].path@ != path@,
{
    let want = chars_of(path.as_str());
    let mut k: usize = 0;
    while k < acc.len()
        invariant
            k <= acc.len(),
            want@ == path@,
            forall|j: int| 0 <= j < k ==> acc@[j].path@ != path@,
        decreases acc.len() - k,
    {
        let have = chars_of(acc[k].path.as_str());
        if same(have.as_slice(), want.as_slice()) {
            return Some(k);
        }
        k = k + 1;
    }
    None
}

/// Every entry of `rows`, copied into one list.
fn flatten_files(rows: &[Vec<FileStat>]) -> (r: Vec<FileStat>)
    ensures
        stat_views(r@) == all_files(rows@),
{
    let mut out: Vec<FileStat> = Vec::new();
    let mut i: usize = 0;
    while i < rows.len()
        invariant
            i <= rows.len(),
            stat_views(out@) == all_files(rows@.take(i as int)),
        decreases rows.len() - i,
    {
        let block = &rows[i];
        let ghost start = stat_views(out@);
        let mut k: usize = 0;
        while k < block.len()
            invariant
                k <= block.len(),
                stat_views(out@) == start + stat_views(block@).take(k as int),
            decreases block.len() - k,
        {
            let ghost before = stat_views(out@);
            out.push(copy_stat(&block[k]));
            assert(stat_views(out@) =~= before.push(block@[k as int]@));
            assert(stat_views(block@).take(k + 1) =~= stat_views(block@).take(k as int).push(
                block@[k as int]@,
            ));
            k = k + 1;
        }
        assert(stat_views(block@).take(k as int) =~= stat_views(block@));
        assert(rows@.take(i + 1).drop_last() =~= rows@.take(i as int));
        assert(rows@.take(i + 1).last() == rows@[i as int]);
        i = i + 1;
    }
    assert(rows@.take(rows.len() as int) =~= rows@);
    out
}

/// The entries of `fs` added up per path, in the order paths first appear.
fn tally_files(fs: &Vec<FileStat>) -> (acc: Vec<FileStat>)
    requires
        churn(stat_views(fs@)) <= usize::MAX,
    ensures
        forall|k: int| 0 <= k < acc.len() ==> squashed(#[trigger] stat_views(acc@)[k], stat_views(fs@)),
        forall|a: int, b: int|
            0 <= a < b < acc.len() ==> (#[trigger] acc@[a]).path@ != (#[trigger] acc@[b]).path@,
        forall|j: int|
            0 <= j < fs.len() ==> exists|k: int| 0 <= k < acc.len() && (#[trigger] acc@[k]).path@ == (
            #[trigger] fs@[j]).path@,
{
    let ghost all = stat_views(fs@);
    let mut acc: Vec<FileStat> = Vec::new();
    let mut i: usize = 0;
    while i < fs.len()
        invariant
            i <= fs.len(),
            all == stat_views(fs@),
            churn(all) <= usize::MAX,
            forall|k: int| 0 <= k < acc.len() ==> squashed(#[trigger] stat_views(acc@)[k], all.take(i as int)),
            forall|a: int, b: int|
                0 <= a < b < acc.len() ==> (#[trigger] acc@[a]).path@ != (#[trigger] acc@[b]).path@,
            forall|j: int|
                0 <= j < i ==> exists|k: int| 0 <= k < acc.len() && (#[trigger] acc@[k]).path@ == (
                #[trigger] fs@[j]).path@,
        decreases fs.len() - i,
    {
        let f = &fs[i];
        let ghost pre = all.take(i as int);
        let ghost next = all.take(i + 1);
        assert(next.drop_last() =~= pre);
        assert(next.last() == f@);
        proof {
            lemma_churn_grows(all, i + 1);
            assert(churn(next) == churn(pre) + count_or_zero(f.added) + count_or_zero(f.removed));
            lemma_churn_nonneg(pre);
        }
        match position_of_path(&acc, &f.path) {
            Some(k) => {
                let e = &acc[k];
                proof {
                    assert(squashed(stat_views(acc@)[k as int], pre));
                    lemma_tally_bounded(pre, e.path@);
                }
                let status = if status_rank(f.status) < status_rank(e.status) {
                    f.status
                } else {
                    e.status
                };
                let added = match (e.added, f.added) {
                    (Some(a), Some(b)) => Some(a + b),
                    _ => None,
                };
                let removed = match (e.removed, f.removed) {
                    (Some(a), Some(b)) => Some(a + b),
                    _ => None,
                };
                let path = e.path.clone();
                let ghost old_acc = acc@;
                acc.set(k, FileStat { status, path, added, removed });
                assert forall|m: int| 0 <= m < acc.len() implies squashed(
                    #[trigger] stat_views(acc@)[m],
                    next,
                ) by {
                    if m != k {
                        assert(acc@[m] == old_acc[m]);
                        assert(squashed(stat_views(old_acc)[m], pre));
                        assert(old_acc[m].path@ != old_acc[k as int].path@);
                    }
                }
                assert forall|j: int| 0 <= j < i + 1 implies exists|m: int|
                    0 <= m < acc.len() && (#[trigger] acc@[m]).path@ == (#[trigger] fs@[j]).path@ by {
                    if j == i {
                        assert(acc@[k as int].path@ == fs@[j].path@);
                    } else {
                        let m = choose|m: int|
                            0 <= m < old_acc.len() && (#[trigger] old_acc[m]).path@ == fs@[j].path@;
                        assert(acc@[m].path@ == old_acc[m].path@);
                    }
                }
            },
            None => {
                proof {
                    if tally(pre, f.path@) is Some {
                        lemma_tally_bounded(pre, f.path@);
                        let j = choose|j: int| 0 <= j < pre.len() && pre[j].path == f.path@;
                        assert(fs@[j].path@ == f.path@);
                        let m = choose|m: int|
                            0 <= m < acc.len() && (#[trigger] acc@[m]).path@ == fs@[j].path@;
                        assert(false);
                    }
                }
                let ghost old_acc = acc@;
                acc.push(copy_stat(f));
                assert forall|m: int| 0 <= m < acc.len() implies squashed(
                    #[trigger] stat_views(acc@)[m],
                    next,
                ) by {
                    if m < old_acc.len() {
                        assert(acc@[m] == old_acc[m]);
                        assert(squashed(stat_views(old_acc)[m], pre));
                    }
                }
                assert forall|j: int| 0 <= j < i + 1 implies exists|m: int|
                    0 <= m < acc.len() && (#[trigger] acc@[m]).path@ == (#[trigger] fs@[j]).path@ by {
                    if j == i {
                        assert(acc@[old_acc.len() as int].path@ == fs@[j].path@);
                    } else {
                        let m = choose|m: int|
                            0 <= m < old_acc.len() && (#[trigger] old_acc[m]).path@ == fs@[j].path@;
                        assert(acc@[m].path@ == old_acc[m].path@);
                    }
                }
            },
        }
        i = i + 1;
    }
    assert(all.take(fs.len() as int) =~= all);
    acc
}

/// Merge the per-commit file blocks into the one block `--squash` prints:
/// one line per path whose counts are the sum of its lines across the
/// range (churn, not a net diff), binary once any change to it was, and
/// whose status is the earliest in the file's life among the commits.
pub fn consolidate_file_stats(row_files: &[Vec<FileStat>]) -> (r: Vec<FileStat>)
    requires
        churn(all_files(row_files@)) <= usize::MAX,
    ensures
        block_strictly_sorted(stat_views(r@)),
        forall|i: int| 0 <= i < r.len() ==> squashed(#[trigger] stat_views(r@)[i], all_files(row_files@)),
        forall|j: int|
            0 <= j < all_files(row_files@).len() ==> exists|i: int| 0 <= i < r.len() && (
            #[trigger] r@[i]).path@ == (#[trigger] all_files(row_files@)[j]).path,
{
    let fs = flatten_files(row_files);
    let ghost all = all_files(row_files@);
    let mut acc = tally_files(&fs);
    let mut out: Vec<FileStat> = Vec::new();
    while acc.len() > 0
        invariant
            all == stat_views(fs@),
            block_strictly_sorted(stat_views(out@)),
            forall|k: int| 0 <= k < acc.len() ==> squashed(#[trigger] stat_views(acc@)[k], all),
            forall|k: int| 0 <= k < out.len() ==> squashed(#[trigger] stat_views(out@)[k], all),
            forall|a: int, b: int|
                0 <= a < b < acc.len() ==> (#[trigger] acc@[a]).path@ != (#[trigger] acc@[b]).path@,
            forall|a: int, b: int|
                0 <= a < acc.len() && 0 <= b < out.len() ==> (#[trigger] acc@[a]).path@ != (
                #[trigger] out@[b]).path@,
            forall|j: int|
                0 <= j < fs.len() ==> (exists|k: int| 0 <= k < acc.len() && (#[trigger] acc@[k]).path@
                    == (#[trigger] fs@[j]).path@) || (exists|k: int|
                    0 <= k < out.len() && (#[trigger] out@[k]).path@ == fs@[j].path@),
        decreases acc.len(),
    {
        let ghost old_acc = acc@;
        let ghost old_out = out@;
        let x = acc.pop().unwrap();
        assert(x == old_acc[old_acc.len() - 1]);
        assert(squashed(stat_views(old_acc)[old_acc.len() - 1], all));
        let p = insert_position(&out, &x);
        proof {
            if p < out.len() {
                lemma_before_total(x@, stat_views(out@)[p as int]);
                assert(old_acc[old_acc.len() - 1].path@ != out@[p as int].path@);
            }
            lemma_insert_keeps_strict(stat_views(out@), x@, p as int);
        }
        out.insert(p, x);
        assert(stat_views(out@) =~= stat_views(old_out).insert(p as int, x@));
        assert forall|k: int| 0 <= k < acc.len() implies squashed(#[trigger] stat_views(acc@)[k], all) by {
            assert(acc@[k] == old_acc[k]);
            assert(squashed(stat_views(old_acc)[k], all));
        }
        assert forall|k: int| 0 <= k < out.len() implies squashed(#[trigger] stat_views(out@)[k], all) by {
            if k < p {
                assert(out@[k] == old_out[k]);
            } else if k > p {
                assert(out@[k] == old_out[k - 1]);
            }
        }
        assert forall|a: int, b: int|
            0 <= a < acc.len() && 0 <= b < out.len() implies (#[trigger] acc@[a]).path@ != (
            #[trigger] out@[b]).path@ by {
            assert(acc@[a] == old_acc[a]);
            if b < p {
                assert(out@[b] == old_out[b]);
            } else if b > p {
                assert(out@[b] == old_out[b - 1]);
            } else {
                assert(out@[b] == old_acc[old_acc.len() - 1]);
            }
        }
        assert forall|j: int| 0 <= j < fs.len() implies (exists|k: int|
            0 <= k < acc.len() && (#[trigger] acc@[k]).path@ == (#[trigger] fs@[j]).path@) || (exists|k: int|
            0 <= k < out.len() && (#[trigger] out@[k]).path@ == fs@[j].path@) by {
            if exists|k: int| 0 <= k < old_acc.len() && (#[trigger] old_acc[k]).path@ == fs@[j].path@ {
                let k = choose|k: int| 0 <= k < old_acc.len() && (#[trigger] old_acc[k]).path@ == fs@[j].path@;
                if k == old_acc.len() - 1 {
                    assert(out@[p as int].path@ == fs@[j].path@);
                } else {
                    assert(acc@[k] == old_acc[k]);
                }
            } else {
                let k = choose|k: int| 0 <= k < old_out.len() && (#[trigger] old_out[k]).path@ == fs@[j].path@;
                if k < p {
                    assert(out@[k] == old_out[k]);
                } else {
                    assert(out@[k + 1] == old_out[k]);
                }
            }
        }
    }
    assert forall|j: int| 0 <= j < all.len() implies exists|i: int| 0 <= i < out.len() && (
    #[trigger] out@[i]).path@ == (#[trigger] all[j]).path by {
        assert(all[j] == fs@[j]@);
    }
    out
}

// ---------------------------------------------------------------------------
// Layout
// ---------------------------------------------------------------------------

/// A count cell: `+12` / `-3`, or `-` where git gave no count (binary).
pub open spec fn count_cell(n: Option<usize>, sign: char) -> Seq<char> {
    match n {
        Some(v) => seq![sign] + decimal(v as nat),
        None => seq!['-'],
    }
}

/// One line of a file block: tab, status, then the path and both counts
/// padded to the block's widths.
pub open spec fn stat_line(f: FileStatSpec, pathw: nat, addw: nat, remw: nat) -> Seq<char> {
    seq!['\t', f.status] + "  "@ + pad_right_spec(f.path, pathw) + "  "@ + pad_left_spec(
        count_cell(f.added, '+'),
        addw,
    ) + "  "@ + pad_left_spec(count_cell(f.removed, '-'), remw)
}

pub open spec fn path_column(fs: Seq<FileStatSpec>) -> Seq<Seq<char>> {
    fs.map_values(|f: FileStatSpec| f.path)
}

pub open spec fn added_column(fs: Seq<FileStatSpec>) -> Seq<Seq<char>> {
    fs.map_values(|f: FileStatSpec| count_cell(f.added, '+'))
}

pub open spec fn removed_column(fs: Seq<FileStatSpec>) -> Seq<Seq<char>> {
    fs.map_values(|f: FileStatSpec| count_cell(f.removed, '-'))
}

/// The lines of a file block, each padded to the block's own widths.
pub open spec fn stat_lines_spec(fs: Seq<FileStatSpec>) -> Seq<Seq<char>> {
    let pathw = widest(path_column(fs));
    let addw = widest(added_column(fs));
    let remw = widest(removed_column(fs));
    fs.map_values(|f: FileStatSpec| stat_line(f, pathw, addw, remw))
}

/// The text of a count cell.
pub fn count_text(n: Option<usize>, sign: char) -> (r: Vec<char>)
    ensures
        r@ == count_cell(n, sign),
{
    match n {
        Some(v) => {
            let mut out = vec![sign];
            let d = decimal_of(v);
            push_all(&mut out, d.as_slice());
            out
        },
        None => vec!['-'],
    }
}

/// The widest of `cells`.
pub fn widest_of(cells: &Vec<Vec<char>>) -> (w: usize)
    ensures
        w == widest(views(cells@)),
{
    let mut w: usize = 0;
    let mut i: usize = 0;
    while i < cells.len()
        invariant
            i <= cells.len(),
            w == widest(views(cells@).take(i as int)),
        decreases cells.len() - i,
    {
        assert(views(cells@).take(i + 1).drop_last() =~= views(cells@).take(i as int));
        assert(views(cells@).take(i + 1).last() == cells@[i as int]@);
        if cells[i].len() > w {
            w = cells[i].len();
        }
        i = i + 1;
    }
    assert(views(cells@).take(i as int) =~= views(cells@));
    w
}

/// The lines of a file block: one tab-indented `status  path  +added
/// -removed` per file, the path and both counts padded to the block's own
/// widths, `-` in place of a count git did not give.
pub fn file_stat_lines(files: &Vec<FileStat>) -> (r: Vec<String>)
    ensures
        crate::text::str_views(r@) == stat_lines_spec(stat_views(files@)),
{
    let ghost fs = stat_views(files@);
    let mut paths: Vec<Vec<char>> = Vec::new();
    let mut adds: Vec<Vec<char>> = Vec::new();
    let mut rems: Vec<Vec<char>> = Vec::new();
    let mut i: usize = 0;
    while i < files.len()
        invariant
            i <= files.len(),
            fs == stat_views(files@),
            views(paths@) == path_column(fs).take(i as int),
            views(adds@) == added_column(fs).take(i as int),
            views(rems@) == removed_column(fs).take(i as int),
        decreases files.len() - i,
    {
        let ghost (p0, a0, r0) = (views(paths@), views(adds@), views(rems@));
        paths.push(chars_of(files[i].path.as_str()));
        adds.push(count_text(files[i].added, '+'));
        rems.push(count_text(files[i].removed, '-'));
        assert(views(paths@) =~= p0.push(fs[i as int].path));
        assert(views(adds@) =~= a0.push(count_cell(fs[i as int].added, '+')));
        assert(views(rems@) =~= r0.push(count_cell(fs[i as int].removed, '-')));
        assert(path_column(fs).take(i + 1) =~= path_column(fs).take(i as int).push(fs[i as int].path));
        assert(added_column(fs).take(i + 1) =~= added_column(fs).take(i as int).push(
            count_cell(fs[i as int].added, '+'),
        ));
        assert(removed_column(fs).take(i + 1) =~= removed_column(fs).take(i as int).push(
            count_cell(fs[i as int].removed, '-'),
        ));
        i = i + 1;
    }
    assert(path_column(fs).take(i as int) =~= path_column(fs));
    assert(added_column(fs).take(i as int) =~= added_column(fs));
    assert(removed_column(fs).take(i as int) =~= removed_column(fs));
    let pathw = widest_of(&paths);
    let addw = widest_of(&adds);
    let remw = widest_of(&rems);
    let ghost want = stat_lines_spec(fs);
    let mut out: Vec<String> = Vec::new();
    let mut k: usize = 0;
    while k < files.len()
        invariant
            k <= files.len(),
            fs == stat_views(files@),
            views(paths@) == path_column(fs),
            views(adds@) == added_column(fs),
            views(rems@) == removed_column(fs),
            pathw == widest(path_column(fs)),
            addw == widest(added_column(fs)),
            remw == widest(removed_column(fs)),
            want == stat_lines_spec(fs),
            crate::text::str_views(out@) == want.take(k as int),
        decreases files.len() - k,
    {
        let mut line: Vec<char> = Vec::new();
        line.push('\t');
        line.push(files[k].status);
        crate::text::push_str(&mut line, "  ");
        assert(views(paths@)[k as int] == paths@[k as int]@);
        assert(views(adds@)[k as int] == adds@[k as int]@);
        assert(views(rems@)[k as int] == rems@[k as int]@);
        assert(path_column(fs)[k as int] == fs[k as int].path);
        assert(added_column(fs)[k as int] == count_cell(fs[k as int].added, '+'));
        assert(removed_column(fs)[k as int] == count_cell(fs[k as int].removed, '-'));
        assert(paths@[k as int]@ == fs[k as int].path);
        push_pad_right(&mut line, paths[k].as_slice(), pathw);
        crate::text::push_str(&mut line, "  ");
        assert(adds@[k as int]@ == count_cell(fs[k as int].added, '+'));
        push_pad_left(&mut line, adds[k].as_slice(), addw);
        crate::text::push_str(&mut line, "  ");
        assert(rems@[k as int]@ == count_cell(fs[k as int].removed, '-'));
        push_pad_left(&mut line, rems[k].as_slice(), remw);
        assert(line@ =~= stat_line(fs[k as int], pathw as nat, addw as nat, remw as nat));
        let ghost before = crate::text::str_views(out@);
        out.push(string_of(line.as_slice()));
        assert(crate::text::str_views(out@) =~= before.push(want[k as int]));
        assert(want.take(k + 1) =~= want.take(k as int).push(want[k as int]));
        k = k + 1;
    }
    assert(want.take(k as int) =~= want);
    out
}

// ---------------------------------------------------------------------------
// A commit's block
// ---------------------------------------------------------------------------

/// The empty tree's hash: the parent a root commit is diffed against. It
/// is the same in every git.
pub const EMPTY_TREE: &'static str = "4b825dc642cb6eb9a060e54bf8d69288fbee4904";

/// The first parent named on the first line of `git rev-list --parents -n
/// 1 <sha>` (the sha itself comes first), or the empty tree when there is
/// none.
pub open spec fn first_parent_spec(out: Seq<char>) -> Seq<char> {
    let ls = lines_spec(out);
    if ls.len() > 0 && words_spec(ls[0]).len() >= 2 {
        words_spec(ls[0])[1]
    } else {
        EMPTY_TREE@
    }
}

/// A commit's first parent, or the empty tree for a root commit, from
/// what `git rev-list --parents -n 1 <sha>` printed.
pub fn first_parent_or_empty(out: &str) -> (r: String)
    ensures
        r@ == first_parent_spec(out@),
{
    let chars = chars_of(out);
    let ls = lines(chars.as_slice());
    if ls.len() > 0 {
        assert(views(ls@)[0] == ls@[0]@);
        let w = words(ls[0].as_slice());
        if w.len() >= 2 {
            assert(views(w@)[1] == w@[1]@);
            return string_of(w[1].as_slice());
        }
    }
    EMPTY_TREE.to_string()
}

/// The `(path, status)` a `--name-status` line records: the new name for a
/// rename or copy (`R100<TAB>old<TAB>new`), the one name otherwise; `None`
/// for a blank or malformed line.
pub open spec fn status_entry(line: Seq<char>) -> Option<(Seq<char>, char)> {
    let parts = split_spec(line, '\t');
    if line.len() == 0 || parts[0].len() == 0 {
        None
    } else {
        let st = parts[0][0];
        if st == 'R' || st == 'C' {
            if parts.len() >= 3 {
                Some((parts[2], st))
            } else {
                None
            }
        } else if parts.len() >= 2 {
            Some((parts[1], st))
        } else {
            None
        }
    }
}

/// The entries of a `--name-status` listing, in order.
pub open spec fn status_pairs(ls: Seq<Seq<char>>) -> Seq<(Seq<char>, char)>
    decreases ls.len(),
{
    if ls.len() == 0 {
        Seq::empty()
    } else {
        let p = status_pairs(ls.drop_last());
        match status_entry(ls.last()) {
            Some(e) => p.push(e),
            None => p,
        }
    }
}

/// The status last recorded for `path`.
pub open spec fn status_lookup(pairs: Seq<(Seq<char>, char)>, path: Seq<char>) -> Option<char>
    decreases pairs.len(),
{
    if pairs.len() == 0 {
        None
    } else if pairs.last().0 == path {
        Some(pairs.last().1)
    } else {
        status_lookup(pairs.drop_last(), path)
    }
}

/// One line of a commit's block: the status keyed on the path the change
/// lands on (`M` when the listing has none), and both names for a move.
pub open spec fn block_entry(e: NumstatSpec, pairs: Seq<(Seq<char>, char)>) -> FileStatSpec {
    FileStatSpec {
        status: match status_lookup(pairs, e.path) {
            Some(c) => c,
            None => 'M',
        },
        path: match e.old_path {
            Some(o) => o + " => "@ + e.path,
            None => e.path,
        },
        added: e.added,
        removed: e.removed,
    }
}

/// A commit's block, before ordering, from its `--name-status` and
/// `--numstat -z` listings.
pub open spec fn commit_block(status_out: Seq<char>, numstat_out: Seq<char>) -> Seq<FileStatSpec> {
    let pairs = status_pairs(lines_spec(status_out));
    numstat_spec(numstat_out).map_values(|e: NumstatSpec| block_entry(e, pairs))
}

pub open spec fn pair_views(v: Seq<(Vec<char>, char)>) -> Seq<(Seq<char>, char)> {
    v.map_values(|p: (Vec<char>, char)| (p.0@, p.1))
}

/// The entry one `--name-status` line records.
fn status_entry_of(line: &[char]) -> (r: Option<(Vec<char>, char)>)
    ensures
        r matches Some(p) ==> status_entry(line@) == Some((p.0@, p.1)),
        r is None ==> status_entry(line@) is None,
{
    let parts = split(line, '\t');
    proof {
        crate::text::lemma_split_nonempty(line@, '\t');
    }
    assert(views(parts@)[0] == parts@[0]@);
    if line.len() == 0 || parts[0].len() == 0 {
        return None;
    }
    let st = parts[0][0];
    if st == 'R' || st == 'C' {
        if parts.len() >= 3 {
            assert(views(parts@)[2] == parts@[2]@);
            Some((slice_from(parts[2].as_slice(), 0), st))
        } else {
            None
        }
    } else if parts.len() >= 2 {
        assert(views(parts@)[1] == parts@[1]@);
        Some((slice_from(parts[1].as_slice(), 0), st))
    } else {
        None
    }
}

/// The status last recorded for `path` in `pairs`.
pub(crate) fn lookup_status(pairs: &Vec<(Vec<char>, char)>, path: &[char]) -> (r: Option<char>)
    ensures
        r == status_lookup(pair_views(pairs@), path@),
{
    let mut k: usize = pairs.len();
    assert(pair_views(pairs@).take(k as int) =~= pair_views(pairs@));
    while k > 0
        invariant
            k <= pairs.len(),
            status_lookup(pair_views(pairs@), path@) == status_lookup(
                pair_views(pairs@).take(k as int),
                path@,
            ),
        decreases k,
    {
        let ghost t = pair_views(pairs@).take(k as int);
        assert(t.last() == (pairs@[k - 1].0@, pairs@[k - 1].1));
        assert(t.drop_last() =~= pair_views(pairs@).take(k - 1));
        if same(pairs[k - 1].0.as_slice(), path) {
            return Some(pairs[k - 1].1);
        }
        k = k - 1;
    }
    None
}

/// `old => new`, the path a move is printed under.
fn moved_path(old: &String, new: &String) -> (r: String)
    ensures
        r@ == old@ + " => "@ + new@,
{
    let mut t = chars_of(old.as_str());
    crate::text::push_str(&mut t, " => ");
    crate::text::push_str(&mut t, new.as_str());
    string_of(t.as_slice())
}

/// The block line for one numstat entry.
pub(crate) fn block_line(e: &NumstatEntry, pairs: &Vec<(Vec<char>, char)>) -> (f: FileStat)
    ensures
        f@ == block_entry(e@, pair_views(pairs@)),
{
    let pc = chars_of(e.path.as_str());
    let status = match lookup_status(pairs, pc.as_slice()) {
        Some(c) => c,
        None => 'M',
    };
    let path = match &e.old_path {
        Some(o) => moved_path(o, &e.path),
        None => e.path.clone(),
    };
    FileStat { status, path, added: e.added, removed: e.removed }
}

/// The files a commit touched, with status and line counts, ordered as a
/// block: from its `--name-status -M -C` and `--numstat -z -M -C` listings
/// against its first parent (or the empty tree for a root commit).
pub fn commit_files(status_out: &str, numstat_out: &str) -> (r: Vec<FileStat>)
    ensures
        block_sorted(stat_views(r@)),
        stat_views(r@).to_multiset() == commit_block(status_out@, numstat_out@).to_multiset(),
        stat_views(r@) == stable_block(commit_block(status_out@, numstat_out@)),
{
    let sc = chars_of(status_out);
    let ls = lines(sc.as_slice());
    let ghost lv = views(ls@);
    let mut pairs: Vec<(Vec<char>, char)> = Vec::new();
    let mut i: usize = 0;
    while i < ls.len()
        invariant
            i <= ls.len(),
            lv == views(ls@),
            pair_views(pairs@) == status_pairs(lv.take(i as int)),
        decreases ls.len() - i,
    {
        assert(lv.take(i + 1).drop_last() =~= lv.take(i as int));
        assert(lv.take(i + 1).last() == ls@[i as int]@);
        let ghost before = pair_views(pairs@);
        match status_entry_of(ls[i].as_slice()) {
            Some(e) => {
                pairs.push(e);
                assert(pair_views(pairs@) =~= before.push(status_entry(ls@[i as int]@)->0));
            },
            None => {},
        }
        i = i + 1;
    }
    assert(lv.take(i as int) =~= lv);
    let ghost pv = pair_views(pairs@);
    let entries = parse_numstat_z(numstat_out);
    let ghost want = commit_block(status_out@, numstat_out@);
    let mut stats: Vec<FileStat> = Vec::new();
    let mut k: usize = 0;
    while k < entries.len()
        invariant
            k <= entries.len(),
            pv == pair_views(pairs@),
            pv == status_pairs(lines_spec(status_out@)),
            numstat_views(entries@) == numstat_spec(numstat_out@),
            want == commit_block(status_out@, numstat_out@),
            stat_views(stats@) == want.take(k as int),
            stats@.len() == k,
            want.len() == entries.len(),
        decreases entries.len() - k,
    {
        assert(numstat_views(entries@)[k as int] == entries@[k as int]@);
        let f = block_line(&entries[k], &pairs);
        assert(want[k as int] == block_entry(numstat_spec(numstat_out@)[k as int], pv));
        let ghost before = stats@;
        stats.push(f);
        assert(stat_views(stats@) =~= stat_views(before).push(want[k as int]));
        assert(want.take(k + 1) =~= want.take(k as int).push(want[k as int]));
        k = k + 1;
    }
    assert(want.take(k as int) =~= want);
    sort_file_stats(&mut stats);
    stats
}

/// Sum of the counts of `es` on one side, binary once any is.
pub open spec fn sum_added(es: Seq<NumstatSpec>) -> Option<int>
    decreases es.len(),
{
    if es.len() == 0 {
        Some(0)
    } else {
        plus(sum_added(es.drop_last()), es.last().added)
    }
}

pub open spec fn sum_removed(es: Seq<NumstatSpec>) -> Option<int>
    decreases es.len(),
{
    if es.len() == 0 {
        Some(0)
    } else {
        plus(sum_removed(es.drop_last()), es.last().removed)
    }
}

/// All the line counts `es` holds.
pub open spec fn numstat_churn(es: Seq<NumstatSpec>) -> int
    decreases es.len(),
{
    if es.len() == 0 {
        0
    } else {
        numstat_churn(es.drop_last()) + count_or_zero(es.last().added) + count_or_zero(
            es.last().removed,
        )
    }
}

proof fn lemma_sums_bounded(es: Seq<NumstatSpec>)
    ensures
        sum_added(es) matches Some(x) ==> 0 <= x <= numstat_churn(es),
        sum_removed(es) matches Some(x) ==> 0 <= x <= numstat_churn(es),
        numstat_churn(es) >= 0,
    decreases es.len(),
{
    if es.len() > 0 {
        lemma_sums_bounded(es.drop_last());
    }
}

/// `log`'s per-row `±` cell and the names a pathspec matched on one
/// commit, from a path-scoped `--numstat -z` listing: counts summed over
/// every entry (binary once any is), `None` on both sides when nothing
/// matched, and each entry's post-rename path.
pub fn path_row_stat(numstat_out: &str) -> (r: (Option<usize>, Option<usize>, Vec<String>))
    requires
        numstat_churn(numstat_spec(numstat_out@)) <= usize::MAX,
    ensures
        numstat_spec(numstat_out@).len() == 0 ==> r.0 is None && r.1 is None && r.2@.len() == 0,
        numstat_spec(numstat_out@).len() > 0 ==> as_int(r.0) == sum_added(numstat_spec(numstat_out@))
            && as_int(r.1) == sum_removed(numstat_spec(numstat_out@)) && crate::text::str_views(r.2@)
            == numstat_spec(numstat_out@).map_values(|e: NumstatSpec| e.path),
{
    let entries = parse_numstat_z(numstat_out);
    let ghost es = numstat_views(entries@);
    if entries.len() == 0 {
        return (None, None, Vec::new());
    }
    let mut added: Option<usize> = Some(0);
    let mut removed: Option<usize> = Some(0);
    let mut names: Vec<String> = Vec::new();
    let mut i: usize = 0;
    while i < entries.len()
        invariant
            i <= entries.len(),
            es == numstat_views(entries@),
            numstat_churn(es) <= usize::MAX,
            as_int(added) == sum_added(es.take(i as int)),
            as_int(removed) == sum_removed(es.take(i as int)),
            crate::text::str_views(names@) == es.take(i as int).map_values(|e: NumstatSpec| e.path),
        decreases entries.len() - i,
    {
        let ghost t = es.take(i + 1);
        assert(t.drop_last() =~= es.take(i as int));
        assert(t.last() == entries@[i as int]@);
        proof {
            lemma_sums_bounded(t);
            crate::commits::files::lemma_numstat_churn_grows(es, i + 1);
        }
        let e = &entries[i];
        added = match (added, e.added) {
            (Some(a), Some(b)) => Some(a + b),
            _ => None,
        };
        removed = match (removed, e.removed) {
            (Some(a), Some(b)) => Some(a + b),
            _ => None,
        };
        let ghost before = crate::text::str_views(names@);
        names.push(e.path.clone());
        assert(crate::text::str_views(names@) =~= before.push(e.path@));
        assert(t.map_values(|e: NumstatSpec| e.path) =~= es.take(i as int).map_values(
            |e: NumstatSpec| e.path,
        ).push(e.path@));
        i = i + 1;
    }
    assert(es.take(i as int) =~= es);
    (added, removed, names)
}

proof fn lemma_numstat_churn_grows(es: Seq<NumstatSpec>, i: int)
    requires
        0 <= i <= es.len(),
    ensures
        0 <= numstat_churn(es.take(i)) <= numstat_churn(es),
    decreases es.len() - i,
{
    lemma_sums_bounded(es.take(i));
    if i < es.len() {
        lemma_numstat_churn_grows(es, i + 1);
        assert(es.take(i + 1).drop_last() =~= es.take(i));
    } else {
        assert(es.take(i) =~= es);
    }
}

} // verus!
