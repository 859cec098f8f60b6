//! Terminal presentation: ANSI color codes, the glyphs the tables print,
//! and the column floors the width flags enforce.

use vstd::prelude::*;

use crate::text::{chars_of, occurs, occurs_at, push_all, push_str, string_of};

verus! {

pub const RED: &'static str = "31";

pub const GREEN: &'static str = "32";

pub const YELLOW: &'static str = "33";

pub const BLUE: &'static str = "34";

pub const MAGENTA: &'static str = "35";

pub const DIM: &'static str = "2";

/// Bold bright blue: a search hit, in every table.
pub const SEARCH_MATCH: &'static str = "1;94";

pub const CHECK: &'static str = "✓";

pub const EQUIV: &'static str = "≈";

pub const MISS: &'static str = "·";

pub const TRAILER: &'static str = "←";

pub const FINGERPRINT: &'static str = "~";

/// Header of the column naming the other sha of a picked patch.
pub const PICK_HEAD: &'static str = "pick";

/// Fewest columns a subject is cut to: below it a cut subject says nothing.
pub const MIN_TEXTW: usize = 10;

/// Fewest columns a branch-name header is cut to.
pub const BRANCH_MIN: usize = 10;

/// Fewest columns `log`'s path column is cut to.
pub const PATH_MIN: usize = 10;

/// Widest an author name gets on a terminal.
pub const AUTHOR_MAX: usize = 20;

/// Widest a mark column's branch-name header gets unless asked.
pub const BRANCH_HEAD_MAX: usize = 20;

/// Widest `log`'s path column gets unless asked.
pub const PATH_MAX: usize = 40;

/// A sha cut to the `n` columns the table gives shas: its first `n`
/// characters, or all of it when it is shorter.
pub open spec fn abbrev_spec(s: Seq<char>, n: nat) -> Seq<char> {
    if s.len() <= n {
        s
    } else {
        s.take(n as int)
    }
}

/// `s` cut to its first `n` characters.
pub fn abbrev(s: &str, n: usize) -> (r: String)
    ensures
        r@ == abbrev_spec(s@, n as nat),
{
    let cs = chars_of(s);
    if cs.len() <= n {
        return string_of(cs.as_slice());
    }
    let mut out: Vec<char> = Vec::new();
    let mut i: usize = 0;
    while i < n
        invariant
            i <= n,
            n < cs.len(),
            cs@ == s@,
            out@ == s@.take(i as int),
        decreases n - i,
    {
        out.push(cs[i]);
        assert(s@.take(i + 1) =~= s@.take(i as int).push(cs@[i as int]));
        i = i + 1;
    }
    string_of(out.as_slice())
}

/// `s` wrapped in the escape for `code` when `on`, as it is otherwise.
pub open spec fn paint_spec(s: Seq<char>, code: Seq<char>, on: bool) -> Seq<char> {
    if on {
        "\x1b["@ + code + "m"@ + s + "\x1b[0m"@
    } else {
        s
    }
}

/// A stretch between search hits: tinted with `base` when there is one.
pub open spec fn stretch_spec(s: Seq<char>, base: Seq<char>) -> Seq<char> {
    if s.len() == 0 {
        s
    } else if base.len() == 0 {
        s
    } else {
        paint_spec(s, base, true)
    }
}

/// `text` from `i` on, with every hit of `term` (left to right, never
/// overlapping) painted `hl` and the stretches between them painted `base`;
/// `pend` is the stretch already read before `i`.
pub open spec fn matches_from(
    text: Seq<char>,
    term: Seq<char>,
    hl: Seq<char>,
    base: Seq<char>,
    i: int,
    pend: Seq<char>,
) -> Seq<char>
    decreases text.len() - i,
{
    if i < 0 || i >= text.len() || term.len() == 0 {
        stretch_spec(pend + text.skip(i), base)
    } else if occurs_at(text, term, i) {
        stretch_spec(pend, base) + paint_spec(term, hl, true) + matches_from(
            text,
            term,
            hl,
            base,
            i + term.len(),
            Seq::empty(),
        )
    } else {
        matches_from(text, term, hl, base, i + 1, pend.push(text[i]))
    }
}

/// What `paint_matches` prints.
pub open spec fn paint_matches_spec(
    text: Seq<char>,
    term: Seq<char>,
    hl: Seq<char>,
    base: Seq<char>,
    on: bool,
) -> Seq<char> {
    if !on {
        text
    } else {
        matches_from(text, term, hl, base, 0, Seq::empty())
    }
}

/// Appends `s` painted `code` when `on`.
pub fn push_painted(out: &mut Vec<char>, s: &[char], code: &str, on: bool)
    ensures
        final(out)@ == old(out)@ + paint_spec(s@, code@, on),
{
    if on {
        push_str(out, "\x1b[");
        push_str(out, code);
        push_str(out, "m");
        push_all(out, s);
        push_str(out, "\x1b[0m");
        assert(final(out)@ =~= old(out)@ + paint_spec(s@, code@, on));
    } else {
        push_all(out, s);
    }
}

/// Appends a stretch between hits, tinted `base` when there is one.
fn push_stretch(out: &mut Vec<char>, s: &[char], base: &str)
    ensures
        final(out)@ == old(out)@ + stretch_spec(s@, base@),
{
    if s.len() == 0 {
        assert(old(out)@ + s@ =~= old(out)@);
        return;
    }
    if base.is_empty() {
        push_all(out, s);
    } else {
        push_painted(out, s, base, true);
    }
}

/// Appends `text` with every hit of `term` painted `hl` and the rest painted
/// `base` (or left plain when `base` is empty); all plain when `on` is off.
pub fn push_matches(out: &mut Vec<char>, text: &[char], term: &[char], hl: &str, base: &str, on: bool)
    ensures
        final(out)@ == old(out)@ + paint_matches_spec(text@, term@, hl@, base@, on),
{
    if !on {
        push_all(out, text);
        return;
    }
    let mut pend: Vec<char> = Vec::new();
    let mut i: usize = 0;
    assert(text@.skip(0) =~= text@);
    while i < text.len() && term.len() > 0
        invariant
            i <= text.len(),
            old(out)@ + paint_matches_spec(text@, term@, hl@, base@, on) == out@ + matches_from(
                text@,
                term@,
                hl@,
                base@,
                i as int,
                pend@,
            ),
            on,
        decreases text.len() - i,
    {
        if occurs(text, term, i) {
            let ghost rest = matches_from(text@, term@, hl@, base@, i + term.len(), Seq::empty());
            push_stretch(out, pend.as_slice(), base);
            push_painted(out, term, hl, true);
            pend = Vec::new();
            i = i + term.len();
            assert(old(out)@ + paint_matches_spec(text@, term@, hl@, base@, on) =~= out@ + rest);
        } else {
            pend.push(text[i]);
            i = i + 1;
        }
    }
    let ghost tail = text@.skip(i as int);
    let mut last = pend;
    let mut k: usize = i;
    while k < text.len()
        invariant
            i <= k <= text.len(),
            last@ == pend@ + text@.subrange(i as int, k as int),
        decreases text.len() - k,
    {
        last.push(text[k]);
        assert(text@.subrange(i as int, k + 1) =~= text@.subrange(i as int, k as int).push(
            text@[k as int],
        ));
        k = k + 1;
    }
    assert(text@.subrange(i as int, text.len() as int) =~= tail);
    assert(matches_from(text@, term@, hl@, base@, i as int, pend@) == stretch_spec(last@, base@));
    push_stretch(out, last.as_slice(), base);
}

// ---------------------------------------------------------------------------
// What a terminal shows
// ---------------------------------------------------------------------------

/// `s` after its first `m`; nothing when it has none.
pub open spec fn after_m(s: Seq<char>) -> Seq<char>
    decreases s.len(),
{
    if s.len() == 0 {
        s
    } else if s[0] == 'm' {
        s.drop_first()
    } else {
        after_m(s.drop_first())
    }
}

pub proof fn lemma_after_m_shorter(s: Seq<char>)
    ensures
        after_m(s).len() <= s.len(),
    decreases s.len(),
{
    if s.len() > 0 && s[0] != 'm' {
        lemma_after_m_shorter(s.drop_first());
    }
}

/// What a terminal shows of `s`: each escape sequence (an escape up to and
/// including the next `m`) takes no room.
pub open spec fn visible(s: Seq<char>) -> Seq<char>
    decreases s.len(),
{
    if s.len() == 0 {
        s
    } else if s[0] == '\x1b' {
        proof {
            lemma_after_m_shorter(s.drop_first());
        }
        visible(after_m(s.drop_first()))
    } else {
        seq![s[0]] + visible(s.drop_first())
    }
}

/// Text with no escape in it.
pub open spec fn plain_text(s: Seq<char>) -> bool {
    !s.contains('\x1b')
}

/// Every escape in `s` ends within `s`.
pub open spec fn closed(s: Seq<char>) -> bool
    decreases s.len(),
{
    if s.len() == 0 {
        true
    } else if s[0] == '\x1b' {
        proof {
            lemma_after_m_shorter(s.drop_first());
        }
        s.drop_first().contains('m') && closed(after_m(s.drop_first()))
    } else {
        closed(s.drop_first())
    }
}

proof fn lemma_after_m_concat(a: Seq<char>, b: Seq<char>)
    requires
        a.contains('m'),
    ensures
        after_m(a + b) == after_m(a) + b,
    decreases a.len(),
{
    assert((a + b)[0] == a[0]);
    if a[0] != 'm' {
        let k = choose|k: int| 0 <= k < a.len() && a[k] == 'm';
        assert(a.drop_first()[k - 1] == 'm');
        lemma_after_m_concat(a.drop_first(), b);
        assert((a + b).drop_first() =~= a.drop_first() + b);
    } else {
        assert((a + b).drop_first() =~= a.drop_first() + b);
    }
}

/// Plain text shows as itself.
pub proof fn lemma_visible_plain(a: Seq<char>, b: Seq<char>)
    requires
        plain_text(a),
    ensures
        visible(a + b) == a + visible(b),
        closed(a + b) == closed(b),
    decreases a.len(),
{
    if a.len() == 0 {
        assert(a + b =~= b);
    } else {
        assert(a[0] != '\x1b') by {
            assert(a.contains(a[0]) || true);
            if a[0] == '\x1b' {
                assert(a.contains('\x1b'));
            }
        }
        assert(!a.drop_first().contains('\x1b')) by {
            if a.drop_first().contains('\x1b') {
                let k = choose|k: int| 0 <= k < a.drop_first().len() && a.drop_first()[k] == '\x1b';
                assert(a[k + 1] == '\x1b');
            }
        }
        lemma_visible_plain(a.drop_first(), b);
        assert((a + b).drop_first() =~= a.drop_first() + b);
        assert((a + b)[0] == a[0]);
        assert(seq![a[0]] + (a.drop_first() + visible(b)) =~= a + visible(b));
    }
}

/// What shows of two runs is what shows of each, when the first closes
/// every escape it opens; and two closed runs make a closed one.
pub proof fn lemma_visible_concat(a: Seq<char>, b: Seq<char>)
    requires
        closed(a),
    ensures
        visible(a + b) == visible(a) + visible(b),
        closed(b) ==> closed(a + b),
    decreases a.len(),
{
    if a.len() == 0 {
        assert(a + b =~= b);
    } else {
        assert((a + b)[0] == a[0]);
        assert((a + b).drop_first() =~= a.drop_first() + b);
        if a[0] == '\x1b' {
            lemma_after_m_concat(a.drop_first(), b);
            lemma_after_m_shorter(a.drop_first());
            lemma_visible_concat(after_m(a.drop_first()), b);
            let k = choose|k: int| 0 <= k < a.drop_first().len() && a.drop_first()[k] == 'm';
            assert((a.drop_first() + b)[k] == 'm');
        } else {
            lemma_visible_concat(a.drop_first(), b);
            assert(seq![a[0]] + (visible(a.drop_first()) + visible(b)) =~= (seq![a[0]] + visible(
                a.drop_first(),
            )) + visible(b));
        }
    }
}

/// An escape for a code without `m` in it.
proof fn lemma_escape(code: Seq<char>, b: Seq<char>)
    requires
        !code.contains('m'),
    ensures
        visible("\x1b["@ + code + "m"@ + b) == visible(b),
        closed("\x1b["@ + code + "m"@ + b) == closed(b),
        ("\x1b["@ + code + "m"@).contains('m'),
{
    reveal_strlit("\x1b[");
    reveal_strlit("m");
    let e = "\x1b["@ + code + "m"@;
    let s = e + b;
    let t = s.drop_first();
    assert(t =~= seq!['['] + code + seq!['m'] + b);
    assert(t[code.len() as int + 1] == 'm');
    assert(after_m(t) == b) by {
        assert(t[0] == '[');
        let u = t.drop_first();
        assert(u =~= code + (seq!['m'] + b));
        lemma_after_m_code(code, seq!['m'] + b);
        assert((seq!['m'] + b).drop_first() =~= b);
    }
    assert(e[code.len() as int + 2] == 'm');
}

proof fn lemma_after_m_code(code: Seq<char>, rest: Seq<char>)
    requires
        !code.contains('m'),
    ensures
        after_m(code + rest) == after_m(rest),
    decreases code.len(),
{
    if code.len() > 0 {
        assert((code + rest)[0] == code[0]);
        assert(code[0] != 'm') by {
            if code[0] == 'm' {
                assert(code.contains('m'));
            }
        }
        assert((code + rest).drop_first() =~= code.drop_first() + rest);
        assert(!code.drop_first().contains('m')) by {
            if code.drop_first().contains('m') {
                let k = choose|k: int| 0 <= k < code.drop_first().len() && code.drop_first()[k] == 'm';
                assert(code[k + 1] == 'm');
            }
        }
        lemma_after_m_code(code.drop_first(), rest);
    } else {
        assert(code + rest =~= rest);
    }
}

/// Painting takes no room: what shows of painted plain text is the text,
/// and the paint closes what it opens.
pub proof fn lemma_paint_invisible(s: Seq<char>, code: Seq<char>, on: bool)
    requires
        plain_text(s),
        !code.contains('m'),
    ensures
        visible(paint_spec(s, code, on)) == s,
        closed(paint_spec(s, code, on)),
{
    lemma_visible_plain(s, Seq::empty());
    assert(s + Seq::<char>::empty() =~= s);
    if on {
        reveal_strlit("\x1b[0m");
        let tail = "\x1b[0m"@;
        assert(!"0"@.contains('m')) by {
            reveal_strlit("0");
        }
        assert(tail =~= "\x1b["@ + "0"@ + "m"@) by {
            reveal_strlit("\x1b[");
            reveal_strlit("m");
            reveal_strlit("0");
        }
        lemma_escape("0"@, Seq::empty());
        assert(tail + Seq::<char>::empty() =~= tail);
        lemma_visible_plain(s, tail);
        let p = paint_spec(s, code, true);
        assert(p =~= "\x1b["@ + code + "m"@ + (s + tail));
        lemma_escape(code, s + tail);
    }
}

proof fn lemma_plain_parts(a: Seq<char>, i: int, j: int)
    requires
        plain_text(a),
        0 <= i <= j <= a.len(),
    ensures
        plain_text(a.subrange(i, j)),
        plain_text(a.skip(i)),
{
    if a.subrange(i, j).contains('\x1b') {
        let k = choose|k: int| 0 <= k < a.subrange(i, j).len() && a.subrange(i, j)[k] == '\x1b';
        assert(a[i + k] == '\x1b');
        assert(a.contains('\x1b'));
    }
    if a.skip(i).contains('\x1b') {
        let k = choose|k: int| 0 <= k < a.skip(i).len() && a.skip(i)[k] == '\x1b';
        assert(a[i + k] == '\x1b');
        assert(a.contains('\x1b'));
    }
}

proof fn lemma_plain_join(a: Seq<char>, b: Seq<char>)
    requires
        plain_text(a),
        plain_text(b),
    ensures
        plain_text(a + b),
{
    if (a + b).contains('\x1b') {
        let k = choose|k: int| 0 <= k < (a + b).len() && (a + b)[k] == '\x1b';
        if k < a.len() {
            assert(a[k] == '\x1b');
            assert(a.contains('\x1b'));
        } else {
            assert(b[k - a.len()] == '\x1b');
            assert(b.contains('\x1b'));
        }
    }
}

proof fn lemma_stretch_invisible(s: Seq<char>, base: Seq<char>)
    requires
        plain_text(s),
        !base.contains('m'),
    ensures
        visible(stretch_spec(s, base)) == s,
        closed(stretch_spec(s, base)),
{
    lemma_paint_invisible(s, base, false);
    if s.len() > 0 && base.len() > 0 {
        lemma_paint_invisible(s, base, true);
    }
}

/// Highlighting search hits takes no room either: what shows is the text
/// (after what was already read, `pend`), and every escape is closed.
pub proof fn lemma_matches_invisible(
    text: Seq<char>,
    term: Seq<char>,
    hl: Seq<char>,
    base: Seq<char>,
    i: int,
    pend: Seq<char>,
)
    requires
        plain_text(text),
        plain_text(term),
        plain_text(pend),
        !hl.contains('m'),
        !base.contains('m'),
        0 <= i <= text.len(),
    ensures
        visible(matches_from(text, term, hl, base, i, pend)) == pend + text.skip(i),
        closed(matches_from(text, term, hl, base, i, pend)),
    decreases text.len() - i,
{
    lemma_plain_parts(text, i, text.len() as int);
    if i >= text.len() || term.len() == 0 {
        lemma_plain_join(pend, text.skip(i));
        lemma_stretch_invisible(pend + text.skip(i), base);
    } else if occurs_at(text, term, i) {
        let a = stretch_spec(pend, base);
        let b = paint_spec(term, hl, true);
        let c = matches_from(text, term, hl, base, i + term.len(), Seq::empty());
        assert(!Seq::<char>::empty().contains('\x1b'));
        lemma_matches_invisible(text, term, hl, base, i + term.len(), Seq::empty());
        lemma_stretch_invisible(pend, base);
        lemma_paint_invisible(term, hl, true);
        lemma_visible_concat(b, c);
        lemma_visible_concat(a, b + c);
        assert(a + b + c =~= a + (b + c));
        assert(Seq::<char>::empty() + text.skip(i + term.len()) =~= text.skip(i + term.len()));
        assert(text.subrange(i, i + term.len()) == term);
        assert(pend + term + text.skip(i + term.len()) =~= pend + text.skip(i));
    } else {
        assert(text[i] != '\x1b') by {
            if text[i] == '\x1b' {
                assert(text.contains('\x1b'));
            }
        }
        assert(!seq![text[i]].contains('\x1b')) by {
            if seq![text[i]].contains('\x1b') {
                let k = choose|k: int| 0 <= k < 1 && seq![text[i]][k] == '\x1b';
            }
        }
        lemma_plain_join(pend, seq![text[i]]);
        assert(pend + seq![text[i]] =~= pend.push(text[i]));
        lemma_matches_invisible(text, term, hl, base, i + 1, pend.push(text[i]));
        assert(pend.push(text[i]) + text.skip(i + 1) =~= pend + text.skip(i));
    }
}

} // verus!
