//! Splitting raw statement text into individual statements.
//!
//! The split is purely lexical: the text is cut at every literal `;`, each
//! piece is trimmed of surrounding whitespace, empty pieces are dropped, and
//! the left-to-right order is kept. The splitter has no awareness of string
//! literals, comments or quoting, so a `;` inside a quoted string ends a
//! statement early; that is the documented splitting policy, not something to
//! be second-guessed here.
//!
//! Whitespace, for trimming, is the blank characters that ordinarily surround
//! statements: space, tab, line feed and carriage return.

use vstd::prelude::*;

verus! {

/// The characters that trimming removes from either end of a piece.
pub open spec fn is_space(c: char) -> bool {
    c == ' ' || c == '\t' || c == '\n' || c == '\r'
}

/// `s` without its leading whitespace.
pub open spec fn trim_start(s: Seq<char>) -> Seq<char>
    decreases s.len(),
{
    if s.len() > 0 && is_space(s[0]) {
        trim_start(s.drop_first())
    } else {
        s
    }
}

/// `s` without its trailing whitespace.
pub open spec fn trim_end(s: Seq<char>) -> Seq<char>
    decreases s.len(),
{
    if s.len() > 0 && is_space(s.last()) {
        trim_end(s.drop_last())
    } else {
        s
    }
}

/// `s` without leading and trailing whitespace.
pub open spec fn trimmed(s: Seq<char>) -> Seq<char> {
    trim_end(trim_start(s))
}

/// The index of the first `;` in `s`, or `s.len()` if there is none.
pub open spec fn first_semi(s: Seq<char>) -> int
    decreases s.len(),
{
    if s.len() == 0 {
        0
    } else if s[0] == ';' {
        0
    } else {
        1 + first_semi(s.drop_first())
    }
}

/// A trimmed piece as a batch contribution: dropped when empty, kept alone
/// otherwise.
pub open spec fn keep_piece(p: Seq<char>) -> Seq<Seq<char>> {
    if p.len() == 0 {
        Seq::empty()
    } else {
        seq![p]
    }
}

/// The statements of `text`: cut at each `;`, trim each piece, drop the
/// empty pieces, keep the order.
pub open spec fn statements_of(text: Seq<char>) -> Seq<Seq<char>>
    decreases text.len(),
{
    let i = first_semi(text);
    if 0 <= i < text.len() {
        keep_piece(trimmed(text.subrange(0, i))) + statements_of(text.skip(i + 1))
    } else {
        keep_piece(trimmed(text))
    }
}

/// `first_semi` lands on a `;` within bounds, or at the end when there is
/// none, and nothing before it is a `;`.
pub proof fn lemma_first_semi(s: Seq<char>)
    ensures
        0 <= first_semi(s) <= s.len(),
        first_semi(s) < s.len() ==> s[first_semi(s)] == ';',
        forall|j: int| 0 <= j < first_semi(s) ==> s[j] != ';',
    decreases s.len(),
{
    if s.len() > 0 && s[0] != ';' {
        lemma_first_semi(s.drop_first());
        assert forall|j: int| 0 <= j < first_semi(s) implies s[j] != ';' by {
            if j > 0 {
                assert(s.drop_first()[j - 1] != ';');
            }
        }
    }
}

/// An index below which no `;` occurs, and which is either the end or a `;`,
/// is exactly `first_semi`.
pub proof fn lemma_first_semi_is(s: Seq<char>, i: int)
    requires
        0 <= i <= s.len(),
        forall|j: int| 0 <= j < i ==> s[j] != ';',
        i < s.len() ==> s[i] == ';',
    ensures
        first_semi(s) == i,
    decreases s.len(),
{
    if i > 0 {
        assert(s[0] != ';');
        lemma_first_semi_is(s.drop_first(), i - 1);
    }
}

/// Dropping `a` leading whitespace characters, up to the first non-space,
/// is exactly `trim_start`.
pub proof fn lemma_trim_start_is(s: Seq<char>, a: int)
    requires
        0 <= a <= s.len(),
        forall|j: int| 0 <= j < a ==> is_space(s[j]),
        a < s.len() ==> !is_space(s[a]),
    ensures
        trim_start(s) == s.skip(a),
    decreases s.len(),
{
    if a == 0 {
        assert(s.skip(0) =~= s);
    } else {
        assert(is_space(s[0]));
        lemma_trim_start_is(s.drop_first(), a - 1);
        assert(s.drop_first().skip(a - 1) =~= s.skip(a));
    }
}

/// Keeping the first `b` characters, down to the last non-space, is exactly
/// `trim_end`.
pub proof fn lemma_trim_end_is(s: Seq<char>, b: int)
    requires
        0 <= b <= s.len(),
        forall|j: int| b <= j < s.len() ==> is_space(s[j]),
        b > 0 ==> !is_space(s[b - 1]),
    ensures
        trim_end(s) == s.take(b),
    decreases s.len(),
{
    if b == s.len() {
        if s.len() > 0 {
            assert(!is_space(s.last()));
        }
        assert(s.take(b) =~= s);
    } else {
        assert(is_space(s.last()));
        lemma_trim_end_is(s.drop_last(), b);
        assert(s.drop_last().take(b) =~= s.take(b));
    }
}

/// Inside the slice `[lo, hi)` of `text`, `ts` is the first non-space index
/// and `te` one past the last non-space index; the trimmed slice is then the
/// slice `[ts, te)`, or empty when the slice is all whitespace.
pub proof fn lemma_trimmed_subrange(text: Seq<char>, lo: int, hi: int, ts: int, te: int)
    requires
        0 <= lo <= hi <= text.len(),
        lo <= ts <= hi,
        forall|j: int| lo <= j < ts ==> is_space(text[j]),
        ts < hi ==> !is_space(text[ts]),
        ts < hi ==> ts < te <= hi,
        ts < hi ==> !is_space(text[te - 1]),
        ts < hi ==> forall|j: int| te <= j < hi ==> is_space(text[j]),
    ensures
        ts == hi ==> trimmed(text.subrange(lo, hi)) == Seq::<char>::empty(),
        ts < hi ==> trimmed(text.subrange(lo, hi)) == text.subrange(ts, te),
{
    let s = text.subrange(lo, hi);
    lemma_trim_start_is(s, ts - lo);
    if ts == hi {
        assert(trim_start(s) =~= Seq::<char>::empty());
    } else {
        assert(trim_start(s) =~= text.subrange(ts, hi));
        lemma_trim_end_is(text.subrange(ts, hi), te - ts);
        assert(text.subrange(ts, hi).take(te - ts) =~= text.subrange(ts, te));
    }
}

/// Every statement that the split yields is non-empty: a batch never holds
/// an empty entry.
pub proof fn lemma_statements_nonempty(text: Seq<char>)
    ensures
        forall|i: int| 0 <= i < statements_of(text).len()
            ==> (#[trigger] statements_of(text)[i]).len() > 0,
    decreases text.len(),
{
    let k = first_semi(text);
    lemma_first_semi(text);
    if 0 <= k < text.len() {
        lemma_statements_nonempty(text.skip(k + 1));
        let head = keep_piece(trimmed(text.subrange(0, k)));
        let tail = statements_of(text.skip(k + 1));
        assert forall|i: int| 0 <= i < statements_of(text).len() implies (#[trigger] statements_of(
            text,
        )[i]).len() > 0 by {
            if i >= head.len() {
                assert(statements_of(text)[i] == tail[i - head.len()]);
            }
        }
    }
}

/// Whether a character counts as whitespace for trimming.
pub fn is_space_char(c: char) -> (r: bool)
    ensures
        r == is_space(c),
{
    c == ' ' || c == '\t' || c == '\n' || c == '\r'
}

/// Splits raw statement text at each `;`, trims each piece, and drops the
/// pieces that are empty after trimming, keeping left-to-right order.
pub fn split_statements(text: &str) -> (r: Vec<String>)
    ensures
        r.deep_view() == statements_of(text@),
{
    let n = text.unicode_len();
    let mut out: Vec<String> = Vec::new();
    let mut pos: usize = 0;
    let mut done = false;
    proof {
        assert(out.deep_view() =~= Seq::<Seq<char>>::empty());
        assert(text@.skip(0) =~= text@);
        assert(out.deep_view() + statements_of(text@) =~= statements_of(text@));
    }
    while !done
        invariant
            n == text@.len(),
            pos <= n,
            !done ==> out.deep_view() + statements_of(text@.skip(pos as int)) == statements_of(text@),
            done ==> out.deep_view() == statements_of(text@),
        decreases n - pos + (if done { 0int } else { 1int }),
    {
        let ghost prev_pos = pos as int;
        // find the next `;` at or after pos
        let mut j: usize = pos;
        while j < n && text.get_char(j) != ';'
            invariant
                n == text@.len(),
                pos <= j <= n,
                forall|k: int| pos <= k < j ==> text@[k] != ';',
            decreases n - j,
        {
            j += 1;
        }
        // skip leading whitespace of the piece
        let mut ts: usize = pos;
        while ts < j && is_space_char(text.get_char(ts))
            invariant
                n == text@.len(),
                pos <= ts <= j <= n,
                forall|k: int| pos <= k < ts ==> is_space(text@[k]),
            decreases j - ts,
        {
            ts += 1;
        }
        // skip trailing whitespace of the piece
        let mut te: usize = j;
        while te > ts && is_space_char(text.get_char(te - 1))
            invariant
                n == text@.len(),
                ts <= te <= j <= n,
                forall|k: int| te <= k < j ==> is_space(text@[k]),
            decreases te,
        {
            te -= 1;
        }
        let ghost t = text@;
        let ghost s2 = t.skip(prev_pos);
        let ghost piece_spec = trimmed(t.subrange(prev_pos, j as int));
        let ghost rest = if (j as int) < t.len() { statements_of(t.skip(j + 1)) } else {
            Seq::<Seq<char>>::empty()
        };
        proof {
            assert(forall|k: int| 0 <= k < j - prev_pos ==> s2[k] != ';');
            lemma_first_semi_is(s2, j - prev_pos);
            if ts < j {
                assert(!is_space(t[ts as int]));
                if te == ts {
                    assert(is_space(t[ts as int]));
                    assert(false);
                }
            }
            lemma_trimmed_subrange(t, prev_pos, j as int, ts as int, te as int);
            // unfold statements_of over the suffix that starts at prev_pos
            if (j as int) < t.len() {
                assert(s2.subrange(0, j - prev_pos) =~= t.subrange(prev_pos, j as int));
                assert(s2.skip(j - prev_pos + 1) =~= t.skip(j + 1));
                assert(statements_of(s2) == keep_piece(piece_spec) + rest);
            } else {
                assert(s2 =~= t.subrange(prev_pos, j as int));
                assert(statements_of(s2) == keep_piece(piece_spec));
                assert(keep_piece(piece_spec) + rest =~= keep_piece(piece_spec));
                assert(statements_of(s2) == keep_piece(piece_spec) + rest);
            }
        }
        let ghost dv0 = out.deep_view();
        if ts < te {
            let piece = text.substring_char(ts, te);
            out.push(piece.to_owned());
            proof {
                assert(piece_spec == t.subrange(ts as int, te as int));
                assert(out.deep_view() =~= dv0.push(piece_spec));
                assert(dv0.push(piece_spec) =~= dv0 + keep_piece(piece_spec));
            }
        } else {
            proof {
                assert(piece_spec.len() == 0);
                assert(out.deep_view() =~= dv0 + keep_piece(piece_spec));
            }
        }
        proof {
            assert(out.deep_view() + rest =~= dv0 + (keep_piece(piece_spec) + rest));
            assert(out.deep_view() + rest =~= dv0 + statements_of(s2));
            assert(dv0 + statements_of(s2) == statements_of(t));
            assert(out.deep_view() + rest =~= statements_of(t));
        }
        if j < n {
            pos = j + 1;
        } else {
            done = true;
            proof {
                assert(out.deep_view() + rest =~= out.deep_view());
            }
        }
    }
    out
}

} // verus!
