//! Which control sequences can be turned into elements: all that the grammar accepts, but
//! for two kinds whose reading fails on some of them.
use vstd::prelude::*;

use crate::decimal;
use crate::element;
use crate::scan::{self, CharClass};
use crate::tags;

verus! {

/// The control sequences that are recognised but cannot be read:
/// a clear sequence whose time is not a number (`<c.>`, `<c1.2.3>`), and a position
/// sequence with an empty third part (`<p1,2,>`).
pub open spec fn sequence_unreadable(next: char, seq: Seq<char>) -> bool {
    let body = seq.subrange(2, seq.len() - 1);
    ||| next == 'c' && !element::time_defined(body)
    ||| next == 'p' && !element::position_defined(body)
}

/// A numeral is a literal without a sign.
pub proof fn lemma_numeral_is_literal(t: Seq<char>)
    requires
        decimal::is_numeral(t),
    ensures
        decimal::is_decimal_literal(t),
        decimal::is_float_literal(t),
        t.len() > 0 && t[0] != '*' && !decimal::has_sign(t),
{
    scan::lemma_run_end(t, 0, CharClass::Digit);
}

/// A signed numeral is a literal.
pub proof fn lemma_signed_numeral_is_literal(t: Seq<char>)
    requires
        decimal::is_signed_numeral(t),
    ensures
        decimal::is_decimal_literal(t),
        t.len() > 0 && t[0] != '*',
{
    if decimal::has_sign(t) {
        lemma_numeral_is_literal(t.skip(1));
    } else {
        lemma_numeral_is_literal(t);
    }
}

/// Trimming leaves alone what neither starts nor ends with white space.
pub proof fn lemma_trim_unchanged(t: Seq<char>)
    requires
        t.len() == 0 || (!scan::is_whitespace(t[0]) && !scan::is_whitespace(t.last())),
    ensures
        element::trim(t) == t,
{
}

/// A run inside the control sequence ends where it ends in the whole text.
proof fn lemma_local_run(s: Seq<char>, i: int, n: int, j: int, cls: CharClass)
    requires
        0 <= i <= j <= i + n <= s.len(),
        scan::run_end(s, j, cls) <= i + n,
    ensures
        scan::run_end(s.subrange(i, i + n), j - i, cls) == scan::run_end(s, j, cls) - i,
{
    scan::lemma_run_end_subrange(s, i, i + n, j, cls);
}

/// A separator is at the same place in the control sequence as in the text, as long as its
/// number run stops before the sequence ends.
proof fn lemma_local_ruby_mark(s: Seq<char>, i: int, n: int, p: int)
    requires
        0 <= i,
        i + 3 <= p,
        p + 2 <= i + n - 3,
        i + n <= s.len(),
        s[i + n - 3] == '<',
    ensures
        tags::ruby_mark_at(s.subrange(i, i + n), p - i) == tags::ruby_mark_at(s, p),
        tags::ruby_mark_at(s, p) ==> tags::ruby_mark_end(s.subrange(i, i + n), p - i)
            == tags::ruby_mark_end(s, p) - i,
        tags::ruby_number_end(s.subrange(i, i + n), p - i) == tags::ruby_number_end(s, p) - i,
        tags::ruby_number_end(s, p) <= i + n - 3,
{
    let seq = s.subrange(i, i + n);
    scan::lemma_run_end(s, p + 2, CharClass::Numeral);
    let q = scan::run_end(s, p + 2, CharClass::Numeral);
    if q > i + n - 3 {
        assert(scan::in_class(CharClass::Numeral, s[i + n - 3]));
    }
    lemma_local_run(s, i, n, p + 2, CharClass::Numeral);
    assert(seq.subrange(p - i + 2, q - i) =~= s.subrange(p + 2, q));
    assert(seq[p - i] == s[p]);
    assert(seq[p - i + 1] == s[p + 1]);
    assert(seq[q - i] == s[q]);
    assert(seq[q - i + 1] == s[q + 1]);
}

/// The first separator in the control sequence is the first one in the text.
proof fn lemma_local_find_ruby_mark(s: Seq<char>, i: int, n: int, from: int)
    requires
        0 <= i,
        i + 3 <= from,
        i + n <= s.len(),
        s[i + n - 3] == '<',
        from <= tags::find_ruby_mark(s, from) < s.len(),
        tags::ruby_mark_at(s, tags::find_ruby_mark(s, from)),
        tags::ruby_mark_end(s, tags::find_ruby_mark(s, from)) <= i + n - 3,
    ensures
        tags::find_ruby_mark(s.subrange(i, i + n), from - i) == tags::find_ruby_mark(s, from) - i,
    decreases tags::find_ruby_mark(s, from) - from,
{
    let seq = s.subrange(i, i + n);
    let p = tags::find_ruby_mark(s, from);
    scan::lemma_run_end(s, p + 2, CharClass::Numeral);
    lemma_local_ruby_mark(s, i, n, from);
    if from < p {
        lemma_local_find_ruby_mark(s, i, n, from + 1);
    }
}


/// The shape that every recognised control sequence has: `<`, its kind letter, and `>`
/// at its end.
pub proof fn lemma_recognised_shape(s: Seq<char>, i: int)
    requires
        tags::tag_len(s, i) > 0,
    ensures
        ({
            let n = tags::tag_len(s, i);
            &&& 0 <= i
            &&& 3 <= n <= s.len() - i
            &&& s[i] == '<'
            &&& s[i + n - 1] == '>'
        }),
{
    tags::lemma_tag_len_bounds(s, i);
    let n = tags::tag_len(s, i);
    let next = s[i + 1];
    if next == '#' || next == '@' || next == '$' {
        scan::lemma_run_end(s, i + 2, CharClass::Other('>'));
    } else if next == '?' {
        tags::lemma_find_two(s, i + 2, '?', '>');
    } else if next == '/' {
        if tags::comment_len(s, i) > 0 {
            tags::lemma_find_three(s, i + 3, '/', '/', '>');
        } else if tags::ruby_len(s, i) > 0 {
            tags::lemma_find_ruby_mark(s, i + 3);
            let p = tags::find_ruby_mark(s, i + 3);
            tags::lemma_find_three(s, tags::ruby_mark_end(s, p), '<', '/', '>');
        }
    } else if next == 's' {
        scan::lemma_run_end(s, i + 2, CharClass::Scalar);
        let k = scan::run_end(s, i + 2, CharClass::Scalar);
        if s[k] == ',' {
            let m = scan::find_char(s, k + 1, ',');
            scan::lemma_run_end(s, k + 1, CharClass::Other(','));
            if m < s.len() && tags::size_style_end(s, m) > 0 {
                let d = scan::run_end(s, m + 1, CharClass::Style);
            } else {
                lemma_last_gt_end_gt(s, k + 1, m);
            }
        }
    }
}

/// `last_gt_end` ends after a `>`.
proof fn lemma_last_gt_end_gt(s: Seq<char>, lo: int, hi: int)
    requires
        0 <= lo,
        hi <= s.len(),
    ensures
        tags::last_gt_end(s, lo, hi) > 0 ==> s[tags::last_gt_end(s, lo, hi) - 1] == '>',
    decreases hi - lo,
{
    if hi > lo && s[hi - 1] != '>' {
        lemma_last_gt_end_gt(s, lo, hi - 1);
    }
}


/// The size part of a recognised size sequence can be read.
proof fn lemma_size_readable(s: Seq<char>, i: int)
    requires
        s[i + 1] == 's',
        tags::tag_len(s, i) > 0,
    ensures
        element::size_defined(
            s.subrange(i, i + tags::tag_len(s, i)).subrange(2, tags::tag_len(s, i) - 1),
        ),
{
    lemma_recognised_shape(s, i);
    tags::lemma_tag_len_bounds(s, i);
    let n = tags::tag_len(s, i);
    let seq = s.subrange(i, i + n);
    let body = seq.subrange(2, n - 1);
    assert(body =~= s.subrange(i + 2, i + n - 1));
    scan::lemma_run_end(s, i + 2, CharClass::Scalar);
    let k = scan::run_end(s, i + 2, CharClass::Scalar);
    let size = s.subrange(i + 2, k);
    // the size ends at the first comma of the body, or the body is the size
    if s[k] == '>' {
        assert(n == k + 1 - i);
        assert(body =~= size);
        assert forall|m: int| 0 <= m < body.len() implies scan::in_class(CharClass::Other(','), #[trigger] body[m]) by {
            assert(body[m] == s[i + 2 + m]);
        }
        scan::lemma_run_end_at(body, 0, body.len() as int, CharClass::Other(','));
        assert(body.take(body.len() as int) =~= body);
    } else {
        assert(s[k] == ',');
        let e = tags::size_font_end(s, k);
        scan::lemma_run_end(s, k + 1, CharClass::Other(','));
        let m = scan::find_char(s, k + 1, ',');
        if m < s.len() && tags::size_style_end(s, m) > 0 {
            scan::lemma_run_end(s, m + 1, CharClass::Style);
            scan::lemma_run_end(s, m + 1, CharClass::Numeral);
            let d = scan::run_end(s, m + 1, CharClass::Style);
            if d < s.len() {
                scan::lemma_run_end(s, d + 1, CharClass::Numeral);
            }
            assert(e > m);
        } else {
            tags::lemma_last_gt_end(s, k + 1, m);
        }
        assert(n == e - i);
        assert(e > k + 1);
        assert forall|j: int| 0 <= j < k - i - 2 implies scan::in_class(CharClass::Other(','), #[trigger] body[j]) by {
            assert(body[j] == s[i + 2 + j]);
        }
        assert(body[k - i - 2] == s[k]);
        scan::lemma_run_end_at(body, 0, k - i - 2, CharClass::Other(','));
        assert(body.take(k - i - 2) =~= size);
    }
    let t = size;
    if t.len() > 0 {
        assert(t[0] == s[i + 2]);
        assert(t.last() == s[k - 1]);
        assert(scan::in_class(CharClass::Scalar, s[i + 2]));
        assert(scan::in_class(CharClass::Scalar, s[k - 1]));
    }
    lemma_trim_unchanged(t);
    if t.len() > 0 {
        if decimal::is_signed_numeral(t) {
            lemma_signed_numeral_is_literal(t);
        } else {
            lemma_numeral_is_literal(t.skip(1));
        }
    }
}

/// The body of a recognised run-shaped tag is its run.
proof fn lemma_run_body(s: Seq<char>, i: int, from: int, cls: CharClass)
    requires
        0 <= i < from <= s.len(),
        scan::run_end(s, from, cls) < s.len(),
        tags::tag_len(s, i) == scan::run_end(s, from, cls) + 1 - i,
    ensures
        s.subrange(i, i + tags::tag_len(s, i)).subrange(from - i, tags::tag_len(s, i) - 1)
            == tags::run_body(s, from, cls),
{
    scan::lemma_run_end(s, from, cls);
    assert(s.subrange(i, i + tags::tag_len(s, i)).subrange(from - i, tags::tag_len(s, i) - 1)
        =~= tags::run_body(s, from, cls));
}

/// The ruby of a recognised ruby sequence can be read.
proof fn lemma_ruby_readable(s: Seq<char>, i: int)
    requires
        s[i + 1] == '/',
        tags::tag_len(s, i) > 0,
        tags::comment_len(s, i) == 0,
        tags::ruby_len(s, i) > 0,
    ensures
        element::ruby_defined(s.subrange(i, i + tags::tag_len(s, i))),
{
    lemma_recognised_shape(s, i);
    let n = tags::tag_len(s, i);
    let seq = s.subrange(i, i + n);
    tags::lemma_find_ruby_mark(s, i + 3);
    let p = tags::find_ruby_mark(s, i + 3);
    let me = tags::ruby_mark_end(s, p);
    tags::lemma_find_three(s, me, '<', '/', '>');
    let r = tags::find_three(s, me, '<', '/', '>');
    assert(n == r + 3 - i);
    assert(s[i + n - 3] == '<');
    lemma_local_find_ruby_mark(s, i, n, i + 3);
    lemma_local_ruby_mark(s, i, n, p);
    assert(tags::three_at(seq, 0, '<', '/', '>')) by {
        assert(seq[0] == s[i] && seq[1] == s[i + 1] && seq[2] == s[i + 2]);
    }
    assert(tags::three_at(seq, n - 3, '<', '/', '>')) by {
        assert(seq[n - 3] == s[r] && seq[n - 2] == s[r + 1] && seq[n - 1] == s[r + 2]);
    }
    let q = tags::ruby_number_end(s, p);
    assert(seq.subrange(p - i + 2, q - i) =~= s.subrange(p + 2, q));
    if s.subrange(p + 2, q).len() > 0 {
        lemma_numeral_is_literal(s.subrange(p + 2, q));
    }
}

/// Every recognised control sequence can be read, but for the ones that
/// [`sequence_unreadable`] names.
pub proof fn lemma_recognised_readable(s: Seq<char>, i: int)
    requires
        tags::tag_len(s, i) > 0,
    ensures
        element::control_element_defined(s[i + 1], s.subrange(i, i + tags::tag_len(s, i)))
            <==> !sequence_unreadable(s[i + 1], s.subrange(i, i + tags::tag_len(s, i))),
{
    lemma_recognised_shape(s, i);
    tags::lemma_tag_len_bounds(s, i);
    let n = tags::tag_len(s, i);
    let seq = s.subrange(i, i + n);
    let next = s[i + 1];
    let body = seq.subrange(2, n - 1);
    assert(seq[0] == s[i] && seq[1] == next && seq[n - 1] == s[i + n - 1]);
    if next == 's' {
        lemma_size_readable(s, i);
    } else if next == '?' {
        tags::lemma_find_two(s, i + 2, '?', '>');
    } else if next == 'r' {
        lemma_run_body(s, i, i + 2, CharClass::Numeral);
        if body.len() > 0 {
            lemma_numeral_is_literal(body);
        }
    } else if next == 'w' {
        lemma_run_body(s, i, i + 2, CharClass::Time);
        if body.len() > 0 {
            if decimal::is_numeral(body) {
                lemma_numeral_is_literal(body);
            } else {
                lemma_numeral_is_literal(body.skip(1));
            }
        }
    } else if next == 'g' || next == 't' {
        assert(seq[2] == s[i + 2]);
        let tail = seq.subrange(3, n - 1);
        if next == 't' && s[i + 2] == 'r' {
            lemma_run_body(s, i, i + 3, CharClass::Signed);
            if tail.len() > 0 {
                lemma_signed_numeral_is_literal(tail);
            }
        } else {
            lemma_run_body(s, i, i + 3, CharClass::Numeral);
            if tail.len() > 0 {
                lemma_numeral_is_literal(tail);
            }
        }
    } else if next == '/' {
        if tags::comment_len(s, i) > 0 {
            tags::lemma_find_three(s, i + 3, '/', '/', '>');
            let j = tags::find_three(s, i + 3, '/', '/', '>');
            assert(seq[0] == s[i] && seq[1] == s[i + 1] && seq[2] == s[i + 2]);
            assert(seq[n - 3] == s[j] && seq[n - 2] == s[j + 1] && seq[n - 1] == s[j + 2]);
            assert(element::is_comment_sequence(seq));
        } else if tags::ruby_len(s, i) > 0 {
            lemma_ruby_readable(s, i);
        } else {
            assert(n == 3);
            assert(seq =~= seq!['<', '/', '>']);
        }
    }
}

} // verus!
