//! Fixed facts of the format, stated over all inputs: which digit names which decoration,
//! which characters a text object does not count, how the font of a size sequence is
//! cut out, and what a clear sequence does to a newline after it.
use vstd::prelude::*;

use crate::control::{self, Piece};
use crate::display;
use crate::element::{self, Element, FontDecoration, FontDecorationKind};
use crate::scan::{self, CharClass};
use crate::tags;
use crate::text;

verus! {

// ---- decoration digits ----

/// The digit at the start of a font decoration names its kind: `0` standard, `1` shadow,
/// `2` light shadow, `3` outline, `4` thin outline, `5` bold outline, `6` square outline;
/// a decoration that starts with anything else has no kind.
pub proof fn lemma_decoration_digit_read(t: Seq<char>)
    ensures
        (element::font_decoration_of(t).kind == Some(FontDecorationKind::Standard)) <==> (t.len()
            > 0 && t[0] == '0'),
        (element::font_decoration_of(t).kind == Some(FontDecorationKind::Shadow)) <==> (t.len()
            > 0 && t[0] == '1'),
        (element::font_decoration_of(t).kind == Some(FontDecorationKind::ShadowLight)) <==> (
        t.len() > 0 && t[0] == '2'),
        (element::font_decoration_of(t).kind == Some(FontDecorationKind::Outline)) <==> (t.len()
            > 0 && t[0] == '3'),
        (element::font_decoration_of(t).kind == Some(FontDecorationKind::OutlineThin)) <==> (
        t.len() > 0 && t[0] == '4'),
        (element::font_decoration_of(t).kind == Some(FontDecorationKind::OutlineBold)) <==> (
        t.len() > 0 && t[0] == '5'),
        (element::font_decoration_of(t).kind == Some(FontDecorationKind::OutlineSquare)) <==> (
        t.len() > 0 && t[0] == '6'),
        element::font_decoration_of(t).kind is None <==> !(t.len() > 0 && '0' <= t[0] && t[0]
            <= '6'),
{
}

/// A font decoration is written with the digit of its kind first (`0` standard, `1`
/// shadow, `2` light shadow, `3` outline, `4` thin outline, `5` bold outline, `6` square
/// outline), and with no digit when it has no kind.
pub proof fn lemma_decoration_digit_written(d: FontDecoration)
    ensures
        d.kind == Some(FontDecorationKind::Standard) ==> display::font_decoration_text(d)[0]
            == '0',
        d.kind == Some(FontDecorationKind::Shadow) ==> display::font_decoration_text(d)[0]
            == '1',
        d.kind == Some(FontDecorationKind::ShadowLight) ==> display::font_decoration_text(d)[0]
            == '2',
        d.kind == Some(FontDecorationKind::Outline) ==> display::font_decoration_text(d)[0]
            == '3',
        d.kind == Some(FontDecorationKind::OutlineThin) ==> display::font_decoration_text(d)[0]
            == '4',
        d.kind == Some(FontDecorationKind::OutlineBold) ==> display::font_decoration_text(d)[0]
            == '5',
        d.kind == Some(FontDecorationKind::OutlineSquare) ==> display::font_decoration_text(
            d,
        )[0] == '6',
        d.kind is None ==> display::font_decoration_text(d) == display::text_decoration_text(
            d.style,
        ),
{
    assert(d.kind is None ==> display::font_decoration_text(d) =~= display::text_decoration_text(
        d.style,
    ));
}

// ---- positions of a text object ----

/// Every character counts as a position of a text object but newline and tab: adding a
/// character adds one position unless it is a newline or a tab, and the empty text has
/// none.
pub proof fn lemma_positions_counted(s: Seq<char>, c: char)
    ensures
        text::visible_count(Seq::<char>::empty()) == 0,
        text::visible_count(s.push(c)) == text::visible_count(s) + if c == '\n' || c == '\t' {
            0int
        } else {
            1int
        },
{
    assert(s.push(c).drop_last() =~= s);
}

// ---- trimming ----

/// Trimming the start drops white space only, and leaves no white space at the start.
proof fn lemma_trim_start(t: Seq<char>)
    ensures
        ({
            let r = element::trim_start(t);
            &&& r.len() <= t.len()
            &&& r == t.skip(t.len() - r.len())
            &&& forall|j: int| 0 <= j < t.len() - r.len() ==> scan::is_whitespace(#[trigger] t[j])
            &&& r.len() > 0 ==> !scan::is_whitespace(r[0])
        }),
    decreases t.len(),
{
    if t.len() > 0 && scan::is_whitespace(t[0]) {
        lemma_trim_start(t.skip(1));
        let r = element::trim_start(t);
        assert(t.skip(1).skip(t.skip(1).len() - r.len()) =~= t.skip(t.len() - r.len()));
        assert forall|j: int| 0 <= j < t.len() - r.len() implies scan::is_whitespace(#[trigger] t[j]) by {
            if j > 0 {
                assert(t[j] == t.skip(1)[j - 1]);
            }
        }
    } else {
        assert(t.skip(0) =~= t);
    }
}

/// Trimming the end drops white space only, and leaves no white space at the end.
proof fn lemma_trim_end(t: Seq<char>)
    ensures
        ({
            let r = element::trim_end(t);
            &&& r.len() <= t.len()
            &&& r == t.take(r.len() as int)
            &&& forall|j: int| r.len() <= j < t.len() ==> scan::is_whitespace(#[trigger] t[j])
            &&& r.len() > 0 ==> !scan::is_whitespace(r.last())
        }),
    decreases t.len(),
{
    if t.len() > 0 && scan::is_whitespace(t.last()) {
        lemma_trim_end(t.drop_last());
        let r = element::trim_end(t);
        assert(t.drop_last().take(r.len() as int) =~= t.take(r.len() as int));
        assert forall|j: int| r.len() <= j < t.len() implies scan::is_whitespace(#[trigger] t[j]) by {
            if j < t.len() - 1 {
                assert(t[j] == t.drop_last()[j]);
            }
        }
    } else {
        assert(t.take(t.len() as int) =~= t);
    }
}

/// Trimming keeps the middle of a text between white space at both ends, and what it keeps
/// neither starts nor ends with white space.
pub proof fn lemma_trim(t: Seq<char>)
    ensures
        exists|a: int, b: int|
            0 <= a <= b <= t.len() && element::trim(t) == t.subrange(a, b) && (forall|j: int|
                0 <= j < a ==> scan::is_whitespace(#[trigger] t[j])) && (forall|j: int|
                b <= j < t.len() ==> scan::is_whitespace(#[trigger] t[j])),
        element::trim(t).len() > 0 ==> !scan::is_whitespace(element::trim(t)[0])
            && !scan::is_whitespace(element::trim(t).last()),
{
    let s1 = element::trim_start(t);
    lemma_trim_start(t);
    lemma_trim_end(s1);
    let r = element::trim(t);
    let a = t.len() - s1.len();
    let b = a + r.len();
    assert(r =~= t.subrange(a, b));
    assert forall|j: int| b <= j < t.len() implies scan::is_whitespace(#[trigger] t[j]) by {
        assert(t[j] == s1[j - a]);
    }
    if r.len() > 0 {
        assert(r[0] == s1[0]);
    }
}

// ---- the font of a size sequence ----

/// Whether every character of `t` is white space.
pub open spec fn all_whitespace(t: Seq<char>) -> bool {
    forall|j: int| 0 <= j < t.len() ==> scan::is_whitespace(#[trigger] t[j])
}

/// The font of a size sequence is its second comma-separated part with the white space
/// around it removed: a font that is read neither starts nor ends with white space, and
/// the part is that font with only white space before and after it; when the part is
/// white space only (or there is none), no font is read.
pub proof fn lemma_size_font_trimmed(body: Seq<char>, e: Element)
    requires
        element::size_element_is(body, e),
    ensures
        e matches Element::Size { font: Some(n), .. } ==> ({
            let parts = tags::split_on(body, ',');
            &&& parts.len() > 1
            &&& n@.len() > 0
            &&& !scan::is_whitespace(n@[0]) && !scan::is_whitespace(n@.last())
            &&& exists|a: Seq<char>, b: Seq<char>|
                all_whitespace(a) && all_whitespace(b) && parts[1] == a + n@ + b
        }),
        e matches Element::Size { font: None, .. } ==> ({
            let parts = tags::split_on(body, ',');
            parts.len() <= 1 || all_whitespace(parts[1])
        }),
{
    let k1 = scan::find_char(body, 0, ',');
    scan::lemma_run_end(body, 0, CharClass::Other(','));
    let parts = tags::split_on(body, ',');
    if k1 < body.len() {
        let r1 = body.skip(k1 + 1);
        let k2 = scan::find_char(r1, 0, ',');
        scan::lemma_run_end(r1, 0, CharClass::Other(','));
        let part = r1.take(k2);
        assert(parts[1] == part) by {
            reveal_with_fuel(tags::split_on, 2);
        }
        lemma_trim(part);
        let f = element::trim(part);
        let (a, b) = choose|a: int, b: int|
            0 <= a <= b <= part.len() && f == part.subrange(a, b) && (forall|j: int|
                0 <= j < a ==> scan::is_whitespace(#[trigger] part[j])) && (forall|j: int|
                b <= j < part.len() ==> scan::is_whitespace(#[trigger] part[j]));
        let pa = part.take(a);
        let pb = part.skip(b);
        assert(part =~= pa + f + pb);
        assert(all_whitespace(pa)) by {
            assert forall|j: int| 0 <= j < pa.len() implies scan::is_whitespace(#[trigger] pa[j]) by {
                assert(pa[j] == part[j]);
            }
        }
        assert(all_whitespace(pb)) by {
            assert forall|j: int| 0 <= j < pb.len() implies scan::is_whitespace(#[trigger] pb[j]) by {
                assert(pb[j] == part[b + j]);
            }
        }
        if let Element::Size { font: Some(n), .. } = e {
            assert(n@ == f);
            assert(parts.len() > 1) by {
                reveal_with_fuel(tags::split_on, 2);
            }
            assert(n@.len() > 0);
            assert(all_whitespace(pa) && all_whitespace(pb) && parts[1] == pa + n@ + pb);
            assert(exists|x: Seq<char>, y: Seq<char>|
                all_whitespace(x) && all_whitespace(y) && parts[1] == x + n@ + y);
        } else {
            if f.len() == 0 {
                assert forall|j: int| 0 <= j < part.len() implies scan::is_whitespace(#[trigger] part[j]) by {
                    if j >= a {
                        assert(j >= b);
                    }
                }
            }
        }
    } else {
        assert(parts.len() == 1) by {
            reveal_with_fuel(tags::split_on, 1);
        }
    }
}

// ---- a newline after a clear sequence ----

/// A newline right after a clear sequence is dropped, whatever the sequence's time: a
/// text that starts with a clear sequence `c` and a newline reads as that sequence, and
/// then reading goes on at the character after the newline.
pub proof fn lemma_newline_after_clear_dropped(c: Seq<char>, rest: Seq<char>)
    requires
        tags::tag_len(c, 0) == c.len() > 0,
        c[1] == 'c',
    ensures
        ({
            let s = c + seq!['\n'] + rest;
            control::pieces(s) == seq![Piece::Control('c', c)] + control::scan_pieces(
                s,
                c.len() + 1int,
                seq![],
            )
        }),
{
    let s = c + seq!['\n'] + rest;
    let n = c.len() as int;
    tags::lemma_tag_len_bounds(c, 0);
    let e = scan::run_end(c, 2, CharClass::Time);
    scan::lemma_run_end(c, 2, CharClass::Time);
    assert(e == n - 1);
    assert forall|m: int| 2 <= m < e implies scan::in_class(CharClass::Time, #[trigger] s[m]) by {
        assert(s[m] == c[m]);
        assert(scan::in_class(CharClass::Time, c[m]));
    }
    assert(s[e] == c[e]);
    scan::lemma_run_end_at(s, 2, e, CharClass::Time);
    assert(s.subrange(2, e) =~= c.subrange(2, e));
    assert(tags::tag_len(s, 0) == n);
    assert(s.subrange(0, n) =~= c);
    assert(s[0] == '<' && s[1] == 'c' && s[n] == '\n');
    assert(control::flush(Seq::<char>::empty()) =~= Seq::<Piece>::empty());
}


// ---- reading does not look back ----

/// A run over a text after a prefix ends where it ends in the text alone, shifted.
proof fn lemma_shift_run_end(x: Seq<char>, y: Seq<char>, j: int, cls: CharClass)
    requires
        0 <= j,
    ensures
        scan::run_end(x + y, x.len() + j, cls) == x.len() + scan::run_end(y, j, cls),
    decreases y.len() - j,
{
    let s = x + y;
    if j < y.len() {
        assert(s[x.len() + j] == y[j]);
        if scan::in_class(cls, y[j]) {
            lemma_shift_run_end(x, y, j + 1, cls);
        }
    }
}

/// `find_three` after a prefix finds the same place, shifted.
proof fn lemma_shift_find_three(x: Seq<char>, y: Seq<char>, j: int, a: char, b: char, c: char)
    requires
        0 <= j,
    ensures
        tags::find_three(x + y, x.len() + j, a, b, c) == x.len() + tags::find_three(y, j, a, b, c),
    decreases y.len() - j,
{
    let s = x + y;
    if j + 3 <= y.len() {
        assert(s[x.len() + j] == y[j] && s[x.len() + j + 1] == y[j + 1] && s[x.len() + j + 2]
            == y[j + 2]);
        if !tags::three_at(y, j, a, b, c) {
            lemma_shift_find_three(x, y, j + 1, a, b, c);
        }
    }
}

/// `find_two` after a prefix finds the same place, shifted.
proof fn lemma_shift_find_two(x: Seq<char>, y: Seq<char>, j: int, a: char, b: char)
    requires
        0 <= j,
    ensures
        tags::find_two(x + y, x.len() + j, a, b) == x.len() + tags::find_two(y, j, a, b),
    decreases y.len() - j,
{
    let s = x + y;
    if j + 2 <= y.len() {
        assert(s[x.len() + j] == y[j] && s[x.len() + j + 1] == y[j + 1]);
        if !tags::two_at(y, j, a, b) {
            lemma_shift_find_two(x, y, j + 1, a, b);
        }
    }
}

/// A ruby separator stands after a prefix where it stands in the text alone.
proof fn lemma_shift_ruby_mark(x: Seq<char>, y: Seq<char>, p: int)
    requires
        0 <= p,
    ensures
        tags::ruby_number_end(x + y, x.len() + p) == x.len() + tags::ruby_number_end(y, p),
        tags::ruby_mark_at(x + y, x.len() + p) == tags::ruby_mark_at(y, p),
        tags::ruby_mark_at(y, p) ==> tags::ruby_mark_end(x + y, x.len() + p) == x.len()
            + tags::ruby_mark_end(y, p),
{
    let s = x + y;
    let o = x.len() as int;
    lemma_shift_run_end(x, y, p + 2, CharClass::Numeral);
    let q = tags::ruby_number_end(y, p);
    if p + 1 < y.len() {
        scan::lemma_run_end(y, p + 2, CharClass::Numeral);
        assert(s[o + p] == y[p] && s[o + p + 1] == y[p + 1]);
        if q <= y.len() && p + 2 <= q {
            assert(s.subrange(o + p + 2, o + q) =~= y.subrange(p + 2, q));
        }
        if q < y.len() {
            assert(s[o + q] == y[q]);
            if q + 1 < y.len() {
                assert(s[o + q + 1] == y[q + 1]);
            }
        }
    }
}

/// `find_ruby_mark` after a prefix finds the same place, shifted.
proof fn lemma_shift_find_ruby_mark(x: Seq<char>, y: Seq<char>, j: int)
    requires
        0 <= j,
    ensures
        tags::find_ruby_mark(x + y, x.len() + j) == x.len() + tags::find_ruby_mark(y, j),
    decreases y.len() - j,
{
    if j < y.len() {
        lemma_shift_ruby_mark(x, y, j);
        if !tags::ruby_mark_at(y, j) {
            lemma_shift_find_ruby_mark(x, y, j + 1);
        }
    }
}

/// `last_gt_end` after a prefix finds the same `>`, shifted, or none.
proof fn lemma_shift_last_gt_end(x: Seq<char>, y: Seq<char>, lo: int, hi: int)
    requires
        0 <= lo,
        hi <= y.len(),
    ensures
        tags::last_gt_end(x + y, x.len() + lo, x.len() + hi) == if tags::last_gt_end(y, lo, hi)
            == 0 {
            0
        } else {
            x.len() + tags::last_gt_end(y, lo, hi)
        },
    decreases hi - lo,
{
    if hi > lo {
        assert((x + y)[x.len() + hi - 1] == y[hi - 1]);
        if y[hi - 1] != '>' {
            lemma_shift_last_gt_end(x, y, lo, hi - 1);
        }
    }
}

/// `numeral_then_gt` after a prefix ends at the same place, shifted, or fails.
proof fn lemma_shift_numeral_then_gt(x: Seq<char>, y: Seq<char>, a: int)
    requires
        0 <= a,
    ensures
        tags::numeral_then_gt(x + y, x.len() + a) == if tags::numeral_then_gt(y, a) == 0 {
            0
        } else {
            x.len() + tags::numeral_then_gt(y, a)
        },
        tags::numeral_then_gt(y, a) >= 0,
{
    let s = x + y;
    let o = x.len() as int;
    lemma_shift_run_end(x, y, a, CharClass::Numeral);
    let q = scan::run_end(y, a, CharClass::Numeral);
    if a <= y.len() {
        scan::lemma_run_end(y, a, CharClass::Numeral);
        if q < y.len() {
            assert(s[o + q] == y[q]);
        }
        assert(s.subrange(o + a, o + q) =~= y.subrange(a, q));
    }
}

/// The end of the decoration and outline parts of a size sequence after a prefix, shifted.
proof fn lemma_shift_size_style_end(x: Seq<char>, y: Seq<char>, m: int)
    requires
        0 <= m < y.len(),
    ensures
        tags::size_style_end(x + y, x.len() + m) == if tags::size_style_end(y, m) == 0 {
            0
        } else {
            x.len() + tags::size_style_end(y, m)
        },
        tags::size_style_end(y, m) >= 0,
{
    let s = x + y;
    let o = x.len() as int;
    lemma_shift_run_end(x, y, m + 1, CharClass::Style);
    scan::lemma_run_end(y, m + 1, CharClass::Style);
    let d = scan::run_end(y, m + 1, CharClass::Style);
    assert(scan::run_end(s, o + m + 1, CharClass::Style) == o + d);
    let styled_y = if d < y.len() && y[d] == '>' {
        d + 1
    } else if d < y.len() && y[d] == ',' {
        tags::numeral_then_gt(y, d + 1)
    } else {
        0
    };
    let styled_s = if o + d < s.len() && s[o + d] == '>' {
        o + d + 1
    } else if o + d < s.len() && s[o + d] == ',' {
        tags::numeral_then_gt(s, o + d + 1)
    } else {
        0
    };
    if d < y.len() {
        assert(s[o + d] == y[d]);
        lemma_shift_numeral_then_gt(x, y, d + 1);
    }
    assert(styled_s == if styled_y == 0 { 0 } else { o + styled_y });
    lemma_shift_numeral_then_gt(x, y, m + 1);
    assert(tags::size_style_end(y, m) == if styled_y > 0 { styled_y } else { tags::numeral_then_gt(y, m + 1) });
    assert(tags::size_style_end(s, o + m) == if styled_s > 0 { styled_s } else { tags::numeral_then_gt(s, o + m + 1) });
}

/// The end of a size sequence after its size, after a prefix, shifted.
proof fn lemma_shift_size_font_end(x: Seq<char>, y: Seq<char>, k: int)
    requires
        0 <= k < y.len(),
    ensures
        tags::size_font_end(x + y, x.len() + k) == if tags::size_font_end(y, k) == 0 {
            0
        } else {
            x.len() + tags::size_font_end(y, k)
        },
        tags::size_font_end(y, k) >= 0,
{
    let s = x + y;
    let o = x.len() as int;
    lemma_shift_run_end(x, y, k + 1, CharClass::Other(','));
    scan::lemma_run_end(y, k + 1, CharClass::Other(','));
    let m = scan::find_char(y, k + 1, ',');
    assert(scan::find_char(s, o + k + 1, ',') == o + m);
    let at_y = if m < y.len() { tags::size_style_end(y, m) } else { 0 };
    let at_s = if o + m < s.len() { tags::size_style_end(s, o + m) } else { 0 };
    if m < y.len() {
        lemma_shift_size_style_end(x, y, m);
    }
    assert(at_s == if at_y == 0 { 0 } else { o + at_y });
    lemma_shift_last_gt_end(x, y, k + 1, m);
    tags::lemma_last_gt_end(y, k + 1, m);
    assert(tags::size_font_end(y, k) == if at_y > 0 { at_y } else { tags::last_gt_end(y, k + 1, m) });
    assert(tags::size_font_end(s, o + k) == if at_s > 0 { at_s } else { tags::last_gt_end(s, o + k + 1, o + m) });
}

/// A run-shaped tag after a prefix: the run ends at the same place, shifted, and its body
/// is the same.
proof fn lemma_shift_run(x: Seq<char>, y: Seq<char>, from: int, cls: CharClass)
    requires
        0 <= from <= y.len(),
    ensures
        scan::run_end(x + y, x.len() + from, cls) == x.len() + scan::run_end(y, from, cls),
        tags::run_body(x + y, x.len() + from, cls) == tags::run_body(y, from, cls),
        scan::run_end(y, from, cls) < y.len() ==> (x + y)[x.len() + scan::run_end(y, from, cls)]
            == y[scan::run_end(y, from, cls)],
{
    let s = x + y;
    let o = x.len() as int;
    lemma_shift_run_end(x, y, from, cls);
    let e = scan::run_end(y, from, cls);
    scan::lemma_run_end(y, from, cls);
    assert(s.subrange(o + from, o + e) =~= y.subrange(from, e));
}

/// The tags closed by the first `>` after a prefix.
proof fn lemma_shift_closed(x: Seq<char>, y: Seq<char>, j: int)
    requires
        0 <= j,
    ensures
        tags::gt_closed_len(x + y, x.len() + j, x.len() + j + 2) == tags::gt_closed_len(y, j, j + 2),
        tags::script_len(x + y, x.len() + j) == tags::script_len(y, j),
{
    lemma_shift_run_end(x, y, j + 2, CharClass::Other('>'));
    lemma_shift_find_two(x, y, j + 2, '?', '>');
}

/// The size tag after a prefix.
proof fn lemma_shift_size(x: Seq<char>, y: Seq<char>, j: int)
    requires
        0 <= j,
        j + 2 <= y.len(),
    ensures
        tags::size_len(x + y, x.len() + j) == tags::size_len(y, j),
{
    let s = x + y;
    let o = x.len() as int;
    lemma_shift_run(x, y, j + 2, CharClass::Scalar);
    scan::lemma_run_end(y, j + 2, CharClass::Scalar);
    let k = scan::run_end(y, j + 2, CharClass::Scalar);
    assert(s.subrange(o + j + 2, o + k) =~= y.subrange(j + 2, k));
    if k < y.len() {
        lemma_shift_size_font_end(x, y, k);
    }
}

/// The run-shaped tags after a prefix.
proof fn lemma_shift_runs(x: Seq<char>, y: Seq<char>, j: int)
    requires
        0 <= j,
        j + 2 <= y.len(),
    ensures
        tags::speed_len(x + y, x.len() + j) == tags::speed_len(y, j),
        tags::wait_len(x + y, x.len() + j) == tags::wait_len(y, j),
        tags::clear_len(x + y, x.len() + j) == tags::clear_len(y, j),
        tags::position_len(x + y, x.len() + j) == tags::position_len(y, j),
        tags::spacing_len(x + y, x.len() + j) == tags::spacing_len(y, j),
        tags::transform_len(x + y, x.len() + j) == tags::transform_len(y, j),
{
    let s = x + y;
    let o = x.len() as int;
    lemma_shift_run(x, y, j + 2, CharClass::Numeral);
    lemma_shift_run(x, y, j + 2, CharClass::Time);
    lemma_shift_run(x, y, j + 2, CharClass::Position);
    if j + 3 <= y.len() {
        lemma_shift_run(x, y, j + 3, CharClass::Numeral);
        lemma_shift_run(x, y, j + 3, CharClass::Signed);
    }
    if j + 2 < y.len() {
        assert(s[o + j + 2] == y[j + 2]);
    }
}

/// The slash tags after a prefix.
proof fn lemma_shift_slash(x: Seq<char>, y: Seq<char>, j: int)
    requires
        0 <= j,
    ensures
        tags::slash_len(x + y, x.len() + j) == tags::slash_len(y, j),
{
    let s = x + y;
    let o = x.len() as int;
    if j + 3 <= y.len() {
        assert(s[o + j] == y[j] && s[o + j + 1] == y[j + 1] && s[o + j + 2] == y[j + 2]);
    }
    assert(tags::three_at(s, o + j, '<', '/', '/') == tags::three_at(y, j, '<', '/', '/'));
    assert(tags::three_at(s, o + j, '<', '/', '>') == tags::three_at(y, j, '<', '/', '>'));
    lemma_shift_find_three(x, y, j + 3, '/', '/', '>');
    assert(tags::comment_len(s, o + j) == tags::comment_len(y, j));
    lemma_shift_find_ruby_mark(x, y, j + 3);
    let p = tags::find_ruby_mark(y, j + 3);
    if p < y.len() && tags::three_at(y, j, '<', '/', '>') {
        tags::lemma_find_ruby_mark(y, j + 3);
        lemma_shift_ruby_mark(x, y, p);
        lemma_shift_find_three(x, y, tags::ruby_mark_end(y, p), '<', '/', '>');
    }
    assert(tags::ruby_len(s, o + j) == tags::ruby_len(y, j));
}

/// Which control sequence starts at a place does not depend on what comes before it.
pub proof fn lemma_shift_tag_len(x: Seq<char>, y: Seq<char>, j: int)
    requires
        0 <= j,
    ensures
        tags::tag_len(x + y, x.len() + j) == tags::tag_len(y, j),
{
    let s = x + y;
    let o = x.len() as int;
    let i = o + j;
    if j + 1 < y.len() {
        assert(s[i] == y[j] && s[i + 1] == y[j + 1]);
        lemma_shift_closed(x, y, j);
        lemma_shift_size(x, y, j);
        lemma_shift_runs(x, y, j);
        lemma_shift_slash(x, y, j);
    }
}

/// Reading a text after a prefix, from a place in the text, gives what reading the text
/// alone gives from there.
pub proof fn lemma_shift_scan(x: Seq<char>, y: Seq<char>, j: int, buf: Seq<char>)
    requires
        0 <= j,
    ensures
        control::scan_pieces(x + y, x.len() + j, buf) == control::scan_pieces(y, j, buf),
    decreases y.len() - j,
{
    let s = x + y;
    let o = x.len() as int;
    if j < y.len() {
        assert(s[o + j] == y[j]);
        lemma_shift_tag_len(x, y, j);
        if y[j] != '<' || tags::tag_len(y, j) == 0 {
            lemma_shift_scan(x, y, j + 1, buf.push(y[j]));
        } else {
            let n = tags::tag_len(y, j);
            tags::lemma_tag_len_bounds(y, j);
            assert(s[o + j + 1] == y[j + 1]);
            assert(s.subrange(o + j, o + j + n) =~= y.subrange(j, j + n));
            if j + n < y.len() {
                assert(s[o + j + n] == y[j + n]);
            }
            lemma_shift_scan(x, y, j + n, seq![]);
            if j + n < y.len() {
                lemma_shift_scan(x, y, j + n + 1, seq![]);
            }
        }
    }
}

/// A newline right after a clear sequence is dropped, whatever the sequence's time: a
/// text that starts with a clear sequence `c` and a newline reads as that sequence
/// followed by what the text after the newline reads as on its own.
pub proof fn lemma_clear_then_newline(c: Seq<char>, rest: Seq<char>)
    requires
        tags::tag_len(c, 0) == c.len() > 0,
        c[1] == 'c',
    ensures
        control::pieces(c + seq!['\n'] + rest) == seq![Piece::Control('c', c)] + control::pieces(
            rest,
        ),
{
    lemma_newline_after_clear_dropped(c, rest);
    lemma_shift_scan(c + seq!['\n'], rest, 0, seq![]);
    assert(c + seq!['\n'] + rest == (c + seq!['\n']) + rest);
}

} // verus!
