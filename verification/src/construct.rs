//! Building the element that a control sequence stands for.
use vstd::prelude::*;

use crate::decimal::{self, Decimal};
use crate::element::{
    self, AxisValue, Code, CodeType, ColorType, ColorValue, Element, FontCommand, FontDecoration,
    FontDecorationKind, ScalarValue, TextDecoration, TimeValue,
};
use crate::scan::{self, CharClass, scan_run};
use crate::tags;
use crate::text::{chars_of_range, string_of_range};

verus! {

/// The part of `t` that trimming keeps, as an index range.
pub(crate) fn trim_bounds(t: &Vec<char>) -> (r: (usize, usize))
    ensures
        r.0 <= r.1 <= t.len(),
        t@.subrange(r.0 as int, r.1 as int) == element::trim(t@),
{
    let len = t.len();
    let mut a: usize = 0;
    assert(t@.subrange(0, len as int) =~= t@);
    while a < len && scan::char_is_whitespace(t[a])
        invariant
            a <= len == t.len(),
            element::trim_start(t@.subrange(a as int, len as int)) == element::trim_start(t@),
        decreases len - a,
    {
        assert(t@.subrange(a as int, len as int).skip(1) =~= t@.subrange(a + 1, len as int));
        a = a + 1;
    }
    assert(element::trim_start(t@.subrange(a as int, len as int)) == t@.subrange(a as int, len as int)) by {
        if a == len {
            assert(t@.subrange(a as int, len as int) =~= Seq::<char>::empty());
        }
    }
    let mut b: usize = len;
    while b > a && scan::char_is_whitespace(t[b - 1])
        invariant
            a <= b <= len == t.len(),
            element::trim_end(t@.subrange(a as int, b as int)) == element::trim(t@),
        decreases b,
    {
        assert(t@.subrange(a as int, b as int).drop_last() =~= t@.subrange(a as int, b - 1));
        b = b - 1;
    }
    assert(element::trim_end(t@.subrange(a as int, b as int)) == t@.subrange(a as int, b as int)) by {
        if a == b {
            assert(t@.subrange(a as int, b as int) =~= Seq::<char>::empty());
        }
    }
    (a, b)
}

/// `t` trimmed, as a new vector.
fn trimmed(t: &Vec<char>) -> (r: Vec<char>)
    ensures
        r@ == element::trim(t@),
{
    let (a, b) = trim_bounds(t);
    chars_of_range(t, a, b)
}

/// The flags that the letters of `t` set.
pub(crate) fn text_decoration_from(t: &Vec<char>) -> (d: TextDecoration)
    ensures
        d == element::text_decoration_of(t@),
{
    let mut d = TextDecoration { bold: false, italic: false, strikethrough: false };
    let mut j: usize = 0;
    while j < t.len()
        invariant
            j <= t.len(),
            d == element::text_decoration_of(t@.take(j as int)),
        decreases t.len() - j,
    {
        let c = t[j];
        proof {
            assert(t@.take(j + 1) =~= t@.take(j as int).push(c));
            assert forall|x: char| #[trigger] t@.take(j + 1).contains(x) <==> (t@.take(j as int).contains(x) || x == c) by {
                if t@.take(j + 1).contains(x) {
                    let m = choose|m: int| 0 <= m < j + 1 && #[trigger] t@.take(j + 1)[m] == x;
                    if m < j {
                        assert(t@.take(j as int)[m] == x);
                    }
                }
                if t@.take(j as int).contains(x) {
                    let m = choose|m: int| 0 <= m < j && #[trigger] t@.take(j as int)[m] == x;
                    assert(t@.take(j + 1)[m] == x);
                }
                if x == c {
                    assert(t@.take(j + 1)[j as int] == x);
                }
            }
        }
        if c == 'B' {
            d.bold = true;
        } else if c == 'I' {
            d.italic = true;
        } else if c == 'S' {
            d.strikethrough = true;
        }
        j = j + 1;
    }
    assert(t@.take(t.len() as int) =~= t@);
    d
}

/// The decoration kind that a digit names.
fn decoration_kind_from(c: char) -> (k: Option<FontDecorationKind>)
    ensures
        k == element::decoration_kind_of(c),
{
    if c == '0' {
        Some(FontDecorationKind::Standard)
    } else if c == '1' {
        Some(FontDecorationKind::Shadow)
    } else if c == '2' {
        Some(FontDecorationKind::ShadowLight)
    } else if c == '3' {
        Some(FontDecorationKind::Outline)
    } else if c == '4' {
        Some(FontDecorationKind::OutlineThin)
    } else if c == '5' {
        Some(FontDecorationKind::OutlineBold)
    } else if c == '6' {
        Some(FontDecorationKind::OutlineSquare)
    } else {
        None
    }
}

/// The font decoration that `t` writes.
pub(crate) fn font_decoration_from(t: &Vec<char>) -> (d: FontDecoration)
    ensures
        d == element::font_decoration_of(t@),
{
    if t.len() > 0 {
        let kind = decoration_kind_from(t[0]);
        if kind.is_some() {
            let rest = chars_of_range(t, 1, t.len());
            assert(rest@ =~= t@.skip(1));
            return FontDecoration { kind, style: text_decoration_from(&rest) };
        }
    }
    FontDecoration { kind: None, style: text_decoration_from(t) }
}

/// The value of a hexadecimal digit.
fn hex_digit_value(c: char) -> (v: u8)
    requires
        scan::is_hex_digit(c),
    ensures
        v == element::hex_value(c),
        v < 16,
{
    if '0' <= c && c <= '9' {
        (c as u32 - '0' as u32) as u8
    } else if 'a' <= c && c <= 'f' {
        (c as u32 - 'a' as u32 + 10) as u8
    } else {
        (c as u32 - 'A' as u32 + 10) as u8
    }
}

/// Whether `c` is a hexadecimal digit.
fn char_is_hex_digit(c: char) -> (b: bool)
    ensures
        b == scan::is_hex_digit(c),
{
    ('0' <= c && c <= '9') || ('a' <= c && c <= 'f') || ('A' <= c && c <= 'F')
}

/// The colour that `t` writes.
pub(crate) fn color_value_from(t: &Vec<char>) -> (v: ColorValue)
    ensures
        element::color_value_is(t@, v),
{
    if t.len() == 6 {
        let mut j: usize = 0;
        while j < 6
            invariant
                t.len() == 6,
                j <= 6,
                forall|m: int| 0 <= m < j ==> scan::is_hex_digit(#[trigger] t@[m]),
            decreases 6 - j,
        {
            if !char_is_hex_digit(t[j]) {
                assert(!scan::is_hex_digit(t@[j as int]));
                assert(t@.subrange(0, t.len() as int) =~= t@);
                return ColorValue::Preset(string_of_range(t, 0, t.len()));
            }
            j = j + 1;
        }
        let r = hex_digit_value(t[0]) * 16 + hex_digit_value(t[1]);
        let g = hex_digit_value(t[2]) * 16 + hex_digit_value(t[3]);
        let b = hex_digit_value(t[4]) * 16 + hex_digit_value(t[5]);
        return ColorValue::Rgb(r, g, b);
    }
    let name = string_of_range(t, 0, t.len());
    assert(t@.subrange(0, t.len() as int) =~= t@);
    ColorValue::Preset(name)
}


/// The colour that the body of a colour sequence writes.
pub(crate) fn color_type_from(body: &Vec<char>) -> (c: ColorType)
    ensures
        element::color_type_is(body@, c),
{
    if body.len() == 0 {
        return ColorType::Default;
    }
    let k = scan_run(body, 0, CharClass::Other(','));
    if k < body.len() {
        let first = chars_of_range(body, 0, k);
        let second = chars_of_range(body, k + 1, body.len());
        assert(first@ =~= body@.take(k as int));
        assert(second@ =~= body@.skip(k + 1));
        ColorType::Pair(color_value_from(&first), color_value_from(&second))
    } else {
        ColorType::Single(color_value_from(body))
    }
}

/// The number that the literal `t[lo..hi]` writes.
fn decimal_from(t: &Vec<char>, lo: usize, hi: usize) -> (d: Decimal)
    requires
        lo <= hi <= t.len(),
        decimal::is_decimal_literal(t@.subrange(lo as int, hi as int)),
    ensures
        element::decimal_is(t@.subrange(lo as int, hi as int), d),
{
    let part = chars_of_range(t, lo, hi);
    Decimal::from_literal(&part)
}

/// The optional number that `t` writes.
fn opt_decimal_from(t: &Vec<char>) -> (v: Option<Decimal>)
    requires
        element::opt_decimal_is_defined(t@),
    ensures
        element::opt_decimal_is(t@, v),
{
    if t.len() == 0 {
        None
    } else {
        assert(t@.subrange(0, t.len() as int) =~= t@);
        Some(decimal_from(t, 0, t.len()))
    }
}

/// The size that `t` writes.
fn scalar_from(t: &Vec<char>) -> (v: ScalarValue)
    requires
        element::scalar_defined(t@),
    ensures
        element::scalar_is(t@, v),
{
    assert(t@.subrange(0, t.len() as int) =~= t@);
    if t.len() == 0 {
        ScalarValue::Default
    } else if t[0] == '*' {
        assert(t@.subrange(1, t.len() as int) =~= t@.skip(1));
        ScalarValue::RelativeMul(decimal_from(t, 1, t.len()))
    } else if t[0] == '+' || t[0] == '-' {
        ScalarValue::RelativeAdd(decimal_from(t, 0, t.len()))
    } else {
        ScalarValue::Absolute(decimal_from(t, 0, t.len()))
    }
}

/// The number zero.
fn zero() -> (d: Decimal)
    ensures
        d@ == seq!['0'],
{
    let z = vec!['0'];
    proof {
        assert(z@ =~= seq!['0']);
        assert(decimal::is_decimal_literal(z@)) by {
            assert(scan::run_end(z@, 1, CharClass::Digit) == 1);
            assert(scan::run_end(z@, 0, CharClass::Digit) == 1);
        }
        assert(decimal::strip_leading_zeros(z@.take(1)) =~= Seq::<char>::empty()) by {
            assert(z@.take(1).skip(1) =~= Seq::<char>::empty());
            assert(decimal::strip_leading_zeros(Seq::<char>::empty()) =~= Seq::<char>::empty());
        }
        assert(decimal::strip_trailing_zeros(Seq::<char>::empty()) =~= Seq::<char>::empty());
        assert(decimal::decimal_value(z@) =~= seq!['0']);
    }
    Decimal::from_literal(&z)
}

/// The time that `t` writes.
fn time_from(t: &Vec<char>) -> (v: TimeValue)
    requires
        element::time_defined(t@),
    ensures
        element::time_is(t@, v),
{
    assert(t@.subrange(0, t.len() as int) =~= t@);
    if t.len() == 0 {
        TimeValue::Absolute(zero())
    } else if t[0] == '*' {
        assert(t@.subrange(1, t.len() as int) =~= t@.skip(1));
        TimeValue::PerChar(decimal_from(t, 1, t.len()))
    } else {
        TimeValue::Absolute(decimal_from(t, 0, t.len()))
    }
}

/// The coordinate that `t` writes.
fn axis_from(t: &Vec<char>) -> (v: AxisValue)
    requires
        element::axis_defined(t@),
    ensures
        element::axis_is(t@, v),
{
    assert(t@.subrange(0, t.len() as int) =~= t@);
    if t.len() > 0 && (t[0] == '+' || t[0] == '-') {
        AxisValue::Relative(decimal_from(t, 0, t.len()))
    } else {
        AxisValue::Absolute(decimal_from(t, 0, t.len()))
    }
}

/// The optional coordinate that `t` writes.
fn opt_axis_from(t: &Vec<char>) -> (v: Option<AxisValue>)
    requires
        t.len() == 0 || element::axis_defined(t@),
    ensures
        element::opt_axis_is(t@, v),
{
    if t.len() == 0 {
        None
    } else {
        Some(axis_from(t))
    }
}

/// The script code that the body of a script sequence holds.
pub(crate) fn code_from(body: &Vec<char>) -> (c: Code)
    ensures
        element::code_is(body@, c),
{
    if body.len() > 0 && body[0] == '=' {
        assert(body@.subrange(1, body.len() as int) =~= body@.skip(1));
        Code { kind: CodeType::Value, value: string_of_range(body, 1, body.len()) }
    } else {
        assert(body@.subrange(0, body.len() as int) =~= body@);
        Code { kind: CodeType::Full, value: string_of_range(body, 0, body.len()) }
    }
}

/// The command that the body of a font sequence writes.
pub(crate) fn font_command_from(body: &Vec<char>) -> (c: FontCommand)
    ensures
        element::font_command_is(body@, c),
{
    if body.len() > 0 && (body[0] == '+' || body[0] == '-') {
        let rest = chars_of_range(body, 1, body.len());
        assert(rest@ =~= body@.skip(1));
        let style = text_decoration_from(&rest);
        if body[0] == '+' {
            return FontCommand::AddStyle(style);
        } else {
            return FontCommand::RemoveStyle(style);
        }
    }
    let k = scan_run(body, 0, CharClass::Other(','));
    let first = chars_of_range(body, 0, k);
    assert(first@ =~= body@.take(k as int));
    let name_chars = trimmed(&first);
    let name = if name_chars.len() == 0 {
        None
    } else {
        assert(name_chars@.subrange(0, name_chars.len() as int) =~= name_chars@);
        Some(string_of_range(&name_chars, 0, name_chars.len()))
    };
    let decoration = if k < body.len() {
        let second = chars_of_range(body, k + 1, body.len());
        assert(second@ =~= body@.skip(k + 1));
        let deco = trimmed(&second);
        if deco.len() > 0 {
            Some(font_decoration_from(&deco))
        } else {
            None
        }
    } else {
        None
    };
    FontCommand::Select { name, decoration }
}


/// `t[lo..]` as a new vector.
fn suffix(t: &Vec<char>, lo: usize) -> (r: Vec<char>)
    requires
        lo <= t.len(),
    ensures
        r@ == t@.skip(lo as int),
{
    let r = chars_of_range(t, lo, t.len());
    assert(r@ =~= t@.skip(lo as int));
    r
}

/// `t[..hi]` as a new vector.
fn prefix(t: &Vec<char>, hi: usize) -> (r: Vec<char>)
    requires
        hi <= t.len(),
    ensures
        r@ == t@.take(hi as int),
{
    let r = chars_of_range(t, 0, hi);
    assert(r@ =~= t@.take(hi as int));
    r
}

/// A string of all of `t`.
fn string_of(t: &Vec<char>) -> (s: String)
    ensures
        s@ == t@,
{
    let s = string_of_range(t, 0, t.len());
    assert(t@.subrange(0, t.len() as int) =~= t@);
    s
}

/// The element that the body of a size sequence writes.
pub(crate) fn size_element_from(body: &Vec<char>) -> (e: Element)
    requires
        element::size_defined(body@),
    ensures
        element::size_element_is(body@, e),
{
    let k1 = scan_run(body, 0, CharClass::Other(','));
    let size_part = trimmed(&prefix(body, k1));
    let size = scalar_from(&size_part);
    if k1 >= body.len() {
        return Element::Size { size, font: None, decoration: None, outline_size: None };
    }
    let r1 = suffix(body, k1 + 1);
    let k2 = scan_run(&r1, 0, CharClass::Other(','));
    let font_part = trimmed(&prefix(&r1, k2));
    let font = if font_part.len() == 0 {
        None
    } else {
        Some(string_of(&font_part))
    };
    if k2 >= r1.len() {
        return Element::Size { size, font, decoration: None, outline_size: None };
    }
    let r2 = suffix(&r1, k2 + 1);
    let k3 = scan_run(&r2, 0, CharClass::Other(','));
    let decoration = Some(text_decoration_from(&prefix(&r2, k3)));
    if k3 >= r2.len() {
        return Element::Size { size, font, decoration, outline_size: None };
    }
    let outline_part = trimmed(&suffix(&r2, k3 + 1));
    let outline_size = if decimal::check_decimal_literal(&outline_part) {
        Some(Decimal::from_literal(&outline_part))
    } else {
        None
    };
    Element::Size { size, font, decoration, outline_size }
}

/// The element that the body of a position sequence writes.
pub(crate) fn position_element_from(body: &Vec<char>) -> (e: Element)
    requires
        element::position_defined(body@),
    ensures
        element::position_element_is(body@, e),
{
    if body.len() == 0 {
        return Element::PositionReset;
    }
    let parts = tags::split_ranges(body, ',');
    proof {
        assert(parts.len() >= 1) by {
            reveal_with_fuel(tags::split_on, 1);
        }
    }
    let (a0, b0) = parts[0];
    let x = opt_axis_from(&trimmed(&chars_of_range(body, a0, b0)));
    let y = if parts.len() > 1 {
        let (a1, b1) = parts[1];
        opt_axis_from(&trimmed(&chars_of_range(body, a1, b1)))
    } else {
        None
    };
    let z = if parts.len() > 2 {
        let (a2, b2) = parts[2];
        Some(axis_from(&trimmed(&chars_of_range(body, a2, b2))))
    } else {
        None
    };
    Element::Position { x, y, z }
}


/// The element that a control sequence starting with `</` writes.
pub(crate) fn slash_element_from(seq: &Vec<char>) -> (e: Element)
    requires
        element::is_comment_sequence(seq@) || seq@ =~= seq!['<', '/', '>'] || element::ruby_defined(seq@),
    ensures
        element::slash_element_is(seq@, e),
{
    let len = seq.len();
    if len >= 6 && tags::three_at_exec(seq, 0, '<', '/', '/') && tags::three_at_exec(seq, len - 3, '/', '/', '>') {
        return Element::Comment { text: string_of_range(seq, 3, len - 3) };
    }
    if len == 3 && seq[0] == '<' && seq[1] == '/' && seq[2] == '>' {
        assert(seq@ =~= seq!['<', '/', '>']);
        return Element::BlockEnd;
    }
    let (p, end) = tags::find_ruby_mark_exec(seq, 3);
    let q = scan_run(seq, p + 2, CharClass::Numeral);
    let scale = opt_decimal_from(&chars_of_range(seq, p + 2, q));
    let expand_line_height = seq[q] == '+';
    let base = string_of_range(seq, 3, p);
    let ruby = string_of_range(seq, end, len - 3);
    Element::Ruby { base, ruby, scale, expand_line_height }
}

/// The element that the control sequence `seq` stands for; `next` is its second
/// character.
pub(crate) fn control_element_from(next: char, seq: &Vec<char>) -> (e: Element)
    requires
        element::control_element_defined(next, seq@),
    ensures
        element::control_element_is(next, seq@, e),
{
    let len = seq.len();
    let body = chars_of_range(seq, 2, len - 1);
    if next == '#' {
        Element::Color { code: color_type_from(&body) }
    } else if next == 's' {
        size_element_from(&body)
    } else if next == '@' {
        Element::Font { command: font_command_from(&body) }
    } else if next == '$' {
        let name = if body.len() == 0 {
            None
        } else {
            Some(string_of(&body))
        };
        Element::Preset { name }
    } else if next == 'r' {
        Element::Speed { speed: opt_decimal_from(&body) }
    } else if next == 'w' {
        Element::Wait { time: time_from(&body) }
    } else if next == 'c' {
        Element::Clear { time: time_from(&body) }
    } else if next == 'p' {
        position_element_from(&body)
    } else if next == 'g' || next == 't' {
        let tail = chars_of_range(seq, 3, len - 1);
        let third = seq[2];
        if next == 'g' && third == 'w' {
            Element::GlyphSpacing { value: opt_decimal_from(&tail) }
        } else if next == 'g' && third == 'h' {
            Element::LineSpacing { value: opt_decimal_from(&tail) }
        } else if next == 't' && third == 'w' {
            Element::ScaleX { value: opt_decimal_from(&tail) }
        } else if next == 't' && third == 'h' {
            Element::ScaleY { value: opt_decimal_from(&tail) }
        } else if next == 't' && third == 'r' {
            Element::Rotate { value: opt_axis_from(&tail) }
        } else {
            Element::Text(string_of(seq))
        }
    } else if next == '?' {
        Element::Script { code: code_from(&chars_of_range(seq, 2, len - 2)) }
    } else if next == '/' {
        slash_element_from(seq)
    } else {
        Element::Text(string_of(seq))
    }
}


/// Whether a size can be read from `t`.
fn scalar_readable(t: &Vec<char>) -> (b: bool)
    ensures
        b == element::scalar_defined(t@),
{
    if t.len() == 0 {
        true
    } else if t[0] == '*' {
        decimal::check_decimal_literal(&suffix(t, 1))
    } else {
        decimal::check_decimal_literal(t)
    }
}

/// Whether an optional number can be read from `t`.
fn opt_decimal_readable(t: &Vec<char>) -> (b: bool)
    ensures
        b == element::opt_decimal_is_defined(t@),
{
    t.len() == 0 || decimal::check_decimal_literal(t)
}

/// Whether the body of a position sequence can be read.
fn position_readable(body: &Vec<char>) -> (b: bool)
    ensures
        b == element::position_defined(body@),
{
    if body.len() == 0 {
        return true;
    }
    let parts = tags::split_ranges(body, ',');
    proof {
        assert(parts.len() >= 1) by {
            reveal_with_fuel(tags::split_on, 1);
        }
    }
    let (a0, b0) = parts[0];
    let p0 = trimmed(&chars_of_range(body, a0, b0));
    if !(p0.len() == 0 || decimal::check_decimal_literal(&p0)) {
        return false;
    }
    if parts.len() > 1 {
        let (a1, b1) = parts[1];
        let p1 = trimmed(&chars_of_range(body, a1, b1));
        if !(p1.len() == 0 || decimal::check_decimal_literal(&p1)) {
            return false;
        }
    }
    if parts.len() > 2 {
        let (a2, b2) = parts[2];
        let p2 = trimmed(&chars_of_range(body, a2, b2));
        if !decimal::check_decimal_literal(&p2) {
            return false;
        }
    }
    true
}

/// Whether a ruby sequence can be read.
fn ruby_readable(seq: &Vec<char>) -> (b: bool)
    ensures
        b == element::ruby_defined(seq@),
{
    let len = seq.len();
    if !(len >= 3 && tags::three_at_exec(seq, 0, '<', '/', '>') && tags::three_at_exec(seq, len - 3, '<', '/', '>')) {
        return false;
    }
    let (p, end) = tags::find_ruby_mark_exec(seq, 3);
    if p >= len || end > len - 3 {
        return false;
    }
    proof {
        tags::lemma_find_ruby_mark(seq@, 3);
        scan::lemma_run_end(seq@, p + 2, CharClass::Numeral);
    }
    let q = scan_run(seq, p + 2, CharClass::Numeral);
    opt_decimal_readable(&chars_of_range(seq, p + 2, q))
}

/// Whether the element of the control sequence `seq`, whose second character is `next`,
/// can be built (see [`element::control_element_defined`]).
pub(crate) fn control_element_readable(next: char, seq: &Vec<char>) -> (b: bool)
    ensures
        b == element::control_element_defined(next, seq@),
{
    let len = seq.len();
    if !(len >= 3 && seq[0] == '<' && seq[1] == next && seq[len - 1] == '>') {
        return false;
    }
    let body = chars_of_range(seq, 2, len - 1);
    if next == 's' {
        let k1 = scan_run(&body, 0, CharClass::Other(','));
        scalar_readable(&trimmed(&prefix(&body, k1)))
    } else if next == 'r' {
        opt_decimal_readable(&body)
    } else if next == 'w' || next == 'c' {
        scalar_readable(&body)
    } else if next == 'p' {
        position_readable(&body)
    } else if next == 'g' || next == 't' {
        if !(len >= 4 && (seq[2] as u32) < 0x80) {
            return false;
        }
        let tail = chars_of_range(seq, 3, len - 1);
        if next == 't' && seq[2] == 'r' {
            tail.len() == 0 || decimal::check_decimal_literal(&tail)
        } else {
            opt_decimal_readable(&tail)
        }
    } else if next == '?' {
        len >= 4
    } else if next == '/' {
        if len >= 6 && tags::three_at_exec(seq, 0, '<', '/', '/') && tags::three_at_exec(seq, len - 3, '/', '/', '>') {
            true
        } else if len == 3 && seq[0] == '<' && seq[1] == '/' && seq[2] == '>' {
            assert(seq@ =~= seq!['<', '/', '>']);
            true
        } else {
            proof {
                if seq@ =~= seq!['<', '/', '>'] {
                    assert(seq@.len() == 3);
                }
            }
            ruby_readable(seq)
        }
    } else {
        true
    }
}

} // verus!
