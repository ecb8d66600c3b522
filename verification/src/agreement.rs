//! The readings of a text agree: a piece stands for one element only, so the functions
//! that read the same text give the same elements.
use vstd::prelude::*;

use crate::control::{self, Piece};
use crate::decimal::Decimal;
use crate::element::{
    self, AxisValue, Code, ColorType, ColorValue, Element, FontCommand, ParseElementError,
    ScalarValue, TimeValue,
};
use crate::laws;
use crate::tags;
use crate::text;

verus! {

/// Two optional strings with the same characters.
pub open spec fn same_opt_string(a: Option<String>, b: Option<String>) -> bool {
    match (a, b) {
        (None, None) => true,
        (Some(x), Some(y)) => x@ == y@,
        _ => false,
    }
}

/// Two optional numbers with the same value.
pub open spec fn same_opt_decimal(a: Option<Decimal>, b: Option<Decimal>) -> bool {
    match (a, b) {
        (None, None) => true,
        (Some(x), Some(y)) => x@ == y@,
        _ => false,
    }
}

/// Two sizes that are the same.
pub open spec fn same_scalar(a: ScalarValue, b: ScalarValue) -> bool {
    match (a, b) {
        (ScalarValue::Default, ScalarValue::Default) => true,
        (ScalarValue::Absolute(x), ScalarValue::Absolute(y)) => x@ == y@,
        (ScalarValue::RelativeAdd(x), ScalarValue::RelativeAdd(y)) => x@ == y@,
        (ScalarValue::RelativeMul(x), ScalarValue::RelativeMul(y)) => x@ == y@,
        _ => false,
    }
}

/// Two times that are the same.
pub open spec fn same_time(a: TimeValue, b: TimeValue) -> bool {
    match (a, b) {
        (TimeValue::Absolute(x), TimeValue::Absolute(y)) => x@ == y@,
        (TimeValue::PerChar(x), TimeValue::PerChar(y)) => x@ == y@,
        _ => false,
    }
}

/// Two optional coordinates that are the same.
pub open spec fn same_opt_axis(a: Option<AxisValue>, b: Option<AxisValue>) -> bool {
    match (a, b) {
        (None, None) => true,
        (Some(AxisValue::Absolute(x)), Some(AxisValue::Absolute(y))) => x@ == y@,
        (Some(AxisValue::Relative(x)), Some(AxisValue::Relative(y))) => x@ == y@,
        _ => false,
    }
}

/// Two colours that are the same.
pub open spec fn same_color_value(a: ColorValue, b: ColorValue) -> bool {
    match (a, b) {
        (ColorValue::Rgb(r1, g1, b1), ColorValue::Rgb(r2, g2, b2)) => r1 == r2 && g1 == g2 && b1
            == b2,
        (ColorValue::Preset(x), ColorValue::Preset(y)) => x@ == y@,
        _ => false,
    }
}

/// Two colour codes that are the same.
pub open spec fn same_color_type(a: ColorType, b: ColorType) -> bool {
    match (a, b) {
        (ColorType::Default, ColorType::Default) => true,
        (ColorType::Single(x), ColorType::Single(y)) => same_color_value(x, y),
        (ColorType::Pair(x1, x2), ColorType::Pair(y1, y2)) => same_color_value(x1, y1)
            && same_color_value(x2, y2),
        _ => false,
    }
}

/// Two font commands that are the same.
pub open spec fn same_font_command(a: FontCommand, b: FontCommand) -> bool {
    match (a, b) {
        (
            FontCommand::Select { name: n1, decoration: d1 },
            FontCommand::Select { name: n2, decoration: d2 },
        ) => same_opt_string(n1, n2) && d1 == d2,
        (FontCommand::AddStyle(x), FontCommand::AddStyle(y)) => x == y,
        (FontCommand::RemoveStyle(x), FontCommand::RemoveStyle(y)) => x == y,
        _ => false,
    }
}

/// Two script codes that are the same.
pub open spec fn same_code(a: Code, b: Code) -> bool {
    a.kind == b.kind && a.value@ == b.value@
}

/// Two elements that are the same: the same kind, with the same characters in their
/// strings and the same values in their numbers.
pub open spec fn same_element(a: Element, b: Element) -> bool {
    match (a, b) {
        (Element::Text(x), Element::Text(y)) => x@ == y@,
        (Element::Color { code: x }, Element::Color { code: y }) => same_color_type(x, y),
        (
            Element::Size { size: s1, font: f1, decoration: d1, outline_size: o1 },
            Element::Size { size: s2, font: f2, decoration: d2, outline_size: o2 },
        ) => same_scalar(s1, s2) && same_opt_string(f1, f2) && d1 == d2 && same_opt_decimal(
            o1,
            o2,
        ),
        (Element::Font { command: x }, Element::Font { command: y }) => same_font_command(x, y),
        (Element::Preset { name: x }, Element::Preset { name: y }) => same_opt_string(x, y),
        (Element::Speed { speed: x }, Element::Speed { speed: y }) => same_opt_decimal(x, y),
        (Element::Wait { time: x }, Element::Wait { time: y }) => same_time(x, y),
        (Element::Clear { time: x }, Element::Clear { time: y }) => same_time(x, y),
        (
            Element::Position { x: x1, y: y1, z: z1 },
            Element::Position { x: x2, y: y2, z: z2 },
        ) => same_opt_axis(x1, x2) && same_opt_axis(y1, y2) && same_opt_axis(z1, z2),
        (Element::PositionReset, Element::PositionReset) => true,
        (Element::GlyphSpacing { value: x }, Element::GlyphSpacing { value: y }) =>
            same_opt_decimal(x, y),
        (Element::LineSpacing { value: x }, Element::LineSpacing { value: y }) =>
            same_opt_decimal(x, y),
        (Element::ScaleX { value: x }, Element::ScaleX { value: y }) => same_opt_decimal(x, y),
        (Element::ScaleY { value: x }, Element::ScaleY { value: y }) => same_opt_decimal(x, y),
        (Element::Rotate { value: x }, Element::Rotate { value: y }) => same_opt_axis(x, y),
        (
            Element::Ruby { base: b1, ruby: r1, scale: s1, expand_line_height: e1 },
            Element::Ruby { base: b2, ruby: r2, scale: s2, expand_line_height: e2 },
        ) => b1@ == b2@ && r1@ == r2@ && same_opt_decimal(s1, s2) && e1 == e2,
        (Element::BlockEnd, Element::BlockEnd) => true,
        (Element::Comment { text: x }, Element::Comment { text: y }) => x@ == y@,
        (Element::Script { code: x }, Element::Script { code: y }) => same_code(x, y),
        _ => false,
    }
}

/// Two lists of elements that are the same, element by element.
pub open spec fn same_elements(a: Seq<Element>, b: Seq<Element>) -> bool {
    a.len() == b.len() && forall|k: int| 0 <= k < a.len() ==> same_element(#[trigger] a[k], b[k])
}

/// A colour code stands for one colour only.
proof fn lemma_color_unique(body: Seq<char>, a: ColorType, b: ColorType)
    requires
        element::color_type_is(body, a),
        element::color_type_is(body, b),
    ensures
        same_color_type(a, b),
{
}

/// A size body stands for one element only.
proof fn lemma_size_unique(body: Seq<char>, a: Element, b: Element)
    requires
        element::size_element_is(body, a),
        element::size_element_is(body, b),
    ensures
        same_element(a, b),
{
}

/// A position body stands for one element only.
proof fn lemma_position_unique(body: Seq<char>, a: Element, b: Element)
    requires
        element::position_element_is(body, a),
        element::position_element_is(body, b),
    ensures
        same_element(a, b),
{
}

/// A font body stands for one command only.
proof fn lemma_font_unique(body: Seq<char>, a: FontCommand, b: FontCommand)
    requires
        element::font_command_is(body, a),
        element::font_command_is(body, b),
    ensures
        same_font_command(a, b),
{
}

/// A slash sequence stands for one element only.
proof fn lemma_slash_unique(seq: Seq<char>, a: Element, b: Element)
    requires
        element::slash_element_is(seq, a),
        element::slash_element_is(seq, b),
    ensures
        same_element(a, b),
{
}

/// A control sequence stands for one element only.
pub proof fn lemma_control_element_unique(next: char, seq: Seq<char>, a: Element, b: Element)
    requires
        element::control_element_is(next, seq, a),
        element::control_element_is(next, seq, b),
    ensures
        same_element(a, b),
{
    let body = seq.subrange(2, seq.len() - 1);
    if next == '#' {
        if let (Element::Color { code: x }, Element::Color { code: y }) = (a, b) {
            lemma_color_unique(body, x, y);
        }
    } else if next == 's' {
        lemma_size_unique(body, a, b);
    } else if next == '@' {
        if let (Element::Font { command: x }, Element::Font { command: y }) = (a, b) {
            lemma_font_unique(body, x, y);
        }
    } else if next == 'p' {
        lemma_position_unique(body, a, b);
    } else if next == '/' {
        lemma_slash_unique(seq, a, b);
    }
}

/// A piece stands for one element only.
pub proof fn lemma_piece_element_unique(p: Piece, a: Element, b: Element)
    requires
        control::piece_element_is(p, a),
        control::piece_element_is(p, b),
    ensures
        same_element(a, b),
{
    if let Piece::Control(next, seq) = p {
        lemma_control_element_unique(next, seq, a, b);
    }
}

/// Two readings of one text give the same elements.
pub proof fn lemma_reading_unique(s: Seq<char>, a: Seq<Element>, b: Seq<Element>)
    requires
        control::reads_as(s, a),
        control::reads_as(s, b),
    ensures
        same_elements(a, b),
{
    assert forall|k: int| 0 <= k < a.len() implies same_element(#[trigger] a[k], b[k]) by {
        lemma_piece_element_unique(control::pieces(s)[k], a[k], b[k]);
    }
}

/// Reading a text with its escapes (`parse_text`) gives what reading the text that the
/// escapes write (`parse_control` of `parse_escape`) gives: `unescaped` is what
/// `parse_escape` returns, `direct` what `parse_text` returns, and `via` what
/// `parse_control` returns on `unescaped`.
pub proof fn lemma_parse_text_is_parse_control_of_escape(
    text: Seq<char>,
    unescaped: Seq<char>,
    direct: Seq<Element>,
    via: Seq<Element>,
)
    requires
        unescaped == text::unescape(text),
        control::reads_as(text::unescape(text), direct),
        control::reads_as(unescaped, via),
    ensures
        same_elements(direct, via),
{
    lemma_reading_unique(unescaped, direct, via);
}

/// Gathering plain text gives a text piece first.
proof fn lemma_scan_starts_with_text(s: Seq<char>, i: int, buf: Seq<char>)
    requires
        buf.len() > 0,
    ensures
        control::scan_pieces(s, i, buf).len() > 0,
        control::scan_pieces(s, i, buf)[0] == Piece::Text(
            control::scan_pieces(s, i, buf)[0]->Text_0,
        ),
    decreases s.len() - i,
{
    if i < 0 || i >= s.len() {
    } else if s[i] != '<' || tags::tag_len(s, i) == 0 {
        lemma_scan_starts_with_text(s, i + 1, buf.push(s[i]));
    }
}

/// The first piece of a text: a text piece when no control sequence starts the text, and
/// otherwise the sequence that starts it.
pub proof fn lemma_first_piece(s: Seq<char>)
    ensures
        tags::tag_len(s, 0) == 0 && s.len() > 0 ==> control::pieces(s).len() > 0
            && control::pieces(s)[0] is Text,
        tags::tag_len(s, 0) > 0 ==> control::pieces(s).len() > 0 && control::pieces(s)[0]
            == Piece::Control(s[1], s.subrange(0, tags::tag_len(s, 0))),
{
    tags::lemma_tag_len_bounds(s, 0);
    if s.len() > 0 {
        if tags::tag_len(s, 0) == 0 {
            lemma_scan_starts_with_text(s, 1, seq![s[0]]);
            assert(seq![].push(s[0]) =~= seq![s[0]]);
        } else {
            assert(control::flush(Seq::<char>::empty()) =~= Seq::<Piece>::empty());
        }
    }
}

/// Reading one element from a string (`Element::from_text`, and so `from_str`) agrees
/// with reading the string as a text (`parse_control`): where no sequence starts the
/// string, the text reading starts with a text piece (or has nothing, for the empty
/// string) and the one element is all of the string as text; where a sequence starts it,
/// the text reading starts with that sequence, and the one element is the same element
/// when the sequence is all of the string, and an error otherwise.
pub proof fn lemma_read_one_agrees(
    s: Seq<char>,
    r: Result<Element, ParseElementError>,
    out: Seq<Element>,
)
    requires
        control::read_one(s, r),
        control::reads_as(s, out),
    ensures
        tags::tag_len(s, 0) == 0 ==> (out.len() == 0 || out[0] is Text) && (r matches Ok(
            Element::Text(t),
        ) && t@ == s),
        tags::tag_len(s, 0) > 0 ==> out.len() > 0 && !(out[0] is Text),
        tags::tag_len(s, 0) == s.len() > 0 ==> (r matches Ok(e) && same_element(e, out[0])),
        0 < tags::tag_len(s, 0) < s.len() ==> r is Err,
{
    lemma_first_piece(s);
    if s.len() == 0 {
        assert(control::pieces(s) =~= Seq::<Piece>::empty());
    }
    if out.len() > 0 {
        let p = control::pieces(s)[0];
        assert(control::piece_element_is(p, out[0]));
        if tags::tag_len(s, 0) > 0 {
            if tags::tag_len(s, 0) == s.len() {
                assert(s.subrange(0, s.len() as int) =~= s);
                if let Ok(e) = r {
                    lemma_control_element_unique(s[1], s, e, out[0]);
                }
            }
            lemma_sequence_not_text(s, out[0]);
        }
    }
}

/// A recognised control sequence never stands for plain text.
proof fn lemma_sequence_not_text(s: Seq<char>, e: Element)
    requires
        tags::tag_len(s, 0) > 0,
        element::control_element_is(s[1], s.subrange(0, tags::tag_len(s, 0)), e),
    ensures
        !(e is Text),
{
    tags::lemma_tag_len_bounds(s, 0);
    let n = tags::tag_len(s, 0);
    let seq = s.subrange(0, n);
    if n >= 3 {
        assert(seq[2] == s[2]);
    }
}

} // verus!
