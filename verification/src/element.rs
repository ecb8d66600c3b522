//! The elements a text is made of, and what each control sequence stands for.
use vstd::prelude::*;

use crate::decimal::{self, Decimal};
use crate::scan::{self, CharClass};
use crate::tags;

verus! {

/// An element of a text.
#[derive(Debug, Clone, PartialEq)]
pub enum Element {
    /// Plain text.
    Text(String),
    /// Colour change (`<#...>`).
    Color { code: ColorType },
    /// Character size change (`<s...>`).
    Size {
        size: ScalarValue,
        font: Option<String>,
        decoration: Option<TextDecoration>,
        outline_size: Option<Decimal>,
    },
    /// Font change (`<@...>`).
    Font { command: FontCommand },
    /// Preset application (`<$...>`).
    Preset { name: Option<String> },
    /// Display speed change (`<r...>`).
    Speed { speed: Option<Decimal> },
    /// Pause of the display (`<w...>`).
    Wait { time: TimeValue },
    /// Clearing of the display (`<c...>`).
    Clear { time: TimeValue },
    /// Position change (`<p...>`).
    Position { x: Option<AxisValue>, y: Option<AxisValue>, z: Option<AxisValue> },
    /// Return to the base position (`<p>`).
    PositionReset,
    /// Character spacing change (`<gw...>`).
    GlyphSpacing { value: Option<Decimal> },
    /// Line spacing change (`<gh...>`).
    LineSpacing { value: Option<Decimal> },
    /// Horizontal scale change (`<tw...>`).
    ScaleX { value: Option<Decimal> },
    /// Vertical scale change (`<th...>`).
    ScaleY { value: Option<Decimal> },
    /// Angle change (`<tr...>`).
    Rotate { value: Option<AxisValue> },
    /// Ruby (`</>...<!...>...</>`).
    Ruby { base: String, ruby: String, scale: Option<Decimal>, expand_line_height: bool },
    /// End of a text block (`</>`).
    BlockEnd,
    /// Comment (`<//...//>`).
    Comment { text: String },
    /// Script execution (`<?...?>`).
    Script { code: Code },
}

/// What a font sequence does.
#[derive(Debug, Clone, PartialEq, Eq)]
pub enum FontCommand {
    Select { name: Option<String>, decoration: Option<FontDecoration> },
    AddStyle(TextDecoration),
    RemoveStyle(TextDecoration),
}

/// The decoration part of a font sequence.
#[derive(Debug, Clone, Copy, PartialEq, Eq)]
pub struct FontDecoration {
    pub kind: Option<FontDecorationKind>,
    pub style: TextDecoration,
}

/// The kind of decoration, written as a digit.
#[derive(Debug, Clone, Copy, PartialEq, Eq)]
pub enum FontDecorationKind {
    Standard,
    Shadow,
    ShadowLight,
    Outline,
    OutlineThin,
    OutlineBold,
    OutlineSquare,
}

/// Bold, italic and strikethrough flags.
#[derive(Debug, Clone, Copy, PartialEq, Eq)]
pub struct TextDecoration {
    pub bold: bool,
    pub italic: bool,
    pub strikethrough: bool,
}

/// The colour of a colour sequence.
#[derive(Debug, Clone, PartialEq, Eq)]
pub enum ColorType {
    Default,
    Single(ColorValue),
    Pair(ColorValue, ColorValue),
}

/// One colour: six hexadecimal digits, or a preset name.
#[derive(Debug, Clone, PartialEq, Eq)]
pub enum ColorValue {
    Rgb(u8, u8, u8),
    Preset(String),
}

/// The code of a script sequence.
#[derive(Debug, Clone, PartialEq, Eq)]
pub struct Code {
    pub kind: CodeType,
    pub value: String,
}

/// Whether a script runs code (`<?...?>`) or prints a value (`<?=...?>`).
#[derive(Debug, Clone, Copy, PartialEq, Eq)]
pub enum CodeType {
    Full,
    Value,
}

/// A size: the default, a size, or a change of the current one.
#[derive(Debug, Clone, PartialEq)]
pub enum ScalarValue {
    Default,
    Absolute(Decimal),
    RelativeAdd(Decimal),
    RelativeMul(Decimal),
}

/// A time: in seconds, or per character.
#[derive(Debug, Clone, PartialEq)]
pub enum TimeValue {
    Absolute(Decimal),
    PerChar(Decimal),
}

/// A coordinate: absolute, or relative to the current one.
#[derive(Debug, Clone, PartialEq)]
pub enum AxisValue {
    Absolute(Decimal),
    Relative(Decimal),
}

/// A sequence of elements.
#[derive(Debug, Clone, PartialEq)]
pub struct Elements(pub Vec<Element>);

/// The error of reading an element from a string that is more than one element.
#[derive(Debug, Clone, PartialEq, Eq)]
pub struct ParseElementError;

// ---- what the parts of a control sequence mean ----

/// `t` without the white space at its start.
pub open spec fn trim_start(t: Seq<char>) -> Seq<char>
    decreases t.len(),
{
    if t.len() > 0 && scan::is_whitespace(t[0]) {
        trim_start(t.skip(1))
    } else {
        t
    }
}

/// `t` without the white space at its end.
pub open spec fn trim_end(t: Seq<char>) -> Seq<char>
    decreases t.len(),
{
    if t.len() > 0 && scan::is_whitespace(t.last()) {
        trim_end(t.drop_last())
    } else {
        t
    }
}

/// `t` without the white space at either end (`str::trim`).
pub open spec fn trim(t: Seq<char>) -> Seq<char> {
    trim_end(trim_start(t))
}

/// The flags that the letters `B`, `I` and `S` in `t` set.
pub open spec fn text_decoration_of(t: Seq<char>) -> TextDecoration {
    TextDecoration { bold: t.contains('B'), italic: t.contains('I'), strikethrough: t.contains('S') }
}

/// The decoration kind that a digit names.
pub open spec fn decoration_kind_of(c: char) -> Option<FontDecorationKind> {
    if c == '0' {
        Some(FontDecorationKind::Standard)
    } else if c == '1' {
        Some(FontDecorationKind::Shadow)
    } else if c == '2' {
        Some(FontDecorationKind::ShadowLight)
    } else if c == '3' {
        Some(FontDecorationKind::Outline)
    } else if c == '4' {
        Some(FontDecorationKind::OutlineThin)
    } else if c == '5' {
        Some(FontDecorationKind::OutlineBold)
    } else if c == '6' {
        Some(FontDecorationKind::OutlineSquare)
    } else {
        None
    }
}

/// A font decoration: an optional kind digit, then style letters.
pub open spec fn font_decoration_of(t: Seq<char>) -> FontDecoration {
    if t.len() > 0 && decoration_kind_of(t[0]) is Some {
        FontDecoration { kind: decoration_kind_of(t[0]), style: text_decoration_of(t.skip(1)) }
    } else {
        FontDecoration { kind: None, style: text_decoration_of(t) }
    }
}

/// The value of a hexadecimal digit.
pub open spec fn hex_value(c: char) -> int {
    if scan::is_digit(c) {
        c as int - '0' as int
    } else if 'a' <= c && c <= 'f' {
        c as int - 'a' as int + 10
    } else {
        c as int - 'A' as int + 10
    }
}

/// The byte that two hexadecimal digits write.
pub open spec fn hex_byte(hi: char, lo: char) -> u8 {
    (hex_value(hi) * 16 + hex_value(lo)) as u8
}

/// Whether `t` is six hexadecimal digits.
pub open spec fn is_rgb_code(t: Seq<char>) -> bool {
    t.len() == 6 && forall|j: int| 0 <= j < 6 ==> scan::is_hex_digit(#[trigger] t[j])
}

/// `v` is the colour that `t` writes: six hexadecimal digits give their three bytes,
/// anything else is a preset name.
pub open spec fn color_value_is(t: Seq<char>, v: ColorValue) -> bool {
    if is_rgb_code(t) {
        v == ColorValue::Rgb(hex_byte(t[0], t[1]), hex_byte(t[2], t[3]), hex_byte(t[4], t[5]))
    } else {
        v matches ColorValue::Preset(name) && name@ == t
    }
}

/// `c` is what the body of a colour sequence writes: nothing gives the default, and a
/// first comma separates two colours.
pub open spec fn color_type_is(body: Seq<char>, c: ColorType) -> bool {
    let k = scan::find_char(body, 0, ',');
    if body.len() == 0 {
        c is Default
    } else if k < body.len() {
        c matches ColorType::Pair(a, b) && color_value_is(body.take(k), a) && color_value_is(
            body.skip(k + 1),
            b,
        )
    } else {
        c matches ColorType::Single(a) && color_value_is(body, a)
    }
}

/// `d` is the number that the literal `t` writes.
pub open spec fn decimal_is(t: Seq<char>, d: Decimal) -> bool {
    d@ == decimal::decimal_value(t)
}

/// `v` is the optional number that `t` writes: none when `t` is empty.
pub open spec fn opt_decimal_is(t: Seq<char>, v: Option<Decimal>) -> bool {
    if t.len() == 0 {
        v is None
    } else {
        v matches Some(d) && decimal_is(t, d)
    }
}

/// `v` is the size that `t` writes.
pub open spec fn scalar_is(t: Seq<char>, v: ScalarValue) -> bool {
    if t.len() == 0 {
        v is Default
    } else if t[0] == '*' {
        v matches ScalarValue::RelativeMul(d) && decimal_is(t.skip(1), d)
    } else if t[0] == '+' || t[0] == '-' {
        v matches ScalarValue::RelativeAdd(d) && decimal_is(t, d)
    } else {
        v matches ScalarValue::Absolute(d) && decimal_is(t, d)
    }
}

/// Whether reading `t` as a size succeeds.
pub open spec fn scalar_defined(t: Seq<char>) -> bool {
    t.len() == 0 || (if t[0] == '*' {
        decimal::is_decimal_literal(t.skip(1))
    } else {
        decimal::is_decimal_literal(t)
    })
}

/// `v` is the time that `t` writes: nothing is zero seconds.
pub open spec fn time_is(t: Seq<char>, v: TimeValue) -> bool {
    if t.len() == 0 {
        v matches TimeValue::Absolute(d) && d@ == seq!['0']
    } else if t[0] == '*' {
        v matches TimeValue::PerChar(d) && decimal_is(t.skip(1), d)
    } else {
        v matches TimeValue::Absolute(d) && decimal_is(t, d)
    }
}

/// Whether reading `t` as a time succeeds.
pub open spec fn time_defined(t: Seq<char>) -> bool {
    scalar_defined(t)
}

/// `v` is the coordinate that `t` writes: a sign makes it relative.
pub open spec fn axis_is(t: Seq<char>, v: AxisValue) -> bool {
    if t.len() > 0 && (t[0] == '+' || t[0] == '-') {
        v matches AxisValue::Relative(d) && decimal_is(t, d)
    } else {
        v matches AxisValue::Absolute(d) && decimal_is(t, d)
    }
}

/// `v` is the optional coordinate that `t` writes: none when `t` is empty.
pub open spec fn opt_axis_is(t: Seq<char>, v: Option<AxisValue>) -> bool {
    if t.len() == 0 {
        v is None
    } else {
        v matches Some(a) && axis_is(t, a)
    }
}

/// `c` is the script code that the body of a script sequence holds: a leading `=` makes
/// it a value.
pub open spec fn code_is(body: Seq<char>, c: Code) -> bool {
    if body.len() > 0 && body[0] == '=' {
        c.kind == CodeType::Value && c.value@ == body.skip(1)
    } else {
        c.kind == CodeType::Full && c.value@ == body
    }
}

/// `c` is the command that the body of a font sequence writes: a leading `+` or `-`
/// adds or removes styles; otherwise a name and, after the first comma, a decoration,
/// each trimmed and left out when empty.
pub open spec fn font_command_is(body: Seq<char>, c: FontCommand) -> bool {
    let k = scan::find_char(body, 0, ',');
    let name = trim(body.take(k));
    let deco = trim(body.skip(k + 1));
    if body.len() > 0 && body[0] == '+' {
        c == FontCommand::AddStyle(text_decoration_of(body.skip(1)))
    } else if body.len() > 0 && body[0] == '-' {
        c == FontCommand::RemoveStyle(text_decoration_of(body.skip(1)))
    } else {
        c matches FontCommand::Select { name: n, decoration: d } && (if name.len() == 0 {
            n is None
        } else {
            n matches Some(s) && s@ == name
        }) && d == (if k < body.len() && deco.len() > 0 {
            Some(font_decoration_of(deco))
        } else {
            None
        })
    }
}


/// The number that an outline part reads as: `None` when it is not a decimal literal
/// (given the grammar of size sequences it always is one).
pub open spec fn outline_is(t: Seq<char>, v: Option<Decimal>) -> bool {
    if decimal::is_decimal_literal(t) {
        v matches Some(d) && decimal_is(t, d)
    } else {
        v is None
    }
}

/// `e` is what the body of a size sequence writes. The body is cut at its first three
/// commas into a size, a font (trimmed, left out when empty), decoration letters, and an
/// outline width (the whole rest, trimmed).
pub open spec fn size_element_is(body: Seq<char>, e: Element) -> bool {
    let k1 = scan::find_char(body, 0, ',');
    let r1 = body.skip(k1 + 1);
    let k2 = scan::find_char(r1, 0, ',');
    let r2 = r1.skip(k2 + 1);
    let k3 = scan::find_char(r2, 0, ',');
    let font = trim(r1.take(k2));
    e matches Element::Size { size, font: f, decoration, outline_size }
    && scalar_is(trim(body.take(k1)), size)
    && (if k1 >= body.len() {
        f is None && decoration is None && outline_size is None
    } else {
        (if font.len() == 0 { f is None } else { f matches Some(name) && name@ == font })
        && (if k2 >= r1.len() {
            decoration is None && outline_size is None
        } else {
            decoration == Some(text_decoration_of(r2.take(k3)))
            && (if k3 >= r2.len() {
                outline_size is None
            } else {
                outline_is(trim(r2.skip(k3 + 1)), outline_size)
            })
        })
    })
}

/// Whether reading the body of a size sequence succeeds.
pub open spec fn size_defined(body: Seq<char>) -> bool {
    scalar_defined(trim(body.take(scan::find_char(body, 0, ','))))
}

/// `e` is what the body of a position sequence writes: nothing is the return to the
/// base position; otherwise the comma-separated parts are trimmed, and an empty first or
/// second part is left out.
pub open spec fn position_element_is(body: Seq<char>, e: Element) -> bool {
    let parts = tags::split_on(body, ',');
    if body.len() == 0 {
        e is PositionReset
    } else {
        e matches Element::Position { x, y, z }
        && opt_axis_is(trim(parts[0]), x)
        && (if parts.len() > 1 { opt_axis_is(trim(parts[1]), y) } else { y is None })
        && (if parts.len() > 2 {
            z matches Some(a) && axis_is(trim(parts[2]), a)
        } else {
            z is None
        })
    }
}

/// Whether a coordinate can be read from `t`.
pub open spec fn axis_defined(t: Seq<char>) -> bool {
    decimal::is_decimal_literal(t)
}

/// Whether reading the body of a position sequence succeeds: every part that is read must
/// be a number, and a third part is read even when it is empty.
pub open spec fn position_defined(body: Seq<char>) -> bool {
    let parts = tags::split_on(body, ',');
    body.len() == 0 || (
        (trim(parts[0]).len() == 0 || axis_defined(trim(parts[0])))
        && (parts.len() <= 1 || trim(parts[1]).len() == 0 || axis_defined(trim(parts[1])))
        && (parts.len() <= 2 || axis_defined(trim(parts[2]))))
}

/// Whether a control sequence is a comment: `<//`, then `//>` at its end.
pub open spec fn is_comment_sequence(seq: Seq<char>) -> bool {
    seq.len() >= 6 && tags::three_at(seq, 0, '<', '/', '/') && tags::three_at(
        seq,
        seq.len() - 3,
        '/',
        '/',
        '>',
    )
}

/// `e` is what a ruby sequence `</>base<!scale+>ruby</>` writes; the base runs to the
/// first ruby separator.
pub open spec fn ruby_element_is(seq: Seq<char>, e: Element) -> bool {
    let p = tags::find_ruby_mark(seq, 3);
    let q = tags::ruby_number_end(seq, p);
    let scale = seq.subrange(p + 2, q);
    e matches Element::Ruby { base, ruby, scale: sc, expand_line_height }
    && base@ == seq.subrange(3, p)
    && ruby@ == seq.subrange(tags::ruby_mark_end(seq, p), seq.len() - 3)
    && opt_decimal_is(scale, sc)
    && expand_line_height == (seq[q] == '+')
}

/// Whether a ruby sequence can be read: it is `</>`, base, separator, ruby, `</>`.
pub open spec fn ruby_defined(seq: Seq<char>) -> bool {
    let p = tags::find_ruby_mark(seq, 3);
    &&& tags::three_at(seq, 0, '<', '/', '>')
    &&& tags::three_at(seq, seq.len() - 3, '<', '/', '>')
    &&& p < seq.len()
    &&& tags::ruby_mark_end(seq, p) <= seq.len() - 3
    &&& opt_decimal_is_defined(seq.subrange(p + 2, tags::ruby_number_end(seq, p)))
}

/// Whether an optional number can be read from `t`.
pub open spec fn opt_decimal_is_defined(t: Seq<char>) -> bool {
    t.len() == 0 || decimal::is_decimal_literal(t)
}

/// `e` is what a control sequence that starts with `<` and `/` writes.
pub open spec fn slash_element_is(seq: Seq<char>, e: Element) -> bool {
    if is_comment_sequence(seq) {
        e matches Element::Comment { text } && text@ == seq.subrange(3, seq.len() - 3)
    } else if seq =~= seq!['<', '/', '>'] {
        e is BlockEnd
    } else {
        ruby_element_is(seq, e)
    }
}

/// `e` is the element that the control sequence `seq` stands for; `next` is its second
/// character, which names its kind. `seq` runs from `<` to its closing `>`.
pub open spec fn control_element_is(next: char, seq: Seq<char>, e: Element) -> bool {
    let body = seq.subrange(2, seq.len() - 1);
    let tail = seq.subrange(3, seq.len() - 1);
    if next == '#' {
        e matches Element::Color { code } && color_type_is(body, code)
    } else if next == 's' {
        size_element_is(body, e)
    } else if next == '@' {
        e matches Element::Font { command } && font_command_is(body, command)
    } else if next == '$' {
        e matches Element::Preset { name } && (if body.len() == 0 {
            name is None
        } else {
            name matches Some(n) && n@ == body
        })
    } else if next == 'r' {
        e matches Element::Speed { speed } && opt_decimal_is(body, speed)
    } else if next == 'w' {
        e matches Element::Wait { time } && time_is(body, time)
    } else if next == 'c' {
        e matches Element::Clear { time } && time_is(body, time)
    } else if next == 'p' {
        position_element_is(body, e)
    } else if next == 'g' && seq[2] == 'w' {
        e matches Element::GlyphSpacing { value } && opt_decimal_is(tail, value)
    } else if next == 'g' && seq[2] == 'h' {
        e matches Element::LineSpacing { value } && opt_decimal_is(tail, value)
    } else if next == 't' && seq[2] == 'w' {
        e matches Element::ScaleX { value } && opt_decimal_is(tail, value)
    } else if next == 't' && seq[2] == 'h' {
        e matches Element::ScaleY { value } && opt_decimal_is(tail, value)
    } else if next == 't' && seq[2] == 'r' {
        e matches Element::Rotate { value } && opt_axis_is(tail, value)
    } else if next == '?' {
        e matches Element::Script { code } && code_is(seq.subrange(2, seq.len() - 2), code)
    } else if next == '/' {
        slash_element_is(seq, e)
    } else {
        e matches Element::Text(t) && t@ == seq
    }
}

/// Whether the element of a control sequence can be built at all: every number it reads
/// is one, and the script body can be cut out of it. Outside these the reading fails.
pub open spec fn control_element_defined(next: char, seq: Seq<char>) -> bool {
    let body = seq.subrange(2, seq.len() - 1);
    let tail = seq.subrange(3, seq.len() - 1);
    &&& seq.len() >= 3
    &&& seq[0] == '<' && seq[1] == next && seq[seq.len() - 1] == '>'
    &&& (next == 's' ==> size_defined(body))
    &&& (next == 'r' ==> opt_decimal_is_defined(body))
    &&& ((next == 'w' || next == 'c') ==> time_defined(body))
    &&& (next == 'p' ==> position_defined(body))
    &&& ((next == 'g' || next == 't') ==> seq.len() >= 4 && (seq[2] as u32) < 0x80)
    &&& ((next == 'g' || (next == 't' && seq[2] != 'r')) ==> opt_decimal_is_defined(tail))
    &&& ((next == 't' && seq[2] == 'r') ==> (tail.len() == 0 || axis_defined(tail)))
    &&& (next == '?' ==> seq.len() >= 4)
    &&& (next == '/' ==> (is_comment_sequence(seq) || seq =~= seq!['<', '/', '>'] || ruby_defined(seq)))
}

} // verus!
