//! Writing elements back as text.
use vstd::prelude::*;

use crate::decimal::Decimal;
use crate::element::{
    AxisValue, Code, CodeType, ColorType, ColorValue, Element, Elements, FontCommand,
    FontDecoration, FontDecorationKind, ParseElementError, ScalarValue, TextDecoration, TimeValue,
};
use crate::text::push_char;

verus! {

/// The letters that stand for the set flags, in the order `B`, `I`, `S`.
pub open spec fn text_decoration_text(d: TextDecoration) -> Seq<char> {
    (if d.bold { seq!['B'] } else { seq![] }) + (if d.italic { seq!['I'] } else { seq![] }) + (
    if d.strikethrough {
        seq!['S']
    } else {
        seq![]
    })
}

/// The digit that names a decoration kind.
pub open spec fn decoration_kind_char(k: FontDecorationKind) -> char {
    match k {
        FontDecorationKind::Standard => '0',
        FontDecorationKind::Shadow => '1',
        FontDecorationKind::ShadowLight => '2',
        FontDecorationKind::Outline => '3',
        FontDecorationKind::OutlineThin => '4',
        FontDecorationKind::OutlineBold => '5',
        FontDecorationKind::OutlineSquare => '6',
    }
}

/// A font decoration: its kind digit, if any, then its letters.
pub open spec fn font_decoration_text(d: FontDecoration) -> Seq<char> {
    (match d.kind {
        Some(k) => seq![decoration_kind_char(k)],
        None => seq![],
    }) + text_decoration_text(d.style)
}

/// An optional string, or nothing.
pub open spec fn opt_string_text(s: Option<String>) -> Seq<char> {
    match s {
        Some(t) => t@,
        None => seq![],
    }
}

/// A font command.
pub open spec fn font_command_text(c: FontCommand) -> Seq<char> {
    match c {
        FontCommand::Select { name, decoration } => opt_string_text(name) + match decoration {
            Some(d) => seq![','] + font_decoration_text(d),
            None => seq![],
        },
        FontCommand::AddStyle(s) => seq!['+'] + text_decoration_text(s),
        FontCommand::RemoveStyle(s) => seq!['-'] + text_decoration_text(s),
    }
}

/// The lower-case hexadecimal digit of a value below 16.
pub open spec fn hex_char(n: int) -> char {
    if n < 10 {
        (n + 48) as char
    } else {
        (n + 87) as char
    }
}

/// A byte as two lower-case hexadecimal digits.
pub open spec fn hex_text(b: u8) -> Seq<char> {
    seq![hex_char((b / 16) as int), hex_char((b % 16) as int)]
}

/// A colour: six lower-case hexadecimal digits, or the preset name.
pub open spec fn color_value_text(v: ColorValue) -> Seq<char> {
    match v {
        ColorValue::Rgb(r, g, b) => hex_text(r) + hex_text(g) + hex_text(b),
        ColorValue::Preset(name) => name@,
    }
}

/// A colour code: nothing for the default, two colours separated by a comma.
pub open spec fn color_type_text(c: ColorType) -> Seq<char> {
    match c {
        ColorType::Default => seq![],
        ColorType::Single(v) => color_value_text(v),
        ColorType::Pair(a, b) => color_value_text(a) + seq![','] + color_value_text(b),
    }
}

/// A script sequence.
pub open spec fn code_text(c: Code) -> Seq<char> {
    match c.kind {
        CodeType::Full => seq!['<', '?'] + c.value@ + seq!['?', '>'],
        CodeType::Value => seq!['<', '?', '='] + c.value@ + seq!['?', '>'],
    }
}

/// A number with a sign: `+` before any number that is not below zero.
pub open spec fn signed_text(d: Decimal) -> Seq<char> {
    if d@.len() > 0 && d@[0] == '-' {
        d@
    } else {
        seq!['+'] + d@
    }
}

/// A size value.
pub open spec fn scalar_text(v: ScalarValue) -> Seq<char> {
    match v {
        ScalarValue::Default => seq![],
        ScalarValue::Absolute(d) => d@,
        ScalarValue::RelativeAdd(d) => signed_text(d),
        ScalarValue::RelativeMul(d) => seq!['*'] + d@,
    }
}

/// A time value: nothing for zero seconds.
pub open spec fn time_text(v: TimeValue) -> Seq<char> {
    match v {
        TimeValue::Absolute(d) => if d@ == seq!['0'] {
            seq![]
        } else {
            d@
        },
        TimeValue::PerChar(d) => seq!['*'] + d@,
    }
}

/// A coordinate.
pub open spec fn axis_text(v: AxisValue) -> Seq<char> {
    match v {
        AxisValue::Absolute(d) => d@,
        AxisValue::Relative(d) => signed_text(d),
    }
}

/// An optional number, or nothing.
pub open spec fn opt_decimal_text(v: Option<Decimal>) -> Seq<char> {
    match v {
        Some(d) => d@,
        None => seq![],
    }
}

/// An optional coordinate, or nothing.
pub open spec fn opt_axis_text(v: Option<AxisValue>) -> Seq<char> {
    match v {
        Some(a) => axis_text(a),
        None => seq![],
    }
}

/// A tag `<`, letters, value, `>`.
pub open spec fn tag_text(letters: Seq<char>, value: Seq<char>) -> Seq<char> {
    seq!['<'] + letters + value + seq!['>']
}

/// What follows the size in a size sequence: the font when anything follows, the
/// decoration letters when a decoration or outline follows, then the outline width.
pub open spec fn size_tail_text(
    font: Option<String>,
    decoration: Option<TextDecoration>,
    outline_size: Option<Decimal>,
) -> Seq<char> {
    let with_font = font is Some || decoration is Some || outline_size is Some;
    let with_decoration = decoration is Some || outline_size is Some;
    (if with_font {
        seq![','] + opt_string_text(font)
    } else {
        seq![]
    }) + (if with_decoration {
        seq![','] + match decoration {
            Some(d) => text_decoration_text(d),
            None => seq![],
        }
    } else {
        seq![]
    }) + match outline_size {
        Some(o) => seq![','] + o@,
        None => seq![],
    }
}

/// The text of a size sequence.
pub open spec fn size_text(
    size: ScalarValue,
    font: Option<String>,
    decoration: Option<TextDecoration>,
    outline_size: Option<Decimal>,
) -> Seq<char> {
    tag_text(seq!['s'], scalar_text(size) + size_tail_text(font, decoration, outline_size))
}

/// The text of a position sequence: a comma stands for a missing `y` when `x` is missing
/// too or a `z` follows.
pub open spec fn position_text(x: Option<AxisValue>, y: Option<AxisValue>, z: Option<AxisValue>) -> Seq<char> {
    tag_text(
        seq!['p'],
        opt_axis_text(x) + (if y is Some {
            seq![','] + opt_axis_text(y)
        } else if x is None || z is Some {
            seq![',']
        } else {
            seq![]
        }) + (if z is Some {
            seq![','] + opt_axis_text(z)
        } else {
            seq![]
        }),
    )
}

/// The text that an element is written as.
pub open spec fn element_text(e: Element) -> Seq<char> {
    match e {
        Element::Text(t) => t@,
        Element::Color { code } => tag_text(seq!['#'], color_type_text(code)),
        Element::Size { size, font, decoration, outline_size } => size_text(
            size,
            font,
            decoration,
            outline_size,
        ),
        Element::Font { command } => tag_text(seq!['@'], font_command_text(command)),
        Element::Preset { name } => tag_text(seq!['$'], opt_string_text(name)),
        Element::Speed { speed } => tag_text(seq!['r'], opt_decimal_text(speed)),
        Element::Wait { time } => tag_text(seq!['w'], time_text(time)),
        Element::Clear { time } => tag_text(seq!['c'], time_text(time)),
        Element::Position { x, y, z } => position_text(x, y, z),
        Element::PositionReset => seq!['<', 'p', '>'],
        Element::GlyphSpacing { value } => tag_text(seq!['g', 'w'], opt_decimal_text(value)),
        Element::LineSpacing { value } => tag_text(seq!['g', 'h'], opt_decimal_text(value)),
        Element::ScaleX { value } => tag_text(seq!['t', 'w'], opt_decimal_text(value)),
        Element::ScaleY { value } => tag_text(seq!['t', 'h'], opt_decimal_text(value)),
        Element::Rotate { value } => tag_text(seq!['t', 'r'], opt_axis_text(value)),
        Element::Ruby { base, ruby, scale, expand_line_height } => seq!['<', '/', '>'] + base@
            + seq!['<', '!'] + opt_decimal_text(scale) + (if expand_line_height {
            seq!['+']
        } else {
            seq![]
        }) + seq!['>'] + ruby@ + seq!['<', '/', '>'],
        Element::BlockEnd => seq!['<', '/', '>'],
        Element::Comment { text } => seq!['<', '/', '/'] + text@ + seq!['/', '/', '>'],
        Element::Script { code } => code_text(code),
    }
}

/// The texts of the elements, one after another.
pub open spec fn elements_text(es: Seq<Element>) -> Seq<char>
    decreases es.len(),
{
    if es.len() == 0 {
        seq![]
    } else {
        elements_text(es.drop_last()) + element_text(es.last())
    }
}


/// Appends a string.
fn write_str(out: &mut String, s: &String)
    ensures
        final(out)@ == old(out)@ + s@,
{
    out.append(s.as_str());
}

/// Appends two characters.
fn write2(out: &mut String, a: char, b: char)
    ensures
        final(out)@ == old(out)@ + seq![a, b],
{
    push_char(out, a);
    push_char(out, b);
    assert(out@ =~= old(out)@ + seq![a, b]);
}

/// Appends three characters.
fn write3(out: &mut String, a: char, b: char, c: char)
    ensures
        final(out)@ == old(out)@ + seq![a, b, c],
{
    push_char(out, a);
    push_char(out, b);
    push_char(out, c);
    assert(out@ =~= old(out)@ + seq![a, b, c]);
}

/// Appends a number.
fn write_decimal(out: &mut String, d: &Decimal)
    ensures
        final(out)@ == old(out)@ + d@,
{
    let t = d.to_text();
    write_str(out, &t);
}

/// Appends a number with its sign.
fn write_signed(out: &mut String, d: &Decimal)
    ensures
        final(out)@ == old(out)@ + signed_text(*d),
{
    if !d.is_negative() {
        push_char(out, '+');
    }
    let ghost mid = out@;
    write_decimal(out, d);
    assert(out@ =~= old(out)@ + signed_text(*d));
}

/// Appends an optional string.
fn write_opt_string(out: &mut String, s: &Option<String>)
    ensures
        final(out)@ == old(out)@ + opt_string_text(*s),
{
    match s {
        Some(t) => write_str(out, t),
        None => assert(out@ =~= old(out)@ + opt_string_text(*s)),
    }
}

/// Appends an optional number.
fn write_opt_decimal(out: &mut String, v: &Option<Decimal>)
    ensures
        final(out)@ == old(out)@ + opt_decimal_text(*v),
{
    match v {
        Some(d) => write_decimal(out, d),
        None => assert(out@ =~= old(out)@ + opt_decimal_text(*v)),
    }
}

/// Appends style letters.
fn write_text_decoration(out: &mut String, d: &TextDecoration)
    ensures
        final(out)@ == old(out)@ + text_decoration_text(*d),
{
    if d.bold {
        push_char(out, 'B');
    }
    let ghost a = out@;
    if d.italic {
        push_char(out, 'I');
    }
    let ghost b = out@;
    if d.strikethrough {
        push_char(out, 'S');
    }
    assert(out@ =~= old(out)@ + text_decoration_text(*d));
}

/// The digit that names a decoration kind.
fn decoration_kind_digit(k: FontDecorationKind) -> (c: char)
    ensures
        c == decoration_kind_char(k),
{
    match k {
        FontDecorationKind::Standard => '0',
        FontDecorationKind::Shadow => '1',
        FontDecorationKind::ShadowLight => '2',
        FontDecorationKind::Outline => '3',
        FontDecorationKind::OutlineThin => '4',
        FontDecorationKind::OutlineBold => '5',
        FontDecorationKind::OutlineSquare => '6',
    }
}

/// Appends a font decoration.
fn write_font_decoration(out: &mut String, d: &FontDecoration)
    ensures
        final(out)@ == old(out)@ + font_decoration_text(*d),
{
    if let Some(k) = d.kind {
        push_char(out, decoration_kind_digit(k));
    }
    let ghost mid = out@;
    write_text_decoration(out, &d.style);
    assert(out@ =~= old(out)@ + font_decoration_text(*d));
}

/// Appends a font command.
fn write_font_command(out: &mut String, c: &FontCommand)
    ensures
        final(out)@ == old(out)@ + font_command_text(*c),
{
    match c {
        FontCommand::Select { name, decoration } => {
            write_opt_string(out, name);
            let ghost mid = out@;
            if let Some(d) = decoration {
                push_char(out, ',');
                write_font_decoration(out, d);
            }
            assert(out@ =~= old(out)@ + font_command_text(*c));
        },
        FontCommand::AddStyle(s) => {
            push_char(out, '+');
            write_text_decoration(out, s);
            assert(out@ =~= old(out)@ + font_command_text(*c));
        },
        FontCommand::RemoveStyle(s) => {
            push_char(out, '-');
            write_text_decoration(out, s);
            assert(out@ =~= old(out)@ + font_command_text(*c));
        },
    }
}

/// The lower-case hexadecimal digit of a value below 16.
fn hex_digit(n: u8) -> (c: char)
    requires
        n < 16,
    ensures
        c == hex_char(n as int),
{
    if n < 10 {
        (n + 48) as char
    } else {
        (n + 87) as char
    }
}

/// Appends a byte as two lower-case hexadecimal digits.
fn write_hex(out: &mut String, b: u8)
    ensures
        final(out)@ == old(out)@ + hex_text(b),
{
    write2(out, hex_digit(b / 16), hex_digit(b % 16));
}

/// Appends a colour.
fn write_color_value(out: &mut String, v: &ColorValue)
    ensures
        final(out)@ == old(out)@ + color_value_text(*v),
{
    match v {
        ColorValue::Rgb(r, g, b) => {
            write_hex(out, *r);
            write_hex(out, *g);
            write_hex(out, *b);
            assert(out@ =~= old(out)@ + color_value_text(*v));
        },
        ColorValue::Preset(name) => write_str(out, name),
    }
}

/// Appends a colour code.
fn write_color_type(out: &mut String, c: &ColorType)
    ensures
        final(out)@ == old(out)@ + color_type_text(*c),
{
    match c {
        ColorType::Default => assert(out@ =~= old(out)@ + color_type_text(*c)),
        ColorType::Single(v) => write_color_value(out, v),
        ColorType::Pair(a, b) => {
            write_color_value(out, a);
            push_char(out, ',');
            write_color_value(out, b);
            assert(out@ =~= old(out)@ + color_type_text(*c));
        },
    }
}

/// Appends a size value.
fn write_scalar(out: &mut String, v: &ScalarValue)
    ensures
        final(out)@ == old(out)@ + scalar_text(*v),
{
    match v {
        ScalarValue::Default => assert(out@ =~= old(out)@ + scalar_text(*v)),
        ScalarValue::Absolute(d) => write_decimal(out, d),
        ScalarValue::RelativeAdd(d) => write_signed(out, d),
        ScalarValue::RelativeMul(d) => {
            push_char(out, '*');
            write_decimal(out, d);
            assert(out@ =~= old(out)@ + scalar_text(*v));
        },
    }
}

/// Appends a time value.
fn write_time(out: &mut String, v: &TimeValue)
    ensures
        final(out)@ == old(out)@ + time_text(*v),
{
    match v {
        TimeValue::Absolute(d) => {
            if d.is_zero() {
                assert(out@ =~= old(out)@ + time_text(*v));
            } else {
                write_decimal(out, d);
            }
        },
        TimeValue::PerChar(d) => {
            push_char(out, '*');
            write_decimal(out, d);
            assert(out@ =~= old(out)@ + time_text(*v));
        },
    }
}

/// Appends a coordinate.
fn write_axis(out: &mut String, v: &AxisValue)
    ensures
        final(out)@ == old(out)@ + axis_text(*v),
{
    match v {
        AxisValue::Absolute(d) => write_decimal(out, d),
        AxisValue::Relative(d) => write_signed(out, d),
    }
}

/// Appends an optional coordinate.
fn write_opt_axis(out: &mut String, v: &Option<AxisValue>)
    ensures
        final(out)@ == old(out)@ + opt_axis_text(*v),
{
    match v {
        Some(a) => write_axis(out, a),
        None => assert(out@ =~= old(out)@ + opt_axis_text(*v)),
    }
}


/// Appends the font part of a size sequence.
fn write_size_font(out: &mut String, font: &Option<String>, with_font: bool)
    ensures
        final(out)@ == old(out)@ + (if with_font { seq![','] + opt_string_text(*font) } else { seq![] }),
{
    if with_font {
        push_char(out, ',');
        write_opt_string(out, font);
        assert(out@ =~= old(out)@ + (seq![','] + opt_string_text(*font)));
    } else {
        assert(out@ =~= old(out)@ + Seq::<char>::empty());
    }
}

/// Appends the decoration part of a size sequence.
fn write_size_decoration(out: &mut String, decoration: &Option<TextDecoration>, with_decoration: bool)
    ensures
        final(out)@ == old(out)@ + (if with_decoration {
            seq![','] + match *decoration {
                Some(d) => text_decoration_text(d),
                None => seq![],
            }
        } else {
            seq![]
        }),
{
    if with_decoration {
        push_char(out, ',');
        match decoration {
            Some(d) => write_text_decoration(out, d),
            None => {},
        }
    }
    assert(out@ =~= old(out)@ + (if with_decoration {
        seq![','] + match *decoration {
            Some(d) => text_decoration_text(d),
            None => seq![],
        }
    } else {
        seq![]
    }));
}

/// Appends the outline part of a size sequence.
fn write_size_outline(out: &mut String, outline_size: &Option<Decimal>)
    ensures
        final(out)@ == old(out)@ + match *outline_size {
            Some(o) => seq![','] + o@,
            None => seq![],
        },
{
    if let Some(o) = outline_size {
        push_char(out, ',');
        write_decimal(out, o);
    }
    assert(out@ =~= old(out)@ + match *outline_size {
        Some(o) => seq![','] + o@,
        None => seq![],
    });
}

/// Appends a size sequence.
fn write_size(
    out: &mut String,
    size: &ScalarValue,
    font: &Option<String>,
    decoration: &Option<TextDecoration>,
    outline_size: &Option<Decimal>,
)
    ensures
        final(out)@ == old(out)@ + size_text(*size, *font, *decoration, *outline_size),
{
    write2(out, '<', 's');
    write_scalar(out, size);
    let with_decoration = decoration.is_some() || outline_size.is_some();
    let with_font = font.is_some() || with_decoration;
    write_size_font(out, font, with_font);
    write_size_decoration(out, decoration, with_decoration);
    write_size_outline(out, outline_size);
    push_char(out, '>');
    assert(out@ =~= old(out)@ + size_text(*size, *font, *decoration, *outline_size));
}

/// Appends a position sequence.
fn write_position(out: &mut String, x: &Option<AxisValue>, y: &Option<AxisValue>, z: &Option<AxisValue>)
    ensures
        final(out)@ == old(out)@ + position_text(*x, *y, *z),
{
    write2(out, '<', 'p');
    write_opt_axis(out, x);
    let ghost a = out@;
    if y.is_some() {
        push_char(out, ',');
        write_opt_axis(out, y);
    } else if x.is_none() || z.is_some() {
        push_char(out, ',');
    }
    let ghost b = out@;
    if z.is_some() {
        push_char(out, ',');
        write_opt_axis(out, z);
    }
    push_char(out, '>');
    assert(out@ =~= old(out)@ + position_text(*x, *y, *z));
}

/// Appends a tag with a value.
fn write_tag_decimal(out: &mut String, a: char, b: char, v: &Option<Decimal>)
    ensures
        final(out)@ == old(out)@ + tag_text(seq![a, b], opt_decimal_text(*v)),
{
    write3(out, '<', a, b);
    write_opt_decimal(out, v);
    push_char(out, '>');
    assert(out@ =~= old(out)@ + tag_text(seq![a, b], opt_decimal_text(*v)));
}

/// Appends a ruby sequence.
fn write_ruby(out: &mut String, base: &String, ruby: &String, scale: &Option<Decimal>, expand: bool)
    ensures
        final(out)@ == old(out)@ + element_text(
            Element::Ruby { base: *base, ruby: *ruby, scale: *scale, expand_line_height: expand },
        ),
{
    write3(out, '<', '/', '>');
    write_str(out, base);
    write2(out, '<', '!');
    write_opt_decimal(out, scale);
    let ghost a = out@;
    if expand {
        push_char(out, '+');
    }
    let ghost b = out@;
    push_char(out, '>');
    write_str(out, ruby);
    write3(out, '<', '/', '>');
    assert(out@ =~= old(out)@ + element_text(
        Element::Ruby { base: *base, ruby: *ruby, scale: *scale, expand_line_height: expand },
    ));
}

/// Appends a script sequence.
fn write_code(out: &mut String, c: &Code)
    ensures
        final(out)@ == old(out)@ + code_text(*c),
{
    match c.kind {
        CodeType::Full => write2(out, '<', '?'),
        CodeType::Value => write3(out, '<', '?', '='),
    }
    write_str(out, &c.value);
    write2(out, '?', '>');
    assert(out@ =~= old(out)@ + code_text(*c));
}

/// Appends the text of an element.
fn write_element(out: &mut String, e: &Element)
    ensures
        final(out)@ == old(out)@ + element_text(*e),
{
    match e {
        Element::Text(t) => write_str(out, t),
        Element::Color { code } => {
            write2(out, '<', '#');
            write_color_type(out, code);
            push_char(out, '>');
        },
        Element::Size { size, font, decoration, outline_size } => write_size(
            out,
            size,
            font,
            decoration,
            outline_size,
        ),
        Element::Font { command } => {
            write2(out, '<', '@');
            write_font_command(out, command);
            push_char(out, '>');
        },
        Element::Preset { name } => {
            write2(out, '<', '$');
            write_opt_string(out, name);
            push_char(out, '>');
        },
        Element::Speed { speed } => {
            write2(out, '<', 'r');
            write_opt_decimal(out, speed);
            push_char(out, '>');
        },
        Element::Wait { time } => {
            write2(out, '<', 'w');
            write_time(out, time);
            push_char(out, '>');
        },
        Element::Clear { time } => {
            write2(out, '<', 'c');
            write_time(out, time);
            push_char(out, '>');
        },
        Element::Position { x, y, z } => write_position(out, x, y, z),
        Element::PositionReset => write3(out, '<', 'p', '>'),
        Element::GlyphSpacing { value } => write_tag_decimal(out, 'g', 'w', value),
        Element::LineSpacing { value } => write_tag_decimal(out, 'g', 'h', value),
        Element::ScaleX { value } => write_tag_decimal(out, 't', 'w', value),
        Element::ScaleY { value } => write_tag_decimal(out, 't', 'h', value),
        Element::Rotate { value } => {
            write3(out, '<', 't', 'r');
            write_opt_axis(out, value);
            push_char(out, '>');
        },
        Element::Ruby { base, ruby, scale, expand_line_height } => write_ruby(
            out,
            base,
            ruby,
            scale,
            *expand_line_height,
        ),
        Element::BlockEnd => write3(out, '<', '/', '>'),
        Element::Comment { text } => {
            write3(out, '<', '/', '/');
            write_str(out, text);
            write3(out, '/', '/', '>');
        },
        Element::Script { code } => write_code(out, code),
    }
    assert(out@ =~= old(out)@ + element_text(*e));
}

impl Element {
    /// The element written as text, as it stands in a text.
    pub fn to_string(&self) -> (s: String)
        ensures
            s@ == element_text(*self),
    {
        let mut out = String::new();
        write_element(&mut out, self);
        assert(out@ =~= element_text(*self));
        out
    }
}

impl Elements {
    /// The elements written as text, one after another.
    pub fn to_string(&self) -> (s: String)
        ensures
            s@ == elements_text(self.0@),
    {
        let mut out = String::new();
        let mut j: usize = 0;
        assert(self.0@.take(0) =~= Seq::<Element>::empty());
        while j < self.0.len()
            invariant
                j <= self.0.len(),
                out@ == elements_text(self.0@.take(j as int)),
            decreases self.0.len() - j,
        {
            write_element(&mut out, &self.0[j]);
            assert(self.0@.take(j + 1).drop_last() =~= self.0@.take(j as int));
            j = j + 1;
        }
        assert(self.0@.take(self.0.len() as int) =~= self.0@);
        out
    }
}

impl FontCommand {
    /// The command as it stands in a font sequence.
    pub fn to_string(&self) -> (s: String)
        ensures
            s@ == font_command_text(*self),
    {
        let mut out = String::new();
        write_font_command(&mut out, self);
        assert(out@ =~= font_command_text(*self));
        out
    }
}

impl FontDecoration {
    /// The decoration as it stands in a font sequence.
    pub fn to_string(&self) -> (s: String)
        ensures
            s@ == font_decoration_text(*self),
    {
        let mut out = String::new();
        write_font_decoration(&mut out, self);
        assert(out@ =~= font_decoration_text(*self));
        out
    }
}

impl FontDecorationKind {
    /// The digit of the kind, as a string.
    pub fn to_string(&self) -> (s: String)
        ensures
            s@ == seq![decoration_kind_char(*self)],
    {
        let mut out = String::new();
        push_char(&mut out, decoration_kind_digit(*self));
        assert(out@ =~= seq![decoration_kind_char(*self)]);
        out
    }
}

impl TextDecoration {
    /// The style letters.
    pub fn to_string(&self) -> (s: String)
        ensures
            s@ == text_decoration_text(*self),
    {
        let mut out = String::new();
        write_text_decoration(&mut out, self);
        assert(out@ =~= text_decoration_text(*self));
        out
    }
}

impl ColorType {
    /// The colour code as it stands in a colour sequence.
    pub fn to_string(&self) -> (s: String)
        ensures
            s@ == color_type_text(*self),
    {
        let mut out = String::new();
        write_color_type(&mut out, self);
        assert(out@ =~= color_type_text(*self));
        out
    }
}

impl ColorValue {
    /// The colour as six lower-case hexadecimal digits, or the preset name.
    pub fn to_string(&self) -> (s: String)
        ensures
            s@ == color_value_text(*self),
    {
        let mut out = String::new();
        write_color_value(&mut out, self);
        assert(out@ =~= color_value_text(*self));
        out
    }
}

impl Code {
    /// The whole script sequence.
    pub fn to_string(&self) -> (s: String)
        ensures
            s@ == code_text(*self),
    {
        let mut out = String::new();
        write_code(&mut out, self);
        assert(out@ =~= code_text(*self));
        out
    }
}

impl ScalarValue {
    /// The size as it stands in a size sequence.
    pub fn to_string(&self) -> (s: String)
        ensures
            s@ == scalar_text(*self),
    {
        let mut out = String::new();
        write_scalar(&mut out, self);
        assert(out@ =~= scalar_text(*self));
        out
    }
}

impl TimeValue {
    /// The time as it stands in a wait or clear sequence.
    pub fn to_string(&self) -> (s: String)
        ensures
            s@ == time_text(*self),
    {
        let mut out = String::new();
        write_time(&mut out, self);
        assert(out@ =~= time_text(*self));
        out
    }
}

impl AxisValue {
    /// The coordinate as it stands in a position sequence.
    pub fn to_string(&self) -> (s: String)
        ensures
            s@ == axis_text(*self),
    {
        let mut out = String::new();
        write_axis(&mut out, self);
        assert(out@ =~= axis_text(*self));
        out
    }
}

impl ParseElementError {
    /// The message of the error.
    pub fn to_string(&self) -> (s: String)
        ensures
            s@ == "failed to parse Element from string"@,
    {
        "failed to parse Element from string".to_owned()
    }
}

} // verus!
