//! Writing an element and reading the text back gives the element again.
use vstd::prelude::*;

use crate::control::{self, Piece};
use crate::decimal::{self, Decimal};
use crate::display;
use crate::element::{self, AxisValue, Element, TimeValue};
use crate::laws;
use crate::reading;
use crate::scan::{self, CharClass};
use crate::tags;

verus! {

/// A number as the library keeps it: its canonical spelling.
pub open spec fn valid_number(d: Decimal) -> bool {
    decimal::is_canonical(d@)
}

/// A number that is not below zero, where the grammar takes no sign.
pub open spec fn unsigned_number(d: Decimal) -> bool {
    valid_number(d) && !(d@.len() > 0 && d@[0] == '-')
}

/// An optional number that is not below zero.
pub open spec fn unsigned_opt(v: Option<Decimal>) -> bool {
    match v {
        Some(d) => unsigned_number(d),
        None => true,
    }
}

/// A time that a sequence can hold.
pub open spec fn writable_time(v: TimeValue) -> bool {
    match v {
        TimeValue::Absolute(d) => unsigned_number(d),
        TimeValue::PerChar(d) => unsigned_number(d),
    }
}

/// A coordinate that reads back as itself: an absolute one is not below zero (a minus
/// sign would make it relative).
pub open spec fn writable_axis(v: AxisValue) -> bool {
    match v {
        AxisValue::Absolute(d) => unsigned_number(d),
        AxisValue::Relative(d) => valid_number(d),
    }
}

/// An optional coordinate that reads back as itself.
pub open spec fn writable_opt_axis(v: Option<AxisValue>) -> bool {
    match v {
        Some(a) => writable_axis(a),
        None => true,
    }
}

/// The elements whose text reads back as themselves: plain text that is not empty and in
/// which no control sequence starts, and control elements whose parts the grammar of their
/// sequence takes back unchanged (each kind's condition says which).
pub open spec fn writable(e: Element) -> bool {
    match e {
        Element::Text(t) => t@.len() > 0 && laws::starts_no_sequence(t@),
        Element::Color { code } => writable_color(code),
        Element::Speed { speed } => unsigned_opt(speed),
        Element::Wait { time } => writable_time(time),
        Element::Clear { time } => writable_time(time),
        Element::PositionReset => true,
        Element::GlyphSpacing { value } => unsigned_opt(value),
        Element::LineSpacing { value } => unsigned_opt(value),
        Element::ScaleX { value } => unsigned_opt(value),
        Element::ScaleY { value } => unsigned_opt(value),
        Element::Rotate { value } => writable_opt_axis(value),
        Element::BlockEnd => true,
        Element::Position { x, y, z } => writable_opt_axis(x) && writable_opt_axis(y)
            && writable_opt_axis(z),
        Element::Preset { name } => match name {
            Some(n) => n@.len() > 0 && lacks(n@, '>'),
            None => true,
        },
        Element::Comment { text } => !holds_comment_end(text@),
        Element::Script { code } => writable_code(code),
        Element::Font { command } => writable_font_command(command),
        Element::Size { size, font, decoration, outline_size } => writable_size(
            size,
            font,
            decoration,
            outline_size,
        ),
        Element::Ruby { base, ruby, scale, .. } => !holds_ruby_mark(base@) && !holds_block_end(
            ruby@,
        ) && unsigned_opt(scale),
    }
}

/// The text of a control element is one control sequence, which stands for the element
/// and can be read.
pub open spec fn sequence_reads_back(e: Element) -> bool {
    let t = display::element_text(e);
    &&& tags::tag_len(t, 0) == t.len() > 0
    &&& element::control_element_is(t[1], t, e)
    &&& !reading::sequence_unreadable(t[1], t)
}

/// The text is one piece, it stands for `e`, and it can be read.
pub open spec fn parses_back(e: Element) -> bool {
    let t = display::element_text(e);
    &&& control::pieces(t).len() == 1
    &&& control::piece_element_is(control::pieces(t)[0], e)
    &&& control::pieces_readable(t)
}

/// Every character of a numeral is a digit or a point.
proof fn lemma_numeral_chars(t: Seq<char>)
    requires
        decimal::is_numeral(t),
    ensures
        scan::all_in(t, CharClass::Numeral),
        t.len() > 0,
        t[0] != '*' && t[0] != '+' && t[0] != '-',
{
    let k = scan::run_end(t, 0, CharClass::Digit);
    scan::lemma_run_end(t, 0, CharClass::Digit);
    if k < t.len() {
        scan::lemma_run_end(t, k + 1, CharClass::Digit);
    }
    assert forall|j: int| 0 <= j < t.len() implies scan::in_class(CharClass::Numeral, #[trigger] t[j]) by {
        if j < k {
            assert(scan::in_class(CharClass::Digit, t[j]));
        } else if j > k {
            assert(scan::in_class(CharClass::Digit, t[j]));
        }
    }
}

/// A number that is not below zero is written as a numeral.
proof fn lemma_unsigned_text(d: Decimal)
    requires
        unsigned_number(d),
    ensures
        decimal::is_numeral(d@),
        scan::all_in(d@, CharClass::Numeral),
        d@.len() > 0,
        d@[0] != '*' && !decimal::has_sign(d@),
        element::decimal_is(d@, d),
        decimal::is_decimal_literal(d@),
{
    decimal::lemma_canonical_is_numeral(d@);
    lemma_numeral_chars(d@);
}

/// A signed number is written as a signed numeral that reads back as the number.
proof fn lemma_signed_text(d: Decimal)
    requires
        valid_number(d),
    ensures
        decimal::is_signed_numeral(display::signed_text(d)),
        decimal::has_sign(display::signed_text(d)),
        scan::all_in(display::signed_text(d), CharClass::Signed),
        element::decimal_is(display::signed_text(d), d),
        decimal::is_decimal_literal(display::signed_text(d)),
{
    let t = display::signed_text(d);
    decimal::lemma_canonical_is_numeral(d@);
    let u = decimal::unsigned_part(d@);
    lemma_numeral_chars(u);
    assert(t.skip(1) =~= u);
    reading::lemma_numeral_is_literal(u);
    assert forall|j: int| 0 <= j < t.len() implies scan::in_class(CharClass::Signed, #[trigger] t[j]) by {
        if j > 0 {
            assert(t[j] == u[j - 1]);
        }
    }
}

/// A tag whose value is a run of one class, closed by `>`.
proof fn lemma_tag_run(letters: Seq<char>, value: Seq<char>, cls: CharClass)
    requires
        scan::all_in(value, cls),
        !scan::in_class(cls, '>'),
    ensures
        ({
            let t = display::tag_text(letters, value);
            let from = letters.len() + 1int;
            &&& scan::run_end(t, from, cls) == t.len() - 1
            &&& tags::run_body(t, from, cls) == value
            &&& t.subrange(from, t.len() - 1) == value
            &&& t[t.len() - 1] == '>'
            &&& t[0] == '<'
            &&& t.len() == letters.len() + value.len() + 2
        }),
{
    let t = display::tag_text(letters, value);
    let from = letters.len() + 1int;
    assert forall|m: int| from <= m < t.len() - 1 implies scan::in_class(cls, #[trigger] t[m]) by {
        assert(t[m] == value[m - from]);
    }
    scan::lemma_run_end_at(t, from, t.len() - 1, cls);
    assert(t.subrange(from, t.len() - 1) =~= value);
}

/// A time value is written as what the grammar of wait and clear sequences takes, and
/// reads back as itself.
proof fn lemma_time_text(v: TimeValue)
    requires
        writable_time(v),
    ensures
        scan::all_in(display::time_text(v), CharClass::Time),
        tags::opt_wait(display::time_text(v)),
        tags::opt_clear(display::time_text(v)),
        element::time_is(display::time_text(v), v),
        element::time_defined(display::time_text(v)),
{
    let t = display::time_text(v);
    match v {
        TimeValue::Absolute(d) => {
            lemma_unsigned_text(d);
            if d@ == seq!['0'] {
                assert(t.len() == 0);
            }
        },
        TimeValue::PerChar(d) => {
            lemma_unsigned_text(d);
            assert(t.skip(1) =~= d@);
            assert forall|j: int| 0 <= j < t.len() implies scan::in_class(CharClass::Time, #[trigger] t[j]) by {
                if j > 0 {
                    assert(t[j] == d@[j - 1]);
                }
            }
            assert forall|j: int| 0 <= j < t.skip(1).len() implies scan::in_class(CharClass::Numeral, #[trigger] t.skip(1)[j]) by {
                assert(t.skip(1)[j] == d@[j]);
            }
        },
    }
}

/// An optional number that is not below zero is written as an optional numeral.
proof fn lemma_opt_text(v: Option<Decimal>)
    requires
        unsigned_opt(v),
    ensures
        scan::all_in(display::opt_decimal_text(v), CharClass::Numeral),
        tags::opt_numeral(display::opt_decimal_text(v)),
        element::opt_decimal_is(display::opt_decimal_text(v), v),
        element::opt_decimal_is_defined(display::opt_decimal_text(v)),
{
    if let Some(d) = v {
        lemma_unsigned_text(d);
    }
}

/// A coordinate that reads back as itself is written as an optional signed numeral.
proof fn lemma_opt_axis_text(v: Option<AxisValue>)
    requires
        writable_opt_axis(v),
    ensures
        scan::all_in(display::opt_axis_text(v), CharClass::Signed),
        tags::opt_signed(display::opt_axis_text(v)),
        element::opt_axis_is(display::opt_axis_text(v), v),
        display::opt_axis_text(v).len() == 0 || element::axis_defined(display::opt_axis_text(v)),
{
    match v {
        Some(AxisValue::Absolute(d)) => {
            lemma_unsigned_text(d);
            assert forall|j: int| 0 <= j < d@.len() implies scan::in_class(CharClass::Signed, #[trigger] d@[j]) by {
                assert(scan::in_class(CharClass::Numeral, d@[j]));
            }
        },
        Some(AxisValue::Relative(d)) => {
            lemma_signed_text(d);
        },
        None => {},
    }
}

/// A text that is one control sequence which can be read parses back to what it stands
/// for.
proof fn lemma_sequence_parses_back(e: Element)
    requires
        sequence_reads_back(e),
    ensures
        parses_back(e),
{
    let t = display::element_text(e);
    laws::lemma_single_sequence(t);
    assert(control::pieces(t)[0] == Piece::Control(t[1], t));
}

/// A text without a comma is one part.
proof fn lemma_split_whole(a: Seq<char>)
    requires
        scan::all_in(a, CharClass::Signed),
    ensures
        tags::split_on(a, ',') == seq![a],
{
    scan::lemma_run_end_at(a, 0, a.len() as int, CharClass::Other(','));
    assert(a.take(a.len() as int) =~= a);
}

/// A text without a comma, a comma, and more: the first part, then the parts of the rest.
proof fn lemma_split_first(a: Seq<char>, rest: Seq<char>)
    requires
        scan::all_in(a, CharClass::Signed),
    ensures
        tags::split_on(a + seq![','] + rest, ',') == seq![a] + tags::split_on(rest, ','),
{
    let t = a + seq![','] + rest;
    assert forall|m: int| 0 <= m < a.len() implies scan::in_class(CharClass::Other(','), #[trigger] t[m]) by {
        assert(t[m] == a[m]);
        assert(scan::in_class(CharClass::Signed, a[m]));
    }
    scan::lemma_run_end_at(t, 0, a.len() as int, CharClass::Other(','));
    assert(t.take(a.len() as int) =~= a);
    assert(t.skip(a.len() + 1int) =~= rest);
}

/// The characters of a signed coordinate are no white space, so trimming keeps it.
proof fn lemma_trim_signed(a: Seq<char>)
    requires
        scan::all_in(a, CharClass::Signed),
    ensures
        element::trim(a) == a,
{
    if a.len() > 0 {
        assert(scan::in_class(CharClass::Signed, a[0]));
        assert(scan::in_class(CharClass::Signed, a[a.len() - 1]));
    }
    reading::lemma_trim_unchanged(a);
}

/// The parts of a position text, as written.
spec fn position_parts(x: Option<AxisValue>, y: Option<AxisValue>, z: Option<AxisValue>) -> Seq<Seq<char>> {
    let bx = display::opt_axis_text(x);
    let by = display::opt_axis_text(y);
    let bz = display::opt_axis_text(z);
    if z is Some {
        seq![bx, by, bz]
    } else if y is Some || x is None {
        seq![bx, by]
    } else {
        seq![bx]
    }
}

/// The body of a position text, as written.
spec fn position_body_text(x: Option<AxisValue>, y: Option<AxisValue>, z: Option<AxisValue>) -> Seq<char> {
    let bx = display::opt_axis_text(x);
    let by = display::opt_axis_text(y);
    let bz = display::opt_axis_text(z);
    if z is Some {
        bx + seq![','] + by + seq![','] + bz
    } else if y is Some || x is None {
        bx + seq![','] + by
    } else {
        bx
    }
}

/// The characters of a signed coordinate are position characters.
proof fn lemma_signed_position(a: Seq<char>)
    requires
        scan::all_in(a, CharClass::Signed),
    ensures
        scan::all_in(a, CharClass::Position),
{
    assert forall|m: int| 0 <= m < a.len() implies scan::in_class(CharClass::Position, #[trigger] a[m]) by {
        assert(scan::in_class(CharClass::Signed, a[m]));
    }
}

/// Position characters joined by a comma are position characters.
proof fn lemma_position_join(a: Seq<char>, b: Seq<char>)
    requires
        scan::all_in(a, CharClass::Position),
        scan::all_in(b, CharClass::Position),
    ensures
        scan::all_in(a + seq![','] + b, CharClass::Position),
{
    let t = a + seq![','] + b;
    assert forall|m: int| 0 <= m < t.len() implies scan::in_class(CharClass::Position, #[trigger] t[m]) by {
        if m < a.len() {
            assert(t[m] == a[m]);
        } else if m > a.len() {
            assert(t[m] == b[m - a.len() - 1]);
        }
    }
}

/// The body of a position text is made of position characters, and its parts are the
/// coordinates as written.
proof fn lemma_position_body(x: Option<AxisValue>, y: Option<AxisValue>, z: Option<AxisValue>)
    requires
        writable_opt_axis(x),
        writable_opt_axis(y),
        writable_opt_axis(z),
    ensures
        scan::all_in(position_body_text(x, y, z), CharClass::Position),
        tags::split_on(position_body_text(x, y, z), ',') == position_parts(x, y, z),
        position_body_text(x, y, z).len() > 0,
{
    let bx = display::opt_axis_text(x);
    let by = display::opt_axis_text(y);
    let bz = display::opt_axis_text(z);
    lemma_opt_axis_text(x);
    lemma_opt_axis_text(y);
    lemma_opt_axis_text(z);
    lemma_signed_position(bx);
    lemma_signed_position(by);
    lemma_signed_position(bz);
    let body = position_body_text(x, y, z);
    if z is Some {
        lemma_position_join(by, bz);
        lemma_position_join(bx, by + seq![','] + bz);
        lemma_split_whole(bz);
        lemma_split_first(by, bz);
        lemma_split_first(bx, by + seq![','] + bz);
        assert(body =~= bx + seq![','] + (by + seq![','] + bz));
        assert(tags::split_on(body, ',') =~= seq![bx, by, bz]);
    } else if y is Some || x is None {
        lemma_position_join(bx, by);
        lemma_split_whole(by);
        lemma_split_first(bx, by);
        assert(tags::split_on(body, ',') =~= seq![bx, by]);
    } else {
        lemma_split_whole(bx);
    }
}

/// A position body whose parts are the written coordinates stands for the element.
proof fn lemma_position_relation(x: Option<AxisValue>, y: Option<AxisValue>, z: Option<AxisValue>, body: Seq<char>)
    requires
        writable_opt_axis(x),
        writable_opt_axis(y),
        writable_opt_axis(z),
        tags::split_on(body, ',') == position_parts(x, y, z),
        body.len() > 0,
    ensures
        element::position_element_is(body, Element::Position { x, y, z }),
        element::position_defined(body),
        tags::position_body(body),
{
    let bx = display::opt_axis_text(x);
    let by = display::opt_axis_text(y);
    let bz = display::opt_axis_text(z);
    lemma_opt_axis_text(x);
    lemma_opt_axis_text(y);
    lemma_opt_axis_text(z);
    lemma_trim_signed(bx);
    lemma_trim_signed(by);
    lemma_trim_signed(bz);
    let parts = position_parts(x, y, z);
    assert forall|j: int| 0 <= j < parts.len() implies tags::opt_signed(#[trigger] parts[j]) by {
        if j == 1 {
            assert(parts[1] == by);
        } else if j == 2 {
            assert(parts[2] == bz);
        }
    }
}

/// A position element is written as a position sequence that reads back as it.
proof fn lemma_position_reads_back(x: Option<AxisValue>, y: Option<AxisValue>, z: Option<AxisValue>)
    requires
        writable_opt_axis(x),
        writable_opt_axis(y),
        writable_opt_axis(z),
    ensures
        sequence_reads_back(Element::Position { x, y, z }),
{
    let e = Element::Position { x, y, z };
    let body = position_body_text(x, y, z);
    assert(display::element_text(e) =~= display::tag_text(seq!['p'], body));
    lemma_position_body(x, y, z);
    lemma_position_relation(x, y, z, body);
    lemma_tag_run(seq!['p'], body, CharClass::Position);
    let t = display::tag_text(seq!['p'], body);
    assert(t[1] == 'p');
    assert(tags::position_len(t, 0) == t.len());
    assert(tags::tag_len(t, 0) == t.len());
    assert(element::control_element_is('p', t, e));
    assert(!reading::sequence_unreadable('p', t));
}

/// A text that holds none of the character `c`.
pub open spec fn lacks(t: Seq<char>, c: char) -> bool {
    forall|j: int| 0 <= j < t.len() ==> #[trigger] t[j] != c
}

/// A tag closed by the first `>` after its letters.
proof fn lemma_gt_closed(letters: Seq<char>, value: Seq<char>)
    requires
        lacks(value, '>'),
        letters.len() == 1,
        letters[0] != '>',
    ensures
        ({
            let t = display::tag_text(letters, value);
            &&& tags::gt_closed_len(t, 0, 2) == t.len()
            &&& t.subrange(2, t.len() - 1) == value
        }),
{
    lemma_tag_run(letters, value, CharClass::Other('>'));
}

/// Whether `?>` stands anywhere in `t`.
pub open spec fn holds_script_end(t: Seq<char>) -> bool {
    exists|j: int| tags::two_at(t, j, '?', '>')
}

/// Whether a script's code reads back: it holds no `?>` (the script would end there), and
/// plain code does not start with `=` (it would read as a value).
pub open spec fn writable_code(c: element::Code) -> bool {
    !holds_script_end(c.value@) && (c.kind == element::CodeType::Full ==> !(c.value@.len() > 0
        && c.value@[0] == '='))
}

/// `find_two` lands on the first place, when no earlier one holds the two.
proof fn lemma_find_two_at(t: Seq<char>, from: int, at: int, a: char, b: char)
    requires
        0 <= from <= at,
        tags::two_at(t, at, a, b),
        forall|j: int| from <= j < at ==> !tags::two_at(t, j, a, b),
    ensures
        tags::find_two(t, from, a, b) == at,
    decreases at - from,
{
    if from < at {
        lemma_find_two_at(t, from + 1, at, a, b);
    }
}

/// Whether a text holds `//>`.
pub open spec fn holds_comment_end(t: Seq<char>) -> bool {
    exists|j: int| tags::three_at(t, j, '/', '/', '>')
}

/// A comment is read up to the first `//>`: a text without one reads back whole.
proof fn lemma_comment_length(text: Seq<char>)
    requires
        !holds_comment_end(text),
    ensures
        ({
            let t = seq!['<', '/', '/'] + text + seq!['/', '/', '>'];
            &&& tags::comment_len(t, 0) == t.len()
            &&& element::is_comment_sequence(t)
        }),
{
    let t = seq!['<', '/', '/'] + text + seq!['/', '/', '>'];
    let n = t.len() as int;
    assert(tags::three_at(t, n - 3, '/', '/', '>'));
    assert forall|j: int| 3 <= j < n - 3 implies !tags::three_at(t, j, '/', '/', '>') by {
        if tags::three_at(t, j, '/', '/', '>') {
            if j + 3 <= n - 3 {
                assert(tags::three_at(text, j - 3, '/', '/', '>'));
            } else {
                assert(t[j + 2] == '>');
                assert(t[n - 2] == '/' && t[n - 3] == '/');
            }
        }
    }
    lemma_find_three_at(t, 3, n - 3, '/', '/', '>');
}

/// `find_three` lands on the first place, when no earlier one holds the three.
proof fn lemma_find_three_at(t: Seq<char>, from: int, at: int, a: char, b: char, c: char)
    requires
        0 <= from <= at,
        tags::three_at(t, at, a, b, c),
        forall|j: int| from <= j < at ==> !tags::three_at(t, j, a, b, c),
    ensures
        tags::find_three(t, from, a, b, c) == at,
    decreases at - from,
{
    if from < at {
        lemma_find_three_at(t, from + 1, at, a, b, c);
    }
}

/// Whether a font name reads back: no comma and no `>`, no white space at either end,
/// and no `+` or `-` at its start.
pub open spec fn writable_font_name(n: Seq<char>) -> bool {
    &&& n.len() > 0
    &&& lacks(n, ',') && lacks(n, '>')
    &&& !scan::is_whitespace(n[0]) && !scan::is_whitespace(n.last())
    &&& n[0] != '+' && n[0] != '-'
}

/// Whether a font command reads back.
pub open spec fn writable_font_command(c: element::FontCommand) -> bool {
    match c {
        element::FontCommand::Select { name, decoration } => (match name {
            Some(n) => writable_font_name(n@),
            None => true,
        }) && (match decoration {
            Some(d) => display::font_decoration_text(d).len() > 0,
            None => true,
        }),
        _ => true,
    }
}

/// The characters of a decoration text: digits and style letters.
proof fn lemma_font_decoration_chars(d: element::FontDecoration)
    ensures
        forall|j: int| 0 <= j < display::font_decoration_text(d).len() ==> {
            let c = #[trigger] display::font_decoration_text(d)[j];
            &&& c != '>' && c != ','
            &&& !scan::is_whitespace(c)
        },
{
}

/// A font element is written as a font sequence that reads back as it.
proof fn lemma_font_reads_back(c: element::FontCommand)
    requires
        writable_font_command(c),
    ensures
        sequence_reads_back(Element::Font { command: c }),
{
    let e = Element::Font { command: c };
    let t = display::element_text(e);
    let body = display::font_command_text(c);
    match c {
        element::FontCommand::Select { name, decoration } => {
            let nt = display::opt_string_text(name);
            let dt = match decoration {
                Some(d) => seq![','] + display::font_decoration_text(d),
                None => Seq::<char>::empty(),
            };
            assert(body == nt + dt);
            if let Some(d) = decoration {
                lemma_font_decoration_chars(d);
                laws::lemma_font_decoration_roundtrip(d);
                let ft = display::font_decoration_text(d);
                reading::lemma_trim_unchanged(ft);
                assert(body.skip(nt.len() + 1int) =~= ft);
            }
            assert forall|j: int| 0 <= j < body.len() implies #[trigger] body[j] != '>' by {
                if j < nt.len() {
                    assert(body[j] == nt[j]);
                } else if j > nt.len() {
                    assert(body[j] == dt[j - nt.len()]);
                }
            }
            assert forall|m: int| 0 <= m < nt.len() implies scan::in_class(CharClass::Other(','), #[trigger] body[m]) by {
                assert(body[m] == nt[m]);
            }
            scan::lemma_run_end_at(body, 0, nt.len() as int, CharClass::Other(','));
            assert(body.take(nt.len() as int) =~= nt);
            reading::lemma_trim_unchanged(nt);
            if nt.len() > 0 {
                assert(body[0] == nt[0]);
            }
        },
        element::FontCommand::AddStyle(d) => {
            laws::lemma_text_decoration_roundtrip(d);
            assert(body.skip(1) =~= display::text_decoration_text(d));
        },
        element::FontCommand::RemoveStyle(d) => {
            laws::lemma_text_decoration_roundtrip(d);
            assert(body.skip(1) =~= display::text_decoration_text(d));
        },
    }
    lemma_gt_closed(seq!['@'], body);
}

/// A number tag (`<r..>`, `<g..>`, `<t..>` but rotation) reads back.
proof fn lemma_number_tag_reads_back(e: Element, letters: Seq<char>, v: Option<Decimal>)
    requires
        unsigned_opt(v),
        display::element_text(e) == display::tag_text(letters, display::opt_decimal_text(v)),
        (letters == seq!['r'] && e == Element::Speed { speed: v })
            || (letters == seq!['g', 'w'] && e == Element::GlyphSpacing { value: v })
            || (letters == seq!['g', 'h'] && e == Element::LineSpacing { value: v })
            || (letters == seq!['t', 'w'] && e == Element::ScaleX { value: v })
            || (letters == seq!['t', 'h'] && e == Element::ScaleY { value: v }),
    ensures
        sequence_reads_back(e),
{
    lemma_opt_text(v);
    lemma_tag_run(letters, display::opt_decimal_text(v), CharClass::Numeral);
    let t = display::element_text(e);
    if letters.len() == 2 {
        assert(t.subrange(3, t.len() - 1) == display::opt_decimal_text(v));
    }
}

/// A wait or clear element reads back.
proof fn lemma_time_tag_reads_back(e: Element, letter: char, v: TimeValue)
    requires
        writable_time(v),
        (letter == 'w' && e == Element::Wait { time: v }) || (letter == 'c' && e
            == Element::Clear { time: v }),
    ensures
        sequence_reads_back(e),
{
    lemma_time_text(v);
    lemma_tag_run(seq![letter], display::time_text(v), CharClass::Time);
}

/// A rotation element reads back.
proof fn lemma_rotate_reads_back(v: Option<AxisValue>)
    requires
        writable_opt_axis(v),
    ensures
        sequence_reads_back(Element::Rotate { value: v }),
{
    lemma_opt_axis_text(v);
    lemma_tag_run(seq!['t', 'r'], display::opt_axis_text(v), CharClass::Signed);
}

/// A preset element reads back.
proof fn lemma_preset_reads_back(name: Option<String>)
    requires
        writable(Element::Preset { name }),
    ensures
        sequence_reads_back(Element::Preset { name }),
{
    lemma_gt_closed(seq!['$'], display::opt_string_text(name));
}

/// A comment element reads back.
proof fn lemma_comment_element_reads_back(text: String)
    requires
        !holds_comment_end(text@),
    ensures
        sequence_reads_back(Element::Comment { text }),
{
    let t = display::element_text(Element::Comment { text });
    lemma_comment_length(text@);
    assert(t.subrange(3, t.len() - 3) =~= text@);
}

/// A script element reads back.
proof fn lemma_script_reads_back(code: element::Code)
    requires
        writable_code(code),
    ensures
        sequence_reads_back(Element::Script { code }),
{
    let e = Element::Script { code };
    let t = display::element_text(e);
    let v = code.value@;
    let pre = match code.kind {
        element::CodeType::Full => Seq::<char>::empty(),
        element::CodeType::Value => seq!['='],
    };
    assert(t =~= seq!['<', '?'] + pre + v + seq!['?', '>']);
    let n = t.len() as int;
    let a = 2 + pre.len();
    assert forall|j: int| 2 <= j < n - 2 implies !tags::two_at(t, j, '?', '>') by {
        if tags::two_at(t, j, '?', '>') {
            if j < a {
                assert(t[j] == '=');
            } else if j + 1 < n - 2 {
                assert(t[j] == v[j - a] && t[j + 1] == v[j + 1 - a]);
                assert(tags::two_at(v, j - a, '?', '>'));
                assert(holds_script_end(v));
            } else {
                assert(t[j + 1] == '?');
            }
        }
    }
    lemma_find_two_at(t, 2, n - 2, '?', '>');
    assert(tags::tag_len(t, 0) == n);
    let code_body = t.subrange(2, n - 2);
    match code.kind {
        element::CodeType::Full => {
            assert(code_body =~= v);
        },
        element::CodeType::Value => {
            assert(code_body =~= seq!['='] + v);
            assert(code_body.skip(1) =~= v);
        },
    }
}

/// A block end reads back.
proof fn lemma_block_end_reads_back()
    ensures
        sequence_reads_back(Element::BlockEnd),
{
    let t = display::element_text(Element::BlockEnd);
    assert(tags::comment_len(t, 0) == 0);
    assert(tags::find_ruby_mark(t, 3) == 3);
    assert(t =~= seq!['<', '/', '>']);
}

/// A return to the base position reads back.
proof fn lemma_position_reset_reads_back()
    ensures
        sequence_reads_back(Element::PositionReset),
{
    let t = display::element_text(Element::PositionReset);
    assert(t.subrange(2, 2) =~= Seq::<char>::empty());
    scan::lemma_run_end_at(t, 2, 2, CharClass::Position);
    assert(tags::split_on(Seq::<char>::empty(), ',') =~= seq![Seq::<char>::empty()]);
}

/// A colour that reads back: a preset name holds no `>`, is not six hexadecimal digits
/// (which read as a colour), and holds no comma unless it is the second of a pair.
pub open spec fn writable_color_value(v: element::ColorValue, comma_ok: bool) -> bool {
    match v {
        element::ColorValue::Rgb(_, _, _) => true,
        element::ColorValue::Preset(n) => lacks(n@, '>') && (comma_ok || lacks(n@, ','))
            && !element::is_rgb_code(n@),
    }
}

/// A colour code that reads back; a single colour is not written as nothing (which reads
/// as the default).
pub open spec fn writable_color(c: element::ColorType) -> bool {
    match c {
        element::ColorType::Default => true,
        element::ColorType::Single(v) => writable_color_value(v, false)
            && display::color_value_text(v).len() > 0,
        element::ColorType::Pair(a, b) => writable_color_value(a, false) && writable_color_value(
            b,
            true,
        ),
    }
}

/// A colour is written as a text that reads back as it.
proof fn lemma_color_value_text(v: element::ColorValue, comma_ok: bool)
    requires
        writable_color_value(v, comma_ok),
    ensures
        element::color_value_is(display::color_value_text(v), v),
        lacks(display::color_value_text(v), '>'),
        comma_ok || lacks(display::color_value_text(v), ','),
{
    let t = display::color_value_text(v);
    if let element::ColorValue::Rgb(r, g, b) = v {
        laws::lemma_rgb_roundtrip(r, g, b);
        assert forall|j: int| 0 <= j < t.len() implies #[trigger] t[j] != '>' && t[j] != ',' by {
            assert(scan::is_hex_digit(t[j]));
        }
    }
}

/// A colour element reads back.
proof fn lemma_color_reads_back(code: element::ColorType)
    requires
        writable_color(code),
    ensures
        sequence_reads_back(Element::Color { code }),
{
    let e = Element::Color { code };
    let c = display::color_type_text(code);
    match code {
        element::ColorType::Default => {},
        element::ColorType::Single(v) => {
            lemma_color_value_text(v, false);
            lemma_no_comma(c);
        },
        element::ColorType::Pair(a, b) => {
            lemma_color_value_text(a, false);
            lemma_color_value_text(b, true);
            let at = display::color_value_text(a);
            let bt = display::color_value_text(b);
            lemma_first_comma(at, bt);
            assert forall|j: int| 0 <= j < c.len() implies #[trigger] c[j] != '>' by {
                if j < at.len() {
                    assert(c[j] == at[j]);
                } else if j > at.len() {
                    assert(c[j] == bt[j - at.len() - 1]);
                }
            }
        },
    }
    lemma_gt_closed(seq!['#'], c);
}

/// Whether a ruby separator (`<!`, an optional number, an optional `+`, `>`) stands
/// anywhere in `t`.
pub open spec fn holds_ruby_mark(t: Seq<char>) -> bool {
    exists|j: int| tags::ruby_mark_at(t, j)
}

/// Whether `</>` stands anywhere in `t`.
pub open spec fn holds_block_end(t: Seq<char>) -> bool {
    exists|j: int| tags::three_at(t, j, '<', '/', '>')
}

/// `find_ruby_mark` lands on the first separator.
proof fn lemma_find_ruby_mark_at(t: Seq<char>, from: int, at: int)
    requires
        0 <= from <= at,
        tags::ruby_mark_at(t, at),
        forall|j: int| from <= j < at ==> !tags::ruby_mark_at(t, j),
    ensures
        tags::find_ruby_mark(t, from) == at,
    decreases at - from,
{
    if from < at {
        lemma_find_ruby_mark_at(t, from + 1, at);
    }
}

/// The text of a ruby element, cut into its parts.
spec fn ruby_text(base: Seq<char>, scale: Seq<char>, plus: Seq<char>, ruby: Seq<char>) -> Seq<char> {
    seq!['<', '/', '>'] + base + seq!['<', '!'] + scale + plus + seq!['>'] + ruby + seq!['<', '/', '>']
}

/// No separator starts inside the base of a ruby text when the base holds none: one that
/// started there would have to end there too, since `<` follows the base.
proof fn lemma_ruby_base_clear(base: Seq<char>, scale: Seq<char>, plus: Seq<char>, ruby: Seq<char>, p: int)
    requires
        !holds_ruby_mark(base),
        3 <= p < 3 + base.len(),
    ensures
        !tags::ruby_mark_at(ruby_text(base, scale, plus, ruby), p),
{
    let t = ruby_text(base, scale, plus, ruby);
    let p0: int = 3int + base.len();
    let j = p - 3;
    if tags::ruby_mark_at(t, p) {
        assert(t[p0] == '<');
        assert(p + 1 < p0);
        let qq = scan::run_end(t, p + 2, CharClass::Numeral);
        scan::lemma_run_end(t, p + 2, CharClass::Numeral);
        assert(qq <= p0) by {
            if qq > p0 {
                assert(scan::in_class(CharClass::Numeral, t[p0]));
            }
        }
        assert(qq < p0);
        if t[qq] == '+' {
            assert(qq + 1 < p0);
        }
        scan::lemma_run_end_subrange(t, 3, p0, p + 2, CharClass::Numeral);
        let b2 = t.subrange(3, p0);
        assert(b2 =~= base);
        assert(base[j] == t[p] && base[j + 1] == t[p + 1]);
        assert(base[qq - 3] == t[qq]);
        if t[qq] == '+' {
            assert(base[qq - 2] == t[qq + 1]);
        }
        assert(base.subrange(j + 2, qq - 3) =~= t.subrange(p + 2, qq));
        assert(tags::ruby_mark_at(base, j));
        assert(holds_ruby_mark(base));
    }
}

/// A ruby element reads back.
#[verifier::rlimit(30)]
proof fn lemma_ruby_reads_back(base: String, ruby: String, scale: Option<Decimal>, expand_line_height: bool)
    requires
        !holds_ruby_mark(base@),
        !holds_block_end(ruby@),
        unsigned_opt(scale),
    ensures
        sequence_reads_back(Element::Ruby { base, ruby, scale, expand_line_height }),
{
    let e = Element::Ruby { base, ruby, scale, expand_line_height };
    let b = base@;
    let r = ruby@;
    let sc = display::opt_decimal_text(scale);
    let plus = if expand_line_height { seq!['+'] } else { Seq::<char>::empty() };
    let t = ruby_text(b, sc, plus, r);
    assert(display::element_text(e) =~= t);
    lemma_opt_text(scale);
    let n = t.len() as int;
    let p0: int = 3int + b.len();
    let q: int = p0 + 2 + sc.len();
    let me: int = q + 1 + plus.len();
    assert(n == me + r.len() + 3);
    // the separator after the base
    assert forall|m: int| p0 + 2 <= m < q implies scan::in_class(CharClass::Numeral, #[trigger] t[m]) by {
        assert(t[m] == sc[m - p0 - 2]);
    }
    assert(t[q] == if expand_line_height { '+' } else { '>' });
    scan::lemma_run_end_at(t, p0 + 2, q, CharClass::Numeral);
    assert(t.subrange(p0 + 2, q) =~= sc);
    if expand_line_height {
        assert(t[q + 1] == '>');
    }
    assert(tags::ruby_mark_at(t, p0));
    assert forall|p: int| 3 <= p < p0 implies !tags::ruby_mark_at(t, p) by {
        lemma_ruby_base_clear(b, sc, plus, r, p);
    }
    lemma_find_ruby_mark_at(t, 3, p0);
    assert(tags::ruby_mark_end(t, p0) == me);
    // the closing `</>`
    assert forall|j: int| me <= j < n - 3 implies !tags::three_at(t, j, '<', '/', '>') by {
        if tags::three_at(t, j, '<', '/', '>') {
            if j + 3 <= n - 3 {
                assert(t[j] == r[j - me] && t[j + 1] == r[j - me + 1] && t[j + 2] == r[j - me + 2]);
                assert(tags::three_at(r, j - me, '<', '/', '>'));
                assert(holds_block_end(r));
            } else {
                assert(t[n - 3] == '<' && t[n - 2] == '/');
            }
        }
    }
    assert(tags::three_at(t, n - 3, '<', '/', '>'));
    lemma_find_three_at(t, me, n - 3, '<', '/', '>');
    assert(tags::ruby_len(t, 0) == n);
    assert(!tags::three_at(t, 0, '<', '/', '/'));
    assert(tags::comment_len(t, 0) == 0);
    assert(tags::tag_len(t, 0) == n);
    assert(t.subrange(3, p0) =~= b);
    assert(t.subrange(me, n - 3) =~= r);
    assert(!element::is_comment_sequence(t));
    assert(!(t =~= seq!['<', '/', '>']));
    assert(element::ruby_element_is(t, e));
    assert(element::control_element_is('/', t, e));
}

/// A size that reads back as itself: an absolute size or a factor is not below zero.
pub open spec fn writable_scalar(v: element::ScalarValue) -> bool {
    match v {
        element::ScalarValue::Default => true,
        element::ScalarValue::Absolute(d) => unsigned_number(d),
        element::ScalarValue::RelativeAdd(d) => valid_number(d),
        element::ScalarValue::RelativeMul(d) => unsigned_number(d),
    }
}

/// A font name inside a size sequence that reads back: not empty, no comma, and no white
/// space at either end.
pub open spec fn writable_size_font(n: Seq<char>) -> bool {
    n.len() > 0 && lacks(n, ',') && !scan::is_whitespace(n[0]) && !scan::is_whitespace(n.last())
}

/// A size element that reads back: its size fits the grammar, its font name reads back,
/// and an outline width, which is not below zero, comes with a decoration (without one the
/// empty decoration part reads as a decoration with no flags).
pub open spec fn writable_size(
    size: element::ScalarValue,
    font: Option<String>,
    decoration: Option<element::TextDecoration>,
    outline_size: Option<Decimal>,
) -> bool {
    &&& writable_scalar(size)
    &&& (font matches Some(n) ==> writable_size_font(n@))
    &&& (outline_size matches Some(o) ==> decoration is Some && unsigned_number(o))
}

/// A size is written as what the grammar takes, and reads back as itself.
proof fn lemma_scalar_text(v: element::ScalarValue)
    requires
        writable_scalar(v),
    ensures
        scan::all_in(display::scalar_text(v), CharClass::Scalar),
        tags::opt_scalar(display::scalar_text(v)),
        element::scalar_is(display::scalar_text(v), v),
        element::scalar_defined(display::scalar_text(v)),
        element::trim(display::scalar_text(v)) == display::scalar_text(v),
        lacks(display::scalar_text(v), ','),
{
    let t = display::scalar_text(v);
    match v {
        element::ScalarValue::Default => {},
        element::ScalarValue::Absolute(d) => {
            lemma_unsigned_text(d);
            assert forall|j: int| 0 <= j < t.len() implies scan::in_class(CharClass::Scalar, #[trigger] t[j]) by {
                assert(scan::in_class(CharClass::Numeral, t[j]));
            }
            reading::lemma_numeral_is_literal(t);
        },
        element::ScalarValue::RelativeAdd(d) => {
            lemma_signed_text(d);
            assert forall|j: int| 0 <= j < t.len() implies scan::in_class(CharClass::Scalar, #[trigger] t[j]) by {
                assert(scan::in_class(CharClass::Signed, t[j]));
            }
        },
        element::ScalarValue::RelativeMul(d) => {
            lemma_unsigned_text(d);
            assert(t.skip(1) =~= d@);
            assert forall|j: int| 0 <= j < t.len() implies scan::in_class(CharClass::Scalar, #[trigger] t[j]) by {
                if j > 0 {
                    assert(t[j] == d@[j - 1]);
                    assert(scan::in_class(CharClass::Numeral, d@[j - 1]));
                }
            }
        },
    }
    if t.len() > 0 {
        assert(scan::in_class(CharClass::Scalar, t[0]));
        assert(scan::in_class(CharClass::Scalar, t.last()));
    }
    reading::lemma_trim_unchanged(t);
    assert forall|j: int| 0 <= j < t.len() implies #[trigger] t[j] != ',' by {
        assert(scan::in_class(CharClass::Scalar, t[j]));
    }
}

/// The body of a size sequence as the writer lays it out: the size, then as many of the
/// font, decoration and outline parts as `shape` says, each after a comma.
spec fn size_body_of(sz: Seq<char>, f: Seq<char>, d: Seq<char>, o: Seq<char>, shape: int) -> Seq<char> {
    if shape == 0 {
        sz
    } else if shape == 1 {
        sz + seq![','] + f
    } else if shape == 2 {
        sz + seq![','] + f + seq![','] + d
    } else {
        sz + seq![','] + f + seq![','] + d + seq![','] + o
    }
}

/// The parts of a size element as they are written.
spec fn size_shape(decoration: Option<element::TextDecoration>, font: Option<String>, outline_size: Option<Decimal>) -> int {
    if outline_size is Some {
        3
    } else if decoration is Some {
        2
    } else if font is Some {
        1
    } else {
        0
    }
}

/// The decoration letters of a size element, or nothing.
spec fn size_decoration_text(decoration: Option<element::TextDecoration>) -> Seq<char> {
    match decoration {
        Some(d) => display::text_decoration_text(d),
        None => seq![],
    }
}

/// The outline width of a size element, or nothing.
spec fn size_outline_text(outline_size: Option<Decimal>) -> Seq<char> {
    match outline_size {
        Some(o) => o@,
        None => seq![],
    }
}

/// A size element is written as its size body inside `<s` and `>`.
proof fn lemma_size_text(
    size: element::ScalarValue,
    font: Option<String>,
    decoration: Option<element::TextDecoration>,
    outline_size: Option<Decimal>,
)
    requires
        outline_size is Some ==> decoration is Some,
    ensures
        display::element_text(Element::Size { size, font, decoration, outline_size })
            == display::tag_text(
            seq!['s'],
            size_body_of(
                display::scalar_text(size),
                display::opt_string_text(font),
                size_decoration_text(decoration),
                size_outline_text(outline_size),
                size_shape(decoration, font, outline_size),
            ),
        ),
{
    let e = Element::Size { size, font, decoration, outline_size };
    assert(display::element_text(e) =~= display::tag_text(
        seq!['s'],
        size_body_of(
            display::scalar_text(size),
            display::opt_string_text(font),
            size_decoration_text(decoration),
            size_outline_text(outline_size),
            size_shape(decoration, font, outline_size),
        ),
    ));
}

/// The grammar of size sequences takes a body laid out by the writer whole.
#[verifier::rlimit(30)]
proof fn lemma_size_len(sz: Seq<char>, f: Seq<char>, d: Seq<char>, o: Seq<char>, shape: int)
    requires
        scan::all_in(sz, CharClass::Scalar),
        tags::opt_scalar(sz),
        lacks(f, ','),
        scan::all_in(d, CharClass::Style),
        decimal::is_numeral(o),
        scan::all_in(o, CharClass::Numeral),
        0 <= shape <= 3,
    ensures
        ({
            let t = display::tag_text(seq!['s'], size_body_of(sz, f, d, o, shape));
            tags::size_len(t, 0) == t.len()
        }),
{
    let body = size_body_of(sz, f, d, o, shape);
    let t = display::tag_text(seq!['s'], body);
    let n = t.len() as int;
    let k: int = 2int + sz.len();
    assert forall|m: int| 2 <= m < k implies scan::in_class(CharClass::Scalar, #[trigger] t[m]) by {
        assert(t[m] == sz[m - 2]);
    }
    assert(t[k] == if shape == 0 { '>' } else { ',' });
    scan::lemma_run_end_at(t, 2, k, CharClass::Scalar);
    assert(t.subrange(2, k) =~= sz);
    if shape >= 1 {
        let m: int = k + 1 + f.len();
        assert forall|j: int| k + 1 <= j < m implies scan::in_class(CharClass::Other(','), #[trigger] t[j]) by {
            assert(t[j] == f[j - k - 1]);
        }
        if shape == 1 {
            assert(t[m] == '>');
            assert(m == n - 1);
            scan::lemma_run_end_at(t, k + 1, n, CharClass::Other(','));
        } else {
            assert(t[m] == ',');
            scan::lemma_run_end_at(t, k + 1, m, CharClass::Other(','));
            let dd: int = m + 1 + d.len();
            assert forall|j: int| m + 1 <= j < dd implies scan::in_class(CharClass::Style, #[trigger] t[j]) by {
                assert(t[j] == d[j - m - 1]);
            }
            assert(t[dd] == if shape == 2 { '>' } else { ',' });
            scan::lemma_run_end_at(t, m + 1, dd, CharClass::Style);
            if shape == 3 {
                let q: int = dd + 1 + o.len();
                assert forall|j: int| dd + 1 <= j < q implies scan::in_class(CharClass::Numeral, #[trigger] t[j]) by {
                    assert(t[j] == o[j - dd - 1]);
                }
                assert(t[q] == '>');
                scan::lemma_run_end_at(t, dd + 1, q, CharClass::Numeral);
                assert(t.subrange(dd + 1, q) =~= o);
            }
        }
    }
}

/// Cutting `a , rest` at its first comma.
proof fn lemma_first_comma(a: Seq<char>, rest: Seq<char>)
    requires
        lacks(a, ','),
    ensures
        scan::find_char(a + seq![','] + rest, 0, ',') == a.len(),
        (a + seq![','] + rest).take(a.len() as int) == a,
        (a + seq![','] + rest).skip(a.len() + 1int) == rest,
{
    let t = a + seq![','] + rest;
    assert forall|m: int| 0 <= m < a.len() implies scan::in_class(CharClass::Other(','), #[trigger] t[m]) by {
        assert(t[m] == a[m]);
    }
    scan::lemma_run_end_at(t, 0, a.len() as int, CharClass::Other(','));
    assert(t.take(a.len() as int) =~= a);
    assert(t.skip(a.len() + 1int) =~= rest);
}

/// A text without a comma has none to cut at.
proof fn lemma_no_comma(a: Seq<char>)
    requires
        lacks(a, ','),
    ensures
        scan::find_char(a, 0, ',') == a.len(),
        a.take(a.len() as int) == a,
{
    scan::lemma_run_end_at(a, 0, a.len() as int, CharClass::Other(','));
    assert(a.take(a.len() as int) =~= a);
}

/// What a size body needs of its parts to stand for the element.
spec fn size_parts_read(
    sz: Seq<char>,
    f: Seq<char>,
    d: Seq<char>,
    o: Seq<char>,
    e: Element,
) -> bool {
    &&& lacks(sz, ',') && lacks(f, ',') && lacks(d, ',')
    &&& element::trim(sz) == sz && element::trim(f) == f && element::trim(o) == o
    &&& e matches Element::Size { size, font, decoration, outline_size }
    &&& element::scalar_is(sz, size)
    &&& (if f.len() == 0 { font is None } else { font matches Some(n) && n@ == f })
    &&& (decoration matches Some(dec) ==> element::text_decoration_of(d) == dec)
    &&& element::outline_is(o, outline_size)
}

/// A size body of the first shape: the size alone.
proof fn lemma_size_relation0(sz: Seq<char>, f: Seq<char>, d: Seq<char>, o: Seq<char>, e: Element)
    requires
        size_parts_read(sz, f, d, o, e),
        e matches Element::Size { font, decoration, outline_size, .. } && font is None
            && decoration is None && outline_size is None,
    ensures
        element::size_element_is(size_body_of(sz, f, d, o, 0), e),
{
    lemma_no_comma(sz);
}

/// A size body of the second shape: the size and the font.
proof fn lemma_size_relation1(sz: Seq<char>, f: Seq<char>, d: Seq<char>, o: Seq<char>, e: Element)
    requires
        size_parts_read(sz, f, d, o, e),
        e matches Element::Size { decoration, outline_size, .. } && decoration is None
            && outline_size is None,
    ensures
        element::size_element_is(size_body_of(sz, f, d, o, 1), e),
{
    lemma_first_comma(sz, f);
    lemma_no_comma(f);
}

/// A size body of the third shape: the size, the font and the decoration.
proof fn lemma_size_relation2(sz: Seq<char>, f: Seq<char>, d: Seq<char>, o: Seq<char>, e: Element)
    requires
        size_parts_read(sz, f, d, o, e),
        e matches Element::Size { decoration, outline_size, .. } && decoration is Some
            && outline_size is None,
    ensures
        element::size_element_is(size_body_of(sz, f, d, o, 2), e),
{
    let body = size_body_of(sz, f, d, o, 2);
    lemma_first_comma(sz, f + seq![','] + d);
    assert(body =~= sz + seq![','] + (f + seq![','] + d));
    lemma_first_comma(f, d);
    lemma_no_comma(d);
}

/// A size body of the last shape: all four parts.
proof fn lemma_size_relation3(sz: Seq<char>, f: Seq<char>, d: Seq<char>, o: Seq<char>, e: Element)
    requires
        size_parts_read(sz, f, d, o, e),
        e matches Element::Size { decoration, outline_size, .. } && decoration is Some
            && outline_size is Some,
    ensures
        element::size_element_is(size_body_of(sz, f, d, o, 3), e),
{
    let body = size_body_of(sz, f, d, o, 3);
    lemma_first_comma(sz, f + seq![','] + d + seq![','] + o);
    assert(body =~= sz + seq![','] + (f + seq![','] + d + seq![','] + o));
    lemma_first_comma(f, d + seq![','] + o);
    assert(f + seq![','] + d + seq![','] + o =~= f + seq![','] + (d + seq![','] + o));
    lemma_first_comma(d, o);
}

/// A size body laid out by the writer stands for the size element.
proof fn lemma_size_relation(
    size: element::ScalarValue,
    font: Option<String>,
    decoration: Option<element::TextDecoration>,
    outline_size: Option<Decimal>,
)
    requires
        writable_size(size, font, decoration, outline_size),
    ensures
        ({
            let body = size_body_of(
                display::scalar_text(size),
                display::opt_string_text(font),
                size_decoration_text(decoration),
                size_outline_text(outline_size),
                size_shape(decoration, font, outline_size),
            );
            &&& element::size_element_is(body, Element::Size { size, font, decoration, outline_size })
            &&& element::size_defined(body)
        }),
{
    let e = Element::Size { size, font, decoration, outline_size };
    let sz = display::scalar_text(size);
    let f = display::opt_string_text(font);
    let d = size_decoration_text(decoration);
    let o = size_outline_text(outline_size);
    let shape = size_shape(decoration, font, outline_size);
    lemma_scalar_text(size);
    reading::lemma_trim_unchanged(f);
    assert(lacks(d, ',')) by {
        assert forall|j: int| 0 <= j < d.len() implies #[trigger] d[j] != ',' by {}
    }
    if let Some(dec) = decoration {
        laws::lemma_text_decoration_roundtrip(dec);
    }
    if let Some(od) = outline_size {
        lemma_unsigned_text(od);
        assert forall|j: int| 0 <= j < o.len() implies !scan::is_whitespace(#[trigger] o[j]) by {
            assert(scan::in_class(CharClass::Numeral, o[j]));
        }
    } else {
        assert(!decimal::is_decimal_literal(o)) by {
            scan::lemma_run_end_at(o, 0, 0, CharClass::Digit);
        }
    }
    reading::lemma_trim_unchanged(o);
    assert(size_parts_read(sz, f, d, o, e));
    if shape == 0 {
        lemma_size_relation0(sz, f, d, o, e);
    } else if shape == 1 {
        lemma_size_relation1(sz, f, d, o, e);
    } else if shape == 2 {
        lemma_size_relation2(sz, f, d, o, e);
    } else {
        lemma_size_relation3(sz, f, d, o, e);
    }
    let body = size_body_of(sz, f, d, o, shape);
    if shape == 0 {
        lemma_no_comma(sz);
    } else {
        lemma_first_comma(sz, size_body_of(sz, f, d, o, shape).skip(sz.len() + 1int));
        assert(body =~= sz + seq![','] + body.skip(sz.len() + 1int));
    }
}

/// A size element reads back.
proof fn lemma_size_reads_back(
    size: element::ScalarValue,
    font: Option<String>,
    decoration: Option<element::TextDecoration>,
    outline_size: Option<Decimal>,
)
    requires
        writable_size(size, font, decoration, outline_size),
    ensures
        sequence_reads_back(Element::Size { size, font, decoration, outline_size }),
{
    let e = Element::Size { size, font, decoration, outline_size };
    let sz = display::scalar_text(size);
    let f = display::opt_string_text(font);
    let d = size_decoration_text(decoration);
    let o = size_outline_text(outline_size);
    let shape = size_shape(decoration, font, outline_size);
    let body = size_body_of(sz, f, d, o, shape);
    lemma_scalar_text(size);
    lemma_size_text(size, font, decoration, outline_size);
    assert(scan::all_in(d, CharClass::Style));
    if let Some(od) = outline_size {
        lemma_unsigned_text(od);
    } else {
        assert(decimal::is_numeral(seq!['0'])) by {
            scan::lemma_run_end_at(seq!['0'], 0, 1, CharClass::Digit);
        }
    }
    let o2 = if outline_size is Some { o } else { seq!['0'] };
    assert(size_body_of(sz, f, d, o2, shape) == body);
    lemma_size_len(sz, f, d, o2, shape);
    lemma_size_relation(size, font, decoration, outline_size);
    let t = display::tag_text(seq!['s'], body);
    lemma_tag_shape(seq!['s'], body);
    assert(tags::tag_len(t, 0) == t.len());
    assert(element::control_element_is('s', t, e));
}

/// An outline width is never lost: a size element with an outline width that is not below
/// zero, whose size and font read back, is written as one size sequence that reads back
/// with the same size, font and outline width, and with its decoration, or with a
/// decoration of no flags when it had none (the writer puts an empty decoration part
/// before the outline, so the width stays the fourth part).
pub proof fn lemma_size_outline_kept(
    size: element::ScalarValue,
    font: Option<String>,
    decoration: Option<element::TextDecoration>,
    o: Decimal,
)
    requires
        writable_scalar(size),
        font matches Some(n) ==> writable_size_font(n@),
        unsigned_number(o),
    ensures
        ({
            let e = Element::Size { size, font, decoration, outline_size: Some(o) };
            let kept = Element::Size {
                size,
                font,
                decoration: Some(
                    match decoration {
                        Some(d) => d,
                        None => element::TextDecoration {
                            bold: false,
                            italic: false,
                            strikethrough: false,
                        },
                    },
                ),
                outline_size: Some(o),
            };
            let t = display::element_text(e);
            &&& tags::tag_len(t, 0) == t.len()
            &&& element::control_element_is('s', t, kept)
        }),
{
    let dd = match decoration {
        Some(d) => d,
        None => element::TextDecoration { bold: false, italic: false, strikethrough: false },
    };
    let e = Element::Size { size, font, decoration, outline_size: Some(o) };
    let kept = Element::Size { size, font, decoration: Some(dd), outline_size: Some(o) };
    assert(display::element_text(e) =~= display::element_text(kept));
    lemma_size_reads_back(size, font, Some(dd), Some(o));
}

/// A tag's letters, value and closing `>` stand where the tag puts them.
proof fn lemma_tag_shape(letters: Seq<char>, value: Seq<char>)
    ensures
        ({
            let t = display::tag_text(letters, value);
            &&& t.len() == letters.len() + value.len() + 2
            &&& t[0] == '<'
            &&& t[t.len() - 1] == '>'
            &&& forall|j: int| 0 <= j < letters.len() ==> t[j + 1] == letters[j]
            &&& t.subrange(letters.len() + 1int, t.len() - 1) == value
        }),
{
    let t = display::tag_text(letters, value);
    assert(t.subrange(letters.len() + 1int, t.len() - 1) =~= value);
}

/// The text of a control element that is written as its grammar takes it back is one
/// control sequence that stands for the element and can be read.
pub proof fn lemma_control_reads_back(e: Element)
    requires
        writable(e),
        !(e is Text),
    ensures
        sequence_reads_back(e),
{
    match e {
        Element::Text(_) => {},
        Element::Color { code } => lemma_color_reads_back(code),
        Element::Speed { speed } => lemma_number_tag_reads_back(e, seq!['r'], speed),
        Element::GlyphSpacing { value } => lemma_number_tag_reads_back(e, seq!['g', 'w'], value),
        Element::LineSpacing { value } => lemma_number_tag_reads_back(e, seq!['g', 'h'], value),
        Element::ScaleX { value } => lemma_number_tag_reads_back(e, seq!['t', 'w'], value),
        Element::ScaleY { value } => lemma_number_tag_reads_back(e, seq!['t', 'h'], value),
        Element::Wait { time } => lemma_time_tag_reads_back(e, 'w', time),
        Element::Clear { time } => lemma_time_tag_reads_back(e, 'c', time),
        Element::Rotate { value } => lemma_rotate_reads_back(value),
        Element::Position { x, y, z } => lemma_position_reads_back(x, y, z),
        Element::PositionReset => lemma_position_reset_reads_back(),
        Element::Preset { name } => lemma_preset_reads_back(name),
        Element::Comment { text } => lemma_comment_element_reads_back(text),
        Element::Script { code } => lemma_script_reads_back(code),
        Element::Font { command } => lemma_font_reads_back(command),
        Element::BlockEnd => lemma_block_end_reads_back(),
        Element::Size { size, font, decoration, outline_size } => lemma_size_reads_back(
            size,
            font,
            decoration,
            outline_size,
        ),
        Element::Ruby { base, ruby, scale, expand_line_height } => lemma_ruby_reads_back(
            base,
            ruby,
            scale,
            expand_line_height,
        ),
    }
}

/// Writing an element and reading its text back gives the element: the text is a single
/// piece, the piece stands for the element, and nothing in it fails to read.
pub proof fn lemma_element_parses_back(e: Element)
    requires
        writable(e),
    ensures
        parses_back(e),
{
    let t = display::element_text(e);
    if let Element::Text(x) = e {
        laws::lemma_plain_text(t);
        assert(control::pieces(t)[0] == Piece::Text(t));
    } else {
        lemma_control_reads_back(e);
        lemma_sequence_parses_back(e);
    }
}


// ---- elements one after another ----

/// Where the text of the `k`-th element starts in the text of all of them.
pub open spec fn offset(es: Seq<Element>, k: int) -> int {
    display::elements_text(es.take(k)).len() as int
}

/// The piece that an element is read as where its text stands whole.
pub open spec fn piece_of(e: Element) -> Piece {
    let t = display::element_text(e);
    if e is Text {
        Piece::Text(t)
    } else {
        Piece::Control(t[1], t)
    }
}

/// Elements written one after another so that each is read where it was written: every
/// element reads back alone, no two texts meet (they would read as one), no text that
/// follows a clear sequence starts with a newline (it would be dropped), and in the whole
/// text every control sequence is recognised where its element was written, ending where
/// its element's text ends, while no sequence starts inside a text.
#[verifier::opaque]
pub open spec fn laid_out(es: Seq<Element>) -> bool {
    let s = display::elements_text(es);
    forall|k: int|
        0 <= k < es.len() ==> {
            let o = offset(es, k);
            let n = display::element_text(#[trigger] es[k]).len() as int;
            &&& writable(es[k])
            &&& (es[k] is Text ==> (k + 1 < es.len() ==> !(es[k + 1] is Text)) && forall|j: int|
                o <= j < o + n ==> tags::tag_len(s, j) == 0)
            &&& (!(es[k] is Text) ==> tags::tag_len(s, o) == n)
            &&& (es[k] is Clear && k + 1 < es.len() ==> !(es[k + 1] matches Element::Text(x)
                && x@[0] == '\n'))
        }
}

/// Adding an element adds its text.
proof fn lemma_elements_text_push(es: Seq<Element>, k: int)
    requires
        0 <= k < es.len(),
    ensures
        display::elements_text(es.take(k + 1)) == display::elements_text(es.take(k))
            + display::element_text(es[k]),
{
    assert(es.take(k + 1).drop_last() =~= es.take(k));
}

/// The text of the first elements starts the text of more of them.
proof fn lemma_elements_text_prefix(es: Seq<Element>, k: int, m: int)
    requires
        0 <= k <= m <= es.len(),
    ensures
        display::elements_text(es.take(m)).len() >= display::elements_text(es.take(k)).len(),
        display::elements_text(es.take(m)).take(display::elements_text(es.take(k)).len() as int)
            == display::elements_text(es.take(k)),
    decreases m - k,
{
    if k < m {
        lemma_elements_text_prefix(es, k, m - 1);
        lemma_elements_text_push(es, m - 1);
        let a = display::elements_text(es.take(k));
        let b = display::elements_text(es.take(m - 1));
        let c = display::elements_text(es.take(m));
        assert(c.take(a.len() as int) =~= b.take(a.len() as int));
    } else {
        let a = display::elements_text(es.take(k));
        assert(a.take(a.len() as int) =~= a);
    }
}

/// The text of the `k`-th element stands between its offset and the next one.
proof fn lemma_element_in_place(es: Seq<Element>, k: int)
    requires
        0 <= k < es.len(),
    ensures
        offset(es, k + 1) == offset(es, k) + display::element_text(es[k]).len(),
        offset(es, k + 1) <= display::elements_text(es).len(),
        display::elements_text(es).subrange(offset(es, k), offset(es, k + 1)) == display::element_text(es[k]),
{
    lemma_elements_text_push(es, k);
    lemma_elements_text_prefix(es, k + 1, es.len() as int);
    assert(es.take(es.len() as int) =~= es);
    let s = display::elements_text(es);
    let c = display::elements_text(es.take(k + 1));
    assert(s.subrange(offset(es, k), offset(es, k + 1)) =~= c.subrange(offset(es, k), offset(es, k + 1)));
}

/// Reading a text piece that no sequence interrupts gathers all of it.
proof fn lemma_scan_text(s: Seq<char>, o: int, i: int)
    requires
        0 <= o <= i <= s.len(),
        forall|j: int| o <= j < i ==> tags::tag_len(s, j) == 0,
    ensures
        control::scan_pieces(s, o, seq![]) == control::scan_pieces(s, i, s.subrange(o, i)),
    decreases i - o,
{
    if o < i {
        lemma_scan_text(s, o, i - 1);
        assert(tags::tag_len(s, i - 1) == 0);
        assert(s.subrange(o, i - 1).push(s[i - 1]) =~= s.subrange(o, i));
    } else {
        assert(s.subrange(o, i) =~= Seq::<char>::empty());
    }
}

/// A recognised control sequence ends the text gathered before it.
proof fn lemma_scan_at_sequence(s: Seq<char>, i: int, buf: Seq<char>)
    requires
        0 <= i < s.len(),
        s[i] == '<',
        tags::tag_len(s, i) > 0,
    ensures
        control::scan_pieces(s, i, buf) == control::flush(buf) + control::scan_pieces(s, i, seq![]),
{
    assert(control::flush(Seq::<char>::empty()) =~= Seq::<Piece>::empty());
    assert(control::scan_pieces(s, i, seq![]) =~= control::flush(Seq::<char>::empty())
        + control::scan_pieces(s, i, seq![]).skip(0));
}

/// The kind letter of a written control element, and what it says of the element.
proof fn lemma_control_letter(e: Element)
    requires
        writable(e),
        !(e is Text),
    ensures
        display::element_text(e).len() >= 3,
        display::element_text(e)[0] == '<',
        display::element_text(e)[1] == 'c' ==> e is Clear,
{
    lemma_control_reads_back(e);
    let t = display::element_text(e);
    reading::lemma_recognised_shape(t, 0);
}

/// What being laid out says of the `k`-th element.
proof fn lemma_laid_out_at(es: Seq<Element>, k: int)
    requires
        laid_out(es),
        0 <= k < es.len(),
    ensures
        ({
            let s = display::elements_text(es);
            let o = offset(es, k);
            let n = display::element_text(es[k]).len() as int;
            &&& writable(es[k])
            &&& (es[k] is Text ==> (k + 1 < es.len() ==> !(es[k + 1] is Text)) && forall|j: int|
                o <= j < o + n ==> tags::tag_len(s, j) == 0)
            &&& (!(es[k] is Text) ==> tags::tag_len(s, o) == n)
            &&& (es[k] is Clear && k + 1 < es.len() ==> !(es[k + 1] matches Element::Text(x)
                && x@[0] == '\n'))
        }),
{
    reveal(laid_out);
    let e = es[k];
}

/// A text piece that runs to the end or to a recognised sequence reads as one text piece.
proof fn lemma_text_step(s: Seq<char>, o: int, t: Seq<char>, tail: Seq<Piece>)
    requires
        0 <= o,
        o + t.len() <= s.len(),
        t.len() > 0,
        s.subrange(o, o + t.len()) == t,
        forall|j: int| o <= j < o + t.len() ==> tags::tag_len(s, j) == 0,
        o + t.len() < s.len() ==> s[o + t.len()] == '<' && tags::tag_len(s, o + t.len()) > 0,
        control::scan_pieces(s, o + t.len(), seq![]) == tail,
    ensures
        control::scan_pieces(s, o, seq![]) == seq![Piece::Text(t)] + tail,
{
    let e = o + t.len();
    lemma_scan_text(s, o, e);
    assert(control::flush(t) =~= seq![Piece::Text(t)]);
    if e < s.len() {
        lemma_scan_at_sequence(s, e, t);
    } else {
        assert(control::flush(Seq::<char>::empty()) =~= Seq::<Piece>::empty());
        assert(tail =~= Seq::<Piece>::empty());
    }
}

/// A recognised control sequence reads as one control piece, and reading goes on after it.
proof fn lemma_control_step(s: Seq<char>, o: int, t: Seq<char>, tail: Seq<Piece>)
    requires
        0 <= o,
        o + t.len() <= s.len(),
        t.len() >= 3,
        t[0] == '<',
        s.subrange(o, o + t.len()) == t,
        tags::tag_len(s, o) == t.len(),
        t[1] == 'c' && o + t.len() < s.len() ==> s[o + t.len()] != '\n',
        control::scan_pieces(s, o + t.len(), seq![]) == tail,
    ensures
        control::scan_pieces(s, o, seq![]) == seq![Piece::Control(t[1], t)] + tail,
{
    assert(s[o] == t[0] && s[o + 1] == t[1]);
    assert(control::flush(Seq::<char>::empty()) =~= Seq::<Piece>::empty());
    assert(seq![Piece::Control(t[1], t)] + tail =~= control::flush(Seq::<char>::empty())
        + seq![Piece::Control(s[o + 1], s.subrange(o, o + t.len()))] + tail);
}

/// From the `k`-th element on, the text reads as the pieces of those elements.
proof fn lemma_scan_elements(es: Seq<Element>, k: int)
    requires
        laid_out(es),
        0 <= k <= es.len(),
    ensures
        control::scan_pieces(display::elements_text(es), offset(es, k), seq![])
            == Seq::new((es.len() - k) as nat, |j: int| piece_of(es[k + j])),
    decreases es.len() - k,
{
    let s = display::elements_text(es);
    let n_es = es.len() as int;
    let rest = Seq::new((n_es - k) as nat, |j: int| piece_of(es[k + j]));
    if k == n_es {
        assert(es.take(n_es) =~= es);
        assert(rest =~= Seq::<Piece>::empty());
        assert(control::flush(Seq::<char>::empty()) =~= Seq::<Piece>::empty());
    } else {
        let e = es[k];
        let t = display::element_text(e);
        let o = offset(es, k);
        let n = t.len() as int;
        lemma_laid_out_at(es, k);
        lemma_element_in_place(es, k);
        lemma_scan_elements(es, k + 1);
        let after = Seq::new((n_es - k - 1) as nat, |j: int| piece_of(es[k + 1 + j]));
        assert(rest =~= seq![piece_of(e)] + after);
        if k + 1 < n_es {
            lemma_element_in_place(es, k + 1);
            let t2 = display::element_text(es[k + 1]);
            lemma_laid_out_at(es, k + 1);
            if !(es[k + 1] is Text) {
                lemma_control_letter(es[k + 1]);
            }
            assert(t2.len() > 0);
            assert(s[o + n] == t2[0]) by {
                assert(s.subrange(offset(es, k + 1), offset(es, k + 2)) == t2);
            }
        } else {
            assert(es.take(n_es) =~= es);
        }
        if e is Text {
            lemma_text_step(s, o, t, after);
        } else {
            lemma_control_letter(e);
            lemma_control_step(s, o, t, after);
        }
    }
}

/// Elements written one after another, each where the reading finds it, read back as those
/// elements: one piece each, each standing for its element, and all of them readable.
pub proof fn lemma_elements_parse_back(es: Seq<Element>)
    requires
        laid_out(es),
    ensures
        ({
            let s = display::elements_text(es);
            &&& control::pieces(s).len() == es.len()
            &&& forall|k: int| 0 <= k < es.len() ==> control::piece_element_is(
                #[trigger] control::pieces(s)[k],
                es[k],
            )
            &&& control::pieces_readable(s)
        }),
{
    let s = display::elements_text(es);
    lemma_scan_elements(es, 0);
    assert(es.take(0) =~= Seq::<Element>::empty());
    let ps = control::pieces(s);
    assert forall|k: int| 0 <= k < es.len() implies control::piece_element_is(
        #[trigger] control::pieces(s)[k],
        es[k],
    ) && match control::pieces(s)[k] {
        Piece::Text(_) => true,
        Piece::Control(next, seq) => !reading::sequence_unreadable(next, seq),
    } by {
        assert(ps[k] == piece_of(es[k]));
        lemma_laid_out_at(es, k);
        if !(es[k] is Text) {
            lemma_control_reads_back(es[k]);
        }
    }
}

} // verus!
