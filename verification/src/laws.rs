//! What holds of the parser and the writer as a whole.
use vstd::prelude::*;

use crate::control::{self, Piece};
use crate::display;
use crate::element::{self, ColorValue, FontDecoration, TextDecoration};
use crate::scan;
use crate::reading;
use crate::tags;

verus! {

/// The characters that a piece was read from.
pub open spec fn piece_source(p: Piece) -> Seq<char> {
    match p {
        Piece::Text(t) => t,
        Piece::Control(_, seq) => seq,
    }
}

/// The characters that the pieces were read from, one after another.
pub open spec fn pieces_source(ps: Seq<Piece>) -> Seq<char>
    decreases ps.len(),
{
    if ps.len() == 0 {
        seq![]
    } else {
        piece_source(ps[0]) + pieces_source(ps.skip(1))
    }
}

proof fn lemma_pieces_source_concat(a: Seq<Piece>, b: Seq<Piece>)
    ensures
        pieces_source(a + b) == pieces_source(a) + pieces_source(b),
    decreases a.len(),
{
    if a.len() == 0 {
        assert(a + b =~= b);
        assert(pieces_source(a) + pieces_source(b) =~= pieces_source(b));
    } else {
        lemma_pieces_source_concat(a.skip(1), b);
        assert((a + b).skip(1) =~= a.skip(1) + b);
        assert((a + b)[0] == a[0]);
        assert(pieces_source(a + b) =~= pieces_source(a) + pieces_source(b));
    }
}

proof fn lemma_flush_source(buf: Seq<char>)
    ensures
        pieces_source(control::flush(buf)) == buf,
{
    if buf.len() > 0 {
        assert(control::flush(buf).skip(1) =~= Seq::<Piece>::empty());
        assert(pieces_source(Seq::<Piece>::empty()) == Seq::<char>::empty());
        assert(pieces_source(control::flush(buf)) =~= buf);
    } else {
        assert(buf =~= Seq::<char>::empty());
    }
}

/// Whether, reading `s` from `i` on, no clear sequence that the reading finds is followed by
/// a newline (the one character that a reading drops).
pub open spec fn keeps_newlines(s: Seq<char>, i: int) -> bool
    decreases s.len() - i,
{
    if i < 0 || i >= s.len() {
        true
    } else if s[i] != '<' || tags::tag_len(s, i) == 0 {
        keeps_newlines(s, i + 1)
    } else {
        proof {
            tags::lemma_tag_len_bounds(s, i);
        }
        let j = i + tags::tag_len(s, i);
        !(s[i + 1] == 'c' && j < s.len() && s[j] == '\n') && keeps_newlines(s, j)
    }
}

proof fn lemma_scan_source(s: Seq<char>, i: int, buf: Seq<char>)
    requires
        0 <= i <= s.len(),
        keeps_newlines(s, i),
    ensures
        pieces_source(control::scan_pieces(s, i, buf)) == buf + s.skip(i),
    decreases s.len() - i,
{
    tags::lemma_tag_len_bounds(s, i);
    if i >= s.len() {
        lemma_flush_source(buf);
        assert(buf + s.skip(i) =~= buf);
    } else if s[i] != '<' || tags::tag_len(s, i) == 0 {
        lemma_scan_source(s, i + 1, buf.push(s[i]));
        assert(buf.push(s[i]) + s.skip(i + 1) =~= buf + s.skip(i));
    } else {
        let n = tags::tag_len(s, i);
        reading::lemma_recognised_shape(s, i);
        let j = i + n;
        let ctl = seq![Piece::Control(s[i + 1], s.subrange(i, j))];
        lemma_scan_source(s, j, seq![]);
        lemma_pieces_source_concat(control::flush(buf) + ctl, control::scan_pieces(s, j, seq![]));
        lemma_pieces_source_concat(control::flush(buf), ctl);
        lemma_flush_source(buf);
        assert(pieces_source(ctl) =~= s.subrange(i, j)) by {
            assert(ctl.skip(1) =~= Seq::<Piece>::empty());
            assert(pieces_source(Seq::<Piece>::empty()) == Seq::<char>::empty());
        }
        assert(buf + s.subrange(i, j) + (Seq::<char>::empty() + s.skip(j)) =~= buf + s.skip(i));
    }
}

/// Nothing of a text is lost or reordered: read one after another, the pieces spell the
/// text, unless a newline follows a clear sequence (the reading drops it).
pub proof fn lemma_pieces_spell_text(s: Seq<char>)
    requires
        keeps_newlines(s, 0),
    ensures
        pieces_source(control::pieces(s)) == s,
{
    lemma_scan_source(s, 0, seq![]);
    assert(Seq::<char>::empty() + s.skip(0) =~= s);
}

/// Whether no control sequence starts anywhere in `s` (so every `<` in it is plain text).
pub open spec fn starts_no_sequence(s: Seq<char>) -> bool {
    forall|j: int| 0 <= j < s.len() ==> #[trigger] tags::tag_len(s, j) == 0
}

/// A text in which no control sequence starts is plain text: one text piece, or none when
/// it is empty. (A text without `<` is one.)
pub proof fn lemma_plain_text(s: Seq<char>)
    requires
        starts_no_sequence(s),
    ensures
        control::pieces(s) == control::flush(s),
{
    lemma_plain_scan(s, 0);
    assert(s.take(0) =~= Seq::<char>::empty());
}

proof fn lemma_plain_scan(s: Seq<char>, i: int)
    requires
        0 <= i <= s.len(),
        starts_no_sequence(s),
    ensures
        control::scan_pieces(s, i, s.take(i)) == control::flush(s),
    decreases s.len() - i,
{
    if i < s.len() {
        assert(tags::tag_len(s, i) == 0);
        lemma_plain_scan(s, i + 1);
        assert(s.take(i).push(s[i]) =~= s.take(i + 1));
    } else {
        assert(s.take(i) =~= s);
    }
}

/// A text without `<` starts no control sequence.
pub proof fn lemma_no_lt_no_sequence(s: Seq<char>)
    requires
        !s.contains('<'),
    ensures
        starts_no_sequence(s),
{
    assert forall|j: int| 0 <= j < s.len() implies #[trigger] tags::tag_len(s, j) == 0 by {
        if s[j] == '<' {
            assert(s.contains('<'));
        }
    }
}

/// A string that is one control sequence is one piece: that sequence.
pub proof fn lemma_single_sequence(s: Seq<char>)
    requires
        0 < tags::tag_len(s, 0) == s.len(),
    ensures
        control::pieces(s) == seq![Piece::Control(s[1], s)],
{
    reading::lemma_recognised_shape(s, 0);
    assert(s.subrange(0, s.len() as int) =~= s);
    assert(control::flush(Seq::<char>::empty()) =~= Seq::<Piece>::empty());
    assert(control::scan_pieces(s, s.len() as int, seq![]) =~= Seq::<Piece>::empty());
    assert(control::scan_pieces(s, 0, seq![]) == control::flush(seq![]) + seq![Piece::Control(s[1], s.subrange(0, s.len() as int))]
        + control::scan_pieces(s, s.len() as int, seq![]));
    assert(control::pieces(s) =~= seq![Piece::Control(s[1], s)]);
}


/// Every text piece holds at least one character, and the piece after a text piece is a
/// control sequence: plain text is never split in two.
pub open spec fn texts_separated(ps: Seq<Piece>) -> bool {
    forall|k: int|
        0 <= k < ps.len() ==> match #[trigger] ps[k] {
            Piece::Text(t) => t.len() > 0 && (k + 1 < ps.len() ==> ps[k + 1] is Control),
            Piece::Control(_, _) => true,
        }
}

proof fn lemma_scan_separated(s: Seq<char>, i: int, buf: Seq<char>)
    ensures
        texts_separated(control::scan_pieces(s, i, buf)),
    decreases s.len() - i,
{
    if i < 0 || i >= s.len() {
    } else if s[i] != '<' || tags::tag_len(s, i) == 0 {
        lemma_scan_separated(s, i + 1, buf.push(s[i]));
    } else {
        tags::lemma_tag_len_bounds(s, i);
        let j = i + tags::tag_len(s, i);
        let after = if s[i + 1] == 'c' && j < s.len() && s[j] == '\n' {
            j + 1
        } else {
            j
        };
        lemma_scan_separated(s, after, seq![]);
        let head = control::flush(buf) + seq![Piece::Control(s[i + 1], s.subrange(i, j))];
        let rest = control::scan_pieces(s, after, seq![]);
        let all = head + rest;
        assert(control::scan_pieces(s, i, buf) == all);
        assert forall|k: int| 0 <= k < all.len() implies match #[trigger] all[k] {
            Piece::Text(t) => t.len() > 0 && (k + 1 < all.len() ==> all[k + 1] is Control),
            Piece::Control(_, _) => true,
        } by {
            if k < head.len() - 1 {
                assert(all[k] == Piece::Text(buf));
                assert(all[k + 1] == head[k + 1]);
            } else if k >= head.len() {
                assert(all[k] == rest[k - head.len()]);
                if k + 1 < all.len() {
                    assert(all[k + 1] == rest[k + 1 - head.len()]);
                }
            }
        }
    }
}

/// Plain text is never split: every text piece of a text is followed by a control
/// sequence or ends the text, and none is empty.
pub proof fn lemma_texts_separated(s: Seq<char>)
    ensures
        texts_separated(control::pieces(s)),
{
    lemma_scan_separated(s, 0, seq![]);
}

/// Reading the style letters that a decoration is written as gives the decoration back.
pub proof fn lemma_text_decoration_roundtrip(d: TextDecoration)
    ensures
        element::text_decoration_of(display::text_decoration_text(d)) == d,
{
    let t = display::text_decoration_text(d);
    assert(t.contains('B') == d.bold) by {
        if d.bold {
            assert(t[0] == 'B');
        } else {
            assert forall|j: int| 0 <= j < t.len() implies t[j] != 'B' by {}
        }
    }
    assert(t.contains('I') == d.italic) by {
        if d.italic {
            let j = if d.bold { 1int } else { 0int };
            assert(t[j] == 'I');
        } else {
            assert forall|j: int| 0 <= j < t.len() implies t[j] != 'I' by {}
        }
    }
    assert(t.contains('S') == d.strikethrough) by {
        if d.strikethrough {
            assert(t[t.len() - 1] == 'S');
        } else {
            assert forall|j: int| 0 <= j < t.len() implies t[j] != 'S' by {}
        }
    }
}

/// Reading a font decoration back from its text gives the decoration.
pub proof fn lemma_font_decoration_roundtrip(d: FontDecoration)
    ensures
        element::font_decoration_of(display::font_decoration_text(d)) == d,
{
    let t = display::font_decoration_text(d);
    let style = display::text_decoration_text(d.style);
    lemma_text_decoration_roundtrip(d.style);
    match d.kind {
        Some(k) => {
            assert(t.skip(1) =~= style);
            assert(t[0] == display::decoration_kind_char(k));
        },
        None => {
            assert(t =~= style);
            if t.len() > 0 {
                assert(t[0] == 'B' || t[0] == 'I' || t[0] == 'S');
            }
        },
    }
}

/// A hexadecimal digit that the writer uses reads back as its value.
proof fn lemma_hex_char_value(n: int)
    requires
        0 <= n < 16,
    ensures
        scan::is_hex_digit(display::hex_char(n)),
        element::hex_value(display::hex_char(n)) == n,
        display::hex_char(n) != '>' && display::hex_char(n) != ',',
{
}

/// A byte written as two hexadecimal digits reads back as the byte.
proof fn lemma_hex_roundtrip(b: u8)
    ensures
        element::hex_byte(display::hex_text(b)[0], display::hex_text(b)[1]) == b,
        scan::is_hex_digit(display::hex_text(b)[0]) && scan::is_hex_digit(display::hex_text(b)[1]),
        display::hex_text(b).len() == 2,
{
    lemma_hex_char_value((b / 16) as int);
    lemma_hex_char_value((b % 16) as int);
}

/// Reading back a colour that is written as six hexadecimal digits gives the colour.
pub proof fn lemma_rgb_roundtrip(r: u8, g: u8, b: u8)
    ensures
        element::color_value_is(display::color_value_text(ColorValue::Rgb(r, g, b)), ColorValue::Rgb(r, g, b)),
        element::is_rgb_code(display::color_value_text(ColorValue::Rgb(r, g, b))),
{
    let t = display::color_value_text(ColorValue::Rgb(r, g, b));
    lemma_hex_roundtrip(r);
    lemma_hex_roundtrip(g);
    lemma_hex_roundtrip(b);
    assert(t[0] == display::hex_text(r)[0] && t[1] == display::hex_text(r)[1]);
    assert(t[2] == display::hex_text(g)[0] && t[3] == display::hex_text(g)[1]);
    assert(t[4] == display::hex_text(b)[0] && t[5] == display::hex_text(b)[1]);
}

} // verus!
