//! Cutting a text into plain text and control sequences.
use vstd::prelude::*;

use crate::construct::{control_element_from, control_element_readable};
use crate::element::{self, Element, Elements, ParseElementError};
use crate::reading;
use crate::tags::{self, control_sequence_length};
use crate::text::{self, chars_of, chars_of_range, push_char};

verus! {

/// A piece of a text: a run of plain text, or a control sequence with its kind letter.
pub ghost enum Piece {
    Text(Seq<char>),
    Control(char, Seq<char>),
}

/// The pieces that the characters collected so far make: one text piece, or none.
pub open spec fn flush(buf: Seq<char>) -> Seq<Piece> {
    if buf.len() == 0 {
        seq![]
    } else {
        seq![Piece::Text(buf)]
    }
}

/// The pieces of `s` from `i` on, with `buf` the plain text collected before `i`.
///
/// A `<` that starts a control sequence ends the plain text before it; any other
/// character, and a `<` that starts none, is plain text. A newline right after a clear
/// sequence (`<c...>`) is dropped.
pub open spec fn scan_pieces(s: Seq<char>, i: int, buf: Seq<char>) -> Seq<Piece>
    decreases s.len() - i,
{
    if i < 0 || i >= s.len() {
        flush(buf)
    } else if s[i] != '<' || tags::tag_len(s, i) == 0 {
        scan_pieces(s, i + 1, buf.push(s[i]))
    } else {
        let n = tags::tag_len(s, i);
        proof {
            tags::lemma_tag_len_bounds(s, i);
        }
        let j = i + n;
        let after = if s[i + 1] == 'c' && j < s.len() && s[j] == '\n' {
            j + 1
        } else {
            j
        };
        flush(buf) + seq![Piece::Control(s[i + 1], s.subrange(i, j))] + scan_pieces(
            s,
            after,
            seq![],
        )
    }
}

/// The pieces of `s`.
pub open spec fn pieces(s: Seq<char>) -> Seq<Piece> {
    scan_pieces(s, 0, seq![])
}

/// `e` is the element that the piece stands for.
pub open spec fn piece_element_is(p: Piece, e: Element) -> bool {
    match p {
        Piece::Text(t) => e matches Element::Text(x) && x@ == t,
        Piece::Control(next, seq) => element::control_element_is(next, seq, e),
    }
}

/// Whether every control sequence in `s` can be read: none is one that
/// [`reading::sequence_unreadable`] names.
pub open spec fn pieces_readable(s: Seq<char>) -> bool {
    forall|k: int|
        0 <= k < pieces(s).len() ==> match #[trigger] pieces(s)[k] {
            Piece::Text(_) => true,
            Piece::Control(next, seq) => !reading::sequence_unreadable(next, seq),
        }
}

/// `out` is what reading `s` gives: one element for each piece, standing for it.
pub open spec fn reads_as(s: Seq<char>, out: Seq<Element>) -> bool {
    out.len() == pieces(s).len() && forall|k: int|
        0 <= k < out.len() ==> piece_element_is(pieces(s)[k], #[trigger] out[k])
}

/// `r` is what reading one element from `s` gives: plain text when no control sequence
/// starts `s`, the element of the sequence when it is all of `s`, and an error when more
/// follows it.
pub open spec fn read_one(s: Seq<char>, r: Result<Element, ParseElementError>) -> bool {
    &&& tags::tag_len(s, 0) == 0 ==> (r matches Ok(Element::Text(t)) && t@ == s)
    &&& tags::tag_len(s, 0) == s.len() > 0 ==> (r matches Ok(e) && element::control_element_is(
        s[1],
        s,
        e,
    ))
    &&& 0 < tags::tag_len(s, 0) < s.len() ==> r is Err
}

/// Parses control sequences (e.g. `<#ffffff>`, `<s32>`) from the input string.
///
/// Unrecognized `<...>` sequences are treated as literal text. Does not
/// process escape sequences — run [`crate::parse_escape`] first if needed.
pub fn parse_control(text: &str) -> (out: Vec<Element>)
    requires
        pieces_readable(text@),
    ensures
        reads_as(text@, out@),
{
    let chars = chars_of(text);
    let len = chars.len();
    let mut i: usize = 0;
    let mut buffer = String::new();
    let mut out: Vec<Element> = Vec::new();
    let ghost done: Seq<Piece> = seq![];
    assert(buffer@ =~= Seq::<char>::empty());
    while i < len
        invariant
            chars@ == text@,
            len == chars.len(),
            i <= len,
            pieces_readable(text@),
            done + scan_pieces(chars@, i as int, buffer@) == pieces(text@),
            out.len() == done.len(),
            forall|k: int| 0 <= k < out.len() ==> piece_element_is(done[k], #[trigger] out[k]),
        decreases len - i,
    {
        let c = chars[i];
        let consumed = if c == '<' {
            control_sequence_length(&chars, i)
        } else {
            0
        };
        let ghost buf0 = buffer@;
        if consumed == 0 {
            assert(scan_pieces(chars@, i as int, buf0) == scan_pieces(chars@, i + 1, buf0.push(c)));
            push_char(&mut buffer, c);
            i = i + 1;
        } else {
            proof {
                tags::lemma_tag_len_bounds(chars@, i as int);
            }
            let ghost before = done;
            let ghost i0 = i as int;
            if !buffer.as_str().is_empty() {
                out.push(Element::Text(buffer));
                buffer = String::new();
                proof {
                    done = done + seq![Piece::Text(buf0)];
                }
            }
            let next = chars[i + 1];
            let sequence = chars_of_range(&chars, i, i + consumed);
            proof {
                let k = done.len() as int;
                assert(pieces(text@)[k] == Piece::Control(next, sequence@));
                reading::lemma_recognised_readable(chars@, i as int);
            }
            out.push(control_element_from(next, &sequence));
            i = i + consumed;
            if next == 'c' && i < len && chars[i] == '\n' {
                i = i + 1;
            }
            proof {
                done = done + seq![Piece::Control(next, sequence@)];
                assert(done =~= before + flush(buf0) + seq![Piece::Control(next, sequence@)]);
                assert(scan_pieces(chars@, i0, buf0) == flush(buf0) + seq![Piece::Control(next, sequence@)]
                    + scan_pieces(chars@, i as int, seq![]));
                assert(done + scan_pieces(chars@, i as int, seq![]) =~= before + scan_pieces(chars@, i0, buf0));
            }
            assert(buffer@ =~= Seq::<char>::empty());
        }
    }
    if !buffer.as_str().is_empty() {
        out.push(Element::Text(buffer));
        proof {
            done = done + seq![Piece::Text(buffer@)];
        }
    }
    out
}


/// Whether every control sequence in `text` can be read, so that [`parse_control`] can
/// take it.
pub fn control_sequences_readable(text: &str) -> (b: bool)
    ensures
        b == pieces_readable(text@),
{
    let chars = chars_of(text);
    let len = chars.len();
    let mut i: usize = 0;
    let ghost mut buf: Seq<char> = seq![];
    let ghost mut done: Seq<Piece> = seq![];
    while i < len
        invariant
            chars@ == text@,
            len == chars.len(),
            i <= len,
            done + scan_pieces(chars@, i as int, buf) == pieces(text@),
            forall|k: int| 0 <= k < done.len() ==> match #[trigger] done[k] {
                Piece::Text(_) => true,
                Piece::Control(next, seq) => !reading::sequence_unreadable(next, seq),
            },
        decreases len - i,
    {
        let c = chars[i];
        let consumed = if c == '<' {
            control_sequence_length(&chars, i)
        } else {
            0
        };
        let ghost buf0 = buf;
        if consumed == 0 {
            assert(scan_pieces(chars@, i as int, buf0) == scan_pieces(chars@, i + 1, buf0.push(c)));
            proof {
                buf = buf.push(c);
            }
            i = i + 1;
        } else {
            proof {
                tags::lemma_tag_len_bounds(chars@, i as int);
            }
            let ghost before = done;
            let ghost i0 = i as int;
            let next = chars[i + 1];
            let sequence = chars_of_range(&chars, i, i + consumed);
            proof {
                reading::lemma_recognised_readable(chars@, i as int);
            }
            if !control_element_readable(next, &sequence) {
                proof {
                    let k = (done + flush(buf0)).len() as int;
                    assert(scan_pieces(chars@, i0, buf0) == flush(buf0) + seq![Piece::Control(next, sequence@)]
                        + scan_pieces(chars@, (i0 + consumed + if next == 'c' && i0 + consumed < len && chars@[i0 + consumed] == '\n' { 1int } else { 0int }), seq![]));
                    assert(pieces(text@)[k] == Piece::Control(next, sequence@));
                }
                return false;
            }
            i = i + consumed;
            if next == 'c' && i < len && chars[i] == '\n' {
                i = i + 1;
            }
            proof {
                done = done + flush(buf0) + seq![Piece::Control(next, sequence@)];
                assert(scan_pieces(chars@, i0, buf0) == flush(buf0) + seq![Piece::Control(next, sequence@)]
                    + scan_pieces(chars@, i as int, seq![]));
                assert(done + scan_pieces(chars@, i as int, seq![]) =~= before + scan_pieces(chars@, i0, buf0));
                buf = seq![];
            }
        }
    }
    proof {
        assert(done + flush(buf) == pieces(text@));
        assert forall|k: int| 0 <= k < pieces(text@).len() implies match #[trigger] pieces(text@)[k] {
            Piece::Text(_) => true,
            Piece::Control(next, seq) => !reading::sequence_unreadable(next, seq),
        } by {
            if k >= done.len() {
                assert(pieces(text@)[k] == flush(buf)[k - done.len()]);
            } else {
                assert(pieces(text@)[k] == done[k]);
            }
        }
    }
    true
}

/// Parses a text string that may contain both escape sequences and control
/// sequences. Equivalent to `parse_control(&parse_escape(text))`.
pub fn parse_text(text: &str) -> (out: Vec<Element>)
    requires
        pieces_readable(text::unescape(text@)),
    ensures
        reads_as(text::unescape(text@), out@),
{
    let unescaped = text::parse_escape(text);
    parse_control(unescaped.as_str())
}

impl Element {
    /// Reads one element from a string: a string that is one control sequence gives
    /// its element, a string that starts with none is plain text, and anything else (a
    /// control sequence with more after it) is an error.
    pub fn from_text(s: &str) -> (r: Result<Element, ParseElementError>)
        requires
            0 < tags::tag_len(s@, 0) == s@.len() ==> !reading::sequence_unreadable(s@[1], s@),
        ensures
            read_one(s@, r),
    {
        let chars = chars_of(s);
        let consumed = if chars.len() > 0 {
            control_sequence_length(&chars, 0)
        } else {
            0
        };
        proof {
            tags::lemma_tag_len_bounds(s@, 0);
        }
        if consumed > 0 {
            if consumed == chars.len() {
                proof {
                    reading::lemma_recognised_readable(s@, 0);
                    assert(s@.subrange(0, s@.len() as int) =~= s@);
                }
                Ok(control_element_from(chars[1], &chars))
            } else {
                Err(ParseElementError)
            }
        } else {
            let t = text::string_of_range(&chars, 0, chars.len());
            assert(t@ =~= s@);
            Ok(Element::Text(t))
        }
    }

    /// Whether [`Element::from_text`] can read `s`.
    pub fn readable(s: &str) -> (b: bool)
        ensures
            b == (0 < tags::tag_len(s@, 0) == s@.len() ==> !reading::sequence_unreadable(s@[1], s@)),
    {
        let chars = chars_of(s);
        let consumed = if chars.len() > 0 {
            control_sequence_length(&chars, 0)
        } else {
            0
        };
        if consumed == chars.len() && consumed > 0 {
            proof {
                reading::lemma_recognised_readable(s@, 0);
                assert(s@.subrange(0, s@.len() as int) =~= s@);
            }
            control_element_readable(chars[1], &chars)
        } else {
            true
        }
    }
}

impl Elements {
    /// Reads the elements of a text, escapes and all (see [`parse_text`]).
    pub fn from_text(s: &str) -> (r: Result<Elements, ParseElementError>)
        requires
            pieces_readable(text::unescape(s@)),
        ensures
            r matches Ok(es) && reads_as(text::unescape(s@), es.0@),
    {
        Ok(Elements(parse_text(s)))
    }
}

impl core::str::FromStr for Element {
    type Err = ParseElementError;

    /// As [`Element::from_text`]; a string that it cannot read is an error.
    fn from_str(s: &str) -> (r: Result<Element, ParseElementError>)
        ensures
            0 < tags::tag_len(s@, 0) == s@.len() && reading::sequence_unreadable(s@[1], s@)
                ==> r is Err,
            tags::tag_len(s@, 0) == 0 ==> (r matches Ok(Element::Text(t)) && t@ == s@),
            tags::tag_len(s@, 0) == s@.len() > 0 && !reading::sequence_unreadable(s@[1], s@)
                ==> (r matches Ok(e) && element::control_element_is(s@[1], s@, e)),
            0 < tags::tag_len(s@, 0) < s@.len() ==> r is Err,
    {
        if Element::readable(s) {
            Element::from_text(s)
        } else {
            Err(ParseElementError)
        }
    }
}

impl core::str::FromStr for Elements {
    type Err = ParseElementError;

    /// As [`Elements::from_text`]; a text that it cannot read is an error.
    fn from_str(s: &str) -> (r: Result<Elements, ParseElementError>)
        ensures
            !pieces_readable(text::unescape(s@)) ==> r is Err,
            pieces_readable(text::unescape(s@)) ==> (r matches Ok(es) && reads_as(
                text::unescape(s@),
                es.0@,
            )),
    {
        let unescaped = text::parse_escape(s);
        if control_sequences_readable(unescaped.as_str()) {
            Ok(Elements(parse_control(unescaped.as_str())))
        } else {
            Err(ParseElementError)
        }
    }
}

} // verus!
