//! Character classes and the scanning primitives that the control-sequence grammar is
//! written with.
use vstd::prelude::*;

verus! {

/// An ASCII decimal digit.
pub open spec fn is_digit(c: char) -> bool {
    '0' <= c && c <= '9'
}

/// An ASCII hexadecimal digit (either case).
pub open spec fn is_hex_digit(c: char) -> bool {
    is_digit(c) || ('a' <= c && c <= 'f') || ('A' <= c && c <= 'F')
}

/// The characters of Unicode's `White_Space` property, which `str::trim` removes.
pub open spec fn is_whitespace(c: char) -> bool {
    ||| ('\u{9}' <= c && c <= '\u{d}')
    ||| c == ' '
    ||| c == '\u{85}'
    ||| c == '\u{a0}'
    ||| c == '\u{1680}'
    ||| ('\u{2000}' <= c && c <= '\u{200a}')
    ||| c == '\u{2028}'
    ||| c == '\u{2029}'
    ||| c == '\u{202f}'
    ||| c == '\u{205f}'
    ||| c == '\u{3000}'
}

/// The sets of characters that the grammar scans over.
#[derive(Clone, Copy)]
pub enum CharClass {
    /// `[0-9]`
    Digit,
    /// `[0-9.]`
    Numeral,
    /// `[+\-0-9.]`
    Signed,
    /// `[+\-*0-9.]`
    Scalar,
    /// `[*0-9.]`
    Time,
    /// `[+\-,0-9.]`
    Position,
    /// `[BIS]`
    Style,
    /// any character but the given one
    Other(char),
}

/// Whether `c` belongs to the class.
pub open spec fn in_class(cls: CharClass, c: char) -> bool {
    match cls {
        CharClass::Digit => is_digit(c),
        CharClass::Numeral => is_digit(c) || c == '.',
        CharClass::Signed => is_digit(c) || c == '.' || c == '+' || c == '-',
        CharClass::Scalar => is_digit(c) || c == '.' || c == '+' || c == '-' || c == '*',
        CharClass::Time => is_digit(c) || c == '.' || c == '*',
        CharClass::Position => is_digit(c) || c == '.' || c == '+' || c == '-' || c == ',',
        CharClass::Style => c == 'B' || c == 'I' || c == 'S',
        CharClass::Other(x) => c != x,
    }
}

/// The end of the longest run of class characters that starts at `i`: the first index at
/// or after `i` whose character is outside the class, or the length of `s`.
pub open spec fn run_end(s: Seq<char>, i: int, cls: CharClass) -> int
    decreases s.len() - i,
{
    if i < 0 || i >= s.len() {
        i
    } else if !in_class(cls, s[i]) {
        i
    } else {
        run_end(s, i + 1, cls)
    }
}

/// The first index at or after `i` that holds `c`, or the length of `s`.
pub open spec fn find_char(s: Seq<char>, i: int, c: char) -> int {
    run_end(s, i, CharClass::Other(c))
}

/// What characterises `run_end`: every character in between is in the class, and the
/// run stops at the end or at a character outside it.
pub proof fn lemma_run_end(s: Seq<char>, i: int, cls: CharClass)
    requires
        0 <= i <= s.len(),
    ensures
        i <= run_end(s, i, cls) <= s.len(),
        forall|j: int| i <= j < run_end(s, i, cls) ==> in_class(cls, #[trigger] s[j]),
        run_end(s, i, cls) < s.len() ==> !in_class(cls, s[run_end(s, i, cls)]),
    decreases s.len() - i,
{
    if i < s.len() && in_class(cls, s[i]) {
        lemma_run_end(s, i + 1, cls);
    }
}

/// Every character of `t` is in the class.
pub open spec fn all_in(t: Seq<char>, cls: CharClass) -> bool {
    forall|j: int| 0 <= j < t.len() ==> in_class(cls, #[trigger] t[j])
}

/// A run that is known to stop at `j` ends at `j`.
pub proof fn lemma_run_end_at(s: Seq<char>, i: int, j: int, cls: CharClass)
    requires
        0 <= i <= j <= s.len(),
        forall|m: int| i <= m < j ==> in_class(cls, #[trigger] s[m]),
        j == s.len() || !in_class(cls, s[j]),
    ensures
        run_end(s, i, cls) == j,
    decreases j - i,
{
    if i < j {
        lemma_run_end_at(s, i + 1, j, cls);
    }
}

/// A run over a shifted sequence ends at the shifted place.
pub proof fn lemma_run_end_subrange(s: Seq<char>, lo: int, hi: int, i: int, cls: CharClass)
    requires
        0 <= lo <= i <= hi <= s.len(),
        run_end(s, i, cls) <= hi,
    ensures
        run_end(s.subrange(lo, hi), i - lo, cls) == run_end(s, i, cls) - lo,
    decreases hi - i,
{
    let t = s.subrange(lo, hi);
    lemma_run_end(s, i, cls);
    if i < hi {
        assert(t[i - lo] == s[i]);
        if in_class(cls, s[i]) {
            lemma_run_end_subrange(s, lo, hi, i + 1, cls);
        }
    }
}

/// A run over a suffix ends where the run over the whole ends.
pub proof fn lemma_run_end_skip(s: Seq<char>, a: int, j: int, cls: CharClass)
    requires
        0 <= a <= j <= s.len(),
    ensures
        run_end(s.skip(a), j - a, cls) == run_end(s, j, cls) - a,
{
    lemma_run_end(s, j, cls);
    lemma_run_end_subrange(s, a, s.len() as int, j, cls);
    assert(s.subrange(a, s.len() as int) =~= s.skip(a));
}

/// Whether `c` belongs to the class.
pub fn class_contains(cls: CharClass, c: char) -> (b: bool)
    ensures
        b == in_class(cls, c),
{
    let digit = '0' <= c && c <= '9';
    match cls {
        CharClass::Digit => digit,
        CharClass::Numeral => digit || c == '.',
        CharClass::Signed => digit || c == '.' || c == '+' || c == '-',
        CharClass::Scalar => digit || c == '.' || c == '+' || c == '-' || c == '*',
        CharClass::Time => digit || c == '.' || c == '*',
        CharClass::Position => digit || c == '.' || c == '+' || c == '-' || c == ',',
        CharClass::Style => c == 'B' || c == 'I' || c == 'S',
        CharClass::Other(x) => c != x,
    }
}

/// The end of the run of class characters that starts at `i`.
pub fn scan_run(s: &Vec<char>, i: usize, cls: CharClass) -> (r: usize)
    requires
        i <= s.len(),
    ensures
        r == run_end(s@, i as int, cls),
        i <= r <= s.len(),
{
    let mut j = i;
    while j < s.len() && class_contains(cls, s[j])
        invariant
            i <= j <= s.len(),
            run_end(s@, j as int, cls) == run_end(s@, i as int, cls),
        decreases s.len() - j,
    {
        j = j + 1;
    }
    j
}

/// Whether the character is white space in Unicode's sense.
pub fn char_is_whitespace(c: char) -> (b: bool)
    ensures
        b == is_whitespace(c),
{
    ('\u{9}' <= c && c <= '\u{d}') || c == ' ' || c == '\u{85}' || c == '\u{a0}'
        || c == '\u{1680}' || ('\u{2000}' <= c && c <= '\u{200a}') || c == '\u{2028}'
        || c == '\u{2029}' || c == '\u{202f}' || c == '\u{205f}' || c == '\u{3000}'
}

} // verus!
