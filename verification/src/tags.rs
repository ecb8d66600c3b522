//! The grammar of control sequences: where a `<...>` sequence that starts at a given
//! position ends, if it is one.
//!
//! Each tag kind is recognised as the regular expression of its row in the format's tag
//! table matches it (leftmost-first, as a backtracking matcher reads it). For most kinds the text
//! between the tag letter and the closing `>` is made of characters that cannot be `>`, so
//! only one end is possible: the first character outside that set, which must be `>`.
use vstd::prelude::*;

use crate::decimal;
use crate::scan::{self, CharClass, scan_run};
use crate::text::chars_of_range;

verus! {

/// An optional numeral: `(NUM)?`.
pub open spec fn opt_numeral(t: Seq<char>) -> bool {
    t.len() == 0 || decimal::is_numeral(t)
}

/// An optional signed numeral: `([+-]?NUM)?`.
pub open spec fn opt_signed(t: Seq<char>) -> bool {
    t.len() == 0 || decimal::is_signed_numeral(t)
}

/// A size value: `([+-]?NUM|\*NUM)?`.
pub open spec fn opt_scalar(t: Seq<char>) -> bool {
    t.len() == 0 || decimal::is_signed_numeral(t) || (t[0] == '*' && decimal::is_numeral(t.skip(1)))
}

/// A wait time: `(\*NUM|NUM)?`.
pub open spec fn opt_wait(t: Seq<char>) -> bool {
    t.len() == 0 || decimal::is_numeral(t) || (t[0] == '*' && decimal::is_numeral(t.skip(1)))
}

/// A clear time: `(\*?[0-9.]+)?`.
pub open spec fn opt_clear(t: Seq<char>) -> bool {
    ||| t.len() == 0
    ||| scan::all_in(t, CharClass::Numeral)
    ||| (t.len() > 1 && t[0] == '*' && scan::all_in(t.skip(1), CharClass::Numeral))
}

/// `t` cut at every `c`.
pub open spec fn split_on(t: Seq<char>, c: char) -> Seq<Seq<char>>
    decreases t.len(),
{
    let k = scan::find_char(t, 0, c);
    if k < 0 || k >= t.len() {
        seq![t]
    } else {
        seq![t.take(k)] + split_on(t.skip(k + 1), c)
    }
}

/// A position body: `(AX)?(,(AX)?(,(AX)?)?)?` with `AX = [+-]?NUM`: up to three
/// comma-separated parts, each empty or a signed numeral.
pub open spec fn position_body(t: Seq<char>) -> bool {
    let parts = split_on(t, ',');
    parts.len() <= 3 && forall|j: int| 0 <= j < parts.len() ==> opt_signed(#[trigger] parts[j])
}

/// The length of a tag closed by the first `>` at or after `from`, counted from `i`.
pub open spec fn gt_closed_len(s: Seq<char>, i: int, from: int) -> int {
    let e = scan::find_char(s, from, '>');
    if e < s.len() {
        e + 1 - i
    } else {
        0
    }
}

/// The end (after `>`) of `NUM>` starting at `a`, or 0.
pub open spec fn numeral_then_gt(s: Seq<char>, a: int) -> int {
    let q = scan::run_end(s, a, CharClass::Numeral);
    if q < s.len() && s[q] == '>' && decimal::is_numeral(s.subrange(a, q)) {
        q + 1
    } else {
        0
    }
}

/// After the comma at `m` that ends the font of a size tag: `,[BIS]*` with an optional
/// `,NUM`, or failing that `,NUM`, then `>`. The end after `>`, or 0.
pub open spec fn size_style_end(s: Seq<char>, m: int) -> int {
    let d = scan::run_end(s, m + 1, CharClass::Style);
    let styled = if d < s.len() && s[d] == '>' {
        d + 1
    } else if d < s.len() && s[d] == ',' {
        numeral_then_gt(s, d + 1)
    } else {
        0
    };
    if styled > 0 {
        styled
    } else {
        numeral_then_gt(s, m + 1)
    }
}

/// The end after the last `>` in `lo..hi`, or 0.
pub open spec fn last_gt_end(s: Seq<char>, lo: int, hi: int) -> int
    decreases hi - lo,
{
    if hi <= lo {
        0
    } else if s[hi - 1] == '>' {
        hi
    } else {
        last_gt_end(s, lo, hi - 1)
    }
}

/// After the comma at `k` that ends the size value of a size tag: the font `[^,]*` is
/// taken as long as it can be; with it running up to the next comma the rest must follow,
/// and otherwise the font ends at the last `>` before that comma.
pub open spec fn size_font_end(s: Seq<char>, k: int) -> int {
    let m = scan::find_char(s, k + 1, ',');
    let at_comma = if m < s.len() {
        size_style_end(s, m)
    } else {
        0
    };
    if at_comma > 0 {
        at_comma
    } else {
        last_gt_end(s, k + 1, m)
    }
}

/// `<s([+-]?NUM|\*NUM)?(,[^,]*(,[BIS]*)?(,NUM)?)?>`
pub open spec fn size_len(s: Seq<char>, i: int) -> int {
    let k = scan::run_end(s, i + 2, CharClass::Scalar);
    if k >= s.len() || !opt_scalar(s.subrange(i + 2, k)) {
        0
    } else if s[k] == '>' {
        k + 1 - i
    } else if s[k] == ',' {
        let e = size_font_end(s, k);
        if e > 0 {
            e - i
        } else {
            0
        }
    } else {
        0
    }
}

/// The length of a tag whose body is a run of one class followed by `>`.
pub open spec fn run_len(s: Seq<char>, i: int, from: int, cls: CharClass, body_ok: bool) -> int {
    let e = scan::run_end(s, from, cls);
    if e < s.len() && s[e] == '>' && body_ok {
        e + 1 - i
    } else {
        0
    }
}

/// The body of a run-shaped tag: from `from` to the end of the run.
pub open spec fn run_body(s: Seq<char>, from: int, cls: CharClass) -> Seq<char> {
    s.subrange(from, scan::run_end(s, from, cls))
}

/// `<r(NUM)?>`
pub open spec fn speed_len(s: Seq<char>, i: int) -> int {
    run_len(s, i, i + 2, CharClass::Numeral, opt_numeral(run_body(s, i + 2, CharClass::Numeral)))
}

/// `<w(\*NUM|NUM)?>`
pub open spec fn wait_len(s: Seq<char>, i: int) -> int {
    run_len(s, i, i + 2, CharClass::Time, opt_wait(run_body(s, i + 2, CharClass::Time)))
}

/// `<c(\*?[0-9.]+)?>`
pub open spec fn clear_len(s: Seq<char>, i: int) -> int {
    run_len(s, i, i + 2, CharClass::Time, opt_clear(run_body(s, i + 2, CharClass::Time)))
}

/// `<p((AX)?(,(AX)?(,(AX)?)?)?)?>`
pub open spec fn position_len(s: Seq<char>, i: int) -> int {
    run_len(s, i, i + 2, CharClass::Position, position_body(run_body(s, i + 2, CharClass::Position)))
}

/// `<g[wh](NUM)?>`
pub open spec fn spacing_len(s: Seq<char>, i: int) -> int {
    if i + 2 < s.len() && (s[i + 2] == 'w' || s[i + 2] == 'h') {
        run_len(s, i, i + 3, CharClass::Numeral, opt_numeral(run_body(s, i + 3, CharClass::Numeral)))
    } else {
        0
    }
}

/// `<t([wh](NUM)?|r([+-]?NUM)?)>`
pub open spec fn transform_len(s: Seq<char>, i: int) -> int {
    if i + 2 < s.len() && (s[i + 2] == 'w' || s[i + 2] == 'h') {
        run_len(s, i, i + 3, CharClass::Numeral, opt_numeral(run_body(s, i + 3, CharClass::Numeral)))
    } else if i + 2 < s.len() && s[i + 2] == 'r' {
        run_len(s, i, i + 3, CharClass::Signed, opt_signed(run_body(s, i + 3, CharClass::Signed)))
    } else {
        0
    }
}

/// Whether `a b c` stands at `j`.
pub open spec fn three_at(s: Seq<char>, j: int, a: char, b: char, c: char) -> bool {
    0 <= j && j + 3 <= s.len() && s[j] == a && s[j + 1] == b && s[j + 2] == c
}

/// The first index at or after `from` where `a b c` stands, or the length of `s`.
pub open spec fn find_three(s: Seq<char>, from: int, a: char, b: char, c: char) -> int
    decreases s.len() - from,
{
    if from < 0 || from + 3 > s.len() {
        s.len() as int
    } else if three_at(s, from, a, b, c) {
        from
    } else {
        find_three(s, from + 1, a, b, c)
    }
}

/// The number run of a ruby separator `<!(NUM)?(\+)?>` that starts at `p`.
pub open spec fn ruby_number_end(s: Seq<char>, p: int) -> int {
    scan::run_end(s, p + 2, CharClass::Numeral)
}

/// Whether a ruby separator `<!(NUM)?(\+)?>` starts at `p`.
pub open spec fn ruby_mark_at(s: Seq<char>, p: int) -> bool {
    let q = ruby_number_end(s, p);
    &&& 0 <= p && p + 1 < s.len()
    &&& s[p] == '<' && s[p + 1] == '!'
    &&& opt_numeral(s.subrange(p + 2, q))
    &&& q < s.len()
    &&& (s[q] == '>' || (s[q] == '+' && q + 1 < s.len() && s[q + 1] == '>'))
}

/// The end (after `>`) of the ruby separator at `p`.
pub open spec fn ruby_mark_end(s: Seq<char>, p: int) -> int {
    let q = ruby_number_end(s, p);
    if s[q] == '>' {
        q + 1
    } else {
        q + 2
    }
}

/// The first index at or after `from` where a ruby separator starts, or the length of `s`.
pub open spec fn find_ruby_mark(s: Seq<char>, from: int) -> int
    decreases s.len() - from,
{
    if from < 0 || from >= s.len() {
        s.len() as int
    } else if ruby_mark_at(s, from) {
        from
    } else {
        find_ruby_mark(s, from + 1)
    }
}

/// Whether `a b` stands at `j`.
pub open spec fn two_at(s: Seq<char>, j: int, a: char, b: char) -> bool {
    0 <= j && j + 2 <= s.len() && s[j] == a && s[j + 1] == b
}

/// The first index at or after `from` where `a b` stands, or the length of `s`.
pub open spec fn find_two(s: Seq<char>, from: int, a: char, b: char) -> int
    decreases s.len() - from,
{
    if from < 0 || from + 2 > s.len() {
        s.len() as int
    } else if two_at(s, from, a, b) {
        from
    } else {
        find_two(s, from + 1, a, b)
    }
}

/// `<\?=?[\s\S]*?\?>`: a script runs from `<?` to the first `?>` after it.
pub open spec fn script_len(s: Seq<char>, i: int) -> int {
    let j = find_two(s, i + 2, '?', '>');
    if j < s.len() {
        j + 2 - i
    } else {
        0
    }
}

/// `<//[\s\S]*?//>`: up to the first `//>`.
pub open spec fn comment_len(s: Seq<char>, i: int) -> int {
    if three_at(s, i, '<', '/', '/') {
        let j = find_three(s, i + 3, '/', '/', '>');
        if j + 3 <= s.len() {
            j + 3 - i
        } else {
            0
        }
    } else {
        0
    }
}

/// `</>[\s\S]*?<!((NUM)?)(\+)?>[\s\S]*?</>`: the base runs to the first ruby separator,
/// the ruby text to the first `</>` after it.
pub open spec fn ruby_len(s: Seq<char>, i: int) -> int {
    if three_at(s, i, '<', '/', '>') {
        let p = find_ruby_mark(s, i + 3);
        if p < s.len() {
            let r = find_three(s, ruby_mark_end(s, p), '<', '/', '>');
            if r + 3 <= s.len() {
                r + 3 - i
            } else {
                0
            }
        } else {
            0
        }
    } else {
        0
    }
}

/// A comment, else a ruby, else a bare `</>`.
pub open spec fn slash_len(s: Seq<char>, i: int) -> int {
    if comment_len(s, i) > 0 {
        comment_len(s, i)
    } else if ruby_len(s, i) > 0 {
        ruby_len(s, i)
    } else if three_at(s, i, '<', '/', '>') {
        3
    } else {
        0
    }
}

/// How many characters the control sequence that starts at `i` takes, or 0 when none does.
pub open spec fn tag_len(s: Seq<char>, i: int) -> int {
    if i < 0 || i + 1 >= s.len() || s[i] != '<' {
        0
    } else {
        let next = s[i + 1];
        if next == '#' || next == '@' || next == '$' {
            gt_closed_len(s, i, i + 2)
        } else if next == '?' {
            script_len(s, i)
        } else if next == 's' {
            size_len(s, i)
        } else if next == 'r' {
            speed_len(s, i)
        } else if next == 'w' {
            wait_len(s, i)
        } else if next == 'c' {
            clear_len(s, i)
        } else if next == 'p' {
            position_len(s, i)
        } else if next == 'g' {
            spacing_len(s, i)
        } else if next == 't' {
            transform_len(s, i)
        } else if next == '/' {
            slash_len(s, i)
        } else {
            0
        }
    }
}


/// Where `find_three` can land.
pub proof fn lemma_find_three(s: Seq<char>, from: int, a: char, b: char, c: char)
    requires
        0 <= from <= s.len(),
    ensures
        from <= find_three(s, from, a, b, c) <= s.len(),
        find_three(s, from, a, b, c) < s.len() ==> three_at(s, find_three(s, from, a, b, c), a, b, c),
    decreases s.len() - from,
{
    if from + 3 <= s.len() && !three_at(s, from, a, b, c) {
        lemma_find_three(s, from + 1, a, b, c);
    }
}

/// Where `find_two` can land.
pub proof fn lemma_find_two(s: Seq<char>, from: int, a: char, b: char)
    requires
        0 <= from <= s.len(),
    ensures
        from <= find_two(s, from, a, b) <= s.len(),
        find_two(s, from, a, b) < s.len() ==> two_at(s, find_two(s, from, a, b), a, b),
    decreases s.len() - from,
{
    if from + 2 <= s.len() && !two_at(s, from, a, b) {
        lemma_find_two(s, from + 1, a, b);
    }
}

/// Where `find_ruby_mark` can land, and where a separator ends.
pub proof fn lemma_find_ruby_mark(s: Seq<char>, from: int)
    requires
        0 <= from <= s.len(),
    ensures
        from <= find_ruby_mark(s, from) <= s.len(),
        find_ruby_mark(s, from) < s.len() ==> ruby_mark_at(s, find_ruby_mark(s, from)),
        find_ruby_mark(s, from) < s.len() ==> find_ruby_mark(s, from) + 2 < ruby_mark_end(s, find_ruby_mark(s, from)) <= s.len(),
    decreases s.len() - from,
{
    if from < s.len() && !ruby_mark_at(s, from) {
        lemma_find_ruby_mark(s, from + 1);
    }
    if from < s.len() && ruby_mark_at(s, from) {
        scan::lemma_run_end(s, from + 2, CharClass::Numeral);
    }
}

/// Where `last_gt_end` can land.
pub proof fn lemma_last_gt_end(s: Seq<char>, lo: int, hi: int)
    requires
        0 <= lo,
        hi <= s.len(),
    ensures
        last_gt_end(s, lo, hi) == 0 || lo < last_gt_end(s, lo, hi) <= hi,
    decreases hi - lo,
{
    if hi > lo && s[hi - 1] != '>' {
        lemma_last_gt_end(s, lo, hi - 1);
    }
}

/// A control sequence takes at least three characters and fits in what is left.
pub proof fn lemma_tag_len_bounds(s: Seq<char>, i: int)
    ensures
        0 <= tag_len(s, i),
        tag_len(s, i) > 0 ==> 0 <= i && 3 <= tag_len(s, i) <= s.len() - i,
{
    if 0 <= i && i + 1 < s.len() {
        let next = s[i + 1];
        if next == '/' {
            if three_at(s, i, '<', '/', '/') {
                lemma_find_three(s, i + 3, '/', '/', '>');
            }
            if three_at(s, i, '<', '/', '>') {
                lemma_find_ruby_mark(s, i + 3);
                let p = find_ruby_mark(s, i + 3);
                if p < s.len() {
                    lemma_find_three(s, ruby_mark_end(s, p), '<', '/', '>');
                }
            }
        } else if next == 's' {
            scan::lemma_run_end(s, i + 2, CharClass::Scalar);
            let k = scan::run_end(s, i + 2, CharClass::Scalar);
            if k < s.len() && s[k] == ',' {
                scan::lemma_run_end(s, k + 1, CharClass::Other(','));
                let m = scan::find_char(s, k + 1, ',');
                lemma_last_gt_end(s, k + 1, m);
                if m < s.len() {
                    scan::lemma_run_end(s, m + 1, CharClass::Style);
                    scan::lemma_run_end(s, m + 1, CharClass::Numeral);
                    let d = scan::run_end(s, m + 1, CharClass::Style);
                    if d < s.len() {
                        scan::lemma_run_end(s, d + 1, CharClass::Numeral);
                    }
                }
            }
        } else if next == '?' {
            if i + 2 <= s.len() {
                lemma_find_two(s, i + 2, '?', '>');
            }
        } else if i + 2 <= s.len() {
            scan::lemma_run_end(s, i + 2, CharClass::Other('>'));
            scan::lemma_run_end(s, i + 2, CharClass::Numeral);
            scan::lemma_run_end(s, i + 2, CharClass::Time);
            scan::lemma_run_end(s, i + 2, CharClass::Position);
            if i + 3 <= s.len() {
                scan::lemma_run_end(s, i + 3, CharClass::Numeral);
                scan::lemma_run_end(s, i + 3, CharClass::Signed);
            }
        }
    }
}

/// Whether `t` is `(NUM)?`.
fn check_opt_numeral(t: &Vec<char>) -> (b: bool)
    ensures
        b == opt_numeral(t@),
{
    proof {
        assert(t@.skip(0) =~= t@);
    }
    t.len() == 0 || decimal::check_numeral(t, 0)
}

/// Whether `t` is `([+-]?NUM)?`.
fn check_opt_signed(t: &Vec<char>) -> (b: bool)
    ensures
        b == opt_signed(t@),
{
    t.len() == 0 || decimal::check_signed_numeral(t)
}

/// Whether `t` is `([+-]?NUM|\*NUM)?`.
fn check_opt_scalar(t: &Vec<char>) -> (b: bool)
    ensures
        b == opt_scalar(t@),
{
    if t.len() == 0 {
        true
    } else if decimal::check_signed_numeral(t) {
        true
    } else {
        t[0] == '*' && decimal::check_numeral(t, 1)
    }
}

/// Whether `t` is `(\*NUM|NUM)?`.
fn check_opt_wait(t: &Vec<char>) -> (b: bool)
    ensures
        b == opt_wait(t@),
{
    proof {
        assert(t@.skip(0) =~= t@);
    }
    if t.len() == 0 {
        true
    } else if decimal::check_numeral(t, 0) {
        true
    } else {
        t[0] == '*' && decimal::check_numeral(t, 1)
    }
}

/// Whether every character of `t[start..]` is in the class.
fn check_all_in(t: &Vec<char>, start: usize, cls: CharClass) -> (b: bool)
    requires
        start <= t.len(),
    ensures
        b == scan::all_in(t@.skip(start as int), cls),
{
    let e = scan_run(t, start, cls);
    proof {
        scan::lemma_run_end(t@, start as int, cls);
        let u = t@.skip(start as int);
        if e == t.len() {
            assert forall|j: int| 0 <= j < u.len() implies scan::in_class(cls, #[trigger] u[j]) by {
                assert(u[j] == t@[start + j]);
            }
        } else {
            assert(u[e - start] == t@[e as int]);
        }
    }
    e == t.len()
}

/// Whether `t` is `(\*?[0-9.]+)?`.
fn check_opt_clear(t: &Vec<char>) -> (b: bool)
    ensures
        b == opt_clear(t@),
{
    proof {
        assert(t@.skip(0) =~= t@);
    }
    if t.len() == 0 {
        true
    } else if check_all_in(t, 0, CharClass::Numeral) {
        true
    } else {
        t.len() > 1 && t[0] == '*' && check_all_in(t, 1, CharClass::Numeral)
    }
}

/// The pieces of `t` between the occurrences of `c`, as index ranges.
pub(crate) fn split_ranges(t: &Vec<char>, c: char) -> (v: Vec<(usize, usize)>)
    ensures
        v.len() == split_on(t@, c).len(),
        forall|j: int| 0 <= j < v.len() ==> {
            &&& (#[trigger] v[j]).0 <= v[j].1 <= t.len()
            &&& t@.subrange(v[j].0 as int, v[j].1 as int) == split_on(t@, c)[j]
        },
{
    let mut v: Vec<(usize, usize)> = Vec::new();
    let mut pos: usize = 0;
    let len = t.len();
    assert(t@.skip(0) =~= t@);
    loop
        invariant
            pos <= len == t.len(),
            forall|j: int| 0 <= j < v.len() ==> (#[trigger] v[j]).0 <= v[j].1 <= t.len(),
            split_on(t@, c) =~= Seq::new(v.len() as nat, |j: int| t@.subrange(v[j].0 as int, v[j].1 as int))
                + split_on(t@.skip(pos as int), c),
        decreases len - pos,
    {
        let ghost rest = t@.skip(pos as int);
        let k = scan_run(t, pos, CharClass::Other(c));
        proof {
            scan::lemma_run_end_skip(t@, pos as int, pos as int, CharClass::Other(c));
        }
        let ghost old_parts = Seq::new(v.len() as nat, |j: int| t@.subrange(v[j].0 as int, v[j].1 as int));
        if k == len {
            v.push((pos, len));
            proof {
                assert(rest =~= t@.subrange(pos as int, len as int));
                let parts = Seq::new(v.len() as nat, |j: int| t@.subrange(v[j].0 as int, v[j].1 as int));
                assert(parts =~= old_parts + seq![rest]);
            }
            return v;
        } else {
            v.push((pos, k));
            proof {
                assert(rest.take(k - pos) =~= t@.subrange(pos as int, k as int));
                assert(rest.skip(k - pos + 1) =~= t@.skip(k + 1));
                let parts = Seq::new(v.len() as nat, |j: int| t@.subrange(v[j].0 as int, v[j].1 as int));
                assert(parts =~= old_parts + seq![rest.take(k - pos)]);
            }
            pos = k + 1;
        }
    }
}

/// Whether `t` is a position body (see [`position_body`]).
fn check_position_body(t: &Vec<char>) -> (b: bool)
    ensures
        b == position_body(t@),
{
    let parts = split_ranges(t, ',');
    if parts.len() > 3 {
        return false;
    }
    let mut j: usize = 0;
    while j < parts.len()
        invariant
            parts.len() == split_on(t@, ',').len() <= 3,
            forall|m: int| 0 <= m < parts.len() ==> {
                &&& (#[trigger] parts[m]).0 <= parts[m].1 <= t.len()
                &&& t@.subrange(parts[m].0 as int, parts[m].1 as int) == split_on(t@, ',')[m]
            },
            j <= parts.len(),
            forall|m: int| 0 <= m < j ==> opt_signed(#[trigger] split_on(t@, ',')[m]),
        decreases parts.len() - j,
    {
        let (lo, hi) = parts[j];
        let piece = chars_of_range(t, lo, hi);
        if !check_opt_signed(&piece) {
            return false;
        }
        j = j + 1;
    }
    true
}

/// The length of a tag closed by the first `>` at or after `from`.
fn gt_closed_length(s: &Vec<char>, i: usize, from: usize) -> (n: usize)
    requires
        i < from <= s.len(),
    ensures
        n == gt_closed_len(s@, i as int, from as int),
{
    let e = scan_run(s, from, CharClass::Other('>'));
    if e < s.len() {
        e + 1 - i
    } else {
        0
    }
}

/// Which body language a run-shaped tag takes.
#[derive(Clone, Copy)]
enum BodyKind {
    Numeral,
    Signed,
    Wait,
    Clear,
    Position,
}

/// Whether the body is in the language.
fn check_body(t: &Vec<char>, kind: BodyKind) -> (b: bool)
    ensures
        b == match kind {
            BodyKind::Numeral => opt_numeral(t@),
            BodyKind::Signed => opt_signed(t@),
            BodyKind::Wait => opt_wait(t@),
            BodyKind::Clear => opt_clear(t@),
            BodyKind::Position => position_body(t@),
        },
{
    match kind {
        BodyKind::Numeral => check_opt_numeral(t),
        BodyKind::Signed => check_opt_signed(t),
        BodyKind::Wait => check_opt_wait(t),
        BodyKind::Clear => check_opt_clear(t),
        BodyKind::Position => check_position_body(t),
    }
}

/// The length of a run-shaped tag.
fn run_length(s: &Vec<char>, i: usize, from: usize, cls: CharClass, kind: BodyKind) -> (n: usize)
    requires
        i < from <= s.len(),
    ensures
        n == run_len(s@, i as int, from as int, cls, match kind {
            BodyKind::Numeral => opt_numeral(run_body(s@, from as int, cls)),
            BodyKind::Signed => opt_signed(run_body(s@, from as int, cls)),
            BodyKind::Wait => opt_wait(run_body(s@, from as int, cls)),
            BodyKind::Clear => opt_clear(run_body(s@, from as int, cls)),
            BodyKind::Position => position_body(run_body(s@, from as int, cls)),
        }),
{
    let e = scan_run(s, from, cls);
    if e < s.len() && s[e] == '>' {
        let body = chars_of_range(s, from, e);
        if check_body(&body, kind) {
            e + 1 - i
        } else {
            0
        }
    } else {
        0
    }
}


/// The end after `NUM>` starting at `a`, or 0.
fn numeral_then_gt_exec(s: &Vec<char>, a: usize) -> (n: usize)
    requires
        a <= s.len(),
    ensures
        n == numeral_then_gt(s@, a as int),
        n == 0 || n > a,
{
    let q = scan_run(s, a, CharClass::Numeral);
    if q < s.len() && s[q] == '>' {
        let body = chars_of_range(s, a, q);
        proof {
            assert(body@.skip(0) =~= body@);
        }
        if decimal::check_numeral(&body, 0) {
            q + 1
        } else {
            0
        }
    } else {
        0
    }
}

/// See [`size_style_end`].
fn size_style_end_exec(s: &Vec<char>, m: usize) -> (n: usize)
    requires
        m < s.len(),
    ensures
        n == size_style_end(s@, m as int),
        n == 0 || n > m,
{
    let d = scan_run(s, m + 1, CharClass::Style);
    let styled = if d < s.len() && s[d] == '>' {
        d + 1
    } else if d < s.len() && s[d] == ',' {
        numeral_then_gt_exec(s, d + 1)
    } else {
        0
    };
    if styled > 0 {
        styled
    } else {
        numeral_then_gt_exec(s, m + 1)
    }
}

/// See [`last_gt_end`].
fn last_gt_end_exec(s: &Vec<char>, lo: usize, hi: usize) -> (n: usize)
    requires
        lo <= hi <= s.len(),
    ensures
        n == last_gt_end(s@, lo as int, hi as int),
        n == 0 || n > lo,
{
    let mut h = hi;
    while h > lo && s[h - 1] != '>'
        invariant
            lo <= h <= hi <= s.len(),
            last_gt_end(s@, lo as int, h as int) == last_gt_end(s@, lo as int, hi as int),
        decreases h,
    {
        h = h - 1;
    }
    if h > lo {
        h
    } else {
        0
    }
}

/// See [`size_len`].
fn size_length(s: &Vec<char>, i: usize) -> (n: usize)
    requires
        i + 2 <= s.len(),
    ensures
        n == size_len(s@, i as int),
{
    let k = scan_run(s, i + 2, CharClass::Scalar);
    if k >= s.len() {
        return 0;
    }
    let body = chars_of_range(s, i + 2, k);
    if !check_opt_scalar(&body) {
        0
    } else if s[k] == '>' {
        k + 1 - i
    } else if s[k] == ',' {
        let m = scan_run(s, k + 1, CharClass::Other(','));
        let at_comma = if m < s.len() {
            size_style_end_exec(s, m)
        } else {
            0
        };
        let e = if at_comma > 0 {
            at_comma
        } else {
            last_gt_end_exec(s, k + 1, m)
        };
        proof {
            scan::lemma_run_end(s@, k + 1, CharClass::Other(','));
            assert(e == size_font_end(s@, k as int));
            assert(e == 0 || e > k);
        }
        if e > 0 {
            e - i
        } else {
            0
        }
    } else {
        0
    }
}

/// Whether `a b c` stands at `j`.
pub(crate) fn three_at_exec(s: &Vec<char>, j: usize, a: char, b: char, c: char) -> (r: bool)
    ensures
        r == three_at(s@, j as int, a, b, c),
{
    j < s.len() && s.len() - j >= 3 && s[j] == a && s[j + 1] == b && s[j + 2] == c
}

/// See [`find_two`].
fn find_two_exec(s: &Vec<char>, from: usize, a: char, b: char) -> (r: usize)
    requires
        from <= s.len(),
    ensures
        r == find_two(s@, from as int, a, b),
{
    let mut j = from;
    while j < s.len() && s.len() - j >= 2 && !(s[j] == a && s[j + 1] == b)
        invariant
            from <= j <= s.len(),
            find_two(s@, j as int, a, b) == find_two(s@, from as int, a, b),
        decreases s.len() - j,
    {
        j = j + 1;
    }
    if j < s.len() && s.len() - j >= 2 {
        j
    } else {
        s.len()
    }
}

/// See [`script_len`].
fn script_length(s: &Vec<char>, i: usize) -> (n: usize)
    requires
        i + 2 <= s.len(),
    ensures
        n == script_len(s@, i as int),
{
    let j = find_two_exec(s, i + 2, '?', '>');
    proof {
        lemma_find_two(s@, i + 2, '?', '>');
    }
    if j < s.len() {
        j + 2 - i
    } else {
        0
    }
}

/// See [`find_three`].
fn find_three_exec(s: &Vec<char>, from: usize, a: char, b: char, c: char) -> (r: usize)
    requires
        from <= s.len(),
    ensures
        r == find_three(s@, from as int, a, b, c),
        r == s.len() || (from <= r && r + 3 <= s.len()),
{
    let mut j = from;
    while j < s.len() && s.len() - j >= 3 && !three_at_exec(s, j, a, b, c)
        invariant
            from <= j <= s.len(),
            find_three(s@, j as int, a, b, c) == find_three(s@, from as int, a, b, c),
        decreases s.len() - j,
    {
        j = j + 1;
    }
    if j < s.len() && s.len() - j >= 3 {
        j
    } else {
        s.len()
    }
}

/// See [`ruby_mark_at`]; gives the end of the separator when there is one.
fn ruby_mark_exec(s: &Vec<char>, p: usize) -> (r: usize)
    requires
        p <= s.len(),
    ensures
        r > 0 <==> ruby_mark_at(s@, p as int),
        r > 0 ==> r == ruby_mark_end(s@, p as int) && p < r <= s.len(),
{
    if !(p < s.len() && s.len() - p >= 2 && s[p] == '<' && s[p + 1] == '!') {
        return 0;
    }
    let q = scan_run(s, p + 2, CharClass::Numeral);
    let body = chars_of_range(s, p + 2, q);
    if !check_opt_numeral(&body) || q >= s.len() {
        return 0;
    }
    if s[q] == '>' {
        q + 1
    } else if s[q] == '+' && q + 1 < s.len() && s[q + 1] == '>' {
        q + 2
    } else {
        0
    }
}

/// See [`find_ruby_mark`]; gives the position and the end of the separator.
pub(crate) fn find_ruby_mark_exec(s: &Vec<char>, from: usize) -> (r: (usize, usize))
    requires
        from <= s.len(),
    ensures
        r.0 == find_ruby_mark(s@, from as int),
        r.0 < s.len() ==> r.1 == ruby_mark_end(s@, r.0 as int) && from <= r.0 < r.1 <= s.len(),
{
    let mut j = from;
    while j < s.len()
        invariant
            from <= j <= s.len(),
            find_ruby_mark(s@, j as int) == find_ruby_mark(s@, from as int),
        decreases s.len() - j,
    {
        let e = ruby_mark_exec(s, j);
        if e > 0 {
            return (j, e);
        }
        j = j + 1;
    }
    (s.len(), 0)
}

/// See [`comment_len`].
fn comment_length(s: &Vec<char>, i: usize) -> (n: usize)
    requires
        i <= s.len(),
    ensures
        n == comment_len(s@, i as int),
{
    if three_at_exec(s, i, '<', '/', '/') {
        let j = find_three_exec(s, i + 3, '/', '/', '>');
        if j < s.len() {
            j + 3 - i
        } else {
            0
        }
    } else {
        0
    }
}

/// See [`ruby_len`].
fn ruby_length(s: &Vec<char>, i: usize) -> (n: usize)
    requires
        i <= s.len(),
    ensures
        n == ruby_len(s@, i as int),
{
    if three_at_exec(s, i, '<', '/', '>') {
        let (p, e) = find_ruby_mark_exec(s, i + 3);
        if p < s.len() {
            let r = find_three_exec(s, e, '<', '/', '>');
            if r < s.len() {
                r + 3 - i
            } else {
                0
            }
        } else {
            0
        }
    } else {
        0
    }
}

/// See [`slash_len`].
fn slash_length(s: &Vec<char>, i: usize) -> (n: usize)
    requires
        i <= s.len(),
    ensures
        n == slash_len(s@, i as int),
{
    let c = comment_length(s, i);
    if c > 0 {
        return c;
    }
    let r = ruby_length(s, i);
    if r > 0 {
        return r;
    }
    if three_at_exec(s, i, '<', '/', '>') {
        3
    } else {
        0
    }
}

/// How many characters the control sequence that starts at `i` takes, or 0 when none
/// does.
pub fn control_sequence_length(s: &Vec<char>, i: usize) -> (n: usize)
    requires
        i < s.len(),
    ensures
        n == tag_len(s@, i as int),
{
    if i + 1 >= s.len() || s[i] != '<' {
        return 0;
    }
    let next = s[i + 1];
    if next == '#' || next == '@' || next == '$' {
        gt_closed_length(s, i, i + 2)
    } else if next == '?' {
        script_length(s, i)
    } else if next == 's' {
        size_length(s, i)
    } else if next == 'r' {
        run_length(s, i, i + 2, CharClass::Numeral, BodyKind::Numeral)
    } else if next == 'w' {
        run_length(s, i, i + 2, CharClass::Time, BodyKind::Wait)
    } else if next == 'c' {
        run_length(s, i, i + 2, CharClass::Time, BodyKind::Clear)
    } else if next == 'p' {
        run_length(s, i, i + 2, CharClass::Position, BodyKind::Position)
    } else if next == 'g' {
        if i + 2 < s.len() && (s[i + 2] == 'w' || s[i + 2] == 'h') {
            run_length(s, i, i + 3, CharClass::Numeral, BodyKind::Numeral)
        } else {
            0
        }
    } else if next == 't' {
        if i + 2 < s.len() && (s[i + 2] == 'w' || s[i + 2] == 'h') {
            run_length(s, i, i + 3, CharClass::Numeral, BodyKind::Numeral)
        } else if i + 2 < s.len() && s[i + 2] == 'r' {
            run_length(s, i, i + 3, CharClass::Signed, BodyKind::Signed)
        } else {
            0
        }
    } else if next == '/' {
        slash_length(s, i)
    } else {
        0
    }
}

} // verus!
