//! Exact decimal numbers, as the control sequences write them.
use vstd::prelude::*;

use crate::scan::{self, CharClass};
use crate::text::{push_char, push_range};

verus! {

/// An unsigned number in the notation of `[0-9]+(\.[0-9]+)?|\.[0-9]+`: digits, and if a
/// point follows them, at least one digit after it.
pub open spec fn is_numeral(t: Seq<char>) -> bool {
    let k = scan::run_end(t, 0, CharClass::Digit);
    if k == t.len() {
        k > 0
    } else {
        t[k] == '.' && scan::run_end(t, k + 1, CharClass::Digit) == t.len() && t.len() > k + 1
    }
}

/// An unsigned number in the wider notation that Rust's float parser reads without an
/// exponent: digits with at most one point and at least one digit (`5`, `5.`, `.5`, `5.5`).
pub open spec fn is_float_literal(t: Seq<char>) -> bool {
    let k = scan::run_end(t, 0, CharClass::Digit);
    if k == t.len() {
        k > 0
    } else {
        t[k] == '.' && scan::run_end(t, k + 1, CharClass::Digit) == t.len() && t.len() > 1
    }
}

/// Whether the sequence starts with a sign character.
pub open spec fn has_sign(t: Seq<char>) -> bool {
    t.len() > 0 && (t[0] == '+' || t[0] == '-')
}

/// An optionally signed number in the notation of [`is_float_literal`].
pub open spec fn is_decimal_literal(t: Seq<char>) -> bool {
    if has_sign(t) {
        is_float_literal(t.skip(1))
    } else {
        is_float_literal(t)
    }
}

/// An optionally signed number in the notation of [`is_numeral`] (`[+-]?NUM`).
pub open spec fn is_signed_numeral(t: Seq<char>) -> bool {
    if has_sign(t) {
        is_numeral(t.skip(1))
    } else {
        is_numeral(t)
    }
}

/// `t` without its leading zeros.
pub open spec fn strip_leading_zeros(t: Seq<char>) -> Seq<char>
    decreases t.len(),
{
    if t.len() > 0 && t[0] == '0' {
        strip_leading_zeros(t.skip(1))
    } else {
        t
    }
}

/// `t` without its trailing zeros.
pub open spec fn strip_trailing_zeros(t: Seq<char>) -> Seq<char>
    decreases t.len(),
{
    if t.len() > 0 && t.last() == '0' {
        strip_trailing_zeros(t.drop_last())
    } else {
        t
    }
}

/// The canonical spelling of the number whose sign, integer digits and fraction digits
/// are given: no leading zeros (but `0` for an empty integer part), no trailing zeros in
/// the fraction, no point without a fraction, and no minus sign on zero. This is how the
/// shortest decimal form of a number reads, as `f64`'s `Display` prints it.
pub open spec fn canonical_text(negative: bool, int_digits: Seq<char>, frac_digits: Seq<char>) -> Seq<char> {
    let i = strip_leading_zeros(int_digits);
    let f = strip_trailing_zeros(frac_digits);
    let body = (if i.len() == 0 { seq!['0'] } else { i }) + (if f.len() == 0 {
        Seq::<char>::empty()
    } else {
        seq!['.'] + f
    });
    if negative && !(i.len() == 0 && f.len() == 0) {
        seq!['-'] + body
    } else {
        body
    }
}

/// The unsigned part of a literal.
pub open spec fn unsigned_part(t: Seq<char>) -> Seq<char> {
    if has_sign(t) {
        t.skip(1)
    } else {
        t
    }
}

/// The canonical spelling (see [`canonical_text`]) of the number that a literal of
/// [`is_decimal_literal`] writes.
pub open spec fn decimal_value(t: Seq<char>) -> Seq<char> {
    let u = unsigned_part(t);
    let k = scan::run_end(u, 0, CharClass::Digit);
    canonical_text(
        has_sign(t) && t[0] == '-',
        u.take(k),
        if k < u.len() {
            u.skip(k + 1)
        } else {
            Seq::<char>::empty()
        },
    )
}

/// Whether `t` is already the canonical spelling of a number.
pub open spec fn is_canonical(t: Seq<char>) -> bool {
    is_decimal_literal(t) && decimal_value(t) == t
}

/// Stripping leading zeros leaves a suffix that does not start with `0`.
pub proof fn lemma_strip_leading(t: Seq<char>)
    ensures
        ({
            let r = strip_leading_zeros(t);
            &&& r.len() <= t.len()
            &&& r == t.skip(t.len() - r.len())
            &&& r.len() == 0 || r[0] != '0'
            &&& strip_leading_zeros(r) == r
        }),
    decreases t.len(),
{
    if t.len() > 0 && t[0] == '0' {
        lemma_strip_leading(t.skip(1));
        let r = strip_leading_zeros(t);
        assert(t.skip(1).skip(t.skip(1).len() - r.len()) =~= t.skip(t.len() - r.len()));
    } else {
        assert(t.skip(0) =~= t);
    }
}

/// Stripping trailing zeros leaves a prefix that does not end in `0`.
pub proof fn lemma_strip_trailing(t: Seq<char>)
    ensures
        ({
            let r = strip_trailing_zeros(t);
            &&& r.len() <= t.len()
            &&& r == t.take(r.len() as int)
            &&& r.len() == 0 || r.last() != '0'
            &&& strip_trailing_zeros(r) == r
        }),
    decreases t.len(),
{
    if t.len() > 0 && t.last() == '0' {
        lemma_strip_trailing(t.drop_last());
        let r = strip_trailing_zeros(t);
        assert(t.drop_last().take(r.len() as int) =~= t.take(r.len() as int));
    } else {
        assert(t.take(t.len() as int) =~= t);
    }
}

/// The canonical spelling of a number is canonical, and reading it back gives it again.
pub proof fn lemma_canonical_text(negative: bool, int_digits: Seq<char>, frac_digits: Seq<char>)
    requires
        scan::all_in(int_digits, CharClass::Digit),
        scan::all_in(frac_digits, CharClass::Digit),
    ensures
        is_canonical(canonical_text(negative, int_digits, frac_digits)),
        canonical_text(negative, int_digits, frac_digits).len() > 0,
        is_numeral(unsigned_part(canonical_text(negative, int_digits, frac_digits))),
        has_sign(canonical_text(negative, int_digits, frac_digits)) ==> canonical_text(
            negative,
            int_digits,
            frac_digits,
        )[0] == '-',
{
    let i = strip_leading_zeros(int_digits);
    let f = strip_trailing_zeros(frac_digits);
    lemma_strip_leading(int_digits);
    lemma_strip_trailing(frac_digits);
    let ib = if i.len() == 0 { seq!['0'] } else { i };
    let fb = if f.len() == 0 { Seq::<char>::empty() } else { seq!['.'] + f };
    let body = ib + fb;
    let c = canonical_text(negative, int_digits, frac_digits);
    assert(scan::all_in(ib, CharClass::Digit)) by {
        assert forall|j: int| 0 <= j < ib.len() implies scan::in_class(CharClass::Digit, #[trigger] ib[j]) by {
            if i.len() > 0 {
                assert(ib[j] == int_digits[int_digits.len() - i.len() + j]);
            }
        }
    }
    assert(scan::all_in(f, CharClass::Digit)) by {
        assert forall|j: int| 0 <= j < f.len() implies scan::in_class(CharClass::Digit, #[trigger] f[j]) by {
            assert(f[j] == frac_digits[j]);
        }
    }
    // the integer digits run to the point (or the end)
    assert(scan::run_end(body, 0, CharClass::Digit) == ib.len()) by {
        assert forall|m: int| 0 <= m < ib.len() implies scan::in_class(CharClass::Digit, #[trigger] body[m]) by {
            assert(body[m] == ib[m]);
        }
        if fb.len() > 0 {
            assert(body[ib.len() as int] == '.');
        }
        scan::lemma_run_end_at(body, 0, ib.len() as int, CharClass::Digit);
    }
    if fb.len() > 0 {
        assert(scan::run_end(body, (ib.len() + 1) as int, CharClass::Digit) == body.len()) by {
            assert forall|m: int| ib.len() + 1 <= m < body.len() implies scan::in_class(CharClass::Digit, #[trigger] body[m]) by {
                assert(body[m] == f[m - ib.len() - 1]);
            }
            scan::lemma_run_end_at(body, (ib.len() + 1) as int, body.len() as int, CharClass::Digit);
        }
        assert(body.skip((ib.len() + 1) as int) =~= f);
    }
    assert(body.take(ib.len() as int) =~= ib);
    assert(!has_sign(body)) by {
        assert(body[0] == ib[0]);
    }
    assert(is_float_literal(body));
    assert(is_numeral(body));
    // reading `ib` back
    assert(strip_leading_zeros(ib) == i) by {
        if i.len() == 0 {
            assert(ib.skip(1) =~= Seq::<char>::empty());
            assert(strip_leading_zeros(Seq::<char>::empty()) == Seq::<char>::empty());
            assert(i =~= Seq::<char>::empty());
        }
    }
    let nonzero = !(i.len() == 0 && f.len() == 0);
    if negative && nonzero {
        assert(c == seq!['-'] + body);
        assert(c.skip(1) =~= body);
        assert(has_sign(c));
        assert(unsigned_part(c) == body);
    } else {
        assert(c == body);
        assert(unsigned_part(c) == body);
    }
    assert(decimal_value(c) =~= c);
}

/// The canonical spelling of a number is a numeral, after a minus sign when the number
/// is below zero.
pub proof fn lemma_canonical_is_numeral(t: Seq<char>)
    requires
        is_canonical(t),
    ensures
        is_numeral(unsigned_part(t)),
        has_sign(t) ==> t[0] == '-',
        t.len() > 0,
{
    let u = unsigned_part(t);
    let k = scan::run_end(u, 0, CharClass::Digit);
    scan::lemma_run_end(u, 0, CharClass::Digit);
    let frac = if k < u.len() {
        u.skip(k + 1)
    } else {
        Seq::<char>::empty()
    };
    if k < u.len() {
        scan::lemma_run_end(u, k + 1, CharClass::Digit);
        assert forall|j: int| 0 <= j < frac.len() implies scan::in_class(CharClass::Digit, #[trigger] frac[j]) by {
            assert(frac[j] == u[k + 1 + j]);
        }
    }
    assert(scan::all_in(u.take(k), CharClass::Digit)) by {
        assert forall|j: int| 0 <= j < k implies scan::in_class(CharClass::Digit, #[trigger] u.take(k)[j]) by {
            assert(u.take(k)[j] == u[j]);
        }
    }
    lemma_canonical_text(has_sign(t) && t[0] == '-', u.take(k), frac);
}

/// A decimal number, kept exactly as its canonical spelling (see [`canonical_text`]).
#[derive(Debug, PartialEq, Eq)]
pub struct Decimal {
    text: String,
}

impl View for Decimal {
    type V = Seq<char>;

    /// The canonical spelling of the number.
    closed spec fn view(&self) -> Seq<char> {
        self.text@
    }
}

impl Decimal {
    #[verifier::type_invariant]
    spec fn canonical(self) -> bool {
        is_canonical(self.text@)
    }
}

/// Whether `t[start..]` is a literal of [`is_float_literal`].
fn check_float_literal(t: &Vec<char>, start: usize) -> (b: bool)
    requires
        start <= t.len(),
    ensures
        b == is_float_literal(t@.skip(start as int)),
{
    let u = Ghost(t@.skip(start as int));
    let k = scan::scan_run(t, start, CharClass::Digit);
    proof {
        scan::lemma_run_end_skip(t@, start as int, start as int, CharClass::Digit);
    }
    if k == t.len() {
        k > start
    } else {
        let k2 = scan::scan_run(t, k + 1, CharClass::Digit);
        proof {
            scan::lemma_run_end_skip(t@, start as int, k + 1, CharClass::Digit);
            assert(u@[k - start] == t@[k as int]);
        }
        t[k] == '.' && k2 == t.len() && t.len() - start > 1
    }
}

/// Whether `t[start..]` is a numeral of [`is_numeral`].
pub(crate) fn check_numeral(t: &Vec<char>, start: usize) -> (b: bool)
    requires
        start <= t.len(),
    ensures
        b == is_numeral(t@.skip(start as int)),
{
    let u = Ghost(t@.skip(start as int));
    let k = scan::scan_run(t, start, CharClass::Digit);
    proof {
        scan::lemma_run_end_skip(t@, start as int, start as int, CharClass::Digit);
    }
    if k == t.len() {
        k > start
    } else {
        let k2 = scan::scan_run(t, k + 1, CharClass::Digit);
        proof {
            scan::lemma_run_end_skip(t@, start as int, k + 1, CharClass::Digit);
            assert(u@[k - start] == t@[k as int]);
        }
        t[k] == '.' && k2 == t.len() && t.len() > k + 1
    }
}

/// Whether `t` is a numeral of [`is_signed_numeral`].
pub(crate) fn check_signed_numeral(t: &Vec<char>) -> (b: bool)
    ensures
        b == is_signed_numeral(t@),
{
    if t.len() > 0 && (t[0] == '+' || t[0] == '-') {
        check_numeral(t, 1)
    } else {
        proof {
            assert(t@.skip(0) =~= t@);
        }
        check_numeral(t, 0)
    }
}

/// Whether `t` is a literal of [`is_decimal_literal`].
pub(crate) fn check_decimal_literal(t: &Vec<char>) -> (b: bool)
    ensures
        b == is_decimal_literal(t@),
{
    if t.len() > 0 && (t[0] == '+' || t[0] == '-') {
        check_float_literal(t, 1)
    } else {
        proof {
            assert(t@.skip(0) =~= t@);
        }
        check_float_literal(t, 0)
    }
}

/// The first index in `start..end` after the zeros at its beginning.
fn skip_leading_zeros(t: &Vec<char>, start: usize, end: usize) -> (a: usize)
    requires
        start <= end <= t.len(),
    ensures
        start <= a <= end,
        strip_leading_zeros(t@.subrange(start as int, end as int)) == t@.subrange(a as int, end as int),
{
    let mut a = start;
    while a < end && t[a] == '0'
        invariant
            start <= a <= end <= t.len(),
            strip_leading_zeros(t@.subrange(a as int, end as int))
                == strip_leading_zeros(t@.subrange(start as int, end as int)),
        decreases end - a,
    {
        assert(t@.subrange(a as int, end as int).skip(1) =~= t@.subrange(a + 1, end as int));
        a = a + 1;
    }
    assert(strip_leading_zeros(t@.subrange(a as int, end as int)) == t@.subrange(a as int, end as int)) by {
        if a == end {
            assert(t@.subrange(a as int, end as int) =~= Seq::<char>::empty());
        }
    }
    a
}

/// The end of `t[start..]` before the zeros at its end.
fn skip_trailing_zeros(t: &Vec<char>, start: usize) -> (b: usize)
    requires
        start <= t.len(),
    ensures
        start <= b <= t.len(),
        strip_trailing_zeros(t@.subrange(start as int, t.len() as int)) == t@.subrange(start as int, b as int),
{
    let len = t.len();
    let mut b = len;
    while b > start && t[b - 1] == '0'
        invariant
            start <= b <= len == t.len(),
            strip_trailing_zeros(t@.subrange(start as int, b as int))
                == strip_trailing_zeros(t@.subrange(start as int, len as int)),
        decreases b,
    {
        assert(t@.subrange(start as int, b as int).drop_last() =~= t@.subrange(start as int, b - 1));
        b = b - 1;
    }
    assert(strip_trailing_zeros(t@.subrange(start as int, b as int)) == t@.subrange(start as int, b as int)) by {
        if b == start {
            assert(t@.subrange(start as int, b as int) =~= Seq::<char>::empty());
        }
    }
    b
}

impl Decimal {
    /// The number that the literal `t` writes.
    #[verifier::rlimit(40)]
    pub(crate) fn from_literal(t: &Vec<char>) -> (d: Decimal)
        requires
            is_decimal_literal(t@),
        ensures
            d@ == decimal_value(t@),
    {
        let len = t.len();
        let signed = len > 0 && (t[0] == '+' || t[0] == '-');
        let negative = signed && t[0] == '-';
        let start: usize = if signed { 1 } else { 0 };
        let ghost u = unsigned_part(t@);
        assert(u =~= t@.skip(start as int));
        let k = scan::scan_run(t, start, CharClass::Digit);
        proof {
            scan::lemma_run_end_skip(t@, start as int, start as int, CharClass::Digit);
            scan::lemma_run_end(t@, start as int, CharClass::Digit);
            assert(u.take(k - start) =~= t@.subrange(start as int, k as int));
        }
        let a = skip_leading_zeros(t, start, k);
        let frac_start: usize = if k < len { k + 1 } else { len };
        let ghost frac = if k < u.len() + start { u.skip(k - start + 1) } else { Seq::<char>::empty() };
        assert(frac =~= t@.subrange(frac_start as int, len as int));
        let b = skip_trailing_zeros(t, frac_start);
        let mut out = String::new();
        let zero = a == k && b == frac_start;
        if negative && !zero {
            push_char(&mut out, '-');
        }
        if a == k {
            push_char(&mut out, '0');
        } else {
            push_range(&mut out, t, a, k);
        }
        if b > frac_start {
            push_char(&mut out, '.');
            push_range(&mut out, t, frac_start, b);
        }
        proof {
            let int_digits = t@.subrange(start as int, k as int);
            assert(scan::all_in(int_digits, CharClass::Digit)) by {
                assert forall|j: int| 0 <= j < int_digits.len() implies scan::in_class(CharClass::Digit, #[trigger] int_digits[j]) by {
                    assert(int_digits[j] == t@[start + j]);
                }
            }
            assert(scan::all_in(frac, CharClass::Digit)) by {
                if k < len {
                    scan::lemma_run_end_skip(t@, start as int, k + 1, CharClass::Digit);
                    scan::lemma_run_end(t@, k + 1, CharClass::Digit);
                    assert forall|j: int| 0 <= j < frac.len() implies scan::in_class(CharClass::Digit, #[trigger] frac[j]) by {
                        assert(frac[j] == t@[k + 1 + j]);
                    }
                }
            }
            lemma_canonical_text(negative, int_digits, frac);
            assert(out@ =~= canonical_text(negative, int_digits, frac));
        }
        Decimal { text: out }
    }

    /// Reads a number written as an optionally signed decimal literal without exponent
    /// (`5`, `+5`, `-0.5`, `.5`, `5.`); `None` for anything else.
    pub fn parse(s: &str) -> (r: Option<Decimal>)
        ensures
            r is Some <==> is_decimal_literal(s@),
            r matches Some(d) ==> d@ == decimal_value(s@),
    {
        let t = crate::text::chars_of(s);
        if check_decimal_literal(&t) {
            Some(Decimal::from_literal(&t))
        } else {
            None
        }
    }

    /// The canonical spelling of the number; reading it back gives the same number.
    pub fn to_text(&self) -> (s: String)
        ensures
            s@ == self@,
            is_decimal_literal(s@),
            decimal_value(s@) == self@,
    {
        proof {
            use_type_invariant(self);
        }
        self.text.clone()
    }

    /// Whether the number is zero.
    pub fn is_zero(&self) -> (b: bool)
        ensures
            b == (self@ == seq!['0']),
    {
        let t = crate::text::chars_of(self.text.as_str());
        if t.len() == 1 && t[0] == '0' {
            assert(t@ =~= seq!['0']);
            true
        } else {
            false
        }
    }

    /// Whether the number is below zero.
    pub fn is_negative(&self) -> (b: bool)
        ensures
            b == (self@.len() > 0 && self@[0] == '-'),
    {
        let t = crate::text::chars_of(self.text.as_str());
        t.len() > 0 && t[0] == '-'
    }
}

impl Clone for Decimal {
    fn clone(&self) -> (r: Self)
        ensures
            r@ == self@,
    {
        proof {
            use_type_invariant(self);
        }
        Decimal { text: self.text.clone() }
    }
}

} // verus!
