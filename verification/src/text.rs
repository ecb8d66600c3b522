use vstd::prelude::*;

verus! {

broadcast use vstd::string::group_string_axioms;

/// Appends one character to a string by std's `String::push`. Trusted: the contract takes
/// from std's documentation that the string afterwards is the old one with `c` at its end.
#[verifier::external_body]
pub(crate) fn push_char(s: &mut String, c: char)
    ensures
        final(s)@ == old(s)@.push(c),
{
    s.push(c);
}

/// Appends `t[lo..hi]` to a string.
pub(crate) fn push_range(out: &mut String, t: &Vec<char>, lo: usize, hi: usize)
    requires
        lo <= hi <= t.len(),
    ensures
        final(out)@ == old(out)@ + t@.subrange(lo as int, hi as int),
{
    let mut j = lo;
    while j < hi
        invariant
            lo <= j <= hi <= t.len(),
            out@ == old(out)@ + t@.subrange(lo as int, j as int),
        decreases hi - j,
    {
        push_char(out, t[j]);
        assert(t@.subrange(lo as int, j + 1) =~= t@.subrange(lo as int, j as int).push(t@[j as int]));
        j = j + 1;
    }
}

/// The characters `t[lo..hi]` as a string.
pub(crate) fn string_of_range(t: &Vec<char>, lo: usize, hi: usize) -> (out: String)
    requires
        lo <= hi <= t.len(),
    ensures
        out@ == t@.subrange(lo as int, hi as int),
{
    let mut out = String::new();
    push_range(&mut out, t, lo, hi);
    assert(out@ =~= t@.subrange(lo as int, hi as int));
    out
}

/// The characters `t[lo..hi]` as a vector.
pub(crate) fn chars_of_range(t: &Vec<char>, lo: usize, hi: usize) -> (v: Vec<char>)
    requires
        lo <= hi <= t.len(),
    ensures
        v@ == t@.subrange(lo as int, hi as int),
{
    let mut v: Vec<char> = Vec::new();
    let mut j = lo;
    while j < hi
        invariant
            lo <= j <= hi <= t.len(),
            v@ == t@.subrange(lo as int, j as int),
        decreases hi - j,
    {
        v.push(t[j]);
        assert(t@.subrange(lo as int, j + 1) =~= t@.subrange(lo as int, j as int).push(t@[j as int]));
        j = j + 1;
    }
    v
}

/// The characters of a string slice, in order.
pub fn chars_of(s: &str) -> (v: Vec<char>)
    ensures
        v@ == s@,
{
    let mut v: Vec<char> = Vec::new();
    for c in it: s.chars()
        invariant
            v@ == it.seq().take(it.index() as int),
    {
        v.push(c);
    }
    v
}


/// The text that escape processing makes of `s`: `\\` becomes `\`, `\n` becomes a
/// newline, any other backslash pair is kept as it is, and a backslash at the very end
/// stays a backslash.
pub open spec fn unescape(s: Seq<char>) -> Seq<char>
    decreases s.len(),
{
    if s.len() == 0 {
        seq![]
    } else if s[0] != '\\' {
        seq![s[0]] + unescape(s.skip(1))
    } else if s.len() == 1 {
        seq!['\\']
    } else if s[1] == '\\' {
        seq!['\\'] + unescape(s.skip(2))
    } else if s[1] == 'n' {
        seq!['\n'] + unescape(s.skip(2))
    } else {
        seq!['\\', s[1]] + unescape(s.skip(2))
    }
}

/// Processes escape sequences in the input string.
///
/// - `\\` → `\`
/// - `\n` → newline
/// - Any other `\x` → kept as `\x`
pub fn parse_escape(text: &str) -> (out: String)
    ensures
        out@ == unescape(text@),
{
    let chars = chars_of(text);
    let len = chars.len();
    let mut i: usize = 0;
    let mut out = String::new();
    assert(chars@.skip(0) =~= chars@);
    assert(out@ + unescape(chars@) =~= unescape(chars@));
    while i < len
        invariant
            chars@ == text@,
            len == chars.len(),
            i <= len,
            out@ + unescape(chars@.skip(i as int)) == unescape(text@),
        decreases len - i,
    {
        let c = chars[i];
        let ghost rest = chars@.skip(i as int);
        if c == '\\' {
            if i + 1 < len {
                let d = chars[i + 1];
                assert(rest.skip(2) =~= chars@.skip(i + 2));
                if d == '\\' {
                    push_char(&mut out, '\\');
                } else if d == 'n' {
                    push_char(&mut out, '\n');
                } else {
                    push_char(&mut out, '\\');
                    push_char(&mut out, d);
                }
                i = i + 2;
            } else {
                push_char(&mut out, '\\');
                assert(chars@.skip(i + 1).len() == 0);
                i = i + 1;
            }
        } else {
            assert(rest.skip(1) =~= chars@.skip(i + 1));
            push_char(&mut out, c);
            i = i + 1;
        }
    }
    out
}


/// Characters that do not count as positions of a text object: newline and tab.
pub open spec fn is_separator(c: char) -> bool {
    c == '\n' || c == '\t'
}

/// The number of characters of `s` that are not separators.
pub open spec fn visible_count(s: Seq<char>) -> nat
    decreases s.len(),
{
    if s.len() == 0 {
        0
    } else {
        visible_count(s.drop_last()) + if is_separator(s.last()) { 0nat } else { 1nat }
    }
}

/// A prefix never has more visible characters than the whole.
pub proof fn lemma_visible_count_prefix(s: Seq<char>, k: int)
    requires
        0 <= k <= s.len(),
    ensures
        visible_count(s.take(k)) <= visible_count(s),
    decreases s.len() - k,
{
    if k < s.len() {
        lemma_visible_count_prefix(s, k + 1);
        assert(s.take(k + 1).drop_last() =~= s.take(k));
    } else {
        assert(s.take(k) =~= s);
    }
}

/// UTF-8 encoding distributes over concatenation.
pub proof fn lemma_encode_utf8_concat(a: Seq<char>, b: Seq<char>)
    ensures
        vstd::utf8::encode_utf8(a + b) == vstd::utf8::encode_utf8(a) + vstd::utf8::encode_utf8(b),
    decreases a.len(),
{
    if a.len() == 0 {
        assert(a + b =~= b);
        assert(vstd::utf8::encode_utf8(a) =~= Seq::<u8>::empty());
        assert(vstd::utf8::encode_utf8(a) + vstd::utf8::encode_utf8(b) =~= vstd::utf8::encode_utf8(b));
    } else {
        lemma_encode_utf8_concat(a.drop_first(), b);
        assert((a + b).drop_first() =~= a.drop_first() + b);
        assert((a + b)[0] == a[0]);
        assert(vstd::utf8::encode_utf8(a + b) =~= vstd::utf8::encode_scalar(a[0] as u32)
            + vstd::utf8::encode_utf8(a.drop_first() + b));
    }
}

/// The number of bytes that UTF-8 takes for `c`.
fn utf8_width(c: char) -> (w: usize)
    ensures
        w == vstd::utf8::encode_scalar(c as u32).len(),
        1 <= w <= 4,
{
    let u = c as u32;
    proof {
        vstd::utf8::char_is_scalar(c);
    }
    if u <= 0x7f {
        1
    } else if u <= 0x7ff {
        2
    } else if u <= 0xffff {
        3
    } else {
        4
    }
}

/// Maps a logical character index (skipping `\n` and `\t` separators) to the
/// corresponding byte index in `text`.
pub fn object_index_to_string_index(text: &str, index: usize) -> (r: Option<usize>)
    ensures
        r is None <==> visible_count(text@) <= index,
        r matches Some(b) ==> exists|p: int|
            0 <= p < text@.len() && !is_separator(#[trigger] text@[p])
                && visible_count(text@.take(p)) == index
                && b == vstd::utf8::encode_utf8(text@.take(p)).len(),
{
    let chars = chars_of(text);
    let total = text.as_bytes().len();
    let len = chars.len();
    let mut count: usize = 0;
    let mut byte: usize = 0;
    let mut i: usize = 0;
    assert(chars@.take(0) =~= Seq::<char>::empty());
    assert(vstd::utf8::encode_utf8(Seq::<char>::empty()) =~= Seq::<u8>::empty());
    while i < len
        invariant
            chars@ == text@,
            len == chars.len(),
            total == vstd::utf8::encode_utf8(text@).len(),
            i <= len,
            count == visible_count(chars@.take(i as int)),
            count <= index,
            byte == vstd::utf8::encode_utf8(chars@.take(i as int)).len(),
        decreases len - i,
    {
        let c = chars[i];
        let w = utf8_width(c);
        proof {
            assert(chars@.take(i + 1) =~= chars@.take(i as int) + seq![c]);
            assert(chars@.take(i + 1).drop_last() =~= chars@.take(i as int));
            lemma_encode_utf8_concat(chars@.take(i as int), seq![c]);
            assert(vstd::utf8::encode_utf8(seq![c]) =~= vstd::utf8::encode_scalar(c as u32)) by {
                assert(seq![c].drop_first() =~= Seq::<char>::empty());
                assert(vstd::utf8::encode_utf8(Seq::<char>::empty()) =~= Seq::<u8>::empty());
                assert(vstd::utf8::encode_scalar(c as u32) + Seq::<u8>::empty()
                    =~= vstd::utf8::encode_scalar(c as u32));
            }
            lemma_encode_utf8_concat(chars@.take(i + 1), chars@.skip(i + 1));
            assert(chars@.take(i + 1) + chars@.skip(i + 1) =~= chars@);
        }
        if c == '\n' || c == '\t' {
            byte = byte + w;
            i = i + 1;
        } else {
            if count == index {
                proof {
                    lemma_visible_count_prefix(chars@, i + 1);
                }
                return Some(byte);
            }
            count = count + 1;
            byte = byte + w;
            i = i + 1;
        }
    }
    assert(chars@.take(len as int) =~= chars@);
    None
}

} // verus!
