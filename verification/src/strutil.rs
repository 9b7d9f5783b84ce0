//! Character-indexed helpers over UTF-8 text, and the character classes
//! that the editor and the highlighter use.
use vstd::prelude::*;
use vstd::utf8::*;

verus! {

// ── Character classes ───────────────────────────────────────────────────────

/// Unicode `White_Space`: the characters that `str::trim_start` and
/// `str::trim_end` remove.
pub open spec fn is_white_space(c: char) -> bool {
    let u = c as u32;
    ||| 0x09 <= u <= 0x0d
    ||| u == 0x20
    ||| u == 0x85
    ||| u == 0xa0
    ||| u == 0x1680
    ||| 0x2000 <= u <= 0x200a
    ||| u == 0x2028
    ||| u == 0x2029
    ||| u == 0x202f
    ||| u == 0x205f
    ||| u == 0x3000
}

/// Whether `c` is Unicode white space (the `White_Space` property).
pub fn char_is_white_space(c: char) -> (r: bool)
    ensures
        r == is_white_space(c),
{
    let u = c as u32;
    (0x09 <= u && u <= 0x0d) || u == 0x20 || u == 0x85 || u == 0xa0 || u == 0x1680 || (0x2000
        <= u && u <= 0x200a) || u == 0x2028 || u == 0x2029 || u == 0x202f || u == 0x205f || u
        == 0x3000
}

/// General category `Cc` (the C0 and C1 control codes).
pub open spec fn is_control(c: char) -> bool {
    let u = c as u32;
    u <= 0x1f || (0x7f <= u && u <= 0x9f)
}

/// Whether `c` is a control character (general category `Cc`).
pub fn char_is_control(c: char) -> (r: bool)
    ensures
        r == is_control(c),
{
    let u = c as u32;
    u <= 0x1f || (0x7f <= u && u <= 0x9f)
}

pub open spec fn is_ascii_digit(c: char) -> bool {
    '0' <= c <= '9'
}

/// Whether `c` is one of `0`..=`9`.
pub fn char_is_ascii_digit(c: char) -> (r: bool)
    ensures
        r == is_ascii_digit(c),
{
    '0' <= c && c <= '9'
}

pub open spec fn is_ascii_alphabetic(c: char) -> bool {
    ('a' <= c <= 'z') || ('A' <= c <= 'Z')
}

/// Whether `c` is one of `a`..=`z` or `A`..=`Z`.
pub fn char_is_ascii_alphabetic(c: char) -> (r: bool)
    ensures
        r == is_ascii_alphabetic(c),
{
    ('a' <= c && c <= 'z') || ('A' <= c && c <= 'Z')
}

/// What `char::is_alphanumeric` answers for `c` (Unicode `Alphabetic` or
/// `Numeric`), a property defined by tables of the Unicode standard.
pub uninterp spec fn unicode_alphanumeric(c: char) -> bool;

/// Calls `char::is_alphanumeric`. Its contract claims that the answer is a
/// fixed function of the character, and that among ASCII characters exactly
/// the letters and digits are alphanumeric (the only ASCII characters with
/// the Unicode `Alphabetic` or `Numeric` property); the Unicode tables
/// beyond ASCII are not stated.
#[verifier::external_body]
pub(crate) fn char_is_alphanumeric(c: char) -> (r: bool)
    ensures
        r == unicode_alphanumeric(c),
        (c as u32) < 0x80 ==> r == (is_ascii_alphabetic(c) || is_ascii_digit(c)),
{
    c.is_alphanumeric()
}

/// A character that belongs to a word for double-click selection.
pub open spec fn is_word_char(c: char) -> bool {
    unicode_alphanumeric(c) || c == '_'
}

pub fn char_is_word(c: char) -> (r: bool)
    ensures
        r == is_word_char(c),
        (c as u32) < 0x80 ==> r == (is_ascii_alphabetic(c) || is_ascii_digit(c) || c == '_'),
{
    c == '_' || char_is_alphanumeric(c)
}

// ── Conversions between text and characters ─────────────────────────────────

/// The characters of `s`, in order.
pub fn chars_of(s: &str) -> (v: Vec<char>)
    ensures
        v@ == s@,
{
    let mut v: Vec<char> = Vec::new();
    for c in it: s.chars()
        invariant
            v@ == it.seq().take(it.index() as int),
            it.seq() == s@,
    {
        v.push(c);
    }
    v
}

/// Calls `String::push`, which appends one character.
#[verifier::external_body]
pub(crate) fn string_push(s: &mut String, c: char)
    ensures
        final(s)@ == old(s)@.push(c),
{
    s.push(c);
}

/// The string made of the characters of `v`.
pub fn string_of(v: &Vec<char>) -> (s: String)
    ensures
        s@ == v@,
{
    let mut s = String::new();
    let mut i: usize = 0;
    while i < v.len()
        invariant
            i <= v@.len(),
            s@ == v@.take(i as int),
        decreases v@.len() - i,
    {
        string_push(&mut s, v[i]);
        assert(v@.take(i + 1) =~= v@.take(i as int).push(v@[i as int]));
        i += 1;
    }
    assert(v@.take(v@.len() as int) =~= v@);
    s
}

// ── Character-indexed slicing ───────────────────────────────────────────────

/// `s.chars().skip(from).take(to - from)`: the characters from `from` up to
/// (not including) `to`, both clamped to the length of `s`.
pub open spec fn sub_chars(s: Seq<char>, from: int, to: int) -> Seq<char> {
    let a = if from < s.len() { from } else { s.len() as int };
    let b0 = if to < from { from } else { to };
    let b = if b0 < s.len() { b0 } else { s.len() as int };
    s.subrange(a, b)
}

/// The number of characters of `s`.
pub fn char_len(s: &str) -> (n: usize)
    ensures
        n == s@.len(),
{
    chars_of(s).len()
}

/// Characters `from..to` of `s` (clamped to its length; empty when
/// `to <= from`).
pub fn substr(s: &str, from: usize, to: usize) -> (r: String)
    ensures
        r@ == sub_chars(s@, from as int, to as int),
{
    let v = chars_of(s);
    let r = sub_vec(&v, from, to);
    string_of(&r)
}

/// Characters of `s` from `from` on (empty when `from` is past the end).
pub fn substr_from(s: &str, from: usize) -> (r: String)
    ensures
        r@ == sub_chars(s@, from as int, s@.len() as int),
{
    let v = chars_of(s);
    let n = v.len();
    let r = sub_vec(&v, from, n);
    string_of(&r)
}

/// Characters `from..to` of `v`, clamped as in `sub_chars`.
pub fn sub_vec(v: &Vec<char>, from: usize, to: usize) -> (r: Vec<char>)
    ensures
        r@ == sub_chars(v@, from as int, to as int),
{
    let n = v.len();
    let a = if from < n { from } else { n };
    let b0 = if to < from { from } else { to };
    let b = if b0 < n { b0 } else { n };
    let mut r: Vec<char> = Vec::new();
    let mut i = a;
    while i < b
        invariant
            a <= i <= b <= n == v@.len(),
            r@ == v@.subrange(a as int, i as int),
        decreases b - i,
    {
        r.push(v[i]);
        assert(v@.subrange(a as int, i + 1) =~= v@.subrange(a as int, i as int).push(v@[i as int]));
        i += 1;
    }
    r
}

// ── UTF-8 byte offsets ──────────────────────────────────────────────────────

/// Number of bytes in the UTF-8 encoding of `c`.
pub open spec fn utf8_width(c: char) -> nat {
    let u = c as u32;
    if u <= 0x7f {
        1
    } else if u <= 0x7ff {
        2
    } else if u <= 0xffff {
        3
    } else {
        4
    }
}

proof fn lemma_encode_scalar_len(c: char)
    ensures
        encode_scalar(c as u32).len() == utf8_width(c),
{
    broadcast use char_is_scalar;

}

/// Encoding a concatenation encodes each part in turn.
pub proof fn lemma_encode_utf8_concat(a: Seq<char>, b: Seq<char>)
    ensures
        encode_utf8(a + b) == encode_utf8(a) + encode_utf8(b),
    decreases a.len(),
{
    if a.len() == 0 {
        assert(a + b =~= b);
        assert(encode_utf8(a) =~= Seq::<u8>::empty());
        assert(encode_utf8(a) + encode_utf8(b) =~= encode_utf8(b));
    } else {
        lemma_encode_utf8_concat(a.drop_first(), b);
        assert((a + b).drop_first() =~= a.drop_first() + b);
        assert(encode_utf8(a + b) =~= encode_scalar(a[0] as u32) + encode_utf8(a.drop_first() + b));
        assert(encode_utf8(a) + encode_utf8(b) =~= encode_scalar(a[0] as u32) + (encode_utf8(
            a.drop_first(),
        ) + encode_utf8(b)));
    }
}

proof fn lemma_encode_utf8_push(a: Seq<char>, c: char)
    ensures
        encode_utf8(a.push(c)).len() == encode_utf8(a).len() + utf8_width(c),
{
    lemma_encode_utf8_concat(a, seq![c]);
    assert(a.push(c) =~= a + seq![c]);
    assert(seq![c].drop_first() =~= Seq::<char>::empty());
    assert(encode_utf8(seq![c]) =~= encode_scalar(c as u32) + encode_utf8(Seq::<char>::empty()));
    lemma_encode_scalar_len(c);
}

/// Byte offset in `s` of its character number `col`; `s.len()` (the length
/// in bytes) when `col` is at or past the end.
pub fn byte_idx(s: &str, col: usize) -> (b: usize)
    ensures
        b == encode_utf8(s@.take(if col < s@.len() { col as int } else { s@.len() as int })).len(),
{
    let bytes = s.as_bytes();
    let total = bytes.len();
    let v = chars_of(s);
    let n = v.len();
    let k = if col < n { col } else { n };
    proof {
        assert(v@.take(n as int) =~= v@);
    }
    let mut acc: usize = 0;
    let mut i: usize = 0;
    while i < k
        invariant
            i <= k <= n == v@.len(),
            v@ == s@,
            total == encode_utf8(s@).len(),
            acc == encode_utf8(v@.take(i as int)).len(),
        decreases k - i,
    {
        let c = v[i];
        let u = c as u32;
        let w: usize = if u <= 0x7f {
            1
        } else if u <= 0x7ff {
            2
        } else if u <= 0xffff {
            3
        } else {
            4
        };
        proof {
            assert(v@.take(i + 1) =~= v@.take(i as int).push(c));
            lemma_encode_utf8_push(v@.take(i as int), c);
            lemma_encode_utf8_concat(v@.take(i + 1), v@.skip(i + 1));
            assert(v@.take(i + 1) + v@.skip(i + 1) =~= v@);
        }
        acc = acc + w;
        i += 1;
    }
    acc
}

/// The same offset as `byte_idx`, under the name the widgets use.
pub fn byte_idx_of(s: &str, col: usize) -> (b: usize)
    ensures
        b == encode_utf8(s@.take(if col < s@.len() { col as int } else { s@.len() as int })).len(),
{
    byte_idx(s, col)
}

// ── Decimal width ───────────────────────────────────────────────────────────

/// Number of decimal digits of `n`.
pub open spec fn decimal_digits(n: nat) -> nat
    decreases n,
{
    if n < 10 {
        1
    } else {
        1 + decimal_digits(n / 10)
    }
}

/// Width of the line-number gutter: the number of decimal digits of `n`,
/// but at least two.
pub fn digit_count(n: usize) -> (d: usize)
    ensures
        d == if decimal_digits(n as nat) < 2 { 2 } else { decimal_digits(n as nat) },
{
    proof {
        lemma_decimal_digits_small(n as nat);
    }
    let mut d: usize = 1;
    let mut v = n;
    while v >= 10
        invariant
            d + decimal_digits(v as nat) == decimal_digits(n as nat) + 1,
            decimal_digits(n as nat) <= n || n == 0,
            v <= n,
        decreases v,
    {
        proof {
            lemma_decimal_digits_small((v / 10) as nat);
        }
        v = v / 10;
        d += 1;
    }
    if d < 2 {
        2
    } else {
        d
    }
}

proof fn lemma_decimal_digits_small(n: nat)
    ensures
        n >= 1 ==> decimal_digits(n) <= n,
        decimal_digits(n) >= 1,
    decreases n,
{
    if n >= 10 {
        lemma_decimal_digits_small(n / 10);
    }
}

} // verus!
