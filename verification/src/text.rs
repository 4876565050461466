//! Characters and their UTF-8 widths, as the expression reader sees them.
use vstd::prelude::*;
use vstd::utf8::{encode_utf8, encode_scalar};

verus! {

/// Whether the character has the Unicode `White_Space` property, as
/// `char::is_whitespace` reports it.
pub open spec fn char_is_whitespace(c: char) -> bool {
    let v = c as u32;
    ||| 0x09 <= v <= 0x0D
    ||| v == 0x20
    ||| v == 0x85
    ||| v == 0xA0
    ||| v == 0x1680
    ||| 0x2000 <= v <= 0x200A
    ||| v == 0x2028
    ||| v == 0x2029
    ||| v == 0x202F
    ||| v == 0x205F
    ||| v == 0x3000
}

/// Whether `char::is_alphabetic` holds of a character beyond ASCII (Unicode
/// `Alphabetic`).
pub uninterp spec fn alphabetic_beyond_ascii(c: char) -> bool;

/// Whether `char::is_alphanumeric` holds of a character beyond ASCII
/// (Unicode `Alphabetic`, or a numeric general category).
pub uninterp spec fn alphanumeric_beyond_ascii(c: char) -> bool;

/// An ASCII character.
pub open spec fn is_ascii_char(c: char) -> bool {
    (c as u32) < 0x80
}

/// `'a'` to `'z'` and `'A'` to `'Z'`.
pub open spec fn is_ascii_letter(c: char) -> bool {
    ('a' <= c && c <= 'z') || ('A' <= c && c <= 'Z')
}

/// Whether `char::is_alphabetic` holds of the character: among ASCII
/// characters the letters, beyond ASCII the Unicode `Alphabetic` property.
pub open spec fn char_is_alphabetic(c: char) -> bool {
    if is_ascii_char(c) {
        is_ascii_letter(c)
    } else {
        alphabetic_beyond_ascii(c)
    }
}

/// Whether `char::is_alphanumeric` holds of the character: among ASCII
/// characters the letters and digits, beyond ASCII `Alphabetic` or numeric.
pub open spec fn char_is_alphanumeric(c: char) -> bool {
    if is_ascii_char(c) {
        is_ascii_letter(c) || is_ascii_digit(c)
    } else {
        alphanumeric_beyond_ascii(c)
    }
}

/// `char::is_whitespace`: whether the character has the Unicode `White_Space` property.
pub fn is_whitespace(c: char) -> (r: bool)
    ensures
        r == char_is_whitespace(c),
{
    let v = c as u32;
    (0x09 <= v && v <= 0x0D) || v == 0x20 || v == 0x85 || v == 0xA0 || v == 0x1680 || (0x2000 <= v
        && v <= 0x200A) || v == 0x2028 || v == 0x2029 || v == 0x202F || v == 0x205F || v == 0x3000
}

/// Calls `char::is_alphabetic`. Claimed: an ASCII character is alphabetic
/// exactly when it is a letter (`'a'..='z'`, `'A'..='Z'`), as std's own match
/// on ASCII does; beyond ASCII the result (the Unicode `Alphabetic` property)
/// is named by `alphabetic_beyond_ascii`, a property of the character alone.
#[verifier::external_body]
pub(crate) fn is_alphabetic(c: char) -> (r: bool)
    ensures
        r == (if is_ascii_char(c) {
            is_ascii_letter(c)
        } else {
            alphabetic_beyond_ascii(c)
        }),
{
    c.is_alphabetic()
}

/// Calls `char::is_alphanumeric`. Claimed: an ASCII character is
/// alphanumeric exactly when it is a letter or a digit; beyond ASCII the
/// result (`Alphabetic` or a numeric category) is named by
/// `alphanumeric_beyond_ascii`, a property of the character alone.
#[verifier::external_body]
pub(crate) fn is_alphanumeric(c: char) -> (r: bool)
    ensures
        r == (if is_ascii_char(c) {
            is_ascii_letter(c) || is_ascii_digit(c)
        } else {
            alphanumeric_beyond_ascii(c)
        }),
{
    c.is_alphanumeric()
}

/// Calls `char::to_string`, which writes the character alone.
#[verifier::external_body]
pub(crate) fn char_to_string(c: char) -> (r: String)
    ensures
        r@ == seq![c],
{
    c.to_string()
}

/// `'0'` to `'9'`.
pub open spec fn is_ascii_digit(c: char) -> bool {
    '0' <= c && c <= '9'
}

/// The number of bytes in the UTF-8 encoding of the characters.
pub open spec fn utf8_len(s: Seq<char>) -> nat {
    encode_utf8(s).len()
}

pub proof fn lemma_utf8_len_concat(a: Seq<char>, b: Seq<char>)
    ensures
        utf8_len(a + b) == utf8_len(a) + utf8_len(b),
    decreases a.len(),
{
    if a.len() == 0 {
        assert(a + b =~= b);
    } else {
        assert((a + b).drop_first() =~= a.drop_first() + b);
        lemma_utf8_len_concat(a.drop_first(), b);
    }
}

pub proof fn lemma_utf8_len_single(c: char)
    ensures
        utf8_len(seq![c]) == encode_scalar(c as u32).len(),
{
    assert(seq![c].drop_first() =~= Seq::<char>::empty());
    assert(encode_utf8(Seq::<char>::empty()) =~= Seq::<u8>::empty());
    assert(encode_utf8(seq![c]) =~= encode_scalar(c as u32) + Seq::<u8>::empty());
}

/// The byte offset of the `i`-th character grows by the width of that character.
pub proof fn lemma_utf8_len_take_next(s: Seq<char>, i: int)
    requires
        0 <= i < s.len(),
    ensures
        utf8_len(s.take(i + 1)) == utf8_len(s.take(i)) + encode_scalar(s[i] as u32).len(),
        utf8_len(s.take(i + 1)) <= utf8_len(s),
{
    assert(s.take(i + 1) =~= s.take(i) + seq![s[i]]);
    lemma_utf8_len_concat(s.take(i), seq![s[i]]);
    lemma_utf8_len_single(s[i]);
    assert(s =~= s.take(i + 1) + s.skip(i + 1));
    lemma_utf8_len_concat(s.take(i + 1), s.skip(i + 1));
}

/// The characters of the text, in order.
pub(crate) fn collect_chars(input: &str) -> (r: Vec<char>)
    ensures
        r@ == input@,
{
    let mut v: Vec<char> = Vec::new();
    for c in it: input.chars()
        invariant
            v@ == it.seq().take(it.index() as int),
    {
        v.push(c);
    }
    assert(v@ =~= input@);
    v
}

/// `char::len_utf8`: the number of bytes in the character's UTF-8 encoding.
pub fn len_utf8(c: char) -> (r: usize)
    ensures
        r == encode_scalar(c as u32).len(),
{
    let v = c as u32;
    if v <= 0x7F {
        1
    } else if v <= 0x7FF {
        2
    } else if v <= 0xFFFF {
        3
    } else {
        4
    }
}

} // verus!
