//! Character classes and string building used by the lexer.
//!
//! Whitespace is the Unicode `White_Space` set, which `char::is_whitespace`
//! tests; it is small enough to be written out and decided here. The
//! alphabetic and alphanumeric classes come from `char`'s own methods: their
//! contracts name the result and state what the standard library documents
//! of it on ASCII characters. Decimal digits are the ASCII digits, as
//! `char::is_digit(10)` defines them, and are decided here directly.
use vstd::prelude::*;

verus! {

/// The characters with the Unicode `White_Space` property, the set that
/// `char::is_whitespace` accepts: U+0009 to U+000D, U+0020, U+0085, U+00A0,
/// U+1680, U+2000 to U+200A, U+2028, U+2029, U+202F, U+205F and U+3000.
pub open spec fn unicode_whitespace(c: char) -> bool {
    ||| ('\u{9}' <= c && c <= '\u{d}')
    ||| c == ' '
    ||| c == '\u{85}'
    ||| c == '\u{a0}'
    ||| c == '\u{1680}'
    ||| ('\u{2000}' <= c && c <= '\u{200a}')
    ||| c == '\u{2028}'
    ||| c == '\u{2029}'
    ||| c == '\u{202f}'
    ||| c == '\u{205f}'
    ||| c == '\u{3000}'
}

/// Whether `c` is whitespace in the sense of `char::is_whitespace`.
pub fn is_whitespace(c: char) -> (r: bool)
    ensures
        r == unicode_whitespace(c),
{
    ('\u{9}' <= c && c <= '\u{d}') || c == ' ' || c == '\u{85}' || c == '\u{a0}' || c
        == '\u{1680}' || ('\u{2000}' <= c && c <= '\u{200a}') || c == '\u{2028}' || c
        == '\u{2029}' || c == '\u{202f}' || c == '\u{205f}' || c == '\u{3000}'
}

/// An ASCII letter: `'a'` to `'z'` or `'A'` to `'Z'`.
pub open spec fn ascii_letter(c: char) -> bool {
    ('a' <= c && c <= 'z') || ('A' <= c && c <= 'Z')
}

/// A character of the ASCII range, U+0000 to U+007F.
pub open spec fn is_ascii_char(c: char) -> bool {
    c <= '\u{7f}'
}

/// What `char::is_alphabetic` answers for `c`: whether `c` has the Unicode
/// `Alphabetic` property.
pub uninterp spec fn unicode_alphabetic(c: char) -> bool;

/// What `char::is_alphanumeric` answers for `c`.
pub uninterp spec fn unicode_alphanumeric(c: char) -> bool;

/// Calls `char::is_alphabetic`, documented as testing the Unicode
/// `Alphabetic` property. The result is named; beyond that the contract
/// states what that property is on ASCII characters, where the standard
/// library also decides it by the range `'a'..='z' | 'A'..='Z'`: an ASCII
/// character is alphabetic exactly when it is an ASCII letter. Nothing is
/// claimed of the Unicode table above U+007F.
#[verifier::external_body]
pub(crate) fn is_alphabetic(c: char) -> (r: bool)
    ensures
        r == unicode_alphabetic(c),
        is_ascii_char(c) ==> (r <==> ascii_letter(c)),
{
    c.is_alphabetic()
}

/// Calls `char::is_alphanumeric`. Its documentation defines it as
/// `is_alphabetic() || is_numeric()`, and `is_numeric` accepts `'0'..='9'`
/// and no other ASCII character. The contract states two consequences:
/// every alphabetic character is alphanumeric, and an ASCII character is
/// alphanumeric exactly when it is an ASCII letter or an ASCII digit.
/// Nothing is claimed of the Unicode tables above U+007F.
#[verifier::external_body]
pub(crate) fn is_alphanumeric(c: char) -> (r: bool)
    ensures
        r == unicode_alphanumeric(c),
        unicode_alphabetic(c) ==> r,
        is_ascii_char(c) ==> (r <==> (ascii_letter(c) || ('0' <= c && c <= '9'))),
{
    c.is_alphanumeric()
}

/// The letters that start a word: the ASCII letters among ASCII characters,
/// and above U+007F whatever `char::is_alphabetic` accepts.
pub open spec fn alphabetic(c: char) -> bool {
    if is_ascii_char(c) {
        ascii_letter(c)
    } else {
        unicode_alphabetic(c)
    }
}

/// The characters that continue a word: ASCII letters and digits among ASCII
/// characters, and above U+007F whatever `char::is_alphanumeric` accepts.
pub open spec fn alphanumeric(c: char) -> bool {
    if is_ascii_char(c) {
        ascii_letter(c) || ('0' <= c && c <= '9')
    } else {
        unicode_alphanumeric(c)
    }
}

/// The characters that `char::is_digit(10)` accepts: `'0'` to `'9'`.
pub open spec fn is_decimal_digit_spec(c: char) -> bool {
    '0' <= c && c <= '9'
}

/// The value of a decimal digit.
pub open spec fn digit_value(c: char) -> int {
    (c as int) - ('0' as int)
}

/// Whether `c` is an ASCII decimal digit (`char::is_digit(10)`).
pub(crate) fn is_decimal_digit(c: char) -> (r: bool)
    ensures
        r == is_decimal_digit_spec(c),
{
    '0' <= c && c <= '9'
}

/// Calls `String::push`, which appends one character at the end.
#[verifier::external_body]
pub(crate) fn push_char(s: &mut String, c: char)
    ensures
        final(s)@ == old(s)@.push(c),
{
    s.push(c);
}

/// A `String` holding the characters `chars[start..end]`.
pub(crate) fn string_from_range(chars: &Vec<char>, start: usize, end: usize) -> (s: String)
    requires
        start <= end <= chars.len(),
    ensures
        s@ == chars@.subrange(start as int, end as int),
{
    let mut s = String::new();
    let mut i = start;
    while i < end
        invariant
            start <= i <= end <= chars.len(),
            s@ == chars@.subrange(start as int, i as int),
        decreases end - i,
    {
        push_char(&mut s, chars[i]);
        i = i + 1;
        assert(s@ =~= chars@.subrange(start as int, i as int));
    }
    s
}

} // verus!
