//! Character classes: which characters are blank, which are digits, which
//! may stand in a word.

use vstd::prelude::*;

verus! {

/// The sets of characters that the lexer scans in runs.
#[derive(Clone, Copy, Debug)]
pub enum CharClass {
    /// The blanks: the characters with the Unicode property `White_Space`.
    Whitespace,
    /// The decimal digits `0` to `9`.
    Digit,
    /// Letters and numbers, as `char::is_alphanumeric` classifies them, the
    /// blanks apart: no character is both blank and part of a word.
    Alphanumeric,
    /// Everything but the line feed: the body of a comment.
    CommentBody,
    /// Everything but the double quote: the body of a string literal.
    StringBody,
}

/// The code points with the Unicode property `White_Space`.
pub open spec fn is_whitespace_code(n: u32) -> bool {
    ||| 0x09 <= n <= 0x0d
    ||| n == 0x20
    ||| n == 0x85
    ||| n == 0xa0
    ||| n == 0x1680
    ||| 0x2000 <= n <= 0x200a
    ||| n == 0x2028
    ||| n == 0x2029
    ||| n == 0x202f
    ||| n == 0x205f
    ||| n == 0x3000
}

/// Whether `c` is an ASCII letter or an ASCII decimal digit.
pub open spec fn is_ascii_alphanumeric(c: char) -> bool {
    ||| 'a' <= c <= 'z'
    ||| 'A' <= c <= 'Z'
    ||| '0' <= c <= '9'
}

/// The answer of `char::is_alphanumeric` for a character beyond ASCII:
/// whether Unicode gives it the property `Alphabetic` or one of the number
/// categories. The tables behind it are too long to write down here, so the
/// answer has a name and no definition.
pub uninterp spec fn unicode_alphanumeric(c: char) -> bool;

/// The answer of `char::is_alphanumeric`: for an ASCII character, that it is
/// a letter or a decimal digit; for any other, what the Unicode tables say.
pub open spec fn is_alphanumeric_char(c: char) -> bool {
    is_ascii_alphanumeric(c) || (c as u32 > 0x7f && unicode_alphanumeric(c))
}

impl CharClass {
    /// Whether `c` belongs to the class.
    pub open spec fn contains(self, c: char) -> bool {
        match self {
            CharClass::Whitespace => is_whitespace_code(c as u32),
            CharClass::Digit => '0' <= c <= '9',
            CharClass::Alphanumeric => is_alphanumeric_char(c) && !is_whitespace_code(c as u32),
            CharClass::CommentBody => c != '\n',
            CharClass::StringBody => c != '"',
        }
    }

    /// Whether every character of `s` belongs to the class.
    pub open spec fn contains_all(self, s: Seq<char>) -> bool {
        forall|i: int| 0 <= i < s.len() ==> self.contains(#[trigger] s[i])
    }

    /// Whether `c` belongs to the class.
    pub fn test(self, c: char) -> (r: bool)
        ensures
            r == self.contains(c),
    {
        match self {
            CharClass::Whitespace => is_whitespace(c),
            CharClass::Digit => is_digit(c),
            CharClass::Alphanumeric => is_alphanumeric(c) && !is_whitespace(c),
            CharClass::CommentBody => c != '\n',
            CharClass::StringBody => c != '"',
        }
    }
}

/// Whether `c` is blank.
pub fn is_whitespace(c: char) -> (r: bool)
    ensures
        r == CharClass::Whitespace.contains(c),
{
    let n: u32 = c as u32;
    (0x09 <= n && n <= 0x0d) || n == 0x20 || n == 0x85 || n == 0xa0 || n == 0x1680 || (0x2000 <= n
        && n <= 0x200a) || n == 0x2028 || n == 0x2029 || n == 0x202f || n == 0x205f || n == 0x3000
}

/// Whether `c` is a decimal digit.
pub fn is_digit(c: char) -> (r: bool)
    ensures
        r == CharClass::Digit.contains(c),
{
    '0' <= c && c <= '9'
}

/// The number that the decimal digit `c` stands for.
pub open spec fn digit_value(c: char) -> nat {
    (c as u32 - '0' as u32) as nat
}

/// The number that the decimal digit `c` stands for.
pub(crate) fn digit_to_u32(c: char) -> (d: u32)
    requires
        CharClass::Digit.contains(c),
    ensures
        d == digit_value(c),
        d <= 9,
{
    c as u32 - '0' as u32
}

/// Whether `c` is a letter or a number.
///
/// This is `char::is_alphanumeric` of the standard library, and what is said
/// of it here is taken on trust, not proved. For an ASCII character the
/// answer is that `c` is a letter or a decimal digit. For any other character
/// it is what the Unicode tables of the standard library say: that answer has
/// the name `unicode_alphanumeric`, and nothing more is claimed of it.
#[verifier::external_body]
pub(crate) fn is_alphanumeric(c: char) -> (r: bool)
    ensures
        r == (is_ascii_alphanumeric(c) || (c as u32 > 0x7f && unicode_alphanumeric(c))),
{
    c.is_alphanumeric()
}

} // verus!
