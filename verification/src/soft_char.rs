//! A `char` wrapper with an "is US-ASCII" soft constraint.

use vstd::prelude::*;

use crate::error::FromSourceError;

verus! {

/// True when the character lies in the ASCII range `0x00..=0x7F`.
///
/// Agrees pointwise with `vstd::utf8::is_ascii_chars` on sequences.
pub open spec fn is_ascii_char(c: char) -> bool {
    '\0' <= c <= '\u{7f}'
}

/// A single Unicode scalar value tagged with the soft constraint that it
/// should be ASCII. The constraint is not enforced: the unchecked
/// constructor wraps any character, and only explicit revalidation
/// re-checks it.
#[derive(Debug, Copy, Clone, PartialEq, Eq, PartialOrd, Ord, Hash)]
pub struct SoftAsciiChar {
    ch: char,
}

impl View for SoftAsciiChar {
    type V = char;

    closed spec fn view(&self) -> char {
        self.ch
    }
}

impl SoftAsciiChar {
    /// Wraps any character with no validation; the caller asserts the soft
    /// constraint holds.
    pub fn from_char_unchecked(ch: char) -> (r: Self)
        ensures
            r@ == ch,
    {
        SoftAsciiChar { ch }
    }

    /// Wraps a character after validating it; on failure the error carries
    /// the rejected character itself.
    pub fn from_char(ch: char) -> (r: Result<Self, FromSourceError<char>>)
        ensures
            is_ascii_char(ch) ==> (r matches Ok(c) && c@ == ch),
            !is_ascii_char(ch) ==> (r matches Err(e) && e.spec_source() == ch),
    {
        if (ch as u32) <= 0x7f {
            Ok(SoftAsciiChar { ch })
        } else {
            Err(FromSourceError::new(ch))
        }
    }

    /// Re-checks the wrapped character against the ASCII range.
    pub fn is_ascii(self) -> (r: bool)
        ensures
            r == is_ascii_char(self@),
    {
        (self.ch as u32) <= 0x7f
    }

    /// Returns the wrapper unchanged if the soft constraint still holds,
    /// else the raw character as the error payload.
    pub fn revalidate_soft_constraint(self) -> (r: Result<Self, char>)
        ensures
            is_ascii_char(self@) ==> r == Ok::<SoftAsciiChar, char>(self),
            !is_ascii_char(self@) ==> r == Err::<SoftAsciiChar, char>(self@),
    {
        if self.is_ascii() {
            Ok(self)
        } else {
            Err(self.ch)
        }
    }

    /// The wrapped character.
    pub fn to_char(self) -> (r: char)
        ensures
            r == self@,
    {
        self.ch
    }

    /// The numerical value of the character as a digit in the given
    /// radix, as the underlying scalar's standard semantics define it.
    pub fn to_digit(self, radix: u32) -> (r: Option<u32>)
        requires
            2 <= radix <= 36,
        ensures
            r == spec_to_digit(self@, radix),
    {
        let u = self.ch as u32;
        let d: u32 = if u >= 48 && u <= 57 {
            u - 48
        } else if u >= 97 && u <= 122 {
            u - 97 + 10
        } else if u >= 65 && u <= 90 {
            u - 65 + 10
        } else {
            u32::MAX
        };
        if d < radix {
            Some(d)
        } else {
            None
        }
    }

    /// True when the character is a digit in the given radix.
    pub fn is_digit(self, radix: u32) -> (r: bool)
        requires
            2 <= radix <= 36,
        ensures
            r == (spec_to_digit(self@, radix) is Some),
    {
        self.to_digit(radix).is_some()
    }

    /// The number of bytes of the character's UTF-8 encoding.
    pub fn len_utf8(self) -> (r: usize)
        ensures
            r == vstd::utf8::encode_scalar(self@ as u32).len(),
            1 <= r <= 4,
    {
        proof {
            vstd::utf8::char_is_scalar(self.ch);
        }
        let u = self.ch as u32;
        if u < 0x80 {
            1
        } else if u < 0x800 {
            2
        } else if u < 0x10000 {
            3
        } else {
            4
        }
    }

    /// The number of 16-bit units of the character's UTF-16 encoding.
    pub fn len_utf16(self) -> (r: usize)
        ensures
            r == spec_len_utf16(self@),
    {
        let u = self.ch as u32;
        if u < 0x10000 {
            1
        } else {
            2
        }
    }

    /// True when the character is in a Unicode control category: the two
    /// ranges `0x00..=0x1F` and `0x7F..=0x9F`.
    pub fn is_control(self) -> (r: bool)
        ensures
            r == is_control_char(self@),
    {
        let u = self.ch as u32;
        u <= 0x1F || (0x7F <= u && u <= 0x9F)
    }

    /// True when the character counts as whitespace.
    pub fn is_whitespace(self) -> (r: bool)
        ensures
            r == whitespace_char(self@),
    {
        char_is_whitespace(self.ch)
    }

    /// True when the character is alphabetic.
    pub fn is_alphabetic(self) -> (r: bool)
        ensures
            r == alphabetic_char(self@),
    {
        char_is_alphabetic(self.ch)
    }

    /// True when the character has a numeric Unicode property.
    pub fn is_numeric(self) -> (r: bool)
        ensures
            r == numeric_char(self@),
    {
        char_is_numeric(self.ch)
    }

    /// True when the character is alphabetic or numeric.
    pub fn is_alphanumeric(self) -> (r: bool)
        ensures
            r == (alphabetic_char(self@) || numeric_char(self@)),
    {
        char_is_alphanumeric(self.ch)
    }

    /// True when the character is lowercase.
    pub fn is_lowercase(self) -> (r: bool)
        ensures
            r == lowercase_char(self@),
    {
        char_is_lowercase(self.ch)
    }

    /// True when the character is uppercase.
    pub fn is_uppercase(self) -> (r: bool)
        ensures
            r == uppercase_char(self@),
    {
        char_is_uppercase(self.ch)
    }
}

/// The digit value of a character, or a negative value when it is no
/// digit: decimal digits map to their value, letters map to ten upward,
/// case-insensitively.
pub open spec fn digit_value(c: char) -> int {
    if '0' <= c <= '9' {
        c as u32 - 48
    } else if 'a' <= c <= 'z' {
        c as u32 - 97 + 10
    } else if 'A' <= c <= 'Z' {
        c as u32 - 65 + 10
    } else {
        -1
    }
}

/// The value of a character read as a digit in the given radix, when its
/// digit value falls below the radix.
pub open spec fn spec_to_digit(c: char, radix: u32) -> Option<u32> {
    if 0 <= digit_value(c) < radix {
        Some(digit_value(c) as u32)
    } else {
        None
    }
}

/// The number of 16-bit units of a character's UTF-16 encoding.
pub open spec fn spec_len_utf16(c: char) -> int {
    if (c as u32) < 0x10000 {
        1
    } else {
        2
    }
}

/// True when the character is in a Unicode control category, i.e. in
/// `0x00..=0x1F` or `0x7F..=0x9F`.
pub open spec fn is_control_char(c: char) -> bool {
    (c as u32) <= 0x1F || (0x7F <= c as u32 <= 0x9F)
}

/// Whether a character counts as Unicode whitespace.
pub uninterp spec fn whitespace_char(c: char) -> bool;

/// Whether a character is alphabetic under Unicode.
pub uninterp spec fn alphabetic_char(c: char) -> bool;

/// Whether a character has a numeric Unicode property.
pub uninterp spec fn numeric_char(c: char) -> bool;

/// Whether a character is lowercase under Unicode.
pub uninterp spec fn lowercase_char(c: char) -> bool;

/// Whether a character is uppercase under Unicode.
pub uninterp spec fn uppercase_char(c: char) -> bool;

/// Relies on `char::is_whitespace`: the result depends on the character
/// alone, by Unicode's `White_Space` property.
#[verifier::external_body]
pub(crate) fn char_is_whitespace(c: char) -> (r: bool)
    ensures
        r == whitespace_char(c),
{
    c.is_whitespace()
}

/// Relies on `char::is_alphabetic`: the result depends on the character
/// alone, by Unicode's `Alphabetic` property.
#[verifier::external_body]
fn char_is_alphabetic(c: char) -> (r: bool)
    ensures
        r == alphabetic_char(c),
{
    c.is_alphabetic()
}

/// Relies on `char::is_numeric`: the result depends on the character
/// alone, by the Unicode general categories `Nd`, `Nl` and `No`.
#[verifier::external_body]
fn char_is_numeric(c: char) -> (r: bool)
    ensures
        r == numeric_char(c),
{
    c.is_numeric()
}

/// Relies on `char::is_alphanumeric`, documented to hold exactly when
/// `char::is_alphabetic` or `char::is_numeric` does.
#[verifier::external_body]
fn char_is_alphanumeric(c: char) -> (r: bool)
    ensures
        r == (alphabetic_char(c) || numeric_char(c)),
{
    c.is_alphanumeric()
}

/// Relies on `char::is_lowercase`: the result depends on the character
/// alone, by Unicode's `Lowercase` property.
#[verifier::external_body]
fn char_is_lowercase(c: char) -> (r: bool)
    ensures
        r == lowercase_char(c),
{
    c.is_lowercase()
}

/// Relies on `char::is_uppercase`: the result depends on the character
/// alone, by Unicode's `Uppercase` property.
#[verifier::external_body]
fn char_is_uppercase(c: char) -> (r: bool)
    ensures
        r == uppercase_char(c),
{
    c.is_uppercase()
}

impl Default for SoftAsciiChar {
    /// The default value is the NUL character, which satisfies the soft
    /// constraint.
    fn default() -> (r: Self)
        ensures
            r@ == '\0',
    {
        SoftAsciiChar { ch: '\0' }
    }
}

impl PartialEq<char> for SoftAsciiChar {
    /// A soft-tagged character equals a raw character when the wrapped
    /// scalars are equal.
    fn eq(&self, other: &char) -> (r: bool) {
        self.ch == *other
    }
}

impl vstd::std_specs::cmp::PartialEqSpecImpl<char> for SoftAsciiChar {
    open spec fn obeys_eq_spec() -> bool {
        true
    }

    open spec fn eq_spec(&self, other: &char) -> bool {
        self@ == *other
    }
}

impl PartialEq<SoftAsciiChar> for char {
    /// A raw character equals a soft-tagged character when the wrapped
    /// scalars are equal.
    fn eq(&self, other: &SoftAsciiChar) -> (r: bool) {
        *self == other.to_char()
    }
}

impl vstd::std_specs::cmp::PartialEqSpecImpl<SoftAsciiChar> for char {
    open spec fn obeys_eq_spec() -> bool {
        true
    }

    open spec fn eq_spec(&self, other: &SoftAsciiChar) -> bool {
        *self == other@
    }
}

} // verus!
