//! The character classes of the grammar.

use vstd::prelude::*;

verus! {

/// Space, tab, newline and carriage return separate tokens and belong to none.
pub open spec fn spec_is_whitespace(c: char) -> bool {
    c == ' ' || c == '\t' || c == '\n' || c == '\r'
}

/// ASCII letters and the underscore may start a name.
pub open spec fn spec_is_letter(c: char) -> bool {
    'a' <= c <= 'z' || 'A' <= c <= 'Z' || c == '_'
}

/// ASCII decimal digits.
pub open spec fn spec_is_digit(c: char) -> bool {
    '0' <= c <= '9'
}

/// The brackets and separators that always stand alone.
pub open spec fn is_punctuation(c: char) -> bool {
    c == ';' || c == '(' || c == ')' || c == ',' || c == '{' || c == '}' || c == '[' || c == ']'
}

/// The three kinds of character run that the scanner consumes greedily.
#[derive(Clone, Copy, Debug, PartialEq, Eq, Structural)]
pub enum CharClass {
    /// Characters skipped between tokens.
    Whitespace,
    /// Letters, digits and the underscore: the body of a name.
    Word,
    /// Decimal digits: the body of an integer literal.
    Digit,
}

/// Whether `ch` separates tokens.
#[verifier::when_used_as_spec(spec_is_whitespace)]
pub fn is_whitespace(ch: char) -> (b: bool)
    ensures
        b == spec_is_whitespace(ch),
{
    ch == ' ' || ch == '\t' || ch == '\n' || ch == '\r'
}

/// Whether `ch` is an ASCII letter or the underscore.
#[verifier::when_used_as_spec(spec_is_letter)]
pub fn is_letter(ch: char) -> (b: bool)
    ensures
        b == spec_is_letter(ch),
{
    'a' <= ch && ch <= 'z' || 'A' <= ch && ch <= 'Z' || ch == '_'
}

/// Whether `ch` is an ASCII decimal digit.
#[verifier::when_used_as_spec(spec_is_digit)]
pub fn is_digit(ch: char) -> (b: bool)
    ensures
        b == spec_is_digit(ch),
{
    '0' <= ch && ch <= '9'
}

impl CharClass {
    /// Whether `c` belongs to the class.
    pub open spec fn spec_contains(self, c: char) -> bool {
        match self {
            CharClass::Whitespace => spec_is_whitespace(c),
            CharClass::Word => spec_is_letter(c) || spec_is_digit(c),
            CharClass::Digit => spec_is_digit(c),
        }
    }

    /// Whether `ch` belongs to the class.
    #[verifier::when_used_as_spec(spec_contains)]
    pub fn contains(self, ch: char) -> (b: bool)
        ensures
            b == self.spec_contains(ch),
    {
        match self {
            CharClass::Whitespace => is_whitespace(ch),
            CharClass::Word => is_letter(ch) || is_digit(ch),
            CharClass::Digit => is_digit(ch),
        }
    }
}

} // verus!
