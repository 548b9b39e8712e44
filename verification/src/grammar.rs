//! The token grammar, stated over sequences of characters.
//!
//! Nothing here runs. These functions say which token starts at a given
//! offset of a text and where it ends; the scanner is proved against them.

use vstd::prelude::*;
use crate::charclass::{CharClass, spec_is_digit, spec_is_letter};
use crate::token::{TokenType, TokenView, keyword_kind};

verus! {

/// The offset at which the maximal run of `class` characters that starts at
/// `from` ends: `from` itself when the character there is of another class or
/// the text is used up.
pub open spec fn run_end(text: Seq<char>, class: CharClass, from: nat) -> nat
    decreases text.len() - from,
{
    if from < text.len() && class.contains(text[from as int]) {
        run_end(text, class, from + 1)
    } else {
        from
    }
}

/// The kind of the token that a character forms on its own. `=` and `!` give
/// `Assign` and `Bang`; whether one of them opens a two-character operator is
/// decided by [`is_comparison_at`].
pub open spec fn symbol_kind(c: char) -> TokenType {
    match c {
        '=' => TokenType::Assign,
        '+' => TokenType::Plus,
        '-' => TokenType::Minus,
        '!' => TokenType::Bang,
        '*' => TokenType::Asterisk,
        '/' => TokenType::Slash,
        '<' => TokenType::Lt,
        '>' => TokenType::Gt,
        ',' => TokenType::Comma,
        ';' => TokenType::Semicolon,
        '(' => TokenType::Lparen,
        ')' => TokenType::Rparen,
        '{' => TokenType::Lbrace,
        '}' => TokenType::Rbrace,
        '[' => TokenType::Lbracket,
        ']' => TokenType::Rbracket,
        _ => TokenType::Illegal,
    }
}

/// Whether `==` or `!=` stands at offset `at`.
pub open spec fn is_comparison_at(text: Seq<char>, at: nat) -> bool {
    &&& at + 1 < text.len()
    &&& text[at as int] == '=' || text[at as int] == '!'
    &&& text[at as int + 1] == '='
}

/// The place of a token in the text: it is made of the characters from
/// `start` up to, not including, `end`.
pub struct Span {
    pub kind: TokenType,
    pub start: nat,
    pub end: nat,
}

/// The token whose first character stands at `start`, an offset that holds
/// no whitespace. At or past the end of the text this is the empty
/// end-of-input token.
pub open spec fn token_starting_at(text: Seq<char>, start: nat) -> Span {
    if start >= text.len() {
        Span { kind: TokenType::Eof, start, end: start }
    } else if spec_is_letter(text[start as int]) {
        let end = run_end(text, CharClass::Word, start);
        Span { kind: keyword_kind(text.subrange(start as int, end as int)), start, end }
    } else if spec_is_digit(text[start as int]) {
        Span { kind: TokenType::Int, start, end: run_end(text, CharClass::Digit, start) }
    } else if is_comparison_at(text, start) {
        Span {
            kind: if text[start as int] == '=' {
                TokenType::Eq
            } else {
                TokenType::NotEq
            },
            start,
            end: start + 2,
        }
    } else {
        Span { kind: symbol_kind(text[start as int]), start, end: start + 1 }
    }
}

/// The next token for a cursor at offset `from`: whitespace is skipped, then
/// one token is read.
pub open spec fn scan(text: Seq<char>, from: nat) -> Span {
    token_starting_at(text, run_end(text, CharClass::Whitespace, from))
}

/// The token that [`scan`] finds, with the characters it is made of.
pub open spec fn token_at(text: Seq<char>, from: nat) -> TokenView {
    let span = scan(text, from);
    TokenView { kind: span.kind, lexeme: text.subrange(span.start as int, span.end as int) }
}

/// The token returned by call number `n`, counted from zero, of a scanner
/// that starts at offset `from` and is asked for one token after another.
pub open spec fn nth_token(text: Seq<char>, from: nat, n: nat) -> TokenView
    decreases n,
{
    if n == 0 {
        token_at(text, from)
    } else {
        nth_token(text, scan(text, from).end, (n - 1) as nat)
    }
}

/// The offset at which the cursor of such a scanner stands after `n` calls.
pub open spec fn offset_after(text: Seq<char>, from: nat, n: nat) -> nat
    decreases n,
{
    if n == 0 {
        from
    } else {
        offset_after(text, scan(text, from).end, (n - 1) as nat)
    }
}

/// A run stays inside the text, holds only characters of its class, and is
/// followed by a character of another class or by the end of the text.
pub proof fn lemma_run_end_is_maximal(text: Seq<char>, class: CharClass, from: nat)
    requires
        from <= text.len(),
    ensures
        from <= run_end(text, class, from) <= text.len(),
        forall|i: int|
            from <= i < run_end(text, class, from) ==> class.contains(#[trigger] text[i]),
        run_end(text, class, from) < text.len() ==> !class.contains(
            text[run_end(text, class, from) as int],
        ),
    decreases text.len() - from,
{
    if from < text.len() && class.contains(text[from as int]) {
        lemma_run_end_is_maximal(text, class, from + 1);
    }
}

/// Only one offset ends a run: the first one, at or after `from`, that holds
/// no character of the class.
pub proof fn lemma_run_end_is_unique(text: Seq<char>, class: CharClass, from: nat, end: nat)
    requires
        from <= end <= text.len(),
        forall|i: int| from <= i < end ==> class.contains(#[trigger] text[i]),
        end < text.len() ==> !class.contains(text[end as int]),
    ensures
        run_end(text, class, from) == end,
    decreases end - from,
{
    if from < end {
        lemma_run_end_is_unique(text, class, from + 1, end);
    }
}

/// A token lies inside the text, at or after the cursor. Every token but
/// `Eof` holds at least one character, and `Eof` is found exactly where
/// nothing but whitespace is left.
pub proof fn lemma_scan_bounds(text: Seq<char>, from: nat)
    requires
        from <= text.len(),
    ensures
        from <= scan(text, from).start <= scan(text, from).end <= text.len(),
        scan(text, from).start == run_end(text, CharClass::Whitespace, from),
        scan(text, from).kind == TokenType::Eof <==> scan(text, from).start == text.len(),
        scan(text, from).kind != TokenType::Eof ==> scan(text, from).start < scan(text, from).end,
{
    let start = run_end(text, CharClass::Whitespace, from);
    lemma_run_end_is_maximal(text, CharClass::Whitespace, from);
    if start < text.len() {
        lemma_run_end_is_maximal(text, CharClass::Word, start);
        lemma_run_end_is_maximal(text, CharClass::Digit, start);
    }
}

/// The cursor never moves back and never leaves the text.
pub proof fn lemma_offset_after_bounds(text: Seq<char>, from: nat, n: nat)
    requires
        from <= text.len(),
    ensures
        from <= offset_after(text, from, n) <= text.len(),
    decreases n,
{
    if n > 0 {
        lemma_scan_bounds(text, from);
        lemma_offset_after_bounds(text, scan(text, from).end, (n - 1) as nat);
    }
}

} // verus!
