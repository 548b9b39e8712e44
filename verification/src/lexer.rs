//! The scanner: a cursor over the input that hands out one token per call.

use vstd::prelude::*;
use crate::charclass::{CharClass, is_digit, is_letter};
use crate::grammar::{run_end, scan, symbol_kind, token_at};
use crate::token::{Token, TokenType, end_of_input, lookup_identifier};

verus! {

/// What the contracts see of a scanner: the whole input and the offset of the
/// character that is classified next.
pub struct LexerView {
    pub text: Seq<char>,
    pub offset: nat,
}

/// A cursor over a complete input text.
#[derive(Debug)]
pub struct Lexer {
    input: String,
    chars: Vec<char>,
    position: usize,
}

impl View for Lexer {
    type V = LexerView;

    closed spec fn view(&self) -> LexerView {
        LexerView { text: self.input@, offset: self.position as nat }
    }
}

impl Lexer {
    #[verifier::type_invariant]
    spec fn well_formed(self) -> bool {
        &&& self.chars@ == self.input@
        &&& self.position <= self.chars.len()
    }

    /// A scanner at the start of `input`.
    pub fn new(input: String) -> (lexer: Lexer)
        ensures
            lexer@.text == input@,
            lexer@.offset == 0,
    {
        let mut chars: Vec<char> = Vec::new();
        for c in it: input.as_str().chars()
            invariant
                it.seq() == input@,
                chars@ == input@.take(it.index() as int),
        {
            chars.push(c);
        }
        assert(chars@ =~= input@);
        Lexer { input, chars, position: 0 }
    }

    /// The text that is scanned.
    pub fn input(&self) -> (text: &str)
        ensures
            text@ == self@.text,
    {
        self.input.as_str()
    }

    /// The offset of the cursor, counted in characters from the start of the
    /// input. It never passes the end of the input.
    pub fn position(&self) -> (offset: usize)
        ensures
            offset == self@.offset,
            offset <= self@.text.len(),
    {
        proof {
            use_type_invariant(self);
        }
        self.position
    }

    /// The character under the cursor, or `'\0'` at the end of the input.
    pub fn ch(&self) -> (c: char)
        ensures
            c == if self@.offset < self@.text.len() {
                self@.text[self@.offset as int]
            } else {
                '\0'
            },
    {
        proof {
            use_type_invariant(self);
        }
        if self.position < self.chars.len() {
            self.chars[self.position]
        } else {
            '\0'
        }
    }

    /// Moves the cursor one character forward. At the end of the input the
    /// cursor stays where it is.
    pub fn read_char(&mut self)
        ensures
            final(self)@.text == old(self)@.text,
            final(self)@.offset == if old(self)@.offset < old(self)@.text.len() {
                old(self)@.offset + 1
            } else {
                old(self)@.offset
            },
            final(self)@.offset <= final(self)@.text.len(),
    {
        proof {
            use_type_invariant(&*self);
        }
        if self.position < self.chars.len() {
            self.position = self.position + 1;
        }
    }

    /// The character after the one under the cursor, or `'\0'` where the
    /// input has none. The cursor does not move.
    pub fn peek_char(&self) -> (c: char)
        ensures
            c == if self@.offset + 1 < self@.text.len() {
                self@.text[self@.offset as int + 1]
            } else {
                '\0'
            },
    {
        proof {
            use_type_invariant(self);
        }
        if self.position < self.chars.len() && self.position + 1 < self.chars.len() {
            self.chars[self.position + 1]
        } else {
            '\0'
        }
    }

    /// Reads the run of letters, digits and underscores under the cursor and
    /// leaves the cursor on the first character after it. Where the cursor
    /// stands on no such character the run is empty and the cursor stays.
    pub fn read_identifier(&mut self) -> (word: &str)
        ensures
            final(self)@.text == old(self)@.text,
            final(self)@.offset == run_end(old(self)@.text, CharClass::Word, old(self)@.offset),
            old(self)@.offset <= final(self)@.offset <= final(self)@.text.len(),
            word@ == old(self)@.text.subrange(
                old(self)@.offset as int,
                final(self)@.offset as int,
            ),
    {
        let start = self.position;
        self.skip_run(CharClass::Word);
        self.slice(start, self.position)
    }

    /// Reads the run of decimal digits under the cursor and leaves the cursor
    /// on the first character after it. Where the cursor stands on no digit
    /// the run is empty and the cursor stays.
    pub fn read_number(&mut self) -> (digits: &str)
        ensures
            final(self)@.text == old(self)@.text,
            final(self)@.offset == run_end(old(self)@.text, CharClass::Digit, old(self)@.offset),
            old(self)@.offset <= final(self)@.offset <= final(self)@.text.len(),
            digits@ == old(self)@.text.subrange(
                old(self)@.offset as int,
                final(self)@.offset as int,
            ),
    {
        let start = self.position;
        self.skip_run(CharClass::Digit);
        self.slice(start, self.position)
    }

    /// Moves the cursor past the run of whitespace it stands on, if any.
    pub fn skip_whitespace(&mut self)
        ensures
            final(self)@.text == old(self)@.text,
            final(self)@.offset == run_end(
                old(self)@.text,
                CharClass::Whitespace,
                old(self)@.offset,
            ),
            old(self)@.offset <= final(self)@.offset <= final(self)@.text.len(),
    {
        self.skip_run(CharClass::Whitespace);
    }

    /// Produces the next token and moves the cursor past it. Whitespace before
    /// the token is skipped. Once the input is used up, the cursor stays at
    /// its end and every call returns the empty `Eof` token.
    pub fn next_token(&mut self) -> (token: Token)
        ensures
            final(self)@.text == old(self)@.text,
            final(self)@.offset == scan(old(self)@.text, old(self)@.offset).end,
            token@ == token_at(old(self)@.text, old(self)@.offset),
            old(self)@.offset <= final(self)@.offset <= final(self)@.text.len(),
            token.token_type == TokenType::Eof ==> final(self)@.offset == final(self)@.text.len(),
            old(self)@.offset == old(self)@.text.len() ==> token@ == end_of_input(),
    {
        self.skip_whitespace();
        proof {
            use_type_invariant(&*self);
        }
        let start = self.position;
        if start >= self.chars.len() {
            let token = Token::new(TokenType::Eof, String::new());
            assert(token@.lexeme =~= self.input@.subrange(start as int, start as int));
            return token;
        }
        let ch = self.chars[start];
        if is_letter(ch) {
            let word = self.read_identifier();
            Token::new(lookup_identifier(word), word.to_owned())
        } else if is_digit(ch) {
            let digits = self.read_number();
            Token::new(TokenType::Int, digits.to_owned())
        } else if (ch == '=' || ch == '!') && self.peek_char() == '=' {
            self.position = start + 2;
            let kind = if ch == '=' {
                TokenType::Eq
            } else {
                TokenType::NotEq
            };
            Token::new(kind, self.slice(start, start + 2).to_owned())
        } else {
            self.position = start + 1;
            Token::new(symbol_type(ch), self.slice(start, start + 1).to_owned())
        }
    }

    /// The characters of the input from offset `start` up to, not including,
    /// offset `end`.
    fn slice(&self, start: usize, end: usize) -> (part: &str)
        requires
            start <= end <= self@.text.len(),
        ensures
            part@ == self@.text.subrange(start as int, end as int),
    {
        self.input.as_str().substring_char(start, end)
    }

    /// Moves the cursor to the end of the run of `class` characters that it
    /// stands on.
    fn skip_run(&mut self, class: CharClass)
        ensures
            final(self)@.text == old(self)@.text,
            final(self)@.offset == run_end(old(self)@.text, class, old(self)@.offset),
            old(self)@.offset <= final(self)@.offset <= final(self)@.text.len(),
    {
        proof {
            use_type_invariant(&*self);
        }
        while self.position < self.chars.len() && class.contains(self.chars[self.position])
            invariant
                self.chars@ == self.input@,
                self.input@ == old(self).input@,
                old(self).position <= self.position <= self.chars.len(),
                run_end(self.input@, class, self.position as nat) == run_end(
                    old(self).input@,
                    class,
                    old(self).position as nat,
                ),
            decreases self.chars.len() - self.position,
        {
            self.position = self.position + 1;
        }
    }
}

/// The kind of the token that `ch` forms on its own.
fn symbol_type(ch: char) -> (kind: TokenType)
    ensures
        kind == symbol_kind(ch),
{
    match ch {
        '=' => TokenType::Assign,
        '+' => TokenType::Plus,
        '-' => TokenType::Minus,
        '!' => TokenType::Bang,
        '*' => TokenType::Asterisk,
        '/' => TokenType::Slash,
        '<' => TokenType::Lt,
        '>' => TokenType::Gt,
        ',' => TokenType::Comma,
        ';' => TokenType::Semicolon,
        '(' => TokenType::Lparen,
        ')' => TokenType::Rparen,
        '{' => TokenType::Lbrace,
        '}' => TokenType::Rbrace,
        '[' => TokenType::Lbracket,
        ']' => TokenType::Rbracket,
        _ => TokenType::Illegal,
    }
}

} // verus!
