//! The token taxonomy and the keyword table.

use vstd::prelude::*;
use vstd::string::StringSliceAdditionalSpecFns;
use vstd::utf8::{decode_utf8, encode_utf8};

verus! {

/// The closed set of token kinds.
#[derive(Clone, Copy, Debug, PartialEq, Eq, Structural)]
pub enum TokenType {
    /// A character that starts no token.
    Illegal,
    /// The end of the input.
    Eof,
    /// A name: `add`, `foobar`, `x1`, ...
    Ident,
    /// An integer literal: `123456`.
    Int,
    /// `=`
    Assign,
    /// `+`
    Plus,
    /// `-`
    Minus,
    /// `!`
    Bang,
    /// `*`
    Asterisk,
    /// `/`
    Slash,
    /// `<`
    Lt,
    /// `>`
    Gt,
    /// `==`
    Eq,
    /// `!=`
    NotEq,
    /// `,`
    Comma,
    /// `;`
    Semicolon,
    /// `(`
    Lparen,
    /// `)`
    Rparen,
    /// `{`
    Lbrace,
    /// `}`
    Rbrace,
    /// `[`
    Lbracket,
    /// `]`
    Rbracket,
    /// `fn`
    Function,
    /// `let`
    Let,
    /// `true`
    True,
    /// `false`
    False,
    /// `if`
    If,
    /// `else`
    Else,
    /// `return`
    Return,
}

/// A token as the contracts see it: its kind and the characters it was read from.
pub struct TokenView {
    pub kind: TokenType,
    pub lexeme: Seq<char>,
}

/// The token that marks the end of the input: it has no characters.
pub open spec fn end_of_input() -> TokenView {
    TokenView { kind: TokenType::Eof, lexeme: Seq::empty() }
}

/// A classified piece of source text.
#[derive(Debug, PartialEq)]
pub struct Token {
    pub token_type: TokenType,
    pub literal: String,
}

impl View for Token {
    type V = TokenView;

    open spec fn view(&self) -> TokenView {
        TokenView { kind: self.token_type, lexeme: self.literal@ }
    }
}

impl Token {
    /// Pairs a kind with the text it was read from.
    pub fn new(token_type: TokenType, literal: String) -> (token: Token)
        ensures
            token.token_type == token_type,
            token.literal == literal,
    {
        Token { token_type, literal }
    }
}

impl Clone for Token {
    fn clone(&self) -> (copy: Token)
        ensures
            copy == *self,
    {
        Token { token_type: self.token_type, literal: self.literal.clone() }
    }
}

/// The kinds that a name can have: `Ident` and the seven keywords.
pub open spec fn is_name_kind(kind: TokenType) -> bool {
    kind == TokenType::Ident || kind == TokenType::Function || kind == TokenType::Let || kind
        == TokenType::True || kind == TokenType::False || kind == TokenType::If || kind
        == TokenType::Else || kind == TokenType::Return
}

/// The kind of a name: that of the keyword it spells, or `Ident`. The match
/// is exact and case-sensitive.
pub open spec fn keyword_kind(word: Seq<char>) -> TokenType {
    if word == "let"@ {
        TokenType::Let
    } else if word == "fn"@ {
        TokenType::Function
    } else if word == "return"@ {
        TokenType::Return
    } else if word == "if"@ {
        TokenType::If
    } else if word == "else"@ {
        TokenType::Else
    } else if word == "true"@ {
        TokenType::True
    } else if word == "false"@ {
        TokenType::False
    } else {
        TokenType::Ident
    }
}

/// A name is a keyword only where it spells that keyword out in full, and
/// then it is that keyword: no prefix of a longer name counts, nor does a
/// change of case.
pub proof fn lemma_keywords_match_exactly(word: Seq<char>)
    ensures
        is_name_kind(keyword_kind(word)),
        keyword_kind(word) == TokenType::Let <==> word == "let"@,
        keyword_kind(word) == TokenType::Function <==> word == "fn"@,
        keyword_kind(word) == TokenType::Return <==> word == "return"@,
        keyword_kind(word) == TokenType::If <==> word == "if"@,
        keyword_kind(word) == TokenType::Else <==> word == "else"@,
        keyword_kind(word) == TokenType::True <==> word == "true"@,
        keyword_kind(word) == TokenType::False <==> word == "false"@,
{
    reveal_strlit("let");
    reveal_strlit("fn");
    reveal_strlit("return");
    reveal_strlit("if");
    reveal_strlit("else");
    reveal_strlit("true");
    reveal_strlit("false");
    assert("let"@.len() == 3 && "return"@.len() == 6 && "false"@.len() == 5);
    assert("fn"@.len() == 2 && "fn"@[0] == 'f');
    assert("if"@.len() == 2 && "if"@[0] == 'i');
    assert("else"@.len() == 4 && "else"@[0] == 'e');
    assert("true"@.len() == 4 && "true"@[0] == 't');
}

/// Whether two strings hold the same characters.
fn same_text(a: &str, b: &str) -> (same: bool)
    ensures
        same == (a@ == b@),
{
    broadcast use vstd::utf8::encode_utf8_decode_utf8;

    let x = a.as_bytes();
    let y = b.as_bytes();
    if x.len() != y.len() {
        return false;
    }
    let mut i: usize = 0;
    while i < x.len()
        invariant
            i <= x.len(),
            x.len() == y.len(),
            forall|j: int| 0 <= j < i ==> x@[j] == y@[j],
            x@ == a.spec_bytes(),
            y@ == b.spec_bytes(),
        decreases x.len() - i,
    {
        if x[i] != y[i] {
            return false;
        }
        i = i + 1;
    }
    assert(x@ =~= y@);
    assert(decode_utf8(encode_utf8(a@)) == decode_utf8(encode_utf8(b@)));
    true
}

/// The kind of the name `ident`: that of the keyword it spells, or `Ident`.
pub fn lookup_identifier(ident: &str) -> (kind: TokenType)
    ensures
        kind == keyword_kind(ident@),
{
    if same_text(ident, "let") {
        TokenType::Let
    } else if same_text(ident, "fn") {
        TokenType::Function
    } else if same_text(ident, "return") {
        TokenType::Return
    } else if same_text(ident, "if") {
        TokenType::If
    } else if same_text(ident, "else") {
        TokenType::Else
    } else if same_text(ident, "true") {
        TokenType::True
    } else if same_text(ident, "false") {
        TokenType::False
    } else {
        TokenType::Ident
    }
}

} // verus!
