//! A lexical scanner for a small C-like scripting language.
//!
//! A [`lexer::Lexer`] walks over a complete source text and hands out one
//! [`token::Token`] per call; once the text is used up it keeps returning the
//! end-of-input token.
//!
//! - [`token`]: the token kinds, the token itself and the keyword table.
//! - [`charclass`]: the character classes that the grammar is built on.
//! - [`grammar`]: the grammar as mathematics: which token starts at an offset
//!   of a text, and where it ends.
//! - [`lexer`]: the scanner, proved to return exactly the tokens of the
//!   grammar.
//! - [`laws`]: theorems about the grammar, such as that whitespace does
//!   nothing but separate tokens and that scanning ends.

pub mod charclass;
pub mod grammar;
pub mod laws;
pub mod lexer;
pub mod token;
