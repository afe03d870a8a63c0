//! Lexical analysis for a small interpreted language.
//!
//! The crate turns raw source text into a flat stream of typed tokens: a
//! [`lexer::Lexer`] holds a cursor over one input string and hands out one
//! [`token::Token`] per call to `next_token`, ending with an end-of-input
//! sentinel. The token vocabulary, keyword recognition and rendering live in
//! [`token`]; character classes and decimal numerals live in [`text`].

pub mod lexer;
pub mod text;
pub mod token;
