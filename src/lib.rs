//! A lexical analyzer for a C-family language: it turns source text into a
//! sequence of typed tokens, one token per pull.
pub mod lexer;
