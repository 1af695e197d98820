//! The closed set of token kinds and of lexical errors.
use vstd::prelude::*;

verus! {

/// One lexeme of the source text.
#[derive(Debug, Clone, PartialEq, Eq)]
pub enum Token {
    Identifier(String),
    Number(String),
    StringLiteral(String),
    CharLiteral(char),
    Operator(String),
    Punct(char),
    Eof,
}

/// A token with its text seen as a sequence of characters.
pub ghost enum TokenView {
    Identifier(Seq<char>),
    Number(Seq<char>),
    StringLiteral(Seq<char>),
    CharLiteral(char),
    Operator(Seq<char>),
    Punct(char),
    Eof,
}

impl View for Token {
    type V = TokenView;

    open spec fn view(&self) -> TokenView {
        match self {
            Token::Identifier(s) => TokenView::Identifier(s@),
            Token::Number(s) => TokenView::Number(s@),
            Token::StringLiteral(s) => TokenView::StringLiteral(s@),
            Token::CharLiteral(c) => TokenView::CharLiteral(*c),
            Token::Operator(s) => TokenView::Operator(s@),
            Token::Punct(c) => TokenView::Punct(*c),
            Token::Eof => TokenView::Eof,
        }
    }
}

/// Why a literal could not be scanned.
#[derive(Debug, Clone, Copy, PartialEq, Eq, Structural)]
pub enum LexError {
    UnterminatedString,
    UnterminatedChar,
    InvalidEscape,
}

/// The human-readable text of each error.
pub open spec fn error_message(e: LexError) -> Seq<char> {
    match e {
        LexError::UnterminatedString => "unterminated string literal"@,
        LexError::UnterminatedChar => "unterminated char literal"@,
        LexError::InvalidEscape => "invalid escape sequence"@,
    }
}

impl LexError {
    /// The message shown to a user for this error.
    pub fn message(&self) -> (r: &'static str)
        ensures
            r@ == error_message(*self),
    {
        match self {
            LexError::UnterminatedString => "unterminated string literal",
            LexError::UnterminatedChar => "unterminated char literal",
            LexError::InvalidEscape => "invalid escape sequence",
        }
    }
}

} // verus!
