//! The scanning rules as mathematical functions on the input characters, and
//! the small character tests that the scanner runs.
use vstd::prelude::*;
use super::token::{LexError, TokenView};

verus! {

/// Letters of the ASCII alphabet and the underscore: what may start an identifier.
pub open spec fn ident_start(c: char) -> bool {
    ('a' <= c && c <= 'z') || ('A' <= c && c <= 'Z') || c == '_'
}

/// An ASCII decimal digit.
pub open spec fn ascii_digit(c: char) -> bool {
    '0' <= c && c <= '9'
}

/// What may follow the first character of an identifier.
pub open spec fn ident_continue(c: char) -> bool {
    ident_start(c) || ascii_digit(c)
}

/// What may follow the first digit of a number.
pub open spec fn number_continue(c: char) -> bool {
    ascii_digit(c) || c == '.'
}

/// The punctuation characters, each a token of its own.
pub open spec fn punct_char(c: char) -> bool {
    c == '{' || c == '}' || c == '(' || c == ')' || c == ';' || c == ','
        || c == '[' || c == ']' || c == '<' || c == '>'
}

/// The characters with the Unicode White_Space property.
pub open spec fn white_space(c: char) -> bool {
    let u = c as u32;
    (0x09 <= u && u <= 0x0d) || u == 0x20 || u == 0x85 || u == 0xa0 || u == 0x1680
        || (0x2000 <= u && u <= 0x200a) || u == 0x2028 || u == 0x2029 || u == 0x202f
        || u == 0x205f || u == 0x3000
}

/// The operators of two characters.
pub open spec fn two_char_operator(a: char, b: char) -> bool {
    ||| a == '=' && b == '='
    ||| a == '!' && b == '='
    ||| a == '<' && b == '='
    ||| a == '=' && b == '>'
    ||| a == '-' && b == '>'
    ||| a == '+' && b == '+'
    ||| a == '-' && b == '-'
    ||| a == '+' && b == '='
    ||| a == '-' && b == '='
    ||| a == '*' && b == '='
    ||| a == '/' && b == '='
    ||| a == '&' && b == '&'
    ||| a == '|' && b == '|'
    ||| a == '<' && b == '<'
    ||| a == '>' && b == '>'
}

/// The character that an escape `\c` stands for, if `c` has a meaning.
pub open spec fn escape_value(c: char) -> Option<char> {
    if c == 'n' {
        Some('\n')
    } else if c == 't' {
        Some('\t')
    } else if c == 'r' {
        Some('\r')
    } else if c == '\\' {
        Some('\\')
    } else if c == '\'' {
        Some('\'')
    } else if c == '"' {
        Some('"')
    } else {
        None
    }
}

/// How many characters from `i` on satisfy `p`, counted up to the first that does not.
pub open spec fn run_len(s: Seq<char>, i: int, p: spec_fn(char) -> bool) -> nat
    decreases s.len() - i,
{
    if 0 <= i < s.len() && p(s[i]) {
        1 + run_len(s, i + 1, p)
    } else {
        0
    }
}

/// Whether a comment of the form `/` followed by `second` opens at `i`.
pub open spec fn comment_opens(s: Seq<char>, i: int, second: char) -> bool {
    0 <= i && i + 1 < s.len() && s[i] == '/' && s[i + 1] == second
}

/// Where scanning goes on after the whitespace and comments that start at `i`.
pub open spec fn skip_blank(s: Seq<char>, i: int) -> int
    decreases s.len() - i,
{
    if 0 <= i < s.len() && white_space(s[i]) {
        skip_blank(s, i + 1)
    } else if comment_opens(s, i, '/') {
        skip_line_comment(s, i + 2)
    } else if comment_opens(s, i, '*') {
        skip_block_comment(s, i + 2)
    } else {
        i
    }
}

/// Where scanning goes on from `i` inside a line comment: after the next
/// newline and what blank text follows it, or at the end of the input.
pub open spec fn skip_line_comment(s: Seq<char>, i: int) -> int
    decreases s.len() - i,
{
    if i < 0 || i >= s.len() {
        i
    } else if s[i] == '\n' {
        skip_blank(s, i + 1)
    } else {
        skip_line_comment(s, i + 1)
    }
}

/// Where scanning goes on from `i` inside a block comment: after the next
/// `*/` and what blank text follows it, or at the end of the input.
pub open spec fn skip_block_comment(s: Seq<char>, i: int) -> int
    decreases s.len() - i,
{
    if i < 0 || i >= s.len() {
        i
    } else if s[i] == '*' && i + 1 < s.len() && s[i + 1] == '/' {
        skip_blank(s, i + 2)
    } else {
        skip_block_comment(s, i + 1)
    }
}

/// The body of a string literal from `i` on (after the opening quote): the
/// decoded text and the position after the closing quote.
pub open spec fn string_body(s: Seq<char>, i: int) -> Result<(Seq<char>, int), LexError>
    decreases s.len() - i,
{
    if i < 0 || i >= s.len() {
        Err(LexError::UnterminatedString)
    } else if s[i] == '"' {
        Ok((Seq::empty(), i + 1))
    } else {
        let (c, next) = if s[i] == '\\' {
            if i + 1 >= s.len() {
                (Err(LexError::UnterminatedString), i + 2)
            } else {
                match escape_value(s[i + 1]) {
                    Some(e) => (Ok(e), i + 2),
                    None => (Err(LexError::InvalidEscape), i + 2),
                }
            }
        } else {
            (Ok(s[i]), i + 1)
        };
        match c {
            Err(e) => Err(e),
            Ok(c) => match string_body(s, next) {
                Ok((t, j)) => Ok((seq![c] + t, j)),
                Err(e) => Err(e),
            },
        }
    }
}

/// The body of a char literal from `i` on (after the opening quote): the
/// decoded character and the position after the closing quote.
pub open spec fn char_body(s: Seq<char>, i: int) -> Result<(char, int), LexError> {
    if i < 0 || i >= s.len() {
        Err(LexError::UnterminatedChar)
    } else if s[i] == '\\' {
        if i + 1 >= s.len() {
            Err(LexError::UnterminatedChar)
        } else {
            match escape_value(s[i + 1]) {
                None => Err(LexError::InvalidEscape),
                Some(e) => if i + 2 < s.len() && s[i + 2] == '\'' {
                    Ok((e, i + 3))
                } else {
                    Err(LexError::UnterminatedChar)
                },
            }
        }
    } else if i + 1 < s.len() && s[i + 1] == '\'' {
        Ok((s[i], i + 2))
    } else {
        Err(LexError::UnterminatedChar)
    }
}

/// The token that starts at `k` (no whitespace or comment there) and the
/// position after it.
pub open spec fn token_at(s: Seq<char>, k: int) -> Result<(TokenView, int), LexError> {
    if k < 0 || k >= s.len() {
        Ok((TokenView::Eof, k))
    } else {
        let c = s[k];
        if ident_start(c) {
            let j = k + 1 + run_len(s, k + 1, |x: char| ident_continue(x));
            Ok((TokenView::Identifier(s.subrange(k, j)), j))
        } else if ascii_digit(c) {
            let j = k + 1 + run_len(s, k + 1, |x: char| number_continue(x));
            Ok((TokenView::Number(s.subrange(k, j)), j))
        } else if c == '"' {
            match string_body(s, k + 1) {
                Ok((t, j)) => Ok((TokenView::StringLiteral(t), j)),
                Err(e) => Err(e),
            }
        } else if c == '\'' {
            match char_body(s, k + 1) {
                Ok((d, j)) => Ok((TokenView::CharLiteral(d), j)),
                Err(e) => Err(e),
            }
        } else if punct_char(c) {
            Ok((TokenView::Punct(c), k + 1))
        } else if k + 1 < s.len() && two_char_operator(c, s[k + 1]) {
            Ok((TokenView::Operator(seq![c, s[k + 1]]), k + 2))
        } else {
            Ok((TokenView::Operator(seq![c]), k + 1))
        }
    }
}

/// The next token from position `i` on, after whitespace and comments, and the
/// position after it.
pub open spec fn next_token(s: Seq<char>, i: int) -> Result<(TokenView, int), LexError> {
    token_at(s, skip_blank(s, i))
}

/// Tests `ident_start`.
pub fn is_ident_start(c: char) -> (r: bool)
    ensures
        r == ident_start(c),
{
    ('a' <= c && c <= 'z') || ('A' <= c && c <= 'Z') || c == '_'
}

/// Tests `ascii_digit`.
pub fn is_ascii_digit(c: char) -> (r: bool)
    ensures
        r == ascii_digit(c),
{
    '0' <= c && c <= '9'
}

/// Tests `ident_continue`.
pub fn is_ident_continue(c: char) -> (r: bool)
    ensures
        r == ident_continue(c),
{
    is_ident_start(c) || is_ascii_digit(c)
}

/// Tests `number_continue`.
pub fn is_number_continue(c: char) -> (r: bool)
    ensures
        r == number_continue(c),
{
    is_ascii_digit(c) || c == '.'
}

/// Tests `punct_char`.
pub fn is_punct(c: char) -> (r: bool)
    ensures
        r == punct_char(c),
{
    match c {
        '{' | '}' | '(' | ')' | ';' | ',' | '[' | ']' | '<' | '>' => true,
        _ => false,
    }
}

/// Tests `two_char_operator`.
pub fn is_two_char_operator(a: char, b: char) -> (r: bool)
    ensures
        r == two_char_operator(a, b),
{
    match (a, b) {
        ('=', '=') | ('!', '=') | ('<', '=') | ('=', '>') | ('-', '>') | ('+', '+')
        | ('-', '-') | ('+', '=') | ('-', '=') | ('*', '=') | ('/', '=') | ('&', '&')
        | ('|', '|') | ('<', '<') | ('>', '>') => true,
        _ => false,
    }
}

/// Decodes the character after a backslash, shared by string and char literals.
pub fn unescape(c: char) -> (r: Option<char>)
    ensures
        r == escape_value(c),
{
    match c {
        'n' => Some('\n'),
        't' => Some('\t'),
        'r' => Some('\r'),
        '\\' => Some('\\'),
        '\'' => Some('\''),
        '"' => Some('"'),
        _ => None,
    }
}

} // verus!
