use ruscom::lexer::token::{LexError, Token};
use ruscom::lexer::Lexer;

/// Every result that the scanner hands out, up to the end of the sequence.
fn drain(src: &str) -> Vec<Result<Token, LexError>> {
    let mut lex = Lexer::new(src);
    let mut out = Vec::new();
    while let Some(r) = lex.next() {
        out.push(r);
        assert!(out.len() <= src.chars().count() + 1, "the sequence did not end");
    }
    out
}

fn ident(s: &str) -> Result<Token, LexError> {
    Ok(Token::Identifier(s.to_string()))
}

fn op(s: &str) -> Result<Token, LexError> {
    Ok(Token::Operator(s.to_string()))
}

#[test]
fn blank_inputs_go_straight_to_eof() {
    let inputs = [
        "",
        "   \t\n\r ",
        "// only a comment",
        "// one\n// two\n",
        "/* block */",
        "/* unterminated block",
        "/**/ \n /* a */ // b",
        "/* a ** b */\n",
        "\u{a0}\u{3000}\u{2028}",
    ];
    for src in inputs {
        assert_eq!(drain(src), vec![Ok(Token::Eof)], "input {:?}", src);
    }
}

#[test]
fn declaration_scans_to_exact_sequence() {
    assert_eq!(
        drain("int x = 42;"),
        vec![
            ident("int"),
            ident("x"),
            op("="),
            Ok(Token::Number("42".to_string())),
            Ok(Token::Punct(';')),
            Ok(Token::Eof),
        ]
    );
}

#[test]
fn adjacent_comments_are_elided() {
    assert_eq!(drain("// c\n/* b */\nfoo"), vec![ident("foo"), Ok(Token::Eof)]);
    assert_eq!(drain("a/*x*/b//y\nc"), vec![ident("a"), ident("b"), ident("c"), Ok(Token::Eof)]);
}

#[test]
fn string_with_escaped_newline_decodes() {
    let out = drain("\"hello\\n\"");
    assert_eq!(out, vec![Ok(Token::StringLiteral("hello\n".to_string())), Ok(Token::Eof)]);
    if let Ok(Token::StringLiteral(s)) = &out[0] {
        assert_eq!(s.chars().count(), 6);
    }
}

#[test]
fn string_escapes_all_decode() {
    assert_eq!(
        drain("\"a\\tb\\rc\\\\d\\'e\\\"f\""),
        vec![Ok(Token::StringLiteral("a\tb\rc\\d'e\"f".to_string())), Ok(Token::Eof)]
    );
    assert_eq!(drain("\"\""), vec![Ok(Token::StringLiteral(String::new())), Ok(Token::Eof)]);
}

#[test]
fn escaped_quote_char_literal_decodes() {
    assert_eq!(drain("'\\''"), vec![Ok(Token::CharLiteral('\'')), Ok(Token::Eof)]);
    assert_eq!(drain("'x' '\\n'"), vec![
        Ok(Token::CharLiteral('x')),
        Ok(Token::CharLiteral('\n')),
        Ok(Token::Eof),
    ]);
}

#[test]
fn malformed_literals_fail() {
    assert_eq!(drain("\"abc"), vec![Err(LexError::UnterminatedString)]);
    assert_eq!(drain("'a"), vec![Err(LexError::UnterminatedChar)]);
    assert_eq!(drain("\"\\q\""), vec![Err(LexError::InvalidEscape)]);
    assert_eq!(drain("'\\q'"), vec![Err(LexError::InvalidEscape)]);
    assert_eq!(drain("\"abc\\"), vec![Err(LexError::UnterminatedString)]);
    assert_eq!(drain("'\\"), vec![Err(LexError::UnterminatedChar)]);
    assert_eq!(drain("'"), vec![Err(LexError::UnterminatedChar)]);
    assert_eq!(drain("'ab'"), vec![Err(LexError::UnterminatedChar)]);
}

#[test]
fn error_ends_the_sequence() {
    let mut lex = Lexer::new("x \"open");
    assert_eq!(lex.next(), Some(ident("x")));
    assert_eq!(lex.next(), Some(Err(LexError::UnterminatedString)));
    assert_eq!(lex.next(), None);
    assert_eq!(lex.next(), None);
}

#[test]
fn eof_ends_the_sequence() {
    let mut lex = Lexer::new("a");
    assert_eq!(lex.next(), Some(ident("a")));
    assert_eq!(lex.next(), Some(Ok(Token::Eof)));
    assert_eq!(lex.next(), None);
}

#[test]
fn two_char_operators_are_taken_whole() {
    assert_eq!(drain("a==b"), vec![ident("a"), op("=="), ident("b"), Ok(Token::Eof)]);
    assert_eq!(drain("p->q"), vec![ident("p"), op("->"), ident("q"), Ok(Token::Eof)]);
    assert_eq!(
        drain("i++ += -= *= /= && || != => --"),
        vec![
            ident("i"), op("++"), op("+="), op("-="), op("*="), op("/="),
            op("&&"), op("||"), op("!="), op("=>"), op("--"), Ok(Token::Eof),
        ]
    );
    assert_eq!(drain("= ="), vec![op("="), op("="), Ok(Token::Eof)]);
    assert_eq!(drain("+-"), vec![op("+"), op("-"), Ok(Token::Eof)]);
}

#[test]
fn angle_brackets_stay_punctuation() {
    assert_eq!(
        drain("a<=b"),
        vec![ident("a"), Ok(Token::Punct('<')), op("="), ident("b"), Ok(Token::Eof)]
    );
    assert_eq!(drain("a<b"), vec![ident("a"), Ok(Token::Punct('<')), ident("b"), Ok(Token::Eof)]);
    assert_eq!(drain(">>"), vec![Ok(Token::Punct('>')), Ok(Token::Punct('>')), Ok(Token::Eof)]);
}

#[test]
fn punctuation_characters() {
    let out = drain("{}();,[]<>");
    let expected: Vec<Result<Token, LexError>> =
        "{}();,[]<>".chars().map(|c| Ok(Token::Punct(c))).chain([Ok(Token::Eof)]).collect();
    assert_eq!(out, expected);
}

#[test]
fn rescanning_gives_the_same_sequence() {
    let src = "int main() { return a<=b ? 'c' : \"s\\t\"; } // end";
    let first = drain(src);
    let second = drain(src);
    assert_eq!(first, second);
    assert_eq!(first.last(), Some(&Ok(Token::Eof)));
}

#[test]
fn numbers_take_digits_and_dots_verbatim() {
    assert_eq!(drain("1.2.3 4."), vec![
        Ok(Token::Number("1.2.3".to_string())),
        Ok(Token::Number("4.".to_string())),
        Ok(Token::Eof),
    ]);
    assert_eq!(drain(".5"), vec![op("."), Ok(Token::Number("5".to_string())), Ok(Token::Eof)]);
}

#[test]
fn identifiers_take_letters_digits_underscores() {
    assert_eq!(drain("_a1 b_2c"), vec![ident("_a1"), ident("b_2c"), Ok(Token::Eof)]);
    assert_eq!(drain("9lives"), vec![Ok(Token::Number("9".to_string())), ident("lives"), Ok(Token::Eof)]);
}

#[test]
fn lone_slash_is_an_operator() {
    assert_eq!(drain("a / b"), vec![ident("a"), op("/"), ident("b"), Ok(Token::Eof)]);
    assert_eq!(drain("/"), vec![op("/"), Ok(Token::Eof)]);
}

#[test]
fn unicode_whitespace_is_skipped() {
    assert_eq!(drain("\u{a0}x\u{3000}y"), vec![ident("x"), ident("y"), Ok(Token::Eof)]);
    assert_eq!(drain("\u{e9}"), vec![op("\u{e9}"), Ok(Token::Eof)]);
}

#[test]
fn error_messages() {
    assert_eq!(LexError::UnterminatedString.message(), "unterminated string literal");
    assert_eq!(LexError::UnterminatedChar.message(), "unterminated char literal");
    assert_eq!(LexError::InvalidEscape.message(), "invalid escape sequence");
}
