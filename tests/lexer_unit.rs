use ruscom::lexer::token::Token;
use ruscom::lexer::Lexer;

fn collect(src: &str) -> Vec<Token> {
    let mut lex = Lexer::new(src);
    let mut tokens = Vec::new();
    while let Some(r) = lex.next() {
        let t = r.unwrap();
        if t == Token::Eof {
            break;
        }
        tokens.push(t);
    }
    tokens
}

#[test]
fn lexer_simple_ident_and_number() {
    let src = "int x = 42;";
    let mut lex = Lexer::new(src);
    assert_eq!(lex.next().unwrap().unwrap(), Token::Identifier("int".into()));
    assert_eq!(lex.next().unwrap().unwrap(), Token::Identifier("x".into()));
    assert_eq!(lex.next().unwrap().unwrap(), Token::Operator("=".into()));
    assert_eq!(lex.next().unwrap().unwrap(), Token::Number("42".into()));
    assert_eq!(lex.next().unwrap().unwrap(), Token::Punct(';'));
}

#[test]
fn string_and_char() {
    let src = "\"hello\\n\" '\\'a'";
    let mut lex = Lexer::new(src);
    assert_eq!(lex.next().unwrap().unwrap(), Token::StringLiteral("hello\n".into()));
}

#[test]
fn lexer_comments_and_whitespace() {
    let src = "// line comment\n/* block */\nfoo";
    let mut lex = Lexer::new(src);
    assert_eq!(lex.next().unwrap().unwrap(), Token::Identifier("foo".into()));
}

#[test]
fn lexer_unit_simple_ident_and_number() {
    let src = "int x = 42;";
    let tokens = collect(src);
    println!("simple_ident_and_number tokens ({}): {:?}", tokens.len(), tokens);
    assert_eq!(tokens[0], Token::Identifier("int".into()));
    assert_eq!(tokens[1], Token::Identifier("x".into()));
    assert_eq!(tokens[2], Token::Operator("=".into()));
    assert_eq!(tokens[3], Token::Number("42".into()));
    assert_eq!(tokens[4], Token::Punct(';'));
}

#[test]
fn lexer_unit_comments_and_whitespace() {
    let src = "// line comment\n/* block */\nfoo";
    let tokens = collect(src);
    println!("comments_and_whitespace tokens ({}): {:?}", tokens.len(), tokens);
    assert_eq!(tokens[0], Token::Identifier("foo".into()));
}
