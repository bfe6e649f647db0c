use qlang::lexer::Lexer;
use qlang::token::Token;

fn decimal(lexeme: &str) -> Token {
    Token::Float(lexeme.to_string())
}

fn decimal_value(token: Option<Token>) -> f64 {
    match token {
        Some(Token::Float(lexeme)) => lexeme.parse::<f64>().unwrap(),
        other => panic!("no decimal: {:?}", other),
    }
}

#[test]
fn literal_empty_list() {
    let mut lex = Lexer::from_source("[]");
    assert_eq!(lex.next().ok(), Some(Token::BracketLeft));
    assert_eq!(lex.next().ok(), Some(Token::BracketRight));
    assert_eq!(lex.next().ok(), None);
}

#[test]
fn literal_non_empty_list() {
    let mut lex = Lexer::from_source("[3.14, true]");
    assert_eq!(lex.next().ok(), Some(Token::BracketLeft));
    assert_eq!(decimal_value(lex.peek()), 3.14);
    assert_eq!(lex.next().ok(), Some(decimal("3.14")));
    assert_eq!(lex.next().ok(), Some(Token::Comma));
    assert_eq!(lex.next().ok(), Some(Token::Id("true".to_string())));
    assert_eq!(lex.next().ok(), Some(Token::BracketRight));
    assert_eq!(lex.next().ok(), None);
}

#[test]
fn literal_string() {
    let mut lex = Lexer::from_source("\"3.14\"");
    assert_eq!(lex.next().ok(), Some(Token::LiteralString("3.14".to_string())));
    assert_eq!(lex.next().ok(), None);
}

#[test]
fn literal_float() {
    let mut lex = Lexer::from_source("3.14");
    assert_eq!(decimal_value(lex.peek()), 3.14);
    assert_eq!(lex.next().ok(), Some(decimal("3.14")));
    assert_eq!(lex.next().ok(), None);
}

#[test]
fn constant_definition() {
    let mut lex = Lexer::from_source(
        r#"
            PI = 3.14
            Name = "Q"
        "#,
    );

    assert_eq!(lex.next().ok(), Some(Token::Id("PI".to_string())));
    assert_eq!(lex.next().ok(), Some(Token::Equal));
    assert_eq!(decimal_value(lex.peek()), 3.14);
    assert_eq!(lex.next().ok(), Some(decimal("3.14")));
    assert_eq!(lex.next().ok(), Some(Token::Id("Name".to_string())));
    assert_eq!(lex.next().ok(), Some(Token::Equal));
    assert_eq!(lex.next().ok(), Some(Token::LiteralString("Q".to_string())));
    assert_eq!(lex.next().ok(), None);
}

#[test]
fn function_definition() {
    let mut lex = Lexer::from_source(
        r#"
            hello_world = () {
            }
        "#,
    );

    assert_eq!(lex.next().ok(), Some(Token::Id("hello_world".to_string())));
    assert_eq!(lex.next().ok(), Some(Token::Equal));
    assert_eq!(lex.next().ok(), Some(Token::ParensLeft));
    assert_eq!(lex.next().ok(), Some(Token::ParensRight));
    assert_eq!(lex.next().ok(), Some(Token::BraceLeft));
    assert_eq!(lex.next().ok(), Some(Token::BraceRight));
    assert_eq!(lex.next().ok(), None);
}

#[test]
fn function_call() {
    let mut lex = Lexer::from_source("hello_world()");
    assert_eq!(lex.next().ok(), Some(Token::Id("hello_world".to_string())));
    assert_eq!(lex.next().ok(), Some(Token::ParensLeft));
    assert_eq!(lex.next().ok(), Some(Token::ParensRight));
    assert_eq!(lex.next().ok(), None);
}

#[test]
fn tokens_are_equal_by_kind_and_content() {
    assert_eq!(Token::Id("a".to_string()), Token::Id("a".to_string()));
    assert_ne!(Token::Id("a".to_string()), Token::Id("b".to_string()));
    assert_ne!(Token::Id("a".to_string()), Token::LiteralString("a".to_string()));
    assert_eq!(Token::Number(7), Token::Number(7));
    assert_ne!(Token::Number(7), Token::Number(8));
    assert_ne!(Token::Float("7".to_string()), Token::Number(7));
    assert_eq!(Token::Error, Token::Error);
    assert_ne!(Token::ParensLeft, Token::ParensRight);
    assert_ne!(Token::BraceLeft, Token::BracketLeft);
    assert_eq!(Token::Semicolon, Token::Semicolon.clone());
}
