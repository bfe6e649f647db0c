use qlang::error::ParseError;
use qlang::lexer::Lexer;
use qlang::span::Span;
use qlang::token::Token;

fn all_tokens(source: &str) -> Vec<Token> {
    let mut lex = Lexer::from_source(source);
    let mut tokens = vec![];
    while let Ok(token) = lex.next() {
        tokens.push(token);
    }
    tokens
}

fn all_spans(source: &str) -> Vec<(usize, usize)> {
    let mut lex = Lexer::from_source(source);
    let mut spans = vec![];
    while lex.next().is_ok() {
        let span = lex.span();
        spans.push((span.offset, span.length));
    }
    spans
}

#[test]
fn peek_shows_the_next_token() {
    let mut lex = Lexer::from_source("1 2");

    assert_eq!(lex.peek(), Some(Token::Number(1)));
    assert_eq!(lex.peek(), Some(Token::Number(1)));
    assert_eq!(lex.next().unwrap(), Token::Number(1));
    assert_eq!(lex.peek(), Some(Token::Number(2)));
    assert_eq!(lex.next().unwrap(), Token::Number(2));
    assert_eq!(lex.peek(), None);
    assert!(lex.next().is_err());
    assert_eq!(lex.peek(), None);
}

#[test]
fn next_at_the_end_is_end_of_input() {
    let mut lex = Lexer::from_source("   ");
    assert_eq!(lex.next(), Err(ParseError::EOF));
    assert_eq!(lex.next(), Err(ParseError::EOF));
}

#[test]
fn expect_takes_the_token_it_names() {
    let mut lex = Lexer::from_source("= (");
    assert_eq!(lex.expect(Token::Equal), Ok(()));
    assert_eq!(lex.expect(Token::ParensLeft), Ok(()));
    assert_eq!(lex.expect(Token::ParensRight), Err(ParseError::EOF));
}

#[test]
fn expect_reports_what_it_found_and_takes_it() {
    let mut lex = Lexer::from_source("? x");
    assert_eq!(
        lex.expect(Token::Equal),
        Err(ParseError::UnexpectedSymbolFound {
            expected: Token::Equal,
            found: Token::QuestionMark
        })
    );
    assert_eq!(lex.next(), Ok(Token::Id("x".to_string())));
}

#[test]
fn every_punctuation_character_is_a_token() {
    assert_eq!(
        all_tokens("=?,;[](){}"),
        vec![
            Token::Equal,
            Token::QuestionMark,
            Token::Comma,
            Token::Semicolon,
            Token::BracketLeft,
            Token::BracketRight,
            Token::ParensLeft,
            Token::ParensRight,
            Token::BraceLeft,
            Token::BraceRight,
        ]
    );
}

#[test]
fn identifiers_are_letters_and_underscores() {
    assert_eq!(
        all_tokens("_a_B x1"),
        vec![Token::Id("_a_B".to_string()), Token::Id("x".to_string()), Token::Number(1)]
    );
}

#[test]
fn string_escapes_are_kept_as_written() {
    assert_eq!(
        all_tokens(r#""a\"b\\" "" "new
line""#),
        vec![
            Token::LiteralString(r#"a\"b\\"#.to_string()),
            Token::LiteralString("".to_string()),
            Token::LiteralString("new\nline".to_string()),
        ]
    );
}

#[test]
fn an_unclosed_string_is_no_token() {
    // up to the end of the text
    assert_eq!(all_tokens("\"abc"), vec![Token::Error]);
    assert_eq!(all_spans("\"abc"), vec![(0, 4)]);
    assert_eq!(all_tokens("x \"a b = \\\" é"), vec![Token::Id("x".to_string()), Token::Error]);
    assert_eq!(all_spans("x \"a b = \\\" é"), vec![(0, 1), (2, 12)]);
    // up to a backslash that takes no character
    assert_eq!(all_tokens("\"a\\"), vec![Token::Error, Token::Error]);
    assert_eq!(all_spans("\"a\\"), vec![(0, 2), (2, 1)]);
    assert_eq!(all_tokens("\"ab\\\nc"), vec![Token::Error, Token::Error, Token::Id("c".to_string())]);
    assert_eq!(all_spans("\"ab\\\nc"), vec![(0, 3), (3, 1), (5, 1)]);
    assert_eq!(all_tokens("\"\\\n\""), vec![Token::Error, Token::Error, Token::Error]);
    assert_eq!(all_spans("\"\\\n\""), vec![(0, 1), (1, 1), (3, 1)]);
}

#[test]
fn numbers_and_decimals() {
    assert_eq!(
        all_tokens("12 0.5 .5 3. 1.2.3 007"),
        vec![
            Token::Number(12),
            Token::Float("0.5".to_string()),
            Token::Float(".5".to_string()),
            Token::Number(3),
            Token::Error,
            Token::Float("1.2".to_string()),
            Token::Float(".3".to_string()),
            Token::Number(7),
        ]
    );
}

#[test]
fn the_largest_number_and_the_first_too_large() {
    assert_eq!(all_tokens("18446744073709551615"), vec![Token::Number(u64::MAX)]);
    assert_eq!(all_tokens("18446744073709551616 1"), vec![Token::Error, Token::Number(1)]);
    assert_eq!(all_tokens("18446744073709551620"), vec![Token::Error]);
    assert_eq!(all_tokens("99999999999999999999999"), vec![Token::Error]);
    assert_eq!(all_tokens("00000000000000000000000001"), vec![Token::Number(1)]);
}

#[test]
fn other_characters_are_no_tokens_one_by_one() {
    assert_eq!(
        all_tokens("#é a"),
        vec![Token::Error, Token::Error, Token::Id("a".to_string())]
    );
}

#[test]
fn all_white_space_is_skipped() {
    assert_eq!(
        all_tokens("\u{9}a\u{a}\u{b}\u{c}\u{d}b\u{85}\u{a0}c\u{1680}\u{2000}\u{200a}d\u{2028}\u{2029}\u{202f}\u{205f}\u{3000}e "),
        vec![
            Token::Id("a".to_string()),
            Token::Id("b".to_string()),
            Token::Id("c".to_string()),
            Token::Id("d".to_string()),
            Token::Id("e".to_string()),
        ]
    );
    assert_eq!(all_tokens("\u{200b}"), vec![Token::Error]);
}

#[test]
fn span_is_the_byte_range_of_the_last_token() {
    let mut lex = Lexer::from_source("ab  \"é\" =");
    assert_eq!(lex.span(), Span::new(0, 0));
    assert_eq!(lex.next(), Ok(Token::Id("ab".to_string())));
    assert_eq!(lex.span(), Span::new(0, 2));
    assert_eq!(lex.peek(), Some(Token::LiteralString("é".to_string())));
    assert_eq!(lex.span(), Span::new(4, 4));
    assert_eq!(lex.next(), Ok(Token::LiteralString("é".to_string())));
    assert_eq!(lex.span(), Span::new(4, 4));
    assert_eq!(lex.next(), Ok(Token::Equal));
    assert_eq!(lex.span(), Span::new(9, 1));
    assert!(lex.next().is_err());
    assert_eq!(lex.span(), Span::new(10, 0));
}

#[test]
fn spans_count_bytes_of_every_width() {
    assert_eq!(all_spans("a\u{e9}\u{20ac}\u{1f600}b"), vec![(0, 1), (1, 2), (3, 3), (6, 4), (10, 1)]);
}

#[test]
fn span_at_the_end_follows_trailing_white_space() {
    let mut lex = Lexer::from_source("a \u{3000}");
    assert!(lex.next().is_ok());
    assert_eq!(lex.peek(), None);
    assert_eq!(lex.span(), Span::new(5, 0));
}
