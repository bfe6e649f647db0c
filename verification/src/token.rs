//! Lexical tokens.

use vstd::prelude::*;
use vstd::std_specs::cmp::PartialEqSpecImpl;

verus! {

/// A lexical token.
///
/// A decimal keeps its lexeme, the characters as they stand in the source:
/// digits, a point, digits. `Error` marks a stretch of source that is no
/// token.
#[derive(Debug)]
pub enum Token {
    Id(String),
    LiteralString(String),
    Equal,
    QuestionMark,
    Comma,
    Semicolon,
    BracketLeft,
    BracketRight,
    ParensLeft,
    ParensRight,
    BraceLeft,
    BraceRight,
    Number(u64),
    Float(String),
    Error,
}

/// What a token is, with its text as a sequence of characters.
pub enum TokenView {
    Id(Seq<char>),
    LiteralString(Seq<char>),
    Equal,
    QuestionMark,
    Comma,
    Semicolon,
    BracketLeft,
    BracketRight,
    ParensLeft,
    ParensRight,
    BraceLeft,
    BraceRight,
    Number(u64),
    Float(Seq<char>),
    Error,
}

impl View for Token {
    type V = TokenView;

    open spec fn view(&self) -> TokenView {
        match self {
            Token::Id(s) => TokenView::Id(s@),
            Token::LiteralString(s) => TokenView::LiteralString(s@),
            Token::Equal => TokenView::Equal,
            Token::QuestionMark => TokenView::QuestionMark,
            Token::Comma => TokenView::Comma,
            Token::Semicolon => TokenView::Semicolon,
            Token::BracketLeft => TokenView::BracketLeft,
            Token::BracketRight => TokenView::BracketRight,
            Token::ParensLeft => TokenView::ParensLeft,
            Token::ParensRight => TokenView::ParensRight,
            Token::BraceLeft => TokenView::BraceLeft,
            Token::BraceRight => TokenView::BraceRight,
            Token::Number(n) => TokenView::Number(*n),
            Token::Float(s) => TokenView::Float(s@),
            Token::Error => TokenView::Error,
        }
    }
}

impl Clone for Token {
    fn clone(&self) -> (r: Self)
        ensures
            r@ == self@,
    {
        match self {
            Token::Id(s) => Token::Id(s.clone()),
            Token::LiteralString(s) => Token::LiteralString(s.clone()),
            Token::Equal => Token::Equal,
            Token::QuestionMark => Token::QuestionMark,
            Token::Comma => Token::Comma,
            Token::Semicolon => Token::Semicolon,
            Token::BracketLeft => Token::BracketLeft,
            Token::BracketRight => Token::BracketRight,
            Token::ParensLeft => Token::ParensLeft,
            Token::ParensRight => Token::ParensRight,
            Token::BraceLeft => Token::BraceLeft,
            Token::BraceRight => Token::BraceRight,
            Token::Number(n) => Token::Number(*n),
            Token::Float(s) => Token::Float(s.clone()),
            Token::Error => Token::Error,
        }
    }
}

impl PartialEq for Token {
    /// Two tokens are equal when they are of the same kind and carry the
    /// same text or number.
    fn eq(&self, other: &Token) -> (r: bool) {
        match (self, other) {
            (Token::Id(a), Token::Id(b)) => *a == *b,
            (Token::LiteralString(a), Token::LiteralString(b)) => *a == *b,
            (Token::Equal, Token::Equal) => true,
            (Token::QuestionMark, Token::QuestionMark) => true,
            (Token::Comma, Token::Comma) => true,
            (Token::Semicolon, Token::Semicolon) => true,
            (Token::BracketLeft, Token::BracketLeft) => true,
            (Token::BracketRight, Token::BracketRight) => true,
            (Token::ParensLeft, Token::ParensLeft) => true,
            (Token::ParensRight, Token::ParensRight) => true,
            (Token::BraceLeft, Token::BraceLeft) => true,
            (Token::BraceRight, Token::BraceRight) => true,
            (Token::Number(a), Token::Number(b)) => *a == *b,
            (Token::Float(a), Token::Float(b)) => *a == *b,
            (Token::Error, Token::Error) => true,
            _ => false,
        }
    }
}

impl PartialEqSpecImpl for Token {
    open spec fn obeys_eq_spec() -> bool {
        true
    }

    open spec fn eq_spec(&self, other: &Token) -> bool {
        self@ == other@
    }
}

} // verus!
