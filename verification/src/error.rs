//! What can go wrong while a source text is read.

use crate::span::{Span, SpanView};
use crate::token::{Token, TokenView};
use vstd::prelude::*;
use vstd::std_specs::cmp::PartialEqSpecImpl;

verus! {

/// A source text together with the name under which it is known.
#[derive(Debug)]
pub struct NamedSource {
    pub name: String,
    pub source: String,
}

/// What a named source is: its name and its text.
pub struct NamedSourceView {
    pub name: Seq<char>,
    pub source: Seq<char>,
}

impl View for NamedSource {
    type V = NamedSourceView;

    open spec fn view(&self) -> NamedSourceView {
        NamedSourceView { name: self.name@, source: self.source@ }
    }
}

impl Clone for NamedSource {
    fn clone(&self) -> (r: Self)
        ensures
            r@ == self@,
    {
        NamedSource { name: self.name.clone(), source: self.source.clone() }
    }
}

/// An error of the token stream or of the parser.
#[derive(Debug)]
pub enum ParseError {
    /// One token was required and another one stood there.
    UnexpectedSymbolFound { expected: Token, found: Token },
    /// An expression was required, and `found` cannot start one.
    ExpectedExpression { found: Token },
    /// A pattern was required, and `found` cannot start one.
    ExpectedPattern { found: Token },
    /// What follows the `=` of a declaration is no expression. `span` is
    /// where the token stream stood when that was found.
    MissingValueInValueDeclaration { span: Span, src: NamedSource },
    /// The source ended where a token was required.
    EOF,
}

/// What a parse error is, over the views of its tokens and of its span.
pub enum ParseErrorView {
    UnexpectedSymbolFound { expected: TokenView, found: TokenView },
    ExpectedExpression { found: TokenView },
    ExpectedPattern { found: TokenView },
    MissingValueInValueDeclaration { span: SpanView, src: NamedSourceView },
    EOF,
}

impl View for ParseError {
    type V = ParseErrorView;

    open spec fn view(&self) -> ParseErrorView {
        match self {
            ParseError::UnexpectedSymbolFound { expected, found } => {
                ParseErrorView::UnexpectedSymbolFound { expected: expected@, found: found@ }
            },
            ParseError::ExpectedExpression { found } => ParseErrorView::ExpectedExpression {
                found: found@,
            },
            ParseError::ExpectedPattern { found } => ParseErrorView::ExpectedPattern {
                found: found@,
            },
            ParseError::MissingValueInValueDeclaration { span, src } => {
                ParseErrorView::MissingValueInValueDeclaration { span: span@, src: src@ }
            },
            ParseError::EOF => ParseErrorView::EOF,
        }
    }
}

/// Whether two errors report the same thing: the same kind with the same
/// tokens. Two declarations without a value are the same report when they
/// point at the same place, whatever the source is called.
pub open spec fn same_report(a: ParseErrorView, b: ParseErrorView) -> bool {
    match (a, b) {
        (
            ParseErrorView::UnexpectedSymbolFound { expected: e1, found: f1 },
            ParseErrorView::UnexpectedSymbolFound { expected: e2, found: f2 },
        ) => e1 == e2 && f1 == f2,
        (
            ParseErrorView::ExpectedPattern { found: f1 },
            ParseErrorView::ExpectedPattern { found: f2 },
        ) => f1 == f2,
        (
            ParseErrorView::ExpectedExpression { found: f1 },
            ParseErrorView::ExpectedExpression { found: f2 },
        ) => f1 == f2,
        (
            ParseErrorView::MissingValueInValueDeclaration { span: s1, .. },
            ParseErrorView::MissingValueInValueDeclaration { span: s2, .. },
        ) => s1 == s2,
        (ParseErrorView::EOF, ParseErrorView::EOF) => true,
        _ => false,
    }
}

impl Clone for ParseError {
    fn clone(&self) -> (r: Self)
        ensures
            r@ == self@,
    {
        match self {
            ParseError::UnexpectedSymbolFound { expected, found } => {
                ParseError::UnexpectedSymbolFound {
                    expected: expected.clone(),
                    found: found.clone(),
                }
            },
            ParseError::ExpectedExpression { found } => ParseError::ExpectedExpression {
                found: found.clone(),
            },
            ParseError::ExpectedPattern { found } => ParseError::ExpectedPattern {
                found: found.clone(),
            },
            ParseError::MissingValueInValueDeclaration { span, src } => {
                ParseError::MissingValueInValueDeclaration { span: *span, src: src.clone() }
            },
            ParseError::EOF => ParseError::EOF,
        }
    }
}

impl PartialEq for ParseError {
    fn eq(&self, other: &ParseError) -> (r: bool) {
        match (self, other) {
            (
                ParseError::UnexpectedSymbolFound { expected: l_expected, found: l_found },
                ParseError::UnexpectedSymbolFound { expected: r_expected, found: r_found },
            ) => *l_expected == *r_expected && *l_found == *r_found,
            (
                ParseError::ExpectedPattern { found: l_found },
                ParseError::ExpectedPattern { found: r_found },
            ) => *l_found == *r_found,
            (
                ParseError::ExpectedExpression { found: l_found },
                ParseError::ExpectedExpression { found: r_found },
            ) => *l_found == *r_found,
            (
                ParseError::MissingValueInValueDeclaration { span: l_span, .. },
                ParseError::MissingValueInValueDeclaration { span: r_span, .. },
            ) => l_span.same(r_span),
            (ParseError::EOF, ParseError::EOF) => true,
            _ => false,
        }
    }
}

impl PartialEqSpecImpl for ParseError {
    open spec fn obeys_eq_spec() -> bool {
        true
    }

    open spec fn eq_spec(&self, other: &ParseError) -> bool {
        same_report(self@, other@)
    }
}

/// The errors that a parse left behind, in the order in which they were
/// found.
#[derive(Debug)]
pub struct Diagnostics {
    pub errors: Vec<ParseError>,
}

/// The views of a list of errors, in order.
pub open spec fn errors_view(es: Seq<ParseError>) -> Seq<ParseErrorView> {
    Seq::new(es.len(), |i: int| es[i]@)
}

impl View for Diagnostics {
    type V = Seq<ParseErrorView>;

    open spec fn view(&self) -> Seq<ParseErrorView> {
        errors_view(self.errors@)
    }
}

/// Appends one error: the views of the list grow by its view.
pub(crate) fn push_error(list: &mut Vec<ParseError>, item: ParseError)
    ensures
        final(list)@ == old(list)@.push(item),
        errors_view(final(list)@) == errors_view(old(list)@).push(item@),
{
    list.push(item);
    assert(errors_view(list@) =~= errors_view(old(list)@).push(item@));
}

} // verus!
