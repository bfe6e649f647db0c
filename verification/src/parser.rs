//! The parser: from a source text to a module, by recursive descent, with
//! the errors of the declarations that did not parse kept aside.

use crate::error::{
    errors_view, push_error, Diagnostics, NamedSource, NamedSourceView, ParseError,
    ParseErrorView,
};
use crate::grammar::{
    lemma_clause_within, lemma_parameters_within, lemma_declaration_advances,
    lemma_expression_within, parsed_arguments, parsed_clause, parsed_clauses, parsed_declaration,
    parsed_expression, parsed_id, parsed_items, parsed_module, parsed_parameters, parsed_pattern,
    parsed_patterns,
};
use crate::lexer::{Cursor, Lexer};
use crate::parsetree::{
    clauses_view, expressions_view, items_view, lemma_view_call, lemma_view_function,
    patterns_view, push_clause, push_expression, push_item, push_pattern, Expression, ExpressionView, FunClause, FunClauseView, Id, Module, ModuleItem,
    ModuleItemView, Pattern, PatternView, ValueDeclaration,
};
use crate::token::{Token, TokenView};
use crate::views::view_result;
use vstd::prelude::*;
use vstd::string::StringExecFns;

verus! {

/// The view of a list of patterns, or of the error in its place.
pub open spec fn view_patterns(r: Result<Vec<Pattern>, ParseError>) -> Result<
    Seq<PatternView>,
    ParseErrorView,
> {
    match r {
        Ok(ps) => Ok(patterns_view(ps@)),
        Err(e) => Err(e@),
    }
}

/// The view of a list of expressions, or of the error in its place.
pub open spec fn view_expressions(r: Result<Vec<Expression>, ParseError>) -> Result<
    Seq<ExpressionView>,
    ParseErrorView,
> {
    match r {
        Ok(es) => Ok(expressions_view(es@)),
        Err(e) => Err(e@),
    }
}

/// A function value of the clauses that `r` holds, or the error that it
/// holds.
pub open spec fn function_of(r: (Result<Seq<FunClauseView>, ParseErrorView>, Cursor)) -> (
    Result<ExpressionView, ParseErrorView>,
    Cursor,
) {
    match r {
        (Ok(clauses), c) => (Ok(ExpressionView::Function(clauses)), c),
        (Err(e), c) => (Err(e), c),
    }
}

/// A parser for one source text.
pub struct Parser {
    filename: String,
    source: String,
    module_name: String,
    diagnostics: Vec<ParseError>,
}

impl Parser {
    /// The name of the module that this parser makes.
    pub closed spec fn name(&self) -> Seq<char> {
        self.module_name@
    }

    /// The name under which errors quote the source text.
    pub closed spec fn file(&self) -> Seq<char> {
        self.filename@
    }

    /// The source text.
    pub closed spec fn text(&self) -> Seq<char> {
        self.source@
    }

    /// The errors found so far, in the order in which they were found.
    pub closed spec fn found(&self) -> Seq<ParseErrorView> {
        errors_view(self.diagnostics@)
    }

    /// A parser for the text `source`, which errors quote as `filename`,
    /// for a module called `module_name`.
    pub fn from_source(filename: &str, module_name: &str, source: &str) -> (r: Parser)
        ensures
            r.file() == filename@,
            r.name() == module_name@,
            r.text() == source@,
            r.found() == Seq::<ParseErrorView>::empty(),
    {
        Parser {
            filename: String::from_str(filename),
            module_name: String::from_str(module_name),
            source: String::from_str(source),
            diagnostics: Vec::new(),
        }
    }

    /// A parser for a text that comes from no file, which errors quote as
    /// `<none>`.
    pub fn from_string(module_name: &str, source: &str) -> (r: Parser)
        ensures
            r.file() == "<none>"@,
            r.name() == module_name@,
            r.text() == source@,
            r.found() == Seq::<ParseErrorView>::empty(),
    {
        Parser::from_source("<none>", module_name, source)
    }

    /// Nothing, where every declaration parsed; else the errors, in the
    /// order in which they were found.
    pub fn diagnostics(self) -> (r: Result<(), Diagnostics>)
        ensures
            match r {
                Ok(_) => self.found().len() == 0,
                Err(d) => d@ == self.found() && self.found().len() > 0,
            },
    {
        if self.diagnostics.len() == 0 {
            Ok(())
        } else {
            Err(Diagnostics { errors: self.diagnostics })
        }
    }

    /// Parses the whole source text. A declaration that does not parse
    /// leaves an error behind and does not stop the parse: the result is
    /// always a module, with the declarations that parsed.
    pub fn parse(&mut self) -> (r: Result<Module, ParseError>)
        ensures
            final(self).name() == old(self).name(),
            final(self).file() == old(self).file(),
            final(self).text() == old(self).text(),
            r matches Ok(module) && module@ == parsed_module(
                old(self).name(),
                old(self).file(),
                old(self).text(),
            ).0,
            final(self).found() == old(self).found() + parsed_module(
                old(self).name(),
                old(self).file(),
                old(self).text(),
            ).1,
    {
        let mut lexer = Lexer::from_source(self.source.as_str());
        let mut items: Vec<ModuleItem> = Vec::new();
        let mut errors: Vec<ParseError> = Vec::new();
        let ghost src = self.named_source_view();
        assert(items_view(items@) =~= Seq::<ModuleItemView>::empty());
        assert(errors_view(errors@) =~= Seq::<ParseErrorView>::empty());
        loop
            invariant_except_break
                parsed_items(lexer@, src, items_view(items@), errors_view(errors@)) == parsed_items(
                    Cursor::start(self.source@),
                    src,
                    Seq::empty(),
                    Seq::empty(),
                ),
            invariant
                src == self.named_source_view(),
                *self == *old(self),
            ensures
                (items_view(items@), errors_view(errors@)) == parsed_items(
                    Cursor::start(self.source@),
                    src,
                    Seq::empty(),
                    Seq::empty(),
                ),
            decreases lexer@.pending.len(),
        {
            let ghost before = lexer@;
            let next = lexer.peek();
            if next.is_none() {
                break ;
            }
            proof {
                lemma_declaration_advances(before.peeked(), src);
            }
            match self.parse_module_item(&mut lexer) {
                Ok(item) => {
                    push_item(&mut items, item);
                },
                Err(error) => {
                    push_error(&mut errors, error);
                },
            }
        }
        let ghost before = self.diagnostics@;
        let ghost added = errors@;
        self.diagnostics.append(&mut errors);
        assert(errors_view(self.diagnostics@) =~= errors_view(before) + errors_view(added));
        Ok(Module { name: Id(self.module_name.clone()), items })
    }

    /// The source text and the name under which errors quote it.
    spec fn named_source_view(&self) -> NamedSourceView {
        NamedSourceView { name: self.filename@, source: self.source@ }
    }

    fn named_source(&self) -> (r: NamedSource)
        ensures
            r@ == self.named_source_view(),
    {
        NamedSource { name: self.filename.clone(), source: self.source.clone() }
    }

    fn parse_module_item(&self, lexer: &mut Lexer) -> (r: Result<ModuleItem, ParseError>)
        ensures
            final(lexer)@ == parsed_declaration(old(lexer)@, self.named_source_view()).1,
            match parsed_declaration(old(lexer)@, self.named_source_view()).0 {
                Ok(d) => r matches Ok(item) && item@ == ModuleItemView::ValueDeclaration(d),
                Err(e) => r matches Err(error) && error@ == e,
            },
    {
        match self.parse_value_declaration(lexer) {
            Ok(vd) => Ok(ModuleItem::ValueDeclaration(vd)),
            Err(e) => Err(e),
        }
    }

    fn parse_value_declaration(&self, lexer: &mut Lexer) -> (r: Result<
        ValueDeclaration,
        ParseError,
    >)
        ensures
            (view_result(r), final(lexer)@) == parsed_declaration(
                old(lexer)@,
                self.named_source_view(),
            ),
    {
        let name = match self.parse_id(lexer) {
            Ok(name) => name,
            Err(e) => {
                return Err(e);
            },
        };
        match lexer.expect(Token::Equal) {
            Ok(_) => {},
            Err(e) => {
                return Err(e);
            },
        }
        match self.parse_expression(lexer) {
            Ok(value) => Ok(ValueDeclaration { name, value }),
            Err(_) => {
                let span = lexer.span();
                let src = self.named_source();
                Err(ParseError::MissingValueInValueDeclaration { span, src })
            },
        }
    }

    fn parse_id(&self, lexer: &mut Lexer) -> (r: Result<Id, ParseError>)
        ensures
            (view_result(r), final(lexer)@) == parsed_id(old(lexer)@),
    {
        match lexer.next() {
            Ok(Token::Id(id)) => Ok(Id(id)),
            Ok(token) => Err(
                ParseError::UnexpectedSymbolFound {
                    expected: Token::Id(String::from_str("some_id")),
                    found: token,
                },
            ),
            Err(e) => Err(e),
        }
    }

    fn parse_expression(&self, lexer: &mut Lexer) -> (r: Result<Expression, ParseError>)
        ensures
            (view_result(r), final(lexer)@) == parsed_expression(old(lexer)@),
        decreases old(lexer)@.pending.len(), 3nat,
    {
        match lexer.peek() {
            Some(Token::Id(_)) => self.parse_function_call(lexer),
            Some(Token::LiteralString(s)) => {
                let _ = lexer.next();
                Ok(Expression::LiteralString(s))
            },
            Some(Token::ParensLeft) => self.parse_function(lexer),
            Some(token) => Err(ParseError::ExpectedExpression { found: token }),
            None => Err(ParseError::EOF),
        }
    }

    fn parse_function(&self, lexer: &mut Lexer) -> (r: Result<Expression, ParseError>)
        ensures
            (view_result(r), final(lexer)@) == function_of(
                parsed_clauses(old(lexer)@, Seq::empty()),
            ),
        decreases old(lexer)@.pending.len(), 2nat,
    {
        let mut clauses: Vec<FunClause> = Vec::new();
        let mut failure: Option<ParseError> = None;
        let ghost start = lexer@;
        assert(clauses_view(clauses@) =~= Seq::<FunClauseView>::empty());
        loop
            invariant_except_break
                failure is None,
                lexer@.pending.len() <= start.pending.len(),
                parsed_clauses(lexer@, clauses_view(clauses@)) == parsed_clauses(
                    start,
                    Seq::empty(),
                ),
            invariant
                start == old(lexer)@,
            ensures
                parsed_clauses(start, Seq::empty()) == (
                    match failure {
                        Some(e) => Err(e@),
                        None => Ok(clauses_view(clauses@)),
                    },
                    lexer@,
                ),
            decreases lexer@.pending.len(),
        {
            let ghost before = lexer@;
            proof {
                lemma_clause_within(before);
            }
            match self.parse_function_clause(lexer) {
                Ok(clause) => {
                    push_clause(&mut clauses, clause);
                },
                Err(e) => {
                    failure = Some(e);
                    break ;
                },
            }
            if let Some(Token::Semicolon) = lexer.peek() {
                let _ = lexer.next();
                continue ;
            }
            break ;
        }
        match failure {
            Some(e) => Err(e),
            None => {
                proof {
                    lemma_view_function(clauses);
                }
                Ok(Expression::Function(clauses))
            },
        }
    }

    fn parse_function_clause(&self, lexer: &mut Lexer) -> (r: Result<FunClause, ParseError>)
        ensures
            (view_result(r), final(lexer)@) == parsed_clause(old(lexer)@),
        decreases old(lexer)@.pending.len(), 1nat,
    {
        proof {
            lemma_parameters_within(lexer@);
        }
        let args = match self.parse_function_args(lexer) {
            Ok(args) => args,
            Err(e) => {
                return Err(e);
            },
        };
        match lexer.expect(Token::BraceLeft) {
            Ok(_) => {},
            Err(e) => {
                return Err(e);
            },
        }
        let body = match self.parse_expression(lexer) {
            Ok(body) => body,
            Err(e) => {
                return Err(e);
            },
        };
        match lexer.expect(Token::BraceRight) {
            Ok(_) => {},
            Err(e) => {
                return Err(e);
            },
        }
        Ok(FunClause { args, body })
    }

    /// A call, or a variable where no `(` follows the identifier. The next
    /// token is an identifier.
    fn parse_function_call(&self, lexer: &mut Lexer) -> (r: Result<Expression, ParseError>)
        requires
            old(lexer)@.first() matches Some(TokenView::Id(_)),
        ensures
            (view_result(r), final(lexer)@) == parsed_expression(old(lexer)@),
        decreases old(lexer)@.pending.len(), 2nat,
    {
        let id = match self.parse_id(lexer) {
            Ok(id) => id,
            Err(e) => {
                return Err(e);
            },
        };
        if let Some(Token::ParensLeft) = lexer.peek() {
            let _ = lexer.next();
            let args = match self.parse_call_args(lexer) {
                Ok(args) => args,
                Err(e) => {
                    return Err(e);
                },
            };
            match lexer.expect(Token::ParensRight) {
                Ok(_) => {},
                Err(e) => {
                    return Err(e);
                },
            }
            proof {
                lemma_view_call(id, args);
            }
            Ok(Expression::Call { id, args })
        } else {
            Ok(Expression::Variable(id))
        }
    }

    /// The arguments of a call, up to the `)` that closes them.
    fn parse_call_args(&self, lexer: &mut Lexer) -> (r: Result<Vec<Expression>, ParseError>)
        ensures
            (view_expressions(r), final(lexer)@) == parsed_arguments(old(lexer)@, Seq::empty()),
        decreases old(lexer)@.pending.len(), 4nat,
    {
        let mut args: Vec<Expression> = Vec::new();
        let mut failure: Option<ParseError> = None;
        let ghost start = lexer@;
        assert(expressions_view(args@) =~= Seq::<ExpressionView>::empty());
        loop
            invariant_except_break
                failure is None,
                lexer@.pending.len() <= start.pending.len(),
                parsed_arguments(lexer@, expressions_view(args@)) == parsed_arguments(
                    start,
                    Seq::empty(),
                ),
            invariant
                start == old(lexer)@,
            ensures
                parsed_arguments(start, Seq::empty()) == (
                    match failure {
                        Some(e) => Err(e@),
                        None => Ok(expressions_view(args@)),
                    },
                    lexer@,
                ),
            decreases lexer@.pending.len(),
        {
            let ghost before = lexer@;
            if let Some(Token::ParensRight) = lexer.peek() {
                break ;
            }
            proof {
                lemma_expression_within(before.peeked());
                lemma_parsed_expression_peeked(before);
            }
            match self.parse_expression(lexer) {
                Ok(arg) => {
                    push_expression(&mut args, arg);
                },
                Err(e) => {
                    failure = Some(e);
                    break ;
                },
            }
            if let Some(Token::Comma) = lexer.peek() {
                let _ = lexer.next();
                continue ;
            }
            break ;
        }
        match failure {
            Some(e) => Err(e),
            None => Ok(args),
        }
    }

    /// The parameter list of a clause, parentheses included.
    fn parse_function_args(&self, lexer: &mut Lexer) -> (r: Result<Vec<Pattern>, ParseError>)
        ensures
            (view_patterns(r), final(lexer)@) == parsed_parameters(old(lexer)@),
    {
        match lexer.expect(Token::ParensLeft) {
            Ok(_) => {},
            Err(e) => {
                return Err(e);
            },
        }
        let mut patterns: Vec<Pattern> = Vec::new();
        let mut failure: Option<ParseError> = None;
        let ghost start = lexer@;
        assert(patterns_view(patterns@) =~= Seq::<PatternView>::empty());
        loop
            invariant_except_break
                failure is None,
                parsed_patterns(lexer@, patterns_view(patterns@)) == parsed_patterns(
                    start,
                    Seq::empty(),
                ),
            ensures
                parsed_patterns(start, Seq::empty()) == (
                    match failure {
                        Some(e) => Err(e@),
                        None => Ok(patterns_view(patterns@)),
                    },
                    lexer@,
                ),
            decreases lexer@.pending.len(),
        {
            if let Some(Token::ParensRight) = lexer.peek() {
                break ;
            }
            match self.parse_pattern(lexer) {
                Ok(pattern) => {
                    push_pattern(&mut patterns, pattern);
                },
                Err(e) => {
                    failure = Some(e);
                    break ;
                },
            }
            if let Some(Token::Comma) = lexer.peek() {
                let _ = lexer.next();
                continue ;
            }
            break ;
        }
        match failure {
            Some(e) => {
                return Err(e);
            },
            None => {},
        }
        match lexer.expect(Token::ParensRight) {
            Ok(_) => Ok(patterns),
            Err(e) => Err(e),
        }
    }

    fn parse_pattern(&self, lexer: &mut Lexer) -> (r: Result<Pattern, ParseError>)
        ensures
            (view_result(r), final(lexer)@) == parsed_pattern(old(lexer)@),
    {
        match lexer.peek() {
            Some(Token::Id(_)) => {
                match self.parse_id(lexer) {
                    Ok(id) => Ok(Pattern::Bind(id)),
                    Err(e) => Err(e),
                }
            },
            Some(token) => Err(ParseError::ExpectedPattern { found: token }),
            None => Err(ParseError::EOF),
        }
    }
}

/// A look at the next token changes nothing of what an expression parses
/// to.
pub proof fn lemma_parsed_expression_peeked(c: Cursor)
    ensures
        parsed_expression(c.peeked()) == parsed_expression(c),
{
    assert(c.peeked().peeked() == c.peeked());
    assert(c.peeked().advanced() == c.advanced());
}

} // verus!
