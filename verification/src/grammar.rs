//! The grammar, stated over token streams.
//!
//! ```text
//! Module      := Declaration*
//! Declaration := Id '=' Expression
//! Expression  := String | Id | Id '(' Arguments ')' | Function
//! Arguments   := ( Expression ( ',' Expression )* ','? )?
//! Function    := Clause ( ';' Clause )*
//! Clause      := '(' ( Pattern ( ',' Pattern )* ','? )? ')' '{' Expression '}'
//! Pattern     := Id
//! ```
//!
//! Each function below takes the stream as it stands and gives what the
//! parser makes of it together with the stream as it is left. A failed
//! declaration leaves the stream behind the last token that it read, and
//! the next declaration starts there.

use crate::error::{NamedSourceView, ParseErrorView};
use crate::lexer::Cursor;
use crate::lexical::{
    all_in_class, in_class, is_string_body, lemma_run_end_is, lemma_string_close_shift, lexeme_at,
    span_between, tokens, CharClass, Lexeme,
};
use crate::parsetree::{
    ExpressionView, FunClauseView, ModuleItemView, ModuleView, PatternView, ValueDeclarationView,
};
use crate::token::TokenView;
use vstd::prelude::*;

verus! {

/// The identifier token that an error names where any identifier would
/// have done.
pub open spec fn any_id() -> TokenView {
    TokenView::Id("some_id"@)
}

/// An identifier: the next token, which is taken whatever it is.
pub open spec fn parsed_id(c: Cursor) -> (Result<Seq<char>, ParseErrorView>, Cursor) {
    (
        match c.first() {
            Some(TokenView::Id(name)) => Ok(name),
            Some(found) => Err(
                ParseErrorView::UnexpectedSymbolFound { expected: any_id(), found },
            ),
            None => Err(ParseErrorView::EOF),
        },
        c.advanced(),
    )
}

/// A pattern: an identifier. Another token is looked at and left.
pub open spec fn parsed_pattern(c: Cursor) -> (Result<PatternView, ParseErrorView>, Cursor) {
    match c.first() {
        Some(TokenView::Id(name)) => (Ok(PatternView::Bind(name)), c.advanced()),
        Some(found) => (Err(ParseErrorView::ExpectedPattern { found }), c.peeked()),
        None => (Err(ParseErrorView::EOF), c.peeked()),
    }
}

/// The patterns between the parentheses of a clause, after those in `acc`:
/// none where a `)` stands, else patterns with a comma after each but the
/// last, after which a comma may stand.
pub open spec fn parsed_patterns(c: Cursor, acc: Seq<PatternView>) -> (
    Result<Seq<PatternView>, ParseErrorView>,
    Cursor,
)
    decreases c.pending.len(),
{
    if c.first() == Some(TokenView::ParensRight) {
        (Ok(acc), c.peeked())
    } else {
        match parsed_pattern(c) {
            (Err(e), c1) => (Err(e), c1),
            (Ok(p), c1) => if c1.first() == Some(TokenView::Comma) {
                parsed_patterns(c1.advanced(), acc.push(p))
            } else {
                (Ok(acc.push(p)), c1.peeked())
            },
        }
    }
}

/// The parameter list of a clause, parentheses included.
pub open spec fn parsed_parameters(c: Cursor) -> (
    Result<Seq<PatternView>, ParseErrorView>,
    Cursor,
) {
    match c.expected(TokenView::ParensLeft) {
        Err(e) => (Err(e), c.advanced()),
        Ok(_) => match parsed_patterns(c.advanced(), Seq::empty()) {
            (Err(e), c1) => (Err(e), c1),
            (Ok(ps), c1) => match c1.expected(TokenView::ParensRight) {
                Err(e) => (Err(e), c1.advanced()),
                Ok(_) => (Ok(ps), c1.advanced()),
            },
        },
    }
}

/// An expression: a string literal; an identifier, which is a call where a
/// `(` follows it and a variable where none does; or a function, which
/// starts with `(`.
pub open spec fn parsed_expression(c: Cursor) -> (Result<ExpressionView, ParseErrorView>, Cursor)
    decreases c.pending.len(), 3nat,
{
    match c.first() {
        Some(TokenView::Id(id)) => {
            let c1 = c.advanced();
            if c1.first() == Some(TokenView::ParensLeft) {
                match parsed_arguments(c1.advanced(), Seq::empty()) {
                    (Err(e), c2) => (Err(e), c2),
                    (Ok(args), c2) => match c2.expected(TokenView::ParensRight) {
                        Err(e) => (Err(e), c2.advanced()),
                        Ok(_) => (Ok(ExpressionView::Call { id, args }), c2.advanced()),
                    },
                }
            } else {
                (Ok(ExpressionView::Variable(id)), c1.peeked())
            }
        },
        Some(TokenView::LiteralString(s)) => (Ok(ExpressionView::LiteralString(s)), c.advanced()),
        Some(TokenView::ParensLeft) => match parsed_clauses(c.peeked(), Seq::empty()) {
            (Err(e), c1) => (Err(e), c1),
            (Ok(clauses), c1) => (Ok(ExpressionView::Function(clauses)), c1),
        },
        Some(found) => (Err(ParseErrorView::ExpectedExpression { found }), c.peeked()),
        None => (Err(ParseErrorView::EOF), c.peeked()),
    }
}

/// The arguments of a call, after those in `acc`: none where a `)` stands,
/// else expressions with a comma after each but the last, after which a
/// comma may stand.
///
/// No expression gives tokens back to the stream
/// (`lemma_expression_within`), so the test on the two lengths never fails;
/// it is what shows that this definition ends.
pub open spec fn parsed_arguments(c: Cursor, acc: Seq<ExpressionView>) -> (
    Result<Seq<ExpressionView>, ParseErrorView>,
    Cursor,
)
    decreases c.pending.len(), 4nat,
{
    if c.first() == Some(TokenView::ParensRight) {
        (Ok(acc), c.peeked())
    } else {
        match parsed_expression(c) {
            (Err(e), c1) => (Err(e), c1),
            (Ok(x), c1) => if c1.first() == Some(TokenView::Comma) && c1.pending.len()
                <= c.pending.len() {
                parsed_arguments(c1.advanced(), acc.push(x))
            } else {
                (Ok(acc.push(x)), c1.peeked())
            },
        }
    }
}

/// The clauses of a function, after those in `acc`: clauses with a `;`
/// between them, in source order.
///
/// No clause gives tokens back to the stream (`lemma_clause_within`), so
/// the test on the two lengths never fails, as in `parsed_arguments`.
pub open spec fn parsed_clauses(c: Cursor, acc: Seq<FunClauseView>) -> (
    Result<Seq<FunClauseView>, ParseErrorView>,
    Cursor,
)
    decreases c.pending.len(), 2nat,
{
    match parsed_clause(c) {
        (Err(e), c1) => (Err(e), c1),
        (Ok(clause), c1) => if c1.first() == Some(TokenView::Semicolon) && c1.pending.len()
            <= c.pending.len() {
            parsed_clauses(c1.advanced(), acc.push(clause))
        } else {
            (Ok(acc.push(clause)), c1.peeked())
        },
    }
}

/// One clause: its parameter list, and its body between braces.
pub open spec fn parsed_clause(c: Cursor) -> (Result<FunClauseView, ParseErrorView>, Cursor)
    decreases c.pending.len(), 1nat,
{
    match parsed_parameters(c) {
        (Err(e), c1) => (Err(e), c1),
        (Ok(args), c1) => match c1.expected(TokenView::BraceLeft) {
            Err(e) => (Err(e), c1.advanced()),
            Ok(_) => {
                proof {
                    lemma_parameters_within(c);
                }
                match parsed_expression(c1.advanced()) {
                    (Err(e), c2) => (Err(e), c2),
                    (Ok(body), c2) => match c2.expected(TokenView::BraceRight) {
                        Err(e) => (Err(e), c2.advanced()),
                        Ok(_) => (Ok(FunClauseView { args, body }), c2.advanced()),
                    },
                }
            },
        },
    }
}

/// A declaration: a name, `=`, and an expression. Where the expression
/// fails, whatever the reason, the error is that the declaration has no
/// value, and it points at where the stream stood then.
pub open spec fn parsed_declaration(c: Cursor, src: NamedSourceView) -> (
    Result<ValueDeclarationView, ParseErrorView>,
    Cursor,
) {
    match parsed_id(c) {
        (Err(e), c1) => (Err(e), c1),
        (Ok(name), c1) => match c1.expected(TokenView::Equal) {
            Err(e) => (Err(e), c1.advanced()),
            Ok(_) => match parsed_expression(c1.advanced()) {
                (Err(_), c2) => (
                    Err(ParseErrorView::MissingValueInValueDeclaration { span: c2.span, src }),
                    c2,
                ),
                (Ok(value), c2) => (Ok(ValueDeclarationView { name, value }), c2),
            },
        },
    }
}

/// The declarations of the rest of the stream, after the items in `items`
/// and the errors in `errors`: each declaration that parses is an item,
/// each one that does not is an error, both in source order.
pub open spec fn parsed_items(
    c: Cursor,
    src: NamedSourceView,
    items: Seq<ModuleItemView>,
    errors: Seq<ParseErrorView>,
) -> (Seq<ModuleItemView>, Seq<ParseErrorView>)
    decreases c.pending.len(),
{
    if c.first() is None {
        (items, errors)
    } else {
        proof {
            lemma_declaration_advances(c.peeked(), src);
        }
        match parsed_declaration(c.peeked(), src) {
            (Ok(d), c1) => parsed_items(
                c1,
                src,
                items.push(ModuleItemView::ValueDeclaration(d)),
                errors,
            ),
            (Err(e), c1) => parsed_items(c1, src, items, errors.push(e)),
        }
    }
}

/// What parsing the text `source` gives: the module called `name` with the
/// declarations that parsed, and the errors of those that did not. `file`
/// is the name under which errors quote the text.
pub open spec fn parsed_module(name: Seq<char>, file: Seq<char>, source: Seq<char>) -> (
    ModuleView,
    Seq<ParseErrorView>,
) {
    let (items, errors) = parsed_items(
        Cursor::start(source),
        NamedSourceView { name: file, source },
        Seq::empty(),
        Seq::empty(),
    );
    (ModuleView { name, items }, errors)
}

/// A list of patterns gives no token back to the stream.
pub proof fn lemma_patterns_within(c: Cursor, acc: Seq<PatternView>)
    ensures
        parsed_patterns(c, acc).1.pending.len() <= c.pending.len(),
        parsed_patterns(c, acc).1.end == c.end,
    decreases c.pending.len(),
{
    if c.first() != Some(TokenView::ParensRight) {
        match parsed_pattern(c) {
            (Err(e), c1) => {},
            (Ok(p), c1) => {
                if c1.first() == Some(TokenView::Comma) {
                    lemma_patterns_within(c1.advanced(), acc.push(p));
                }
            },
        }
    }
}

/// A parameter list gives no token back to the stream.
pub proof fn lemma_parameters_within(c: Cursor)
    ensures
        parsed_parameters(c).1.pending.len() <= c.pending.len(),
        parsed_parameters(c).1.end == c.end,
{
    lemma_patterns_within(c.advanced(), Seq::empty());
}

/// A clause gives no token back to the stream.
pub proof fn lemma_clause_within(c: Cursor)
    ensures
        parsed_clause(c).1.pending.len() <= c.pending.len(),
        parsed_clause(c).1.end == c.end,
    decreases c.pending.len(), 1nat,
{
    lemma_parameters_within(c);
    let c1 = parsed_parameters(c).1;
    if parsed_parameters(c).0 is Ok && c1.expected(TokenView::BraceLeft) is Ok {
        lemma_expression_within(c1.advanced());
    }
}

/// A list of clauses gives no token back to the stream.
pub proof fn lemma_clauses_within(c: Cursor, acc: Seq<FunClauseView>)
    ensures
        parsed_clauses(c, acc).1.pending.len() <= c.pending.len(),
        parsed_clauses(c, acc).1.end == c.end,
    decreases c.pending.len(), 2nat,
{
    lemma_clause_within(c);
    match parsed_clause(c) {
        (Err(e), c1) => {},
        (Ok(clause), c1) => {
            if c1.first() == Some(TokenView::Semicolon) {
                lemma_clauses_within(c1.advanced(), acc.push(clause));
            }
        },
    }
}

/// An expression gives no token back to the stream.
pub proof fn lemma_expression_within(c: Cursor)
    ensures
        parsed_expression(c).1.pending.len() <= c.pending.len(),
        parsed_expression(c).1.end == c.end,
    decreases c.pending.len(), 3nat,
{
    match c.first() {
        Some(TokenView::Id(id)) => {
            let c1 = c.advanced();
            if c1.first() == Some(TokenView::ParensLeft) {
                lemma_arguments_within(c1.advanced(), Seq::empty());
            }
        },
        Some(TokenView::ParensLeft) => {
            lemma_clauses_within(c.peeked(), Seq::empty());
        },
        _ => {},
    }
}

/// A list of arguments gives no token back to the stream.
pub proof fn lemma_arguments_within(c: Cursor, acc: Seq<ExpressionView>)
    ensures
        parsed_arguments(c, acc).1.pending.len() <= c.pending.len(),
        parsed_arguments(c, acc).1.end == c.end,
    decreases c.pending.len(), 4nat,
{
    if c.first() != Some(TokenView::ParensRight) {
        lemma_expression_within(c);
        match parsed_expression(c) {
            (Err(e), c1) => {},
            (Ok(x), c1) => {
                if c1.first() == Some(TokenView::Comma) {
                    lemma_arguments_within(c1.advanced(), acc.push(x));
                }
            },
        }
    }
}

/// A declaration takes at least one token from a stream that has one.
pub proof fn lemma_declaration_advances(c: Cursor, src: NamedSourceView)
    requires
        c.pending.len() > 0,
    ensures
        parsed_declaration(c, src).1.pending.len() < c.pending.len(),
        parsed_declaration(c, src).1.end == c.end,
{
    let c1 = c.advanced();
    lemma_expression_within(c1.advanced());
}

/// Whether a declaration parses, what it parses to, and where it leaves
/// the stream do not depend on the name under which errors quote the
/// text.
pub proof fn lemma_declaration_whatever_the_file(
    c: Cursor,
    src1: NamedSourceView,
    src2: NamedSourceView,
)
    ensures
        parsed_declaration(c, src1).1 == parsed_declaration(c, src2).1,
        parsed_declaration(c, src1).0 is Ok <==> parsed_declaration(c, src2).0 is Ok,
        parsed_declaration(c, src1).0 is Ok ==> parsed_declaration(c, src1).0 == parsed_declaration(
            c,
            src2,
        ).0,
{
}

/// The items of a module do not depend on the name under which errors
/// quote the text, nor on the errors found before.
pub proof fn lemma_items_whatever_the_file(
    c: Cursor,
    src1: NamedSourceView,
    src2: NamedSourceView,
    items: Seq<ModuleItemView>,
    errors1: Seq<ParseErrorView>,
    errors2: Seq<ParseErrorView>,
)
    ensures
        parsed_items(c, src1, items, errors1).0 == parsed_items(c, src2, items, errors2).0,
    decreases c.pending.len(),
{
    if c.first() is Some {
        lemma_declaration_advances(c.peeked(), src1);
        lemma_declaration_whatever_the_file(c.peeked(), src1, src2);
        match parsed_declaration(c.peeked(), src1) {
            (Ok(d), c1) => {
                lemma_items_whatever_the_file(
                    c1,
                    src1,
                    src2,
                    items.push(ModuleItemView::ValueDeclaration(d)),
                    errors1,
                    errors2,
                );
            },
            (Err(e), c1) => {
                let e2 = parsed_declaration(c.peeked(), src2).0->Err_0;
                lemma_items_whatever_the_file(
                    c1,
                    src1,
                    src2,
                    items,
                    errors1.push(e),
                    errors2.push(e2),
                );
            },
        }
    }
}

/// Parsing is a function of the text: parsing one text twice, under
/// whatever file names, gives the same module both times, and under one
/// file name the same errors.
pub proof fn lemma_parse_is_deterministic(
    name: Seq<char>,
    file1: Seq<char>,
    file2: Seq<char>,
    source: Seq<char>,
)
    ensures
        parsed_module(name, file1, source).0 == parsed_module(name, file2, source).0,
        file1 == file2 ==> parsed_module(name, file1, source) == parsed_module(
            name,
            file2,
            source,
        ),
{
    lemma_items_whatever_the_file(
        Cursor::start(source),
        NamedSourceView { name: file1, source },
        NamedSourceView { name: file2, source },
        Seq::empty(),
        Seq::empty(),
        Seq::empty(),
    );
}

/// The text of one declaration of a string: the name, `=`, and the value
/// between quotes, with the white space `w0` to `w3` before, between and
/// after them.
pub open spec fn string_declaration(
    name: Seq<char>,
    value: Seq<char>,
    w0: Seq<char>,
    w1: Seq<char>,
    w2: Seq<char>,
    w3: Seq<char>,
) -> Seq<char> {
    w0 + name + w1 + seq!['='] + w2 + seq!['"'] + value + seq!['"'] + w3
}

/// A text that holds one declaration of a string and nothing else parses
/// to a module of exactly that declaration, with no error: for every name
/// of letters and underscores, every value that can stand between quotes,
/// and whatever white space around them.
pub proof fn lemma_string_declaration(
    module: Seq<char>,
    file: Seq<char>,
    name: Seq<char>,
    value: Seq<char>,
    w0: Seq<char>,
    w1: Seq<char>,
    w2: Seq<char>,
    w3: Seq<char>,
)
    requires
        name.len() > 0,
        all_in_class(name, CharClass::Name),
        is_string_body(value),
        all_in_class(w0, CharClass::Whitespace),
        all_in_class(w1, CharClass::Whitespace),
        all_in_class(w2, CharClass::Whitespace),
        all_in_class(w3, CharClass::Whitespace),
    ensures
        parsed_module(module, file, string_declaration(name, value, w0, w1, w2, w3)) == (
            ModuleView {
                name: module,
                items: seq![
                    ModuleItemView::ValueDeclaration(
                        ValueDeclarationView { name, value: ExpressionView::LiteralString(value) },
                    ),
                ],
            },
            Seq::<ParseErrorView>::empty(),
        ),
{
    let s = string_declaration(name, value, w0, w1, w2, w3);
    let a = w0.len() as int;
    let b = a + name.len();
    let c = b + w1.len();
    let d = c + 1 + w2.len();
    let e = d + 1 + value.len();
    let f = e + 1;
    let n = f + w3.len();
    assert(s.len() == n);
    assert forall|x: int| 0 <= x < a implies s[x] == w0[x] by {}
    assert forall|x: int| a <= x < b implies s[x] == name[x - a] by {}
    assert forall|x: int| b <= x < c implies s[x] == w1[x - b] by {}
    assert(s[c] == '=');
    assert forall|x: int| c < x < d implies s[x] == w2[x - c - 1] by {}
    assert(s[d] == '"');
    assert forall|x: int| d < x < e implies s[x] == value[x - d - 1] by {}
    assert(s[e] == '"');
    assert forall|x: int| f <= x < n implies s[x] == w3[x - f] by {}

    // the name
    assert(in_class(name[0], CharClass::Name));
    lemma_run_end_is(s, 0, a, CharClass::Whitespace);
    lemma_run_end_is(s, a, b, CharClass::Name);
    assert(s.subrange(a, b) =~= name);
    assert(lexeme_at(s, a) == (TokenView::Id(name), b));
    // the equals sign
    lemma_run_end_is(s, b, c, CharClass::Whitespace);
    assert(lexeme_at(s, c) == (TokenView::Equal, c + 1));
    // the value
    lemma_run_end_is(s, c + 1, d, CharClass::Whitespace);
    let t = value.push('"');
    assert forall|x: int| 0 <= x < t.len() implies s[d + 1 + x] == #[trigger] t[x] by {}
    lemma_string_close_shift(s, t, d + 1, 0);
    assert(s.subrange(d + 1, e) =~= value);
    assert(lexeme_at(s, d) == (TokenView::LiteralString(value), f));
    // the end
    lemma_run_end_is(s, f, n, CharClass::Whitespace);
    assert(tokens(s, f) =~= Seq::<Lexeme>::empty());

    let l1 = Lexeme { token: TokenView::Id(name), span: span_between(s, a, b) };
    let l2 = Lexeme { token: TokenView::Equal, span: span_between(s, c, c + 1) };
    let l3 = Lexeme { token: TokenView::LiteralString(value), span: span_between(s, d, f) };
    assert(tokens(s, c + 1) =~= seq![l3]);
    assert(tokens(s, b) =~= seq![l2, l3]);
    assert(tokens(s, 0) =~= seq![l1, l2, l3]);

    let src = NamedSourceView { name: file, source: s };
    let c0 = Cursor::start(s);
    let c1 = c0.peeked().advanced();
    let c2 = c1.advanced();
    let c3 = c2.advanced();
    assert(c0.first() == Some(TokenView::Id(name)));
    assert(c1.pending =~= seq![l2, l3]);
    assert(c2.pending =~= seq![l3]);
    assert(c3.pending =~= Seq::<Lexeme>::empty());
    let value_view = ExpressionView::LiteralString(value);
    assert(parsed_expression(c2) == (Ok::<_, ParseErrorView>(value_view), c3));
    let declaration = ValueDeclarationView { name, value: value_view };
    assert(parsed_declaration(c0.peeked(), src) == (
        Ok::<_, ParseErrorView>(declaration),
        c3,
    ));
    let items = Seq::<ModuleItemView>::empty().push(ModuleItemView::ValueDeclaration(declaration));
    assert(parsed_items(c3, src, items, Seq::empty()) == (items, Seq::<ParseErrorView>::empty()));
    assert(parsed_items(c0, src, Seq::empty(), Seq::empty()) == (
        items,
        Seq::<ParseErrorView>::empty(),
    ));
    assert(items =~= seq![ModuleItemView::ValueDeclaration(declaration)]);
}

} // verus!
