use qlang::error::ParseError;
use qlang::parser::Parser;
use qlang::parsetree::{
    Expression, FunClause, Id, Module, ModuleItem, Pattern, ValueDeclaration,
};
use qlang::span::Span;
use qlang::token::Token;

fn diagnostics_of(parser: Parser) -> Vec<ParseError> {
    match parser.diagnostics() {
        Ok(()) => vec![],
        Err(diagnostics) => diagnostics.errors,
    }
}

fn parse(source: &str) -> (Module, Vec<ParseError>) {
    let mut parser = Parser::from_string("test_module", source);
    let module = parser.parse().unwrap();
    (module, diagnostics_of(parser))
}

fn declaration(name: &str, value: Expression) -> ModuleItem {
    ModuleItem::ValueDeclaration(ValueDeclaration { name: Id(name.to_string()), value })
}

fn string(value: &str) -> Expression {
    Expression::LiteralString(value.to_string())
}

fn variable(name: &str) -> Expression {
    Expression::Variable(Id(name.to_string()))
}

fn call(name: &str, args: Vec<Expression>) -> Expression {
    Expression::Call { id: Id(name.to_string()), args }
}

fn some_id() -> Token {
    Token::Id("some_id".to_string())
}

#[test]
fn parse_empty_module() {
    let mut parser = Parser::from_string("test_module", "");
    let module = parser.parse().unwrap();

    assert_eq!(module.name, Id("test_module".to_string()));
    assert_eq!(module.items.len(), 0);
    assert_eq!(module.items, vec![]);
    assert_eq!(diagnostics_of(parser).len(), 0);
}

#[test]
fn parse_declaration_missing_equals() {
    let mut parser = Parser::from_string(
        "test_module",
        r#"
                Name ? "Q-Lang"
            "#,
    );
    let _ = parser.parse().unwrap();

    let diagnostics = diagnostics_of(parser);
    assert_eq!(diagnostics.len(), 2);
    assert_eq!(
        diagnostics,
        vec![
            ParseError::UnexpectedSymbolFound {
                expected: Token::Equal,
                found: Token::QuestionMark
            },
            ParseError::UnexpectedSymbolFound {
                expected: Token::Id("some_id".to_string()),
                found: Token::LiteralString("Q-Lang".to_string())
            }
        ]
    );
}

#[test]
fn parse_module_with_declarations() {
    let mut parser = Parser::from_string(
        "test_module",
        r#"
                Name = "Q-Lang"
            "#,
    );
    let module = parser.parse().unwrap();

    assert_eq!(module.name, Id("test_module".to_string()));
    assert_eq!(module.items.len(), 1);
    assert_eq!(
        module.items,
        vec![ModuleItem::ValueDeclaration(ValueDeclaration {
            name: Id("Name".to_string()),
            value: Expression::LiteralString("Q-Lang".to_string())
        })]
    );
    let diagnostics = diagnostics_of(parser);
    assert_eq!(diagnostics.len(), 0);
    assert_eq!(diagnostics, vec![]);
}

#[test]
fn parse_module_with_a_function_definition() {
    let mut parser = Parser::from_string(
        "test_module",
        r#"
                Print = () { "Hello" }
            "#,
    );
    let module = parser.parse().unwrap();

    assert_eq!(module.name, Id("test_module".to_string()));
    assert_eq!(module.items.len(), 1);
    assert_eq!(
        module.items,
        vec![ModuleItem::ValueDeclaration(ValueDeclaration {
            name: Id("Print".to_string()),
            value: Expression::Function(vec![FunClause {
                args: vec![],
                body: Expression::LiteralString("Hello".to_string())
            }])
        })]
    );
    let diagnostics = diagnostics_of(parser);
    assert_eq!(diagnostics, vec![]);
    assert_eq!(diagnostics.len(), 0);
}

#[test]
fn parse_module_with_a_function_definition_with_multiple_clauses() {
    let mut parser = Parser::from_string(
        "test_module",
        r#"
                Print =
                  () { "Joe" };
                  (A) { "Robert" };
                  (A, B) { "Mike" };
                  (A, B, ) { "Bogdan" }
            "#,
    );
    let module = parser.parse().unwrap();

    assert_eq!(module.name, Id("test_module".to_string()));
    assert_eq!(module.items.len(), 1);
    assert_eq!(
        module.items,
        vec![ModuleItem::ValueDeclaration(ValueDeclaration {
            name: Id("Print".to_string()),
            value: Expression::Function(vec![
                FunClause {
                    args: vec![],
                    body: Expression::LiteralString("Joe".to_string())
                },
                FunClause {
                    args: vec![Pattern::Bind(Id("A".to_string()))],
                    body: Expression::LiteralString("Robert".to_string())
                },
                FunClause {
                    args: vec![
                        Pattern::Bind(Id("A".to_string())),
                        Pattern::Bind(Id("B".to_string())),
                    ],
                    body: Expression::LiteralString("Mike".to_string())
                },
                FunClause {
                    args: vec![
                        Pattern::Bind(Id("A".to_string())),
                        Pattern::Bind(Id("B".to_string())),
                    ],
                    body: Expression::LiteralString("Bogdan".to_string())
                }
            ])
        })]
    );
    let diagnostics = diagnostics_of(parser);
    assert_eq!(diagnostics, vec![]);
    assert_eq!(diagnostics.len(), 0);
}

#[test]
fn parse_module_with_a_function_call() {
    let mut parser = Parser::from_string(
        "test_module",
        r#"
                Print = (Arg) { Print() }
            "#,
    );
    let module = parser.parse().unwrap();

    assert_eq!(module.name, Id("test_module".to_string()));
    assert_eq!(module.items.len(), 1);
    assert_eq!(
        module.items,
        vec![ModuleItem::ValueDeclaration(ValueDeclaration {
            name: Id("Print".to_string()),
            value: Expression::Function(vec![FunClause {
                args: vec![Pattern::Bind(Id("Arg".to_string()))],
                body: Expression::Call {
                    id: Id("Print".to_string()),
                    args: vec![]
                }
            }])
        })]
    );
    let diagnostics = diagnostics_of(parser);
    assert_eq!(diagnostics, vec![]);
    assert_eq!(diagnostics.len(), 0);
}

// A call takes its arguments between the parentheses, with commas between
// them, and an identifier that no parenthesis follows is a variable.
#[test]
fn call_arguments_are_expressions_with_commas_between() {
    let (module, diagnostics) = parse(r#"x = f("a", g(), H, (A) { A }, )"#);
    assert_eq!(diagnostics, vec![]);
    assert_eq!(
        module.items,
        vec![declaration(
            "x",
            call(
                "f",
                vec![
                    string("a"),
                    call("g", vec![]),
                    variable("H"),
                    Expression::Function(vec![FunClause {
                        args: vec![Pattern::Bind(Id("A".to_string()))],
                        body: variable("A"),
                    }]),
                ]
            )
        )]
    );
}

#[test]
fn an_identifier_alone_is_a_variable() {
    let (module, diagnostics) = parse("a = b c = d");
    assert_eq!(diagnostics, vec![]);
    assert_eq!(
        module.items,
        vec![declaration("a", variable("b")), declaration("c", variable("d"))]
    );
}

#[test]
fn any_text_of_one_string_declaration_parses_to_it() {
    for (name, value) in [("Name", "Q-Lang"), ("_", ""), ("a_b", "x y = \\\" z"), ("Z", "é\n")] {
        let source = format!("{} = \"{}\"", name, value);
        let (module, diagnostics) = parse(&source);
        assert_eq!(diagnostics, vec![]);
        assert_eq!(module.items, vec![declaration(name, string(value))]);
    }
}

#[test]
fn parsing_twice_gives_the_same_module() {
    let source = r#"
        foo = (A) { A }; (A, B) { B }
        main = (Arg) { foo(Arg, "x") }
        Name = "Q"
    "#;
    let (first, _) = parse(source);
    let (second, _) = parse(source);
    assert_eq!(first.name, second.name);
    assert_eq!(first.items, second.items);
    assert_eq!(first.items.len(), 3);

    let mut parser = Parser::from_string("test_module", source);
    let once = parser.parse().unwrap();
    let again = parser.parse().unwrap();
    assert_eq!(once.items, again.items);
}

#[test]
fn diagnostics_add_up_over_parses() {
    let mut parser = Parser::from_string("test_module", "a ? b");
    let _ = parser.parse().unwrap();
    let _ = parser.parse().unwrap();
    assert_eq!(diagnostics_of(parser).len(), 4);
}

#[test]
fn a_declaration_without_a_value_points_at_the_failure() {
    let mut parser = Parser::from_source("file.q", "test_module", "Name = ] other = \"x\"");
    let module = parser.parse().unwrap();
    let diagnostics = diagnostics_of(parser);
    assert_eq!(diagnostics.len(), 2);
    match &diagnostics[0] {
        ParseError::MissingValueInValueDeclaration { span, src } => {
            assert_eq!(*span, Span::new(7, 1));
            assert_eq!(src.name, "file.q");
            assert_eq!(src.source, "Name = ] other = \"x\"");
        }
        other => panic!("unexpected: {:?}", other),
    }
    assert_eq!(
        diagnostics[1],
        ParseError::UnexpectedSymbolFound { expected: some_id(), found: Token::BracketRight }
    );
    assert_eq!(module.items, vec![declaration("other", string("x"))]);
}

#[test]
fn a_declaration_cut_short_points_at_the_end() {
    let (module, diagnostics) = parse("Name = ");
    assert_eq!(module.items, vec![]);
    assert_eq!(diagnostics.len(), 1);
    match &diagnostics[0] {
        ParseError::MissingValueInValueDeclaration { span, src } => {
            assert_eq!(*span, Span::new(7, 0));
            assert_eq!(src.name, "<none>");
        }
        other => panic!("unexpected: {:?}", other),
    }
}

#[test]
fn missing_value_errors_are_equal_by_span_alone() {
    let (_, first) = parse("a = ]");
    let mut parser = Parser::from_source("elsewhere", "m", "b = }");
    let _ = parser.parse().unwrap();
    let second = diagnostics_of(parser);
    assert_eq!(first[0], second[0]);
    let (_, third) = parse("ab = ]");
    assert_ne!(first[0], third[0]);
}

#[test]
fn errors_of_different_kinds_differ() {
    let expression = ParseError::ExpectedExpression { found: Token::Comma };
    let pattern = ParseError::ExpectedPattern { found: Token::Comma };
    assert_ne!(expression, pattern);
    assert_eq!(expression, ParseError::ExpectedExpression { found: Token::Comma });
    assert_ne!(expression, ParseError::ExpectedExpression { found: Token::Equal });
    assert_eq!(pattern, ParseError::ExpectedPattern { found: Token::Comma });
    assert_ne!(pattern, ParseError::ExpectedPattern { found: Token::Equal });
    assert_ne!(ParseError::EOF, expression);
    assert_eq!(ParseError::EOF, ParseError::EOF);
    assert_ne!(
        ParseError::UnexpectedSymbolFound { expected: Token::Equal, found: Token::Comma },
        ParseError::UnexpectedSymbolFound { expected: Token::Comma, found: Token::Comma }
    );
}

#[test]
fn end_of_input_after_the_name() {
    let (module, diagnostics) = parse("Name");
    assert_eq!(module.items, vec![]);
    assert_eq!(diagnostics, vec![ParseError::EOF]);
}

#[test]
fn a_declaration_must_start_with_a_name() {
    let (module, diagnostics) = parse("= x = \"v\"");
    assert_eq!(
        diagnostics,
        vec![ParseError::UnexpectedSymbolFound { expected: some_id(), found: Token::Equal }]
    );
    assert_eq!(module.items, vec![declaration("x", string("v"))]);
}

#[test]
fn parsing_goes_on_behind_a_failed_declaration() {
    let (module, diagnostics) = parse("a = \"1\" b ? c = \"3\"");
    assert_eq!(
        diagnostics,
        vec![ParseError::UnexpectedSymbolFound {
            expected: Token::Equal,
            found: Token::QuestionMark
        }]
    );
    assert_eq!(module.items, vec![declaration("a", string("1")), declaration("c", string("3"))]);
}

#[test]
fn a_clause_needs_patterns_and_braces() {
    let (_, diagnostics) = parse("f = (\"x\") { \"y\" }");
    assert_eq!(diagnostics.len(), 6);
    assert!(matches!(diagnostics[0], ParseError::MissingValueInValueDeclaration { .. }));

    let (module, diagnostics) = parse("f = (A) \"y\"");
    assert_eq!(module.items, vec![]);
    assert_eq!(diagnostics.len(), 1);
    match &diagnostics[0] {
        ParseError::MissingValueInValueDeclaration { span, .. } => {
            assert_eq!(*span, Span::new(8, 3))
        }
        other => panic!("unexpected: {:?}", other),
    }
}

#[test]
fn the_module_takes_the_name_it_was_given() {
    let mut parser = Parser::from_source("dir/file.q", "file.q", "a = \"b\"");
    let module = parser.parse().unwrap();
    assert_eq!(module.name, Id("file.q".to_string()));
    assert!(parser.diagnostics().is_ok());
}
