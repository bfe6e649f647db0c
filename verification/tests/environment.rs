use qlang::environment::{Environment, EnvironmentError, Scope};
use qlang::parsetree::{Expression, Id};

#[test]
fn env_can_lookup_on_parent_scope() {
    let mut env = Environment::new();
    let a = Id("a".to_string());
    let first_str = Expression::LiteralString("hello".to_string());
    env.bind(a.clone(), first_str.clone());
    assert_eq!(env.lookup(a.clone()).unwrap(), first_str);
    env.push_scope();
    assert_eq!(env.lookup(a).unwrap(), first_str);
}

#[test]
fn env_can_not_lookup_on_child_scope() {
    let mut env = Environment::new();
    env.push_scope();
    let a = Id("a".to_string());
    let first_str = Expression::LiteralString("hello".to_string());
    env.bind(a.clone(), first_str.clone());
    assert!(matches!(env.lookup(a.clone()), Ok(expr) if expr == first_str));
    env.pop_scope().unwrap();
    assert!(
        matches!(env.lookup(a.clone()), Err(EnvironmentError::UndefinedSymbol {id}) if id == a)
    );
}

#[test]
fn environment_variable_shadowing() {
    let mut env = Environment::new();
    let a = Id("a".to_string());
    let first_str = Expression::LiteralString("hello".to_string());
    env.bind(a.clone(), first_str.clone());
    assert_eq!(env.lookup(a).unwrap(), first_str);

    env.push_scope();

    let a = Id("a".to_string());
    let second_str = Expression::LiteralString("goodbye".to_string());
    env.bind(a.clone(), second_str.clone());
    assert_eq!(env.lookup(a).unwrap(), second_str);
}

#[test]
fn shadowing_leaves_the_parent_binding_as_it_was() {
    let mut env = Environment::new();
    let a = Id("a".to_string());
    let hello = Expression::LiteralString("hello".to_string());
    let goodbye = Expression::LiteralString("goodbye".to_string());
    env.bind(a.clone(), hello.clone());
    env.push_scope();
    env.bind(a.clone(), goodbye.clone());
    assert_eq!(env.lookup(a.clone()).unwrap(), goodbye);
    env.pop_scope().unwrap();
    assert_eq!(env.lookup(a).unwrap(), hello);
}

#[test]
fn rebinding_in_one_scope_replaces_the_value() {
    let mut env = Environment::new();
    let a = Id("a".to_string());
    let b = Id("b".to_string());
    env.bind(a.clone(), Expression::LiteralString("one".to_string()));
    env.bind(b.clone(), Expression::LiteralString("other".to_string()));
    env.bind(a.clone(), Expression::LiteralString("two".to_string()));
    assert_eq!(env.lookup(a).unwrap(), Expression::LiteralString("two".to_string()));
    assert_eq!(env.lookup(b).unwrap(), Expression::LiteralString("other".to_string()));
}

#[test]
fn popping_the_outermost_scope_is_an_underflow() {
    let mut env = Environment::new();
    assert!(matches!(env.pop_scope(), Err(EnvironmentError::ScopeUnderflow)));
    let a = Id("a".to_string());
    env.bind(a.clone(), Expression::LiteralString("kept".to_string()));
    assert!(matches!(env.pop_scope(), Err(EnvironmentError::ScopeUnderflow)));
    assert_eq!(env.lookup(a).unwrap(), Expression::LiteralString("kept".to_string()));
}

#[test]
fn each_push_is_undone_by_one_pop() {
    let mut env = Environment::new();
    env.push_scope();
    env.push_scope();
    assert!(env.pop_scope().is_ok());
    assert!(env.pop_scope().is_ok());
    assert!(matches!(env.pop_scope(), Err(EnvironmentError::ScopeUnderflow)));
}

#[test]
fn lookup_of_an_unbound_name_names_it() {
    let env = Environment::new();
    let missing = Id("missing".to_string());
    match env.lookup(missing.clone()) {
        Err(EnvironmentError::UndefinedSymbol { id }) => assert_eq!(id, missing),
        other => panic!("unexpected: {:?}", other),
    }
}

#[test]
fn lookup_walks_outwards_through_every_scope() {
    let mut env = Environment::new();
    let a = Id("a".to_string());
    let b = Id("b".to_string());
    env.bind(a.clone(), Expression::LiteralString("outer".to_string()));
    env.push_scope();
    env.bind(b.clone(), Expression::LiteralString("middle".to_string()));
    env.push_scope();
    assert_eq!(env.lookup(a).unwrap(), Expression::LiteralString("outer".to_string()));
    assert_eq!(env.lookup(b).unwrap(), Expression::LiteralString("middle".to_string()));
}

#[test]
fn a_scope_of_its_own_binds_nothing() {
    let scope = Scope::default();
    let a = Id("a".to_string());
    assert!(
        matches!(scope.lookup(a.clone()), Err(EnvironmentError::UndefinedSymbol {id}) if id == a)
    );
    let copy = scope.clone();
    assert!(matches!(copy.lookup(a), Err(EnvironmentError::UndefinedSymbol { .. })));
}
