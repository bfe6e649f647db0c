//! A small language front-end: a token stream, a recursive-descent parser
//! that recovers from malformed declarations, a scope chain, and a
//! tree-walking evaluator for string literals, multi-clause functions and
//! calls.

pub mod environment;
pub mod error;
pub mod grammar;
pub mod interpreter;
pub mod lexer;
pub mod lexical;
pub mod parser;
pub mod parsetree;
pub mod semantics;
pub mod span;
mod text;
pub mod token;
pub mod views;
