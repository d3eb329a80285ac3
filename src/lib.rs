//! A small Lisp: a lexer, a parser and an evaluator, each verified against a
//! specification of what it computes.
pub mod text;
pub mod number;
pub mod token;
pub mod error;
pub mod lexer;
pub mod ast;
pub mod parser;
pub mod env;
pub mod eval;
pub mod session;
pub mod laws;
