//! A small s-expression language: lexer, parser, expression model,
//! stack-of-frames environment, and a tree-walking evaluator.

pub mod eval;
pub mod interpreter;
pub mod lex;
pub mod num;
pub mod parse;
pub mod text;
pub mod types;

pub use types::{Expr, Number};
