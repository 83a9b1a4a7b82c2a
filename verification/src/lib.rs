//! An embeddable engine for short arithmetic expressions: a lexer, a
//! recursive-descent parser and a tree-walking evaluator, each stated against a
//! mathematical model of what it computes.

pub mod number;
pub mod lexer;
pub mod grammar;
pub mod parser;
pub mod computer;

pub use crate::computer::EvalError;
