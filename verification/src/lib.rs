//! An interpreter for a small line-numbered BASIC dialect.
//!
//! A program is a set of numbered lines. Each line is split into tokens by
//! [`lexer::tokenize_line`], expressions are brought into postfix order and
//! evaluated over [`value::RBasicValue`], and [`evaluator`] runs the statements
//! in ascending order of their line numbers.
pub mod evaluator;
pub mod expression;
pub mod grammar;
pub mod lexer;
pub mod program;
pub mod text;
pub mod token;
pub mod value;
