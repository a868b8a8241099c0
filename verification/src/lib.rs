//! An integer arithmetic expression evaluator.
//!
//! The pipeline has three stages: a lexer that turns a line of text into
//! tokens, a recursive-descent parser that builds an expression tree with
//! the usual two precedence levels, and an evaluator that walks the tree.

pub mod lexer;
pub mod parser;
