//! A line calculator: a lexer that turns a line of text into tokens, and an
//! evaluator that reads those tokens strictly left to right, with no operator
//! precedence.

pub mod token;
pub mod lexer;
pub mod eval;
