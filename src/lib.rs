//! A line calculator: a lexer that turns one line of text into tokens on
//! demand, and an evaluator that reads `INTEGER (+|-) INTEGER` from it.
pub mod chars;
pub mod grammar;
pub mod interpreter;
pub mod token;
