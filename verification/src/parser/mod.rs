//! From source text to an expression tree: tokens, the lexer, the grammar
//! and the parser that folds constants as it goes.

pub mod grammar;
pub mod lexer;
pub mod parser;
pub mod token;
