//! Front end for a small expression language: a tokenizer that turns source
//! text into a stream of tokens (or lexical errors), and a precedence-climbing
//! recursive-descent parser that turns tokens into an expression tree.

pub mod ast;
pub mod lexer;
pub mod parser;
pub mod tokens;
pub mod util;
