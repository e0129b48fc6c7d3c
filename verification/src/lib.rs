//! A small front end for an expression language: a lexer that turns source
//! text into a token stream, and a recursive-descent parser that turns the
//! token stream into an abstract syntax tree for arithmetic expressions.

pub mod ast;
pub mod chars;
pub mod lexer;
pub mod parser;
pub mod token;
pub mod utils;
