//! The configuration language: tokens, the tokenizer, the syntax tree and the
//! parser.

pub mod ast;
pub mod parser;
pub mod token;
pub mod tokenizer;
