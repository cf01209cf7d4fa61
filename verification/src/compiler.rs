//! From source text to statements: the lexer, the parser, and the types
//! they share.
pub mod ast;
pub mod condition;
pub mod describe;
pub mod error;
pub mod lexer;
pub mod parser;
pub mod tokenizer;
pub mod tokens;
