//! Lexical analysis: token classification and the tokenizer.

pub mod token;
pub mod tokenizer;
