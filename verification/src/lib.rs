//! Front end of a small statically-typed language: a tokenizer that turns
//! source text into a classified token stream, a recursive-descent parser
//! with precedence climbing that builds the abstract syntax tree, and a
//! scope-aware type checker that resolves every expression's type against
//! global declarations, function signatures and preceding local declarations.

pub mod ast;
pub mod data_type;
pub mod diagnostics;
pub mod file;
pub mod get_type;
pub mod in_function_scope_validation;
pub mod lexer;
pub mod parser;
pub mod scope_placement_info;
pub mod text;
pub mod validate_function_types;
