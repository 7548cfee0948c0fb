//! The abstract syntax tree: node types produced by parsing, their
//! mathematical views, structural comparison and simple type inference.

pub mod comparisons;
pub mod get_type;
pub mod structure;

pub use comparisons::{AstComparable, ComparisonError};
pub use structure::{
    Array, Expression, FunctionCall, FunctionDef, Object, OperatorUse, StructDef, StructScopeItem,
    Subscript, ValidInFunctionBody, VarReference, Variable,
};
