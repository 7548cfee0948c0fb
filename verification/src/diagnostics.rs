//! Fatal diagnostics: syntax errors carry a byte range into the source
//! buffer, type errors carry the offending names and kinds as data.

use vstd::prelude::*;
use vstd::string::*;

use crate::data_type::DataType;
use crate::lexer::token::TokenType;

verus! {

/// A fatal tokenizer or parser diagnostic. `start` and `end` delimit the
/// offending range as character offsets into the source buffer, suitable
/// for caret-style rendering; on ASCII input they coincide with byte
/// offsets.
#[derive(Debug)]
pub struct SyntaxError {
    pub start: usize,
    pub end: usize,
    pub message: String,
}

impl SyntaxError {
    pub fn new(start: usize, end: usize, message: &str) -> (r: SyntaxError)
        ensures
            r.start == start,
            r.end == end,
            r.message@ == message@,
    {
        SyntaxError { start, end, message: message.to_owned() }
    }
}

/// A fatal checker diagnostic, carrying the mismatched names and kinds.
#[derive(Debug)]
pub enum TypeError {
    /// The two operand types of a binary operator differ.
    OperandMismatch { left: DataType, right: DataType },
    /// A literal token of a kind the checker has no rule for.
    UnknownLiteral { kind: TokenType },
    /// A call names a function absent from the unit's function table.
    UnknownFunction { name: String },
    /// A reference names a variable with no local, parameter or global match.
    UnknownVariable { name: String },
    /// A call passes the wrong number of arguments.
    ArgumentCountMismatch { name: String, expected_count: usize, actual_count: usize },
    /// A positional argument's inferred type differs from the declared
    /// parameter type; `position` is 1-based.
    ArgumentMismatch { name: String, position: usize, expected: DataType, actual: DataType },
    /// A composite literal (array, object, subscript) for which the checker
    /// has no inference rule.
    UnsupportedExpression,
    /// A global declaration with neither a type nor a value to infer it from.
    CannotInfer { name: String },
    /// A variable's inferred value type differs from its declared type.
    VariableMismatch { name: String, expected: DataType, actual: DataType },
    /// A return expression's type differs from the function's return type.
    ReturnMismatch { function: String, expected: DataType, actual: DataType },
}

} // verus!
