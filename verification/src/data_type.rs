//! The scalar kinds a declaration or an expression can have.

use vstd::prelude::*;

use crate::text::str_eq;

verus! {

/// The four scalar kinds of the language. `Untyped` marks a missing return
/// type or a declaration whose type is still to be inferred from its value.
#[derive(Debug, Clone, Copy, PartialEq, Eq, Structural)]
pub enum DataType {
    Int,
    String,
    Untyped,
    Bool,
}

/// The fixed table of type names a program can write.
pub open spec fn data_type_of_name(name: Seq<char>) -> Option<DataType> {
    if name == "int"@ {
        Some(DataType::Int)
    } else if name == "string"@ {
        Some(DataType::String)
    } else if name == "bool"@ {
        Some(DataType::Bool)
    } else {
        None
    }
}

/// Resolves a type name as written in source to its scalar kind; an
/// unrecognized name yields `None` and the caller reports the error.
pub fn type_from(value: &str) -> (r: Option<DataType>)
    ensures
        r == data_type_of_name(value@),
{
    if str_eq(value, "int") {
        Some(DataType::Int)
    } else if str_eq(value, "string") {
        Some(DataType::String)
    } else if str_eq(value, "bool") {
        Some(DataType::Bool)
    } else {
        None
    }
}

} // verus!
