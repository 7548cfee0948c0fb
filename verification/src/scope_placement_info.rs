//! Where a point of use sits inside a function body: the function and the
//! index of the statement being checked.

use vstd::prelude::*;

use crate::ast::structure::FunctionDef;

verus! {

/// A `(function, statement index)` pair carried by the checker while it
/// walks a body; scope lookup scans backward from `index`.
pub struct ScopePlacementInfo<'a> {
    pub function_def: &'a FunctionDef,
    pub index: usize,
}

} // verus!
