//! Scope-free type inference over bare expressions: only literal tokens
//! and operator applications have a type here; anything that needs the
//! compilation unit (calls, references) is handled by the scoped checker.

use vstd::prelude::*;

use crate::ast::structure::{deep_exprs, deep_vars, Expression, ExprV, OperatorUse};
use crate::data_type::DataType;
use crate::diagnostics::TypeError;
use crate::lexer::token::{TokenType, TokenV};

verus! {

/// Type of a literal token: numbers are integers, quoted text is a string;
/// no other literal kind carries a type.
pub open spec fn lit_type(tv: TokenV) -> Option<DataType> {
    if tv.kind == TokenType::Number {
        Some(DataType::Int)
    } else if tv.kind == TokenType::String {
        Some(DataType::String)
    } else {
        None
    }
}

/// Scope-free inference: the type of an expression built from literals and
/// operators alone, where both operand types of an operator must agree.
pub open spec fn simple_infer(e: ExprV) -> Option<DataType>
    decreases e,
{
    match e {
        ExprV::Op { operator, left, right } => match (simple_infer(*left), simple_infer(*right)) {
            (Some(a), Some(b)) => if a == b {
                Some(a)
            } else {
                None
            },
            _ => None,
        },
        ExprV::Lit(tv) => lit_type(tv),
        _ => None,
    }
}

/// The type a checking step reports, `Err` collapsed to `None`.
pub open spec fn ok_type(r: Result<DataType, TypeError>) -> Option<DataType> {
    match r {
        Ok(t) => Some(t),
        Err(_) => None,
    }
}

impl OperatorUse {
    /// Scope-free type of an operator application: the shared type of its
    /// two operands, which must agree.
    pub fn get_type(&self) -> (r: Result<DataType, TypeError>)
        ensures
            ok_type(r) == simple_infer(self.deep()),
        decreases *self,
    {
        let lefts_type = self.left.get_type()?;
        let rights_type = self.right.get_type()?;
        if lefts_type != rights_type {
            return Err(TypeError::OperandMismatch { left: lefts_type, right: rights_type });
        }
        Ok(lefts_type)
    }
}

impl Expression {
    /// Scope-free type of an expression: literals and operator
    /// applications only; every other variant is an error here.
    pub fn get_type(&self) -> (r: Result<DataType, TypeError>)
        ensures
            ok_type(r) == simple_infer(self.deep()),
        decreases *self,
    {
        match self {
            Expression::OperatorUse(op) => {
                let r = op.get_type();
                proof {
                    assert(self.deep() == op.deep());
                }
                r
            },
            Expression::Token(token) => {
                proof {
                    assert(self.deep() == ExprV::Lit(token@));
                }
                if token.type_ == TokenType::Number {
                    Ok(DataType::Int)
                } else if token.type_ == TokenType::String {
                    Ok(DataType::String)
                } else {
                    Err(TypeError::UnknownLiteral { kind: token.type_ })
                }
            },
            Expression::FunctionCall(c) => {
                proof {
                    assert(self.deep() == (ExprV::Call { name: c.name@, args: deep_exprs(c.args@) }));
                    assert(simple_infer(self.deep()) is None);
                }
                Err(TypeError::UnsupportedExpression)
            },
            Expression::VarReference(v) => {
                proof {
                    assert(self.deep() == (ExprV::Ref { name: v.name@ }));
                    assert(simple_infer(self.deep()) is None);
                }
                Err(TypeError::UnsupportedExpression)
            },
            Expression::Array(a) => {
                proof {
                    assert(self.deep() == (ExprV::Arr { elements: deep_exprs(a.elements@) }));
                    assert(simple_infer(self.deep()) is None);
                }
                Err(TypeError::UnsupportedExpression)
            },
            Expression::Object(o) => {
                proof {
                    assert(self.deep() == (ExprV::Obj { name: o.name@, fields: deep_vars(o.fields@) }));
                    assert(simple_infer(self.deep()) is None);
                }
                Err(TypeError::UnsupportedExpression)
            },
            Expression::Subscript(sub) => {
                proof {
                    assert(self.deep() == (ExprV::Sub { name: sub.name@, index: Box::new(sub.arg.deep()) }));
                    assert(simple_infer(self.deep()) is None);
                }
                Err(TypeError::UnsupportedExpression)
            },
        }
    }
}

} // verus!
