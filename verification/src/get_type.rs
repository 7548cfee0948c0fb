//! The scope-aware type checker: resolves the type of every expression
//! against the unit's declarations, function signatures and the local
//! scope, failing on the first mismatch.

use vstd::prelude::*;

use crate::ast::get_type::{lit_type, ok_type};
use crate::ast::structure::{
    deep_exprs, lemma_deep_exprs, lemma_deep_vars, Expression, ExprV, FunctionCall, FunV,
    OperatorUse, VarV,
};
use crate::data_type::DataType;
use crate::diagnostics::TypeError;
use crate::file::{File, FileV};
use crate::in_function_scope_validation::{
    find_var_type_from_local_scope, lemma_lookup_misses, lemma_lookup_prefers_nearest_local,
    scoped_lookup, stmt_decl_of,
};
use crate::lexer::token::TokenType;
use crate::scope_placement_info::ScopePlacementInfo;

verus! {

/// Mathematical image of a point of use: the enclosing function and the
/// statement index being checked.
pub struct ScopeV {
    pub fun: FunV,
    pub index: int,
}

/// Image of the optional scope handed to the checker.
pub open spec fn spec_scope(scope: Option<&ScopePlacementInfo>) -> Option<ScopeV> {
    match scope {
        Some(sp) => Some(ScopeV { fun: sp.function_def.deep(), index: sp.index as int }),
        None => None,
    }
}

/// The scope, when present, points at a statement of its function.
pub open spec fn scope_ok(scope: Option<&ScopePlacementInfo>) -> bool {
    scope matches Some(sp) ==> sp.index < sp.function_def.body@.len()
}

/// The type of an expression under a compilation unit and an optional
/// local scope, or nothing where typing fails: literals type as
/// themselves; an operator requires equal operand types and yields that
/// type; a call requires a known function, exact arity and matching
/// argument types, and yields the declared return type; a reference
/// resolves local-scope-first with global fallback; composite literals
/// have no rule.
pub open spec fn infer_type(e: ExprV, f: FileV, scope: Option<ScopeV>) -> Option<DataType>
    decreases e, 0int,
{
    match e {
        ExprV::Op { operator, left, right } => match (
            infer_type(*left, f, scope),
            infer_type(*right, f, scope),
        ) {
            (Some(a), Some(b)) => if a == b {
                Some(a)
            } else {
                None
            },
            _ => None,
        },
        ExprV::Lit(tv) => lit_type(tv),
        ExprV::Call { name, args } => if f.functions.contains_key(name) {
            if args.len() == f.functions[name].params.len() && args_fit(
                args,
                f.functions[name].params,
                0,
                f,
                scope,
            ) {
                Some(f.functions[name].ret)
            } else {
                None
            }
        } else {
            None
        },
        ExprV::Ref { name } => {
            let local = match scope {
                Some(sc) => scoped_lookup(sc.fun, sc.index, name),
                None => None,
            };
            match local {
                Some(t) => Some(t),
                None => if f.variables.contains_key(name) {
                    Some(f.variables[name].typ)
                } else {
                    None
                },
            }
        },
        _ => None,
    }
}

/// From position `k` on, every argument's type matches the corresponding
/// declared parameter type.
pub open spec fn args_fit(
    args: Seq<ExprV>,
    params: Seq<VarV>,
    k: int,
    f: FileV,
    scope: Option<ScopeV>,
) -> bool
    decreases args, args.len() - k,
{
    if k < 0 || k >= args.len() || args.len() != params.len() {
        true
    } else {
        infer_type(args[k], f, scope) == Some(params[k].typ) && args_fit(
            args,
            params,
            k + 1,
            f,
            scope,
        )
    }
}

pub proof fn lemma_args_fit_iff(
    args: Seq<ExprV>,
    params: Seq<VarV>,
    k: int,
    f: FileV,
    scope: Option<ScopeV>,
)
    requires
        0 <= k <= args.len(),
        args.len() == params.len(),
    ensures
        args_fit(args, params, k, f, scope) <==> (forall|j: int|
            k <= j < args.len() ==> infer_type(args[j], f, scope) == Some(params[j].typ)),
    decreases args.len() - k,
{
    if k < args.len() {
        lemma_args_fit_iff(args, params, k + 1, f, scope);
    }
}

/// Law: a reference prefers the nearest preceding same-named declaration.
/// If statement `j` declares `name` and no later statement up to the point
/// of use `i` declares it again, the reference checks as the type declared
/// at `j` — whatever the parameters or a global of the same name would say.
pub proof fn lemma_reference_prefers_nearest_local(
    fun: FunV,
    i: int,
    j: int,
    name: Seq<char>,
    f: FileV,
)
    requires
        0 <= j <= i < fun.body.len(),
        stmt_decl_of(fun.body[j], name) is Some,
        forall|k: int| j < k <= i ==> stmt_decl_of(fun.body[k], name) is None,
    ensures
        infer_type(ExprV::Ref { name }, f, Some(ScopeV { fun, index: i })) == stmt_decl_of(
            fun.body[j],
            name,
        ),
{
    lemma_lookup_prefers_nearest_local(fun, i, j, name);
}

/// Law: a reference with no local or parameter shadow resolves to the
/// global's declared type.
pub proof fn lemma_reference_falls_to_global(fun: FunV, i: int, name: Seq<char>, f: FileV)
    requires
        0 <= i < fun.body.len(),
        forall|k: int| 0 <= k <= i ==> stmt_decl_of(fun.body[k], name) is None,
        forall|p: int| 0 <= p < fun.params.len() ==> fun.params[p].name != name,
        f.variables.contains_key(name),
    ensures
        infer_type(ExprV::Ref { name }, f, Some(ScopeV { fun, index: i })) == Some(
            f.variables[name].typ,
        ),
{
    lemma_lookup_misses(fun, i, name);
}

/// Argument `j` is the first whose inferred type resolves but differs
/// from the declared parameter type, all arguments before it matching.
pub open spec fn first_arg_offender(
    args: Seq<ExprV>,
    params: Seq<VarV>,
    j: int,
    f: FileV,
    scope: Option<ScopeV>,
) -> bool {
    &&& 0 <= j < args.len()
    &&& params.len() == args.len()
    &&& (forall|k: int| 0 <= k < j ==> infer_type(#[trigger] args[k], f, scope) == Some(
        params[k].typ,
    ))
    &&& infer_type(args[j], f, scope) is Some
    &&& infer_type(args[j], f, scope) != Some(params[j].typ)
}

/// Everything whose type the checker can resolve within a compilation
/// unit and an optional local scope.
pub trait HasType {
    /// The mathematical image this node checks as.
    spec fn image(&self) -> ExprV;

    /// Resolves this node's type, or fails with the first mismatch found.
    fn get_type(&self, file: &File, scope: Option<&ScopePlacementInfo>) -> (r: Result<
        DataType,
        TypeError,
    >)
        requires
            file.wf(),
            scope_ok(scope),
        ensures
            ok_type(r) == infer_type(self.image(), file.deep(), spec_scope(scope)),
    ;
}

impl HasType for OperatorUse {
    open spec fn image(&self) -> ExprV {
        self.deep()
    }

    fn get_type(&self, file: &File, scope: Option<&ScopePlacementInfo>) -> (r: Result<
        DataType,
        TypeError,
    >)
        decreases *self,
    {
        let lefts_type = HasType::get_type(&*self.left, file, scope)?;
        let rights_type = HasType::get_type(&*self.right, file, scope)?;
        if lefts_type != rights_type {
            return Err(TypeError::OperandMismatch { left: lefts_type, right: rights_type });
        }
        Ok(lefts_type)
    }
}

impl HasType for FunctionCall {
    open spec fn image(&self) -> ExprV {
        self.deep()
    }

    /// A wrong argument count is reported with the declared and passed
    /// counts; a wrong argument type with its 1-based position and the
    /// expected and inferred kinds at that position.
    fn get_type(&self, file: &File, scope: Option<&ScopePlacementInfo>) -> (r: Result<
        DataType,
        TypeError,
    >)
        ensures
            (file.deep().functions.contains_key(self.name@) && deep_exprs(self.args@).len()
                != file.deep().functions[self.name@].params.len()) ==> (r matches Err(
                TypeError::ArgumentCountMismatch { name, expected_count, actual_count },
            ) && name@ == self.name@ && expected_count == file.deep().functions[
                self.name@].params.len() && actual_count == self.args@.len()),
            forall|j: int|
                (file.deep().functions.contains_key(self.name@)
                    && #[trigger] first_arg_offender(
                    deep_exprs(self.args@),
                    file.deep().functions[self.name@].params,
                    j,
                    file.deep(),
                    spec_scope(scope),
                )) ==> (r matches Err(TypeError::ArgumentMismatch {
                    name,
                    position,
                    expected,
                    actual,
                }) && name@ == self.name@ && position as int == j + 1 && expected == file.deep()
                    .functions[self.name@].params[j].typ && Some(actual) == infer_type(
                    deep_exprs(self.args@)[j],
                    file.deep(),
                    spec_scope(scope),
                )),
        decreases *self,
    {
        let ghost argsv = deep_exprs(self.args@);
        proof {
            lemma_deep_exprs(self.args@);
        }
        let function = match file.lookup_function(self.name.as_str()) {
            Some(f) => f,
            None => {
                return Err(TypeError::UnknownFunction { name: self.name.clone() });
            },
        };
        let ghost paramsv = function.deep().params;
        proof {
            lemma_deep_vars(function.args@);
        }
        if self.args.len() != function.args.len() {
            return Err(
                TypeError::ArgumentCountMismatch {
                    name: self.name.clone(),
                    expected_count: function.args.len(),
                    actual_count: self.args.len(),
                },
            );
        }
        let ghost fv = file.deep();
        let ghost scv = spec_scope(scope);
        let mut i: usize = 0;
        loop
            invariant
                file.wf(),
                scope_ok(scope),
                fv == file.deep(),
                scv == spec_scope(scope),
                i <= self.args@.len(),
                self.args@.len() == function.args@.len(),
                argsv == deep_exprs(self.args@),
                argsv.len() == self.args@.len(),
                forall|j: int| 0 <= j < argsv.len() ==> argsv[j] == self.args@[j].deep(),
                paramsv == function.deep().params,
                paramsv.len() == function.args@.len(),
                forall|j: int| 0 <= j < paramsv.len() ==> paramsv[j] == function.args@[j].deep(),
                fv.functions.contains_key(self.name@),
                fv.functions[self.name@] == function.deep(),
                forall|j: int| 0 <= j < i ==> infer_type(argsv[j], fv, scv) == Some(paramsv[j].typ),
            ensures
                i == argsv.len(),
                forall|j: int| 0 <= j < argsv.len() ==> infer_type(argsv[j], fv, scv) == Some(
                    paramsv[j].typ,
                ),
            decreases self.args@.len() - i,
        {
            if i >= self.args.len() {
                break;
            }
            let arg_type = match HasType::get_type(&self.args[i], file, scope) {
                Ok(t) => t,
                Err(e) => {
                    proof {
                        lemma_args_fit_iff(argsv, paramsv, 0, fv, scv);
                        assert(infer_type(argsv[i as int], fv, scv) is None);
                        assert(!args_fit(argsv, paramsv, 0, fv, scv));
                        assert(self.deep() == (ExprV::Call { name: self.name@, args: argsv }));
                        assert forall|j: int| first_arg_offender(
                            argsv,
                            paramsv,
                            j,
                            fv,
                            scv,
                        ) implies false by {
                            if j <= i {
                                assert(infer_type(argsv[i as int], fv, scv) is None);
                            } else {
                                assert(infer_type(#[trigger] argsv[i as int], fv, scv) == Some(
                                    paramsv[i as int].typ,
                                ));
                            }
                        }
                    }
                    return Err(e);
                },
            };
            let expected = &function.args[i];
            if arg_type != expected.type_ {
                proof {
                    lemma_args_fit_iff(argsv, paramsv, 0, fv, scv);
                    assert(infer_type(argsv[i as int], fv, scv) == Some(arg_type));
                    assert(paramsv[i as int] == function.args@[i as int].deep());
                    assert(paramsv[i as int].typ == expected.type_);
                    assert(!args_fit(argsv, paramsv, 0, fv, scv));
                    assert(self.deep() == (ExprV::Call { name: self.name@, args: argsv }));
                    assert(first_arg_offender(argsv, paramsv, i as int, fv, scv));
                    assert forall|j: int| first_arg_offender(
                        argsv,
                        paramsv,
                        j,
                        fv,
                        scv,
                    ) implies j == i as int by {
                        if j < i as int {
                            assert(infer_type(#[trigger] argsv[j], fv, scv) == Some(
                                paramsv[j].typ,
                            ));
                        }
                        if j > i as int {
                            assert(infer_type(#[trigger] argsv[i as int], fv, scv) == Some(
                                paramsv[i as int].typ,
                            ));
                        }
                    }
                }
                return Err(
                    TypeError::ArgumentMismatch {
                        name: self.name.clone(),
                        position: i + 1,
                        expected: expected.type_,
                        actual: arg_type,
                    },
                );
            }
            i = i + 1;
        }
        proof {
            lemma_args_fit_iff(argsv, paramsv, 0, fv, scv);
            assert forall|j: int| first_arg_offender(argsv, paramsv, j, fv, scv) implies false by {
                assert(infer_type(#[trigger] argsv[j], fv, scv) == Some(paramsv[j].typ));
            }
        }
        Ok(function.return_type)
    }
}

impl HasType for Expression {
    open spec fn image(&self) -> ExprV {
        self.deep()
    }

    fn get_type(&self, file: &File, scope: Option<&ScopePlacementInfo>) -> (r: Result<
        DataType,
        TypeError,
    >)
        decreases *self,
    {
        match self {
            Expression::OperatorUse(op) => {
                let r = HasType::get_type(op, file, scope);
                proof {
                    assert(self.deep() == op.deep());
                }
                r
            },
            Expression::Token(token) => {
                proof {
                    assert(self.deep() == ExprV::Lit(token@));
                }
                if token.type_ == TokenType::Number {
                    Ok(DataType::Int)
                } else if token.type_ == TokenType::String {
                    Ok(DataType::String)
                } else {
                    Err(TypeError::UnknownLiteral { kind: token.type_ })
                }
            },
            Expression::FunctionCall(call) => {
                let r = HasType::get_type(call, file, scope);
                proof {
                    assert(self.deep() == call.deep());
                }
                r
            },
            Expression::VarReference(reference) => {
                proof {
                    assert(self.deep() == (ExprV::Ref { name: reference.name@ }));
                }
                match scope {
                    Some(sp) => {
                        let variable_type = find_var_type_from_local_scope(
                            reference.name.as_str(),
                            sp,
                        );
                        match variable_type {
                            Some(t) => {
                                return Ok(t);
                            },
                            None => {},
                        }
                    },
                    None => {},
                }
                match file.lookup_variable(reference.name.as_str()) {
                    Some(variable) => Ok(variable.type_),
                    None => Err(TypeError::UnknownVariable { name: reference.name.clone() }),
                }
            },
            Expression::Array(a) => {
                proof {
                    assert(self.deep() == (ExprV::Arr { elements: deep_exprs(a.elements@) }));
                }
                Err(TypeError::UnsupportedExpression)
            },
            Expression::Object(o) => {
                proof {
                    assert(self.deep() == (ExprV::Obj {
                        name: o.name@,
                        fields: crate::ast::structure::deep_vars(o.fields@),
                    }));
                }
                Err(TypeError::UnsupportedExpression)
            },
            Expression::Subscript(sub) => {
                proof {
                    assert(self.deep() == (ExprV::Sub {
                        name: sub.name@,
                        index: Box::new(sub.arg.deep()),
                    }));
                }
                Err(TypeError::UnsupportedExpression)
            },
        }
    }
}

} // verus!
