//! Validation of function bodies: every statement of every function, in
//! order, against the unit's declarations and the local scope at that
//! statement.

use vstd::prelude::*;

use crate::ast::structure::{
    lemma_deep_stmts, FunctionDef, FunV, StmtV, ValidInFunctionBody,
};
use crate::diagnostics::TypeError;
use crate::file::{File, FileV};
use crate::get_type::{infer_type, HasType, ScopeV};
use crate::scope_placement_info::ScopePlacementInfo;

verus! {

/// Statement `i` of `fun` is well-typed: a declaration's value must infer
/// to its declared type, a bare expression must infer to some type, and a
/// return expression must infer to the function's return type — each under
/// the local scope at `i`.
pub open spec fn stmt_ok(fun: FunV, i: int, f: FileV) -> bool {
    match fun.body[i] {
        StmtV::Decl(v) => match v.value {
            Some(e) => infer_type(e, f, Some(ScopeV { fun, index: i })) == Some(v.typ),
            None => true,
        },
        StmtV::Expr(e) => infer_type(e, f, Some(ScopeV { fun, index: i })) is Some,
        StmtV::Ret(e) => infer_type(e, f, Some(ScopeV { fun, index: i })) == Some(fun.ret),
    }
}

/// Every statement of the function is well-typed.
pub open spec fn fun_ok(fun: FunV, f: FileV) -> bool {
    forall|i: int| 0 <= i < fun.body.len() ==> stmt_ok(fun, i, f)
}

/// Every function of the unit is well-typed.
pub open spec fn functions_ok(f: FileV) -> bool {
    forall|n: Seq<char>| f.functions.contains_key(n) ==> fun_ok(#[trigger] f.functions[n], f)
}

/// Statement `i` is the first ill-typed statement of `fun`.
pub open spec fn first_bad_stmt(fun: FunV, i: int, f: FileV) -> bool {
    &&& 0 <= i < fun.body.len()
    &&& !stmt_ok(fun, i, f)
    &&& forall|j: int| 0 <= j < i ==> stmt_ok(fun, j, f)
}

impl File {
    /// Checks one function's body, statement by statement in order:
    /// succeeds exactly when every statement is well-typed, and fails on
    /// the first one that is not.
    pub fn validate_function_types(&self, function: &FunctionDef) -> (r: Result<(), TypeError>)
        requires
            self.wf(),
        ensures
            r is Ok <==> fun_ok(function.deep(), self.deep()),
            r is Err ==> exists|i: int| first_bad_stmt(function.deep(), i, self.deep()),
    {
        let ghost funv = function.deep();
        let ghost fv = self.deep();
        proof {
            lemma_deep_stmts(function.body@);
        }
        let mut i: usize = 0;
        loop
            invariant
                self.wf(),
                fv == self.deep(),
                funv == function.deep(),
                funv.body.len() == function.body@.len(),
                forall|k: int| 0 <= k < funv.body.len() ==> funv.body[k] == function.body@[
                    k].deep(),
                i <= function.body@.len(),
                forall|j: int| 0 <= j < i ==> stmt_ok(funv, j, fv),
            ensures
                forall|j: int| 0 <= j < funv.body.len() ==> stmt_ok(funv, j, fv),
            decreases function.body@.len() - i,
        {
            if i >= function.body.len() {
                break;
            }
            let function_info = ScopePlacementInfo { index: i, function_def: function };
            let ghost scv = Some(ScopeV { fun: funv, index: i as int });
            proof {
                assert(funv.body[i as int] == function.body@[i as int].deep());
            }
            match &function.body[i] {
                ValidInFunctionBody::Variable(variable) => {
                    match &variable.value {
                        Some(value) => {
                            let inferred = match HasType::get_type(
                                value,
                                self,
                                Some(&function_info),
                            ) {
                                Ok(t) => t,
                                Err(e) => {
                                    proof {
                                        assert(!stmt_ok(funv, i as int, fv));
                                        assert(first_bad_stmt(funv, i as int, fv));
                                    }
                                    return Err(e);
                                },
                            };
                            if inferred != variable.type_ {
                                proof {
                                    assert(!stmt_ok(funv, i as int, fv));
                                    assert(first_bad_stmt(funv, i as int, fv));
                                }
                                return Err(
                                    TypeError::VariableMismatch {
                                        name: variable.name.clone(),
                                        expected: variable.type_,
                                        actual: inferred,
                                    },
                                );
                            }
                        },
                        None => {},
                    }
                },
                ValidInFunctionBody::Expression(expression) => {
                    match HasType::get_type(expression, self, Some(&function_info)) {
                        Ok(_) => {},
                        Err(e) => {
                            proof {
                                assert(!stmt_ok(funv, i as int, fv));
                                assert(first_bad_stmt(funv, i as int, fv));
                            }
                            return Err(e);
                        },
                    }
                },
                ValidInFunctionBody::Return(expression) => {
                    let expression_type = match HasType::get_type(
                        expression,
                        self,
                        Some(&function_info),
                    ) {
                        Ok(t) => t,
                        Err(e) => {
                            proof {
                                assert(!stmt_ok(funv, i as int, fv));
                                assert(first_bad_stmt(funv, i as int, fv));
                            }
                            return Err(e);
                        },
                    };
                    if expression_type != function.return_type {
                        proof {
                            assert(!stmt_ok(funv, i as int, fv));
                            assert(first_bad_stmt(funv, i as int, fv));
                        }
                        return Err(
                            TypeError::ReturnMismatch {
                                function: function.name.clone(),
                                expected: function.return_type,
                                actual: expression_type,
                            },
                        );
                    }
                },
            }
            proof {
                assert(stmt_ok(funv, i as int, fv));
            }
            i = i + 1;
        }
        Ok(())
    }

    /// Checks every function of the unit: succeeds exactly when every
    /// function's body is well-typed.
    pub fn validate_functions(&self) -> (r: Result<(), TypeError>)
        requires
            self.wf(),
        ensures
            r is Ok <==> functions_ok(self.deep()),
            r is Err ==> exists|i: int|
                0 <= i < self.spec_functions().len() && !fun_ok(
                    (#[trigger] self.spec_functions()[i]).deep(),
                    self.deep(),
                ) && (forall|j: int| 0 <= j < i ==> fun_ok(self.spec_functions()[j].deep(), self.deep())),
    {
        proof {
            self.lemma_tables();
        }
        let ghost fv = self.deep();
        let mut i: usize = 0;
        loop
            invariant
                self.wf(),
                fv == self.deep(),
                i <= self.spec_functions().len(),
                forall|j: int| 0 <= j < i ==> fun_ok(
                    (#[trigger] self.spec_functions()[j]).deep(),
                    fv,
                ),
            ensures
                forall|j: int| 0 <= j < self.spec_functions().len() ==> fun_ok(
                    (#[trigger] self.spec_functions()[j]).deep(),
                    fv,
                ),
            decreases self.spec_functions().len() - i,
        {
            if i >= self.function_count() {
                break;
            }
            let function = self.function_at(i);
            match self.validate_function_types(function) {
                Ok(_) => {},
                Err(e) => {
                    proof {
                        self.lemma_tables();
                        assert(fv.functions.contains_key(self.spec_functions()[i as int].name@));
                        assert(!fun_ok(fv.functions[self.spec_functions()[i as int].name@], fv));
                        assert(!fun_ok((self.spec_functions()[i as int]).deep(), fv));
                    }
                    return Err(e);
                },
            }
            i = i + 1;
        }
        proof {
            self.lemma_tables();
            assert forall|n: Seq<char>| fv.functions.contains_key(n) implies fun_ok(
                #[trigger] fv.functions[n],
                fv,
            ) by {
                let j = choose|j: int|
                    0 <= j < self.spec_functions().len() && #[trigger] self.spec_functions()[
                    j].name@ == n;
                assert(fv.functions[n] == self.spec_functions()[j].deep());
            }
        }
        Ok(())
    }
}

} // verus!
