//! Local scope resolution: the backward scan over a function body that
//! finds the nearest preceding declaration of a name, falling back to the
//! parameter list.

use vstd::prelude::*;

use crate::ast::structure::{
    lemma_deep_stmts, lemma_deep_vars, FunV, StmtV, ValidInFunctionBody, VarV,
};
use crate::data_type::DataType;
use crate::scope_placement_info::ScopePlacementInfo;
use crate::text::str_eq;

verus! {

/// The type a statement declares under `name`, if it is such a declaration.
pub open spec fn stmt_decl_of(st: StmtV, name: Seq<char>) -> Option<DataType> {
    match st {
        StmtV::Decl(v) => if v.name == name {
            Some(v.typ)
        } else {
            None
        },
        _ => None,
    }
}

/// Backward scan from statement `i` down to statement 0, inclusive of both:
/// the declared type of the nearest declaration of `name` at or before `i`.
pub open spec fn local_lookup(body: Seq<StmtV>, i: int, name: Seq<char>) -> Option<DataType>
    decreases i,
{
    if 0 <= i < body.len() {
        match stmt_decl_of(body[i], name) {
            Some(t) => Some(t),
            None => if i == 0 {
                None
            } else {
                local_lookup(body, i - 1, name)
            },
        }
    } else {
        None
    }
}

/// Forward scan of the parameter list from position `k`: the declared type
/// of the first parameter named `name`.
pub open spec fn param_lookup_from(params: Seq<VarV>, k: int, name: Seq<char>) -> Option<
    DataType,
>
    decreases params.len() - k,
{
    if 0 <= k < params.len() {
        if params[k].name == name {
            Some(params[k].typ)
        } else {
            param_lookup_from(params, k + 1, name)
        }
    } else {
        None
    }
}

/// What local lookup yields at `(fun, i)`: the nearest preceding (or
/// current) declaration first, then the first matching parameter.
pub open spec fn scoped_lookup(fun: FunV, i: int, name: Seq<char>) -> Option<DataType> {
    match local_lookup(fun.body, i, name) {
        Some(t) => Some(t),
        None => param_lookup_from(fun.params, 0, name),
    }
}

/// Resolves `var_name` at the given point of use: statements are walked
/// backward from the current one (inclusive, so an initializer can observe
/// its own declared type), then the parameters in declaration order.
pub fn find_var_type_from_local_scope(
    var_name: &str,
    scope_placement_info: &ScopePlacementInfo,
) -> (r: Option<DataType>)
    requires
        scope_placement_info.index < scope_placement_info.function_def.body@.len(),
    ensures
        r == scoped_lookup(
            scope_placement_info.function_def.deep(),
            scope_placement_info.index as int,
            var_name@,
        ),
{
    let function = scope_placement_info.function_def;
    let ghost bodyv = function.deep().body;
    let ghost paramsv = function.deep().params;
    proof {
        lemma_deep_stmts(function.body@);
        lemma_deep_vars(function.args@);
    }
    let mut i: usize = scope_placement_info.index;
    loop
        invariant
            function == scope_placement_info.function_def,
            i <= scope_placement_info.index < function.body@.len(),
            bodyv == function.deep().body,
            local_lookup(bodyv, i as int, var_name@) == local_lookup(
                bodyv,
                scope_placement_info.index as int,
                var_name@,
            ),
            bodyv.len() == function.body@.len(),
            forall|k: int| 0 <= k < bodyv.len() ==> bodyv[k] == function.body@[k].deep(),
        ensures
            local_lookup(bodyv, scope_placement_info.index as int, var_name@) is None,
        decreases i,
    {
        match &function.body[i] {
            ValidInFunctionBody::Variable(variable) => {
                if str_eq(variable.name.as_str(), var_name) {
                    proof {
                        assert(bodyv[i as int] == function.body@[i as int].deep());
                        assert(stmt_decl_of(bodyv[i as int], var_name@) == Some(variable.type_));
                        assert(local_lookup(bodyv, i as int, var_name@) == Some(variable.type_));
                    }
                    return Some(variable.type_);
                }
            },
            _ => {},
        }
        proof {
            assert(stmt_decl_of(bodyv[i as int], var_name@) is None);
        }
        if i == 0 {
            proof {
                assert(local_lookup(bodyv, 0, var_name@) is None);
            }
            break;
        }
        i = i - 1;
    }
    let params = &function.args;
    let mut k: usize = 0;
    loop
        invariant
            function == scope_placement_info.function_def,
            params == &function.args,
            k <= params@.len(),
            bodyv == function.deep().body,
            paramsv == function.deep().params,
            paramsv.len() == params@.len(),
            forall|j: int| 0 <= j < paramsv.len() ==> paramsv[j] == params@[j].deep(),
            param_lookup_from(paramsv, 0, var_name@) == param_lookup_from(
                paramsv,
                k as int,
                var_name@,
            ),
            local_lookup(bodyv, scope_placement_info.index as int, var_name@) is None,
        ensures
            param_lookup_from(paramsv, 0, var_name@) is None,
            local_lookup(bodyv, scope_placement_info.index as int, var_name@) is None,
        decreases params@.len() - k,
    {
        if k >= params.len() {
            break;
        }
        let param = &params[k];
        if str_eq(param.name.as_str(), var_name) {
            assert(param_lookup_from(paramsv, k as int, var_name@) == Some(param.type_));
            return Some(param.type_);
        }
        k = k + 1;
    }
    None
}

// ---- Laws of scope resolution ----

/// The nearest preceding same-named declaration wins: if statement `j`
/// declares `name`, and no statement after `j` up to the point of use `i`
/// declares it again, lookup yields the type declared at `j` — whatever
/// the parameters or any global of the same name say.
pub proof fn lemma_lookup_prefers_nearest_local(fun: FunV, i: int, j: int, name: Seq<char>)
    requires
        0 <= j <= i < fun.body.len(),
        stmt_decl_of(fun.body[j], name) is Some,
        forall|k: int| j < k <= i ==> stmt_decl_of(fun.body[k], name) is None,
    ensures
        scoped_lookup(fun, i, name) == stmt_decl_of(fun.body[j], name),
    decreases i,
{
    if i == j {
    } else {
        lemma_lookup_prefers_nearest_local(fun, i - 1, j, name);
    }
}

/// With no local declaration at or before `i`, lookup falls through to the
/// first matching parameter, in declaration order.
pub proof fn lemma_lookup_falls_to_params(fun: FunV, i: int, name: Seq<char>)
    requires
        0 <= i < fun.body.len(),
        forall|k: int| 0 <= k <= i ==> stmt_decl_of(fun.body[k], name) is None,
    ensures
        scoped_lookup(fun, i, name) == param_lookup_from(fun.params, 0, name),
    decreases i,
{
    if i > 0 {
        lemma_lookup_falls_to_params(fun, i - 1, name);
    }
}

/// With no local declaration and no matching parameter, local lookup
/// yields nothing at all; the caller then falls back to the globals.
pub proof fn lemma_lookup_misses(fun: FunV, i: int, name: Seq<char>)
    requires
        0 <= i < fun.body.len(),
        forall|k: int| 0 <= k <= i ==> stmt_decl_of(fun.body[k], name) is None,
        forall|p: int| 0 <= p < fun.params.len() ==> fun.params[p].name != name,
    ensures
        scoped_lookup(fun, i, name) is None,
{
    lemma_lookup_falls_to_params(fun, i, name);
    lemma_param_lookup_misses(fun.params, 0, name);
}

proof fn lemma_param_lookup_misses(params: Seq<VarV>, k: int, name: Seq<char>)
    requires
        forall|p: int| 0 <= p < params.len() ==> params[p].name != name,
    ensures
        param_lookup_from(params, k, name) is None,
    decreases params.len() - k,
{
    if 0 <= k < params.len() {
        lemma_param_lookup_misses(params, k + 1, name);
    }
}

} // verus!
