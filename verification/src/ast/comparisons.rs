//! Structural comparison of AST values for test diagnostics. Two values
//! compare only when they are of the same kind; rather than stopping at
//! the first difference, a comparison collects one error per diverging
//! field, and one per diverging element of a list.

use vstd::prelude::*;
use vstd::string::*;

use crate::ast::structure::{
    deep_exprs, deep_stmts, deep_vars, lemma_deep_exprs, lemma_deep_stmts, lemma_deep_vars,
    Expression, ExprV, FunctionCall, FunctionDef, FunV, OperatorUse, StmtV, ValidInFunctionBody,
    Variable, VarV,
};
use crate::data_type::DataType;
use crate::lexer::token::{Token, TokenType, TokenV};
use crate::text::str_eq;

verus! {

/// One field-level divergence found by a comparison.
#[derive(Debug, PartialEq)]
pub enum ComparisonError {
    MismatchedTypes,
    MismatchedValues(String),
    MismatchedLengths(usize, usize),
    MismatchedVariant,
    Custom(String),
}

// ---- The comparison relation, on views ----

/// Two tokens match when kind and text agree.
pub open spec fn token_like(a: TokenV, b: TokenV) -> bool {
    a.kind == b.kind && a.text == b.text
}

/// Structural likeness of two expressions: only values of the same kind
/// ever match, and only operator uses, literal tokens, calls and
/// references have a rule — composite literals never match, not even two
/// equal ones.
pub open spec fn expr_like(a: ExprV, b: ExprV) -> bool
    decreases a,
{
    match (a, b) {
        (
            ExprV::Op { operator: oa, left: la, right: ra },
            ExprV::Op { operator: ob, left: lb, right: rb },
        ) => oa == ob && expr_like(*la, *lb) && expr_like(*ra, *rb),
        (ExprV::Lit(ta), ExprV::Lit(tb)) => token_like(ta, tb),
        (
            ExprV::Call { name: na, args: aa },
            ExprV::Call { name: nb, args: ab },
        ) => na == nb && exprs_like(aa, ab),
        (ExprV::Ref { name: na }, ExprV::Ref { name: nb }) => na == nb,
        _ => false,
    }
}

/// The two expressions are of kinds the comparison can relate at all:
/// the same comparable kind on both sides.
pub open spec fn expr_kinds_match(a: ExprV, b: ExprV) -> bool {
    match (a, b) {
        (ExprV::Op { .. }, ExprV::Op { .. }) => true,
        (ExprV::Lit(_), ExprV::Lit(_)) => true,
        (ExprV::Call { .. }, ExprV::Call { .. }) => true,
        (ExprV::Ref { .. }, ExprV::Ref { .. }) => true,
        _ => false,
    }
}

/// Pointwise likeness of two expression sequences.
pub open spec fn exprs_like(a: Seq<ExprV>, b: Seq<ExprV>) -> bool
    decreases a,
{
    a.len() == b.len() && forall|i: int| 0 <= i < a.len() ==> expr_like(#[trigger] a[i], b[i])
}

/// Likeness of two declarations: name, declared kind, and values that are
/// both absent or both present and alike.
pub open spec fn var_like(a: VarV, b: VarV) -> bool
    decreases a,
{
    &&& a.name == b.name
    &&& a.typ == b.typ
    &&& match (a.value, b.value) {
        (Some(x), Some(y)) => expr_like(x, y),
        (None, None) => true,
        _ => false,
    }
}

/// Pointwise likeness of two declaration sequences.
pub open spec fn vars_like(a: Seq<VarV>, b: Seq<VarV>) -> bool
    decreases a,
{
    a.len() == b.len() && forall|i: int| 0 <= i < a.len() ==> var_like(#[trigger] a[i], b[i])
}

/// Likeness of two body statements: same variant, alike payload.
pub open spec fn stmt_like(a: StmtV, b: StmtV) -> bool
    decreases a,
{
    match (a, b) {
        (StmtV::Decl(x), StmtV::Decl(y)) => var_like(x, y),
        (StmtV::Expr(x), StmtV::Expr(y)) => expr_like(x, y),
        (StmtV::Ret(x), StmtV::Ret(y)) => expr_like(x, y),
        _ => false,
    }
}

/// The two statements are of the same variant.
pub open spec fn stmt_kinds_match(a: StmtV, b: StmtV) -> bool {
    match (a, b) {
        (StmtV::Decl(_), StmtV::Decl(_)) => true,
        (StmtV::Expr(_), StmtV::Expr(_)) => true,
        (StmtV::Ret(_), StmtV::Ret(_)) => true,
        _ => false,
    }
}

/// Pointwise likeness of two statement sequences.
pub open spec fn stmts_like(a: Seq<StmtV>, b: Seq<StmtV>) -> bool
    decreases a,
{
    a.len() == b.len() && forall|i: int| 0 <= i < a.len() ==> stmt_like(#[trigger] a[i], b[i])
}

/// Likeness of two function definitions: name, return type, parameters
/// and body.
pub open spec fn fndef_like(a: FunV, b: FunV) -> bool {
    a.name == b.name && a.ret == b.ret && vars_like(a.params, b.params) && stmts_like(
        a.body,
        b.body,
    )
}

// ---- How many errors a list comparison reports ----

/// Number of positions below `k` at which the two sequences diverge.
pub open spec fn unlike_exprs_below(a: Seq<ExprV>, b: Seq<ExprV>, k: int) -> int
    decreases k,
{
    if k <= 0 {
        0
    } else {
        unlike_exprs_below(a, b, k - 1) + if expr_like(a[k - 1], b[k - 1]) {
            0int
        } else {
            1int
        }
    }
}

/// Number of positions below `k` at which the two sequences diverge.
pub open spec fn unlike_vars_below(a: Seq<VarV>, b: Seq<VarV>, k: int) -> int
    decreases k,
{
    if k <= 0 {
        0
    } else {
        unlike_vars_below(a, b, k - 1) + if var_like(a[k - 1], b[k - 1]) {
            0int
        } else {
            1int
        }
    }
}

/// Number of positions below `k` at which the two sequences diverge.
pub open spec fn unlike_stmts_below(a: Seq<StmtV>, b: Seq<StmtV>, k: int) -> int
    decreases k,
{
    if k <= 0 {
        0
    } else {
        unlike_stmts_below(a, b, k - 1) + if stmt_like(a[k - 1], b[k - 1]) {
            0int
        } else {
            1int
        }
    }
}

/// How many errors a comparison of two lists reports: one for a length
/// mismatch, else one per diverging index.
pub open spec fn expr_list_error_count(a: Seq<ExprV>, b: Seq<ExprV>) -> int {
    if a.len() != b.len() {
        1
    } else {
        unlike_exprs_below(a, b, a.len() as int)
    }
}

/// How many errors a comparison of two lists reports: one for a length
/// mismatch, else one per diverging index.
pub open spec fn var_list_error_count(a: Seq<VarV>, b: Seq<VarV>) -> int {
    if a.len() != b.len() {
        1
    } else {
        unlike_vars_below(a, b, a.len() as int)
    }
}

/// How many errors a comparison of two lists reports: one for a length
/// mismatch, else one per diverging index.
pub open spec fn stmt_list_error_count(a: Seq<StmtV>, b: Seq<StmtV>) -> int {
    if a.len() != b.len() {
        1
    } else {
        unlike_stmts_below(a, b, a.len() as int)
    }
}

proof fn lemma_unlike_exprs_zero(a: Seq<ExprV>, b: Seq<ExprV>, k: int)
    requires
        0 <= k,
    ensures
        (unlike_exprs_below(a, b, k) == 0) <==> (forall|j: int|
            0 <= j < k ==> expr_like(#[trigger] a[j], b[j])),
        unlike_exprs_below(a, b, k) >= 0,
    decreases k,
{
    if k > 0 {
        lemma_unlike_exprs_zero(a, b, k - 1);
    }
}

proof fn lemma_unlike_vars_zero(a: Seq<VarV>, b: Seq<VarV>, k: int)
    requires
        0 <= k,
    ensures
        (unlike_vars_below(a, b, k) == 0) <==> (forall|j: int|
            0 <= j < k ==> var_like(#[trigger] a[j], b[j])),
        unlike_vars_below(a, b, k) >= 0,
    decreases k,
{
    if k > 0 {
        lemma_unlike_vars_zero(a, b, k - 1);
    }
}

proof fn lemma_unlike_stmts_zero(a: Seq<StmtV>, b: Seq<StmtV>, k: int)
    requires
        0 <= k,
    ensures
        (unlike_stmts_below(a, b, k) == 0) <==> (forall|j: int|
            0 <= j < k ==> stmt_like(#[trigger] a[j], b[j])),
        unlike_stmts_below(a, b, k) >= 0,
    decreases k,
{
    if k > 0 {
        lemma_unlike_stmts_zero(a, b, k - 1);
    }
}

// ---- Verified comparison cores ----

/// Decides `expr_like` on the nodes themselves.
pub fn expr_eq(a: &Expression, b: &Expression) -> (r: bool)
    ensures
        r == expr_like(a.deep(), b.deep()),
    decreases *a,
{
    match (a, b) {
        (Expression::OperatorUse(x), Expression::OperatorUse(y)) => str_eq(
            x.operator.as_str(),
            y.operator.as_str(),
        ) && expr_eq(&*x.left, &*y.left) && expr_eq(&*x.right, &*y.right),
        (Expression::Token(ta), Expression::Token(tb)) => ta.type_ == tb.type_ && str_eq(
            ta.value.as_str(),
            tb.value.as_str(),
        ),
        (Expression::FunctionCall(x), Expression::FunctionCall(y)) => str_eq(
            x.name.as_str(),
            y.name.as_str(),
        ) && exprs_eq(&x.args, &y.args),
        (Expression::VarReference(x), Expression::VarReference(y)) => str_eq(
            x.name.as_str(),
            y.name.as_str(),
        ),
        _ => false,
    }
}

/// Decides `exprs_like` on two node vectors.
fn exprs_eq(a: &Vec<Expression>, b: &Vec<Expression>) -> (r: bool)
    ensures
        r == exprs_like(deep_exprs(a@), deep_exprs(b@)),
    decreases a@,
{
    proof {
        lemma_deep_exprs(a@);
        lemma_deep_exprs(b@);
    }
    if a.len() != b.len() {
        return false;
    }
    let ghost av = deep_exprs(a@);
    let ghost bv = deep_exprs(b@);
    let mut i: usize = 0;
    loop
        invariant
            av == deep_exprs(a@),
            bv == deep_exprs(b@),
            av.len() == a@.len(),
            bv.len() == b@.len(),
            a@.len() == b@.len(),
            forall|k: int| 0 <= k < av.len() ==> av[k] == a@[k].deep(),
            forall|k: int| 0 <= k < bv.len() ==> bv[k] == b@[k].deep(),
            i <= a@.len(),
            forall|k: int| 0 <= k < i ==> expr_like(#[trigger] av[k], bv[k]),
        ensures
            forall|k: int| 0 <= k < av.len() ==> expr_like(#[trigger] av[k], bv[k]),
        decreases a@.len() - i,
    {
        if i >= a.len() {
            break;
        }
        if !expr_eq(&a[i], &b[i]) {
            proof {
                assert(!expr_like(av[i as int], bv[i as int]));
            }
            return false;
        }
        i = i + 1;
    }
    true
}

/// Decides `var_like` on two declarations.
pub fn var_eq(a: &Variable, b: &Variable) -> (r: bool)
    ensures
        r == var_like(a.deep(), b.deep()),
    decreases *a,
{
    if !str_eq(a.name.as_str(), b.name.as_str()) {
        return false;
    }
    if a.type_ != b.type_ {
        return false;
    }
    match (&a.value, &b.value) {
        (Some(x), Some(y)) => expr_eq(x, y),
        (None, None) => true,
        _ => false,
    }
}

/// Decides `stmt_like` on two body statements.
pub fn stmt_eq(a: &ValidInFunctionBody, b: &ValidInFunctionBody) -> (r: bool)
    ensures
        r == stmt_like(a.deep(), b.deep()),
    decreases *a,
{
    match (a, b) {
        (ValidInFunctionBody::Variable(x), ValidInFunctionBody::Variable(y)) => var_eq(x, y),
        (ValidInFunctionBody::Expression(x), ValidInFunctionBody::Expression(y)) => expr_eq(x, y),
        (ValidInFunctionBody::Return(x), ValidInFunctionBody::Return(y)) => expr_eq(x, y),
        _ => false,
    }
}

// ---- Error-collecting list comparisons ----

/// Compares two expression lists, reporting a length mismatch as one
/// error and otherwise one error per diverging index.
fn compare_expr_lists(a: &Vec<Expression>, b: &Vec<Expression>) -> (r: Result<
    (),
    Vec<ComparisonError>,
>)
    ensures
        r is Ok <==> exprs_like(deep_exprs(a@), deep_exprs(b@)),
        r matches Err(errs) ==> errs@.len() == expr_list_error_count(
            deep_exprs(a@),
            deep_exprs(b@),
        ) && errs@.len() >= 1,
        a@.len() != b@.len() ==> (r matches Err(errs) && errs@[0]
            == ComparisonError::MismatchedLengths(a@.len() as usize, b@.len() as usize)),
{
    proof {
        lemma_deep_exprs(a@);
        lemma_deep_exprs(b@);
    }
    if a.len() != b.len() {
        return Err(vec![ComparisonError::MismatchedLengths(a.len(), b.len())]);
    }
    let ghost av = deep_exprs(a@);
    let ghost bv = deep_exprs(b@);
    let mut errors: Vec<ComparisonError> = Vec::new();
    let mut i: usize = 0;
    loop
        invariant
            av == deep_exprs(a@),
            bv == deep_exprs(b@),
            av.len() == a@.len(),
            bv.len() == b@.len(),
            a@.len() == b@.len(),
            forall|k: int| 0 <= k < av.len() ==> av[k] == a@[k].deep(),
            forall|k: int| 0 <= k < bv.len() ==> bv[k] == b@[k].deep(),
            i <= a@.len(),
            errors@.len() == unlike_exprs_below(av, bv, i as int),
        ensures
            errors@.len() == unlike_exprs_below(av, bv, av.len() as int),
        decreases a@.len() - i,
    {
        if i >= a.len() {
            break;
        }
        if !expr_eq(&a[i], &b[i]) {
            errors.push(ComparisonError::Custom(String::from_str("elements differ")));
        }
        i = i + 1;
    }
    proof {
        lemma_unlike_exprs_zero(av, bv, av.len() as int);
    }
    if errors.len() == 0 {
        Ok(())
    } else {
        Err(errors)
    }
}

/// Compares two declaration lists, reporting a length mismatch as one
/// error and otherwise one error per diverging index.
fn compare_var_lists(a: &Vec<Variable>, b: &Vec<Variable>) -> (r: Result<
    (),
    Vec<ComparisonError>,
>)
    ensures
        r is Ok <==> vars_like(deep_vars(a@), deep_vars(b@)),
        r matches Err(errs) ==> errs@.len() == var_list_error_count(deep_vars(a@), deep_vars(b@))
            && errs@.len() >= 1,
        a@.len() != b@.len() ==> (r matches Err(errs) && errs@[0]
            == ComparisonError::MismatchedLengths(a@.len() as usize, b@.len() as usize)),
{
    proof {
        lemma_deep_vars(a@);
        lemma_deep_vars(b@);
    }
    if a.len() != b.len() {
        return Err(vec![ComparisonError::MismatchedLengths(a.len(), b.len())]);
    }
    let ghost av = deep_vars(a@);
    let ghost bv = deep_vars(b@);
    let mut errors: Vec<ComparisonError> = Vec::new();
    let mut i: usize = 0;
    loop
        invariant
            av == deep_vars(a@),
            bv == deep_vars(b@),
            av.len() == a@.len(),
            bv.len() == b@.len(),
            a@.len() == b@.len(),
            forall|k: int| 0 <= k < av.len() ==> av[k] == a@[k].deep(),
            forall|k: int| 0 <= k < bv.len() ==> bv[k] == b@[k].deep(),
            i <= a@.len(),
            errors@.len() == unlike_vars_below(av, bv, i as int),
        ensures
            errors@.len() == unlike_vars_below(av, bv, av.len() as int),
        decreases a@.len() - i,
    {
        if i >= a.len() {
            break;
        }
        if !var_eq(&a[i], &b[i]) {
            errors.push(ComparisonError::Custom(String::from_str("elements differ")));
        }
        i = i + 1;
    }
    proof {
        lemma_unlike_vars_zero(av, bv, av.len() as int);
    }
    if errors.len() == 0 {
        Ok(())
    } else {
        Err(errors)
    }
}

/// Compares two statement lists, reporting a length mismatch as one
/// error and otherwise one error per diverging index.
fn compare_stmt_lists(a: &Vec<ValidInFunctionBody>, b: &Vec<ValidInFunctionBody>) -> (r: Result<
    (),
    Vec<ComparisonError>,
>)
    ensures
        r is Ok <==> stmts_like(deep_stmts(a@), deep_stmts(b@)),
        r matches Err(errs) ==> errs@.len() == stmt_list_error_count(
            deep_stmts(a@),
            deep_stmts(b@),
        ) && errs@.len() >= 1,
        a@.len() != b@.len() ==> (r matches Err(errs) && errs@[0]
            == ComparisonError::MismatchedLengths(a@.len() as usize, b@.len() as usize)),
{
    proof {
        lemma_deep_stmts(a@);
        lemma_deep_stmts(b@);
    }
    if a.len() != b.len() {
        return Err(vec![ComparisonError::MismatchedLengths(a.len(), b.len())]);
    }
    let ghost av = deep_stmts(a@);
    let ghost bv = deep_stmts(b@);
    let mut errors: Vec<ComparisonError> = Vec::new();
    let mut i: usize = 0;
    loop
        invariant
            av == deep_stmts(a@),
            bv == deep_stmts(b@),
            av.len() == a@.len(),
            bv.len() == b@.len(),
            a@.len() == b@.len(),
            forall|k: int| 0 <= k < av.len() ==> av[k] == a@[k].deep(),
            forall|k: int| 0 <= k < bv.len() ==> bv[k] == b@[k].deep(),
            i <= a@.len(),
            errors@.len() == unlike_stmts_below(av, bv, i as int),
        ensures
            errors@.len() == unlike_stmts_below(av, bv, av.len() as int),
        decreases a@.len() - i,
    {
        if i >= a.len() {
            break;
        }
        if !stmt_eq(&a[i], &b[i]) {
            errors.push(ComparisonError::Custom(String::from_str("elements differ")));
        }
        i = i + 1;
    }
    proof {
        lemma_unlike_stmts_zero(av, bv, av.len() as int);
    }
    if errors.len() == 0 {
        Ok(())
    } else {
        Err(errors)
    }
}

// ---- The comparison trait ----

/// AST values that a test can compare structurally, collecting every
/// field-level divergence rather than stopping at the first.
pub trait AstComparable {
    /// The likeness this comparison decides.
    spec fn like(&self, other: &Self) -> bool;

    /// Compares two values: empty on a match, else one error per
    /// diverging field.
    fn compare(&self, other: &Self) -> (r: Result<(), Vec<ComparisonError>>)
        ensures
            r is Ok <==> self.like(other),
            r matches Err(errs) ==> errs@.len() >= 1,
    ;
}

impl AstComparable for String {
    open spec fn like(&self, other: &Self) -> bool {
        self@ == other@
    }

    fn compare(&self, other: &Self) -> (r: Result<(), Vec<ComparisonError>>) {
        if str_eq(self.as_str(), other.as_str()) {
            Ok(())
        } else {
            Err(vec![ComparisonError::MismatchedValues(other.clone())])
        }
    }
}

impl AstComparable for DataType {
    open spec fn like(&self, other: &Self) -> bool {
        self == other
    }

    fn compare(&self, other: &Self) -> (r: Result<(), Vec<ComparisonError>>) {
        if *self == *other {
            Ok(())
        } else {
            Err(vec![ComparisonError::MismatchedValues(String::from_str("type kinds differ"))])
        }
    }
}

impl AstComparable for TokenType {
    open spec fn like(&self, other: &Self) -> bool {
        self == other
    }

    fn compare(&self, other: &Self) -> (r: Result<(), Vec<ComparisonError>>) {
        if *self == *other {
            Ok(())
        } else {
            Err(vec![ComparisonError::MismatchedValues(String::from_str("token kinds differ"))])
        }
    }
}

impl AstComparable for Token {
    open spec fn like(&self, other: &Self) -> bool {
        token_like(self@, other@)
    }

    fn compare(&self, other: &Self) -> (r: Result<(), Vec<ComparisonError>>)
        ensures
            r matches Err(errs) ==> errs@.len() == (if self@.kind != other@.kind {
                1int
            } else {
                0int
            }) + (if self@.text != other@.text {
                1int
            } else {
                0int
            }),
    {
        let mut errors: Vec<ComparisonError> = Vec::new();
        if self.type_ != other.type_ {
            errors.push(ComparisonError::MismatchedValues(String::from_str(
                "token kinds differ",
            )));
        }
        if !str_eq(self.value.as_str(), other.value.as_str()) {
            errors.push(ComparisonError::MismatchedValues(String::from_str(
                "token texts differ",
            )));
        }
        if errors.len() == 0 {
            Ok(())
        } else {
            Err(errors)
        }
    }
}

impl AstComparable for Expression {
    open spec fn like(&self, other: &Self) -> bool {
        expr_like(self.deep(), other.deep())
    }

    /// Two expressions of different kinds — a literal token against a
    /// variable reference included — report a variant mismatch, as do
    /// composite literals, which have no comparison rule at all.
    fn compare(&self, other: &Self) -> (r: Result<(), Vec<ComparisonError>>)
        ensures
            !expr_kinds_match(self.deep(), other.deep()) ==> (r matches Err(errs) && errs@
                =~= seq![ComparisonError::MismatchedVariant]),
    {
        if expr_eq(self, other) {
            Ok(())
        } else {
            let kinds_match = match (self, other) {
                (Expression::OperatorUse(_), Expression::OperatorUse(_)) => true,
                (Expression::Token(_), Expression::Token(_)) => true,
                (Expression::FunctionCall(_), Expression::FunctionCall(_)) => true,
                (Expression::VarReference(_), Expression::VarReference(_)) => true,
                _ => false,
            };
            if kinds_match {
                Err(vec![ComparisonError::MismatchedValues(String::from_str(
                    "expressions differ",
                ))])
            } else {
                Err(vec![ComparisonError::MismatchedVariant])
            }
        }
    }
}

impl AstComparable for OperatorUse {
    open spec fn like(&self, other: &Self) -> bool {
        expr_like(self.deep(), other.deep())
    }

    fn compare(&self, other: &Self) -> (r: Result<(), Vec<ComparisonError>>)
        ensures
            r matches Err(errs) ==> errs@.len() == (if self.operator@ != other.operator@ {
                1int
            } else {
                0int
            }) + (if !expr_like(self.left.deep(), other.left.deep()) {
                1int
            } else {
                0int
            }) + (if !expr_like(self.right.deep(), other.right.deep()) {
                1int
            } else {
                0int
            }),
    {
        let mut errors: Vec<ComparisonError> = Vec::new();
        if !str_eq(self.operator.as_str(), other.operator.as_str()) {
            errors.push(ComparisonError::MismatchedValues(String::from_str("operators differ")));
        }
        if !expr_eq(&*self.left, &*other.left) {
            errors.push(ComparisonError::Custom(String::from_str("left operands differ")));
        }
        if !expr_eq(&*self.right, &*other.right) {
            errors.push(ComparisonError::Custom(String::from_str("right operands differ")));
        }
        if errors.len() == 0 {
            Ok(())
        } else {
            Err(errors)
        }
    }
}

impl AstComparable for FunctionCall {
    open spec fn like(&self, other: &Self) -> bool {
        expr_like(self.deep(), other.deep())
    }

    fn compare(&self, other: &Self) -> (r: Result<(), Vec<ComparisonError>>)
        ensures
            r matches Err(errs) ==> errs@.len() == (if self.name@ != other.name@ {
                1int
            } else {
                0int
            }) + (if !exprs_like(deep_exprs(self.args@), deep_exprs(other.args@)) {
                expr_list_error_count(deep_exprs(self.args@), deep_exprs(other.args@))
            } else {
                0int
            }),
    {
        let mut errors: Vec<ComparisonError> = Vec::new();
        if !str_eq(self.name.as_str(), other.name.as_str()) {
            errors.push(ComparisonError::MismatchedValues(String::from_str(
                "call names differ",
            )));
        }
        match compare_expr_lists(&self.args, &other.args) {
            Ok(_) => {},
            Err(mut arg_errors) => {
                errors.append(&mut arg_errors);
            },
        }
        proof {
            assert(self.deep() == (ExprV::Call { name: self.name@, args: deep_exprs(self.args@) }));
            assert(other.deep() == (ExprV::Call {
                name: other.name@,
                args: deep_exprs(other.args@),
            }));
        }
        if errors.len() == 0 {
            Ok(())
        } else {
            Err(errors)
        }
    }
}

impl AstComparable for Variable {
    open spec fn like(&self, other: &Self) -> bool {
        var_like(self.deep(), other.deep())
    }

    fn compare(&self, other: &Self) -> (r: Result<(), Vec<ComparisonError>>)
        ensures
            r matches Err(errs) ==> errs@.len() == (if self.name@ != other.name@ {
                1int
            } else {
                0int
            }) + (if self.type_ != other.type_ {
                1int
            } else {
                0int
            }) + (if !(match (self.deep().value, other.deep().value) {
                (Some(x), Some(y)) => expr_like(x, y),
                (None, None) => true,
                _ => false,
            }) {
                1int
            } else {
                0int
            }),
    {
        let mut errors: Vec<ComparisonError> = Vec::new();
        if !str_eq(self.name.as_str(), other.name.as_str()) {
            errors.push(ComparisonError::MismatchedValues(String::from_str(
                "declaration names differ",
            )));
        }
        if self.type_ != other.type_ {
            errors.push(ComparisonError::MismatchedValues(String::from_str(
                "declared kinds differ",
            )));
        }
        let values_match = match (&self.value, &other.value) {
            (Some(x), Some(y)) => expr_eq(x, y),
            (None, None) => true,
            _ => false,
        };
        if !values_match {
            errors.push(ComparisonError::Custom(String::from_str("declared values differ")));
        }
        proof {
            assert(self.deep().name == self.name@ && self.deep().typ == self.type_);
            assert(other.deep().name == other.name@ && other.deep().typ == other.type_);
            assert(match self.value {
                Some(e) => self.deep().value == Some(e.deep()),
                None => self.deep().value is None,
            });
            assert(match other.value {
                Some(e) => other.deep().value == Some(e.deep()),
                None => other.deep().value is None,
            });
        }
        if errors.len() == 0 {
            Ok(())
        } else {
            Err(errors)
        }
    }
}

impl AstComparable for ValidInFunctionBody {
    open spec fn like(&self, other: &Self) -> bool {
        stmt_like(self.deep(), other.deep())
    }

    /// Two statements of different variants report a variant mismatch.
    fn compare(&self, other: &Self) -> (r: Result<(), Vec<ComparisonError>>)
        ensures
            !stmt_kinds_match(self.deep(), other.deep()) ==> (r matches Err(errs) && errs@
                =~= seq![ComparisonError::MismatchedVariant]),
    {
        if stmt_eq(self, other) {
            Ok(())
        } else {
            let kinds_match = match (self, other) {
                (ValidInFunctionBody::Variable(_), ValidInFunctionBody::Variable(_)) => true,
                (ValidInFunctionBody::Expression(_), ValidInFunctionBody::Expression(_)) => true,
                (ValidInFunctionBody::Return(_), ValidInFunctionBody::Return(_)) => true,
                _ => false,
            };
            if kinds_match {
                Err(vec![ComparisonError::MismatchedValues(String::from_str(
                    "statements differ",
                ))])
            } else {
                Err(vec![ComparisonError::MismatchedVariant])
            }
        }
    }
}

impl AstComparable for FunctionDef {
    open spec fn like(&self, other: &Self) -> bool {
        fndef_like(self.deep(), other.deep())
    }

    /// Every diverging field is reported: a differing name and a
    /// differing return type yield two errors, and diverging parameter or
    /// body lists one error per diverging element.
    fn compare(&self, other: &Self) -> (r: Result<(), Vec<ComparisonError>>)
        ensures
            r matches Err(errs) ==> errs@.len() == (if self.name@ != other.name@ {
                1int
            } else {
                0int
            }) + (if self.return_type != other.return_type {
                1int
            } else {
                0int
            }) + (if !vars_like(deep_vars(self.args@), deep_vars(other.args@)) {
                var_list_error_count(deep_vars(self.args@), deep_vars(other.args@))
            } else {
                0int
            }) + (if !stmts_like(deep_stmts(self.body@), deep_stmts(other.body@)) {
                stmt_list_error_count(deep_stmts(self.body@), deep_stmts(other.body@))
            } else {
                0int
            }),
    {
        let mut errors: Vec<ComparisonError> = Vec::new();
        if !str_eq(self.name.as_str(), other.name.as_str()) {
            errors.push(ComparisonError::MismatchedValues(String::from_str(
                "function names differ",
            )));
        }
        if self.return_type != other.return_type {
            errors.push(ComparisonError::MismatchedValues(String::from_str(
                "return types differ",
            )));
        }
        match compare_var_lists(&self.args, &other.args) {
            Ok(_) => {},
            Err(mut param_errors) => {
                errors.append(&mut param_errors);
            },
        }
        match compare_stmt_lists(&self.body, &other.body) {
            Ok(_) => {},
            Err(mut body_errors) => {
                errors.append(&mut body_errors);
            },
        }
        proof {
            assert(self.deep() == (FunV {
                name: self.name@,
                params: deep_vars(self.args@),
                ret: self.return_type,
                body: deep_stmts(self.body@),
            }));
            assert(other.deep() == (FunV {
                name: other.name@,
                params: deep_vars(other.args@),
                ret: other.return_type,
                body: deep_stmts(other.body@),
            }));
        }
        if errors.len() == 0 {
            Ok(())
        } else {
            Err(errors)
        }
    }
}

} // verus!
