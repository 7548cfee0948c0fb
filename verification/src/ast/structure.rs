//! AST node types and their mathematical views. Nodes are plain data,
//! created once by the parser and never mutated afterwards.

use vstd::prelude::*;

use crate::data_type::DataType;
use crate::lexer::token::{Token, TokenV};

verus! {

// ---- Views: the mathematical images of the nodes ----

/// View of an expression.
pub enum ExprV {
    Op { operator: Seq<char>, left: Box<ExprV>, right: Box<ExprV> },
    Lit(TokenV),
    Call { name: Seq<char>, args: Seq<ExprV> },
    Ref { name: Seq<char> },
    Arr { elements: Seq<ExprV> },
    Obj { name: Seq<char>, fields: Seq<VarV> },
    Sub { name: Seq<char>, index: Box<ExprV> },
}

/// View of a variable declaration.
pub struct VarV {
    pub name: Seq<char>,
    pub typ: DataType,
    pub value: Option<ExprV>,
}

/// View of one statement of a function body.
pub enum StmtV {
    Decl(VarV),
    Expr(ExprV),
    Ret(ExprV),
}

/// View of a function definition.
pub struct FunV {
    pub name: Seq<char>,
    pub params: Seq<VarV>,
    pub ret: DataType,
    pub body: Seq<StmtV>,
}

/// View of a struct definition.
pub struct StructV {
    pub name: Seq<char>,
    pub fields: Seq<VarV>,
    pub methods: Seq<FunV>,
}

/// View of a struct member as parsed: a field or a method.
pub enum MemberV {
    Field(VarV),
    Method(FunV),
}

/// The fields among a member list, in declaration order.
pub open spec fn member_fields(ms: Seq<MemberV>) -> Seq<VarV>
    decreases ms.len(),
{
    if ms.len() == 0 {
        Seq::empty()
    } else {
        match ms[0] {
            MemberV::Field(v) => seq![v] + member_fields(ms.subrange(1, ms.len() as int)),
            MemberV::Method(_) => member_fields(ms.subrange(1, ms.len() as int)),
        }
    }
}

/// The methods among a member list, in declaration order.
pub open spec fn member_methods(ms: Seq<MemberV>) -> Seq<FunV>
    decreases ms.len(),
{
    if ms.len() == 0 {
        Seq::empty()
    } else {
        match ms[0] {
            MemberV::Field(_) => member_methods(ms.subrange(1, ms.len() as int)),
            MemberV::Method(f) => seq![f] + member_methods(ms.subrange(1, ms.len() as int)),
        }
    }
}

// ---- The nodes ----

/// A call expression: a function name and its ordered arguments.
#[derive(Debug)]
pub struct FunctionCall {
    pub name: String,
    pub args: Vec<Expression>,
}

/// A binary operator applied to two exclusively owned sub-expressions.
#[derive(Debug)]
pub struct OperatorUse {
    pub left: Box<Expression>,
    pub operator: String,
    pub right: Box<Expression>,
}

/// An array literal: an ordered sequence of element expressions.
#[derive(Debug)]
pub struct Array {
    pub elements: Vec<Expression>,
}

/// A variable declaration: name, declared kind and optional initializer.
/// The declared kind is the untyped kind only when a value is present.
#[derive(Debug)]
pub struct Variable {
    pub name: String,
    pub type_: DataType,
    pub value: Option<Expression>,
}

/// An unresolved name: it never owns the variable it names, only the
/// string key, resolved later by scope lookup.
#[derive(Debug)]
pub struct VarReference {
    pub name: String,
}

/// A subscript expression `name[index]`.
#[derive(Debug)]
pub struct Subscript {
    pub name: String,
    pub arg: Box<Expression>,
}

/// An object literal: a name (or `anonymous`) and its ordered fields.
#[derive(Debug)]
pub struct Object {
    pub name: String,
    pub fields: Vec<Variable>,
}

/// The closed variant set of expressions.
#[derive(Debug)]
pub enum Expression {
    OperatorUse(OperatorUse),
    Token(Token),
    FunctionCall(FunctionCall),
    VarReference(VarReference),
    Array(Array),
    Object(Object),
    Subscript(Subscript),
}

/// A statement allowed in a function body.
#[derive(Debug)]
pub enum ValidInFunctionBody {
    Variable(Variable),
    Expression(Expression),
    Return(Expression),
}

/// A function definition: name, ordered parameters, return type and
/// ordered body statements.
#[derive(Debug)]
pub struct FunctionDef {
    pub name: String,
    pub args: Vec<Variable>,
    pub return_type: DataType,
    pub body: Vec<ValidInFunctionBody>,
}

/// A struct definition: name, ordered fields and ordered methods.
#[derive(Debug)]
pub struct StructDef {
    pub name: String,
    pub fields: Vec<Variable>,
    pub methods: Vec<FunctionDef>,
}

/// A struct member as parsed: either a field or a method.
#[derive(Debug)]
pub enum StructScopeItem {
    Field(Variable),
    Method(FunctionDef),
}

// ---- Deep views ----

/// Image of a sequence of expressions, element by element.
pub open spec fn deep_exprs(s: Seq<Expression>) -> Seq<ExprV>
    decreases s,
{
    if s.len() == 0 {
        Seq::empty()
    } else {
        deep_exprs(s.subrange(0, s.len() - 1)).push(s[s.len() - 1].deep())
    }
}

/// Image of a sequence of declarations, element by element.
pub open spec fn deep_vars(s: Seq<Variable>) -> Seq<VarV>
    decreases s,
{
    if s.len() == 0 {
        Seq::empty()
    } else {
        deep_vars(s.subrange(0, s.len() - 1)).push(s[s.len() - 1].deep())
    }
}

/// Image of a sequence of statements, element by element.
pub open spec fn deep_stmts(s: Seq<ValidInFunctionBody>) -> Seq<StmtV>
    decreases s,
{
    if s.len() == 0 {
        Seq::empty()
    } else {
        deep_stmts(s.subrange(0, s.len() - 1)).push(s[s.len() - 1].deep())
    }
}

/// Image of a sequence of function definitions, element by element.
pub open spec fn deep_funs(s: Seq<FunctionDef>) -> Seq<FunV>
    decreases s,
{
    if s.len() == 0 {
        Seq::empty()
    } else {
        deep_funs(s.subrange(0, s.len() - 1)).push(s[s.len() - 1].deep())
    }
}

impl OperatorUse {
    /// The mathematical image of this operator application.
    pub open spec fn deep(self) -> ExprV {
        ExprV::Op {
            operator: self.operator@,
            left: Box::new(self.left.deep()),
            right: Box::new(self.right.deep()),
        }
    }
}

impl FunctionCall {
    /// The mathematical image of this call.
    pub open spec fn deep(self) -> ExprV {
        ExprV::Call { name: self.name@, args: deep_exprs(self.args@) }
    }
}

impl Array {
    /// The mathematical image of this array literal.
    pub open spec fn deep(self) -> ExprV {
        ExprV::Arr { elements: deep_exprs(self.elements@) }
    }
}

impl Object {
    /// The mathematical image of this object literal.
    pub open spec fn deep(self) -> ExprV {
        ExprV::Obj { name: self.name@, fields: deep_vars(self.fields@) }
    }
}

impl Subscript {
    /// The mathematical image of this subscript.
    pub open spec fn deep(self) -> ExprV {
        ExprV::Sub { name: self.name@, index: Box::new(self.arg.deep()) }
    }
}

impl StructScopeItem {
    /// The mathematical image of this member.
    pub open spec fn deep(self) -> MemberV {
        match self {
            StructScopeItem::Field(v) => MemberV::Field(v.deep()),
            StructScopeItem::Method(f) => MemberV::Method(f.deep()),
        }
    }
}

/// Image of a sequence of struct members, element by element.
pub open spec fn deep_members(s: Seq<StructScopeItem>) -> Seq<MemberV>
    decreases s,
{
    if s.len() == 0 {
        Seq::empty()
    } else {
        deep_members(s.subrange(0, s.len() - 1)).push(s[s.len() - 1].deep())
    }
}

pub proof fn lemma_deep_exprs_push(s: Seq<Expression>, e: Expression)
    ensures
        deep_exprs(s.push(e)) == deep_exprs(s).push(e.deep()),
{
    assert(s.push(e).subrange(0, s.len() as int) =~= s);
}

pub proof fn lemma_deep_vars_push(s: Seq<Variable>, v: Variable)
    ensures
        deep_vars(s.push(v)) == deep_vars(s).push(v.deep()),
{
    assert(s.push(v).subrange(0, s.len() as int) =~= s);
}

pub proof fn lemma_deep_stmts_push(s: Seq<ValidInFunctionBody>, st: ValidInFunctionBody)
    ensures
        deep_stmts(s.push(st)) == deep_stmts(s).push(st.deep()),
{
    assert(s.push(st).subrange(0, s.len() as int) =~= s);
}

pub proof fn lemma_deep_funs_push(s: Seq<FunctionDef>, f: FunctionDef)
    ensures
        deep_funs(s.push(f)) == deep_funs(s).push(f.deep()),
{
    assert(s.push(f).subrange(0, s.len() as int) =~= s);
}

pub proof fn lemma_deep_members(s: Seq<StructScopeItem>)
    ensures
        deep_members(s).len() == s.len(),
        forall|i: int| 0 <= i < s.len() ==> deep_members(s)[i] == s[i].deep(),
    decreases s.len(),
{
    if s.len() > 0 {
        lemma_deep_members(s.subrange(0, s.len() - 1));
    }
}

impl Expression {
    /// The mathematical image of this expression.
    pub open spec fn deep(self) -> ExprV
        decreases self,
    {
        match self {
            Expression::OperatorUse(o) => ExprV::Op {
                operator: o.operator@,
                left: Box::new(o.left.deep()),
                right: Box::new(o.right.deep()),
            },
            Expression::Token(t) => ExprV::Lit(t@),
            Expression::FunctionCall(c) => ExprV::Call { name: c.name@, args: deep_exprs(c.args@) },
            Expression::VarReference(r) => ExprV::Ref { name: r.name@ },
            Expression::Array(a) => ExprV::Arr { elements: deep_exprs(a.elements@) },
            Expression::Object(o) => ExprV::Obj { name: o.name@, fields: deep_vars(o.fields@) },
            Expression::Subscript(s) => ExprV::Sub { name: s.name@, index: Box::new(s.arg.deep()) },
        }
    }
}

impl Variable {
    /// The mathematical image of this declaration.
    pub open spec fn deep(self) -> VarV
        decreases self,
    {
        VarV {
            name: self.name@,
            typ: self.type_,
            value: match self.value {
                Some(e) => Some(e.deep()),
                None => None,
            },
        }
    }
}

impl ValidInFunctionBody {
    /// The mathematical image of this statement.
    pub open spec fn deep(self) -> StmtV
        decreases self,
    {
        match self {
            ValidInFunctionBody::Variable(v) => StmtV::Decl(v.deep()),
            ValidInFunctionBody::Expression(e) => StmtV::Expr(e.deep()),
            ValidInFunctionBody::Return(e) => StmtV::Ret(e.deep()),
        }
    }
}

impl FunctionDef {
    /// The mathematical image of this definition.
    pub open spec fn deep(self) -> FunV
        decreases self,
    {
        FunV {
            name: self.name@,
            params: deep_vars(self.args@),
            ret: self.return_type,
            body: deep_stmts(self.body@),
        }
    }
}

impl StructDef {
    /// The mathematical image of this definition.
    pub open spec fn deep(self) -> StructV
        decreases self,
    {
        StructV {
            name: self.name@,
            fields: deep_vars(self.fields@),
            methods: deep_funs(self.methods@),
        }
    }
}

// ---- Facts about the deep views ----

pub proof fn lemma_deep_exprs(s: Seq<Expression>)
    ensures
        deep_exprs(s).len() == s.len(),
        forall|i: int| 0 <= i < s.len() ==> deep_exprs(s)[i] == s[i].deep(),
    decreases s.len(),
{
    if s.len() > 0 {
        lemma_deep_exprs(s.subrange(0, s.len() - 1));
    }
}

pub proof fn lemma_deep_vars(s: Seq<Variable>)
    ensures
        deep_vars(s).len() == s.len(),
        forall|i: int| 0 <= i < s.len() ==> deep_vars(s)[i] == s[i].deep(),
    decreases s.len(),
{
    if s.len() > 0 {
        lemma_deep_vars(s.subrange(0, s.len() - 1));
    }
}

pub proof fn lemma_deep_stmts(s: Seq<ValidInFunctionBody>)
    ensures
        deep_stmts(s).len() == s.len(),
        forall|i: int| 0 <= i < s.len() ==> deep_stmts(s)[i] == s[i].deep(),
    decreases s.len(),
{
    if s.len() > 0 {
        lemma_deep_stmts(s.subrange(0, s.len() - 1));
    }
}

pub proof fn lemma_deep_funs(s: Seq<FunctionDef>)
    ensures
        deep_funs(s).len() == s.len(),
        forall|i: int| 0 <= i < s.len() ==> deep_funs(s)[i] == s[i].deep(),
    decreases s.len(),
{
    if s.len() > 0 {
        lemma_deep_funs(s.subrange(0, s.len() - 1));
    }
}

} // verus!
