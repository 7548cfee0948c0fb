//! Recursive-descent parser with precedence climbing. The parser owns the
//! tokenizer, consumes its stream, and builds AST nodes; every grammar
//! violation is a fatal `SyntaxError` carrying the offending range.

use vstd::prelude::*;
use vstd::string::*;

use crate::ast::structure::{
    deep_exprs, deep_members, deep_stmts, deep_vars, deep_funs, lemma_deep_exprs_push,
    lemma_deep_funs_push, lemma_deep_members, lemma_deep_stmts_push, lemma_deep_vars_push,
    member_fields, member_methods, Array, Expression, ExprV, FunctionCall, FunctionDef, FunV,
    MemberV, Object, OperatorUse, StmtV, StructDef, StructScopeItem, StructV, Subscript,
    ValidInFunctionBody, VarReference, Variable, VarV,
};
use crate::data_type::{data_type_of_name, type_from, DataType};
use crate::diagnostics::SyntaxError;
use crate::lexer::token::TokenType;
use crate::lexer::tokenizer::{
    blank_p, lemma_lines_end, lemma_token_bounds, lines_end, run_end, token_at, token_end,
    token_is_keyword, token_is_punct, Tokenizer,
};
use crate::text::str_eq;

verus! {

/// The fixed precedence table: a higher number binds tighter.
pub open spec fn prec_of(t: Seq<char>) -> Option<u32> {
    if t == "="@ {
        Some(1u32)
    } else if t == "+"@ || t == "-"@ || t == "+="@ || t == "-="@ {
        Some(2u32)
    } else if t == "*"@ || t == "/"@ || t == "*="@ || t == "/="@ {
        Some(3u32)
    } else if t == "|"@ {
        Some(4u32)
    } else if t == "=="@ || t == "!="@ {
        Some(5u32)
    } else if t == ">="@ || t == "<="@ || t == ">"@ || t == "<"@ {
        Some(6u32)
    } else if t == "&&"@ {
        Some(7u32)
    } else if t == "||"@ {
        Some(8u32)
    } else {
        None
    }
}

/// Table precedence of a binary operator's text, if it has one.
pub fn precedence_of(op: &str) -> (r: Option<u32>)
    ensures
        r == prec_of(op@),
{
    if str_eq(op, "=") {
        Some(1u32)
    } else if str_eq(op, "+") || str_eq(op, "-") || str_eq(op, "+=") || str_eq(op, "-=") {
        Some(2u32)
    } else if str_eq(op, "*") || str_eq(op, "/") || str_eq(op, "*=") || str_eq(op, "/=") {
        Some(3u32)
    } else if str_eq(op, "|") {
        Some(4u32)
    } else if str_eq(op, "==") || str_eq(op, "!=") {
        Some(5u32)
    } else if str_eq(op, ">=") || str_eq(op, "<=") || str_eq(op, ">") || str_eq(op, "<") {
        Some(6u32)
    } else if str_eq(op, "&&") {
        Some(7u32)
    } else if str_eq(op, "||") {
        Some(8u32)
    } else {
        None
    }
}

/// The token at `i` is an operator that binds tighter than `min`.
pub open spec fn op_binds(s: Seq<char>, i: int, min: u32) -> bool {
    token_at(s, i) matches Some(tv) && tv.kind == TokenType::Operator && (prec_of(tv.text)
        matches Some(p) && p > min)
}

/// A token is yielded at `i` only from within the buffer, and consuming it
/// makes strict progress.
pub proof fn lemma_token_some(s: Seq<char>, i: int)
    requires
        0 <= i,
        token_at(s, i) is Some,
    ensures
        i <= s.len(),
        i < token_end(s, i) <= s.len(),
{
    if i > s.len() {
        assert(run_end(blank_p(), s, i) == i);
    }
    lemma_token_bounds(s, i);
}

/// No token is yielded at or past the end of the buffer.
pub proof fn lemma_token_past_end(s: Seq<char>, i: int)
    requires
        i >= s.len(),
    ensures
        token_at(s, i) is None,
{
    assert(run_end(blank_p(), s, i) == i);
}

/// The stream position never moves backward, token or no token.
pub proof fn lemma_token_end_monotone(s: Seq<char>, i: int)
    requires
        0 <= i,
    ensures
        i <= token_end(s, i),
{
    if i <= s.len() {
        lemma_token_bounds(s, i);
    } else {
        assert(run_end(blank_p(), s, i) == i);
    }
}


/// Universal progress facts over one source buffer: consuming a token
/// moves strictly forward and stays in bounds, skipping line breaks moves
/// forward, and no token exists at a negative position.
pub proof fn lemma_token_progress_all(s: Seq<char>)
    ensures
        forall|j: int| 0 <= j && token_at(s, j) is Some ==> j < #[trigger] token_end(s, j)
            <= s.len(),
        forall|j: int| 0 <= j <= s.len() ==> j <= #[trigger] lines_end(s, j) <= s.len(),
        forall|j: int| j < 0 ==> (#[trigger] token_at(s, j)) is None,
{
    assert forall|j: int| 0 <= j && token_at(s, j) is Some implies j < #[trigger] token_end(s, j)
        <= s.len() by {
        lemma_token_some(s, j);
    }
    assert forall|j: int| 0 <= j <= s.len() implies j <= #[trigger] lines_end(s, j) <= s.len() by {
        lemma_lines_end(s, j);
    }
    assert forall|j: int| j < 0 implies (#[trigger] token_at(s, j)) is None by {
        assert(run_end(blank_p(), s, j) == j);
    }
}

// ---- The spec-level parser ----
//
// Each function below is the mathematical image of one parsing step over
// the token stream: given the source and a position, it yields the parsed
// image together with the position just past it, or nothing where the
// grammar rejects the stream. A sub-parse's end position is checked to lie
// strictly forward and within the buffer — true of every parse, and what
// carries the recursion's measure.

/// One full expression at binding power `min`: an atomic piece, then the
/// operator climb.
pub open spec fn sp_expr(s: Seq<char>, i: int, min: u32) -> Option<(ExprV, int)>
    decreases s.len() - i, 4int,
{
    match sp_piece(s, i) {
        Some(p) => if i < p.1 <= s.len() {
            sp_expr_loop(s, p.1, min, p.0)
        } else {
            None
        },
        None => None,
    }
}

/// The precedence climb: while the next token is an operator binding
/// tighter than `min`, consume it, parse the right operand at that
/// operator's precedence, and fold left-associatively.
pub open spec fn sp_expr_loop(s: Seq<char>, i: int, min: u32, left: ExprV) -> Option<(ExprV, int)>
    decreases s.len() - i, 0int,
        via sp_expr_loop_dec
{
    match token_at(s, i) {
        Some(tv) => if tv.kind == TokenType::Operator {
            match prec_of(tv.text) {
                Some(p) => if p > min {
                    match sp_expr(s, token_end(s, i), p) {
                        Some(q) => if token_end(s, i) < q.1 <= s.len() {
                            sp_expr_loop(
                                s,
                                q.1,
                                min,
                                ExprV::Op {
                                    operator: tv.text,
                                    left: Box::new(left),
                                    right: Box::new(q.0),
                                },
                            )
                        } else {
                            None
                        },
                        None => None,
                    }
                } else {
                    Some((left, i))
                },
                None => Some((left, i)),
            }
        } else {
            Some((left, i))
        },
        None => Some((left, i)),
    }
}

#[via_fn]
proof fn sp_expr_loop_dec(s: Seq<char>, i: int, min: u32, left: ExprV) {
    lemma_token_progress_all(s);
}

/// One atomic piece: a bracketed composite literal, a parenthesized
/// sub-expression, an identifier-headed call, object, subscript or
/// reference, or a literal token.
pub open spec fn sp_piece(s: Seq<char>, i: int) -> Option<(ExprV, int)>
    decreases s.len() - i, 3int,
        via sp_piece_dec
{
    match token_at(s, i) {
        Some(tv) => if tv.kind == TokenType::Punctuation {
            if tv.text == "["@ {
                sp_array(s, i)
            } else if tv.text == "{"@ {
                match sp_fields(s, i) {
                    Some(p) => Some((ExprV::Obj { name: "anonymous"@, fields: p.0 }, p.1)),
                    None => None,
                }
            } else if tv.text == "("@ {
                match sp_expr(s, token_end(s, i), 0) {
                    Some(p) => if token_is_punct(s, p.1, ')') {
                        Some((p.0, token_end(s, p.1)))
                    } else {
                        None
                    },
                    None => None,
                }
            } else {
                None
            }
        } else if tv.kind == TokenType::Identifier {
            match token_at(s, token_end(s, i)) {
                Some(tv2) => if tv2.kind == TokenType::Punctuation && tv2.text == "("@ {
                    sp_call(s, i)
                } else if tv2.kind == TokenType::Punctuation && tv2.text == "{"@ {
                    sp_object(s, i)
                } else if tv2.kind == TokenType::Punctuation && tv2.text == "["@ {
                    sp_subscript(s, i)
                } else {
                    Some((ExprV::Ref { name: tv.text }, token_end(s, i)))
                },
                None => Some((ExprV::Ref { name: tv.text }, token_end(s, i))),
            }
        } else {
            Some((ExprV::Lit(tv), token_end(s, i)))
        },
        None => None,
    }
}

#[via_fn]
proof fn sp_piece_dec(s: Seq<char>, i: int) {
    lemma_token_progress_all(s);
}

/// A call `name(arg, ...)`.
pub open spec fn sp_call(s: Seq<char>, i: int) -> Option<(ExprV, int)>
    decreases s.len() - i, 2int,
        via sp_call_dec
{
    match token_at(s, i) {
        Some(tv) => if tv.kind == TokenType::Identifier {
            match sp_expr_list(s, token_end(s, i), '(', ')') {
                Some(p) => Some((ExprV::Call { name: tv.text, args: p.0 }, p.1)),
                None => None,
            }
        } else {
            None
        },
        None => None,
    }
}

#[via_fn]
proof fn sp_call_dec(s: Seq<char>, i: int) {
    lemma_token_progress_all(s);
}

/// A named object literal `name{field: e, ...}`.
pub open spec fn sp_object(s: Seq<char>, i: int) -> Option<(ExprV, int)>
    decreases s.len() - i, 2int,
        via sp_object_dec
{
    match token_at(s, i) {
        Some(tv) => if tv.kind == TokenType::Identifier {
            match sp_fields(s, token_end(s, i)) {
                Some(p) => Some((ExprV::Obj { name: tv.text, fields: p.0 }, p.1)),
                None => None,
            }
        } else {
            None
        },
        None => None,
    }
}

#[via_fn]
proof fn sp_object_dec(s: Seq<char>, i: int) {
    lemma_token_progress_all(s);
}

/// A subscript `name[index]`.
pub open spec fn sp_subscript(s: Seq<char>, i: int) -> Option<(ExprV, int)>
    decreases s.len() - i, 2int,
        via sp_subscript_dec
{
    match token_at(s, i) {
        Some(tv) => if tv.kind == TokenType::Identifier {
            if token_is_punct(s, token_end(s, i), '[') {
                match sp_expr(s, token_end(s, token_end(s, i)), 0) {
                    Some(p) => if token_is_punct(s, p.1, ']') {
                        Some((ExprV::Sub { name: tv.text, index: Box::new(p.0) }, token_end(s, p.1)))
                    } else {
                        None
                    },
                    None => None,
                }
            } else {
                None
            }
        } else {
            None
        },
        None => None,
    }
}

#[via_fn]
proof fn sp_subscript_dec(s: Seq<char>, i: int) {
    lemma_token_progress_all(s);
}

/// An array literal `[e, ...]`.
pub open spec fn sp_array(s: Seq<char>, i: int) -> Option<(ExprV, int)>
    decreases s.len() - i, 2int,
{
    match sp_expr_list(s, i, '[', ']') {
        Some(p) => Some((ExprV::Arr { elements: p.0 }, p.1)),
        None => None,
    }
}

/// A delimited, comma-separated expression list, opener included.
pub open spec fn sp_expr_list(s: Seq<char>, i: int, open_ch: char, close_ch: char) -> Option<
    (Seq<ExprV>, int),
>
    decreases s.len() - i, 1int,
        via sp_expr_list_dec
{
    if token_is_punct(s, i, open_ch) {
        sp_expr_items(s, token_end(s, i), close_ch)
    } else {
        None
    }
}

#[via_fn]
proof fn sp_expr_list_dec(s: Seq<char>, i: int, open_ch: char, close_ch: char) {
    lemma_token_progress_all(s);
}

/// The items of an expression list after the opener: empty at the closer;
/// else one expression, then either a comma and the remaining items (a
/// trailing comma before the closer is tolerated) or the closer itself.
pub open spec fn sp_expr_items(s: Seq<char>, i: int, close_ch: char) -> Option<(Seq<ExprV>, int)>
    decreases s.len() - i, 5int,
        via sp_expr_items_dec
{
    if token_is_punct(s, i, close_ch) {
        Some((Seq::empty(), token_end(s, i)))
    } else {
        match sp_expr(s, i, 0) {
            Some(p) => if i < p.1 <= s.len() {
                if token_is_punct(s, p.1, ',') {
                    match sp_expr_items(s, token_end(s, p.1), close_ch) {
                        Some(q) => Some((seq![p.0] + q.0, q.1)),
                        None => None,
                    }
                } else if token_is_punct(s, p.1, close_ch) {
                    Some((seq![p.0], token_end(s, p.1)))
                } else {
                    None
                }
            } else {
                None
            },
            None => None,
        }
    }
}

#[via_fn]
proof fn sp_expr_items_dec(s: Seq<char>, i: int, close_ch: char) {
    lemma_token_progress_all(s);
}

/// A brace-delimited, comma-separated object field list, opener included.
pub open spec fn sp_fields(s: Seq<char>, i: int) -> Option<(Seq<VarV>, int)>
    decreases s.len() - i, 1int,
        via sp_fields_dec
{
    if token_is_punct(s, i, '{') {
        sp_field_items(s, token_end(s, i))
    } else {
        None
    }
}

#[via_fn]
proof fn sp_fields_dec(s: Seq<char>, i: int) {
    lemma_token_progress_all(s);
}

/// The fields of an object literal after the opening brace.
pub open spec fn sp_field_items(s: Seq<char>, i: int) -> Option<(Seq<VarV>, int)>
    decreases s.len() - i, 5int,
        via sp_field_items_dec
{
    if token_is_punct(s, i, '}') {
        Some((Seq::empty(), token_end(s, i)))
    } else {
        match sp_object_field(s, i) {
            Some(p) => if i < p.1 <= s.len() {
                if token_is_punct(s, p.1, ',') {
                    match sp_field_items(s, token_end(s, p.1)) {
                        Some(q) => Some((seq![p.0] + q.0, q.1)),
                        None => None,
                    }
                } else if token_is_punct(s, p.1, '}') {
                    Some((seq![p.0], token_end(s, p.1)))
                } else {
                    None
                }
            } else {
                None
            },
            None => None,
        }
    }
}

#[via_fn]
proof fn sp_field_items_dec(s: Seq<char>, i: int) {
    lemma_token_progress_all(s);
}

/// One object field `name: expression`: the declared kind is the untyped
/// kind, the value carries the type.
pub open spec fn sp_object_field(s: Seq<char>, i: int) -> Option<(VarV, int)>
    decreases s.len() - i, 0int,
        via sp_object_field_dec
{
    match token_at(s, i) {
        Some(tv) => if tv.kind == TokenType::Identifier {
            if token_is_punct(s, token_end(s, i), ':') {
                match sp_expr(s, token_end(s, token_end(s, i)), 0) {
                    Some(p) => Some(
                        (VarV { name: tv.text, typ: DataType::Untyped, value: Some(p.0) }, p.1),
                    ),
                    None => None,
                }
            } else {
                None
            }
        } else {
            None
        },
        None => None,
    }
}

#[via_fn]
proof fn sp_object_field_dec(s: Seq<char>, i: int) {
    lemma_token_progress_all(s);
}

/// A type name resolved through the fixed type-name table.
pub open spec fn sp_type(s: Seq<char>, i: int) -> Option<(DataType, int)> {
    match token_at(s, i) {
        Some(tv) => if tv.kind == TokenType::Identifier {
            match data_type_of_name(tv.text) {
                Some(dt) => Some((dt, token_end(s, i))),
                None => None,
            }
        } else {
            None
        },
        None => None,
    }
}

/// A declaration body `name type [= expression]`.
pub open spec fn sp_var(s: Seq<char>, i: int) -> Option<(VarV, int)> {
    match token_at(s, i) {
        Some(tv) => if tv.kind == TokenType::Identifier {
            match sp_type(s, token_end(s, i)) {
                Some(p) => match token_at(s, p.1) {
                    Some(tv2) => if tv2.text == "="@ {
                        match sp_expr(s, token_end(s, p.1), 0) {
                            Some(q) => Some(
                                (VarV { name: tv.text, typ: p.0, value: Some(q.0) }, q.1),
                            ),
                            None => None,
                        }
                    } else {
                        Some((VarV { name: tv.text, typ: p.0, value: None }, p.1))
                    },
                    None => Some((VarV { name: tv.text, typ: p.0, value: None }, p.1)),
                },
                None => None,
            }
        } else {
            None
        },
        None => None,
    }
}

/// The items of a parameter list after the opener, each a declaration.
pub open spec fn sp_param_items(s: Seq<char>, i: int, close_ch: char) -> Option<(Seq<VarV>, int)>
    decreases s.len() - i,
        via sp_param_items_dec
{
    if token_is_punct(s, i, close_ch) {
        Some((Seq::empty(), token_end(s, i)))
    } else {
        match sp_var(s, i) {
            Some(p) => if i < p.1 <= s.len() {
                if token_is_punct(s, p.1, ',') {
                    match sp_param_items(s, token_end(s, p.1), close_ch) {
                        Some(q) => Some((seq![p.0] + q.0, q.1)),
                        None => None,
                    }
                } else if token_is_punct(s, p.1, close_ch) {
                    Some((seq![p.0], token_end(s, p.1)))
                } else {
                    None
                }
            } else {
                None
            },
            None => None,
        }
    }
}

#[via_fn]
proof fn sp_param_items_dec(s: Seq<char>, i: int, close_ch: char) {
    lemma_token_progress_all(s);
}

/// A delimited, comma-separated parameter list, opener included.
pub open spec fn sp_params(s: Seq<char>, i: int, open_ch: char, close_ch: char) -> Option<
    (Seq<VarV>, int),
> {
    if token_is_punct(s, i, open_ch) {
        sp_param_items(s, token_end(s, i), close_ch)
    } else {
        None
    }
}

/// A function header: name, parenthesized parameters, and an optional
/// `: type` return type defaulting to the untyped kind.
pub open spec fn sp_header(s: Seq<char>, i: int) -> Option<
    ((Seq<char>, Seq<VarV>, DataType), int),
> {
    match token_at(s, i) {
        Some(tv) => if tv.kind == TokenType::Identifier {
            match sp_params(s, token_end(s, i), '(', ')') {
                Some(p) => if token_is_punct(s, p.1, ':') {
                    match sp_type(s, token_end(s, p.1)) {
                        Some(q) => Some(((tv.text, p.0, q.0), q.1)),
                        None => None,
                    }
                } else {
                    Some(((tv.text, p.0, DataType::Untyped), p.1))
                },
                None => None,
            }
        } else {
            None
        },
        None => None,
    }
}

/// One body statement: a `var` declaration, a `return` expression, or a
/// bare expression statement.
pub open spec fn sp_stmt(s: Seq<char>, i: int) -> Option<(StmtV, int)> {
    if token_is_keyword(s, i, "var"@) {
        match sp_var(s, token_end(s, i)) {
            Some(p) => Some((StmtV::Decl(p.0), p.1)),
            None => None,
        }
    } else if token_is_keyword(s, i, "return"@) {
        match sp_expr(s, token_end(s, i), 0) {
            Some(p) => Some((StmtV::Ret(p.0), p.1)),
            None => None,
        }
    } else {
        match sp_expr(s, i, 0) {
            Some(p) => Some((StmtV::Expr(p.0), p.1)),
            None => None,
        }
    }
}

/// The statements of a body after the opening brace and its line breaks:
/// empty at the closing brace, else one statement, the line breaks after
/// it, and the remaining statements.
pub open spec fn sp_body_items(s: Seq<char>, i: int) -> Option<(Seq<StmtV>, int)>
    decreases s.len() - i,
        via sp_body_items_dec
{
    if token_is_punct(s, i, '}') {
        Some((Seq::empty(), token_end(s, i)))
    } else {
        match sp_stmt(s, i) {
            Some(p) => if i < p.1 <= s.len() {
                match sp_body_items(s, lines_end(s, p.1)) {
                    Some(q) => Some((seq![p.0] + q.0, q.1)),
                    None => None,
                }
            } else {
                None
            },
            None => None,
        }
    }
}

#[via_fn]
proof fn sp_body_items_dec(s: Seq<char>, i: int) {
    lemma_token_progress_all(s);
}

/// A brace-delimited, line-separated statement sequence, opener included.
pub open spec fn sp_body(s: Seq<char>, i: int) -> Option<(Seq<StmtV>, int)> {
    if token_is_punct(s, i, '{') {
        sp_body_items(s, lines_end(s, token_end(s, i)))
    } else {
        None
    }
}

/// A function definition: header plus body.
pub open spec fn sp_function(s: Seq<char>, i: int) -> Option<(FunV, int)> {
    match sp_header(s, i) {
        Some(p) => match sp_body(s, p.1) {
            Some(q) => Some(
                (FunV { name: p.0.0, params: p.0.1, ret: p.0.2, body: q.0 }, q.1),
            ),
            None => None,
        },
        None => None,
    }
}

/// One struct member: a `func` keyword or an identifier followed by `(`
/// opens a method, anything else a field.
pub open spec fn sp_member(s: Seq<char>, i: int) -> Option<(MemberV, int)> {
    if token_is_keyword(s, i, "func"@) {
        match sp_function(s, token_end(s, i)) {
            Some(p) => Some((MemberV::Method(p.0), p.1)),
            None => None,
        }
    } else if (token_at(s, i) matches Some(tv) && tv.kind == TokenType::Identifier)
        && token_is_punct(s, token_end(s, i), '(') {
        match sp_function(s, i) {
            Some(p) => Some((MemberV::Method(p.0), p.1)),
            None => None,
        }
    } else {
        match sp_var(s, i) {
            Some(p) => Some((MemberV::Field(p.0), p.1)),
            None => None,
        }
    }
}

/// The members of a struct after the opening brace and its line breaks.
pub open spec fn sp_member_items(s: Seq<char>, i: int) -> Option<(Seq<MemberV>, int)>
    decreases s.len() - i,
        via sp_member_items_dec
{
    if token_is_punct(s, i, '}') {
        Some((Seq::empty(), token_end(s, i)))
    } else {
        match sp_member(s, i) {
            Some(p) => if i < p.1 <= s.len() {
                match sp_member_items(s, lines_end(s, p.1)) {
                    Some(q) => Some((seq![p.0] + q.0, q.1)),
                    None => None,
                }
            } else {
                None
            },
            None => None,
        }
    }
}

#[via_fn]
proof fn sp_member_items_dec(s: Seq<char>, i: int) {
    lemma_token_progress_all(s);
}

/// A brace-delimited, line-separated member list, opener included.
pub open spec fn sp_members(s: Seq<char>, i: int) -> Option<(Seq<MemberV>, int)> {
    if token_is_punct(s, i, '{') {
        sp_member_items(s, lines_end(s, token_end(s, i)))
    } else {
        None
    }
}

/// A struct definition: name plus a brace-delimited member list, its
/// fields and methods split in declaration order.
pub open spec fn sp_struct(s: Seq<char>, i: int) -> Option<(StructV, int)> {
    match token_at(s, i) {
        Some(tv) => if tv.kind == TokenType::Identifier {
            match sp_members(s, token_end(s, i)) {
                Some(p) => Some(
                    (
                        StructV {
                            name: tv.text,
                            fields: member_fields(p.0),
                            methods: member_methods(p.0),
                        },
                        p.1,
                    ),
                ),
                None => None,
            }
        } else {
            None
        },
        None => None,
    }
}

/// One top-level declaration: `func`, `var` or `struct` by keyword, or a
/// keyword-less function or struct told apart by the token after the name.
pub open spec fn sp_decl(s: Seq<char>, i: int) -> Option<(DeclV, int)> {
    match token_at(s, i) {
        Some(tv) => if tv.kind == TokenType::Keyword {
            if tv.text == "func"@ {
                match sp_function(s, token_end(s, i)) {
                    Some(p) => Some((DeclV::Function(p.0), p.1)),
                    None => None,
                }
            } else if tv.text == "var"@ {
                match sp_var(s, token_end(s, i)) {
                    Some(p) => Some((DeclV::Global(p.0), p.1)),
                    None => None,
                }
            } else if tv.text == "struct"@ {
                match sp_struct(s, token_end(s, i)) {
                    Some(p) => Some((DeclV::Struct(p.0), p.1)),
                    None => None,
                }
            } else {
                None
            }
        } else if tv.kind == TokenType::Identifier {
            if token_is_punct(s, token_end(s, i), '(') {
                match sp_function(s, i) {
                    Some(p) => Some((DeclV::Function(p.0), p.1)),
                    None => None,
                }
            } else if token_is_punct(s, token_end(s, i), '{') {
                match sp_struct(s, i) {
                    Some(p) => Some((DeclV::Struct(p.0), p.1)),
                    None => None,
                }
            } else {
                None
            }
        } else {
            None
        },
        None => None,
    }
}

/// View of one top-level declaration.
pub enum DeclV {
    Function(FunV),
    Global(VarV),
    Struct(StructV),
}

pub struct Parser {
    pub tokenizer: Tokenizer,
}

impl Parser {
    /// The source text being parsed.
    pub open spec fn text(&self) -> Seq<char> {
        self.tokenizer.text()
    }

    /// The current stream position.
    pub open spec fn pos(&self) -> int {
        self.tokenizer.index as int
    }

    /// Characters left to consume; the measure every parsing step shrinks.
    pub open spec fn rem(&self) -> int {
        if self.pos() <= self.text().len() {
            self.text().len() - self.pos()
        } else {
            0
        }
    }

    pub fn new(source: &str) -> (r: Parser)
        ensures
            r.text() == source@,
            r.pos() == 0,
    {
        Parser { tokenizer: Tokenizer::new(source) }
    }

    /// Parses an expression by precedence climbing, succeeding exactly when
    /// `sp_expr` accepts the stream here and returning exactly its tree.
    pub fn parse_expression(&mut self, left_pull: u32) -> (r: Result<Expression, SyntaxError>)
        ensures
            final(self).text() == old(self).text(),
            final(self).pos() >= old(self).pos(),
            r is Ok ==> old(self).pos() < final(self).pos() <= old(self).text().len(),
            r is Ok ==> !op_binds(old(self).text(), final(self).pos(), left_pull),
            match sp_expr(old(self).text(), old(self).pos(), left_pull) {
                Some(p) => r matches Ok(e) && e.deep() == p.0 && final(self).pos() == p.1,
                None => r is Err,
            },
        decreases old(self).rem(), 4int,
    {
        let ghost s0 = self.text();
        let ghost i0 = self.pos();
        let mut left = match self.parse_expression_piece() {
            Ok(e) => e,
            Err(err) => {
                return Err(err);
            },
        };
        proof {
            assert(sp_expr(s0, i0, left_pull) == sp_expr_loop(s0, self.pos(), left_pull, left.deep()));
        }
        loop
            invariant
                s0 == old(self).text(),
                i0 == old(self).pos(),
                self.text() == s0,
                i0 < self.pos() <= s0.len(),
                sp_expr_loop(s0, self.pos(), left_pull, left.deep()) == sp_expr(s0, i0, left_pull),
            ensures
                self.text() == s0,
                i0 < self.pos() <= s0.len(),
                !op_binds(s0, self.pos(), left_pull),
                sp_expr(s0, i0, left_pull) == Some((left.deep(), self.pos())),
            decreases s0.len() - self.pos(),
        {
            if !self.tokenizer.in_range() {
                proof {
                    lemma_token_past_end(s0, self.pos());
                }
                break;
            }
            let op = match self.tokenizer.peek() {
                Some(t) => t,
                None => { break; },
            };
            if op.type_ != TokenType::Operator {
                break;
            }
            let precedence = match precedence_of(op.value.as_str()) {
                Some(p) => p,
                None => { break; },
            };
            if precedence <= left_pull {
                break;
            }
            let ghost cur = self.pos();
            let ghost pre_left = left;
            let _consumed = self.tokenizer.next();
            proof {
                lemma_token_some(s0, cur);
            }
            let right = match self.parse_expression(precedence) {
                Ok(e) => e,
                Err(err) => {
                    proof {
                        assert(sp_expr_loop(s0, cur, left_pull, pre_left.deep()) is None);
                    }
                    return Err(err);
                },
            };
            left = Expression::OperatorUse(
                OperatorUse { operator: op.value, left: Box::new(left), right: Box::new(right) },
            );
            proof {
                assert(left.deep() == (ExprV::Op {
                    operator: op@.text,
                    left: Box::new(pre_left.deep()),
                    right: Box::new(right.deep()),
                }));
                assert(sp_expr_loop(s0, cur, left_pull, pre_left.deep()) == sp_expr_loop(
                    s0,
                    self.pos(),
                    left_pull,
                    left.deep(),
                ));
            }
        }
        Ok(left)
    }

    /// Parses one atomic operand, succeeding exactly when `sp_piece`
    /// accepts the stream here and returning exactly its node.
    fn parse_expression_piece(&mut self) -> (r: Result<Expression, SyntaxError>)
        ensures
            final(self).text() == old(self).text(),
            final(self).pos() >= old(self).pos(),
            r is Ok ==> old(self).pos() < final(self).pos() <= old(self).text().len(),
            match sp_piece(old(self).text(), old(self).pos()) {
                Some(p) => r matches Ok(e) && e.deep() == p.0 && final(self).pos() == p.1,
                None => r is Err,
            },
        decreases old(self).rem(), 3int,
    {
        let ghost s0 = self.text();
        let ghost i0 = self.pos();
        let position_at_start: usize = self.tokenizer.index;
        let next_token = match self.tokenizer.next() {
            Some(t) => t,
            None => {
                proof {
                    lemma_token_end_monotone(s0, i0);
                }
                return Err(
                    SyntaxError::new(
                        position_at_start,
                        position_at_start,
                        "unexpected end of input",
                    ),
                );
            },
        };
        proof {
            lemma_token_some(s0, i0);
        }
        if next_token.type_ == TokenType::Punctuation {
            let text = next_token.value.as_str();
            if str_eq(text, "[") {
                self.tokenizer.index = position_at_start;
                let array = match self.parse_array() {
                    Ok(a) => a,
                    Err(err) => {
                        return Err(err);
                    },
                };
                let piece = Expression::Array(array);
                proof {
                    assert(piece.deep() == array.deep());
                }
                return Ok(piece);
            }
            if str_eq(text, "{") {
                self.tokenizer.index = position_at_start;
                let fields = match self.collect_object_fields() {
                    Ok(fs) => fs,
                    Err(err) => {
                        return Err(err);
                    },
                };
                let piece = Expression::Object(
                    Object { name: String::from_str("anonymous"), fields },
                );
                proof {
                    assert(piece.deep() == (ExprV::Obj {
                        name: "anonymous"@,
                        fields: deep_vars(piece->Object_0.fields@),
                    }));
                }
                return Ok(piece);
            }
            if str_eq(text, "(") {
                let expr = match self.parse_expression(0) {
                    Ok(e) => e,
                    Err(err) => {
                        return Err(err);
                    },
                };
                let ghost imid = self.pos();
                match self.tokenizer.expect_punctuation(')') {
                    Ok(_) => {
                        proof {
                            lemma_token_some(s0, imid);
                        }
                        return Ok(expr);
                    },
                    Err(e) => {
                        return Err(e);
                    },
                }
            }
            if str_eq(text, ",") {
                return Err(
                    SyntaxError::new(
                        position_at_start,
                        self.tokenizer.index,
                        "expected an expression before the comma",
                    ),
                );
            }
            return Err(
                SyntaxError::new(
                    position_at_start,
                    self.tokenizer.index,
                    "punctuation cannot open an expression here",
                ),
            );
        }
        if next_token.type_ == TokenType::Identifier {
            match self.tokenizer.peek() {
                Some(peeked) => {
                    if peeked.type_ == TokenType::Punctuation {
                        let ptext = peeked.value.as_str();
                        if str_eq(ptext, "(") {
                            self.tokenizer.index = position_at_start;
                            let func_call = match self.parse_function_call() {
                                Ok(fc) => fc,
                                Err(err) => {
                                    return Err(err);
                                },
                            };
                            let piece = Expression::FunctionCall(func_call);
                            proof {
                                assert(piece.deep() == func_call.deep());
                            }
                            return Ok(piece);
                        }
                        if str_eq(ptext, "{") {
                            self.tokenizer.index = position_at_start;
                            let object = match self.parse_object() {
                                Ok(o) => o,
                                Err(err) => {
                                    return Err(err);
                                },
                            };
                            let piece = Expression::Object(object);
                            proof {
                                assert(piece.deep() == object.deep());
                            }
                            return Ok(piece);
                        }
                        if str_eq(ptext, "[") {
                            self.tokenizer.index = position_at_start;
                            let subscript = match self.parse_subscript() {
                                Ok(sub) => sub,
                                Err(err) => {
                                    return Err(err);
                                },
                            };
                            let piece = Expression::Subscript(subscript);
                            proof {
                                assert(piece.deep() == subscript.deep());
                            }
                            return Ok(piece);
                        }
                    }
                },
                None => {},
            }
            let piece = Expression::VarReference(VarReference { name: next_token.value });
            proof {
                assert(piece.deep() == (ExprV::Ref { name: piece->VarReference_0.name@ }));
            }
            return Ok(piece);
        }
        let ghost tv = next_token@;
        let piece = Expression::Token(next_token);
        proof {
            assert(piece.deep() == ExprV::Lit(tv));
        }
        Ok(piece)
    }

    /// Parses `name[index]`, succeeding exactly when `sp_subscript`
    /// accepts the stream here.
    fn parse_subscript(&mut self) -> (r: Result<Subscript, SyntaxError>)
        ensures
            final(self).text() == old(self).text(),
            final(self).pos() >= old(self).pos(),
            r is Ok ==> old(self).pos() < final(self).pos() <= old(self).text().len(),
            match sp_subscript(old(self).text(), old(self).pos()) {
                Some(p) => r matches Ok(sub) && sub.deep() == p.0 && final(self).pos() == p.1,
                None => r is Err,
            },
        decreases old(self).rem(), 2int,
    {
        let ghost s0 = self.text();
        let ghost i0 = self.pos();
        let name = self.tokenizer.expect(TokenType::Identifier)?;
        proof {
            lemma_token_some(s0, i0);
        }
        let ghost i1 = self.pos();
        match self.tokenizer.expect_punctuation('[') {
            Ok(_) => {
                proof {
                    lemma_token_some(s0, i1);
                }
            },
            Err(e) => {
                return Err(e);
            },
        }
        let arg = match self.parse_expression(0) {
            Ok(e) => e,
            Err(err) => {
                return Err(err);
            },
        };
        let ghost i2 = self.pos();
        match self.tokenizer.expect_punctuation(']') {
            Ok(_) => {
                proof {
                    lemma_token_some(s0, i2);
                }
            },
            Err(e) => {
                return Err(e);
            },
        }
        let sub = Subscript { name: name.value, arg: Box::new(arg) };
        proof {
            assert(sub.deep() == (ExprV::Sub { name: sub.name@, index: Box::new(sub.arg.deep()) }));
        }
        Ok(sub)
    }

    /// Parses a comma-separated expression list delimited by the given
    /// punctuation, succeeding exactly when `sp_expr_list` accepts the
    /// stream here and returning exactly its elements.
    fn collect_expression_list(
        &mut self,
        start_punctuation: char,
        end_punctuation: char,
    ) -> (r: Result<Vec<Expression>, SyntaxError>)
        ensures
            final(self).text() == old(self).text(),
            final(self).pos() >= old(self).pos(),
            r is Ok ==> old(self).pos() < final(self).pos() <= old(self).text().len(),
            match sp_expr_list(
                old(self).text(),
                old(self).pos(),
                start_punctuation,
                end_punctuation,
            ) {
                Some(p) => r matches Ok(list) && deep_exprs(list@) == p.0 && final(self).pos()
                    == p.1,
                None => r is Err,
            },
        decreases old(self).rem(), 1int,
    {
        let ghost s0 = self.text();
        let ghost i0 = self.pos();
        let mut expression_list: Vec<Expression> = Vec::new();
        match self.tokenizer.expect_punctuation(start_punctuation) {
            Ok(_) => {},
            Err(e) => {
                return Err(e);
            },
        }
        proof {
            lemma_token_some(s0, i0);
        }
        let ghost istart = self.pos();
        proof {
            assert(deep_exprs(expression_list@) =~= Seq::<ExprV>::empty());
            match sp_expr_items(s0, istart, end_punctuation) {
                Some(q) => {
                    assert(deep_exprs(expression_list@) + q.0 =~= q.0);
                },
                None => {},
            }
        }
        loop
            invariant_except_break
                match sp_expr_items(s0, self.pos(), end_punctuation) {
                    Some(q) => sp_expr_items(s0, istart, end_punctuation) == Some(
                        (deep_exprs(expression_list@) + q.0, q.1),
                    ),
                    None => sp_expr_items(s0, istart, end_punctuation) is None,
                },
            invariant
                s0 == old(self).text(),
                i0 == old(self).pos(),
                token_is_punct(s0, i0, start_punctuation),
                istart == token_end(s0, i0),
                self.text() == s0,
                i0 < self.pos() <= s0.len(),
            ensures
                self.text() == s0,
                i0 < self.pos() <= s0.len(),
                sp_expr_items(s0, istart, end_punctuation) == Some(
                    (deep_exprs(expression_list@), self.pos()),
                ),
            decreases s0.len() - self.pos(),
        {
            let ghost cur = self.pos();
            if self.tokenizer.optionally_expect_punctuation(end_punctuation) {
                proof {
                    lemma_token_some(s0, cur);
                    assert(sp_expr_items(s0, cur, end_punctuation) == Some(
                        (Seq::<ExprV>::empty(), token_end(s0, cur)),
                    ));
                    assert(deep_exprs(expression_list@) + Seq::<ExprV>::empty() =~= deep_exprs(
                        expression_list@,
                    ));
                }
                break;
            }
            let e = match self.parse_expression(0) {
                Ok(x) => x,
                Err(err) => {
                    proof {
                        assert(sp_expr_items(s0, cur, end_punctuation) is None);
                    }
                    return Err(err);
                },
            };
            let ghost pre = expression_list@;
            let ghost ex = e;
            expression_list.push(e);
            proof {
                lemma_deep_exprs_push(pre, ex);
            }
            let ghost cur2 = self.pos();
            if !self.tokenizer.optionally_expect_punctuation(',') {
                match self.tokenizer.expect_punctuation(end_punctuation) {
                    Ok(_) => {},
                    Err(err) => {
                        proof {
                            assert(sp_expr_items(s0, cur, end_punctuation) is None);
                        }
                        return Err(err);
                    },
                }
                proof {
                    lemma_token_some(s0, cur2);
                    assert(sp_expr_items(s0, cur, end_punctuation) == Some(
                        (seq![ex.deep()], token_end(s0, cur2)),
                    ));
                    assert(deep_exprs(pre) + seq![ex.deep()] =~= deep_exprs(expression_list@));
                }
                break;
            }
            proof {
                lemma_token_some(s0, cur2);
                match sp_expr_items(s0, token_end(s0, cur2), end_punctuation) {
                    Some(qq) => {
                        assert(sp_expr_items(s0, cur, end_punctuation) == Some(
                            (seq![ex.deep()] + qq.0, qq.1),
                        ));
                        assert(deep_exprs(pre) + (seq![ex.deep()] + qq.0) =~= deep_exprs(
                            expression_list@,
                        ) + qq.0);
                    },
                    None => {
                        assert(sp_expr_items(s0, cur, end_punctuation) is None);
                    },
                }
            }
        }
        Ok(expression_list)
    }

    /// Parses `[e, e, ...]`, succeeding exactly when `sp_array` accepts
    /// the stream here.
    fn parse_array(&mut self) -> (r: Result<Array, SyntaxError>)
        ensures
            final(self).text() == old(self).text(),
            final(self).pos() >= old(self).pos(),
            r is Ok ==> old(self).pos() < final(self).pos() <= old(self).text().len(),
            match sp_array(old(self).text(), old(self).pos()) {
                Some(p) => r matches Ok(a) && a.deep() == p.0 && final(self).pos() == p.1,
                None => r is Err,
            },
        decreases old(self).rem(), 2int,
    {
        let elements = match self.collect_expression_list('[', ']') {
            Ok(es) => es,
            Err(err) => {
                return Err(err);
            },
        };
        Ok(Array { elements })
    }

    /// Parses `name(arg, arg, ...)`, succeeding exactly when `sp_call`
    /// accepts the stream here.
    fn parse_function_call(&mut self) -> (r: Result<FunctionCall, SyntaxError>)
        ensures
            final(self).text() == old(self).text(),
            final(self).pos() >= old(self).pos(),
            r is Ok ==> old(self).pos() < final(self).pos() <= old(self).text().len(),
            match sp_call(old(self).text(), old(self).pos()) {
                Some(p) => r matches Ok(fc) && fc.deep() == p.0 && final(self).pos() == p.1,
                None => r is Err,
            },
        decreases old(self).rem(), 2int,
    {
        let ghost s0 = self.text();
        let ghost i0 = self.pos();
        let name = self.tokenizer.expect(TokenType::Identifier)?;
        proof {
            lemma_token_some(s0, i0);
        }
        let args = match self.collect_expression_list('(', ')') {
            Ok(es) => es,
            Err(err) => {
                return Err(err);
            },
        };
        Ok(FunctionCall { name: name.value, args })
    }

    /// Parses an object field `name: expression`, succeeding exactly when
    /// `sp_object_field` accepts the stream here; the field's declared
    /// kind is the untyped kind, its value carries the type.
    pub fn parse_object_field(&mut self) -> (r: Result<Variable, SyntaxError>)
        ensures
            final(self).text() == old(self).text(),
            final(self).pos() >= old(self).pos(),
            r is Ok ==> old(self).pos() < final(self).pos() <= old(self).text().len(),
            match sp_object_field(old(self).text(), old(self).pos()) {
                Some(p) => r matches Ok(v) && v.deep() == p.0 && final(self).pos() == p.1,
                None => r is Err,
            },
        decreases old(self).rem(), 0int,
    {
        let ghost s0 = self.text();
        let ghost i0 = self.pos();
        let name = self.tokenizer.expect(TokenType::Identifier)?;
        proof {
            lemma_token_some(s0, i0);
        }
        let ghost i1 = self.pos();
        match self.tokenizer.expect_punctuation(':') {
            Ok(_) => {
                proof {
                    lemma_token_some(s0, i1);
                }
            },
            Err(e) => {
                return Err(e);
            },
        }
        let value = match self.parse_expression(0) {
            Ok(e) => e,
            Err(err) => {
                return Err(err);
            },
        };
        Ok(Variable { name: name.value, type_: DataType::Untyped, value: Some(value) })
    }

    /// Parses the brace-delimited, comma-separated field list of an object
    /// literal, succeeding exactly when `sp_fields` accepts the stream
    /// here and returning exactly its fields.
    fn collect_object_fields(&mut self) -> (r: Result<Vec<Variable>, SyntaxError>)
        ensures
            final(self).text() == old(self).text(),
            final(self).pos() >= old(self).pos(),
            r is Ok ==> old(self).pos() < final(self).pos() <= old(self).text().len(),
            match sp_fields(old(self).text(), old(self).pos()) {
                Some(p) => r matches Ok(list) && deep_vars(list@) == p.0 && final(self).pos()
                    == p.1,
                None => r is Err,
            },
        decreases old(self).rem(), 1int,
    {
        let ghost s0 = self.text();
        let ghost i0 = self.pos();
        let mut fields: Vec<Variable> = Vec::new();
        match self.tokenizer.expect_punctuation('{') {
            Ok(_) => {},
            Err(e) => {
                return Err(e);
            },
        }
        proof {
            lemma_token_some(s0, i0);
        }
        let ghost istart = self.pos();
        proof {
            assert(deep_vars(fields@) =~= Seq::<VarV>::empty());
            match sp_field_items(s0, istart) {
                Some(q) => {
                    assert(deep_vars(fields@) + q.0 =~= q.0);
                },
                None => {},
            }
        }
        loop
            invariant_except_break
                match sp_field_items(s0, self.pos()) {
                    Some(q) => sp_field_items(s0, istart) == Some(
                        (deep_vars(fields@) + q.0, q.1),
                    ),
                    None => sp_field_items(s0, istart) is None,
                },
            invariant
                s0 == old(self).text(),
                i0 == old(self).pos(),
                token_is_punct(s0, i0, '{'),
                istart == token_end(s0, i0),
                self.text() == s0,
                i0 < self.pos() <= s0.len(),
            ensures
                self.text() == s0,
                i0 < self.pos() <= s0.len(),
                sp_field_items(s0, istart) == Some((deep_vars(fields@), self.pos())),
            decreases s0.len() - self.pos(),
        {
            let ghost cur = self.pos();
            if self.tokenizer.optionally_expect_punctuation('}') {
                proof {
                    lemma_token_some(s0, cur);
                    assert(sp_field_items(s0, cur) == Some(
                        (Seq::<VarV>::empty(), token_end(s0, cur)),
                    ));
                    assert(deep_vars(fields@) + Seq::<VarV>::empty() =~= deep_vars(fields@));
                }
                break;
            }
            let field = match self.parse_object_field() {
                Ok(v) => v,
                Err(err) => {
                    proof {
                        assert(sp_field_items(s0, cur) is None);
                    }
                    return Err(err);
                },
            };
            let ghost pre = fields@;
            let ghost fx = field;
            fields.push(field);
            proof {
                lemma_deep_vars_push(pre, fx);
            }
            let ghost cur2 = self.pos();
            if !self.tokenizer.optionally_expect_punctuation(',') {
                match self.tokenizer.expect_punctuation('}') {
                    Ok(_) => {},
                    Err(err) => {
                        proof {
                            assert(sp_field_items(s0, cur) is None);
                        }
                        return Err(err);
                    },
                }
                proof {
                    lemma_token_some(s0, cur2);
                    assert(sp_field_items(s0, cur) == Some(
                        (seq![fx.deep()], token_end(s0, cur2)),
                    ));
                    assert(deep_vars(pre) + seq![fx.deep()] =~= deep_vars(fields@));
                }
                break;
            }
            proof {
                lemma_token_some(s0, cur2);
                match sp_field_items(s0, token_end(s0, cur2)) {
                    Some(qq) => {
                        assert(sp_field_items(s0, cur) == Some((seq![fx.deep()] + qq.0, qq.1)));
                        assert(deep_vars(pre) + (seq![fx.deep()] + qq.0) =~= deep_vars(fields@)
                            + qq.0);
                    },
                    None => {
                        assert(sp_field_items(s0, cur) is None);
                    },
                }
            }
        }
        Ok(fields)
    }

    /// Parses a named object literal `name{field: e, ...}`, succeeding
    /// exactly when `sp_object` accepts the stream here.
    pub fn parse_object(&mut self) -> (r: Result<Object, SyntaxError>)
        ensures
            final(self).text() == old(self).text(),
            final(self).pos() >= old(self).pos(),
            r is Ok ==> old(self).pos() < final(self).pos() <= old(self).text().len(),
            match sp_object(old(self).text(), old(self).pos()) {
                Some(p) => r matches Ok(o) && o.deep() == p.0 && final(self).pos() == p.1,
                None => r is Err,
            },
        decreases old(self).rem(), 2int,
    {
        let ghost s0 = self.text();
        let ghost i0 = self.pos();
        let name_token = self.tokenizer.expect(TokenType::Identifier)?;
        proof {
            lemma_token_some(s0, i0);
        }
        let fields = match self.collect_object_fields() {
            Ok(fs) => fs,
            Err(err) => {
                return Err(err);
            },
        };
        Ok(Object { name: name_token.value, fields })
    }

    /// Resolves the next token as a type name, succeeding exactly when
    /// `sp_type` accepts the stream here.
    fn parse_type(&mut self) -> (r: Result<DataType, SyntaxError>)
        ensures
            final(self).text() == old(self).text(),
            final(self).pos() >= old(self).pos(),
            r is Ok ==> old(self).pos() < final(self).pos() <= old(self).text().len(),
            match sp_type(old(self).text(), old(self).pos()) {
                Some(p) => r matches Ok(dt) && dt == p.0 && final(self).pos() == p.1,
                None => r is Err,
            },
    {
        let ghost s0 = self.text();
        let ghost i0 = self.pos();
        let start: usize = self.tokenizer.index;
        let token = self.tokenizer.expect(TokenType::Identifier)?;
        proof {
            lemma_token_some(s0, i0);
        }
        match type_from(token.value.as_str()) {
            Some(dt) => Ok(dt),
            None => Err(SyntaxError::new(start, self.tokenizer.index, "unknown type")),
        }
    }

    /// Parses a declaration body `name type [= expression]`, succeeding
    /// exactly when `sp_var` accepts the stream here; the leading `var`
    /// keyword, where the grammar has one, is already consumed.
    pub fn parse_var(&mut self) -> (r: Result<Variable, SyntaxError>)
        ensures
            final(self).text() == old(self).text(),
            final(self).pos() >= old(self).pos(),
            r is Ok ==> old(self).pos() < final(self).pos() <= old(self).text().len(),
            match sp_var(old(self).text(), old(self).pos()) {
                Some(p) => r matches Ok(v) && v.deep() == p.0 && final(self).pos() == p.1,
                None => r is Err,
            },
    {
        let ghost s0 = self.text();
        let ghost i0 = self.pos();
        let name = self.tokenizer.expect(TokenType::Identifier)?;
        proof {
            lemma_token_some(s0, i0);
        }
        let type_ = match self.parse_type() {
            Ok(dt) => dt,
            Err(err) => {
                return Err(err);
            },
        };
        let ghost i2 = self.pos();
        if self.tokenizer.optionally_expect_string("=") {
            proof {
                lemma_token_some(s0, i2);
            }
            let value = match self.parse_expression(0) {
                Ok(e) => e,
                Err(err) => {
                    return Err(err);
                },
            };
            return Ok(Variable { name: name.value, type_, value: Some(value) });
        }
        Ok(Variable { name: name.value, type_, value: None })
    }

    /// Parses a comma-separated parameter list delimited by the given
    /// punctuation, each parameter a declaration; succeeds exactly when
    /// `sp_params` accepts the stream here.
    fn collect_params(
        &mut self,
        start_punctuation: char,
        end_punctuation: char,
    ) -> (r: Result<Vec<Variable>, SyntaxError>)
        ensures
            final(self).text() == old(self).text(),
            final(self).pos() >= old(self).pos(),
            r is Ok ==> old(self).pos() < final(self).pos() <= old(self).text().len(),
            match sp_params(old(self).text(), old(self).pos(), start_punctuation, end_punctuation) {
                Some(p) => r matches Ok(list) && deep_vars(list@) == p.0 && final(self).pos()
                    == p.1,
                None => r is Err,
            },
    {
        let ghost s0 = self.text();
        let ghost i0 = self.pos();
        let mut params: Vec<Variable> = Vec::new();
        match self.tokenizer.expect_punctuation(start_punctuation) {
            Ok(_) => {},
            Err(e) => {
                return Err(e);
            },
        }
        proof {
            lemma_token_some(s0, i0);
        }
        let ghost istart = self.pos();
        proof {
            assert(deep_vars(params@) =~= Seq::<VarV>::empty());
            match sp_param_items(s0, istart, end_punctuation) {
                Some(q) => {
                    assert(deep_vars(params@) + q.0 =~= q.0);
                },
                None => {},
            }
        }
        loop
            invariant_except_break
                match sp_param_items(s0, self.pos(), end_punctuation) {
                    Some(q) => sp_param_items(s0, istart, end_punctuation) == Some(
                        (deep_vars(params@) + q.0, q.1),
                    ),
                    None => sp_param_items(s0, istart, end_punctuation) is None,
                },
            invariant
                s0 == old(self).text(),
                i0 == old(self).pos(),
                token_is_punct(s0, i0, start_punctuation),
                istart == token_end(s0, i0),
                self.text() == s0,
                i0 < self.pos() <= s0.len(),
            ensures
                self.text() == s0,
                i0 < self.pos() <= s0.len(),
                sp_param_items(s0, istart, end_punctuation) == Some(
                    (deep_vars(params@), self.pos()),
                ),
            decreases s0.len() - self.pos(),
        {
            let ghost cur = self.pos();
            if self.tokenizer.optionally_expect_punctuation(end_punctuation) {
                proof {
                    lemma_token_some(s0, cur);
                    assert(sp_param_items(s0, cur, end_punctuation) == Some(
                        (Seq::<VarV>::empty(), token_end(s0, cur)),
                    ));
                    assert(deep_vars(params@) + Seq::<VarV>::empty() =~= deep_vars(params@));
                }
                break;
            }
            let v = match self.parse_var() {
                Ok(x) => x,
                Err(err) => {
                    proof {
                        assert(sp_param_items(s0, cur, end_punctuation) is None);
                    }
                    return Err(err);
                },
            };
            let ghost pre = params@;
            let ghost vx = v;
            params.push(v);
            proof {
                lemma_deep_vars_push(pre, vx);
            }
            let ghost cur2 = self.pos();
            if !self.tokenizer.optionally_expect_punctuation(',') {
                match self.tokenizer.expect_punctuation(end_punctuation) {
                    Ok(_) => {},
                    Err(err) => {
                        proof {
                            assert(sp_param_items(s0, cur, end_punctuation) is None);
                        }
                        return Err(err);
                    },
                }
                proof {
                    lemma_token_some(s0, cur2);
                    assert(sp_param_items(s0, cur, end_punctuation) == Some(
                        (seq![vx.deep()], token_end(s0, cur2)),
                    ));
                    assert(deep_vars(pre) + seq![vx.deep()] =~= deep_vars(params@));
                }
                break;
            }
            proof {
                lemma_token_some(s0, cur2);
                match sp_param_items(s0, token_end(s0, cur2), end_punctuation) {
                    Some(qq) => {
                        assert(sp_param_items(s0, cur, end_punctuation) == Some(
                            (seq![vx.deep()] + qq.0, qq.1),
                        ));
                        assert(deep_vars(pre) + (seq![vx.deep()] + qq.0) =~= deep_vars(params@)
                            + qq.0);
                    },
                    None => {
                        assert(sp_param_items(s0, cur, end_punctuation) is None);
                    },
                }
            }
        }
        Ok(params)
    }

    /// Parses a function header, succeeding exactly when `sp_header`
    /// accepts the stream here: name, parenthesized parameter list, and an
    /// optional `: type` return type that defaults to the untyped kind.
    pub fn parse_function_header(&mut self) -> (r: Result<
        (String, Vec<Variable>, DataType),
        SyntaxError,
    >)
        ensures
            final(self).text() == old(self).text(),
            final(self).pos() >= old(self).pos(),
            r is Ok ==> old(self).pos() < final(self).pos() <= old(self).text().len(),
            match sp_header(old(self).text(), old(self).pos()) {
                Some(p) => r matches Ok(h) && h.0@ == p.0.0 && deep_vars(h.1@) == p.0.1 && h.2
                    == p.0.2 && final(self).pos() == p.1,
                None => r is Err,
            },
    {
        let ghost s0 = self.text();
        let ghost i0 = self.pos();
        let name = self.tokenizer.expect(TokenType::Identifier)?;
        proof {
            lemma_token_some(s0, i0);
        }
        let args = match self.collect_params('(', ')') {
            Ok(ps) => ps,
            Err(err) => {
                return Err(err);
            },
        };
        let ghost i1 = self.pos();
        if self.tokenizer.optionally_expect_punctuation(':') {
            proof {
                lemma_token_some(s0, i1);
            }
            let return_type = match self.parse_type() {
                Ok(dt) => dt,
                Err(err) => {
                    return Err(err);
                },
            };
            return Ok((name.value, args, return_type));
        }
        Ok((name.value, args, DataType::Untyped))
    }

    /// Parses one body statement, succeeding exactly when `sp_stmt`
    /// accepts the stream here: a `var` declaration, a `return`
    /// expression, or a bare expression statement.
    fn parse_valid_in_function_body(&mut self) -> (r: Result<ValidInFunctionBody, SyntaxError>)
        ensures
            final(self).text() == old(self).text(),
            final(self).pos() >= old(self).pos(),
            r is Ok ==> old(self).pos() < final(self).pos() <= old(self).text().len(),
            match sp_stmt(old(self).text(), old(self).pos()) {
                Some(p) => r matches Ok(st) && st.deep() == p.0 && final(self).pos() == p.1,
                None => r is Err,
            },
    {
        let ghost s0 = self.text();
        let ghost i0 = self.pos();
        if self.tokenizer.optionally_expect_keyword_of("var") {
            proof {
                lemma_token_some(s0, i0);
            }
            let v = match self.parse_var() {
                Ok(x) => x,
                Err(err) => {
                    return Err(err);
                },
            };
            return Ok(ValidInFunctionBody::Variable(v));
        }
        if self.tokenizer.optionally_expect_keyword_of("return") {
            proof {
                lemma_token_some(s0, i0);
            }
            let e = match self.parse_expression(0) {
                Ok(x) => x,
                Err(err) => {
                    return Err(err);
                },
            };
            return Ok(ValidInFunctionBody::Return(e));
        }
        let e = match self.parse_expression(0) {
            Ok(x) => x,
            Err(err) => {
                return Err(err);
            },
        };
        Ok(ValidInFunctionBody::Expression(e))
    }

    /// Parses a brace-delimited, line-separated statement sequence,
    /// succeeding exactly when `sp_body` accepts the stream here and
    /// returning exactly its statements.
    fn collect_body(&mut self) -> (r: Result<Vec<ValidInFunctionBody>, SyntaxError>)
        ensures
            final(self).text() == old(self).text(),
            final(self).pos() >= old(self).pos(),
            r is Ok ==> old(self).pos() < final(self).pos() <= old(self).text().len(),
            match sp_body(old(self).text(), old(self).pos()) {
                Some(p) => r matches Ok(list) && deep_stmts(list@) == p.0 && final(self).pos()
                    == p.1,
                None => r is Err,
            },
    {
        let ghost s0 = self.text();
        let ghost i0 = self.pos();
        let mut body: Vec<ValidInFunctionBody> = Vec::new();
        match self.tokenizer.expect_punctuation('{') {
            Ok(_) => {},
            Err(e) => {
                return Err(e);
            },
        }
        proof {
            lemma_token_some(s0, i0);
        }
        let ghost ib = self.pos();
        self.tokenizer.eat_lines();
        proof {
            lemma_lines_end(s0, ib);
        }
        let ghost istart = self.pos();
        proof {
            assert(deep_stmts(body@) =~= Seq::<StmtV>::empty());
            match sp_body_items(s0, istart) {
                Some(q) => {
                    assert(deep_stmts(body@) + q.0 =~= q.0);
                },
                None => {},
            }
        }
        loop
            invariant_except_break
                match sp_body_items(s0, self.pos()) {
                    Some(q) => sp_body_items(s0, istart) == Some(
                        (deep_stmts(body@) + q.0, q.1),
                    ),
                    None => sp_body_items(s0, istart) is None,
                },
            invariant
                s0 == old(self).text(),
                i0 == old(self).pos(),
                token_is_punct(s0, i0, '{'),
                istart == lines_end(s0, token_end(s0, i0)),
                self.text() == s0,
                i0 < self.pos() <= s0.len(),
            ensures
                self.text() == s0,
                i0 < self.pos() <= s0.len(),
                sp_body_items(s0, istart) == Some((deep_stmts(body@), self.pos())),
            decreases s0.len() - self.pos(),
        {
            let ghost cur = self.pos();
            if self.tokenizer.optionally_expect_punctuation('}') {
                proof {
                    lemma_token_some(s0, cur);
                    assert(sp_body_items(s0, cur) == Some(
                        (Seq::<StmtV>::empty(), token_end(s0, cur)),
                    ));
                    assert(deep_stmts(body@) + Seq::<StmtV>::empty() =~= deep_stmts(body@));
                }
                break;
            }
            let stmt = match self.parse_valid_in_function_body() {
                Ok(st) => st,
                Err(err) => {
                    proof {
                        assert(sp_body_items(s0, cur) is None);
                    }
                    return Err(err);
                },
            };
            let ghost pre = body@;
            let ghost sx = stmt;
            body.push(stmt);
            proof {
                lemma_deep_stmts_push(pre, sx);
            }
            let ghost cur2 = self.pos();
            self.tokenizer.eat_lines();
            proof {
                lemma_lines_end(s0, cur2);
                match sp_body_items(s0, lines_end(s0, cur2)) {
                    Some(qq) => {
                        assert(sp_body_items(s0, cur) == Some((seq![sx.deep()] + qq.0, qq.1)));
                        assert(deep_stmts(pre) + (seq![sx.deep()] + qq.0) =~= deep_stmts(body@)
                            + qq.0);
                    },
                    None => {
                        assert(sp_body_items(s0, cur) is None);
                    },
                }
            }
        }
        Ok(body)
    }

    /// Parses a function definition, succeeding exactly when `sp_function`
    /// accepts the stream here: header plus a brace-delimited,
    /// line-separated body.
    pub fn parse_function(&mut self) -> (r: Result<FunctionDef, SyntaxError>)
        ensures
            final(self).text() == old(self).text(),
            final(self).pos() >= old(self).pos(),
            r is Ok ==> old(self).pos() < final(self).pos() <= old(self).text().len(),
            match sp_function(old(self).text(), old(self).pos()) {
                Some(p) => r matches Ok(f) && f.deep() == p.0 && final(self).pos() == p.1,
                None => r is Err,
            },
    {
        let header = match self.parse_function_header() {
            Ok(h) => h,
            Err(err) => {
                return Err(err);
            },
        };
        let (name, args, return_type) = header;
        let body = match self.collect_body() {
            Ok(b) => b,
            Err(err) => {
                return Err(err);
            },
        };
        Ok(FunctionDef { name, args, return_type, body })
    }

    /// Disambiguates one struct member with one token of lookahead and a
    /// rewind, succeeding exactly when `sp_member` accepts the stream
    /// here: a `func` keyword or an identifier followed by `(` opens a
    /// method, anything else a field.
    fn parse_field_or_method(&mut self) -> (r: Result<StructScopeItem, SyntaxError>)
        ensures
            final(self).text() == old(self).text(),
            final(self).pos() >= old(self).pos(),
            r is Ok ==> old(self).pos() < final(self).pos() <= old(self).text().len(),
            match sp_member(old(self).text(), old(self).pos()) {
                Some(p) => r matches Ok(item) && item.deep() == p.0 && final(self).pos() == p.1,
                None => r is Err,
            },
    {
        let ghost s0 = self.text();
        let ghost i0 = self.pos();
        let start_pos: usize = self.tokenizer.index;
        if self.tokenizer.optionally_expect_keyword_of("func") {
            proof {
                lemma_token_some(s0, i0);
            }
            let f = match self.parse_function() {
                Ok(x) => x,
                Err(err) => {
                    return Err(err);
                },
            };
            let item = StructScopeItem::Method(f);
            proof {
                assert(item.deep() == MemberV::Method(item->Method_0.deep()));
            }
            return Ok(item);
        }
        if self.tokenizer.optionally_expect_type(TokenType::Identifier) {
            proof {
                lemma_token_some(s0, i0);
            }
            let ghost i1 = self.pos();
            if self.tokenizer.optionally_expect_punctuation('(') {
                proof {
                    lemma_token_some(s0, i1);
                }
                self.tokenizer.index = start_pos;
                let f = match self.parse_function() {
                    Ok(x) => x,
                    Err(err) => {
                        return Err(err);
                    },
                };
                let item = StructScopeItem::Method(f);
                proof {
                    assert(item.deep() == MemberV::Method(item->Method_0.deep()));
                }
                return Ok(item);
            }
        }
        self.tokenizer.index = start_pos;
        let v = match self.parse_var() {
            Ok(x) => x,
            Err(err) => {
                return Err(err);
            },
        };
        let item = StructScopeItem::Field(v);
        proof {
            assert(item.deep() == MemberV::Field(item->Field_0.deep()));
        }
        Ok(item)
    }

    /// Parses the brace-delimited, line-separated member list of a struct,
    /// succeeding exactly when `sp_members` accepts the stream here and
    /// returning exactly its members.
    fn collect_struct_items(&mut self) -> (r: Result<Vec<StructScopeItem>, SyntaxError>)
        ensures
            final(self).text() == old(self).text(),
            final(self).pos() >= old(self).pos(),
            r is Ok ==> old(self).pos() < final(self).pos() <= old(self).text().len(),
            match sp_members(old(self).text(), old(self).pos()) {
                Some(p) => r matches Ok(list) && deep_members(list@) == p.0 && final(self).pos()
                    == p.1,
                None => r is Err,
            },
    {
        let ghost s0 = self.text();
        let ghost i0 = self.pos();
        let mut items: Vec<StructScopeItem> = Vec::new();
        match self.tokenizer.expect_punctuation('{') {
            Ok(_) => {},
            Err(e) => {
                return Err(e);
            },
        }
        proof {
            lemma_token_some(s0, i0);
        }
        let ghost ib = self.pos();
        self.tokenizer.eat_lines();
        proof {
            lemma_lines_end(s0, ib);
        }
        let ghost istart = self.pos();
        proof {
            assert(deep_members(items@) =~= Seq::<MemberV>::empty());
            match sp_member_items(s0, istart) {
                Some(q) => {
                    assert(deep_members(items@) + q.0 =~= q.0);
                },
                None => {},
            }
        }
        loop
            invariant_except_break
                match sp_member_items(s0, self.pos()) {
                    Some(q) => sp_member_items(s0, istart) == Some(
                        (deep_members(items@) + q.0, q.1),
                    ),
                    None => sp_member_items(s0, istart) is None,
                },
            invariant
                s0 == old(self).text(),
                i0 == old(self).pos(),
                token_is_punct(s0, i0, '{'),
                istart == lines_end(s0, token_end(s0, i0)),
                self.text() == s0,
                i0 < self.pos() <= s0.len(),
            ensures
                self.text() == s0,
                i0 < self.pos() <= s0.len(),
                sp_member_items(s0, istart) == Some((deep_members(items@), self.pos())),
            decreases s0.len() - self.pos(),
        {
            let ghost cur = self.pos();
            if self.tokenizer.optionally_expect_punctuation('}') {
                proof {
                    lemma_token_some(s0, cur);
                    assert(sp_member_items(s0, cur) == Some(
                        (Seq::<MemberV>::empty(), token_end(s0, cur)),
                    ));
                    assert(deep_members(items@) + Seq::<MemberV>::empty() =~= deep_members(
                        items@,
                    ));
                }
                break;
            }
            let item = match self.parse_field_or_method() {
                Ok(x) => x,
                Err(err) => {
                    proof {
                        assert(sp_member_items(s0, cur) is None);
                    }
                    return Err(err);
                },
            };
            let ghost pre = items@;
            let ghost ix = item;
            items.push(item);
            proof {
                assert(items@.subrange(0, items@.len() - 1) =~= pre);
                assert(deep_members(items@) == deep_members(pre).push(ix.deep()));
            }
            let ghost cur2 = self.pos();
            self.tokenizer.eat_lines();
            proof {
                lemma_lines_end(s0, cur2);
                match sp_member_items(s0, lines_end(s0, cur2)) {
                    Some(qq) => {
                        assert(sp_member_items(s0, cur) == Some((seq![ix.deep()] + qq.0, qq.1)));
                        assert(deep_members(pre) + (seq![ix.deep()] + qq.0) =~= deep_members(
                            items@,
                        ) + qq.0);
                    },
                    None => {
                        assert(sp_member_items(s0, cur) is None);
                    },
                }
            }
        }
        Ok(items)
    }

    /// Parses a struct definition, succeeding exactly when `sp_struct`
    /// accepts the stream here: name plus a brace-delimited member list,
    /// split in declaration order into fields and methods.
    pub fn parse_struct(&mut self) -> (r: Result<StructDef, SyntaxError>)
        ensures
            final(self).text() == old(self).text(),
            final(self).pos() >= old(self).pos(),
            r is Ok ==> old(self).pos() < final(self).pos() <= old(self).text().len(),
            match sp_struct(old(self).text(), old(self).pos()) {
                Some(p) => r matches Ok(sd) && sd.deep() == p.0 && final(self).pos() == p.1,
                None => r is Err,
            },
    {
        let ghost s0 = self.text();
        let ghost i0 = self.pos();
        let name_token = self.tokenizer.expect(TokenType::Identifier)?;
        proof {
            lemma_token_some(s0, i0);
        }
        let mut scope_items = match self.collect_struct_items() {
            Ok(xs) => xs,
            Err(err) => {
                return Err(err);
            },
        };
        let ghost ms0 = deep_members(scope_items@);
        let mut fields: Vec<Variable> = Vec::new();
        let mut methods: Vec<FunctionDef> = Vec::new();
        proof {
            assert(deep_vars(fields@) =~= Seq::<VarV>::empty());
            assert(deep_funs(methods@) =~= Seq::<FunV>::empty());
            assert(Seq::<VarV>::empty() + member_fields(ms0) =~= member_fields(ms0));
            assert(Seq::<FunV>::empty() + member_methods(ms0) =~= member_methods(ms0));
        }
        loop
            invariant
                member_fields(ms0) == deep_vars(fields@) + member_fields(
                    deep_members(scope_items@),
                ),
                member_methods(ms0) == deep_funs(methods@) + member_methods(
                    deep_members(scope_items@),
                ),
            ensures
                deep_vars(fields@) == member_fields(ms0),
                deep_funs(methods@) == member_methods(ms0),
            decreases scope_items.len(),
        {
            if scope_items.len() == 0 {
                proof {
                    assert(deep_members(scope_items@) =~= Seq::<MemberV>::empty());
                    assert(member_fields(Seq::<MemberV>::empty()) =~= Seq::<VarV>::empty());
                    assert(member_methods(Seq::<MemberV>::empty()) =~= Seq::<FunV>::empty());
                    assert(deep_vars(fields@) + Seq::<VarV>::empty() =~= deep_vars(fields@));
                    assert(deep_funs(methods@) + Seq::<FunV>::empty() =~= deep_funs(methods@));
                }
                break;
            }
            let ghost pre_items = scope_items@;
            let item = scope_items.remove(0);
            let ghost iv = item.deep();
            let ghost rest = deep_members(scope_items@);
            proof {
                lemma_deep_members(pre_items);
                lemma_deep_members(scope_items@);
                assert(scope_items@ =~= pre_items.subrange(1, pre_items.len() as int));
                assert(deep_members(pre_items) =~= seq![iv] + rest);
                assert((seq![iv] + rest)[0] == iv);
                assert((seq![iv] + rest).subrange(1, (seq![iv] + rest).len() as int) =~= rest);
            }
            match item {
                StructScopeItem::Field(field) => {
                    let ghost pre_f = fields@;
                    let ghost fx = field;
                    fields.push(field);
                    proof {
                        lemma_deep_vars_push(pre_f, fx);
                        assert(iv == MemberV::Field(fx.deep()));
                        assert(member_fields(seq![iv] + rest) =~= seq![fx.deep()]
                            + member_fields(rest));
                        assert(deep_vars(pre_f) + (seq![fx.deep()] + member_fields(rest))
                            =~= deep_vars(fields@) + member_fields(rest));
                        assert(member_methods(seq![iv] + rest) == member_methods(rest));
                    }
                },
                StructScopeItem::Method(method) => {
                    let ghost pre_m = methods@;
                    let ghost mx = method;
                    methods.push(method);
                    proof {
                        lemma_deep_funs_push(pre_m, mx);
                        assert(iv == MemberV::Method(mx.deep()));
                        assert(member_methods(seq![iv] + rest) =~= seq![mx.deep()]
                            + member_methods(rest));
                        assert(deep_funs(pre_m) + (seq![mx.deep()] + member_methods(rest))
                            =~= deep_funs(methods@) + member_methods(rest));
                        assert(member_fields(seq![iv] + rest) == member_fields(rest));
                    }
                },
            }
        }
        let sd = StructDef { name: name_token.value, fields, methods };
        proof {
            assert(sd.deep() == (StructV {
                name: sd.name@,
                fields: deep_vars(sd.fields@),
                methods: deep_funs(sd.methods@),
            }));
        }
        Ok(sd)
    }
}

} // verus!
