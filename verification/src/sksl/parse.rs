//! The SkSL parser: recursive descent over tokens, following the grammar.

use vstd::prelude::*;

use crate::sksl::ast::{
    BinaryOp, Expr, FnDecl, Param, SkslProgram, SkslType, Stmt, UnaryOp, UniformDecl,
};
use crate::sksl::lex::{Punct, Token, tokens_view};
use crate::sksl::model::{
    ExprModel, FnModel, ProgramModel, StmtModel, UniformModel, expr_model, exprs_model, fn_model,
    fns_model, lemma_exprs_push, lemma_stmts_push, opt_expr_model, params_model, stmt_model,
    stmts_model, uniform_model, uniforms_model,
};
use crate::sksl::grammar::{
    arguments, arguments_from, behind_layout, binary, binary_from, boxed, condition, declarations,
    expression, expression_then, for_head, function, is_prefix, is_punct, is_reserved, is_word,
    layout_end, name_at, op_assign_token, op_token, optional_then, parameters, parameters_from,
    postfix, postfix_from, precedence, prefix_at, prefixed, primary, program, simple_statement,
    statement, statements, ternary, type_at, type_of_word, unary, uniform, word_statement,
};
use crate::text::same_text;

verus! {

/// The outcome that the grammar describes, of an expression that starts at `p`.
pub open spec fn expr_outcome(
    ts: Seq<Token>,
    p: int,
    r: Result<(Expr, usize), usize>,
    s: Result<(ExprModel, int), int>,
) -> bool {
    match r {
        Ok(x) => s == Ok::<(ExprModel, int), int>((expr_model(x.0), x.1 as int)) && p < x.1
            <= ts.len(),
        Err(e) => s == Err::<(ExprModel, int), int>(e as int),
    }
}

/// The outcome that the grammar describes, of a statement that starts at `p`.
pub open spec fn stmt_outcome(
    ts: Seq<Token>,
    p: int,
    r: Result<(Stmt, usize), usize>,
    s: Result<(StmtModel, int), int>,
) -> bool {
    match r {
        Ok(x) => s == Ok::<(StmtModel, int), int>((stmt_model(x.0), x.1 as int)) && p < x.1
            <= ts.len(),
        Err(e) => s == Err::<(StmtModel, int), int>(e as int),
    }
}

/// Whether the token at `p` is the given punctuation.
fn punct_is(ts: &Vec<Token>, p: usize, x: Punct) -> (r: bool)
    ensures
        r == is_punct(tokens_view(ts@), p as int, x),
        r ==> p < ts@.len(),
{
    if p < ts.len() {
        match &ts[p] {
            Token::Punct(y) => *y == x,
            _ => false,
        }
    } else {
        false
    }
}

/// Whether the token at `p` is the given word.
fn word_is(ts: &Vec<Token>, p: usize, w: &str) -> (r: bool)
    ensures
        r == is_word(tokens_view(ts@), p as int, w@),
        r ==> p < ts@.len(),
{
    if p < ts.len() {
        match &ts[p] {
            Token::Word(s) => same_text(s.as_str(), w),
            _ => false,
        }
    } else {
        false
    }
}

/// The type that a word names.
fn word_type(w: &str) -> (r: Option<SkslType>)
    ensures
        r == type_of_word(w@),
{
    if same_text(w, "void") {
        Some(SkslType::Void)
    } else if same_text(w, "bool") {
        Some(SkslType::Bool)
    } else if same_text(w, "int") {
        Some(SkslType::Int)
    } else if same_text(w, "float") {
        Some(SkslType::Float)
    } else if same_text(w, "half") {
        Some(SkslType::Half)
    } else if same_text(w, "vec2") || same_text(w, "float2") {
        Some(SkslType::Vec2)
    } else if same_text(w, "vec3") || same_text(w, "float3") {
        Some(SkslType::Vec3)
    } else if same_text(w, "vec4") || same_text(w, "float4") {
        Some(SkslType::Vec4)
    } else if same_text(w, "half2") {
        Some(SkslType::Half2)
    } else if same_text(w, "half3") {
        Some(SkslType::Half3)
    } else if same_text(w, "half4") {
        Some(SkslType::Half4)
    } else if same_text(w, "mat2") || same_text(w, "float2x2") {
        Some(SkslType::Mat2)
    } else if same_text(w, "mat3") || same_text(w, "float3x3") {
        Some(SkslType::Mat3)
    } else if same_text(w, "mat4") || same_text(w, "float4x4") {
        Some(SkslType::Mat4)
    } else if same_text(w, "shader") {
        Some(SkslType::Shader)
    } else if same_text(w, "colorFilter") {
        Some(SkslType::ColorFilter)
    } else if same_text(w, "blender") {
        Some(SkslType::Blender)
    } else {
        None
    }
}

/// Whether a word is reserved.
fn word_is_reserved(w: &str) -> (r: bool)
    ensures
        r == is_reserved(w@),
{
    word_type(w).is_some() || same_text(w, "if") || same_text(w, "else") || same_text(w, "for")
        || same_text(w, "while") || same_text(w, "do") || same_text(w, "return") || same_text(
        w,
        "break",
    ) || same_text(w, "continue") || same_text(w, "discard") || same_text(w, "true") || same_text(
        w,
        "false",
    ) || same_text(w, "uniform") || same_text(w, "layout")
}

/// The type named by the token at `p`.
fn type_token(ts: &Vec<Token>, p: usize) -> (r: Option<SkslType>)
    ensures
        r == type_at(tokens_view(ts@), p as int),
        r is Some ==> p < ts@.len(),
{
    if p < ts.len() {
        match &ts[p] {
            Token::Word(w) => word_type(w.as_str()),
            _ => None,
        }
    } else {
        None
    }
}

/// The name at `p`.
fn name_token(ts: &Vec<Token>, p: usize) -> (r: Option<String>)
    ensures
        match r {
            Some(s) => name_at(tokens_view(ts@), p as int) == Some(s@) && p < ts@.len(),
            None => name_at(tokens_view(ts@), p as int) is None,
        },
{
    if p < ts.len() {
        match &ts[p] {
            Token::Word(w) => {
                if word_is_reserved(w.as_str()) {
                    None
                } else {
                    Some(w.clone())
                }
            },
            _ => None,
        }
    } else {
        None
    }
}

/// How tightly an operator binds.
fn binding(op: BinaryOp) -> (r: u8)
    ensures
        r == precedence(op),
        1 <= r <= 10,
{
    match op {
        BinaryOp::Or => 1,
        BinaryOp::And => 2,
        BinaryOp::BitOr => 3,
        BinaryOp::BitXor => 4,
        BinaryOp::BitAnd => 5,
        BinaryOp::Eq | BinaryOp::NotEq => 6,
        BinaryOp::Lt | BinaryOp::LtEq | BinaryOp::Gt | BinaryOp::GtEq => 7,
        BinaryOp::Shl | BinaryOp::Shr => 8,
        BinaryOp::Add | BinaryOp::Sub => 9,
        BinaryOp::Mul | BinaryOp::Div | BinaryOp::Mod => 10,
    }
}

/// Parses a primary expression.
fn parse_primary(ts: &Vec<Token>, p: usize) -> (r: Result<(Expr, usize), usize>)
    ensures
        expr_outcome(ts@, p as int, r, primary(tokens_view(ts@), p as int)),
    decreases ts@.len() - p, 4nat,
{
    let n: usize = ts.len();
    if p >= n {
        return Err(p);
    }
    match &ts[p] {
        Token::Int(v) => Ok((Expr::IntLit(*v), p + 1)),
        Token::Float(t) => Ok((Expr::FloatLit(t.clone()), p + 1)),
        Token::Punct(x) => {
            if *x == Punct::LParen {
                match parse_expression(ts, p + 1) {
                    Err(e) => Err(e),
                    Ok((inner, q)) => {
                        if punct_is(ts, q, Punct::RParen) {
                            Ok((inner, q + 1))
                        } else {
                            Err(q)
                        }
                    },
                }
            } else {
                Err(p)
            }
        },
        Token::Word(w) => {
            if same_text(w.as_str(), "true") {
                return Ok((Expr::BoolLit(true), p + 1));
            }
            if same_text(w.as_str(), "false") {
                return Ok((Expr::BoolLit(false), p + 1));
            }
            match word_type(w.as_str()) {
                Some(ty) => {
                    if punct_is(ts, p + 1, Punct::LParen) {
                        match parse_arguments(ts, p + 2) {
                            Err(e) => Err(e),
                            Ok((args, q)) => Ok((Expr::Constructor { ty, args }, q)),
                        }
                    } else {
                        Err(p + 1)
                    }
                },
                None => {
                    if word_is_reserved(w.as_str()) {
                        Err(p)
                    } else if punct_is(ts, p + 1, Punct::LParen) {
                        match parse_arguments(ts, p + 2) {
                            Err(e) => Err(e),
                            Ok((args, q)) => Ok((Expr::Call { name: w.clone(), args }, q)),
                        }
                    } else {
                        Ok((Expr::Var(w.clone()), p + 1))
                    }
                },
            }
        },
    }
}

/// Parses the arguments of a call and the closing parenthesis.
fn parse_arguments(ts: &Vec<Token>, p: usize) -> (r: Result<(Vec<Expr>, usize), usize>)
    requires
        p <= ts@.len(),
    ensures
        match r {
            Ok(x) => arguments(tokens_view(ts@), p as int) == Ok::<(Seq<ExprModel>, int), int>(
                (exprs_model(x.0@, x.0@.len()), x.1 as int),
            ) && p < x.1 <= ts@.len(),
            Err(e) => arguments(tokens_view(ts@), p as int) == Err::<(Seq<ExprModel>, int), int>(
                e as int,
            ),
        },
    decreases ts@.len() - p, 11nat,
{
    let ghost tv = tokens_view(ts@);
    let n: usize = ts.len();
    let mut args: Vec<Expr> = Vec::new();
    if punct_is(ts, p, Punct::RParen) {
        return Ok((args, p + 1));
    }
    let mut q: usize = p;
    loop
        invariant
            tv == tokens_view(ts@),
            n == ts@.len(),
            p <= q <= n,
            !is_punct(tv, p as int, Punct::RParen),
            arguments(tv, p as int) == arguments_from(
                tv,
                q as int,
                exprs_model(args@, args@.len()),
            ),
        decreases ts@.len() - q,
    {
        match parse_expression(ts, q) {
            Err(e) => {
                return Err(e);
            },
            Ok((a, next)) => {
                proof {
                    lemma_exprs_push(args@, a);
                }
                args.push(a);
                if punct_is(ts, next, Punct::Comma) {
                    q = next + 1;
                } else if punct_is(ts, next, Punct::RParen) {
                    return Ok((args, next + 1));
                } else {
                    return Err(next);
                }
            },
        }
    }
}

/// Parses a primary expression with the accesses and steps behind it.
fn parse_postfix(ts: &Vec<Token>, p: usize) -> (r: Result<(Expr, usize), usize>)
    ensures
        expr_outcome(ts@, p as int, r, postfix(tokens_view(ts@), p as int)),
    decreases ts@.len() - p, 5nat,
{
    let ghost tv = tokens_view(ts@);
    let n: usize = ts.len();
    let (mut e, mut q): (Expr, usize) = match parse_primary(ts, p) {
        Err(x) => {
            return Err(x);
        },
        Ok(x) => x,
    };
    loop
        invariant
            tv == tokens_view(ts@),
            n == ts@.len(),
            p < q <= n,
            postfix(tv, p as int) == postfix_from(tv, q as int, expr_model(e)),
        decreases ts@.len() - q,
    {
        if punct_is(ts, q, Punct::Dot) {
            match name_token(ts, q + 1) {
                None => {
                    return Err(q + 1);
                },
                Some(name) => {
                    if punct_is(ts, q + 2, Punct::LParen) {
                        match parse_arguments(ts, q + 3) {
                            Err(x) => {
                                return Err(x);
                            },
                            Ok((args, next)) => {
                                e = Expr::MethodCall { receiver: Box::new(e), method: name, args };
                                q = next;
                            },
                        }
                    } else {
                        e = Expr::Field { expr: Box::new(e), field: name };
                        q = q + 2;
                    }
                },
            }
        } else if punct_is(ts, q, Punct::LBracket) {
            match parse_expression(ts, q + 1) {
                Err(x) => {
                    return Err(x);
                },
                Ok((i, next)) => {
                    if punct_is(ts, next, Punct::RBracket) {
                        e = Expr::Index { expr: Box::new(e), index: Box::new(i) };
                        q = next + 1;
                    } else {
                        return Err(next);
                    }
                },
            }
        } else if punct_is(ts, q, Punct::Inc) {
            e = Expr::PostIncDec { expr: Box::new(e), inc: true };
            q = q + 1;
        } else if punct_is(ts, q, Punct::Dec) {
            e = Expr::PostIncDec { expr: Box::new(e), inc: false };
            q = q + 1;
        } else {
            return Ok((e, q));
        }
    }
}

/// Applies a prefix operator.
fn apply_prefix(x: Punct, e: Expr) -> (r: Expr)
    requires
        is_prefix(x),
    ensures
        expr_model(r) == prefixed(x, expr_model(e)),
{
    match x {
        Punct::Bang => Expr::Unary { op: UnaryOp::Not, expr: Box::new(e) },
        Punct::Tilde => Expr::Unary { op: UnaryOp::BitNot, expr: Box::new(e) },
        Punct::Inc => Expr::PreIncDec { expr: Box::new(e), inc: true },
        Punct::Dec => Expr::PreIncDec { expr: Box::new(e), inc: false },
        _ => Expr::Unary { op: UnaryOp::Neg, expr: Box::new(e) },
    }
}

/// The prefix operator at `p`.
fn prefix_token(ts: &Vec<Token>, p: usize) -> (r: Option<Punct>)
    ensures
        r == prefix_at(tokens_view(ts@), p as int),
        r is Some ==> p < ts@.len() && is_prefix(r->0),
{
    if p < ts.len() {
        match &ts[p] {
            Token::Punct(x) => match *x {
                Punct::Op(op) => if op == BinaryOp::Sub {
                    Some(*x)
                } else {
                    None
                },
                Punct::Bang | Punct::Tilde | Punct::Inc | Punct::Dec => Some(*x),
                _ => None,
            },
            _ => None,
        }
    } else {
        None
    }
}

/// Parses an expression with its prefix operators.
fn parse_unary(ts: &Vec<Token>, p: usize) -> (r: Result<(Expr, usize), usize>)
    ensures
        expr_outcome(ts@, p as int, r, unary(tokens_view(ts@), p as int)),
    decreases ts@.len() - p, 6nat,
{
    let n: usize = ts.len();
    match prefix_token(ts, p) {
        None => parse_postfix(ts, p),
        Some(x) => match parse_unary(ts, p + 1) {
            Err(e) => Err(e),
            Ok((e, q)) => Ok((apply_prefix(x, e), q)),
        },
    }
}

/// The binary operator at `p`.
fn read_op_token(ts: &Vec<Token>, p: usize) -> (r: Option<BinaryOp>)
    ensures
        r == op_token(tokens_view(ts@), p as int),
        r is Some ==> p < ts@.len(),
{
    if p < ts.len() {
        match &ts[p] {
            Token::Punct(Punct::Op(op)) => Some(*op),
            _ => None,
        }
    } else {
        None
    }
}

/// The binary operator of the compound assignment at `p`.
fn read_op_assign(ts: &Vec<Token>, p: usize) -> (r: Option<BinaryOp>)
    ensures
        r == op_assign_token(tokens_view(ts@), p as int),
        r is Some ==> p < ts@.len(),
{
    if p < ts.len() {
        match &ts[p] {
            Token::Punct(Punct::OpAssign(op)) => Some(*op),
            _ => None,
        }
    } else {
        None
    }
}

/// Parses operators that bind at least as tightly as `min`.
fn parse_binary(ts: &Vec<Token>, p: usize, min: u8) -> (r: Result<(Expr, usize), usize>)
    ensures
        expr_outcome(ts@, p as int, r, binary(tokens_view(ts@), p as int, min as int)),
    decreases ts@.len() - p, 7nat,
{
    let ghost tv = tokens_view(ts@);
    let n: usize = ts.len();
    let (mut e, mut q): (Expr, usize) = match parse_unary(ts, p) {
        Err(x) => {
            return Err(x);
        },
        Ok(x) => x,
    };
    loop
        invariant
            tv == tokens_view(ts@),
            n == ts@.len(),
            p < q <= n,
            binary(tv, p as int, min as int) == binary_from(
                tv,
                q as int,
                expr_model(e),
                min as int,
            ),
        decreases ts@.len() - q,
    {
        match read_op_token(ts, q) {
            None => {
                return Ok((e, q));
            },
            Some(op) => {
                let level: u8 = binding(op);
                if level < min {
                    return Ok((e, q));
                }
                match parse_binary(ts, q + 1, level + 1) {
                    Err(x) => {
                        return Err(x);
                    },
                    Ok((r, next)) => {
                        e = Expr::Binary { left: Box::new(e), op, right: Box::new(r) };
                        q = next;
                    },
                }
            },
        }
    }
}

/// Parses a conditional expression.
fn parse_ternary(ts: &Vec<Token>, p: usize) -> (r: Result<(Expr, usize), usize>)
    ensures
        expr_outcome(ts@, p as int, r, ternary(tokens_view(ts@), p as int)),
    decreases ts@.len() - p, 8nat,
{
    let n: usize = ts.len();
    match parse_binary(ts, p, 1) {
        Err(e) => Err(e),
        Ok((c, q)) => {
            if !punct_is(ts, q, Punct::Question) {
                return Ok((c, q));
            }
            match parse_expression(ts, q + 1) {
                Err(e) => Err(e),
                Ok((a, r)) => {
                    if !punct_is(ts, r, Punct::Colon) {
                        return Err(r);
                    }
                    match parse_expression(ts, r + 1) {
                        Err(e) => Err(e),
                        Ok((b, s)) => Ok(
                            (
                                Expr::Ternary {
                                    cond: Box::new(c),
                                    then_expr: Box::new(a),
                                    else_expr: Box::new(b),
                                },
                                s,
                            ),
                        ),
                    }
                },
            }
        },
    }
}

/// Parses an expression.
fn parse_expression(ts: &Vec<Token>, p: usize) -> (r: Result<(Expr, usize), usize>)
    ensures
        expr_outcome(ts@, p as int, r, expression(tokens_view(ts@), p as int)),
    decreases ts@.len() - p, 9nat,
{
    let n: usize = ts.len();
    match parse_ternary(ts, p) {
        Err(e) => Err(e),
        Ok((t, q)) => {
            if punct_is(ts, q, Punct::Assign) {
                return match parse_expression(ts, q + 1) {
                    Err(e) => Err(e),
                    Ok((v, r)) => Ok(
                        (Expr::Assign { target: Box::new(t), value: Box::new(v) }, r),
                    ),
                };
            }
            match read_op_assign(ts, q) {
                Some(op) => match parse_expression(ts, q + 1) {
                    Err(e) => Err(e),
                    Ok((v, r)) => Ok(
                        (
                            Expr::CompoundAssign { target: Box::new(t), op, value: Box::new(v) },
                            r,
                        ),
                    ),
                },
                None => Ok((t, q)),
            }
        },
    }
}

/// Parses an expression followed by the given punctuation.
fn parse_expression_then(ts: &Vec<Token>, p: usize, x: Punct) -> (r: Result<(Expr, usize), usize>)
    ensures
        expr_outcome(ts@, p as int, r, expression_then(tokens_view(ts@), p as int, x)),
{
    let n: usize = ts.len();
    match parse_expression(ts, p) {
        Err(e) => Err(e),
        Ok((e, q)) => if punct_is(ts, q, x) {
            Ok((e, q + 1))
        } else {
            Err(q)
        },
    }
}

/// Parses an optional expression followed by the given punctuation.
fn parse_optional_then(ts: &Vec<Token>, p: usize, x: Punct) -> (r: Result<
    (Option<Expr>, usize),
    usize,
>)
    ensures
        match r {
            Ok(v) => optional_then(tokens_view(ts@), p as int, x) == Ok::<
                (Option<ExprModel>, int),
                int,
            >((opt_expr_model(v.0), v.1 as int)) && p < v.1 <= ts@.len(),
            Err(e) => optional_then(tokens_view(ts@), p as int, x) == Err::<
                (Option<ExprModel>, int),
                int,
            >(e as int),
        },
{
    let n: usize = ts.len();
    if punct_is(ts, p, x) {
        return Ok((None, p + 1));
    }
    match parse_expression_then(ts, p, x) {
        Err(e) => Err(e),
        Ok((e, q)) => Ok((Some(e), q)),
    }
}

/// Parses a declaration or an expression, with its semicolon.
fn parse_simple(ts: &Vec<Token>, p: usize) -> (r: Result<(Stmt, usize), usize>)
    requires
        p <= ts@.len(),
    ensures
        stmt_outcome(ts@, p as int, r, simple_statement(tokens_view(ts@), p as int)),
{
    let n: usize = ts.len();
    match type_token(ts, p) {
        Some(ty) => match name_token(ts, p + 1) {
            Some(name) => {
                if punct_is(ts, p + 2, Punct::Assign) {
                    return match parse_expression_then(ts, p + 3, Punct::Semi) {
                        Err(e) => Err(e),
                        Ok((e, q)) => Ok((Stmt::VarDecl { ty, name, init: Some(e) }, q)),
                    };
                }
                if punct_is(ts, p + 2, Punct::Semi) {
                    return Ok((Stmt::VarDecl { ty, name, init: None }, p + 3));
                }
                return Err(p + 2);
            },
            None => {},
        },
        None => {},
    }
    match parse_expression_then(ts, p, Punct::Semi) {
        Err(e) => Err(e),
        Ok((e, q)) => Ok((Stmt::Expr(e), q)),
    }
}

/// Parses a parenthesized condition.
fn parse_condition(ts: &Vec<Token>, p: usize) -> (r: Result<(Expr, usize), usize>)
    ensures
        expr_outcome(ts@, p as int, r, condition(tokens_view(ts@), p as int)),
{
    let n: usize = ts.len();
    if punct_is(ts, p, Punct::LParen) {
        parse_expression_then(ts, p + 1, Punct::RParen)
    } else {
        Err(p)
    }
}

/// Parses a word that is a statement by itself.
fn parse_word(ts: &Vec<Token>, p: usize, s: Stmt) -> (r: Result<(Stmt, usize), usize>)
    requires
        p < ts@.len(),
    ensures
        stmt_outcome(ts@, p as int, r, word_statement(tokens_view(ts@), p as int, stmt_model(s))),
{
    let n: usize = ts.len();
    if punct_is(ts, p + 1, Punct::Semi) {
        Ok((s, p + 2))
    } else {
        Err(p + 1)
    }
}

/// The head of a `for` loop.
struct ForHead {
    init: Option<Box<Stmt>>,
    cond: Option<Expr>,
    update: Option<Expr>,
    end: usize,
}

/// The model of an optional boxed statement.
spec fn opt_stmt_model(s: Option<Box<Stmt>>) -> Option<Box<StmtModel>> {
    match s {
        None => None,
        Some(x) => Some(Box::new(stmt_model(*x))),
    }
}

/// Parses the head of a `for` loop behind its opening parenthesis.
fn parse_for_head(ts: &Vec<Token>, p: usize) -> (r: Result<ForHead, usize>)
    requires
        p <= ts@.len(),
    ensures
        match r {
            Ok(h) => for_head(tokens_view(ts@), p as int) is Ok && ({
                let g = for_head(tokens_view(ts@), p as int)->Ok_0;
                &&& boxed(g.0) == opt_stmt_model(h.init)
                &&& g.1 == opt_expr_model(h.cond)
                &&& g.2 == opt_expr_model(h.update)
                &&& g.3 == h.end
                &&& p < h.end <= ts@.len()
            }),
            Err(e) => for_head(tokens_view(ts@), p as int) == Err::<
                (Option<StmtModel>, Option<ExprModel>, Option<ExprModel>, int),
                int,
            >(e as int),
        },
{
    let n: usize = ts.len();
    let mut init: Option<Box<Stmt>> = None;
    let q: usize;
    if punct_is(ts, p, Punct::Semi) {
        q = p + 1;
    } else {
        match parse_simple(ts, p) {
            Err(e) => {
                return Err(e);
            },
            Ok((i, next)) => {
                init = Some(Box::new(i));
                q = next;
            },
        }
    }
    match parse_optional_then(ts, q, Punct::Semi) {
        Err(e) => Err(e),
        Ok((cond, r)) => match parse_optional_then(ts, r, Punct::RParen) {
            Err(e) => Err(e),
            Ok((update, s)) => Ok(ForHead { init, cond, update, end: s }),
        },
    }
}

/// Parses a statement.
fn parse_statement(ts: &Vec<Token>, p: usize) -> (r: Result<(Stmt, usize), usize>)
    ensures
        stmt_outcome(ts@, p as int, r, statement(tokens_view(ts@), p as int)),
    decreases ts@.len() - p, 0nat,
{
    let n: usize = ts.len();
    if p >= n {
        return Err(p);
    }
    if punct_is(ts, p, Punct::LBrace) {
        return match parse_statements(ts, p + 1) {
            Err(e) => Err(e),
            Ok((ss, q)) => Ok((Stmt::Block(ss), q)),
        };
    }
    if word_is(ts, p, "if") {
        return match parse_condition(ts, p + 1) {
            Err(e) => Err(e),
            Ok((cond, q)) => match parse_statement(ts, q) {
                Err(e) => Err(e),
                Ok((a, r)) => {
                    if word_is(ts, r, "else") {
                        match parse_statement(ts, r + 1) {
                            Err(e) => Err(e),
                            Ok((b, s)) => Ok(
                                (
                                    Stmt::If {
                                        cond,
                                        then_branch: Box::new(a),
                                        else_branch: Some(Box::new(b)),
                                    },
                                    s,
                                ),
                            ),
                        }
                    } else {
                        Ok((Stmt::If { cond, then_branch: Box::new(a), else_branch: None }, r))
                    }
                },
            },
        };
    }
    if word_is(ts, p, "for") {
        if !punct_is(ts, p + 1, Punct::LParen) {
            return Err(p + 1);
        }
        return match parse_for_head(ts, p + 2) {
            Err(e) => Err(e),
            Ok(h) => match parse_statement(ts, h.end) {
                Err(e) => Err(e),
                Ok((b, r)) => Ok(
                    (
                        Stmt::For {
                            init: h.init,
                            cond: h.cond,
                            update: h.update,
                            body: Box::new(b),
                        },
                        r,
                    ),
                ),
            },
        };
    }
    if word_is(ts, p, "while") {
        return match parse_condition(ts, p + 1) {
            Err(e) => Err(e),
            Ok((cond, q)) => match parse_statement(ts, q) {
                Err(e) => Err(e),
                Ok((b, r)) => Ok((Stmt::While { cond, body: Box::new(b) }, r)),
            },
        };
    }
    if word_is(ts, p, "do") {
        return match parse_statement(ts, p + 1) {
            Err(e) => Err(e),
            Ok((b, q)) => {
                if !word_is(ts, q, "while") {
                    return Err(q);
                }
                match parse_condition(ts, q + 1) {
                    Err(e) => Err(e),
                    Ok((cond, r)) => if punct_is(ts, r, Punct::Semi) {
                        Ok((Stmt::DoWhile { body: Box::new(b), cond }, r + 1))
                    } else {
                        Err(r)
                    },
                }
            },
        };
    }
    if word_is(ts, p, "return") {
        return match parse_optional_then(ts, p + 1, Punct::Semi) {
            Err(e) => Err(e),
            Ok((v, q)) => Ok((Stmt::Return(v), q)),
        };
    }
    if word_is(ts, p, "break") {
        return parse_word(ts, p, Stmt::Break);
    }
    if word_is(ts, p, "continue") {
        return parse_word(ts, p, Stmt::Continue);
    }
    if word_is(ts, p, "discard") {
        return parse_word(ts, p, Stmt::Discard);
    }
    parse_simple(ts, p)
}

/// Parses statements up to the closing brace.
fn parse_statements(ts: &Vec<Token>, p: usize) -> (r: Result<(Vec<Stmt>, usize), usize>)
    requires
        p <= ts@.len(),
    ensures
        match r {
            Ok(x) => statements(tokens_view(ts@), p as int, Seq::empty()) == Ok::<
                (Seq<StmtModel>, int),
                int,
            >((stmts_model(x.0@, x.0@.len()), x.1 as int)) && p < x.1 <= ts@.len(),
            Err(e) => statements(tokens_view(ts@), p as int, Seq::empty()) == Err::<
                (Seq<StmtModel>, int),
                int,
            >(e as int),
        },
    decreases ts@.len() - p, 1nat,
{
    let ghost tv = tokens_view(ts@);
    let n: usize = ts.len();
    let mut ss: Vec<Stmt> = Vec::new();
    let mut q: usize = p;
    loop
        invariant
            tv == tokens_view(ts@),
            n == ts@.len(),
            p <= q <= n,
            statements(tv, p as int, Seq::empty()) == statements(
                tv,
                q as int,
                stmts_model(ss@, ss@.len()),
            ),
        decreases ts@.len() - q,
    {
        if punct_is(ts, q, Punct::RBrace) {
            return Ok((ss, q + 1));
        }
        match parse_statement(ts, q) {
            Err(e) => {
                return Err(e);
            },
            Ok((s, next)) => {
                proof {
                    lemma_stmts_push(ss@, s);
                }
                ss.push(s);
                q = next;
            },
        }
    }
}

/// Parses the parameters of a function and the closing parenthesis.
fn parse_parameters(ts: &Vec<Token>, p: usize) -> (r: Result<(Vec<Param>, usize), usize>)
    requires
        p <= ts@.len(),
    ensures
        match r {
            Ok(x) => parameters(tokens_view(ts@), p as int) == Ok::<
                (Seq<(SkslType, Seq<char>)>, int),
                int,
            >((params_model(x.0@), x.1 as int)) && p < x.1 <= ts@.len(),
            Err(e) => parameters(tokens_view(ts@), p as int) == Err::<
                (Seq<(SkslType, Seq<char>)>, int),
                int,
            >(e as int),
        },
{
    let ghost tv = tokens_view(ts@);
    let n: usize = ts.len();
    let mut ps: Vec<Param> = Vec::new();
    assert(params_model(ps@) =~= Seq::empty());
    if punct_is(ts, p, Punct::RParen) {
        return Ok((ps, p + 1));
    }
    let mut q: usize = p;
    loop
        invariant
            tv == tokens_view(ts@),
            n == ts@.len(),
            p <= q <= n,
            parameters(tv, p as int) == parameters_from(tv, q as int, params_model(ps@)),
        decreases ts@.len() - q,
    {
        match type_token(ts, q) {
            None => {
                return Err(q);
            },
            Some(ty) => match name_token(ts, q + 1) {
                None => {
                    return Err(q + 1);
                },
                Some(name) => {
                    let ghost before = ps@;
                    let ghost label = name@;
                    ps.push(Param { ty, name });
                    assert(params_model(ps@) =~= params_model(before).push((ty, label)));
                    if punct_is(ts, q + 2, Punct::Comma) {
                        q = q + 3;
                    } else if punct_is(ts, q + 2, Punct::RParen) {
                        return Ok((ps, q + 3));
                    } else {
                        return Err(q + 2);
                    }
                },
            },
        }
    }
}

/// Parses a function declaration.
fn parse_function(ts: &Vec<Token>, p: usize) -> (r: Result<(FnDecl, usize), usize>)
    requires
        p <= ts@.len(),
    ensures
        match r {
            Ok(x) => function(tokens_view(ts@), p as int) == Ok::<(FnModel, int), int>(
                (fn_model(x.0), x.1 as int),
            ) && p < x.1 <= ts@.len(),
            Err(e) => function(tokens_view(ts@), p as int) == Err::<(FnModel, int), int>(e as int),
        },
{
    let n: usize = ts.len();
    match type_token(ts, p) {
        None => Err(p),
        Some(ty) => match name_token(ts, p + 1) {
            None => Err(p + 1),
            Some(name) => {
                if !punct_is(ts, p + 2, Punct::LParen) {
                    return Err(p + 2);
                }
                match parse_parameters(ts, p + 3) {
                    Err(e) => Err(e),
                    Ok((params, q)) => {
                        if !punct_is(ts, q, Punct::LBrace) {
                            return Err(q);
                        }
                        match parse_statements(ts, q + 1) {
                            Err(e) => Err(e),
                            Ok((ss, r)) => Ok(
                                (FnDecl { name, return_type: ty, params, body: Stmt::Block(ss) }, r),
                            ),
                        }
                    },
                }
            },
        },
    }
}

/// Parses a uniform declaration behind the word `uniform`.
fn parse_uniform(ts: &Vec<Token>, p: usize) -> (r: Result<(UniformDecl, usize), usize>)
    requires
        p <= ts@.len(),
    ensures
        match r {
            Ok(x) => uniform(tokens_view(ts@), p as int) == Ok::<(UniformModel, int), int>(
                (uniform_model(x.0), x.1 as int),
            ) && p < x.1 <= ts@.len(),
            Err(e) => uniform(tokens_view(ts@), p as int) == Err::<(UniformModel, int), int>(
                e as int,
            ),
        },
{
    let n: usize = ts.len();
    match type_token(ts, p) {
        None => Err(p),
        Some(ty) => match name_token(ts, p + 1) {
            None => Err(p + 1),
            Some(name) => {
                if punct_is(ts, p + 2, Punct::Semi) {
                    return Ok((UniformDecl { ty, name, array_size: None }, p + 3));
                }
                if !punct_is(ts, p + 2, Punct::LBracket) {
                    return Err(p + 2);
                }
                if p + 3 >= n {
                    return Err(p + 3);
                }
                match &ts[p + 3] {
                    Token::Int(size) => {
                        if *size < 0 {
                            return Err(p + 3);
                        }
                        if !punct_is(ts, p + 4, Punct::RBracket) {
                            return Err(p + 4);
                        }
                        if !punct_is(ts, p + 5, Punct::Semi) {
                            return Err(p + 5);
                        }
                        Ok((UniformDecl { ty, name, array_size: Some(*size as usize) }, p + 6))
                    },
                    _ => Err(p + 3),
                }
            },
        },
    }
}

/// Finds the position behind the `layout(...)` qualifier at `p`.
fn skip_layout(ts: &Vec<Token>, p: usize) -> (r: usize)
    requires
        p < ts@.len(),
    ensures
        r == behind_layout(tokens_view(ts@), p as int),
        p <= r <= ts@.len(),
{
    let ghost tv = tokens_view(ts@);
    let n: usize = ts.len();
    if !word_is(ts, p, "layout") || !punct_is(ts, p + 1, Punct::LParen) {
        return p;
    }
    let mut q: usize = p + 2;
    while q < n
        invariant
            tv == tokens_view(ts@),
            n == ts@.len(),
            p + 2 <= q <= n,
            behind_layout(tv, p as int) == layout_end(tv, q as int),
        decreases n - q,
    {
        if punct_is(ts, q, Punct::RParen) {
            return q + 1;
        }
        q = q + 1;
    }
    q
}

/// Parses a whole program. The error is the position of the token at which
/// the tokens stop being one.
pub fn parse_program(ts: &Vec<Token>) -> (r: Result<SkslProgram, usize>)
    ensures
        match r {
            Ok(x) => program(tokens_view(ts@)) == Ok::<ProgramModel, int>(x@),
            Err(e) => program(tokens_view(ts@)) == Err::<ProgramModel, int>(e as int),
        },
{
    let ghost tv = tokens_view(ts@);
    let n: usize = ts.len();
    let mut uniforms: Vec<UniformDecl> = Vec::new();
    let mut functions: Vec<FnDecl> = Vec::new();
    let mut p: usize = 0;
    assert(uniforms_model(uniforms@) =~= Seq::empty());
    assert(fns_model(functions@) =~= Seq::empty());
    while p < n
        invariant
            tv == tokens_view(ts@),
            n == ts@.len(),
            p <= n,
            program(tv) == declarations(
                tv,
                p as int,
                (ProgramModel {
                    uniforms: uniforms_model(uniforms@),
                    functions: fns_model(functions@),
                }),
            ),
        decreases n - p,
    {
        let start: usize = skip_layout(ts, p);
        if word_is(ts, start, "uniform") {
            match parse_uniform(ts, start + 1) {
                Err(e) => {
                    return Err(e);
                },
                Ok((u, q)) => {
                    let ghost before = uniforms@;
                    let ghost m = uniform_model(u);
                    uniforms.push(u);
                    assert(uniforms_model(uniforms@) =~= uniforms_model(before).push(m));
                    p = q;
                },
            }
        } else if start != p {
            return Err(start);
        } else {
            match parse_function(ts, p) {
                Err(e) => {
                    return Err(e);
                },
                Ok((f, q)) => {
                    let ghost before = functions@;
                    let ghost m = fn_model(f);
                    functions.push(f);
                    assert(fns_model(functions@) =~= fns_model(before).push(m));
                    p = q;
                },
            }
        }
    }
    Ok(SkslProgram { uniforms, functions })
}

} // verus!
