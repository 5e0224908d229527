//! The grammar of SkSL.
//!
//! Every function here reads a construct that starts at a given token and
//! gives its model with the position behind it, or the position at which the
//! tokens stop being one. Comparisons such as `p < q` between the start and the
//! end of a construct always hold: they make the progress of the recursion
//! evident.

use vstd::prelude::*;

use crate::sksl::ast::{BinaryOp, SkslType, UnaryOp};
use crate::sksl::lex::{Punct, TokenView};
use crate::sksl::model::{ExprModel, FnModel, ProgramModel, StmtModel, UniformModel};

verus! {

/// Whether the token at `p` is the given punctuation.
pub open spec fn is_punct(ts: Seq<TokenView>, p: int, x: Punct) -> bool {
    0 <= p < ts.len() && ts[p] == TokenView::Punct(x)
}

/// Whether the token at `p` is the given word.
pub open spec fn is_word(ts: Seq<TokenView>, p: int, w: Seq<char>) -> bool {
    0 <= p < ts.len() && ts[p] == TokenView::Word(w)
}

/// The type that a word names.
pub open spec fn type_of_word(w: Seq<char>) -> Option<SkslType> {
    if w == "void"@ {
        Some(SkslType::Void)
    } else if w == "bool"@ {
        Some(SkslType::Bool)
    } else if w == "int"@ {
        Some(SkslType::Int)
    } else if w == "float"@ {
        Some(SkslType::Float)
    } else if w == "half"@ {
        Some(SkslType::Half)
    } else if w == "vec2"@ || w == "float2"@ {
        Some(SkslType::Vec2)
    } else if w == "vec3"@ || w == "float3"@ {
        Some(SkslType::Vec3)
    } else if w == "vec4"@ || w == "float4"@ {
        Some(SkslType::Vec4)
    } else if w == "half2"@ {
        Some(SkslType::Half2)
    } else if w == "half3"@ {
        Some(SkslType::Half3)
    } else if w == "half4"@ {
        Some(SkslType::Half4)
    } else if w == "mat2"@ || w == "float2x2"@ {
        Some(SkslType::Mat2)
    } else if w == "mat3"@ || w == "float3x3"@ {
        Some(SkslType::Mat3)
    } else if w == "mat4"@ || w == "float4x4"@ {
        Some(SkslType::Mat4)
    } else if w == "shader"@ {
        Some(SkslType::Shader)
    } else if w == "colorFilter"@ {
        Some(SkslType::ColorFilter)
    } else if w == "blender"@ {
        Some(SkslType::Blender)
    } else {
        None
    }
}

/// Whether a word is reserved, and so names no variable or function.
pub open spec fn is_reserved(w: Seq<char>) -> bool {
    ||| type_of_word(w) is Some
    ||| w == "if"@
    ||| w == "else"@
    ||| w == "for"@
    ||| w == "while"@
    ||| w == "do"@
    ||| w == "return"@
    ||| w == "break"@
    ||| w == "continue"@
    ||| w == "discard"@
    ||| w == "true"@
    ||| w == "false"@
    ||| w == "uniform"@
    ||| w == "layout"@
}

/// The type named by the token at `p`.
pub open spec fn type_at(ts: Seq<TokenView>, p: int) -> Option<SkslType> {
    if 0 <= p < ts.len() {
        match ts[p] {
            TokenView::Word(w) => type_of_word(w),
            _ => None,
        }
    } else {
        None
    }
}

/// The name at `p`.
pub open spec fn name_at(ts: Seq<TokenView>, p: int) -> Option<Seq<char>> {
    if 0 <= p < ts.len() {
        match ts[p] {
            TokenView::Word(w) => if is_reserved(w) {
                None
            } else {
                Some(w)
            },
            _ => None,
        }
    } else {
        None
    }
}

/// The binary operator at `p`.
pub open spec fn op_token(ts: Seq<TokenView>, p: int) -> Option<BinaryOp> {
    if 0 <= p < ts.len() {
        match ts[p] {
            TokenView::Punct(Punct::Op(op)) => Some(op),
            _ => None,
        }
    } else {
        None
    }
}

/// The binary operator of the compound assignment at `p`.
pub open spec fn op_assign_token(ts: Seq<TokenView>, p: int) -> Option<BinaryOp> {
    if 0 <= p < ts.len() {
        match ts[p] {
            TokenView::Punct(Punct::OpAssign(op)) => Some(op),
            _ => None,
        }
    } else {
        None
    }
}

/// How tightly an operator binds.
pub open spec fn precedence(op: BinaryOp) -> int {
    match op {
        BinaryOp::Or => 1,
        BinaryOp::And => 2,
        BinaryOp::BitOr => 3,
        BinaryOp::BitXor => 4,
        BinaryOp::BitAnd => 5,
        BinaryOp::Eq | BinaryOp::NotEq => 6,
        BinaryOp::Lt | BinaryOp::LtEq | BinaryOp::Gt | BinaryOp::GtEq => 7,
        BinaryOp::Shl | BinaryOp::Shr => 8,
        BinaryOp::Add | BinaryOp::Sub => 9,
        BinaryOp::Mul | BinaryOp::Div | BinaryOp::Mod => 10,
    }
}

/// A literal, a name, a call, a constructor or a parenthesized expression.
pub open spec fn primary(ts: Seq<TokenView>, p: int) -> Result<(ExprModel, int), int>
    decreases ts.len() - p, 4nat,
{
    if p < 0 || p >= ts.len() {
        Err(p)
    } else {
        match ts[p] {
            TokenView::Int(n) => Ok((ExprModel::IntLit(n), p + 1)),
            TokenView::Float(t) => Ok((ExprModel::FloatLit(t), p + 1)),
            TokenView::Punct(x) => if x == Punct::LParen {
                match expression(ts, p + 1) {
                    Err(e) => Err(e),
                    Ok((inner, q)) => if is_punct(ts, q, Punct::RParen) {
                        Ok((inner, q + 1))
                    } else {
                        Err(q)
                    },
                }
            } else {
                Err(p)
            },
            TokenView::Word(w) => if w == "true"@ {
                Ok((ExprModel::BoolLit(true), p + 1))
            } else if w == "false"@ {
                Ok((ExprModel::BoolLit(false), p + 1))
            } else if type_of_word(w) is Some {
                if is_punct(ts, p + 1, Punct::LParen) {
                    match arguments(ts, p + 2) {
                        Err(e) => Err(e),
                        Ok((args, q)) => Ok((ExprModel::Constructor(type_of_word(w)->0, args), q)),
                    }
                } else {
                    Err(p + 1)
                }
            } else if is_reserved(w) {
                Err(p)
            } else if is_punct(ts, p + 1, Punct::LParen) {
                match arguments(ts, p + 2) {
                    Err(e) => Err(e),
                    Ok((args, q)) => Ok((ExprModel::Call(w, args), q)),
                }
            } else {
                Ok((ExprModel::Var(w), p + 1))
            },
        }
    }
}

/// The arguments of a call and its closing parenthesis.
pub open spec fn arguments(ts: Seq<TokenView>, p: int) -> Result<(Seq<ExprModel>, int), int>
    decreases ts.len() - p, 11nat,
{
    if is_punct(ts, p, Punct::RParen) {
        Ok((Seq::empty(), p + 1))
    } else {
        arguments_from(ts, p, Seq::empty())
    }
}

/// Further arguments behind `acc`, up to the closing parenthesis.
pub open spec fn arguments_from(ts: Seq<TokenView>, p: int, acc: Seq<ExprModel>) -> Result<
    (Seq<ExprModel>, int),
    int,
>
    decreases ts.len() - p, 10nat,
{
    match expression(ts, p) {
        Err(e) => Err(e),
        Ok((a, q)) => if is_punct(ts, q, Punct::Comma) && p < q {
            arguments_from(ts, q + 1, acc.push(a))
        } else if is_punct(ts, q, Punct::RParen) {
            Ok((acc.push(a), q + 1))
        } else {
            Err(q)
        },
    }
}

/// A primary expression with the accesses and steps behind it.
pub open spec fn postfix(ts: Seq<TokenView>, p: int) -> Result<(ExprModel, int), int>
    decreases ts.len() - p, 5nat,
{
    match primary(ts, p) {
        Err(e) => Err(e),
        Ok((e, q)) => if p < q <= ts.len() {
            postfix_from(ts, q, e)
        } else {
            Err(q)
        },
    }
}

/// The accesses and steps behind the expression `e`, which ends at `p`.
pub open spec fn postfix_from(ts: Seq<TokenView>, p: int, e: ExprModel) -> Result<
    (ExprModel, int),
    int,
>
    decreases ts.len() - p, 12nat,
{
    if is_punct(ts, p, Punct::Dot) {
        match name_at(ts, p + 1) {
            None => Err(p + 1),
            Some(name) => if is_punct(ts, p + 2, Punct::LParen) {
                match arguments(ts, p + 3) {
                    Err(x) => Err(x),
                    Ok((args, q)) => if p < q <= ts.len() {
                        postfix_from(ts, q, ExprModel::MethodCall(Box::new(e), name, args))
                    } else {
                        Err(q)
                    },
                }
            } else {
                postfix_from(ts, p + 2, ExprModel::Field(Box::new(e), name))
            },
        }
    } else if is_punct(ts, p, Punct::LBracket) {
        match expression(ts, p + 1) {
            Err(x) => Err(x),
            Ok((i, q)) => if is_punct(ts, q, Punct::RBracket) && p < q {
                postfix_from(ts, q + 1, ExprModel::Index(Box::new(e), Box::new(i)))
            } else {
                Err(q)
            },
        }
    } else if is_punct(ts, p, Punct::Inc) {
        postfix_from(ts, p + 1, ExprModel::PostIncDec(Box::new(e), true))
    } else if is_punct(ts, p, Punct::Dec) {
        postfix_from(ts, p + 1, ExprModel::PostIncDec(Box::new(e), false))
    } else {
        Ok((e, p))
    }
}

/// What a prefix operator makes of its operand.
pub open spec fn prefixed(x: Punct, e: ExprModel) -> ExprModel {
    match x {
        Punct::Bang => ExprModel::Unary(UnaryOp::Not, Box::new(e)),
        Punct::Tilde => ExprModel::Unary(UnaryOp::BitNot, Box::new(e)),
        Punct::Inc => ExprModel::PreIncDec(Box::new(e), true),
        Punct::Dec => ExprModel::PreIncDec(Box::new(e), false),
        _ => ExprModel::Unary(UnaryOp::Neg, Box::new(e)),
    }
}

/// Whether the punctuation is a prefix operator.
pub open spec fn is_prefix(x: Punct) -> bool {
    x == Punct::Op(BinaryOp::Sub) || x is Bang || x is Tilde || x is Inc || x is Dec
}

/// The prefix operator at `p`.
pub open spec fn prefix_at(ts: Seq<TokenView>, p: int) -> Option<Punct> {
    if 0 <= p < ts.len() {
        match ts[p] {
            TokenView::Punct(x) => if is_prefix(x) {
                Some(x)
            } else {
                None
            },
            _ => None,
        }
    } else {
        None
    }
}

/// An expression with its prefix operators.
pub open spec fn unary(ts: Seq<TokenView>, p: int) -> Result<(ExprModel, int), int>
    decreases ts.len() - p, 6nat,
{
    match prefix_at(ts, p) {
        None => postfix(ts, p),
        Some(x) => match unary(ts, p + 1) {
            Err(e) => Err(e),
            Ok((e, q)) => Ok((prefixed(x, e), q)),
        },
    }
}

/// An expression of operators that bind at least as tightly as `min`.
pub open spec fn binary(ts: Seq<TokenView>, p: int, min: int) -> Result<(ExprModel, int), int>
    decreases ts.len() - p, 7nat,
{
    match unary(ts, p) {
        Err(e) => Err(e),
        Ok((e, q)) => if p < q <= ts.len() {
            binary_from(ts, q, e, min)
        } else {
            Err(q)
        },
    }
}

/// The operators and operands behind the left operand `e`, which ends at `p`.
/// Operators of one precedence group to the left.
pub open spec fn binary_from(ts: Seq<TokenView>, p: int, e: ExprModel, min: int) -> Result<
    (ExprModel, int),
    int,
>
    decreases ts.len() - p, 12nat,
{
    match op_token(ts, p) {
        None => Ok((e, p)),
        Some(op) => if precedence(op) < min {
            Ok((e, p))
        } else {
            match binary(ts, p + 1, precedence(op) + 1) {
                Err(x) => Err(x),
                Ok((r, q)) => if p < q <= ts.len() {
                    binary_from(ts, q, ExprModel::Binary(Box::new(e), op, Box::new(r)), min)
                } else {
                    Err(q)
                },
            }
        },
    }
}

/// A conditional expression.
pub open spec fn ternary(ts: Seq<TokenView>, p: int) -> Result<(ExprModel, int), int>
    decreases ts.len() - p, 8nat,
{
    match binary(ts, p, 1) {
        Err(e) => Err(e),
        Ok((c, q)) => if !is_punct(ts, q, Punct::Question) || p >= q {
            Ok((c, q))
        } else {
            match expression(ts, q + 1) {
                Err(e) => Err(e),
                Ok((a, r)) => if !is_punct(ts, r, Punct::Colon) || q >= r {
                    Err(r)
                } else {
                    match expression(ts, r + 1) {
                        Err(e) => Err(e),
                        Ok((b, s)) => Ok((
                            ExprModel::Ternary(Box::new(c), Box::new(a), Box::new(b)),
                            s,
                        )),
                    }
                },
            }
        },
    }
}

/// An expression. Assignments group to the right.
pub open spec fn expression(ts: Seq<TokenView>, p: int) -> Result<(ExprModel, int), int>
    decreases ts.len() - p, 9nat,
{
    match ternary(ts, p) {
        Err(e) => Err(e),
        Ok((t, q)) => if is_punct(ts, q, Punct::Assign) && p < q {
            match expression(ts, q + 1) {
                Err(e) => Err(e),
                Ok((v, r)) => Ok((ExprModel::Assign(Box::new(t), Box::new(v)), r)),
            }
        } else if op_assign_token(ts, q) is Some && p < q {
            match expression(ts, q + 1) {
                Err(e) => Err(e),
                Ok((v, r)) => Ok((
                    ExprModel::CompoundAssign(
                        Box::new(t),
                        op_assign_token(ts, q)->0,
                        Box::new(v),
                    ),
                    r,
                )),
            }
        } else {
            Ok((t, q))
        },
    }
}

/// An expression followed by the given punctuation.
pub open spec fn expression_then(ts: Seq<TokenView>, p: int, x: Punct) -> Result<
    (ExprModel, int),
    int,
> {
    match expression(ts, p) {
        Err(e) => Err(e),
        Ok((e, q)) => if is_punct(ts, q, x) {
            Ok((e, q + 1))
        } else {
            Err(q)
        },
    }
}

/// An optional expression followed by the given punctuation.
pub open spec fn optional_then(ts: Seq<TokenView>, p: int, x: Punct) -> Result<
    (Option<ExprModel>, int),
    int,
> {
    if is_punct(ts, p, x) {
        Ok((None, p + 1))
    } else {
        match expression_then(ts, p, x) {
            Err(e) => Err(e),
            Ok((e, q)) => Ok((Some(e), q)),
        }
    }
}

/// A declaration or an expression, with its semicolon.
pub open spec fn simple_statement(ts: Seq<TokenView>, p: int) -> Result<(StmtModel, int), int> {
    if type_at(ts, p) is Some && name_at(ts, p + 1) is Some {
        let ty = type_at(ts, p)->0;
        let name = name_at(ts, p + 1)->0;
        if is_punct(ts, p + 2, Punct::Assign) {
            match expression_then(ts, p + 3, Punct::Semi) {
                Err(e) => Err(e),
                Ok((e, q)) => Ok((StmtModel::VarDecl(ty, name, Some(e)), q)),
            }
        } else if is_punct(ts, p + 2, Punct::Semi) {
            Ok((StmtModel::VarDecl(ty, name, None), p + 3))
        } else {
            Err(p + 2)
        }
    } else {
        match expression_then(ts, p, Punct::Semi) {
            Err(e) => Err(e),
            Ok((e, q)) => Ok((StmtModel::Expr(e), q)),
        }
    }
}

/// A parenthesized condition.
pub open spec fn condition(ts: Seq<TokenView>, p: int) -> Result<(ExprModel, int), int> {
    if is_punct(ts, p, Punct::LParen) {
        expression_then(ts, p + 1, Punct::RParen)
    } else {
        Err(p)
    }
}

/// A word that is a statement by itself, with its semicolon.
pub open spec fn word_statement(ts: Seq<TokenView>, p: int, s: StmtModel) -> Result<
    (StmtModel, int),
    int,
> {
    if is_punct(ts, p + 1, Punct::Semi) {
        Ok((s, p + 2))
    } else {
        Err(p + 1)
    }
}

/// The head of a `for` loop behind its opening parenthesis: the initial
/// statement, the condition and the update.
pub open spec fn for_head(ts: Seq<TokenView>, p: int) -> Result<
    (Option<StmtModel>, Option<ExprModel>, Option<ExprModel>, int),
    int,
> {
    let start: Result<(Option<StmtModel>, int), int> = if is_punct(ts, p, Punct::Semi) {
        Ok((None, p + 1))
    } else {
        match simple_statement(ts, p) {
            Err(e) => Err(e),
            Ok((i, q)) => Ok((Some(i), q)),
        }
    };
    match start {
        Err(e) => Err(e),
        Ok((i, q)) => match optional_then(ts, q, Punct::Semi) {
            Err(e) => Err(e),
            Ok((c, r)) => match optional_then(ts, r, Punct::RParen) {
                Err(e) => Err(e),
                Ok((u, s)) => Ok((i, c, u, s)),
            },
        },
    }
}

/// The model of an optional initial statement.
pub open spec fn boxed(s: Option<StmtModel>) -> Option<Box<StmtModel>> {
    match s {
        None => None,
        Some(x) => Some(Box::new(x)),
    }
}

/// A statement.
pub open spec fn statement(ts: Seq<TokenView>, p: int) -> Result<(StmtModel, int), int>
    decreases ts.len() - p, 0nat,
{
    if p < 0 || p >= ts.len() {
        Err(p)
    } else if is_punct(ts, p, Punct::LBrace) {
        match statements(ts, p + 1, Seq::empty()) {
            Err(e) => Err(e),
            Ok((ss, q)) => Ok((StmtModel::Block(ss), q)),
        }
    } else if is_word(ts, p, "if"@) {
        match condition(ts, p + 1) {
            Err(e) => Err(e),
            Ok((c, q)) => if p >= q {
                Err(q)
            } else {
                match statement(ts, q) {
                    Err(e) => Err(e),
                    Ok((a, r)) => if is_word(ts, r, "else"@) && p < r {
                        match statement(ts, r + 1) {
                            Err(e) => Err(e),
                            Ok((b, s)) => Ok((
                                StmtModel::If(c, Box::new(a), Some(Box::new(b))),
                                s,
                            )),
                        }
                    } else {
                        Ok((StmtModel::If(c, Box::new(a), None), r))
                    },
                }
            },
        }
    } else if is_word(ts, p, "for"@) {
        if !is_punct(ts, p + 1, Punct::LParen) {
            Err(p + 1)
        } else {
            match for_head(ts, p + 2) {
                Err(e) => Err(e),
                Ok((i, c, u, q)) => if p >= q {
                    Err(q)
                } else {
                    match statement(ts, q) {
                        Err(e) => Err(e),
                        Ok((b, r)) => Ok((StmtModel::For(boxed(i), c, u, Box::new(b)), r)),
                    }
                },
            }
        }
    } else if is_word(ts, p, "while"@) {
        match condition(ts, p + 1) {
            Err(e) => Err(e),
            Ok((c, q)) => if p >= q {
                Err(q)
            } else {
                match statement(ts, q) {
                    Err(e) => Err(e),
                    Ok((b, r)) => Ok((StmtModel::While(c, Box::new(b)), r)),
                }
            },
        }
    } else if is_word(ts, p, "do"@) {
        match statement(ts, p + 1) {
            Err(e) => Err(e),
            Ok((b, q)) => if !is_word(ts, q, "while"@) {
                Err(q)
            } else {
                match condition(ts, q + 1) {
                    Err(e) => Err(e),
                    Ok((c, r)) => if is_punct(ts, r, Punct::Semi) {
                        Ok((StmtModel::DoWhile(Box::new(b), c), r + 1))
                    } else {
                        Err(r)
                    },
                }
            },
        }
    } else if is_word(ts, p, "return"@) {
        match optional_then(ts, p + 1, Punct::Semi) {
            Err(e) => Err(e),
            Ok((v, q)) => Ok((StmtModel::Return(v), q)),
        }
    } else if is_word(ts, p, "break"@) {
        word_statement(ts, p, StmtModel::Break)
    } else if is_word(ts, p, "continue"@) {
        word_statement(ts, p, StmtModel::Continue)
    } else if is_word(ts, p, "discard"@) {
        word_statement(ts, p, StmtModel::Discard)
    } else {
        simple_statement(ts, p)
    }
}

/// Further statements behind `acc`, up to the closing brace.
pub open spec fn statements(ts: Seq<TokenView>, p: int, acc: Seq<StmtModel>) -> Result<
    (Seq<StmtModel>, int),
    int,
>
    decreases ts.len() - p, 1nat,
{
    if is_punct(ts, p, Punct::RBrace) {
        Ok((acc, p + 1))
    } else {
        match statement(ts, p) {
            Err(e) => Err(e),
            Ok((s, q)) => if p < q <= ts.len() {
                statements(ts, q, acc.push(s))
            } else {
                Err(q)
            },
        }
    }
}

/// Further parameters behind `acc`, up to the closing parenthesis.
pub open spec fn parameters_from(
    ts: Seq<TokenView>,
    p: int,
    acc: Seq<(SkslType, Seq<char>)>,
) -> Result<(Seq<(SkslType, Seq<char>)>, int), int>
    decreases ts.len() - p,
{
    match type_at(ts, p) {
        None => Err(p),
        Some(ty) => match name_at(ts, p + 1) {
            None => Err(p + 1),
            Some(name) => if is_punct(ts, p + 2, Punct::Comma) {
                parameters_from(ts, p + 3, acc.push((ty, name)))
            } else if is_punct(ts, p + 2, Punct::RParen) {
                Ok((acc.push((ty, name)), p + 3))
            } else {
                Err(p + 2)
            },
        },
    }
}

/// The parameters of a function and their closing parenthesis.
pub open spec fn parameters(ts: Seq<TokenView>, p: int) -> Result<
    (Seq<(SkslType, Seq<char>)>, int),
    int,
> {
    if is_punct(ts, p, Punct::RParen) {
        Ok((Seq::empty(), p + 1))
    } else {
        parameters_from(ts, p, Seq::empty())
    }
}

/// A function declaration.
pub open spec fn function(ts: Seq<TokenView>, p: int) -> Result<(FnModel, int), int> {
    match type_at(ts, p) {
        None => Err(p),
        Some(ty) => match name_at(ts, p + 1) {
            None => Err(p + 1),
            Some(name) => if !is_punct(ts, p + 2, Punct::LParen) {
                Err(p + 2)
            } else {
                match parameters(ts, p + 3) {
                    Err(e) => Err(e),
                    Ok((params, q)) => if !is_punct(ts, q, Punct::LBrace) {
                        Err(q)
                    } else {
                        match statements(ts, q + 1, Seq::empty()) {
                            Err(e) => Err(e),
                            Ok((ss, r)) => Ok((
                                FnModel {
                                    name,
                                    return_type: ty,
                                    params,
                                    body: StmtModel::Block(ss),
                                },
                                r,
                            )),
                        }
                    },
                }
            },
        },
    }
}

/// A uniform declaration behind the word `uniform`.
pub open spec fn uniform(ts: Seq<TokenView>, p: int) -> Result<(UniformModel, int), int> {
    match type_at(ts, p) {
        None => Err(p),
        Some(ty) => match name_at(ts, p + 1) {
            None => Err(p + 1),
            Some(name) => if is_punct(ts, p + 2, Punct::Semi) {
                Ok((UniformModel { ty, name, array_size: None }, p + 3))
            } else if !is_punct(ts, p + 2, Punct::LBracket) {
                Err(p + 2)
            } else if !(p + 3 < ts.len() && ts[p + 3] is Int && ts[p + 3]->Int_0 >= 0) {
                Err(p + 3)
            } else if !is_punct(ts, p + 4, Punct::RBracket) {
                Err(p + 4)
            } else if !is_punct(ts, p + 5, Punct::Semi) {
                Err(p + 5)
            } else {
                Ok((UniformModel { ty, name, array_size: Some(ts[p + 3]->Int_0) }, p + 6))
            },
        },
    }
}

/// The position behind the next closing parenthesis.
pub open spec fn layout_end(ts: Seq<TokenView>, p: int) -> int
    decreases ts.len() - p,
{
    if p < 0 || p >= ts.len() {
        p
    } else if is_punct(ts, p, Punct::RParen) {
        p + 1
    } else {
        layout_end(ts, p + 1)
    }
}

/// The position behind the `layout(...)` qualifier at `p`, if there is one.
pub open spec fn behind_layout(ts: Seq<TokenView>, p: int) -> int {
    if is_word(ts, p, "layout"@) && is_punct(ts, p + 1, Punct::LParen) {
        layout_end(ts, p + 2)
    } else {
        p
    }
}

/// The declarations from `p` on, behind those already read.
pub open spec fn declarations(ts: Seq<TokenView>, p: int, before: ProgramModel) -> Result<
    ProgramModel,
    int,
>
    decreases ts.len() - p,
{
    if p >= ts.len() {
        Ok(before)
    } else {
        let start = behind_layout(ts, p);
        if is_word(ts, start, "uniform"@) {
            match uniform(ts, start + 1) {
                Err(e) => Err(e),
                Ok((u, q)) => if p < q <= ts.len() {
                    declarations(
                        ts,
                        q,
                        ProgramModel {
                            uniforms: before.uniforms.push(u),
                            functions: before.functions,
                        },
                    )
                } else {
                    Err(q)
                },
            }
        } else if start != p {
            Err(start)
        } else {
            match function(ts, p) {
                Err(e) => Err(e),
                Ok((f, q)) => if p < q <= ts.len() {
                    declarations(
                        ts,
                        q,
                        ProgramModel {
                            uniforms: before.uniforms,
                            functions: before.functions.push(f),
                        },
                    )
                } else {
                    Err(q)
                },
            }
        }
    }
}

/// The program that a list of tokens spells, or the position of the token at
/// which it stops being one.
pub open spec fn program(ts: Seq<TokenView>) -> Result<ProgramModel, int> {
    declarations(ts, 0, ProgramModel { uniforms: Seq::empty(), functions: Seq::empty() })
}

} // verus!
