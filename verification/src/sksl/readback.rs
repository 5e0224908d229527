//! Emitted text is read back.
//!
//! What the emitter writes for an expression or a statement is lexed and parsed
//! into that expression or statement again. So the emitted text means what it was
//! emitted from, and different statements never share their text.

use vstd::prelude::*;

use crate::sksl::ast::{BinaryOp, SkslType, UnaryOp};
use crate::sksl::emit::{Dialect, args_text, expr_text, function_text, stmt_text, stmts_text};
use crate::sksl::grammar::{
    arguments, arguments_from, binary, binary_from, condition, expression, expression_then,
    for_head, function, is_punct, is_reserved, is_word, name_at, op_assign_token, op_token,
    optional_then, parameters, parameters_from, postfix, postfix_from, precedence, prefix_at,
    prefixed, primary, simple_statement, statement, statements, ternary, type_of_word, unary,
};
use crate::sksl::lex::{Punct, TokenView, lexed};
use crate::sksl::model::{ExprModel, FnModel, StmtModel};
use crate::sksl::spelling::{
    all_white, args_tokens, expr_tokens, function_tokens, guard_tokens, guarded_text,
    guarded_tokens, head_tokens, is_dangling, is_name, is_plain_type, lemma_spell_expr,
    lemma_spell_function, lemma_spell_guarded, lemma_spell_stmt, lemma_split3, lemma_split4,
    lemma_split5, lemma_stands_split, mark, option_tokens, params_tokens, plain_expr,
    plain_function, plain_option, plain_stmt, simple_tokens, spells, stands, step_punct,
    stmt_tokens, stmts_tokens, unary_punct, word,
};

verus! {

// ---------------------------------------------------------------------------
// Expressions
// ---------------------------------------------------------------------------

/// Whether no operator goes on with an expression that ends at `q`.
spec fn is_quiet(ts: Seq<TokenView>, q: int) -> bool {
    &&& op_token(ts, q) is None
    &&& !is_punct(ts, q, Punct::Question)
    &&& !is_punct(ts, q, Punct::Assign)
    &&& op_assign_token(ts, q) is None
}

/// Whether no access or step goes on with an expression that ends at `q`.
spec fn is_over(ts: Seq<TokenView>, q: int) -> bool {
    &&& !is_punct(ts, q, Punct::Dot)
    &&& !is_punct(ts, q, Punct::LBracket)
    &&& !is_punct(ts, q, Punct::Inc)
    &&& !is_punct(ts, q, Punct::Dec)
    &&& !is_punct(ts, q, Punct::LParen)
}

proof fn lemma_climb(ts: Seq<TokenView>, p: int, e: ExprModel, q: int)
    requires
        unary(ts, p) == Ok::<(ExprModel, int), int>((e, q)),
        p < q <= ts.len(),
        is_quiet(ts, q),
    ensures
        expression(ts, p) == Ok::<(ExprModel, int), int>((e, q)),
{
    assert(binary_from(ts, q, e, 1) == Ok::<(ExprModel, int), int>((e, q)));
    assert(binary(ts, p, 1) == Ok::<(ExprModel, int), int>((e, q)));
    assert(ternary(ts, p) == Ok::<(ExprModel, int), int>((e, q)));
}

/// An operation behind its opening parenthesis.
proof fn lemma_operation(
    ts: Seq<TokenView>,
    p: int,
    l: ExprModel,
    q: int,
    op: BinaryOp,
    r: ExprModel,
    z: int,
)
    requires
        0 <= p < q < z <= ts.len(),
        unary(ts, p) == Ok::<(ExprModel, int), int>((l, q)),
        is_punct(ts, q, Punct::Op(op)),
        q + 1 < z,
        unary(ts, q + 1) == Ok::<(ExprModel, int), int>((r, z)),
        is_quiet(ts, z),
    ensures
        expression(ts, p) == Ok::<(ExprModel, int), int>(
            (ExprModel::Binary(Box::new(l), op, Box::new(r)), z),
        ),
{
    let e = ExprModel::Binary(Box::new(l), op, Box::new(r));
    let m = precedence(op) + 1;
    assert(op_token(ts, q) == Some(op));
    assert(binary_from(ts, z, r, m) == Ok::<(ExprModel, int), int>((r, z)));
    assert(binary(ts, q + 1, m) == Ok::<(ExprModel, int), int>((r, z)));
    assert(binary_from(ts, z, e, 1) == Ok::<(ExprModel, int), int>((e, z)));
    assert(binary_from(ts, q, l, 1) == Ok::<(ExprModel, int), int>((e, z)));
    assert(binary(ts, p, 1) == Ok::<(ExprModel, int), int>((e, z)));
    assert(ternary(ts, p) == Ok::<(ExprModel, int), int>((e, z)));
}

/// An assignment behind its opening parenthesis.
proof fn lemma_assignment(ts: Seq<TokenView>, p: int, t: ExprModel, q: int, v: ExprModel, z: int)
    requires
        0 <= p < q < z <= ts.len(),
        unary(ts, p) == Ok::<(ExprModel, int), int>((t, q)),
        is_punct(ts, q, Punct::Assign) || op_assign_token(ts, q) is Some,
        expression(ts, q + 1) == Ok::<(ExprModel, int), int>((v, z)),
    ensures
        expression(ts, p) == Ok::<(ExprModel, int), int>(
            (
                if is_punct(ts, q, Punct::Assign) {
                    ExprModel::Assign(Box::new(t), Box::new(v))
                } else {
                    ExprModel::CompoundAssign(
                        Box::new(t),
                        op_assign_token(ts, q)->0,
                        Box::new(v),
                    )
                },
                z,
            ),
        ),
{
    assert(op_token(ts, q) is None);
    assert(binary_from(ts, q, t, 1) == Ok::<(ExprModel, int), int>((t, q)));
    assert(binary(ts, p, 1) == Ok::<(ExprModel, int), int>((t, q)));
    assert(ternary(ts, p) == Ok::<(ExprModel, int), int>((t, q)));
}

/// A choice behind its opening parenthesis.
proof fn lemma_choice(
    ts: Seq<TokenView>,
    p: int,
    c: ExprModel,
    q: int,
    a: ExprModel,
    r: int,
    b: ExprModel,
    z: int,
)
    requires
        0 <= p < q < r < z <= ts.len(),
        unary(ts, p) == Ok::<(ExprModel, int), int>((c, q)),
        is_punct(ts, q, Punct::Question),
        expression(ts, q + 1) == Ok::<(ExprModel, int), int>((a, r)),
        is_punct(ts, r, Punct::Colon),
        expression(ts, r + 1) == Ok::<(ExprModel, int), int>((b, z)),
        is_quiet(ts, z),
    ensures
        expression(ts, p) == Ok::<(ExprModel, int), int>(
            (ExprModel::Ternary(Box::new(c), Box::new(a), Box::new(b)), z),
        ),
{
    let e = ExprModel::Ternary(Box::new(c), Box::new(a), Box::new(b));
    assert(op_token(ts, q) is None);
    assert(binary_from(ts, q, c, 1) == Ok::<(ExprModel, int), int>((c, q)));
    assert(binary(ts, p, 1) == Ok::<(ExprModel, int), int>((c, q)));
    assert(ternary(ts, p) == Ok::<(ExprModel, int), int>((e, z)));
}

/// An expression in parentheses.
proof fn lemma_parenthesized(ts: Seq<TokenView>, p: int, e: ExprModel, q: int)
    requires
        0 <= p < q < ts.len(),
        is_punct(ts, p, Punct::LParen),
        expression(ts, p + 1) == Ok::<(ExprModel, int), int>((e, q)),
        is_punct(ts, q, Punct::RParen),
    ensures
        postfix(ts, p) == postfix_from(ts, q + 1, e),
{
    assert(primary(ts, p) == Ok::<(ExprModel, int), int>((e, q + 1)));
}

/// The words for truth values are no types.
#[verifier::spinoff_prover]
proof fn lemma_truth_words()
    ensures
        type_of_word("true"@) is None,
        type_of_word("false"@) is None,
        "true"@ != "false"@,
{
    reveal_strlit("void");
    reveal_strlit("bool");
    reveal_strlit("int");
    reveal_strlit("float");
    reveal_strlit("half");
    reveal_strlit("vec2");
    reveal_strlit("float2");
    reveal_strlit("vec3");
    reveal_strlit("float3");
    reveal_strlit("vec4");
    reveal_strlit("float4");
    reveal_strlit("half2");
    reveal_strlit("half3");
    reveal_strlit("half4");
    reveal_strlit("mat2");
    reveal_strlit("float2x2");
    reveal_strlit("mat3");
    reveal_strlit("float3x3");
    reveal_strlit("mat4");
    reveal_strlit("float4x4");
    reveal_strlit("shader");
    reveal_strlit("colorFilter");
    reveal_strlit("blender");
    reveal_strlit("true");
    reveal_strlit("false");
    assert("true"@[0] != "void"@[0]);
    assert("true"@[0] != "bool"@[0]);
    assert("true"@[0] != "half"@[0]);
    assert("true"@[0] != "vec2"@[0]);
    assert("true"@[0] != "vec3"@[0]);
    assert("true"@[0] != "vec4"@[0]);
    assert("true"@[0] != "mat2"@[0]);
    assert("true"@[0] != "mat3"@[0]);
    assert("true"@[0] != "mat4"@[0]);
    assert("false"@[1] != "float"@[1]);
    assert("false"@[0] != "half2"@[0]);
    assert("false"@[0] != "half3"@[0]);
    assert("false"@[0] != "half4"@[0]);
    assert("void"@.len() == 4);
    assert("bool"@.len() == 4);
    assert("int"@.len() == 3);
    assert("float"@.len() == 5);
    assert("half"@.len() == 4);
    assert("vec2"@.len() == 4);
    assert("float2"@.len() == 6);
    assert("vec3"@.len() == 4);
    assert("float3"@.len() == 6);
    assert("vec4"@.len() == 4);
    assert("float4"@.len() == 6);
    assert("half2"@.len() == 5);
    assert("half3"@.len() == 5);
    assert("half4"@.len() == 5);
    assert("mat2"@.len() == 4);
    assert("float2x2"@.len() == 8);
    assert("mat3"@.len() == 4);
    assert("float3x3"@.len() == 8);
    assert("mat4"@.len() == 4);
    assert("float4x4"@.len() == 8);
    assert("shader"@.len() == 6);
    assert("colorFilter"@.len() == 11);
    assert("blender"@.len() == 7);
    assert("true"@.len() == 4);
    assert("false"@.len() == 5);
}

/// The keywords are no types.
#[verifier::spinoff_prover]
proof fn lemma_keyword_types()
    ensures
        type_of_word("if"@) is None,
        type_of_word("for"@) is None,
        type_of_word("while"@) is None,
        type_of_word("do"@) is None,
        type_of_word("return"@) is None,
        type_of_word("break"@) is None,
        type_of_word("continue"@) is None,
        type_of_word("discard"@) is None,
{
    reveal_strlit("void");
    reveal_strlit("bool");
    reveal_strlit("int");
    reveal_strlit("float");
    reveal_strlit("half");
    reveal_strlit("vec2");
    reveal_strlit("float2");
    reveal_strlit("vec3");
    reveal_strlit("float3");
    reveal_strlit("vec4");
    reveal_strlit("float4");
    reveal_strlit("half2");
    reveal_strlit("half3");
    reveal_strlit("half4");
    reveal_strlit("mat2");
    reveal_strlit("float2x2");
    reveal_strlit("mat3");
    reveal_strlit("float3x3");
    reveal_strlit("mat4");
    reveal_strlit("float4x4");
    reveal_strlit("shader");
    reveal_strlit("colorFilter");
    reveal_strlit("blender");
    reveal_strlit("if");
    reveal_strlit("for");
    reveal_strlit("while");
    reveal_strlit("do");
    reveal_strlit("return");
    reveal_strlit("break");
    reveal_strlit("continue");
    reveal_strlit("discard");
    assert("for"@[0] != "int"@[0]);
    assert("while"@[0] != "float"@[0]);
    assert("while"@[0] != "half2"@[0]);
    assert("while"@[0] != "half3"@[0]);
    assert("while"@[0] != "half4"@[0]);
    assert("return"@[0] != "float2"@[0]);
    assert("return"@[0] != "float3"@[0]);
    assert("return"@[0] != "float4"@[0]);
    assert("return"@[0] != "shader"@[0]);
    assert("break"@[0] != "float"@[0]);
    assert("break"@[0] != "half2"@[0]);
    assert("break"@[0] != "half3"@[0]);
    assert("break"@[0] != "half4"@[0]);
    assert("continue"@[0] != "float2x2"@[0]);
    assert("continue"@[0] != "float3x3"@[0]);
    assert("continue"@[0] != "float4x4"@[0]);
    assert("discard"@[0] != "blender"@[0]);
    assert("void"@.len() == 4);
    assert("bool"@.len() == 4);
    assert("int"@.len() == 3);
    assert("float"@.len() == 5);
    assert("half"@.len() == 4);
    assert("vec2"@.len() == 4);
    assert("float2"@.len() == 6);
    assert("vec3"@.len() == 4);
    assert("float3"@.len() == 6);
    assert("vec4"@.len() == 4);
    assert("float4"@.len() == 6);
    assert("half2"@.len() == 5);
    assert("half3"@.len() == 5);
    assert("half4"@.len() == 5);
    assert("mat2"@.len() == 4);
    assert("float2x2"@.len() == 8);
    assert("mat3"@.len() == 4);
    assert("float3x3"@.len() == 8);
    assert("mat4"@.len() == 4);
    assert("float4x4"@.len() == 8);
    assert("shader"@.len() == 6);
    assert("colorFilter"@.len() == 11);
    assert("blender"@.len() == 7);
    assert("if"@.len() == 2);
    assert("for"@.len() == 3);
    assert("while"@.len() == 5);
    assert("do"@.len() == 2);
    assert("return"@.len() == 6);
    assert("break"@.len() == 5);
    assert("continue"@.len() == 8);
    assert("discard"@.len() == 7);
}

/// The keywords differ from each other and from the words for truth values.
#[verifier::spinoff_prover]
proof fn lemma_keywords()
    ensures
        "true"@ != "false"@,
        "true"@ != "if"@,
        "true"@ != "for"@,
        "true"@ != "while"@,
        "true"@ != "do"@,
        "true"@ != "return"@,
        "true"@ != "break"@,
        "true"@ != "continue"@,
        "true"@ != "discard"@,
        "false"@ != "if"@,
        "false"@ != "for"@,
        "false"@ != "while"@,
        "false"@ != "do"@,
        "false"@ != "return"@,
        "false"@ != "break"@,
        "false"@ != "continue"@,
        "false"@ != "discard"@,
        "if"@ != "for"@,
        "if"@ != "while"@,
        "if"@ != "do"@,
        "if"@ != "return"@,
        "if"@ != "break"@,
        "if"@ != "continue"@,
        "if"@ != "discard"@,
        "for"@ != "while"@,
        "for"@ != "do"@,
        "for"@ != "return"@,
        "for"@ != "break"@,
        "for"@ != "continue"@,
        "for"@ != "discard"@,
        "while"@ != "do"@,
        "while"@ != "return"@,
        "while"@ != "break"@,
        "while"@ != "continue"@,
        "while"@ != "discard"@,
        "do"@ != "return"@,
        "do"@ != "break"@,
        "do"@ != "continue"@,
        "do"@ != "discard"@,
        "return"@ != "break"@,
        "return"@ != "continue"@,
        "return"@ != "discard"@,
        "break"@ != "continue"@,
        "break"@ != "discard"@,
        "continue"@ != "discard"@,
        "while"@ != "else"@,
{
    reveal_strlit("true");
    reveal_strlit("false");
    reveal_strlit("if");
    reveal_strlit("for");
    reveal_strlit("while");
    reveal_strlit("do");
    reveal_strlit("return");
    reveal_strlit("break");
    reveal_strlit("continue");
    reveal_strlit("discard");
    reveal_strlit("else");
    assert("false"@[0] != "while"@[0]);
    assert("false"@[0] != "break"@[0]);
    assert("if"@[0] != "do"@[0]);
    assert("while"@[0] != "break"@[0]);
    assert("true"@.len() == 4);
    assert("false"@.len() == 5);
    assert("if"@.len() == 2);
    assert("for"@.len() == 3);
    assert("while"@.len() == 5);
    assert("do"@.len() == 2);
    assert("return"@.len() == 6);
    assert("break"@.len() == 5);
    assert("continue"@.len() == 8);
    assert("discard"@.len() == 7);
    assert("else"@.len() == 4);
}

/// Whether a word can stand before arguments.
#[verifier::opaque]
spec fn is_callable(w: Seq<char>) -> bool {
    is_name(w) || type_of_word(w) is Some
}

/// What a word and arguments behind it mean.
#[verifier::opaque]
spec fn applied(w: Seq<char>, args: Seq<ExprModel>) -> ExprModel {
    if type_of_word(w) is Some {
        ExprModel::Constructor(type_of_word(w)->0, args)
    } else {
        ExprModel::Call(w, args)
    }
}

/// A name or a type before arguments.
proof fn lemma_applied(ts: Seq<TokenView>, p: int, w: Seq<char>, args: Seq<ExprModel>, z: int)
    requires
        0 <= p,
        is_word(ts, p, w),
        is_punct(ts, p + 1, Punct::LParen),
        p + 1 < z <= ts.len(),
        arguments(ts, p + 2) == Ok::<(Seq<ExprModel>, int), int>((args, z)),
        is_callable(w),
    ensures
        postfix(ts, p) == postfix_from(
            ts,
            z,
            applied(w, args),
        ),
{
    lemma_truth_words();
    reveal(is_callable);
    reveal(applied);
    let e = applied(w, args);
    assert(primary(ts, p) == Ok::<(ExprModel, int), int>((e, z)));
}

/// A name or a literal by itself.
proof fn lemma_alone(ts: Seq<TokenView>, p: int, d: Dialect, e: ExprModel)
    requires
        0 <= p,
        e is IntLit || e is FloatLit || e is BoolLit || e is Var,
        plain_expr(d, e),
        stands(ts, p, expr_tokens(d, e)),
        !is_punct(ts, p + expr_tokens(d, e).len(), Punct::LParen),
    ensures
        postfix(ts, p) == postfix_from(ts, p + expr_tokens(d, e).len(), e),
{
    assert(ts[p + 0] == expr_tokens(d, e)[0]);
    lemma_truth_words();
    assert(primary(ts, p) == Ok::<(ExprModel, int), int>((e, p + 1)));
}

/// Whether a token begins no expression of its own but goes before one, or ends
/// something.
spec fn begins_none(t: TokenView) -> bool {
    match t {
        TokenView::Punct(x) => x != Punct::LParen && x != Punct::Inc && x != Punct::Dec,
        TokenView::Word(w) => type_of_word(w) is None && is_reserved(w) && w != "true"@ && w
            != "false"@,
        _ => false,
    }
}

/// An expression begins with a token that can begin one.
proof fn lemma_first_token(d: Dialect, e: ExprModel)
    requires
        plain_expr(d, e),
    ensures
        expr_tokens(d, e).len() > 0,
        !begins_none(expr_tokens(d, e)[0]),
        expr_tokens(d, e)[0] is Punct && e !is PreIncDec ==> expr_tokens(d, e)[0]->Punct_0
            == Punct::LParen,
        expr_tokens(d, e)[0] is Word && type_of_word(expr_tokens(d, e)[0]->Word_0) is Some ==> {
            expr_tokens(d, e).len() > 1 && expr_tokens(d, e)[1] == TokenView::Punct(Punct::LParen)
        },
    decreases e,
{
    lemma_truth_words();
    match e {
        ExprModel::Field(x, _) => lemma_first_token(d, *x),
        ExprModel::Index(x, _) => lemma_first_token(d, *x),
        ExprModel::PostIncDec(x, _) => lemma_first_token(d, *x),
        _ => {},
    }
}

/// An expression has tokens.
proof fn lemma_some_token(d: Dialect, e: ExprModel)
    requires
        plain_expr(d, e),
    ensures
        expr_tokens(d, e).len() > 0,
{
    lemma_first_token(d, e);
}

/// The arguments of a call, from one of them on.
#[verifier::spinoff_prover]
proof fn lemma_read_args(ts: Seq<TokenView>, p: int, d: Dialect, args: Seq<ExprModel>, k: nat)
    requires
        0 <= p,
        k < args.len(),
        stands(ts, p, args_tokens(d, args, args.len())),
        is_punct(ts, p + args_tokens(d, args, args.len()).len(), Punct::RParen),
        forall|i: int| 0 <= i < args.len() ==> plain_expr(d, #[trigger] args[i]),
        !(d is Wgsl),
    ensures
        arguments_from(
            ts,
            p + args_tokens(d, args, k).len() + if k == 0 {
                0int
            } else {
                1int
            },
            args.take(k as int),
        ) == Ok::<(Seq<ExprModel>, int), int>(
            (args, p + args_tokens(d, args, args.len()).len() + 1),
        ),
    decreases args, args.len() - k,
{
    lemma_prefix(ts, p, d, args, args.len(), k + 1);
    let a = args_tokens(d, args, k);
    let b = expr_tokens(d, args[k as int]);
    let q = p + a.len() + if k == 0 {
        0int
    } else {
        1int
    };
    lemma_first_token(d, args[k as int]);
    if k == 0 {
        assert(args_tokens(d, args, 1) == b);
    } else {
        assert(args_tokens(d, args, k + 1) == a + mark(Punct::Comma) + b);
        lemma_split3(ts, p, a, mark(Punct::Comma), b);
    }
    let z = q + b.len();
    if k + 1 < args.len() {
        lemma_prefix(ts, p, d, args, args.len(), k + 2);
        let c = expr_tokens(d, args[k as int + 1]);
        assert(args_tokens(d, args, k + 2) == args_tokens(d, args, k + 1) + mark(Punct::Comma) + c);
        lemma_split3(ts, p, args_tokens(d, args, k + 1), mark(Punct::Comma), c);
        assert(ts[z + 0] == mark(Punct::Comma)[0]);
        assert(is_punct(ts, z, Punct::Comma));
        lemma_read_expr(ts, q, d, args[k as int]);
        lemma_read_args(ts, p, d, args, k + 1);
        assert(args.take(k as int).push(args[k as int]) =~= args.take(k as int + 1));
    } else {
        assert(args_tokens(d, args, args.len()).len() == z - p);
        lemma_read_expr(ts, q, d, args[k as int]);
        assert(args.take(k as int).push(args[k as int]) =~= args);
    }
}

/// The tokens of the first arguments stand before the others.
proof fn lemma_prefix(ts: Seq<TokenView>, p: int, d: Dialect, args: Seq<ExprModel>, n: nat, k: nat)
    requires
        k <= n <= args.len(),
        stands(ts, p, args_tokens(d, args, n)),
    ensures
        stands(ts, p, args_tokens(d, args, k)),
    decreases n,
{
    if k < n {
        if n == 1 {
            assert(args_tokens(d, args, 0) =~= Seq::empty());
        } else {
            lemma_split3(
                ts,
                p,
                args_tokens(d, args, (n - 1) as nat),
                mark(Punct::Comma),
                expr_tokens(d, args[n - 1]),
            );
            lemma_prefix(ts, p, d, args, (n - 1) as nat, k);
        }
    }
}

/// The arguments of a call are read back.
#[verifier::spinoff_prover]
proof fn lemma_read_arguments(ts: Seq<TokenView>, p: int, d: Dialect, args: Seq<ExprModel>)
    requires
        0 <= p,
        stands(ts, p, args_tokens(d, args, args.len())),
        is_punct(ts, p + args_tokens(d, args, args.len()).len(), Punct::RParen),
        forall|i: int| 0 <= i < args.len() ==> plain_expr(d, #[trigger] args[i]),
        !(d is Wgsl),
    ensures
        arguments(ts, p) == Ok::<(Seq<ExprModel>, int), int>(
            (args, p + args_tokens(d, args, args.len()).len() + 1),
        ),
    decreases args, args.len() + 1,
{
    if args.len() == 0 {
        assert(args =~= Seq::empty());
    } else {
        lemma_read_args(ts, p, d, args, 0);
        assert(args.take(0) =~= Seq::empty());
        assert(args_tokens(d, args, 0) =~= Seq::empty());
        assert(!is_punct(ts, p, Punct::RParen)) by {
            lemma_first_token(d, args[0]);
            lemma_prefix(ts, p, d, args, args.len(), 1);
            assert(args_tokens(d, args, 1) == expr_tokens(d, args[0]));
            assert(ts[p + 0] == expr_tokens(d, args[0])[0]);
        }
    }
}

/// A call or a construction is read back.
#[verifier::spinoff_prover]
proof fn lemma_read_applied(ts: Seq<TokenView>, p: int, d: Dialect, w: Seq<char>, args: Seq<ExprModel>)
    requires
        0 <= p,
        stands(
            ts,
            p,
            word(w) + mark(Punct::LParen) + args_tokens(d, args, args.len()) + mark(Punct::RParen),
        ),
        is_callable(w),
        forall|i: int| 0 <= i < args.len() ==> plain_expr(d, #[trigger] args[i]),
        !(d is Wgsl),
    ensures
        postfix(ts, p) == postfix_from(
            ts,
            p + 3 + args_tokens(d, args, args.len()).len(),
            applied(w, args),
        ),
    decreases args, args.len() + 2,
{
    let t = args_tokens(d, args, args.len());
    lemma_split4(ts, p, word(w), mark(Punct::LParen), t, mark(Punct::RParen));
    let z = p + 2 + t.len();
    assert(ts[p + 0] == word(w)[0]);
    assert(ts[p + 1 + 0] == mark(Punct::LParen)[0]);
    assert(ts[z + 0] == mark(Punct::RParen)[0]);
    lemma_read_arguments(ts, p + 2, d, args);
    lemma_applied(ts, p, w, args, z + 1);
}

/// An expression is read back where no operator goes on with it.
proof fn lemma_read_expr(ts: Seq<TokenView>, p: int, d: Dialect, e: ExprModel)
    requires
        0 <= p,
        stands(ts, p, expr_tokens(d, e)),
        plain_expr(d, e),
        !(d is Wgsl),
        is_over(ts, p + expr_tokens(d, e).len()),
        is_quiet(ts, p + expr_tokens(d, e).len()),
    ensures
        expression(ts, p) == Ok::<(ExprModel, int), int>((e, p + expr_tokens(d, e).len())),
    decreases e, 3nat,
{
    lemma_read_unary(ts, p, d, e);
    lemma_first_token(d, e);
    lemma_climb(ts, p, e, p + expr_tokens(d, e).len());
}

/// An expression is read back as an operand.
proof fn lemma_read_unary(ts: Seq<TokenView>, p: int, d: Dialect, e: ExprModel)
    requires
        0 <= p,
        stands(ts, p, expr_tokens(d, e)),
        plain_expr(d, e),
        !(d is Wgsl),
        is_over(ts, p + expr_tokens(d, e).len()),
    ensures
        unary(ts, p) == Ok::<(ExprModel, int), int>((e, p + expr_tokens(d, e).len())),
    decreases e, 2nat,
{
    let q = p + expr_tokens(d, e).len();
    lemma_first_token(d, e);
    assert(ts[p + 0] == expr_tokens(d, e)[0]);
    if let ExprModel::PreIncDec(x, inc) = e {
        lemma_stands_split(ts, p, mark(step_punct(inc)), expr_tokens(d, *x));
        lemma_read_unary(ts, p + 1, d, *x);
        assert(prefix_at(ts, p) == Some(step_punct(inc)));
        assert(prefixed(step_punct(inc), *x) == e);
    } else {
        assert(prefix_at(ts, p) is None);
        lemma_read_postfix(ts, p, d, e);
        assert(postfix_from(ts, q, e) == Ok::<(ExprModel, int), int>((e, q)));
    }
}

/// An operation is read back up to what follows it.
#[verifier::spinoff_prover]
proof fn lemma_read_binary(ts: Seq<TokenView>, p: int, d: Dialect, e: ExprModel)
    requires
        e is Binary,
        0 <= p,
        stands(ts, p, expr_tokens(d, e)),
        plain_expr(d, e),
        !(d is Wgsl),
        !is_punct(ts, p + expr_tokens(d, e).len(), Punct::LParen),
    ensures
        postfix(ts, p) == postfix_from(ts, p + expr_tokens(d, e).len(), e),
    decreases e, 0nat,
{
    let z = p + expr_tokens(d, e).len();
    if let ExprModel::Binary(l, op, r) = e {
        let (a, b) = (expr_tokens(d, *l), expr_tokens(d, *r));
        lemma_split5(ts, p, mark(Punct::LParen), a, mark(Punct::Op(op)), b, mark(Punct::RParen));
        let q = p + 1 + a.len();
        assert(ts[p + 0] == mark(Punct::LParen)[0]);
        assert(ts[q + 0] == mark(Punct::Op(op))[0]);
        assert(ts[z - 1 + 0] == mark(Punct::RParen)[0]);
        lemma_some_token(d, *l);
        lemma_some_token(d, *r);
        lemma_read_unary(ts, p + 1, d, *l);
        lemma_read_unary(ts, q + 1, d, *r);
        lemma_operation(ts, p + 1, *l, q, op, *r, z - 1);
        lemma_parenthesized(ts, p, e, z - 1);
    }
}

/// A prefixed expression is read back up to what follows it.
#[verifier::spinoff_prover]
proof fn lemma_read_prefixed(ts: Seq<TokenView>, p: int, d: Dialect, e: ExprModel)
    requires
        e is Unary,
        0 <= p,
        stands(ts, p, expr_tokens(d, e)),
        plain_expr(d, e),
        !(d is Wgsl),
        !is_punct(ts, p + expr_tokens(d, e).len(), Punct::LParen),
    ensures
        postfix(ts, p) == postfix_from(ts, p + expr_tokens(d, e).len(), e),
    decreases e, 0nat,
{
    let z = p + expr_tokens(d, e).len();
    if let ExprModel::Unary(op, x) = e {
        let a = expr_tokens(d, *x);
        lemma_split4(ts, p, mark(Punct::LParen), mark(unary_punct(op)), a, mark(Punct::RParen));
        assert(ts[p + 0] == mark(Punct::LParen)[0]);
        assert(ts[p + 1 + 0] == mark(unary_punct(op))[0]);
        assert(ts[z - 1 + 0] == mark(Punct::RParen)[0]);
        lemma_some_token(d, *x);
        lemma_read_unary(ts, p + 2, d, *x);
        assert(prefix_at(ts, p + 1) == Some(unary_punct(op)));
        assert(prefixed(unary_punct(op), *x) == e);
        assert(unary(ts, p + 1) == Ok::<(ExprModel, int), int>((e, z - 1)));
        lemma_climb(ts, p + 1, e, z - 1);
        lemma_parenthesized(ts, p, e, z - 1);
    }
}

/// An access to a field is read back up to what follows it.
#[verifier::spinoff_prover]
proof fn lemma_read_field(ts: Seq<TokenView>, p: int, d: Dialect, e: ExprModel)
    requires
        e is Field,
        0 <= p,
        stands(ts, p, expr_tokens(d, e)),
        plain_expr(d, e),
        !(d is Wgsl),
        !is_punct(ts, p + expr_tokens(d, e).len(), Punct::LParen),
    ensures
        postfix(ts, p) == postfix_from(ts, p + expr_tokens(d, e).len(), e),
    decreases e, 0nat,
{
    let z = p + expr_tokens(d, e).len();
    if let ExprModel::Field(x, field) = e {
        let a = expr_tokens(d, *x);
        lemma_split3(ts, p, a, mark(Punct::Dot), word(field));
        let q = p + a.len();
        assert(ts[q + 0] == mark(Punct::Dot)[0]);
        assert(ts[q + 1 + 0] == word(field)[0]);
        lemma_read_postfix(ts, p, d, *x);
        assert(name_at(ts, q + 1) == Some(field));
        assert(postfix_from(ts, q, *x) == postfix_from(ts, q + 2, e));
    }
}

/// An access to an element is read back up to what follows it.
#[verifier::spinoff_prover]
proof fn lemma_read_index(ts: Seq<TokenView>, p: int, d: Dialect, e: ExprModel)
    requires
        e is Index,
        0 <= p,
        stands(ts, p, expr_tokens(d, e)),
        plain_expr(d, e),
        !(d is Wgsl),
        !is_punct(ts, p + expr_tokens(d, e).len(), Punct::LParen),
    ensures
        postfix(ts, p) == postfix_from(ts, p + expr_tokens(d, e).len(), e),
    decreases e, 0nat,
{
    let z = p + expr_tokens(d, e).len();
    if let ExprModel::Index(x, k) = e {
        let (a, b) = (expr_tokens(d, *x), expr_tokens(d, *k));
        lemma_split4(ts, p, a, mark(Punct::LBracket), b, mark(Punct::RBracket));
        let q = p + a.len();
        assert(ts[q + 0] == mark(Punct::LBracket)[0]);
        assert(ts[z - 1 + 0] == mark(Punct::RBracket)[0]);
        lemma_read_postfix(ts, p, d, *x);
        lemma_read_expr(ts, q + 1, d, *k);
        assert(postfix_from(ts, q, *x) == postfix_from(ts, z, e));
    }
}

/// A conditional expression is read back up to what follows it.
#[verifier::spinoff_prover]
#[verifier::rlimit(40)]
proof fn lemma_read_choice(ts: Seq<TokenView>, p: int, d: Dialect, e: ExprModel)
    requires
        e is Ternary,
        0 <= p,
        stands(ts, p, expr_tokens(d, e)),
        plain_expr(d, e),
        !(d is Wgsl),
        !is_punct(ts, p + expr_tokens(d, e).len(), Punct::LParen),
    ensures
        postfix(ts, p) == postfix_from(ts, p + expr_tokens(d, e).len(), e),
    decreases e, 0nat,
{
    let z = p + expr_tokens(d, e).len();
    if let ExprModel::Ternary(c, a, b) = e {
        let (x, y, w) = (expr_tokens(d, *c), expr_tokens(d, *a), expr_tokens(d, *b));
        let (m, n) = (mark(Punct::Question), mark(Punct::Colon));
        lemma_split3(ts, p, mark(Punct::LParen) + x + m + y + n, w, mark(Punct::RParen));
        lemma_split5(ts, p, mark(Punct::LParen), x, m, y, n);
        let q = p + 1 + x.len();
        let r = q + 1 + y.len();
        assert(ts[p + 0] == mark(Punct::LParen)[0]);
        assert(ts[q + 0] == m[0]);
        assert(ts[r + 0] == n[0]);
        assert(ts[z - 1 + 0] == mark(Punct::RParen)[0]);
        lemma_some_token(d, *c);
        lemma_some_token(d, *a);
        lemma_some_token(d, *b);
        lemma_read_unary(ts, p + 1, d, *c);
        lemma_read_expr(ts, q + 1, d, *a);
        lemma_read_expr(ts, r + 1, d, *b);
        lemma_choice(ts, p + 1, *c, q, *a, r, *b, z - 1);
        lemma_parenthesized(ts, p, e, z - 1);
    }
}

/// An assignment is read back up to what follows it.
#[verifier::spinoff_prover]
proof fn lemma_read_assign(ts: Seq<TokenView>, p: int, d: Dialect, e: ExprModel)
    requires
        e is Assign,
        0 <= p,
        stands(ts, p, expr_tokens(d, e)),
        plain_expr(d, e),
        !(d is Wgsl),
        !is_punct(ts, p + expr_tokens(d, e).len(), Punct::LParen),
    ensures
        postfix(ts, p) == postfix_from(ts, p + expr_tokens(d, e).len(), e),
    decreases e, 0nat,
{
    let z = p + expr_tokens(d, e).len();
    if let ExprModel::Assign(t, v) = e {
        let (a, b) = (expr_tokens(d, *t), expr_tokens(d, *v));
        let m = mark(Punct::Assign);
        lemma_split5(ts, p, mark(Punct::LParen), a, m, b, mark(Punct::RParen));
        let q = p + 1 + a.len();
        assert(ts[p + 0] == mark(Punct::LParen)[0]);
        assert(ts[q + 0] == m[0]);
        assert(ts[z - 1 + 0] == mark(Punct::RParen)[0]);
        lemma_some_token(d, *t);
        lemma_some_token(d, *v);
        lemma_read_unary(ts, p + 1, d, *t);
        lemma_read_expr(ts, q + 1, d, *v);
        lemma_assignment(ts, p + 1, *t, q, *v, z - 1);
        lemma_parenthesized(ts, p, e, z - 1);
    }
}

/// An assignment with an operation is read back up to what follows it.
#[verifier::spinoff_prover]
proof fn lemma_read_compound(ts: Seq<TokenView>, p: int, d: Dialect, e: ExprModel)
    requires
        e is CompoundAssign,
        0 <= p,
        stands(ts, p, expr_tokens(d, e)),
        plain_expr(d, e),
        !(d is Wgsl),
        !is_punct(ts, p + expr_tokens(d, e).len(), Punct::LParen),
    ensures
        postfix(ts, p) == postfix_from(ts, p + expr_tokens(d, e).len(), e),
    decreases e, 0nat,
{
    let z = p + expr_tokens(d, e).len();
    if let ExprModel::CompoundAssign(t, op, v) = e {
        let (a, b) = (expr_tokens(d, *t), expr_tokens(d, *v));
        let m = mark(Punct::OpAssign(op));
        lemma_split5(ts, p, mark(Punct::LParen), a, m, b, mark(Punct::RParen));
        let q = p + 1 + a.len();
        assert(ts[p + 0] == mark(Punct::LParen)[0]);
        assert(ts[q + 0] == m[0]);
        assert(ts[z - 1 + 0] == mark(Punct::RParen)[0]);
        lemma_some_token(d, *t);
        lemma_some_token(d, *v);
        lemma_read_unary(ts, p + 1, d, *t);
        lemma_read_expr(ts, q + 1, d, *v);
        lemma_assignment(ts, p + 1, *t, q, *v, z - 1);
        lemma_parenthesized(ts, p, e, z - 1);
    }
}

/// A step behind its operand is read back up to what follows it.
#[verifier::spinoff_prover]
proof fn lemma_read_step(ts: Seq<TokenView>, p: int, d: Dialect, e: ExprModel)
    requires
        e is PostIncDec,
        0 <= p,
        stands(ts, p, expr_tokens(d, e)),
        plain_expr(d, e),
        !(d is Wgsl),
        !is_punct(ts, p + expr_tokens(d, e).len(), Punct::LParen),
    ensures
        postfix(ts, p) == postfix_from(ts, p + expr_tokens(d, e).len(), e),
    decreases e, 0nat,
{
    let z = p + expr_tokens(d, e).len();
    if let ExprModel::PostIncDec(x, inc) = e {
        let a = expr_tokens(d, *x);
        lemma_stands_split(ts, p, a, mark(step_punct(inc)));
        let q = p + a.len();
        assert(ts[q + 0] == mark(step_punct(inc))[0]);
        lemma_read_postfix(ts, p, d, *x);
        assert(postfix_from(ts, q, *x) == postfix_from(ts, z, e));
    }
}

/// A call is read back up to what follows it.
#[verifier::spinoff_prover]
proof fn lemma_read_call(ts: Seq<TokenView>, p: int, d: Dialect, e: ExprModel)
    requires
        e is Call,
        0 <= p,
        stands(ts, p, expr_tokens(d, e)),
        plain_expr(d, e),
        !(d is Wgsl),
        !is_punct(ts, p + expr_tokens(d, e).len(), Punct::LParen),
    ensures
        postfix(ts, p) == postfix_from(ts, p + expr_tokens(d, e).len(), e),
    decreases e, 0nat,
{
    if let ExprModel::Call(name, args) = e {
        assert(is_callable(name) && applied(name, args) == e) by {
            reveal(is_callable);
            reveal(applied);
        }
        lemma_read_applied(ts, p, d, name, args);
    }
}

/// A construction is read back up to what follows it.
#[verifier::spinoff_prover]
proof fn lemma_read_constructor(ts: Seq<TokenView>, p: int, d: Dialect, e: ExprModel)
    requires
        e is Constructor,
        0 <= p,
        stands(ts, p, expr_tokens(d, e)),
        plain_expr(d, e),
        !(d is Wgsl),
        !is_punct(ts, p + expr_tokens(d, e).len(), Punct::LParen),
    ensures
        postfix(ts, p) == postfix_from(ts, p + expr_tokens(d, e).len(), e),
    decreases e, 0nat,
{
    if let ExprModel::Constructor(ty, args) = e {
        assert(is_callable(d.type_text(ty)) && applied(d.type_text(ty), args) == e) by {
            reveal(is_callable);
            reveal(applied);
        }
        lemma_read_applied(ts, p, d, d.type_text(ty), args);
    }
}

/// An expression is read back up to what follows it.
#[verifier::spinoff_prover]
#[verifier::rlimit(40)]
proof fn lemma_read_postfix(ts: Seq<TokenView>, p: int, d: Dialect, e: ExprModel)
    requires
        0 <= p,
        stands(ts, p, expr_tokens(d, e)),
        plain_expr(d, e),
        !(d is Wgsl),
        e !is PreIncDec,
        !is_punct(ts, p + expr_tokens(d, e).len(), Punct::LParen),
    ensures
        postfix(ts, p) == postfix_from(ts, p + expr_tokens(d, e).len(), e),
    decreases e, 1nat,
{
    match e {
        ExprModel::Binary(..) => lemma_read_binary(ts, p, d, e),
        ExprModel::Unary(..) => lemma_read_prefixed(ts, p, d, e),
        ExprModel::Call(..) => lemma_read_call(ts, p, d, e),
        ExprModel::Constructor(..) => lemma_read_constructor(ts, p, d, e),
        ExprModel::Field(..) => lemma_read_field(ts, p, d, e),
        ExprModel::Index(..) => lemma_read_index(ts, p, d, e),
        ExprModel::Ternary(..) => lemma_read_choice(ts, p, d, e),
        ExprModel::Assign(..) => lemma_read_assign(ts, p, d, e),
        ExprModel::CompoundAssign(..) => lemma_read_compound(ts, p, d, e),
        ExprModel::PostIncDec(..) => lemma_read_step(ts, p, d, e),
        _ => lemma_alone(ts, p, d, e),
    }
}

// ---------------------------------------------------------------------------
// Statements
// ---------------------------------------------------------------------------

/// No keyword begins an expression.
proof fn lemma_begins_none()
    ensures
        begins_none(TokenView::Word("if"@)),
        begins_none(TokenView::Word("for"@)),
        begins_none(TokenView::Word("while"@)),
        begins_none(TokenView::Word("do"@)),
        begins_none(TokenView::Word("return"@)),
        begins_none(TokenView::Word("break"@)),
        begins_none(TokenView::Word("continue"@)),
        begins_none(TokenView::Word("discard"@)),
        begins_none(TokenView::Punct(Punct::LBrace)),
        begins_none(TokenView::Punct(Punct::RBrace)),
        begins_none(TokenView::Punct(Punct::Semi)),
        begins_none(TokenView::Punct(Punct::RParen)),
{
    lemma_keyword_types();
    lemma_keywords();
}

/// No expression begins with `else`, and no type or keyword is that word.
proof fn lemma_else()
    ensures
        begins_none(TokenView::Word("else"@)),
        type_of_word("else"@) is None,
        "else"@ != "if"@,
        "else"@ != "for"@,
        "else"@ != "while"@,
        "else"@ != "do"@,
        "else"@ != "return"@,
        "else"@ != "break"@,
        "else"@ != "continue"@,
        "else"@ != "discard"@,
{
    reveal_strlit("void");
    reveal_strlit("bool");
    reveal_strlit("int");
    reveal_strlit("float");
    reveal_strlit("half");
    reveal_strlit("vec2");
    reveal_strlit("float2");
    reveal_strlit("vec3");
    reveal_strlit("float3");
    reveal_strlit("vec4");
    reveal_strlit("float4");
    reveal_strlit("half2");
    reveal_strlit("half3");
    reveal_strlit("half4");
    reveal_strlit("mat2");
    reveal_strlit("float2x2");
    reveal_strlit("mat3");
    reveal_strlit("float3x3");
    reveal_strlit("mat4");
    reveal_strlit("float4x4");
    reveal_strlit("shader");
    reveal_strlit("colorFilter");
    reveal_strlit("blender");
    reveal_strlit("true");
    reveal_strlit("if");
    reveal_strlit("for");
    reveal_strlit("while");
    reveal_strlit("do");
    reveal_strlit("return");
    reveal_strlit("break");
    reveal_strlit("continue");
    reveal_strlit("discard");
    reveal_strlit("false");
    reveal_strlit("else");
    assert("else"@[0] != "void"@[0]);
    assert("else"@[0] != "bool"@[0]);
    assert("int"@.len() == 3);
    assert("float"@.len() == 5);
    assert("else"@[0] != "half"@[0]);
    assert("else"@[0] != "vec2"@[0]);
    assert("float2"@.len() == 6);
    assert("else"@[0] != "vec3"@[0]);
    assert("float3"@.len() == 6);
    assert("else"@[0] != "vec4"@[0]);
    assert("float4"@.len() == 6);
    assert("half2"@.len() == 5);
    assert("half3"@.len() == 5);
    assert("half4"@.len() == 5);
    assert("else"@[0] != "mat2"@[0]);
    assert("float2x2"@.len() == 8);
    assert("else"@[0] != "mat3"@[0]);
    assert("float3x3"@.len() == 8);
    assert("else"@[0] != "mat4"@[0]);
    assert("float4x4"@.len() == 8);
    assert("shader"@.len() == 6);
    assert("colorFilter"@.len() == 11);
    assert("blender"@.len() == 7);
    assert("else"@[0] != "true"@[0]);
    assert("if"@.len() == 2);
    assert("for"@.len() == 3);
    assert("while"@.len() == 5);
    assert("do"@.len() == 2);
    assert("return"@.len() == 6);
    assert("break"@.len() == 5);
    assert("continue"@.len() == 8);
    assert("discard"@.len() == 7);
    assert("false"@.len() == 5);
    assert("else"@.len() == 4);
}

/// An expression before a closing mark.
proof fn lemma_read_closed(ts: Seq<TokenView>, p: int, d: Dialect, e: ExprModel, x: Punct)
    requires
        0 <= p,
        x is Semi || x is RParen,
        stands(ts, p, expr_tokens(d, e)),
        is_punct(ts, p + expr_tokens(d, e).len(), x),
        plain_expr(d, e),
        !(d is Wgsl),
    ensures
        expression_then(ts, p, x) == Ok::<(ExprModel, int), int>(
            (e, p + expr_tokens(d, e).len() + 1),
        ),
{
    lemma_read_expr(ts, p, d, e);
}

/// An optional expression before a closing mark.
proof fn lemma_read_option(ts: Seq<TokenView>, p: int, d: Dialect, e: Option<ExprModel>, x: Punct)
    requires
        0 <= p,
        x is Semi || x is RParen,
        stands(ts, p, option_tokens(d, e)),
        is_punct(ts, p + option_tokens(d, e).len(), x),
        plain_option(d, e),
        !(d is Wgsl),
    ensures
        optional_then(ts, p, x) == Ok::<(Option<ExprModel>, int), int>(
            (e, p + option_tokens(d, e).len() + 1),
        ),
{
    if let Some(a) = e {
        lemma_read_closed(ts, p, d, a, x);
        lemma_first_token(d, a);
        assert(ts[p + 0] == expr_tokens(d, a)[0]);
    }
}

/// A condition in parentheses.
proof fn lemma_read_condition(ts: Seq<TokenView>, p: int, d: Dialect, c: ExprModel)
    requires
        0 <= p,
        stands(ts, p, mark(Punct::LParen)),
        stands(ts, p + 1, expr_tokens(d, c)),
        stands(ts, p + 1 + expr_tokens(d, c).len(), mark(Punct::RParen)),
        plain_expr(d, c),
        !(d is Wgsl),
    ensures
        condition(ts, p) == Ok::<(ExprModel, int), int>((c, p + expr_tokens(d, c).len() + 2)),
{
    let q = p + 1 + expr_tokens(d, c).len();
    assert(ts[p + 0] == mark(Punct::LParen)[0]);
    assert(ts[q + 0] == mark(Punct::RParen)[0]);
    lemma_read_closed(ts, p + 1, d, c, Punct::RParen);
}

/// A declaration or an expression is read back.
#[verifier::spinoff_prover]
proof fn lemma_read_simple(ts: Seq<TokenView>, p: int, d: Dialect, st: StmtModel)
    requires
        0 <= p,
        st is Expr || st is VarDecl,
        stands(ts, p, simple_tokens(d, st)),
        plain_stmt(d, st),
        !(d is Wgsl),
    ensures
        simple_statement(ts, p) == Ok::<(StmtModel, int), int>(
            (st, p + simple_tokens(d, st).len()),
        ),
{
    let z = p + simple_tokens(d, st).len();
    match st {
        StmtModel::Expr(e) => {
            let t = expr_tokens(d, e);
            lemma_stands_split(ts, p, t, mark(Punct::Semi));
            assert(ts[z - 1 + 0] == mark(Punct::Semi)[0]);
            lemma_read_closed(ts, p, d, e, Punct::Semi);
            lemma_first_token(d, e);
            assert(ts[p + 0] == t[0]);
            if t.len() > 1 {
                assert(ts[p + 1] == t[1]);
            }
        },
        StmtModel::VarDecl(ty, name, init) => {
            let w = d.type_text(ty);
            match init {
                None => {
                    lemma_split3(ts, p, word(w), word(name), mark(Punct::Semi));
                    assert(ts[p + 2 + 0] == mark(Punct::Semi)[0]);
                },
                Some(e) => {
                    lemma_split5(
                        ts,
                        p,
                        word(w),
                        word(name),
                        mark(Punct::Assign),
                        expr_tokens(d, e),
                        mark(Punct::Semi),
                    );
                    assert(ts[p + 2 + 0] == mark(Punct::Assign)[0]);
                    assert(ts[z - 1 + 0] == mark(Punct::Semi)[0]);
                    lemma_read_closed(ts, p + 3, d, e, Punct::Semi);
                },
            }
            assert(ts[p + 0] == word(w)[0]);
            assert(ts[p + 1 + 0] == word(name)[0]);
        },
        _ => {},
    }
}

/// A declaration or an expression begins with no keyword and no brace.
proof fn lemma_simple_start(d: Dialect, st: StmtModel)
    requires
        st is Expr || st is VarDecl,
        plain_stmt(d, st),
    ensures
        simple_tokens(d, st).len() > 0,
        !begins_none(simple_tokens(d, st)[0]),
{
    match st {
        StmtModel::Expr(e) => {
            lemma_first_token(d, e);
        },
        _ => {},
    }
}

/// A statement begins with a token that begins one.
proof fn lemma_stmt_start(d: Dialect, st: StmtModel)
    requires
        plain_stmt(d, st),
    ensures
        stmt_tokens(d, st).len() > 0,
        stmt_tokens(d, st)[0] != TokenView::Punct(Punct::RBrace),
        stmt_tokens(d, st)[0] != TokenView::Word("else"@),
{
    lemma_else();
    match st {
        StmtModel::Expr(_) => lemma_simple_start(d, st),
        StmtModel::VarDecl(..) => lemma_simple_start(d, st),
        _ => {},
    }
}

/// The head of a loop is read back.
#[verifier::spinoff_prover]
proof fn lemma_read_head(
    ts: Seq<TokenView>,
    p: int,
    d: Dialect,
    init: Option<Box<StmtModel>>,
    c: Option<ExprModel>,
    u: Option<ExprModel>,
)
    requires
        0 <= p,
        init matches Some(x) ==> plain_stmt(d, *x) && (*x is Expr || *x is VarDecl),
        plain_option(d, c),
        plain_option(d, u),
        !(d is Wgsl),
        stands(ts, p, head_tokens(d, init, c, u)),
    ensures
        ({
            let i: Option<StmtModel> = match init {
                None => None,
                Some(x) => Some(*x),
            };
            for_head(ts, p) == Ok::<
                (Option<StmtModel>, Option<ExprModel>, Option<ExprModel>, int),
                int,
            >((i, c, u, p + head_tokens(d, init, c, u).len()))
        }),
{
    let a = match init {
        None => mark(Punct::Semi),
        Some(x) => simple_tokens(d, *x),
    };
    let (b, e) = (option_tokens(d, c), option_tokens(d, u));
    lemma_split5(ts, p, a, b, mark(Punct::Semi), e, mark(Punct::RParen));
    let q = p + a.len();
    let r = q + b.len();
    let z = r + 1 + e.len();
    assert(ts[r + 0] == mark(Punct::Semi)[0]);
    assert(ts[z + 0] == mark(Punct::RParen)[0]);
    match init {
        None => {
            assert(ts[p + 0] == mark(Punct::Semi)[0]);
        },
        Some(x) => {
            lemma_read_simple(ts, p, d, *x);
            lemma_simple_start(d, *x);
            assert(ts[p + 0] == a[0]);
        },
    }
    lemma_read_option(ts, q, d, c, Punct::Semi);
    lemma_read_option(ts, r + 1, d, u, Punct::RParen);
}

/// Whether a statement may end at `q`: an `else` there would belong to it.
spec fn may_end(ts: Seq<TokenView>, q: int, st: StmtModel) -> bool {
    is_dangling(st) ==> !is_word(ts, q, "else"@)
}

/// A declaration or an expression is read back as a statement.
proof fn lemma_read_plain(ts: Seq<TokenView>, p: int, d: Dialect, st: StmtModel)
    requires
        0 <= p,
        st is Expr || st is VarDecl,
        stands(ts, p, stmt_tokens(d, st)),
        plain_stmt(d, st),
        !(d is Wgsl),
    ensures
        statement(ts, p) == Ok::<(StmtModel, int), int>((st, p + stmt_tokens(d, st).len())),
{
    lemma_read_simple(ts, p, d, st);
    lemma_simple_start(d, st);
    lemma_begins_none();
    assert(ts[p + 0] == simple_tokens(d, st)[0]);
}

/// A block is read back.
#[verifier::spinoff_prover]
proof fn lemma_read_block(ts: Seq<TokenView>, p: int, d: Dialect, st: StmtModel)
    requires
        0 <= p,
        st is Block,
        stands(ts, p, stmt_tokens(d, st)),
        plain_stmt(d, st),
        !(d is Wgsl),
    ensures
        statement(ts, p) == Ok::<(StmtModel, int), int>((st, p + stmt_tokens(d, st).len())),
    decreases st, 0nat,
{
    if let StmtModel::Block(stmts) = st {
        let t = stmts_tokens(d, stmts, stmts.len());
        lemma_split3(ts, p, mark(Punct::LBrace), t, mark(Punct::RBrace));
        let z = p + 1 + t.len();
        assert(ts[p + 0] == mark(Punct::LBrace)[0]);
        assert(ts[z + 0] == mark(Punct::RBrace)[0]);
        lemma_read_stmts(ts, p + 1, d, stmts, 0, Seq::empty());
        assert(Seq::empty() + stmts.take(0) =~= Seq::empty());
        assert(Seq::empty() + stmts =~= stmts);
        assert(stmts_tokens(d, stmts, 0) =~= Seq::empty());
    }
}

/// The tokens of the first statements stand before the others.
proof fn lemma_stmts_prefix(
    ts: Seq<TokenView>,
    p: int,
    d: Dialect,
    stmts: Seq<StmtModel>,
    n: nat,
    k: nat,
)
    requires
        k <= n <= stmts.len(),
        stands(ts, p, stmts_tokens(d, stmts, n)),
    ensures
        stands(ts, p, stmts_tokens(d, stmts, k)),
    decreases n,
{
    if k < n {
        lemma_stands_split(
            ts,
            p,
            stmts_tokens(d, stmts, (n - 1) as nat),
            stmt_tokens(d, stmts[n - 1]),
        );
        lemma_stmts_prefix(ts, p, d, stmts, (n - 1) as nat, k);
    }
}

/// The statements of a block are read back, from one of them on.
#[verifier::spinoff_prover]
proof fn lemma_read_stmts(
    ts: Seq<TokenView>,
    p: int,
    d: Dialect,
    stmts: Seq<StmtModel>,
    k: nat,
    pre: Seq<StmtModel>,
)
    requires
        0 <= p,
        k <= stmts.len(),
        stands(ts, p, stmts_tokens(d, stmts, stmts.len())),
        !is_word(ts, p + stmts_tokens(d, stmts, stmts.len()).len(), "else"@),
        forall|i: int| 0 <= i < stmts.len() ==> plain_stmt(d, #[trigger] stmts[i]),
        !(d is Wgsl),
    ensures
        statements(ts, p + stmts_tokens(d, stmts, k).len(), pre + stmts.take(k as int))
            == statements(ts, p + stmts_tokens(d, stmts, stmts.len()).len(), pre + stmts),
    decreases stmts, stmts.len() - k,
{
    if k == stmts.len() {
        assert(stmts.take(k as int) =~= stmts);
    } else {
        let st = stmts[k as int];
        let a = stmts_tokens(d, stmts, k);
        let b = stmt_tokens(d, st);
        lemma_stmts_prefix(ts, p, d, stmts, stmts.len(), k + 1);
        assert(stmts_tokens(d, stmts, k + 1) == a + b);
        lemma_stands_split(ts, p, a, b);
        let q = p + a.len();
        let z = q + b.len();
        lemma_stmt_start(d, st);
        assert(ts[q + 0] == b[0]);
        if k + 1 < stmts.len() {
            let next = stmt_tokens(d, stmts[k as int + 1]);
            lemma_stmts_prefix(ts, p, d, stmts, stmts.len(), k + 2);
            assert(stmts_tokens(d, stmts, k + 2) == stmts_tokens(d, stmts, k + 1) + next);
            lemma_stands_split(ts, p, stmts_tokens(d, stmts, k + 1), next);
            lemma_stmt_start(d, stmts[k as int + 1]);
            assert(ts[z + 0] == next[0]);
        }
        lemma_read_stmt(ts, q, d, st);
        lemma_read_stmts(ts, p, d, stmts, k + 1, pre);
        assert((pre + stmts.take(k as int)).push(st) =~= pre + stmts.take(k as int + 1));
    }
}

/// A conditional is read back.
#[verifier::spinoff_prover]
proof fn lemma_read_if(ts: Seq<TokenView>, p: int, d: Dialect, st: StmtModel)
    requires
        0 <= p,
        st is If,
        stands(ts, p, stmt_tokens(d, st)),
        plain_stmt(d, st),
        !(d is Wgsl),
        may_end(ts, p + stmt_tokens(d, st).len(), st),
    ensures
        statement(ts, p) == Ok::<(StmtModel, int), int>((st, p + stmt_tokens(d, st).len())),
    decreases st, 0nat,
{
    if let StmtModel::If(c, a, other) = st {
        lemma_keywords();
        let h = word("if"@) + mark(Punct::LParen) + expr_tokens(d, c) + mark(Punct::RParen);
        let ta = stmt_tokens(d, *a);
        if let Some(b) = other {
            lemma_split3(ts, p, h + ta, word("else"@), stmt_tokens(d, *b));
        }
        lemma_stands_split(ts, p, h, ta);
        lemma_split4(
            ts,
            p,
            word("if"@),
            mark(Punct::LParen),
            expr_tokens(d, c),
            mark(Punct::RParen),
        );
        let q = p + h.len();
        let r = q + ta.len();
        assert(ts[p + 0] == word("if"@)[0]);
        lemma_read_condition(ts, p + 1, d, c);
        lemma_read_stmt(ts, q, d, *a);
        if let Some(b) = other {
            assert(ts[r + 0] == word("else"@)[0]);
            lemma_read_stmt(ts, r + 1, d, *b);
        }
    }
}

/// A `for` loop is read back.
#[verifier::spinoff_prover]
proof fn lemma_read_for(ts: Seq<TokenView>, p: int, d: Dialect, st: StmtModel)
    requires
        0 <= p,
        st is For,
        stands(ts, p, stmt_tokens(d, st)),
        plain_stmt(d, st),
        !(d is Wgsl),
        may_end(ts, p + stmt_tokens(d, st).len(), st),
    ensures
        statement(ts, p) == Ok::<(StmtModel, int), int>((st, p + stmt_tokens(d, st).len())),
    decreases st, 0nat,
{
    if let StmtModel::For(init, c, u, b) = st {
        lemma_keywords();
        let h = head_tokens(d, init, c, u);
        lemma_split4(ts, p, word("for"@), mark(Punct::LParen), h, stmt_tokens(d, *b));
        let q = p + 2 + h.len();
        assert(ts[p + 0] == word("for"@)[0]);
        assert(ts[p + 1 + 0] == mark(Punct::LParen)[0]);
        lemma_read_head(ts, p + 2, d, init, c, u);
        lemma_read_stmt(ts, q, d, *b);
    }
}

/// A `while` loop is read back.
#[verifier::spinoff_prover]
proof fn lemma_read_while(ts: Seq<TokenView>, p: int, d: Dialect, st: StmtModel)
    requires
        0 <= p,
        st is While,
        stands(ts, p, stmt_tokens(d, st)),
        plain_stmt(d, st),
        !(d is Wgsl),
        may_end(ts, p + stmt_tokens(d, st).len(), st),
    ensures
        statement(ts, p) == Ok::<(StmtModel, int), int>((st, p + stmt_tokens(d, st).len())),
    decreases st, 0nat,
{
    if let StmtModel::While(c, b) = st {
        lemma_keywords();
        let h = word("while"@) + mark(Punct::LParen) + expr_tokens(d, c) + mark(Punct::RParen);
        lemma_stands_split(ts, p, h, stmt_tokens(d, *b));
        lemma_split4(
            ts,
            p,
            word("while"@),
            mark(Punct::LParen),
            expr_tokens(d, c),
            mark(Punct::RParen),
        );
        assert(ts[p + 0] == word("while"@)[0]);
        lemma_read_condition(ts, p + 1, d, c);
        lemma_read_stmt(ts, p + h.len(), d, *b);
    }
}

/// A `do` loop is read back.
#[verifier::spinoff_prover]
proof fn lemma_read_do(ts: Seq<TokenView>, p: int, d: Dialect, st: StmtModel)
    requires
        0 <= p,
        st is DoWhile,
        stands(ts, p, stmt_tokens(d, st)),
        plain_stmt(d, st),
        !(d is Wgsl),
    ensures
        statement(ts, p) == Ok::<(StmtModel, int), int>((st, p + stmt_tokens(d, st).len())),
    decreases st, 0nat,
{
    if let StmtModel::DoWhile(b, c) = st {
        lemma_keywords();
        let t = stmt_tokens(d, *b);
        let tc = expr_tokens(d, c);
        let end = mark(Punct::RParen) + mark(Punct::Semi);
        lemma_stands_split(
            ts,
            p,
            word("do"@) + t + word("while"@) + mark(Punct::LParen) + tc,
            end,
        );
        lemma_split5(ts, p, word("do"@), t, word("while"@), mark(Punct::LParen), tc);
        let q = p + 1 + t.len();
        let r = q + 2 + tc.len();
        lemma_stands_split(ts, r, mark(Punct::RParen), mark(Punct::Semi));
        assert(ts[p + 0] == word("do"@)[0]);
        assert(ts[q + 0] == word("while"@)[0]);
        assert(ts[r + 1 + 0] == mark(Punct::Semi)[0]);
        lemma_read_stmt(ts, p + 1, d, *b);
        lemma_read_condition(ts, q + 1, d, c);
    }
}

/// A word with a semicolon, or an optional value, is read back.
#[verifier::spinoff_prover]
proof fn lemma_read_jump(ts: Seq<TokenView>, p: int, d: Dialect, st: StmtModel)
    requires
        0 <= p,
        st is Return || st is Break || st is Continue || st is Discard,
        stands(ts, p, stmt_tokens(d, st)),
        plain_stmt(d, st),
        !(d is Wgsl),
    ensures
        statement(ts, p) == Ok::<(StmtModel, int), int>((st, p + stmt_tokens(d, st).len())),
{
    lemma_keywords();
    assert(ts[p + 0] == stmt_tokens(d, st)[0]);
    match st {
        StmtModel::Return(v) => {
            let t = option_tokens(d, v);
            lemma_split3(ts, p, word("return"@), t, mark(Punct::Semi));
            assert(ts[p + 1 + t.len() + 0] == mark(Punct::Semi)[0]);
            lemma_read_option(ts, p + 1, d, v, Punct::Semi);
        },
        _ => {
            assert(ts[p + 1] == stmt_tokens(d, st)[1]);
        },
    }
}

/// A statement is read back.
proof fn lemma_read_stmt(ts: Seq<TokenView>, p: int, d: Dialect, st: StmtModel)
    requires
        0 <= p,
        stands(ts, p, stmt_tokens(d, st)),
        plain_stmt(d, st),
        !(d is Wgsl),
        may_end(ts, p + stmt_tokens(d, st).len(), st),
    ensures
        statement(ts, p) == Ok::<(StmtModel, int), int>((st, p + stmt_tokens(d, st).len())),
    decreases st, 1nat,
{
    match st {
        StmtModel::Expr(..) => lemma_read_plain(ts, p, d, st),
        StmtModel::VarDecl(..) => lemma_read_plain(ts, p, d, st),
        StmtModel::Block(..) => lemma_read_block(ts, p, d, st),
        StmtModel::If(..) => lemma_read_if(ts, p, d, st),
        StmtModel::For(..) => lemma_read_for(ts, p, d, st),
        StmtModel::While(..) => lemma_read_while(ts, p, d, st),
        StmtModel::DoWhile(..) => lemma_read_do(ts, p, d, st),
        _ => lemma_read_jump(ts, p, d, st),
    }
}

// ---------------------------------------------------------------------------
// Laws
// ---------------------------------------------------------------------------

/// What is read of a text that holds one statement.
pub open spec fn read_statement(text: Seq<char>) -> Option<StmtModel> {
    match lexed(text, 0) {
        Err(_) => None,
        Ok(ts) => match statement(ts, 0) {
            Ok((s, q)) => if q == ts.len() {
                Some(s)
            } else {
                None
            },
            Err(_) => None,
        },
    }
}

/// What is read of a text that holds one expression.
pub open spec fn read_expression(text: Seq<char>) -> Option<ExprModel> {
    match lexed(text, 0) {
        Err(_) => None,
        Ok(ts) => match expression(ts, 0) {
            Ok((e, q)) => if q == ts.len() {
                Some(e)
            } else {
                None
            },
            Err(_) => None,
        },
    }
}

/// The text that is emitted for an expression is read back, by the lexer and the
/// parser, as that expression.
pub proof fn emitted_expressions_are_read_back(d: Dialect, e: ExprModel)
    requires
        d is Glsl || d is Msl,
        plain_expr(d, e),
    ensures
        read_expression(expr_text(d, e)) == Some(e),
{
    let text = expr_text(d, e);
    lemma_spell_expr(text, 0, d, e);
    reveal(spells);
    let ts = expr_tokens(d, e);
    assert(lexed(text, text.len() as int) == Ok::<Seq<TokenView>, int>(Seq::empty()));
    assert(ts + Seq::empty() =~= ts);
    lemma_read_expr(ts, 0, d, e);
}

/// The text that is emitted for a statement is read back, by the lexer and the
/// parser, as that statement.
pub proof fn emitted_statements_are_read_back(d: Dialect, s: StmtModel, ind: Seq<char>)
    requires
        d is Glsl || d is Msl,
        plain_stmt(d, s),
        all_white(ind),
    ensures
        read_statement(stmt_text(d, s, ind)) == Some(s),
{
    let text = stmt_text(d, s, ind);
    lemma_spell_stmt(text, 0, d, s, ind);
    reveal(spells);
    let ts = stmt_tokens(d, s);
    assert(lexed(text, text.len() as int) == Ok::<Seq<TokenView>, int>(Seq::empty()));
    assert(ts + Seq::empty() =~= ts);
    lemma_read_stmt(ts, 0, d, s);
}

/// Different statements have different texts. So a loop is never written as a
/// conditional, nor one conditional as another.
pub proof fn different_statements_have_different_texts(
    d: Dialect,
    a: StmtModel,
    b: StmtModel,
    ind: Seq<char>,
)
    requires
        d is Glsl || d is Msl,
        plain_stmt(d, a),
        plain_stmt(d, b),
        all_white(ind),
        a != b,
    ensures
        stmt_text(d, a, ind) != stmt_text(d, b, ind),
{
    emitted_statements_are_read_back(d, a, ind);
    emitted_statements_are_read_back(d, b, ind);
}

// ---------------------------------------------------------------------------
// Functions
// ---------------------------------------------------------------------------

/// The tokens of the first parameters stand before the others.
proof fn lemma_params_prefix(
    ts: Seq<TokenView>,
    p: int,
    d: Dialect,
    params: Seq<(SkslType, Seq<char>)>,
    n: nat,
    k: nat,
)
    requires
        0 <= p,
        k <= n <= params.len(),
        stands(ts, p, params_tokens(d, params, n)),
    ensures
        stands(ts, p, params_tokens(d, params, k)),
    decreases n,
{
    if k < n {
        let m = (n - 1) as nat;
        let before = if n == 1 {
            Seq::empty()
        } else {
            params_tokens(d, params, m) + mark(Punct::Comma)
        };
        lemma_split3(
            ts,
            p,
            before,
            word(d.type_text(params[n - 1].0)),
            word(params[n - 1].1),
        );
        if n > 1 {
            lemma_stands_split(ts, p, params_tokens(d, params, m), mark(Punct::Comma));
            lemma_params_prefix(ts, p, d, params, m, k);
        } else {
            assert(params_tokens(d, params, 0) =~= Seq::empty());
        }
    }
}

/// The parameters of a function are read back, from one of them on.
#[verifier::spinoff_prover]
proof fn lemma_read_params(
    ts: Seq<TokenView>,
    p: int,
    d: Dialect,
    params: Seq<(SkslType, Seq<char>)>,
    k: nat,
)
    requires
        0 <= p,
        k < params.len(),
        stands(ts, p, params_tokens(d, params, params.len())),
        is_punct(ts, p + params_tokens(d, params, params.len()).len(), Punct::RParen),
        forall|i: int|
            0 <= i < params.len() ==> is_plain_type(d, (#[trigger] params[i]).0) && is_name(
                params[i].1,
            ),
    ensures
        parameters_from(
            ts,
            p + params_tokens(d, params, k).len() + if k == 0 {
                0int
            } else {
                1int
            },
            params.take(k as int),
        ) == Ok::<(Seq<(SkslType, Seq<char>)>, int), int>(
            (params, p + params_tokens(d, params, params.len()).len() + 1),
        ),
    decreases params.len() - k,
{
    lemma_params_prefix(ts, p, d, params, params.len(), k + 1);
    let a = params_tokens(d, params, k);
    let (ty, name) = params[k as int];
    let (x, y) = (word(d.type_text(ty)), word(name));
    let q = p + a.len() + if k == 0 {
        0int
    } else {
        1int
    };
    if k == 0 {
        assert(params_tokens(d, params, 1) == Seq::empty() + x + y);
        lemma_split3(ts, p, Seq::empty(), x, y);
    } else {
        assert(params_tokens(d, params, k + 1) == a + mark(Punct::Comma) + x + y);
        lemma_split4(ts, p, a, mark(Punct::Comma), x, y);
    }
    assert(ts[q + 0] == x[0]);
    assert(ts[q + 1 + 0] == y[0]);
    let z = q + 2;
    assert(params_tokens(d, params, k + 1).len() == z - p);
    if k + 1 < params.len() {
        lemma_params_prefix(ts, p, d, params, params.len(), k + 2);
        let (ty2, name2) = params[k as int + 1];
        let b = params_tokens(d, params, k + 1);
        let (x2, y2) = (word(d.type_text(ty2)), word(name2));
        assert(params_tokens(d, params, k + 2) == b + mark(Punct::Comma) + x2 + y2);
        lemma_split4(ts, p, b, mark(Punct::Comma), x2, y2);
        assert(ts[z + 0] == mark(Punct::Comma)[0]);
        lemma_read_params(ts, p, d, params, k + 1);
        assert(params.take(k as int).push((ty, name)) =~= params.take(k as int + 1));
    } else {
        assert(params.take(k as int).push((ty, name)) =~= params);
    }
}

/// What is read of a text that holds one function.
pub open spec fn read_function(text: Seq<char>) -> Option<FnModel> {
    match lexed(text, 0) {
        Err(_) => None,
        Ok(ts) => match function(ts, 0) {
            Ok((f, q)) => if q == ts.len() {
                Some(f)
            } else {
                None
            },
            Err(_) => None,
        },
    }
}

/// The text that is emitted for a function is read back as that function: with its
/// name, its parameters, what it returns and its body.
#[verifier::spinoff_prover]
#[verifier::rlimit(40)]
pub proof fn emitted_functions_are_read_back(d: Dialect, f: FnModel)
    requires
        d is Glsl || d is Msl,
        plain_function(d, f),
    ensures
        read_function(function_text(d, f)) == Some(f),
{
    let text = function_text(d, f);
    lemma_spell_function(text, d, f);
    let ts = function_tokens(d, f);
    assert(lexed(text, 0) == Ok::<Seq<TokenView>, int>(ts)) by {
        reveal(spells);
        assert(lexed(text, text.len() as int) == Ok::<Seq<TokenView>, int>(Seq::empty()));
        assert(ts + Seq::empty() =~= ts);
    }
    let t = word(d.type_text(f.return_type));
    let ps = params_tokens(d, f.params, f.params.len());
    let body = f.body;
    assert(stands(ts, 0, ts));
    lemma_split3(
        ts,
        0,
        t + word(f.name) + mark(Punct::LParen) + ps,
        mark(Punct::RParen),
        stmt_tokens(d, body),
    );
    lemma_split4(ts, 0, t, word(f.name), mark(Punct::LParen), ps);
    let q: int = 3 + ps.len() as int;
    assert(ts[0] == t[0]);
    assert(ts[1int + 0] == word(f.name)[0]);
    assert(ts[2int + 0] == mark(Punct::LParen)[0]);
    assert(ts[q + 0] == mark(Punct::RParen)[0]);
    assert(parameters(ts, 3) == Ok::<(Seq<(SkslType, Seq<char>)>, int), int>((f.params, q + 1))) by {
        if f.params.len() == 0 {
            assert(ps =~= Seq::empty());
            assert(f.params =~= Seq::empty());
        } else {
            lemma_params_prefix(ts, 3, d, f.params, f.params.len(), 1);
            let first = f.params[0];
            assert(params_tokens(d, f.params, 1) == Seq::empty() + word(d.type_text(first.0)) + word(
                first.1,
            ));
            lemma_split3(ts, 3, Seq::empty(), word(d.type_text(first.0)), word(first.1));
            assert(ts[3int + 0] == word(d.type_text(first.0))[0]);
            lemma_read_params(ts, 3, d, f.params, 0);
            assert(f.params.take(0) =~= Seq::empty());
            assert(params_tokens(d, f.params, 0) =~= Seq::empty());
        }
    }
    if let StmtModel::Block(ss) = body {
        let b = stmts_tokens(d, ss, ss.len());
        lemma_split3(ts, q + 1, mark(Punct::LBrace), b, mark(Punct::RBrace));
        let z = q + 2 + b.len();
        assert(ts[q + 1 + 0] == mark(Punct::LBrace)[0]);
        assert(ts[z + 0] == mark(Punct::RBrace)[0]);
        let none = Seq::<StmtModel>::empty();
        lemma_read_stmts(ts, q + 2, d, ss, 0, none);
        assert(none + ss.take(0) =~= none);
        assert(none + ss =~= ss);
        assert(stmts_tokens(d, ss, 0) =~= Seq::empty());
        assert(statements(ts, z, ss) == Ok::<(Seq<StmtModel>, int), int>((ss, z + 1)));
        assert(statements(ts, q + 2, none) == Ok::<(Seq<StmtModel>, int), int>((ss, z + 1)));
    }
}

// ---------------------------------------------------------------------------
// The language without `while` and without choices
// ---------------------------------------------------------------------------

/// Whether an expression is written alike in all target languages: it holds no
/// integer literal, no choice, no construction and no method call.
pub open spec fn is_common_expr(e: ExprModel) -> bool
    decreases e,
{
    match e {
        ExprModel::FloatLit(_) | ExprModel::BoolLit(_) | ExprModel::Var(_) => true,
        ExprModel::Binary(l, _, r) => is_common_expr(*l) && is_common_expr(*r),
        ExprModel::Unary(_, x) => is_common_expr(*x),
        ExprModel::Call(_, args) => forall|i: int|
            0 <= i < args.len() ==> is_common_expr(#[trigger] args[i]),
        ExprModel::Field(x, _) => is_common_expr(*x),
        ExprModel::Index(x, i) => is_common_expr(*x) && is_common_expr(*i),
        ExprModel::Assign(t, v) => is_common_expr(*t) && is_common_expr(*v),
        ExprModel::CompoundAssign(t, _, v) => is_common_expr(*t) && is_common_expr(*v),
        ExprModel::PostIncDec(x, _) => is_common_expr(*x),
        ExprModel::PreIncDec(x, _) => is_common_expr(*x),
        _ => false,
    }
}

/// Whether an optional expression is written alike in all target languages.
pub open spec fn is_common_option(e: Option<ExprModel>) -> bool {
    e matches Some(x) ==> is_common_expr(x)
}

/// Whether a statement is written alike in GLSL and in WGSL: its expressions are,
/// and it declares nothing and holds no `while` and no `do` loop.
pub open spec fn is_common_stmt(s: StmtModel) -> bool
    decreases s,
{
    match s {
        StmtModel::Expr(e) => is_common_expr(e),
        StmtModel::Block(ss) => forall|i: int|
            0 <= i < ss.len() ==> is_common_stmt(#[trigger] ss[i]),
        StmtModel::If(c, a, None) => is_common_expr(c) && is_common_stmt(*a),
        StmtModel::If(c, a, Some(b)) => is_common_expr(c) && is_common_stmt(*a) && is_common_stmt(
            *b,
        ),
        StmtModel::For(i, c, u, b) => {
            &&& i matches Some(x) ==> is_common_stmt(*x)
            &&& is_common_option(c)
            &&& is_common_option(u)
            &&& is_common_stmt(*b)
        },
        StmtModel::Return(v) => is_common_option(v),
        StmtModel::Break | StmtModel::Continue | StmtModel::Discard => true,
        _ => false,
    }
}

/// The target languages share the texts of common expressions.
pub proof fn languages_share_expressions(a: Dialect, b: Dialect, e: ExprModel)
    requires
        is_common_expr(e),
    ensures
        expr_text(a, e) == expr_text(b, e),
    decreases e, 0nat,
{
    match e {
        ExprModel::Binary(l, _, r) => {
            languages_share_expressions(a, b, *l);
            languages_share_expressions(a, b, *r);
        },
        ExprModel::Unary(_, x) => languages_share_expressions(a, b, *x),
        ExprModel::Call(_, args) => lemma_share_args(a, b, args, args.len()),
        ExprModel::Field(x, _) => languages_share_expressions(a, b, *x),
        ExprModel::Index(x, i) => {
            languages_share_expressions(a, b, *x);
            languages_share_expressions(a, b, *i);
        },
        ExprModel::Assign(t, v) => {
            languages_share_expressions(a, b, *t);
            languages_share_expressions(a, b, *v);
        },
        ExprModel::CompoundAssign(t, _, v) => {
            languages_share_expressions(a, b, *t);
            languages_share_expressions(a, b, *v);
        },
        ExprModel::PostIncDec(x, _) => languages_share_expressions(a, b, *x),
        ExprModel::PreIncDec(x, _) => languages_share_expressions(a, b, *x),
        _ => {},
    }
}

proof fn lemma_share_args(a: Dialect, b: Dialect, args: Seq<ExprModel>, n: nat)
    requires
        n <= args.len(),
        forall|i: int| 0 <= i < args.len() ==> is_common_expr(#[trigger] args[i]),
    ensures
        args_text(a, args, n) == args_text(b, args, n),
    decreases args, n,
{
    if n > 0 {
        languages_share_expressions(a, b, args[n - 1]);
        if n > 1 {
            lemma_share_args(a, b, args, (n - 1) as nat);
        }
    }
}

proof fn lemma_share_option(a: Dialect, b: Dialect, e: Option<ExprModel>)
    requires
        is_common_option(e),
    ensures
        e matches Some(x) ==> expr_text(a, x) == expr_text(b, x),
{
    if let Some(x) = e {
        languages_share_expressions(a, b, x);
    }
}

/// GLSL and WGSL share the texts of common statements. So what is emitted for them
/// in WGSL is read back as well.
pub proof fn languages_share_statements(s: StmtModel, ind: Seq<char>)
    requires
        is_common_stmt(s),
    ensures
        stmt_text(Dialect::Wgsl, s, ind) == stmt_text(Dialect::Glsl, s, ind),
    decreases s, 0nat,
{
    let (a, b) = (Dialect::Wgsl, Dialect::Glsl);
    match s {
        StmtModel::Expr(e) => languages_share_expressions(a, b, e),
        StmtModel::Block(ss) => lemma_share_stmts(ss, ss.len(), ind + "    "@),
        StmtModel::If(c, x, other) => {
            languages_share_expressions(a, b, c);
            languages_share_statements(*x, ind);
            if let Some(y) = other {
                languages_share_statements(*y, ind);
            }
        },
        StmtModel::For(i, c, u, x) => {
            if let Some(y) = i {
                languages_share_statements(*y, ""@);
            }
            lemma_share_option(a, b, c);
            lemma_share_option(a, b, u);
            languages_share_statements(*x, ind);
        },
        StmtModel::Return(v) => lemma_share_option(a, b, v),
        _ => {},
    }
}

proof fn lemma_share_stmts(ss: Seq<StmtModel>, n: nat, ind: Seq<char>)
    requires
        n <= ss.len(),
        forall|i: int| 0 <= i < ss.len() ==> is_common_stmt(#[trigger] ss[i]),
    ensures
        stmts_text(Dialect::Wgsl, ss, n, ind) == stmts_text(Dialect::Glsl, ss, n, ind),
    decreases ss, n,
{
    if n > 0 {
        lemma_share_stmts(ss, (n - 1) as nat, ind);
        languages_share_statements(ss[n - 1], ind);
    }
}

/// WGSL has no choices: a choice is a call of `select`, which takes what counts
/// where the condition does not hold first, and the condition last.
pub proof fn choices_are_selections(c: ExprModel, x: ExprModel, y: ExprModel)
    ensures
        expr_text(
            Dialect::Wgsl,
            ExprModel::Ternary(Box::new(c), Box::new(x), Box::new(y)),
        ) == expr_text(Dialect::Wgsl, ExprModel::Call("select"@, seq![y, x, c])),
{
    let d = Dialect::Wgsl;
    let args = seq![y, x, c];
    reveal_with_fuel(args_text, 4);
    reveal_strlit("select(");
    reveal_strlit("select");
    reveal_strlit("(");
    assert("select("@ =~= "select"@ + "("@);
    let (p, q, r) = (expr_text(d, y), expr_text(d, x), expr_text(d, c));
    assert(args_text(d, args, 1) == p);
    assert(args_text(d, args, 2) == p + ", "@ + q);
    assert(args_text(d, args, 3) == p + ", "@ + q + ", "@ + r);
    assert("select("@ + p + ", "@ + q + ", "@ + r + ")"@ =~= "select"@ + "("@ + (p + ", "@ + q
        + ", "@ + r) + ")"@);
}

/// In MSL a fragment is discarded by a call.
pub proof fn discards_are_calls(ind: Seq<char>)
    ensures
        stmt_text(Dialect::Msl, StmtModel::Discard, ind) == stmt_text(
            Dialect::Msl,
            StmtModel::Expr(ExprModel::Call("discard_fragment"@, Seq::empty())),
            ind,
        ),
{
    reveal_strlit("discard_fragment();\n");
    reveal_strlit("discard_fragment");
    reveal_strlit("(");
    reveal_strlit(")");
    reveal_strlit(";\n");
    let e = ExprModel::Call("discard_fragment"@, Seq::empty());
    let none = Seq::<ExprModel>::empty();
    assert(args_text(Dialect::Msl, none, 0) =~= Seq::empty());
    let t = "discard_fragment"@ + "("@ + Seq::<char>::empty() + ")"@;
    assert(expr_text(Dialect::Msl, e) == t);
    assert("discard_fragment();\n"@ =~= t + ";\n"@);
    assert(ind + "discard_fragment();\n"@ =~= ind + t + ";\n"@);
}

/// The statement that leaves a loop where a condition does not hold.
pub open spec fn guard(c: ExprModel) -> StmtModel {
    StmtModel::If(
        ExprModel::Unary(UnaryOp::Not, Box::new(c)),
        Box::new(StmtModel::Block(seq![StmtModel::Break])),
        None,
    )
}

#[verifier::spinoff_prover]
#[verifier::rlimit(40)]
proof fn lemma_read_guard(ts: Seq<TokenView>, p: int, c: ExprModel)
    requires
        0 <= p,
        stands(ts, p, guard_tokens(c)),
        plain_expr(Dialect::Glsl, c),
        !is_word(ts, p + guard_tokens(c).len(), "else"@),
    ensures
        statement(ts, p) == Ok::<(StmtModel, int), int>((guard(c), p + guard_tokens(c).len())),
        !is_punct(ts, p, Punct::RBrace),
        !is_word(ts, p, "else"@),
        p < p + guard_tokens(c).len() <= ts.len(),
{
    let d = Dialect::Glsl;
    let t = expr_tokens(d, c);
    let b = StmtModel::Block(seq![StmtModel::Break]);
    let tb = mark(Punct::LBrace) + (word("break"@) + mark(Punct::Semi)) + mark(Punct::RBrace);
    assert(plain_stmt(d, b)) by {
        assert(plain_stmt(d, StmtModel::Break));
    }
    assert(stmt_tokens(d, b) == tb) by {
        let ss = seq![StmtModel::Break];
        reveal_with_fuel(stmts_tokens, 2);
        assert(stmts_tokens(d, ss, 1) =~= stmt_tokens(d, StmtModel::Break));
    }
    lemma_keywords();
    lemma_else();
    let h = word("if"@) + mark(Punct::LParen) + mark(Punct::Bang) + t + mark(Punct::RParen);
    lemma_stands_split(ts, p, h, tb);
    lemma_split5(ts, p, word("if"@), mark(Punct::LParen), mark(Punct::Bang), t, mark(Punct::RParen));
    let q = p + 3 + t.len();
    assert(ts[p + 0] == word("if"@)[0]);
    assert(ts[p + 1 + 0] == mark(Punct::LParen)[0]);
    assert(ts[p + 2 + 0] == mark(Punct::Bang)[0]);
    assert(ts[q + 0] == mark(Punct::RParen)[0]);
    lemma_some_token(d, c);
    lemma_read_unary(ts, p + 3, d, c);
    let n = ExprModel::Unary(UnaryOp::Not, Box::new(c));
    assert(prefix_at(ts, p + 2) == Some(Punct::Bang));
    assert(unary(ts, p + 2) == Ok::<(ExprModel, int), int>((n, q)));
    lemma_climb(ts, p + 2, n, q);
    assert(condition(ts, p + 1) == Ok::<(ExprModel, int), int>((n, q + 1)));
    lemma_read_stmt(ts, q + 1, d, b);
}

/// The block of a loop that is left by a guard is read back.
#[verifier::spinoff_prover]
#[verifier::rlimit(40)]
proof fn lemma_read_guarded(c: ExprModel, ss: Seq<StmtModel>, early: bool)
    requires
        plain_expr(Dialect::Glsl, c),
        forall|k: int| 0 <= k < ss.len() ==> plain_stmt(Dialect::Glsl, #[trigger] ss[k]),
    ensures
        statement(guarded_tokens(c, ss, early), 0) == Ok::<(StmtModel, int), int>(
            (
                StmtModel::Block(
                    if early {
                        seq![guard(c)] + ss
                    } else {
                        ss.push(guard(c))
                    },
                ),
                guarded_tokens(c, ss, early).len() as int,
            ),
        ),
{
    let d = Dialect::Glsl;
    let ts = guarded_tokens(c, ss, early);
    let g = guard_tokens(c);
    let b = stmts_tokens(d, ss, ss.len());
    lemma_else();
    assert(stmts_tokens(d, ss, 0) =~= Seq::empty());
    let z = ts.len() - 1;
    if early {
        assert(ts == mark(Punct::LBrace) + g + b + mark(Punct::RBrace));
        lemma_split4(ts, 0, mark(Punct::LBrace), g, b, mark(Punct::RBrace));
        assert(ts[0] == mark(Punct::LBrace)[0]);
        assert(ts[z + 0] == mark(Punct::RBrace)[0]);
        let p: int = 1 + g.len() as int;
        if ss.len() > 0 {
            lemma_stmts_prefix(ts, p, d, ss, ss.len(), 1);
            reveal_with_fuel(stmts_tokens, 2);
            assert(stmts_tokens(d, ss, 1) =~= stmt_tokens(d, ss[0]));
            lemma_stmt_start(d, ss[0]);
            assert(ts[p + 0] == stmt_tokens(d, ss[0])[0]);
        } else {
            assert(b =~= Seq::empty());
        }
        lemma_read_guard(ts, 1, c);
        let pre = seq![guard(c)];
        lemma_read_stmts(ts, p, d, ss, 0, pre);
        assert(pre + ss.take(0) =~= pre);
        assert(Seq::<StmtModel>::empty().push(guard(c)) =~= pre);
        assert(statements(ts, z, pre + ss) == Ok::<(Seq<StmtModel>, int), int>((pre + ss, z + 1)));
        assert(statements(ts, p, pre) == Ok::<(Seq<StmtModel>, int), int>((pre + ss, z + 1)));
    } else {
        assert(ts == mark(Punct::LBrace) + b + g + mark(Punct::RBrace));
        lemma_split4(ts, 0, mark(Punct::LBrace), b, g, mark(Punct::RBrace));
        assert(ts[0] == mark(Punct::LBrace)[0]);
        assert(ts[z + 0] == mark(Punct::RBrace)[0]);
        let p: int = 1 + b.len() as int;
        lemma_read_guard(ts, p, c);
        let none = Seq::<StmtModel>::empty();
        lemma_read_stmts(ts, 1, d, ss, 0, none);
        assert(none + ss.take(0) =~= none);
        assert(none + ss =~= ss);
        let all = ss.push(guard(c));
        assert(statements(ts, z, all) == Ok::<(Seq<StmtModel>, int), int>((all, z + 1)));
        assert(statements(ts, p, ss) == Ok::<(Seq<StmtModel>, int), int>((all, z + 1)));
    }
}

proof fn lemma_regroup(a: Seq<char>, b: Seq<char>, c: Seq<char>)
    ensures
        (a + b) + c == a + (b + c),
{
    assert((a + b) + c =~= a + (b + c));
}

/// The text of a loop in WGSL is the word for it and a block.
proof fn lemma_loop_text(c: ExprModel, ss: Seq<StmtModel>, ind: Seq<char>, early: bool)
    requires
        is_common_expr(c),
        forall|k: int| 0 <= k < ss.len() ==> is_common_stmt(#[trigger] ss[k]),
    ensures
        stmt_text(Dialect::Wgsl, loop_of(c, ss, early), ind) == (ind + "loop "@) + guarded_text(
            c,
            ss,
            ind,
            early,
        ),
{
    let d = Dialect::Wgsl;
    let inner = ind + "    "@;
    let body = StmtModel::Block(ss);
    languages_share_expressions(d, Dialect::Glsl, c);
    lemma_share_stmts(ss, ss.len(), inner);
    reveal_strlit("loop {\n");
    reveal_strlit("loop ");
    reveal_strlit("{\n");
    let (l, m) = ("loop "@, "{\n"@);
    assert("loop {\n"@ =~= l + m);
    let b = stmts_text(Dialect::Glsl, ss, ss.len(), inner);
    assert(crate::sksl::emit::body_text(d, body, inner) == b);
    let h = ind + l;
    let (g, t, e, r) = ("    if (!"@, expr_text(d, c), ") { break; }\n"@, "}\n"@);
    lemma_regroup(ind, l, m);
    if early {
        let x = m + ind;
        lemma_regroup(h, m, ind);
        lemma_regroup(h, x, g);
        lemma_regroup(h, x + g, t);
        lemma_regroup(h, x + g + t, e);
        lemma_regroup(x, g, t);
        lemma_regroup(x, g + t, e);
        let y = x + (g + t + e);
        lemma_regroup(h, y, b);
        lemma_regroup(h, y + b, ind);
        lemma_regroup(h, y + b + ind, r);
    } else {
        let x = m + b + ind;
        lemma_regroup(h, m, b);
        lemma_regroup(h, m + b, ind);
        lemma_regroup(h, x, g);
        lemma_regroup(h, x + g, t);
        lemma_regroup(h, x + g + t, e);
        lemma_regroup(x, g, t);
        lemma_regroup(x, g + t, e);
        let y = x + (g + t + e);
        lemma_regroup(h, y, ind);
        lemma_regroup(h, y + ind, r);
    }
}

/// A loop that tests its condition before its statements, or behind them.
pub open spec fn loop_of(c: ExprModel, ss: Seq<StmtModel>, early: bool) -> StmtModel {
    if early {
        StmtModel::While(c, Box::new(StmtModel::Block(ss)))
    } else {
        StmtModel::DoWhile(Box::new(StmtModel::Block(ss)), c)
    }
}

/// WGSL has no `while` and no `do` loops: such a loop is a `loop` whose block
/// leaves it where the condition does not hold, before the statements of the body
/// or behind them.
pub proof fn loops_leave_by_a_guard(c: ExprModel, ss: Seq<StmtModel>, ind: Seq<char>, early: bool)
    requires
        all_white(ind),
        plain_expr(Dialect::Glsl, c),
        is_common_expr(c),
        forall|k: int| 0 <= k < ss.len() ==> plain_stmt(Dialect::Glsl, #[trigger] ss[k]),
        forall|k: int| 0 <= k < ss.len() ==> is_common_stmt(#[trigger] ss[k]),
    ensures
        exists|rest: Seq<char>|
            {
                &&& stmt_text(Dialect::Wgsl, loop_of(c, ss, early), ind) == (ind + "loop "@) + rest
                &&& #[trigger] read_statement(rest) == Some(
                    StmtModel::Block(
                        if early {
                            seq![guard(c)] + ss
                        } else {
                            ss.push(guard(c))
                        },
                    ),
                )
            },
{
    let rest = guarded_text(c, ss, ind, early);
    lemma_loop_text(c, ss, ind, early);
    lemma_spell_guarded(rest, 0, c, ss, ind, early);
    reveal(spells);
    let ts = guarded_tokens(c, ss, early);
    assert(lexed(rest, rest.len() as int) == Ok::<Seq<TokenView>, int>(Seq::empty()));
    assert(ts + Seq::empty() =~= ts);
    lemma_read_guarded(c, ss, early);
    assert(read_statement(rest) is Some);
}

} // verus!
