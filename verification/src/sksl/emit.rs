//! Emission of SkSL programs as GLSL, WGSL or Metal source text.

use vstd::prelude::*;

use crate::sksl::ast::{Expr, FnDecl, Param, SkslType, Stmt};
use crate::sksl::model::{
    ExprModel, FnModel, StmtModel, expr_model, exprs_model, fn_model, lemma_exprs_index,
    lemma_stmts_index, params_model, stmt_model, stmts_model,
};
use crate::text::{chars_of, int_text, push_int, push_trimmed, trimmed};

verus! {

/// A target language of the emitter.
#[derive(Debug, Clone, Copy, PartialEq, Eq, Structural)]
pub enum Dialect {
    /// OpenGL Shading Language.
    Glsl,
    /// WebGPU Shading Language.
    Wgsl,
    /// Metal Shading Language.
    Msl,
}

impl Dialect {
    /// The name of a type.
    pub open spec fn type_text(self, ty: SkslType) -> Seq<char> {
        match self {
            Dialect::Glsl => ty.glsl_text(),
            Dialect::Wgsl => ty.wgsl_text(),
            Dialect::Msl => ty.msl_text(),
        }
    }

    /// The name of a type.
    pub fn name_of_type(&self, ty: &SkslType) -> (s: &'static str)
        ensures
            s@ == self.type_text(*ty),
    {
        match self {
            Dialect::Glsl => ty.glsl_name(),
            Dialect::Wgsl => ty.wgsl_name(),
            Dialect::Msl => ty.msl_name(),
        }
    }
}

/// The digits of a float literal are emitted as the source writes them; the
/// target language rounds them to a float. A literal always shows a fraction, so
/// that it stays a float.
pub open spec fn float_text(decimal: Seq<char>) -> Seq<char> {
    if decimal.contains('.') {
        decimal
    } else {
        decimal + ".0"@
    }
}

/// The text of an increment or decrement operator.
pub open spec fn step_text(inc: bool) -> Seq<char> {
    if inc {
        "++"@
    } else {
        "--"@
    }
}

/// The text of an expression. Every operation is parenthesized, so the text
/// does not depend on operator precedence.
pub open spec fn expr_text(d: Dialect, e: ExprModel) -> Seq<char>
    decreases e, 0nat,
{
    match e {
        ExprModel::IntLit(n) => if d is Wgsl {
            int_text(n) + "i"@
        } else {
            int_text(n)
        },
        ExprModel::FloatLit(t) => float_text(t),
        ExprModel::BoolLit(b) => if b {
            "true"@
        } else {
            "false"@
        },
        ExprModel::Var(name) => name,
        ExprModel::Binary(left, op, right) => "("@ + expr_text(d, *left) + " "@ + op.text() + " "@
            + expr_text(d, *right) + ")"@,
        ExprModel::Unary(op, x) => "("@ + op.text() + expr_text(d, *x) + ")"@,
        ExprModel::Call(name, args) => name + "("@ + args_text(d, args, args.len()) + ")"@,
        ExprModel::MethodCall(receiver, method, args) => expr_text(d, *receiver) + "_"@ + method
            + "("@ + args_text(d, args, args.len()) + ")"@,
        ExprModel::Constructor(ty, args) => d.type_text(ty) + "("@ + args_text(d, args, args.len())
            + ")"@,
        ExprModel::Field(x, field) => expr_text(d, *x) + "."@ + field,
        ExprModel::Index(x, index) => expr_text(d, *x) + "["@ + expr_text(d, *index) + "]"@,
        ExprModel::Ternary(cond, a, b) => if d is Wgsl {
            "select("@ + expr_text(d, *b) + ", "@ + expr_text(d, *a) + ", "@ + expr_text(d, *cond)
                + ")"@
        } else {
            "("@ + expr_text(d, *cond) + " ? "@ + expr_text(d, *a) + " : "@ + expr_text(d, *b)
                + ")"@
        },
        ExprModel::Assign(target, value) => "("@ + expr_text(d, *target) + " = "@ + expr_text(
            d,
            *value,
        ) + ")"@,
        ExprModel::CompoundAssign(target, op, value) => "("@ + expr_text(d, *target) + " "@
            + op.text() + "= "@ + expr_text(d, *value) + ")"@,
        ExprModel::PostIncDec(x, inc) => expr_text(d, *x) + step_text(inc),
        ExprModel::PreIncDec(x, inc) => step_text(inc) + expr_text(d, *x),
    }
}

/// The first `n` arguments, separated by commas.
pub open spec fn args_text(d: Dialect, args: Seq<ExprModel>, n: nat) -> Seq<char>
    decreases args, n,
{
    if n == 0 || n > args.len() {
        Seq::empty()
    } else if n == 1 {
        expr_text(d, args[0])
    } else {
        args_text(d, args, (n - 1) as nat) + ", "@ + expr_text(d, args[n - 1])
    }
}

/// The text of a statement indented by `ind`, ending in a newline.
pub open spec fn stmt_text(d: Dialect, s: StmtModel, ind: Seq<char>) -> Seq<char>
    decreases s, 0nat,
{
    match s {
        StmtModel::Expr(e) => ind + expr_text(d, e) + ";\n"@,
        StmtModel::VarDecl(ty, name, init) => {
            let head = if d is Wgsl {
                ind + "var "@ + name + ": "@ + d.type_text(ty)
            } else {
                ind + d.type_text(ty) + " "@ + name
            };
            match init {
                None => head + ";\n"@,
                Some(e) => head + " = "@ + expr_text(d, e) + ";\n"@,
            }
        },
        StmtModel::Block(stmts) => ind + "{\n"@ + stmts_text(d, stmts, stmts.len(), ind + "    "@)
            + ind + "}\n"@,
        StmtModel::If(cond, then_branch, else_branch) => {
            let head = ind + "if ("@ + expr_text(d, cond) + ") "@ + stmt_text(d, *then_branch, ind);
            match else_branch {
                None => head,
                Some(e) => head + ind + "else "@ + stmt_text(d, *e, ind),
            }
        },
        StmtModel::For(init, cond, update, body) => {
            let start = match init {
                None => ind + "for ("@ + ";"@,
                Some(i) => ind + "for ("@ + trimmed(stmt_text(d, *i, ""@)),
            };
            let test = match cond {
                None => start + " "@,
                Some(c) => start + " "@ + expr_text(d, c),
            };
            let step = match update {
                None => test + "; "@,
                Some(u) => test + "; "@ + expr_text(d, u),
            };
            step + ") "@ + stmt_text(d, *body, ind)
        },
        StmtModel::While(cond, body) => if d is Wgsl {
            ind + "loop {\n"@ + ind + "    if (!"@ + expr_text(d, cond) + ") { break; }\n"@
                + body_text(d, *body, ind + "    "@) + ind + "}\n"@
        } else {
            ind + "while ("@ + expr_text(d, cond) + ") "@ + stmt_text(d, *body, ind)
        },
        StmtModel::DoWhile(body, cond) => if d is Wgsl {
            ind + "loop {\n"@ + body_text(d, *body, ind + "    "@) + ind + "    if (!"@ + expr_text(
                d,
                cond,
            ) + ") { break; }\n"@ + ind + "}\n"@
        } else {
            ind + "do "@ + stmt_text(d, *body, ind) + " while ("@ + expr_text(d, cond) + ");\n"@
        },
        StmtModel::Return(value) => match value {
            None => ind + "return;\n"@,
            Some(e) => ind + "return "@ + expr_text(d, e) + ";\n"@,
        },
        StmtModel::Break => ind + "break;\n"@,
        StmtModel::Continue => ind + "continue;\n"@,
        StmtModel::Discard => if d is Msl {
            ind + "discard_fragment();\n"@
        } else {
            ind + "discard;\n"@
        },
    }
}

/// The first `n` statements, each on its own lines.
pub open spec fn stmts_text(d: Dialect, stmts: Seq<StmtModel>, n: nat, ind: Seq<char>) -> Seq<char>
    decreases stmts, n,
{
    if n == 0 || n > stmts.len() {
        Seq::empty()
    } else {
        stmts_text(d, stmts, (n - 1) as nat, ind) + stmt_text(d, stmts[n - 1], ind)
    }
}

/// The statements of a loop body whose braces the loop itself writes.
pub open spec fn body_text(d: Dialect, body: StmtModel, ind: Seq<char>) -> Seq<char>
    decreases body, 1nat,
{
    match body {
        StmtModel::Block(stmts) => stmts_text(d, stmts, stmts.len(), ind),
        _ => stmt_text(d, body, ind),
    }
}

/// The first `n` parameters of a function, separated by commas.
pub open spec fn params_text(d: Dialect, params: Seq<(SkslType, Seq<char>)>, n: nat) -> Seq<char>
    decreases n,
{
    if n == 0 || n > params.len() {
        Seq::empty()
    } else {
        let before = if n == 1 {
            Seq::empty()
        } else {
            params_text(d, params, (n - 1) as nat) + ", "@
        };
        let (ty, name) = params[n - 1];
        if d is Wgsl {
            before + name + ": "@ + d.type_text(ty)
        } else {
            before + d.type_text(ty) + " "@ + name
        }
    }
}

/// The text of a function definition.
pub open spec fn function_text(d: Dialect, f: FnModel) -> Seq<char> {
    let params = params_text(d, f.params, f.params.len());
    if d is Wgsl {
        let head = "fn "@ + f.name + "("@ + params + ") -> "@ + d.type_text(f.return_type)
            + " {\n"@;
        let body = match f.body {
            StmtModel::Block(stmts) => head + stmts_text(d, stmts, stmts.len(), "    "@),
            _ => head,
        };
        body + "}\n"@
    } else {
        d.type_text(f.return_type) + " "@ + f.name + "("@ + params + ") "@ + stmt_text(
            d,
            f.body,
            ""@,
        )
    }
}

/// Whether the text holds a decimal point.
fn has_point(s: &str) -> (r: bool)
    ensures
        r == s@.contains('.'),
{
    let v: Vec<char> = chars_of(s);
    let mut i: usize = 0;
    while i < v.len()
        invariant
            v@ == s@,
            i <= v@.len(),
            forall|j: int| 0 <= j < i ==> v@[j] != '.',
        decreases v@.len() - i,
    {
        if v[i] == '.' {
            assert(s@[i as int] == '.');
            return true;
        }
        i = i + 1;
    }
    false
}

/// The text of an increment or decrement operator.
fn step_str(inc: bool) -> (s: &'static str)
    ensures
        s@ == step_text(inc),
{
    if inc {
        "++"
    } else {
        "--"
    }
}

/// Emits an expression.
pub fn expr_to_text(d: Dialect, e: &Expr) -> (s: String)
    ensures
        s@ == expr_text(d, expr_model(*e)),
    decreases e, 0nat,
{
    match e {
        Expr::IntLit(n) => {
            let mut s: String = String::new();
            push_int(&mut s, *n);
            assert(s@ =~= int_text(*n as int));
            match d {
                Dialect::Wgsl => {
                    s.append("i");
                },
                _ => {},
            }
            s
        },
        Expr::FloatLit(t) => {
            let mut s: String = t.clone();
            if !has_point(t.as_str()) {
                s.append(".0");
            }
            s
        },
        Expr::BoolLit(b) => {
            if *b {
                String::from_str("true")
            } else {
                String::from_str("false")
            }
        },
        Expr::Var(name) => name.clone(),
        Expr::Binary { left, op, right } => {
            let mut s: String = String::from_str("(");
            s.append(expr_to_text(d, left).as_str());
            s.append(" ");
            s.append(op.glsl_str());
            s.append(" ");
            s.append(expr_to_text(d, right).as_str());
            s.append(")");
            s
        },
        Expr::Unary { op, expr } => {
            let mut s: String = String::from_str("(");
            s.append(op.glsl_str());
            s.append(expr_to_text(d, expr).as_str());
            s.append(")");
            s
        },
        Expr::Call { name, args } => {
            let mut s: String = name.clone();
            s.append("(");
            s.append(args_to_text(d, args).as_str());
            s.append(")");
            s
        },
        Expr::MethodCall { receiver, method, args } => {
            let mut s: String = expr_to_text(d, receiver);
            s.append("_");
            s.append(method.as_str());
            s.append("(");
            s.append(args_to_text(d, args).as_str());
            s.append(")");
            s
        },
        Expr::Constructor { ty, args } => {
            let mut s: String = String::from_str(d.name_of_type(ty));
            s.append("(");
            s.append(args_to_text(d, args).as_str());
            s.append(")");
            s
        },
        Expr::Field { expr, field } => {
            let mut s: String = expr_to_text(d, expr);
            s.append(".");
            s.append(field.as_str());
            s
        },
        Expr::Index { expr, index } => {
            let mut s: String = expr_to_text(d, expr);
            s.append("[");
            s.append(expr_to_text(d, index).as_str());
            s.append("]");
            s
        },
        Expr::Ternary { cond, then_expr, else_expr } => {
            let c: String = expr_to_text(d, cond);
            let t: String = expr_to_text(d, then_expr);
            let f: String = expr_to_text(d, else_expr);
            match d {
                Dialect::Wgsl => {
                    let mut s: String = String::from_str("select(");
                    s.append(f.as_str());
                    s.append(", ");
                    s.append(t.as_str());
                    s.append(", ");
                    s.append(c.as_str());
                    s.append(")");
                    s
                },
                _ => {
                    let mut s: String = String::from_str("(");
                    s.append(c.as_str());
                    s.append(" ? ");
                    s.append(t.as_str());
                    s.append(" : ");
                    s.append(f.as_str());
                    s.append(")");
                    s
                },
            }
        },
        Expr::Assign { target, value } => {
            let mut s: String = String::from_str("(");
            s.append(expr_to_text(d, target).as_str());
            s.append(" = ");
            s.append(expr_to_text(d, value).as_str());
            s.append(")");
            s
        },
        Expr::CompoundAssign { target, op, value } => {
            let mut s: String = String::from_str("(");
            s.append(expr_to_text(d, target).as_str());
            s.append(" ");
            s.append(op.glsl_str());
            s.append("= ");
            s.append(expr_to_text(d, value).as_str());
            s.append(")");
            s
        },
        Expr::PostIncDec { expr, inc } => {
            let mut s: String = expr_to_text(d, expr);
            s.append(step_str(*inc));
            s
        },
        Expr::PreIncDec { expr, inc } => {
            let mut s: String = String::from_str(step_str(*inc));
            s.append(expr_to_text(d, expr).as_str());
            s
        },
    }
}

/// Emits arguments separated by commas.
fn args_to_text(d: Dialect, args: &Vec<Expr>) -> (s: String)
    ensures
        s@ == args_text(
            d,
            exprs_model(args@, args@.len()),
            exprs_model(args@, args@.len()).len(),
        ),
    decreases args, 0nat,
{
    let ghost ms = exprs_model(args@, args@.len());
    proof {
        lemma_exprs_index(args@, args@.len());
    }
    let mut s: String = String::new();
    let mut i: usize = 0;
    while i < args.len()
        invariant
            i <= args@.len() == ms.len(),
            forall|j: int| 0 <= j < args@.len() ==> #[trigger] ms[j] == expr_model(args@[j]),
            s@ == args_text(d, ms, i as nat),
        decreases args@.len() - i,
    {
        if i > 0 {
            s.append(", ");
        }
        let t: String = expr_to_text(d, &args[i]);
        s.append(t.as_str());
        assert(s@ =~= args_text(d, ms, (i + 1) as nat));
        i = i + 1;
    }
    s
}

/// Emits a statement indented by `ind`.
pub fn stmt_to_text(d: Dialect, stmt: &Stmt, ind: &str) -> (out: String)
    ensures
        out@ == stmt_text(d, stmt_model(*stmt), ind@),
    decreases stmt, 0nat,
{
    let mut s: String = String::from_str(ind);
    match stmt {
        Stmt::Expr(e) => {
            s.append(expr_to_text(d, e).as_str());
            s.append(";\n");
            s
        },
        Stmt::VarDecl { ty, name, init } => {
            match d {
                Dialect::Wgsl => {
                    s.append("var ");
                    s.append(name.as_str());
                    s.append(": ");
                    s.append(d.name_of_type(ty));
                },
                _ => {
                    s.append(d.name_of_type(ty));
                    s.append(" ");
                    s.append(name.as_str());
                },
            }
            match init {
                None => {
                    s.append(";\n");
                },
                Some(e) => {
                    s.append(" = ");
                    s.append(expr_to_text(d, e).as_str());
                    s.append(";\n");
                },
            }
            s
        },
        Stmt::Block(stmts) => {
            let mut inner: String = String::from_str(ind);
            inner.append("    ");
            s.append("{\n");
            s.append(stmts_to_text(d, stmts, inner.as_str()).as_str());
            s.append(ind);
            s.append("}\n");
            s
        },
        Stmt::If { cond, then_branch, else_branch } => {
            s.append("if (");
            s.append(expr_to_text(d, cond).as_str());
            s.append(") ");
            s.append(stmt_to_text(d, then_branch, ind).as_str());
            match else_branch {
                None => {},
                Some(e) => {
                    s.append(ind);
                    s.append("else ");
                    s.append(stmt_to_text(d, e, ind).as_str());
                },
            }
            s
        },
        Stmt::For { init, cond, update, body } => {
            s.append("for (");
            match init {
                None => {
                    s.append(";");
                },
                Some(i) => {
                    let t: String = stmt_to_text(d, i, "");
                    push_trimmed(&mut s, t.as_str());
                },
            }
            s.append(" ");
            match cond {
                None => {},
                Some(c) => {
                    s.append(expr_to_text(d, c).as_str());
                },
            }
            s.append("; ");
            match update {
                None => {},
                Some(u) => {
                    s.append(expr_to_text(d, u).as_str());
                },
            }
            s.append(") ");
            s.append(stmt_to_text(d, body, ind).as_str());
            s
        },
        Stmt::While { cond, body } => {
            match d {
                Dialect::Wgsl => {
                    let mut inner: String = String::from_str(ind);
                    inner.append("    ");
                    s.append("loop {\n");
                    s.append(ind);
                    s.append("    if (!");
                    s.append(expr_to_text(d, cond).as_str());
                    s.append(") { break; }\n");
                    s.append(body_to_text(d, body, inner.as_str()).as_str());
                    s.append(ind);
                    s.append("}\n");
                },
                _ => {
                    s.append("while (");
                    s.append(expr_to_text(d, cond).as_str());
                    s.append(") ");
                    s.append(stmt_to_text(d, body, ind).as_str());
                },
            }
            s
        },
        Stmt::DoWhile { body, cond } => {
            match d {
                Dialect::Wgsl => {
                    let mut inner: String = String::from_str(ind);
                    inner.append("    ");
                    s.append("loop {\n");
                    s.append(body_to_text(d, body, inner.as_str()).as_str());
                    s.append(ind);
                    s.append("    if (!");
                    s.append(expr_to_text(d, cond).as_str());
                    s.append(") { break; }\n");
                    s.append(ind);
                    s.append("}\n");
                },
                _ => {
                    s.append("do ");
                    s.append(stmt_to_text(d, body, ind).as_str());
                    s.append(" while (");
                    s.append(expr_to_text(d, cond).as_str());
                    s.append(");\n");
                },
            }
            s
        },
        Stmt::Return(value) => {
            match value {
                None => {
                    s.append("return;\n");
                },
                Some(e) => {
                    s.append("return ");
                    s.append(expr_to_text(d, e).as_str());
                    s.append(";\n");
                },
            }
            s
        },
        Stmt::Break => {
            s.append("break;\n");
            s
        },
        Stmt::Continue => {
            s.append("continue;\n");
            s
        },
        Stmt::Discard => {
            match d {
                Dialect::Msl => {
                    s.append("discard_fragment();\n");
                },
                _ => {
                    s.append("discard;\n");
                },
            }
            s
        },
    }
}

/// Emits statements one after the other.
fn stmts_to_text(d: Dialect, stmts: &Vec<Stmt>, ind: &str) -> (s: String)
    ensures
        s@ == stmts_text(
            d,
            stmts_model(stmts@, stmts@.len()),
            stmts_model(stmts@, stmts@.len()).len(),
            ind@,
        ),
    decreases stmts, 0nat,
{
    let ghost ms = stmts_model(stmts@, stmts@.len());
    proof {
        lemma_stmts_index(stmts@, stmts@.len());
    }
    let mut s: String = String::new();
    let mut i: usize = 0;
    while i < stmts.len()
        invariant
            i <= stmts@.len() == ms.len(),
            forall|j: int| 0 <= j < stmts@.len() ==> #[trigger] ms[j] == stmt_model(stmts@[j]),
            s@ == stmts_text(d, ms, i as nat, ind@),
        decreases stmts@.len() - i,
    {
        let t: String = stmt_to_text(d, &stmts[i], ind);
        s.append(t.as_str());
        i = i + 1;
    }
    s
}

/// Emits the statements of a loop body without the body's own braces.
fn body_to_text(d: Dialect, body: &Stmt, ind: &str) -> (s: String)
    ensures
        s@ == body_text(d, stmt_model(*body), ind@),
    decreases body, 1nat,
{
    match body {
        Stmt::Block(stmts) => stmts_to_text(d, stmts, ind),
        _ => stmt_to_text(d, body, ind),
    }
}

/// Emits the parameters of a function.
fn params_to_text(d: Dialect, params: &Vec<Param>) -> (s: String)
    ensures
        s@ == params_text(d, params_model(params@), params@.len()),
{
    let mut s: String = String::new();
    let mut i: usize = 0;
    while i < params.len()
        invariant
            i <= params@.len(),
            s@ == params_text(d, params_model(params@), i as nat),
        decreases params@.len() - i,
    {
        if i > 0 {
            s.append(", ");
        }
        let p: &Param = &params[i];
        match d {
            Dialect::Wgsl => {
                s.append(p.name.as_str());
                s.append(": ");
                s.append(d.name_of_type(&p.ty));
            },
            _ => {
                s.append(d.name_of_type(&p.ty));
                s.append(" ");
                s.append(p.name.as_str());
            },
        }
        i = i + 1;
    }
    s
}

/// Emits a function definition.
pub fn function_to_text(d: Dialect, f: &FnDecl) -> (s: String)
    ensures
        s@ == function_text(d, fn_model(*f)),
{
    let params: String = params_to_text(d, &f.params);
    match d {
        Dialect::Wgsl => {
            let mut s: String = String::from_str("fn ");
            s.append(f.name.as_str());
            s.append("(");
            s.append(params.as_str());
            s.append(") -> ");
            s.append(d.name_of_type(&f.return_type));
            s.append(" {\n");
            match &f.body {
                Stmt::Block(stmts) => {
                    s.append(stmts_to_text(d, stmts, "    ").as_str());
                },
                _ => {},
            }
            s.append("}\n");
            s
        },
        _ => {
            let mut s: String = String::from_str(d.name_of_type(&f.return_type));
            s.append(" ");
            s.append(f.name.as_str());
            s.append("(");
            s.append(params.as_str());
            s.append(") ");
            s.append(stmt_to_text(d, &f.body, "").as_str());
            s
        },
    }
}

} // verus!
