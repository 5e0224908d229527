//! Syntax trees as mathematical values.
//!
//! A tree of `sksl::ast` holds strings and vectors; its model holds their
//! contents, so that two trees with the same contents have the same model.

use vstd::prelude::*;

use crate::sksl::ast::{
    BinaryOp, Expr, FnDecl, Param, SkslProgram, SkslType, Stmt, UnaryOp, UniformDecl,
};

verus! {

/// The model of an expression.
#[allow(inconsistent_fields)]
pub enum ExprModel {
    /// Integer literal.
    IntLit(int),
    /// Float literal.
    FloatLit(Seq<char>),
    /// Boolean literal.
    BoolLit(bool),
    /// Variable reference.
    Var(Seq<char>),
    /// Binary operation.
    Binary(Box<ExprModel>, BinaryOp, Box<ExprModel>),
    /// Unary operation.
    Unary(UnaryOp, Box<ExprModel>),
    /// Function call.
    Call(Seq<char>, Seq<ExprModel>),
    /// Method call.
    MethodCall(Box<ExprModel>, Seq<char>, Seq<ExprModel>),
    /// Construction of a value.
    Constructor(SkslType, Seq<ExprModel>),
    /// Field or swizzle access.
    Field(Box<ExprModel>, Seq<char>),
    /// Element access.
    Index(Box<ExprModel>, Box<ExprModel>),
    /// `cond ? a : b`
    Ternary(Box<ExprModel>, Box<ExprModel>, Box<ExprModel>),
    /// `target = value`
    Assign(Box<ExprModel>, Box<ExprModel>),
    /// `target op= value`
    CompoundAssign(Box<ExprModel>, BinaryOp, Box<ExprModel>),
    /// `x++` or `x--`
    PostIncDec(Box<ExprModel>, bool),
    /// `++x` or `--x`
    PreIncDec(Box<ExprModel>, bool),
}

/// The model of a statement.
#[allow(inconsistent_fields)]
pub enum StmtModel {
    /// Expression statement.
    Expr(ExprModel),
    /// Variable declaration.
    VarDecl(SkslType, Seq<char>, Option<ExprModel>),
    /// Block of statements.
    Block(Seq<StmtModel>),
    /// Conditional.
    If(ExprModel, Box<StmtModel>, Option<Box<StmtModel>>),
    /// `for` loop.
    For(Option<Box<StmtModel>>, Option<ExprModel>, Option<ExprModel>, Box<StmtModel>),
    /// `while` loop.
    While(ExprModel, Box<StmtModel>),
    /// `do ... while` loop.
    DoWhile(Box<StmtModel>, ExprModel),
    /// `return`
    Return(Option<ExprModel>),
    /// `break`
    Break,
    /// `continue`
    Continue,
    /// `discard`
    Discard,
}

/// The model of a function declaration.
pub struct FnModel {
    /// Function name.
    pub name: Seq<char>,
    /// Return type.
    pub return_type: SkslType,
    /// Types and names of the parameters.
    pub params: Seq<(SkslType, Seq<char>)>,
    /// Body.
    pub body: StmtModel,
}

/// The model of a uniform declaration.
pub struct UniformModel {
    /// Uniform type.
    pub ty: SkslType,
    /// Uniform name.
    pub name: Seq<char>,
    /// Number of elements of an array uniform.
    pub array_size: Option<int>,
}

/// The model of a program.
pub struct ProgramModel {
    /// Uniforms in declaration order.
    pub uniforms: Seq<UniformModel>,
    /// Functions in declaration order.
    pub functions: Seq<FnModel>,
}

/// The model of an expression tree.
pub open spec fn expr_model(e: Expr) -> ExprModel
    decreases e, 0nat,
{
    match e {
        Expr::IntLit(n) => ExprModel::IntLit(n as int),
        Expr::FloatLit(t) => ExprModel::FloatLit(t@),
        Expr::BoolLit(b) => ExprModel::BoolLit(b),
        Expr::Var(name) => ExprModel::Var(name@),
        Expr::Binary { left, op, right } => ExprModel::Binary(
            Box::new(expr_model(*left)),
            op,
            Box::new(expr_model(*right)),
        ),
        Expr::Unary { op, expr } => ExprModel::Unary(op, Box::new(expr_model(*expr))),
        Expr::Call { name, args } => ExprModel::Call(name@, exprs_model(args@, args@.len())),
        Expr::MethodCall { receiver, method, args } => ExprModel::MethodCall(
            Box::new(expr_model(*receiver)),
            method@,
            exprs_model(args@, args@.len()),
        ),
        Expr::Constructor { ty, args } => ExprModel::Constructor(
            ty,
            exprs_model(args@, args@.len()),
        ),
        Expr::Field { expr, field } => ExprModel::Field(Box::new(expr_model(*expr)), field@),
        Expr::Index { expr, index } => ExprModel::Index(
            Box::new(expr_model(*expr)),
            Box::new(expr_model(*index)),
        ),
        Expr::Ternary { cond, then_expr, else_expr } => ExprModel::Ternary(
            Box::new(expr_model(*cond)),
            Box::new(expr_model(*then_expr)),
            Box::new(expr_model(*else_expr)),
        ),
        Expr::Assign { target, value } => ExprModel::Assign(
            Box::new(expr_model(*target)),
            Box::new(expr_model(*value)),
        ),
        Expr::CompoundAssign { target, op, value } => ExprModel::CompoundAssign(
            Box::new(expr_model(*target)),
            op,
            Box::new(expr_model(*value)),
        ),
        Expr::PostIncDec { expr, inc } => ExprModel::PostIncDec(Box::new(expr_model(*expr)), inc),
        Expr::PreIncDec { expr, inc } => ExprModel::PreIncDec(Box::new(expr_model(*expr)), inc),
    }
}

/// The models of the first `n` expressions of a list.
pub open spec fn exprs_model(es: Seq<Expr>, n: nat) -> Seq<ExprModel>
    decreases es, n,
{
    if n == 0 || n > es.len() {
        Seq::empty()
    } else {
        exprs_model(es, (n - 1) as nat).push(expr_model(es[n - 1]))
    }
}

/// The model of an optional expression.
pub open spec fn opt_expr_model(e: Option<Expr>) -> Option<ExprModel> {
    match e {
        None => None,
        Some(x) => Some(expr_model(x)),
    }
}

/// The model of a statement tree.
pub open spec fn stmt_model(s: Stmt) -> StmtModel
    decreases s, 0nat,
{
    match s {
        Stmt::Expr(e) => StmtModel::Expr(expr_model(e)),
        Stmt::VarDecl { ty, name, init } => StmtModel::VarDecl(ty, name@, opt_expr_model(init)),
        Stmt::Block(stmts) => StmtModel::Block(stmts_model(stmts@, stmts@.len())),
        Stmt::If { cond, then_branch, else_branch } => StmtModel::If(
            expr_model(cond),
            Box::new(stmt_model(*then_branch)),
            match else_branch {
                None => None,
                Some(e) => Some(Box::new(stmt_model(*e))),
            },
        ),
        Stmt::For { init, cond, update, body } => StmtModel::For(
            match init {
                None => None,
                Some(i) => Some(Box::new(stmt_model(*i))),
            },
            opt_expr_model(cond),
            opt_expr_model(update),
            Box::new(stmt_model(*body)),
        ),
        Stmt::While { cond, body } => StmtModel::While(
            expr_model(cond),
            Box::new(stmt_model(*body)),
        ),
        Stmt::DoWhile { body, cond } => StmtModel::DoWhile(
            Box::new(stmt_model(*body)),
            expr_model(cond),
        ),
        Stmt::Return(value) => StmtModel::Return(opt_expr_model(value)),
        Stmt::Break => StmtModel::Break,
        Stmt::Continue => StmtModel::Continue,
        Stmt::Discard => StmtModel::Discard,
    }
}

/// The models of the first `n` statements of a list.
pub open spec fn stmts_model(ss: Seq<Stmt>, n: nat) -> Seq<StmtModel>
    decreases ss, n,
{
    if n == 0 || n > ss.len() {
        Seq::empty()
    } else {
        stmts_model(ss, (n - 1) as nat).push(stmt_model(ss[n - 1]))
    }
}

/// The types and names of parameters.
pub open spec fn params_model(ps: Seq<Param>) -> Seq<(SkslType, Seq<char>)> {
    Seq::new(ps.len(), |i: int| (ps[i].ty, ps[i].name@))
}

/// The model of a function declaration.
pub open spec fn fn_model(f: FnDecl) -> FnModel {
    FnModel {
        name: f.name@,
        return_type: f.return_type,
        params: params_model(f.params@),
        body: stmt_model(f.body),
    }
}

/// The model of a uniform declaration.
pub open spec fn uniform_model(u: UniformDecl) -> UniformModel {
    UniformModel {
        ty: u.ty,
        name: u.name@,
        array_size: match u.array_size {
            None => None,
            Some(n) => Some(n as int),
        },
    }
}

/// The models of uniform declarations.
pub open spec fn uniforms_model(us: Seq<UniformDecl>) -> Seq<UniformModel> {
    Seq::new(us.len(), |i: int| uniform_model(us[i]))
}

/// The models of function declarations.
pub open spec fn fns_model(fs: Seq<FnDecl>) -> Seq<FnModel> {
    Seq::new(fs.len(), |i: int| fn_model(fs[i]))
}

impl View for SkslProgram {
    type V = ProgramModel;

    open spec fn view(&self) -> ProgramModel {
        ProgramModel {
            uniforms: uniforms_model(self.uniforms@),
            functions: fns_model(self.functions@),
        }
    }
}

/// The models of the first `n` expressions do not depend on later ones.
pub proof fn lemma_exprs_prefix(es: Seq<Expr>, x: Expr, n: nat)
    requires
        n <= es.len(),
    ensures
        exprs_model(es.push(x), n) == exprs_model(es, n),
    decreases n,
{
    if n > 0 {
        lemma_exprs_prefix(es, x, (n - 1) as nat);
        assert(es.push(x)[n - 1] == es[n - 1]);
    }
}

/// Appending an expression appends its model.
pub proof fn lemma_exprs_push(es: Seq<Expr>, x: Expr)
    ensures
        exprs_model(es.push(x), es.push(x).len()) == exprs_model(es, es.len()).push(expr_model(x)),
{
    lemma_exprs_prefix(es, x, es.len());
    assert(es.push(x)[es.len() as int] == x);
}

/// The models of the first `n` statements do not depend on later ones.
pub proof fn lemma_stmts_prefix(ss: Seq<Stmt>, x: Stmt, n: nat)
    requires
        n <= ss.len(),
    ensures
        stmts_model(ss.push(x), n) == stmts_model(ss, n),
    decreases n,
{
    if n > 0 {
        lemma_stmts_prefix(ss, x, (n - 1) as nat);
        assert(ss.push(x)[n - 1] == ss[n - 1]);
    }
}

/// Appending a statement appends its model.
pub proof fn lemma_stmts_push(ss: Seq<Stmt>, x: Stmt)
    ensures
        stmts_model(ss.push(x), ss.push(x).len()) == stmts_model(ss, ss.len()).push(stmt_model(x)),
{
    lemma_stmts_prefix(ss, x, ss.len());
    assert(ss.push(x)[ss.len() as int] == x);
}

/// `exprs_model` models each element and keeps the number of elements.
pub proof fn lemma_exprs_index(es: Seq<Expr>, n: nat)
    requires
        n <= es.len(),
    ensures
        exprs_model(es, n).len() == n,
        forall|i: int| 0 <= i < n ==> #[trigger] exprs_model(es, n)[i] == expr_model(es[i]),
    decreases n,
{
    if n > 0 {
        lemma_exprs_index(es, (n - 1) as nat);
    }
}

/// `stmts_model` models each element and keeps the number of elements.
pub proof fn lemma_stmts_index(ss: Seq<Stmt>, n: nat)
    requires
        n <= ss.len(),
    ensures
        stmts_model(ss, n).len() == n,
        forall|i: int| 0 <= i < n ==> #[trigger] stmts_model(ss, n)[i] == stmt_model(ss[i]),
    decreases n,
{
    if n > 0 {
        lemma_stmts_index(ss, (n - 1) as nat);
    }
}

} // verus!
