//! Semantic checks: every name is declared, calls of the program's functions
//! have the right number of arguments, and initial values fit their variables.

use vstd::prelude::*;

use crate::sksl::ast::{BinaryOp, Expr, FnDecl, SkslProgram, SkslType, Stmt, UnaryOp};
use crate::sksl::model::{
    ExprModel, FnModel, ProgramModel, StmtModel, UniformModel, expr_model, exprs_model, fn_model,
    fns_model, lemma_exprs_index, lemma_stmts_index, stmt_model, stmts_model,
};
use crate::text::same_text;

verus! {

/// What a check can find.
#[derive(Debug, Clone, Copy, PartialEq, Eq, Structural)]
pub enum Fault {
    /// A variable is used that is not in scope.
    UndeclaredVariable,
    /// A function is called that is neither declared nor built in.
    UndeclaredFunction,
    /// A function is called with the wrong number of arguments.
    WrongArgumentCount,
    /// The initial value of a variable does not fit its type.
    InitializerMismatch,
}

/// A fault with the name it concerns.
#[derive(Debug)]
pub struct CheckError {
    /// What is wrong.
    pub fault: Fault,
    /// The variable or function concerned.
    pub name: String,
}

/// A fault with the name it concerns, as a mathematical value.
pub struct CheckErrorModel {
    /// What is wrong.
    pub fault: Fault,
    /// The variable or function concerned.
    pub name: Seq<char>,
}

impl View for CheckError {
    type V = CheckErrorModel;

    open spec fn view(&self) -> CheckErrorModel {
        CheckErrorModel { fault: self.fault, name: self.name@ }
    }
}

impl Fault {
    /// The words for the fault.
    pub open spec fn text(self) -> Seq<char> {
        match self {
            Fault::UndeclaredVariable => "undeclared variable: "@,
            Fault::UndeclaredFunction => "undeclared function: "@,
            Fault::WrongArgumentCount => "wrong number of arguments to function: "@,
            Fault::InitializerMismatch => "type mismatch in initializer of variable: "@,
        }
    }

    /// The words for the fault.
    pub fn describe(&self) -> (s: &'static str)
        ensures
            s@ == self.text(),
    {
        match self {
            Fault::UndeclaredVariable => "undeclared variable: ",
            Fault::UndeclaredFunction => "undeclared function: ",
            Fault::WrongArgumentCount => "wrong number of arguments to function: ",
            Fault::InitializerMismatch => "type mismatch in initializer of variable: ",
        }
    }
}

/// The type of a variable. The variables in scope stand in a list, innermost
/// last, and the innermost declaration counts.
pub open spec fn var_type(env: Seq<(Seq<char>, SkslType)>, name: Seq<char>) -> Option<SkslType>
    decreases env.len(),
{
    if env.len() == 0 {
        None
    } else if env.last().0 == name {
        Some(env.last().1)
    } else {
        var_type(env.drop_last(), name)
    }
}

/// The functions that every program can call.
pub open spec fn is_builtin(n: Seq<char>) -> bool {
    ||| n == "abs"@
    ||| n == "sign"@
    ||| n == "floor"@
    ||| n == "ceil"@
    ||| n == "fract"@
    ||| n == "sin"@
    ||| n == "cos"@
    ||| n == "tan"@
    ||| n == "asin"@
    ||| n == "acos"@
    ||| n == "atan"@
    ||| n == "atan2"@
    ||| n == "exp"@
    ||| n == "exp2"@
    ||| n == "log"@
    ||| n == "log2"@
    ||| n == "sqrt"@
    ||| n == "inversesqrt"@
    ||| n == "pow"@
    ||| n == "mod"@
    ||| n == "min"@
    ||| n == "max"@
    ||| n == "clamp"@
    ||| n == "mix"@
    ||| n == "step"@
    ||| n == "smoothstep"@
    ||| n == "length"@
    ||| n == "distance"@
    ||| n == "dot"@
    ||| n == "cross"@
    ||| n == "normalize"@
    ||| n == "reflect"@
    ||| n == "refract"@
    ||| n == "radians"@
    ||| n == "degrees"@
}

/// The first function of the given name.
pub open spec fn find_fn(fns: Seq<FnModel>, name: Seq<char>) -> Option<FnModel>
    decreases fns.len(),
{
    if fns.len() == 0 {
        None
    } else if fns[0].name == name {
        Some(fns[0])
    } else {
        find_fn(fns.skip(1), name)
    }
}

/// A type with reduced precision taken as full precision.
pub open spec fn widened(t: SkslType) -> SkslType {
    match t {
        SkslType::Half => SkslType::Float,
        SkslType::Half2 => SkslType::Vec2,
        SkslType::Half3 => SkslType::Vec3,
        SkslType::Half4 => SkslType::Vec4,
        _ => t,
    }
}

/// Whether a type is a single number or truth value.
pub open spec fn is_scalar(t: SkslType) -> bool {
    widened(t) is Bool || widened(t) is Int || widened(t) is Float
}

/// Whether a type is a square matrix.
pub open spec fn is_matrix(t: SkslType) -> bool {
    t is Mat2 || t is Mat3 || t is Mat4
}

/// Whether the operator gives a truth value.
pub open spec fn gives_bool(op: BinaryOp) -> bool {
    match op {
        BinaryOp::Eq | BinaryOp::NotEq | BinaryOp::Lt | BinaryOp::LtEq | BinaryOp::Gt
        | BinaryOp::GtEq | BinaryOp::And | BinaryOp::Or => true,
        _ => false,
    }
}

/// The type of an operation, where it is known: a truth value, the common type
/// of both operands, or the wider operand when the other is a scalar.
pub open spec fn operation_type(
    op: BinaryOp,
    l: Option<SkslType>,
    r: Option<SkslType>,
) -> Option<SkslType> {
    if gives_bool(op) {
        Some(SkslType::Bool)
    } else {
        match (l, r) {
            (Some(a), Some(b)) => if widened(a) == widened(b) {
                Some(a)
            } else if is_scalar(a) {
                if is_scalar(b) {
                    Some(SkslType::Float)
                } else {
                    Some(b)
                }
            } else if is_scalar(b) {
                Some(a)
            } else if is_matrix(a) {
                Some(b)
            } else if is_matrix(b) {
                Some(a)
            } else {
                None
            },
            _ => None,
        }
    }
}

/// Whether a type is a vector.
pub open spec fn is_vector(t: SkslType) -> bool {
    widened(t) is Vec2 || widened(t) is Vec3 || widened(t) is Vec4
}

/// The type of a swizzle of `n` components of a vector.
pub open spec fn swizzle_type(base: Option<SkslType>, n: nat) -> Option<SkslType> {
    match base {
        Some(t) => if is_vector(t) {
            if n == 1 {
                Some(SkslType::Float)
            } else if n == 2 {
                Some(SkslType::Vec2)
            } else if n == 3 {
                Some(SkslType::Vec3)
            } else if n == 4 {
                Some(SkslType::Vec4)
            } else {
                None
            }
        } else {
            None
        },
        None => None,
    }
}

/// The type of an element: a component of a vector or a column of a matrix.
pub open spec fn element_type(base: Option<SkslType>) -> Option<SkslType> {
    match base {
        Some(t) => if is_vector(t) {
            Some(SkslType::Float)
        } else {
            match t {
                SkslType::Mat2 => Some(SkslType::Vec2),
                SkslType::Mat3 => Some(SkslType::Vec3),
                SkslType::Mat4 => Some(SkslType::Vec4),
                _ => None,
            }
        },
        None => None,
    }
}

/// Whether a value of the given type, if it is known, fits a variable.
pub open spec fn fits(var: SkslType, value: Option<SkslType>) -> bool {
    match value {
        None => true,
        Some(t) => widened(var) == widened(t) || (is_scalar(var) && is_scalar(t)),
    }
}

/// The type of an expression, where it is known, or the first fault in it.
pub open spec fn infer(
    e: ExprModel,
    env: Seq<(Seq<char>, SkslType)>,
    fns: Seq<FnModel>,
) -> Result<Option<SkslType>, CheckErrorModel>
    decreases e, 0nat,
{
    match e {
        ExprModel::IntLit(_) => Ok(Some(SkslType::Int)),
        ExprModel::FloatLit(_) => Ok(Some(SkslType::Float)),
        ExprModel::BoolLit(_) => Ok(Some(SkslType::Bool)),
        ExprModel::Var(name) => match var_type(env, name) {
            Some(t) => Ok(Some(t)),
            None => Err(CheckErrorModel { fault: Fault::UndeclaredVariable, name }),
        },
        ExprModel::Binary(l, op, r) => match infer(*l, env, fns) {
            Err(x) => Err(x),
            Ok(a) => match infer(*r, env, fns) {
                Err(x) => Err(x),
                Ok(b) => Ok(operation_type(op, a, b)),
            },
        },
        ExprModel::Unary(op, x) => match infer(*x, env, fns) {
            Err(f) => Err(f),
            Ok(t) => if op is Not {
                Ok(Some(SkslType::Bool))
            } else {
                Ok(t)
            },
        },
        ExprModel::Call(name, args) => match infer_all(args, args.len(), env, fns) {
            Some(f) => Err(f),
            None => if is_builtin(name) {
                Ok(None)
            } else {
                match find_fn(fns, name) {
                    None => Err(CheckErrorModel { fault: Fault::UndeclaredFunction, name }),
                    Some(f) => if f.params.len() == args.len() {
                        Ok(Some(f.return_type))
                    } else {
                        Err(CheckErrorModel { fault: Fault::WrongArgumentCount, name })
                    },
                }
            },
        },
        ExprModel::MethodCall(receiver, _, args) => match infer(*receiver, env, fns) {
            Err(f) => Err(f),
            Ok(_) => match infer_all(args, args.len(), env, fns) {
                Some(f) => Err(f),
                None => Ok(Some(SkslType::Vec4)),
            },
        },
        ExprModel::Constructor(ty, args) => match infer_all(args, args.len(), env, fns) {
            Some(f) => Err(f),
            None => Ok(Some(ty)),
        },
        ExprModel::Field(base, field) => match infer(*base, env, fns) {
            Err(f) => Err(f),
            Ok(t) => Ok(swizzle_type(t, field.len())),
        },
        ExprModel::Index(base, index) => match infer(*base, env, fns) {
            Err(f) => Err(f),
            Ok(t) => match infer(*index, env, fns) {
                Err(f) => Err(f),
                Ok(_) => Ok(element_type(t)),
            },
        },
        ExprModel::Ternary(c, a, b) => match infer(*c, env, fns) {
            Err(f) => Err(f),
            Ok(_) => match infer(*a, env, fns) {
                Err(f) => Err(f),
                Ok(t) => match infer(*b, env, fns) {
                    Err(f) => Err(f),
                    Ok(_) => Ok(t),
                },
            },
        },
        ExprModel::Assign(target, value) => match infer(*target, env, fns) {
            Err(f) => Err(f),
            Ok(t) => match infer(*value, env, fns) {
                Err(f) => Err(f),
                Ok(_) => Ok(t),
            },
        },
        ExprModel::CompoundAssign(target, _, value) => match infer(*target, env, fns) {
            Err(f) => Err(f),
            Ok(t) => match infer(*value, env, fns) {
                Err(f) => Err(f),
                Ok(_) => Ok(t),
            },
        },
        ExprModel::PostIncDec(x, _) => infer(*x, env, fns),
        ExprModel::PreIncDec(x, _) => infer(*x, env, fns),
    }
}

/// The first fault in the first `n` expressions of a list.
pub open spec fn infer_all(
    es: Seq<ExprModel>,
    n: nat,
    env: Seq<(Seq<char>, SkslType)>,
    fns: Seq<FnModel>,
) -> Option<CheckErrorModel>
    decreases es, n,
{
    if n == 0 || n > es.len() {
        None
    } else {
        match infer_all(es, (n - 1) as nat, env, fns) {
            Some(f) => Some(f),
            None => match infer(es[n - 1], env, fns) {
                Err(f) => Some(f),
                Ok(_) => None,
            },
        }
    }
}

/// The first fault in an expression.
pub open spec fn expr_fault(
    e: ExprModel,
    env: Seq<(Seq<char>, SkslType)>,
    fns: Seq<FnModel>,
) -> Option<CheckErrorModel> {
    match infer(e, env, fns) {
        Err(f) => Some(f),
        Ok(_) => None,
    }
}

/// The first fault in an optional expression.
pub open spec fn opt_fault(
    e: Option<ExprModel>,
    env: Seq<(Seq<char>, SkslType)>,
    fns: Seq<FnModel>,
) -> Option<CheckErrorModel> {
    match e {
        None => None,
        Some(x) => expr_fault(x, env, fns),
    }
}

/// The variables in scope behind a statement: a declaration adds one.
pub open spec fn env_after(s: StmtModel, env: Seq<(Seq<char>, SkslType)>) -> Seq<
    (Seq<char>, SkslType),
> {
    match s {
        StmtModel::VarDecl(ty, name, _) => env.push((name, ty)),
        _ => env,
    }
}

/// The variables in scope behind the first `n` statements of a list.
pub open spec fn env_after_all(
    ss: Seq<StmtModel>,
    n: nat,
    env: Seq<(Seq<char>, SkslType)>,
) -> Seq<(Seq<char>, SkslType)>
    decreases n,
{
    if n == 0 || n > ss.len() {
        env
    } else {
        env_after(ss[n - 1], env_after_all(ss, (n - 1) as nat, env))
    }
}

/// The first fault in a statement.
pub open spec fn stmt_fault(
    s: StmtModel,
    env: Seq<(Seq<char>, SkslType)>,
    fns: Seq<FnModel>,
) -> Option<CheckErrorModel>
    decreases s, 0nat,
{
    match s {
        StmtModel::Expr(e) => expr_fault(e, env, fns),
        StmtModel::VarDecl(ty, name, init) => match init {
            None => None,
            Some(e) => match infer(e, env, fns) {
                Err(f) => Some(f),
                Ok(t) => if fits(ty, t) {
                    None
                } else {
                    Some(CheckErrorModel { fault: Fault::InitializerMismatch, name })
                },
            },
        },
        StmtModel::Block(ss) => stmts_fault(ss, ss.len(), env, fns),
        StmtModel::If(c, a, b) => match expr_fault(c, env, fns) {
            Some(f) => Some(f),
            None => match stmt_fault(*a, env, fns) {
                Some(f) => Some(f),
                None => match b {
                    None => None,
                    Some(x) => stmt_fault(*x, env, fns),
                },
            },
        },
        StmtModel::For(init, c, u, body) => {
            let start = match init {
                None => None,
                Some(i) => stmt_fault(*i, env, fns),
            };
            let inner = match init {
                None => env,
                Some(i) => env_after(*i, env),
            };
            match start {
                Some(f) => Some(f),
                None => match opt_fault(c, inner, fns) {
                    Some(f) => Some(f),
                    None => match opt_fault(u, inner, fns) {
                        Some(f) => Some(f),
                        None => stmt_fault(*body, inner, fns),
                    },
                },
            }
        },
        StmtModel::While(c, body) => match expr_fault(c, env, fns) {
            Some(f) => Some(f),
            None => stmt_fault(*body, env, fns),
        },
        StmtModel::DoWhile(body, c) => match stmt_fault(*body, env, fns) {
            Some(f) => Some(f),
            None => expr_fault(c, env, fns),
        },
        StmtModel::Return(v) => opt_fault(v, env, fns),
        _ => None,
    }
}

/// The first fault in the first `n` statements of a list.
pub open spec fn stmts_fault(
    ss: Seq<StmtModel>,
    n: nat,
    env: Seq<(Seq<char>, SkslType)>,
    fns: Seq<FnModel>,
) -> Option<CheckErrorModel>
    decreases ss, n,
{
    if n == 0 || n > ss.len() {
        None
    } else {
        match stmts_fault(ss, (n - 1) as nat, env, fns) {
            Some(f) => Some(f),
            None => stmt_fault(ss[n - 1], env_after_all(ss, (n - 1) as nat, env), fns),
        }
    }
}

/// The variables in scope in every function: the uniforms.
pub open spec fn globals(us: Seq<UniformModel>) -> Seq<(Seq<char>, SkslType)> {
    Seq::new(us.len(), |i: int| (us[i].name, us[i].ty))
}

/// The parameters of a function as variables.
pub open spec fn locals(ps: Seq<(SkslType, Seq<char>)>) -> Seq<(Seq<char>, SkslType)> {
    Seq::new(ps.len(), |i: int| (ps[i].1, ps[i].0))
}

/// The first fault in a function.
pub open spec fn fn_fault(p: ProgramModel, f: FnModel) -> Option<CheckErrorModel> {
    stmt_fault(f.body, globals(p.uniforms) + locals(f.params), p.functions)
}

/// The first fault in the first `n` functions of a program.
pub open spec fn program_fault(p: ProgramModel, n: nat) -> Option<CheckErrorModel>
    decreases n,
{
    if n == 0 || n > p.functions.len() {
        None
    } else {
        match program_fault(p, (n - 1) as nat) {
            Some(f) => Some(f),
            None => fn_fault(p, p.functions[n - 1]),
        }
    }
}

/// A variable in scope.
struct Binding {
    name: String,
    ty: SkslType,
}

/// What a list of bindings stands for.
spec fn env_view(env: Seq<Binding>) -> Seq<(Seq<char>, SkslType)> {
    Seq::new(env.len(), |i: int| (env[i].name@, env[i].ty))
}

/// The type of a variable.
fn find_var(env: &Vec<Binding>, name: &str) -> (r: Option<SkslType>)
    ensures
        r == var_type(env_view(env@), name@),
{
    let ghost ev = env_view(env@);
    let mut i: usize = env.len();
    assert(ev.take(i as int) =~= ev);
    while i > 0
        invariant
            i <= env@.len(),
            ev == env_view(env@),
            var_type(ev, name@) == var_type(ev.take(i as int), name@),
        decreases i,
    {
        assert(ev.take(i as int).drop_last() =~= ev.take(i - 1));
        assert(ev.take(i as int).last() == ev[i - 1]);
        if same_text(env[i - 1].name.as_str(), name) {
            return Some(env[i - 1].ty);
        }
        i = i - 1;
    }
    None
}

/// The index of the first function of the given name.
pub fn find_function(fns: &Vec<FnDecl>, name: &str) -> (r: Option<usize>)
    ensures
        match r {
            Some(i) => i < fns@.len() && find_fn(fns_model(fns@), name@) == Some(
                fn_model(fns@[i as int]),
            ),
            None => find_fn(fns_model(fns@), name@) is None,
        },
{
    let ghost fv = fns_model(fns@);
    let mut i: usize = 0;
    assert(fv.skip(0) =~= fv);
    while i < fns.len()
        invariant
            i <= fns@.len(),
            fv == fns_model(fns@),
            find_fn(fv, name@) == find_fn(fv.skip(i as int), name@),
        decreases fns@.len() - i,
    {
        assert(fv.skip(i as int)[0] == fv[i as int]);
        assert(fv.skip(i as int).skip(1) =~= fv.skip(i + 1));
        if same_text(fns[i].name.as_str(), name) {
            return Some(i);
        }
        i = i + 1;
    }
    None
}

/// Whether a function is built in.
fn name_is_builtin(n: &str) -> (r: bool)
    ensures
        r == is_builtin(n@),
{
    same_text(n, "abs") || same_text(n, "sign") || same_text(n, "floor") || same_text(n, "ceil")
        || same_text(n, "fract") || same_text(n, "sin") || same_text(n, "cos") || same_text(
        n,
        "tan",
    ) || same_text(n, "asin") || same_text(n, "acos") || same_text(n, "atan") || same_text(
        n,
        "atan2",
    ) || same_text(n, "exp") || same_text(n, "exp2") || same_text(n, "log") || same_text(n, "log2")
        || same_text(n, "sqrt") || same_text(n, "inversesqrt") || same_text(n, "pow") || same_text(
        n,
        "mod",
    ) || same_text(n, "min") || same_text(n, "max") || same_text(n, "clamp") || same_text(n, "mix")
        || same_text(n, "step") || same_text(n, "smoothstep") || same_text(n, "length")
        || same_text(n, "distance") || same_text(n, "dot") || same_text(n, "cross") || same_text(
        n,
        "normalize",
    ) || same_text(n, "reflect") || same_text(n, "refract") || same_text(n, "radians")
        || same_text(n, "degrees")
}

/// A type with reduced precision taken as full precision.
fn widen(t: SkslType) -> (r: SkslType)
    ensures
        r == widened(t),
{
    match t {
        SkslType::Half => SkslType::Float,
        SkslType::Half2 => SkslType::Vec2,
        SkslType::Half3 => SkslType::Vec3,
        SkslType::Half4 => SkslType::Vec4,
        _ => t,
    }
}

/// Whether a type is a single number or truth value.
pub(crate) fn type_is_scalar(t: SkslType) -> (r: bool)
    ensures
        r == is_scalar(t),
{
    match widen(t) {
        SkslType::Bool | SkslType::Int | SkslType::Float => true,
        _ => false,
    }
}

/// Whether a type is a square matrix.
pub(crate) fn type_is_matrix(t: SkslType) -> (r: bool)
    ensures
        r == is_matrix(t),
{
    match t {
        SkslType::Mat2 | SkslType::Mat3 | SkslType::Mat4 => true,
        _ => false,
    }
}

/// Whether a type is a vector.
fn type_is_vector(t: SkslType) -> (r: bool)
    ensures
        r == is_vector(t),
{
    match widen(t) {
        SkslType::Vec2 | SkslType::Vec3 | SkslType::Vec4 => true,
        _ => false,
    }
}

/// The type of an operation.
fn type_of_operation(op: BinaryOp, l: Option<SkslType>, r: Option<SkslType>) -> (t: Option<
    SkslType,
>)
    ensures
        t == operation_type(op, l, r),
{
    match op {
        BinaryOp::Eq
        | BinaryOp::NotEq
        | BinaryOp::Lt
        | BinaryOp::LtEq
        | BinaryOp::Gt
        | BinaryOp::GtEq
        | BinaryOp::And
        | BinaryOp::Or => {
            return Some(SkslType::Bool);
        },
        _ => {},
    }
    match (l, r) {
        (Some(a), Some(b)) => {
            if widen(a) == widen(b) {
                Some(a)
            } else if type_is_scalar(a) {
                if type_is_scalar(b) {
                    Some(SkslType::Float)
                } else {
                    Some(b)
                }
            } else if type_is_scalar(b) {
                Some(a)
            } else if type_is_matrix(a) {
                Some(b)
            } else if type_is_matrix(b) {
                Some(a)
            } else {
                None
            }
        },
        _ => None,
    }
}

/// The type of a swizzle.
fn type_of_swizzle(base: Option<SkslType>, field: &str) -> (t: Option<SkslType>)
    ensures
        t == swizzle_type(base, field@.len()),
{
    match base {
        Some(b) => {
            if !type_is_vector(b) {
                return None;
            }
            let n: usize = field.unicode_len();
            if n == 1 {
                Some(SkslType::Float)
            } else if n == 2 {
                Some(SkslType::Vec2)
            } else if n == 3 {
                Some(SkslType::Vec3)
            } else if n == 4 {
                Some(SkslType::Vec4)
            } else {
                None
            }
        },
        None => None,
    }
}

/// The type of an element.
fn type_of_element(base: Option<SkslType>) -> (t: Option<SkslType>)
    ensures
        t == element_type(base),
{
    match base {
        Some(b) => {
            if type_is_vector(b) {
                return Some(SkslType::Float);
            }
            match b {
                SkslType::Mat2 => Some(SkslType::Vec2),
                SkslType::Mat3 => Some(SkslType::Vec3),
                SkslType::Mat4 => Some(SkslType::Vec4),
                _ => None,
            }
        },
        None => None,
    }
}

/// Whether a value fits a variable.
fn value_fits(var: SkslType, value: Option<SkslType>) -> (r: bool)
    ensures
        r == fits(var, value),
{
    match value {
        None => true,
        Some(t) => widen(var) == widen(t) || (type_is_scalar(var) && type_is_scalar(t)),
    }
}

/// The outcome that the rules describe.
spec fn infer_outcome(
    r: Result<Option<SkslType>, CheckError>,
    s: Result<Option<SkslType>, CheckErrorModel>,
) -> bool {
    match r {
        Ok(t) => s == Ok::<Option<SkslType>, CheckErrorModel>(t),
        Err(e) => s == Err::<Option<SkslType>, CheckErrorModel>(e@),
    }
}

/// The outcome that the rules describe.
spec fn fault_outcome(r: Result<(), CheckError>, s: Option<CheckErrorModel>) -> bool {
    match r {
        Ok(_) => s is None,
        Err(e) => s == Some(e@),
    }
}

/// Infers the type of an expression.
fn check_expr(e: &Expr, env: &Vec<Binding>, fns: &Vec<FnDecl>) -> (r: Result<
    Option<SkslType>,
    CheckError,
>)
    ensures
        infer_outcome(r, infer(expr_model(*e), env_view(env@), fns_model(fns@))),
    decreases e, 0nat,
{
    match e {
        Expr::IntLit(_) => Ok(Some(SkslType::Int)),
        Expr::FloatLit(_) => Ok(Some(SkslType::Float)),
        Expr::BoolLit(_) => Ok(Some(SkslType::Bool)),
        Expr::Var(name) => match find_var(env, name.as_str()) {
            Some(t) => Ok(Some(t)),
            None => Err(CheckError { fault: Fault::UndeclaredVariable, name: name.clone() }),
        },
        Expr::Binary { left, op, right } => match check_expr(left, env, fns) {
            Err(x) => Err(x),
            Ok(a) => match check_expr(right, env, fns) {
                Err(x) => Err(x),
                Ok(b) => Ok(type_of_operation(*op, a, b)),
            },
        },
        Expr::Unary { op, expr } => match check_expr(expr, env, fns) {
            Err(x) => Err(x),
            Ok(t) => match op {
                UnaryOp::Not => Ok(Some(SkslType::Bool)),
                _ => Ok(t),
            },
        },
        Expr::Call { name, args } => {
            proof {
                lemma_exprs_index(args@, args@.len());
            }
            match check_exprs(args, env, fns) {
                Err(x) => {
                    return Err(x);
                },
                Ok(_) => {},
            }
            if name_is_builtin(name.as_str()) {
                return Ok(None);
            }
            match find_function(fns, name.as_str()) {
                None => Err(CheckError { fault: Fault::UndeclaredFunction, name: name.clone() }),
                Some(i) => {
                    if fns[i].params.len() == args.len() {
                        Ok(Some(fns[i].return_type))
                    } else {
                        Err(CheckError { fault: Fault::WrongArgumentCount, name: name.clone() })
                    }
                },
            }
        },
        Expr::MethodCall { receiver, method: _, args } => match check_expr(receiver, env, fns) {
            Err(x) => Err(x),
            Ok(_) => match check_exprs(args, env, fns) {
                Err(x) => Err(x),
                Ok(_) => Ok(Some(SkslType::Vec4)),
            },
        },
        Expr::Constructor { ty, args } => match check_exprs(args, env, fns) {
            Err(x) => Err(x),
            Ok(_) => Ok(Some(*ty)),
        },
        Expr::Field { expr, field } => match check_expr(expr, env, fns) {
            Err(x) => Err(x),
            Ok(t) => Ok(type_of_swizzle(t, field.as_str())),
        },
        Expr::Index { expr, index } => match check_expr(expr, env, fns) {
            Err(x) => Err(x),
            Ok(t) => match check_expr(index, env, fns) {
                Err(x) => Err(x),
                Ok(_) => Ok(type_of_element(t)),
            },
        },
        Expr::Ternary { cond, then_expr, else_expr } => match check_expr(cond, env, fns) {
            Err(x) => Err(x),
            Ok(_) => match check_expr(then_expr, env, fns) {
                Err(x) => Err(x),
                Ok(t) => match check_expr(else_expr, env, fns) {
                    Err(x) => Err(x),
                    Ok(_) => Ok(t),
                },
            },
        },
        Expr::Assign { target, value } => match check_expr(target, env, fns) {
            Err(x) => Err(x),
            Ok(t) => match check_expr(value, env, fns) {
                Err(x) => Err(x),
                Ok(_) => Ok(t),
            },
        },
        Expr::CompoundAssign { target, op: _, value } => match check_expr(target, env, fns) {
            Err(x) => Err(x),
            Ok(t) => match check_expr(value, env, fns) {
                Err(x) => Err(x),
                Ok(_) => Ok(t),
            },
        },
        Expr::PostIncDec { expr, inc: _ } => check_expr(expr, env, fns),
        Expr::PreIncDec { expr, inc: _ } => check_expr(expr, env, fns),
    }
}

/// Checks a list of expressions.
fn check_exprs(es: &Vec<Expr>, env: &Vec<Binding>, fns: &Vec<FnDecl>) -> (r: Result<
    (),
    CheckError,
>)
    ensures
        fault_outcome(
            r,
            infer_all(
                exprs_model(es@, es@.len()),
                exprs_model(es@, es@.len()).len(),
                env_view(env@),
                fns_model(fns@),
            ),
        ),
    decreases es, 0nat,
{
    let ghost ms = exprs_model(es@, es@.len());
    proof {
        lemma_exprs_index(es@, es@.len());
    }
    let mut i: usize = 0;
    while i < es.len()
        invariant
            i <= es@.len(),
            ms == exprs_model(es@, es@.len()),
            ms.len() == es@.len(),
            forall|j: int| 0 <= j < es@.len() ==> #[trigger] ms[j] == expr_model(es@[j]),
            infer_all(ms, i as nat, env_view(env@), fns_model(fns@)) is None,
        decreases es@.len() - i,
    {
        match check_expr(&es[i], env, fns) {
            Err(x) => {
                proof {
                    assert(infer_all(ms, (i + 1) as nat, env_view(env@), fns_model(fns@)) == Some(
                        x@,
                    ));
                    lemma_infer_all_keeps(
                        ms,
                        (i + 1) as nat,
                        ms.len(),
                        env_view(env@),
                        fns_model(fns@),
                    );
                }
                return Err(x);
            },
            Ok(_) => {},
        }
        i = i + 1;
    }
    Ok(())
}

/// A fault in a prefix of a list is the first fault of the list.
proof fn lemma_infer_all_keeps(
    es: Seq<ExprModel>,
    k: nat,
    n: nat,
    env: Seq<(Seq<char>, SkslType)>,
    fns: Seq<FnModel>,
)
    requires
        k <= n <= es.len(),
        infer_all(es, k, env, fns) is Some,
    ensures
        infer_all(es, n, env, fns) == infer_all(es, k, env, fns),
    decreases n,
{
    if k < n {
        lemma_infer_all_keeps(es, k, (n - 1) as nat, env, fns);
    }
}

/// A fault in a prefix of a list is the first fault of the list.
proof fn lemma_stmts_fault_keeps(
    ss: Seq<StmtModel>,
    k: nat,
    n: nat,
    env: Seq<(Seq<char>, SkslType)>,
    fns: Seq<FnModel>,
)
    requires
        k <= n <= ss.len(),
        stmts_fault(ss, k, env, fns) is Some,
    ensures
        stmts_fault(ss, n, env, fns) == stmts_fault(ss, k, env, fns),
    decreases n,
{
    if k < n {
        lemma_stmts_fault_keeps(ss, k, (n - 1) as nat, env, fns);
    }
}

/// A fault in the first functions is the first fault of the program.
proof fn lemma_program_fault_keeps(p: ProgramModel, k: nat, n: nat)
    requires
        k <= n <= p.functions.len(),
        program_fault(p, k) is Some,
    ensures
        program_fault(p, n) == program_fault(p, k),
    decreases n,
{
    if k < n {
        lemma_program_fault_keeps(p, k, (n - 1) as nat);
    }
}

/// Checks an optional expression.
fn check_optional(e: &Option<Expr>, env: &Vec<Binding>, fns: &Vec<FnDecl>) -> (r: Result<
    (),
    CheckError,
>)
    ensures
        fault_outcome(
            r,
            opt_fault(
                crate::sksl::model::opt_expr_model(*e),
                env_view(env@),
                fns_model(fns@),
            ),
        ),
{
    match e {
        None => Ok(()),
        Some(x) => match check_expr(x, env, fns) {
            Err(f) => Err(f),
            Ok(_) => Ok(()),
        },
    }
}

/// Adds what a statement declares to the scope.
fn declare(s: &Stmt, env: &mut Vec<Binding>)
    ensures
        env_view(final(env)@) == env_after(stmt_model(*s), env_view(old(env)@)),
        final(env)@.len() >= old(env)@.len(),
        final(env)@.take(old(env)@.len() as int) == old(env)@,
{
    match s {
        Stmt::VarDecl { ty, name, init: _ } => {
            env.push(Binding { name: name.clone(), ty: *ty });
            assert(env_view(env@) =~= env_after(stmt_model(*s), env_view(old(env)@)));
        },
        _ => {},
    }
    assert(env@.take(old(env)@.len() as int) =~= old(env)@);
}

/// Checks a statement. The scope is left as it was.
fn check_stmt(s: &Stmt, env: &mut Vec<Binding>, fns: &Vec<FnDecl>) -> (r: Result<(), CheckError>)
    ensures
        fault_outcome(r, stmt_fault(stmt_model(*s), env_view(old(env)@), fns_model(fns@))),
        final(env)@ == old(env)@,
    decreases s, 0nat,
{
    match s {
        Stmt::Expr(e) => match check_expr(e, env, fns) {
            Err(f) => Err(f),
            Ok(_) => Ok(()),
        },
        Stmt::VarDecl { ty, name, init } => match init {
            None => Ok(()),
            Some(e) => match check_expr(e, env, fns) {
                Err(f) => Err(f),
                Ok(t) => if value_fits(*ty, t) {
                    Ok(())
                } else {
                    Err(CheckError { fault: Fault::InitializerMismatch, name: name.clone() })
                },
            },
        },
        Stmt::Block(ss) => check_stmts(ss, env, fns),
        Stmt::If { cond, then_branch, else_branch } => {
            match check_expr(cond, env, fns) {
                Err(f) => {
                    return Err(f);
                },
                Ok(_) => {},
            }
            match check_stmt(then_branch, env, fns) {
                Err(f) => {
                    return Err(f);
                },
                Ok(_) => {},
            }
            match else_branch {
                None => Ok(()),
                Some(b) => check_stmt(b, env, fns),
            }
        },
        Stmt::For { init, cond, update, body } => {
            let depth: usize = env.len();
            match init {
                None => {},
                Some(i) => {
                    match check_stmt(i, env, fns) {
                        Err(f) => {
                            return Err(f);
                        },
                        Ok(_) => {},
                    }
                    declare(i, env);
                },
            }
            assert(env@.take(depth as int) =~= old(env)@);
            let mut r: Result<(), CheckError> = check_optional(cond, env, fns);
            if r.is_ok() {
                r = check_optional(update, env, fns);
            }
            if r.is_ok() {
                r = check_stmt(body, env, fns);
            }
            env.truncate(depth);
            assert(env@ =~= old(env)@);
            r
        },
        Stmt::While { cond, body } => {
            match check_expr(cond, env, fns) {
                Err(f) => {
                    return Err(f);
                },
                Ok(_) => {},
            }
            check_stmt(body, env, fns)
        },
        Stmt::DoWhile { body, cond } => {
            match check_stmt(body, env, fns) {
                Err(f) => {
                    return Err(f);
                },
                Ok(_) => {},
            }
            match check_expr(cond, env, fns) {
                Err(f) => Err(f),
                Ok(_) => Ok(()),
            }
        },
        Stmt::Return(v) => check_optional(v, env, fns),
        _ => Ok(()),
    }
}

/// Checks the statements of a block. The scope is left as it was.
fn check_stmts(ss: &Vec<Stmt>, env: &mut Vec<Binding>, fns: &Vec<FnDecl>) -> (r: Result<
    (),
    CheckError,
>)
    ensures
        fault_outcome(
            r,
            stmts_fault(
                stmts_model(ss@, ss@.len()),
                stmts_model(ss@, ss@.len()).len(),
                env_view(old(env)@),
                fns_model(fns@),
            ),
        ),
        final(env)@ == old(env)@,
    decreases ss, 0nat,
{
    let ghost ms = stmts_model(ss@, ss@.len());
    let ghost ev = env_view(env@);
    let ghost fv = fns_model(fns@);
    proof {
        lemma_stmts_index(ss@, ss@.len());
    }
    let depth: usize = env.len();
    assert(env@.take(depth as int) =~= old(env)@);
    let mut i: usize = 0;
    let mut r: Result<(), CheckError> = Ok(());
    while i < ss.len() && r.is_ok()
        invariant
            i <= ss@.len(),
            depth == old(env)@.len() <= env@.len(),
            env@.take(depth as int) == old(env)@,
            ms == stmts_model(ss@, ss@.len()),
            ms.len() == ss@.len(),
            forall|j: int| 0 <= j < ss@.len() ==> #[trigger] ms[j] == stmt_model(ss@[j]),
            ev == env_view(old(env)@),
            fv == fns_model(fns@),
            r is Ok ==> env_view(env@) == env_after_all(ms, i as nat, ev),
            fault_outcome(r, stmts_fault(ms, i as nat, ev, fv)),
        decreases ss@.len() - i,
    {
        r = check_stmt(&ss[i], env, fns);
        if r.is_ok() {
            let ghost mid = env@;
            declare(&ss[i], env);
            assert(env@.take(depth as int) =~= mid.take(depth as int)) by {
                assert(env@.take(mid.len() as int) == mid);
                assert forall|j: int| 0 <= j < depth implies env@[j] == mid[j] by {
                    assert(env@.take(mid.len() as int)[j] == mid[j]);
                }
            }
        }
        i = i + 1;
    }
    proof {
        if r is Err {
            lemma_stmts_fault_keeps(ms, i as nat, ms.len(), ev, fv);
        }
    }
    env.truncate(depth);
    assert(env@ =~= old(env)@);
    r
}

/// Checks a program.
pub fn validate_program(p: &SkslProgram) -> (r: Result<(), CheckError>)
    ensures
        match r {
            Ok(_) => program_fault(p@, p@.functions.len()) is None,
            Err(e) => program_fault(p@, p@.functions.len()) == Some(e@),
        },
{
    let ghost pm = p@;
    let mut env: Vec<Binding> = Vec::new();
    let mut i: usize = 0;
    while i < p.uniforms.len()
        invariant
            pm == p@,
            i <= p.uniforms@.len(),
            env_view(env@) == globals(pm.uniforms).take(i as int),
        decreases p.uniforms@.len() - i,
    {
        let ghost mid = env@;
        let ghost all = globals(pm.uniforms);
        env.push(Binding { name: p.uniforms[i].name.clone(), ty: p.uniforms[i].ty });
        assert(env_view(env@) =~= env_view(mid).push(all[i as int]));
        assert(all.take(i + 1) =~= all.take(i as int).push(all[i as int]));
        i = i + 1;
    }
    assert(env_view(env@) =~= globals(pm.uniforms));
    let depth: usize = env.len();
    let ghost base = env@;
    let mut k: usize = 0;
    while k < p.functions.len()
        invariant
            pm == p@,
            k <= p.functions@.len(),
            env@ == base,
            depth == base.len(),
            env_view(base) == globals(pm.uniforms),
            program_fault(pm, k as nat) is None,
        decreases p.functions@.len() - k,
    {
        let f: &FnDecl = &p.functions[k];
        let ghost fm = fn_model(*f);
        assert(pm.functions[k as int] == fm);
        let mut j: usize = 0;
        assert(env_view(env@) =~= globals(pm.uniforms) + locals(fm.params).take(0));
        while j < f.params.len()
            invariant
                j <= f.params@.len(),
                fm == fn_model(*f),
                depth == base.len() <= env@.len(),
                env@.take(depth as int) == base,
                env_view(env@) == globals(pm.uniforms) + locals(fm.params).take(j as int),
            decreases f.params@.len() - j,
        {
            let ghost mid = env@;
            env.push(Binding { name: f.params[j].name.clone(), ty: f.params[j].ty });
            assert(env@.take(depth as int) =~= mid.take(depth as int));
            let ghost all = locals(fm.params);
            assert(env_view(env@) =~= env_view(mid).push(all[j as int]));
            assert(all.take(j + 1) =~= all.take(j as int).push(all[j as int]));
            assert(env_view(env@) =~= globals(pm.uniforms) + all.take(j + 1));
            j = j + 1;
        }
        assert(locals(fm.params).take(j as int) =~= locals(fm.params));
        match check_stmt(&f.body, &mut env, &p.functions) {
            Err(e) => {
                proof {
                    assert(program_fault(pm, (k + 1) as nat) == Some(e@));
                    lemma_program_fault_keeps(pm, (k + 1) as nat, pm.functions.len());
                }
                return Err(e);
            },
            Ok(_) => {},
        }
        env.truncate(depth);
        assert(env@ =~= base);
        k = k + 1;
    }
    Ok(())
}

} // verus!
