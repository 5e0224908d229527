//! Evaluation of SkSL programs.
//!
//! A program is walked as a tree. What it means is written down as functions
//! from a piece of program and the variables before it to its outcome and the
//! variables after it. An outcome is missing where an integer operation
//! overflows, or where calls nest deeper than the given limit.

use vstd::prelude::*;

use crate::arith::{FloatOp, Machine, Unit, binary_value};
use crate::builtins::called_builtin;
use crate::float_bits::ONE;
use crate::interp::{
    Scopes, Value, apply_unary, assigned, construct, constructed, declared, element_of, found,
    index_value, index_written, make_vector, swizzle, swizzle_written, swizzled, unary_value, vector,
    write_index, write_swizzle,
};
use crate::sksl::ast::{BinaryOp, Expr, FnDecl, Stmt, UnaryOp};
use crate::sksl::model::{
    ExprModel, FnModel, StmtModel, expr_model, exprs_model, fn_model, fns_model,
    lemma_exprs_index, lemma_stmts_index, opt_expr_model, stmt_model, stmts_model,
};
use crate::text::same_text;

verus! {

/// The largest number of rounds of a loop.
pub const LOOP_LIMIT: usize = 10_000;

/// The variables of nested scopes, the innermost last.
pub type Frames = Seq<Map<Seq<char>, Value>>;

/// How a statement ends.
#[derive(Debug, Clone, Copy)]
pub enum Flow {
    /// The next statement follows.
    Normal,
    /// The function returns a value.
    Return(Value),
    /// The innermost loop ends.
    Break,
    /// The next round of the innermost loop follows.
    Continue,
    /// The pixel is dropped.
    Discard,
}

/// What surrounds a running program.
pub struct Globals {
    /// The float unit and the children.
    pub unit: Unit,
    /// The uniforms.
    pub uniforms: Frames,
    /// The functions; of two with one name the later counts.
    pub functions: Seq<FnModel>,
    /// The names of children and their numbers; of two with one name the later
    /// counts.
    pub children: Seq<(Seq<char>, usize)>,
    /// The number of children that are there.
    pub bound: int,
}

/// The last of the first `n` functions with a name.
pub open spec fn fn_index(fs: Seq<FnModel>, n: nat, name: Seq<char>) -> Option<int>
    decreases n,
{
    if n == 0 || n > fs.len() {
        None
    } else if fs[n - 1].name == name {
        Some(n - 1)
    } else {
        fn_index(fs, (n - 1) as nat, name)
    }
}

/// The number of the last of the first `n` children with a name.
pub open spec fn child_index(cs: Seq<(Seq<char>, usize)>, n: nat, name: Seq<char>) -> Option<usize>
    decreases n,
{
    if n == 0 || n > cs.len() {
        None
    } else if cs[n - 1].0 == name {
        Some(cs[n - 1].1)
    } else {
        child_index(cs, (n - 1) as nat, name)
    }
}

/// The value of a name: of a variable, else of a uniform, else none.
pub open spec fn value_of(g: Globals, st: Frames, name: Seq<char>) -> Value {
    match found(st, st.len(), name) {
        Some(v) => v,
        None => match found(g.uniforms, g.uniforms.len(), name) {
            Some(v) => v,
            None => Value::Void,
        },
    }
}

/// The scopes without the innermost one.
pub open spec fn popped(st: Frames) -> Frames {
    if st.len() == 0 {
        st
    } else {
        st.drop_last()
    }
}

/// Transparent black.
pub open spec fn black() -> Value {
    vector(seq![0u32, 0u32, 0u32, 0u32])
}

/// The child that a method call samples: only `eval` of a named child does.
pub open spec fn sampled_child(g: Globals, receiver: ExprModel, method: Seq<char>) -> Option<
    usize,
> {
    match receiver {
        ExprModel::Var(name) => if method == "eval"@ {
            child_index(g.children, g.children.len(), name)
        } else {
            None
        },
        _ => None,
    }
}

/// The color of a child at the point that the first argument gives, or at the
/// origin; transparent black where the child is not there.
pub open spec fn sampled(g: Globals, i: usize, args: Seq<Value>) -> Value {
    let at = if args.len() == 0 {
        seq![0u32, 0u32]
    } else {
        args[0].as_vector(2)
    };
    if i < g.bound {
        Value::Vec4((g.unit.sample)(i, at[0], at[1]))
    } else {
        black()
    }
}

/// What a step adds to a value.
pub open spec fn step_of(v: Value) -> Value {
    if v is Int {
        Value::Int(1)
    } else {
        Value::Float(ONE)
    }
}

/// The operator of a step.
pub open spec fn step_op(inc: bool) -> BinaryOp {
    if inc {
        BinaryOp::Add
    } else {
        BinaryOp::Sub
    }
}

/// The value of an expression, and the variables after it.
pub open spec fn eval(g: Globals, e: ExprModel, st: Frames, fuel: nat) -> Option<(Value, Frames)>
    decreases fuel, 0nat, e, 1nat,
{
    match e {
        ExprModel::IntLit(n) => Some((Value::Int(n as i32), st)),
        ExprModel::FloatLit(t) => Some((Value::Float((g.unit.literal)(t)), st)),
        ExprModel::BoolLit(b) => Some((Value::Bool(b), st)),
        ExprModel::Var(name) => Some((value_of(g, st, name), st)),
        ExprModel::Binary(left, op, right) => match eval(g, *left, st, fuel) {
            None => None,
            Some((l, s1)) => if op is And && !l.truth() {
                Some((Value::Bool(false), s1))
            } else if op is Or && l.truth() {
                Some((Value::Bool(true), s1))
            } else {
                match eval(g, *right, s1, fuel) {
                    None => None,
                    Some((r, s2)) => if op is And || op is Or {
                        Some((Value::Bool(r.truth()), s2))
                    } else {
                        match binary_value(g.unit, op, l, r) {
                            None => None,
                            Some(v) => Some((v, s2)),
                        }
                    },
                }
            },
        },
        ExprModel::Unary(op, x) => match eval(g, *x, st, fuel) {
            None => None,
            Some((v, s1)) => if op is Neg && v == Value::Int(i32::MIN) {
                None
            } else {
                Some((unary_value(op, v), s1))
            },
        },
        ExprModel::Call(name, args) => match eval_args(g, args, args.len(), st, fuel) {
            None => None,
            Some((vals, s1)) => match called_builtin(g.unit, name, vals) {
                Some(v) => Some((v, s1)),
                None => match fn_index(g.functions, g.functions.len(), name) {
                    None => Some((Value::Void, s1)),
                    Some(i) => if fuel == 0 {
                        None
                    } else {
                        invoke(g, g.functions[i], vals, s1, (fuel - 1) as nat)
                    },
                },
            },
        },
        ExprModel::MethodCall(receiver, method, args) => match sampled_child(
            g,
            *receiver,
            method,
        ) {
            None => Some((Value::Void, st)),
            Some(i) => match eval_args(g, args, fewer(args.len(), 1), st, fuel) {
                None => None,
                Some((vals, s1)) => Some((sampled(g, i, vals), s1)),
            },
        },
        ExprModel::Constructor(ty, args) => match eval_args(g, args, args.len(), st, fuel) {
            None => None,
            Some((vals, s1)) => Some((constructed(ty, vals), s1)),
        },
        ExprModel::Field(x, field) => match eval(g, *x, st, fuel) {
            None => None,
            Some((v, s1)) => Some((swizzled(v, field), s1)),
        },
        ExprModel::Index(x, index) => match eval(g, *x, st, fuel) {
            None => None,
            Some((v, s1)) => match eval(g, *index, s1, fuel) {
                None => None,
                Some((i, s2)) => Some((element_of(v, i.whole()), s2)),
            },
        },
        ExprModel::Ternary(cond, yes, no) => match eval(g, *cond, st, fuel) {
            None => None,
            Some((c, s1)) => if c.truth() {
                eval(g, *yes, s1, fuel)
            } else {
                eval(g, *no, s1, fuel)
            },
        },
        ExprModel::Assign(target, value) => match eval(g, *value, st, fuel) {
            None => None,
            Some((v, s1)) => match store(g, *target, v, s1, fuel) {
                None => None,
                Some(s2) => Some((v, s2)),
            },
        },
        ExprModel::CompoundAssign(target, op, value) => match eval(g, *target, st, fuel) {
            None => None,
            Some((l, s1)) => match eval(g, *value, s1, fuel) {
                None => None,
                Some((r, s2)) => match binary_value(g.unit, op, l, r) {
                    None => None,
                    Some(v) => match store(g, *target, v, s2, fuel) {
                        None => None,
                        Some(s3) => Some((v, s3)),
                    },
                },
            },
        },
        ExprModel::PostIncDec(x, inc) => match eval(g, *x, st, fuel) {
            None => None,
            Some((v, s1)) => match binary_value(g.unit, step_op(inc), v, step_of(v)) {
                None => None,
                Some(w) => match store(g, *x, w, s1, fuel) {
                    None => None,
                    Some(s2) => Some((v, s2)),
                },
            },
        },
        ExprModel::PreIncDec(x, inc) => match eval(g, *x, st, fuel) {
            None => None,
            Some((v, s1)) => match binary_value(g.unit, step_op(inc), v, step_of(v)) {
                None => None,
                Some(w) => match store(g, *x, w, s1, fuel) {
                    None => None,
                    Some(s2) => Some((w, s2)),
                },
            },
        },
    }
}

/// The values of the first `n` expressions, evaluated in order.
pub open spec fn eval_args(
    g: Globals,
    es: Seq<ExprModel>,
    n: nat,
    st: Frames,
    fuel: nat,
) -> Option<(Seq<Value>, Frames)>
    decreases fuel, 0nat, es, n,
{
    if n == 0 || n > es.len() {
        Some((Seq::empty(), st))
    } else {
        match eval_args(g, es, (n - 1) as nat, st, fuel) {
            None => None,
            Some((vals, s1)) => match eval(g, es[n - 1], s1, fuel) {
                None => None,
                Some((v, s2)) => Some((vals.push(v), s2)),
            },
        }
    }
}

/// The variables after a value has been written to a place: a variable, a
/// swizzle or an element. Nothing is written to anything else.
pub open spec fn store(
    g: Globals,
    target: ExprModel,
    value: Value,
    st: Frames,
    fuel: nat,
) -> Option<Frames>
    decreases fuel, 0nat, target, 2nat,
{
    match target {
        ExprModel::Var(name) => Some(assigned(st, name, value)),
        ExprModel::Field(x, field) => match eval(g, *x, st, fuel) {
            None => None,
            Some((base, s1)) => match swizzle_written(base, field, value) {
                None => Some(s1),
                Some(v) => store(g, *x, v, s1, fuel),
            },
        },
        ExprModel::Index(x, index) => match eval(g, *index, st, fuel) {
            None => None,
            Some((i, s1)) => match eval(g, *x, s1, fuel) {
                None => None,
                Some((base, s2)) => store(g, *x, index_written(base, i.whole(), value), s2, fuel),
            },
        },
        _ => Some(st),
    }
}

/// The variables after the first `n` parameters have been declared.
pub open spec fn with_params(f: FnModel, args: Seq<Value>, n: nat, st: Frames) -> Frames
    decreases n,
{
    if n == 0 || n > f.params.len() || n > args.len() {
        st
    } else {
        declared(with_params(f, args, (n - 1) as nat, st), f.params[n - 1].1, args[n - 1])
    }
}

/// The smaller of two numbers.
pub open spec fn fewer(a: nat, b: nat) -> nat {
    if a <= b {
        a
    } else {
        b
    }
}

/// What a function returns, by the way its body ends.
pub open spec fn returned(flow: Flow) -> Value {
    match flow {
        Flow::Return(v) => v,
        Flow::Discard => black(),
        _ => Value::Void,
    }
}

/// The result of a function, and the variables after the call.
pub open spec fn invoke(
    g: Globals,
    f: FnModel,
    args: Seq<Value>,
    st: Frames,
    fuel: nat,
) -> Option<(Value, Frames)>
    decreases fuel, 2nat, f, 0nat,
{
    let inner = with_params(
        f,
        args,
        fewer(f.params.len(), args.len()),
        st.push(Map::empty()),
    );
    match exec(g, f.body, inner, fuel) {
        None => None,
        Some((flow, s1)) => Some((returned(flow), popped(s1))),
    }
}

/// How a statement ends, and the variables after it.
pub open spec fn exec(g: Globals, s: StmtModel, st: Frames, fuel: nat) -> Option<(Flow, Frames)>
    decreases fuel, 1nat, s, 10_001nat,
{
    match s {
        StmtModel::Expr(e) => match eval(g, e, st, fuel) {
            None => None,
            Some((_, s1)) => Some((Flow::Normal, s1)),
        },
        StmtModel::VarDecl(_, name, init) => match init {
            None => Some((Flow::Normal, declared(st, name, Value::Void))),
            Some(e) => match eval(g, e, st, fuel) {
                None => None,
                Some((v, s1)) => Some((Flow::Normal, declared(s1, name, v))),
            },
        },
        StmtModel::Block(ss) => match exec_all(g, ss, ss.len(), st.push(Map::empty()), fuel) {
            None => None,
            Some((flow, s1)) => Some((flow, popped(s1))),
        },
        StmtModel::If(cond, yes, no) => match eval(g, cond, st, fuel) {
            None => None,
            Some((c, s1)) => if c.truth() {
                exec(g, *yes, s1, fuel)
            } else {
                match no {
                    None => Some((Flow::Normal, s1)),
                    Some(x) => exec(g, *x, s1, fuel),
                }
            },
        },
        StmtModel::For(init, _, _, _) => {
            let start = match init {
                None => Some((Flow::Normal, st.push(Map::empty()))),
                Some(i) => exec(g, *i, st.push(Map::empty()), fuel),
            };
            match start {
                None => None,
                Some((flow, s1)) => if flow is Return || flow is Discard {
                    Some((flow, popped(s1)))
                } else {
                    match rounds(g, s, s1, LOOP_LIMIT as nat, fuel) {
                        None => None,
                        Some((end, s2)) => Some((end, popped(s2))),
                    }
                },
            }
        },
        StmtModel::While(_, _) => rounds(g, s, st, LOOP_LIMIT as nat, fuel),
        StmtModel::DoWhile(_, _) => rounds(g, s, st, LOOP_LIMIT as nat, fuel),
        StmtModel::Return(value) => match value {
            None => Some((Flow::Return(Value::Void), st)),
            Some(e) => match eval(g, e, st, fuel) {
                None => None,
                Some((v, s1)) => Some((Flow::Return(v), s1)),
            },
        },
        StmtModel::Break => Some((Flow::Break, st)),
        StmtModel::Continue => Some((Flow::Continue, st)),
        StmtModel::Discard => Some((Flow::Discard, st)),
    }
}

/// How the first `n` statements of a block end: the first one that does not
/// end normally ends the block.
pub open spec fn exec_all(
    g: Globals,
    ss: Seq<StmtModel>,
    n: nat,
    st: Frames,
    fuel: nat,
) -> Option<(Flow, Frames)>
    decreases fuel, 1nat, ss, n,
{
    if n == 0 || n > ss.len() {
        Some((Flow::Normal, st))
    } else {
        match exec_all(g, ss, (n - 1) as nat, st, fuel) {
            None => None,
            Some((flow, s1)) => if flow is Normal {
                exec(g, ss[n - 1], s1, fuel)
            } else {
                Some((flow, s1))
            },
        }
    }
}

/// The truth of a loop condition; a missing one always holds.
pub open spec fn holds(g: Globals, cond: Option<ExprModel>, st: Frames, fuel: nat) -> Option<
    (bool, Frames),
>
    decreases fuel, 0nat, cond, 3nat,
{
    match cond {
        None => Some((true, st)),
        Some(e) => match eval(g, e, st, fuel) {
            None => None,
            Some((c, s1)) => Some((c.truth(), s1)),
        },
    }
}

/// How a loop ends that runs at most `k` more rounds.
pub open spec fn rounds(g: Globals, s: StmtModel, st: Frames, k: nat, fuel: nat) -> Option<
    (Flow, Frames),
>
    decreases fuel, 1nat, s, k,
{
    if k == 0 {
        Some((Flow::Normal, st))
    } else {
        match s {
            StmtModel::For(_, cond, update, body) => match holds(g, cond, st, fuel) {
                None => None,
                Some((c, s1)) => if !c {
                    Some((Flow::Normal, s1))
                } else {
                    match exec(g, *body, s1, fuel) {
                        None => None,
                        Some((flow, s2)) => match flow {
                            Flow::Break => Some((Flow::Normal, s2)),
                            Flow::Return(_) | Flow::Discard => Some((flow, s2)),
                            _ => match holds(g, update, s2, fuel) {
                                None => None,
                                Some((_, s3)) => rounds(g, s, s3, (k - 1) as nat, fuel),
                            },
                        },
                    }
                },
            },
            StmtModel::While(cond, body) => match holds(g, Some(cond), st, fuel) {
                None => None,
                Some((c, s1)) => if !c {
                    Some((Flow::Normal, s1))
                } else {
                    match exec(g, *body, s1, fuel) {
                        None => None,
                        Some((flow, s2)) => match flow {
                            Flow::Break => Some((Flow::Normal, s2)),
                            Flow::Return(_) | Flow::Discard => Some((flow, s2)),
                            _ => rounds(g, s, s2, (k - 1) as nat, fuel),
                        },
                    }
                },
            },
            StmtModel::DoWhile(body, cond) => match exec(g, *body, st, fuel) {
                None => None,
                Some((flow, s1)) => match flow {
                    Flow::Break => Some((Flow::Normal, s1)),
                    Flow::Return(_) | Flow::Discard => Some((flow, s1)),
                    _ => match holds(g, Some(cond), s1, fuel) {
                        None => None,
                        Some((c, s2)) => if !c {
                            Some((Flow::Normal, s2))
                        } else {
                            rounds(g, s, s2, (k - 1) as nat, fuel)
                        },
                    },
                },
            },
            _ => Some((Flow::Normal, st)),
        }
    }
}

/// A child of a program: its name and its number.
#[derive(Debug)]
pub struct ChildName {
    /// The name.
    pub name: String,
    /// The number.
    pub index: usize,
}

/// The names and numbers of children.
pub open spec fn children_model(v: Seq<ChildName>) -> Seq<(Seq<char>, usize)> {
    Seq::new(v.len(), |i: int| (v[i].name@, v[i].index))
}

/// What surrounds a running program.
pub struct World<'a, A, L, S> {
    /// The functions.
    pub functions: &'a Vec<FnDecl>,
    /// The uniforms.
    pub uniforms: Scopes,
    /// The names of children.
    pub children: Vec<ChildName>,
    /// The number of children that are there.
    pub bound: usize,
    /// The float unit and the children.
    pub machine: Machine<A, L, S>,
}

/// Whether a run had the outcome that it should have had.
pub open spec fn ran<T>(want: Option<(T, Frames)>, r: Option<T>, st: Frames) -> bool {
    match want {
        Some((v, s)) => r == Some(v) && st == s,
        None => r is None,
    }
}

/// Transparent black.
fn make_black() -> (v: Value)
    ensures
        v == black(),
{
    let mut c: Vec<u32> = Vec::new();
    c.push(0);
    c.push(0);
    c.push(0);
    c.push(0);
    assert(c@ =~= seq![0u32, 0u32, 0u32, 0u32]);
    make_vector(&c)
}

impl<
    'a,
    A: Fn(FloatOp, u32, u32, u32) -> u32,
    L: Fn(&str) -> u32,
    S: Fn(usize, u32, u32) -> [u32; 4],
> World<'a, A, L, S> {
    /// What surrounds the program, as a mathematical value.
    pub open spec fn globals(self) -> Globals {
        Globals {
            unit: self.machine.unit(),
            uniforms: self.uniforms@,
            functions: fns_model(self.functions@),
            children: children_model(self.children@),
            bound: self.bound as int,
        }
    }

    /// The value of a name.
    fn lookup(&self, st: &Scopes, name: &str) -> (v: Value)
        ensures
            v == value_of(self.globals(), st@, name@),
    {
        match st.lookup(name) {
            Some(v) => v,
            None => match self.uniforms.lookup(name) {
                Some(v) => v,
                None => Value::Void,
            },
        }
    }

    /// The function of a name.
    fn find_function(&self, name: &str) -> (r: Option<usize>)
        ensures
            match r {
                Some(i) => i < self.functions@.len() && fn_index(
                    self.globals().functions,
                    self.functions@.len(),
                    name@,
                ) == Some(i as int),
                None => fn_index(self.globals().functions, self.functions@.len(), name@) is None,
            },
    {
        let ghost fs = self.globals().functions;
        let mut n: usize = self.functions.len();
        while n > 0
            invariant
                fs == self.globals().functions,
                n <= self.functions@.len(),
                fn_index(fs, self.functions@.len(), name@) == fn_index(fs, n as nat, name@),
            decreases n,
        {
            assert(fs[n - 1] == fn_model(self.functions@[n - 1]));
            if same_text(self.functions[n - 1].name.as_str(), name) {
                return Some(n - 1);
            }
            n = n - 1;
        }
        None
    }

    /// The number of the child of a name.
    fn find_child(&self, name: &str) -> (r: Option<usize>)
        ensures
            r == child_index(self.globals().children, self.globals().children.len(), name@),
    {
        let ghost cs = self.globals().children;
        let mut n: usize = self.children.len();
        while n > 0
            invariant
                cs == self.globals().children,
                n <= self.children@.len() == cs.len(),
                child_index(cs, cs.len(), name@) == child_index(cs, n as nat, name@),
            decreases n,
        {
            if same_text(self.children[n - 1].name.as_str(), name) {
                return Some(self.children[n - 1].index);
            }
            n = n - 1;
        }
        None
    }

    /// The child that a method call samples.
    fn child_of(&self, receiver: &Expr, method: &str) -> (r: Option<usize>)
        ensures
            r == sampled_child(self.globals(), expr_model(*receiver), method@),
    {
        match receiver {
            Expr::Var(name) => if same_text(method, "eval") {
                self.find_child(name.as_str())
            } else {
                None
            },
            _ => None,
        }
    }

    /// The color of a child.
    fn sample(&self, i: usize, args: &Vec<Value>) -> (v: Value)
        requires
            self.machine.steady(),
        ensures
            v == sampled(self.globals(), i, args@),
    {
        let (x, y) = if args.len() == 0 {
            (0u32, 0u32)
        } else {
            let at: [u32; 2] = args[0].as_vec2();
            (at[0], at[1])
        };
        if i < self.bound {
            Value::Vec4(self.machine.color(i, x, y))
        } else {
            make_black()
        }
    }

    /// Evaluates an expression; calls nest at most `depth` deep.
    pub fn compute_expr(&self, e: &Expr, st: &mut Scopes, depth: usize) -> (r: Option<Value>)
        requires
            self.machine.steady(),
        ensures
            ran(
                eval(self.globals(), expr_model(*e), old(st)@, depth as nat),
                r,
                final(st)@,
            ),
        decreases depth, 0nat, e, 1nat,
    {
        match e {
            Expr::IntLit(n) => Some(Value::Int(*n)),
            Expr::FloatLit(t) => Some(Value::Float(self.machine.read(t.as_str()))),
            Expr::BoolLit(b) => Some(Value::Bool(*b)),
            Expr::Var(name) => Some(self.lookup(st, name.as_str())),
            Expr::Ternary { cond, then_expr, else_expr } => {
                match self.compute_expr(cond, st, depth) {
                    Some(c) => if c.as_bool() {
                        self.compute_expr(then_expr, st, depth)
                    } else {
                        self.compute_expr(else_expr, st, depth)
                    },
                    None => None,
                }
            },
            Expr::Binary { .. } => self.compute_binary(e, st, depth),
            Expr::Call { .. } => self.compute_call(e, st, depth),
            Expr::MethodCall { .. } => self.compute_method(e, st, depth),
            Expr::Unary { .. }
            | Expr::Constructor { .. }
            | Expr::Field { .. }
            | Expr::Index { .. } => self.compute_parts(e, st, depth),
            Expr::Assign { .. }
            | Expr::CompoundAssign { .. } => self.compute_assignment(e, st, depth),
            Expr::PostIncDec { .. }
            | Expr::PreIncDec { .. } => self.compute_step(e, st, depth),
        }
    }

    /// Evaluates a binary operation.
    fn compute_binary(&self, e: &Expr, st: &mut Scopes, depth: usize) -> (r: Option<Value>)
        requires
            self.machine.steady(),
            *e is Binary,
        ensures
            ran(
                eval(self.globals(), expr_model(*e), old(st)@, depth as nat),
                r,
                final(st)@,
            ),
        decreases depth, 0nat, e, 0nat,
    {
        match e {
            Expr::Binary { left, op, right } => {
                let l = match self.compute_expr(left, st, depth) {
                    Some(v) => v,
                    None => {
                        return None;
                    },
                };
                match op {
                    BinaryOp::And => {
                        if !l.as_bool() {
                            return Some(Value::Bool(false));
                        }
                    },
                    BinaryOp::Or => {
                        if l.as_bool() {
                            return Some(Value::Bool(true));
                        }
                    },
                    _ => {},
                }
                let r = match self.compute_expr(right, st, depth) {
                    Some(v) => v,
                    None => {
                        return None;
                    },
                };
                match op {
                    BinaryOp::And | BinaryOp::Or => Some(Value::Bool(r.as_bool())),
                    _ => self.machine.apply_binary(*op, &l, &r),
                }
            },
            _ => None,
        }
    }

    /// Evaluates a call of a function.
    fn compute_call(&self, e: &Expr, st: &mut Scopes, depth: usize) -> (r: Option<Value>)
        requires
            self.machine.steady(),
            *e is Call,
        ensures
            ran(
                eval(self.globals(), expr_model(*e), old(st)@, depth as nat),
                r,
                final(st)@,
            ),
        decreases depth, 0nat, e, 0nat,
    {
        match e {
            Expr::Call { name, args } => {
                proof {
                    lemma_exprs_index(args@, args@.len());
                }
                let vals = match self.compute_args(args, args.len(), st, depth) {
                    Some(v) => v,
                    None => {
                        return None;
                    },
                };
                match self.machine.call_builtin(name.as_str(), &vals) {
                    Some(v) => {
                        return Some(v);
                    },
                    None => {},
                }
                match self.find_function(name.as_str()) {
                    None => Some(Value::Void),
                    Some(i) => if depth == 0 {
                        None
                    } else {
                        assert(self.globals().functions[i as int] == fn_model(
                            self.functions@[i as int],
                        ));
                        self.invoke(i, &vals, st, depth - 1)
                    },
                }
            },
            _ => None,
        }
    }

    /// Evaluates a call of a method.
    fn compute_method(&self, e: &Expr, st: &mut Scopes, depth: usize) -> (r: Option<Value>)
        requires
            self.machine.steady(),
            *e is MethodCall,
        ensures
            ran(
                eval(self.globals(), expr_model(*e), old(st)@, depth as nat),
                r,
                final(st)@,
            ),
        decreases depth, 0nat, e, 0nat,
    {
        match e {
            Expr::MethodCall { receiver, method, args } => {
                let i = match self.child_of(receiver, method.as_str()) {
                    Some(i) => i,
                    None => {
                        return Some(Value::Void);
                    },
                };
                proof {
                    lemma_exprs_index(args@, args@.len());
                }
                let n: usize = if args.len() == 0 {
                    0
                } else {
                    1
                };
                match self.compute_args(args, n, st, depth) {
                    Some(vals) => Some(self.sample(i, &vals)),
                    None => None,
                }
            },
            _ => None,
        }
    }

    /// Evaluates a unary operation, a construction or an access.
    fn compute_parts(&self, e: &Expr, st: &mut Scopes, depth: usize) -> (r: Option<Value>)
        requires
            self.machine.steady(),
            *e is Unary || *e is Constructor || *e is Field || *e is Index,
        ensures
            ran(
                eval(self.globals(), expr_model(*e), old(st)@, depth as nat),
                r,
                final(st)@,
            ),
        decreases depth, 0nat, e, 0nat,
    {
        match e {
            Expr::Unary { op, expr } => {
                let v = match self.compute_expr(expr, st, depth) {
                    Some(v) => v,
                    None => {
                        return None;
                    },
                };
                match (op, v) {
                    (UnaryOp::Neg, Value::Int(i)) => if i == i32::MIN {
                        None
                    } else {
                        Some(apply_unary(*op, &v))
                    },
                    _ => Some(apply_unary(*op, &v)),
                }
            },
            Expr::Constructor { ty, args } => {
                proof {
                    lemma_exprs_index(args@, args@.len());
                }
                match self.compute_args(args, args.len(), st, depth) {
                    Some(vals) => Some(construct(ty, vals.as_slice())),
                    None => None,
                }
            },
            Expr::Field { expr, field } => match self.compute_expr(expr, st, depth) {
                Some(v) => Some(swizzle(&v, field.as_str())),
                None => None,
            },
            Expr::Index { expr, index } => {
                let v = match self.compute_expr(expr, st, depth) {
                    Some(v) => v,
                    None => {
                        return None;
                    },
                };
                match self.compute_expr(index, st, depth) {
                    Some(i) => Some(index_value(&v, i.as_i32())),
                    None => None,
                }
            },
            _ => None,
        }
    }

    /// Evaluates an assignment.
    fn compute_assignment(&self, e: &Expr, st: &mut Scopes, depth: usize) -> (r: Option<Value>)
        requires
            self.machine.steady(),
            *e is Assign || *e is CompoundAssign,
        ensures
            ran(
                eval(self.globals(), expr_model(*e), old(st)@, depth as nat),
                r,
                final(st)@,
            ),
        decreases depth, 0nat, e, 0nat,
    {
        match e {
            Expr::Assign { target, value } => {
                let v = match self.compute_expr(value, st, depth) {
                    Some(v) => v,
                    None => {
                        return None;
                    },
                };
                if self.assign_to(target, v, st, depth) {
                    Some(v)
                } else {
                    None
                }
            },
            Expr::CompoundAssign { target, op, value } => {
                let l = match self.compute_expr(target, st, depth) {
                    Some(v) => v,
                    None => {
                        return None;
                    },
                };
                let r = match self.compute_expr(value, st, depth) {
                    Some(v) => v,
                    None => {
                        return None;
                    },
                };
                match self.machine.apply_binary(*op, &l, &r) {
                    Some(v) => if self.assign_to(target, v, st, depth) {
                        Some(v)
                    } else {
                        None
                    },
                    None => None,
                }
            },
            _ => None,
        }
    }

    /// Evaluates an increment or a decrement.
    fn compute_step(&self, e: &Expr, st: &mut Scopes, depth: usize) -> (r: Option<Value>)
        requires
            self.machine.steady(),
            *e is PostIncDec || *e is PreIncDec,
        ensures
            ran(
                eval(self.globals(), expr_model(*e), old(st)@, depth as nat),
                r,
                final(st)@,
            ),
        decreases depth, 0nat, e, 0nat,
    {
        match e {
            Expr::PostIncDec { expr, inc } => {
                let v = match self.compute_expr(expr, st, depth) {
                    Some(v) => v,
                    None => {
                        return None;
                    },
                };
                match self.stepped(&v, *inc) {
                    Some(w) => if self.assign_to(expr, w, st, depth) {
                        Some(v)
                    } else {
                        None
                    },
                    None => None,
                }
            },
            Expr::PreIncDec { expr, inc } => {
                let v = match self.compute_expr(expr, st, depth) {
                    Some(v) => v,
                    None => {
                        return None;
                    },
                };
                match self.stepped(&v, *inc) {
                    Some(w) => if self.assign_to(expr, w, st, depth) {
                        Some(w)
                    } else {
                        None
                    },
                    None => None,
                }
            },
            _ => None,
        }
    }

    /// A value one step up or down.
    fn stepped(&self, v: &Value, inc: bool) -> (r: Option<Value>)
        requires
            self.machine.steady(),
        ensures
            r == binary_value(self.globals().unit, step_op(inc), *v, step_of(*v)),
    {
        let one = match v {
            Value::Int(_) => Value::Int(1),
            _ => Value::Float(ONE),
        };
        let op = if inc {
            BinaryOp::Add
        } else {
            BinaryOp::Sub
        };
        self.machine.apply_binary(op, v, &one)
    }

    /// Evaluates the first `n` arguments.
    fn compute_args(&self, args: &Vec<Expr>, n: usize, st: &mut Scopes, depth: usize) -> (r: Option<
        Vec<Value>,
    >)
        requires
            self.machine.steady(),
            n <= args@.len(),
        ensures
            match eval_args(
                self.globals(),
                exprs_model(args@, args@.len()),
                n as nat,
                old(st)@,
                depth as nat,
            ) {
                Some((vals, s)) => r is Some && r->0@ == vals && final(st)@ == s,
                None => r is None,
            },
        decreases depth, 0nat, args, 0nat,
    {
        let ghost g = self.globals();
        let ghost es = exprs_model(args@, args@.len());
        proof {
            lemma_exprs_index(args@, args@.len());
        }
        let mut vals: Vec<Value> = Vec::new();
        assert(vals@ =~= Seq::empty());
        let mut i: usize = 0;
        while i < n
            invariant
                self.machine.steady(),
                g == self.globals(),
                i <= n <= args@.len() == es.len(),
                es == exprs_model(args@, args@.len()),
                forall|j: int| 0 <= j < args@.len() ==> #[trigger] es[j] == expr_model(args@[j]),
                eval_args(g, es, i as nat, old(st)@, depth as nat) == Some((vals@, st@)),
            decreases n - i,
        {
            match self.compute_expr(&args[i], st, depth) {
                Some(v) => {
                    vals.push(v);
                },
                None => {
                    proof {
                        assert(eval_args(g, es, (i + 1) as nat, old(st)@, depth as nat) is None);
                        lemma_args_stuck(g, es, (i + 1) as nat, n as nat, old(st)@, depth as nat);
                    }
                    return None;
                },
            }
            i = i + 1;
        }
        Some(vals)
    }

    /// Writes a value to a place; whether that went well.
    fn assign_to(&self, target: &Expr, value: Value, st: &mut Scopes, depth: usize) -> (ok: bool)
        requires
            self.machine.steady(),
        ensures
            match store(self.globals(), expr_model(*target), value, old(st)@, depth as nat) {
                Some(s) => ok && final(st)@ == s,
                None => !ok,
            },
        decreases depth, 0nat, target, 2nat,
    {
        match target {
            Expr::Var(name) => {
                st.assign(name.as_str(), value);
                true
            },
            Expr::Field { expr, field } => {
                match self.compute_expr(expr, st, depth) {
                    None => false,
                    Some(base) => match write_swizzle(&base, field.as_str(), &value) {
                        None => true,
                        Some(v) => self.assign_to(expr, v, st, depth),
                    },
                }
            },
            Expr::Index { expr, index } => {
                let i = match self.compute_expr(index, st, depth) {
                    Some(i) => i,
                    None => {
                        return false;
                    },
                };
                match self.compute_expr(expr, st, depth) {
                    None => false,
                    Some(base) => {
                        let v = write_index(&base, i.as_i32(), &value);
                        self.assign_to(expr, v, st, depth)
                    },
                }
            },
            _ => true,
        }
    }

    /// Calls a function.
    fn invoke(&self, f: usize, args: &Vec<Value>, st: &mut Scopes, depth: usize) -> (r: Option<
        Value,
    >)
        requires
            self.machine.steady(),
            f < self.functions@.len(),
        ensures
            ran(
                invoke(
                    self.globals(),
                    fn_model(self.functions@[f as int]),
                    args@,
                    old(st)@,
                    depth as nat,
                ),
                r,
                final(st)@,
            ),
        decreases depth, 2nat, self.functions, 0nat,
    {
        let func: &FnDecl = &self.functions[f];
        let ghost m = fn_model(*func);
        let n: usize = if func.params.len() <= args.len() {
            func.params.len()
        } else {
            args.len()
        };
        st.push_scope();
        let ghost start = st@;
        let mut k: usize = 0;
        while k < n
            invariant
                m == fn_model(*func),
                n <= func.params@.len(),
                n <= args@.len(),
                k <= n,
                st@ == with_params(m, args@, k as nat, start),
            decreases n - k,
        {
            assert(m.params[k as int].1 == func.params@[k as int].name@);
            st.declare(func.params[k].name.as_str(), args[k]);
            k = k + 1;
        }
        let flow = match self.run_stmt(&func.body, st, depth) {
            Some(flow) => flow,
            None => {
                return None;
            },
        };
        st.pop_scope();
        Some(
            match flow {
                Flow::Return(v) => v,
                Flow::Discard => make_black(),
                _ => Value::Void,
            },
        )
    }

    /// The truth of an expression.
    fn test(&self, cond: &Expr, st: &mut Scopes, depth: usize) -> (r: Option<bool>)
        requires
            self.machine.steady(),
        ensures
            ran(
                holds(self.globals(), Some(expr_model(*cond)), old(st)@, depth as nat),
                r,
                final(st)@,
            ),
        decreases depth, 0nat, cond, 3nat,
    {
        match self.compute_expr(cond, st, depth) {
            Some(v) => Some(v.as_bool()),
            None => None,
        }
    }

    /// The truth of a loop condition.
    fn check(&self, cond: &Option<Expr>, st: &mut Scopes, depth: usize) -> (r: Option<bool>)
        requires
            self.machine.steady(),
        ensures
            ran(
                holds(self.globals(), opt_expr_model(*cond), old(st)@, depth as nat),
                r,
                final(st)@,
            ),
        decreases depth, 0nat, cond, 3nat,
    {
        match cond {
            None => Some(true),
            Some(e) => match self.compute_expr(e, st, depth) {
                Some(v) => Some(v.as_bool()),
                None => None,
            },
        }
    }

    /// Runs a statement; calls nest at most `depth` deep.
    #[verifier::rlimit(20)]
    #[verifier::spinoff_prover]
    pub fn run_stmt(&self, s: &Stmt, st: &mut Scopes, depth: usize) -> (r: Option<Flow>)
        requires
            self.machine.steady(),
        ensures
            ran(
                exec(self.globals(), stmt_model(*s), old(st)@, depth as nat),
                r,
                final(st)@,
            ),
        decreases depth, 1nat, s, 2nat,
    {
        match s {
            Stmt::Expr(e) => match self.compute_expr(e, st, depth) {
                Some(_) => Some(Flow::Normal),
                None => None,
            },
            Stmt::VarDecl { ty: _, name, init } => {
                let v = match init {
                    None => Value::Void,
                    Some(e) => match self.compute_expr(e, st, depth) {
                        Some(v) => v,
                        None => {
                            return None;
                        },
                    },
                };
                st.declare(name.as_str(), v);
                Some(Flow::Normal)
            },
            Stmt::Block(stmts) => {
                st.push_scope();
                match self.run_all(stmts, st, depth) {
                    Some(flow) => {
                        st.pop_scope();
                        proof {
                            lemma_stmts_index(stmts@, stmts@.len());
                        }
                        Some(flow)
                    },
                    None => {
                        proof {
                            lemma_stmts_index(stmts@, stmts@.len());
                        }
                        None
                    },
                }
            },
            Stmt::If { cond, then_branch, else_branch } => {
                match self.compute_expr(cond, st, depth) {
                    None => None,
                    Some(c) => if c.as_bool() {
                        self.run_stmt(then_branch, st, depth)
                    } else {
                        match else_branch {
                            None => Some(Flow::Normal),
                            Some(x) => self.run_stmt(x, st, depth),
                        }
                    },
                }
            },
            Stmt::For { init, cond: _, update: _, body: _ } => {
                st.push_scope();
                let start = match init {
                    None => Flow::Normal,
                    Some(i) => match self.run_stmt(i, st, depth) {
                        Some(flow) => flow,
                        None => {
                            return None;
                        },
                    },
                };
                match start {
                    Flow::Return(_) | Flow::Discard => {
                        st.pop_scope();
                        return Some(start);
                    },
                    _ => {},
                }
                match self.run_for(s, st, depth) {
                    Some(flow) => {
                        st.pop_scope();
                        Some(flow)
                    },
                    None => None,
                }
            },
            Stmt::While { cond: _, body: _ } => self.run_while(s, st, depth),
            Stmt::DoWhile { body: _, cond: _ } => self.run_do(s, st, depth),
            Stmt::Return(value) => match value {
                None => Some(Flow::Return(Value::Void)),
                Some(e) => match self.compute_expr(e, st, depth) {
                    Some(v) => Some(Flow::Return(v)),
                    None => None,
                },
            },
            Stmt::Break => Some(Flow::Break),
            Stmt::Continue => Some(Flow::Continue),
            Stmt::Discard => Some(Flow::Discard),
        }
    }

    /// Runs the statements of a block.
    fn run_all(&self, stmts: &Vec<Stmt>, st: &mut Scopes, depth: usize) -> (r: Option<Flow>)
        requires
            self.machine.steady(),
        ensures
            ran(
                exec_all(
                    self.globals(),
                    stmts_model(stmts@, stmts@.len()),
                    stmts@.len(),
                    old(st)@,
                    depth as nat,
                ),
                r,
                final(st)@,
            ),
        decreases depth, 1nat, stmts, 0nat,
    {
        let ghost g = self.globals();
        let ghost ss = stmts_model(stmts@, stmts@.len());
        proof {
            lemma_stmts_index(stmts@, stmts@.len());
        }
        let mut flow = Flow::Normal;
        let mut i: usize = 0;
        while i < stmts.len()
            invariant
                self.machine.steady(),
                g == self.globals(),
                i <= stmts@.len() == ss.len(),
                ss == stmts_model(stmts@, stmts@.len()),
                forall|j: int| 0 <= j < stmts@.len() ==> #[trigger] ss[j] == stmt_model(stmts@[j]),
                flow is Normal,
                exec_all(g, ss, i as nat, old(st)@, depth as nat) == Some((flow, st@)),
            decreases stmts@.len() - i,
        {
            match self.run_stmt(&stmts[i], st, depth) {
                Some(next) => {
                    let goes_on = match next {
                        Flow::Normal => true,
                        _ => false,
                    };
                    if !goes_on {
                        proof {
                            lemma_all_stuck(
                                g,
                                ss,
                                (i + 1) as nat,
                                ss.len(),
                                old(st)@,
                                depth as nat,
                            );
                        }
                        return Some(next);
                    }
                    flow = next;
                },
                None => {
                    proof {
                        lemma_all_stuck(g, ss, (i + 1) as nat, ss.len(), old(st)@, depth as nat);
                    }
                    return None;
                },
            }
            i = i + 1;
        }
        Some(flow)
    }

    /// Runs the rounds of a `for` loop.
    fn run_for(&self, s: &Stmt, st: &mut Scopes, depth: usize) -> (r: Option<Flow>)
        requires
            self.machine.steady(),
            *s is For,
        ensures
            ran(
                rounds(
                    self.globals(),
                    stmt_model(*s),
                    old(st)@,
                    LOOP_LIMIT as nat,
                    depth as nat,
                ),
                r,
                final(st)@,
            ),
        decreases depth, 1nat, s, 1nat,
    {
        let ghost g = self.globals();
        let ghost m = stmt_model(*s);
        let mut k: usize = LOOP_LIMIT;
        match s {
            Stmt::For { init, cond, update, body } => {
                while k > 0
                    invariant
                        self.machine.steady(),
                        g == self.globals(),
                        *s == (Stmt::For { init: *init, cond: *cond, update: *update, body: *body }),
                        m == stmt_model(*s),
                        k <= LOOP_LIMIT,
                        rounds(g, m, old(st)@, LOOP_LIMIT as nat, depth as nat) == rounds(
                            g,
                            m,
                            st@,
                            k as nat,
                            depth as nat,
                        ),
                    decreases k,
                {
                    match self.check(cond, st, depth) {
                        None => {
                            return None;
                        },
                        Some(c) => {
                            if !c {
                                return Some(Flow::Normal);
                            }
                        },
                    }
                    match self.run_stmt(body, st, depth) {
                        None => {
                            return None;
                        },
                        Some(flow) => match flow {
                            Flow::Break => {
                                return Some(Flow::Normal);
                            },
                            Flow::Return(_) | Flow::Discard => {
                                return Some(flow);
                            },
                            _ => {},
                        },
                    }
                    match self.check(update, st, depth) {
                        None => {
                            return None;
                        },
                        Some(_) => {},
                    }
                    k = k - 1;
                }
                Some(Flow::Normal)
            },
            _ => Some(Flow::Normal),
        }
    }

    /// Runs the rounds of a `while` loop.
    fn run_while(&self, s: &Stmt, st: &mut Scopes, depth: usize) -> (r: Option<Flow>)
        requires
            self.machine.steady(),
            *s is While,
        ensures
            ran(
                rounds(
                    self.globals(),
                    stmt_model(*s),
                    old(st)@,
                    LOOP_LIMIT as nat,
                    depth as nat,
                ),
                r,
                final(st)@,
            ),
        decreases depth, 1nat, s, 1nat,
    {
        let ghost g = self.globals();
        let ghost m = stmt_model(*s);
        let mut k: usize = LOOP_LIMIT;
        match s {
            Stmt::While { cond, body } => {
                while k > 0
                    invariant
                        self.machine.steady(),
                        g == self.globals(),
                        *s == (Stmt::While { cond: *cond, body: *body }),
                        m == stmt_model(*s),
                        k <= LOOP_LIMIT,
                        rounds(g, m, old(st)@, LOOP_LIMIT as nat, depth as nat) == rounds(
                            g,
                            m,
                            st@,
                            k as nat,
                            depth as nat,
                        ),
                    decreases k,
                {
                    match self.test(cond, st, depth) {
                        None => {
                            return None;
                        },
                        Some(c) => {
                            if !c {
                                return Some(Flow::Normal);
                            }
                        },
                    }
                    match self.run_stmt(body, st, depth) {
                        None => {
                            return None;
                        },
                        Some(flow) => match flow {
                            Flow::Break => {
                                return Some(Flow::Normal);
                            },
                            Flow::Return(_) | Flow::Discard => {
                                return Some(flow);
                            },
                            _ => {},
                        },
                    }
                    k = k - 1;
                }
                Some(Flow::Normal)
            },
            _ => Some(Flow::Normal),
        }
    }

    /// Runs the rounds of a `do` loop.
    fn run_do(&self, s: &Stmt, st: &mut Scopes, depth: usize) -> (r: Option<Flow>)
        requires
            self.machine.steady(),
            *s is DoWhile,
        ensures
            ran(
                rounds(
                    self.globals(),
                    stmt_model(*s),
                    old(st)@,
                    LOOP_LIMIT as nat,
                    depth as nat,
                ),
                r,
                final(st)@,
            ),
        decreases depth, 1nat, s, 1nat,
    {
        let ghost g = self.globals();
        let ghost m = stmt_model(*s);
        let mut k: usize = LOOP_LIMIT;
        match s {
            Stmt::DoWhile { body, cond } => {
                while k > 0
                    invariant
                        self.machine.steady(),
                        g == self.globals(),
                        *s == (Stmt::DoWhile { body: *body, cond: *cond }),
                        m == stmt_model(*s),
                        k <= LOOP_LIMIT,
                        rounds(g, m, old(st)@, LOOP_LIMIT as nat, depth as nat) == rounds(
                            g,
                            m,
                            st@,
                            k as nat,
                            depth as nat,
                        ),
                    decreases k,
                {
                    match self.run_stmt(body, st, depth) {
                        None => {
                            return None;
                        },
                        Some(flow) => match flow {
                            Flow::Break => {
                                return Some(Flow::Normal);
                            },
                            Flow::Return(_) | Flow::Discard => {
                                return Some(flow);
                            },
                            _ => {},
                        },
                    }
                    match self.test(cond, st, depth) {
                        None => {
                            return None;
                        },
                        Some(c) => {
                            if !c {
                                return Some(Flow::Normal);
                            }
                        },
                    }
                    k = k - 1;
                }
                Some(Flow::Normal)
            },
            _ => Some(Flow::Normal),
        }
    }
}

/// Once evaluation of arguments fails, it stays failed.
proof fn lemma_args_stuck(g: Globals, es: Seq<ExprModel>, i: nat, n: nat, st: Frames, fuel: nat)
    requires
        i <= n <= es.len(),
        eval_args(g, es, i, st, fuel) is None,
    ensures
        eval_args(g, es, n, st, fuel) is None,
    decreases n,
{
    if i < n {
        lemma_args_stuck(g, es, i, (n - 1) as nat, st, fuel);
    }
}

/// Once a block has ended, the statements behind do not matter.
proof fn lemma_all_stuck(g: Globals, ss: Seq<StmtModel>, i: nat, n: nat, st: Frames, fuel: nat)
    requires
        i <= n <= ss.len(),
        match exec_all(g, ss, i, st, fuel) {
            Some((flow, _)) => !(flow is Normal),
            None => true,
        },
    ensures
        exec_all(g, ss, n, st, fuel) == exec_all(g, ss, i, st, fuel),
    decreases n,
{
    if i < n {
        lemma_all_stuck(g, ss, i, (n - 1) as nat, st, fuel);
    }
}

/// A program ready to run, and its variables.
pub struct Interp<'a, A, L, S> {
    /// What surrounds the program.
    pub world: World<'a, A, L, S>,
    /// The variables.
    pub scopes: Scopes,
}

/// The outcome of a call of a function by name; a name without a function gives
/// no value.
pub open spec fn call_by_name(
    g: Globals,
    name: Seq<char>,
    args: Seq<Value>,
    st: Frames,
    fuel: nat,
) -> Option<(Value, Frames)> {
    match fn_index(g.functions, g.functions.len(), name) {
        None => Some((Value::Void, st)),
        Some(i) => invoke(g, g.functions[i], args, st, fuel),
    }
}

impl<
    'a,
    A: Fn(FloatOp, u32, u32, u32) -> u32,
    L: Fn(&str) -> u32,
    S: Fn(usize, u32, u32) -> [u32; 4],
> Interp<'a, A, L, S> {
    /// A program without uniforms and children, and without variables.
    pub fn new(functions: &'a Vec<FnDecl>, machine: Machine<A, L, S>) -> (i: Self)
        ensures
            i.world.globals() == (Globals {
                unit: machine.unit(),
                uniforms: seq![Map::empty()],
                functions: fns_model(functions@),
                children: Seq::empty(),
                bound: 0,
            }),
            i.world.machine == machine,
            i.scopes@ == seq![Map::<Seq<char>, Value>::empty()],
    {
        let children: Vec<ChildName> = Vec::new();
        assert(children_model(children@) =~= Seq::empty());
        Interp {
            world: World { functions, uniforms: Scopes::new(), children, bound: 0, machine },
            scopes: Scopes::new(),
        }
    }

    /// Sets a uniform.
    pub fn set_uniform(&mut self, name: &str, value: Value)
        ensures
            final(self).world.globals() == (Globals {
                uniforms: declared(old(self).world.globals().uniforms, name@, value),
                ..old(self).world.globals()
            }),
            final(self).world.machine == old(self).world.machine,
            final(self).scopes@ == old(self).scopes@,
    {
        self.world.uniforms.declare(name, value);
    }

    /// Gives a name to a child.
    pub fn name_child(&mut self, name: &str, index: usize)
        ensures
            final(self).world.globals() == (Globals {
                children: old(self).world.globals().children.push((name@, index)),
                ..old(self).world.globals()
            }),
            final(self).world.machine == old(self).world.machine,
            final(self).scopes@ == old(self).scopes@,
    {
        let ghost before = self.world.children@;
        self.world.children.push(ChildName { name: String::from_str(name), index });
        assert(children_model(self.world.children@) =~= children_model(before).push(
            (name@, index),
        ));
    }

    /// Says how many children are there.
    pub fn bind_children(&mut self, bound: usize)
        ensures
            final(self).world.globals() == (Globals {
                bound: bound as int,
                ..old(self).world.globals()
            }),
            final(self).world.machine == old(self).world.machine,
            final(self).scopes@ == old(self).scopes@,
    {
        self.world.bound = bound;
    }

    /// Calls a function by name. Calls from there nest at most `depth` deep;
    /// there is no result where they would nest deeper, or where an integer
    /// operation overflows.
    pub fn run_function(&mut self, name: &str, args: &Vec<Value>, depth: usize) -> (r: Option<
        Value,
    >)
        requires
            old(self).world.machine.steady(),
        ensures
            ran(
                call_by_name(
                    old(self).world.globals(),
                    name@,
                    args@,
                    old(self).scopes@,
                    depth as nat,
                ),
                r,
                final(self).scopes@,
            ),
            final(self).world == old(self).world,
    {
        match self.world.find_function(name) {
            None => Some(Value::Void),
            Some(i) => {
                assert(self.world.globals().functions[i as int] == fn_model(
                    self.world.functions@[i as int],
                ));
                self.world.invoke(i, args, &mut self.scopes, depth)
            },
        }
    }
}

} // verus!
