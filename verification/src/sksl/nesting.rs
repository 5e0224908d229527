//! How deep programs nest, whether their names are plain words, and what
//! expressions a compiler could compute.

use vstd::prelude::*;

use crate::sksl::ast::{Expr, FnDecl, Param, SkslType, Stmt};
use crate::sksl::check::{is_matrix, is_scalar, type_is_matrix, type_is_scalar};
use crate::sksl::lex::{char_in_word, char_is_digit, is_digit, is_word_char};
use crate::sksl::model::{
    ExprModel, FnModel, StmtModel, expr_model, exprs_model, fn_model, fns_model,
    lemma_exprs_index, lemma_stmts_index, opt_expr_model, params_model, stmt_model, stmts_model,
};
use crate::text::chars_of;

verus! {

/// Whether a text holds only letters, digits and underscores.
pub open spec fn is_word(s: Seq<char>) -> bool {
    forall|i: int| 0 <= i < s.len() ==> is_word_char(#[trigger] s[i])
}

/// Whether a text holds only digits and points.
pub open spec fn is_decimal(s: Seq<char>) -> bool {
    forall|i: int| 0 <= i < s.len() ==> is_digit(#[trigger] s[i]) || s[i] == '.'
}

/// Whether a text holds only letters, digits and underscores.
pub fn check_word(s: &str) -> (r: bool)
    ensures
        r == is_word(s@),
{
    let v: Vec<char> = chars_of(s);
    let mut i: usize = 0;
    while i < v.len()
        invariant
            v@ == s@,
            i <= v@.len(),
            forall|j: int| 0 <= j < i ==> is_word_char(#[trigger] s@[j]),
        decreases v@.len() - i,
    {
        if !char_in_word(v[i]) {
            assert(!is_word_char(s@[i as int]));
            return false;
        }
        i = i + 1;
    }
    true
}

/// Whether a text holds only digits and points.
fn check_decimal(s: &str) -> (r: bool)
    ensures
        r == is_decimal(s@),
{
    let v: Vec<char> = chars_of(s);
    let mut i: usize = 0;
    while i < v.len()
        invariant
            v@ == s@,
            i <= v@.len(),
            forall|j: int| 0 <= j < i ==> is_digit(#[trigger] s@[j]) || s@[j] == '.',
        decreases v@.len() - i,
    {
        if !char_is_digit(v[i]) && v[i] != '.' {
            assert(!is_digit(s@[i as int]) && s@[i as int] != '.');
            return false;
        }
        i = i + 1;
    }
    true
}

/// What an expression is made of.
#[derive(Debug, Clone, Copy, PartialEq, Eq, Structural)]
pub struct Nature {
    /// Whether it reads no variable, so that a compiler could compute it.
    pub fixed: bool,
    /// Whether it builds a matrix.
    pub matrix: bool,
    /// Whether it builds anything but a single number or truth value.
    pub wide: bool,
    /// Whether it builds something of parts that are not single.
    pub nested: bool,
}

impl Nature {
    /// What two expressions are made of together.
    pub open spec fn with(self, other: Nature) -> Nature {
        Nature {
            fixed: self.fixed && other.fixed,
            matrix: self.matrix || other.matrix,
            wide: self.wide || other.wide,
            nested: self.nested || other.nested,
        }
    }

    /// What a constructor with arguments of this nature is made of.
    pub open spec fn built(self, ty: SkslType) -> Nature {
        Nature {
            fixed: self.fixed,
            matrix: self.matrix || is_matrix(ty),
            wide: self.wide || !is_scalar(ty),
            nested: self.nested || self.wide,
        }
    }

    /// Whether an operation of this nature can be left to a compiler: one that
    /// it could compute builds no matrix.
    pub open spec fn computable(self) -> bool {
        self.fixed ==> !self.matrix
    }

    /// Whether a choice of this nature can be left to a compiler: one that it
    /// could make builds no matrix, and vectors only of single numbers.
    pub open spec fn choosable(self) -> bool {
        self.fixed ==> !self.matrix && !self.nested
    }

    /// What two expressions are made of together.
    fn and(self, other: Nature) -> (r: Nature)
        ensures
            r == self.with(other),
    {
        Nature {
            fixed: self.fixed && other.fixed,
            matrix: self.matrix || other.matrix,
            wide: self.wide || other.wide,
            nested: self.nested || other.nested,
        }
    }
}

/// What an expression without parts is made of.
pub open spec fn leaf(fixed: bool) -> Nature {
    Nature { fixed, matrix: false, wide: false, nested: false }
}

/// What an expression is made of.
pub open spec fn nature(e: ExprModel) -> Nature
    decreases e, 0nat,
{
    match e {
        ExprModel::IntLit(_) => leaf(true),
        ExprModel::FloatLit(_) => leaf(true),
        ExprModel::BoolLit(_) => leaf(true),
        ExprModel::Var(_) => leaf(false),
        ExprModel::Binary(a, _, b) => nature(*a).with(nature(*b)),
        ExprModel::Unary(_, x) => nature(*x),
        ExprModel::Call(_, args) => natures(args, args.len()),
        ExprModel::MethodCall(x, _, args) => nature(*x).with(natures(args, args.len())),
        ExprModel::Constructor(ty, args) => natures(args, args.len()).built(ty),
        ExprModel::Field(x, _) => nature(*x),
        ExprModel::Index(x, index) => nature(*x).with(nature(*index)),
        ExprModel::Ternary(c, a, b) => nature(*c).with(nature(*a)).with(nature(*b)),
        ExprModel::Assign(t, v) => nature(*t).with(nature(*v)),
        ExprModel::CompoundAssign(t, _, v) => nature(*t).with(nature(*v)),
        ExprModel::PostIncDec(x, _) => nature(*x),
        ExprModel::PreIncDec(x, _) => nature(*x),
    }
}

/// What the first `n` expressions are made of together.
pub open spec fn natures(es: Seq<ExprModel>, n: nat) -> Nature
    decreases es, n,
{
    if n == 0 || n > es.len() {
        leaf(true)
    } else {
        natures(es, (n - 1) as nat).with(nature(es[n - 1]))
    }
}

/// What an expression is made of.
fn find_nature(e: &Expr) -> (r: Nature)
    ensures
        r == nature(expr_model(*e)),
    decreases e, 0nat,
{
    match e {
        Expr::IntLit(_) => Nature { fixed: true, matrix: false, wide: false, nested: false },
        Expr::FloatLit(_) => Nature { fixed: true, matrix: false, wide: false, nested: false },
        Expr::BoolLit(_) => Nature { fixed: true, matrix: false, wide: false, nested: false },
        Expr::Var(_) => Nature { fixed: false, matrix: false, wide: false, nested: false },
        Expr::Binary { left, op: _, right } => find_nature(left).and(find_nature(right)),
        Expr::Unary { op: _, expr } => find_nature(expr),
        Expr::Call { name: _, args } => find_natures(args),
        Expr::MethodCall { receiver, method: _, args } => find_nature(receiver).and(
            find_natures(args),
        ),
        Expr::Constructor { ty, args } => {
            let n = find_natures(args);
            Nature {
                fixed: n.fixed,
                matrix: n.matrix || type_is_matrix(*ty),
                wide: n.wide || !type_is_scalar(*ty),
                nested: n.nested || n.wide,
            }
        },
        Expr::Field { expr, field: _ } => find_nature(expr),
        Expr::Index { expr, index } => find_nature(expr).and(find_nature(index)),
        Expr::Ternary { cond, then_expr, else_expr } => find_nature(cond).and(
            find_nature(then_expr),
        ).and(find_nature(else_expr)),
        Expr::Assign { target, value } => find_nature(target).and(find_nature(value)),
        Expr::CompoundAssign { target, op: _, value } => find_nature(target).and(
            find_nature(value),
        ),
        Expr::PostIncDec { expr, inc: _ } => find_nature(expr),
        Expr::PreIncDec { expr, inc: _ } => find_nature(expr),
    }
}

/// What expressions are made of together.
fn find_natures(es: &Vec<Expr>) -> (r: Nature)
    ensures
        r == natures(exprs_model(es@, es@.len()), exprs_model(es@, es@.len()).len()),
    decreases es, 0nat,
{
    let ghost ms = exprs_model(es@, es@.len());
    proof {
        lemma_exprs_index(es@, es@.len());
    }
    let mut r = Nature { fixed: true, matrix: false, wide: false, nested: false };
    let mut i: usize = 0;
    while i < es.len()
        invariant
            i <= es@.len() == ms.len(),
            forall|j: int| 0 <= j < es@.len() ==> #[trigger] ms[j] == expr_model(es@[j]),
            r == natures(ms, i as nat),
        decreases es@.len() - i,
    {
        r = r.and(find_nature(&es[i]));
        i = i + 1;
    }
    r
}

/// The functions whose values are rounded differently on different machines.
pub open spec fn is_rough(n: Seq<char>) -> bool {
    ||| n == "sin"@
    ||| n == "cos"@
    ||| n == "tan"@
    ||| n == "asin"@
    ||| n == "acos"@
    ||| n == "atan"@
    ||| n == "atan2"@
    ||| n == "exp"@
    ||| n == "exp2"@
    ||| n == "log"@
    ||| n == "log2"@
    ||| n == "pow"@
    ||| n == "radians"@
    ||| n == "degrees"@
}

/// Whether a call can be left to a compiler: one that it could compute builds
/// no matrix and, if that matters, does not depend on the machine.
pub open spec fn call_fits(name: Seq<char>, n: Nature, exact: bool) -> bool {
    n.computable() && !(exact && n.fixed && is_rough(name))
}

/// Whether an expression nests at most `room` deep, all its names are words, and
/// what a compiler could compute of it can be left to a compiler. If the program
/// has to be `exact`, that does not depend on the machine.
pub open spec fn expr_fits(e: ExprModel, room: nat, exact: bool) -> bool
    decreases room, 0nat,
{
    room > 0 && {
        let r = (room - 1) as nat;
        match e {
            ExprModel::IntLit(_) => true,
            ExprModel::FloatLit(t) => is_decimal(t),
            ExprModel::BoolLit(_) => true,
            ExprModel::Var(name) => is_word(name),
            ExprModel::Binary(a, _, b) => nature(e).computable() && expr_fits(*a, r, exact)
                && expr_fits(*b, r, exact),
            ExprModel::Unary(_, x) => nature(e).computable() && expr_fits(*x, r, exact),
            ExprModel::Call(name, args) => call_fits(name, nature(e), exact) && is_word(name)
                && exprs_fit(args, r, exact),
            ExprModel::MethodCall(x, method, args) => expr_fits(*x, r, exact) && is_word(method)
                && exprs_fit(args, r, exact),
            ExprModel::Constructor(_, args) => exprs_fit(args, r, exact),
            ExprModel::Field(x, field) => nature(e).computable() && expr_fits(*x, r, exact)
                && is_word(field),
            ExprModel::Index(x, index) => nature(e).computable() && expr_fits(*x, r, exact)
                && expr_fits(*index, r, exact),
            ExprModel::Ternary(c, a, b) => nature(e).choosable() && expr_fits(*c, r, exact)
                && expr_fits(*a, r, exact) && expr_fits(
                *b, r, exact),
            ExprModel::Assign(t, v) => expr_fits(*t, r, exact) && expr_fits(*v, r, exact),
            ExprModel::CompoundAssign(t, _, v) => expr_fits(*t, r, exact) && expr_fits(*v, r, exact),
            ExprModel::PostIncDec(x, _) => expr_fits(*x, r, exact),
            ExprModel::PreIncDec(x, _) => expr_fits(*x, r, exact),
        }
    }
}

/// Whether all expressions nest at most `room` deep and all names are words.
pub open spec fn exprs_fit(es: Seq<ExprModel>, room: nat, exact: bool) -> bool
    decreases room, 1nat,
{
    forall|i: int| 0 <= i < es.len() ==> expr_fits(#[trigger] es[i], room, exact)
}

/// Whether an expression, if there is one, nests at most `room` deep and all
/// its names are words.
pub open spec fn opt_expr_fits(e: Option<ExprModel>, room: nat, exact: bool) -> bool {
    match e {
        None => true,
        Some(x) => expr_fits(x, room, exact),
    }
}

/// Whether a statement, with the expressions in it, nests at most `room` deep
/// and all its names are words.
pub open spec fn stmt_fits(s: StmtModel, room: nat, exact: bool) -> bool
    decreases room, 0nat,
{
    room > 0 && {
        let r = (room - 1) as nat;
        match s {
            StmtModel::Expr(e) => expr_fits(e, r, exact),
            StmtModel::VarDecl(_, name, init) => is_word(name) && opt_expr_fits(init, r, exact),
            StmtModel::Block(ss) => stmts_fit(ss, r, exact),
            StmtModel::If(c, a, b) => expr_fits(c, r, exact) && stmt_fits(*a, r, exact) && match b {
                None => true,
                Some(x) => stmt_fits(*x, r, exact),
            },
            StmtModel::For(init, c, u, body) => (match init {
                None => true,
                Some(x) => stmt_fits(*x, r, exact),
            }) && opt_expr_fits(c, r, exact) && opt_expr_fits(u, r, exact) && stmt_fits(*body, r, exact),
            StmtModel::While(c, body) => expr_fits(c, r, exact) && stmt_fits(*body, r, exact),
            StmtModel::DoWhile(body, c) => stmt_fits(*body, r, exact) && expr_fits(c, r, exact),
            StmtModel::Return(v) => opt_expr_fits(v, r, exact),
            StmtModel::Break => true,
            StmtModel::Continue => true,
            StmtModel::Discard => true,
        }
    }
}

/// Whether all statements nest at most `room` deep and all names are words.
pub open spec fn stmts_fit(ss: Seq<StmtModel>, room: nat, exact: bool) -> bool
    decreases room, 1nat,
{
    forall|i: int| 0 <= i < ss.len() ==> stmt_fits(#[trigger] ss[i], room, exact)
}

/// Whether the names of all parameters are words.
pub open spec fn params_fit(ps: Seq<(SkslType, Seq<char>)>) -> bool {
    forall|i: int| 0 <= i < ps.len() ==> is_word((#[trigger] ps[i]).1)
}

/// Whether a function nests at most `room` deep and all its names are words.
pub open spec fn fn_fits(f: FnModel, room: nat, exact: bool) -> bool {
    &&& is_word(f.name)
    &&& params_fit(f.params)
    &&& stmt_fits(f.body, room, exact)
}

/// Whether all functions nest at most `room` deep and all names are words.
pub open spec fn fns_fit(fs: Seq<FnModel>, room: nat, exact: bool) -> bool {
    forall|i: int| 0 <= i < fs.len() ==> fn_fits(#[trigger] fs[i], room, exact)
}

/// Whether an expression nests at most `room` deep and all its names are words.
fn check_expr(e: &Expr, room: u32) -> (r: bool)
    ensures
        r == expr_fits(expr_model(*e), room as nat, false),
    decreases room, 0nat,
{
    if room == 0 {
        return false;
    }
    let r: u32 = room - 1;
    let n = find_nature(e);
    let computable = !n.fixed || !n.matrix;
    match e {
        Expr::IntLit(_) => true,
        Expr::FloatLit(t) => check_decimal(t.as_str()),
        Expr::BoolLit(_) => true,
        Expr::Var(name) => check_word(name.as_str()),
        Expr::Binary { left, op: _, right } => computable && check_expr(left, r) && check_expr(right, r),
        Expr::Unary { op: _, expr } => computable && check_expr(expr, r),
        Expr::Call { name, args } => computable && check_word(name.as_str()) && check_exprs(args, r),
        Expr::MethodCall { receiver, method, args } => check_expr(receiver, r) && check_word(
            method.as_str(),
        ) && check_exprs(args, r),
        Expr::Constructor { ty: _, args } => check_exprs(args, r),
        Expr::Field { expr, field } => computable && check_expr(expr, r) && check_word(field.as_str()),
        Expr::Index { expr, index } => computable && check_expr(expr, r) && check_expr(index, r),
        Expr::Ternary { cond, then_expr, else_expr } => computable && !(n.fixed && n.nested)
            && check_expr(cond, r) && check_expr(
            then_expr, r) && check_expr(else_expr, r),
        Expr::Assign { target, value } => check_expr(target, r) && check_expr(value, r),
        Expr::CompoundAssign { target, op: _, value } => check_expr(target, r) && check_expr(
            value, r),
        Expr::PostIncDec { expr, inc: _ } => check_expr(expr, r),
        Expr::PreIncDec { expr, inc: _ } => check_expr(expr, r),
    }
}

/// Whether all expressions nest at most `room` deep and all names are words.
fn check_exprs(es: &Vec<Expr>, room: u32) -> (r: bool)
    ensures
        r == exprs_fit(exprs_model(es@, es@.len()), room as nat, false),
    decreases room, 1nat,
{
    let ghost ms = exprs_model(es@, es@.len());
    proof {
        lemma_exprs_index(es@, es@.len());
    }
    let mut i: usize = 0;
    while i < es.len()
        invariant
            ms == exprs_model(es@, es@.len()),
            ms.len() == es@.len(),
            forall|j: int| 0 <= j < es@.len() ==> #[trigger] ms[j] == expr_model(es@[j]),
            i <= es@.len(),
            forall|j: int| 0 <= j < i ==> expr_fits(#[trigger] ms[j], room as nat, false),
        decreases es@.len() - i,
    {
        if !check_expr(&es[i], room) {
            assert(!expr_fits(ms[i as int], room as nat, false));
            return false;
        }
        assert(expr_fits(ms[i as int], room as nat, false));
        i = i + 1;
    }
    true
}

/// Whether an expression, if there is one, nests at most `room` deep and all
/// its names are words.
fn check_opt_expr(e: &Option<Expr>, room: u32) -> (r: bool)
    ensures
        r == opt_expr_fits(opt_expr_model(*e), room as nat, false),
{
    match e {
        None => true,
        Some(x) => check_expr(x, room),
    }
}

/// Whether a statement nests at most `room` deep and all its names are words.
fn check_stmt(s: &Stmt, room: u32) -> (r: bool)
    ensures
        r == stmt_fits(stmt_model(*s), room as nat, false),
    decreases room, 0nat,
{
    if room == 0 {
        return false;
    }
    let r: u32 = room - 1;
    match s {
        Stmt::Expr(e) => check_expr(e, r),
        Stmt::VarDecl { ty: _, name, init } => check_word(name.as_str()) && check_opt_expr(init, r),
        Stmt::Block(ss) => check_stmts(ss, r),
        Stmt::If { cond, then_branch, else_branch } => {
            let other = match else_branch {
                None => true,
                Some(x) => check_stmt(x, r),
            };
            check_expr(cond, r) && check_stmt(then_branch, r) && other
        },
        Stmt::For { init, cond, update, body } => {
            let start = match init {
                None => true,
                Some(x) => check_stmt(x, r),
            };
            start && check_opt_expr(cond, r) && check_opt_expr(update, r) && check_stmt(body, r)
        },
        Stmt::While { cond, body } => check_expr(cond, r) && check_stmt(body, r),
        Stmt::DoWhile { body, cond } => check_stmt(body, r) && check_expr(cond, r),
        Stmt::Return(v) => check_opt_expr(v, r),
        Stmt::Break => true,
        Stmt::Continue => true,
        Stmt::Discard => true,
    }
}

/// Whether all statements nest at most `room` deep and all names are words.
fn check_stmts(ss: &Vec<Stmt>, room: u32) -> (r: bool)
    ensures
        r == stmts_fit(stmts_model(ss@, ss@.len()), room as nat, false),
    decreases room, 1nat,
{
    let ghost ms = stmts_model(ss@, ss@.len());
    proof {
        lemma_stmts_index(ss@, ss@.len());
    }
    let mut i: usize = 0;
    while i < ss.len()
        invariant
            ms == stmts_model(ss@, ss@.len()),
            ms.len() == ss@.len(),
            forall|j: int| 0 <= j < ss@.len() ==> #[trigger] ms[j] == stmt_model(ss@[j]),
            i <= ss@.len(),
            forall|j: int| 0 <= j < i ==> stmt_fits(#[trigger] ms[j], room as nat, false),
        decreases ss@.len() - i,
    {
        if !check_stmt(&ss[i], room) {
            assert(!stmt_fits(ms[i as int], room as nat, false));
            return false;
        }
        assert(stmt_fits(ms[i as int], room as nat, false));
        i = i + 1;
    }
    true
}

/// Whether the names of all parameters are words.
fn check_params(ps: &Vec<Param>) -> (r: bool)
    ensures
        r == params_fit(params_model(ps@)),
{
    let ghost ms = params_model(ps@);
    let mut i: usize = 0;
    while i < ps.len()
        invariant
            ms == params_model(ps@),
            i <= ps@.len(),
            forall|j: int| 0 <= j < i ==> is_word((#[trigger] ms[j]).1),
        decreases ps@.len() - i,
    {
        assert(ms[i as int].1 == ps@[i as int].name@);
        if !check_word(ps[i].name.as_str()) {
            return false;
        }
        i = i + 1;
    }
    true
}

/// Whether all functions nest at most `room` deep and all names are words.
pub fn check_functions(fs: &Vec<FnDecl>, room: u32) -> (r: bool)
    ensures
        r == fns_fit(fns_model(fs@), room as nat, false),
{
    let ghost ms = fns_model(fs@);
    let mut i: usize = 0;
    while i < fs.len()
        invariant
            ms == fns_model(fs@),
            i <= fs@.len(),
            forall|j: int| 0 <= j < i ==> fn_fits(#[trigger] ms[j], room as nat, false),
        decreases fs@.len() - i,
    {
        let f = &fs[i];
        assert(ms[i as int] == fn_model(*f));
        if !check_word(f.name.as_str()) || !check_params(&f.params) || !check_stmt(&f.body, room) {
            assert(!fn_fits(ms[i as int], room as nat, false));
            return false;
        }
        i = i + 1;
    }
    true
}

} // verus!
