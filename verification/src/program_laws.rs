//! Which programs mean the same.

use vstd::prelude::*;

use crate::eval::{Flow, Frames, Globals, LOOP_LIMIT, eval, exec, exec_all, holds, rounds};
use crate::interp::{Value, element_of, swizzled, width_of};
use crate::sksl::ast::{BinaryOp, UnaryOp};
use crate::sksl::model::{ExprModel, StmtModel};

verus! {

/// The negation of a condition.
pub open spec fn not(c: ExprModel) -> ExprModel {
    ExprModel::Unary(UnaryOp::Not, Box::new(c))
}

/// `a && b`
pub open spec fn both(a: ExprModel, b: ExprModel) -> ExprModel {
    ExprModel::Binary(Box::new(a), BinaryOp::And, Box::new(b))
}

/// `a || b`
pub open spec fn either(a: ExprModel, b: ExprModel) -> ExprModel {
    ExprModel::Binary(Box::new(a), BinaryOp::Or, Box::new(b))
}

/// `t = v`
pub open spec fn assign(t: ExprModel, v: ExprModel) -> ExprModel {
    ExprModel::Assign(Box::new(t), Box::new(v))
}

/// `c ? a : b`
pub open spec fn choice(c: ExprModel, a: ExprModel, b: ExprModel) -> ExprModel {
    ExprModel::Ternary(Box::new(c), Box::new(a), Box::new(b))
}

/// `if (c) a else b`
pub open spec fn conditional(c: ExprModel, a: StmtModel, b: StmtModel) -> StmtModel {
    StmtModel::If(c, Box::new(a), Some(Box::new(b)))
}

/// A condition that holds leads to the first branch, and one that does not to the
/// second; a conditional without a second branch does nothing there. Nothing but
/// the condition and the branch is run.
pub proof fn conditionals_choose_a_branch(
    g: Globals,
    c: ExprModel,
    a: StmtModel,
    b: StmtModel,
    st: Frames,
    fuel: nat,
)
    requires
        eval(g, c, st, fuel) is Some,
    ensures
        ({
            let (v, s1) = eval(g, c, st, fuel)->0;
            let alone = StmtModel::If(c, Box::new(a), None);
            &&& v.truth() ==> exec(g, conditional(c, a, b), st, fuel) == exec(g, a, s1, fuel)
            &&& !v.truth() ==> exec(g, conditional(c, a, b), st, fuel) == exec(g, b, s1, fuel)
            &&& v.truth() ==> exec(g, alone, st, fuel) == exec(g, a, s1, fuel)
            &&& !v.truth() ==> exec(g, alone, st, fuel) == Some((Flow::Normal, s1))
        }),
{
}

/// The branches of a conditional change places if its condition is negated.
pub proof fn negated_conditions_swap_branches(
    g: Globals,
    c: ExprModel,
    a: StmtModel,
    b: StmtModel,
    x: ExprModel,
    y: ExprModel,
    st: Frames,
    fuel: nat,
)
    ensures
        exec(g, conditional(not(c), a, b), st, fuel) == exec(g, conditional(c, b, a), st, fuel),
        eval(g, choice(not(c), x, y), st, fuel) == eval(g, choice(c, y, x), st, fuel),
{
    let n = eval(g, not(c), st, fuel);
    let v = eval(g, c, st, fuel);
    assert(n is Some == v is Some);
}

/// To assign the result of a choice is to choose between two assignments.
pub proof fn choices_are_conditionals(
    g: Globals,
    t: ExprModel,
    c: ExprModel,
    a: ExprModel,
    b: ExprModel,
    st: Frames,
    fuel: nat,
)
    ensures
        exec(g, StmtModel::Expr(assign(t, choice(c, a, b))), st, fuel) == exec(
            g,
            conditional(c, StmtModel::Expr(assign(t, a)), StmtModel::Expr(assign(t, b))),
            st,
            fuel,
        ),
{
    let e = choice(c, a, b);
    let whole = eval(g, assign(t, e), st, fuel);
    let inner = eval(g, e, st, fuel);
    if let Some((v, s1)) = eval(g, c, st, fuel) {
        let x = if v.truth() {
            a
        } else {
            b
        };
        let part = eval(g, assign(t, x), s1, fuel);
        let read = eval(g, x, s1, fuel);
        assert(inner == read);
        assert(whole == part);
        let s = exec(g, StmtModel::Expr(assign(t, x)), s1, fuel);
    }
}

/// The negation of "both" is "one not", and that of "either" is "neither".
pub proof fn negations_of_conditions(
    g: Globals,
    a: ExprModel,
    b: ExprModel,
    st: Frames,
    fuel: nat,
)
    ensures
        eval(g, not(both(a, b)), st, fuel) == eval(g, either(not(a), not(b)), st, fuel),
        eval(g, not(either(a, b)), st, fuel) == eval(g, both(not(a), not(b)), st, fuel),
{
    let x = eval(g, both(a, b), st, fuel);
    let y = eval(g, either(a, b), st, fuel);
    let p = eval(g, not(a), st, fuel);
    if let Some((v, s1)) = eval(g, a, st, fuel) {
        let q = eval(g, not(b), s1, fuel);
        let r = eval(g, b, s1, fuel);
    }
}

/// The second operand of "both" counts only where the first holds, and that of
/// "either" only where it does not.
pub proof fn conditions_stop_early(g: Globals, a: ExprModel, b: ExprModel, st: Frames, fuel: nat)
    requires
        eval(g, a, st, fuel) is Some,
    ensures
        ({
            let (v, s1) = eval(g, a, st, fuel)->0;
            &&& !v.truth() ==> eval(g, both(a, b), st, fuel) == Some((Value::Bool(false), s1))
            &&& v.truth() ==> eval(g, either(a, b), st, fuel) == Some((Value::Bool(true), s1))
            &&& eval(g, b, s1, fuel) matches Some((w, s2)) ==> {
                &&& v.truth() ==> eval(g, both(a, b), st, fuel) == Some(
                    (Value::Bool(w.truth()), s2),
                )
                &&& !v.truth() ==> eval(g, either(a, b), st, fuel) == Some(
                    (Value::Bool(w.truth()), s2),
                )
            }
        }),
{
}

/// An assignment with an operation assigns the result of the operation.
pub proof fn compound_assignments_assign_results(
    g: Globals,
    t: ExprModel,
    op: BinaryOp,
    v: ExprModel,
    st: Frames,
    fuel: nat,
)
    requires
        !(op is And) && !(op is Or),
    ensures
        eval(g, ExprModel::CompoundAssign(Box::new(t), op, Box::new(v)), st, fuel) == eval(
            g,
            assign(t, ExprModel::Binary(Box::new(t), op, Box::new(v))),
            st,
            fuel,
        ),
{
    let b = eval(g, ExprModel::Binary(Box::new(t), op, Box::new(v)), st, fuel);
}

/// A step before an integer adds one to it or takes one away, and gives the new
/// value; a step behind it does the same and gives the old one.
pub proof fn steps_change_by_one(g: Globals, x: ExprModel, inc: bool, st: Frames, fuel: nat)
    requires
        eval(g, x, st, fuel) matches Some((Value::Int(_), _)),
    ensures
        eval(g, ExprModel::PreIncDec(Box::new(x), inc), st, fuel) == eval(
            g,
            ExprModel::CompoundAssign(
                Box::new(x),
                if inc {
                    BinaryOp::Add
                } else {
                    BinaryOp::Sub
                },
                Box::new(ExprModel::IntLit(1)),
            ),
            st,
            fuel,
        ),
        eval(g, ExprModel::PostIncDec(Box::new(x), inc), st, fuel) == match eval(
            g,
            ExprModel::PreIncDec(Box::new(x), inc),
            st,
            fuel,
        ) {
            None => None,
            Some((_, s1)) => Some(((eval(g, x, st, fuel)->0).0, s1)),
        },
{
    if let Some((v, s1)) = eval(g, x, st, fuel) {
        let l = eval(g, ExprModel::IntLit(1), s1, fuel);
        assert(l == Some((Value::Int(1), s1)));
    }
}

/// A `while` loop runs as a `for` loop with that condition and no update.
#[verifier::spinoff_prover]
#[verifier::rlimit(40)]
pub proof fn loops_run_alike(
    g: Globals,
    i: Option<Box<StmtModel>>,
    c: ExprModel,
    b: StmtModel,
    st: Frames,
    k: nat,
    fuel: nat,
)
    ensures
        rounds(g, StmtModel::While(c, Box::new(b)), st, k, fuel) == rounds(
            g,
            StmtModel::For(i, Some(c), None, Box::new(b)),
            st,
            k,
            fuel,
        ),
    decreases k,
{
    if k > 0 {
        let test = holds(g, Some(c), st, fuel);
        if let Some((v, s1)) = test {
            let body = exec(g, b, s1, fuel);
            if let Some((flow, s2)) = body {
                assert(holds(g, None, s2, fuel) == Some((true, s2)));
                loops_run_alike(g, i, c, b, s2, (k - 1) as nat, fuel);
            }
        }
    }
}

/// A loop whose condition does not hold runs its body never. A loop ends where its
/// body breaks or returns.
#[verifier::spinoff_prover]
#[verifier::rlimit(40)]
pub proof fn loops_end(g: Globals, c: ExprModel, b: StmtModel, st: Frames, fuel: nat)
    requires
        eval(g, c, st, fuel) is Some,
    ensures
        ({
            let (v, s1) = eval(g, c, st, fuel)->0;
            let turn = exec(g, b, s1, fuel);
            let all = exec(g, StmtModel::While(c, Box::new(b)), st, fuel);
            &&& !v.truth() ==> all == Some((Flow::Normal, s1))
            &&& v.truth() && turn is Some && (turn->0).0 is Break ==> all == Some(
                (Flow::Normal, (turn->0).1),
            )
            &&& v.truth() && turn is Some && (turn->0).0 is Return ==> all == turn
        }),
{
    let w = StmtModel::While(c, Box::new(b));
    let (v, s1) = eval(g, c, st, fuel)->0;
    let turn = exec(g, b, s1, fuel);
    let test = holds(g, Some(c), st, fuel);
    assert(test == Some((v.truth(), s1)));
    let all = rounds(g, w, st, LOOP_LIMIT as nat, fuel);
    assert(exec(g, w, st, fuel) == all);
}

/// A loop that tests behind its body runs it once before the first test.
#[verifier::spinoff_prover]
#[verifier::rlimit(40)]
pub proof fn loops_with_a_late_test_run_once(
    g: Globals,
    c: ExprModel,
    b: StmtModel,
    st: Frames,
    fuel: nat,
)
    requires
        exec(g, b, st, fuel) is Some,
    ensures
        ({
            let (flow, s1) = exec(g, b, st, fuel)->0;
            let test = eval(g, c, s1, fuel);
            let all = exec(g, StmtModel::DoWhile(Box::new(b), c), st, fuel);
            &&& flow is Normal && test is Some && !(test->0).0.truth() ==> all == Some(
                (Flow::Normal, (test->0).1),
            )
            &&& flow is Break ==> all == Some((Flow::Normal, s1))
            &&& flow is Return ==> all == Some((flow, s1))
        }),
{
    let w = StmtModel::DoWhile(Box::new(b), c);
    let (flow, s1) = exec(g, b, st, fuel)->0;
    let test = holds(g, Some(c), s1, fuel);
    let all = rounds(g, w, st, LOOP_LIMIT as nat, fuel);
    assert(exec(g, w, st, fuel) == all);
}

/// Statements run in order, and those behind one that leaves the block do
/// nothing.
pub proof fn statements_run_in_order(
    g: Globals,
    ss: Seq<StmtModel>,
    x: StmtModel,
    st: Frames,
    fuel: nat,
)
    requires
        exec_all(g, ss, ss.len(), st, fuel) is Some,
    ensures
        ({
            let (flow, s1) = exec_all(g, ss, ss.len(), st, fuel)->0;
            let more = ss.push(x);
            &&& flow is Normal ==> exec_all(g, more, more.len(), st, fuel) == exec(g, x, s1, fuel)
            &&& !(flow is Normal) ==> exec_all(g, more, more.len(), st, fuel) == exec_all(
                g,
                ss,
                ss.len(),
                st,
                fuel,
            )
        }),
{
    lemma_prefix(g, ss, x, ss.len(), st, fuel);
}

proof fn lemma_prefix(
    g: Globals,
    ss: Seq<StmtModel>,
    x: StmtModel,
    n: nat,
    st: Frames,
    fuel: nat,
)
    requires
        n <= ss.len(),
    ensures
        exec_all(g, ss.push(x), n, st, fuel) == exec_all(g, ss, n, st, fuel),
    decreases n,
{
    if n > 0 {
        lemma_prefix(g, ss, x, (n - 1) as nat, st, fuel);
        assert(ss.push(x)[n - 1] == ss[n - 1]);
    }
}

/// The element of a vector at a place is the component that the letter for that
/// place names.
pub proof fn elements_are_components(v: Value)
    requires
        width_of(v) > 0,
    ensures
        element_of(v, 0) == swizzled(v, "x"@),
        element_of(v, 1) == swizzled(v, "y"@),
        element_of(v, 0) == swizzled(v, "r"@),
        element_of(v, 1) == swizzled(v, "g"@),
        width_of(v) > 2 ==> element_of(v, 2) == swizzled(v, "z"@) && element_of(v, 2) == swizzled(
            v,
            "b"@,
        ),
        width_of(v) > 3 ==> element_of(v, 3) == swizzled(v, "w"@) && element_of(v, 3) == swizzled(
            v,
            "a"@,
        ),
        forall|i: int|
            0 <= i < width_of(v) ==> #[trigger] element_of(v, i) == Value::Float(v.comp(i)),
{
    reveal_strlit("x");
    reveal_strlit("y");
    reveal_strlit("z");
    reveal_strlit("w");
    reveal_strlit("r");
    reveal_strlit("g");
    reveal_strlit("b");
    reveal_strlit("a");
}

} // verus!
