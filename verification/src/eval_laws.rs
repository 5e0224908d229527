//! Laws of evaluation.

use vstd::prelude::*;

use crate::arith::binary_value;
use crate::eval::{
    Frames, Globals, LOOP_LIMIT, call_by_name, eval, eval_args, exec, exec_all, fewer, fn_index,
    holds, invoke, rounds, step_of, step_op, store, with_params,
};
use crate::interp::{Value, index_written, lemma_assigned_len, swizzle_written};
use crate::sksl::model::{ExprModel, FnModel, StmtModel};

verus! {

/// Whether an outcome leaves as many scopes as there were.
pub open spec fn keeps<T>(r: Option<(T, Frames)>, n: nat) -> bool {
    match r {
        Some((_, s)) => s.len() == n,
        None => true,
    }
}

/// A call leaves the nesting of scopes as it was.
pub proof fn calls_keep_scopes(
    g: Globals,
    name: Seq<char>,
    args: Seq<Value>,
    st: Frames,
    fuel: nat,
)
    ensures
        keeps(call_by_name(g, name, args, st, fuel), st.len()),
{
    match fn_index(g.functions, g.functions.len(), name) {
        None => {},
        Some(i) => {
            invoke_keeps(g, g.functions[i], args, st, fuel);
        },
    }
}

proof fn eval_keeps(g: Globals, e: ExprModel, st: Frames, fuel: nat)
    ensures
        keeps(eval(g, e, st, fuel), st.len()),
    decreases fuel, 0nat, e, 1nat,
{
    match e {
        ExprModel::Binary(left, op, right) => {
            eval_keeps(g, *left, st, fuel);
            match eval(g, *left, st, fuel) {
                None => {},
                Some((l, s1)) => {
                    eval_keeps(g, *right, s1, fuel);
                },
            }
        },
        ExprModel::Unary(op, x) => {
            eval_keeps(g, *x, st, fuel);
        },
        ExprModel::Call(name, args) => {
            args_keep(g, args, args.len(), st, fuel);
            match eval_args(g, args, args.len(), st, fuel) {
                None => {},
                Some((vals, s1)) => match fn_index(g.functions, g.functions.len(), name) {
                    None => {},
                    Some(i) => {
                        if fuel > 0 {
                            invoke_keeps(g, g.functions[i], vals, s1, (fuel - 1) as nat);
                        }
                    },
                },
            }
        },
        ExprModel::MethodCall(receiver, method, args) => {
            args_keep(g, args, fewer(args.len(), 1), st, fuel);
        },
        ExprModel::Constructor(ty, args) => {
            args_keep(g, args, args.len(), st, fuel);
        },
        ExprModel::Field(x, field) => {
            eval_keeps(g, *x, st, fuel);
        },
        ExprModel::Index(x, index) => {
            eval_keeps(g, *x, st, fuel);
            match eval(g, *x, st, fuel) {
                None => {},
                Some((v, s1)) => {
                    eval_keeps(g, *index, s1, fuel);
                },
            }
        },
        ExprModel::Ternary(cond, yes, no) => {
            eval_keeps(g, *cond, st, fuel);
            match eval(g, *cond, st, fuel) {
                None => {},
                Some((c, s1)) => {
                    eval_keeps(g, *yes, s1, fuel);
                    eval_keeps(g, *no, s1, fuel);
                },
            }
        },
        ExprModel::Assign(target, value) => {
            eval_keeps(g, *value, st, fuel);
            match eval(g, *value, st, fuel) {
                None => {},
                Some((v, s1)) => {
                    store_keeps(g, *target, v, s1, fuel);
                },
            }
        },
        ExprModel::CompoundAssign(target, op, value) => {
            eval_keeps(g, *target, st, fuel);
            match eval(g, *target, st, fuel) {
                None => {},
                Some((l, s1)) => {
                    eval_keeps(g, *value, s1, fuel);
                    match eval(g, *value, s1, fuel) {
                        None => {},
                        Some((r, s2)) => match binary_value(g.unit, op, l, r) {
                            None => {},
                            Some(v) => {
                                store_keeps(g, *target, v, s2, fuel);
                            },
                        },
                    }
                },
            }
        },
        ExprModel::PostIncDec(x, inc) | ExprModel::PreIncDec(x, inc) => {
            eval_keeps(g, *x, st, fuel);
            match eval(g, *x, st, fuel) {
                None => {},
                Some((v, s1)) => match binary_value(g.unit, step_op(inc), v, step_of(v)) {
                    None => {},
                    Some(w) => {
                        store_keeps(g, *x, w, s1, fuel);
                    },
                },
            }
        },
        _ => {},
    }
}

proof fn args_keep(g: Globals, es: Seq<ExprModel>, n: nat, st: Frames, fuel: nat)
    ensures
        keeps(eval_args(g, es, n, st, fuel), st.len()),
    decreases fuel, 0nat, es, n,
{
    if n > 0 && n <= es.len() {
        args_keep(g, es, (n - 1) as nat, st, fuel);
        match eval_args(g, es, (n - 1) as nat, st, fuel) {
            None => {},
            Some((vals, s1)) => {
                eval_keeps(g, es[n - 1], s1, fuel);
            },
        }
    }
}

proof fn store_keeps(g: Globals, target: ExprModel, value: Value, st: Frames, fuel: nat)
    ensures
        match store(g, target, value, st, fuel) {
            Some(s) => s.len() == st.len(),
            None => true,
        },
    decreases fuel, 0nat, target, 2nat,
{
    match target {
        ExprModel::Var(name) => {
            lemma_assigned_len(st, name, value);
        },
        ExprModel::Field(x, field) => {
            eval_keeps(g, *x, st, fuel);
            match eval(g, *x, st, fuel) {
                None => {},
                Some((base, s1)) => match swizzle_written(base, field, value) {
                    None => {},
                    Some(v) => {
                        store_keeps(g, *x, v, s1, fuel);
                    },
                },
            }
        },
        ExprModel::Index(x, index) => {
            eval_keeps(g, *index, st, fuel);
            match eval(g, *index, st, fuel) {
                None => {},
                Some((i, s1)) => {
                    eval_keeps(g, *x, s1, fuel);
                    match eval(g, *x, s1, fuel) {
                        None => {},
                        Some((base, s2)) => {
                            store_keeps(
                                g,
                                *x,
                                index_written(base, i.whole(), value),
                                s2,
                                fuel,
                            );
                        },
                    }
                },
            }
        },
        _ => {},
    }
}

proof fn params_keep(f: FnModel, args: Seq<Value>, n: nat, st: Frames)
    ensures
        with_params(f, args, n, st).len() == st.len(),
    decreases n,
{
    if n > 0 {
        params_keep(f, args, (n - 1) as nat, st);
    }
}

proof fn invoke_keeps(g: Globals, f: FnModel, args: Seq<Value>, st: Frames, fuel: nat)
    ensures
        keeps(invoke(g, f, args, st, fuel), st.len()),
    decreases fuel, 2nat, f, 0nat,
{
    let n = fewer(f.params.len(), args.len());
    params_keep(f, args, n, st.push(Map::empty()));
    exec_keeps(g, f.body, with_params(f, args, n, st.push(Map::empty())), fuel);
}

proof fn exec_keeps(g: Globals, s: StmtModel, st: Frames, fuel: nat)
    ensures
        keeps(exec(g, s, st, fuel), st.len()),
    decreases fuel, 1nat, s, 10_001nat,
{
    match s {
        StmtModel::Expr(e) => {
            eval_keeps(g, e, st, fuel);
        },
        StmtModel::VarDecl(_, name, init) => match init {
            None => {},
            Some(e) => {
                eval_keeps(g, e, st, fuel);
            },
        },
        StmtModel::Block(ss) => {
            all_keep(g, ss, ss.len(), st.push(Map::empty()), fuel);
        },
        StmtModel::If(cond, yes, no) => {
            eval_keeps(g, cond, st, fuel);
            match eval(g, cond, st, fuel) {
                None => {},
                Some((c, s1)) => {
                    exec_keeps(g, *yes, s1, fuel);
                    match no {
                        None => {},
                        Some(x) => {
                            exec_keeps(g, *x, s1, fuel);
                        },
                    }
                },
            }
        },
        StmtModel::For(init, _, _, _) => {
            let first = st.push(Map::empty());
            match init {
                None => {
                    rounds_keep(g, s, first, LOOP_LIMIT as nat, fuel);
                },
                Some(i) => {
                    exec_keeps(g, *i, first, fuel);
                    match exec(g, *i, first, fuel) {
                        None => {},
                        Some((flow, s1)) => {
                            rounds_keep(g, s, s1, LOOP_LIMIT as nat, fuel);
                        },
                    }
                },
            }
        },
        StmtModel::While(_, _) => {
            rounds_keep(g, s, st, LOOP_LIMIT as nat, fuel);
        },
        StmtModel::DoWhile(_, _) => {
            rounds_keep(g, s, st, LOOP_LIMIT as nat, fuel);
        },
        StmtModel::Return(value) => match value {
            None => {},
            Some(e) => {
                eval_keeps(g, e, st, fuel);
            },
        },
        _ => {},
    }
}

proof fn all_keep(g: Globals, ss: Seq<StmtModel>, n: nat, st: Frames, fuel: nat)
    ensures
        keeps(exec_all(g, ss, n, st, fuel), st.len()),
    decreases fuel, 1nat, ss, n,
{
    if n > 0 && n <= ss.len() {
        all_keep(g, ss, (n - 1) as nat, st, fuel);
        match exec_all(g, ss, (n - 1) as nat, st, fuel) {
            None => {},
            Some((flow, s1)) => {
                exec_keeps(g, ss[n - 1], s1, fuel);
            },
        }
    }
}

proof fn holds_keeps(g: Globals, cond: Option<ExprModel>, st: Frames, fuel: nat)
    ensures
        keeps(holds(g, cond, st, fuel), st.len()),
    decreases fuel, 0nat, cond, 3nat,
{
    match cond {
        None => {},
        Some(e) => {
            eval_keeps(g, e, st, fuel);
        },
    }
}

proof fn rounds_keep(g: Globals, s: StmtModel, st: Frames, k: nat, fuel: nat)
    ensures
        keeps(rounds(g, s, st, k, fuel), st.len()),
    decreases fuel, 1nat, s, k,
{
    if k > 0 {
        match s {
            StmtModel::For(_, cond, update, body) => {
                holds_keeps(g, cond, st, fuel);
                match holds(g, cond, st, fuel) {
                    None => {},
                    Some((c, s1)) => {
                        exec_keeps(g, *body, s1, fuel);
                        match exec(g, *body, s1, fuel) {
                            None => {},
                            Some((flow, s2)) => {
                                holds_keeps(g, update, s2, fuel);
                                match holds(g, update, s2, fuel) {
                                    None => {},
                                    Some((_, s3)) => {
                                        rounds_keep(g, s, s3, (k - 1) as nat, fuel);
                                    },
                                }
                            },
                        }
                    },
                }
            },
            StmtModel::While(cond, body) => {
                holds_keeps(g, Some(cond), st, fuel);
                match holds(g, Some(cond), st, fuel) {
                    None => {},
                    Some((c, s1)) => {
                        exec_keeps(g, *body, s1, fuel);
                        match exec(g, *body, s1, fuel) {
                            None => {},
                            Some((flow, s2)) => {
                                rounds_keep(g, s, s2, (k - 1) as nat, fuel);
                            },
                        }
                    },
                }
            },
            StmtModel::DoWhile(body, cond) => {
                exec_keeps(g, *body, st, fuel);
                match exec(g, *body, st, fuel) {
                    None => {},
                    Some((flow, s1)) => {
                        holds_keeps(g, Some(cond), s1, fuel);
                        match holds(g, Some(cond), s1, fuel) {
                            None => {},
                            Some((c, s2)) => {
                                rounds_keep(g, s, s2, (k - 1) as nat, fuel);
                            },
                        }
                    },
                }
            },
            _ => {},
        }
    }
}

/// Whether the second outcome is the first one, if there was one.
pub open spec fn grows<T>(a: Option<(T, Frames)>, b: Option<(T, Frames)>) -> bool {
    a is Some ==> b == a
}

/// A call that has a result at some limit of nesting has the same result at
/// every larger limit.
pub proof fn larger_limits_change_nothing(
    g: Globals,
    name: Seq<char>,
    args: Seq<Value>,
    st: Frames,
    fuel: nat,
    more: nat,
)
    requires
        fuel <= more,
        call_by_name(g, name, args, st, fuel) is Some,
    ensures
        call_by_name(g, name, args, st, more) == call_by_name(g, name, args, st, fuel),
    decreases more,
{
    if fuel < more {
        larger_limits_change_nothing(g, name, args, st, fuel, (more - 1) as nat);
        match fn_index(g.functions, g.functions.len(), name) {
            None => {},
            Some(i) => {
                invoke_grows(g, g.functions[i], args, st, (more - 1) as nat);
            },
        }
    }
}

proof fn eval_grows(g: Globals, e: ExprModel, st: Frames, fuel: nat)
    ensures
        grows(eval(g, e, st, fuel), eval(g, e, st, fuel + 1)),
    decreases fuel, 0nat, e, 1nat,
{
    match e {
        ExprModel::Binary(left, op, right) => {
            eval_grows(g, *left, st, fuel);
            match eval(g, *left, st, fuel) {
                None => {},
                Some((l, s1)) => {
                    eval_grows(g, *right, s1, fuel);
                },
            }
        },
        ExprModel::Unary(op, x) => {
            eval_grows(g, *x, st, fuel);
        },
        ExprModel::Call(name, args) => {
            args_grow(g, args, args.len(), st, fuel);
            match eval_args(g, args, args.len(), st, fuel) {
                None => {},
                Some((vals, s1)) => match fn_index(g.functions, g.functions.len(), name) {
                    None => {},
                    Some(i) => {
                        if fuel > 0 {
                            invoke_grows(g, g.functions[i], vals, s1, (fuel - 1) as nat);
                        }
                    },
                },
            }
        },
        ExprModel::MethodCall(receiver, method, args) => {
            args_grow(g, args, fewer(args.len(), 1), st, fuel);
        },
        ExprModel::Constructor(ty, args) => {
            args_grow(g, args, args.len(), st, fuel);
        },
        ExprModel::Field(x, field) => {
            eval_grows(g, *x, st, fuel);
        },
        ExprModel::Index(x, index) => {
            eval_grows(g, *x, st, fuel);
            match eval(g, *x, st, fuel) {
                None => {},
                Some((v, s1)) => {
                    eval_grows(g, *index, s1, fuel);
                },
            }
        },
        ExprModel::Ternary(cond, yes, no) => {
            eval_grows(g, *cond, st, fuel);
            match eval(g, *cond, st, fuel) {
                None => {},
                Some((c, s1)) => {
                    eval_grows(g, *yes, s1, fuel);
                    eval_grows(g, *no, s1, fuel);
                },
            }
        },
        ExprModel::Assign(target, value) => {
            eval_grows(g, *value, st, fuel);
            match eval(g, *value, st, fuel) {
                None => {},
                Some((v, s1)) => {
                    store_grows(g, *target, v, s1, fuel);
                },
            }
        },
        ExprModel::CompoundAssign(target, op, value) => {
            eval_grows(g, *target, st, fuel);
            match eval(g, *target, st, fuel) {
                None => {},
                Some((l, s1)) => {
                    eval_grows(g, *value, s1, fuel);
                    match eval(g, *value, s1, fuel) {
                        None => {},
                        Some((r, s2)) => match binary_value(g.unit, op, l, r) {
                            None => {},
                            Some(v) => {
                                store_grows(g, *target, v, s2, fuel);
                            },
                        },
                    }
                },
            }
        },
        ExprModel::PostIncDec(x, inc) | ExprModel::PreIncDec(x, inc) => {
            eval_grows(g, *x, st, fuel);
            match eval(g, *x, st, fuel) {
                None => {},
                Some((v, s1)) => match binary_value(g.unit, step_op(inc), v, step_of(v)) {
                    None => {},
                    Some(w) => {
                        store_grows(g, *x, w, s1, fuel);
                    },
                },
            }
        },
        _ => {},
    }
}

proof fn args_grow(g: Globals, es: Seq<ExprModel>, n: nat, st: Frames, fuel: nat)
    ensures
        grows(eval_args(g, es, n, st, fuel), eval_args(g, es, n, st, fuel + 1)),
    decreases fuel, 0nat, es, n,
{
    if n > 0 && n <= es.len() {
        args_grow(g, es, (n - 1) as nat, st, fuel);
        match eval_args(g, es, (n - 1) as nat, st, fuel) {
            None => {},
            Some((vals, s1)) => {
                eval_grows(g, es[n - 1], s1, fuel);
            },
        }
    }
}

proof fn store_grows(g: Globals, target: ExprModel, value: Value, st: Frames, fuel: nat)
    ensures
        store(g, target, value, st, fuel) is Some ==> store(g, target, value, st, fuel + 1)
            == store(g, target, value, st, fuel),
    decreases fuel, 0nat, target, 2nat,
{
    match target {
        ExprModel::Field(x, field) => {
            eval_grows(g, *x, st, fuel);
            match eval(g, *x, st, fuel) {
                None => {},
                Some((base, s1)) => match swizzle_written(base, field, value) {
                    None => {},
                    Some(v) => {
                        store_grows(g, *x, v, s1, fuel);
                    },
                },
            }
        },
        ExprModel::Index(x, index) => {
            eval_grows(g, *index, st, fuel);
            match eval(g, *index, st, fuel) {
                None => {},
                Some((i, s1)) => {
                    eval_grows(g, *x, s1, fuel);
                    match eval(g, *x, s1, fuel) {
                        None => {},
                        Some((base, s2)) => {
                            store_grows(
                                g,
                                *x,
                                index_written(base, i.whole(), value),
                                s2,
                                fuel,
                            );
                        },
                    }
                },
            }
        },
        _ => {},
    }
}

proof fn invoke_grows(g: Globals, f: FnModel, args: Seq<Value>, st: Frames, fuel: nat)
    ensures
        grows(invoke(g, f, args, st, fuel), invoke(g, f, args, st, fuel + 1)),
    decreases fuel, 2nat, f, 0nat,
{
    let n = fewer(f.params.len(), args.len());
    exec_grows(g, f.body, with_params(f, args, n, st.push(Map::empty())), fuel);
}

proof fn exec_grows(g: Globals, s: StmtModel, st: Frames, fuel: nat)
    ensures
        grows(exec(g, s, st, fuel), exec(g, s, st, fuel + 1)),
    decreases fuel, 1nat, s, 10_001nat,
{
    match s {
        StmtModel::Expr(e) => {
            eval_grows(g, e, st, fuel);
        },
        StmtModel::VarDecl(_, name, init) => match init {
            None => {},
            Some(e) => {
                eval_grows(g, e, st, fuel);
            },
        },
        StmtModel::Block(ss) => {
            all_grow(g, ss, ss.len(), st.push(Map::empty()), fuel);
        },
        StmtModel::If(cond, yes, no) => {
            eval_grows(g, cond, st, fuel);
            match eval(g, cond, st, fuel) {
                None => {},
                Some((c, s1)) => {
                    exec_grows(g, *yes, s1, fuel);
                    match no {
                        None => {},
                        Some(x) => {
                            exec_grows(g, *x, s1, fuel);
                        },
                    }
                },
            }
        },
        StmtModel::For(init, _, _, _) => {
            let first = st.push(Map::empty());
            match init {
                None => {
                    rounds_grow(g, s, first, LOOP_LIMIT as nat, fuel);
                },
                Some(i) => {
                    exec_grows(g, *i, first, fuel);
                    match exec(g, *i, first, fuel) {
                        None => {},
                        Some((flow, s1)) => {
                            rounds_grow(g, s, s1, LOOP_LIMIT as nat, fuel);
                        },
                    }
                },
            }
        },
        StmtModel::While(_, _) => {
            rounds_grow(g, s, st, LOOP_LIMIT as nat, fuel);
        },
        StmtModel::DoWhile(_, _) => {
            rounds_grow(g, s, st, LOOP_LIMIT as nat, fuel);
        },
        StmtModel::Return(value) => match value {
            None => {},
            Some(e) => {
                eval_grows(g, e, st, fuel);
            },
        },
        _ => {},
    }
}

proof fn all_grow(g: Globals, ss: Seq<StmtModel>, n: nat, st: Frames, fuel: nat)
    ensures
        grows(exec_all(g, ss, n, st, fuel), exec_all(g, ss, n, st, fuel + 1)),
    decreases fuel, 1nat, ss, n,
{
    if n > 0 && n <= ss.len() {
        all_grow(g, ss, (n - 1) as nat, st, fuel);
        match exec_all(g, ss, (n - 1) as nat, st, fuel) {
            None => {},
            Some((flow, s1)) => {
                exec_grows(g, ss[n - 1], s1, fuel);
            },
        }
    }
}

proof fn holds_grows(g: Globals, cond: Option<ExprModel>, st: Frames, fuel: nat)
    ensures
        grows(holds(g, cond, st, fuel), holds(g, cond, st, fuel + 1)),
    decreases fuel, 0nat, cond, 3nat,
{
    match cond {
        None => {},
        Some(e) => {
            eval_grows(g, e, st, fuel);
        },
    }
}

proof fn rounds_grow(g: Globals, s: StmtModel, st: Frames, k: nat, fuel: nat)
    ensures
        grows(rounds(g, s, st, k, fuel), rounds(g, s, st, k, fuel + 1)),
    decreases fuel, 1nat, s, k,
{
    if k > 0 {
        match s {
            StmtModel::For(_, cond, update, body) => {
                holds_grows(g, cond, st, fuel);
                match holds(g, cond, st, fuel) {
                    None => {},
                    Some((c, s1)) => {
                        exec_grows(g, *body, s1, fuel);
                        match exec(g, *body, s1, fuel) {
                            None => {},
                            Some((flow, s2)) => {
                                holds_grows(g, update, s2, fuel);
                                match holds(g, update, s2, fuel) {
                                    None => {},
                                    Some((_, s3)) => {
                                        rounds_grow(g, s, s3, (k - 1) as nat, fuel);
                                    },
                                }
                            },
                        }
                    },
                }
            },
            StmtModel::While(cond, body) => {
                holds_grows(g, Some(cond), st, fuel);
                match holds(g, Some(cond), st, fuel) {
                    None => {},
                    Some((c, s1)) => {
                        exec_grows(g, *body, s1, fuel);
                        match exec(g, *body, s1, fuel) {
                            None => {},
                            Some((flow, s2)) => {
                                rounds_grow(g, s, s2, (k - 1) as nat, fuel);
                            },
                        }
                    },
                }
            },
            StmtModel::DoWhile(body, cond) => {
                exec_grows(g, *body, st, fuel);
                match exec(g, *body, st, fuel) {
                    None => {},
                    Some((flow, s1)) => {
                        holds_grows(g, Some(cond), s1, fuel);
                        match holds(g, Some(cond), s1, fuel) {
                            None => {},
                            Some((c, s2)) => {
                                rounds_grow(g, s, s2, (k - 1) as nat, fuel);
                            },
                        }
                    },
                }
            },
            _ => {},
        }
    }
}

} // verus!
