//! What the built-in functions of a program compute.

use vstd::prelude::*;

use crate::arith::{FloatOp, Unit, dot_sum, wider};
use crate::builtins::{
    Builtin, builtin_named, builtin_value, called_builtin, held, mapped_one, mapped_three,
    mapped_two, of_one, of_three, of_two, square_sum,
};
use crate::exact::{
    amount, constants_stand_for_numbers, exact, lemma_add, lemma_ceil, lemma_floor, lemma_mul,
    lemma_mul_add, lemma_one, lemma_sqrt, lemma_sub, magnitude_is_absolute, negation_is_opposite,
    one, patterns_order_as_numbers, stands_for, truncation_drops_the_fraction,
};
use crate::float_bits::{ONE, float_lt, is_finite, magnitude, negated};
use crate::interp::{Value, lemma_vector, spread, vector, width_of};

verus! {

// ---------------------------------------------------------------------------
// Names
// ---------------------------------------------------------------------------

#[verifier::spinoff_prover]
proof fn lemma_named_abs()
    ensures
        builtin_named("abs"@) == Some(Builtin::Abs),
{
    reveal_strlit("abs");
}

#[verifier::spinoff_prover]
proof fn lemma_named_sign()
    ensures
        builtin_named("sign"@) == Some(Builtin::Sign),
{
    reveal_strlit("abs");
    reveal_strlit("sign");
    assert("sign"@.len() != "abs"@.len());
}

#[verifier::spinoff_prover]
proof fn lemma_named_floor()
    ensures
        builtin_named("floor"@) == Some(Builtin::Floor),
{
    reveal_strlit("abs");
    reveal_strlit("sign");
    reveal_strlit("floor");
    assert("floor"@.len() != "abs"@.len());
    assert("floor"@.len() != "sign"@.len());
}

#[verifier::spinoff_prover]
proof fn lemma_named_ceil()
    ensures
        builtin_named("ceil"@) == Some(Builtin::Ceil),
{
    reveal_strlit("abs");
    reveal_strlit("sign");
    reveal_strlit("floor");
    reveal_strlit("ceil");
    assert("ceil"@.len() != "abs"@.len());
    assert("ceil"@[0] != "sign"@[0]);
    assert("ceil"@.len() != "floor"@.len());
}

#[verifier::spinoff_prover]
proof fn lemma_named_fract()
    ensures
        builtin_named("fract"@) == Some(Builtin::Fract),
{
    reveal_strlit("abs");
    reveal_strlit("sign");
    reveal_strlit("floor");
    reveal_strlit("ceil");
    reveal_strlit("fract");
    assert("fract"@.len() != "abs"@.len());
    assert("fract"@.len() != "sign"@.len());
    assert("fract"@[1] != "floor"@[1]);
    assert("fract"@.len() != "ceil"@.len());
}

#[verifier::spinoff_prover]
proof fn lemma_named_sqrt()
    ensures
        builtin_named("sqrt"@) == Some(Builtin::Sqrt),
{
    reveal_strlit("abs");
    reveal_strlit("sign");
    reveal_strlit("floor");
    reveal_strlit("ceil");
    reveal_strlit("fract");
    reveal_strlit("sin");
    reveal_strlit("cos");
    reveal_strlit("tan");
    reveal_strlit("asin");
    reveal_strlit("acos");
    reveal_strlit("atan");
    reveal_strlit("atan2");
    reveal_strlit("exp");
    reveal_strlit("exp2");
    reveal_strlit("log");
    reveal_strlit("log2");
    reveal_strlit("sqrt");
    assert("sqrt"@.len() != "abs"@.len());
    assert("sqrt"@[1] != "sign"@[1]);
    assert("sqrt"@.len() != "floor"@.len());
    assert("sqrt"@[0] != "ceil"@[0]);
    assert("sqrt"@.len() != "fract"@.len());
    assert("sqrt"@.len() != "sin"@.len());
    assert("sqrt"@.len() != "cos"@.len());
    assert("sqrt"@.len() != "tan"@.len());
    assert("sqrt"@[0] != "asin"@[0]);
    assert("sqrt"@[0] != "acos"@[0]);
    assert("sqrt"@[0] != "atan"@[0]);
    assert("sqrt"@.len() != "atan2"@.len());
    assert("sqrt"@.len() != "exp"@.len());
    assert("sqrt"@[0] != "exp2"@[0]);
    assert("sqrt"@.len() != "log"@.len());
    assert("sqrt"@[0] != "log2"@[0]);
}

#[verifier::spinoff_prover]
proof fn lemma_named_mod()
    ensures
        builtin_named("mod"@) == Some(Builtin::Mod),
{
    reveal_strlit("abs");
    reveal_strlit("sign");
    reveal_strlit("floor");
    reveal_strlit("ceil");
    reveal_strlit("fract");
    reveal_strlit("sin");
    reveal_strlit("cos");
    reveal_strlit("tan");
    reveal_strlit("asin");
    reveal_strlit("acos");
    reveal_strlit("atan");
    reveal_strlit("atan2");
    reveal_strlit("exp");
    reveal_strlit("exp2");
    reveal_strlit("log");
    reveal_strlit("log2");
    reveal_strlit("sqrt");
    reveal_strlit("inversesqrt");
    reveal_strlit("pow");
    reveal_strlit("mod");
    assert("mod"@[0] != "abs"@[0]);
    assert("mod"@.len() != "sign"@.len());
    assert("mod"@.len() != "floor"@.len());
    assert("mod"@.len() != "ceil"@.len());
    assert("mod"@.len() != "fract"@.len());
    assert("mod"@[0] != "sin"@[0]);
    assert("mod"@[0] != "cos"@[0]);
    assert("mod"@[0] != "tan"@[0]);
    assert("mod"@.len() != "asin"@.len());
    assert("mod"@.len() != "acos"@.len());
    assert("mod"@.len() != "atan"@.len());
    assert("mod"@.len() != "atan2"@.len());
    assert("mod"@[0] != "exp"@[0]);
    assert("mod"@.len() != "exp2"@.len());
    assert("mod"@[0] != "log"@[0]);
    assert("mod"@.len() != "log2"@.len());
    assert("mod"@.len() != "sqrt"@.len());
    assert("mod"@.len() != "inversesqrt"@.len());
    assert("mod"@[0] != "pow"@[0]);
}

#[verifier::spinoff_prover]
proof fn lemma_named_min()
    ensures
        builtin_named("min"@) == Some(Builtin::Min),
{
    reveal_strlit("abs");
    reveal_strlit("sign");
    reveal_strlit("floor");
    reveal_strlit("ceil");
    reveal_strlit("fract");
    reveal_strlit("sin");
    reveal_strlit("cos");
    reveal_strlit("tan");
    reveal_strlit("asin");
    reveal_strlit("acos");
    reveal_strlit("atan");
    reveal_strlit("atan2");
    reveal_strlit("exp");
    reveal_strlit("exp2");
    reveal_strlit("log");
    reveal_strlit("log2");
    reveal_strlit("sqrt");
    reveal_strlit("inversesqrt");
    reveal_strlit("pow");
    reveal_strlit("mod");
    reveal_strlit("min");
    assert("min"@[0] != "abs"@[0]);
    assert("min"@.len() != "sign"@.len());
    assert("min"@.len() != "floor"@.len());
    assert("min"@.len() != "ceil"@.len());
    assert("min"@.len() != "fract"@.len());
    assert("min"@[0] != "sin"@[0]);
    assert("min"@[0] != "cos"@[0]);
    assert("min"@[0] != "tan"@[0]);
    assert("min"@.len() != "asin"@.len());
    assert("min"@.len() != "acos"@.len());
    assert("min"@.len() != "atan"@.len());
    assert("min"@.len() != "atan2"@.len());
    assert("min"@[0] != "exp"@[0]);
    assert("min"@.len() != "exp2"@.len());
    assert("min"@[0] != "log"@[0]);
    assert("min"@.len() != "log2"@.len());
    assert("min"@.len() != "sqrt"@.len());
    assert("min"@.len() != "inversesqrt"@.len());
    assert("min"@[0] != "pow"@[0]);
    assert("min"@[1] != "mod"@[1]);
}

#[verifier::spinoff_prover]
proof fn lemma_named_max()
    ensures
        builtin_named("max"@) == Some(Builtin::Max),
{
    reveal_strlit("abs");
    reveal_strlit("sign");
    reveal_strlit("floor");
    reveal_strlit("ceil");
    reveal_strlit("fract");
    reveal_strlit("sin");
    reveal_strlit("cos");
    reveal_strlit("tan");
    reveal_strlit("asin");
    reveal_strlit("acos");
    reveal_strlit("atan");
    reveal_strlit("atan2");
    reveal_strlit("exp");
    reveal_strlit("exp2");
    reveal_strlit("log");
    reveal_strlit("log2");
    reveal_strlit("sqrt");
    reveal_strlit("inversesqrt");
    reveal_strlit("pow");
    reveal_strlit("mod");
    reveal_strlit("min");
    reveal_strlit("max");
    assert("max"@[0] != "abs"@[0]);
    assert("max"@.len() != "sign"@.len());
    assert("max"@.len() != "floor"@.len());
    assert("max"@.len() != "ceil"@.len());
    assert("max"@.len() != "fract"@.len());
    assert("max"@[0] != "sin"@[0]);
    assert("max"@[0] != "cos"@[0]);
    assert("max"@[0] != "tan"@[0]);
    assert("max"@.len() != "asin"@.len());
    assert("max"@.len() != "acos"@.len());
    assert("max"@.len() != "atan"@.len());
    assert("max"@.len() != "atan2"@.len());
    assert("max"@[0] != "exp"@[0]);
    assert("max"@.len() != "exp2"@.len());
    assert("max"@[0] != "log"@[0]);
    assert("max"@.len() != "log2"@.len());
    assert("max"@.len() != "sqrt"@.len());
    assert("max"@.len() != "inversesqrt"@.len());
    assert("max"@[0] != "pow"@[0]);
    assert("max"@[1] != "mod"@[1]);
    assert("max"@[1] != "min"@[1]);
}

#[verifier::spinoff_prover]
proof fn lemma_named_clamp()
    ensures
        builtin_named("clamp"@) == Some(Builtin::Clamp),
{
    reveal_strlit("abs");
    reveal_strlit("sign");
    reveal_strlit("floor");
    reveal_strlit("ceil");
    reveal_strlit("fract");
    reveal_strlit("sin");
    reveal_strlit("cos");
    reveal_strlit("tan");
    reveal_strlit("asin");
    reveal_strlit("acos");
    reveal_strlit("atan");
    reveal_strlit("atan2");
    reveal_strlit("exp");
    reveal_strlit("exp2");
    reveal_strlit("log");
    reveal_strlit("log2");
    reveal_strlit("sqrt");
    reveal_strlit("inversesqrt");
    reveal_strlit("pow");
    reveal_strlit("mod");
    reveal_strlit("min");
    reveal_strlit("max");
    reveal_strlit("clamp");
    assert("clamp"@.len() != "abs"@.len());
    assert("clamp"@.len() != "sign"@.len());
    assert("clamp"@[0] != "floor"@[0]);
    assert("clamp"@.len() != "ceil"@.len());
    assert("clamp"@[0] != "fract"@[0]);
    assert("clamp"@.len() != "sin"@.len());
    assert("clamp"@.len() != "cos"@.len());
    assert("clamp"@.len() != "tan"@.len());
    assert("clamp"@.len() != "asin"@.len());
    assert("clamp"@.len() != "acos"@.len());
    assert("clamp"@.len() != "atan"@.len());
    assert("clamp"@[0] != "atan2"@[0]);
    assert("clamp"@.len() != "exp"@.len());
    assert("clamp"@.len() != "exp2"@.len());
    assert("clamp"@.len() != "log"@.len());
    assert("clamp"@.len() != "log2"@.len());
    assert("clamp"@.len() != "sqrt"@.len());
    assert("clamp"@.len() != "inversesqrt"@.len());
    assert("clamp"@.len() != "pow"@.len());
    assert("clamp"@.len() != "mod"@.len());
    assert("clamp"@.len() != "min"@.len());
    assert("clamp"@.len() != "max"@.len());
}

#[verifier::spinoff_prover]
proof fn lemma_named_mix()
    ensures
        builtin_named("mix"@) == Some(Builtin::Mix),
{
    reveal_strlit("abs");
    reveal_strlit("sign");
    reveal_strlit("floor");
    reveal_strlit("ceil");
    reveal_strlit("fract");
    reveal_strlit("sin");
    reveal_strlit("cos");
    reveal_strlit("tan");
    reveal_strlit("asin");
    reveal_strlit("acos");
    reveal_strlit("atan");
    reveal_strlit("atan2");
    reveal_strlit("exp");
    reveal_strlit("exp2");
    reveal_strlit("log");
    reveal_strlit("log2");
    reveal_strlit("sqrt");
    reveal_strlit("inversesqrt");
    reveal_strlit("pow");
    reveal_strlit("mod");
    reveal_strlit("min");
    reveal_strlit("max");
    reveal_strlit("clamp");
    reveal_strlit("mix");
    assert("mix"@[0] != "abs"@[0]);
    assert("mix"@.len() != "sign"@.len());
    assert("mix"@.len() != "floor"@.len());
    assert("mix"@.len() != "ceil"@.len());
    assert("mix"@.len() != "fract"@.len());
    assert("mix"@[0] != "sin"@[0]);
    assert("mix"@[0] != "cos"@[0]);
    assert("mix"@[0] != "tan"@[0]);
    assert("mix"@.len() != "asin"@.len());
    assert("mix"@.len() != "acos"@.len());
    assert("mix"@.len() != "atan"@.len());
    assert("mix"@.len() != "atan2"@.len());
    assert("mix"@[0] != "exp"@[0]);
    assert("mix"@.len() != "exp2"@.len());
    assert("mix"@[0] != "log"@[0]);
    assert("mix"@.len() != "log2"@.len());
    assert("mix"@.len() != "sqrt"@.len());
    assert("mix"@.len() != "inversesqrt"@.len());
    assert("mix"@[0] != "pow"@[0]);
    assert("mix"@[1] != "mod"@[1]);
    assert("mix"@[2] != "min"@[2]);
    assert("mix"@[1] != "max"@[1]);
    assert("mix"@.len() != "clamp"@.len());
}

#[verifier::spinoff_prover]
proof fn lemma_named_step()
    ensures
        builtin_named("step"@) == Some(Builtin::Step),
{
    reveal_strlit("abs");
    reveal_strlit("sign");
    reveal_strlit("floor");
    reveal_strlit("ceil");
    reveal_strlit("fract");
    reveal_strlit("sin");
    reveal_strlit("cos");
    reveal_strlit("tan");
    reveal_strlit("asin");
    reveal_strlit("acos");
    reveal_strlit("atan");
    reveal_strlit("atan2");
    reveal_strlit("exp");
    reveal_strlit("exp2");
    reveal_strlit("log");
    reveal_strlit("log2");
    reveal_strlit("sqrt");
    reveal_strlit("inversesqrt");
    reveal_strlit("pow");
    reveal_strlit("mod");
    reveal_strlit("min");
    reveal_strlit("max");
    reveal_strlit("clamp");
    reveal_strlit("mix");
    reveal_strlit("step");
    assert("step"@.len() != "abs"@.len());
    assert("step"@[1] != "sign"@[1]);
    assert("step"@.len() != "floor"@.len());
    assert("step"@[0] != "ceil"@[0]);
    assert("step"@.len() != "fract"@.len());
    assert("step"@.len() != "sin"@.len());
    assert("step"@.len() != "cos"@.len());
    assert("step"@.len() != "tan"@.len());
    assert("step"@[0] != "asin"@[0]);
    assert("step"@[0] != "acos"@[0]);
    assert("step"@[0] != "atan"@[0]);
    assert("step"@.len() != "atan2"@.len());
    assert("step"@.len() != "exp"@.len());
    assert("step"@[0] != "exp2"@[0]);
    assert("step"@.len() != "log"@.len());
    assert("step"@[0] != "log2"@[0]);
    assert("step"@[1] != "sqrt"@[1]);
    assert("step"@.len() != "inversesqrt"@.len());
    assert("step"@.len() != "pow"@.len());
    assert("step"@.len() != "mod"@.len());
    assert("step"@.len() != "min"@.len());
    assert("step"@.len() != "max"@.len());
    assert("step"@.len() != "clamp"@.len());
    assert("step"@.len() != "mix"@.len());
}

#[verifier::spinoff_prover]
proof fn lemma_named_smoothstep()
    ensures
        builtin_named("smoothstep"@) == Some(Builtin::Smoothstep),
{
    reveal_strlit("abs");
    reveal_strlit("sign");
    reveal_strlit("floor");
    reveal_strlit("ceil");
    reveal_strlit("fract");
    reveal_strlit("sin");
    reveal_strlit("cos");
    reveal_strlit("tan");
    reveal_strlit("asin");
    reveal_strlit("acos");
    reveal_strlit("atan");
    reveal_strlit("atan2");
    reveal_strlit("exp");
    reveal_strlit("exp2");
    reveal_strlit("log");
    reveal_strlit("log2");
    reveal_strlit("sqrt");
    reveal_strlit("inversesqrt");
    reveal_strlit("pow");
    reveal_strlit("mod");
    reveal_strlit("min");
    reveal_strlit("max");
    reveal_strlit("clamp");
    reveal_strlit("mix");
    reveal_strlit("step");
    reveal_strlit("smoothstep");
    assert("smoothstep"@.len() != "abs"@.len());
    assert("smoothstep"@.len() != "sign"@.len());
    assert("smoothstep"@.len() != "floor"@.len());
    assert("smoothstep"@.len() != "ceil"@.len());
    assert("smoothstep"@.len() != "fract"@.len());
    assert("smoothstep"@.len() != "sin"@.len());
    assert("smoothstep"@.len() != "cos"@.len());
    assert("smoothstep"@.len() != "tan"@.len());
    assert("smoothstep"@.len() != "asin"@.len());
    assert("smoothstep"@.len() != "acos"@.len());
    assert("smoothstep"@.len() != "atan"@.len());
    assert("smoothstep"@.len() != "atan2"@.len());
    assert("smoothstep"@.len() != "exp"@.len());
    assert("smoothstep"@.len() != "exp2"@.len());
    assert("smoothstep"@.len() != "log"@.len());
    assert("smoothstep"@.len() != "log2"@.len());
    assert("smoothstep"@.len() != "sqrt"@.len());
    assert("smoothstep"@.len() != "inversesqrt"@.len());
    assert("smoothstep"@.len() != "pow"@.len());
    assert("smoothstep"@.len() != "mod"@.len());
    assert("smoothstep"@.len() != "min"@.len());
    assert("smoothstep"@.len() != "max"@.len());
    assert("smoothstep"@.len() != "clamp"@.len());
    assert("smoothstep"@.len() != "mix"@.len());
    assert("smoothstep"@.len() != "step"@.len());
}

#[verifier::spinoff_prover]
proof fn lemma_named_length()
    ensures
        builtin_named("length"@) == Some(Builtin::Length),
{
    reveal_strlit("abs");
    reveal_strlit("sign");
    reveal_strlit("floor");
    reveal_strlit("ceil");
    reveal_strlit("fract");
    reveal_strlit("sin");
    reveal_strlit("cos");
    reveal_strlit("tan");
    reveal_strlit("asin");
    reveal_strlit("acos");
    reveal_strlit("atan");
    reveal_strlit("atan2");
    reveal_strlit("exp");
    reveal_strlit("exp2");
    reveal_strlit("log");
    reveal_strlit("log2");
    reveal_strlit("sqrt");
    reveal_strlit("inversesqrt");
    reveal_strlit("pow");
    reveal_strlit("mod");
    reveal_strlit("min");
    reveal_strlit("max");
    reveal_strlit("clamp");
    reveal_strlit("mix");
    reveal_strlit("step");
    reveal_strlit("smoothstep");
    reveal_strlit("length");
    assert("length"@.len() != "abs"@.len());
    assert("length"@.len() != "sign"@.len());
    assert("length"@.len() != "floor"@.len());
    assert("length"@.len() != "ceil"@.len());
    assert("length"@.len() != "fract"@.len());
    assert("length"@.len() != "sin"@.len());
    assert("length"@.len() != "cos"@.len());
    assert("length"@.len() != "tan"@.len());
    assert("length"@.len() != "asin"@.len());
    assert("length"@.len() != "acos"@.len());
    assert("length"@.len() != "atan"@.len());
    assert("length"@.len() != "atan2"@.len());
    assert("length"@.len() != "exp"@.len());
    assert("length"@.len() != "exp2"@.len());
    assert("length"@.len() != "log"@.len());
    assert("length"@.len() != "log2"@.len());
    assert("length"@.len() != "sqrt"@.len());
    assert("length"@.len() != "inversesqrt"@.len());
    assert("length"@.len() != "pow"@.len());
    assert("length"@.len() != "mod"@.len());
    assert("length"@.len() != "min"@.len());
    assert("length"@.len() != "max"@.len());
    assert("length"@.len() != "clamp"@.len());
    assert("length"@.len() != "mix"@.len());
    assert("length"@.len() != "step"@.len());
    assert("length"@.len() != "smoothstep"@.len());
}

#[verifier::spinoff_prover]
proof fn lemma_named_distance()
    ensures
        builtin_named("distance"@) == Some(Builtin::Distance),
{
    reveal_strlit("abs");
    reveal_strlit("sign");
    reveal_strlit("floor");
    reveal_strlit("ceil");
    reveal_strlit("fract");
    reveal_strlit("sin");
    reveal_strlit("cos");
    reveal_strlit("tan");
    reveal_strlit("asin");
    reveal_strlit("acos");
    reveal_strlit("atan");
    reveal_strlit("atan2");
    reveal_strlit("exp");
    reveal_strlit("exp2");
    reveal_strlit("log");
    reveal_strlit("log2");
    reveal_strlit("sqrt");
    reveal_strlit("inversesqrt");
    reveal_strlit("pow");
    reveal_strlit("mod");
    reveal_strlit("min");
    reveal_strlit("max");
    reveal_strlit("clamp");
    reveal_strlit("mix");
    reveal_strlit("step");
    reveal_strlit("smoothstep");
    reveal_strlit("length");
    reveal_strlit("distance");
    assert("distance"@.len() != "abs"@.len());
    assert("distance"@.len() != "sign"@.len());
    assert("distance"@.len() != "floor"@.len());
    assert("distance"@.len() != "ceil"@.len());
    assert("distance"@.len() != "fract"@.len());
    assert("distance"@.len() != "sin"@.len());
    assert("distance"@.len() != "cos"@.len());
    assert("distance"@.len() != "tan"@.len());
    assert("distance"@.len() != "asin"@.len());
    assert("distance"@.len() != "acos"@.len());
    assert("distance"@.len() != "atan"@.len());
    assert("distance"@.len() != "atan2"@.len());
    assert("distance"@.len() != "exp"@.len());
    assert("distance"@.len() != "exp2"@.len());
    assert("distance"@.len() != "log"@.len());
    assert("distance"@.len() != "log2"@.len());
    assert("distance"@.len() != "sqrt"@.len());
    assert("distance"@.len() != "inversesqrt"@.len());
    assert("distance"@.len() != "pow"@.len());
    assert("distance"@.len() != "mod"@.len());
    assert("distance"@.len() != "min"@.len());
    assert("distance"@.len() != "max"@.len());
    assert("distance"@.len() != "clamp"@.len());
    assert("distance"@.len() != "mix"@.len());
    assert("distance"@.len() != "step"@.len());
    assert("distance"@.len() != "smoothstep"@.len());
    assert("distance"@.len() != "length"@.len());
}

#[verifier::spinoff_prover]
proof fn lemma_named_dot()
    ensures
        builtin_named("dot"@) == Some(Builtin::Dot),
{
    reveal_strlit("abs");
    reveal_strlit("sign");
    reveal_strlit("floor");
    reveal_strlit("ceil");
    reveal_strlit("fract");
    reveal_strlit("sin");
    reveal_strlit("cos");
    reveal_strlit("tan");
    reveal_strlit("asin");
    reveal_strlit("acos");
    reveal_strlit("atan");
    reveal_strlit("atan2");
    reveal_strlit("exp");
    reveal_strlit("exp2");
    reveal_strlit("log");
    reveal_strlit("log2");
    reveal_strlit("sqrt");
    reveal_strlit("inversesqrt");
    reveal_strlit("pow");
    reveal_strlit("mod");
    reveal_strlit("min");
    reveal_strlit("max");
    reveal_strlit("clamp");
    reveal_strlit("mix");
    reveal_strlit("step");
    reveal_strlit("smoothstep");
    reveal_strlit("length");
    reveal_strlit("distance");
    reveal_strlit("dot");
    assert("dot"@[0] != "abs"@[0]);
    assert("dot"@.len() != "sign"@.len());
    assert("dot"@.len() != "floor"@.len());
    assert("dot"@.len() != "ceil"@.len());
    assert("dot"@.len() != "fract"@.len());
    assert("dot"@[0] != "sin"@[0]);
    assert("dot"@[0] != "cos"@[0]);
    assert("dot"@[0] != "tan"@[0]);
    assert("dot"@.len() != "asin"@.len());
    assert("dot"@.len() != "acos"@.len());
    assert("dot"@.len() != "atan"@.len());
    assert("dot"@.len() != "atan2"@.len());
    assert("dot"@[0] != "exp"@[0]);
    assert("dot"@.len() != "exp2"@.len());
    assert("dot"@[0] != "log"@[0]);
    assert("dot"@.len() != "log2"@.len());
    assert("dot"@.len() != "sqrt"@.len());
    assert("dot"@.len() != "inversesqrt"@.len());
    assert("dot"@[0] != "pow"@[0]);
    assert("dot"@[0] != "mod"@[0]);
    assert("dot"@[0] != "min"@[0]);
    assert("dot"@[0] != "max"@[0]);
    assert("dot"@.len() != "clamp"@.len());
    assert("dot"@[0] != "mix"@[0]);
    assert("dot"@.len() != "step"@.len());
    assert("dot"@.len() != "smoothstep"@.len());
    assert("dot"@.len() != "length"@.len());
    assert("dot"@.len() != "distance"@.len());
}

#[verifier::spinoff_prover]
proof fn lemma_named_cross()
    ensures
        builtin_named("cross"@) == Some(Builtin::Cross),
{
    reveal_strlit("abs");
    reveal_strlit("sign");
    reveal_strlit("floor");
    reveal_strlit("ceil");
    reveal_strlit("fract");
    reveal_strlit("sin");
    reveal_strlit("cos");
    reveal_strlit("tan");
    reveal_strlit("asin");
    reveal_strlit("acos");
    reveal_strlit("atan");
    reveal_strlit("atan2");
    reveal_strlit("exp");
    reveal_strlit("exp2");
    reveal_strlit("log");
    reveal_strlit("log2");
    reveal_strlit("sqrt");
    reveal_strlit("inversesqrt");
    reveal_strlit("pow");
    reveal_strlit("mod");
    reveal_strlit("min");
    reveal_strlit("max");
    reveal_strlit("clamp");
    reveal_strlit("mix");
    reveal_strlit("step");
    reveal_strlit("smoothstep");
    reveal_strlit("length");
    reveal_strlit("distance");
    reveal_strlit("dot");
    reveal_strlit("cross");
    assert("cross"@.len() != "abs"@.len());
    assert("cross"@.len() != "sign"@.len());
    assert("cross"@[0] != "floor"@[0]);
    assert("cross"@.len() != "ceil"@.len());
    assert("cross"@[0] != "fract"@[0]);
    assert("cross"@.len() != "sin"@.len());
    assert("cross"@.len() != "cos"@.len());
    assert("cross"@.len() != "tan"@.len());
    assert("cross"@.len() != "asin"@.len());
    assert("cross"@.len() != "acos"@.len());
    assert("cross"@.len() != "atan"@.len());
    assert("cross"@[0] != "atan2"@[0]);
    assert("cross"@.len() != "exp"@.len());
    assert("cross"@.len() != "exp2"@.len());
    assert("cross"@.len() != "log"@.len());
    assert("cross"@.len() != "log2"@.len());
    assert("cross"@.len() != "sqrt"@.len());
    assert("cross"@.len() != "inversesqrt"@.len());
    assert("cross"@.len() != "pow"@.len());
    assert("cross"@.len() != "mod"@.len());
    assert("cross"@.len() != "min"@.len());
    assert("cross"@.len() != "max"@.len());
    assert("cross"@[1] != "clamp"@[1]);
    assert("cross"@.len() != "mix"@.len());
    assert("cross"@.len() != "step"@.len());
    assert("cross"@.len() != "smoothstep"@.len());
    assert("cross"@.len() != "length"@.len());
    assert("cross"@.len() != "distance"@.len());
    assert("cross"@.len() != "dot"@.len());
}

#[verifier::spinoff_prover]
proof fn lemma_named_normalize()
    ensures
        builtin_named("normalize"@) == Some(Builtin::Normalize),
{
    reveal_strlit("abs");
    reveal_strlit("sign");
    reveal_strlit("floor");
    reveal_strlit("ceil");
    reveal_strlit("fract");
    reveal_strlit("sin");
    reveal_strlit("cos");
    reveal_strlit("tan");
    reveal_strlit("asin");
    reveal_strlit("acos");
    reveal_strlit("atan");
    reveal_strlit("atan2");
    reveal_strlit("exp");
    reveal_strlit("exp2");
    reveal_strlit("log");
    reveal_strlit("log2");
    reveal_strlit("sqrt");
    reveal_strlit("inversesqrt");
    reveal_strlit("pow");
    reveal_strlit("mod");
    reveal_strlit("min");
    reveal_strlit("max");
    reveal_strlit("clamp");
    reveal_strlit("mix");
    reveal_strlit("step");
    reveal_strlit("smoothstep");
    reveal_strlit("length");
    reveal_strlit("distance");
    reveal_strlit("dot");
    reveal_strlit("cross");
    reveal_strlit("normalize");
    assert("normalize"@.len() != "abs"@.len());
    assert("normalize"@.len() != "sign"@.len());
    assert("normalize"@.len() != "floor"@.len());
    assert("normalize"@.len() != "ceil"@.len());
    assert("normalize"@.len() != "fract"@.len());
    assert("normalize"@.len() != "sin"@.len());
    assert("normalize"@.len() != "cos"@.len());
    assert("normalize"@.len() != "tan"@.len());
    assert("normalize"@.len() != "asin"@.len());
    assert("normalize"@.len() != "acos"@.len());
    assert("normalize"@.len() != "atan"@.len());
    assert("normalize"@.len() != "atan2"@.len());
    assert("normalize"@.len() != "exp"@.len());
    assert("normalize"@.len() != "exp2"@.len());
    assert("normalize"@.len() != "log"@.len());
    assert("normalize"@.len() != "log2"@.len());
    assert("normalize"@.len() != "sqrt"@.len());
    assert("normalize"@.len() != "inversesqrt"@.len());
    assert("normalize"@.len() != "pow"@.len());
    assert("normalize"@.len() != "mod"@.len());
    assert("normalize"@.len() != "min"@.len());
    assert("normalize"@.len() != "max"@.len());
    assert("normalize"@.len() != "clamp"@.len());
    assert("normalize"@.len() != "mix"@.len());
    assert("normalize"@.len() != "step"@.len());
    assert("normalize"@.len() != "smoothstep"@.len());
    assert("normalize"@.len() != "length"@.len());
    assert("normalize"@.len() != "distance"@.len());
    assert("normalize"@.len() != "dot"@.len());
    assert("normalize"@.len() != "cross"@.len());
}

#[verifier::spinoff_prover]
proof fn lemma_named_float()
    ensures
        builtin_named("float"@) == Some(Builtin::ToFloat),
{
    reveal_strlit("abs");
    reveal_strlit("sign");
    reveal_strlit("floor");
    reveal_strlit("ceil");
    reveal_strlit("fract");
    reveal_strlit("sin");
    reveal_strlit("cos");
    reveal_strlit("tan");
    reveal_strlit("asin");
    reveal_strlit("acos");
    reveal_strlit("atan");
    reveal_strlit("atan2");
    reveal_strlit("exp");
    reveal_strlit("exp2");
    reveal_strlit("log");
    reveal_strlit("log2");
    reveal_strlit("sqrt");
    reveal_strlit("inversesqrt");
    reveal_strlit("pow");
    reveal_strlit("mod");
    reveal_strlit("min");
    reveal_strlit("max");
    reveal_strlit("clamp");
    reveal_strlit("mix");
    reveal_strlit("step");
    reveal_strlit("smoothstep");
    reveal_strlit("length");
    reveal_strlit("distance");
    reveal_strlit("dot");
    reveal_strlit("cross");
    reveal_strlit("normalize");
    reveal_strlit("reflect");
    reveal_strlit("refract");
    reveal_strlit("radians");
    reveal_strlit("degrees");
    reveal_strlit("float");
    assert("float"@.len() != "abs"@.len());
    assert("float"@.len() != "sign"@.len());
    assert("float"@[3] != "floor"@[3]);
    assert("float"@.len() != "ceil"@.len());
    assert("float"@[1] != "fract"@[1]);
    assert("float"@.len() != "sin"@.len());
    assert("float"@.len() != "cos"@.len());
    assert("float"@.len() != "tan"@.len());
    assert("float"@.len() != "asin"@.len());
    assert("float"@.len() != "acos"@.len());
    assert("float"@.len() != "atan"@.len());
    assert("float"@[0] != "atan2"@[0]);
    assert("float"@.len() != "exp"@.len());
    assert("float"@.len() != "exp2"@.len());
    assert("float"@.len() != "log"@.len());
    assert("float"@.len() != "log2"@.len());
    assert("float"@.len() != "sqrt"@.len());
    assert("float"@.len() != "inversesqrt"@.len());
    assert("float"@.len() != "pow"@.len());
    assert("float"@.len() != "mod"@.len());
    assert("float"@.len() != "min"@.len());
    assert("float"@.len() != "max"@.len());
    assert("float"@[0] != "clamp"@[0]);
    assert("float"@.len() != "mix"@.len());
    assert("float"@.len() != "step"@.len());
    assert("float"@.len() != "smoothstep"@.len());
    assert("float"@.len() != "length"@.len());
    assert("float"@.len() != "distance"@.len());
    assert("float"@.len() != "dot"@.len());
    assert("float"@[0] != "cross"@[0]);
    assert("float"@.len() != "normalize"@.len());
    assert("float"@.len() != "reflect"@.len());
    assert("float"@.len() != "refract"@.len());
    assert("float"@.len() != "radians"@.len());
    assert("float"@.len() != "degrees"@.len());
}

#[verifier::spinoff_prover]
proof fn lemma_named_int()
    ensures
        builtin_named("int"@) == Some(Builtin::ToInt),
{
    reveal_strlit("abs");
    reveal_strlit("sign");
    reveal_strlit("floor");
    reveal_strlit("ceil");
    reveal_strlit("fract");
    reveal_strlit("sin");
    reveal_strlit("cos");
    reveal_strlit("tan");
    reveal_strlit("asin");
    reveal_strlit("acos");
    reveal_strlit("atan");
    reveal_strlit("atan2");
    reveal_strlit("exp");
    reveal_strlit("exp2");
    reveal_strlit("log");
    reveal_strlit("log2");
    reveal_strlit("sqrt");
    reveal_strlit("inversesqrt");
    reveal_strlit("pow");
    reveal_strlit("mod");
    reveal_strlit("min");
    reveal_strlit("max");
    reveal_strlit("clamp");
    reveal_strlit("mix");
    reveal_strlit("step");
    reveal_strlit("smoothstep");
    reveal_strlit("length");
    reveal_strlit("distance");
    reveal_strlit("dot");
    reveal_strlit("cross");
    reveal_strlit("normalize");
    reveal_strlit("reflect");
    reveal_strlit("refract");
    reveal_strlit("radians");
    reveal_strlit("degrees");
    reveal_strlit("float");
    reveal_strlit("int");
    assert("int"@[0] != "abs"@[0]);
    assert("int"@.len() != "sign"@.len());
    assert("int"@.len() != "floor"@.len());
    assert("int"@.len() != "ceil"@.len());
    assert("int"@.len() != "fract"@.len());
    assert("int"@[0] != "sin"@[0]);
    assert("int"@[0] != "cos"@[0]);
    assert("int"@[0] != "tan"@[0]);
    assert("int"@.len() != "asin"@.len());
    assert("int"@.len() != "acos"@.len());
    assert("int"@.len() != "atan"@.len());
    assert("int"@.len() != "atan2"@.len());
    assert("int"@[0] != "exp"@[0]);
    assert("int"@.len() != "exp2"@.len());
    assert("int"@[0] != "log"@[0]);
    assert("int"@.len() != "log2"@.len());
    assert("int"@.len() != "sqrt"@.len());
    assert("int"@.len() != "inversesqrt"@.len());
    assert("int"@[0] != "pow"@[0]);
    assert("int"@[0] != "mod"@[0]);
    assert("int"@[0] != "min"@[0]);
    assert("int"@[0] != "max"@[0]);
    assert("int"@.len() != "clamp"@.len());
    assert("int"@[0] != "mix"@[0]);
    assert("int"@.len() != "step"@.len());
    assert("int"@.len() != "smoothstep"@.len());
    assert("int"@.len() != "length"@.len());
    assert("int"@.len() != "distance"@.len());
    assert("int"@[0] != "dot"@[0]);
    assert("int"@.len() != "cross"@.len());
    assert("int"@.len() != "normalize"@.len());
    assert("int"@.len() != "reflect"@.len());
    assert("int"@.len() != "refract"@.len());
    assert("int"@.len() != "radians"@.len());
    assert("int"@.len() != "degrees"@.len());
    assert("int"@.len() != "float"@.len());
}

#[verifier::spinoff_prover]
proof fn lemma_named_bool()
    ensures
        builtin_named("bool"@) == Some(Builtin::ToBool),
{
    reveal_strlit("abs");
    reveal_strlit("sign");
    reveal_strlit("floor");
    reveal_strlit("ceil");
    reveal_strlit("fract");
    reveal_strlit("sin");
    reveal_strlit("cos");
    reveal_strlit("tan");
    reveal_strlit("asin");
    reveal_strlit("acos");
    reveal_strlit("atan");
    reveal_strlit("atan2");
    reveal_strlit("exp");
    reveal_strlit("exp2");
    reveal_strlit("log");
    reveal_strlit("log2");
    reveal_strlit("sqrt");
    reveal_strlit("inversesqrt");
    reveal_strlit("pow");
    reveal_strlit("mod");
    reveal_strlit("min");
    reveal_strlit("max");
    reveal_strlit("clamp");
    reveal_strlit("mix");
    reveal_strlit("step");
    reveal_strlit("smoothstep");
    reveal_strlit("length");
    reveal_strlit("distance");
    reveal_strlit("dot");
    reveal_strlit("cross");
    reveal_strlit("normalize");
    reveal_strlit("reflect");
    reveal_strlit("refract");
    reveal_strlit("radians");
    reveal_strlit("degrees");
    reveal_strlit("float");
    reveal_strlit("int");
    reveal_strlit("bool");
    assert("bool"@.len() != "abs"@.len());
    assert("bool"@[0] != "sign"@[0]);
    assert("bool"@.len() != "floor"@.len());
    assert("bool"@[0] != "ceil"@[0]);
    assert("bool"@.len() != "fract"@.len());
    assert("bool"@.len() != "sin"@.len());
    assert("bool"@.len() != "cos"@.len());
    assert("bool"@.len() != "tan"@.len());
    assert("bool"@[0] != "asin"@[0]);
    assert("bool"@[0] != "acos"@[0]);
    assert("bool"@[0] != "atan"@[0]);
    assert("bool"@.len() != "atan2"@.len());
    assert("bool"@.len() != "exp"@.len());
    assert("bool"@[0] != "exp2"@[0]);
    assert("bool"@.len() != "log"@.len());
    assert("bool"@[0] != "log2"@[0]);
    assert("bool"@[0] != "sqrt"@[0]);
    assert("bool"@.len() != "inversesqrt"@.len());
    assert("bool"@.len() != "pow"@.len());
    assert("bool"@.len() != "mod"@.len());
    assert("bool"@.len() != "min"@.len());
    assert("bool"@.len() != "max"@.len());
    assert("bool"@.len() != "clamp"@.len());
    assert("bool"@.len() != "mix"@.len());
    assert("bool"@[0] != "step"@[0]);
    assert("bool"@.len() != "smoothstep"@.len());
    assert("bool"@.len() != "length"@.len());
    assert("bool"@.len() != "distance"@.len());
    assert("bool"@.len() != "dot"@.len());
    assert("bool"@.len() != "cross"@.len());
    assert("bool"@.len() != "normalize"@.len());
    assert("bool"@.len() != "reflect"@.len());
    assert("bool"@.len() != "refract"@.len());
    assert("bool"@.len() != "radians"@.len());
    assert("bool"@.len() != "degrees"@.len());
    assert("bool"@.len() != "float"@.len());
    assert("bool"@.len() != "int"@.len());
}

// ---------------------------------------------------------------------------
// Numbers
// ---------------------------------------------------------------------------

/// What a call with one number gives.
pub open spec fn of_number(u: Unit, name: Seq<char>, x: u32) -> Option<Value> {
    called_builtin(u, name, seq![Value::Float(x)])
}

/// What a call with two numbers gives.
pub open spec fn of_numbers(u: Unit, name: Seq<char>, x: u32, y: u32) -> Option<Value> {
    called_builtin(u, name, seq![Value::Float(x), Value::Float(y)])
}

/// What a call with three numbers gives.
pub open spec fn of_triples(u: Unit, name: Seq<char>, x: u32, y: u32, z: u32) -> Option<Value> {
    called_builtin(u, name, seq![Value::Float(x), Value::Float(y), Value::Float(z)])
}

/// Whether a call gives a float that stands for a number.
pub open spec fn gives(r: Option<Value>, v: int) -> bool {
    r matches Some(Value::Float(x)) && stands_for(x, v)
}

/// `abs` gives the absolute value, and `sign` the sign.
pub proof fn signs_of_numbers(u: Unit, x: u32)
    requires
        is_finite(x),
    ensures
        gives(
            of_number(u, "abs"@, x),
            if amount(x) < 0 {
                -amount(x)
            } else {
                amount(x)
            },
        ),
        gives(
            of_number(u, "sign"@, x),
            if amount(x) < 0 {
                -one()
            } else if amount(x) > 0 {
                one()
            } else {
                0
            },
        ),
{
    lemma_named_abs();
    lemma_named_sign();
    magnitude_is_absolute(x);
    constants_stand_for_numbers();
    patterns_order_as_numbers(0, x);
    patterns_order_as_numbers(x, 0);
    negation_is_opposite(ONE);
    assert(negated(ONE) == crate::builtins::MINUS_ONE);
}

/// `floor` gives the largest whole number up to another, `ceil` the smallest one
/// from it, and `fract` what is left behind the former.
pub proof fn whole_parts_of_numbers(u: Unit, x: u32, n: u32, r: u32)
    requires
        exact(u.arith),
        is_finite(x),
        is_finite(n),
        is_finite(r),
        amount(n) % one() == 0,
    ensures
        amount(n) <= amount(x) < amount(n) + one() ==> gives(of_number(u, "floor"@, x), amount(n)),
        amount(n) - one() < amount(x) <= amount(n) ==> gives(of_number(u, "ceil"@, x), amount(n)),
        amount(n) <= amount(x) < amount(n) + one() && amount(r) == amount(x) - amount(n) ==> gives(
            of_number(u, "fract"@, x),
            amount(x) - amount(n),
        ),
{
    lemma_named_floor();
    lemma_named_ceil();
    lemma_named_fract();
    if amount(n) <= amount(x) < amount(n) + one() {
        lemma_floor(u.arith, x, n);
        if amount(r) == amount(x) - amount(n) {
            lemma_sub(u.arith, x, (u.arith)(FloatOp::Floor, x, 0, 0), r);
        }
    }
    if amount(n) - one() < amount(x) <= amount(n) {
        lemma_ceil(u.arith, x, n);
    }
}

/// `sqrt` gives the number whose square is the given one.
pub proof fn roots_of_numbers(u: Unit, x: u32, r: u32)
    requires
        exact(u.arith),
        is_finite(x),
        is_finite(r),
        amount(r) >= 0,
        amount(r) * amount(r) == amount(x) * one(),
    ensures
        gives(of_number(u, "sqrt"@, x), amount(r)),
{
    lemma_named_sqrt();
    lemma_sqrt(u.arith, x, r);
}

/// `min` and `max` give the smaller and the larger of two numbers, and `clamp`
/// holds a number between two others.
pub proof fn extremes_of_numbers(u: Unit, x: u32, a: u32, b: u32)
    requires
        is_finite(x),
        is_finite(a),
        is_finite(b),
    ensures
        gives(
            of_numbers(u, "min"@, a, b),
            if amount(a) <= amount(b) {
                amount(a)
            } else {
                amount(b)
            },
        ),
        gives(
            of_numbers(u, "max"@, a, b),
            if amount(a) <= amount(b) {
                amount(b)
            } else {
                amount(a)
            },
        ),
        amount(a) <= amount(b) ==> gives(
            of_triples(u, "clamp"@, x, a, b),
            if amount(x) < amount(a) {
                amount(a)
            } else if amount(x) > amount(b) {
                amount(b)
            } else {
                amount(x)
            },
        ),
{
    lemma_named_min();
    lemma_named_max();
    lemma_named_clamp();
    patterns_order_as_numbers(a, b);
    patterns_order_as_numbers(b, a);
    patterns_order_as_numbers(x, a);
    patterns_order_as_numbers(a, x);
    patterns_order_as_numbers(b, x);
}

/// `step` gives one from the edge on, and zero before it.
pub proof fn steps_at_the_edge(u: Unit, edge: u32, x: u32)
    requires
        is_finite(edge),
        is_finite(x),
    ensures
        gives(
            of_numbers(u, "step"@, edge, x),
            if amount(x) < amount(edge) {
                0
            } else {
                one()
            },
        ),
{
    lemma_named_step();
    patterns_order_as_numbers(x, edge);
    constants_stand_for_numbers();
}

/// `mix` gives the number that lies between two others in the given ratio: the
/// first one at zero, the second one at one.
pub proof fn mixtures_of_numbers(u: Unit, a: u32, b: u32, t: u32, d: u32, r: u32)
    requires
        exact(u.arith),
        is_finite(a),
        is_finite(b),
        is_finite(t),
        stands_for(d, amount(b) - amount(a)),
        is_finite(r),
        amount(r) * one() == amount(a) * (one() - amount(t)) + amount(b) * amount(t),
    ensures
        gives(of_triples(u, "mix"@, a, b, t), amount(r)),
        amount(t) == 0 ==> gives(of_triples(u, "mix"@, a, b, t), amount(a)),
        amount(t) == one() ==> gives(of_triples(u, "mix"@, a, b, t), amount(b)),
{
    lemma_named_mix();
    lemma_one();
    lemma_sub(u.arith, b, a, d);
    let s = (u.arith)(FloatOp::Sub, b, a, 0);
    let (p, q, k, v) = (amount(a), amount(b), amount(t), amount(r));
    assert(v * one() == k * amount(s) + p * one()) by (nonlinear_arith)
        requires
            v * one() == p * (one() - k) + q * k,
            amount(s) == q - p,
    ;
    lemma_mul_add(u.arith, t, s, a, r);
    if k == 0 {
        assert(v == p) by (nonlinear_arith)
            requires
                v * one() == p * (one() - k) + q * k,
                k == 0,
                one() > 0,
        ;
    }
    if k == one() {
        assert(v == q) by (nonlinear_arith)
            requires
                v * one() == p * (one() - k) + q * k,
                k == one(),
                one() > 0,
        ;
    }
}

/// `int` drops the fraction of a number, `bool` tells whether it is zero, and
/// `float` keeps it.
pub proof fn conversions_of_numbers(u: Unit, x: u32)
    requires
        is_finite(x),
    ensures
        magnitude(x) < 0x4f00_0000 ==> (of_number(u, "int"@, x) matches Some(Value::Int(n)) && {
            &&& amount(x) >= 0 ==> n * one() <= amount(x) < (n + 1) * one()
            &&& amount(x) < 0 ==> (n - 1) * one() < amount(x) <= n * one()
        }),
        of_number(u, "bool"@, x) == Some(Value::Bool(amount(x) != 0)),
        gives(of_number(u, "float"@, x), amount(x)),
{
    lemma_named_int();
    lemma_named_bool();
    lemma_named_float();
    if magnitude(x) < 0x4f00_0000 {
        truncation_drops_the_fraction(x);
        lemma_fits(x);
    }
    constants_stand_for_numbers();
    patterns_order_as_numbers(0, x);
    assert(Value::Float(x).truth() == (magnitude(x) != 0));
}

/// A number of small magnitude has a whole part that fits.
proof fn lemma_fits(x: u32)
    ensures
        i32::MIN <= crate::float_bits::int_of_float(x) <= i32::MAX,
{
    let m = magnitude(x) as u32;
    assert(magnitude(m) == magnitude(x));
    crate::float_bits::lemma_nearest_sign(m);
}

// ---------------------------------------------------------------------------
// Vectors
// ---------------------------------------------------------------------------

/// A function of one number works on every component of a vector.
pub proof fn functions_of_one_work_by_component(u: Unit, b: Builtin, v: Value, i: int)
    requires
        b is Abs || b is Sign || b is Floor || b is Ceil || b is Fract || b is Sin || b is Cos
            || b is Tan || b is Asin || b is Acos || b is Exp || b is Exp2 || b is Log || b is Log2
            || b is Sqrt || b is InverseSqrt || b is Radians || b is Degrees,
        0 <= i < width_of(v),
    ensures
        builtin_value(u, b, seq![v]) is Some,
        width_of(builtin_value(u, b, seq![v])->0) == width_of(v),
        builtin_value(u, b, seq![Value::Float(v.comp(i))]) == Some(
            Value::Float(builtin_value(u, b, seq![v])->0.comp(i)),
        ),
{
    let c = Seq::new(v.comps().len(), |i: int| of_one(u, b, v.comps()[i]));
    lemma_vector(c);
    assert(mapped_one(u, b, v) == vector(c));
}

proof fn lemma_two(u: Unit, b: Builtin, p: Value, q: Value)
    requires
        b is Atan2 || b is Pow || b is Mod || b is Min || b is Max || b is Step,
    ensures
        builtin_value(u, b, seq![p, q]) == Some(mapped_two(u, b, p, q)),
{
}

proof fn lemma_three(u: Unit, b: Builtin, p: Value, q: Value, r: Value)
    requires
        b is Clamp || b is Mix || b is Smoothstep,
    ensures
        builtin_value(u, b, seq![p, q, r]) == Some(mapped_three(u, b, p, q, r)),
{
}

/// A function of two numbers works on every component of two vectors, and takes a
/// number for all components of a vector.
#[verifier::spinoff_prover]
#[verifier::rlimit(60)]
pub proof fn functions_of_two_work_by_component(u: Unit, b: Builtin, p: Value, q: Value, i: int)
    requires
        b is Atan2 || b is Pow || b is Mod || b is Min || b is Max || b is Step,
        0 < width_of(p) || 0 < width_of(q),
        width_of(p) == width_of(q) || p is Float || q is Float,
        0 <= i < width_of(p) || 0 <= i < width_of(q),
    ensures
        builtin_value(u, b, seq![p, q]) is Some,
        builtin_value(
            u,
            b,
            seq![
                Value::Float(
                    if p is Float {
                        p.scalar()
                    } else {
                        p.comp(i)
                    },
                ),
                Value::Float(
                    if q is Float {
                        q.scalar()
                    } else {
                        q.comp(i)
                    },
                ),
            ],
        ) == Some(Value::Float(builtin_value(u, b, seq![p, q])->0.comp(i))),
{
    let w = wider(width_of(p), width_of(q));
    let c = Seq::new(w as nat, |i: int| of_two(u, b, spread(p, w)[i], spread(q, w)[i]));
    lemma_vector(c);
    assert(mapped_two(u, b, p, q) == vector(c));
    let (x, y) = (spread(p, w)[i], spread(q, w)[i]);
    lemma_two(u, b, Value::Float(x), Value::Float(y));
    lemma_two(u, b, p, q);
}

/// A function of three numbers works on every component of vectors, and takes a
/// number for all components of a vector.
#[verifier::spinoff_prover]
#[verifier::rlimit(60)]
pub proof fn functions_of_three_work_by_component(
    u: Unit,
    b: Builtin,
    p: Value,
    q: Value,
    r: Value,
    i: int,
)
    requires
        b is Clamp || b is Mix || b is Smoothstep,
        0 <= i < width_of(p),
        width_of(q) == width_of(p) || q is Float,
        width_of(r) == width_of(p) || r is Float,
    ensures
        builtin_value(u, b, seq![p, q, r]) is Some,
        builtin_value(
            u,
            b,
            seq![
                Value::Float(p.comp(i)),
                Value::Float(
                    if q is Float {
                        q.scalar()
                    } else {
                        q.comp(i)
                    },
                ),
                Value::Float(
                    if r is Float {
                        r.scalar()
                    } else {
                        r.comp(i)
                    },
                ),
            ],
        ) == Some(Value::Float(builtin_value(u, b, seq![p, q, r])->0.comp(i))),
{
    let w = wider(wider(width_of(p), width_of(q)), width_of(r));
    let c = Seq::new(
        w as nat,
        |i: int| of_three(u, b, spread(p, w)[i], spread(q, w)[i], spread(r, w)[i]),
    );
    lemma_vector(c);
    assert(mapped_three(u, b, p, q, r) == vector(c));
    let (x, y, z) = (spread(p, w)[i], spread(q, w)[i], spread(r, w)[i]);
    lemma_three(u, b, Value::Float(x), Value::Float(y), Value::Float(z));
    lemma_three(u, b, p, q, r);
}

/// The sum of the products of numbers.
pub open spec fn true_dot(a: Seq<u32>, b: Seq<u32>, n: nat) -> int
    decreases n,
{
    if n == 0 {
        0
    } else {
        true_dot(a, b, (n - 1) as nat) + amount(a[n - 1]) * amount(b[n - 1])
    }
}

/// Whether floats stand for the sums of the first products.
pub open spec fn are_partial_sums(a: Seq<u32>, b: Seq<u32>, s: Seq<u32>, n: nat) -> bool {
    &&& s.len() > n
    &&& forall|k: nat|
        k <= n ==> is_finite(#[trigger] s[k as int]) && amount(s[k as int]) * one() == true_dot(
            a,
            b,
            k,
        )
}

proof fn lemma_dot(u: Unit, a: Seq<u32>, b: Seq<u32>, s: Seq<u32>, n: nat)
    requires
        exact(u.arith),
        n <= a.len(),
        n <= b.len(),
        forall|k: int| 0 <= k < n ==> is_finite(#[trigger] a[k]),
        forall|k: int| 0 <= k < n ==> is_finite(#[trigger] b[k]),
        are_partial_sums(a, b, s, n),
    ensures
        stands_for(dot_sum(u, a, b, n), amount(s[n as int])),
    decreases n,
{
    constants_stand_for_numbers();
    lemma_one();
    if n == 0 {
        let z = s[0];
        assert(amount(s[0nat as int]) * one() == true_dot(a, b, 0));
        assert(amount(z) == 0) by (nonlinear_arith)
            requires
                amount(z) * one() == 0,
                one() > 0,
        ;
    } else {
        let m = (n - 1) as nat;
        lemma_dot(u, a, b, s, m);
        let (x, y) = (a[n - 1], b[n - 1]);
        assert(amount(s[m as int]) * one() == true_dot(a, b, m));
        assert(amount(s[n as int]) * one() == true_dot(a, b, n));
        lemma_mul_add(u.arith, x, y, dot_sum(u, a, b, m), s[n as int]);
    }
}

/// `dot` gives the sum of the products of the components.
pub proof fn dot_products_of_vectors(u: Unit, p: Value, q: Value, s: Seq<u32>)
    requires
        exact(u.arith),
        0 < width_of(p) == width_of(q),
        forall|k: int| 0 <= k < width_of(p) ==> is_finite(#[trigger] p.comps()[k]),
        forall|k: int| 0 <= k < width_of(p) ==> is_finite(#[trigger] q.comps()[k]),
        are_partial_sums(p.comps(), q.comps(), s, width_of(p) as nat),
    ensures
        called_builtin(u, "dot"@, seq![p, q]) matches Some(Value::Float(x)) && is_finite(x)
            && amount(x) * one() == true_dot(p.comps(), q.comps(), width_of(p) as nat),
{
    lemma_named_dot();
    let w = width_of(p);
    let (a, b) = (spread(p, w), spread(q, w));
    let n = w as nat;
    assert(p.comps().len() == n && q.comps().len() == n);
    assert forall|k: int| 0 <= k < n implies is_finite(#[trigger] a[k]) && a[k] == p.comps()[k] by {
        assert(is_finite(p.comps()[k]));
    }
    assert forall|k: int| 0 <= k < n implies is_finite(#[trigger] b[k]) && b[k] == q.comps()[k] by {
        assert(is_finite(q.comps()[k]));
    }
    lemma_same_dot(a, b, p.comps(), q.comps(), n, n);
    assert forall|k: nat| k <= n implies is_finite(#[trigger] s[k as int]) && amount(s[k as int])
        * one() == true_dot(a, b, k) by {
        lemma_same_dot(a, b, p.comps(), q.comps(), n, k);
    }
    lemma_dot(u, a, b, s, n);
    assert(amount(s[n as int]) * one() == true_dot(a, b, n));
}

proof fn lemma_same_dot(a: Seq<u32>, b: Seq<u32>, c: Seq<u32>, d: Seq<u32>, n: nat, k: nat)
    requires
        k <= n,
        forall|i: int| 0 <= i < n ==> #[trigger] a[i] == c[i],
        forall|i: int| 0 <= i < n ==> #[trigger] b[i] == d[i],
    ensures
        true_dot(a, b, k) == true_dot(c, d, k),
    decreases k,
{
    if k > 0 {
        lemma_same_dot(a, b, c, d, n, (k - 1) as nat);
        assert(a[k - 1] == c[k - 1] && b[k - 1] == d[k - 1]);
    }
}

/// `cross` gives a vector whose components are the minors of the two vectors, in
/// turn: of the first and second axis it is the third.
pub proof fn cross_products_of_axes(u: Unit, p: Value, q: Value, i: int, j: int, k: int)
    requires
        exact(u.arith),
        width_of(p) == 3,
        width_of(q) == 3,
        (i, j, k) == (0int, 1int, 2int) || (i, j, k) == (1int, 2int, 0int) || (i, j, k) == (
            2int,
            0int,
            1int,
        ),
        crate::value_laws::is_single_one(p.comps(), i, 3),
        crate::value_laws::is_single_one(q.comps(), j, 3),
    ensures
        called_builtin(u, "cross"@, seq![p, q]) matches Some(c) && width_of(c) == 3
            && crate::value_laws::is_single_one(c.comps(), k, 3),
{
    lemma_named_cross();
    constants_stand_for_numbers();
    lemma_one();
    let (a, b) = (p.as_vector(3), q.as_vector(3));
    let (c, d) = (p.comps(), q.comps());
    assert(c.len() == 3 && d.len() == 3);
    assert(a =~= c && b =~= d);
    assert(is_finite(c[0]) && is_finite(c[1]) && is_finite(c[2]));
    assert(is_finite(d[0]) && is_finite(d[1]) && is_finite(d[2]));
    lemma_minor(u, c[1], d[2], c[2], d[1]);
    lemma_minor(u, c[2], d[0], c[0], d[2]);
    lemma_minor(u, c[0], d[1], c[1], d[0]);
    let r = seq![
        crate::builtins::minor(u, a[1], b[2], a[2], b[1]),
        crate::builtins::minor(u, a[2], b[0], a[0], b[2]),
        crate::builtins::minor(u, a[0], b[1], a[1], b[0]),
    ];
    lemma_vector(r);
    assert(called_builtin(u, "cross"@, seq![p, q]) == Some(vector(r)));
}

/// The difference of two products of zeros and ones, of which one is zero.
proof fn lemma_minor(u: Unit, a: u32, b: u32, c: u32, d: u32)
    requires
        exact(u.arith),
        is_finite(a),
        is_finite(b),
        is_finite(c),
        is_finite(d),
        amount(a) == 0 || amount(a) == one(),
        amount(b) == 0 || amount(b) == one(),
        amount(c) == 0 || amount(c) == one(),
        amount(d) == 0 || amount(d) == one(),
    ensures
        stands_for(
            crate::builtins::minor(u, a, b, c, d),
            (if amount(a) == one() && amount(b) == one() {
                one()
            } else {
                0
            }) - (if amount(c) == one() && amount(d) == one() {
                one()
            } else {
                0
            }),
        ),
{
    constants_stand_for_numbers();
    lemma_one();
    negation_is_opposite(ONE);
    let x: u32 = if amount(c) == one() && amount(d) == one() {
        ONE
    } else {
        0
    };
    let y: u32 = if amount(a) == one() && amount(b) == one() {
        ONE
    } else {
        0
    };
    assert(amount(x) * one() == amount(c) * amount(d)) by (nonlinear_arith)
        requires
            amount(c) == 0 || amount(c) == one(),
            amount(d) == 0 || amount(d) == one(),
            amount(x) == if amount(c) == one() && amount(d) == one() {
                one()
            } else {
                0
            },
    ;
    lemma_mul(u.arith, c, d, x);
    let m = (u.arith)(FloatOp::Mul, c, d, 0);
    negation_is_opposite(m);
    let z: u32 = if amount(y) == amount(x) {
        0
    } else if amount(x) == 0 {
        ONE
    } else {
        negated(ONE)
    };
    assert(amount(z) * one() == amount(a) * amount(b) + amount(negated(m)) * one())
        by (nonlinear_arith)
        requires
            amount(a) == 0 || amount(a) == one(),
            amount(b) == 0 || amount(b) == one(),
            amount(negated(m)) == -amount(x),
            amount(y) == if amount(a) == one() && amount(b) == one() {
                one()
            } else {
                0
            },
            amount(z) == amount(y) - amount(x),
    ;
    lemma_mul_add(u.arith, a, b, negated(m), z);
}

proof fn lemma_squares(u: Unit, c: Seq<u32>, s: Seq<u32>, q: Seq<u32>, n: nat)
    requires
        exact(u.arith),
        n <= c.len(),
        n <= q.len(),
        forall|k: int| 0 <= k < n ==> is_finite(#[trigger] c[k]),
        are_squares(c, q, n),
        are_partial_sums(c, c, s, n),
    ensures
        stands_for(square_sum(u, c, n), amount(s[n as int])),
    decreases n,
{
    constants_stand_for_numbers();
    lemma_one();
    if n == 0 {
        let z = s[0];
        assert(amount(s[0nat as int]) * one() == true_dot(c, c, 0));
        assert(amount(z) == 0) by (nonlinear_arith)
            requires
                amount(z) * one() == 0,
                one() > 0,
        ;
    } else {
        let m = (n - 1) as nat;
        lemma_squares(u, c, s, q, m);
        let x = c[n - 1];
        let y = q[n - 1];
        assert(is_finite(y));
        lemma_mul(u.arith, x, x, y);
        let (a, b, d) = (amount(s[m as int]), amount(s[n as int]), amount(y));
        assert(a * one() == true_dot(c, c, m));
        assert(b * one() == true_dot(c, c, n));
        assert(b == a + d) by (nonlinear_arith)
            requires
                b * one() == a * one() + d * one(),
                one() > 0,
        ;
        lemma_add(
            u.arith,
            square_sum(u, c, m),
            (u.arith)(FloatOp::Mul, x, x, 0),
            s[n as int],
        );
    }
}

/// Whether floats stand for the squares of others.
pub open spec fn are_squares(c: Seq<u32>, q: Seq<u32>, n: nat) -> bool {
    &&& q.len() >= n
    &&& forall|k: int|
        0 <= k < n ==> is_finite(#[trigger] q[k]) && amount(q[k]) * one() == amount(c[k]) * amount(
            c[k],
        )
}

/// `length` gives the root of the sum of the squares of the components, and
/// `normalize` the vector of that direction and of length one. The floats `q` and
/// `s` stand for the squares and their sums.
pub proof fn lengths_of_vectors(
    u: Unit,
    v: Value,
    q: Seq<u32>,
    s: Seq<u32>,
    r: u32,
    i: int,
    d: u32,
)
    requires
        exact(u.arith),
        0 <= i < width_of(v),
        forall|k: int| 0 <= k < width_of(v) ==> is_finite(#[trigger] v.comps()[k]),
        are_squares(v.comps(), q, width_of(v) as nat),
        are_partial_sums(v.comps(), v.comps(), s, width_of(v) as nat),
        is_finite(r),
        amount(r) > 0,
        amount(r) * amount(r) == true_dot(v.comps(), v.comps(), width_of(v) as nat),
        is_finite(d),
        amount(d) * amount(r) == amount(v.comp(i)) * one(),
    ensures
        gives(called_builtin(u, "length"@, seq![v]), amount(r)),
        called_builtin(u, "normalize"@, seq![v]) matches Some(x) && width_of(x) == width_of(v)
            && stands_for(x.comp(i), amount(d)),
{
    lemma_named_length();
    lemma_named_normalize();
    constants_stand_for_numbers();
    let w = width_of(v);
    let n = w as nat;
    let c = spread(v, w);
    assert(v.comps().len() == n);
    assert forall|k: int| 0 <= k < n implies is_finite(#[trigger] c[k]) && c[k] == v.comps()[k] by {
        assert(is_finite(v.comps()[k]));
    }
    assert forall|k: nat| k <= n implies is_finite(#[trigger] s[k as int]) && amount(s[k as int])
        * one() == true_dot(c, c, k) by {
        lemma_same_dot(c, c, v.comps(), v.comps(), n, k);
    }
    assert(are_squares(c, q, n)) by {
        assert forall|k: int| 0 <= k < n implies is_finite(#[trigger] q[k]) && amount(q[k]) * one()
            == amount(c[k]) * amount(c[k]) by {
            assert(c[k] == v.comps()[k]);
        }
    }
    lemma_squares(u, c, s, q, n);
    lemma_same_dot(c, c, v.comps(), v.comps(), n, n);
    assert(amount(s[n as int]) * one() == true_dot(c, c, n));
    let sum = square_sum(u, c, n);
    lemma_sqrt(u.arith, sum, r);
    let len = (u.arith)(FloatOp::Sqrt, sum, 0, 0);
    patterns_order_as_numbers(0, len);
    let parts = Seq::new(
        n,
        |i: int|
            if float_lt(0, len) {
                (u.arith)(FloatOp::Div, spread(v, w)[i], len, 0)
            } else {
                0
            },
    );
    lemma_vector(parts);
    crate::exact::lemma_div(u.arith, c[i], len, d);
    assert(called_builtin(u, "normalize"@, seq![v]) == Some(vector(parts)));
}

/// `distance` gives the length of the difference.
pub proof fn distances_are_lengths(u: Unit, p: Value, q: Value)
    ensures
        called_builtin(u, "distance"@, seq![p, q]) == called_builtin(
            u,
            "length"@,
            seq![crate::arith::binary_value(u, crate::sksl::ast::BinaryOp::Sub, p, q)->0],
        ),
{
    lemma_named_distance();
    lemma_named_length();
}

/// `smoothstep` is zero up to the first edge and one from the second on, and
/// halfway between the edges it is a half. The floats `d`, `e` and `r` stand for the
/// distances and their ratio.
pub proof fn smooth_steps_between_edges(u: Unit, a: u32, b: u32, x: u32, d: u32, e: u32, r: u32)
    requires
        exact(u.arith),
        is_finite(a) && is_finite(b) && is_finite(x),
        is_finite(d) && is_finite(e) && is_finite(r),
        amount(a) < amount(b),
        amount(d) == amount(x) - amount(a),
        amount(e) == amount(b) - amount(a),
        amount(r) * amount(e) == amount(d) * one(),
    ensures
        amount(x) <= amount(a) ==> gives(of_triples(u, "smoothstep"@, a, b, x), 0),
        amount(x) >= amount(b) ==> gives(of_triples(u, "smoothstep"@, a, b, x), one()),
        2 * amount(x) == amount(a) + amount(b) ==> gives(
            of_triples(u, "smoothstep"@, a, b, x),
            amount(0x3f00_0000),
        ),
{
    lemma_named_smoothstep();
    constants_stand_for_numbers();
    crate::exact::fractions_stand_for_numbers();
    lemma_one();
    let f = u.arith;
    lemma_sub(f, x, a, d);
    lemma_sub(f, b, a, e);
    let y = f(FloatOp::Sub, x, a, 0);
    let z = f(FloatOp::Sub, b, a, 0);
    crate::exact::lemma_div(f, y, z, r);
    let w = f(FloatOp::Div, y, z, 0);
    patterns_order_as_numbers(w, 0);
    patterns_order_as_numbers(ONE, w);
    let t = held(w);
    let (vr, vd, ve) = (amount(r), amount(d), amount(e));
    assert(vd <= 0 ==> vr <= 0) by (nonlinear_arith)
        requires
            vr * ve == vd * one(),
            ve > 0,
            one() > 0,
    ;
    assert(vd >= ve ==> vr >= one()) by (nonlinear_arith)
        requires
            vr * ve == vd * one(),
            ve > 0,
            one() > 0,
    ;
    assert(2 * vd == ve ==> 2 * vr == one()) by (nonlinear_arith)
        requires
            vr * ve == vd * one(),
            ve > 0,
            one() > 0,
    ;
    negation_is_opposite(t);
    let (k, m, o): (u32, u32, u32) = if vd <= 0 {
        (0, 0x4040_0000, 0)
    } else if vd >= ve {
        (ONE, ONE, ONE)
    } else {
        (0x3e80_0000, 0x4000_0000, 0x3f00_0000)
    };
    if vd <= 0 || vd >= ve || 2 * vd == ve {
        let (vt, vk, vm, vo) = (amount(t), amount(k), amount(m), amount(o));
        assert(vk * one() == vt * vt) by (nonlinear_arith)
            requires
                (vt == 0 && vk == 0) || (vt == one() && vk == one()) || (2 * vt == one() && 4 * vk
                    == one()),
        ;
        lemma_mul(f, t, t, k);
        let sq = f(FloatOp::Mul, t, t, 0);
        let two: u32 = 0x4000_0000;
        let three: u32 = 0x4040_0000;
        assert(vm * one() == amount(two) * amount(negated(t)) + amount(three) * one())
            by (nonlinear_arith)
            requires
                amount(two) == 2 * one(),
                amount(three) == 3 * one(),
                amount(negated(t)) == -vt,
                vm == 3 * one() - 2 * vt,
        ;
        lemma_mul_add(f, two, negated(t), three, m);
        let g = f(FloatOp::MulAdd, two, negated(t), three);
        assert(vo * one() == vk * vm) by (nonlinear_arith)
            requires
                (vk == 0 && vo == 0) || (vk == one() && vm == one() && vo == one()) || (4 * vk
                    == one() && vm == 2 * one() && 2 * vo == one()),
        ;
        lemma_mul(f, sq, g, o);
    }
}

} // verus!
