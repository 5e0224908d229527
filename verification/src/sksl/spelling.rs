//! The tokens of emitted text.
//!
//! What the emitter writes is lexed into the tokens that one expects of the
//! expression or statement it was written for.

use vstd::prelude::*;

use crate::sksl::ast::{BinaryOp, SkslType, UnaryOp};
use crate::sksl::emit::{
    Dialect, args_text, expr_text, float_text, function_text, params_text, step_text, stmt_text,
    stmts_text,
};
use crate::sksl::grammar::{is_reserved, type_of_word};
use crate::sksl::lex::{
    Punct, Step, TokenView, at, digit_value, digits_end, digits_value, exponent_at, is_digit,
    is_word_char, is_word_start, lexed, punct_at, scaled, step_at, strip_leading_zeros,
    strip_trailing_zeros, word_end, zeros,
};
use crate::sksl::model::{ExprModel, FnModel, StmtModel};
use crate::text::{
    digit_char, int_text, is_white, lemma_trim_end, lemma_trim_start, nat_text, trimmed,
};

verus! {

// ---------------------------------------------------------------------------
// Pieces of a text
// ---------------------------------------------------------------------------

/// Whether a sequence has another one at a place.
pub open spec fn stands<T>(s: Seq<T>, i: int, t: Seq<T>) -> bool {
    &&& 0 <= i
    &&& i + t.len() <= s.len()
    &&& forall|k: int| 0 <= k < t.len() ==> s[i + k] == #[trigger] t[k]
}

/// Tokens in front of others, or in front of an error.
pub open spec fn prepended(
    ts: Seq<TokenView>,
    r: Result<Seq<TokenView>, int>,
) -> Result<Seq<TokenView>, int> {
    match r {
        Ok(rest) => Ok(ts + rest),
        Err(e) => Err(e),
    }
}

/// Whether a text spells the given tokens between two places.
#[verifier::opaque]
pub open spec fn spells(s: Seq<char>, i: int, j: int, ts: Seq<TokenView>) -> bool {
    lexed(s, i) == prepended(ts, lexed(s, j))
}

proof fn lemma_spells_join(
    s: Seq<char>,
    i: int,
    j: int,
    k: int,
    a: Seq<TokenView>,
    b: Seq<TokenView>,
)
    requires
        spells(s, i, j, a),
        spells(s, j, k, b),
    ensures
        spells(s, i, k, a + b),
{
    reveal(spells);
    match lexed(s, k) {
        Ok(rest) => {
            assert(a + (b + rest) =~= (a + b) + rest);
        },
        Err(_) => {},
    }
}

pub(crate) proof fn lemma_stands_split<T>(s: Seq<T>, i: int, a: Seq<T>, b: Seq<T>)
    requires
        stands(s, i, a + b),
    ensures
        stands(s, i, a),
        stands(s, i + a.len(), b),
{
    let t = a + b;
    assert forall|k: int| 0 <= k < a.len() implies s[i + k] == #[trigger] a[k] by {
        assert(t[k] == a[k]);
    }
    assert forall|k: int| 0 <= k < b.len() implies s[i + a.len() + k] == #[trigger] b[k] by {
        assert(t[a.len() + k] == b[k]);
    }
}

proof fn lemma_white(s: Seq<char>, i: int)
    requires
        0 <= i < s.len(),
        is_white(s[i]),
    ensures
        spells(s, i, i + 1, Seq::empty()),
{
    reveal(spells);
    match lexed(s, i + 1) {
        Ok(rest) => {
            assert(Seq::<TokenView>::empty() + rest =~= rest);
        },
        Err(_) => {},
    }
}

/// White space spells nothing.
proof fn lemma_whites(s: Seq<char>, i: int, t: Seq<char>)
    requires
        stands(s, i, t),
        forall|k: int| 0 <= k < t.len() ==> is_white(#[trigger] t[k]),
    ensures
        spells(s, i, i + t.len(), Seq::empty()),
    decreases t.len(),
{
    reveal(spells);
    if t.len() == 0 {
        match lexed(s, i) {
            Ok(rest) => {
                assert(Seq::<TokenView>::empty() + rest =~= rest);
            },
            Err(_) => {},
        }
    } else {
        let a = t.drop_last();
        let n = a.len() as int;
        assert(t[n] == s[i + n]);
        assert forall|k: int| 0 <= k < a.len() implies s[i + k] == #[trigger] a[k] by {
            assert(t[k] == a[k]);
        }
        assert forall|k: int| 0 <= k < a.len() implies is_white(#[trigger] a[k]) by {
            assert(t[k] == a[k]);
        }
        lemma_whites(s, i, a);
        lemma_white(s, i + n);
        lemma_spells_join(s, i, i + n, i + n + 1, Seq::empty(), Seq::empty());
        assert(Seq::<TokenView>::empty() + Seq::<TokenView>::empty() =~= Seq::empty());
    }
}

proof fn lemma_token(s: Seq<char>, i: int, t: TokenView, j: int)
    requires
        step_at(s, i) == Step::Tok(t, j),
        i < j <= s.len(),
    ensures
        spells(s, i, j, seq![t]),
{
    reveal(spells);
}

/// Punctuation of one character that never grows into a longer one.
spec fn lone(c: char) -> Option<Punct> {
    if c == '(' {
        Some(Punct::LParen)
    } else if c == ')' {
        Some(Punct::RParen)
    } else if c == '{' {
        Some(Punct::LBrace)
    } else if c == '}' {
        Some(Punct::RBrace)
    } else if c == '[' {
        Some(Punct::LBracket)
    } else if c == ']' {
        Some(Punct::RBracket)
    } else if c == ';' {
        Some(Punct::Semi)
    } else if c == ',' {
        Some(Punct::Comma)
    } else if c == '?' {
        Some(Punct::Question)
    } else if c == ':' {
        Some(Punct::Colon)
    } else if c == '~' {
        Some(Punct::Tilde)
    } else {
        None
    }
}

proof fn lemma_lone(s: Seq<char>, i: int)
    requires
        0 <= i < s.len(),
        lone(s[i]) is Some,
    ensures
        spells(s, i, i + 1, seq![TokenView::Punct(lone(s[i])->0)]),
{
    let p = lone(s[i])->0;
    assert(punct_at(s, i) == Some((p, 1int)));
    lemma_token(s, i, TokenView::Punct(p), i + 1);
}

/// The tokens of a text of white space and lone punctuation.
spec fn lone_tokens(t: Seq<char>) -> Seq<TokenView>
    decreases t.len(),
{
    if t.len() == 0 {
        Seq::empty()
    } else {
        let before = lone_tokens(t.drop_last());
        match lone(t.last()) {
            Some(p) => before.push(TokenView::Punct(p)),
            None => before,
        }
    }
}

proof fn lemma_lones(s: Seq<char>, i: int, t: Seq<char>)
    requires
        stands(s, i, t),
        forall|k: int| 0 <= k < t.len() ==> is_white(#[trigger] t[k]) || lone(t[k]) is Some,
    ensures
        spells(s, i, i + t.len(), lone_tokens(t)),
    decreases t.len(),
{
    if t.len() == 0 {
        lemma_whites(s, i, t);
    } else {
        let a = t.drop_last();
        let n = a.len() as int;
        let c = t.last();
        assert(t[n] == s[i + n]);
        assert forall|k: int| 0 <= k < a.len() implies s[i + k] == #[trigger] a[k] by {
            assert(t[k] == a[k]);
        }
        assert forall|k: int| 0 <= k < a.len() implies is_white(#[trigger] a[k]) || lone(a[k])
            is Some by {
            assert(t[k] == a[k]);
        }
        lemma_lones(s, i, a);
        if lone(c) is Some {
            lemma_lone(s, i + n);
            let b = seq![TokenView::Punct(lone(c)->0)];
            lemma_spells_join(s, i, i + n, i + n + 1, lone_tokens(a), b);
            assert(lone_tokens(a) + b =~= lone_tokens(t));
        } else {
            lemma_white(s, i + n);
            lemma_spells_join(s, i, i + n, i + n + 1, lone_tokens(a), Seq::empty());
            assert(lone_tokens(a) + Seq::empty() =~= lone_tokens(t));
        }
    }
}

// ---------------------------------------------------------------------------
// Words and numbers
// ---------------------------------------------------------------------------

/// Whether a text is a word of the language.
pub open spec fn is_spelled_word(w: Seq<char>) -> bool {
    &&& w.len() > 0
    &&& is_word_start(w[0])
    &&& forall|k: int| 0 <= k < w.len() ==> is_word_char(#[trigger] w[k])
}

/// Whether a text names a variable or a function.
pub open spec fn is_name(w: Seq<char>) -> bool {
    is_spelled_word(w) && !is_reserved(w)
}

/// Whether no word goes on at a place.
pub open spec fn word_ends(s: Seq<char>, j: int) -> bool {
    j >= s.len() || !is_word_char(s[j])
}

proof fn lemma_word_end(s: Seq<char>, i: int, j: int)
    requires
        0 <= i <= j <= s.len(),
        forall|k: int| i <= k < j ==> is_word_char(#[trigger] s[k]),
        word_ends(s, j),
    ensures
        word_end(s, i) == j,
    decreases j - i,
{
    if i < j {
        lemma_word_end(s, i + 1, j);
    }
}

proof fn lemma_word(s: Seq<char>, i: int, w: Seq<char>)
    requires
        stands(s, i, w),
        is_spelled_word(w),
        word_ends(s, i + w.len()),
    ensures
        spells(s, i, i + w.len(), seq![TokenView::Word(w)]),
{
    let j = i + w.len();
    assert(s[i + 0] == w[0]);
    assert forall|k: int| i <= k < j implies is_word_char(#[trigger] s[k]) by {
        assert(s[i + (k - i)] == w[k - i]);
    }
    lemma_word_end(s, i, j);
    assert forall|k: int| 0 <= k < w.len() implies s.subrange(i, j)[k] == w[k] by {
        assert(s[i + k] == w[k]);
    }
    assert(s.subrange(i, j) =~= w);
    lemma_token(s, i, TokenView::Word(w), j);
}

proof fn lemma_digits_end(s: Seq<char>, i: int, j: int)
    requires
        0 <= i <= j <= s.len(),
        forall|k: int| i <= k < j ==> is_digit(#[trigger] s[k]),
        j >= s.len() || !is_digit(s[j]),
    ensures
        digits_end(s, i) == j,
    decreases j - i,
{
    if i < j {
        lemma_digits_end(s, i + 1, j);
    }
}

/// Whether a text consists of digits.
spec fn all_digits(t: Seq<char>) -> bool {
    forall|k: int| 0 <= k < t.len() ==> is_digit(#[trigger] t[k])
}

proof fn lemma_digit(d: int)
    requires
        0 <= d < 10,
    ensures
        is_digit(digit_char(d)),
        digit_value(digit_char(d)) == d,
{
}

/// The digits of a number spell it.
proof fn lemma_nat_text(n: nat)
    ensures
        all_digits(nat_text(n)),
        nat_text(n).len() > 0,
        digits_value(nat_text(n)) == n,
    decreases n,
{
    reveal_with_fuel(digits_value, 2);
    if n < 10 {
        lemma_digit(n as int);
        assert(nat_text(n).drop_last() =~= Seq::empty());
    } else {
        lemma_nat_text(n / 10);
        lemma_digit((n % 10) as int);
        let t = nat_text(n);
        assert(t.drop_last() =~= nat_text(n / 10));
        assert(t.last() == digit_char((n % 10) as int));
    }
}

proof fn lemma_int(s: Seq<char>, i: int, n: int)
    requires
        0 <= n <= i32::MAX,
        stands(s, i, int_text(n)),
        word_ends(s, i + int_text(n).len()),
        !at(s, i + int_text(n).len(), '.'),
    ensures
        spells(s, i, i + int_text(n).len(), seq![TokenView::Int(n)]),
{
    let t = int_text(n);
    lemma_nat_text(n as nat);
    let j = i + t.len();
    assert(s[i + 0] == t[0]);
    assert forall|k: int| i <= k < j implies is_digit(#[trigger] s[k]) by {
        assert(s[i + (k - i)] == t[k - i]);
    }
    lemma_digits_end(s, i, j);
    assert(s.subrange(i, j) =~= t);
    assert(exponent_at(s, j) == Some((j, 0int)));
    lemma_token(s, i, TokenView::Int(n), j);
}

/// Whether a text is a decimal number in its plain form: no superfluous zeros,
/// and a point only before a fraction.
pub open spec fn is_plain_decimal(t: Seq<char>) -> bool {
    exists|w: Seq<char>, f: Seq<char>| #[trigger] spelled_decimal(t, w, f)
}

/// Whether a text is the decimal number of the given digits before and behind
/// the point.
pub open spec fn spelled_decimal(t: Seq<char>, w: Seq<char>, f: Seq<char>) -> bool {
    &&& w.len() > 0
    &&& forall|k: int| 0 <= k < w.len() ==> is_digit(#[trigger] w[k])
    &&& forall|k: int| 0 <= k < f.len() ==> is_digit(#[trigger] f[k])
    &&& w.len() > 1 ==> w[0] != '0'
    &&& f.len() > 0 ==> f.last() != '0'
    &&& t == if f.len() == 0 {
        w
    } else {
        w.push('.') + f
    }
}

proof fn lemma_float_value(w: Seq<char>, f: Seq<char>, g: Seq<char>)
    requires
        w.len() > 0,
        w.len() > 1 ==> w[0] != '0',
        f.len() > 0 ==> f.last() != '0' && g == f,
        f.len() == 0 ==> g == seq!['0'],
    ensures
        scaled(w, g, 0) == if f.len() == 0 {
            w
        } else {
            w.push('.') + f
        },
{
    reveal_with_fuel(strip_leading_zeros, 3);
    reveal_with_fuel(strip_trailing_zeros, 3);
    assert(zeros(0 - g.len()) =~= Seq::empty());
    let padded = g + zeros(0 - g.len());
    assert(padded =~= g);
    assert(w + padded.take(0) =~= w);
    assert(padded.skip(0) =~= g);
    if w.len() == 1 && w[0] == '0' {
        assert(w =~= seq!['0']);
        assert(w.skip(1) =~= Seq::empty());
    }
    if f.len() == 0 {
        assert(g.drop_last() =~= Seq::empty());
    }
}

proof fn lemma_float(s: Seq<char>, i: int, t: Seq<char>)
    requires
        is_plain_decimal(t),
        stands(s, i, float_text(t)),
        word_ends(s, i + float_text(t).len()),
    ensures
        spells(s, i, i + float_text(t).len(), seq![TokenView::Float(t)]),
{
    let (w, f) = choose|w: Seq<char>, f: Seq<char>| #[trigger] spelled_decimal(t, w, f);
    let g = if f.len() == 0 {
        seq!['0']
    } else {
        f
    };
    let text = float_text(t);
    let whole = w.push('.') + g;
    reveal_strlit(".0");
    if f.len() == 0 {
        assert(!t.contains('.')) by {
            if t.contains('.') {
                let k = choose|k: int| 0 <= k < t.len() && t[k] == '.';
                assert(is_digit(w[k]));
            }
        }
        assert(text =~= whole);
    } else {
        assert(t[w.len() as int] == '.');
        assert(text =~= whole);
    }
    let p = i + w.len();
    let j = i + text.len();
    assert forall|k: int| i <= k < p implies is_digit(#[trigger] s[k]) by {
        assert(s[i + (k - i)] == whole[k - i]);
        assert(whole[k - i] == w[k - i]);
    }
    assert(s[i + w.len()] == whole[w.len() as int]);
    assert(s[p] == '.');
    assert forall|k: int| p < k < j implies is_digit(#[trigger] s[k]) by {
        assert(s[i + (k - i)] == whole[k - i]);
        assert(whole[k - i] == g[k - p - 1]);
    }
    lemma_digits_end(s, i, p);
    lemma_digits_end(s, p + 1, j);
    assert(is_digit(s[i]));
    assert(s.subrange(i, p) =~= w) by {
        assert forall|k: int| 0 <= k < w.len() implies s[i + k] == w[k] by {
            assert(whole[k] == w[k]);
        }
    }
    assert(s.subrange(p + 1, j) =~= g) by {
        assert forall|k: int| 0 <= k < g.len() implies s[p + 1 + k] == g[k] by {
            assert(s[i + (w.len() + 1 + k)] == whole[w.len() + 1 + k]);
            assert(whole[w.len() + 1 + k] == g[k]);
        }
    }
    assert(exponent_at(s, j) == Some((j, 0int)));
    lemma_float_value(w, f, g);
    lemma_token(s, i, TokenView::Float(t), j);
}

// ---------------------------------------------------------------------------
// Expressions
// ---------------------------------------------------------------------------

/// Whether an operator has an assigning form.
pub open spec fn is_assignable(op: BinaryOp) -> bool {
    ||| op is Add
    ||| op is Sub
    ||| op is Mul
    ||| op is Div
    ||| op is Mod
    ||| op is BitAnd
    ||| op is BitOr
    ||| op is BitXor
    ||| op is Shl
    ||| op is Shr
}

/// Whether a point may follow an expression.
pub open spec fn takes_access(e: ExprModel) -> bool {
    !(e is IntLit) && !(e is PreIncDec)
}

/// Whether an expression can be written down and read back: its names are names,
/// its literals are in their plain form, its types have a name of their own in
/// the target language, and no two operators run together.
pub open spec fn plain_expr(d: Dialect, e: ExprModel) -> bool
    decreases e,
{
    match e {
        ExprModel::IntLit(n) => 0 <= n <= i32::MAX,
        ExprModel::FloatLit(t) => is_plain_decimal(t),
        ExprModel::BoolLit(_) => true,
        ExprModel::Var(name) => is_name(name),
        ExprModel::Binary(l, _, r) => plain_expr(d, *l) && plain_expr(d, *r),
        ExprModel::Unary(op, x) => plain_expr(d, *x) && !(op is Neg && *x is PreIncDec),
        ExprModel::Call(name, args) => is_name(name) && forall|i: int|
            0 <= i < args.len() ==> plain_expr(d, #[trigger] args[i]),
        ExprModel::MethodCall(_, _, _) => false,
        ExprModel::Constructor(ty, args) => is_plain_type(d, ty) && forall|i: int|
            0 <= i < args.len() ==> plain_expr(d, #[trigger] args[i]),
        ExprModel::Field(x, field) => plain_expr(d, *x) && is_name(field) && takes_access(*x),
        ExprModel::Index(x, i) => plain_expr(d, *x) && plain_expr(d, *i) && takes_access(*x),
        ExprModel::Ternary(c, a, b) => plain_expr(d, *c) && plain_expr(d, *a) && plain_expr(d, *b),
        ExprModel::Assign(t, v) => plain_expr(d, *t) && plain_expr(d, *v),
        ExprModel::CompoundAssign(t, op, v) => plain_expr(d, *t) && plain_expr(d, *v)
            && is_assignable(op),
        ExprModel::PostIncDec(x, _) => plain_expr(d, *x) && takes_access(*x),
        ExprModel::PreIncDec(x, _) => plain_expr(d, *x),
    }
}

/// Whether a type is known by its name in the target language.
pub open spec fn is_plain_type(d: Dialect, ty: SkslType) -> bool {
    is_spelled_word(d.type_text(ty)) && type_of_word(d.type_text(ty)) == Some(ty)
}

/// One mark.
pub open spec fn mark(p: Punct) -> Seq<TokenView> {
    seq![TokenView::Punct(p)]
}

/// One word.
pub open spec fn word(w: Seq<char>) -> Seq<TokenView> {
    seq![TokenView::Word(w)]
}

/// The mark of a step.
pub open spec fn step_punct(inc: bool) -> Punct {
    if inc {
        Punct::Inc
    } else {
        Punct::Dec
    }
}

/// The mark of a prefix operator.
pub open spec fn unary_punct(op: UnaryOp) -> Punct {
    match op {
        UnaryOp::Neg => Punct::Op(BinaryOp::Sub),
        UnaryOp::Not => Punct::Bang,
        UnaryOp::BitNot => Punct::Tilde,
    }
}

/// The tokens of an expression.
pub open spec fn expr_tokens(d: Dialect, e: ExprModel) -> Seq<TokenView>
    decreases e, 0nat,
{
    match e {
        ExprModel::IntLit(n) => seq![TokenView::Int(n)],
        ExprModel::FloatLit(t) => seq![TokenView::Float(t)],
        ExprModel::BoolLit(b) => word(
            if b {
                "true"@
            } else {
                "false"@
            },
        ),
        ExprModel::Var(name) => word(name),
        ExprModel::Binary(l, op, r) => mark(Punct::LParen) + expr_tokens(d, *l) + mark(
            Punct::Op(op),
        ) + expr_tokens(d, *r) + mark(Punct::RParen),
        ExprModel::Unary(op, x) => mark(Punct::LParen) + mark(unary_punct(op)) + expr_tokens(d, *x)
            + mark(Punct::RParen),
        ExprModel::Call(name, args) => word(name) + mark(Punct::LParen) + args_tokens(
            d,
            args,
            args.len(),
        ) + mark(Punct::RParen),
        ExprModel::MethodCall(_, _, _) => Seq::empty(),
        ExprModel::Constructor(ty, args) => word(d.type_text(ty)) + mark(Punct::LParen)
            + args_tokens(d, args, args.len()) + mark(Punct::RParen),
        ExprModel::Field(x, field) => expr_tokens(d, *x) + mark(Punct::Dot) + word(field),
        ExprModel::Index(x, i) => expr_tokens(d, *x) + mark(Punct::LBracket) + expr_tokens(d, *i)
            + mark(Punct::RBracket),
        ExprModel::Ternary(c, a, b) => mark(Punct::LParen) + expr_tokens(d, *c) + mark(
            Punct::Question,
        ) + expr_tokens(d, *a) + mark(Punct::Colon) + expr_tokens(d, *b) + mark(Punct::RParen),
        ExprModel::Assign(t, v) => mark(Punct::LParen) + expr_tokens(d, *t) + mark(Punct::Assign)
            + expr_tokens(d, *v) + mark(Punct::RParen),
        ExprModel::CompoundAssign(t, op, v) => mark(Punct::LParen) + expr_tokens(d, *t) + mark(
            Punct::OpAssign(op),
        ) + expr_tokens(d, *v) + mark(Punct::RParen),
        ExprModel::PostIncDec(x, inc) => expr_tokens(d, *x) + mark(step_punct(inc)),
        ExprModel::PreIncDec(x, inc) => mark(step_punct(inc)) + expr_tokens(d, *x),
    }
}

/// The tokens of the first `n` arguments.
pub open spec fn args_tokens(d: Dialect, args: Seq<ExprModel>, n: nat) -> Seq<TokenView>
    decreases args, n,
{
    if n == 0 || n > args.len() {
        Seq::empty()
    } else if n == 1 {
        expr_tokens(d, args[0])
    } else {
        args_tokens(d, args, (n - 1) as nat) + mark(Punct::Comma) + expr_tokens(d, args[n - 1])
    }
}

/// Whether an expression is over at a place.
pub open spec fn expr_ends(s: Seq<char>, j: int, e: ExprModel) -> bool {
    word_ends(s, j) && (at(s, j, '.') ==> takes_access(e))
}

proof fn lemma_punct(s: Seq<char>, i: int, p: Punct, n: int)
    requires
        0 <= i < s.len(),
        !is_white(s[i]),
        !is_word_start(s[i]),
        !is_digit(s[i]),
        s[i] == '/' ==> !at(s, i + 1, '/') && !at(s, i + 1, '*'),
        s[i] == '.' ==> !(i + 1 < s.len() && is_digit(s[i + 1])),
        punct_at(s, i) == Some((p, n)),
        0 < n,
        i + n <= s.len(),
    ensures
        spells(s, i, i + n, mark(p)),
{
    lemma_token(s, i, TokenView::Punct(p), i + n);
}

/// An operator with a space or an equals sign behind it.
proof fn lemma_op(s: Seq<char>, i: int, op: BinaryOp)
    requires
        stands(s, i, op.text()),
        at(s, i + op.text().len(), ' '),
    ensures
        spells(s, i, i + op.text().len(), mark(Punct::Op(op))),
{
    reveal_operators();
    let n = op.text().len() as int;
    let t = op.text();
    assert(s[i + 0] == t[0]);
    if n == 2 {
        assert(s[i + 1] == t[1]);
    }
    lemma_punct(s, i, Punct::Op(op), n);
}

proof fn lemma_op_assign(s: Seq<char>, i: int, op: BinaryOp)
    requires
        is_assignable(op),
        stands(s, i, op.text()),
        at(s, i + op.text().len(), '='),
    ensures
        spells(s, i, i + op.text().len() + 1, mark(Punct::OpAssign(op))),
{
    reveal_operators();
    let n = op.text().len() as int;
    let t = op.text();
    assert(s[i + 0] == t[0]);
    if n == 2 {
        assert(s[i + 1] == t[1]);
    }
    lemma_punct(s, i, Punct::OpAssign(op), n + 1);
}

/// The spellings of the operators.
proof fn reveal_operators()
    ensures
        "+"@ == seq!['+'],
        "-"@ == seq!['-'],
        "*"@ == seq!['*'],
        "/"@ == seq!['/'],
        "%"@ == seq!['%'],
        "=="@ == seq!['=', '='],
        "!="@ == seq!['!', '='],
        "<"@ == seq!['<'],
        "<="@ == seq!['<', '='],
        ">"@ == seq!['>'],
        ">="@ == seq!['>', '='],
        "&&"@ == seq!['&', '&'],
        "||"@ == seq!['|', '|'],
        "&"@ == seq!['&'],
        "|"@ == seq!['|'],
        "^"@ == seq!['^'],
        "<<"@ == seq!['<', '<'],
        ">>"@ == seq!['>', '>'],
        "!"@ == seq!['!'],
        "~"@ == seq!['~'],
        "++"@ == seq!['+', '+'],
        "--"@ == seq!['-', '-'],
{
    reveal_strlit("+");
    reveal_strlit("-");
    reveal_strlit("*");
    reveal_strlit("/");
    reveal_strlit("%");
    reveal_strlit("==");
    reveal_strlit("!=");
    reveal_strlit("<");
    reveal_strlit("<=");
    reveal_strlit(">");
    reveal_strlit(">=");
    reveal_strlit("&&");
    reveal_strlit("||");
    reveal_strlit("&");
    reveal_strlit("|");
    reveal_strlit("^");
    reveal_strlit("<<");
    reveal_strlit(">>");
    reveal_strlit("!");
    reveal_strlit("~");
    reveal_strlit("++");
    reveal_strlit("--");
    assert("+"@ =~= seq!['+']);
    assert("-"@ =~= seq!['-']);
    assert("*"@ =~= seq!['*']);
    assert("/"@ =~= seq!['/']);
    assert("%"@ =~= seq!['%']);
    assert("=="@ =~= seq!['=', '=']);
    assert("!="@ =~= seq!['!', '=']);
    assert("<"@ =~= seq!['<']);
    assert("<="@ =~= seq!['<', '=']);
    assert(">"@ =~= seq!['>']);
    assert(">="@ =~= seq!['>', '=']);
    assert("&&"@ =~= seq!['&', '&']);
    assert("||"@ =~= seq!['|', '|']);
    assert("&"@ =~= seq!['&']);
    assert("|"@ =~= seq!['|']);
    assert("^"@ =~= seq!['^']);
    assert("<<"@ =~= seq!['<', '<']);
    assert(">>"@ =~= seq!['>', '>']);
    assert("!"@ =~= seq!['!']);
    assert("~"@ =~= seq!['~']);
    assert("++"@ =~= seq!['+', '+']);
    assert("--"@ =~= seq!['-', '-']);
}

/// The marks between the parts of an expression.
proof fn reveal_marks()
    ensures
        "("@ == seq!['('],
        ")"@ == seq![')'],
        " "@ == seq![' '],
        ", "@ == seq![',', ' '],
        "."@ == seq!['.'],
        "["@ == seq!['['],
        "]"@ == seq![']'],
        " ? "@ == seq![' ', '?', ' '],
        " : "@ == seq![' ', ':', ' '],
        " = "@ == seq![' ', '=', ' '],
        "= "@ == seq!['=', ' '],
{
    reveal_strlit("(");
    reveal_strlit(")");
    reveal_strlit(" ");
    reveal_strlit(", ");
    reveal_strlit(".");
    reveal_strlit("[");
    reveal_strlit("]");
    reveal_strlit(" ? ");
    reveal_strlit(" : ");
    reveal_strlit(" = ");
    reveal_strlit("= ");
    assert("("@ =~= seq!['(']);
    assert(")"@ =~= seq![')']);
    assert(" "@ =~= seq![' ']);
    assert(", "@ =~= seq![',', ' ']);
    assert("."@ =~= seq!['.']);
    assert("["@ =~= seq!['[']);
    assert("]"@ =~= seq![']']);
    assert(" ? "@ =~= seq![' ', '?', ' ']);
    assert(" : "@ =~= seq![' ', ':', ' ']);
    assert(" = "@ =~= seq![' ', '=', ' ']);
    assert("= "@ =~= seq!['=', ' ']);
}

/// A step, whatever follows it.
proof fn lemma_step_mark(s: Seq<char>, i: int, inc: bool)
    requires
        stands(s, i, step_text(inc)),
    ensures
        spells(s, i, i + 2, mark(step_punct(inc))),
        step_text(inc).len() == 2,
{
    reveal_operators();
    let t = step_text(inc);
    assert(s[i + 0] == t[0] && s[i + 1] == t[1]);
    lemma_punct(s, i, step_punct(inc), 2);
}

/// A mark of one character.
proof fn lemma_mark(s: Seq<char>, i: int, t: Seq<char>, p: Punct)
    requires
        t.len() == 1,
        stands(s, i, t),
        lone(t[0]) == Some(p),
    ensures
        spells(s, i, i + 1, mark(p)),
{
    assert(s[i + 0] == t[0]);
    lemma_lone(s, i);
}

/// A mark between two spaces, or before one.
proof fn lemma_spaced(s: Seq<char>, i: int, t: Seq<char>, p: Punct)
    requires
        stands(s, i, t),
        t == seq![' '] || t == seq![',', ' '] || t == seq![' ', '?', ' '] || t == seq![' ', ':', ' ']
            || t == seq![' ', '=', ' '],
        t.len() == 2 ==> p is Comma,
        t.len() == 3 ==> p == if t[1] == '?' {
            Punct::Question
        } else if t[1] == ':' {
            Punct::Colon
        } else {
            Punct::Assign
        },
    ensures
        spells(
            s,
            i,
            i + t.len(),
            if t.len() == 1 {
                Seq::empty()
            } else {
                mark(p)
            },
        ),
{
    assert(s[i + 0] == t[0]);
    if t.len() == 1 {
        lemma_white(s, i);
    } else if t.len() == 2 {
        assert(s[i + 1] == t[1]);
        lemma_lone(s, i);
        lemma_white(s, i + 1);
        lemma_spells_join(s, i, i + 1, i + 2, mark(p), Seq::empty());
        assert(mark(p) + Seq::empty() =~= mark(p));
    } else {
        assert(s[i + 1] == t[1] && s[i + 2] == t[2]);
        lemma_white(s, i);
        if t[1] == '=' {
            lemma_punct(s, i + 1, Punct::Assign, 1);
        } else {
            lemma_lone(s, i + 1);
        }
        lemma_white(s, i + 2);
        lemma_spells_join(s, i, i + 1, i + 2, Seq::empty(), mark(p));
        assert(Seq::empty() + mark(p) =~= mark(p));
        lemma_spells_join(s, i, i + 2, i + 3, mark(p), Seq::empty());
        assert(mark(p) + Seq::empty() =~= mark(p));
    }
}

pub(crate) proof fn lemma_split3<T>(s: Seq<T>, i: int, a: Seq<T>, b: Seq<T>, c: Seq<T>)
    requires
        stands(s, i, a + b + c),
    ensures
        stands(s, i, a),
        stands(s, i + a.len(), b),
        stands(s, i + a.len() + b.len(), c),
{
    lemma_stands_split(s, i, a + b, c);
    lemma_stands_split(s, i, a, b);
}

pub(crate) proof fn lemma_split4<T>(s: Seq<T>, i: int, a: Seq<T>, b: Seq<T>, c: Seq<T>, d: Seq<T>)
    requires
        stands(s, i, a + b + c + d),
    ensures
        stands(s, i, a),
        stands(s, i + a.len(), b),
        stands(s, i + a.len() + b.len(), c),
        stands(s, i + a.len() + b.len() + c.len(), d),
{
    lemma_stands_split(s, i, a + b + c, d);
    lemma_split3(s, i, a, b, c);
}

pub(crate) proof fn lemma_split5<T>(
    s: Seq<T>,
    i: int,
    a: Seq<T>,
    b: Seq<T>,
    c: Seq<T>,
    d: Seq<T>,
    e: Seq<T>,
)
    requires
        stands(s, i, a + b + c + d + e),
    ensures
        stands(s, i, a),
        stands(s, i + a.len(), b),
        stands(s, i + a.len() + b.len(), c),
        stands(s, i + a.len() + b.len() + c.len(), d),
        stands(s, i + a.len() + b.len() + c.len() + d.len(), e),
{
    lemma_stands_split(s, i, a + b + c + d, e);
    lemma_split4(s, i, a, b, c, d);
}

/// Blanks behind tokens change nothing.
proof fn lemma_blank_behind(s: Seq<char>, i: int, j: int, k: int, a: Seq<TokenView>)
    requires
        spells(s, i, j, a),
        spells(s, j, k, Seq::empty()),
    ensures
        spells(s, i, k, a),
{
    lemma_spells_join(s, i, j, k, a, Seq::empty());
    assert(a + Seq::empty() =~= a);
}

/// Blanks before tokens change nothing.
proof fn lemma_blank_before(s: Seq<char>, i: int, j: int, k: int, a: Seq<TokenView>)
    requires
        spells(s, i, j, Seq::empty()),
        spells(s, j, k, a),
    ensures
        spells(s, i, k, a),
{
    lemma_spells_join(s, i, j, k, Seq::empty(), a);
    assert(Seq::empty() + a =~= a);
}

proof fn lemma_unary_mark(s: Seq<char>, i: int, op: UnaryOp, next: char)
    requires
        stands(s, i, op.text()),
        at(s, i + op.text().len(), next),
        next != '=',
        op is Neg ==> next != '-',
    ensures
        spells(s, i, i + op.text().len(), mark(unary_punct(op))),
{
    reveal_operators();
    let t = op.text();
    assert(s[i + 0] == t[0]);
    lemma_punct(s, i, unary_punct(op), 1);
}

/// Emitted text begins with no equals sign, and with a minus sign only where it
/// begins with a decrement.
proof fn lemma_first_char(d: Dialect, e: ExprModel)
    requires
        plain_expr(d, e),
        !(d is Wgsl),
    ensures
        expr_text(d, e).len() > 0,
        expr_text(d, e)[0] != '=',
        expr_text(d, e)[0] == '-' ==> e is PreIncDec,
        !is_white(expr_text(d, e)[0]),
    decreases e,
{
    reveal_marks();
    reveal_operators();
    match e {
        ExprModel::IntLit(n) => {
            lemma_nat_text(n as nat);
            assert(is_digit(nat_text(n as nat)[0]));
        },
        ExprModel::FloatLit(t) => {
            let (w, f) = choose|w: Seq<char>, f: Seq<char>| #[trigger] spelled_decimal(t, w, f);
            assert(is_digit(w[0]));
            assert(t[0] == w[0]);
            assert(float_text(t)[0] == w[0]);
        },
        ExprModel::BoolLit(_) => {
            reveal_strlit("true");
            reveal_strlit("false");
        },
        ExprModel::Field(x, _) => lemma_first_char(d, *x),
        ExprModel::Index(x, _) => lemma_first_char(d, *x),
        ExprModel::PostIncDec(x, _) => lemma_first_char(d, *x),
        _ => {},
    }
}

/// The text of an expression spells its tokens.
pub(crate) proof fn lemma_spell_expr(s: Seq<char>, i: int, d: Dialect, e: ExprModel)
    requires
        stands(s, i, expr_text(d, e)),
        plain_expr(d, e),
        !(d is Wgsl),
        expr_ends(s, i + expr_text(d, e).len(), e),
    ensures
        spells(s, i, i + expr_text(d, e).len(), expr_tokens(d, e)),
    decreases e, 1nat,
{
    reveal_marks();
    match e {
        ExprModel::IntLit(n) => {
            lemma_int(s, i, n);
        },
        ExprModel::FloatLit(t) => {
            lemma_float(s, i, t);
        },
        ExprModel::BoolLit(b) => {
            reveal_strlit("true");
            reveal_strlit("false");
            let w = if b {
                "true"@
            } else {
                "false"@
            };
            lemma_word(s, i, w);
        },
        ExprModel::Var(name) => {
            lemma_word(s, i, name);
        },
        ExprModel::Binary(..) => lemma_spell_binary(s, i, d, e),
        ExprModel::Unary(..) => lemma_spell_unary(s, i, d, e),
        ExprModel::Call(name, args) => {
            lemma_spell_applied(s, i, d, name, args);
        },
        ExprModel::MethodCall(_, _, _) => {},
        ExprModel::Constructor(ty, args) => {
            lemma_spell_applied(s, i, d, d.type_text(ty), args);
        },
        ExprModel::Field(..) => lemma_spell_field(s, i, d, e),
        ExprModel::Index(..) => lemma_spell_index(s, i, d, e),
        ExprModel::Ternary(..) => lemma_spell_ternary(s, i, d, e),
        ExprModel::Assign(..) => lemma_spell_assign(s, i, d, e),
        ExprModel::CompoundAssign(..) => lemma_spell_compound(s, i, d, e),
        ExprModel::PostIncDec(..) => lemma_spell_post(s, i, d, e),
        ExprModel::PreIncDec(..) => lemma_spell_pre(s, i, d, e),
    }
}

/// An operation spells its tokens.
#[verifier::spinoff_prover]
proof fn lemma_spell_binary(s: Seq<char>, i: int, d: Dialect, e: ExprModel)
    requires
        e is Binary,
        stands(s, i, expr_text(d, e)),
        plain_expr(d, e),
        !(d is Wgsl),
        expr_ends(s, i + expr_text(d, e).len(), e),
    ensures
        spells(s, i, i + expr_text(d, e).len(), expr_tokens(d, e)),
    decreases e, 0nat,
{
    let z = i + expr_text(d, e).len();
    reveal_marks();
    if let ExprModel::Binary(l, op, r) = e {
        let (a, b) = (expr_text(d, *l), expr_text(d, *r));
        lemma_stands_split(s, i, "("@ + a + " "@ + op.text() + " "@ + b, ")"@);
        lemma_stands_split(s, i, "("@ + a + " "@ + op.text() + " "@, b);
        lemma_split5(s, i, "("@, a, " "@, op.text(), " "@);
        let p = i + 1 + a.len();
        let q = p + 1 + op.text().len();
        assert(s[p + 0] == " "@[0]);
        assert(s[q + 0] == " "@[0]);
        assert(s[z - 1 + 0] == ")"@[0]);
        lemma_mark(s, i, "("@, Punct::LParen);
        lemma_spell_expr(s, i + 1, d, *l);
        lemma_white(s, p);
        lemma_op(s, p + 1, op);
        lemma_white(s, q);
        lemma_blank_before(s, p, p + 1, q, mark(Punct::Op(op)));
        lemma_blank_behind(s, p, q, q + 1, mark(Punct::Op(op)));
        lemma_spell_expr(s, q + 1, d, *r);
        lemma_mark(s, z - 1, ")"@, Punct::RParen);
        lemma_enclosed(
            s,
            i,
            p,
            q + 1,
            z - 1,
            expr_tokens(d, *l),
            mark(Punct::Op(op)),
            expr_tokens(d, *r),
        );
    }
}

/// A prefixed expression spells its tokens.
#[verifier::spinoff_prover]
proof fn lemma_spell_unary(s: Seq<char>, i: int, d: Dialect, e: ExprModel)
    requires
        e is Unary,
        stands(s, i, expr_text(d, e)),
        plain_expr(d, e),
        !(d is Wgsl),
        expr_ends(s, i + expr_text(d, e).len(), e),
    ensures
        spells(s, i, i + expr_text(d, e).len(), expr_tokens(d, e)),
    decreases e, 0nat,
{
    let z = i + expr_text(d, e).len();
    reveal_marks();
    if let ExprModel::Unary(op, x) = e {
        let a = expr_text(d, *x);
        lemma_split4(s, i, "("@, op.text(), a, ")"@);
        let p = i + 1;
        let q = p + op.text().len();
        lemma_mark(s, i, "("@, Punct::LParen);
        lemma_first_char(d, *x);
        assert(s[q + 0] == a[0]);
        lemma_unary_mark(s, p, op, a[0]);
        assert(s[z - 1 + 0] == ")"@[0]);
        lemma_spell_expr(s, q, d, *x);
        lemma_mark(s, z - 1, ")"@, Punct::RParen);
        lemma_spells_join(s, i, p, q, mark(Punct::LParen), mark(unary_punct(op)));
        let t1 = mark(Punct::LParen) + mark(unary_punct(op));
        lemma_spells_join(s, i, q, z - 1, t1, expr_tokens(d, *x));
        lemma_spells_join(s, i, z - 1, z, t1 + expr_tokens(d, *x), mark(Punct::RParen));
    }
}

/// An access to a field spells its tokens.
#[verifier::spinoff_prover]
proof fn lemma_spell_field(s: Seq<char>, i: int, d: Dialect, e: ExprModel)
    requires
        e is Field,
        stands(s, i, expr_text(d, e)),
        plain_expr(d, e),
        !(d is Wgsl),
        expr_ends(s, i + expr_text(d, e).len(), e),
    ensures
        spells(s, i, i + expr_text(d, e).len(), expr_tokens(d, e)),
    decreases e, 0nat,
{
    let z = i + expr_text(d, e).len();
    reveal_marks();
    if let ExprModel::Field(x, field) = e {
        let a = expr_text(d, *x);
        lemma_split3(s, i, a, "."@, field);
        let p = i + a.len();
        assert(s[p + 0] == "."@[0]);
        assert(s[p + 1 + 0] == field[0]);
        lemma_spell_expr(s, i, d, *x);
        lemma_punct(s, p, Punct::Dot, 1);
        lemma_word(s, p + 1, field);
        lemma_spells_join(s, i, p, p + 1, expr_tokens(d, *x), mark(Punct::Dot));
        lemma_spells_join(
            s,
            i,
            p + 1,
            z,
            expr_tokens(d, *x) + mark(Punct::Dot),
            word(field),
        );
    }
}

/// An access to an element spells its tokens.
#[verifier::spinoff_prover]
proof fn lemma_spell_index(s: Seq<char>, i: int, d: Dialect, e: ExprModel)
    requires
        e is Index,
        stands(s, i, expr_text(d, e)),
        plain_expr(d, e),
        !(d is Wgsl),
        expr_ends(s, i + expr_text(d, e).len(), e),
    ensures
        spells(s, i, i + expr_text(d, e).len(), expr_tokens(d, e)),
    decreases e, 0nat,
{
    let z = i + expr_text(d, e).len();
    reveal_marks();
    if let ExprModel::Index(x, k) = e {
        let a = expr_text(d, *x);
        let b = expr_text(d, *k);
        lemma_split4(s, i, a, "["@, b, "]"@);
        let p = i + a.len();
        assert(s[p + 0] == "["@[0]);
        assert(s[z - 1 + 0] == "]"@[0]);
        lemma_spell_expr(s, i, d, *x);
        lemma_mark(s, p, "["@, Punct::LBracket);
        lemma_spell_expr(s, p + 1, d, *k);
        lemma_mark(s, z - 1, "]"@, Punct::RBracket);
        let t1 = expr_tokens(d, *x) + mark(Punct::LBracket);
        lemma_spells_join(s, i, p, p + 1, expr_tokens(d, *x), mark(Punct::LBracket));
        lemma_spells_join(s, i, p + 1, z - 1, t1, expr_tokens(d, *k));
        lemma_spells_join(s, i, z - 1, z, t1 + expr_tokens(d, *k), mark(Punct::RBracket));
    }
}

/// A conditional expression spells its tokens.
#[verifier::spinoff_prover]
proof fn lemma_spell_ternary(s: Seq<char>, i: int, d: Dialect, e: ExprModel)
    requires
        e is Ternary,
        stands(s, i, expr_text(d, e)),
        plain_expr(d, e),
        !(d is Wgsl),
        expr_ends(s, i + expr_text(d, e).len(), e),
    ensures
        spells(s, i, i + expr_text(d, e).len(), expr_tokens(d, e)),
    decreases e, 0nat,
{
    let z = i + expr_text(d, e).len();
    reveal_marks();
    if let ExprModel::Ternary(c, a, b) = e {
        let (x, y, w) = (expr_text(d, *c), expr_text(d, *a), expr_text(d, *b));
        lemma_stands_split(s, i, "("@ + x + " ? "@ + y + " : "@ + w, ")"@);
        lemma_stands_split(s, i, "("@ + x + " ? "@ + y + " : "@, w);
        lemma_split5(s, i, "("@, x, " ? "@, y, " : "@);
        let p = i + 1 + x.len();
        let q = p + 3 + y.len();
        assert(s[p + 0] == " ? "@[0]);
        assert(s[q + 0] == " : "@[0]);
        assert(s[z - 1 + 0] == ")"@[0]);
        lemma_mark(s, i, "("@, Punct::LParen);
        lemma_spell_expr(s, i + 1, d, *c);
        lemma_spaced(s, p, " ? "@, Punct::Question);
        lemma_spell_expr(s, p + 3, d, *a);
        lemma_spaced(s, q, " : "@, Punct::Colon);
        lemma_spell_expr(s, q + 3, d, *b);
        lemma_mark(s, z - 1, ")"@, Punct::RParen);
        let t1 = mark(Punct::LParen) + expr_tokens(d, *c);
        let t2 = t1 + mark(Punct::Question);
        let t3 = t2 + expr_tokens(d, *a);
        let t4 = t3 + mark(Punct::Colon);
        lemma_spells_join(s, i, i + 1, p, mark(Punct::LParen), expr_tokens(d, *c));
        lemma_spells_join(s, i, p, p + 3, t1, mark(Punct::Question));
        lemma_spells_join(s, i, p + 3, q, t2, expr_tokens(d, *a));
        lemma_spells_join(s, i, q, q + 3, t3, mark(Punct::Colon));
        lemma_spells_join(s, i, q + 3, z - 1, t4, expr_tokens(d, *b));
        lemma_spells_join(s, i, z - 1, z, t4 + expr_tokens(d, *b), mark(Punct::RParen));
    }
}

/// An assignment spells its tokens.
#[verifier::spinoff_prover]
proof fn lemma_spell_assign(s: Seq<char>, i: int, d: Dialect, e: ExprModel)
    requires
        e is Assign,
        stands(s, i, expr_text(d, e)),
        plain_expr(d, e),
        !(d is Wgsl),
        expr_ends(s, i + expr_text(d, e).len(), e),
    ensures
        spells(s, i, i + expr_text(d, e).len(), expr_tokens(d, e)),
    decreases e, 0nat,
{
    let z = i + expr_text(d, e).len();
    reveal_marks();
    if let ExprModel::Assign(t, v) = e {
        let (a, b) = (expr_text(d, *t), expr_text(d, *v));
        lemma_split5(s, i, "("@, a, " = "@, b, ")"@);
        let p = i + 1;
        let q = p + a.len();
        assert(s[q + 0] == " = "@[0]);
        assert(s[z - 1 + 0] == ")"@[0]);
        lemma_mark(s, i, "("@, Punct::LParen);
        lemma_spell_expr(s, p, d, *t);
        lemma_spaced(s, q, " = "@, Punct::Assign);
        lemma_spell_expr(s, q + 3, d, *v);
        lemma_mark(s, z - 1, ")"@, Punct::RParen);
        lemma_enclosed(
            s,
            i,
            q,
            q + 3,
            z - 1,
            expr_tokens(d, *t),
            mark(Punct::Assign),
            expr_tokens(d, *v),
        );
    }
}

/// An assignment with an operation spells its tokens.
#[verifier::spinoff_prover]
proof fn lemma_spell_compound(s: Seq<char>, i: int, d: Dialect, e: ExprModel)
    requires
        e is CompoundAssign,
        stands(s, i, expr_text(d, e)),
        plain_expr(d, e),
        !(d is Wgsl),
        expr_ends(s, i + expr_text(d, e).len(), e),
    ensures
        spells(s, i, i + expr_text(d, e).len(), expr_tokens(d, e)),
    decreases e, 0nat,
{
    let z = i + expr_text(d, e).len();
    reveal_marks();
    if let ExprModel::CompoundAssign(t, op, v) = e {
        let (a, b) = (expr_text(d, *t), expr_text(d, *v));
        lemma_stands_split(s, i, "("@ + a + " "@ + op.text() + "= "@ + b, ")"@);
        lemma_stands_split(s, i, "("@ + a + " "@ + op.text() + "= "@, b);
        lemma_split5(s, i, "("@, a, " "@, op.text(), "= "@);
        let p = i + 1 + a.len();
        let q = p + 1 + op.text().len();
        assert(s[p + 0] == " "@[0]);
        assert(s[q + 0] == "= "@[0]);
        assert(s[q + 1] == "= "@[1]);
        assert(s[z - 1 + 0] == ")"@[0]);
        lemma_mark(s, i, "("@, Punct::LParen);
        lemma_spell_expr(s, i + 1, d, *t);
        lemma_white(s, p);
        lemma_op_assign(s, p + 1, op);
        lemma_white(s, q + 1);
        lemma_blank_before(s, p, p + 1, q + 1, mark(Punct::OpAssign(op)));
        lemma_blank_behind(s, p, q + 1, q + 2, mark(Punct::OpAssign(op)));
        lemma_spell_expr(s, q + 2, d, *v);
        lemma_mark(s, z - 1, ")"@, Punct::RParen);
        lemma_enclosed(
            s,
            i,
            p,
            q + 2,
            z - 1,
            expr_tokens(d, *t),
            mark(Punct::OpAssign(op)),
            expr_tokens(d, *v),
        );
    }
}

/// A step behind its operand spells its tokens.
#[verifier::spinoff_prover]
proof fn lemma_spell_post(s: Seq<char>, i: int, d: Dialect, e: ExprModel)
    requires
        e is PostIncDec,
        stands(s, i, expr_text(d, e)),
        plain_expr(d, e),
        !(d is Wgsl),
        expr_ends(s, i + expr_text(d, e).len(), e),
    ensures
        spells(s, i, i + expr_text(d, e).len(), expr_tokens(d, e)),
    decreases e, 0nat,
{
    let z = i + expr_text(d, e).len();
    reveal_marks();
    if let ExprModel::PostIncDec(x, inc) = e {
        let a = expr_text(d, *x);
        lemma_stands_split(s, i, a, step_text(inc));
        let p = i + a.len();
        lemma_step_mark(s, p, inc);
        reveal_operators();
        assert(s[p + 0] == step_text(inc)[0]);
        lemma_spell_expr(s, i, d, *x);
        lemma_spells_join(s, i, p, z, expr_tokens(d, *x), mark(step_punct(inc)));
    }
}

/// A step before its operand spells its tokens.
#[verifier::spinoff_prover]
proof fn lemma_spell_pre(s: Seq<char>, i: int, d: Dialect, e: ExprModel)
    requires
        e is PreIncDec,
        stands(s, i, expr_text(d, e)),
        plain_expr(d, e),
        !(d is Wgsl),
        expr_ends(s, i + expr_text(d, e).len(), e),
    ensures
        spells(s, i, i + expr_text(d, e).len(), expr_tokens(d, e)),
    decreases e, 0nat,
{
    let z = i + expr_text(d, e).len();
    reveal_marks();
    if let ExprModel::PreIncDec(x, inc) = e {
        let a = expr_text(d, *x);
        lemma_stands_split(s, i, step_text(inc), a);
        lemma_step_mark(s, i, inc);
        lemma_spell_expr(s, i + 2, d, *x);
        lemma_spells_join(s, i, i + 2, z, mark(step_punct(inc)), expr_tokens(d, *x));
    }
}

/// The arguments of a call spell their tokens.
proof fn lemma_spell_args(s: Seq<char>, i: int, d: Dialect, args: Seq<ExprModel>, n: nat)
    requires
        n <= args.len(),
        stands(s, i, args_text(d, args, n)),
        forall|k: int| 0 <= k < args.len() ==> plain_expr(d, #[trigger] args[k]),
        !(d is Wgsl),
        at(s, i + args_text(d, args, n).len(), ',') || at(s, i + args_text(d, args, n).len(), ')'),
    ensures
        spells(s, i, i + args_text(d, args, n).len(), args_tokens(d, args, n)),
    decreases args, n,
{
    reveal_marks();
    if n == 0 {
        lemma_whites(s, i, Seq::empty());
    } else if n == 1 {
        lemma_spell_expr(s, i, d, args[0]);
    } else {
        let a = args_text(d, args, (n - 1) as nat);
        let b = expr_text(d, args[n - 1]);
        lemma_split3(s, i, a, ", "@, b);
        let p = i + a.len();
        let z = p + 2 + b.len();
        assert(s[p + 0] == ", "@[0]);
        lemma_spell_args(s, i, d, args, (n - 1) as nat);
        lemma_spaced(s, p, ", "@, Punct::Comma);
        lemma_spell_expr(s, p + 2, d, args[n - 1]);
        let ta = args_tokens(d, args, (n - 1) as nat);
        lemma_spells_join(s, i, p, p + 2, ta, mark(Punct::Comma));
        lemma_spells_join(s, i, p + 2, z, ta + mark(Punct::Comma), expr_tokens(d, args[n - 1]));
    }
}

/// A call or a construction spells its tokens.
proof fn lemma_spell_applied(s: Seq<char>, i: int, d: Dialect, name: Seq<char>, args: Seq<ExprModel>)
    requires
        stands(s, i, name + "("@ + args_text(d, args, args.len()) + ")"@),
        is_spelled_word(name),
        forall|k: int| 0 <= k < args.len() ==> plain_expr(d, #[trigger] args[k]),
        !(d is Wgsl),
    ensures
        spells(
            s,
            i,
            i + (name + "("@ + args_text(d, args, args.len()) + ")"@).len(),
            word(name) + mark(Punct::LParen) + args_tokens(d, args, args.len()) + mark(
                Punct::RParen,
            ),
        ),
    decreases args, args.len() + 1,
{
    reveal_marks();
    let t = args_text(d, args, args.len());
    lemma_split4(s, i, name, "("@, t, ")"@);
    let p = i + name.len();
    let z = p + 1 + t.len();
    assert(s[p + 0] == "("@[0]);
    assert(s[z + 0] == ")"@[0]);
    lemma_word(s, i, name);
    lemma_mark(s, p, "("@, Punct::LParen);
    lemma_spell_args(s, p + 1, d, args, args.len());
    lemma_mark(s, z, ")"@, Punct::RParen);
    let t1 = word(name) + mark(Punct::LParen);
    let t2 = t1 + args_tokens(d, args, args.len());
    lemma_spells_join(s, i, p, p + 1, word(name), mark(Punct::LParen));
    lemma_spells_join(s, i, p + 1, z, t1, args_tokens(d, args, args.len()));
    lemma_spells_join(s, i, z, z + 1, t2, mark(Punct::RParen));
}

/// An operation in parentheses.
proof fn lemma_enclosed(
    s: Seq<char>,
    i: int,
    p: int,
    q: int,
    r: int,
    a: Seq<TokenView>,
    m: Seq<TokenView>,
    b: Seq<TokenView>,
)
    requires
        spells(s, i, i + 1, mark(Punct::LParen)),
        spells(s, i + 1, p, a),
        spells(s, p, q, m),
        spells(s, q, r, b),
        spells(s, r, r + 1, mark(Punct::RParen)),
    ensures
        spells(s, i, r + 1, mark(Punct::LParen) + a + m + b + mark(Punct::RParen)),
{
    let t1 = mark(Punct::LParen) + a;
    lemma_spells_join(s, i, i + 1, p, mark(Punct::LParen), a);
    lemma_spells_join(s, i, p, q, t1, m);
    lemma_spells_join(s, i, q, r, t1 + m, b);
    lemma_spells_join(s, i, r, r + 1, t1 + m + b, mark(Punct::RParen));
}

// ---------------------------------------------------------------------------
// Statements
// ---------------------------------------------------------------------------

/// Whether a statement ends in a conditional that an `else` behind it would
/// complete.
pub open spec fn is_dangling(s: StmtModel) -> bool
    decreases s,
{
    match s {
        StmtModel::If(_, _, None) => true,
        StmtModel::If(_, _, Some(b)) => is_dangling(*b),
        StmtModel::For(_, _, _, b) => is_dangling(*b),
        StmtModel::While(_, b) => is_dangling(*b),
        _ => false,
    }
}

/// Whether an optional expression can be written down and read back.
pub open spec fn plain_option(d: Dialect, e: Option<ExprModel>) -> bool {
    e matches Some(x) ==> plain_expr(d, x)
}

/// Whether a statement can be written down and read back: its expressions can, its
/// declarations are of types with a name of their own, a loop starts with a
/// declaration or an expression, an `else` belongs to the conditional before it,
/// and the target language has a word for it.
pub open spec fn plain_stmt(d: Dialect, s: StmtModel) -> bool
    decreases s,
{
    match s {
        StmtModel::Expr(e) => plain_expr(d, e),
        StmtModel::VarDecl(ty, name, init) => is_plain_type(d, ty) && is_name(name)
            && plain_option(d, init),
        StmtModel::Block(stmts) => forall|i: int|
            0 <= i < stmts.len() ==> plain_stmt(d, #[trigger] stmts[i]),
        StmtModel::If(c, a, None) => plain_expr(d, c) && plain_stmt(d, *a),
        StmtModel::If(c, a, Some(b)) => plain_expr(d, c) && plain_stmt(d, *a) && plain_stmt(d, *b)
            && !is_dangling(*a),
        StmtModel::For(init, c, u, b) => {
            &&& init matches Some(x) ==> plain_stmt(d, *x) && (*x is Expr || *x is VarDecl)
            &&& plain_option(d, c)
            &&& plain_option(d, u)
            &&& plain_stmt(d, *b)
        },
        StmtModel::While(c, b) => plain_expr(d, c) && plain_stmt(d, *b),
        StmtModel::DoWhile(b, c) => plain_expr(d, c) && plain_stmt(d, *b),
        StmtModel::Return(v) => plain_option(d, v),
        StmtModel::Break => true,
        StmtModel::Continue => true,
        StmtModel::Discard => !(d is Msl),
    }
}

/// The tokens of an optional expression.
pub open spec fn option_tokens(d: Dialect, e: Option<ExprModel>) -> Seq<TokenView> {
    match e {
        None => Seq::empty(),
        Some(x) => expr_tokens(d, x),
    }
}

/// The tokens of a declaration or an expression, with the semicolon.
pub open spec fn simple_tokens(d: Dialect, s: StmtModel) -> Seq<TokenView> {
    match s {
        StmtModel::Expr(e) => expr_tokens(d, e) + mark(Punct::Semi),
        StmtModel::VarDecl(ty, name, None) => word(d.type_text(ty)) + word(name) + mark(
            Punct::Semi,
        ),
        StmtModel::VarDecl(ty, name, Some(e)) => word(d.type_text(ty)) + word(name) + mark(
            Punct::Assign,
        ) + expr_tokens(d, e) + mark(Punct::Semi),
        _ => Seq::empty(),
    }
}

/// The tokens of the head of a loop.
pub open spec fn head_tokens(
    d: Dialect,
    init: Option<Box<StmtModel>>,
    c: Option<ExprModel>,
    u: Option<ExprModel>,
) -> Seq<TokenView> {
    let start = match init {
        None => mark(Punct::Semi),
        Some(x) => simple_tokens(d, *x),
    };
    start + option_tokens(d, c) + mark(Punct::Semi) + option_tokens(d, u) + mark(Punct::RParen)
}

/// The tokens of a statement.
pub open spec fn stmt_tokens(d: Dialect, s: StmtModel) -> Seq<TokenView>
    decreases s, 0nat,
{
    match s {
        StmtModel::Expr(_) => simple_tokens(d, s),
        StmtModel::VarDecl(_, _, _) => simple_tokens(d, s),
        StmtModel::Block(stmts) => mark(Punct::LBrace) + stmts_tokens(d, stmts, stmts.len())
            + mark(Punct::RBrace),
        StmtModel::If(c, a, None) => word("if"@) + mark(Punct::LParen) + expr_tokens(d, c) + mark(
            Punct::RParen,
        ) + stmt_tokens(d, *a),
        StmtModel::If(c, a, Some(b)) => word("if"@) + mark(Punct::LParen) + expr_tokens(d, c)
            + mark(Punct::RParen) + stmt_tokens(d, *a) + word("else"@) + stmt_tokens(d, *b),
        StmtModel::For(init, c, u, b) => word("for"@) + mark(Punct::LParen) + head_tokens(
            d,
            init,
            c,
            u,
        ) + stmt_tokens(d, *b),
        StmtModel::While(c, b) => word("while"@) + mark(Punct::LParen) + expr_tokens(d, c) + mark(
            Punct::RParen,
        ) + stmt_tokens(d, *b),
        StmtModel::DoWhile(b, c) => word("do"@) + stmt_tokens(d, *b) + word("while"@) + mark(
            Punct::LParen,
        ) + expr_tokens(d, c) + (mark(Punct::RParen) + mark(Punct::Semi)),
        StmtModel::Return(v) => word("return"@) + option_tokens(d, v) + mark(Punct::Semi),
        StmtModel::Break => word("break"@) + mark(Punct::Semi),
        StmtModel::Continue => word("continue"@) + mark(Punct::Semi),
        StmtModel::Discard => word("discard"@) + mark(Punct::Semi),
    }
}

/// The tokens of the first `n` statements.
pub open spec fn stmts_tokens(d: Dialect, stmts: Seq<StmtModel>, n: nat) -> Seq<TokenView>
    decreases stmts, n,
{
    if n == 0 || n > stmts.len() {
        Seq::empty()
    } else {
        stmts_tokens(d, stmts, (n - 1) as nat) + stmt_tokens(d, stmts[n - 1])
    }
}

/// Whether a text is white space.
pub open spec fn all_white(t: Seq<char>) -> bool {
    forall|k: int| 0 <= k < t.len() ==> is_white(#[trigger] t[k])
}

proof fn lemma_lone_pair(a: char, b: char)
    ensures
        lone_tokens(seq![a]) == if lone(a) is Some {
            mark(lone(a)->0)
        } else {
            Seq::empty()
        },
        lone_tokens(seq![a, b]) == lone_tokens(seq![a]) + lone_tokens(seq![b]),
{
    reveal_with_fuel(lone_tokens, 3);
    assert(seq![a, b].drop_last() =~= seq![a]);
    assert(seq![a].drop_last() =~= Seq::empty());
    assert(seq![b].drop_last() =~= Seq::empty());
    assert(lone_tokens(seq![a]) =~= if lone(a) is Some {
        mark(lone(a)->0)
    } else {
        Seq::empty()
    });
    assert(lone_tokens(seq![a, b]) =~= lone_tokens(seq![a]) + lone_tokens(seq![b]));
}

/// A text of one or two characters, of which one at most is a mark.
proof fn lemma_piece(s: Seq<char>, i: int, t: Seq<char>, a: char, b: char)
    requires
        stands(s, i, t),
        t == seq![a, b] || t == seq![a],
        t == seq![a, b] ==> (lone(a) is Some && is_white(b)) || (is_white(a) && lone(b) is Some),
        t == seq![a] ==> lone(a) is Some || is_white(a),
    ensures
        spells(
            s,
            i,
            i + t.len(),
            if lone(a) is Some {
                mark(lone(a)->0)
            } else if t.len() == 2 && lone(b) is Some {
                mark(lone(b)->0)
            } else {
                Seq::empty()
            },
        ),
{
    lemma_lones(s, i, t);
    lemma_lone_pair(a, b);
    lemma_lone_pair(b, b);
    assert(Seq::<TokenView>::empty() + lone_tokens(seq![b]) =~= lone_tokens(seq![b]));
    assert(lone_tokens(seq![a]) + Seq::empty() =~= lone_tokens(seq![a]));
}

/// A keyword with what follows it.
proof fn lemma_keyword(s: Seq<char>, i: int, t: Seq<char>, w: Seq<char>, r: Seq<char>, a: char, b: char)
    requires
        stands(s, i, t),
        t == w + r,
        is_spelled_word(w),
        r == seq![a, b] || r == seq![a],
        r == seq![a, b] ==> (lone(a) is Some && is_white(b)) || (is_white(a) && lone(b) is Some),
        r == seq![a] ==> lone(a) is Some || is_white(a),
    ensures
        spells(
            s,
            i,
            i + t.len(),
            word(w) + if lone(a) is Some {
                mark(lone(a)->0)
            } else if r.len() == 2 && lone(b) is Some {
                mark(lone(b)->0)
            } else {
                Seq::empty()
            },
        ),
{
    lemma_stands_split(s, i, w, r);
    assert(s[i + w.len() + 0] == r[0]);
    assert(!is_word_char(a));
    lemma_word(s, i, w);
    lemma_piece(s, i + w.len(), r, a, b);
    let m = if lone(a) is Some {
        mark(lone(a)->0)
    } else if r.len() == 2 && lone(b) is Some {
        mark(lone(b)->0)
    } else {
        Seq::empty()
    };
    lemma_spells_join(s, i, i + w.len(), i + t.len(), word(w), m);
}

/// The keywords as the emitter writes them.
proof fn reveal_keywords()
    ensures
        "if ("@ == "if"@ + seq![' ', '('],
        "else "@ == "else"@ + seq![' '],
        "for ("@ == "for"@ + seq![' ', '('],
        "while ("@ == "while"@ + seq![' ', '('],
        " while ("@ == " "@ + "while ("@,
        "do "@ == "do"@ + seq![' '],
        "return;\n"@ == "return"@ + seq![';', '\n'],
        "return "@ == "return"@ + seq![' '],
        "break;\n"@ == "break"@ + seq![';', '\n'],
        "continue;\n"@ == "continue"@ + seq![';', '\n'],
        "discard;\n"@ == "discard"@ + seq![';', '\n'],
        is_spelled_word("if"@),
        is_spelled_word("else"@),
        is_spelled_word("for"@),
        is_spelled_word("while"@),
        is_spelled_word("do"@),
        is_spelled_word("return"@),
        is_spelled_word("break"@),
        is_spelled_word("continue"@),
        is_spelled_word("discard"@),
        ") "@ == seq![')', ' '],
        ");\n"@ == ")"@ + ";\n"@,
        ";\n"@ == seq![';', '\n'],
        ";"@ == seq![';'],
        "; "@ == seq![';', ' '],
        "{\n"@ == seq!['{', '\n'],
        "}\n"@ == seq!['}', '\n'],
        all_white("    "@),
{
    reveal_marks();
    reveal_strlit("if (");
    reveal_strlit("else ");
    reveal_strlit("for (");
    reveal_strlit("while (");
    reveal_strlit(" while (");
    reveal_strlit("do ");
    reveal_strlit("return;\n");
    reveal_strlit("return ");
    reveal_strlit("break;\n");
    reveal_strlit("continue;\n");
    reveal_strlit("discard;\n");
    reveal_strlit("if");
    reveal_strlit("else");
    reveal_strlit("for");
    reveal_strlit("while");
    reveal_strlit("do");
    reveal_strlit("return");
    reveal_strlit("break");
    reveal_strlit("continue");
    reveal_strlit("discard");
    reveal_strlit(") ");
    reveal_strlit(");\n");
    reveal_strlit(";\n");
    reveal_strlit(";");
    reveal_strlit("; ");
    reveal_strlit("{\n");
    reveal_strlit("}\n");
    reveal_strlit("    ");
    assert("if ("@ =~= "if"@ + seq![' ', '(']);
    assert("else "@ =~= "else"@ + seq![' ']);
    assert("for ("@ =~= "for"@ + seq![' ', '(']);
    assert("while ("@ =~= "while"@ + seq![' ', '(']);
    assert(" while ("@ =~= " "@ + "while ("@);
    assert("do "@ =~= "do"@ + seq![' ']);
    assert("return;\n"@ =~= "return"@ + seq![';', '\n']);
    assert("return "@ =~= "return"@ + seq![' ']);
    assert("break;\n"@ =~= "break"@ + seq![';', '\n']);
    assert("continue;\n"@ =~= "continue"@ + seq![';', '\n']);
    assert("discard;\n"@ =~= "discard"@ + seq![';', '\n']);
    assert(") "@ =~= seq![')', ' ']);
    assert(");\n"@ =~= ")"@ + ";\n"@);
    assert(";\n"@ =~= seq![';', '\n']);
    assert(";"@ =~= seq![';']);
    assert("; "@ =~= seq![';', ' ']);
    assert("{\n"@ =~= seq!['{', '\n']);
    assert("}\n"@ =~= seq!['}', '\n']);
}

/// The text of a declaration or an expression, up to its semicolon.
spec fn simple_text(d: Dialect, s: StmtModel) -> Seq<char> {
    match s {
        StmtModel::Expr(e) => expr_text(d, e),
        StmtModel::VarDecl(ty, name, None) => d.type_text(ty) + " "@ + name,
        StmtModel::VarDecl(ty, name, Some(e)) => d.type_text(ty) + " "@ + name + " = "@
            + expr_text(d, e),
        _ => Seq::empty(),
    }
}

proof fn lemma_simple_text(d: Dialect, s: StmtModel, ind: Seq<char>)
    requires
        s is Expr || s is VarDecl,
        plain_stmt(d, s),
        !(d is Wgsl),
    ensures
        stmt_text(d, s, ind) == ind + simple_text(d, s) + ";\n"@,
        trimmed(stmt_text(d, s, ""@)) == simple_text(d, s) + ";"@,
{
    reveal_keywords();
    reveal_marks();
    reveal_strlit("");
    let b = simple_text(d, s);
    assert(stmt_text(d, s, ind) =~= ind + b + ";\n"@);
    assert(stmt_text(d, s, ""@) =~= b + ";\n"@);
    match s {
        StmtModel::Expr(e) => {
            lemma_first_char(d, e);
        },
        StmtModel::VarDecl(ty, name, init) => {
            assert(is_word_start(d.type_text(ty)[0]));
            assert(b[0] == d.type_text(ty)[0]);
        },
        _ => {},
    }
    let t = b + ";\n"@;
    assert(t[0] == b[0]);
    lemma_trim_start(t, 0);
    assert(t.skip(0) =~= t);
    let n = b.len() + 1;
    assert(t[n - 1] == ';');
    assert(t[n as int] == '\n');
    lemma_trim_end(t, n as int);
    assert(t.take(n as int) =~= b + ";"@);
}

/// A declaration or an expression spells its tokens, up to a semicolon.
#[verifier::spinoff_prover]
proof fn lemma_spell_simple(s: Seq<char>, i: int, d: Dialect, st: StmtModel)
    requires
        st is Expr || st is VarDecl,
        plain_stmt(d, st),
        !(d is Wgsl),
        stands(s, i, simple_text(d, st)),
        at(s, i + simple_text(d, st).len(), ';'),
    ensures
        spells(s, i, i + simple_text(d, st).len() + 1, simple_tokens(d, st)),
{
    let z = i + simple_text(d, st).len();
    reveal_marks();
    lemma_lone(s, z);
    match st {
        StmtModel::Expr(e) => {
            lemma_spell_expr(s, i, d, e);
            lemma_spells_join(s, i, z, z + 1, expr_tokens(d, e), mark(Punct::Semi));
        },
        StmtModel::VarDecl(ty, name, init) => {
            let t = d.type_text(ty);
            let p = i + t.len() + 1;
            let q = p + name.len();
            if init is Some {
                lemma_split5(s, i, t, " "@, name, " = "@, expr_text(d, init->0));
                assert(s[q + 0] == " = "@[0]);
            } else {
                lemma_split3(s, i, t, " "@, name);
            }
            assert(s[p - 1 + 0] == " "@[0]);
            lemma_word(s, i, t);
            lemma_white(s, p - 1);
            lemma_blank_behind(s, i, p - 1, p, word(t));
            lemma_word(s, p, name);
            lemma_spells_join(s, i, p, q, word(t), word(name));
            let a = word(t) + word(name);
            match init {
                None => {
                    lemma_spells_join(s, i, z, z + 1, a, mark(Punct::Semi));
                },
                Some(e) => {
                    lemma_spaced(s, q, " = "@, Punct::Assign);
                    lemma_spell_expr(s, q + 3, d, e);
                    lemma_spells_join(s, i, q, q + 3, a, mark(Punct::Assign));
                    let b = a + mark(Punct::Assign);
                    lemma_spells_join(s, i, q + 3, z, b, expr_tokens(d, e));
                    lemma_spells_join(s, i, z, z + 1, b + expr_tokens(d, e), mark(Punct::Semi));
                },
            }
        },
        _ => {},
    }
}

/// A keyword and a condition in parentheses.
#[verifier::spinoff_prover]
proof fn lemma_spell_condition(
    s: Seq<char>,
    i: int,
    d: Dialect,
    ind: Seq<char>,
    kw: Seq<char>,
    w: Seq<char>,
    c: ExprModel,
)
    requires
        stands(s, i, ind + kw + expr_text(d, c) + ") "@),
        all_white(ind),
        kw == w + seq![' ', '('],
        is_spelled_word(w),
        plain_expr(d, c),
        !(d is Wgsl),
    ensures
        spells(
            s,
            i,
            i + (ind + kw + expr_text(d, c) + ") "@).len(),
            word(w) + mark(Punct::LParen) + expr_tokens(d, c) + mark(Punct::RParen),
        ),
{
    reveal_keywords();
    let t = expr_text(d, c);
    lemma_split4(s, i, ind, kw, t, ") "@);
    let p = i + ind.len();
    let q = p + kw.len();
    let r = q + t.len();
    assert(s[r + 0] == ") "@[0]);
    lemma_whites(s, i, ind);
    lemma_keyword(s, p, kw, w, seq![' ', '('], ' ', '(');
    let a = word(w) + mark(Punct::LParen);
    lemma_blank_before(s, i, p, q, a);
    lemma_spell_expr(s, q, d, c);
    lemma_spells_join(s, i, q, r, a, expr_tokens(d, c));
    lemma_piece(s, r, ") "@, ')', ' ');
    lemma_spells_join(s, i, r, r + 2, a + expr_tokens(d, c), mark(Punct::RParen));
}

/// A word that is a statement by itself.
proof fn lemma_spell_word(s: Seq<char>, i: int, ind: Seq<char>, t: Seq<char>, w: Seq<char>)
    requires
        stands(s, i, ind + t),
        all_white(ind),
        t == w + seq![';', '\n'],
        is_spelled_word(w),
    ensures
        spells(s, i, i + (ind + t).len(), word(w) + mark(Punct::Semi)),
{
    lemma_stands_split(s, i, ind, t);
    lemma_whites(s, i, ind);
    lemma_keyword(s, i + ind.len(), t, w, seq![';', '\n'], ';', '\n');
    lemma_blank_before(
        s,
        i,
        i + ind.len(),
        i + ind.len() + t.len(),
        word(w) + mark(Punct::Semi),
    );
}

/// The head of a loop.
#[verifier::spinoff_prover]
#[verifier::rlimit(40)]
proof fn lemma_spell_head(
    s: Seq<char>,
    i: int,
    d: Dialect,
    init: Option<Box<StmtModel>>,
    c: Option<ExprModel>,
    u: Option<ExprModel>,
    t1: Seq<char>,
    t2: Seq<char>,
    t3: Seq<char>,
)
    requires
        init matches Some(x) ==> plain_stmt(d, *x) && (*x is Expr || *x is VarDecl),
        plain_option(d, c),
        plain_option(d, u),
        !(d is Wgsl),
        t1 == match init {
            None => ";"@,
            Some(x) => trimmed(stmt_text(d, *x, ""@)),
        },
        t2 == match c {
            None => Seq::empty(),
            Some(x) => expr_text(d, x),
        },
        t3 == match u {
            None => Seq::empty(),
            Some(x) => expr_text(d, x),
        },
        stands(s, i, t1),
        stands(s, i + t1.len(), " "@),
        stands(s, i + t1.len() + 1, t2),
        stands(s, i + t1.len() + 1 + t2.len(), "; "@),
        stands(s, i + t1.len() + 3 + t2.len(), t3),
        stands(s, i + t1.len() + 3 + t2.len() + t3.len(), ") "@),
    ensures
        spells(s, i, i + t1.len() + 5 + t2.len() + t3.len(), head_tokens(d, init, c, u)),
{
    reveal_keywords();
    reveal_marks();
    let start = match init {
        None => mark(Punct::Semi),
        Some(x) => simple_tokens(d, *x),
    };
    let p = i + t1.len();
    let q = p + 1 + t2.len();
    let r = q + 2 + t3.len();
    match init {
        None => {
            lemma_mark(s, i, ";"@, Punct::Semi);
        },
        Some(x) => {
            lemma_simple_text(d, *x, ""@);
            let b = simple_text(d, *x);
            lemma_stands_split(s, i, b, ";"@);
            assert(s[i + b.len() + 0] == ";"@[0]);
            lemma_spell_simple(s, i, d, *x);
        },
    }
    assert(spells(s, i, p, start));
    assert(s[p + 0] == " "@[0]);
    lemma_white(s, p);
    lemma_blank_behind(s, i, p, p + 1, start);
    assert(s[q + 0] == "; "@[0]);
    assert(spells(s, p + 1, q, option_tokens(d, c))) by {
        match c {
            None => lemma_whites(s, q, Seq::empty()),
            Some(x) => lemma_spell_expr(s, p + 1, d, x),
        }
    }
    lemma_spells_join(s, i, p + 1, q, start, option_tokens(d, c));
    let a = start + option_tokens(d, c);
    lemma_piece(s, q, "; "@, ';', ' ');
    lemma_spells_join(s, i, q, q + 2, a, mark(Punct::Semi));
    let b = a + mark(Punct::Semi);
    assert(s[r + 0] == ") "@[0]);
    assert(spells(s, q + 2, r, option_tokens(d, u))) by {
        match u {
            None => lemma_whites(s, r, Seq::empty()),
            Some(x) => lemma_spell_expr(s, q + 2, d, x),
        }
    }
    lemma_spells_join(s, i, q + 2, r, b, option_tokens(d, u));
    lemma_piece(s, r, ") "@, ')', ' ');
    lemma_spells_join(s, i, r, r + 2, b + option_tokens(d, u), mark(Punct::RParen));
}

/// A `for` loop up to its body.
#[verifier::spinoff_prover]
proof fn lemma_spell_for(
    s: Seq<char>,
    i: int,
    d: Dialect,
    ind: Seq<char>,
    init: Option<Box<StmtModel>>,
    c: Option<ExprModel>,
    u: Option<ExprModel>,
    rest: Seq<char>,
) -> (z: int)
    requires
        init matches Some(x) ==> plain_stmt(d, *x) && (*x is Expr || *x is VarDecl),
        plain_option(d, c),
        plain_option(d, u),
        !(d is Wgsl),
        all_white(ind),
        ({
            let start = match init {
                None => ind + "for ("@ + ";"@,
                Some(x) => ind + "for ("@ + trimmed(stmt_text(d, *x, ""@)),
            };
            let test = match c {
                None => start + " "@,
                Some(x) => start + " "@ + expr_text(d, x),
            };
            let step = match u {
                None => test + "; "@,
                Some(x) => test + "; "@ + expr_text(d, x),
            };
            stands(s, i, step + ") "@ + rest)
        }),
    ensures
        stands(s, z, rest),
        ({
            let start = match init {
                None => ind + "for ("@ + ";"@,
                Some(x) => ind + "for ("@ + trimmed(stmt_text(d, *x, ""@)),
            };
            let test = match c {
                None => start + " "@,
                Some(x) => start + " "@ + expr_text(d, x),
            };
            let step = match u {
                None => test + "; "@,
                Some(x) => test + "; "@ + expr_text(d, x),
            };
            z + rest.len() == i + (step + ") "@ + rest).len()
        }),
        spells(s, i, z, word("for"@) + mark(Punct::LParen) + head_tokens(d, init, c, u)),
{
    reveal_keywords();
    reveal_marks();
    let t1 = match init {
        None => ";"@,
        Some(x) => trimmed(stmt_text(d, *x, ""@)),
    };
    let t2 = match c {
        None => Seq::empty(),
        Some(x) => expr_text(d, x),
    };
    let t3 = match u {
        None => Seq::empty(),
        Some(x) => expr_text(d, x),
    };
    let start = ind + "for ("@ + t1;
    let test = start + " "@ + t2;
    let step = test + "; "@ + t3;
    assert(start + " "@ + Seq::<char>::empty() =~= start + " "@);
    assert(test + "; "@ + Seq::<char>::empty() =~= test + "; "@);
    lemma_split3(s, i, step, ") "@, rest);
    lemma_split3(s, i, test, "; "@, t3);
    lemma_split3(s, i, start, " "@, t2);
    lemma_split3(s, i, ind, "for ("@, t1);
    let p = i + ind.len();
    let q = p + "for ("@.len();
    lemma_whites(s, i, ind);
    lemma_keyword(s, p, "for ("@, "for"@, seq![' ', '('], ' ', '(');
    let a = word("for"@) + mark(Punct::LParen);
    lemma_blank_before(s, i, p, q, a);
    lemma_spell_head(s, q, d, init, c, u, t1, t2, t3);
    let z = q + t1.len() + 5 + t2.len() + t3.len();
    lemma_spells_join(s, i, q, z, a, head_tokens(d, init, c, u));
    z
}

/// The text of a statement spells its tokens.
#[verifier::spinoff_prover]
#[verifier::rlimit(60)]
pub(crate) proof fn lemma_spell_stmt(s: Seq<char>, i: int, d: Dialect, st: StmtModel, ind: Seq<char>)
    requires
        stands(s, i, stmt_text(d, st, ind)),
        plain_stmt(d, st),
        !(d is Wgsl),
        all_white(ind),
    ensures
        spells(s, i, i + stmt_text(d, st, ind).len(), stmt_tokens(d, st)),
    decreases st, 0nat,
{
    let z = i + stmt_text(d, st, ind).len();
    reveal_keywords();
    match st {
        StmtModel::Expr(_) => lemma_spell_plain(s, i, d, st, ind),
        StmtModel::VarDecl(_, _, _) => lemma_spell_plain(s, i, d, st, ind),
        StmtModel::Block(stmts) => {
            let inner = ind + "    "@;
            let b = stmts_text(d, stmts, stmts.len(), inner);
            assert(all_white(inner));
            lemma_split5(s, i, ind, "{\n"@, b, ind, "}\n"@);
            let p = i + ind.len();
            let q = p + 2 + b.len();
            let tb = stmts_tokens(d, stmts, stmts.len());
            lemma_whites(s, i, ind);
            lemma_piece(s, p, "{\n"@, '{', '\n');
            lemma_blank_before(s, i, p, p + 2, mark(Punct::LBrace));
            lemma_spell_stmts(s, p + 2, d, stmts, stmts.len(), inner);
            lemma_spells_join(s, i, p + 2, q, mark(Punct::LBrace), tb);
            lemma_whites(s, q, ind);
            lemma_piece(s, q + ind.len(), "}\n"@, '}', '\n');
            lemma_blank_behind(s, i, q, q + ind.len(), mark(Punct::LBrace) + tb);
            lemma_spells_join(
                s,
                i,
                q + ind.len(),
                z,
                mark(Punct::LBrace) + tb,
                mark(Punct::RBrace),
            );
        },
        StmtModel::If(c, a, other) => {
            let head = ind + "if ("@ + expr_text(d, c) + ") "@;
            let ta = stmt_text(d, *a, ind);
            match other {
                None => {},
                Some(b) => {
                    lemma_split4(s, i, head + ta, ind, "else "@, stmt_text(d, *b, ind));
                },
            }
            lemma_stands_split(s, i, head, ta);
            lemma_spell_condition(s, i, d, ind, "if ("@, "if"@, c);
            let h = word("if"@) + mark(Punct::LParen) + expr_tokens(d, c) + mark(Punct::RParen);
            let p = i + head.len();
            let q = p + ta.len();
            lemma_spell_stmt(s, p, d, *a, ind);
            lemma_spells_join(s, i, p, q, h, stmt_tokens(d, *a));
            match other {
                None => {},
                Some(b) => {
                    let h2 = h + stmt_tokens(d, *a);
                    let r = q + ind.len();
                    lemma_whites(s, q, ind);
                    lemma_keyword(s, r, "else "@, "else"@, seq![' '], ' ', ' ');
                    assert(word("else"@) + Seq::empty() =~= word("else"@));
                    lemma_blank_before(s, q, r, r + "else "@.len(), word("else"@));
                    lemma_spells_join(s, i, q, r + "else "@.len(), h2, word("else"@));
                    lemma_spell_stmt(s, r + "else "@.len(), d, *b, ind);
                    lemma_spells_join(
                        s,
                        i,
                        r + "else "@.len(),
                        z,
                        h2 + word("else"@),
                        stmt_tokens(d, *b),
                    );
                },
            }
        },
        StmtModel::For(init, c, u, b) => {
            let tb = stmt_text(d, *b, ind);
            let p = lemma_spell_for(s, i, d, ind, init, c, u, tb);
            lemma_spell_stmt(s, p, d, *b, ind);
            lemma_spells_join(
                s,
                i,
                p,
                z,
                word("for"@) + mark(Punct::LParen) + head_tokens(d, init, c, u),
                stmt_tokens(d, *b),
            );
        },
        StmtModel::While(c, b) => {
            let head = ind + "while ("@ + expr_text(d, c) + ") "@;
            let tb = stmt_text(d, *b, ind);
            lemma_stands_split(s, i, head, tb);
            lemma_spell_condition(s, i, d, ind, "while ("@, "while"@, c);
            let h = word("while"@) + mark(Punct::LParen) + expr_tokens(d, c) + mark(Punct::RParen);
            let p = i + head.len();
            lemma_spell_stmt(s, p, d, *b, ind);
            lemma_spells_join(s, i, p, z, h, stmt_tokens(d, *b));
        },
        StmtModel::DoWhile(b, c) => {
            let tb = stmt_text(d, *b, ind);
            let tc = expr_text(d, c);
            lemma_stands_split(s, i, ind + "do "@ + tb + " while ("@ + tc, ");\n"@);
            lemma_split5(s, i, ind, "do "@, tb, " while ("@, tc);
            let p = i + ind.len();
            let q = p + "do "@.len();
            let r = q + tb.len();
            lemma_whites(s, i, ind);
            lemma_keyword(s, p, "do "@, "do"@, seq![' '], ' ', ' ');
            assert(word("do"@) + Seq::empty() =~= word("do"@));
            lemma_blank_before(s, i, p, q, word("do"@));
            lemma_spell_stmt(s, q, d, *b, ind);
            let h = word("do"@) + stmt_tokens(d, *b);
            lemma_spells_join(s, i, q, r, word("do"@), stmt_tokens(d, *b));
            lemma_spell_tail(s, i, r, d, c, h);
        },
        StmtModel::Return(value) => {
            lemma_spell_return(s, i, d, value, ind);
        },
        StmtModel::Break => lemma_spell_word(s, i, ind, "break;\n"@, "break"@),
        StmtModel::Continue => lemma_spell_word(s, i, ind, "continue;\n"@, "continue"@),
        StmtModel::Discard => lemma_spell_word(s, i, ind, "discard;\n"@, "discard"@),
    }
}

/// A declaration or an expression spells its tokens.
proof fn lemma_spell_plain(s: Seq<char>, i: int, d: Dialect, st: StmtModel, ind: Seq<char>)
    requires
        st is Expr || st is VarDecl,
        stands(s, i, stmt_text(d, st, ind)),
        plain_stmt(d, st),
        !(d is Wgsl),
        all_white(ind),
    ensures
        spells(s, i, i + stmt_text(d, st, ind).len(), stmt_tokens(d, st)),
{
    reveal_keywords();
    lemma_simple_text(d, st, ind);
    let b = simple_text(d, st);
    lemma_split3(s, i, ind, b, ";\n"@);
    let p = i + ind.len();
    let q = p + b.len();
    assert(s[q + 0] == ";\n"@[0]);
    assert(s[q + 1] == ";\n"@[1]);
    lemma_whites(s, i, ind);
    lemma_spell_simple(s, p, d, st);
    lemma_blank_before(s, i, p, q + 1, simple_tokens(d, st));
    lemma_white(s, q + 1);
    lemma_blank_behind(s, i, q + 1, q + 2, simple_tokens(d, st));
}

/// The condition behind the body of a loop.
#[verifier::spinoff_prover]
proof fn lemma_spell_tail(s: Seq<char>, i: int, r: int, d: Dialect, c: ExprModel, h: Seq<TokenView>)
    requires
        spells(s, i, r, h),
        stands(s, r, " while ("@),
        stands(s, r + " while ("@.len(), expr_text(d, c)),
        stands(s, r + " while ("@.len() + expr_text(d, c).len(), ");\n"@),
        plain_expr(d, c),
        !(d is Wgsl),
    ensures
        spells(
            s,
            i,
            r + " while ("@.len() + expr_text(d, c).len() + ");\n"@.len(),
            h + word("while"@) + mark(Punct::LParen) + expr_tokens(d, c) + (mark(Punct::RParen)
                + mark(Punct::Semi)),
        ),
{
    reveal_keywords();
    reveal_marks();
    let q = r + " while ("@.len();
    let p = q + expr_text(d, c).len();
    lemma_stands_split(s, r, " "@, "while ("@);
    assert(s[r + 0] == " "@[0]);
    lemma_white(s, r);
    lemma_blank_behind(s, i, r, r + 1, h);
    lemma_keyword(s, r + 1, "while ("@, "while"@, seq![' ', '('], ' ', '(');
    lemma_spells_join(s, i, r + 1, q, h, word("while"@) + mark(Punct::LParen));
    let h1 = h + word("while"@) + mark(Punct::LParen);
    assert(h + (word("while"@) + mark(Punct::LParen)) =~= h1);
    lemma_stands_split(s, p, ")"@, ";\n"@);
    assert(s[p + 0] == ")"@[0]);
    lemma_spell_expr(s, q, d, c);
    lemma_spells_join(s, i, q, p, h1, expr_tokens(d, c));
    lemma_mark(s, p, ")"@, Punct::RParen);
    lemma_piece(s, p + 1, ";\n"@, ';', '\n');
    lemma_spells_join(s, p, p + 1, p + 3, mark(Punct::RParen), mark(Punct::Semi));
    lemma_spells_join(
        s,
        i,
        p,
        p + 3,
        h1 + expr_tokens(d, c),
        mark(Punct::RParen) + mark(Punct::Semi),
    );
}

/// The end of a function.
proof fn lemma_spell_return(
    s: Seq<char>,
    i: int,
    d: Dialect,
    value: Option<ExprModel>,
    ind: Seq<char>,
)
    requires
        stands(s, i, stmt_text(d, StmtModel::Return(value), ind)),
        plain_option(d, value),
        !(d is Wgsl),
        all_white(ind),
    ensures
        spells(
            s,
            i,
            i + stmt_text(d, StmtModel::Return(value), ind).len(),
            stmt_tokens(d, StmtModel::Return(value)),
        ),
{
    reveal_keywords();
    match value {
        None => {
            lemma_spell_word(s, i, ind, "return;\n"@, "return"@);
            assert(word("return"@) + Seq::empty() =~= word("return"@));
        },
        Some(e) => {
            let t = expr_text(d, e);
            lemma_split4(s, i, ind, "return "@, t, ";\n"@);
            let p = i + ind.len();
            let q = p + "return "@.len();
            let r = q + t.len();
            lemma_whites(s, i, ind);
            lemma_keyword(s, p, "return "@, "return"@, seq![' '], ' ', ' ');
            assert(word("return"@) + Seq::empty() =~= word("return"@));
            lemma_blank_before(s, i, p, q, word("return"@));
            assert(s[r + 0] == ";\n"@[0]);
            lemma_spell_expr(s, q, d, e);
            lemma_spells_join(s, i, q, r, word("return"@), expr_tokens(d, e));
            lemma_piece(s, r, ";\n"@, ';', '\n');
            lemma_spells_join(
                s,
                i,
                r,
                r + 2,
                word("return"@) + expr_tokens(d, e),
                mark(Punct::Semi),
            );
        },
    }
}

/// The text of statements spells their tokens.
proof fn lemma_spell_stmts(
    s: Seq<char>,
    i: int,
    d: Dialect,
    stmts: Seq<StmtModel>,
    n: nat,
    ind: Seq<char>,
)
    requires
        n <= stmts.len(),
        stands(s, i, stmts_text(d, stmts, n, ind)),
        forall|k: int| 0 <= k < stmts.len() ==> plain_stmt(d, #[trigger] stmts[k]),
        !(d is Wgsl),
        all_white(ind),
    ensures
        spells(s, i, i + stmts_text(d, stmts, n, ind).len(), stmts_tokens(d, stmts, n)),
    decreases stmts, n,
{
    if n == 0 {
        lemma_whites(s, i, Seq::empty());
    } else {
        let a = stmts_text(d, stmts, (n - 1) as nat, ind);
        let b = stmt_text(d, stmts[n - 1], ind);
        lemma_stands_split(s, i, a, b);
        lemma_spell_stmts(s, i, d, stmts, (n - 1) as nat, ind);
        lemma_spell_stmt(s, i + a.len(), d, stmts[n - 1], ind);
        lemma_spells_join(
            s,
            i,
            i + a.len(),
            i + a.len() + b.len(),
            stmts_tokens(d, stmts, (n - 1) as nat),
            stmt_tokens(d, stmts[n - 1]),
        );
    }
}

// ---------------------------------------------------------------------------
// Loops that leave by a break
// ---------------------------------------------------------------------------

/// The text that leaves a loop where a condition does not hold.
pub open spec fn guard_text(c: ExprModel) -> Seq<char> {
    "    if (!"@ + expr_text(Dialect::Glsl, c) + ") { break; }\n"@
}

/// The tokens that leave a loop where a condition does not hold.
pub open spec fn guard_tokens(c: ExprModel) -> Seq<TokenView> {
    word("if"@) + mark(Punct::LParen) + mark(Punct::Bang) + expr_tokens(Dialect::Glsl, c) + mark(
        Punct::RParen,
    ) + (mark(Punct::LBrace) + (word("break"@) + mark(Punct::Semi)) + mark(Punct::RBrace))
}

proof fn reveal_guard()
    ensures
        "    if (!"@ == "    "@ + "if ("@ + "!"@,
        ") { break; }\n"@ == seq![')', ' '] + seq!['{', ' '] + ("break"@ + seq![';', ' ']) + seq![
            '}',
            '\n',
        ],
{
    reveal_keywords();
    reveal_operators();
    reveal_strlit("    if (!");
    reveal_strlit("    ");
    reveal_strlit("if (");
    reveal_strlit("!");
    reveal_strlit(") { break; }\n");
    reveal_strlit("break");
    assert("    if (!"@ =~= "    "@ + "if ("@ + "!"@);
    assert(") { break; }\n"@ =~= seq![')', ' '] + seq!['{', ' '] + ("break"@ + seq![';', ' '])
        + seq!['}', '\n']);
}

#[verifier::spinoff_prover]
#[verifier::rlimit(40)]
proof fn lemma_spell_guard(s: Seq<char>, i: int, c: ExprModel)
    requires
        stands(s, i, guard_text(c)),
        plain_expr(Dialect::Glsl, c),
    ensures
        spells(s, i, i + guard_text(c).len(), guard_tokens(c)),
{
    let d = Dialect::Glsl;
    let t = expr_text(d, c);
    reveal_keywords();
    reveal_operators();
    reveal_guard();
    let end = ") { break; }\n"@;
    lemma_split3(s, i, "    if (!"@, t, end);
    lemma_split3(s, i, "    "@, "if ("@, "!"@);
    lemma_whites(s, i, "    "@);
    let p = i + "    "@.len();
    let q = p + "if ("@.len();
    let r = q + 1;
    let u = r + t.len();
    lemma_keyword(s, p, "if ("@, "if"@, seq![' ', '('], ' ', '(');
    let a = word("if"@) + mark(Punct::LParen);
    lemma_blank_before(s, i, p, q, a);
    lemma_first_char(d, c);
    assert(s[r + 0] == t[0]);
    lemma_unary_mark(s, q, UnaryOp::Not, t[0]);
    lemma_spells_join(s, i, q, r, a, mark(Punct::Bang));
    let b = a + mark(Punct::Bang);
    let x = seq![')', ' '];
    let y = seq!['{', ' '];
    let z = "break"@ + seq![';', ' '];
    let w = seq!['}', '\n'];
    lemma_split4(s, u, x, y, z, w);
    assert(s[u + 0] == x[0]);
    lemma_spell_expr(s, r, d, c);
    lemma_spells_join(s, i, r, u, b, expr_tokens(d, c));
    let e = b + expr_tokens(d, c);
    lemma_piece(s, u, x, ')', ' ');
    lemma_spells_join(s, i, u, u + 2, e, mark(Punct::RParen));
    lemma_piece(s, u + 2, y, '{', ' ');
    lemma_keyword(s, u + 4, z, "break"@, seq![';', ' '], ';', ' ');
    let g = word("break"@) + mark(Punct::Semi);
    let n = u + 4 + z.len();
    lemma_piece(s, n, w, '}', '\n');
    lemma_spells_join(s, u + 2, u + 4, n, mark(Punct::LBrace), g);
    lemma_spells_join(s, u + 2, n, n + 2, mark(Punct::LBrace) + g, mark(Punct::RBrace));
    lemma_spells_join(
        s,
        i,
        u + 2,
        n + 2,
        e + mark(Punct::RParen),
        mark(Punct::LBrace) + g + mark(Punct::RBrace),
    );
}

/// The block of a loop that is left by a guard before its statements, or behind
/// them.
pub open spec fn guarded_text(c: ExprModel, ss: Seq<StmtModel>, ind: Seq<char>, early: bool) -> Seq<
    char,
> {
    let body = stmts_text(Dialect::Glsl, ss, ss.len(), ind + "    "@);
    if early {
        "{\n"@ + ind + guard_text(c) + body + ind + "}\n"@
    } else {
        "{\n"@ + body + ind + guard_text(c) + ind + "}\n"@
    }
}

/// The tokens of such a block.
pub open spec fn guarded_tokens(c: ExprModel, ss: Seq<StmtModel>, early: bool) -> Seq<TokenView> {
    let body = stmts_tokens(Dialect::Glsl, ss, ss.len());
    if early {
        mark(Punct::LBrace) + guard_tokens(c) + body + mark(Punct::RBrace)
    } else {
        mark(Punct::LBrace) + body + guard_tokens(c) + mark(Punct::RBrace)
    }
}

#[verifier::spinoff_prover]
#[verifier::rlimit(40)]
pub(crate) proof fn lemma_spell_guarded(
    s: Seq<char>,
    i: int,
    c: ExprModel,
    ss: Seq<StmtModel>,
    ind: Seq<char>,
    early: bool,
)
    requires
        stands(s, i, guarded_text(c, ss, ind, early)),
        plain_expr(Dialect::Glsl, c),
        forall|k: int| 0 <= k < ss.len() ==> plain_stmt(Dialect::Glsl, #[trigger] ss[k]),
        all_white(ind),
    ensures
        spells(s, i, i + guarded_text(c, ss, ind, early).len(), guarded_tokens(c, ss, early)),
{
    let d = Dialect::Glsl;
    reveal_keywords();
    let inner = ind + "    "@;
    assert(all_white(inner));
    let b = stmts_text(d, ss, ss.len(), inner);
    let tb = stmts_tokens(d, ss, ss.len());
    let g = guard_text(c);
    let m = mark(Punct::LBrace);
    let z = i + guarded_text(c, ss, ind, early).len();
    if early {
        lemma_stands_split(s, i, "{\n"@ + ind + g + b + ind, "}\n"@);
        lemma_split5(s, i, "{\n"@, ind, g, b, ind);
        lemma_piece(s, i, "{\n"@, '{', '\n');
        let p = i + 2 + ind.len();
        let q = p + g.len();
        let r = q + b.len();
        lemma_whites(s, i + 2, ind);
        lemma_blank_behind(s, i, i + 2, p, m);
        lemma_spell_guard(s, p, c);
        lemma_spells_join(s, i, p, q, m, guard_tokens(c));
        lemma_spell_stmts(s, q, d, ss, ss.len(), inner);
        lemma_spells_join(s, i, q, r, m + guard_tokens(c), tb);
        lemma_whites(s, r, ind);
        lemma_blank_behind(s, i, r, r + ind.len(), m + guard_tokens(c) + tb);
        lemma_piece(s, r + ind.len(), "}\n"@, '}', '\n');
        lemma_spells_join(
            s,
            i,
            r + ind.len(),
            z,
            m + guard_tokens(c) + tb,
            mark(Punct::RBrace),
        );
    } else {
        lemma_stands_split(s, i, "{\n"@ + b + ind + g + ind, "}\n"@);
        lemma_split5(s, i, "{\n"@, b, ind, g, ind);
        lemma_piece(s, i, "{\n"@, '{', '\n');
        let p = i + 2 + b.len();
        let q = p + ind.len();
        let r = q + g.len();
        lemma_spell_stmts(s, i + 2, d, ss, ss.len(), inner);
        lemma_spells_join(s, i, i + 2, p, m, tb);
        lemma_whites(s, p, ind);
        lemma_blank_behind(s, i, p, q, m + tb);
        lemma_spell_guard(s, q, c);
        lemma_spells_join(s, i, q, r, m + tb, guard_tokens(c));
        lemma_whites(s, r, ind);
        lemma_blank_behind(s, i, r, r + ind.len(), m + tb + guard_tokens(c));
        lemma_piece(s, r + ind.len(), "}\n"@, '}', '\n');
        lemma_spells_join(
            s,
            i,
            r + ind.len(),
            z,
            m + tb + guard_tokens(c),
            mark(Punct::RBrace),
        );
    }
}

// ---------------------------------------------------------------------------
// Functions
// ---------------------------------------------------------------------------

/// Whether a function can be written down and read back.
pub open spec fn plain_function(d: Dialect, f: FnModel) -> bool {
    &&& is_plain_type(d, f.return_type)
    &&& is_name(f.name)
    &&& forall|i: int|
        0 <= i < f.params.len() ==> is_plain_type(d, (#[trigger] f.params[i]).0) && is_name(
            f.params[i].1,
        )
    &&& f.body is Block
    &&& plain_stmt(d, f.body)
}

/// The tokens of the first `n` parameters.
pub open spec fn params_tokens(d: Dialect, params: Seq<(SkslType, Seq<char>)>, n: nat) -> Seq<
    TokenView,
>
    decreases n,
{
    if n == 0 || n > params.len() {
        Seq::empty()
    } else {
        let before = if n == 1 {
            Seq::empty()
        } else {
            params_tokens(d, params, (n - 1) as nat) + mark(Punct::Comma)
        };
        before + word(d.type_text(params[n - 1].0)) + word(params[n - 1].1)
    }
}

/// The tokens of a function.
pub open spec fn function_tokens(d: Dialect, f: FnModel) -> Seq<TokenView> {
    word(d.type_text(f.return_type)) + word(f.name) + mark(Punct::LParen) + params_tokens(
        d,
        f.params,
        f.params.len(),
    ) + mark(Punct::RParen) + stmt_tokens(d, f.body)
}

#[verifier::spinoff_prover]
proof fn lemma_spell_params(
    s: Seq<char>,
    i: int,
    d: Dialect,
    params: Seq<(SkslType, Seq<char>)>,
    n: nat,
)
    requires
        n <= params.len(),
        !(d is Wgsl),
        forall|k: int|
            0 <= k < params.len() ==> is_plain_type(d, (#[trigger] params[k]).0) && is_name(
                params[k].1,
            ),
        0 <= i <= s.len(),
        stands(s, i, params_text(d, params, n)),
        at(s, i + params_text(d, params, n).len(), ',') || at(
            s,
            i + params_text(d, params, n).len(),
            ')',
        ),
    ensures
        spells(s, i, i + params_text(d, params, n).len(), params_tokens(d, params, n)),
    decreases n,
{
    reveal_marks();
    if n == 0 {
        lemma_whites(s, i, Seq::empty());
    } else {
        let (ty, name) = params[n - 1];
        let t = d.type_text(ty);
        let m = (n - 1) as nat;
        let before = if n == 1 {
            Seq::empty()
        } else {
            params_text(d, params, m) + ", "@
        };
        let tb = if n == 1 {
            Seq::empty()
        } else {
            params_tokens(d, params, m) + mark(Punct::Comma)
        };
        lemma_split4(s, i, before, t, " "@, name);
        let p = i + before.len();
        let q = p + t.len();
        let z = q + 1 + name.len();
        if n == 1 {
            lemma_whites(s, i, Seq::empty());
        } else {
            let a = params_text(d, params, m);
            lemma_stands_split(s, i, a, ", "@);
            assert(s[i + a.len() + 0] == ", "@[0]);
            lemma_spell_params(s, i, d, params, m);
            lemma_spaced(s, i + a.len(), ", "@, Punct::Comma);
            lemma_spells_join(
                s,
                i,
                i + a.len(),
                p,
                params_tokens(d, params, m),
                mark(Punct::Comma),
            );
        }
        assert(spells(s, i, p, tb));
        assert(s[q + 0] == " "@[0]);
        lemma_word(s, p, t);
        lemma_spells_join(s, i, p, q, tb, word(t));
        lemma_white(s, q);
        lemma_blank_behind(s, i, q, q + 1, tb + word(t));
        lemma_word(s, q + 1, name);
        lemma_spells_join(s, i, q + 1, z, tb + word(t), word(name));
    }
}

/// The text of a function spells its tokens.
#[verifier::spinoff_prover]
pub(crate) proof fn lemma_spell_function(s: Seq<char>, d: Dialect, f: FnModel)
    requires
        s == function_text(d, f),
        plain_function(d, f),
        !(d is Wgsl),
    ensures
        spells(s, 0, s.len() as int, function_tokens(d, f)),
{
    reveal_marks();
    reveal_keywords();
    reveal_strlit("");
    let t = d.type_text(f.return_type);
    let ps = params_text(d, f.params, f.params.len());
    let b = stmt_text(d, f.body, ""@);
    assert(stands(s, 0, s));
    lemma_split3(s, 0, t + " "@ + f.name + "("@ + ps, ") "@, b);
    lemma_split5(s, 0, t, " "@, f.name, "("@, ps);
    let p: int = t.len() as int;
    let q = p + 1 + f.name.len();
    let r = q + 1 + ps.len();
    assert(s[p + 0] == " "@[0]);
    assert(s[q + 0] == "("@[0]);
    assert(s[r + 0] == ") "@[0]);
    lemma_word(s, 0, t);
    lemma_white(s, p);
    lemma_blank_behind(s, 0, p, p + 1, word(t));
    lemma_word(s, p + 1, f.name);
    lemma_spells_join(s, 0, p + 1, q, word(t), word(f.name));
    let t1 = word(t) + word(f.name);
    lemma_mark(s, q, "("@, Punct::LParen);
    lemma_spells_join(s, 0, q, q + 1, t1, mark(Punct::LParen));
    let t2 = t1 + mark(Punct::LParen);
    lemma_spell_params(s, q + 1, d, f.params, f.params.len());
    let tp = params_tokens(d, f.params, f.params.len());
    lemma_spells_join(s, 0, q + 1, r, t2, tp);
    lemma_piece(s, r, ") "@, ')', ' ');
    lemma_spells_join(s, 0, r, r + 2, t2 + tp, mark(Punct::RParen));
    assert(all_white(""@));
    lemma_spell_stmt(s, r + 2, d, f.body, ""@);
    lemma_spells_join(
        s,
        0,
        r + 2,
        s.len() as int,
        t2 + tp + mark(Punct::RParen),
        stmt_tokens(d, f.body),
    );
}

} // verus!
