//! Splitting of SkSL source text into tokens.

use vstd::prelude::*;

use crate::sksl::ast::BinaryOp;
use crate::text::{char_is_white, is_white, push_chars};

verus! {

/// A punctuation mark or operator.
#[derive(Debug, Clone, Copy, PartialEq, Eq, Structural)]
pub enum Punct {
    /// `(`
    LParen,
    /// `)`
    RParen,
    /// `{`
    LBrace,
    /// `}`
    RBrace,
    /// `[`
    LBracket,
    /// `]`
    RBracket,
    /// `;`
    Semi,
    /// `,`
    Comma,
    /// `.`
    Dot,
    /// `?`
    Question,
    /// `:`
    Colon,
    /// `~`
    Tilde,
    /// `!`
    Bang,
    /// `=`
    Assign,
    /// `++`
    Inc,
    /// `--`
    Dec,
    /// A binary operator.
    Op(BinaryOp),
    /// A binary operator followed by `=`.
    OpAssign(BinaryOp),
}

/// A token.
#[derive(Debug)]
pub enum Token {
    /// Identifier or keyword.
    Word(String),
    /// Integer literal.
    Int(i32),
    /// Float literal, as the decimal text of the number written.
    Float(String),
    /// Punctuation.
    Punct(Punct),
}

/// What a token stands for.
pub enum TokenView {
    /// Identifier or keyword.
    Word(Seq<char>),
    /// Integer literal.
    Int(int),
    /// Float literal.
    Float(Seq<char>),
    /// Punctuation.
    Punct(Punct),
}

impl View for Token {
    type V = TokenView;

    open spec fn view(&self) -> TokenView {
        match *self {
            Token::Word(s) => TokenView::Word(s@),
            Token::Int(n) => TokenView::Int(n as int),
            Token::Float(s) => TokenView::Float(s@),
            Token::Punct(p) => TokenView::Punct(p),
        }
    }
}

/// The views of the tokens of a list.
pub open spec fn tokens_view(ts: Seq<Token>) -> Seq<TokenView> {
    Seq::new(ts.len(), |i: int| ts[i]@)
}

/// A decimal digit.
pub open spec fn is_digit(c: char) -> bool {
    '0' <= c && c <= '9'
}

/// A character that may start an identifier.
pub open spec fn is_word_start(c: char) -> bool {
    ('a' <= c && c <= 'z') || ('A' <= c && c <= 'Z') || c == '_'
}

/// A character that may stand inside an identifier.
pub open spec fn is_word_char(c: char) -> bool {
    is_word_start(c) || is_digit(c)
}

/// Whether `s` has the character `c` at `i`.
pub open spec fn at(s: Seq<char>, i: int, c: char) -> bool {
    0 <= i < s.len() && s[i] == c
}

/// The end of the run of digits that starts at `i`.
pub open spec fn digits_end(s: Seq<char>, i: int) -> int
    decreases s.len() - i,
{
    if 0 <= i < s.len() && is_digit(s[i]) {
        digits_end(s, i + 1)
    } else {
        i
    }
}

/// The end of the run of identifier characters that starts at `i`.
pub open spec fn word_end(s: Seq<char>, i: int) -> int
    decreases s.len() - i,
{
    if 0 <= i < s.len() && is_word_char(s[i]) {
        word_end(s, i + 1)
    } else {
        i
    }
}

/// The end of the line that `i` lies in: its newline, or the end of the text.
pub open spec fn line_end(s: Seq<char>, i: int) -> int
    decreases s.len() - i,
{
    if 0 <= i < s.len() && s[i] != '\n' {
        line_end(s, i + 1)
    } else {
        i
    }
}

/// The position behind the next `*/`, if there is one.
pub open spec fn comment_end(s: Seq<char>, i: int) -> Option<int>
    decreases s.len() - i,
{
    if 0 <= i && i + 1 < s.len() {
        if s[i] == '*' && s[i + 1] == '/' {
            Some(i + 2)
        } else {
            comment_end(s, i + 1)
        }
    } else {
        None
    }
}

/// The value of a decimal digit.
pub open spec fn digit_value(c: char) -> int {
    c as int - '0' as int
}

/// The number that a run of digits spells.
pub open spec fn digits_value(s: Seq<char>) -> int
    decreases s.len(),
{
    if s.len() == 0 {
        0
    } else {
        digits_value(s.drop_last()) * 10 + digit_value(s.last())
    }
}

/// `n` zeros.
pub open spec fn zeros(n: int) -> Seq<char> {
    Seq::new(
        if n > 0 {
            n as nat
        } else {
            0
        },
        |i: int| '0',
    )
}

/// `s` without its leading zeros.
pub open spec fn strip_leading_zeros(s: Seq<char>) -> Seq<char>
    decreases s.len(),
{
    if s.len() > 0 && s[0] == '0' {
        strip_leading_zeros(s.skip(1))
    } else {
        s
    }
}

/// `s` without its trailing zeros.
pub open spec fn strip_trailing_zeros(s: Seq<char>) -> Seq<char>
    decreases s.len(),
{
    if s.len() > 0 && s.last() == '0' {
        strip_trailing_zeros(s.drop_last())
    } else {
        s
    }
}

/// The positional text of the number whose digits are `whole` before and
/// `fraction` behind the point.
pub open spec fn positional(whole: Seq<char>, fraction: Seq<char>) -> Seq<char> {
    let w = strip_leading_zeros(whole);
    let f = strip_trailing_zeros(fraction);
    let head = if w.len() == 0 {
        seq!['0']
    } else {
        w
    };
    if f.len() == 0 {
        head
    } else {
        head.push('.') + f
    }
}

/// The positional text of `whole.fraction` times ten to the power `exp`.
pub open spec fn scaled(whole: Seq<char>, fraction: Seq<char>, exp: int) -> Seq<char> {
    if exp >= 0 {
        let padded = fraction + zeros(exp - fraction.len());
        positional(whole + padded.take(exp), padded.skip(exp))
    } else {
        let padded = zeros(-exp - whole.len()) + whole;
        positional(padded.take(padded.len() + exp), padded.skip(padded.len() + exp) + fraction)
    }
}

/// What the text at a position starts with.
pub enum Step {
    /// The end of the text.
    End,
    /// Whitespace or a comment, up to the given position.
    Skip(int),
    /// A token, up to the given position.
    Tok(TokenView, int),
    /// Nothing that belongs to the language.
    Bad,
}

/// The punctuation at `i` with its length, if there is any. The longest
/// spelling wins.
pub open spec fn punct_at(s: Seq<char>, i: int) -> Option<(Punct, int)> {
    if at(s, i, '(') {
        Some((Punct::LParen, 1))
    } else if at(s, i, ')') {
        Some((Punct::RParen, 1))
    } else if at(s, i, '{') {
        Some((Punct::LBrace, 1))
    } else if at(s, i, '}') {
        Some((Punct::RBrace, 1))
    } else if at(s, i, '[') {
        Some((Punct::LBracket, 1))
    } else if at(s, i, ']') {
        Some((Punct::RBracket, 1))
    } else if at(s, i, ';') {
        Some((Punct::Semi, 1))
    } else if at(s, i, ',') {
        Some((Punct::Comma, 1))
    } else if at(s, i, '.') {
        Some((Punct::Dot, 1))
    } else if at(s, i, '?') {
        Some((Punct::Question, 1))
    } else if at(s, i, ':') {
        Some((Punct::Colon, 1))
    } else if at(s, i, '~') {
        Some((Punct::Tilde, 1))
    } else if at(s, i, '!') {
        if at(s, i + 1, '=') {
            Some((Punct::Op(BinaryOp::NotEq), 2))
        } else {
            Some((Punct::Bang, 1))
        }
    } else if at(s, i, '=') {
        if at(s, i + 1, '=') {
            Some((Punct::Op(BinaryOp::Eq), 2))
        } else {
            Some((Punct::Assign, 1))
        }
    } else if at(s, i, '+') {
        if at(s, i + 1, '+') {
            Some((Punct::Inc, 2))
        } else {
            Some(op_at(s, i, 1, BinaryOp::Add))
        }
    } else if at(s, i, '-') {
        if at(s, i + 1, '-') {
            Some((Punct::Dec, 2))
        } else {
            Some(op_at(s, i, 1, BinaryOp::Sub))
        }
    } else if at(s, i, '*') {
        Some(op_at(s, i, 1, BinaryOp::Mul))
    } else if at(s, i, '/') {
        Some(op_at(s, i, 1, BinaryOp::Div))
    } else if at(s, i, '%') {
        Some(op_at(s, i, 1, BinaryOp::Mod))
    } else if at(s, i, '&') {
        if at(s, i + 1, '&') {
            Some((Punct::Op(BinaryOp::And), 2))
        } else {
            Some(op_at(s, i, 1, BinaryOp::BitAnd))
        }
    } else if at(s, i, '|') {
        if at(s, i + 1, '|') {
            Some((Punct::Op(BinaryOp::Or), 2))
        } else {
            Some(op_at(s, i, 1, BinaryOp::BitOr))
        }
    } else if at(s, i, '^') {
        Some(op_at(s, i, 1, BinaryOp::BitXor))
    } else if at(s, i, '<') {
        if at(s, i + 1, '<') {
            Some(op_at(s, i, 2, BinaryOp::Shl))
        } else if at(s, i + 1, '=') {
            Some((Punct::Op(BinaryOp::LtEq), 2))
        } else {
            Some((Punct::Op(BinaryOp::Lt), 1))
        }
    } else if at(s, i, '>') {
        if at(s, i + 1, '>') {
            Some(op_at(s, i, 2, BinaryOp::Shr))
        } else if at(s, i + 1, '=') {
            Some((Punct::Op(BinaryOp::GtEq), 2))
        } else {
            Some((Punct::Op(BinaryOp::Gt), 1))
        }
    } else {
        None
    }
}

/// The operator `op` of length `n` at `i`, or its assigning form when `=`
/// follows.
pub open spec fn op_at(s: Seq<char>, i: int, n: int, op: BinaryOp) -> (Punct, int) {
    if at(s, i + n, '=') {
        (Punct::OpAssign(op), n + 1)
    } else {
        (Punct::Op(op), n)
    }
}

/// The position behind an exponent at `i`, and its value. An exponent is `e`,
/// an optional sign, and one or two digits; `None` is a malformed one.
pub open spec fn exponent_at(s: Seq<char>, i: int) -> Option<(int, int)> {
    if at(s, i, 'e') || at(s, i, 'E') {
        let d = if at(s, i + 1, '-') || at(s, i + 1, '+') {
            i + 2
        } else {
            i + 1
        };
        let end = digits_end(s, d);
        if end == d || end > d + 2 {
            None
        } else {
            let v = digits_value(s.subrange(d, end));
            Some((
                end,
                if at(s, i + 1, '-') {
                    -v
                } else {
                    v
                },
            ))
        }
    } else {
        Some((i, 0))
    }
}

/// The number that starts at `i`. It is a float when it has a point, an
/// exponent or an `f` behind it; an integer must fit 32 bits.
pub open spec fn number_at(s: Seq<char>, i: int) -> Step {
    let w = digits_end(s, i);
    let point = at(s, w, '.');
    let f = if point {
        digits_end(s, w + 1)
    } else {
        w
    };
    match exponent_at(s, f) {
        None => Step::Bad,
        Some((e, exp)) => {
            let suffix = at(s, e, 'f') || at(s, e, 'F');
            let end = if suffix {
                e + 1
            } else {
                e
            };
            if end < s.len() && is_word_char(s[end]) {
                Step::Bad
            } else if !point && e == f && !suffix {
                let v = digits_value(s.subrange(i, w));
                if v <= i32::MAX {
                    Step::Tok(TokenView::Int(v), end)
                } else {
                    Step::Bad
                }
            } else {
                let fraction = if point {
                    s.subrange(w + 1, f)
                } else {
                    Seq::empty()
                };
                Step::Tok(TokenView::Float(scaled(s.subrange(i, w), fraction, exp)), end)
            }
        },
    }
}

/// What the text at `i` starts with.
pub open spec fn step_at(s: Seq<char>, i: int) -> Step {
    if i >= s.len() {
        Step::End
    } else if is_white(s[i]) {
        Step::Skip(i + 1)
    } else if s[i] == '/' && at(s, i + 1, '/') {
        Step::Skip(line_end(s, i))
    } else if s[i] == '/' && at(s, i + 1, '*') {
        match comment_end(s, i + 2) {
            Some(e) => Step::Skip(e),
            None => Step::Bad,
        }
    } else if is_word_start(s[i]) {
        Step::Tok(TokenView::Word(s.subrange(i, word_end(s, i))), word_end(s, i))
    } else if is_digit(s[i]) || (s[i] == '.' && i + 1 < s.len() && is_digit(s[i + 1])) {
        number_at(s, i)
    } else {
        match punct_at(s, i) {
            Some((p, n)) => Step::Tok(TokenView::Punct(p), i + n),
            None => Step::Bad,
        }
    }
}

/// The tokens of the text from `i` on, or the position of the first character
/// that starts no token. The comparisons of positions always hold; they make
/// the progress of the recursion evident.
pub open spec fn lexed(s: Seq<char>, i: int) -> Result<Seq<TokenView>, int>
    decreases s.len() - i,
{
    match step_at(s, i) {
        Step::End => Ok(Seq::empty()),
        Step::Bad => Err(i),
        Step::Skip(j) => if i < j <= s.len() {
            lexed(s, j)
        } else {
            Err(i)
        },
        Step::Tok(t, j) => if i < j <= s.len() {
            match lexed(s, j) {
                Ok(rest) => Ok(seq![t] + rest),
                Err(e) => Err(e),
            }
        } else {
            Err(i)
        },
    }
}

/// Whether `c` is a decimal digit.
pub fn char_is_digit(c: char) -> (r: bool)
    ensures
        r == is_digit(c),
{
    '0' <= c && c <= '9'
}

/// Whether `c` may start an identifier.
pub fn char_starts_word(c: char) -> (r: bool)
    ensures
        r == is_word_start(c),
{
    ('a' <= c && c <= 'z') || ('A' <= c && c <= 'Z') || c == '_'
}

/// Whether `c` may stand inside an identifier.
pub fn char_in_word(c: char) -> (r: bool)
    ensures
        r == is_word_char(c),
{
    char_starts_word(c) || char_is_digit(c)
}

/// Whether `s` has the character `c` at `i`.
fn has_at(s: &[char], i: usize, c: char) -> (r: bool)
    ensures
        r == at(s@, i as int, c),
{
    i < s.len() && s[i] == c
}

/// The end of the run of digits at `i`.
fn find_digits_end(s: &[char], i: usize) -> (e: usize)
    requires
        i <= s@.len(),
    ensures
        e == digits_end(s@, i as int),
        i <= e <= s@.len(),
        i < s@.len() && is_digit(s@[i as int]) ==> i < e,
        forall|k: int| i <= k < e ==> is_digit(#[trigger] s@[k]),
{
    let mut e: usize = i;
    while e < s.len() && char_is_digit(s[e])
        invariant
            i <= e <= s@.len(),
            digits_end(s@, i as int) == digits_end(s@, e as int),
            forall|k: int| i <= k < e ==> is_digit(#[trigger] s@[k]),
        ensures
            i <= e <= s@.len(),
            digits_end(s@, i as int) == e,
            e == s@.len() || !is_digit(s@[e as int]),
            forall|k: int| i <= k < e ==> is_digit(#[trigger] s@[k]),
        decreases s@.len() - e,
    {
        e = e + 1;
    }
    e
}

/// The end of the run of identifier characters at `i`.
pub fn find_word_end(s: &[char], i: usize) -> (e: usize)
    requires
        i <= s@.len(),
    ensures
        e == word_end(s@, i as int),
        i <= e <= s@.len(),
{
    let mut e: usize = i;
    while e < s.len() && char_in_word(s[e])
        invariant
            i <= e <= s@.len(),
            word_end(s@, i as int) == word_end(s@, e as int),
        ensures
            i <= e <= s@.len(),
            word_end(s@, i as int) == e,
        decreases s@.len() - e,
    {
        e = e + 1;
    }
    e
}

/// The end of the line that `i` lies in.
pub fn find_line_end(s: &[char], i: usize) -> (e: usize)
    requires
        i <= s@.len(),
    ensures
        e == line_end(s@, i as int),
        i <= e <= s@.len(),
{
    let mut e: usize = i;
    while e < s.len() && s[e] != '\n'
        invariant
            i <= e <= s@.len(),
            line_end(s@, i as int) == line_end(s@, e as int),
        ensures
            i <= e <= s@.len(),
            line_end(s@, i as int) == e,
        decreases s@.len() - e,
    {
        e = e + 1;
    }
    e
}

/// The position behind the next `*/`.
fn find_comment_end(s: &[char], i: usize) -> (e: Option<usize>)
    requires
        i <= s@.len(),
    ensures
        match e {
            Some(p) => comment_end(s@, i as int) == Some(p as int) && i < p <= s@.len(),
            None => comment_end(s@, i as int) is None,
        },
{
    let mut k: usize = i;
    while k < s.len() && k + 1 < s.len()
        invariant
            i <= k <= s@.len(),
            comment_end(s@, i as int) == comment_end(s@, k as int),
        decreases s@.len() - k,
    {
        if s[k] == '*' && s[k + 1] == '/' {
            return Some(k + 2);
        }
        k = k + 1;
    }
    None
}

/// The number that the digits `s[i..e]` spell, unless it exceeds an `i32`.
fn read_digits(s: &[char], i: usize, e: usize) -> (v: Option<i32>)
    requires
        i <= e <= s@.len(),
        forall|k: int| i <= k < e ==> is_digit(#[trigger] s@[k]),
    ensures
        match v {
            Some(n) => n == digits_value(s@.subrange(i as int, e as int)),
            None => digits_value(s@.subrange(i as int, e as int)) > i32::MAX,
        },
        v is Some ==> v->0 >= 0,
{
    let mut v: i64 = 0;
    let mut over: bool = false;
    let mut k: usize = i;
    assert(s@.subrange(i as int, k as int) =~= Seq::<char>::empty());
    while k < e
        invariant
            i <= k <= e <= s@.len(),
            forall|j: int| i <= j < e ==> is_digit(#[trigger] s@[j]),
            !over ==> v == digits_value(s@.subrange(i as int, k as int)),
            !over ==> 0 <= v <= i32::MAX,
            over ==> digits_value(s@.subrange(i as int, k as int)) > i32::MAX,
        decreases e - k,
    {
        proof {
            let a = s@.subrange(i as int, k as int);
            let b = s@.subrange(i as int, k + 1);
            assert(b.drop_last() =~= a);
            assert(b.last() == s@[k as int]);
            assert(is_digit(s@[k as int]));
        }
        if !over {
            v = v * 10 + (s[k] as i64 - '0' as i64);
            if v > i32::MAX as i64 {
                over = true;
                v = 0;
            }
        }
        k = k + 1;
    }
    if over {
        None
    } else {
        Some(v as i32)
    }
}

/// Dropping a leading run of zeros in one step.
proof fn lemma_strip_leading(s: Seq<char>, k: int)
    requires
        0 <= k <= s.len(),
        forall|i: int| 0 <= i < k ==> #[trigger] s[i] == '0',
        k < s.len() ==> s[k] != '0',
    ensures
        strip_leading_zeros(s) == s.skip(k),
    decreases k,
{
    if k == 0 {
        assert(s.skip(0) =~= s);
    } else {
        let t = s.skip(1);
        assert forall|i: int| 0 <= i < k - 1 implies #[trigger] t[i] == '0' by {
            assert(t[i] == s[i + 1]);
        }
        assert(s[0] == '0');
        lemma_strip_leading(t, k - 1);
        assert(t.skip(k - 1) =~= s.skip(k));
    }
}

/// Dropping a trailing run of zeros in one step.
proof fn lemma_strip_trailing(s: Seq<char>, k: int)
    requires
        0 <= k <= s.len(),
        forall|i: int| k <= i < s.len() ==> #[trigger] s[i] == '0',
        k > 0 ==> s[k - 1] != '0',
    ensures
        strip_trailing_zeros(s) == s.take(k),
    decreases s.len() - k,
{
    if k == s.len() {
        assert(s.take(k) =~= s);
    } else {
        assert(s[s.len() - 1] == '0');
        let t = s.drop_last();
        lemma_strip_trailing(t, k);
        assert(t.take(k) =~= s.take(k));
    }
}

/// Writes the number with the given digits before and behind the point.
fn positional_text(whole: &Vec<char>, fraction: &Vec<char>) -> (out: String)
    ensures
        out@ == positional(whole@, fraction@),
{
    let mut from: usize = 0;
    while from < whole.len() && whole[from] == '0'
        invariant
            from <= whole@.len(),
            forall|i: int| 0 <= i < from ==> #[trigger] whole@[i] == '0',
        ensures
            from <= whole@.len(),
            forall|i: int| 0 <= i < from ==> #[trigger] whole@[i] == '0',
            from < whole@.len() ==> whole@[from as int] != '0',
        decreases whole@.len() - from,
    {
        from = from + 1;
    }
    let mut to: usize = fraction.len();
    while 0 < to && fraction[to - 1] == '0'
        invariant
            to <= fraction@.len(),
            forall|i: int| to <= i < fraction@.len() ==> #[trigger] fraction@[i] == '0',
        ensures
            to <= fraction@.len(),
            forall|i: int| to <= i < fraction@.len() ==> #[trigger] fraction@[i] == '0',
            to > 0 ==> fraction@[to - 1] != '0',
        decreases to,
    {
        to = to - 1;
    }
    proof {
        lemma_strip_leading(whole@, from as int);
        lemma_strip_trailing(fraction@, to as int);
        assert(whole@.skip(from as int) =~= whole@.subrange(from as int, whole@.len() as int));
        assert(fraction@.take(to as int) =~= fraction@.subrange(0, to as int));
    }
    let mut out: String = String::new();
    if from < whole.len() {
        push_chars(&mut out, whole.as_slice(), from, whole.len());
    } else {
        out.push('0');
    }
    if to > 0 {
        out.push('.');
        push_chars(&mut out, fraction.as_slice(), 0, to);
    }
    assert(out@ =~= positional(whole@, fraction@));
    out
}

/// Appends `s[from..to]`.
fn extend(v: &mut Vec<char>, s: &[char], from: usize, to: usize)
    requires
        from <= to <= s@.len(),
    ensures
        final(v)@ == old(v)@ + s@.subrange(from as int, to as int),
{
    let mut i: usize = from;
    assert(v@ =~= old(v)@ + s@.subrange(from as int, i as int));
    while i < to
        invariant
            from <= i <= to <= s@.len(),
            v@ == old(v)@ + s@.subrange(from as int, i as int),
        decreases to - i,
    {
        v.push(s[i]);
        assert(v@ =~= old(v)@ + s@.subrange(from as int, i + 1));
        i = i + 1;
    }
}

/// Appends zeros until `v` has `n` elements.
fn pad_zeros(v: &mut Vec<char>, n: usize)
    ensures
        final(v)@ == old(v)@ + zeros(n - old(v)@.len()),
{
    assert(v@ =~= old(v)@ + zeros(v@.len() - old(v)@.len()));
    while v.len() < n
        invariant
            old(v)@.len() <= v@.len(),
            v@.len() <= n || v@.len() == old(v)@.len(),
            v@ == old(v)@ + zeros(v@.len() - old(v)@.len()),
        decreases n - v@.len(),
    {
        v.push('0');
        assert(v@ =~= old(v)@ + zeros(v@.len() - old(v)@.len()));
    }
    assert(v@ =~= old(v)@ + zeros(n - old(v)@.len()));
}

/// Writes `whole.fraction` times ten to the power `exp` without an exponent.
fn scaled_text(whole: &[char], fraction: &[char], exp: i32) -> (out: String)
    requires
        -99 <= exp <= 99,
    ensures
        out@ == scaled(whole@, fraction@, exp as int),
{
    let mut w: Vec<char> = Vec::new();
    let mut f: Vec<char> = Vec::new();
    if exp >= 0 {
        let shift: usize = exp as usize;
        let mut padded: Vec<char> = Vec::new();
        extend(&mut padded, fraction, 0, fraction.len());
        assert(padded@ =~= fraction@);
        pad_zeros(&mut padded, shift);
        extend(&mut w, whole, 0, whole.len());
        extend(&mut w, padded.as_slice(), 0, shift);
        extend(&mut f, padded.as_slice(), shift, padded.len());
        assert(w@ =~= whole@ + padded@.take(exp as int));
        assert(f@ =~= padded@.skip(exp as int));
    } else {
        let shift: usize = (-exp) as usize;
        let mut padded: Vec<char> = Vec::new();
        if whole.len() < shift {
            pad_zeros(&mut padded, shift - whole.len());
        }
        assert(padded@ =~= zeros(-exp - whole@.len()));
        extend(&mut padded, whole, 0, whole.len());
        assert(padded@ =~= zeros(-exp - whole@.len()) + whole@);
        let split: usize = padded.len() - shift;
        extend(&mut w, padded.as_slice(), 0, split);
        extend(&mut f, padded.as_slice(), split, padded.len());
        extend(&mut f, fraction, 0, fraction.len());
        assert(w@ =~= padded@.take(padded@.len() + exp));
        assert(f@ =~= padded@.skip(padded@.len() + exp) + fraction@);
    }
    positional_text(&w, &f)
}

/// What the text at a position starts with.
enum Found {
    End,
    Skip(usize),
    Tok(Token, usize),
    Bad,
}

impl View for Found {
    type V = Step;

    closed spec fn view(&self) -> Step {
        match *self {
            Found::End => Step::End,
            Found::Skip(j) => Step::Skip(j as int),
            Found::Tok(t, j) => Step::Tok(t@, j as int),
            Found::Bad => Step::Bad,
        }
    }
}

/// Reads the operator of length `n` at `i`, or its assigning form.
fn read_op(s: &[char], i: usize, n: usize, op: BinaryOp) -> (r: (Punct, usize))
    requires
        i + n <= s@.len(),
        n > 0,
    ensures
        (r.0, r.1 as int) == op_at(s@, i as int, n as int, op),
        i + r.1 <= s@.len(),
        r.1 > 0,
{
    let len: usize = s.len();
    if i + n < len && s[i + n] == '=' {
        (Punct::OpAssign(op), n + 1)
    } else {
        (Punct::Op(op), n)
    }
}

/// Reads the punctuation at `i`.
fn read_punct(s: &[char], i: usize) -> (r: Option<(Punct, usize)>)
    requires
        i < s@.len(),
    ensures
        match r {
            Some(p) => punct_at(s@, i as int) == Some((p.0, p.1 as int)) && p.1 > 0 && i + p.1
                <= s@.len(),
            None => punct_at(s@, i as int) is None,
        },
{
    let c: char = s[i];
    if c == '(' {
        Some((Punct::LParen, 1))
    } else if c == ')' {
        Some((Punct::RParen, 1))
    } else if c == '{' {
        Some((Punct::LBrace, 1))
    } else if c == '}' {
        Some((Punct::RBrace, 1))
    } else if c == '[' {
        Some((Punct::LBracket, 1))
    } else if c == ']' {
        Some((Punct::RBracket, 1))
    } else if c == ';' {
        Some((Punct::Semi, 1))
    } else if c == ',' {
        Some((Punct::Comma, 1))
    } else if c == '.' {
        Some((Punct::Dot, 1))
    } else if c == '?' {
        Some((Punct::Question, 1))
    } else if c == ':' {
        Some((Punct::Colon, 1))
    } else if c == '~' {
        Some((Punct::Tilde, 1))
    } else if c == '!' {
        if has_at(s, i + 1, '=') {
            Some((Punct::Op(BinaryOp::NotEq), 2))
        } else {
            Some((Punct::Bang, 1))
        }
    } else if c == '=' {
        if has_at(s, i + 1, '=') {
            Some((Punct::Op(BinaryOp::Eq), 2))
        } else {
            Some((Punct::Assign, 1))
        }
    } else if c == '+' {
        if has_at(s, i + 1, '+') {
            Some((Punct::Inc, 2))
        } else {
            Some(read_op(s, i, 1, BinaryOp::Add))
        }
    } else if c == '-' {
        if has_at(s, i + 1, '-') {
            Some((Punct::Dec, 2))
        } else {
            Some(read_op(s, i, 1, BinaryOp::Sub))
        }
    } else if c == '*' {
        Some(read_op(s, i, 1, BinaryOp::Mul))
    } else if c == '/' {
        Some(read_op(s, i, 1, BinaryOp::Div))
    } else if c == '%' {
        Some(read_op(s, i, 1, BinaryOp::Mod))
    } else if c == '&' {
        if has_at(s, i + 1, '&') {
            Some((Punct::Op(BinaryOp::And), 2))
        } else {
            Some(read_op(s, i, 1, BinaryOp::BitAnd))
        }
    } else if c == '|' {
        if has_at(s, i + 1, '|') {
            Some((Punct::Op(BinaryOp::Or), 2))
        } else {
            Some(read_op(s, i, 1, BinaryOp::BitOr))
        }
    } else if c == '^' {
        Some(read_op(s, i, 1, BinaryOp::BitXor))
    } else if c == '<' {
        if has_at(s, i + 1, '<') {
            Some(read_op(s, i, 2, BinaryOp::Shl))
        } else if has_at(s, i + 1, '=') {
            Some((Punct::Op(BinaryOp::LtEq), 2))
        } else {
            Some((Punct::Op(BinaryOp::Lt), 1))
        }
    } else if c == '>' {
        if has_at(s, i + 1, '>') {
            Some(read_op(s, i, 2, BinaryOp::Shr))
        } else if has_at(s, i + 1, '=') {
            Some((Punct::Op(BinaryOp::GtEq), 2))
        } else {
            Some((Punct::Op(BinaryOp::Gt), 1))
        }
    } else {
        None
    }
}

/// A number of at most two digits is below a hundred.
proof fn lemma_two_digits(s: Seq<char>)
    requires
        s.len() <= 2,
        forall|i: int| 0 <= i < s.len() ==> is_digit(#[trigger] s[i]),
    ensures
        0 <= digits_value(s) <= 99,
{
    reveal_with_fuel(digits_value, 3);
    if s.len() == 1 {
        assert(is_digit(s[0]));
    }
    if s.len() == 2 {
        assert(is_digit(s[0]));
        assert(is_digit(s[1]));
        assert(s.drop_last().last() == s[0]);
    }
}

/// Reads the exponent at `i`.
fn read_exponent(s: &[char], i: usize) -> (r: Option<(usize, i32)>)
    requires
        i <= s@.len(),
    ensures
        match r {
            Some(x) => exponent_at(s@, i as int) == Some((x.0 as int, x.1 as int)) && i <= x.0
                <= s@.len() && -99 <= x.1 <= 99,
            None => exponent_at(s@, i as int) is None,
        },
{
    let len: usize = s.len();
    if i < len && (s[i] == 'e' || s[i] == 'E') {
        let negative: bool = has_at(s, i + 1, '-');
        let d: usize = if negative || has_at(s, i + 1, '+') {
            i + 2
        } else {
            i + 1
        };
        let end: usize = find_digits_end(s, d);
        if end == d || end - d > 2 {
            return None;
        }
        proof {
            let t = s@.subrange(d as int, end as int);
            assert forall|k: int| 0 <= k < t.len() implies is_digit(#[trigger] t[k]) by {
                assert(t[k] == s@[d + k]);
            }
            lemma_two_digits(t);
        }
        match read_digits(s, d, end) {
            None => None,
            Some(v) => Some((end, if negative {
                -v
            } else {
                v
            })),
        }
    } else {
        Some((i, 0))
    }
}

/// Reads the number at `i`.
fn read_number(s: &[char], i: usize) -> (r: Found)
    requires
        i < s@.len(),
        is_digit(s@[i as int]) || (s@[i as int] == '.' && i + 1 < s@.len() && is_digit(
            s@[i + 1],
        )),
    ensures
        r@ == number_at(s@, i as int),
        match r {
            Found::Tok(_, j) => i < j <= s@.len(),
            Found::Bad => true,
            _ => false,
        },
{
    let len: usize = s.len();
    let w: usize = find_digits_end(s, i);
    let point: bool = w < len && s[w] == '.';
    let f: usize = if point {
        find_digits_end(s, w + 1)
    } else {
        w
    };
    assert(i < f);
    match read_exponent(s, f) {
        None => Found::Bad,
        Some(x) => {
            let e: usize = x.0;
            let suffix: bool = e < len && (s[e] == 'f' || s[e] == 'F');
            let end: usize = if suffix {
                e + 1
            } else {
                e
            };
            if end < s.len() && char_in_word(s[end]) {
                Found::Bad
            } else if !point && e == f && !suffix {
                match read_digits(s, i, w) {
                    Some(v) => Found::Tok(Token::Int(v), end),
                    None => Found::Bad,
                }
            } else {
                let mut whole: Vec<char> = Vec::new();
                extend(&mut whole, s, i, w);
                let mut fraction: Vec<char> = Vec::new();
                if point {
                    extend(&mut fraction, s, w + 1, f);
                    assert(fraction@ =~= s@.subrange(w + 1, f as int));
                }
                assert(whole@ =~= s@.subrange(i as int, w as int));
                let t: String = scaled_text(whole.as_slice(), fraction.as_slice(), x.1);
                Found::Tok(Token::Float(t), end)
            }
        },
    }
}

/// Reads what the text at `i` starts with.
fn read_step(s: &[char], i: usize) -> (r: Found)
    requires
        i <= s@.len(),
    ensures
        r@ == step_at(s@, i as int),
        match r {
            Found::End => i == s@.len(),
            Found::Skip(j) => i < j <= s@.len(),
            Found::Tok(_, j) => i < j <= s@.len(),
            Found::Bad => true,
        },
{
    if i >= s.len() {
        return Found::End;
    }
    let c: char = s[i];
    if char_is_white(c) {
        Found::Skip(i + 1)
    } else if c == '/' && has_at(s, i + 1, '/') {
        Found::Skip(find_line_end(s, i + 1))
    } else if c == '/' && has_at(s, i + 1, '*') {
        match find_comment_end(s, i + 2) {
            Some(e) => Found::Skip(e),
            None => Found::Bad,
        }
    } else if char_starts_word(c) {
        let e: usize = find_word_end(s, i + 1);
        let mut t: String = String::new();
        push_chars(&mut t, s, i, e);
        assert(t@ =~= s@.subrange(i as int, e as int));
        Found::Tok(Token::Word(t), e)
    } else if char_is_digit(c) || (c == '.' && i + 1 < s.len() && char_is_digit(s[i + 1])) {
        read_number(s, i)
    } else {
        match read_punct(s, i) {
            Some(p) => Found::Tok(Token::Punct(p.0), i + p.1),
            None => Found::Bad,
        }
    }
}

/// Splits a text into tokens. The error is the position of the first
/// character that starts no token.
pub fn lex(s: &[char]) -> (r: Result<Vec<Token>, usize>)
    ensures
        match r {
            Ok(ts) => lexed(s@, 0) == Ok::<Seq<TokenView>, int>(tokens_view(ts@)),
            Err(p) => lexed(s@, 0) == Err::<Seq<TokenView>, int>(p as int) && p <= s@.len(),
        },
{
    let mut out: Vec<Token> = Vec::new();
    let mut i: usize = 0;
    let ghost whole = lexed(s@, 0);
    assert(whole is Ok ==> whole->Ok_0 =~= tokens_view(out@) + whole->Ok_0);
    loop
        invariant
            i <= s@.len(),
            whole == lexed(s@, 0),
            match lexed(s@, i as int) {
                Ok(rest) => whole == Ok::<Seq<TokenView>, int>(tokens_view(out@) + rest),
                Err(p) => whole == Err::<Seq<TokenView>, int>(p),
            },
        decreases s@.len() - i,
    {
        match read_step(s, i) {
            Found::End => {
                assert(tokens_view(out@) + Seq::<TokenView>::empty() =~= tokens_view(out@));
                return Ok(out);
            },
            Found::Bad => {
                return Err(i);
            },
            Found::Skip(j) => {
                i = j;
            },
            Found::Tok(t, j) => {
                let ghost before = out@;
                out.push(t);
                proof {
                    let rest = lexed(s@, j as int);
                    if rest is Ok {
                        assert(tokens_view(before) + (seq![t@] + rest->Ok_0) =~= tokens_view(out@)
                            + rest->Ok_0);
                    }
                }
                i = j;
            },
        }
    }
}

} // verus!
