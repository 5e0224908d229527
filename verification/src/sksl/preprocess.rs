//! The preprocessor: `#define`, `#undef`, `#ifdef`, `#ifndef`, `#else` and
//! `#endif`, one line at a time.

use vstd::prelude::*;

use crate::sksl::lex::{
    char_in_word, char_starts_word, find_line_end, is_word_char, is_word_start, line_end,
    word_end,
};
use crate::text::{
    char_is_white, is_white, lemma_trim_end, lemma_trim_start, push_chars, same_text, trimmed,
};

verus! {

/// What the preprocessor knows between two lines.
pub struct PreState {
    /// Names in the order of their definition; a name without a value has been
    /// undefined. The last entry for a name counts.
    pub defs: Seq<(Seq<char>, Option<Seq<char>>)>,
    /// The outcome of each open conditional, outermost first.
    pub open: Seq<bool>,
}

/// The value of a name, if it is defined.
pub open spec fn lookup(defs: Seq<(Seq<char>, Option<Seq<char>>)>, name: Seq<char>) -> Option<
    Seq<char>,
>
    decreases defs.len(),
{
    if defs.len() == 0 {
        None
    } else if defs.last().0 == name {
        defs.last().1
    } else {
        lookup(defs.drop_last(), name)
    }
}

/// Whether every open conditional holds.
pub open spec fn active(open: Seq<bool>) -> bool {
    forall|i: int| 0 <= i < open.len() ==> #[trigger] open[i]
}

/// The word that a text starts with, which may be empty.
pub open spec fn first_word(s: Seq<char>) -> Seq<char> {
    s.take(word_end(s, 0))
}

/// What follows the first word of a text, without surrounding whitespace.
pub open spec fn after_word(s: Seq<char>) -> Seq<char> {
    trimmed(s.skip(word_end(s, 0)))
}

/// Whether a line is a directive.
pub open spec fn is_directive(line: Seq<char>) -> bool {
    trimmed(line).len() > 0 && trimmed(line)[0] == '#'
}

/// A directive without its `#` and the whitespace around it.
pub open spec fn directive_body(line: Seq<char>) -> Seq<char> {
    trimmed(trimmed(line).skip(1))
}

/// What a directive does to the state. Directives of other names do nothing.
pub open spec fn directed(st: PreState, line: Seq<char>) -> PreState {
    let body = directive_body(line);
    let word = first_word(body);
    let rest = after_word(body);
    let name = first_word(rest);
    if word == "define"@ {
        if active(st.open) {
            PreState { defs: st.defs.push((name, Some(after_word(rest)))), open: st.open }
        } else {
            st
        }
    } else if word == "undef"@ {
        if active(st.open) {
            PreState { defs: st.defs.push((name, None)), open: st.open }
        } else {
            st
        }
    } else if word == "ifdef"@ {
        PreState { defs: st.defs, open: st.open.push(lookup(st.defs, name) is Some) }
    } else if word == "ifndef"@ {
        PreState { defs: st.defs, open: st.open.push(lookup(st.defs, name) is None) }
    } else if word == "else"@ {
        if st.open.len() > 0 {
            PreState { defs: st.defs, open: st.open.drop_last().push(!st.open.last()) }
        } else {
            st
        }
    } else if word == "endif"@ {
        if st.open.len() > 0 {
            PreState { defs: st.defs, open: st.open.drop_last() }
        } else {
            st
        }
    } else {
        st
    }
}

/// The line from `k` on with every defined name replaced by its value.
pub open spec fn expanded(
    line: Seq<char>,
    k: int,
    defs: Seq<(Seq<char>, Option<Seq<char>>)>,
) -> Seq<char>
    decreases line.len() - k,
{
    if k < 0 || k >= line.len() {
        Seq::empty()
    } else if is_word_char(line[k]) {
        let e = word_end(line, k);
        let word = line.subrange(k, e);
        let shown = match lookup(defs, word) {
            Some(value) => if is_word_start(line[k]) {
                value
            } else {
                word
            },
            None => word,
        };
        if k < e <= line.len() {
            shown + expanded(line, e, defs)
        } else {
            shown
        }
    } else {
        seq![line[k]] + expanded(line, k + 1, defs)
    }
}

/// The text from `i` on, which starts a line, after preprocessing. Directives
/// and the lines of conditionals that do not hold become empty lines.
pub open spec fn preprocessed(s: Seq<char>, i: int, st: PreState) -> Seq<char>
    decreases s.len() - i,
{
    if i < 0 || i >= s.len() {
        Seq::empty()
    } else {
        let e = line_end(s, i);
        let line = s.subrange(i, e);
        let shown = if is_directive(line) || !active(st.open) {
            Seq::empty()
        } else {
            expanded(line, 0, st.defs)
        };
        let next = if is_directive(line) {
            directed(st, line)
        } else {
            st
        };
        if i <= e < s.len() {
            shown.push('\n') + preprocessed(s, e + 1, next)
        } else {
            shown
        }
    }
}

/// The state before the first line.
pub open spec fn pre_start() -> PreState {
    PreState { defs: Seq::empty(), open: Seq::empty() }
}

/// A name and its value.
struct Definition {
    name: String,
    value: Option<String>,
}

/// What a list of definitions stands for.
spec fn defs_view(defs: Seq<Definition>) -> Seq<(Seq<char>, Option<Seq<char>>)> {
    Seq::new(
        defs.len(),
        |i: int|
            (
                defs[i].name@,
                match defs[i].value {
                    None => None,
                    Some(v) => Some(v@),
                },
            ),
    )
}

/// The index of the entry that counts for a name.
fn find_definition(defs: &Vec<Definition>, name: &str) -> (r: Option<usize>)
    ensures
        match r {
            Some(i) => i < defs@.len() && lookup(defs_view(defs@), name@) == (match defs@[
                i as int
            ].value {
                None => None::<Seq<char>>,
                Some(v) => Some(v@),
            }),
            None => lookup(defs_view(defs@), name@) is None,
        },
{
    let ghost dv = defs_view(defs@);
    let mut i: usize = defs.len();
    assert(dv.take(i as int) =~= dv);
    while i > 0
        invariant
            i <= defs@.len(),
            dv == defs_view(defs@),
            lookup(dv, name@) == lookup(dv.take(i as int), name@),
        decreases i,
    {
        assert(dv.take(i as int).drop_last() =~= dv.take(i - 1));
        assert(dv.take(i as int).last() == dv[i - 1]);
        if same_text(defs[i - 1].name.as_str(), name) {
            return Some(i - 1);
        }
        i = i - 1;
    }
    None
}

/// Whether a name is defined.
fn is_defined(defs: &Vec<Definition>, name: &str) -> (r: bool)
    ensures
        r == (lookup(defs_view(defs@), name@) is Some),
{
    match find_definition(defs, name) {
        None => false,
        Some(i) => defs[i].value.is_some(),
    }
}

/// Whether every open conditional holds.
fn all_hold(open: &Vec<bool>) -> (r: bool)
    ensures
        r == active(open@),
{
    let mut i: usize = 0;
    while i < open.len()
        invariant
            i <= open@.len(),
            forall|j: int| 0 <= j < i ==> #[trigger] open@[j],
        decreases open@.len() - i,
    {
        if !open[i] {
            assert(!open@[i as int]);
            return false;
        }
        i = i + 1;
    }
    true
}

/// The part of `s[from..to]` without whitespace at either end, as new bounds.
fn trim_range(s: &[char], from: usize, to: usize) -> (r: (usize, usize))
    requires
        from <= to <= s@.len(),
    ensures
        from <= r.0 <= r.1 <= to,
        s@.subrange(r.0 as int, r.1 as int) == trimmed(s@.subrange(from as int, to as int)),
{
    let mut a: usize = from;
    while a < to && char_is_white(s[a])
        invariant
            from <= a <= to <= s@.len(),
            forall|i: int| from <= i < a ==> is_white(#[trigger] s@[i]),
        ensures
            from <= a <= to,
            forall|i: int| from <= i < a ==> is_white(#[trigger] s@[i]),
            a < to ==> !is_white(s@[a as int]),
        decreases to - a,
    {
        a = a + 1;
    }
    let mut b: usize = to;
    while a < b && char_is_white(s[b - 1])
        invariant
            from <= a <= b <= to <= s@.len(),
            forall|i: int| b <= i < to ==> is_white(#[trigger] s@[i]),
        ensures
            a <= b <= to,
            forall|i: int| b <= i < to ==> is_white(#[trigger] s@[i]),
            a < b ==> !is_white(s@[b - 1]),
        decreases b,
    {
        b = b - 1;
    }
    proof {
        let t = s@.subrange(from as int, to as int);
        assert forall|i: int| 0 <= i < a - from implies is_white(#[trigger] t[i]) by {
            assert(t[i] == s@[from + i]);
        }
        lemma_trim_start(t, a - from);
        let u = t.skip(a - from);
        assert(u =~= s@.subrange(a as int, to as int));
        assert forall|i: int| b - a <= i < u.len() implies is_white(#[trigger] u[i]) by {
            assert(u[i] == s@[a + i]);
        }
        lemma_trim_end(u, b - a);
        assert(u.take(b - a) =~= s@.subrange(a as int, b as int));
    }
    (a, b)
}

/// A word ends at or behind its start.
proof fn lemma_word_end_ge(s: Seq<char>, k: int)
    ensures
        word_end(s, k) >= k,
    decreases s.len() - k,
{
    if 0 <= k < s.len() && is_word_char(s[k]) {
        lemma_word_end_ge(s, k + 1);
    }
}

/// The end of a word does not depend on what stands behind the text.
proof fn lemma_word_end_in(s: Seq<char>, from: int, to: int, k: int)
    requires
        0 <= from <= k <= to <= s.len(),
    ensures
        word_end(s.subrange(from, to), k - from) == (if word_end(s, k) <= to {
            word_end(s, k) - from
        } else {
            to - from
        }),
    decreases s.len() - k,
{
    lemma_word_end_ge(s, k);
    let t = s.subrange(from, to);
    if k < s.len() && is_word_char(s[k]) {
        if k < to {
            assert(t[k - from] == s[k]);
            lemma_word_end_in(s, from, to, k + 1);
        }
    } else if k < to {
        assert(t[k - from] == s[k]);
    }
}

/// The end of the word at `from`, which lies within `s[from..to]`.
fn word_range(s: &[char], from: usize, to: usize) -> (e: usize)
    requires
        from <= to <= s@.len(),
    ensures
        from <= e <= to,
        s@.subrange(from as int, e as int) == first_word(s@.subrange(from as int, to as int)),
        e - from == word_end(s@.subrange(from as int, to as int), 0),
{
    let ghost t = s@.subrange(from as int, to as int);
    let mut e: usize = from;
    while e < to && char_in_word(s[e])
        invariant
            from <= e <= to <= s@.len(),
            t == s@.subrange(from as int, to as int),
            word_end(t, 0) == word_end(t, e - from),
        ensures
            from <= e <= to,
            word_end(t, 0) == e - from,
        decreases to - e,
    {
        assert(t[e - from] == s@[e as int]);
        e = e + 1;
    }
    assert(t.take(e - from) =~= s@.subrange(from as int, e as int));
    e
}

/// `s[from..to]` as a string.
fn substring(s: &[char], from: usize, to: usize) -> (r: String)
    requires
        from <= to <= s@.len(),
    ensures
        r@ == s@.subrange(from as int, to as int),
{
    let mut r: String = String::new();
    push_chars(&mut r, s, from, to);
    assert(r@ =~= s@.subrange(from as int, to as int));
    r
}

/// What follows the word that ends at `e` in `s[from..to]`.
fn rest_range(s: &[char], from: usize, e: usize, to: usize) -> (r: (usize, usize))
    requires
        from <= e <= to <= s@.len(),
        e - from == word_end(s@.subrange(from as int, to as int), 0),
    ensures
        e <= r.0 <= r.1 <= to,
        s@.subrange(r.0 as int, r.1 as int) == after_word(s@.subrange(from as int, to as int)),
{
    assert(s@.subrange(from as int, to as int).skip(e - from) =~= s@.subrange(e as int, to as int));
    trim_range(s, e, to)
}

/// Carries out the directive in `s[from..to]`.
fn direct(
    s: &[char],
    from: usize,
    to: usize,
    defs: &mut Vec<Definition>,
    open: &mut Vec<bool>,
)
    requires
        from <= to <= s@.len(),
        is_directive(s@.subrange(from as int, to as int)),
    ensures
        (PreState { defs: defs_view(final(defs)@), open: final(open)@ }) == directed(
            (PreState { defs: defs_view(old(defs)@), open: old(open)@ }),
            s@.subrange(from as int, to as int),
        ),
{
    let ghost line = s@.subrange(from as int, to as int);
    let (a, b): (usize, usize) = trim_range(s, from, to);
    assert(s@.subrange(a as int, b as int).skip(1) =~= s@.subrange(a + 1, b as int));
    let (c, d): (usize, usize) = trim_range(s, a + 1, b);
    assert(s@.subrange(c as int, d as int) == directive_body(line));
    let e: usize = word_range(s, c, d);
    let word: String = substring(s, c, e);
    let (f, g): (usize, usize) = rest_range(s, c, e, d);
    let h: usize = word_range(s, f, g);
    let name: String = substring(s, f, h);
    let ghost before = defs_view(defs@);
    let holds: bool = all_hold(open);
    if same_text(word.as_str(), "define") {
        let (i, j): (usize, usize) = rest_range(s, f, h, g);
        if holds {
            let value: String = substring(s, i, j);
            let ghost entry = (name@, Some(value@));
            defs.push(Definition { name, value: Some(value) });
            assert(defs_view(defs@) =~= before.push(entry));
        }
    } else if same_text(word.as_str(), "undef") {
        if holds {
            let ghost entry = (name@, None::<Seq<char>>);
            defs.push(Definition { name, value: None });
            assert(defs_view(defs@) =~= before.push(entry));
        }
    } else if same_text(word.as_str(), "ifdef") {
        let known: bool = is_defined(defs, name.as_str());
        open.push(known);
    } else if same_text(word.as_str(), "ifndef") {
        let known: bool = is_defined(defs, name.as_str());
        open.push(!known);
    } else if same_text(word.as_str(), "else") {
        if open.len() > 0 {
            let ghost was = open@;
            let k: usize = open.len() - 1;
            let flipped: bool = !open[k];
            open.set(k, flipped);
            assert(open@ =~= was.drop_last().push(!was.last()));
        }
    } else if same_text(word.as_str(), "endif") {
        if open.len() > 0 {
            let _ = open.pop();
        }
    }
}

/// Appends `s[from..to]` with every defined name replaced by its value.
fn expand(s: &[char], from: usize, to: usize, defs: &Vec<Definition>, out: &mut String)
    requires
        from <= to <= s@.len(),
    ensures
        final(out)@ == old(out)@ + expanded(
            s@.subrange(from as int, to as int),
            0,
            defs_view(defs@),
        ),
{
    let ghost line = s@.subrange(from as int, to as int);
    let ghost dv = defs_view(defs@);
    let mut k: usize = from;
    while k < to
        invariant
            from <= k <= to <= s@.len(),
            line == s@.subrange(from as int, to as int),
            dv == defs_view(defs@),
            out@ + expanded(line, k - from, dv) == old(out)@ + expanded(line, 0, dv),
        decreases to - k,
    {
        let ghost before = out@;
        assert(line[k - from] == s@[k as int]);
        if char_in_word(s[k]) {
            let starts: bool = char_starts_word(s[k]);
            let ghost tail = s@.subrange(k as int, to as int);
            let e: usize = word_range(s, k, to);
            proof {
                lemma_word_end_in(s@, from as int, to as int, k as int);
                lemma_word_end_in(s@, k as int, to as int, k as int);
                assert(tail[0] == s@[k as int]);
                assert(word_end(tail, 0) == word_end(tail, 1));
                lemma_word_end_ge(tail, 1);
                assert(line.subrange(k - from, e - from) =~= s@.subrange(k as int, e as int));
            }
            let word: String = substring(s, k, e);
            let mut replaced: bool = false;
            if starts {
                match find_definition(defs, word.as_str()) {
                    Some(i) => match &defs[i].value {
                        Some(v) => {
                            out.append(v.as_str());
                            replaced = true;
                        },
                        None => {},
                    },
                    None => {},
                }
            }
            if !replaced {
                out.append(word.as_str());
            }
            proof {
                let shown = match lookup(dv, word@) {
                    Some(value) => if starts {
                        value
                    } else {
                        word@
                    },
                    None => word@,
                };
                assert(out@ == before + shown);
                assert(expanded(line, k - from, dv) == shown + expanded(line, e - from, dv));
                assert(out@ + expanded(line, e - from, dv) =~= before + expanded(
                    line,
                    k - from,
                    dv,
                ));
            }
            k = e;
        } else {
            out.push(s[k]);
            assert(out@ + expanded(line, k + 1 - from, dv) =~= before + expanded(
                line,
                k - from,
                dv,
            ));
            k = k + 1;
        }
    }
    assert(out@ + expanded(line, k - from, dv) =~= out@);
}

/// Whether `s[from..to]` is a directive.
fn holds_directive(s: &[char], from: usize, to: usize) -> (r: bool)
    requires
        from <= to <= s@.len(),
    ensures
        r == is_directive(s@.subrange(from as int, to as int)),
{
    let (a, b): (usize, usize) = trim_range(s, from, to);
    a < b && s[a] == '#'
}

/// Preprocesses a source text.
pub fn preprocess(s: &[char]) -> (out: String)
    ensures
        out@ == preprocessed(s@, 0, pre_start()),
{
    let n: usize = s.len();
    let mut out: String = String::new();
    let mut defs: Vec<Definition> = Vec::new();
    let mut open: Vec<bool> = Vec::new();
    let mut i: usize = 0;
    let ghost whole = preprocessed(s@, 0, pre_start());
    assert(defs_view(defs@) =~= Seq::empty());
    assert(out@ + whole =~= whole);
    while i < n
        invariant
            n == s@.len(),
            i <= n,
            out@ + preprocessed(
                s@,
                i as int,
                (PreState { defs: defs_view(defs@), open: open@ }),
            ) == whole,
        decreases n - i,
    {
        let ghost before = out@;
        let ghost st = PreState { defs: defs_view(defs@), open: open@ };
        let e: usize = find_line_end(s, i);
        let ghost line = s@.subrange(i as int, e as int);
        if holds_directive(s, i, e) {
            direct(s, i, e, &mut defs, &mut open);
        } else if all_hold(&open) {
            expand(s, i, e, &defs, &mut out);
        }
        proof {
            let shown = if is_directive(line) || !active(st.open) {
                Seq::empty()
            } else {
                expanded(line, 0, st.defs)
            };
            assert(out@ =~= before + shown);
        }
        if e < n {
            out.push('\n');
            proof {
                let next = PreState { defs: defs_view(defs@), open: open@ };
                let shown = if is_directive(line) || !active(st.open) {
                    Seq::empty()
                } else {
                    expanded(line, 0, st.defs)
                };
                assert(out@ + preprocessed(s@, e + 1, next) =~= before + (shown.push('\n')
                    + preprocessed(s@, e + 1, next)));
            }
            i = e + 1;
        } else {
            proof {
                let next = PreState { defs: defs_view(defs@), open: open@ };
                assert(out@ + preprocessed(s@, n as int, next) =~= out@);
            }
            i = n;
        }
    }
    assert(out@ + Seq::<char>::empty() =~= out@);
    out
}

} // verus!
