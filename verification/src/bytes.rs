//! 32-bit words as little-endian bytes.

use vstd::prelude::*;

verus! {

/// The four bytes of a word, least significant first.
pub open spec fn le_bytes(x: u32) -> Seq<u8> {
    seq![
        (x % 256) as u8,
        (x / 256 % 256) as u8,
        (x / 65536 % 256) as u8,
        (x / 16777216) as u8,
    ]
}

/// The word whose bytes stand at `i`, least significant first.
pub open spec fn word_at(s: Seq<u8>, i: int) -> u32 {
    (s[i] + 256 * s[i + 1] + 65536 * s[i + 2] + 16777216 * s[i + 3]) as u32
}

/// Appends the bytes of a word.
pub fn push_word(out: &mut Vec<u8>, x: u32)
    ensures
        final(out)@ == old(out)@ + le_bytes(x),
{
    out.push((x % 256) as u8);
    out.push((x / 256 % 256) as u8);
    out.push((x / 65536 % 256) as u8);
    out.push((x / 16777216) as u8);
    assert(out@ =~= old(out)@ + le_bytes(x));
}

/// Reads the word at `i`.
pub fn read_word(s: &[u8], i: usize) -> (x: u32)
    requires
        i + 4 <= s@.len(),
    ensures
        x == word_at(s@, i as int),
{
    s[i] as u32 + 256 * (s[i + 1] as u32) + 65536 * (s[i + 2] as u32) + 16777216 * (s[i + 3] as u32)
}

/// Overwrites the word at `i`.
pub fn write_word(s: &mut Vec<u8>, i: usize, x: u32)
    requires
        i + 4 <= old(s)@.len(),
    ensures
        final(s)@.len() == old(s)@.len(),
        final(s)@.subrange(i as int, i + 4) == le_bytes(x),
        forall|k: int|
            0 <= k < old(s)@.len() && !(i <= k < i + 4) ==> #[trigger] final(s)@[k] == old(s)@[k],
{
    let n: usize = s.len();
    s.set(i, (x % 256) as u8);
    s.set(i + 1, (x / 256 % 256) as u8);
    s.set(i + 2, (x / 65536 % 256) as u8);
    s.set(i + 3, (x / 16777216) as u8);
    assert(s@.subrange(i as int, i + 4) =~= le_bytes(x));
}

/// Reading the bytes of a word gives the word back, wherever they stand.
pub proof fn lemma_word_of_bytes(s: Seq<u8>, i: int, x: u32)
    requires
        0 <= i,
        i + 4 <= s.len(),
        s.subrange(i, i + 4) == le_bytes(x),
    ensures
        word_at(s, i) == x,
{
    let t = s.subrange(i, i + 4);
    assert(s[i] == t[0] && s[i + 1] == t[1] && s[i + 2] == t[2] && s[i + 3] == t[3]);
}

/// The bytes of words, one after the other.
pub open spec fn words_bytes(ws: Seq<u32>) -> Seq<u8>
    decreases ws.len(),
{
    if ws.len() == 0 {
        Seq::empty()
    } else {
        words_bytes(ws.drop_last()) + le_bytes(ws.last())
    }
}

/// The `n` words at `i`.
pub open spec fn words_at(s: Seq<u8>, i: int, n: nat) -> Seq<u32> {
    Seq::new(n, |k: int| word_at(s, i + 4 * k))
}

/// Whether the bytes `e` stand at `i`.
pub open spec fn stands_at(s: Seq<u8>, i: int, e: Seq<u8>) -> bool {
    0 <= i && i + e.len() <= s.len() && s.subrange(i, i + e.len()) == e
}

/// Bytes that stand somewhere do so part by part.
pub proof fn lemma_stands_split(s: Seq<u8>, i: int, a: Seq<u8>, b: Seq<u8>)
    requires
        stands_at(s, i, a + b),
    ensures
        stands_at(s, i, a),
        stands_at(s, i + a.len(), b),
{
    let t = s.subrange(i, i + (a + b).len());
    assert(s.subrange(i, i + a.len()) =~= t.subrange(0, a.len() as int));
    assert(t.subrange(0, a.len() as int) =~= a);
    assert(s.subrange(i + a.len(), i + a.len() + b.len()) =~= t.subrange(
        a.len() as int,
        (a + b).len() as int,
    ));
    assert(t.subrange(a.len() as int, (a + b).len() as int) =~= b);
}

/// A byte that stands somewhere is read there.
pub proof fn lemma_stands_byte(s: Seq<u8>, i: int, b: u8)
    requires
        stands_at(s, i, seq![b]),
    ensures
        i < s.len(),
        s[i] == b,
{
    let t = s.subrange(i, i + 1);
    assert(t[0] == s[i]);
    assert(seq![b][0] == b);
}

/// The number of bytes of words.
pub proof fn lemma_words_len(ws: Seq<u32>)
    ensures
        words_bytes(ws).len() == 4 * ws.len(),
    decreases ws.len(),
{
    if ws.len() > 0 {
        lemma_words_len(ws.drop_last());
    }
}

/// Words whose bytes stand somewhere are read there.
pub proof fn lemma_stands_words(s: Seq<u8>, i: int, ws: Seq<u32>)
    requires
        stands_at(s, i, words_bytes(ws)),
    ensures
        i + 4 * ws.len() <= s.len(),
        words_at(s, i, ws.len()) == ws,
    decreases ws.len(),
{
    lemma_words_len(ws);
    if ws.len() > 0 {
        let front = ws.drop_last();
        lemma_words_len(front);
        lemma_stands_split(s, i, words_bytes(front), le_bytes(ws.last()));
        lemma_stands_words(s, i, front);
        lemma_word_of_bytes(s, i + 4 * front.len(), ws.last());
        assert forall|k: int| 0 <= k < ws.len() implies words_at(s, i, ws.len())[k] == ws[k] by {
            if k < front.len() {
                assert(words_at(s, i, front.len())[k] == front[k]);
            }
        }
    }
    assert(words_at(s, i, ws.len()) =~= ws);
}

/// Appends the bytes of words.
pub fn push_words(out: &mut Vec<u8>, ws: &[u32])
    ensures
        final(out)@ == old(out)@ + words_bytes(ws@),
{
    let mut i: usize = 0;
    assert(ws@.take(0) =~= Seq::empty());
    assert(out@ =~= old(out)@ + words_bytes(ws@.take(0)));
    while i < ws.len()
        invariant
            i <= ws@.len(),
            out@ == old(out)@ + words_bytes(ws@.take(i as int)),
        decreases ws@.len() - i,
    {
        push_word(out, ws[i]);
        assert(ws@.take(i + 1).drop_last() =~= ws@.take(i as int));
        assert(out@ =~= old(out)@ + words_bytes(ws@.take(i + 1)));
        i = i + 1;
    }
    assert(ws@.take(i as int) =~= ws@);
}

/// Reads the `n` words at `i`.
pub fn read_words(s: &[u8], i: usize, n: usize) -> (ws: Vec<u32>)
    requires
        i + 4 * n <= s@.len(),
    ensures
        ws@ == words_at(s@, i as int, n as nat),
{
    let len: usize = s.len();
    let mut ws: Vec<u32> = Vec::new();
    let mut k: usize = 0;
    while k < n
        invariant
            i + 4 * n <= s@.len() == len,
            k <= n,
            ws@ == words_at(s@, i as int, k as nat),
        decreases n - k,
    {
        ws.push(read_word(s, i + 4 * k));
        assert(ws@ =~= words_at(s@, i as int, (k + 1) as nat));
        k = k + 1;
    }
    ws
}

/// Appends a byte.
pub fn push_byte(out: &mut Vec<u8>, b: u8)
    ensures
        final(out)@ == old(out)@ + seq![b],
{
    out.push(b);
    assert(out@ =~= old(out)@ + seq![b]);
}

/// Appends bytes.
pub fn push_bytes(out: &mut Vec<u8>, b: &[u8])
    ensures
        final(out)@ == old(out)@ + b@,
{
    let mut i: usize = 0;
    assert(out@ =~= old(out)@ + b@.take(0));
    while i < b.len()
        invariant
            i <= b@.len(),
            out@ == old(out)@ + b@.take(i as int),
        decreases b@.len() - i,
    {
        out.push(b[i]);
        assert(out@ =~= old(out)@ + b@.take(i + 1));
        i = i + 1;
    }
    assert(b@.take(i as int) =~= b@);
}

/// A copy of `s[from..to]`.
pub fn copy_bytes(s: &[u8], from: usize, to: usize) -> (r: Vec<u8>)
    requires
        from <= to <= s@.len(),
    ensures
        r@ == s@.subrange(from as int, to as int),
{
    let mut r: Vec<u8> = Vec::new();
    let mut i: usize = from;
    while i < to
        invariant
            from <= i <= to <= s@.len(),
            r@ == s@.subrange(from as int, i as int),
        decreases to - i,
    {
        r.push(s[i]);
        assert(r@ =~= s@.subrange(from as int, i + 1));
        i = i + 1;
    }
    r
}

} // verus!
