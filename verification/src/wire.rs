//! Parts that the serialized forms of shaders and filters share: signed
//! words, optional matrices, colors and framed children.

use vstd::prelude::*;

use crate::bytes::{
    le_bytes, lemma_stands_byte, lemma_stands_split, lemma_stands_words, lemma_word_of_bytes,
    lemma_words_len, push_bytes, push_word, push_words, read_word, stands_at, word_at, words_at,
    words_bytes,
};
use crate::geometry::{Color4f, Matrix, opt_matrix};

verus! {

/// The word that stands for a signed number, in two's complement.
pub open spec fn word_of_int(x: i32) -> u32 {
    if x >= 0 {
        x as u32
    } else {
        (x + 0x1_0000_0000) as u32
    }
}

/// The signed number that a word stands for.
pub open spec fn int_of_word(w: u32) -> i32 {
    if w < 0x8000_0000 {
        w as i32
    } else {
        (w - 0x1_0000_0000) as i32
    }
}

/// The word of a signed number.
pub fn int_to_word(x: i32) -> (w: u32)
    ensures
        w == word_of_int(x),
{
    if x >= 0 {
        x as u32
    } else {
        u32::MAX - ((-(x + 1)) as u32)
    }
}

/// The signed number of a word.
pub fn word_to_int(w: u32) -> (x: i32)
    ensures
        x == int_of_word(w),
{
    if w < 0x8000_0000 {
        w as i32
    } else {
        -((u32::MAX - w) as i32) - 1
    }
}

/// A length as a word; one that does not fit becomes the largest word.
pub open spec fn len_word(n: nat) -> u32 {
    if n <= u32::MAX {
        n as u32
    } else {
        u32::MAX
    }
}

/// The word of a length.
pub fn len_to_word(n: usize) -> (w: u32)
    ensures
        w == len_word(n as nat),
{
    if n <= 0xffff_ffff {
        n as u32
    } else {
        u32::MAX
    }
}

/// An optional matrix: a flag, and the nine entries if there are any.
pub open spec fn encode_matrix(m: Option<Seq<u32>>) -> Seq<u8> {
    match m {
        Some(ws) => seq![1u8] + words_bytes(ws),
        None => seq![0u8],
    }
}

/// The optional matrix at `i` and where it ends. Any flag but one means that
/// there is none.
pub open spec fn decode_matrix(s: Seq<u8>, i: int) -> Option<(Option<Seq<u32>>, int)> {
    if !(0 <= i < s.len()) {
        None
    } else if s[i] != 1 {
        Some((None, i + 1))
    } else if i + 37 <= s.len() {
        Some((Some(words_at(s, i + 1, 9)), i + 37))
    } else {
        None
    }
}

/// What was encoded is decoded.
pub proof fn lemma_matrix_round_trip(s: Seq<u8>, i: int, m: Option<Seq<u32>>)
    requires
        stands_at(s, i, encode_matrix(m)),
        m matches Some(ws) ==> ws.len() == 9,
    ensures
        decode_matrix(s, i) == Some((m, i + encode_matrix(m).len())),
{
    match m {
        Some(ws) => {
            lemma_words_len(ws);
            lemma_stands_split(s, i, seq![1u8], words_bytes(ws));
            lemma_stands_byte(s, i, 1);
            lemma_stands_words(s, i + 1, ws);
        },
        None => {
            lemma_stands_byte(s, i, 0);
        },
    }
}

/// Appends an optional matrix.
pub fn push_matrix(out: &mut Vec<u8>, m: &Option<Matrix>)
    ensures
        final(out)@ == old(out)@ + encode_matrix(opt_matrix(*m)),
{
    match m {
        Some(x) => {
            out.push(1);
            push_words(out, x.values.as_slice());
            assert(out@ =~= old(out)@ + (seq![1u8] + words_bytes(x@)));
        },
        None => {
            out.push(0);
            assert(out@ =~= old(out)@ + seq![0u8]);
        },
    }
}

/// Reads nine words as a matrix.
pub fn read_matrix(s: &[u8], i: usize) -> (m: Matrix)
    requires
        i + 36 <= s@.len(),
    ensures
        m@ == words_at(s@, i as int, 9),
{
    let n: usize = s.len();
    let m = Matrix {
        values: [
            read_word(s, i),
            read_word(s, i + 4),
            read_word(s, i + 8),
            read_word(s, i + 12),
            read_word(s, i + 16),
            read_word(s, i + 20),
            read_word(s, i + 24),
            read_word(s, i + 28),
            read_word(s, i + 32),
        ],
    };
    assert(m@ =~= words_at(s@, i as int, 9));
    m
}

/// Reads an optional matrix.
pub fn take_matrix(s: &[u8], i: usize) -> (r: Option<(Option<Matrix>, usize)>)
    ensures
        match decode_matrix(s@, i as int) {
            Some((m, j)) => r matches Some((x, k)) && opt_matrix(x) == m && k == j,
            None => r is None,
        },
{
    let n: usize = s.len();
    if i >= n {
        return None;
    }
    if s[i] != 1 {
        return Some((None, i + 1));
    }
    if n - i < 37 {
        return None;
    }
    Some((Some(read_matrix(s, i + 1)), i + 37))
}

/// The components of colors, one after the other.
pub open spec fn color_words(colors: Seq<Color4f>) -> Seq<u32> {
    Seq::new(4 * colors.len(), |k: int| color_part(colors[k / 4], k % 4))
}

/// A component of a color.
pub open spec fn color_part(c: Color4f, k: int) -> u32 {
    if k == 0 {
        c.r
    } else if k == 1 {
        c.g
    } else if k == 2 {
        c.b
    } else {
        c.a
    }
}

/// The color whose components stand at `i`.
pub open spec fn color_at(s: Seq<u8>, i: int) -> Color4f {
    Color4f {
        r: word_at(s, i),
        g: word_at(s, i + 4),
        b: word_at(s, i + 8),
        a: word_at(s, i + 12),
    }
}

/// The `n` colors at `i`.
pub open spec fn colors_at(s: Seq<u8>, i: int, n: nat) -> Seq<Color4f> {
    Seq::new(n, |k: int| color_at(s, i + 16 * k))
}

/// Colors whose components stand somewhere are read there.
pub proof fn lemma_stands_colors(s: Seq<u8>, i: int, colors: Seq<Color4f>)
    requires
        stands_at(s, i, words_bytes(color_words(colors))),
    ensures
        i + 16 * colors.len() <= s.len(),
        colors_at(s, i, colors.len()) == colors,
        words_bytes(color_words(colors)).len() == 16 * colors.len(),
{
    let ws = color_words(colors);
    lemma_words_len(ws);
    lemma_stands_words(s, i, ws);
    assert forall|k: int| 0 <= k < colors.len() implies colors_at(s, i, colors.len())[k]
        == colors[k] by {
        let w = words_at(s, i, ws.len());
        assert(w[4 * k] == ws[4 * k]);
        assert(w[4 * k + 1] == ws[4 * k + 1]);
        assert(w[4 * k + 2] == ws[4 * k + 2]);
        assert(w[4 * k + 3] == ws[4 * k + 3]);
    }
    assert(colors_at(s, i, colors.len()) =~= colors);
}

/// Appends the components of a color.
pub fn push_color(out: &mut Vec<u8>, c: Color4f)
    ensures
        final(out)@ == old(out)@ + words_bytes(seq![c.r, c.g, c.b, c.a]),
{
    push_words(out, [c.r, c.g, c.b, c.a].as_slice());
    assert([c.r, c.g, c.b, c.a]@ =~= seq![c.r, c.g, c.b, c.a]);
}

/// The components of colors as words.
pub fn words_of_colors(colors: &[Color4f]) -> (ws: Vec<u32>)
    ensures
        ws@ == color_words(colors@),
{
    let mut ws: Vec<u32> = Vec::new();
    let mut i: usize = 0;
    assert(ws@ =~= color_words(colors@.take(0)));
    while i < colors.len()
        invariant
            i <= colors@.len(),
            ws@ == color_words(colors@.take(i as int)),
        decreases colors@.len() - i,
    {
        let c = colors[i];
        ws.push(c.r);
        ws.push(c.g);
        ws.push(c.b);
        ws.push(c.a);
        assert(ws@ =~= color_words(colors@.take(i + 1)));
        i = i + 1;
    }
    assert(colors@.take(i as int) =~= colors@);
    ws
}

/// Reads a color.
pub fn read_color(s: &[u8], i: usize) -> (c: Color4f)
    requires
        i + 16 <= s@.len(),
    ensures
        c == color_at(s@, i as int),
{
    let n: usize = s.len();
    Color4f {
        r: read_word(s, i),
        g: read_word(s, i + 4),
        b: read_word(s, i + 8),
        a: read_word(s, i + 12),
    }
}

/// Reads `n` colors.
pub fn read_colors(s: &[u8], i: usize, n: usize) -> (r: Vec<Color4f>)
    requires
        i + 16 * n <= s@.len(),
    ensures
        r@ == colors_at(s@, i as int, n as nat),
{
    let len: usize = s.len();
    let mut r: Vec<Color4f> = Vec::new();
    let mut k: usize = 0;
    while k < n
        invariant
            i + 16 * n <= s@.len() == len,
            k <= n,
            r@ == colors_at(s@, i as int, k as nat),
        decreases n - k,
    {
        r.push(read_color(s, i + 16 * k));
        assert(r@ =~= colors_at(s@, i as int, (k + 1) as nat));
        k = k + 1;
    }
    r
}

/// A framed child: a flag, and its length and bytes if it has any.
pub open spec fn encode_frame(e: Option<Seq<u8>>) -> Seq<u8> {
    match e {
        Some(b) => seq![1u8] + le_bytes(len_word(b.len())) + b,
        None => seq![0u8],
    }
}

/// The frame at `i`: its bytes, if it has any, and where it ends.
pub open spec fn decode_frame(s: Seq<u8>, i: int) -> Option<(Option<Seq<u8>>, int)> {
    if !(0 <= i < s.len()) {
        None
    } else if s[i] == 0 {
        Some((None, i + 1))
    } else if i + 5 <= s.len() && i + 5 + word_at(s, i + 1) <= s.len() {
        let end = i + 5 + word_at(s, i + 1);
        Some((Some(s.subrange(i + 5, end)), end))
    } else {
        None
    }
}

/// What was framed comes out of its frame.
pub proof fn lemma_frame_round_trip(s: Seq<u8>, i: int, e: Option<Seq<u8>>)
    requires
        stands_at(s, i, encode_frame(e)),
        e matches Some(b) ==> b.len() <= u32::MAX,
    ensures
        decode_frame(s, i) == Some((e, i + encode_frame(e).len())),
{
    match e {
        Some(b) => {
            let head = seq![1u8] + le_bytes(len_word(b.len()));
            lemma_stands_split(s, i, head, b);
            lemma_stands_split(s, i, seq![1u8], le_bytes(len_word(b.len())));
            lemma_stands_byte(s, i, 1);
            lemma_word_of_bytes(s, i + 1, len_word(b.len()));
        },
        None => {
            lemma_stands_byte(s, i, 0);
        },
    }
}

/// Bytes of an optional vector.
pub open spec fn opt_bytes(v: Option<Vec<u8>>) -> Option<Seq<u8>> {
    match v {
        Some(b) => Some(b@),
        None => None,
    }
}

/// Appends a framed child.
pub fn push_frame(out: &mut Vec<u8>, e: &Option<Vec<u8>>)
    ensures
        final(out)@ == old(out)@ + encode_frame(opt_bytes(*e)),
{
    match e {
        Some(b) => {
            out.push(1);
            push_word(out, len_to_word(b.len()));
            push_bytes(out, b.as_slice());
            assert(out@ =~= old(out)@ + (seq![1u8] + le_bytes(len_word(b@.len())) + b@));
        },
        None => {
            out.push(0);
            assert(out@ =~= old(out)@ + seq![0u8]);
        },
    }
}

/// Reads a frame. The bytes are those between the two positions returned.
pub fn take_frame(s: &[u8], i: usize) -> (r: Option<(bool, usize, usize)>)
    ensures
        match decode_frame(s@, i as int) {
            Some((Some(b), end)) => r matches Some((present, from, to)) && present && from == i + 5
                && from <= to <= s@.len() && to == end && b == s@.subrange(from as int, to as int),
            Some((None, end)) => r matches Some((present, from, to)) && !present && from == end
                && to == end && end <= s@.len(),
            None => r is None,
        },
{
    let n: usize = s.len();
    if i >= n {
        return None;
    }
    if s[i] == 0 {
        return Some((false, i + 1, i + 1));
    }
    if n - i < 5 {
        return None;
    }
    let len: u32 = read_word(s, i + 1);
    let room: usize = n - i - 5;
    if room <= 0xffff_ffff && (room as u32) < len {
        return None;
    }
    Some((true, i + 5, i + 5 + len as usize))
}

} // verus!
