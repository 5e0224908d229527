//! Serialized color and mask filters.
//!
//! A serialized filter starts with a byte for its kind. All words are little
//! endian. A filter with a part that has no serialized form has none either.

use std::sync::Arc;
use vstd::prelude::*;
use vstd::slice::slice_subrange;

use crate::arith::{FloatOp, FloatUnit, Ops};
use crate::bytes::{
    le_bytes, lemma_stands_byte, lemma_stands_split, lemma_stands_words, lemma_word_of_bytes,
    lemma_words_len, push_byte, push_bytes, push_word, push_words, read_word, stands_at, word_at,
    words_at, words_bytes,
};
use crate::filter::{
    BlurMaskFilter, ColorFilter, ColorMatrixFilter, MaskFilter, ShaderMaskFilter, TableMaskFilter,
};
use crate::raster::BlurStyle;
use crate::shader::{ShaderModel, shader_model};
use crate::shader_codec::{
    decode as decode_shader, deserialize_shader, encode as encode_shader, fits as shader_fits,
    serialized_shader_is_read_back,
};
use crate::wire::{len_to_word, len_word, opt_bytes};

verus! {

/// A length and the bytes it counts.
pub open spec fn sized(b: Seq<u8>) -> Seq<u8> {
    le_bytes(len_word(b.len())) + b
}

/// The bytes counted by the length at `i`, and where they end.
pub open spec fn sized_at(s: Seq<u8>, i: int) -> Option<(Seq<u8>, int)> {
    if 0 <= i && i + 4 <= s.len() && i + 4 + word_at(s, i) <= s.len() {
        Some((s.subrange(i + 4, i + 4 + word_at(s, i)), i + 4 + word_at(s, i)))
    } else {
        None
    }
}

/// What was counted is found again.
pub proof fn lemma_sized_round_trip(s: Seq<u8>, i: int, b: Seq<u8>)
    requires
        stands_at(s, i, sized(b)),
        b.len() <= u32::MAX,
    ensures
        sized_at(s, i) == Some((b, i + sized(b).len())),
{
    lemma_stands_split(s, i, le_bytes(len_word(b.len())), b);
    lemma_word_of_bytes(s, i, len_word(b.len()));
}

/// Appends a length and the bytes it counts.
pub fn push_sized(out: &mut Vec<u8>, b: &[u8])
    ensures
        final(out)@ == old(out)@ + sized(b@),
{
    push_word(out, len_to_word(b.len()));
    push_bytes(out, b);
    assert(out@ =~= old(out)@ + sized(b@));
}

/// Finds the bytes counted by the length at `i`.
pub fn take_sized(s: &[u8], i: usize) -> (r: Option<(usize, usize)>)
    ensures
        match sized_at(s@, i as int) {
            Some((b, end)) => r matches Some((from, to)) && from == i + 4 && from <= to <= s@.len()
                && to == end && b == s@.subrange(from as int, to as int),
            None => r is None,
        },
{
    let n: usize = s.len();
    if i >= n || n - i < 4 {
        return None;
    }
    let len: u32 = read_word(s, i);
    let room: usize = n - i - 4;
    if room <= 0xffff_ffff && (room as u32) < len {
        return None;
    }
    Some((i + 4, i + 4 + len as usize))
}

// ---------------------------------------------------------------------------
// Color filters
// ---------------------------------------------------------------------------

/// The entries of a color filter's matrix; a program has none.
pub open spec fn color_entries(f: ColorFilter) -> Option<Seq<u32>> {
    match f {
        ColorFilter::Matrix(x) => Some(x.matrix@),
        ColorFilter::Runtime(_) => None,
    }
}

/// The serialized form of a color filter with the given entries.
pub open spec fn encode_color(m: Option<Seq<u32>>) -> Option<Seq<u8>> {
    match m {
        Some(ws) => Some(seq![1u8] + words_bytes(ws)),
        None => None,
    }
}

/// The entries of the color filter at `i`, and where it ends.
pub open spec fn decode_color(s: Seq<u8>, i: int) -> Option<(Seq<u32>, int)> {
    if 0 <= i && i + 81 <= s.len() && s[i] == 1 {
        Some((words_at(s, i + 1, 20), i + 81))
    } else {
        None
    }
}

impl ColorFilter {
    /// Serializes the filter. A program has no serialized form.
    pub fn serialize(&self) -> (r: Option<Vec<u8>>)
        ensures
            opt_bytes(r) == encode_color(color_entries(*self)),
    {
        match self {
            ColorFilter::Matrix(x) => {
                let mut out: Vec<u8> = Vec::new();
                push_byte(&mut out, 1);
                assert(out@ =~= seq![1u8]);
                push_words(&mut out, x.matrix.as_slice());
                Some(out)
            },
            ColorFilter::Runtime(_) => None,
        }
    }
}

/// Reads the color filter at `offset` and says where it ends.
pub fn deserialize_color_filter(bytes: &[u8], offset: usize) -> (r: Option<(ColorFilter, usize)>)
    ensures
        match decode_color(bytes@, offset as int) {
            Some((m, j)) => r matches Some((x, k)) && color_entries(x) == Some(m) && k == j,
            None => r is None,
        },
{
    let n: usize = bytes.len();
    if offset >= n || n - offset < 81 || bytes[offset] != 1 {
        return None;
    }
    let mut matrix: [u32; 20] = [0; 20];
    let mut i: usize = 0;
    while i < 20
        invariant
            i <= 20,
            n == bytes@.len(),
            offset + 81 <= n,
            forall|k: int|
                0 <= k < i ==> #[trigger] matrix@[k] == word_at(bytes@, offset + 1 + 4 * k),
        decreases 20 - i,
    {
        let w: u32 = read_word(bytes, offset + 1 + 4 * i);
        matrix[i] = w;
        i = i + 1;
    }
    assert(matrix@ =~= words_at(bytes@, offset + 1, 20));
    Some((ColorFilter::Matrix(ColorMatrixFilter { matrix }), offset + 81))
}

/// Reading the serialized form of a color filter gives its entries back.
pub proof fn serialized_color_filter_is_read_back(
    before: Seq<u8>,
    m: Seq<u32>,
    after: Seq<u8>,
)
    requires
        m.len() == 20,
    ensures
        encode_color(Some(m)) matches Some(e) && decode_color(
            before + e + after,
            before.len() as int,
        ) == Some((m, (before.len() + e.len()) as int)),
{
    let e = encode_color(Some(m))->0;
    let s = before + e + after;
    let i = before.len() as int;
    assert(s.subrange(i, i + e.len()) =~= e);
    lemma_stands_split(s, i, seq![1u8], words_bytes(m));
    lemma_stands_byte(s, i, 1);
    lemma_words_len(m);
    lemma_stands_words(s, i + 1, m);
}

// ---------------------------------------------------------------------------
// Mask filters
// ---------------------------------------------------------------------------

/// A mask filter as a mathematical value.
pub enum MaskModel {
    /// A blur.
    Blur(BlurStyle, u32),
    /// A shader.
    Shader(ShaderModel),
    /// A table.
    Table(Seq<u8>),
}

/// The model of a mask filter.
pub open spec fn mask_model(f: MaskFilter) -> MaskModel {
    match f {
        MaskFilter::Blur(x) => MaskModel::Blur(x.style, x.sigma),
        MaskFilter::Shader(x) => MaskModel::Shader(shader_model(*x.shader)),
        MaskFilter::Table(x) => MaskModel::Table(x.table@),
    }
}

/// The code of a blur style.
pub open spec fn style_code(x: BlurStyle) -> u8 {
    match x {
        BlurStyle::Normal => 0,
        BlurStyle::Solid => 1,
        BlurStyle::Outer => 2,
        BlurStyle::Inner => 3,
    }
}

/// The blur style with a code.
pub open spec fn style_of(n: u8) -> Option<BlurStyle> {
    match n {
        0 => Some(BlurStyle::Normal),
        1 => Some(BlurStyle::Solid),
        2 => Some(BlurStyle::Outer),
        3 => Some(BlurStyle::Inner),
        _ => None,
    }
}

/// The serialized form of a mask filter.
pub open spec fn encode_mask(m: MaskModel) -> Option<Seq<u8>> {
    match m {
        MaskModel::Blur(style, sigma) => Some(
            seq![1u8] + seq![style_code(style)] + le_bytes(sigma),
        ),
        MaskModel::Shader(x) => match encode_shader(x) {
            Some(b) => Some(seq![2u8] + sized(b)),
            None => None,
        },
        MaskModel::Table(t) => Some(seq![3u8] + t),
    }
}

/// The mask filter at `i` and where it ends.
pub open spec fn decode_mask(f: Ops, s: Seq<u8>, i: int) -> Option<(MaskModel, int)> {
    if !(0 <= i < s.len()) {
        None
    } else if s[i] == 1 {
        if i + 6 <= s.len() {
            match style_of(s[i + 1]) {
                Some(style) => Some((MaskModel::Blur(style, word_at(s, i + 2)), i + 6)),
                None => None,
            }
        } else {
            None
        }
    } else if s[i] == 2 {
        match sized_at(s, i + 1) {
            Some((b, end)) => match decode_shader(f, b, 0) {
                Some((x, _)) => Some((MaskModel::Shader(x), end)),
                None => None,
            },
            None => None,
        }
    } else if s[i] == 3 {
        if i + 257 <= s.len() {
            Some((MaskModel::Table(s.subrange(i + 1, i + 257)), i + 257))
        } else {
            None
        }
    } else {
        None
    }
}

/// Whether the serialized form of a mask filter holds all of it.
pub open spec fn mask_fits(f: Ops, m: MaskModel) -> bool {
    match m {
        MaskModel::Blur(..) => true,
        MaskModel::Shader(x) => shader_fits(f, x) && (encode_shader(x) matches Some(b) && b.len()
            <= u32::MAX),
        MaskModel::Table(t) => t.len() == 256,
    }
}

/// Reading the serialized form of a mask filter gives the filter back.
pub proof fn serialized_mask_filter_is_read_back(
    f: Ops,
    before: Seq<u8>,
    m: MaskModel,
    after: Seq<u8>,
)
    requires
        mask_fits(f, m),
    ensures
        encode_mask(m) matches Some(e) && decode_mask(f, before + e + after, before.len() as int)
            == Some((m, (before.len() + e.len()) as int)),
{
    let e = encode_mask(m)->0;
    let s = before + e + after;
    let i = before.len() as int;
    assert(s.subrange(i, i + e.len()) =~= e);
    match m {
        MaskModel::Blur(style, sigma) => {
            let a = seq![1u8];
            let b = seq![style_code(style)];
            let c = le_bytes(sigma);
            lemma_stands_split(s, i, a + b, c);
            lemma_stands_split(s, i, a, b);
            lemma_stands_byte(s, i, 1);
            lemma_stands_byte(s, i + 1, style_code(style));
            lemma_word_of_bytes(s, i + 2, sigma);
        },
        MaskModel::Shader(x) => {
            let b = encode_shader(x)->0;
            lemma_stands_split(s, i, seq![2u8], sized(b));
            lemma_stands_byte(s, i, 2);
            lemma_sized_round_trip(s, i + 1, b);
            serialized_shader_is_read_back(f, Seq::empty(), x, Seq::empty());
            assert(Seq::<u8>::empty() + b + Seq::<u8>::empty() =~= b);
        },
        MaskModel::Table(t) => {
            lemma_stands_split(s, i, seq![3u8], t);
            lemma_stands_byte(s, i, 3);
        },
    }
}

impl MaskFilter {
    /// Serializes the filter. One whose shader has no serialized form has
    /// none either.
    pub fn serialize(&self) -> (r: Option<Vec<u8>>)
        ensures
            opt_bytes(r) == encode_mask(mask_model(*self)),
    {
        let mut out: Vec<u8> = Vec::new();
        match self {
            MaskFilter::Blur(x) => {
                push_byte(&mut out, 1);
                assert(out@ =~= seq![1u8]);
                let code: u8 = match x.style {
                    BlurStyle::Normal => 0,
                    BlurStyle::Solid => 1,
                    BlurStyle::Outer => 2,
                    BlurStyle::Inner => 3,
                };
                push_byte(&mut out, code);
                push_word(&mut out, x.sigma);
            },
            MaskFilter::Shader(x) => {
                push_byte(&mut out, 2);
                assert(out@ =~= seq![2u8]);
                match x.shader.serialize() {
                    Some(b) => {
                        push_sized(&mut out, b.as_slice());
                    },
                    None => {
                        return None;
                    },
                }
            },
            MaskFilter::Table(x) => {
                push_byte(&mut out, 3);
                assert(out@ =~= seq![3u8]);
                push_bytes(&mut out, x.table.as_slice());
            },
        }
        Some(out)
    }
}

/// Reads the mask filter at `offset` and says where it ends.
pub fn deserialize_mask_filter<A: Fn(FloatOp, u32, u32, u32) -> u32>(
    f: &FloatUnit<A>,
    bytes: &[u8],
    offset: usize,
) -> (r: Option<(MaskFilter, usize)>)
    requires
        f.steady(),
    ensures
        match decode_mask(f.ops(), bytes@, offset as int) {
            Some((m, j)) => r matches Some((x, k)) && mask_model(x) == m && k == j,
            None => r is None,
        },
{
    let n: usize = bytes.len();
    if offset >= n {
        return None;
    }
    let kind: u8 = bytes[offset];
    if kind == 1 {
        if n - offset < 6 {
            return None;
        }
        let style = match bytes[offset + 1] {
            0 => BlurStyle::Normal,
            1 => BlurStyle::Solid,
            2 => BlurStyle::Outer,
            3 => BlurStyle::Inner,
            _ => {
                return None;
            },
        };
        let sigma: u32 = read_word(bytes, offset + 2);
        Some((MaskFilter::Blur(BlurMaskFilter { style, sigma }), offset + 6))
    } else if kind == 2 {
        match take_sized(bytes, offset + 1) {
            Some((from, to)) => {
                match deserialize_shader(f, slice_subrange(bytes, from, to), 0) {
                    Some((x, _)) => {
                        let shader = Arc::new(x);
                        Some((MaskFilter::Shader(ShaderMaskFilter { shader }), to))
                    },
                    None => None,
                }
            },
            None => None,
        }
    } else if kind == 3 {
        if n - offset < 257 {
            return None;
        }
        let mut table: [u8; 256] = [0; 256];
        let mut i: usize = 0;
        while i < 256
            invariant
                i <= 256,
                n == bytes@.len(),
                offset + 257 <= n,
                forall|k: int| 0 <= k < i ==> #[trigger] table@[k] == bytes@[offset + 1 + k],
            decreases 256 - i,
        {
            table[i] = bytes[offset + 1 + i];
            i = i + 1;
        }
        assert(table@ =~= bytes@.subrange(offset + 1, offset + 257));
        Some((MaskFilter::Table(TableMaskFilter { table }), offset + 257))
    } else {
        None
    }
}

} // verus!
