//! Serialized shaders.
//!
//! A serialized shader starts with a byte for its kind. All words are little
//! endian. A child shader is framed by a flag and a length.

use std::sync::Arc;
use vstd::prelude::*;
use vstd::slice::slice_subrange;

use crate::arith::{FloatOp, FloatUnit, Ops};
use crate::blend_mode::BlendMode;
use crate::bytes::{
    copy_bytes, le_bytes, lemma_stands_byte, lemma_stands_split, lemma_stands_words,
    lemma_word_of_bytes, lemma_words_len, push_byte, push_bytes, push_word, push_words, read_word, read_words,
    stands_at, word_at, words_at, words_bytes,
};
use crate::geometry::{Point, Rect};
use crate::shader::{
    AlphaType, BlendShader, ColorShader, ColorType, ComposeShader, EmptyShader, FilterMode,
    GradientFlags, GradientRamp, ImageInfo, ImageModel, ImagePixels, ImageShader, LinearGradient,
    LocalMatrixShader, MipmapMode, NoiseType, PerlinNoiseShader, RadialGradient, RampModel,
    SamplingOptions, Shader, ShaderModel, SweepGradient, TileMode, TwoPointConicalGradient,
    image_model, shader_model,
};
use crate::wire::{
    color_at, color_words, colors_at, decode_frame, decode_matrix, encode_frame, encode_matrix,
    int_of_word, int_to_word, lemma_frame_round_trip, lemma_matrix_round_trip, lemma_stands_colors,
    len_to_word, len_word, opt_bytes, push_color, push_frame, push_matrix, read_color, read_colors,
    read_matrix, take_frame, take_matrix, word_of_int, word_to_int, words_of_colors,
};

verus! {

// ---------------------------------------------------------------------------
// Gradients
// ---------------------------------------------------------------------------

/// The positions of a gradient: a flag, and the words if there are any.
pub open spec fn encode_positions(p: Option<Seq<u32>>) -> Seq<u8> {
    match p {
        Some(ws) => seq![1u8] + words_bytes(ws),
        None => seq![0u8],
    }
}

/// The colors of a gradient and how they are laid out.
#[verifier::opaque]
pub open spec fn encode_ramp(r: RampModel) -> Seq<u8> {
    seq![r.tile_mode.code()] + le_bytes(r.flags.number()) + le_bytes(len_word(r.colors.len()))
        + words_bytes(color_words(r.colors)) + encode_positions(r.positions) + encode_matrix(
        r.local_matrix,
    )
}

/// The positions of `n` colors at `i`. Any flag but one means that there are
/// none.
pub open spec fn decode_positions(s: Seq<u8>, i: int, n: int) -> Option<(Option<Seq<u32>>, int)> {
    if !(0 <= i < s.len()) {
        None
    } else if s[i] != 1 {
        Some((None, i + 1))
    } else if i + 1 + 4 * n <= s.len() {
        Some((Some(words_at(s, i + 1, n as nat)), i + 1 + 4 * n))
    } else {
        None
    }
}

/// The colors of a gradient at `i`.
#[verifier::opaque]
pub open spec fn decode_ramp(s: Seq<u8>, i: int) -> Option<(RampModel, int)> {
    if !(0 <= i && i + 9 <= s.len() && i + 9 + 16 * word_at(s, i + 5) <= s.len()) {
        None
    } else {
        let n = word_at(s, i + 5) as int;
        let end = i + 9 + 16 * n;
        match (TileMode::of_code(s[i]), decode_positions(s, end, n)) {
            (Some(tile_mode), Some((positions, j))) => match decode_matrix(s, j) {
                Some((local_matrix, k)) => Some(
                    (
                        RampModel {
                            colors: colors_at(s, i + 9, n as nat),
                            positions,
                            tile_mode,
                            flags: GradientFlags::of_number(word_at(s, i + 1)),
                            local_matrix,
                        },
                        k,
                    ),
                ),
                None => None,
            },
            _ => None,
        }
    }
}

/// Whether the serialized form of a gradient's colors can be read back: the
/// count fits in a word, and there is a position for each color or none.
pub open spec fn ramp_fits(r: RampModel) -> bool {
    &&& r.colors.len() <= u32::MAX
    &&& (r.positions matches Some(p) ==> p.len() == r.colors.len())
    &&& (r.local_matrix matches Some(m) ==> m.len() == 9)
}

proof fn lemma_positions_round_trip(s: Seq<u8>, i: int, p: Option<Seq<u32>>, n: int)
    requires
        stands_at(s, i, encode_positions(p)),
        p matches Some(ws) ==> ws.len() == n,
    ensures
        decode_positions(s, i, n) == Some((p, i + encode_positions(p).len())),
{
    match p {
        Some(ws) => {
            lemma_words_len(ws);
            lemma_stands_split(s, i, seq![1u8], words_bytes(ws));
            lemma_stands_byte(s, i, 1);
            lemma_stands_words(s, i + 1, ws);
        },
        None => {
            lemma_stands_byte(s, i, 0);
        },
    }
}

proof fn lemma_ramp_round_trip(s: Seq<u8>, i: int, r: RampModel)
    requires
        stands_at(s, i, encode_ramp(r)),
        ramp_fits(r),
    ensures
        decode_ramp(s, i) == Some((r, i + encode_ramp(r).len())),
{
    reveal(encode_ramp);
    reveal(decode_ramp);
    let a = seq![r.tile_mode.code()];
    let b = le_bytes(r.flags.number());
    let c = le_bytes(len_word(r.colors.len()));
    let d = words_bytes(color_words(r.colors));
    let e = encode_positions(r.positions);
    let f = encode_matrix(r.local_matrix);
    lemma_stands_split(s, i, a + b + c + d + e, f);
    lemma_stands_split(s, i, a + b + c + d, e);
    lemma_stands_split(s, i, a + b + c, d);
    lemma_stands_split(s, i, a + b, c);
    lemma_stands_split(s, i, a, b);
    lemma_stands_byte(s, i, r.tile_mode.code());
    lemma_word_of_bytes(s, i + 1, r.flags.number());
    lemma_word_of_bytes(s, i + 5, len_word(r.colors.len()));
    lemma_stands_colors(s, i + 9, r.colors);
    let n = r.colors.len() as int;
    lemma_positions_round_trip(s, i + 9 + 16 * n, r.positions, n);
    lemma_matrix_round_trip(s, i + 9 + 16 * n + e.len(), r.local_matrix);
    assert(GradientFlags::of_number(r.flags.number()) == r.flags);
}

/// Appends the colors of a gradient.
fn push_ramp(out: &mut Vec<u8>, r: &GradientRamp)
    ensures
        final(out)@ == old(out)@ + encode_ramp(r@),
{
    proof {
        reveal(encode_ramp);
    }
    out.push(r.tile_mode.to_u8());
    push_word(out, r.flags.bits());
    push_word(out, len_to_word(r.colors.len()));
    let ws = words_of_colors(r.colors.as_slice());
    push_words(out, ws.as_slice());
    match &r.positions {
        Some(p) => {
            out.push(1);
            push_words(out, p.as_slice());
        },
        None => {
            out.push(0);
        },
    }
    push_matrix(out, &r.local_matrix);
    assert(out@ =~= old(out)@ + encode_ramp(r@));
}

/// Reads the colors of a gradient.
fn take_ramp(s: &[u8], i: usize) -> (r: Option<(GradientRamp, usize)>)
    ensures
        match decode_ramp(s@, i as int) {
            Some((m, j)) => r matches Some((x, k)) && x@ == m && k == j,
            None => r is None,
        },
{
    proof {
        reveal(decode_ramp);
    }
    let len: usize = s.len();
    if i >= len || len - i < 9 {
        return None;
    }
    let tile_mode = match TileMode::from_u8(s[i]) {
        Some(t) => t,
        None => {
            return None;
        },
    };
    let flags = GradientFlags::from_bits_truncate(read_word(s, i + 1));
    let count: u32 = read_word(s, i + 5);
    let room: usize = (len - i - 9) / 16;
    if room <= 0xffff_ffff && (room as u32) < count {
        return None;
    }
    let n: usize = count as usize;
    let colors = read_colors(s, i + 9, n);
    let mut at: usize = i + 9 + 16 * n;
    if at >= len {
        return None;
    }
    let positions = if s[at] == 1 {
        if (len - at - 1) / 4 < n {
            return None;
        }
        let p = read_words(s, at + 1, n);
        at = at + 1 + 4 * n;
        Some(p)
    } else {
        at = at + 1;
        None
    };
    match take_matrix(s, at) {
        Some((local_matrix, end)) => {
            Some((GradientRamp { colors, positions, tile_mode, flags, local_matrix }, end))
        },
        None => None,
    }
}

// ---------------------------------------------------------------------------
// Images
// ---------------------------------------------------------------------------

/// A size as a word; a negative one becomes zero.
pub open spec fn size_word(n: i32) -> u32 {
    if n < 0 {
        0
    } else {
        n as u32
    }
}

/// The pixels of an image: a flag, and their layout, length and bytes if
/// there are any.
pub open spec fn encode_pixels(p: Option<(ImageInfo, Seq<u8>)>) -> Seq<u8> {
    match p {
        Some((info, b)) => seq![1u8] + le_bytes(size_word(info.width)) + le_bytes(
            size_word(info.height),
        ) + seq![info.color_type.code()] + seq![info.alpha_type.code()] + le_bytes(
            len_word(b.len()),
        ) + b,
        None => seq![0u8],
    }
}

/// The pixels at `i`. Any flag but one means that there are none. Neither
/// side of an image is empty.
pub open spec fn decode_pixels(s: Seq<u8>, i: int) -> Option<
    (Option<(ImageInfo, Seq<u8>)>, int),
> {
    if !(0 <= i < s.len()) {
        None
    } else if s[i] != 1 {
        Some((None, i + 1))
    } else if !(i + 15 <= s.len() && i + 15 + word_at(s, i + 11) <= s.len()) {
        None
    } else {
        let width = int_of_word(word_at(s, i + 1));
        let height = int_of_word(word_at(s, i + 5));
        let end = i + 15 + word_at(s, i + 11);
        match (ColorType::of_code(s[i + 9]), AlphaType::of_code(s[i + 10])) {
            (Some(color_type), Some(alpha_type)) => if width > 0 && height > 0 {
                Some(
                    (
                        Some(
                            (
                                ImageInfo { width, height, color_type, alpha_type },
                                s.subrange(i + 15, end),
                            ),
                        ),
                        end,
                    ),
                )
            } else {
                None
            },
            _ => None,
        }
    }
}

/// A serialized image.
#[verifier::opaque]
pub open spec fn encode_image(m: ImageModel) -> Seq<u8> {
    seq![6u8] + words_bytes(seq![m.bounds.left, m.bounds.top, m.bounds.right, m.bounds.bottom])
        + seq![m.tile_mode_x.code()] + seq![m.tile_mode_y.code()] + seq![m.sampling.filter.code()]
        + seq![m.sampling.mipmap.code()] + encode_matrix(m.local_matrix) + encode_pixels(m.pixels)
}

/// The image whose fields start at `i`.
#[verifier::opaque]
pub open spec fn decode_image(f: Ops, s: Seq<u8>, i: int) -> Option<(ImageModel, int)> {
    if !(0 <= i && i + 20 <= s.len()) {
        None
    } else {
        match (
            TileMode::of_code(s[i + 16]),
            TileMode::of_code(s[i + 17]),
            FilterMode::of_code(s[i + 18]),
            MipmapMode::of_code(s[i + 19]),
            decode_matrix(s, i + 20),
        ) {
            (
                Some(tile_mode_x),
                Some(tile_mode_y),
                Some(filter),
                Some(mipmap),
                Some((local_matrix, j)),
            ) => match decode_pixels(s, j) {
                Some((pixels, k)) => Some(
                    (
                        ImageModel {
                            bounds: settled(f, rect_at(s, i)),
                            tile_mode_x,
                            tile_mode_y,
                            sampling: SamplingOptions { filter, mipmap },
                            local_matrix,
                            pixels,
                        },
                        k,
                    ),
                ),
                None => None,
            },
            _ => None,
        }
    }
}

/// The rectangle whose edges stand at `i`.
pub open spec fn rect_at(s: Seq<u8>, i: int) -> Rect {
    Rect {
        left: word_at(s, i),
        top: word_at(s, i + 4),
        right: word_at(s, i + 8),
        bottom: word_at(s, i + 12),
    }
}

/// A rectangle with its right and bottom edges found from its size.
pub open spec fn settled(f: Ops, r: Rect) -> Rect {
    Rect {
        left: r.left,
        top: r.top,
        right: f(FloatOp::Add, r.left, f(FloatOp::Sub, r.right, r.left, 0), 0),
        bottom: f(FloatOp::Add, r.top, f(FloatOp::Sub, r.bottom, r.top, 0), 0),
    }
}

/// Whether the serialized form of an image can be read back: the bounds are
/// read as a corner and a size, which must lead to the same edges.
pub open spec fn image_fits(f: Ops, m: ImageModel) -> bool {
    &&& settled(f, m.bounds) == m.bounds
    &&& (m.local_matrix matches Some(ws) ==> ws.len() == 9)
    &&& (m.pixels matches Some((info, b)) ==> info.width > 0 && info.height > 0 && b.len()
        <= u32::MAX)
}

proof fn lemma_pixels_round_trip(s: Seq<u8>, i: int, p: Option<(ImageInfo, Seq<u8>)>)
    requires
        stands_at(s, i, encode_pixels(p)),
        p matches Some((info, b)) ==> info.width > 0 && info.height > 0 && b.len() <= u32::MAX,
    ensures
        decode_pixels(s, i) == Some((p, i + encode_pixels(p).len())),
{
    match p {
        Some((info, bytes)) => {
            let a = seq![1u8];
            let b = le_bytes(size_word(info.width));
            let c = le_bytes(size_word(info.height));
            let d = seq![info.color_type.code()];
            let e = seq![info.alpha_type.code()];
            let f = le_bytes(len_word(bytes.len()));
            lemma_stands_split(s, i, a + b + c + d + e + f, bytes);
            lemma_stands_split(s, i, a + b + c + d + e, f);
            lemma_stands_split(s, i, a + b + c + d, e);
            lemma_stands_split(s, i, a + b + c, d);
            lemma_stands_split(s, i, a + b, c);
            lemma_stands_split(s, i, a, b);
            lemma_stands_byte(s, i, 1);
            lemma_word_of_bytes(s, i + 1, size_word(info.width));
            lemma_word_of_bytes(s, i + 5, size_word(info.height));
            lemma_stands_byte(s, i + 9, info.color_type.code());
            lemma_stands_byte(s, i + 10, info.alpha_type.code());
            lemma_word_of_bytes(s, i + 11, len_word(bytes.len()));
        },
        None => {
            lemma_stands_byte(s, i, 0);
        },
    }
}

proof fn lemma_stands_rect(s: Seq<u8>, i: int, r: Rect)
    requires
        stands_at(s, i, words_bytes(seq![r.left, r.top, r.right, r.bottom])),
    ensures
        i + 16 <= s.len(),
        rect_at(s, i) == r,
        words_bytes(seq![r.left, r.top, r.right, r.bottom]).len() == 16,
{
    let ws = seq![r.left, r.top, r.right, r.bottom];
    lemma_words_len(ws);
    lemma_stands_words(s, i, ws);
    let w = words_at(s, i, 4);
    assert(w[0] == ws[0] && w[1] == ws[1] && w[2] == ws[2] && w[3] == ws[3]);
}

proof fn lemma_image_round_trip(f: Ops, s: Seq<u8>, i: int, m: ImageModel)
    requires
        stands_at(s, i, encode_image(m)),
        image_fits(f, m),
    ensures
        0 <= i < s.len(),
        s[i] == 6,
        decode_image(f, s, i + 1) == Some((m, i + encode_image(m).len())),
{
    reveal(encode_image);
    reveal(decode_image);
    let a = seq![6u8];
    let b = words_bytes(seq![m.bounds.left, m.bounds.top, m.bounds.right, m.bounds.bottom]);
    let c = seq![m.tile_mode_x.code()];
    let d = seq![m.tile_mode_y.code()];
    let e = seq![m.sampling.filter.code()];
    let v = seq![m.sampling.mipmap.code()];
    let g = encode_matrix(m.local_matrix);
    let h = encode_pixels(m.pixels);
    lemma_stands_split(s, i, a + b + c + d + e + v + g, h);
    lemma_stands_split(s, i, a + b + c + d + e + v, g);
    lemma_stands_split(s, i, a + b + c + d + e, v);
    lemma_stands_split(s, i, a + b + c + d, e);
    lemma_stands_split(s, i, a + b + c, d);
    lemma_stands_split(s, i, a + b, c);
    lemma_stands_split(s, i, a, b);
    lemma_stands_byte(s, i, 6);
    lemma_stands_rect(s, i + 1, m.bounds);
    lemma_stands_byte(s, i + 17, m.tile_mode_x.code());
    lemma_stands_byte(s, i + 18, m.tile_mode_y.code());
    lemma_stands_byte(s, i + 19, m.sampling.filter.code());
    lemma_stands_byte(s, i + 20, m.sampling.mipmap.code());
    lemma_matrix_round_trip(s, i + 21, m.local_matrix);
    lemma_pixels_round_trip(s, i + 21 + g.len(), m.pixels);
}

/// The word of a size.
fn size_to_word(n: i32) -> (w: u32)
    ensures
        w == size_word(n),
{
    if n < 0 {
        0
    } else {
        n as u32
    }
}

/// Appends the pixels of an image.
fn push_pixels(out: &mut Vec<u8>, x: &ImageShader)
    ensures
        final(out)@ == old(out)@ + encode_pixels(image_model(*x).pixels),
{
    match &x.pixels {
        Some(p) => {
            out.push(1);
            push_word(out, size_to_word(p.info.width));
            push_word(out, size_to_word(p.info.height));
            out.push(p.info.color_type.to_u8());
            out.push(p.info.alpha_type.to_u8());
            push_word(out, len_to_word(p.bytes.len()));
            push_bytes(out, p.bytes.as_slice());
        },
        None => {
            out.push(0);
        },
    }
    assert(out@ =~= old(out)@ + encode_pixels(image_model(*x).pixels));
}

/// Serializes an image.
fn write_image(x: &ImageShader) -> (out: Vec<u8>)
    ensures
        out@ == encode_image(image_model(*x)),
{
    proof {
        reveal(encode_image);
    }
    let b = &x.bounds;
    let mut out: Vec<u8> = Vec::new();
    push_byte(&mut out, 6);
    assert(out@ =~= seq![6u8]);
    push_words(&mut out, [b.left, b.top, b.right, b.bottom].as_slice());
    assert([b.left, b.top, b.right, b.bottom]@ =~= seq![b.left, b.top, b.right, b.bottom]);
    push_byte(&mut out, x.tile_mode_x.to_u8());
    push_byte(&mut out, x.tile_mode_y.to_u8());
    push_byte(&mut out, x.sampling.filter.to_u8());
    push_byte(&mut out, x.sampling.mipmap.to_u8());
    push_matrix(&mut out, &x.local_matrix);
    push_pixels(&mut out, x);
    out
}

/// Reads the pixels of an image.
fn take_pixels(s: &[u8], i: usize) -> (r: Option<(Option<ImagePixels>, usize)>)
    ensures
        match decode_pixels(s@, i as int) {
            Some((m, j)) => r matches Some((x, k)) && k == j && match m {
                Some((info, b)) => x matches Some(p) && p.info == info && p.bytes@ == b,
                None => x is None,
            },
            None => r is None,
        },
{
    let len: usize = s.len();
    if i >= len {
        return None;
    }
    if s[i] != 1 {
        return Some((None, i + 1));
    }
    if len - i < 15 {
        return None;
    }
    let width: i32 = word_to_int(read_word(s, i + 1));
    let height: i32 = word_to_int(read_word(s, i + 5));
    let count: u32 = read_word(s, i + 11);
    let room: usize = len - i - 15;
    if room <= 0xffff_ffff && (room as u32) < count {
        return None;
    }
    let end: usize = i + 15 + count as usize;
    match (ColorType::from_u8(s[i + 9]), AlphaType::from_u8(s[i + 10])) {
        (Some(color_type), Some(alpha_type)) => {
            if width > 0 && height > 0 {
                let info = ImageInfo { width, height, color_type, alpha_type };
                let bytes = copy_bytes(s, i + 15, end);
                Some((Some(ImagePixels { info, bytes }), end))
            } else {
                None
            }
        },
        _ => None,
    }
}

/// Reads the fields of an image.
fn take_image<A: Fn(FloatOp, u32, u32, u32) -> u32>(
    f: &FloatUnit<A>,
    s: &[u8],
    i: usize,
) -> (r: Option<(ImageShader, usize)>)
    requires
        f.steady(),
    ensures
        match decode_image(f.ops(), s@, i as int) {
            Some((m, j)) => r matches Some((x, k)) && image_model(x) == m && k == j,
            None => r is None,
        },
{
    proof {
        reveal(decode_image);
    }
    let len: usize = s.len();
    if i >= len || len - i < 20 {
        return None;
    }
    let left: u32 = read_word(s, i);
    let top: u32 = read_word(s, i + 4);
    let width: u32 = f.op(FloatOp::Sub, read_word(s, i + 8), left, 0);
    let height: u32 = f.op(FloatOp::Sub, read_word(s, i + 12), top, 0);
    let bounds = Rect {
        left,
        top,
        right: f.op(FloatOp::Add, left, width, 0),
        bottom: f.op(FloatOp::Add, top, height, 0),
    };
    let tile_mode_x = match TileMode::from_u8(s[i + 16]) {
        Some(t) => t,
        None => {
            return None;
        },
    };
    let tile_mode_y = match TileMode::from_u8(s[i + 17]) {
        Some(t) => t,
        None => {
            return None;
        },
    };
    let filter = match FilterMode::from_u8(s[i + 18]) {
        Some(t) => t,
        None => {
            return None;
        },
    };
    let mipmap = match MipmapMode::from_u8(s[i + 19]) {
        Some(t) => t,
        None => {
            return None;
        },
    };
    match take_matrix(s, i + 20) {
        Some((local_matrix, j)) => match take_pixels(s, j) {
            Some((pixels, k)) => {
                let x = ImageShader {
                    bounds,
                    tile_mode_x,
                    tile_mode_y,
                    sampling: SamplingOptions { filter, mipmap },
                    local_matrix,
                    pixels,
                };
                Some((x, k))
            },
            None => None,
        },
        None => None,
    }
}

// ---------------------------------------------------------------------------
// Noise
// ---------------------------------------------------------------------------

/// The size of a noise tile: a flag, and the two sides if there are any.
pub open spec fn encode_tile(t: Option<(i32, i32)>) -> Seq<u8> {
    match t {
        Some((w, h)) => seq![1u8] + le_bytes(word_of_int(w)) + le_bytes(word_of_int(h)),
        None => seq![0u8],
    }
}

/// Serialized noise.
#[verifier::opaque]
pub open spec fn encode_noise(p: PerlinNoiseShader) -> Seq<u8> {
    seq![7u8] + seq![p.noise_type.code()] + le_bytes(p.base_frequency_x) + le_bytes(
        p.base_frequency_y,
    ) + le_bytes(word_of_int(p.num_octaves)) + le_bytes(p.seed) + encode_tile(p.tile_size)
}

/// The noise whose fields start at `i`.
#[verifier::opaque]
pub open spec fn decode_noise(s: Seq<u8>, i: int) -> Option<(PerlinNoiseShader, int)> {
    if !(0 <= i && i + 18 <= s.len()) {
        None
    } else if s[i + 17] == 1 && i + 26 > s.len() {
        None
    } else {
        match NoiseType::of_code(s[i]) {
            Some(noise_type) => Some(
                (
                    PerlinNoiseShader {
                        noise_type,
                        base_frequency_x: word_at(s, i + 1),
                        base_frequency_y: word_at(s, i + 5),
                        num_octaves: int_of_word(word_at(s, i + 9)),
                        seed: word_at(s, i + 13),
                        tile_size: if s[i + 17] == 1 {
                            Some(
                                (
                                    int_of_word(word_at(s, i + 18)),
                                    int_of_word(word_at(s, i + 22)),
                                ),
                            )
                        } else {
                            None
                        },
                    },
                    if s[i + 17] == 1 {
                        i + 26
                    } else {
                        i + 18
                    },
                ),
            ),
            None => None,
        }
    }
}

proof fn lemma_noise_round_trip(s: Seq<u8>, i: int, p: PerlinNoiseShader)
    requires
        stands_at(s, i, encode_noise(p)),
    ensures
        0 <= i < s.len(),
        s[i] == 7,
        decode_noise(s, i + 1) == Some((p, i + encode_noise(p).len())),
{
    reveal(encode_noise);
    reveal(decode_noise);
    let a = seq![7u8];
    let b = seq![p.noise_type.code()];
    let c = le_bytes(p.base_frequency_x);
    let d = le_bytes(p.base_frequency_y);
    let e = le_bytes(word_of_int(p.num_octaves));
    let f = le_bytes(p.seed);
    let g = encode_tile(p.tile_size);
    lemma_stands_split(s, i, a + b + c + d + e + f, g);
    lemma_stands_split(s, i, a + b + c + d + e, f);
    lemma_stands_split(s, i, a + b + c + d, e);
    lemma_stands_split(s, i, a + b + c, d);
    lemma_stands_split(s, i, a + b, c);
    lemma_stands_split(s, i, a, b);
    lemma_stands_byte(s, i, 7);
    lemma_stands_byte(s, i + 1, p.noise_type.code());
    lemma_word_of_bytes(s, i + 2, p.base_frequency_x);
    lemma_word_of_bytes(s, i + 6, p.base_frequency_y);
    lemma_word_of_bytes(s, i + 10, word_of_int(p.num_octaves));
    lemma_word_of_bytes(s, i + 14, p.seed);
    match p.tile_size {
        Some((w, h)) => {
            let x = seq![1u8];
            let y = le_bytes(word_of_int(w));
            let z = le_bytes(word_of_int(h));
            lemma_stands_split(s, i + 18, x + y, z);
            lemma_stands_split(s, i + 18, x, y);
            lemma_stands_byte(s, i + 18, 1);
            lemma_word_of_bytes(s, i + 19, word_of_int(w));
            lemma_word_of_bytes(s, i + 23, word_of_int(h));
        },
        None => {
            lemma_stands_byte(s, i + 18, 0);
        },
    }
}

/// Serializes noise.
fn write_noise(p: &PerlinNoiseShader) -> (out: Vec<u8>)
    ensures
        out@ == encode_noise(*p),
{
    proof {
        reveal(encode_noise);
    }
    let mut out: Vec<u8> = Vec::new();
    out.push(7);
    out.push(p.noise_type.to_u8());
    push_word(&mut out, p.base_frequency_x);
    push_word(&mut out, p.base_frequency_y);
    push_word(&mut out, int_to_word(p.num_octaves));
    push_word(&mut out, p.seed);
    match p.tile_size {
        Some((w, h)) => {
            out.push(1);
            push_word(&mut out, int_to_word(w));
            push_word(&mut out, int_to_word(h));
        },
        None => {
            out.push(0);
        },
    }
    assert(out@ =~= encode_noise(*p));
    out
}

/// Reads the fields of noise.
fn take_noise(s: &[u8], i: usize) -> (r: Option<(PerlinNoiseShader, usize)>)
    ensures
        match decode_noise(s@, i as int) {
            Some((m, j)) => r matches Some((x, k)) && x == m && k == j,
            None => r is None,
        },
{
    proof {
        reveal(decode_noise);
    }
    let len: usize = s.len();
    if i >= len || len - i < 18 {
        return None;
    }
    let tiled = s[i + 17] == 1;
    if tiled && len - i < 26 {
        return None;
    }
    match NoiseType::from_u8(s[i]) {
        Some(noise_type) => {
            let p = PerlinNoiseShader {
                noise_type,
                base_frequency_x: read_word(s, i + 1),
                base_frequency_y: read_word(s, i + 5),
                num_octaves: word_to_int(read_word(s, i + 9)),
                seed: read_word(s, i + 13),
                tile_size: if tiled {
                    Some((word_to_int(read_word(s, i + 18)), word_to_int(read_word(s, i + 22))))
                } else {
                    None
                },
            };
            if tiled {
                Some((p, i + 26))
            } else {
                Some((p, i + 18))
            }
        },
        None => None,
    }
}

// ---------------------------------------------------------------------------
// Shaders
// ---------------------------------------------------------------------------

/// The serialized form of a shader without children.
#[verifier::opaque]
pub open spec fn encode_leaf(m: ShaderModel) -> Seq<u8> {
    match m {
        ShaderModel::Color(c) => seq![1u8] + words_bytes(seq![c.r, c.g, c.b, c.a]),
        ShaderModel::Linear(p, q, r) => seq![2u8] + words_bytes(seq![p.x, p.y, q.x, q.y])
            + encode_ramp(r),
        ShaderModel::Radial(p, radius, r) => seq![3u8] + words_bytes(seq![p.x, p.y, radius])
            + encode_ramp(r),
        ShaderModel::Sweep(p, from, to, r) => seq![4u8] + words_bytes(seq![p.x, p.y, from, to])
            + encode_ramp(r),
        ShaderModel::Conical(p, pr, q, qr, r) => seq![5u8] + words_bytes(
            seq![p.x, p.y, pr, q.x, q.y, qr],
        ) + encode_ramp(r),
        ShaderModel::Image(x) => encode_image(x),
        ShaderModel::Perlin(x) => encode_noise(x),
        _ => seq![11u8],
    }
}

/// The serialized form of a shader. One that runs a program has none.
pub open spec fn encode(m: ShaderModel) -> Option<Seq<u8>>
    decreases m,
{
    match m {
        ShaderModel::Blend(mode, dst, src) => Some(
            seq![8u8] + seq![mode.code()] + encode_frame(encode(*src)) + encode_frame(
                encode(*dst),
            ),
        ),
        ShaderModel::Local(inner, matrix) => Some(
            seq![9u8] + words_bytes(matrix) + encode_frame(encode(*inner)),
        ),
        ShaderModel::Compose(outer, inner, mode) => Some(
            seq![10u8] + seq![mode.code()] + encode_frame(encode(*outer)) + encode_frame(
                encode(*inner),
            ),
        ),
        ShaderModel::Runtime => None,
        _ => Some(encode_leaf(m)),
    }
}

/// The shader framed at `i`. The frame may hold more than the shader.
pub open spec fn decode_child(f: Ops, s: Seq<u8>, i: int) -> Option<(ShaderModel, int)>
    decreases s.len(), 0nat, 0nat,
{
    match decode_frame(s, i) {
        Some((Some(b), end)) => if b.len() < s.len() {
            match decode(f, b, 0) {
                Some((m, _)) => Some((m, end)),
                None => None,
            }
        } else {
            None
        },
        _ => None,
    }
}

/// The shader without children at `i` and where it ends.
#[verifier::opaque]
pub open spec fn decode_leaf(f: Ops, s: Seq<u8>, i: int) -> Option<(ShaderModel, int)> {
    if !(0 <= i < s.len()) {
        None
    } else if s[i] == 1 {
        if i + 17 <= s.len() {
            Some((ShaderModel::Color(color_at(s, i + 1)), i + 17))
        } else {
            None
        }
    } else if s[i] == 2 {
        match decode_ramp(s, i + 17) {
            Some((r, j)) => Some(
                (ShaderModel::Linear(point_at(s, i + 1), point_at(s, i + 9), r), j),
            ),
            None => None,
        }
    } else if s[i] == 3 {
        match decode_ramp(s, i + 13) {
            Some((r, j)) => Some(
                (ShaderModel::Radial(point_at(s, i + 1), word_at(s, i + 9), r), j),
            ),
            None => None,
        }
    } else if s[i] == 4 {
        match decode_ramp(s, i + 17) {
            Some((r, j)) => Some(
                (
                    ShaderModel::Sweep(
                        point_at(s, i + 1),
                        word_at(s, i + 9),
                        word_at(s, i + 13),
                        r,
                    ),
                    j,
                ),
            ),
            None => None,
        }
    } else if s[i] == 5 {
        match decode_ramp(s, i + 25) {
            Some((r, j)) => Some(
                (
                    ShaderModel::Conical(
                        point_at(s, i + 1),
                        word_at(s, i + 9),
                        point_at(s, i + 13),
                        word_at(s, i + 21),
                        r,
                    ),
                    j,
                ),
            ),
            None => None,
        }
    } else if s[i] == 6 {
        match decode_image(f, s, i + 1) {
            Some((x, j)) => Some((ShaderModel::Image(x), j)),
            None => None,
        }
    } else if s[i] == 7 {
        match decode_noise(s, i + 1) {
            Some((x, j)) => Some((ShaderModel::Perlin(x), j)),
            None => None,
        }
    } else if s[i] == 11 {
        Some((ShaderModel::Empty, i + 1))
    } else {
        None
    }
}

/// The shader at `i` and where it ends.
pub open spec fn decode(f: Ops, s: Seq<u8>, i: int) -> Option<(ShaderModel, int)>
    decreases s.len(), 1nat, 0nat,
{
    if !(0 <= i < s.len()) {
        None
    } else if s[i] == 8 {
        match decode_pair(f, s, i + 1) {
            Some((mode, src, dst, j)) => Some(
                (ShaderModel::Blend(mode, Box::new(dst), Box::new(src)), j),
            ),
            None => None,
        }
    } else if s[i] == 9 {
        match decode_child(f, s, i + 37) {
            Some((inner, j)) => Some(
                (ShaderModel::Local(Box::new(inner), words_at(s, i + 1, 9)), j),
            ),
            None => None,
        }
    } else if s[i] == 10 {
        match decode_pair(f, s, i + 1) {
            Some((mode, outer, inner, j)) => Some(
                (ShaderModel::Compose(Box::new(outer), Box::new(inner), mode), j),
            ),
            None => None,
        }
    } else {
        decode_leaf(f, s, i)
    }
}

/// The blend mode and the two children at `i`.
pub open spec fn decode_pair(f: Ops, s: Seq<u8>, i: int) -> Option<
    (BlendMode, ShaderModel, ShaderModel, int),
>
    decreases s.len(), 0nat, 1nat,
{
    if !(0 <= i < s.len()) {
        None
    } else {
        match (BlendMode::of_code(s[i]), decode_child(f, s, i + 1)) {
            (Some(mode), Some((first, j))) => match decode_child(f, s, j) {
                Some((second, k)) => Some((mode, first, second, k)),
                None => None,
            },
            _ => None,
        }
    }
}

/// The point whose coordinates stand at `i`.
pub open spec fn point_at(s: Seq<u8>, i: int) -> Point {
    Point { x: word_at(s, i), y: word_at(s, i + 4) }
}

/// Whether the serialized form of a shader without children holds all of it.
pub open spec fn leaf_fits(f: Ops, m: ShaderModel) -> bool {
    match m {
        ShaderModel::Linear(_, _, r) => ramp_fits(r),
        ShaderModel::Radial(_, _, r) => ramp_fits(r),
        ShaderModel::Sweep(_, _, _, r) => ramp_fits(r),
        ShaderModel::Conical(_, _, _, _, r) => ramp_fits(r),
        ShaderModel::Image(x) => image_fits(f, x),
        ShaderModel::Color(_) | ShaderModel::Perlin(_) | ShaderModel::Empty => true,
        _ => false,
    }
}

/// Whether the serialized form of a shader holds all of it: counts and
/// lengths fit in a word, gradients have a position for each color or none,
/// and every part has a serialized form.
pub open spec fn fits(f: Ops, m: ShaderModel) -> bool
    decreases m,
{
    match m {
        ShaderModel::Blend(_, dst, src) => child_fits(f, *dst) && child_fits(f, *src) && fits(f, *dst)
            && fits(f, *src),
        ShaderModel::Local(inner, matrix) => matrix.len() == 9 && child_fits(f, *inner) && fits(
            f,
            *inner,
        ),
        ShaderModel::Compose(outer, inner, _) => child_fits(f, *outer) && child_fits(f, *inner) && fits(
            f,
            *outer,
        ) && fits(f, *inner),
        _ => leaf_fits(f, m),
    }
}

/// Whether a child has a serialized form whose length fits in a word.
pub open spec fn child_fits(f: Ops, m: ShaderModel) -> bool {
    encode(m) matches Some(e) && e.len() <= u32::MAX
}

proof fn lemma_words_stand(s: Seq<u8>, i: int, ws: Seq<u32>)
    requires
        stands_at(s, i, words_bytes(ws)),
    ensures
        words_bytes(ws).len() == 4 * ws.len(),
        forall|k: int| 0 <= k < ws.len() ==> #[trigger] word_at(s, i + 4 * k) == ws[k],
{
    lemma_words_len(ws);
    lemma_stands_words(s, i, ws);
    assert forall|k: int| 0 <= k < ws.len() implies #[trigger] word_at(s, i + 4 * k) == ws[k] by {
        assert(words_at(s, i, ws.len())[k] == ws[k]);
    }
}

proof fn lemma_child_round_trip(f: Ops, s: Seq<u8>, i: int, m: ShaderModel)
    requires
        child_fits(f, m),
        fits(f, m),
        stands_at(s, i, encode_frame(encode(m))),
    ensures
        decode_child(f, s, i) == Some((m, i + encode_frame(encode(m)).len())),
    decreases m, 1nat,
{
    lemma_frame_round_trip(s, i, encode(m));
    let b = encode(m)->0;
    assert(b.subrange(0, b.len() as int) =~= b);
    lemma_round_trip(f, b, 0, m);
}

proof fn lemma_pair_round_trip(
    f: Ops,
    s: Seq<u8>,
    i: int,
    mode: BlendMode,
    first: ShaderModel,
    second: ShaderModel,
    a: Seq<u8>,
)
    requires
        child_fits(f, first),
        fits(f, first),
        child_fits(f, second),
        fits(f, second),
        a.len() == 1,
        stands_at(
            s,
            i,
            a + seq![mode.code()] + encode_frame(encode(first)) + encode_frame(encode(second)),
        ),
        decode_child(f, s, i + 2) == Some((first, i + 2 + encode_frame(encode(first)).len())),
        decode_child(f, s, i + 2 + encode_frame(encode(first)).len()) == Some(
            (
                second,
                i + 2 + encode_frame(encode(first)).len() + encode_frame(encode(second)).len(),
            ),
        ),
    ensures
        decode_pair(f, s, i + 1) == Some(
            (
                mode,
                first,
                second,
                i + 2 + encode_frame(encode(first)).len() + encode_frame(encode(second)).len(),
            ),
        ),
{
    let b = seq![mode.code()];
    let c = encode_frame(encode(first));
    let d = encode_frame(encode(second));
    lemma_stands_split(s, i, a + b + c, d);
    lemma_stands_split(s, i, a + b, c);
    lemma_stands_split(s, i, a, b);
    lemma_stands_byte(s, i + 1, mode.code());
}

proof fn lemma_gradient_round_trip(s: Seq<u8>, i: int, kind: u8, ws: Seq<u32>, r: RampModel)
    requires
        ramp_fits(r),
        stands_at(s, i, seq![kind] + words_bytes(ws) + encode_ramp(r)),
    ensures
        0 <= i < s.len(),
        s[i] == kind,
        words_bytes(ws).len() == 4 * ws.len(),
        forall|k: int| 0 <= k < ws.len() ==> #[trigger] word_at(s, i + 1 + 4 * k) == ws[k],
        decode_ramp(s, i + 1 + 4 * ws.len()) == Some(
            (r, i + 1 + 4 * ws.len() + encode_ramp(r).len()),
        ),
{
    let a = seq![kind];
    let b = words_bytes(ws);
    lemma_stands_split(s, i, a + b, encode_ramp(r));
    lemma_stands_split(s, i, a, b);
    lemma_stands_byte(s, i, kind);
    lemma_words_stand(s, i + 1, ws);
    lemma_ramp_round_trip(s, i + 1 + b.len(), r);
}

proof fn lemma_leaf_round_trip(f: Ops, s: Seq<u8>, i: int, m: ShaderModel)
    requires
        leaf_fits(f, m),
        stands_at(s, i, encode_leaf(m)),
    ensures
        decode_leaf(f, s, i) == Some((m, i + encode_leaf(m).len())),
        0 <= i < s.len(),
        !(8 <= s[i] <= 10),
{
    reveal(encode_leaf);
    reveal(decode_leaf);
    match m {
        ShaderModel::Color(c) => {
            let ws = seq![c.r, c.g, c.b, c.a];
            lemma_stands_split(s, i, seq![1u8], words_bytes(ws));
            lemma_stands_byte(s, i, 1);
            lemma_words_stand(s, i + 1, ws);
            assert(word_at(s, i + 1 + 4 * 0) == c.r);
            assert(word_at(s, i + 1 + 4 * 1) == c.g);
            assert(word_at(s, i + 1 + 4 * 2) == c.b);
            assert(word_at(s, i + 1 + 4 * 3) == c.a);
        },
        ShaderModel::Linear(p, q, r) => {
            let ws = seq![p.x, p.y, q.x, q.y];
            lemma_gradient_round_trip(s, i, 2, ws, r);
            assert(word_at(s, i + 1 + 4 * 0) == p.x);
            assert(word_at(s, i + 1 + 4 * 1) == p.y);
            assert(word_at(s, i + 1 + 4 * 2) == q.x);
            assert(word_at(s, i + 1 + 4 * 3) == q.y);
        },
        ShaderModel::Radial(p, radius, r) => {
            let ws = seq![p.x, p.y, radius];
            lemma_gradient_round_trip(s, i, 3, ws, r);
            assert(word_at(s, i + 1 + 4 * 0) == p.x);
            assert(word_at(s, i + 1 + 4 * 1) == p.y);
            assert(word_at(s, i + 1 + 4 * 2) == radius);
        },
        ShaderModel::Sweep(p, from, to, r) => {
            let ws = seq![p.x, p.y, from, to];
            lemma_gradient_round_trip(s, i, 4, ws, r);
            assert(word_at(s, i + 1 + 4 * 0) == p.x);
            assert(word_at(s, i + 1 + 4 * 1) == p.y);
            assert(word_at(s, i + 1 + 4 * 2) == from);
            assert(word_at(s, i + 1 + 4 * 3) == to);
        },
        ShaderModel::Conical(p, pr, q, qr, r) => {
            let ws = seq![p.x, p.y, pr, q.x, q.y, qr];
            lemma_gradient_round_trip(s, i, 5, ws, r);
            assert(word_at(s, i + 1 + 4 * 0) == p.x);
            assert(word_at(s, i + 1 + 4 * 1) == p.y);
            assert(word_at(s, i + 1 + 4 * 2) == pr);
            assert(word_at(s, i + 1 + 4 * 3) == q.x);
            assert(word_at(s, i + 1 + 4 * 4) == q.y);
            assert(word_at(s, i + 1 + 4 * 5) == qr);
        },
        ShaderModel::Image(x) => {
            lemma_image_round_trip(f, s, i, x);
        },
        ShaderModel::Perlin(x) => {
            lemma_noise_round_trip(s, i, x);
        },
        _ => {
            lemma_stands_byte(s, i, 11);
        },
    }
}

proof fn lemma_round_trip(f: Ops, s: Seq<u8>, i: int, m: ShaderModel)
    requires
        fits(f, m),
        encode(m) is Some,
        stands_at(s, i, encode(m)->0),
    ensures
        decode(f, s, i) == Some((m, i + encode(m)->0.len())),
    decreases m, 0nat,
{
    match m {
        ShaderModel::Blend(mode, dst, src) => {
            let a = seq![8u8];
            let b = seq![mode.code()];
            let c = encode_frame(encode(*src));
            let d = encode_frame(encode(*dst));
            lemma_stands_split(s, i, a + b + c, d);
            lemma_stands_split(s, i, a + b, c);
            lemma_stands_split(s, i, a, b);
            lemma_stands_byte(s, i, 8);
            lemma_child_round_trip(f, s, i + 2, *src);
            lemma_child_round_trip(f, s, i + 2 + c.len(), *dst);
            lemma_pair_round_trip(f, s, i, mode, *src, *dst, a);
        },
        ShaderModel::Local(inner, matrix) => {
            let a = seq![9u8];
            let b = words_bytes(matrix);
            let c = encode_frame(encode(*inner));
            lemma_stands_split(s, i, a + b, c);
            lemma_stands_split(s, i, a, b);
            lemma_stands_byte(s, i, 9);
            lemma_words_len(matrix);
            lemma_stands_words(s, i + 1, matrix);
            lemma_child_round_trip(f, s, i + 37, *inner);
        },
        ShaderModel::Compose(outer, inner, mode) => {
            let a = seq![10u8];
            let b = seq![mode.code()];
            let c = encode_frame(encode(*outer));
            let d = encode_frame(encode(*inner));
            lemma_stands_split(s, i, a + b + c, d);
            lemma_stands_split(s, i, a + b, c);
            lemma_stands_split(s, i, a, b);
            lemma_stands_byte(s, i, 10);
            lemma_child_round_trip(f, s, i + 2, *outer);
            lemma_child_round_trip(f, s, i + 2 + c.len(), *inner);
            lemma_pair_round_trip(f, s, i, mode, *outer, *inner, a);
        },
        ShaderModel::Runtime => {},
        _ => {
            lemma_leaf_round_trip(f, s, i, m);
        },
    }
}

/// Reading the serialized form of a shader gives the shader back, wherever
/// it stands among other bytes, and stops where it ends.
pub proof fn serialized_shader_is_read_back(
    f: Ops,
    before: Seq<u8>,
    m: ShaderModel,
    after: Seq<u8>,
)
    requires
        fits(f, m),
    ensures
        encode(m) matches Some(e) && decode(f, before + e + after, before.len() as int) == Some(
            (m, (before.len() + e.len()) as int),
        ),
{
    let e = encode(m)->0;
    let s = before + e + after;
    assert(s.subrange(before.len() as int, (before.len() + e.len()) as int) =~= e);
    lemma_round_trip(f, s, before.len() as int, m);
}

impl Shader {
    /// Serializes the shader. One that runs a program has no serialized form,
    /// and as a child it is left out.
    pub fn serialize(&self) -> (r: Option<Vec<u8>>)
        ensures
            opt_bytes(r) == encode(shader_model(*self)),
        decreases self,
    {
        proof {
            reveal(encode_leaf);
        }
        let mut out: Vec<u8> = Vec::new();
        match self {
            Shader::Color(x) => {
                push_byte(&mut out, 1);
                assert(out@ =~= seq![1u8]);
                push_color(&mut out, x.color);
            },
            Shader::Linear(x) => {
                push_byte(&mut out, 2);
                assert(out@ =~= seq![2u8]);
                push_words(&mut out, [x.start.x, x.start.y, x.end.x, x.end.y].as_slice());
                assert([x.start.x, x.start.y, x.end.x, x.end.y]@ =~= seq![
                    x.start.x,
                    x.start.y,
                    x.end.x,
                    x.end.y,
                ]);
                push_ramp(&mut out, &x.ramp);
            },
            Shader::Radial(x) => {
                push_byte(&mut out, 3);
                assert(out@ =~= seq![3u8]);
                push_words(&mut out, [x.center.x, x.center.y, x.radius].as_slice());
                assert([x.center.x, x.center.y, x.radius]@ =~= seq![
                    x.center.x,
                    x.center.y,
                    x.radius,
                ]);
                push_ramp(&mut out, &x.ramp);
            },
            Shader::Sweep(x) => {
                push_byte(&mut out, 4);
                assert(out@ =~= seq![4u8]);
                push_words(
                    &mut out,
                    [x.center.x, x.center.y, x.start_angle, x.end_angle].as_slice(),
                );
                assert([x.center.x, x.center.y, x.start_angle, x.end_angle]@ =~= seq![
                    x.center.x,
                    x.center.y,
                    x.start_angle,
                    x.end_angle,
                ]);
                push_ramp(&mut out, &x.ramp);
            },
            Shader::Conical(x) => {
                let p = x.start_center;
                let q = x.end_center;
                push_byte(&mut out, 5);
                assert(out@ =~= seq![5u8]);
                push_words(
                    &mut out,
                    [p.x, p.y, x.start_radius, q.x, q.y, x.end_radius].as_slice(),
                );
                assert([p.x, p.y, x.start_radius, q.x, q.y, x.end_radius]@ =~= seq![
                    p.x,
                    p.y,
                    x.start_radius,
                    q.x,
                    q.y,
                    x.end_radius,
                ]);
                push_ramp(&mut out, &x.ramp);
            },
            Shader::Image(x) => {
                out = write_image(x);
            },
            Shader::Perlin(x) => {
                out = write_noise(x);
            },
            Shader::Blend(x) => {
                push_byte(&mut out, 8);
                assert(out@ =~= seq![8u8]);
                push_byte(&mut out, x.blend_mode.to_u8());
                let src = x.src.serialize();
                push_frame(&mut out, &src);
                let dst = x.dst.serialize();
                push_frame(&mut out, &dst);
            },
            Shader::Local(x) => {
                push_byte(&mut out, 9);
                assert(out@ =~= seq![9u8]);
                push_words(&mut out, x.matrix.values.as_slice());
                let inner = x.inner.serialize();
                push_frame(&mut out, &inner);
            },
            Shader::Compose(x) => {
                push_byte(&mut out, 10);
                assert(out@ =~= seq![10u8]);
                push_byte(&mut out, x.blend_mode.to_u8());
                let outer = x.outer.serialize();
                push_frame(&mut out, &outer);
                let inner = x.inner.serialize();
                push_frame(&mut out, &inner);
            },
            Shader::Empty(_) => {
                push_byte(&mut out, 11);
                assert(out@ =~= seq![11u8]);
            },
            Shader::Runtime(_) => {
                return None;
            },
        }
        Some(out)
    }
}

/// Reads a framed shader.
fn deserialize_child_shader<A: Fn(FloatOp, u32, u32, u32) -> u32>(
    f: &FloatUnit<A>,
    bytes: &[u8],
    offset: usize,
) -> (r: Option<(Shader, usize)>)
    requires
        f.steady(),
    ensures
        match decode_child(f.ops(), bytes@, offset as int) {
            Some((m, j)) => r matches Some((x, k)) && shader_model(x) == m && k == j,
            None => r is None,
        },
    decreases bytes@.len(), 0nat, 0nat,
{
    match take_frame(bytes, offset) {
        Some((present, from, to)) => {
            if !present {
                return None;
            }
            match deserialize_shader(f, slice_subrange(bytes, from, to), 0) {
                Some((x, _)) => Some((x, to)),
                None => None,
            }
        },
        None => None,
    }
}

/// Reads a blend mode and two framed shaders.
fn take_pair<A: Fn(FloatOp, u32, u32, u32) -> u32>(
    f: &FloatUnit<A>,
    bytes: &[u8],
    offset: usize,
) -> (r: Option<(BlendMode, Shader, Shader, usize)>)
    requires
        f.steady(),
    ensures
        match decode_pair(f.ops(), bytes@, offset as int) {
            Some((mode, first, second, j)) => r matches Some((a, x, y, k)) && a == mode
                && shader_model(x) == first && shader_model(y) == second && k == j,
            None => r is None,
        },
    decreases bytes@.len(), 0nat, 1nat,
{
    let len: usize = bytes.len();
    if offset >= len {
        return None;
    }
    match BlendMode::from_u8(bytes[offset]) {
        Some(mode) => match deserialize_child_shader(f, bytes, offset + 1) {
            Some((first, j)) => match deserialize_child_shader(f, bytes, j) {
                Some((second, k)) => Some((mode, first, second, k)),
                None => None,
            },
            None => None,
        },
        None => None,
    }
}

/// Reads a point.
fn read_point(s: &[u8], i: usize) -> (p: Point)
    requires
        i + 8 <= s@.len(),
    ensures
        p == point_at(s@, i as int),
{
    let n: usize = s.len();
    Point { x: read_word(s, i), y: read_word(s, i + 4) }
}

/// Reads a shader without children.
fn deserialize_leaf<A: Fn(FloatOp, u32, u32, u32) -> u32>(
    f: &FloatUnit<A>,
    bytes: &[u8],
    offset: usize,
) -> (r: Option<(Shader, usize)>)
    requires
        f.steady(),
    ensures
        match decode_leaf(f.ops(), bytes@, offset as int) {
            Some((m, j)) => r matches Some((x, k)) && shader_model(x) == m && k == j,
            None => r is None,
        },
{
    proof {
        reveal(decode_leaf);
        reveal(decode_ramp);
    }
    let len: usize = bytes.len();
    if offset >= len {
        return None;
    }
    let kind: u8 = bytes[offset];
    let room: usize = len - offset;
    if kind == 1 {
        if room < 17 {
            return None;
        }
        let color = read_color(bytes, offset + 1);
        Some((Shader::Color(ColorShader { color }), offset + 17))
    } else if kind == 2 {
        if room < 17 {
            return None;
        }
        match take_ramp(bytes, offset + 17) {
            Some((ramp, end)) => {
                let x = LinearGradient {
                    start: read_point(bytes, offset + 1),
                    end: read_point(bytes, offset + 9),
                    ramp,
                };
                Some((Shader::Linear(x), end))
            },
            None => None,
        }
    } else if kind == 3 {
        if room < 13 {
            return None;
        }
        match take_ramp(bytes, offset + 13) {
            Some((ramp, end)) => {
                let x = RadialGradient {
                    center: read_point(bytes, offset + 1),
                    radius: read_word(bytes, offset + 9),
                    ramp,
                };
                Some((Shader::Radial(x), end))
            },
            None => None,
        }
    } else if kind == 4 {
        if room < 17 {
            return None;
        }
        match take_ramp(bytes, offset + 17) {
            Some((ramp, end)) => {
                let x = SweepGradient {
                    center: read_point(bytes, offset + 1),
                    start_angle: read_word(bytes, offset + 9),
                    end_angle: read_word(bytes, offset + 13),
                    ramp,
                };
                Some((Shader::Sweep(x), end))
            },
            None => None,
        }
    } else if kind == 5 {
        if room < 25 {
            return None;
        }
        match take_ramp(bytes, offset + 25) {
            Some((ramp, end)) => {
                let x = TwoPointConicalGradient {
                    start_center: read_point(bytes, offset + 1),
                    start_radius: read_word(bytes, offset + 9),
                    end_center: read_point(bytes, offset + 13),
                    end_radius: read_word(bytes, offset + 21),
                    ramp,
                };
                Some((Shader::Conical(x), end))
            },
            None => None,
        }
    } else if kind == 6 {
        match take_image(f, bytes, offset + 1) {
            Some((x, end)) => Some((Shader::Image(x), end)),
            None => None,
        }
    } else if kind == 7 {
        match take_noise(bytes, offset + 1) {
            Some((x, end)) => Some((Shader::Perlin(x), end)),
            None => None,
        }
    } else if kind == 11 {
        Some((Shader::Empty(EmptyShader), offset + 1))
    } else {
        None
    }
}

/// Reads the shader at `offset` and says where it ends. Returns `None` if
/// the bytes hold none there.
pub fn deserialize_shader<A: Fn(FloatOp, u32, u32, u32) -> u32>(
    f: &FloatUnit<A>,
    bytes: &[u8],
    offset: usize,
) -> (r: Option<(Shader, usize)>)
    requires
        f.steady(),
    ensures
        match decode(f.ops(), bytes@, offset as int) {
            Some((m, j)) => r matches Some((x, k)) && shader_model(x) == m && k == j,
            None => r is None,
        },
    decreases bytes@.len(), 1nat, 0nat,
{
    let len: usize = bytes.len();
    if offset >= len {
        return None;
    }
    let kind: u8 = bytes[offset];
    let room: usize = len - offset;
    if kind == 8 {
        match take_pair(f, bytes, offset + 1) {
            Some((blend_mode, src, dst, end)) => {
                let x = BlendShader { blend_mode, dst: Arc::new(dst), src: Arc::new(src) };
                Some((Shader::Blend(x), end))
            },
            None => None,
        }
    } else if kind == 9 {
        if room < 37 {
            return None;
        }
        let matrix = read_matrix(bytes, offset + 1);
        match deserialize_child_shader(f, bytes, offset + 37) {
            Some((inner, end)) => {
                Some((Shader::Local(LocalMatrixShader { inner: Arc::new(inner), matrix }), end))
            },
            None => None,
        }
    } else if kind == 10 {
        match take_pair(f, bytes, offset + 1) {
            Some((blend_mode, outer, inner, end)) => {
                let x = ComposeShader {
                    outer: Arc::new(outer),
                    inner: Arc::new(inner),
                    blend_mode,
                };
                Some((Shader::Compose(x), end))
            },
            None => None,
        }
    } else {
        deserialize_leaf(f, bytes, offset)
    }
}

} // verus!
