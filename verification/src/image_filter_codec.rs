//! Serialized image filters.
//!
//! Every filter has a serialized form unless one of its parts has none. Blurs,
//! shadows, morphology, offsets, compositions and merges are read back; the
//! other kinds are only written.

use std::sync::Arc;
use vstd::prelude::*;
use vstd::slice::slice_subrange;

use crate::blend_mode::BlendMode;
use crate::bytes::{
    le_bytes, lemma_stands_byte, lemma_stands_split, lemma_stands_words, lemma_word_of_bytes,
    lemma_words_len, push_byte, push_bytes, push_word, push_words, read_word, stands_at, word_at,
    words_at, words_bytes,
};
use crate::filter::{
    BlurImageFilter, ColorChannel, ComposeImageFilter, DropShadowImageFilter, ImageFilter,
    ImageFilterRef, LightType, LightingImageFilter, MatrixConvolutionImageFilter, MergeImageFilter,
    MorphologyImageFilter, MorphologyType, OffsetImageFilter,
};
use crate::filter_codec::{
    color_entries, encode_color, lemma_sized_round_trip, push_sized, sized, sized_at, take_sized,
};
use crate::geometry::{Color4f, Rect};
use crate::shader::TileMode;
use crate::wire::{
    color_at, encode_frame, int_to_word, len_to_word, len_word, opt_bytes, push_frame, read_color,
    word_of_int,
};

verus! {

/// An image filter as a mathematical value.
pub enum FilterModel {
    /// A blur.
    Blur(u32, u32, TileMode),
    /// A shadow: offsets, deviations, color, and whether it stands alone.
    DropShadow(u32, u32, u32, u32, Color4f, bool),
    /// A dilation or an erosion.
    Morphology(MorphologyType, u32, u32, Option<Box<FilterModel>>),
    /// A color filter with the given entries.
    ColorFilter(Option<Seq<u32>>, Option<Box<FilterModel>>),
    /// A displacement: components, scale, displacement and displaced image.
    DisplacementMap(ColorChannel, ColorChannel, u32, Box<FilterModel>, Option<Box<FilterModel>>),
    /// Lighting.
    Lighting(LightModel, Option<Box<FilterModel>>),
    /// A composition: outer and inner.
    Compose(Box<FilterModel>, Box<FilterModel>),
    /// Several filters at once.
    Merge(Seq<Option<FilterModel>>),
    /// An offset.
    Offset(u32, u32, Option<Box<FilterModel>>),
    /// A convolution.
    MatrixConvolution(ConvolutionModel, Option<Box<FilterModel>>),
    /// Copies of a part: source, destination and input.
    Tile(Rect, Rect, Option<Box<FilterModel>>),
    /// A blend: mode, background and foreground.
    Blend(BlendMode, Option<Box<FilterModel>>, Option<Box<FilterModel>>),
    /// An arithmetic blend: factors, whether colors are held below alpha,
    /// background and foreground.
    Arithmetic(
        (u32, u32, u32, u32),
        bool,
        Option<Box<FilterModel>>,
        Option<Box<FilterModel>>,
    ),
}

/// Lighting without its input.
pub struct LightModel {
    /// The source of light.
    pub light: LightType,
    /// Scale of the surface.
    pub surface_scale: u32,
    /// Diffuse constant.
    pub diffuse_constant: Option<u32>,
    /// Specular constant.
    pub specular_constant: Option<u32>,
    /// Specular exponent.
    pub specular_exponent: Option<u32>,
    /// Color of the light.
    pub light_color: Color4f,
}

/// A convolution without its input.
pub struct ConvolutionModel {
    /// Columns and rows of the kernel.
    pub kernel_size: (i32, i32),
    /// Entries of the kernel, row by row.
    pub kernel: Seq<u32>,
    /// Gain.
    pub gain: u32,
    /// Bias.
    pub bias: u32,
    /// Column and row of the target in the kernel.
    pub kernel_offset: (i32, i32),
    /// Tile mode.
    pub tile_mode: TileMode,
    /// Whether alpha is convolved too.
    pub convolve_alpha: bool,
}

/// The model of lighting.
pub open spec fn light_model(x: LightingImageFilter) -> LightModel {
    LightModel {
        light: x.light,
        surface_scale: x.surface_scale,
        diffuse_constant: x.diffuse_constant,
        specular_constant: x.specular_constant,
        specular_exponent: x.specular_exponent,
        light_color: x.light_color,
    }
}

/// The model of a convolution.
pub open spec fn convolution_model(x: MatrixConvolutionImageFilter) -> ConvolutionModel {
    ConvolutionModel {
        kernel_size: x.kernel_size,
        kernel: x.kernel@,
        gain: x.gain,
        bias: x.bias,
        kernel_offset: x.kernel_offset,
        tile_mode: x.tile_mode,
        convolve_alpha: x.convolve_alpha,
    }
}

/// The model of an optional filter.
pub open spec fn input_model(f: Option<ImageFilterRef>) -> Option<Box<FilterModel>>
    decreases f, 1nat,
{
    match f {
        None => None,
        Some(x) => Some(Box::new(filter_model(*x))),
    }
}

/// The models of the first `n` inputs.
pub open spec fn input_models(v: Seq<Option<ImageFilterRef>>, n: nat) -> Seq<Option<FilterModel>>
    decreases v, n,
{
    if n == 0 || n > v.len() {
        Seq::empty()
    } else {
        let last = match v[n - 1] {
            None => None,
            Some(x) => Some(filter_model(*x)),
        };
        input_models(v, (n - 1) as nat).push(last)
    }
}

/// The model of an image filter.
pub open spec fn filter_model(f: ImageFilter) -> FilterModel
    decreases f, 0nat,
{
    match f {
        ImageFilter::Blur(x) => FilterModel::Blur(x.sigma_x, x.sigma_y, x.tile_mode),
        ImageFilter::DropShadow(x) => FilterModel::DropShadow(
            x.dx,
            x.dy,
            x.sigma_x,
            x.sigma_y,
            x.color,
            x.shadow_only,
        ),
        ImageFilter::Morphology(x) => FilterModel::Morphology(
            x.morph_type,
            x.radius_x,
            x.radius_y,
            input_model(x.input),
        ),
        ImageFilter::ColorFilter(x) => FilterModel::ColorFilter(
            color_entries(*x.color_filter),
            input_model(x.input),
        ),
        ImageFilter::DisplacementMap(x) => FilterModel::DisplacementMap(
            x.x_channel,
            x.y_channel,
            x.scale,
            Box::new(filter_model(*x.displacement)),
            input_model(x.color),
        ),
        ImageFilter::Lighting(x) => FilterModel::Lighting(light_model(x), input_model(x.input)),
        ImageFilter::Compose(x) => FilterModel::Compose(
            Box::new(filter_model(*x.outer)),
            Box::new(filter_model(*x.inner)),
        ),
        ImageFilter::Merge(x) => FilterModel::Merge(
            input_models(x.inputs@, x.inputs@.len()),
        ),
        ImageFilter::Offset(x) => FilterModel::Offset(x.dx, x.dy, input_model(x.input)),
        ImageFilter::MatrixConvolution(x) => FilterModel::MatrixConvolution(
            convolution_model(x),
            input_model(x.input),
        ),
        ImageFilter::Tile(x) => FilterModel::Tile(x.src_rect, x.dst_rect, input_model(x.input)),
        ImageFilter::Blend(x) => FilterModel::Blend(
            x.mode,
            input_model(x.background),
            input_model(x.foreground),
        ),
        ImageFilter::Arithmetic(x) => FilterModel::Arithmetic(
            (x.k1, x.k2, x.k3, x.k4),
            x.enforce_pm_color,
            input_model(x.background),
            input_model(x.foreground),
        ),
    }
}

// ---------------------------------------------------------------------------
// Writing
// ---------------------------------------------------------------------------

/// A flag as a byte.
pub open spec fn flag(b: bool) -> u8 {
    if b {
        1
    } else {
        0
    }
}

/// The code of a component.
pub open spec fn channel_code(c: ColorChannel) -> u8 {
    match c {
        ColorChannel::R => 0,
        ColorChannel::G => 1,
        ColorChannel::B => 2,
        ColorChannel::A => 3,
    }
}

/// The code of a morphology.
pub open spec fn morph_code(m: MorphologyType) -> u8 {
    match m {
        MorphologyType::Dilate => 0,
        MorphologyType::Erode => 1,
    }
}

/// An optional word: a flag, and the word if there is one.
pub open spec fn encode_opt_word(w: Option<u32>) -> Seq<u8> {
    match w {
        Some(x) => seq![1u8] + le_bytes(x),
        None => seq![0u8],
    }
}

/// A serialized source of light.
pub open spec fn encode_light(l: LightType) -> Seq<u8> {
    match l {
        LightType::Distant { direction: d } => seq![0u8] + words_bytes(seq![d.0, d.1, d.2]),
        LightType::Point { location: p } => seq![1u8] + words_bytes(seq![p.0, p.1, p.2]),
        LightType::Spot { location: p, target: t, specular_exponent, cutoff_angle } => seq![2u8]
            + words_bytes(
            seq![p.0, p.1, p.2, t.0, t.1, t.2, specular_exponent, cutoff_angle],
        ),
    }
}

/// The fields of lighting.
pub open spec fn encode_lighting(m: LightModel) -> Seq<u8> {
    let c = m.light_color;
    seq![6u8] + encode_light(m.light) + le_bytes(m.surface_scale) + encode_opt_word(
        m.diffuse_constant,
    ) + encode_opt_word(m.specular_constant) + encode_opt_word(m.specular_exponent) + words_bytes(
        seq![c.r, c.g, c.b, c.a],
    )
}

/// The fields of a convolution.
pub open spec fn encode_convolution(m: ConvolutionModel) -> Seq<u8> {
    seq![10u8] + le_bytes(word_of_int(m.kernel_size.0)) + le_bytes(word_of_int(m.kernel_size.1))
        + le_bytes(len_word(m.kernel.len())) + words_bytes(m.kernel) + le_bytes(m.gain) + le_bytes(
        m.bias,
    ) + le_bytes(word_of_int(m.kernel_offset.0)) + le_bytes(word_of_int(m.kernel_offset.1))
        + seq![m.tile_mode.code()] + seq![flag(m.convolve_alpha)]
}

/// The edges of two rectangles.
pub open spec fn rect_words(a: Rect, b: Rect) -> Seq<u32> {
    seq![a.left, a.top, a.right, a.bottom, b.left, b.top, b.right, b.bottom]
}

/// The fields of a filter, without its parts that are filters themselves.
#[verifier::opaque]
pub open spec fn encode_head(m: FilterModel) -> Seq<u8> {
    match m {
        FilterModel::Blur(sx, sy, tile) => seq![1u8] + words_bytes(seq![sx, sy])
            + seq![tile.code()],
        FilterModel::DropShadow(dx, dy, sx, sy, c, only) => seq![2u8] + words_bytes(
            seq![dx, dy, sx, sy, c.r, c.g, c.b, c.a],
        ) + seq![flag(only)],
        FilterModel::Morphology(kind, rx, ry, _) => seq![3u8] + seq![morph_code(kind)]
            + words_bytes(seq![rx, ry]),
        FilterModel::ColorFilter(..) => seq![4u8],
        FilterModel::DisplacementMap(x, y, scale, _, _) => seq![5u8] + seq![channel_code(x)]
            + seq![channel_code(y)] + le_bytes(scale),
        FilterModel::Lighting(l, _) => encode_lighting(l),
        FilterModel::Compose(..) => seq![7u8],
        FilterModel::Merge(v) => seq![8u8] + le_bytes(len_word(v.len())),
        FilterModel::Offset(dx, dy, _) => seq![9u8] + words_bytes(seq![dx, dy]),
        FilterModel::MatrixConvolution(c, _) => encode_convolution(c),
        FilterModel::Tile(a, b, _) => seq![11u8] + words_bytes(rect_words(a, b)),
        FilterModel::Blend(mode, _, _) => seq![12u8] + seq![mode.code()],
        FilterModel::Arithmetic(k, pm, _, _) => seq![13u8] + words_bytes(
            seq![k.0, k.1, k.2, k.3],
        ) + seq![flag(pm)],
    }
}

/// Two serialized parts, if both have a serialized form.
pub open spec fn both(a: Option<Seq<u8>>, b: Option<Seq<u8>>) -> Option<Seq<u8>> {
    match (a, b) {
        (Some(x), Some(y)) => Some(x + y),
        _ => None,
    }
}

/// A part that must be there, with its length.
pub open spec fn counted(e: Option<Seq<u8>>) -> Option<Seq<u8>> {
    match e {
        Some(b) => Some(sized(b)),
        None => None,
    }
}

/// An optional filter: a flag, and its length and bytes if it is there.
pub open spec fn encode_input(f: Option<Box<FilterModel>>) -> Option<Seq<u8>>
    decreases f, 1nat,
{
    match f {
        None => Some(encode_frame(None)),
        Some(x) => match encode(*x) {
            Some(b) => Some(encode_frame(Some(b))),
            None => None,
        },
    }
}

/// The first `n` of several optional filters.
pub open spec fn encode_inputs(v: Seq<Option<FilterModel>>, n: nat) -> Option<Seq<u8>>
    decreases v, n,
{
    if n == 0 || n > v.len() {
        Some(Seq::empty())
    } else {
        let last = match v[n - 1] {
            None => Some(encode_frame(None)),
            Some(x) => match encode(x) {
                Some(b) => Some(encode_frame(Some(b))),
                None => None,
            },
        };
        both(encode_inputs(v, (n - 1) as nat), last)
    }
}

/// The serialized form of an image filter.
pub open spec fn encode(m: FilterModel) -> Option<Seq<u8>>
    decreases m, 0nat,
{
    let head = Some(encode_head(m));
    match m {
        FilterModel::Blur(..) => head,
        FilterModel::DropShadow(..) => head,
        FilterModel::Morphology(_, _, _, input) => both(head, encode_input(input)),
        FilterModel::ColorFilter(c, input) => both(
            both(head, counted(encode_color(c))),
            encode_input(input),
        ),
        FilterModel::DisplacementMap(_, _, _, d, color) => both(
            both(head, counted(encode(*d))),
            encode_input(color),
        ),
        FilterModel::Lighting(_, input) => both(head, encode_input(input)),
        FilterModel::Compose(outer, inner) => both(
            both(head, counted(encode(*outer))),
            counted(encode(*inner)),
        ),
        FilterModel::Merge(v) => both(head, encode_inputs(v, v.len())),
        FilterModel::Offset(_, _, input) => both(head, encode_input(input)),
        FilterModel::MatrixConvolution(_, input) => both(head, encode_input(input)),
        FilterModel::Tile(_, _, input) => both(head, encode_input(input)),
        FilterModel::Blend(_, bg, fg) => both(both(head, encode_input(bg)), encode_input(fg)),
        FilterModel::Arithmetic(_, _, bg, fg) => both(
            both(head, encode_input(bg)),
            encode_input(fg),
        ),
    }
}

/// A flag as a byte.
fn flag_of(b: bool) -> (r: u8)
    ensures
        r == flag(b),
{
    if b {
        1
    } else {
        0
    }
}

/// The code of a component.
fn code_of_channel(c: ColorChannel) -> (r: u8)
    ensures
        r == channel_code(c),
{
    match c {
        ColorChannel::R => 0,
        ColorChannel::G => 1,
        ColorChannel::B => 2,
        ColorChannel::A => 3,
    }
}

/// Appends an optional word.
fn push_opt_word(out: &mut Vec<u8>, w: Option<u32>)
    ensures
        final(out)@ == old(out)@ + encode_opt_word(w),
{
    match w {
        Some(x) => {
            out.push(1);
            push_word(out, x);
            assert(out@ =~= old(out)@ + (seq![1u8] + le_bytes(x)));
        },
        None => {
            push_byte(out, 0);
        },
    }
}

/// Appends a source of light.
fn push_light(out: &mut Vec<u8>, l: LightType)
    ensures
        final(out)@ == old(out)@ + encode_light(l),
{
    match l {
        LightType::Distant { direction: d } => {
            push_byte(out, 0);
            push_words(out, [d.0, d.1, d.2].as_slice());
            assert([d.0, d.1, d.2]@ =~= seq![d.0, d.1, d.2]);
        },
        LightType::Point { location: p } => {
            push_byte(out, 1);
            push_words(out, [p.0, p.1, p.2].as_slice());
            assert([p.0, p.1, p.2]@ =~= seq![p.0, p.1, p.2]);
        },
        LightType::Spot { location: p, target: t, specular_exponent, cutoff_angle } => {
            push_byte(out, 2);
            push_words(
                out,
                [p.0, p.1, p.2, t.0, t.1, t.2, specular_exponent, cutoff_angle].as_slice(),
            );
            assert([p.0, p.1, p.2, t.0, t.1, t.2, specular_exponent, cutoff_angle]@ =~= seq![
                p.0,
                p.1,
                p.2,
                t.0,
                t.1,
                t.2,
                specular_exponent,
                cutoff_angle,
            ]);
        },
    }
    assert(out@ =~= old(out)@ + encode_light(l));
}

/// The fields of lighting.
fn write_lighting(x: &LightingImageFilter) -> (out: Vec<u8>)
    ensures
        out@ == encode_lighting(light_model(*x)),
{
    let c = x.light_color;
    let mut out: Vec<u8> = Vec::new();
    push_byte(&mut out, 6);
    assert(out@ =~= seq![6u8]);
    push_light(&mut out, x.light);
    push_word(&mut out, x.surface_scale);
    push_opt_word(&mut out, x.diffuse_constant);
    push_opt_word(&mut out, x.specular_constant);
    push_opt_word(&mut out, x.specular_exponent);
    push_words(&mut out, [c.r, c.g, c.b, c.a].as_slice());
    assert([c.r, c.g, c.b, c.a]@ =~= seq![c.r, c.g, c.b, c.a]);
    out
}

/// The fields of a convolution.
fn write_convolution(x: &MatrixConvolutionImageFilter) -> (out: Vec<u8>)
    ensures
        out@ == encode_convolution(convolution_model(*x)),
{
    let mut out: Vec<u8> = Vec::new();
    push_byte(&mut out, 10);
    assert(out@ =~= seq![10u8]);
    push_word(&mut out, int_to_word(x.kernel_size.0));
    push_word(&mut out, int_to_word(x.kernel_size.1));
    push_word(&mut out, len_to_word(x.kernel.len()));
    push_words(&mut out, x.kernel.as_slice());
    push_word(&mut out, x.gain);
    push_word(&mut out, x.bias);
    push_word(&mut out, int_to_word(x.kernel_offset.0));
    push_word(&mut out, int_to_word(x.kernel_offset.1));
    push_byte(&mut out, x.tile_mode.to_u8());
    push_byte(&mut out, flag_of(x.convolve_alpha));
    out
}

/// The fields of a filter.
fn write_head(f: &ImageFilter) -> (out: Vec<u8>)
    ensures
        out@ == encode_head(filter_model(*f)),
{
    proof {
        reveal(encode_head);
    }
    let mut out: Vec<u8> = Vec::new();
    match f {
        ImageFilter::Blur(x) => {
            push_byte(&mut out, 1);
            assert(out@ =~= seq![1u8]);
            push_words(&mut out, [x.sigma_x, x.sigma_y].as_slice());
            assert([x.sigma_x, x.sigma_y]@ =~= seq![x.sigma_x, x.sigma_y]);
            push_byte(&mut out, x.tile_mode.to_u8());
        },
        ImageFilter::DropShadow(x) => {
            let c = x.color;
            push_byte(&mut out, 2);
            assert(out@ =~= seq![2u8]);
            push_words(
                &mut out,
                [x.dx, x.dy, x.sigma_x, x.sigma_y, c.r, c.g, c.b, c.a].as_slice(),
            );
            assert([x.dx, x.dy, x.sigma_x, x.sigma_y, c.r, c.g, c.b, c.a]@ =~= seq![
                x.dx,
                x.dy,
                x.sigma_x,
                x.sigma_y,
                c.r,
                c.g,
                c.b,
                c.a,
            ]);
            push_byte(&mut out, flag_of(x.shadow_only));
        },
        ImageFilter::Morphology(x) => {
            push_byte(&mut out, 3);
            assert(out@ =~= seq![3u8]);
            let code: u8 = match x.morph_type {
                MorphologyType::Dilate => 0,
                MorphologyType::Erode => 1,
            };
            push_byte(&mut out, code);
            push_words(&mut out, [x.radius_x, x.radius_y].as_slice());
            assert([x.radius_x, x.radius_y]@ =~= seq![x.radius_x, x.radius_y]);
        },
        ImageFilter::ColorFilter(_) => {
            push_byte(&mut out, 4);
            assert(out@ =~= seq![4u8]);
        },
        ImageFilter::DisplacementMap(x) => {
            push_byte(&mut out, 5);
            assert(out@ =~= seq![5u8]);
            push_byte(&mut out, code_of_channel(x.x_channel));
            push_byte(&mut out, code_of_channel(x.y_channel));
            push_word(&mut out, x.scale);
        },
        ImageFilter::Lighting(x) => {
            out = write_lighting(x);
        },
        ImageFilter::Compose(_) => {
            push_byte(&mut out, 7);
            assert(out@ =~= seq![7u8]);
        },
        ImageFilter::Merge(x) => {
            push_byte(&mut out, 8);
            assert(out@ =~= seq![8u8]);
            push_word(&mut out, len_to_word(x.inputs.len()));
            proof {
                lemma_input_models_len(x.inputs@, x.inputs@.len());
            }
        },
        ImageFilter::Offset(x) => {
            push_byte(&mut out, 9);
            assert(out@ =~= seq![9u8]);
            push_words(&mut out, [x.dx, x.dy].as_slice());
            assert([x.dx, x.dy]@ =~= seq![x.dx, x.dy]);
        },
        ImageFilter::MatrixConvolution(x) => {
            out = write_convolution(x);
        },
        ImageFilter::Tile(x) => {
            let a = x.src_rect;
            let b = x.dst_rect;
            push_byte(&mut out, 11);
            assert(out@ =~= seq![11u8]);
            push_words(
                &mut out,
                [a.left, a.top, a.right, a.bottom, b.left, b.top, b.right, b.bottom].as_slice(),
            );
            assert([a.left, a.top, a.right, a.bottom, b.left, b.top, b.right, b.bottom]@
                =~= rect_words(a, b));
        },
        ImageFilter::Blend(x) => {
            push_byte(&mut out, 12);
            assert(out@ =~= seq![12u8]);
            push_byte(&mut out, x.mode.to_u8());
        },
        ImageFilter::Arithmetic(x) => {
            push_byte(&mut out, 13);
            assert(out@ =~= seq![13u8]);
            push_words(&mut out, [x.k1, x.k2, x.k3, x.k4].as_slice());
            assert([x.k1, x.k2, x.k3, x.k4]@ =~= seq![x.k1, x.k2, x.k3, x.k4]);
            push_byte(&mut out, flag_of(x.enforce_pm_color));
        },
    }
    out
}

proof fn lemma_input_models_len(v: Seq<Option<ImageFilterRef>>, n: nat)
    requires
        n <= v.len(),
    ensures
        input_models(v, n).len() == n,
        forall|i: int|
            0 <= i < n ==> #[trigger] input_models(v, n)[i] == match v[i] {
                None => None,
                Some(x) => Some(filter_model(*x)),
            },
    decreases n,
{
    if n > 0 {
        lemma_input_models_len(v, (n - 1) as nat);
    }
}

/// The bytes so far, unless a part had no serialized form.
fn append_part(out: Option<Vec<u8>>, part: Option<Vec<u8>>) -> (r: Option<Vec<u8>>)
    ensures
        opt_bytes(r) == both(opt_bytes(out), opt_bytes(part)),
{
    match (out, part) {
        (Some(a), Some(b)) => {
            let mut a = a;
            push_bytes(&mut a, b.as_slice());
            Some(a)
        },
        _ => None,
    }
}

/// A part with its length.
fn count_part(part: Option<Vec<u8>>) -> (r: Option<Vec<u8>>)
    ensures
        opt_bytes(r) == counted(opt_bytes(part)),
{
    match part {
        Some(b) => {
            let mut out: Vec<u8> = Vec::new();
            push_sized(&mut out, b.as_slice());
            assert(out@ =~= sized(b@));
            Some(out)
        },
        None => None,
    }
}

/// Serializes an optional filter.
fn write_input(f: &Option<ImageFilterRef>) -> (r: Option<Vec<u8>>)
    ensures
        opt_bytes(r) == encode_input(input_model(*f)),
    decreases f, 1nat,
{
    let mut out: Vec<u8> = Vec::new();
    match f {
        None => {
            push_frame(&mut out, &None);
            assert(out@ =~= encode_frame(None));
            Some(out)
        },
        Some(x) => {
            let e = x.serialize();
            match e {
                Some(b) => {
                    let e = Some(b);
                    push_frame(&mut out, &e);
                    assert(out@ =~= encode_frame(opt_bytes(e)));
                    Some(out)
                },
                None => None,
            }
        },
    }
}

impl ImageFilter {
    /// Serializes the filter. One with a part that has no serialized form has
    /// none either.
    pub fn serialize(&self) -> (r: Option<Vec<u8>>)
        ensures
            opt_bytes(r) == encode(filter_model(*self)),
        decreases self, 0nat,
    {
        let head = Some(write_head(self));
        match self {
            ImageFilter::Blur(_) => head,
            ImageFilter::DropShadow(_) => head,
            ImageFilter::Morphology(x) => append_part(head, write_input(&x.input)),
            ImageFilter::ColorFilter(x) => {
                let a = append_part(head, count_part(x.color_filter.serialize()));
                append_part(a, write_input(&x.input))
            },
            ImageFilter::DisplacementMap(x) => {
                let a = append_part(head, count_part(x.displacement.serialize()));
                append_part(a, write_input(&x.color))
            },
            ImageFilter::Lighting(x) => append_part(head, write_input(&x.input)),
            ImageFilter::Compose(x) => {
                let a = append_part(head, count_part(x.outer.serialize()));
                append_part(a, count_part(x.inner.serialize()))
            },
            ImageFilter::Merge(x) => {
                proof {
                    lemma_input_models_len(x.inputs@, x.inputs@.len());
                }
                append_part(head, write_inputs(&x.inputs))
            },
            ImageFilter::Offset(x) => append_part(head, write_input(&x.input)),
            ImageFilter::MatrixConvolution(x) => append_part(head, write_input(&x.input)),
            ImageFilter::Tile(x) => append_part(head, write_input(&x.input)),
            ImageFilter::Blend(x) => {
                let a = append_part(head, write_input(&x.background));
                append_part(a, write_input(&x.foreground))
            },
            ImageFilter::Arithmetic(x) => {
                let a = append_part(head, write_input(&x.background));
                append_part(a, write_input(&x.foreground))
            },
        }
    }
}

/// Serializes several optional filters.
fn write_inputs(v: &Vec<Option<ImageFilterRef>>) -> (r: Option<Vec<u8>>)
    ensures
        opt_bytes(r) == encode_inputs(input_models(v@, v@.len()), v@.len()),
    decreases v, 0nat,
{
    let ghost models = input_models(v@, v@.len());
    proof {
        lemma_input_models_len(v@, v@.len());
    }
    let mut out: Option<Vec<u8>> = Some(Vec::new());
    let mut i: usize = 0;
    assert(opt_bytes(out) == encode_inputs(models, 0)) by {
        assert(out->0@ =~= Seq::empty());
    }
    while i < v.len()
        invariant
            i <= v@.len(),
            models.len() == v@.len(),
            forall|k: int|
                0 <= k < v@.len() ==> #[trigger] models[k] == match v@[k] {
                    None => None,
                    Some(x) => Some(filter_model(*x)),
                },
            opt_bytes(out) == encode_inputs(models, i as nat),
        decreases v@.len() - i,
    {
        assert(decreases_to!(v => v@[i as int]));
        let part = write_input(&v[i]);
        assert(models[i as int] == match v@[i as int] {
            None => None,
            Some(x) => Some(filter_model(*x)),
        });
        out = append_part(out, part);
        i = i + 1;
    }
    out
}

// ---------------------------------------------------------------------------
// Reading
// ---------------------------------------------------------------------------

/// The filter counted by the length at `i`.
pub open spec fn decode_counted(s: Seq<u8>, i: int) -> Option<(FilterModel, int)>
    decreases s.len(), 0nat, 0nat,
{
    match sized_at(s, i) {
        Some((b, end)) => if b.len() < s.len() {
            match decode(b, 0) {
                Some((m, _)) => Some((m, end)),
                None => None,
            }
        } else {
            None
        },
        None => None,
    }
}

/// The optional filter at `i`, which may be missing at the end. Any flag but
/// one means that there is none.
pub open spec fn decode_input(s: Seq<u8>, i: int) -> Option<(Option<Box<FilterModel>>, int)>
    decreases s.len(), 0nat, 1nat,
{
    if i >= s.len() {
        Some((None, i))
    } else if s[i] == 1 {
        match decode_counted(s, i + 1) {
            Some((m, end)) => Some((Some(Box::new(m)), end)),
            None => None,
        }
    } else {
        Some((None, i + 1))
    }
}

/// The first `n` of the optional filters at `i`.
pub open spec fn decode_inputs(s: Seq<u8>, i: int, n: nat) -> Option<
    (Seq<Option<FilterModel>>, int),
>
    decreases s.len(), 1nat, n,
{
    if n == 0 {
        Some((Seq::empty(), i))
    } else {
        match decode_inputs(s, i, (n - 1) as nat) {
            Some((v, j)) => if !(0 <= j < s.len()) {
                None
            } else if s[j] == 1 {
                match decode_counted(s, j + 1) {
                    Some((m, end)) => Some((v.push(Some(m)), end)),
                    None => None,
                }
            } else {
                Some((v.push(None), j + 1))
            },
            None => None,
        }
    }
}

/// The filter without parts at `i` and where it ends.
#[verifier::opaque]
pub open spec fn decode_plain(s: Seq<u8>, i: int) -> Option<(FilterModel, int)> {
    if !(0 <= i < s.len()) {
        None
    } else if s[i] == 1 {
        if i + 10 <= s.len() {
            match TileMode::of_code(s[i + 9]) {
                Some(tile) => Some(
                    (FilterModel::Blur(word_at(s, i + 1), word_at(s, i + 5), tile), i + 10),
                ),
                None => None,
            }
        } else {
            None
        }
    } else if s[i] == 2 {
        if i + 34 <= s.len() {
            Some(
                (
                    FilterModel::DropShadow(
                        word_at(s, i + 1),
                        word_at(s, i + 5),
                        word_at(s, i + 9),
                        word_at(s, i + 13),
                        color_at(s, i + 17),
                        s[i + 33] != 0,
                    ),
                    i + 34,
                ),
            )
        } else {
            None
        }
    } else {
        None
    }
}

/// The morphology with a code.
pub open spec fn morph_of(n: u8) -> Option<MorphologyType> {
    match n {
        0 => Some(MorphologyType::Dilate),
        1 => Some(MorphologyType::Erode),
        _ => None,
    }
}

/// The image filter at `i` and where it ends. Kinds that are only written are
/// not read.
pub open spec fn decode(s: Seq<u8>, i: int) -> Option<(FilterModel, int)>
    decreases s.len(), 2nat, 0nat,
{
    if !(0 <= i < s.len()) {
        None
    } else if s[i] == 3 {
        if i + 10 <= s.len() {
            match (morph_of(s[i + 1]), decode_input(s, i + 10)) {
                (Some(kind), Some((input, end))) => Some(
                    (
                        FilterModel::Morphology(
                            kind,
                            word_at(s, i + 2),
                            word_at(s, i + 6),
                            input,
                        ),
                        end,
                    ),
                ),
                _ => None,
            }
        } else {
            None
        }
    } else if s[i] == 7 {
        match decode_counted(s, i + 1) {
            Some((outer, j)) => match decode_counted(s, j) {
                Some((inner, k)) => Some(
                    (FilterModel::Compose(Box::new(outer), Box::new(inner)), k),
                ),
                None => None,
            },
            None => None,
        }
    } else if s[i] == 8 {
        if i + 5 <= s.len() {
            match decode_inputs(s, i + 5, word_at(s, i + 1) as nat) {
                Some((v, end)) => Some((FilterModel::Merge(v), end)),
                None => None,
            }
        } else {
            None
        }
    } else if s[i] == 9 {
        if i + 9 <= s.len() {
            match decode_input(s, i + 9) {
                Some((input, end)) => Some(
                    (FilterModel::Offset(word_at(s, i + 1), word_at(s, i + 5), input), end),
                ),
                None => None,
            }
        } else {
            None
        }
    } else {
        decode_plain(s, i)
    }
}

/// Reads a filter without parts.
fn read_plain(s: &[u8], i: usize) -> (r: Option<(ImageFilter, usize)>)
    ensures
        match decode_plain(s@, i as int) {
            Some((m, j)) => r matches Some((x, k)) && filter_model(x) == m && k == j,
            None => r is None,
        },
{
    proof {
        reveal(decode_plain);
    }
    let n: usize = s.len();
    if i >= n {
        return None;
    }
    if s[i] == 1 {
        if n - i < 10 {
            return None;
        }
        match TileMode::from_u8(s[i + 9]) {
            Some(tile_mode) => {
                let x = BlurImageFilter {
                    sigma_x: read_word(s, i + 1),
                    sigma_y: read_word(s, i + 5),
                    tile_mode,
                };
                Some((ImageFilter::Blur(x), i + 10))
            },
            None => None,
        }
    } else if s[i] == 2 {
        if n - i < 34 {
            return None;
        }
        let x = DropShadowImageFilter {
            dx: read_word(s, i + 1),
            dy: read_word(s, i + 5),
            sigma_x: read_word(s, i + 9),
            sigma_y: read_word(s, i + 13),
            color: read_color(s, i + 17),
            shadow_only: s[i + 33] != 0,
        };
        Some((ImageFilter::DropShadow(x), i + 34))
    } else {
        None
    }
}

/// Reads the filter counted by the length at `i`.
fn take_counted(s: &[u8], i: usize) -> (r: Option<(ImageFilter, usize)>)
    ensures
        match decode_counted(s@, i as int) {
            Some((m, j)) => r matches Some((x, k)) && filter_model(x) == m && k == j && k
                <= s@.len(),
            None => r is None,
        },
    decreases s@.len(), 0nat, 0nat,
{
    match take_sized(s, i) {
        Some((from, to)) => match deserialize_image_filter(slice_subrange(s, from, to), 0) {
            Some((x, _)) => Some((x, to)),
            None => None,
        },
        None => None,
    }
}

/// Reads an optional filter.
fn take_input(s: &[u8], i: usize) -> (r: Option<(Option<ImageFilterRef>, usize)>)
    ensures
        match decode_input(s@, i as int) {
            Some((m, j)) => r matches Some((x, k)) && input_model(x) == m && k == j,
            None => r is None,
        },
    decreases s@.len(), 0nat, 1nat,
{
    let n: usize = s.len();
    if i >= n {
        return Some((None, i));
    }
    if s[i] == 1 {
        match take_counted(s, i + 1) {
            Some((x, end)) => Some((Some(Arc::new(x)), end)),
            None => None,
        }
    } else {
        Some((None, i + 1))
    }
}

/// Reads several optional filters.
fn take_inputs(s: &[u8], i: usize, count: u32) -> (r: Option<(Vec<Option<ImageFilterRef>>, usize)>)
    ensures
        match decode_inputs(s@, i as int, count as nat) {
            Some((m, j)) => r matches Some((v, k)) && input_models(v@, v@.len()) == m && k == j,
            None => r is None,
        },
    decreases s@.len(), 1nat, 0nat,
{
    let n: usize = s.len();
    let mut v: Vec<Option<ImageFilterRef>> = Vec::new();
    let mut at: usize = i;
    let mut k: u32 = 0;
    while k < count
        invariant
            n == s@.len(),
            k <= count,
            decode_inputs(s@, i as int, k as nat) matches Some((m, j)) && input_models(
                v@,
                v@.len(),
            ) == m && j == at,
        decreases count - k,
    {
        let ghost before = v@;
        proof {
            lemma_inputs_stop(s@, i as int, (k + 1) as nat, count as nat);
        }
        if at >= n {
            return None;
        }
        if s[at] == 1 {
            match take_counted(s, at + 1) {
                Some((x, end)) => {
                    v.push(Some(Arc::new(x)));
                    at = end;
                },
                None => {
                    return None;
                },
            }
        } else {
            v.push(None);
            at = at + 1;
        }
        proof {
            lemma_input_models_prefix(before, v@, before.len());
        }
        k = k + 1;
    }
    Some((v, at))
}

proof fn lemma_inputs_stop(s: Seq<u8>, i: int, k: nat, n: nat)
    requires
        k <= n,
    ensures
        decode_inputs(s, i, k) is None ==> decode_inputs(s, i, n) is None,
    decreases n,
{
    if k < n {
        lemma_inputs_stop(s, i, k, (n - 1) as nat);
    }
}

proof fn lemma_input_models_prefix(
    a: Seq<Option<ImageFilterRef>>,
    b: Seq<Option<ImageFilterRef>>,
    n: nat,
)
    requires
        n <= a.len(),
        n <= b.len(),
        forall|i: int| 0 <= i < n ==> a[i] == b[i],
    ensures
        input_models(a, n) == input_models(b, n),
    decreases n,
{
    if n > 0 {
        lemma_input_models_prefix(a, b, (n - 1) as nat);
    }
}

/// Reads the image filter at `offset` and says where it ends. Returns `None`
/// if the bytes hold none there that can be read.
pub fn deserialize_image_filter(bytes: &[u8], offset: usize) -> (r: Option<(ImageFilter, usize)>)
    ensures
        match decode(bytes@, offset as int) {
            Some((m, j)) => r matches Some((x, k)) && filter_model(x) == m && k == j,
            None => r is None,
        },
    decreases bytes@.len(), 2nat, 0nat,
{
    let n: usize = bytes.len();
    if offset >= n {
        return None;
    }
    let kind: u8 = bytes[offset];
    if kind == 3 {
        if n - offset < 10 {
            return None;
        }
        let morph_type = match bytes[offset + 1] {
            0 => MorphologyType::Dilate,
            1 => MorphologyType::Erode,
            _ => {
                return None;
            },
        };
        let radius_x: u32 = read_word(bytes, offset + 2);
        let radius_y: u32 = read_word(bytes, offset + 6);
        match take_input(bytes, offset + 10) {
            Some((input, end)) => {
                let x = MorphologyImageFilter { morph_type, radius_x, radius_y, input };
                Some((ImageFilter::Morphology(x), end))
            },
            None => None,
        }
    } else if kind == 7 {
        match take_counted(bytes, offset + 1) {
            Some((outer, j)) => match take_counted(bytes, j) {
                Some((inner, k)) => {
                    let x = ComposeImageFilter { outer: Arc::new(outer), inner: Arc::new(inner) };
                    Some((ImageFilter::Compose(x), k))
                },
                None => None,
            },
            None => None,
        }
    } else if kind == 8 {
        if n - offset < 5 {
            return None;
        }
        match take_inputs(bytes, offset + 5, read_word(bytes, offset + 1)) {
            Some((inputs, end)) => Some((ImageFilter::Merge(MergeImageFilter { inputs }), end)),
            None => None,
        }
    } else if kind == 9 {
        if n - offset < 9 {
            return None;
        }
        let dx: u32 = read_word(bytes, offset + 1);
        let dy: u32 = read_word(bytes, offset + 5);
        match take_input(bytes, offset + 9) {
            Some((input, end)) => {
                Some((ImageFilter::Offset(OffsetImageFilter { dx, dy, input }), end))
            },
            None => None,
        }
    } else {
        read_plain(bytes, offset)
    }
}

// ---------------------------------------------------------------------------
// Reading back
// ---------------------------------------------------------------------------

/// Whether a filter has a serialized form whose length fits in a word.
pub open spec fn part_fits(m: FilterModel) -> bool {
    encode(m) matches Some(e) && e.len() <= u32::MAX
}

/// Whether the serialized form of a filter can be read back: all its parts
/// are of kinds that are read, and counts and lengths fit in a word.
pub open spec fn readable(m: FilterModel) -> bool
    decreases m, 0nat,
{
    match m {
        FilterModel::Blur(..) => true,
        FilterModel::DropShadow(..) => true,
        FilterModel::Morphology(_, _, _, input) => readable_input(input),
        FilterModel::Offset(_, _, input) => readable_input(input),
        FilterModel::Compose(outer, inner) => readable(*outer) && part_fits(*outer) && readable(
            *inner,
        ) && part_fits(*inner),
        FilterModel::Merge(v) => v.len() <= u32::MAX && readable_inputs(v, v.len()),
        _ => false,
    }
}

/// Whether an optional filter can be read back.
pub open spec fn readable_input(f: Option<Box<FilterModel>>) -> bool
    decreases f, 1nat,
{
    match f {
        None => true,
        Some(x) => readable(*x) && part_fits(*x),
    }
}

/// Whether the first `n` optional filters can be read back.
pub open spec fn readable_inputs(v: Seq<Option<FilterModel>>, n: nat) -> bool
    decreases v, n,
{
    if n == 0 || n > v.len() {
        true
    } else {
        readable_inputs(v, (n - 1) as nat) && match v[n - 1] {
            None => true,
            Some(x) => readable(x) && part_fits(x),
        }
    }
}

proof fn lemma_counted_round_trip(s: Seq<u8>, i: int, m: FilterModel)
    requires
        readable(m),
        part_fits(m),
        stands_at(s, i, sized(encode(m)->0)),
    ensures
        decode_counted(s, i) == Some((m, i + sized(encode(m)->0).len())),
    decreases m, 1nat,
{
    let b = encode(m)->0;
    lemma_sized_round_trip(s, i, b);
    assert(b.subrange(0, b.len() as int) =~= b);
    lemma_round_trip(b, 0, m);
}

proof fn lemma_framed(s: Seq<u8>, i: int, b: Seq<u8>)
    requires
        stands_at(s, i, encode_frame(Some(b))),
    ensures
        0 <= i < s.len(),
        s[i] == 1,
        stands_at(s, i + 1, sized(b)),
        encode_frame(Some(b)).len() == 1 + sized(b).len(),
{
    assert(encode_frame(Some(b)) =~= seq![1u8] + sized(b));
    lemma_stands_split(s, i, seq![1u8], sized(b));
    lemma_stands_byte(s, i, 1);
}

proof fn lemma_input_round_trip(s: Seq<u8>, i: int, f: Option<Box<FilterModel>>)
    requires
        readable_input(f),
        encode_input(f) is Some,
        stands_at(s, i, encode_input(f)->0),
    ensures
        decode_input(s, i) == Some((f, i + encode_input(f)->0.len())),
    decreases f, 2nat,
{
    match f {
        None => {
            lemma_stands_byte(s, i, 0);
        },
        Some(x) => {
            lemma_framed(s, i, encode(*x)->0);
            lemma_counted_round_trip(s, i + 1, *x);
        },
    }
}

proof fn lemma_inputs_round_trip(s: Seq<u8>, i: int, v: Seq<Option<FilterModel>>, n: nat)
    requires
        n <= v.len(),
        readable_inputs(v, n),
        encode_inputs(v, n) is Some,
        stands_at(s, i, encode_inputs(v, n)->0),
    ensures
        decode_inputs(s, i, n) == Some((v.take(n as int), i + encode_inputs(v, n)->0.len())),
    decreases v, n,
{
    if n == 0 {
        assert(v.take(0) =~= Seq::empty());
    } else {
        let front = encode_inputs(v, (n - 1) as nat)->0;
        let last = match v[n - 1] {
            None => encode_frame(None),
            Some(x) => encode_frame(Some(encode(x)->0)),
        };
        lemma_stands_split(s, i, front, last);
        lemma_inputs_round_trip(s, i, v, (n - 1) as nat);
        let j = i + front.len();
        assert(v.take(n as int) =~= v.take(n - 1).push(v[n - 1]));
        match v[n - 1] {
            None => {
                lemma_stands_byte(s, j, 0);
            },
            Some(x) => {
                lemma_framed(s, j, encode(x)->0);
                lemma_counted_round_trip(s, j + 1, x);
            },
        }
    }
}

proof fn lemma_words_stand(s: Seq<u8>, i: int, ws: Seq<u32>)
    requires
        stands_at(s, i, words_bytes(ws)),
    ensures
        words_bytes(ws).len() == 4 * ws.len(),
        forall|k: int| 0 <= k < ws.len() ==> #[trigger] word_at(s, i + 4 * k) == ws[k],
{
    lemma_words_len(ws);
    lemma_stands_words(s, i, ws);
    assert forall|k: int| 0 <= k < ws.len() implies #[trigger] word_at(s, i + 4 * k) == ws[k] by {
        assert(words_at(s, i, ws.len())[k] == ws[k]);
    }
}

proof fn lemma_plain_round_trip(s: Seq<u8>, i: int, m: FilterModel)
    requires
        m is Blur || m is DropShadow,
        stands_at(s, i, encode_head(m)),
    ensures
        0 <= i < s.len(),
        s[i] == 1 || s[i] == 2,
        decode_plain(s, i) == Some((m, i + encode_head(m).len())),
{
    reveal(encode_head);
    reveal(decode_plain);
    match m {
        FilterModel::Blur(sx, sy, tile) => {
            let a = seq![1u8];
            let b = words_bytes(seq![sx, sy]);
            let c = seq![tile.code()];
            lemma_stands_split(s, i, a + b, c);
            lemma_stands_split(s, i, a, b);
            lemma_stands_byte(s, i, 1);
            lemma_words_stand(s, i + 1, seq![sx, sy]);
            assert(word_at(s, i + 1 + 4 * 0) == sx);
            assert(word_at(s, i + 1 + 4 * 1) == sy);
            lemma_stands_byte(s, i + 9, tile.code());
        },
        FilterModel::DropShadow(dx, dy, sx, sy, k, only) => {
            let ws = seq![dx, dy, sx, sy, k.r, k.g, k.b, k.a];
            let a = seq![2u8];
            let b = words_bytes(ws);
            let c = seq![flag(only)];
            lemma_stands_split(s, i, a + b, c);
            lemma_stands_split(s, i, a, b);
            lemma_stands_byte(s, i, 2);
            lemma_words_stand(s, i + 1, ws);
            assert(word_at(s, i + 1 + 4 * 0) == dx);
            assert(word_at(s, i + 1 + 4 * 1) == dy);
            assert(word_at(s, i + 1 + 4 * 2) == sx);
            assert(word_at(s, i + 1 + 4 * 3) == sy);
            assert(word_at(s, i + 1 + 4 * 4) == k.r);
            assert(word_at(s, i + 1 + 4 * 5) == k.g);
            assert(word_at(s, i + 1 + 4 * 6) == k.b);
            assert(word_at(s, i + 1 + 4 * 7) == k.a);
            lemma_stands_byte(s, i + 33, flag(only));
        },
        _ => {},
    }
}

proof fn lemma_encoded_inputs(v: Seq<Option<FilterModel>>, n: nat)
    requires
        readable_inputs(v, n),
        n <= v.len(),
    ensures
        encode_inputs(v, n) is Some,
    decreases n,
{
    if n > 0 {
        lemma_encoded_inputs(v, (n - 1) as nat);
    }
}

proof fn lemma_encodable_input(f: Option<Box<FilterModel>>)
    requires
        readable_input(f),
    ensures
        encode_input(f) is Some,
{
}

proof fn lemma_encodable(m: FilterModel)
    requires
        readable(m),
    ensures
        encode(m) is Some,
{
    match m {
        FilterModel::Morphology(_, _, _, input) => {
            lemma_encodable_input(input);
        },
        FilterModel::Offset(_, _, input) => {
            lemma_encodable_input(input);
        },
        FilterModel::Compose(outer, inner) => {
            assert(part_fits(*outer) && part_fits(*inner));
        },
        FilterModel::Merge(v) => {
            lemma_encoded_inputs(v, v.len());
        },
        _ => {},
    }
}

proof fn lemma_head_stands(s: Seq<u8>, i: int, m: FilterModel)
    requires
        m is Morphology || m is Offset || m is Compose || m is Merge,
        stands_at(s, i, encode_head(m)),
    ensures
        0 <= i,
        i + encode_head(m).len() <= s.len(),
        match m {
            FilterModel::Morphology(kind, rx, ry, _) => s[i] == 3 && encode_head(m).len() == 10
                && morph_of(s[i + 1]) == Some(kind) && word_at(s, i + 2) == rx && word_at(s, i + 6)
                == ry,
            FilterModel::Offset(dx, dy, _) => s[i] == 9 && encode_head(m).len() == 9 && word_at(
                s,
                i + 1,
            ) == dx && word_at(s, i + 5) == dy,
            FilterModel::Compose(..) => s[i] == 7 && encode_head(m).len() == 1,
            FilterModel::Merge(v) => s[i] == 8 && encode_head(m).len() == 5 && word_at(s, i + 1)
                == len_word(v.len()),
            _ => true,
        },
{
    reveal(encode_head);
    match m {
        FilterModel::Morphology(kind, rx, ry, input) => {
            let a = seq![3u8];
            let b = seq![morph_code(kind)];
            let c = words_bytes(seq![rx, ry]);
            lemma_stands_split(s, i, a + b, c);
            lemma_stands_split(s, i, a, b);
            lemma_stands_byte(s, i, 3);
            lemma_stands_byte(s, i + 1, morph_code(kind));
            lemma_words_stand(s, i + 2, seq![rx, ry]);
            assert(word_at(s, i + 2 + 4 * 0) == rx);
            assert(word_at(s, i + 2 + 4 * 1) == ry);
        },
        FilterModel::Offset(dx, dy, input) => {
            let a = seq![9u8];
            let b = words_bytes(seq![dx, dy]);
            lemma_stands_split(s, i, a, b);
            lemma_stands_byte(s, i, 9);
            lemma_words_stand(s, i + 1, seq![dx, dy]);
            assert(word_at(s, i + 1 + 4 * 0) == dx);
            assert(word_at(s, i + 1 + 4 * 1) == dy);
        },
        FilterModel::Compose(outer, inner) => {
            lemma_stands_byte(s, i, 7);
        },
        FilterModel::Merge(v) => {
            let a = seq![8u8];
            let b = le_bytes(len_word(v.len()));
            lemma_stands_split(s, i, a, b);
            lemma_stands_byte(s, i, 8);
            lemma_word_of_bytes(s, i + 1, len_word(v.len()));
        },
        _ => {},
    }
}

#[verifier::spinoff_prover]
#[verifier::rlimit(40)]
proof fn lemma_round_trip(s: Seq<u8>, i: int, m: FilterModel)
    requires
        readable(m),
        encode(m) is Some,
        stands_at(s, i, encode(m)->0),
    ensures
        decode(s, i) == Some((m, i + encode(m)->0.len())),
    decreases m, 0nat,
{
    let h = encode_head(m);
    match m {
        FilterModel::Morphology(_, _, _, input) => {
            lemma_stands_split(s, i, h, encode_input(input)->0);
            lemma_head_stands(s, i, m);
            lemma_input_round_trip(s, i + 10, input);
        },
        FilterModel::Offset(_, _, input) => {
            lemma_stands_split(s, i, h, encode_input(input)->0);
            lemma_head_stands(s, i, m);
            lemma_input_round_trip(s, i + 9, input);
        },
        FilterModel::Compose(outer, inner) => {
            let a = sized(encode(*outer)->0);
            let b = sized(encode(*inner)->0);
            lemma_stands_split(s, i, h + a, b);
            lemma_stands_split(s, i, h, a);
            lemma_head_stands(s, i, m);
            lemma_counted_round_trip(s, i + 1, *outer);
            lemma_counted_round_trip(s, i + 1 + a.len(), *inner);
        },
        FilterModel::Merge(v) => {
            let c = encode_inputs(v, v.len())->0;
            lemma_stands_split(s, i, h, c);
            lemma_head_stands(s, i, m);
            lemma_inputs_round_trip(s, i + 5, v, v.len());
            assert(v.take(v.len() as int) =~= v);
        },
        _ => {
            lemma_plain_round_trip(s, i, m);
        },
    }
}

/// Reading the serialized form of a filter of readable kinds gives the filter
/// back, wherever it stands among other bytes, and stops where it ends.
pub proof fn serialized_image_filter_is_read_back(
    before: Seq<u8>,
    m: FilterModel,
    after: Seq<u8>,
)
    requires
        readable(m),
    ensures
        encode(m) matches Some(e) && decode(before + e + after, before.len() as int) == Some(
            (m, (before.len() + e.len()) as int),
        ),
{
    lemma_encodable(m);
    let e = encode(m)->0;
    let s = before + e + after;
    assert(s.subrange(before.len() as int, (before.len() + e.len()) as int) =~= e);
    lemma_round_trip(s, before.len() as int, m);
}

} // verus!
