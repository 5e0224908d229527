//! Filters that move and combine the bytes of an image.
//!
//! A mask has one byte per pixel and an image four. Pixel `p` of an image that
//! is `width` pixels wide stands in row `p / width` and column `p % width`.

use vstd::prelude::*;

use crate::blur::{
    blur_repeatedly, in_image, lemma_place_distinct, lemma_place_range, place, radius_fits,
    repeated_blur,
};
use crate::shader::TileMode;

verus! {

/// How a blurred mask is combined with the mask it came from.
#[derive(Debug, Clone, Copy, PartialEq, Eq, Structural)]
pub enum BlurStyle {
    /// The blur alone.
    Normal,
    /// The mask and the blur around it.
    Solid,
    /// The blur around the mask.
    Outer,
    /// The blur inside the mask.
    Inner,
}

/// The product of two bytes, both taken as fractions of 255, rounded to the
/// nearest byte.
pub open spec fn byte_product(a: u8, b: u8) -> u8 {
    ((2 * a * b + 255) / 510) as u8
}

/// A byte of a styled blur, from the byte of the mask and that of the blur.
pub open spec fn styled(style: BlurStyle, mask: u8, blur: u8) -> u8 {
    match style {
        BlurStyle::Normal => blur,
        BlurStyle::Solid => (mask + blur - byte_product(mask, blur)) as u8,
        BlurStyle::Outer => byte_product(blur, (255 - mask) as u8),
        BlurStyle::Inner => byte_product(blur, mask),
    }
}

/// The product of two bytes as fractions of 255 lies below both.
pub proof fn byte_product_is_small(a: u8, b: u8)
    ensures
        byte_product(a, b) <= a,
        byte_product(a, b) <= b,
        0 <= (2 * a * b + 255) / 510 <= 255,
        byte_product(a, 255) == a,
        byte_product(255, b) == b,
        a + b - byte_product(a, b) <= 255,
        a <= a + b - byte_product(a, b),
{
    let p = a * b;
    assert(2 * a * b == 2 * p) by (nonlinear_arith)
        requires
            p == a * b,
    ;
    assert(0 <= p <= 255 * a && p <= 255 * b) by (nonlinear_arith)
        requires
            p == a * b,
            0 <= a <= 255,
            0 <= b <= 255,
    ;
    assert(2 * 255u8 * b == 510 * b) by (nonlinear_arith);
    assert(255 * (a + b) - p <= 65025) by (nonlinear_arith)
        requires
            p == a * b,
            0 <= a <= 255,
            0 <= b <= 255,
    ;
}

/// The product of two bytes as fractions of 255.
fn multiply_bytes(a: u8, b: u8) -> (r: u8)
    ensures
        r == byte_product(a, b),
{
    proof {
        byte_product_is_small(a, b);
        assert(0 <= 2 * a * b <= 2 * 255 * 255) by (nonlinear_arith)
            requires
                0 <= a <= 255,
                0 <= b <= 255,
        ;
        assert(0 <= 2 * a <= 510);
    }
    ((2 * (a as u32) * (b as u32) + 255) / 510) as u8
}

/// A mask after a blur of the given style. Without a radius only the outer
/// style does anything: nothing lies around the mask.
pub open spec fn blurred_mask(
    style: BlurStyle,
    mask: Seq<u8>,
    width: int,
    height: int,
    radius: int,
) -> Seq<u8> {
    if width == 0 || height == 0 {
        mask
    } else if radius == 0 {
        if style == BlurStyle::Outer {
            Seq::new(mask.len(), |i: int| 0u8)
        } else {
            mask
        }
    } else {
        let blur = repeated_blur(mask, width, height, 1, radius, radius, 3);
        Seq::new(mask.len(), |i: int| styled(style, mask[i], blur[i]))
    }
}

/// What the styles make of the byte `s` of a mask and the byte `d` that the
/// normal style leaves in its place. The solid style covers both and is full
/// where the mask is full. The outer style lies below the blur, is empty where
/// the mask is full, and is the blur where the mask is empty. The inner style
/// lies below both, is empty where the mask is empty, and is the blur where the
/// mask is full.
pub proof fn blur_styles_keep_to_the_mask(
    mask: Seq<u8>,
    width: int,
    height: int,
    radius: int,
    i: int,
)
    requires
        width > 0,
        height > 0,
        0 <= i < mask.len(),
    ensures
        ({
            let s = mask[i];
            let d = blurred_mask(BlurStyle::Normal, mask, width, height, radius)[i];
            let solid = blurred_mask(BlurStyle::Solid, mask, width, height, radius)[i];
            let outer = blurred_mask(BlurStyle::Outer, mask, width, height, radius)[i];
            let inner = blurred_mask(BlurStyle::Inner, mask, width, height, radius)[i];
            &&& solid >= s && solid >= d
            &&& s == 255 ==> solid == 255
            &&& outer <= d
            &&& s == 255 ==> outer == 0
            &&& s == 0 ==> outer == d
            &&& inner <= s && inner <= d
            &&& s == 0 ==> inner == 0
            &&& s == 255 ==> inner == d
        }),
{
    let s = mask[i];
    let d = blurred_mask(BlurStyle::Normal, mask, width, height, radius)[i];
    byte_product_is_small(s, d);
    byte_product_is_small(d, s);
    byte_product_is_small(d, (255 - s) as u8);
}

/// A copy of bytes.
pub fn copy_of(s: &[u8]) -> (r: Vec<u8>)
    ensures
        r@ == s@,
{
    let mut r: Vec<u8> = Vec::new();
    let mut i: usize = 0;
    while i < s.len()
        invariant
            i <= s@.len(),
            r@ == s@.take(i as int),
        decreases s@.len() - i,
    {
        r.push(s[i]);
        assert(r@ =~= s@.take(i + 1));
        i = i + 1;
    }
    assert(s@.take(i as int) =~= s@);
    r
}

/// Blurs a mask with a box radius and combines it with what it was: three
/// passes along rows and columns, which come close to a Gaussian.
pub fn blur_mask(style: BlurStyle, mask: &mut [u8], width: usize, height: usize, radius: usize)
    requires
        width * height <= old(mask)@.len(),
        radius_fits(radius as int),
    ensures
        final(mask)@ == blurred_mask(
            style,
            old(mask)@,
            width as int,
            height as int,
            radius as int,
        ),
{
    if width == 0 || height == 0 {
        return;
    }
    let n: usize = mask.len();
    let mut i: usize = 0;
    if radius == 0 {
        match style {
            BlurStyle::Outer => {
                while i < n
                    invariant
                        i <= n == mask@.len(),
                        n == old(mask)@.len(),
                        forall|k: int| 0 <= k < i ==> #[trigger] mask@[k] == 0,
                    decreases n - i,
                {
                    mask[i] = 0;
                    i = i + 1;
                }
                assert(mask@ =~= Seq::new(old(mask)@.len(), |i: int| 0u8));
            },
            _ => {},
        }
        return;
    }
    let src = copy_of(mask);
    assert(width * height * 1 == width * height);
    blur_repeatedly(mask, width, height, 1, radius, radius, 3);
    let ghost blur = mask@;
    while i < n
        invariant
            i <= n == mask@.len(),
            n == src@.len(),
            blur.len() == n,
            forall|k: int|
                0 <= k < n ==> #[trigger] mask@[k] == if k < i {
                    styled(style, src@[k], blur[k])
                } else {
                    blur[k]
                },
        decreases n - i,
    {
        let s: u8 = src[i];
        let d: u8 = mask[i];
        proof {
            byte_product_is_small(s, d);
        }
        let v: u8 = match style {
            BlurStyle::Normal => d,
            BlurStyle::Solid => (s as u32 + d as u32 - multiply_bytes(s, d) as u32) as u8,
            BlurStyle::Outer => multiply_bytes(d, 255 - s),
            BlurStyle::Inner => multiply_bytes(d, s),
        };
        mask[i] = v;
        i = i + 1;
    }
    assert(mask@ =~= blurred_mask(
        style,
        old(mask)@,
        width as int,
        height as int,
        radius as int,
    ));
}

/// Blurs an image with one box radius for each direction.
pub fn blur_image(pixels: &mut [u8], width: usize, height: usize, rx: usize, ry: usize)
    requires
        width * height * 4 <= old(pixels)@.len(),
        radius_fits(rx as int),
        radius_fits(ry as int),
    ensures
        final(pixels)@ == repeated_blur(
            old(pixels)@,
            width as int,
            height as int,
            4,
            rx as int,
            ry as int,
            3,
        ),
{
    blur_repeatedly(pixels, width, height, 4, rx, ry, 3);
}

// ---------------------------------------------------------------------------
// Moving pixels
// ---------------------------------------------------------------------------

/// An image whose pixel `p`, of the first `n`, is the old pixel `from[p]`.
pub open spec fn remapped(img: Seq<u8>, from: Seq<int>) -> Seq<u8> {
    Seq::new(
        img.len(),
        |i: int|
            if i < 4 * from.len() {
                img[4 * from[i / 4] + i % 4]
            } else {
                img[i]
            },
    )
}

/// Numbers of pixels as integers.
pub open spec fn ints(v: Seq<usize>) -> Seq<int> {
    Seq::new(v.len(), |i: int| v[i] as int)
}

/// Moves pixels.
fn remap(pixels: &mut [u8], from: &Vec<usize>)
    requires
        4 * from@.len() <= old(pixels)@.len(),
        forall|p: int| 0 <= p < from@.len() ==> #[trigger] from@[p] < from@.len(),
    ensures
        final(pixels)@ == remapped(old(pixels)@, ints(from@)),
{
    let src = copy_of(pixels);
    let n: usize = from.len();
    let len: usize = pixels.len();
    let mut p: usize = 0;
    while p < n
        invariant
            p <= n == from@.len(),
            4 * n <= len,
            len == pixels@.len(),
            len == src@.len(),
            forall|p: int| 0 <= p < n ==> #[trigger] from@[p] < n,
            forall|i: int|
                0 <= i < len ==> #[trigger] pixels@[i] == if i < 4 * p {
                    src@[4 * from@[i / 4] + i % 4]
                } else {
                    src@[i]
                },
        decreases n - p,
    {
        let q: usize = from[p];
        pixels[4 * p] = src[4 * q];
        pixels[4 * p + 1] = src[4 * q + 1];
        pixels[4 * p + 2] = src[4 * q + 2];
        pixels[4 * p + 3] = src[4 * q + 3];
        p = p + 1;
    }
    assert(pixels@ =~= remapped(old(pixels)@, ints(from@)));
}

/// A number of pixels, at most the largest signed one of 32 bits.
pub open spec fn capped(v: int) -> int {
    if v > i32::MAX {
        i32::MAX as int
    } else {
        v
    }
}

/// A number of pixels, at most the largest signed one of 32 bits.
pub fn cap(v: usize) -> (r: usize)
    ensures
        r == capped(v as int),
{
    if v > 0x7fff_ffff {
        0x7fff_ffff
    } else {
        v
    }
}

/// `v` held between zero and `n - 1`.
pub open spec fn held(v: int, n: int) -> int {
    if v < 0 {
        0
    } else if v >= n {
        n - 1
    } else {
        v
    }
}

/// `v` held between zero and `n - 1`.
fn hold(v: i64, n: usize) -> (r: usize)
    requires
        0 < n <= i32::MAX,
    ensures
        r == held(v as int, n as int),
        r < n,
{
    if v < 0 {
        0
    } else if v >= n as i64 {
        n - 1
    } else {
        v as usize
    }
}

proof fn lemma_pixel(p: int, width: int, height: int)
    requires
        0 <= p < width * height,
        0 < width,
    ensures
        0 <= p % width < width,
        0 <= p / width < height,
{
    assert(0 <= p % width < width && 0 <= p / width < height) by (nonlinear_arith)
        requires
            0 <= p < width * height,
            0 < width,
    ;
}

proof fn lemma_pixel_range(x: int, y: int, width: int, height: int)
    requires
        0 <= x < width,
        0 <= y < height,
    ensures
        0 <= y * width + x < width * height,
        0 <= y * width,
{
    assert(0 <= y * width + x < width * height && 0 <= y * width) by (nonlinear_arith)
        requires
            0 <= x < width,
            0 <= y <= height - 1,
    ;
}

/// Where the pixels of an image come from that is moved by `dx` and `dy`; its
/// edges are repeated.
pub open spec fn shift_map(width: int, height: int, dx: int, dy: int) -> Seq<int> {
    Seq::new(
        (width * height) as nat,
        |p: int|
            held(capped(p / width) - dy, capped(height)) * width + held(
                capped(p % width) - dx,
                capped(width),
            ),
    )
}

/// Moves an image by `dx` and `dy` pixels; its edges are repeated.
pub fn shift_pixels(pixels: &mut [u8], width: usize, height: usize, dx: i32, dy: i32)
    requires
        width * height * 4 <= old(pixels)@.len(),
    ensures
        final(pixels)@ == remapped(
            old(pixels)@,
            shift_map(width as int, height as int, dx as int, dy as int),
        ),
{
    let len: usize = pixels.len();
    let ghost n = width * height;
    assert(0 <= n) by (nonlinear_arith)
        requires
            n == width * height,
            width >= 0,
            height >= 0,
    ;
    let count: usize = width * height;
    let mut from: Vec<usize> = Vec::new();
    let mut p: usize = 0;
    while p < count
        invariant
            p <= count == n,
            n == width * height,
            n * 4 <= len,
            from@.len() == p,
            forall|k: int|
                0 <= k < p ==> (#[trigger] from@[k]) as int == shift_map(
                    width as int,
                    height as int,
                    dx as int,
                    dy as int,
                )[k] && from@[k] < n,
        decreases count - p,
    {
        assert(width > 0 && height > 0) by (nonlinear_arith)
            requires
                0 < width * height,
                width >= 0,
                height >= 0,
        ;
        proof {
            lemma_pixel(p as int, width as int, height as int);
        }
        let x: usize = hold(cap(p % width) as i64 - dx as i64, cap(width));
        let y: usize = hold(cap(p / width) as i64 - dy as i64, cap(height));
        proof {
            lemma_pixel_range(x as int, y as int, width as int, height as int);
        }
        from.push(y * width + x);
        p = p + 1;
    }
    remap(pixels, &from);
    assert(ints(from@) =~= shift_map(width as int, height as int, dx as int, dy as int));
}

/// Where the pixels of an image come from that are displaced to the sample
/// positions `xs` and `ys`, held within the image.
pub open spec fn displacement_map(
    width: int,
    height: int,
    xs: Seq<i32>,
    ys: Seq<i32>,
) -> Seq<int> {
    Seq::new(
        (width * height) as nat,
        |p: int|
            held(ys[p] as int, capped(height)) * width + held(xs[p] as int, capped(width)),
    )
}

/// Replaces each pixel by the one at its sample position.
pub fn displace_pixels(
    pixels: &mut [u8],
    width: usize,
    height: usize,
    xs: &Vec<i32>,
    ys: &Vec<i32>,
)
    requires
        width * height * 4 <= old(pixels)@.len(),
        xs@.len() == width * height,
        ys@.len() == width * height,
    ensures
        final(pixels)@ == remapped(
            old(pixels)@,
            displacement_map(width as int, height as int, xs@, ys@),
        ),
{
    let len: usize = pixels.len();
    let count: usize = xs.len();
    let mut from: Vec<usize> = Vec::new();
    let mut p: usize = 0;
    while p < count
        invariant
            p <= count == width * height,
            count * 4 <= len,
            xs@.len() == count,
            ys@.len() == count,
            from@.len() == p,
            forall|k: int|
                0 <= k < p ==> (#[trigger] from@[k]) as int == displacement_map(
                    width as int,
                    height as int,
                    xs@,
                    ys@,
                )[k] && from@[k] < count,
        decreases count - p,
    {
        assert(width > 0 && height > 0) by (nonlinear_arith)
            requires
                0 < width * height,
                width >= 0,
                height >= 0,
        ;
        let x: usize = hold(xs[p] as i64, cap(width));
        let y: usize = hold(ys[p] as i64, cap(height));
        proof {
            lemma_pixel_range(x as int, y as int, width as int, height as int);
        }
        from.push(y * width + x);
        p = p + 1;
    }
    remap(pixels, &from);
    assert(ints(from@) =~= displacement_map(width as int, height as int, xs@, ys@));
}

/// A part of an image: columns from `x0` to `x1` and rows from `y0` to `y1`.
#[derive(Debug, Clone, Copy, PartialEq, Eq, Structural)]
pub struct Region {
    /// First column.
    pub x0: usize,
    /// First row.
    pub y0: usize,
    /// Column after the last one.
    pub x1: usize,
    /// Row after the last one.
    pub y1: usize,
}

impl Region {
    /// Whether the region holds no pixel.
    pub open spec fn is_empty(self) -> bool {
        self.x1 <= self.x0 || self.y1 <= self.y0
    }

    /// Whether the region lies in an image.
    pub open spec fn fits(self, width: int, height: int) -> bool {
        self.x1 <= width && self.y1 <= height
    }

    /// Whether a pixel lies in the region.
    pub open spec fn holds(self, x: int, y: int) -> bool {
        self.x0 <= x < self.x1 && self.y0 <= y < self.y1
    }
}

/// Where the pixels of an image come from whose region `dst` is filled with
/// copies of its region `src`.
pub open spec fn tile_map(width: int, height: int, src: Region, dst: Region) -> Seq<int> {
    Seq::new(
        (width * height) as nat,
        |p: int|
            if !src.is_empty() && dst.holds(p % width, p / width) {
                (src.y0 + (p / width - dst.y0) % (src.y1 - src.y0)) * width + (src.x0 + (p % width
                    - dst.x0) % (src.x1 - src.x0))
            } else {
                p
            },
    )
}

/// Fills one region of an image with copies of another.
pub fn tile_pixels(pixels: &mut [u8], width: usize, height: usize, src: Region, dst: Region)
    requires
        width * height * 4 <= old(pixels)@.len(),
        src.fits(width as int, height as int),
    ensures
        final(pixels)@ == remapped(
            old(pixels)@,
            tile_map(width as int, height as int, src, dst),
        ),
{
    let len: usize = pixels.len();
    let ghost n = width * height;
    assert(0 <= n) by (nonlinear_arith)
        requires
            n == width * height,
            width >= 0,
            height >= 0,
    ;
    let count: usize = width * height;
    let mut from: Vec<usize> = Vec::new();
    let mut p: usize = 0;
    while p < count
        invariant
            p <= count == n,
            n == width * height,
            n * 4 <= len,
            src.fits(width as int, height as int),
            from@.len() == p,
            forall|k: int|
                0 <= k < p ==> (#[trigger] from@[k]) as int == tile_map(
                    width as int,
                    height as int,
                    src,
                    dst,
                )[k] && from@[k] < n,
        decreases count - p,
    {
        assert(width > 0 && height > 0) by (nonlinear_arith)
            requires
                0 < width * height,
                width >= 0,
                height >= 0,
        ;
        proof {
            lemma_pixel(p as int, width as int, height as int);
        }
        let x: usize = p % width;
        let y: usize = p / width;
        if src.x0 < src.x1 && src.y0 < src.y1 && dst.x0 <= x && x < dst.x1 && dst.y0 <= y && y
            < dst.y1 {
            let sw: usize = src.x1 - src.x0;
            let sh: usize = src.y1 - src.y0;
            let tx: usize = src.x0 + (x - dst.x0) % sw;
            let ty: usize = src.y0 + (y - dst.y0) % sh;
            proof {
                lemma_pixel_range(tx as int, ty as int, width as int, height as int);
            }
            from.push(ty * width + tx);
        } else {
            from.push(p);
        }
        p = p + 1;
    }
    remap(pixels, &from);
    assert(ints(from@) =~= tile_map(width as int, height as int, src, dst));
}

// ---------------------------------------------------------------------------
// Neighborhoods
// ---------------------------------------------------------------------------

/// Whether `v` is the extreme value of a component among the pixels that are
/// at most `rx` columns and `ry` rows away: the largest one if `largest`, else
/// the smallest one.
pub open spec fn is_extreme(
    img: Seq<u8>,
    width: int,
    height: int,
    x: int,
    y: int,
    c: int,
    rx: int,
    ry: int,
    largest: bool,
    v: u8,
) -> bool {
    &&& forall|i: int, j: int|
        near(i, j, x, y, rx, ry) && in_image(i, j, c, width, height, 4) ==> if largest {
            #[trigger] img[place(i, j, c, width, 4)] <= v
        } else {
            img[place(i, j, c, width, 4)] >= v
        }
    &&& exists|i: int, j: int|
        near(i, j, x, y, rx, ry) && in_image(i, j, c, width, height, 4)
            && #[trigger] img[place(i, j, c, width, 4)] == v
}

/// Whether a pixel is at most `rx` columns and `ry` rows away from another.
pub open spec fn near(i: int, j: int, x: int, y: int, rx: int, ry: int) -> bool {
    x - rx <= i <= x + rx && y - ry <= j <= y + ry
}

/// What a dilation, if `largest`, or an erosion makes of an image.
pub open spec fn morphed(
    before: Seq<u8>,
    after: Seq<u8>,
    width: int,
    height: int,
    rx: int,
    ry: int,
    largest: bool,
) -> bool {
    &&& after.len() == before.len()
    &&& forall|x: int, y: int, c: int|
        in_image(x, y, c, width, height, 4) ==> is_extreme(
            before,
            width,
            height,
            x,
            y,
            c,
            rx,
            ry,
            largest,
            #[trigger] after[place(x, y, c, width, 4)],
        )
    &&& forall|i: int| width * height * 4 <= i < before.len() ==> #[trigger] after[i] == before[i]
}

/// The extreme value of a component around a pixel.
fn extreme(
    src: &Vec<u8>,
    width: usize,
    height: usize,
    x: usize,
    y: usize,
    c: usize,
    rx: usize,
    ry: usize,
    largest: bool,
) -> (v: u8)
    requires
        width * height * 4 <= src@.len(),
        in_image(x as int, y as int, c as int, width as int, height as int, 4),
    ensures
        is_extreme(
            src@,
            width as int,
            height as int,
            x as int,
            y as int,
            c as int,
            rx as int,
            ry as int,
            largest,
            v,
        ),
{
    let len: usize = src.len();
    let ghost w = width as int;
    let ghost h = height as int;
    let x_min: usize = if rx < x {
        x - rx
    } else {
        0
    };
    let x_max: usize = if rx < width - 1 - x {
        x + rx
    } else {
        width - 1
    };
    let y_min: usize = if ry < y {
        y - ry
    } else {
        0
    };
    let y_max: usize = if ry < height - 1 - y {
        y + ry
    } else {
        height - 1
    };
    proof {
        lemma_place_range(x as int, y as int, c as int, w, h, 4);
        lemma_pixel_range(x as int, y as int, w, h);
    }
    let mut v: u8 = src[(y * width + x) * 4 + c];
    assert(near(x as int, y as int, x as int, y as int, rx as int, ry as int));
    assert(in_image(x as int, y as int, c as int, w, h, 4));
    assert(src@[place(x as int, y as int, c as int, w, 4)] == v);
    let mut j: usize = y_min;
    while j <= y_max
        invariant
            w == width,
            h == height,
            w * h * 4 <= len,
            len == src@.len(),
            c < 4,
            x_min <= x <= x_max < width,
            y_min <= y <= y_max < height,
            x - rx <= x_min,
            x_max <= x + rx,
            y - ry <= y_min,
            y_max <= y + ry,
            y_min <= j <= y_max + 1,
            forall|a: int, b: int|
                x_min <= a <= x_max && y_min <= b < j ==> if largest {
                    #[trigger] src@[place(a, b, c as int, w, 4)] <= v
                } else {
                    src@[place(a, b, c as int, w, 4)] >= v
                },
            exists|a: int, b: int|
                near(a, b, x as int, y as int, rx as int, ry as int) && in_image(
                    a,
                    b,
                    c as int,
                    w,
                    h,
                    4,
                ) && #[trigger] src@[place(a, b, c as int, w, 4)] == v,
        decreases y_max + 1 - j,
    {
        let mut i: usize = x_min;
        while i <= x_max
            invariant
                w == width,
                h == height,
                w * h * 4 <= len,
                len == src@.len(),
                c < 4,
                x_min <= x <= x_max < width,
                y_min <= j <= y_max < height,
                x - rx <= x_min,
                x_max <= x + rx,
                y - ry <= y_min,
                y_max <= y + ry,
                x_min <= i <= x_max + 1,
                forall|a: int, b: int|
                    x_min <= a <= x_max && y_min <= b <= j && (b < j || a < i) ==> if largest {
                        #[trigger] src@[place(a, b, c as int, w, 4)] <= v
                    } else {
                        src@[place(a, b, c as int, w, 4)] >= v
                    },
                exists|a: int, b: int|
                    near(a, b, x as int, y as int, rx as int, ry as int) && in_image(
                        a,
                        b,
                        c as int,
                        w,
                        h,
                        4,
                    ) && #[trigger] src@[place(a, b, c as int, w, 4)] == v,
            decreases x_max + 1 - i,
        {
            proof {
                lemma_place_range(i as int, j as int, c as int, w, h, 4);
                lemma_pixel_range(i as int, j as int, w, h);
            }
            let s: u8 = src[(j * width + i) * 4 + c];
            assert(src@[place(i as int, j as int, c as int, w, 4)] == s);
            assert(near(i as int, j as int, x as int, y as int, rx as int, ry as int));
            assert(in_image(i as int, j as int, c as int, w, h, 4));
            if (largest && s > v) || (!largest && s < v) {
                v = s;
            }
            i = i + 1;
        }
        j = j + 1;
    }
    v
}

/// Dilates an image, if `largest`, or erodes it. Without a radius nothing
/// changes.
pub fn morph_pixels(
    pixels: &mut [u8],
    width: usize,
    height: usize,
    rx: usize,
    ry: usize,
    largest: bool,
)
    requires
        width * height * 4 <= old(pixels)@.len(),
    ensures
        morphed(
            old(pixels)@,
            final(pixels)@,
            width as int,
            height as int,
            rx as int,
            ry as int,
            largest,
        ),
{
    let ghost w = width as int;
    let ghost h = height as int;
    let src = copy_of(pixels);
    let len: usize = pixels.len();
    let mut y: usize = 0;
    while y < height
        invariant
            w == width,
            h == height,
            w * h * 4 <= len,
            len == pixels@.len(),
            len == src@.len(),
            y <= height,
            forall|a: int, b: int, c: int|
                in_image(a, b, c, w, h, 4) && b < y ==> is_extreme(
                    src@,
                    w,
                    h,
                    a,
                    b,
                    c,
                    rx as int,
                    ry as int,
                    largest,
                    #[trigger] pixels@[place(a, b, c, w, 4)],
                ),
            forall|i: int| w * h * 4 <= i < len ==> #[trigger] pixels@[i] == src@[i],
        decreases height - y,
    {
        let mut x: usize = 0;
        while x < width
            invariant
                w == width,
                h == height,
                w * h * 4 <= len,
                len == pixels@.len(),
                len == src@.len(),
                y < height,
                x <= width,
                forall|a: int, b: int, c: int|
                    in_image(a, b, c, w, h, 4) && (b < y || (b == y && a < x)) ==> is_extreme(
                        src@,
                        w,
                        h,
                        a,
                        b,
                        c,
                        rx as int,
                        ry as int,
                        largest,
                        #[trigger] pixels@[place(a, b, c, w, 4)],
                    ),
                forall|i: int| w * h * 4 <= i < len ==> #[trigger] pixels@[i] == src@[i],
            decreases width - x,
        {
            let mut c: usize = 0;
            while c < 4
                invariant
                    w == width,
                    h == height,
                    w * h * 4 <= len,
                    len == pixels@.len(),
                    len == src@.len(),
                    y < height,
                    x < width,
                    c <= 4,
                    forall|a: int, b: int, k: int|
                        in_image(a, b, k, w, h, 4) && (b < y || (b == y && (a < x || (a == x && k
                            < c)))) ==> is_extreme(
                            src@,
                            w,
                            h,
                            a,
                            b,
                            k,
                            rx as int,
                            ry as int,
                            largest,
                            #[trigger] pixels@[place(a, b, k, w, 4)],
                        ),
                    forall|i: int| w * h * 4 <= i < len ==> #[trigger] pixels@[i] == src@[i],
                decreases 4 - c,
            {
                proof {
                    lemma_place_range(x as int, y as int, c as int, w, h, 4);
                    lemma_pixel_range(x as int, y as int, w, h);
                }
                let ghost before = pixels@;
                let v: u8 = extreme(&src, width, height, x, y, c, rx, ry, largest);
                pixels[(y * width + x) * 4 + c] = v;
                proof {
                    let here = place(x as int, y as int, c as int, w, 4);
                    assert forall|a: int, b: int, k: int|
                        in_image(a, b, k, w, h, 4) && (b < y || (b == y && (a < x || (a == x && k
                            < c + 1)))) implies is_extreme(
                        src@,
                        w,
                        h,
                        a,
                        b,
                        k,
                        rx as int,
                        ry as int,
                        largest,
                        #[trigger] pixels@[place(a, b, k, w, 4)],
                    ) by {
                        lemma_place_range(a, b, k, w, h, 4);
                        if place(a, b, k, w, 4) == here {
                            lemma_place_distinct(
                                a,
                                b,
                                k,
                                x as int,
                                y as int,
                                c as int,
                                w,
                                h,
                                4,
                            );
                        } else {
                            assert(pixels@[place(a, b, k, w, 4)] == before[place(a, b, k, w, 4)]);
                        }
                    }
                }
                c = c + 1;
            }
            x = x + 1;
        }
        y = y + 1;
    }
}

/// A dilation never darkens a sample and an erosion never brightens one.
pub proof fn morphology_moves_one_way(
    before: Seq<u8>,
    after: Seq<u8>,
    width: int,
    height: int,
    rx: int,
    ry: int,
    largest: bool,
    x: int,
    y: int,
    c: int,
)
    requires
        morphed(before, after, width, height, rx, ry, largest),
        in_image(x, y, c, width, height, 4),
        rx >= 0,
        ry >= 0,
    ensures
        largest ==> before[place(x, y, c, width, 4)] <= after[place(x, y, c, width, 4)],
        !largest ==> after[place(x, y, c, width, 4)] <= before[place(x, y, c, width, 4)],
{
    assert(near(x, y, x, y, rx, ry));
    let v = after[place(x, y, c, width, 4)];
    assert(is_extreme(before, width, height, x, y, c, rx, ry, largest, v));
    let u = before[place(x, y, c, width, 4)];
    assert(if largest {
        u <= v
    } else {
        u >= v
    });
}

/// Where a coordinate falls in a tiled line of `size` samples; `None` if it
/// falls on no sample.
pub open spec fn tiled(v: int, size: int, mode: TileMode) -> Option<int> {
    if 0 <= v < size {
        Some(v)
    } else {
        match mode {
            TileMode::Clamp => Some(held(v, size)),
            TileMode::Repeat => Some(v % size),
            TileMode::Mirror => {
                let m = v % (2 * size);
                Some(
                    if m < size {
                        m
                    } else {
                        2 * size - m - 1
                    },
                )
            },
            TileMode::Decal => None,
        }
    }
}

/// The remainder of a division whose remainder is never negative.
fn remainder(v: i64, n: i64) -> (r: i64)
    requires
        0 < n <= 0x1_0000_0000,
        -0x4_0000_0000 <= v <= 0x4_0000_0000,
    ensures
        r == v as int % n as int,
        0 <= r < n,
{
    if v >= 0 {
        (v as u64 % n as u64) as i64
    } else {
        let k: u64 = (-(v + 1)) as u64;
        let r: i64 = n - 1 - (k % n as u64) as i64;
        proof {
            let d = n as int;
            let q = k as int / d;
            vstd::arithmetic::div_mod::lemma_fundamental_div_mod(k as int, d);
            assert(v == -k - 1);
            assert(v as int == (-q - 1) * d + r) by (nonlinear_arith)
                requires
                    k as int == d * q + k as int % d,
                    r == d - 1 - k as int % d,
                    v as int == -(k as int) - 1,
            ;
            vstd::arithmetic::div_mod::lemma_fundamental_div_mod_converse(
                v as int,
                d,
                -q - 1,
                r as int,
            );
        }
        r
    }
}

/// Where a coordinate falls in a tiled line.
pub fn tile_coordinate(v: i64, size: usize, mode: TileMode) -> (r: Option<usize>)
    requires
        0 < size <= i32::MAX,
        -0x4_0000_0000 <= v <= 0x4_0000_0000,
    ensures
        match tiled(v as int, size as int, mode) {
            Some(t) => r matches Some(u) && u == t && u < size,
            None => r is None,
        },
{
    let n: i64 = size as i64;
    if 0 <= v && v < n {
        return Some(v as usize);
    }
    match mode {
        TileMode::Clamp => Some(hold(v, size)),
        TileMode::Repeat => Some(remainder(v, n) as usize),
        TileMode::Mirror => {
            let m: i64 = remainder(v, 2 * n);
            if m < n {
                Some(m as usize)
            } else {
                Some((2 * n - m - 1) as usize)
            }
        },
        TileMode::Decal => None,
    }
}

/// The shape of a convolution: the size of its kernel, the place of its
/// target in it, and how the image goes on beyond its edges.
#[derive(Debug, Clone, Copy, PartialEq, Eq, Structural)]
pub struct KernelShape {
    /// Columns of the kernel.
    pub width: i32,
    /// Rows of the kernel.
    pub height: i32,
    /// Column of the target.
    pub offset_x: i32,
    /// Row of the target.
    pub offset_y: i32,
    /// Tile mode.
    pub tile_mode: TileMode,
}

impl KernelShape {
    /// The pixel that entry `t` of the kernel falls on for the target pixel
    /// at `x` and `y`; `None` if it falls on none.
    pub open spec fn tap(self, x: int, y: int, width: int, height: int, t: int) -> Option<int> {
        let kx = t % self.width as int;
        let ky = t / self.width as int;
        match (
            tiled(capped(x) + kx - self.offset_x, capped(width), self.tile_mode),
            tiled(capped(y) + ky - self.offset_y, capped(height), self.tile_mode),
        ) {
            (Some(sx), Some(sy)) => Some(sy * width + sx),
            _ => None,
        }
    }

    /// The pixels that the first `n` entries of the kernel fall on, each with
    /// the number of its entry, in order.
    pub open spec fn taps(self, x: int, y: int, width: int, height: int, n: nat) -> Seq<(int, int)>
        decreases n,
    {
        if n == 0 {
            Seq::empty()
        } else {
            let rest = self.taps(x, y, width, height, (n - 1) as nat);
            match self.tap(x, y, width, height, n - 1) {
                Some(p) => rest.push((p, n - 1)),
                None => rest,
            }
        }
    }
}

/// Pairs of numbers as pairs of integers.
pub open spec fn int_pairs(v: Seq<(usize, usize)>) -> Seq<(int, int)> {
    Seq::new(v.len(), |i: int| (v[i].0 as int, v[i].1 as int))
}

/// The pixels that the entries of a kernel fall on for one target pixel, each
/// with the number of its entry, row by row.
pub fn kernel_taps(
    shape: KernelShape,
    x: usize,
    y: usize,
    width: usize,
    height: usize,
) -> (r: Vec<(usize, usize)>)
    requires
        0 < shape.width,
        0 < shape.height,
        shape.width * shape.height <= usize::MAX,
        x < width,
        y < height,
        width * height <= usize::MAX,
    ensures
        int_pairs(r@) == shape.taps(
            x as int,
            y as int,
            width as int,
            height as int,
            (shape.width * shape.height) as nat,
        ),
        forall|i: int| 0 <= i < r@.len() ==> (#[trigger] r@[i]).0 < width * height,
{
    let kw: usize = shape.width as usize;
    let ghost n = shape.width * shape.height;
    assert(0 <= n) by (nonlinear_arith)
        requires
            n == shape.width * shape.height,
            0 < shape.width,
            0 < shape.height,
    ;
    let count: usize = kw * shape.height as usize;
    let mut r: Vec<(usize, usize)> = Vec::new();
    let mut t: usize = 0;
    assert(int_pairs(r@) =~= Seq::empty());
    while t < count
        invariant
            kw == shape.width,
            0 < kw,
            0 < shape.height,
            count == shape.width * shape.height,
            t <= count,
            x < width,
            y < height,
            width * height <= usize::MAX,
            int_pairs(r@) == shape.taps(
                x as int,
                y as int,
                width as int,
                height as int,
                t as nat,
            ),
            forall|i: int| 0 <= i < r@.len() ==> (#[trigger] r@[i]).0 < width * height,
        decreases count - t,
    {
        proof {
            lemma_pixel(t as int, kw as int, shape.height as int);
        }
        let kx: i64 = (t % kw) as i64;
        let ky: i64 = (t / kw) as i64;
        let sx = tile_coordinate(
            cap(x) as i64 + kx - shape.offset_x as i64,
            cap(width),
            shape.tile_mode,
        );
        let sy = tile_coordinate(
            cap(y) as i64 + ky - shape.offset_y as i64,
            cap(height),
            shape.tile_mode,
        );
        match (sx, sy) {
            (Some(u), Some(v)) => {
                proof {
                    lemma_pixel_range(u as int, v as int, width as int, height as int);
                }
                let ghost before = int_pairs(r@);
                r.push((v * width + u, t));
                assert(int_pairs(r@) =~= before.push((v * width + u, t as int)));
            },
            _ => {},
        }
        t = t + 1;
    }
    r
}

/// The alpha of every pixel.
pub fn alpha_channel(pixels: &[u8], count: usize) -> (r: Vec<u8>)
    requires
        count * 4 <= pixels@.len(),
    ensures
        r@ == Seq::new(count as nat, |p: int| pixels@[4 * p + 3]),
{
    let len: usize = pixels.len();
    let mut r: Vec<u8> = Vec::new();
    let mut p: usize = 0;
    while p < count
        invariant
            p <= count,
            count * 4 <= len,
            len == pixels@.len(),
            r@ == Seq::new(p as nat, |p: int| pixels@[4 * p + 3]),
        decreases count - p,
    {
        r.push(pixels[4 * p + 3]);
        assert(r@ =~= Seq::new((p + 1) as nat, |p: int| pixels@[4 * p + 3]));
        p = p + 1;
    }
    r
}

/// The alpha of the shadow that an image casts, moved by `dx` and `dy`: the
/// alpha of the image blurred once in each direction, with its edges repeated.
pub open spec fn shadow_alpha(
    img: Seq<u8>,
    width: int,
    height: int,
    rx: int,
    ry: int,
    dx: int,
    dy: int,
) -> Seq<u8> {
    let alpha = Seq::new((width * height) as nat, |p: int| img[4 * p + 3]);
    let blur = repeated_blur(alpha, width, height, 1, rx, ry, 1);
    Seq::new(
        (width * height) as nat,
        |p: int| blur[shift_map(width, height, dx, dy)[p]],
    )
}

/// The alpha of the shadow that an image casts.
pub fn cast_shadow(
    pixels: &[u8],
    width: usize,
    height: usize,
    rx: usize,
    ry: usize,
    dx: i32,
    dy: i32,
) -> (r: Vec<u8>)
    requires
        width * height * 4 <= pixels@.len(),
        radius_fits(rx as int),
        radius_fits(ry as int),
    ensures
        r@ == shadow_alpha(
            pixels@,
            width as int,
            height as int,
            rx as int,
            ry as int,
            dx as int,
            dy as int,
        ),
{
    let len: usize = pixels.len();
    let ghost n = width * height;
    assert(0 <= n) by (nonlinear_arith)
        requires
            n == width * height,
            width >= 0,
            height >= 0,
    ;
    let count: usize = width * height;
    let mut alpha = alpha_channel(pixels, count);
    assert(width * height * 1 == width * height);
    blur_repeatedly(alpha.as_mut_slice(), width, height, 1, rx, ry, 1);
    let ghost blur = alpha@;
    let mut r: Vec<u8> = Vec::new();
    let mut p: usize = 0;
    while p < count
        invariant
            p <= count == width * height,
            count == blur.len(),
            alpha@ == blur,
            r@ == Seq::new(
                p as nat,
                |p: int|
                    blur[shift_map(width as int, height as int, dx as int, dy as int)[p]],
            ),
        decreases count - p,
    {
        assert(width > 0 && height > 0) by (nonlinear_arith)
            requires
                0 < width * height,
                width >= 0,
                height >= 0,
        ;
        proof {
            lemma_pixel(p as int, width as int, height as int);
        }
        let x: usize = hold(cap(p % width) as i64 - dx as i64, cap(width));
        let y: usize = hold(cap(p / width) as i64 - dy as i64, cap(height));
        proof {
            lemma_pixel_range(x as int, y as int, width as int, height as int);
        }
        r.push(alpha[y * width + x]);
        assert(r@ =~= Seq::new(
            (p + 1) as nat,
            |p: int| blur[shift_map(width as int, height as int, dx as int, dy as int)[p]],
        ));
        p = p + 1;
    }
    r
}

} // verus!
