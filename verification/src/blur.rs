//! Box blurs of byte images.
//!
//! An image is `height` rows of `width` pixels of `ch` bytes each, row by row.
//! Samples beyond an edge repeat the sample at the edge.

use vstd::prelude::*;

verus! {

/// Where component `c` of the pixel in column `x` and row `y` stands.
pub open spec fn place(x: int, y: int, c: int, width: int, ch: int) -> int {
    (y * width + x) * ch + c
}

/// The sample at `k`, or the nearest one.
pub open spec fn edge_sample(line: Seq<u8>, k: int) -> int {
    if k < 0 {
        line[0] as int
    } else if k >= line.len() {
        line[line.len() - 1] as int
    } else {
        line[k] as int
    }
}

/// The sum of the samples from `a` up to, but not at, `b`.
pub open spec fn window_sum(line: Seq<u8>, a: int, b: int) -> int
    decreases b - a,
{
    if b <= a {
        0
    } else {
        window_sum(line, a, b - 1) + edge_sample(line, b - 1)
    }
}

/// The mean, rounded down, of the samples that are at most `r` away from `k`.
pub open spec fn box_mean(line: Seq<u8>, k: int, r: int) -> u8 {
    (window_sum(line, k - r, k + r + 1) / (2 * r + 1)) as u8
}

/// Where sample `k` of a line stands.
pub open spec fn spot(start: int, step: int, k: int) -> int {
    start + k * step
}

/// Samples that start at `start` and stand `step` apart.
pub open spec fn strided(buf: Seq<u8>, start: int, step: int, n: nat) -> Seq<u8> {
    Seq::new(n, |k: int| buf[spot(start, step, k)])
}

/// Row `y` of component `c`.
pub open spec fn row_of(buf: Seq<u8>, y: int, c: int, width: int, ch: int) -> Seq<u8> {
    Seq::new(width as nat, |k: int| buf[place(k, y, c, width, ch)])
}

/// Column `x` of component `c`.
pub open spec fn column_of(
    buf: Seq<u8>,
    x: int,
    c: int,
    width: int,
    height: int,
    ch: int,
) -> Seq<u8> {
    Seq::new(height as nat, |k: int| buf[place(x, k, c, width, ch)])
}

/// Whether every sample lies in an image.
pub open spec fn in_image(x: int, y: int, c: int, width: int, height: int, ch: int) -> bool {
    0 <= x < width && 0 <= y < height && 0 <= c < ch
}

proof fn lemma_sum_bounds(line: Seq<u8>, a: int, b: int, lo: int, hi: int)
    requires
        line.len() > 0,
        forall|i: int| 0 <= i < line.len() ==> lo <= #[trigger] line[i] <= hi,
        a <= b,
    ensures
        lo * (b - a) <= window_sum(line, a, b) <= hi * (b - a),
    decreases b - a,
{
    if a < b {
        lemma_sum_bounds(line, a, b - 1, lo, hi);
        assert(lo <= edge_sample(line, b - 1) <= hi);
        assert(lo * (b - a) == lo * (b - 1 - a) + lo) by (nonlinear_arith);
        assert(hi * (b - a) == hi * (b - 1 - a) + hi) by (nonlinear_arith);
    } else {
        assert(lo * (b - a) == 0 && hi * (b - a) == 0) by (nonlinear_arith)
            requires
                b - a == 0,
        ;
    }
}

proof fn lemma_sum_drop_first(line: Seq<u8>, a: int, b: int)
    requires
        a < b,
    ensures
        window_sum(line, a, b) == edge_sample(line, a) + window_sum(line, a + 1, b),
    decreases b - a,
{
    if a + 1 < b {
        lemma_sum_drop_first(line, a, b - 1);
    } else {
        assert(window_sum(line, a, a) == 0);
        assert(window_sum(line, a + 1, b) == 0);
    }
}

proof fn lemma_sum_split(line: Seq<u8>, a: int, m: int, b: int)
    requires
        a <= m <= b,
    ensures
        window_sum(line, a, b) == window_sum(line, a, m) + window_sum(line, m, b),
    decreases b - m,
{
    if m < b {
        lemma_sum_split(line, a, m, b - 1);
    }
}

proof fn lemma_sum_before_edge(line: Seq<u8>, n: int)
    requires
        n >= 0,
    ensures
        window_sum(line, -n, 0) == n * line[0],
    decreases n,
{
    if n > 0 {
        lemma_sum_before_edge(line, n - 1);
        lemma_sum_drop_first(line, -n, 0);
        assert(-n + 1 == -(n - 1));
        assert(n * line[0] == (n - 1) * line[0] + line[0]) by (nonlinear_arith);
    } else {
        assert(n * line[0] == 0) by (nonlinear_arith)
            requires
                n == 0,
        ;
    }
}

/// The mean of samples lies between bounds that hold of all of them. In
/// particular, a line of equal samples is unchanged by a blur.
pub proof fn box_mean_stays_in_range(line: Seq<u8>, k: int, r: int, lo: u8, hi: u8)
    requires
        line.len() > 0,
        r >= 0,
        forall|i: int| 0 <= i < line.len() ==> lo <= #[trigger] line[i] <= hi,
    ensures
        lo <= box_mean(line, k, r) <= hi,
{
    let n = 2 * r + 1;
    lemma_sum_bounds(line, k - r, k + r + 1, lo as int, hi as int);
    let s = window_sum(line, k - r, k + r + 1);
    assert(lo <= s / n <= hi) by (nonlinear_arith)
        requires
            lo * n <= s <= hi * n,
            n > 0,
    ;
}

proof fn lemma_spots(start: int, step: int, n: int, len: int)
    requires
        start >= 0,
        step > 0,
        spot(start, step, n - 1) < len,
    ensures
        forall|k: int| 0 <= k < n ==> 0 <= #[trigger] spot(start, step, k) < len,
        forall|j: int, k: int|
            0 <= j < n && 0 <= k < n && j != k ==> #[trigger] spot(start, step, j)
                != #[trigger] spot(start, step, k),
{
    assert forall|k: int| 0 <= k < n implies 0 <= #[trigger] spot(start, step, k) < len by {
        assert(k * step <= (n - 1) * step) by (nonlinear_arith)
            requires
                k <= n - 1,
                step > 0,
        ;
        assert(0 <= k * step) by (nonlinear_arith)
            requires
                0 <= k,
                step > 0,
        ;
    }
    assert forall|j: int, k: int| 0 <= j < n && 0 <= k < n && j != k implies #[trigger] spot(
        start,
        step,
        j,
    ) != #[trigger] spot(start, step, k) by {
        assert(j * step != k * step) by (nonlinear_arith)
            requires
                j != k,
                step > 0,
        ;
    }
}

/// Copies the samples of a line.
fn gather(buf: &[u8], start: usize, step: usize, n: usize) -> (line: Vec<u8>)
    requires
        step > 0,
        n > 0,
        spot(start as int, step as int, n - 1) < buf@.len(),
    ensures
        line@ == strided(buf@, start as int, step as int, n as nat),
{
    proof {
        lemma_spots(start as int, step as int, n as int, buf@.len() as int);
    }
    let len: usize = buf.len();
    let mut line: Vec<u8> = Vec::new();
    let mut k: usize = 0;
    let mut at: usize = start;
    while k < n
        invariant
            len == buf@.len(),
            k <= n,
            forall|j: int| 0 <= j < n ==> 0 <= #[trigger] spot(start as int, step as int, j) < len,
            k < n ==> at == spot(start as int, step as int, k as int),
            line@ == strided(buf@, start as int, step as int, k as nat),
        decreases n - k,
    {
        assert(0 <= spot(start as int, step as int, k as int) < len);
        line.push(buf[at]);
        assert(line@ =~= strided(buf@, start as int, step as int, (k + 1) as nat));
        if k + 1 < n {
            assert((k + 1) * step == k * step + step) by (nonlinear_arith);
            assert(0 <= spot(start as int, step as int, k + 1) < len);
            at = at + step;
        }
        k = k + 1;
    }
    line
}

/// Overwrites the samples of a line.
fn scatter(buf: &mut [u8], start: usize, step: usize, line: &Vec<u8>)
    requires
        step > 0,
        line@.len() > 0,
        spot(start as int, step as int, line@.len() - 1) < old(buf)@.len(),
    ensures
        final(buf)@.len() == old(buf)@.len(),
        forall|k: int|
            0 <= k < line@.len() ==> final(buf)@[#[trigger] spot(start as int, step as int, k)]
                == line@[k],
        forall|i: int|
            0 <= i < old(buf)@.len() && (forall|k: int|
                0 <= k < line@.len() ==> i != #[trigger] spot(start as int, step as int, k))
                ==> #[trigger] final(buf)@[i] == old(buf)@[i],
{
    let n: usize = line.len();
    let len: usize = buf.len();
    proof {
        lemma_spots(start as int, step as int, n as int, len as int);
    }
    let mut k: usize = 0;
    let mut at: usize = start;
    while k < n
        invariant
            n == line@.len(),
            len == buf@.len(),
            len == old(buf)@.len(),
            k <= n,
            forall|j: int| 0 <= j < n ==> 0 <= #[trigger] spot(start as int, step as int, j) < len,
            forall|j: int, m: int|
                0 <= j < n && 0 <= m < n && j != m ==> #[trigger] spot(
                    start as int,
                    step as int,
                    j,
                ) != #[trigger] spot(start as int, step as int, m),
            k < n ==> at == spot(start as int, step as int, k as int),
            forall|j: int|
                0 <= j < k ==> buf@[#[trigger] spot(start as int, step as int, j)] == line@[j],
            forall|i: int|
                0 <= i < len && (forall|j: int|
                    0 <= j < n ==> i != #[trigger] spot(start as int, step as int, j))
                    ==> #[trigger] buf@[i] == old(buf)@[i],
        decreases n - k,
    {
        assert(0 <= spot(start as int, step as int, k as int) < len);
        buf[at] = line[k];
        if k + 1 < n {
            assert((k + 1) * step == k * step + step) by (nonlinear_arith);
            assert(0 <= spot(start as int, step as int, k + 1) < len);
            at = at + step;
        }
        k = k + 1;
    }
}

/// The means of the samples around each sample of a line.
fn blur_samples(line: &Vec<u8>, r: usize) -> (out: Vec<u8>)
    requires
        line@.len() > 0,
        255 * (2 * r + 1) <= u32::MAX,
    ensures
        out@.len() == line@.len(),
        forall|k: int| 0 <= k < line@.len() ==> #[trigger] out@[k] == box_mean(line@, k, r as int),
{
    let n: usize = line.len();
    let window: u32 = 2 * (r as u32) + 1;
    let mut sum: u32 = 0;
    let mut i: usize = 0;
    while i <= r
        invariant
            n == line@.len(),
            n > 0,
            i <= r + 1,
            255 * (2 * r + 1) <= u32::MAX,
            sum == window_sum(line@, 0, i as int),
            sum <= 255 * i,
        decreases r + 1 - i,
    {
        let j: usize = if i < n {
            i
        } else {
            n - 1
        };
        sum = sum + line[j] as u32;
        i = i + 1;
    }
    proof {
        lemma_sum_before_edge(line@, r as int);
        lemma_sum_split(line@, -(r as int), 0, r + 1);
        assert(r * line@[0] <= r * 255) by (nonlinear_arith)
            requires
                line@[0] <= 255,
                r >= 0,
        ;
    }
    sum = sum + line[0] as u32 * (r as u32);
    let mut out: Vec<u8> = Vec::new();
    let mut x: usize = 0;
    while x < n
        invariant
            n == line@.len(),
            n > 0,
            x <= n,
            window == 2 * r + 1,
            255 * (2 * r + 1) <= u32::MAX,
            sum == window_sum(line@, x - r, x + r + 1),
            out@.len() == x,
            forall|k: int| 0 <= k < x ==> #[trigger] out@[k] == box_mean(line@, k, r as int),
        decreases n - x,
    {
        proof {
            lemma_sum_bounds(line@, x - r, x + r + 1, 0, 255);
            assert(0 <= sum / window <= 255) by (nonlinear_arith)
                requires
                    0 <= sum <= 255 * window,
                    window > 0,
            ;
        }
        out.push((sum / window) as u8);
        assert(out@[x as int] == box_mean(line@, x as int, r as int));
        let right: usize = if r < n - 1 - x {
            x + 1 + r
        } else {
            n - 1
        };
        let left: usize = if x > r {
            x - r
        } else {
            0
        };
        proof {
            lemma_sum_drop_first(line@, x - r, x + r + 1);
            assert(window_sum(line@, x - r + 1, x + r + 2) == window_sum(
                line@,
                x - r + 1,
                x + r + 1,
            ) + edge_sample(line@, x + r + 1));
            lemma_sum_bounds(line@, x - r + 1, x + r + 2, 0, 255);
            lemma_sum_bounds(line@, x - r + 1, x + r + 1, 0, 255);
        }
        sum = sum - line[left] as u32 + line[right] as u32;
        x = x + 1;
    }
    out
}

/// Blurs the `n` samples that start at `start` and stand `step` apart.
fn blur_line(buf: &mut [u8], start: usize, step: usize, n: usize, r: usize)
    requires
        n > 0,
        step > 0,
        255 * (2 * r + 1) <= u32::MAX,
        spot(start as int, step as int, n - 1) < old(buf)@.len(),
    ensures
        final(buf)@.len() == old(buf)@.len(),
        forall|k: int|
            0 <= k < n ==> final(buf)@[#[trigger] spot(start as int, step as int, k)] == box_mean(
                strided(old(buf)@, start as int, step as int, n as nat),
                k,
                r as int,
            ),
        forall|i: int|
            0 <= i < old(buf)@.len() && (forall|k: int|
                0 <= k < n ==> i != #[trigger] spot(start as int, step as int, k))
                ==> #[trigger] final(buf)@[i] == old(buf)@[i],
{
    let line = gather(buf, start, step, n);
    let out = blur_samples(&line, r);
    scatter(buf, start, step, &out);
}

/// A sample of an image stands among its bytes.
pub proof fn lemma_place_range(x: int, y: int, c: int, width: int, height: int, ch: int)
    requires
        in_image(x, y, c, width, height, ch),
    ensures
        0 <= place(x, y, c, width, ch) < width * height * ch,
{
    assert(0 <= y * width + x <= width * height - 1) by (nonlinear_arith)
        requires
            0 <= x < width,
            0 <= y <= height - 1,
    ;
    assert(0 <= (y * width + x) * ch + c < width * height * ch) by (nonlinear_arith)
        requires
            0 <= y * width + x <= width * height - 1,
            0 <= c < ch,
    ;
}

/// Different samples stand at different places.
pub proof fn lemma_place_distinct(
    x: int,
    y: int,
    c: int,
    x2: int,
    y2: int,
    c2: int,
    width: int,
    height: int,
    ch: int,
)
    requires
        in_image(x, y, c, width, height, ch),
        in_image(x2, y2, c2, width, height, ch),
        place(x, y, c, width, ch) == place(x2, y2, c2, width, ch),
    ensures
        x == x2,
        y == y2,
        c == c2,
{
    let p = y * width + x;
    let p2 = y2 * width + x2;
    assert(p == p2) by (nonlinear_arith)
        requires
            p * ch + c == p2 * ch + c2,
            0 <= c < ch,
            0 <= c2 < ch,
    ;
    assert(y == y2) by (nonlinear_arith)
        requires
            y * width + x == y2 * width + x2,
            0 <= x < width,
            0 <= x2 < width,
    ;
}

/// What a blur along rows makes of an image.
pub open spec fn rows_blurred(
    before: Seq<u8>,
    after: Seq<u8>,
    width: int,
    height: int,
    ch: int,
    r: int,
) -> bool {
    &&& after.len() == before.len()
    &&& forall|x: int, y: int, c: int|
        in_image(x, y, c, width, height, ch) ==> #[trigger] after[place(x, y, c, width, ch)]
            == box_mean(row_of(before, y, c, width, ch), x, r)
    &&& forall|i: int| width * height * ch <= i < before.len() ==> #[trigger] after[i] == before[i]
}

/// What a blur along columns makes of an image.
pub open spec fn columns_blurred(
    before: Seq<u8>,
    after: Seq<u8>,
    width: int,
    height: int,
    ch: int,
    r: int,
) -> bool {
    &&& after.len() == before.len()
    &&& forall|x: int, y: int, c: int|
        in_image(x, y, c, width, height, ch) ==> #[trigger] after[place(x, y, c, width, ch)]
            == box_mean(column_of(before, x, c, width, height, ch), y, r)
    &&& forall|i: int| width * height * ch <= i < before.len() ==> #[trigger] after[i] == before[i]
}

/// Blurs every row of every component.
pub fn blur_rows(buf: &mut [u8], width: usize, height: usize, ch: usize, r: usize)
    requires
        width * height * ch <= old(buf)@.len(),
        ch > 0,
        255 * (2 * r + 1) <= u32::MAX,
    ensures
        rows_blurred(
            old(buf)@,
            final(buf)@,
            width as int,
            height as int,
            ch as int,
            r as int,
        ),
{
    if width == 0 {
        return;
    }
    let ghost w = width as int;
    let ghost h = height as int;
    let ghost d = ch as int;
    let len: usize = buf.len();
    let mut y: usize = 0;
    while y < height
        invariant
            w == width,
            h == height,
            d == ch,
            w > 0,
            d > 0,
            w * h * d <= len,
            len == buf@.len(),
            len == old(buf)@.len(),
            255 * (2 * r + 1) <= u32::MAX,
            y <= height,
            forall|x: int, v: int, c: int|
                in_image(x, v, c, w, h, d) ==> #[trigger] buf@[place(x, v, c, w, d)] == if v < y {
                    box_mean(row_of(old(buf)@, v, c, w, d), x, r as int)
                } else {
                    old(buf)@[place(x, v, c, w, d)]
                },
            forall|i: int| w * h * d <= i < len ==> #[trigger] buf@[i] == old(buf)@[i],
        decreases height - y,
    {
        let mut c: usize = 0;
        while c < ch
            invariant
                w == width,
                h == height,
                d == ch,
                w > 0,
                d > 0,
                w * h * d <= len,
                len == buf@.len(),
                len == old(buf)@.len(),
                255 * (2 * r + 1) <= u32::MAX,
                y < height,
                c <= ch,
                forall|x: int, v: int, k: int|
                    in_image(x, v, k, w, h, d) ==> #[trigger] buf@[place(x, v, k, w, d)] == if v
                        < y || (v == y && k < c) {
                        box_mean(row_of(old(buf)@, v, k, w, d), x, r as int)
                    } else {
                        old(buf)@[place(x, v, k, w, d)]
                    },
                forall|i: int| w * h * d <= i < len ==> #[trigger] buf@[i] == old(buf)@[i],
            decreases ch - c,
        {
            proof {
                lemma_place_range(0, y as int, c as int, w, h, d);
                lemma_place_range(w - 1, y as int, c as int, w, h, d);
                assert(y * w <= (y * w + 0) * d + c) by (nonlinear_arith)
                    requires
                        d > 0,
                        c >= 0,
                        w > 0,
                        y >= 0,
                ;
                assert(y * w * d + c == (y * w + 0) * d + c) by (nonlinear_arith);
                assert forall|k: int| #[trigger]
                    spot(y * w * d + c, d, k) == place(k, y as int, c as int, w, d) by {
                    assert((y * w + k) * d == y * w * d + k * d) by (nonlinear_arith);
                }
                assert(0 <= y * w * d) by (nonlinear_arith)
                    requires
                        0 <= y,
                        0 < w,
                        0 < d,
                ;
            }
            let ghost before = buf@;
            let start: usize = y * width * ch + c;
            assert(spot(start as int, d, w - 1) == place(w - 1, y as int, c as int, w, d));
            blur_line(buf, start, ch, width, r);
            proof {
                let line = strided(before, start as int, d, w as nat);
                assert(line =~= row_of(old(buf)@, y as int, c as int, w, d)) by {
                    assert forall|k: int| 0 <= k < w implies line[k] == row_of(
                        old(buf)@,
                        y as int,
                        c as int,
                        w,
                        d,
                    )[k] by {
                        assert(in_image(k, y as int, c as int, w, h, d));
                        assert(spot(start as int, d, k) == place(k, y as int, c as int, w, d));
                    }
                }
                assert forall|x: int, v: int, k: int|
                    in_image(x, v, k, w, h, d) implies #[trigger] buf@[place(x, v, k, w, d)] == if v
                    < y || (v == y && k < c + 1) {
                    box_mean(row_of(old(buf)@, v, k, w, d), x, r as int)
                } else {
                    old(buf)@[place(x, v, k, w, d)]
                } by {
                    lemma_place_range(x, v, k, w, h, d);
                    let i = place(x, v, k, w, d);
                    if v == y && k == c {
                        assert(spot(start as int, d, x) == i);
                    } else {
                        assert forall|j: int| 0 <= j < w implies i != #[trigger] spot(
                            start as int,
                            d,
                            j,
                        ) by {
                            if i == spot(start as int, d, j) {
                                lemma_place_distinct(x, v, k, j, y as int, c as int, w, h, d);
                            }
                        }
                        assert(buf@[i] == before[i]);
                    }
                }
                assert forall|i: int| w * h * d <= i < len implies #[trigger] buf@[i]
                    == old(buf)@[i] by {
                    assert forall|j: int| 0 <= j < w implies i != #[trigger] spot(
                        start as int,
                        d,
                        j,
                    ) by {
                        lemma_place_range(j, y as int, c as int, w, h, d);
                    }
                    assert(before[i] == old(buf)@[i]);
                }
            }
            c = c + 1;
        }
        y = y + 1;
    }
}

/// Blurs every column of every component.
pub fn blur_columns(buf: &mut [u8], width: usize, height: usize, ch: usize, r: usize)
    requires
        width * height * ch <= old(buf)@.len(),
        ch > 0,
        255 * (2 * r + 1) <= u32::MAX,
    ensures
        columns_blurred(
            old(buf)@,
            final(buf)@,
            width as int,
            height as int,
            ch as int,
            r as int,
        ),
{
    if height == 0 {
        return;
    }
    let ghost w = width as int;
    let ghost h = height as int;
    let ghost d = ch as int;
    let len: usize = buf.len();
    let mut x: usize = 0;
    while x < width
        invariant
            w == width,
            h == height,
            d == ch,
            h > 0,
            d > 0,
            w * h * d <= len,
            len == buf@.len(),
            len == old(buf)@.len(),
            255 * (2 * r + 1) <= u32::MAX,
            x <= width,
            forall|u: int, v: int, c: int|
                in_image(u, v, c, w, h, d) ==> #[trigger] buf@[place(u, v, c, w, d)] == if u < x {
                    box_mean(column_of(old(buf)@, u, c, w, h, d), v, r as int)
                } else {
                    old(buf)@[place(u, v, c, w, d)]
                },
            forall|i: int| w * h * d <= i < len ==> #[trigger] buf@[i] == old(buf)@[i],
        decreases width - x,
    {
        let mut c: usize = 0;
        while c < ch
            invariant
                w == width,
                h == height,
                d == ch,
                h > 0,
                d > 0,
                w * h * d <= len,
                len == buf@.len(),
                len == old(buf)@.len(),
                255 * (2 * r + 1) <= u32::MAX,
                x < width,
                c <= ch,
                forall|u: int, v: int, k: int|
                    in_image(u, v, k, w, h, d) ==> #[trigger] buf@[place(u, v, k, w, d)] == if u
                        < x || (u == x && k < c) {
                        box_mean(column_of(old(buf)@, u, k, w, h, d), v, r as int)
                    } else {
                        old(buf)@[place(u, v, k, w, d)]
                    },
                forall|i: int| w * h * d <= i < len ==> #[trigger] buf@[i] == old(buf)@[i],
            decreases ch - c,
        {
            proof {
                lemma_place_range(x as int, 0, c as int, w, h, d);
                lemma_place_range(x as int, h - 1, c as int, w, h, d);
                assert(0 * w + x == x) by (nonlinear_arith);
                assert forall|k: int| #[trigger]
                    spot(x * d + c, w * d, k) == place(x as int, k, c as int, w, d) by {
                    assert((k * w + x) * d == x * d + k * (w * d)) by (nonlinear_arith);
                }
                assert(w * d <= w * h * d) by (nonlinear_arith)
                    requires
                        w >= 0,
                        h >= 1,
                        d >= 0,
                ;
                assert(0 < w * d) by (nonlinear_arith)
                    requires
                        0 < w,
                        0 < d,
                ;
            }
            let ghost before = buf@;
            let start: usize = x * ch + c;
            let step: usize = width * ch;
            assert(spot(start as int, w * d, h - 1) == place(x as int, h - 1, c as int, w, d));
            blur_line(buf, start, step, height, r);
            proof {
                let line = strided(before, start as int, w * d, h as nat);
                assert(line =~= column_of(old(buf)@, x as int, c as int, w, h, d)) by {
                    assert forall|k: int| 0 <= k < h implies line[k] == column_of(
                        old(buf)@,
                        x as int,
                        c as int,
                        w,
                        h,
                        d,
                    )[k] by {
                        assert(in_image(x as int, k, c as int, w, h, d));
                        assert(spot(start as int, w * d, k) == place(x as int, k, c as int, w, d));
                    }
                }
                assert forall|u: int, v: int, k: int|
                    in_image(u, v, k, w, h, d) implies #[trigger] buf@[place(u, v, k, w, d)] == if u
                    < x || (u == x && k < c + 1) {
                    box_mean(column_of(old(buf)@, u, k, w, h, d), v, r as int)
                } else {
                    old(buf)@[place(u, v, k, w, d)]
                } by {
                    lemma_place_range(u, v, k, w, h, d);
                    let i = place(u, v, k, w, d);
                    if u == x && k == c {
                        assert(spot(start as int, w * d, v) == i);
                    } else {
                        assert forall|j: int| 0 <= j < h implies i != #[trigger] spot(
                            start as int,
                            w * d,
                            j,
                        ) by {
                            if i == spot(start as int, w * d, j) {
                                lemma_place_distinct(u, v, k, x as int, j, c as int, w, h, d);
                            }
                        }
                        assert(buf@[i] == before[i]);
                    }
                }
                assert forall|i: int| w * h * d <= i < len implies #[trigger] buf@[i]
                    == old(buf)@[i] by {
                    assert forall|j: int| 0 <= j < h implies i != #[trigger] spot(
                        start as int,
                        w * d,
                        j,
                    ) by {
                        lemma_place_range(x as int, j, c as int, w, h, d);
                    }
                    assert(before[i] == old(buf)@[i]);
                }
            }
            c = c + 1;
        }
        x = x + 1;
    }
}

/// An image after a blur along its rows.
pub open spec fn rows_blur(img: Seq<u8>, width: int, height: int, ch: int, r: int) -> Seq<u8> {
    Seq::new(
        img.len(),
        |i: int|
            if i < width * height * ch {
                box_mean(row_of(img, i / ch / width, i % ch, width, ch), i / ch % width, r)
            } else {
                img[i]
            },
    )
}

/// An image after a blur along its columns.
pub open spec fn columns_blur(img: Seq<u8>, width: int, height: int, ch: int, r: int) -> Seq<u8> {
    Seq::new(
        img.len(),
        |i: int|
            if i < width * height * ch {
                box_mean(
                    column_of(img, i / ch % width, i % ch, width, height, ch),
                    i / ch / width,
                    r,
                )
            } else {
                img[i]
            },
    )
}

/// An image after `n` blurs along rows and columns. A radius of zero leaves
/// that direction alone.
pub open spec fn repeated_blur(
    img: Seq<u8>,
    width: int,
    height: int,
    ch: int,
    rx: int,
    ry: int,
    n: nat,
) -> Seq<u8>
    decreases n,
{
    if n == 0 {
        img
    } else {
        let a = repeated_blur(img, width, height, ch, rx, ry, (n - 1) as nat);
        let b = if rx > 0 {
            rows_blur(a, width, height, ch, rx)
        } else {
            a
        };
        if ry > 0 {
            columns_blur(b, width, height, ch, ry)
        } else {
            b
        }
    }
}

/// Every place among the bytes of an image belongs to one sample.
pub proof fn lemma_place_of(i: int, width: int, height: int, ch: int)
    requires
        0 <= i < width * height * ch,
        0 <= width,
        0 <= height,
        0 <= ch,
    ensures
        in_image(i / ch % width, i / ch / width, i % ch, width, height, ch),
        place(i / ch % width, i / ch / width, i % ch, width, ch) == i,
{
    assert(ch > 0 && width > 0 && height > 0) by (nonlinear_arith)
        requires
            0 < width * height * ch,
            0 <= width,
            0 <= height,
            0 <= ch,
    ;
    let p = i / ch;
    vstd::arithmetic::div_mod::lemma_fundamental_div_mod(i, ch);
    vstd::arithmetic::div_mod::lemma_fundamental_div_mod(p, width);
    assert(0 <= i % ch < ch && 0 <= p % width < width);
    assert(ch * p == p * ch && width * (p / width) == (p / width) * width) by (nonlinear_arith);
    assert(0 <= p < width * height) by (nonlinear_arith)
        requires
            i == ch * p + i % ch,
            0 <= i % ch < ch,
            0 <= i < width * height * ch,
            ch > 0,
    ;
    assert(0 <= p / width < height) by (nonlinear_arith)
        requires
            p == width * (p / width) + p % width,
            0 <= p % width < width,
            0 <= p < width * height,
            width > 0,
    ;
}

proof fn lemma_rows_blurred(
    before: Seq<u8>,
    after: Seq<u8>,
    width: int,
    height: int,
    ch: int,
    r: int,
)
    requires
        rows_blurred(before, after, width, height, ch, r),
        0 <= width,
        0 <= height,
        0 <= ch,
    ensures
        after == rows_blur(before, width, height, ch, r),
{
    assert forall|i: int| 0 <= i < before.len() implies after[i] == rows_blur(
        before,
        width,
        height,
        ch,
        r,
    )[i] by {
        if i < width * height * ch {
            lemma_place_of(i, width, height, ch);
        }
    }
    assert(after =~= rows_blur(before, width, height, ch, r));
}

proof fn lemma_columns_blurred(
    before: Seq<u8>,
    after: Seq<u8>,
    width: int,
    height: int,
    ch: int,
    r: int,
)
    requires
        columns_blurred(before, after, width, height, ch, r),
        0 <= width,
        0 <= height,
        0 <= ch,
    ensures
        after == columns_blur(before, width, height, ch, r),
{
    assert forall|i: int| 0 <= i < before.len() implies after[i] == columns_blur(
        before,
        width,
        height,
        ch,
        r,
    )[i] by {
        if i < width * height * ch {
            lemma_place_of(i, width, height, ch);
        }
    }
    assert(after =~= columns_blur(before, width, height, ch, r));
}

/// The largest radius whose window sums fit in a word.
pub open spec fn radius_fits(r: int) -> bool {
    0 <= r && 255 * (2 * r + 1) <= u32::MAX
}

/// Blurs an image `n` times along rows and columns.
pub fn blur_repeatedly(
    buf: &mut [u8],
    width: usize,
    height: usize,
    ch: usize,
    rx: usize,
    ry: usize,
    n: usize,
)
    requires
        width * height * ch <= old(buf)@.len(),
        ch > 0,
        radius_fits(rx as int),
        radius_fits(ry as int),
    ensures
        final(buf)@ == repeated_blur(
            old(buf)@,
            width as int,
            height as int,
            ch as int,
            rx as int,
            ry as int,
            n as nat,
        ),
        final(buf)@.len() == old(buf)@.len(),
{
    let mut i: usize = 0;
    while i < n
        invariant
            width * height * ch <= old(buf)@.len(),
            ch > 0,
            radius_fits(rx as int),
            radius_fits(ry as int),
            i <= n,
            buf@.len() == old(buf)@.len(),
            buf@ == repeated_blur(
                old(buf)@,
                width as int,
                height as int,
                ch as int,
                rx as int,
                ry as int,
                i as nat,
            ),
        decreases n - i,
    {
        if rx > 0 {
            let ghost before = buf@;
            blur_rows(buf, width, height, ch, rx);
            proof {
                lemma_rows_blurred(
                    before,
                    buf@,
                    width as int,
                    height as int,
                    ch as int,
                    rx as int,
                );
            }
        }
        if ry > 0 {
            let ghost before = buf@;
            blur_columns(buf, width, height, ch, ry);
            proof {
                lemma_columns_blurred(
                    before,
                    buf@,
                    width as int,
                    height as int,
                    ch as int,
                    ry as int,
                );
            }
        }
        i = i + 1;
    }
}

/// Bounds that hold of every sample of an image hold after any number of
/// blurs. In particular, an image of one value is unchanged.
pub proof fn blur_stays_in_range(
    img: Seq<u8>,
    width: int,
    height: int,
    ch: int,
    rx: int,
    ry: int,
    n: nat,
    lo: u8,
    hi: u8,
)
    requires
        0 <= width,
        0 <= height,
        0 <= ch,
        0 <= rx,
        0 <= ry,
        width * height * ch <= img.len(),
        forall|i: int| 0 <= i < img.len() ==> lo <= #[trigger] img[i] <= hi,
    ensures
        repeated_blur(img, width, height, ch, rx, ry, n).len() == img.len(),
        forall|i: int|
            0 <= i < img.len() ==> lo <= #[trigger] repeated_blur(
                img,
                width,
                height,
                ch,
                rx,
                ry,
                n,
            )[i] <= hi,
    decreases n,
{
    if n > 0 {
        blur_stays_in_range(img, width, height, ch, rx, ry, (n - 1) as nat, lo, hi);
        let a = repeated_blur(img, width, height, ch, rx, ry, (n - 1) as nat);
        let b = if rx > 0 {
            rows_blur(a, width, height, ch, rx)
        } else {
            a
        };
        assert forall|i: int| 0 <= i < img.len() implies lo <= #[trigger] b[i] <= hi by {
            if rx > 0 && i < width * height * ch {
                lemma_place_of(i, width, height, ch);
                let y = i / ch / width;
                let c = i % ch;
                let line = row_of(a, y, c, width, ch);
                assert forall|k: int| 0 <= k < line.len() implies lo <= #[trigger] line[k]
                    <= hi by {
                    lemma_place_range(k, y, c, width, height, ch);
                }
                box_mean_stays_in_range(line, i / ch % width, rx, lo, hi);
            }
        }
        let e = repeated_blur(img, width, height, ch, rx, ry, n);
        assert forall|i: int| 0 <= i < img.len() implies lo <= #[trigger] e[i] <= hi by {
            if ry > 0 && i < width * height * ch {
                lemma_place_of(i, width, height, ch);
                let x = i / ch % width;
                let c = i % ch;
                let line = column_of(b, x, c, width, height, ch);
                assert forall|k: int| 0 <= k < line.len() implies lo <= #[trigger] line[k]
                    <= hi by {
                    lemma_place_range(x, k, c, width, height, ch);
                }
                box_mean_stays_in_range(line, i / ch / width, ry, lo, hi);
            } else {
                assert(b[i] == b[i]);
            }
        }
    }
}

} // verus!
