//! Perceptual seam similarity between two square tiles.
//!
//! A band one tenth of the side length thick is cropped along the chosen
//! edge of the first tile and along the geometrically opposite edge of the
//! second. The second band is mirrored — seam-adjacent bands should read as
//! continuations of each other, not as mirror images — and the two bands are
//! scored: the sum of per-channel absolute differences, normalized against
//! the theoretical maximum, subtracted from one. The comparison passes when
//! that score reaches the threshold, a rational `num / den` strictly between
//! zero and one.

use vstd::prelude::*;

use vstd::arithmetic::div_mod::lemma_fundamental_div_mod_converse;

use crate::align::abs_diff;
use crate::align::Raster;
use crate::bitmap::lemma_flat_index;
use crate::bitmap::lemma_px_eq;
use crate::bitmap::px_at;
use crate::bitmap::Bitmap;
use crate::codec::decode_bitmap;
use crate::codec::decoded_image;
use crate::edge::edge_from_scorer_code;
use crate::edge::scorer_edge;
use crate::edge::Edge;
use crate::error::Error;

verus! {

/// The thickness of the compared band: a tenth of the side length.
pub open spec fn slice_width(w: int) -> int {
    w / 10
}

/// Width of the compared band of a `w`-sided square tile.
pub open spec fn band_w(edge: Edge, w: int) -> int {
    match edge {
        Edge::Top => w,
        Edge::Right => slice_width(w),
        Edge::Bottom => w,
        Edge::Left => slice_width(w),
    }
}

/// Height of the compared band of a `w`-sided square tile.
pub open spec fn band_h(edge: Edge, w: int) -> int {
    match edge {
        Edge::Top => slice_width(w),
        Edge::Right => w,
        Edge::Bottom => slice_width(w),
        Edge::Left => w,
    }
}

/// Channel `c` of band pixel `(x, y)` cropped from the first tile: its own
/// side of the seam, unmirrored.
pub open spec fn band_a_px(a: Raster, edge: Edge, x: int, y: int, c: int) -> u8 {
    let w = a.0 as int;
    let sw = slice_width(w);
    match edge {
        Edge::Top => px_at(w, a.2, x, y, c),
        Edge::Right => px_at(w, a.2, w - sw + x, y, c),
        Edge::Bottom => px_at(w, a.2, x, w - sw + y, c),
        Edge::Left => px_at(w, a.2, x, y, c),
    }
}

/// Channel `c` of band pixel `(x, y)` cropped from the opposite side of the
/// second tile and then mirrored: flipped left-right for a horizontal edge,
/// top-bottom for a vertical one.
pub open spec fn band_b_px(b: Raster, edge: Edge, x: int, y: int, c: int) -> u8 {
    let w = b.0 as int;
    let sw = slice_width(w);
    match edge {
        Edge::Top => px_at(w, b.2, w - 1 - x, w - sw + y, c),
        Edge::Right => px_at(w, b.2, x, w - 1 - y, c),
        Edge::Bottom => px_at(w, b.2, w - 1 - x, y, c),
        Edge::Left => px_at(w, b.2, w - sw + x, w - 1 - y, c),
    }
}

/// The band cropped from the first tile, as a raster.
pub open spec fn band_a(a: Raster, edge: Edge) -> Raster {
    let w = a.0 as int;
    let bw = band_w(edge, w);
    let bh = band_h(edge, w);
    (
        bw as u32,
        bh as u32,
        Seq::new((bw * bh * 4) as nat, |j: int| band_a_px(a, edge, (j / 4) % bw, (j / 4) / bw, j % 4)),
    )
}

/// The mirrored band cropped from the second tile, as a raster.
pub open spec fn band_b(b: Raster, edge: Edge) -> Raster {
    let w = b.0 as int;
    let bw = band_w(edge, w);
    let bh = band_h(edge, w);
    (
        bw as u32,
        bh as u32,
        Seq::new((bw * bh * 4) as nat, |j: int| band_b_px(b, edge, (j / 4) % bw, (j / 4) / bw, j % 4)),
    )
}

/// Sum of the four per-channel absolute differences at pixel `k` (row-major)
/// of two equally sized rasters.
pub open spec fn pixel_pair_diff(r1: Raster, r2: Raster, k: int) -> int {
    let w = r1.0 as int;
    let x = k % w;
    let y = k / w;
    abs_diff(px_at(w, r1.2, x, y, 0), px_at(r2.0 as int, r2.2, x, y, 0)) + abs_diff(
        px_at(w, r1.2, x, y, 1),
        px_at(r2.0 as int, r2.2, x, y, 1),
    ) + abs_diff(px_at(w, r1.2, x, y, 2), px_at(r2.0 as int, r2.2, x, y, 2)) + abs_diff(
        px_at(w, r1.2, x, y, 3),
        px_at(r2.0 as int, r2.2, x, y, 3),
    )
}

/// Aggregate per-channel absolute difference over the first `n` pixels of
/// two equally sized rasters.
pub open spec fn diff_sum(r1: Raster, r2: Raster, n: int) -> int
    decreases n,
{
    if n <= 0 {
        0
    } else {
        diff_sum(r1, r2, n - 1) + pixel_pair_diff(r1, r2, n - 1)
    }
}

/// The largest difference two bands of a `w`-sided tile can show:
/// 255 per channel, over four channels, for every band pixel.
pub open spec fn max_band_diff(edge: Edge, w: int) -> int {
    1020 * band_w(edge, w) * band_h(edge, w)
}

/// The aggregate difference between the band of the first tile and the
/// mirrored opposite band of the second.
pub open spec fn seam_difference(a: Raster, b: Raster, edge: Edge) -> int {
    diff_sum(band_a(a, edge), band_b(b, edge), band_w(edge, a.0 as int) * band_h(edge, a.0 as int))
}

/// Whether the normalized similarity score `1 - diff / max` is at least
/// `num / den`, in exact integer arithmetic. An empty band has no defined
/// score and never passes.
pub open spec fn meets_threshold(diff: int, max: int, num: int, den: int) -> bool {
    if max == 0 {
        false
    } else {
        den * (max - diff) >= num * max
    }
}

/// The seam comparison decision for two equally sized square tiles.
pub open spec fn seam_passes(a: Raster, b: Raster, edge: Edge, num: u32, den: u32) -> bool {
    meets_threshold(
        seam_difference(a, b, edge),
        max_band_diff(edge, a.0 as int),
        num as int,
        den as int,
    )
}

/// The threshold `num / den` is strictly between zero and one.
pub open spec fn threshold_valid(num: u32, den: u32) -> bool {
    0 < num < den
}

/// The full outcome of comparing two decoded tiles: which constraint
/// violation is reported, or the decision when none is.
pub open spec fn compare_outcome(a: Raster, b: Raster, edge: Edge, num: u32, den: u32) -> Result<
    bool,
    Error,
> {
    if !threshold_valid(num, den) {
        Err(Error::InvalidThreshold)
    } else if a.0 != a.1 || b.0 != b.1 {
        Err(Error::NotSquare)
    } else if a.0 != b.0 {
        Err(Error::SizeMismatch)
    } else {
        Ok(seam_passes(a, b, edge, num, den))
    }
}

/// The full outcome of comparing two encoded tiles, starting from the edge
/// code and the raw bytes.
pub open spec fn compare_images_outcome(
    bytes1: Seq<u8>,
    bytes2: Seq<u8>,
    edge: u8,
    num: u32,
    den: u32,
) -> Result<bool, Error> {
    if scorer_edge(edge) is None {
        Err(Error::InvalidEdge)
    } else if !threshold_valid(num, den) {
        Err(Error::InvalidThreshold)
    } else if decoded_image(bytes1) is None || decoded_image(bytes2) is None {
        Err(Error::DecodeFailed)
    } else {
        compare_outcome(
            decoded_image(bytes1)->Some_0,
            decoded_image(bytes2)->Some_0,
            scorer_edge(edge)->Some_0,
            num,
            den,
        )
    }
}

/// Copies the `cw` by `ch` rectangle at `(x0, y0)` out of a bitmap.
fn crop_rect(image: &Bitmap, x0: u32, y0: u32, cw: u32, ch: u32) -> (r: Bitmap)
    requires
        image.wf(),
        x0 + cw <= image.width,
        y0 + ch <= image.height,
    ensures
        r.width == cw,
        r.height == ch,
        r.wf(),
        forall|x: int, y: int, c: int|
            0 <= x < cw && 0 <= y < ch && 0 <= c < 4 ==> r.px(x, y, c) == image.px(
                x0 + x,
                y0 + y,
                c,
            ),
{
    let mut pixels: Vec<u8> = Vec::new();
    let mut y: u32 = 0;
    while y < ch
        invariant
            image.wf(),
            x0 + cw <= image.width,
            y0 + ch <= image.height,
            y <= ch,
            pixels@.len() == y * cw * 4,
            forall|j: int|
                0 <= j < pixels@.len() ==> pixels@[j] == image.px(
                    x0 + ((j / 4) % (cw as int)),
                    y0 + ((j / 4) / (cw as int)),
                    j % 4,
                ),
        decreases ch - y,
    {
        let mut x: u32 = 0;
        while x < cw
            invariant
                image.wf(),
                x0 + cw <= image.width,
                y0 + ch <= image.height,
                y < ch,
                x <= cw,
                pixels@.len() == y * cw * 4 + x * 4,
                forall|j: int|
                    0 <= j < pixels@.len() ==> pixels@[j] == image.px(
                        x0 + ((j / 4) % (cw as int)),
                        y0 + ((j / 4) / (cw as int)),
                        j % 4,
                    ),
            decreases cw - x,
        {
            proof {
                lemma_flat_index(cw as int, ch as int, x as int, y as int, 0);
                lemma_flat_index(cw as int, ch as int, x as int, y as int, 1);
                lemma_flat_index(cw as int, ch as int, x as int, y as int, 2);
                lemma_flat_index(cw as int, ch as int, x as int, y as int, 3);
            }
            pixels.push(image.channel(x0 + x, y0 + y, 0));
            pixels.push(image.channel(x0 + x, y0 + y, 1));
            pixels.push(image.channel(x0 + x, y0 + y, 2));
            pixels.push(image.channel(x0 + x, y0 + y, 3));
            x = x + 1;
        }
        proof {
            assert((y as int + 1) * cw as int * 4 == y as int * cw as int * 4 + cw as int * 4)
                by (nonlinear_arith);
        }
        y = y + 1;
    }
    proof {
        assert(ch as int * cw as int * 4 == cw as int * ch as int * 4) by (nonlinear_arith);
    }
    let r = Bitmap { width: cw, height: ch, pixels };
    proof {
        assert forall|x: int, yq: int, c: int|
            0 <= x < cw && 0 <= yq < ch && 0 <= c < 4 implies r.px(x, yq, c) == image.px(
            x0 + x,
            y0 + yq,
            c,
        ) by {
            lemma_flat_index(cw as int, ch as int, x, yq, c);
        }
    }
    r
}

/// The top band of a bitmap: the full width, clipped to at most `height`
/// rows from the top.
pub fn crop_top(image: &Bitmap, height: u32) -> (r: Bitmap)
    requires
        image.wf(),
    ensures
        r.width == image.width,
        r.height == if height <= image.height { height } else { image.height },
        r.wf(),
        forall|x: int, y: int, c: int|
            0 <= x < r.width && 0 <= y < r.height && 0 <= c < 4 ==> r.px(x, y, c) == image.px(
                x,
                y,
                c,
            ),
{
    let ch = if height <= image.height { height } else { image.height };
    crop_rect(image, 0, 0, image.width, ch)
}

/// The bottom band of a bitmap: the full width, clipped to at most `height`
/// rows from the bottom.
pub fn crop_bottom(image: &Bitmap, height: u32) -> (r: Bitmap)
    requires
        image.wf(),
    ensures
        r.width == image.width,
        r.height == if height <= image.height { height } else { image.height },
        r.wf(),
        forall|x: int, y: int, c: int|
            0 <= x < r.width && 0 <= y < r.height && 0 <= c < 4 ==> r.px(x, y, c) == image.px(
                x,
                image.height - r.height + y,
                c,
            ),
{
    let ch = if height <= image.height { height } else { image.height };
    crop_rect(image, 0, image.height - ch, image.width, ch)
}

/// The left band of a bitmap: the full height, clipped to at most `width`
/// columns from the left.
pub fn crop_left(image: &Bitmap, width: u32) -> (r: Bitmap)
    requires
        image.wf(),
    ensures
        r.width == if width <= image.width { width } else { image.width },
        r.height == image.height,
        r.wf(),
        forall|x: int, y: int, c: int|
            0 <= x < r.width && 0 <= y < r.height && 0 <= c < 4 ==> r.px(x, y, c) == image.px(
                x,
                y,
                c,
            ),
{
    let cw = if width <= image.width { width } else { image.width };
    crop_rect(image, 0, 0, cw, image.height)
}

/// The right band of a bitmap: the full height, clipped to at most `width`
/// columns from the right.
pub fn crop_right(image: &Bitmap, width: u32) -> (r: Bitmap)
    requires
        image.wf(),
    ensures
        r.width == if width <= image.width { width } else { image.width },
        r.height == image.height,
        r.wf(),
        forall|x: int, y: int, c: int|
            0 <= x < r.width && 0 <= y < r.height && 0 <= c < 4 ==> r.px(x, y, c) == image.px(
                image.width - r.width + x,
                y,
                c,
            ),
{
    let cw = if width <= image.width { width } else { image.width };
    crop_rect(image, image.width - cw, 0, cw, image.height)
}

/// Mirrors a bitmap left-right.
pub fn flip_horizontal(image: &Bitmap) -> (r: Bitmap)
    requires
        image.wf(),
    ensures
        r.width == image.width,
        r.height == image.height,
        r.wf(),
        forall|x: int, y: int, c: int|
            0 <= x < r.width && 0 <= y < r.height && 0 <= c < 4 ==> r.px(x, y, c) == image.px(
                image.width - 1 - x,
                y,
                c,
            ),
{
    let w = image.width;
    let h = image.height;
    let mut pixels: Vec<u8> = Vec::new();
    let mut y: u32 = 0;
    while y < h
        invariant
            image.wf(),
            image.width == w,
            image.height == h,
            y <= h,
            pixels@.len() == y * w * 4,
            forall|j: int|
                0 <= j < pixels@.len() ==> pixels@[j] == image.px(
                    w - 1 - ((j / 4) % (w as int)),
                    (j / 4) / (w as int),
                    j % 4,
                ),
        decreases h - y,
    {
        let mut x: u32 = 0;
        while x < w
            invariant
                image.wf(),
                image.width == w,
                image.height == h,
                y < h,
                x <= w,
                pixels@.len() == y * w * 4 + x * 4,
                forall|j: int|
                    0 <= j < pixels@.len() ==> pixels@[j] == image.px(
                        w - 1 - ((j / 4) % (w as int)),
                        (j / 4) / (w as int),
                        j % 4,
                    ),
            decreases w - x,
        {
            proof {
                lemma_flat_index(w as int, h as int, x as int, y as int, 0);
                lemma_flat_index(w as int, h as int, x as int, y as int, 1);
                lemma_flat_index(w as int, h as int, x as int, y as int, 2);
                lemma_flat_index(w as int, h as int, x as int, y as int, 3);
            }
            pixels.push(image.channel(w - 1 - x, y, 0));
            pixels.push(image.channel(w - 1 - x, y, 1));
            pixels.push(image.channel(w - 1 - x, y, 2));
            pixels.push(image.channel(w - 1 - x, y, 3));
            x = x + 1;
        }
        proof {
            assert((y as int + 1) * w as int * 4 == y as int * w as int * 4 + w as int * 4)
                by (nonlinear_arith);
        }
        y = y + 1;
    }
    proof {
        assert(h as int * w as int * 4 == w as int * h as int * 4) by (nonlinear_arith);
    }
    let r = Bitmap { width: w, height: h, pixels };
    proof {
        assert forall|x: int, yq: int, c: int|
            0 <= x < w && 0 <= yq < h && 0 <= c < 4 implies r.px(x, yq, c) == image.px(
            w - 1 - x,
            yq,
            c,
        ) by {
            lemma_flat_index(w as int, h as int, x, yq, c);
        }
    }
    r
}

/// Mirrors a bitmap top-bottom.
pub fn flip_vertical(image: &Bitmap) -> (r: Bitmap)
    requires
        image.wf(),
    ensures
        r.width == image.width,
        r.height == image.height,
        r.wf(),
        forall|x: int, y: int, c: int|
            0 <= x < r.width && 0 <= y < r.height && 0 <= c < 4 ==> r.px(x, y, c) == image.px(
                x,
                image.height - 1 - y,
                c,
            ),
{
    let w = image.width;
    let h = image.height;
    let mut pixels: Vec<u8> = Vec::new();
    let mut y: u32 = 0;
    while y < h
        invariant
            image.wf(),
            image.width == w,
            image.height == h,
            y <= h,
            pixels@.len() == y * w * 4,
            forall|j: int|
                0 <= j < pixels@.len() ==> pixels@[j] == image.px(
                    (j / 4) % (w as int),
                    h - 1 - ((j / 4) / (w as int)),
                    j % 4,
                ),
        decreases h - y,
    {
        let mut x: u32 = 0;
        while x < w
            invariant
                image.wf(),
                image.width == w,
                image.height == h,
                y < h,
                x <= w,
                pixels@.len() == y * w * 4 + x * 4,
                forall|j: int|
                    0 <= j < pixels@.len() ==> pixels@[j] == image.px(
                        (j / 4) % (w as int),
                        h - 1 - ((j / 4) / (w as int)),
                        j % 4,
                    ),
            decreases w - x,
        {
            proof {
                lemma_flat_index(w as int, h as int, x as int, y as int, 0);
                lemma_flat_index(w as int, h as int, x as int, y as int, 1);
                lemma_flat_index(w as int, h as int, x as int, y as int, 2);
                lemma_flat_index(w as int, h as int, x as int, y as int, 3);
            }
            pixels.push(image.channel(x, h - 1 - y, 0));
            pixels.push(image.channel(x, h - 1 - y, 1));
            pixels.push(image.channel(x, h - 1 - y, 2));
            pixels.push(image.channel(x, h - 1 - y, 3));
            x = x + 1;
        }
        proof {
            assert((y as int + 1) * w as int * 4 == y as int * w as int * 4 + w as int * 4)
                by (nonlinear_arith);
        }
        y = y + 1;
    }
    proof {
        assert(h as int * w as int * 4 == w as int * h as int * 4) by (nonlinear_arith);
    }
    let r = Bitmap { width: w, height: h, pixels };
    proof {
        assert forall|x: int, yq: int, c: int|
            0 <= x < w && 0 <= yq < h && 0 <= c < 4 implies r.px(x, yq, c) == image.px(
            x,
            h - 1 - yq,
            c,
        ) by {
            lemma_flat_index(w as int, h as int, x, yq, c);
        }
    }
    r
}

/// The aggregate difference is bounded by 1020 per pixel.
pub proof fn lemma_diff_sum_bounds(r1: Raster, r2: Raster, n: int)
    requires
        n >= 0,
    ensures
        0 <= diff_sum(r1, r2, n) <= 1020 * n,
    decreases n,
{
    if n > 0 {
        lemma_diff_sum_bounds(r1, r2, n - 1);
    }
}

/// A raster shows zero aggregate difference against itself.
proof fn lemma_diff_sum_self_zero(r: Raster, n: int)
    requires
        n >= 0,
    ensures
        diff_sum(r, r, n) == 0,
    decreases n,
{
    if n > 0 {
        lemma_diff_sum_self_zero(r, n - 1);
    }
}

/// Sums the per-channel absolute differences over two equally sized bitmaps.
fn band_difference(r1: &Bitmap, r2: &Bitmap) -> (d: u128)
    requires
        r1.wf(),
        r2.wf(),
        r1.width == r2.width,
        r1.height == r2.height,
    ensures
        d as int == diff_sum(r1.raster(), r2.raster(), r1.width as int * r1.height as int),
{
    let w = r1.width;
    let h = r1.height;
    let mut sum: u128 = 0;
    let mut y: u32 = 0;
    while y < h
        invariant
            r1.wf(),
            r2.wf(),
            r1.width == w,
            r2.width == w,
            r1.height == h,
            r2.height == h,
            y <= h,
            sum as int == diff_sum(r1.raster(), r2.raster(), y as int * w as int),
        decreases h - y,
    {
        let mut x: u32 = 0;
        while x < w
            invariant
                r1.wf(),
                r2.wf(),
                r1.width == w,
                r2.width == w,
                r1.height == h,
                r2.height == h,
                y < h,
                x <= w,
                sum as int == diff_sum(r1.raster(), r2.raster(), y as int * w as int + x as int),
            decreases w - x,
        {
            let ghost k: int = y as int * w as int + x as int;
            proof {
                assert(0 <= k && k + 1 <= w as int * h as int) by (nonlinear_arith)
                    requires
                        0 <= (x as int) && (x as int) < (w as int),
                        0 <= (y as int) && (y as int) < (h as int),
                        k == y as int * w as int + x as int,
                ;
                lemma_diff_sum_bounds(r1.raster(), r2.raster(), k);
                assert(1020 * k + 1020 <= 1020 * (w as int * h as int)) by (nonlinear_arith)
                    requires
                        k + 1 <= w as int * h as int,
                ;
                assert(1020 * (w as int * h as int) < u128::MAX) by (nonlinear_arith)
                    requires
                        w as int <= 0xffff_ffff,
                        h as int <= 0xffff_ffff,
                        w as int >= 0,
                        h as int >= 0,
                ;
                lemma_fundamental_div_mod_converse(k, w as int, y as int, x as int);
            }
            let a0 = r1.channel(x, y, 0);
            let a1 = r1.channel(x, y, 1);
            let a2 = r1.channel(x, y, 2);
            let a3 = r1.channel(x, y, 3);
            let b0 = r2.channel(x, y, 0);
            let b1 = r2.channel(x, y, 1);
            let b2 = r2.channel(x, y, 2);
            let b3 = r2.channel(x, y, 3);
            let d0: u32 = if a0 >= b0 { (a0 - b0) as u32 } else { (b0 - a0) as u32 };
            let d1: u32 = if a1 >= b1 { (a1 - b1) as u32 } else { (b1 - a1) as u32 };
            let d2: u32 = if a2 >= b2 { (a2 - b2) as u32 } else { (b2 - a2) as u32 };
            let d3: u32 = if a3 >= b3 { (a3 - b3) as u32 } else { (b3 - a3) as u32 };
            let step: u32 = d0 + d1 + d2 + d3;
            assert(step as int == pixel_pair_diff(r1.raster(), r2.raster(), k));
            sum = sum + step as u128;
            x = x + 1;
        }
        proof {
            assert((y as int + 1) * w as int == y as int * w as int + w as int)
                by (nonlinear_arith);
        }
        y = y + 1;
    }
    proof {
        assert(h as int * w as int == w as int * h as int) by (nonlinear_arith);
    }
    sum
}

/// Indexing the band of the first tile at `(x, y, c)` yields the band pixel
/// formula.
proof fn lemma_band_a_index(a: Raster, edge: Edge, x: int, y: int, c: int)
    requires
        0 <= x < band_w(edge, a.0 as int),
        0 <= y < band_h(edge, a.0 as int),
        0 <= c < 4,
    ensures
        band_a(a, edge).2[(y * band_w(edge, a.0 as int) + x) * 4 + c] == band_a_px(
            a,
            edge,
            x,
            y,
            c,
        ),
{
    let w = a.0 as int;
    let bw = band_w(edge, w);
    let bh = band_h(edge, w);
    lemma_flat_index(bw, bh, x, y, c);
}

/// Indexing the mirrored band of the second tile at `(x, y, c)` yields the
/// band pixel formula.
proof fn lemma_band_b_index(b: Raster, edge: Edge, x: int, y: int, c: int)
    requires
        0 <= x < band_w(edge, b.0 as int),
        0 <= y < band_h(edge, b.0 as int),
        0 <= c < 4,
    ensures
        band_b(b, edge).2[(y * band_w(edge, b.0 as int) + x) * 4 + c] == band_b_px(
            b,
            edge,
            x,
            y,
            c,
        ),
{
    let w = b.0 as int;
    let bw = band_w(edge, w);
    let bh = band_h(edge, w);
    lemma_flat_index(bw, bh, x, y, c);
}

/// A bitmap whose pixels follow the band formula of the first tile is that
/// band.
proof fn lemma_is_band_a(a: Bitmap, s: Bitmap, edge: Edge)
    requires
        s.wf(),
        s.width as int == band_w(edge, a.width as int),
        s.height as int == band_h(edge, a.width as int),
        forall|x: int, y: int, c: int|
            0 <= x < s.width && 0 <= y < s.height && 0 <= c < 4 ==> s.px(x, y, c) == band_a_px(
                a.raster(),
                edge,
                x,
                y,
                c,
            ),
    ensures
        s.raster() == band_a(a.raster(), edge),
{
    let ar = a.raster();
    let w = ar.0 as int;
    let bw = band_w(edge, w);
    let bh = band_h(edge, w);
    let t = band_a(ar, edge);
    assert forall|x: int, y: int, c: int|
        0 <= x < bw && 0 <= y < bh && 0 <= c < 4 implies px_at(bw, s.pixels@, x, y, c) == px_at(
        bw,
        t.2,
        x,
        y,
        c,
    ) by {
        assert(s.px(x, y, c) == band_a_px(ar, edge, x, y, c));
        lemma_band_a_index(ar, edge, x, y, c);
    }
    lemma_px_eq(bw, bh, s.pixels@, t.2);
}

/// A bitmap whose pixels follow the mirrored band formula of the second
/// tile is that band.
proof fn lemma_is_band_b(b: Bitmap, s: Bitmap, edge: Edge)
    requires
        s.wf(),
        s.width as int == band_w(edge, b.width as int),
        s.height as int == band_h(edge, b.width as int),
        forall|x: int, y: int, c: int|
            0 <= x < s.width && 0 <= y < s.height && 0 <= c < 4 ==> s.px(x, y, c) == band_b_px(
                b.raster(),
                edge,
                x,
                y,
                c,
            ),
    ensures
        s.raster() == band_b(b.raster(), edge),
{
    let br = b.raster();
    let w = br.0 as int;
    let bw = band_w(edge, w);
    let bh = band_h(edge, w);
    let t = band_b(br, edge);
    assert forall|x: int, y: int, c: int|
        0 <= x < bw && 0 <= y < bh && 0 <= c < 4 implies px_at(bw, s.pixels@, x, y, c) == px_at(
        bw,
        t.2,
        x,
        y,
        c,
    ) by {
        assert(s.px(x, y, c) == band_b_px(br, edge, x, y, c));
        lemma_band_b_index(br, edge, x, y, c);
    }
    lemma_px_eq(bw, bh, s.pixels@, t.2);
}

/// Compares two decoded square tiles along `edge`: crops the band of the
/// first, crops and mirrors the opposite band of the second, and checks
/// whether the normalized similarity score reaches `num / den`.
pub fn compare_bitmaps(a: &Bitmap, b: &Bitmap, edge: Edge, threshold_num: u32, threshold_den: u32) -> (r:
    Result<bool, Error>)
    requires
        a.wf(),
        b.wf(),
    ensures
        r == compare_outcome(a.raster(), b.raster(), edge, threshold_num, threshold_den),
{
    if threshold_num == 0 || threshold_num >= threshold_den {
        return Err(Error::InvalidThreshold);
    }
    if a.width != a.height || b.width != b.height {
        return Err(Error::NotSquare);
    }
    if a.width != b.width {
        return Err(Error::SizeMismatch);
    }
    let w = a.width;
    let sw = w / 10;
    assert(sw <= w);
    let (s1, s2): (Bitmap, Bitmap) = match edge {
        Edge::Top => {
            let c1 = crop_top(a, sw);
            let c2 = crop_bottom(b, sw);
            let f2 = flip_horizontal(&c2);
            proof {
                lemma_is_band_a(*a, c1, Edge::Top);
                assert forall|x: int, y: int, c: int|
                    0 <= x < f2.width && 0 <= y < f2.height && 0 <= c < 4 implies f2.px(x, y, c)
                    == band_b_px(b.raster(), Edge::Top, x, y, c) by {
                    assert(f2.px(x, y, c) == c2.px(c2.width - 1 - x, y, c));
                    assert(c2.px(c2.width - 1 - x, y, c) == b.px(
                        c2.width - 1 - x,
                        b.height - c2.height + y,
                        c,
                    ));
                }
                lemma_is_band_b(*b, f2, Edge::Top);
            }
            (c1, f2)
        },
        Edge::Right => {
            let c1 = crop_right(a, sw);
            let c2 = crop_left(b, sw);
            let f2 = flip_vertical(&c2);
            proof {
                lemma_is_band_a(*a, c1, Edge::Right);
                assert forall|x: int, y: int, c: int|
                    0 <= x < f2.width && 0 <= y < f2.height && 0 <= c < 4 implies f2.px(x, y, c)
                    == band_b_px(b.raster(), Edge::Right, x, y, c) by {
                    assert(f2.px(x, y, c) == c2.px(x, c2.height - 1 - y, c));
                    assert(c2.px(x, c2.height - 1 - y, c) == b.px(x, c2.height - 1 - y, c));
                }
                lemma_is_band_b(*b, f2, Edge::Right);
            }
            (c1, f2)
        },
        Edge::Bottom => {
            let c1 = crop_bottom(a, sw);
            let c2 = crop_top(b, sw);
            let f2 = flip_horizontal(&c2);
            proof {
                lemma_is_band_a(*a, c1, Edge::Bottom);
                assert forall|x: int, y: int, c: int|
                    0 <= x < f2.width && 0 <= y < f2.height && 0 <= c < 4 implies f2.px(x, y, c)
                    == band_b_px(b.raster(), Edge::Bottom, x, y, c) by {
                    assert(f2.px(x, y, c) == c2.px(c2.width - 1 - x, y, c));
                    assert(c2.px(c2.width - 1 - x, y, c) == b.px(c2.width - 1 - x, y, c));
                }
                lemma_is_band_b(*b, f2, Edge::Bottom);
            }
            (c1, f2)
        },
        Edge::Left => {
            let c1 = crop_left(a, sw);
            let c2 = crop_right(b, sw);
            let f2 = flip_vertical(&c2);
            proof {
                lemma_is_band_a(*a, c1, Edge::Left);
                assert forall|x: int, y: int, c: int|
                    0 <= x < f2.width && 0 <= y < f2.height && 0 <= c < 4 implies f2.px(x, y, c)
                    == band_b_px(b.raster(), Edge::Left, x, y, c) by {
                    assert(f2.px(x, y, c) == c2.px(x, c2.height - 1 - y, c));
                    assert(c2.px(x, c2.height - 1 - y, c) == b.px(
                        b.width - c2.width + x,
                        c2.height - 1 - y,
                        c,
                    ));
                }
                lemma_is_band_b(*b, f2, Edge::Left);
            }
            (c1, f2)
        },
    };
    assert(s1.raster() == band_a(a.raster(), edge));
    assert(s2.raster() == band_b(b.raster(), edge));
    let diff = band_difference(&s1, &s2);
    let bw = s1.width;
    let bh = s1.height;
    proof {
        assert(1020 * (bw as int) * (bh as int) < u128::MAX) by (nonlinear_arith)
            requires
                0 <= (bw as int) && (bw as int) <= 0xffff_ffff,
                0 <= (bh as int) && (bh as int) <= 0xffff_ffff,
        ;
        lemma_diff_sum_bounds(s1.raster(), s2.raster(), bw as int * bh as int);
        assert(1020 * (bw as int * bh as int) == 1020 * (bw as int) * (bh as int))
            by (nonlinear_arith);
    }
    let max: u128 = 1020 * (bw as u128) * (bh as u128);
    proof {
        assert(max as int == max_band_diff(edge, a.raster().0 as int));
        assert(diff as int == seam_difference(a.raster(), b.raster(), edge));
    }
    if max == 0 {
        return Ok(false);
    }
    proof {
        assert((threshold_den as int) * ((max - diff) as int) < u128::MAX) by (nonlinear_arith)
            requires
                0 <= (threshold_den as int) && (threshold_den as int) <= 0xffff_ffff,
                0 <= ((max - diff) as int) && ((max - diff) as int) <= 1020 * 0xffff_ffff
                    * 0xffff_ffff,
        ;
        assert((threshold_num as int) * (max as int) < u128::MAX) by (nonlinear_arith)
            requires
                0 <= (threshold_num as int) && (threshold_num as int) <= 0xffff_ffff,
                0 <= (max as int) && (max as int) <= 1020 * 0xffff_ffff * 0xffff_ffff,
        ;
        assert((max as int) <= 1020 * 0xffff_ffff * 0xffff_ffff) by (nonlinear_arith)
            requires
                max as int == 1020 * (bw as int) * (bh as int),
                0 <= (bw as int) && (bw as int) <= 0xffff_ffff,
                0 <= (bh as int) && (bh as int) <= 0xffff_ffff,
        ;
    }
    let lhs: u128 = (threshold_den as u128) * (max - diff);
    let rhs: u128 = (threshold_num as u128) * max;
    Ok(lhs >= rhs)
}

/// Compares two encoded square tiles along the edge that `edge` codes:
/// decodes both, crops the matching seam bands, mirrors the second, and
/// checks whether the similarity score reaches the threshold `num / den`.
///
/// Unlike the edge aligner, an unrecognized edge code here is a constraint
/// violation, reported as an error.
pub fn compare_images(
    image1_data: &[u8],
    image2_data: &[u8],
    edge: u8,
    threshold_num: u32,
    threshold_den: u32,
) -> (r: Result<bool, Error>)
    ensures
        r == compare_images_outcome(
            image1_data@,
            image2_data@,
            edge,
            threshold_num,
            threshold_den,
        ),
{
    let e = match edge_from_scorer_code(edge) {
        Some(e) => e,
        None => {
            return Err(Error::InvalidEdge);
        },
    };
    if threshold_num == 0 || threshold_num >= threshold_den {
        return Err(Error::InvalidThreshold);
    }
    let a = match decode_bitmap(image1_data) {
        Ok(v) => v,
        Err(_) => {
            return Err(Error::DecodeFailed);
        },
    };
    let b = match decode_bitmap(image2_data) {
        Ok(v) => v,
        Err(_) => {
            return Err(Error::DecodeFailed);
        },
    };
    compare_bitmaps(&a, &b, e, threshold_num, threshold_den)
}

/// Law: the aggregate band difference never exceeds the theoretical
/// maximum, so the normalized similarity score always lies between zero and
/// one.
pub proof fn lemma_seam_difference_bounds(a: Raster, b: Raster, edge: Edge)
    ensures
        0 <= seam_difference(a, b, edge) <= max_band_diff(edge, a.0 as int),
{
    let w = a.0 as int;
    let bw = band_w(edge, w);
    let bh = band_h(edge, w);
    assert(bw * bh >= 0) by (nonlinear_arith)
        requires
            bw >= 0,
            bh >= 0,
    ;
    lemma_diff_sum_bounds(band_a(a, edge), band_b(b, edge), bw * bh);
    assert(1020 * (bw * bh) == 1020 * bw * bh) by (nonlinear_arith);
}

/// Law: when the scored band of one tile equals the mirrored opposite band
/// of the same tile — its opposite edges continue each other — the band
/// difference is zero, the similarity score is exactly one, and the
/// comparison with itself passes for every valid threshold.
pub proof fn lemma_identical_bands_pass(a: Raster, edge: Edge, num: u32, den: u32)
    requires
        0 < num < den,
        a.0 >= 10,
        forall|x: int, y: int, c: int|
            0 <= x < band_w(edge, a.0 as int) && 0 <= y < band_h(edge, a.0 as int) && 0 <= c < 4
                ==> band_a_px(a, edge, x, y, c) == band_b_px(a, edge, x, y, c),
    ensures
        seam_difference(a, a, edge) == 0,
        seam_passes(a, a, edge, num, den),
{
    let w = a.0 as int;
    let bw = band_w(edge, w);
    let bh = band_h(edge, w);
    assert(bw >= 1 && bh >= 1);
    assert(bw * bh * 4 >= 0 && bw * bh >= 1) by (nonlinear_arith)
        requires
            bw >= 1,
            bh >= 1,
    ;
    assert forall|x: int, y: int, c: int|
        0 <= x < bw && 0 <= y < bh && 0 <= c < 4 implies px_at(bw, band_a(a, edge).2, x, y, c)
        == px_at(bw, band_b(a, edge).2, x, y, c) by {
        lemma_band_a_index(a, edge, x, y, c);
        lemma_band_b_index(a, edge, x, y, c);
    }
    lemma_px_eq(bw, bh, band_a(a, edge).2, band_b(a, edge).2);
    assert(band_a(a, edge) == band_b(a, edge));
    lemma_diff_sum_self_zero(band_a(a, edge), bw * bh);
    assert(seam_difference(a, a, edge) == 0);
    let max = max_band_diff(edge, w);
    assert(max >= 1020) by (nonlinear_arith)
        requires
            max == 1020 * bw * bh,
            bw >= 1,
            bh >= 1,
    ;
    assert((den as int) * (max - 0) >= (num as int) * max) by (nonlinear_arith)
        requires
            (den as int) >= (num as int),
            max >= 0,
    ;
}

} // verus!
