//! Exact and fuzzy edge-alignment checking between two tiles.
//!
//! Two opposing one-pixel-wide lines are walked in lockstep: one line of the
//! first tile and the geometrically opposite line of the second. The tiles
//! align when every paired sample agrees within the per-channel tolerance.

use vstd::prelude::*;

use crate::bitmap::px_at;
use crate::bitmap::Bitmap;
use crate::codec::decode_bitmap;
use crate::codec::decoded_image;
use crate::edge::aligner_edge;
use crate::edge::edge_from_aligner_code;
use crate::edge::Edge;
use crate::error::Error;

verus! {

/// A decoded raster as plain values: width, height and the row-major RGBA8
/// sample buffer. This is the shape `decoded_image` yields.
pub type Raster = (u32, u32, Seq<u8>);

/// The absolute difference of two channel samples.
pub open spec fn abs_diff(a: u8, b: u8) -> int {
    if a >= b {
        a - b
    } else {
        b - a
    }
}

/// Two channel samples agree within the per-channel tolerance.
pub open spec fn channels_similar(a: u8, b: u8, fuzziness: u8) -> bool {
    abs_diff(a, b) <= fuzziness
}

/// The width of the region the comparison may touch: the smaller of the two
/// widths; excess columns of the larger raster are ignored.
pub open spec fn scan_width(a: Raster, b: Raster) -> int {
    if a.0 <= b.0 {
        a.0 as int
    } else {
        b.0 as int
    }
}

/// The height of the region the comparison may touch: the smaller of the two
/// heights; excess rows of the larger raster are ignored.
pub open spec fn scan_height(a: Raster, b: Raster) -> int {
    if a.1 <= b.1 {
        a.1 as int
    } else {
        b.1 as int
    }
}

/// How many pixel pairs the scan of `edge` visits: one per column for a
/// horizontal edge, one per row for a vertical one.
pub open spec fn line_len(edge: Edge, w: int, h: int) -> int {
    match edge {
        Edge::Top => w,
        Edge::Right => h,
        Edge::Bottom => w,
        Edge::Left => h,
    }
}

/// Column read from the first raster for pair `i` of the scan of `edge`.
pub open spec fn pair_a_x(edge: Edge, i: int, w: int, h: int) -> int {
    match edge {
        Edge::Top => i,
        Edge::Right => w - 1,
        Edge::Bottom => i,
        Edge::Left => 0,
    }
}

/// Row read from the first raster for pair `i` of the scan of `edge`.
pub open spec fn pair_a_y(edge: Edge, i: int, w: int, h: int) -> int {
    match edge {
        Edge::Top => 0,
        Edge::Right => i,
        Edge::Bottom => h - 1,
        Edge::Left => i,
    }
}

/// Column read from the second raster for pair `i` of the scan of `edge`.
pub open spec fn pair_b_x(edge: Edge, i: int, w: int, h: int) -> int {
    match edge {
        Edge::Top => i,
        Edge::Right => 0,
        Edge::Bottom => i,
        Edge::Left => w - 1,
    }
}

/// Row read from the second raster for pair `i` of the scan of `edge`.
pub open spec fn pair_b_y(edge: Edge, i: int, w: int, h: int) -> int {
    match edge {
        Edge::Top => h - 1,
        Edge::Right => i,
        Edge::Bottom => 0,
        Edge::Left => i,
    }
}

/// Pixel pair `i` of the scan of `edge` agrees on all four channels within
/// the tolerance.
pub open spec fn pair_similar(a: Raster, b: Raster, edge: Edge, i: int, fuzziness: u8) -> bool {
    let w = scan_width(a, b);
    let h = scan_height(a, b);
    forall|c: int|
        0 <= c < 4 ==> channels_similar(
            px_at(a.0 as int, a.2, pair_a_x(edge, i, w, h), pair_a_y(edge, i, w, h), c),
            px_at(b.0 as int, b.2, pair_b_x(edge, i, w, h), pair_b_y(edge, i, w, h), c),
            fuzziness,
        )
}

/// The two rasters align along `edge` within `fuzziness`: every pixel pair
/// along the scanned line is similar. When the clipped region is empty there
/// is nothing to compare and the rasters align vacuously.
pub open spec fn edge_aligned(a: Raster, b: Raster, edge: Edge, fuzziness: u8) -> bool {
    let w = scan_width(a, b);
    let h = scan_height(a, b);
    if w == 0 || h == 0 {
        true
    } else {
        forall|i: int| 0 <= i < line_len(edge, w, h) ==> pair_similar(a, b, edge, i, fuzziness)
    }
}

/// Whether two channel samples differ by at most `fuzziness`.
fn similar_channel(a: u8, b: u8, fuzziness: u8) -> (r: bool)
    ensures
        r == channels_similar(a, b, fuzziness),
{
    let d: u8 = if a >= b {
        a - b
    } else {
        b - a
    };
    d <= fuzziness
}

/// Checks whether two decoded tiles align along `edge` within `fuzziness`.
pub fn edge_aligned_bitmaps(a: &Bitmap, b: &Bitmap, edge: Edge, fuzziness: u8) -> (r: bool)
    requires
        a.wf(),
        b.wf(),
    ensures
        r == edge_aligned(a.raster(), b.raster(), edge, fuzziness),
{
    let w: u32 = if a.width <= b.width {
        a.width
    } else {
        b.width
    };
    let h: u32 = if a.height <= b.height {
        a.height
    } else {
        b.height
    };
    if w == 0 || h == 0 {
        return true;
    }
    let n: u32 = match edge {
        Edge::Top => w,
        Edge::Right => h,
        Edge::Bottom => w,
        Edge::Left => h,
    };
    let mut i: u32 = 0;
    while i < n
        invariant
            a.wf(),
            b.wf(),
            1 <= w <= a.width,
            w <= b.width,
            1 <= h <= a.height,
            h <= b.height,
            w as int == scan_width(a.raster(), b.raster()),
            h as int == scan_height(a.raster(), b.raster()),
            n as int == line_len(edge, w as int, h as int),
            i <= n,
            forall|j: int| 0 <= j < i ==> pair_similar(a.raster(), b.raster(), edge, j, fuzziness),
        decreases n - i,
    {
        let (ax, ay, bx, by): (u32, u32, u32, u32) = match edge {
            Edge::Top => (i, 0, i, h - 1),
            Edge::Right => (w - 1, i, 0, i),
            Edge::Bottom => (i, h - 1, i, 0),
            Edge::Left => (0, i, w - 1, i),
        };
        assert(ax as int == pair_a_x(edge, i as int, w as int, h as int));
        assert(ay as int == pair_a_y(edge, i as int, w as int, h as int));
        assert(bx as int == pair_b_x(edge, i as int, w as int, h as int));
        assert(by as int == pair_b_y(edge, i as int, w as int, h as int));
        let s0 = similar_channel(a.channel(ax, ay, 0), b.channel(bx, by, 0), fuzziness);
        let s1 = similar_channel(a.channel(ax, ay, 1), b.channel(bx, by, 1), fuzziness);
        let s2 = similar_channel(a.channel(ax, ay, 2), b.channel(bx, by, 2), fuzziness);
        let s3 = similar_channel(a.channel(ax, ay, 3), b.channel(bx, by, 3), fuzziness);
        if s0 && s1 && s2 && s3 {
            assert forall|c: int| 0 <= c < 4 implies channels_similar(
                px_at(
                    a.width as int,
                    a.pixels@,
                    pair_a_x(edge, i as int, w as int, h as int),
                    pair_a_y(edge, i as int, w as int, h as int),
                    c,
                ),
                px_at(
                    b.width as int,
                    b.pixels@,
                    pair_b_x(edge, i as int, w as int, h as int),
                    pair_b_y(edge, i as int, w as int, h as int),
                    c,
                ),
                fuzziness,
            ) by {
                if c == 0 {
                } else if c == 1 {
                } else if c == 2 {
                } else {
                    assert(c == 3);
                }
            }
            assert(pair_similar(a.raster(), b.raster(), edge, i as int, fuzziness));
        } else {
            let ghost cw: int = if !s0 {
                0
            } else if !s1 {
                1
            } else if !s2 {
                2
            } else {
                3
            };
            let ghost ar = a.raster();
            let ghost br = b.raster();
            let ghost sw = scan_width(ar, br);
            let ghost sh = scan_height(ar, br);
            assert(!channels_similar(
                px_at(
                    ar.0 as int,
                    ar.2,
                    pair_a_x(edge, i as int, sw, sh),
                    pair_a_y(edge, i as int, sw, sh),
                    cw,
                ),
                px_at(
                    br.0 as int,
                    br.2,
                    pair_b_x(edge, i as int, sw, sh),
                    pair_b_y(edge, i as int, sw, sh),
                    cw,
                ),
                fuzziness,
            ));
            assert(!pair_similar(ar, br, edge, i as int, fuzziness));
            return false;
        }
        i = i + 1;
    }
    true
}

/// Checks whether two encoded tiles align along the edge that `edge` codes,
/// within the per-channel tolerance `fuzziness`.
///
/// An unrecognized edge code yields `Ok(false)` rather than an error: the
/// boundary is deliberately permissive here. Bytes that do not decode yield
/// a decoding error.
pub fn check_edge_alignment(
    image1_data: &[u8],
    image2_data: &[u8],
    edge: u8,
    fuzziness: u8,
) -> (r: Result<bool, Error>)
    ensures
        match r {
            Ok(v) => {
                &&& decoded_image(image1_data@) is Some
                &&& decoded_image(image2_data@) is Some
                &&& match aligner_edge(edge) {
                    Some(e) => v == edge_aligned(
                        decoded_image(image1_data@)->Some_0,
                        decoded_image(image2_data@)->Some_0,
                        e,
                        fuzziness,
                    ),
                    None => v == false,
                }
            },
            Err(e) => e == Error::DecodeFailed && (decoded_image(image1_data@) is None
                || decoded_image(image2_data@) is None),
        },
{
    let a = match decode_bitmap(image1_data) {
        Ok(b) => b,
        Err(e) => {
            return Err(e);
        },
    };
    let b = match decode_bitmap(image2_data) {
        Ok(b) => b,
        Err(e) => {
            return Err(e);
        },
    };
    match edge_from_aligner_code(edge) {
        Some(e) => Ok(edge_aligned_bitmaps(&a, &b, e, fuzziness)),
        None => Ok(false),
    }
}

/// Law: edge alignment is monotone in the tolerance. Raising the fuzziness
/// can only turn a misaligned pair into an aligned one, never the reverse.
pub proof fn lemma_edge_aligned_monotone(a: Raster, b: Raster, edge: Edge, f1: u8, f2: u8)
    requires
        f1 <= f2,
        edge_aligned(a, b, edge, f1),
    ensures
        edge_aligned(a, b, edge, f2),
{
    let w = scan_width(a, b);
    let h = scan_height(a, b);
    if w == 0 || h == 0 {
    } else {
        assert forall|i: int| 0 <= i < line_len(edge, w, h) implies pair_similar(
            a,
            b,
            edge,
            i,
            f2,
        ) by {
            assert(pair_similar(a, b, edge, i, f1));
            assert forall|c: int| 0 <= c < 4 implies channels_similar(
                px_at(a.0 as int, a.2, pair_a_x(edge, i, w, h), pair_a_y(edge, i, w, h), c),
                px_at(b.0 as int, b.2, pair_b_x(edge, i, w, h), pair_b_y(edge, i, w, h), c),
                f2,
            ) by {
                assert(channels_similar(
                    px_at(a.0 as int, a.2, pair_a_x(edge, i, w, h), pair_a_y(edge, i, w, h), c),
                    px_at(b.0 as int, b.2, pair_b_x(edge, i, w, h), pair_b_y(edge, i, w, h), c),
                    f1,
                ));
            }
        }
    }
}

/// Law: a raster aligns with itself at zero tolerance along any edge whose
/// two paired lines hold the same samples (the degenerate self-test).
pub proof fn lemma_edge_aligned_self(a: Raster, edge: Edge)
    requires
        forall|i: int, c: int|
            0 <= i < line_len(edge, scan_width(a, a), scan_height(a, a)) && 0 <= c < 4
                ==> px_at(
                a.0 as int,
                a.2,
                pair_a_x(edge, i, scan_width(a, a), scan_height(a, a)),
                pair_a_y(edge, i, scan_width(a, a), scan_height(a, a)),
                c,
            ) == px_at(
                a.0 as int,
                a.2,
                pair_b_x(edge, i, scan_width(a, a), scan_height(a, a)),
                pair_b_y(edge, i, scan_width(a, a), scan_height(a, a)),
                c,
            ),
    ensures
        edge_aligned(a, a, edge, 0),
{
    let w = scan_width(a, a);
    let h = scan_height(a, a);
    if w == 0 || h == 0 {
    } else {
        assert forall|i: int| 0 <= i < line_len(edge, w, h) implies pair_similar(
            a,
            a,
            edge,
            i,
            0,
        ) by {
            assert forall|c: int| 0 <= c < 4 implies channels_similar(
                px_at(a.0 as int, a.2, pair_a_x(edge, i, w, h), pair_a_y(edge, i, w, h), c),
                px_at(a.0 as int, a.2, pair_b_x(edge, i, w, h), pair_b_y(edge, i, w, h), c),
                0,
            ) by {
                assert(px_at(a.0 as int, a.2, pair_a_x(edge, i, w, h), pair_a_y(edge, i, w, h), c)
                    == px_at(
                    a.0 as int,
                    a.2,
                    pair_b_x(edge, i, w, h),
                    pair_b_y(edge, i, w, h),
                    c,
                ));
            }
        }
    }
}

} // verus!
