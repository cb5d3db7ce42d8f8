//! Composition of nine tiles into one 3x3 raster.
//!
//! The nine tiles are placed in row-major order: tile `i` goes to pixel
//! offset `((i % 3) * w, (i / 3) * w)`, where `w` is the shared tile side
//! length. Every tile pixel is copied verbatim; there is no blending at the
//! seams. The composite is then resampled to the requested square size and
//! encoded.

use vstd::prelude::*;

use vstd::arithmetic::div_mod::lemma_fundamental_div_mod;
use vstd::arithmetic::div_mod::lemma_mod_bound;

use crate::align::Raster;
use crate::bitmap::lemma_flat_index;
use crate::bitmap::px_at;
use crate::bitmap::Bitmap;
use crate::codec::decode_bitmap;
use crate::codec::decoded_image;
use crate::codec::encode_png;
use crate::codec::png_encoded;
use crate::codec::resample_bitmap;
use crate::codec::resample_fits;
use crate::codec::resampled;
use crate::error::Error;

verus! {

/// The rasters of a sequence of bitmaps.
pub open spec fn tile_rasters(ts: Seq<Bitmap>) -> Seq<Raster> {
    ts.map_values(|t: Bitmap| t.raster())
}

/// Nine tiles of one shared square size.
pub open spec fn tiles_ok(tiles: Seq<Raster>) -> bool {
    &&& tiles.len() == 9
    &&& forall|i: int|
        0 <= i < 9 ==> #[trigger] tiles[i].0 == tiles[0].0 && tiles[i].1 == tiles[0].0
}

/// The composite raster can be addressed: the tile side is positive and the
/// full 3x3 sample buffer fits in memory.
pub open spec fn grid_fits(w: int) -> bool {
    1 <= w && 36 * w * w <= usize::MAX
}

/// Channel `c` of composite pixel `(x, y)`: read from the tile of the 3x3
/// arrangement that covers the position.
pub open spec fn grid_px(tiles: Seq<Raster>, x: int, y: int, c: int) -> u8 {
    let w = tiles[0].0 as int;
    px_at(w, tiles[(y / w) * 3 + x / w].2, x % w, y % w, c)
}

/// The full sample buffer of the 3x3 composite.
pub open spec fn composite_pixels(tiles: Seq<Raster>) -> Seq<u8> {
    let w = tiles[0].0 as int;
    let gw = 3 * w;
    Seq::new(
        (gw * gw * 4) as nat,
        |j: int| grid_px(tiles, (j / 4) % gw, (j / 4) / gw, j % 4),
    )
}

/// Stitches nine equally sized square tiles into one 3x3 composite bitmap.
pub fn compose_grid(tiles: &Vec<Bitmap>) -> (r: Result<Bitmap, Error>)
    requires
        tiles@.len() == 9,
        forall|i: int| 0 <= i < 9 ==> (#[trigger] tiles@[i]).wf(),
    ensures
        match r {
            Ok(g) => {
                &&& tiles_ok(tile_rasters(tiles@))
                &&& grid_fits(tiles@[0].width as int)
                &&& g.width == 3 * tiles@[0].width
                &&& g.height == 3 * tiles@[0].width
                &&& g.wf()
                &&& g.pixels@ == composite_pixels(tile_rasters(tiles@))
            },
            Err(e) => {
                ||| (e == Error::SizeMismatch && !tiles_ok(tile_rasters(tiles@)))
                ||| (e == Error::InvalidSize && tiles_ok(tile_rasters(tiles@)) && !grid_fits(
                    tiles@[0].width as int,
                ))
            },
        },
{
    let w = tiles[0].width;
    let mut i: usize = 0;
    while i < 9
        invariant
            tiles@.len() == 9,
            w == tiles@[0].width,
            i <= 9,
            forall|k: int|
                0 <= k < i ==> (#[trigger] tiles@[k]).width == w && tiles@[k].height == w,
        decreases 9 - i,
    {
        if tiles[i].width != w || tiles[i].height != w {
            proof {
                assert(tile_rasters(tiles@)[i as int] == tiles@[i as int].raster());
                assert(tile_rasters(tiles@)[0] == tiles@[0].raster());
                assert(tile_rasters(tiles@)[i as int].0 == tiles@[i as int].width);
                assert(tile_rasters(tiles@)[i as int].1 == tiles@[i as int].height);
                assert(tile_rasters(tiles@)[0].0 == tiles@[0].width);
                assert(!tiles_ok(tile_rasters(tiles@)));
            }
            return Err(Error::SizeMismatch);
        }
        i = i + 1;
    }
    proof {
        assert forall|k: int| 0 <= k < 9 implies #[trigger] tile_rasters(tiles@)[k].0 == tile_rasters(
            tiles@,
        )[0].0 && tile_rasters(tiles@)[k].1 == tile_rasters(tiles@)[0].0 by {
            assert(tile_rasters(tiles@)[k] == tiles@[k].raster());
            assert(tile_rasters(tiles@)[0] == tiles@[0].raster());
        }
        assert(tiles_ok(tile_rasters(tiles@)));
    }
    if w == 0 {
        return Err(Error::InvalidSize);
    }
    proof {
        assert(36 * (w as int) * (w as int) < u128::MAX) by (nonlinear_arith)
            requires
                0 <= (w as int) && (w as int) <= 0xffff_ffff,
        ;
    }
    let need: u128 = 36 * (w as u128) * (w as u128);
    if need > (usize::MAX as u128) {
        return Err(Error::InvalidSize);
    }
    proof {
        assert((w as int) <= 715827882) by (nonlinear_arith)
            requires
                36 * (w as int) * (w as int) <= 0xffff_ffff_ffff_ffff,
                0 <= (w as int),
        ;
    }
    let gw: u32 = 3 * w;
    let ghost trs = tile_rasters(tiles@);
    let mut pixels: Vec<u8> = Vec::new();
    let mut y: u32 = 0;
    while y < gw
        invariant
            tiles@.len() == 9,
            forall|k: int| 0 <= k < 9 ==> (#[trigger] tiles@[k]).wf(),
            forall|k: int|
                0 <= k < 9 ==> #[trigger] tiles@[k].width == w && tiles@[k].height == w,
            trs == tile_rasters(tiles@),
            1 <= w,
            gw == 3 * w,
            y <= gw,
            pixels@.len() == y * gw * 4,
            forall|j: int|
                0 <= j < pixels@.len() ==> pixels@[j] == grid_px(
                    trs,
                    ((j / 4) % (gw as int)),
                    ((j / 4) / (gw as int)),
                    j % 4,
                ),
        decreases gw - y,
    {
        let mut x: u32 = 0;
        while x < gw
            invariant
                tiles@.len() == 9,
                forall|k: int| 0 <= k < 9 ==> (#[trigger] tiles@[k]).wf(),
                forall|k: int|
                    0 <= k < 9 ==> #[trigger] tiles@[k].width == w && tiles@[k].height == w,
                trs == tile_rasters(tiles@),
                1 <= w,
                gw == 3 * w,
                y < gw,
                x <= gw,
                pixels@.len() == y * gw * 4 + x * 4,
                forall|j: int|
                    0 <= j < pixels@.len() ==> pixels@[j] == grid_px(
                        trs,
                        ((j / 4) % (gw as int)),
                        ((j / 4) / (gw as int)),
                        j % 4,
                    ),
            decreases gw - x,
        {
            proof {
                lemma_flat_index(gw as int, gw as int, x as int, y as int, 0);
                lemma_flat_index(gw as int, gw as int, x as int, y as int, 1);
                lemma_flat_index(gw as int, gw as int, x as int, y as int, 2);
                lemma_flat_index(gw as int, gw as int, x as int, y as int, 3);
                lemma_fundamental_div_mod(x as int, w as int);
                lemma_mod_bound(x as int, w as int);
                lemma_fundamental_div_mod(y as int, w as int);
                lemma_mod_bound(y as int, w as int);
                assert((x as int) / (w as int) < 3 && (y as int) / (w as int) < 3)
                    by (nonlinear_arith)
                    requires
                        1 <= (w as int),
                        0 <= (x as int) && (x as int) < 3 * (w as int),
                        0 <= (y as int) && (y as int) < 3 * (w as int),
                        x as int == (w as int) * ((x as int) / (w as int)) + (x as int) % (
                        w as int),
                        y as int == (w as int) * ((y as int) / (w as int)) + (y as int) % (
                        w as int),
                        0 <= (x as int) % (w as int),
                        0 <= (y as int) % (w as int),
                ;
                assert((x as int) / (w as int) >= 0 && (y as int) / (w as int) >= 0)
                    by (nonlinear_arith)
                    requires
                        1 <= (w as int),
                        0 <= (x as int),
                        0 <= (y as int),
                        x as int == (w as int) * ((x as int) / (w as int)) + (x as int) % (
                        w as int),
                        y as int == (w as int) * ((y as int) / (w as int)) + (y as int) % (
                        w as int),
                        (x as int) % (w as int) < (w as int),
                        (y as int) % (w as int) < (w as int),
                ;
            }
            let ti: usize = ((y / w) * 3 + x / w) as usize;
            let xm: u32 = x % w;
            let ym: u32 = y % w;
            assert(trs[ti as int] == tiles@[ti as int].raster());
            pixels.push(tiles[ti].channel(xm, ym, 0));
            pixels.push(tiles[ti].channel(xm, ym, 1));
            pixels.push(tiles[ti].channel(xm, ym, 2));
            pixels.push(tiles[ti].channel(xm, ym, 3));
            x = x + 1;
        }
        proof {
            assert((y as int + 1) * gw as int * 4 == y as int * gw as int * 4 + gw as int * 4)
                by (nonlinear_arith);
        }
        y = y + 1;
    }
    let g = Bitmap { width: gw, height: gw, pixels };
    proof {
        assert(g.pixels@.len() == (gw as int) * (gw as int) * 4);
        assert(g.pixels@ =~= composite_pixels(trs));
    }
    Ok(g)
}

/// The nine encoded tile sources, in row-major order.
pub open spec fn grid_sources(
    s0: Seq<u8>,
    s1: Seq<u8>,
    s2: Seq<u8>,
    s3: Seq<u8>,
    s4: Seq<u8>,
    s5: Seq<u8>,
    s6: Seq<u8>,
    s7: Seq<u8>,
    s8: Seq<u8>,
) -> Seq<Seq<u8>> {
    seq![s0, s1, s2, s3, s4, s5, s6, s7, s8]
}

/// Every source byte stream decodes to a raster.
pub open spec fn all_sources_decode(srcs: Seq<Seq<u8>>) -> bool {
    forall|i: int| 0 <= i < srcs.len() ==> (#[trigger] decoded_image(srcs[i])) is Some
}

/// The rasters the sources decode to.
pub open spec fn decoded_tiles(srcs: Seq<Seq<u8>>) -> Seq<Raster> {
    Seq::new(srcs.len(), |i: int| decoded_image(srcs[i])->Some_0)
}

/// What a successful grid composition returns: the PNG encoding of the 3x3
/// composite of the decoded tiles, resampled to `width` by `width`. When no
/// resampling is needed the output encodes the composite itself, verbatim.
pub open spec fn grid_outcome_ok(srcs: Seq<Seq<u8>>, width: u32, out: Seq<u8>) -> bool {
    let tiles = decoded_tiles(srcs);
    let w = tiles[0].0 as int;
    let gw = 3 * w;
    &&& all_sources_decode(srcs)
    &&& tiles_ok(tiles)
    &&& grid_fits(w)
    &&& width >= 1
    &&& resample_fits(gw, gw, width as int, width as int)
    &&& out == png_encoded(
        width,
        width,
        resampled(gw as u32, gw as u32, composite_pixels(tiles), width, width),
    )
    &&& decoded_image(out) == Some(
        (width, width, resampled(gw as u32, gw as u32, composite_pixels(tiles), width, width)),
    )
    &&& (width as int == gw ==> out == png_encoded(width, width, composite_pixels(tiles)))
    &&& (width as int == gw ==> decoded_image(out) == Some(
        (width, width, composite_pixels(tiles)),
    ))
}

/// Which failure each grid error reports.
pub open spec fn grid_error_cause(srcs: Seq<Seq<u8>>, width: u32, e: Error) -> bool {
    let tiles = decoded_tiles(srcs);
    let w = tiles[0].0 as int;
    let gw = 3 * w;
    ||| (e == Error::DecodeFailed && !all_sources_decode(srcs))
    ||| (e == Error::SizeMismatch && all_sources_decode(srcs) && !tiles_ok(tiles))
    ||| (e == Error::InvalidSize && all_sources_decode(srcs) && tiles_ok(tiles) && !(grid_fits(w)
        && width >= 1 && resample_fits(gw, gw, width as int, width as int)))
}

/// Decodes nine encoded tiles, stitches them into a 3x3 composite in
/// row-major order, resamples the composite to `width` by `width` and
/// encodes the result as a PNG byte stream.
pub fn create_image_grid(
    top_left: &[u8],
    top_middle: &[u8],
    top_right: &[u8],
    middle_left: &[u8],
    middle: &[u8],
    middle_right: &[u8],
    bottom_left: &[u8],
    bottom_middle: &[u8],
    bottom_right: &[u8],
    width: u32,
) -> (r: Result<Vec<u8>, Error>)
    ensures
        match r {
            Ok(v) => grid_outcome_ok(
                grid_sources(
                    top_left@,
                    top_middle@,
                    top_right@,
                    middle_left@,
                    middle@,
                    middle_right@,
                    bottom_left@,
                    bottom_middle@,
                    bottom_right@,
                ),
                width,
                v@,
            ),
            Err(e) => grid_error_cause(
                grid_sources(
                    top_left@,
                    top_middle@,
                    top_right@,
                    middle_left@,
                    middle@,
                    middle_right@,
                    bottom_left@,
                    bottom_middle@,
                    bottom_right@,
                ),
                width,
                e,
            ),
        },
{
    let ghost srcs = grid_sources(
        top_left@,
        top_middle@,
        top_right@,
        middle_left@,
        middle@,
        middle_right@,
        bottom_left@,
        bottom_middle@,
        bottom_right@,
    );
    let t0 = match decode_bitmap(top_left) {
        Ok(t) => t,
        Err(e) => {
            return Err(e);
        },
    };
    let t1 = match decode_bitmap(top_middle) {
        Ok(t) => t,
        Err(e) => {
            return Err(e);
        },
    };
    let t2 = match decode_bitmap(top_right) {
        Ok(t) => t,
        Err(e) => {
            return Err(e);
        },
    };
    let t3 = match decode_bitmap(middle_left) {
        Ok(t) => t,
        Err(e) => {
            return Err(e);
        },
    };
    let t4 = match decode_bitmap(middle) {
        Ok(t) => t,
        Err(e) => {
            return Err(e);
        },
    };
    let t5 = match decode_bitmap(middle_right) {
        Ok(t) => t,
        Err(e) => {
            return Err(e);
        },
    };
    let t6 = match decode_bitmap(bottom_left) {
        Ok(t) => t,
        Err(e) => {
            return Err(e);
        },
    };
    let t7 = match decode_bitmap(bottom_middle) {
        Ok(t) => t,
        Err(e) => {
            return Err(e);
        },
    };
    let t8 = match decode_bitmap(bottom_right) {
        Ok(t) => t,
        Err(e) => {
            return Err(e);
        },
    };
    let mut tiles: Vec<Bitmap> = Vec::new();
    tiles.push(t0);
    tiles.push(t1);
    tiles.push(t2);
    tiles.push(t3);
    tiles.push(t4);
    tiles.push(t5);
    tiles.push(t6);
    tiles.push(t7);
    tiles.push(t8);
    proof {
        assert(all_sources_decode(srcs));
        assert(decoded_tiles(srcs).len() == 9);
        assert forall|i: int| 0 <= i < 9 implies tile_rasters(tiles@)[i] == decoded_tiles(srcs)[i] by {
            assert(tile_rasters(tiles@)[i] == tiles@[i].raster());
        }
        assert(tile_rasters(tiles@) =~= decoded_tiles(srcs));
    }
    let g = match compose_grid(&tiles) {
        Ok(g) => g,
        Err(e) => {
            return Err(e);
        },
    };
    if width == 0 {
        return Err(Error::InvalidSize);
    }
    proof {
        assert((g.width as int) * (width as int) * 16 < u128::MAX) by (nonlinear_arith)
            requires
                0 <= (g.width as int) && (g.width as int) <= 0xffff_ffff,
                0 <= (width as int) && (width as int) <= 0xffff_ffff,
        ;
        assert((width as int) * (width as int) * 16 < u128::MAX) by (nonlinear_arith)
            requires
                0 <= (width as int) && (width as int) <= 0xffff_ffff,
        ;
    }
    let p1: u128 = (g.width as u128) * (width as u128) * 16;
    let p2: u128 = (width as u128) * (width as u128) * 16;
    if p1 > (usize::MAX as u128) || p2 > (usize::MAX as u128) {
        return Err(Error::InvalidSize);
    }
    let rg = resample_bitmap(&g, width, width);
    Ok(encode_png(&rg))
}

} // verus!
