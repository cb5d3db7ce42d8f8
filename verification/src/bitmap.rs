//! Decoded RGBA8 raster images.

use vstd::prelude::*;

use vstd::arithmetic::div_mod::lemma_fundamental_div_mod;
use vstd::arithmetic::div_mod::lemma_fundamental_div_mod_converse;
use vstd::arithmetic::div_mod::lemma_mod_bound;

use crate::error::Error;

verus! {

/// Channel `c` of the pixel at column `x`, row `y` of a row-major RGBA8
/// sample buffer whose rows are `width` pixels wide.
pub open spec fn px_at(width: int, pixels: Seq<u8>, x: int, y: int, c: int) -> u8 {
    pixels[(y * width + x) * 4 + c]
}

/// The flat sample index of coordinates `(x, y, c)` lies in bounds and
/// decomposes back into those coordinates.
pub proof fn lemma_flat_index(w: int, h: int, x: int, y: int, c: int)
    requires
        0 <= x < w,
        0 <= y < h,
        0 <= c < 4,
    ensures
        0 <= (y * w + x) * 4 + c < w * h * 4,
        ((y * w + x) * 4 + c) / 4 == y * w + x,
        ((y * w + x) * 4 + c) % 4 == c,
        (y * w + x) / w == y,
        (y * w + x) % w == x,
{
    assert((y * w + x) * 4 + c < w * h * 4 && y * w + x >= 0) by (nonlinear_arith)
        requires
            0 <= x < w,
            0 <= y < h,
            0 <= c < 4,
    ;
    lemma_fundamental_div_mod_converse((y * w + x) * 4 + c, 4, y * w + x, c);
    lemma_fundamental_div_mod_converse(y * w + x, w, y, x);
}

/// A flat sample index decomposes into pixel coordinates and a channel.
pub proof fn lemma_flat_coords(w: int, h: int, j: int)
    requires
        0 <= j < w * h * 4,
        0 < w,
        0 < h,
    ensures
        0 <= j % 4 < 4,
        0 <= (j / 4) % w < w,
        0 <= (j / 4) / w < h,
        j == ((((j / 4) / w) * w + (j / 4) % w) * 4) + j % 4,
{
    lemma_fundamental_div_mod(j, 4);
    lemma_mod_bound(j, 4);
    assert(4 * (j / 4) <= j);
    assert(j / 4 < w * h);
    lemma_fundamental_div_mod(j / 4, w);
    lemma_mod_bound(j / 4, w);
    assert((j / 4) / w < h) by (nonlinear_arith)
        requires
            0 < w,
            j / 4 < w * h,
            j / 4 == w * ((j / 4) / w) + (j / 4) % w,
            0 <= (j / 4) % w,
    ;
    assert((j / 4) / w >= 0) by (nonlinear_arith)
        requires
            0 < w,
            0 <= j / 4,
            j / 4 == w * ((j / 4) / w) + (j / 4) % w,
            (j / 4) % w < w,
    ;
    assert(w * ((j / 4) / w) == ((j / 4) / w) * w) by (nonlinear_arith);
    assert(j / 4 == ((j / 4) / w) * w + (j / 4) % w);
    assert(j == 4 * (j / 4) + j % 4);
}

/// Two sample buffers of the same dimensions that agree on every pixel
/// channel are equal.
pub proof fn lemma_px_eq(w: int, h: int, p1: Seq<u8>, p2: Seq<u8>)
    requires
        p1.len() == w * h * 4,
        p2.len() == w * h * 4,
        0 <= w,
        0 <= h,
        forall|x: int, y: int, c: int|
            0 <= x < w && 0 <= y < h && 0 <= c < 4 ==> px_at(w, p1, x, y, c) == px_at(
                w,
                p2,
                x,
                y,
                c,
            ),
    ensures
        p1 == p2,
{
    if w == 0 || h == 0 {
        assert(w * h * 4 == 0) by (nonlinear_arith)
            requires
                w == 0 || h == 0,
        ;
        assert(p1 =~= p2);
    } else {
        assert forall|j: int| 0 <= j < p1.len() implies p1[j] == p2[j] by {
            lemma_flat_coords(w, h, j);
            let c = j % 4;
            let x = (j / 4) % w;
            let y = (j / 4) / w;
            assert(px_at(w, p1, x, y, c) == px_at(w, p2, x, y, c));
        }
        assert(p1 =~= p2);
    }
}

/// A decoded raster image: `width * height` pixels in row-major order,
/// four 8-bit channels (red, green, blue, alpha) per pixel.
pub struct Bitmap {
    pub width: u32,
    pub height: u32,
    pub pixels: Vec<u8>,
}

impl Bitmap {
    /// The pixel buffer holds exactly four samples for every pixel.
    pub open spec fn wf(self) -> bool {
        self.pixels@.len() == self.width as int * self.height as int * 4
    }

    /// The bitmap as plain values: width, height and the sample sequence.
    pub open spec fn raster(self) -> (u32, u32, Seq<u8>) {
        (self.width, self.height, self.pixels@)
    }

    /// Channel `c` of the pixel at column `x`, row `y`.
    pub open spec fn px(self, x: int, y: int, c: int) -> u8 {
        px_at(self.width as int, self.pixels@, x, y, c)
    }

    /// Builds a bitmap from raw parts, rejecting a pixel buffer whose length
    /// does not match the dimensions.
    pub fn new(width: u32, height: u32, pixels: Vec<u8>) -> (r: Result<Bitmap, Error>)
        ensures
            match r {
                Ok(b) => b.width == width && b.height == height && b.pixels@ == pixels@
                    && b.wf(),
                Err(e) => e == Error::InvalidSize
                    && pixels@.len() != width as int * height as int * 4,
            },
    {
        proof {
            assert(width as int * height as int * 4 <= 0xffff_ffff * 0xffff_ffff * 4)
                by (nonlinear_arith)
                requires
                    width as int <= 0xffff_ffff,
                    height as int <= 0xffff_ffff,
                    width as int >= 0,
                    height as int >= 0;
        }
        let expected: u128 = width as u128 * height as u128 * 4;
        if pixels.len() as u128 == expected {
            Ok(Bitmap { width, height, pixels })
        } else {
            Err(Error::InvalidSize)
        }
    }

    /// Reads channel `c` of the pixel at column `x`, row `y`.
    pub fn channel(&self, x: u32, y: u32, c: u32) -> (r: u8)
        requires
            self.wf(),
            x < self.width,
            y < self.height,
            c < 4,
        ensures
            r == self.px(x as int, y as int, c as int),
    {
        let len: usize = self.pixels.len();
        proof {
            assert(((y as int * self.width as int + x as int) * 4 + (c as int))
                < self.width as int * self.height as int * 4) by (nonlinear_arith)
                requires
                    (x as int) < (self.width as int),
                    (y as int) < (self.height as int),
                    (c as int) < 4,
                    x as int >= 0,
                    y as int >= 0,
                    c as int >= 0,
                    self.width as int >= 0,
                    self.height as int >= 0;
            assert(y as int * self.width as int >= 0) by (nonlinear_arith)
                requires y as int >= 0, self.width as int >= 0;
        }
        let idx: usize = ((y as usize) * (self.width as usize) + (x as usize)) * 4 + (c as usize);
        self.pixels[idx]
    }
}

} // verus!
