//! Resampling of a single tile to a square target size.
//!
//! A thin pass through the external resampler: the decoded tile is
//! resampled to `width` by `width` with the same filter family the grid
//! compositor uses, then encoded as a PNG byte stream. No aspect ratio is
//! preserved; the result is always square.

use vstd::prelude::*;

use crate::codec::decode_bitmap;
use crate::codec::decoded_image;
use crate::codec::encode_png;
use crate::codec::png_encoded;
use crate::codec::resample_bitmap;
use crate::codec::resample_fits;
use crate::codec::resampled;
use crate::error::Error;

verus! {

/// The decoded source and the target size can be resampled: every
/// dimension is positive and the involved buffers fit in memory.
pub open spec fn source_ok(d: (u32, u32, Seq<u8>), width: u32) -> bool {
    &&& width >= 1
    &&& d.0 >= 1
    &&& d.1 >= 1
    &&& resample_fits(d.0 as int, d.1 as int, width as int, width as int)
}

/// The samples of the source raster resampled to `width` by `width`.
pub open spec fn resized_pixels(d: (u32, u32, Seq<u8>), width: u32) -> Seq<u8> {
    resampled(d.0, d.1, d.2, width, width)
}

/// Decodes a tile, resamples it to `width` by `width` and encodes the
/// result as a PNG byte stream.
///
/// A source that is already `width` by `width` is passed through the
/// resampler unchanged, so resizing the output again to the same width
/// gives the output back: the operation is idempotent.
pub fn resize_image(image_data: &[u8], width: u32) -> (r: Result<Vec<u8>, Error>)
    ensures
        match r {
            Ok(v) => {
                &&& decoded_image(image_data@) is Some
                &&& source_ok(decoded_image(image_data@)->Some_0, width)
                &&& v@ == png_encoded(
                    width,
                    width,
                    resized_pixels(decoded_image(image_data@)->Some_0, width),
                )
                &&& decoded_image(v@) == Some(
                    (width, width, resized_pixels(decoded_image(image_data@)->Some_0, width)),
                )
                &&& (decoded_image(image_data@)->Some_0.0 == width && decoded_image(
                    image_data@,
                )->Some_0.1 == width ==> v@ == png_encoded(
                    width,
                    width,
                    decoded_image(image_data@)->Some_0.2,
                ))
                &&& (decoded_image(image_data@)->Some_0.0 == width && decoded_image(
                    image_data@,
                )->Some_0.1 == width && image_data@ == png_encoded(
                    width,
                    width,
                    decoded_image(image_data@)->Some_0.2,
                ) ==> v@ == image_data@)
            },
            Err(e) => {
                ||| (e == Error::DecodeFailed && decoded_image(image_data@) is None)
                ||| (e == Error::InvalidSize && decoded_image(image_data@) is Some && !source_ok(
                    decoded_image(image_data@)->Some_0,
                    width,
                ))
            },
        },
{
    let b = match decode_bitmap(image_data) {
        Ok(b) => b,
        Err(e) => {
            return Err(e);
        },
    };
    if width == 0 || b.width == 0 || b.height == 0 {
        return Err(Error::InvalidSize);
    }
    proof {
        assert((b.width as int) * (width as int) * 16 < u128::MAX) by (nonlinear_arith)
            requires
                0 <= (b.width as int) && (b.width as int) <= 0xffff_ffff,
                0 <= (width as int) && (width as int) <= 0xffff_ffff,
        ;
        assert((width as int) * (width as int) * 16 < u128::MAX) by (nonlinear_arith)
            requires
                0 <= (width as int) && (width as int) <= 0xffff_ffff,
        ;
    }
    let p1: u128 = (b.width as u128) * (width as u128) * 16;
    let p2: u128 = (width as u128) * (width as u128) * 16;
    if p1 > (usize::MAX as u128) || p2 > (usize::MAX as u128) {
        return Err(Error::InvalidSize);
    }
    let rb = resample_bitmap(&b, width, width);
    Ok(encode_png(&rb))
}

} // verus!
