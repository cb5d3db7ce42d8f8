//! Trusted boundary to the external image codec and resampler.
//!
//! Decoding compressed bytes, encoding a raster to PNG and windowed-sinc
//! resampling are delegated to the `image` crate. Each operation is a pure
//! function of its arguments; the spec functions below name those results so
//! that verified callers can state exact contracts about them.

use vstd::prelude::*;

use crate::bitmap::Bitmap;
use crate::error::Error;

verus! {

/// The raster that decoding a byte stream yields: `None` when the bytes are
/// not a valid image, otherwise the width, height and row-major RGBA8
/// samples of the decoded image.
pub uninterp spec fn decoded_image(bytes: Seq<u8>) -> Option<(u32, u32, Seq<u8>)>;

/// The PNG byte stream that encodes an RGBA8 raster of the given dimensions.
pub uninterp spec fn png_encoded(width: u32, height: u32, pixels: Seq<u8>) -> Seq<u8>;

/// The row-major RGBA8 samples produced by resampling a raster to the given
/// target dimensions with the fixed high-quality (Lanczos-class) filter.
pub uninterp spec fn resampled(
    width: u32,
    height: u32,
    pixels: Seq<u8>,
    new_width: u32,
    new_height: u32,
) -> Seq<u8>;

/// The resampler can address its source rows, its intermediate buffer and
/// its target raster: every involved buffer fits in memory.
pub open spec fn resample_fits(sw: int, sh: int, tw: int, th: int) -> bool {
    sw * th * 16 <= usize::MAX && tw * th * 16 <= usize::MAX
}

/// Relies on `image::io::Reader` with content-based format guessing (the
/// same guess `load_from_memory` makes) and with all decode limits
/// disabled, plus `DynamicImage::to_rgba8`: whether the bytes decode, and
/// to what, depends on the bytes alone — no size cap can fail an otherwise
/// valid image — and the RGBA8 conversion keeps the decoded dimensions and
/// returns a buffer of exactly `width * height * 4` samples in row-major
/// order.
#[verifier::external_body]
pub(crate) fn decode_bitmap(data: &[u8]) -> (r: Result<Bitmap, Error>)
    ensures
        match r {
            Ok(b) => b.wf() && decoded_image(data@) == Some((b.width, b.height, b.pixels@)),
            Err(e) => e == Error::DecodeFailed && decoded_image(data@) is None,
        },
{
    let mut reader = match image::io::Reader::new(std::io::Cursor::new(data))
        .with_guessed_format()
    {
        Ok(r) => r,
        Err(_) => return Err(Error::DecodeFailed),
    };
    reader.no_limits();
    match reader.decode() {
        Ok(img) => {
            let buf = img.to_rgba8();
            let (width, height) = (buf.width(), buf.height());
            Ok(Bitmap { width, height, pixels: buf.into_raw() })
        },
        Err(_) => Err(Error::DecodeFailed),
    }
}

/// Relies on `PngEncoder::write_image`: encoding an RGBA8 buffer whose
/// length matches the stated dimensions is a pure function of dimensions
/// and samples, and it cannot fail here — the PNG header check rejects only
/// zero dimensions and unsupported color/bit-depth combinations, the data
/// path checks only the buffer length, and all writes go to an in-memory
/// `Vec`. PNG is a lossless format and decoding applies no limits, so
/// decoding the produced stream yields the same dimensions and samples
/// back.
#[verifier::external_body]
pub(crate) fn encode_png(b: &Bitmap) -> (r: Vec<u8>)
    requires
        b.wf(),
        b.width >= 1,
        b.height >= 1,
    ensures
        r@ == png_encoded(b.width, b.height, b.pixels@),
        decoded_image(r@) == Some((b.width, b.height, b.pixels@)),
{
    let mut buf = Vec::new();
    let enc = image::codecs::png::PngEncoder::new(&mut buf);
    image::ImageEncoder::write_image(enc, &b.pixels, b.width, b.height, image::ColorType::Rgba8)
        .unwrap();
    buf
}

/// Relies on `image::imageops::resize` with `FilterType::Lanczos3`: the
/// result is a pure function of the source raster and the target dimensions,
/// it has exactly the target dimensions, and when the target dimensions
/// equal the source dimensions the source pixels are copied verbatim
/// instead of resampled.
#[verifier::external_body]
pub(crate) fn resample_bitmap(b: &Bitmap, new_width: u32, new_height: u32) -> (r: Bitmap)
    requires
        b.wf(),
        b.width >= 1,
        b.height >= 1,
        new_width >= 1,
        new_height >= 1,
        b.width as int * new_height as int * 16 <= usize::MAX as int,
        new_width as int * new_height as int * 16 <= usize::MAX as int,
    ensures
        r.width == new_width,
        r.height == new_height,
        r.wf(),
        r.pixels@ == resampled(b.width, b.height, b.pixels@, new_width, new_height),
        new_width == b.width && new_height == b.height ==> r.pixels@ == b.pixels@,
{
    let img = image::RgbaImage::from_raw(b.width, b.height, b.pixels.clone()).unwrap();
    let out = image::imageops::resize(
        &img,
        new_width,
        new_height,
        image::imageops::FilterType::Lanczos3,
    );
    Bitmap { width: new_width, height: new_height, pixels: out.into_raw() }
}

} // verus!
