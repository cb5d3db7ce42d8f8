use image_grid::compare_images;
use image_grid::error::Error;

/// Encodes a raw RGBA8 buffer as PNG bytes.
fn png_bytes(w: u32, h: u32, pixels: Vec<u8>) -> Vec<u8> {
    let img = image::RgbaImage::from_raw(w, h, pixels).unwrap();
    let mut buf = Vec::new();
    let enc = image::codecs::png::PngEncoder::new(&mut buf);
    image::ImageEncoder::write_image(enc, img.as_raw(), w, h, image::ColorType::Rgba8).unwrap();
    buf
}

/// A solid-color image.
fn solid(w: u32, h: u32, rgba: [u8; 4]) -> Vec<u8> {
    let mut pixels = Vec::new();
    for _ in 0..(w * h) {
        pixels.extend_from_slice(&rgba);
    }
    png_bytes(w, h, pixels)
}

#[test]
fn identical_solid_tiles_score_one() {
    // For a solid tile every band equals its mirrored opposite band, so the
    // score is exactly one and any threshold below one passes.
    let a = solid(10, 10, [40, 80, 120, 255]);
    for edge in [0u8, 1, 3, 4] {
        assert_eq!(compare_images(&a, &a, edge, 1, 2), Ok(true));
        assert_eq!(compare_images(&a, &a, edge, 999_999, 1_000_000), Ok(true));
    }
}

#[test]
fn identical_asymmetric_tile_does_not_score_one() {
    // Comparing a tile with itself crops its top band and its mirrored
    // bottom band; when those differ the score is below one.
    let w = 10u32;
    let mut pixels = vec![255u8; (w * w * 4) as usize];
    // top row: black on the left half only; bottom row: all white
    for x in 0..5usize {
        for c in 0..3 {
            pixels[x * 4 + c] = 0;
        }
    }
    let a = png_bytes(w, w, pixels);
    assert_eq!(compare_images(&a, &a, 0, 999_999, 1_000_000), Ok(false));
}

#[test]
fn similarity_score_is_exact() {
    // All-zero against all-51 samples: every channel differs by 51, so the
    // score is 1 - 51/255 = 4/5 on every edge.
    let a = solid(10, 10, [0, 0, 0, 0]);
    let b = solid(10, 10, [51, 51, 51, 51]);
    for edge in [0u8, 1, 3, 4] {
        assert_eq!(compare_images(&a, &b, edge, 4, 5), Ok(true));
        assert_eq!(compare_images(&a, &b, edge, 799, 1000), Ok(true));
        assert_eq!(compare_images(&a, &b, edge, 801, 1000), Ok(false));
    }
}

#[test]
fn maximally_different_tiles_score_zero() {
    let a = solid(10, 10, [0, 0, 0, 0]);
    let b = solid(10, 10, [255, 255, 255, 255]);
    for edge in [0u8, 1, 3, 4] {
        assert_eq!(compare_images(&a, &b, edge, 1, 1_000_000), Ok(false));
    }
}

#[test]
fn scored_band_is_the_mirrored_opposite_band() {
    // A's top row reads 0,1,2,...,9 in the red channel. B's bottom row holds
    // the left-right mirror of that row. With the mirror applied before
    // scoring, the bands match exactly and the score is one; B's unmirrored
    // bottom row would not match.
    let w = 10u32;
    let mut a_pixels = vec![0u8; (w * w * 4) as usize];
    let mut b_pixels = vec![0u8; (w * w * 4) as usize];
    for x in 0..w as usize {
        a_pixels[x * 4] = x as u8;
        b_pixels[(9 * w as usize + x) * 4] = (9 - x) as u8;
    }
    let a = png_bytes(w, w, a_pixels);
    let b = png_bytes(w, w, b_pixels);
    assert_eq!(compare_images(&a, &b, 0, 999_999, 1_000_000), Ok(true));

    // The same bottom row without the mirror scores below one.
    let mut b2_pixels = vec![0u8; (w * w * 4) as usize];
    for x in 0..w as usize {
        b2_pixels[(9 * w as usize + x) * 4] = x as u8;
    }
    let b2 = png_bytes(w, w, b2_pixels);
    assert_eq!(compare_images(&a, &b2, 0, 999_999, 1_000_000), Ok(false));
}

#[test]
fn mirrored_bands_match_on_every_edge_code() {
    // With a side of 10 the band is one pixel thick. For each edge code,
    // craft B so that the mirrored opposite band equals A's band exactly:
    // the score is one. A second tile without the mirror scores below one.
    let w = 10usize;
    let grad = |v: usize| (v * 10) as u8;

    // Edge 1 (right of A against left of B, B flipped top-bottom):
    // A(9, y) must equal B(0, 9 - y).
    let mut a = vec![0u8; w * w * 4];
    let mut b = vec![0u8; w * w * 4];
    let mut b_plain = vec![0u8; w * w * 4];
    for y in 0..w {
        a[(y * w + 9) * 4] = grad(y);
        b[(y * w) * 4] = grad(9 - y);
        b_plain[(y * w) * 4] = grad(y);
    }
    let pa = png_bytes(10, 10, a);
    let pb = png_bytes(10, 10, b);
    let pb_plain = png_bytes(10, 10, b_plain);
    assert_eq!(compare_images(&pa, &pb, 1, 999_999, 1_000_000), Ok(true));
    assert_eq!(compare_images(&pa, &pb_plain, 1, 999_999, 1_000_000), Ok(false));

    // Edge 3 (bottom of A against top of B, B flipped left-right):
    // A(x, 9) must equal B(9 - x, 0).
    let mut a = vec![0u8; w * w * 4];
    let mut b = vec![0u8; w * w * 4];
    for x in 0..w {
        a[(9 * w + x) * 4] = grad(x);
        b[x * 4] = grad(9 - x);
    }
    let pa = png_bytes(10, 10, a);
    let pb = png_bytes(10, 10, b);
    assert_eq!(compare_images(&pa, &pb, 3, 999_999, 1_000_000), Ok(true));

    // Edge 4 (left of A against right of B, B flipped top-bottom):
    // A(0, y) must equal B(9, 9 - y).
    let mut a = vec![0u8; w * w * 4];
    let mut b = vec![0u8; w * w * 4];
    for y in 0..w {
        a[(y * w) * 4] = grad(y);
        b[(y * w + 9) * 4] = grad(9 - y);
    }
    let pa = png_bytes(10, 10, a);
    let pb = png_bytes(10, 10, b);
    assert_eq!(compare_images(&pa, &pb, 4, 999_999, 1_000_000), Ok(true));
}

#[test]
fn thresholds_at_zero_or_one_are_rejected() {
    let a = solid(10, 10, [1, 2, 3, 4]);
    assert_eq!(compare_images(&a, &a, 0, 0, 10), Err(Error::InvalidThreshold));
    assert_eq!(compare_images(&a, &a, 0, 10, 10), Err(Error::InvalidThreshold));
    assert_eq!(compare_images(&a, &a, 0, 11, 10), Err(Error::InvalidThreshold));
}

#[test]
fn non_square_tiles_are_rejected() {
    let a = solid(10, 8, [1, 2, 3, 4]);
    let b = solid(10, 10, [1, 2, 3, 4]);
    assert_eq!(compare_images(&a, &b, 0, 1, 2), Err(Error::NotSquare));
    assert_eq!(compare_images(&b, &a, 0, 1, 2), Err(Error::NotSquare));
}

#[test]
fn mismatched_tile_sizes_are_rejected() {
    let a = solid(10, 10, [1, 2, 3, 4]);
    let b = solid(20, 20, [1, 2, 3, 4]);
    assert_eq!(compare_images(&a, &b, 0, 1, 2), Err(Error::SizeMismatch));
}

#[test]
fn unrecognized_scorer_edge_is_an_error() {
    let a = solid(10, 10, [1, 2, 3, 4]);
    assert_eq!(compare_images(&a, &a, 2, 1, 2), Err(Error::InvalidEdge));
    assert_eq!(compare_images(&a, &a, 5, 1, 2), Err(Error::InvalidEdge));
}

#[test]
fn undecodable_tiles_are_rejected() {
    let a = solid(10, 10, [1, 2, 3, 4]);
    let garbage = vec![9u8; 16];
    assert_eq!(compare_images(&garbage, &a, 0, 1, 2), Err(Error::DecodeFailed));
    assert_eq!(compare_images(&a, &garbage, 0, 1, 2), Err(Error::DecodeFailed));
}

#[test]
fn tiles_too_small_for_a_band_never_pass() {
    // Below ten pixels a side the ten-percent band is empty: there is no
    // defined score and the comparison reports false.
    let a = solid(5, 5, [1, 2, 3, 4]);
    assert_eq!(compare_images(&a, &a, 0, 1, 1_000_000), Ok(false));
}
