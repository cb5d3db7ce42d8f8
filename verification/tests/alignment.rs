use image_grid::check_edge_alignment;
use image_grid::edge::edge_from_aligner_code;
use image_grid::edge::edge_from_scorer_code;
use image_grid::edge::Edge;
use image_grid::error::Error;

/// Encodes a raw RGBA8 buffer as PNG bytes.
fn png_bytes(w: u32, h: u32, pixels: Vec<u8>) -> Vec<u8> {
    let img = image::RgbaImage::from_raw(w, h, pixels).unwrap();
    let mut buf = Vec::new();
    let enc = image::codecs::png::PngEncoder::new(&mut buf);
    image::ImageEncoder::write_image(enc, img.as_raw(), w, h, image::ColorType::Rgba8).unwrap();
    buf
}

/// A solid-color image.
fn solid(w: u32, h: u32, rgba: [u8; 4]) -> Vec<u8> {
    let mut pixels = Vec::new();
    for _ in 0..(w * h) {
        pixels.extend_from_slice(&rgba);
    }
    png_bytes(w, h, pixels)
}

#[test]
fn solid_image_aligns_with_itself_exactly() {
    let a = solid(4, 4, [7, 99, 200, 255]);
    for edge in 0..4u8 {
        assert_eq!(check_edge_alignment(&a, &a, edge, 0), Ok(true));
    }
}

#[test]
fn alignment_respects_fuzziness_tolerance() {
    let a = solid(4, 4, [0, 0, 0, 255]);
    let b = solid(4, 4, [10, 10, 10, 255]);
    assert_eq!(check_edge_alignment(&a, &b, 1, 5), Ok(false));
    assert_eq!(check_edge_alignment(&a, &b, 1, 9), Ok(false));
    assert_eq!(check_edge_alignment(&a, &b, 1, 10), Ok(true));
    assert_eq!(check_edge_alignment(&a, &b, 1, 255), Ok(true));
}

#[test]
fn unrecognized_edge_code_returns_false_without_error() {
    let a = solid(4, 4, [1, 2, 3, 4]);
    assert_eq!(check_edge_alignment(&a, &a, 7, 0), Ok(false));
    assert_eq!(check_edge_alignment(&a, &a, 4, 255), Ok(false));
}

#[test]
fn alignment_compares_opposite_lines() {
    // A's bottom row and B's top row are black; B's bottom row is gray; the
    // rest is white. Edge code 2 (bottom of A against top of B) aligns
    // exactly; edge code 0 (top of A against bottom of B) pairs white with
    // gray and does not.
    let w = 3u32;
    let mut a_pixels = vec![255u8; (w * w * 4) as usize];
    let mut b_pixels = vec![255u8; (w * w * 4) as usize];
    for x in 0..w as usize {
        for c in 0..3 {
            a_pixels[(2 * w as usize + x) * 4 + c] = 0;
            b_pixels[x * 4 + c] = 0;
            b_pixels[(2 * w as usize + x) * 4 + c] = 128;
        }
    }
    let a = png_bytes(w, w, a_pixels);
    let b = png_bytes(w, w, b_pixels);
    assert_eq!(check_edge_alignment(&a, &b, 2, 0), Ok(true));
    assert_eq!(check_edge_alignment(&a, &b, 0, 0), Ok(false));
}

#[test]
fn alignment_clips_to_the_smaller_image() {
    // A 2x2 black square against a 4x4 black image: only the shared
    // 2x2 region is compared, so every edge aligns.
    let small = solid(2, 2, [0, 0, 0, 255]);
    let large = solid(4, 4, [0, 0, 0, 255]);
    for edge in 0..4u8 {
        assert_eq!(check_edge_alignment(&small, &large, edge, 0), Ok(true));
    }
}

#[test]
fn alignment_rejects_undecodable_bytes() {
    let a = solid(4, 4, [1, 2, 3, 4]);
    let garbage = vec![1u8, 2, 3, 4, 5];
    assert_eq!(check_edge_alignment(&garbage, &a, 0, 0), Err(Error::DecodeFailed));
    assert_eq!(check_edge_alignment(&a, &garbage, 0, 0), Err(Error::DecodeFailed));
}

#[test]
fn aligner_edge_codes_cover_zero_to_three() {
    assert_eq!(edge_from_aligner_code(0), Some(Edge::Top));
    assert_eq!(edge_from_aligner_code(1), Some(Edge::Right));
    assert_eq!(edge_from_aligner_code(2), Some(Edge::Bottom));
    assert_eq!(edge_from_aligner_code(3), Some(Edge::Left));
    assert_eq!(edge_from_aligner_code(4), None);
}

#[test]
fn scorer_edge_codes_skip_two() {
    assert_eq!(edge_from_scorer_code(0), Some(Edge::Top));
    assert_eq!(edge_from_scorer_code(1), Some(Edge::Right));
    assert_eq!(edge_from_scorer_code(2), None);
    assert_eq!(edge_from_scorer_code(3), Some(Edge::Bottom));
    assert_eq!(edge_from_scorer_code(4), Some(Edge::Left));
    assert_eq!(edge_from_scorer_code(5), None);
}
