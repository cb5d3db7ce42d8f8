use image_grid::bitmap::Bitmap;
use image_grid::create_image_grid;
use image_grid::error::Error;
use image_grid::resize_image;

/// Encodes a raw RGBA8 buffer as PNG bytes.
fn png_bytes(w: u32, h: u32, pixels: Vec<u8>) -> Vec<u8> {
    let img = image::RgbaImage::from_raw(w, h, pixels).unwrap();
    let mut buf = Vec::new();
    let enc = image::codecs::png::PngEncoder::new(&mut buf);
    image::ImageEncoder::write_image(enc, img.as_raw(), w, h, image::ColorType::Rgba8).unwrap();
    buf
}

/// Decodes PNG bytes back to (width, height, RGBA8 samples).
fn decode(bytes: &[u8]) -> (u32, u32, Vec<u8>) {
    let img = image::load_from_memory(bytes).unwrap().to_rgba8();
    let (w, h) = img.dimensions();
    (w, h, img.into_raw())
}

/// A solid-color image.
fn solid(w: u32, h: u32, rgba: [u8; 4]) -> Vec<u8> {
    let mut pixels = Vec::new();
    for _ in 0..(w * h) {
        pixels.extend_from_slice(&rgba);
    }
    png_bytes(w, h, pixels)
}

/// An asymmetric 2x2 tile: four distinct pixels.
fn four_color_tile() -> Vec<u8> {
    let pixels = vec![
        255, 0, 0, 255, // (0,0) red
        0, 255, 0, 255, // (1,0) green
        0, 0, 255, 255, // (0,1) blue
        255, 255, 255, 255, // (1,1) white
    ];
    png_bytes(2, 2, pixels)
}

#[test]
fn grid_of_nine_identical_tiles_without_resampling() {
    // Nine 2x2 tiles at target width 6: 3 * 2 = 6, so no resampling takes
    // place and every 2x2 block of the composite equals the tile exactly.
    let t = four_color_tile();
    let out = create_image_grid(&t, &t, &t, &t, &t, &t, &t, &t, &t, 6).unwrap();
    let (w, h, pixels) = decode(&out);
    assert_eq!((w, h), (6, 6));
    let tile = decode(&t).2;
    for y in 0..6usize {
        for x in 0..6usize {
            for c in 0..4usize {
                let got = pixels[(y * 6 + x) * 4 + c];
                let want = tile[((y % 2) * 2 + (x % 2)) * 4 + c];
                assert_eq!(got, want, "pixel ({x},{y}) channel {c}");
            }
        }
    }
}

#[test]
fn grid_places_distinct_tiles_in_row_major_order() {
    // Nine solid 2x2 tiles with distinct red values 0..9: block (col, row)
    // of the composite holds the value of tile row * 3 + col.
    let tiles: Vec<Vec<u8>> = (0..9u8).map(|i| solid(2, 2, [i * 10, 0, 0, 255])).collect();
    let out = create_image_grid(
        &tiles[0], &tiles[1], &tiles[2], &tiles[3], &tiles[4], &tiles[5], &tiles[6], &tiles[7],
        &tiles[8], 6,
    )
    .unwrap();
    let (w, h, pixels) = decode(&out);
    assert_eq!((w, h), (6, 6));
    for y in 0..6usize {
        for x in 0..6usize {
            let tile_index = (y / 2) * 3 + x / 2;
            assert_eq!(pixels[(y * 6 + x) * 4], tile_index as u8 * 10);
        }
    }
}

#[test]
fn grid_rejects_mismatched_tile_sizes() {
    let t = solid(2, 2, [1, 2, 3, 4]);
    let odd = solid(3, 3, [1, 2, 3, 4]);
    assert_eq!(
        create_image_grid(&t, &t, &t, &t, &odd, &t, &t, &t, &t, 6),
        Err(Error::SizeMismatch)
    );
}

#[test]
fn grid_rejects_non_square_tiles() {
    let t = solid(2, 3, [1, 2, 3, 4]);
    assert_eq!(
        create_image_grid(&t, &t, &t, &t, &t, &t, &t, &t, &t, 6),
        Err(Error::SizeMismatch)
    );
}

#[test]
fn grid_rejects_undecodable_tiles() {
    let t = solid(2, 2, [1, 2, 3, 4]);
    let garbage = vec![0u8; 10];
    assert_eq!(
        create_image_grid(&t, &t, &t, &t, &t, &t, &t, &t, &garbage, 6),
        Err(Error::DecodeFailed)
    );
}

#[test]
fn grid_rejects_zero_target_width() {
    let t = solid(2, 2, [1, 2, 3, 4]);
    assert_eq!(
        create_image_grid(&t, &t, &t, &t, &t, &t, &t, &t, &t, 0),
        Err(Error::InvalidSize)
    );
}

#[test]
fn grid_resamples_to_the_requested_width() {
    let t = solid(2, 2, [10, 20, 30, 255]);
    let out = create_image_grid(&t, &t, &t, &t, &t, &t, &t, &t, &t, 9).unwrap();
    let (w, h, _) = decode(&out);
    assert_eq!((w, h), (9, 9));
}

#[test]
fn resize_solid_tile_keeps_its_color() {
    // Resampling a constant field changes no color: the 2x2 result of a
    // solid 4x4 tile holds the same color everywhere.
    let a = solid(4, 4, [10, 20, 30, 255]);
    let out = resize_image(&a, 2).unwrap();
    let (w, h, pixels) = decode(&out);
    assert_eq!((w, h), (2, 2));
    for p in 0..4usize {
        assert_eq!(&pixels[p * 4..p * 4 + 4], &[10, 20, 30, 255]);
    }
}

#[test]
fn resize_to_same_size_returns_the_same_bytes() {
    // A source already at the target size is copied, not resampled, and the
    // encoder is deterministic: the output bytes equal the input bytes.
    let pixels: Vec<u8> = (0..3 * 3 * 4).map(|i| (i * 7 % 256) as u8).collect();
    let a = png_bytes(3, 3, pixels.clone());
    let out = resize_image(&a, 3).unwrap();
    assert_eq!(out, a);
    let (w, h, decoded) = decode(&out);
    assert_eq!((w, h), (3, 3));
    assert_eq!(decoded, pixels);
}

#[test]
fn resize_twice_is_idempotent() {
    let pixels: Vec<u8> = (0..4 * 4 * 4).map(|i| (i * 13 % 256) as u8).collect();
    let a = png_bytes(4, 4, pixels);
    let once = resize_image(&a, 2).unwrap();
    let twice = resize_image(&once, 2).unwrap();
    assert_eq!(twice, once);
}

#[test]
fn resize_rejects_zero_width_and_bad_bytes() {
    let a = solid(4, 4, [1, 2, 3, 4]);
    assert_eq!(resize_image(&a, 0), Err(Error::InvalidSize));
    assert_eq!(resize_image(&[1u8, 2, 3], 2), Err(Error::DecodeFailed));
}

#[test]
fn bitmap_construction_checks_the_buffer_length() {
    let ok = Bitmap::new(2, 2, vec![0u8; 16]);
    assert!(ok.is_ok());
    let bad = Bitmap::new(2, 2, vec![0u8; 15]);
    assert_eq!(bad.err(), Some(Error::InvalidSize));
}
