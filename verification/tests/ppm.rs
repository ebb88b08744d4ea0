use motoreel::ppm::{fill_background, frame_byte_len, ppm_header, raster_header, Tile};
use motoreel::Rgb;

#[test]
fn the_header_is_magic_dimensions_and_maxval() {
    assert_eq!(ppm_header(4, 2), b"P6\n4 2\n255\n".to_vec());
    assert_eq!(ppm_header(1920, 1080), b"P6\n1920 1080\n255\n".to_vec());
    assert_eq!(ppm_header(7, 3), b"P6\n7 3\n255\n".to_vec());
    assert_eq!(
        ppm_header(u32::MAX, 0),
        b"P6\n4294967295 0\n255\n".to_vec()
    );
}

#[test]
fn the_frame_length_is_w_h_3() {
    for size in [(1u32, 1u32), (4, 2), (64, 36), (321, 17), (1920, 1080)] {
        assert_eq!(
            frame_byte_len(size),
            Some(size.0 as usize * size.1 as usize * 3),
            "{size:?}"
        );
    }
    assert_eq!(frame_byte_len((0, 5)), Some(0));
    let widest = u32::MAX as u128 * u32::MAX as u128 * 3;
    if widest > usize::MAX as u128 {
        assert_eq!(frame_byte_len((u32::MAX, u32::MAX)), None, "no overflow, no panic");
    }
}

#[test]
fn a_frame_too_large_for_memory_is_refused() {
    let big = (100_000u32, 100_000u32);
    let bytes = 100_000u64 * 100_000 * 3;
    if bytes > usize::MAX as u64 {
        assert_eq!(frame_byte_len(big), None);
    } else {
        assert_eq!(frame_byte_len(big), Some(bytes as usize));
    }
}

#[test]
fn clearing_refills_every_pixel_with_the_background() {
    let mut px = vec![9u8; 4 * 2 * 3];
    fill_background(&mut px, Rgb::black());
    assert!(px.iter().all(|&b| b == 0));
    let mut px = vec![0u8; 7];
    fill_background(&mut px, Rgb { r: 1, g: 2, b: 3 });
    assert_eq!(px, vec![1, 2, 3, 1, 2, 3, 0], "a partial pixel is untouched");
}

#[test]
fn white_and_black_are_the_extremes() {
    assert_eq!(Rgb::white(), Rgb { r: 255, g: 255, b: 255 });
    assert_eq!(Rgb::black(), Rgb { r: 0, g: 0, b: 0 });
}

#[test]
fn clipping_clamps_to_the_canvas() {
    let t = Tile::clip(-5, -3, 10, 4, (8, 6)).unwrap();
    assert_eq!((t.x0, t.y0, t.x1, t.y1), (0, 0, 8, 4));
    assert_eq!(Tile::clip(9, 0, 20, 4, (8, 6)), None, "entirely off-canvas");
    assert_eq!(Tile::clip(3, 3, 3, 5, (8, 6)), None, "zero width");
    assert_eq!(Tile::clip(5, 1, 2, 4, (8, 6)), None, "inverted");
}

#[test]
fn intersecting_keeps_the_common_part() {
    let a = Tile::new(0, 0, 10, 10).unwrap();
    let b = Tile::new(5, 2, 20, 8).unwrap();
    let m = a.intersect(Some(b)).unwrap();
    assert_eq!((m.x0, m.y0, m.x1, m.y1), (5, 2, 10, 8));
    assert_eq!(b.intersect(Some(a)), Some(m), "order does not matter");
    assert_eq!(a.intersect(None), None);
    let far = Tile::new(10, 0, 12, 10).unwrap();
    assert_eq!(a.intersect(Some(far)), None, "touching edges share no pixel");
}

#[test]
fn area_and_offset_index_the_tile_row_major() {
    let t = Tile::new(2, 3, 6, 5).unwrap();
    assert_eq!(t.area(), 8);
    assert_eq!(t.offset(2, 3), 0);
    assert_eq!(t.offset(5, 3), 3);
    assert_eq!(t.offset(2, 4), 4);
    assert_eq!(t.offset(5, 4), 7);
    let mut seen = vec![false; t.area()];
    for y in t.y0..t.y1 {
        for x in t.x0..t.x1 {
            let o = t.offset(x, y);
            assert!(!seen[o], "offset {o} used twice");
            seen[o] = true;
        }
    }
    assert!(seen.iter().all(|&s| s));
}

#[test]
fn an_empty_rectangle_is_not_a_tile() {
    assert_eq!(Tile::new(1, 1, 1, 2), None);
    assert_eq!(Tile::new(1, 1, 2, 1), None);
    assert!(Tile::new(1, 1, 2, 2).is_some());
}

fn header_for(size: (u32, u32)) -> Vec<u8> {
    format!("P6\n{} {}\n255\n", size.0, size.1).into_bytes()
}

/// A whole frame file's bytes for an empty frame on black.
fn empty_frame(size: (u32, u32)) -> Vec<u8> {
    let mut pixels = vec![7u8; frame_byte_len(size).expect("fits")];
    fill_background(&mut pixels, Rgb::black());
    let mut out = ppm_header(size.0, size.1);
    out.extend(pixels);
    out
}

#[test]
fn ac1_empty_frame_is_header_plus_background_bytes() {
    let got = empty_frame((4, 2));
    let mut want = b"P6\n4 2\n255\n".to_vec();
    want.extend(std::iter::repeat_n(0u8, 4 * 2 * 3));
    assert!(got == want, "an empty 4x2 frame must be header + 24 zero bytes; got {} bytes", got.len());
}

#[test]
fn ac1_header_text_is_exact_for_several_sizes() {
    for size in [(1920, 1080), (7, 3)] {
        let got = empty_frame(size);
        let want = header_for(size);
        assert_eq!(&got[..want.len()], &want[..], "header for {size:?} must be P6, dimensions, maxval");
    }
}

#[test]
fn ac1_file_length_is_header_plus_w_h_3() {
    for size in [(1u32, 1u32), (4, 2), (64, 36), (321, 17)] {
        let got = empty_frame(size);
        let want = header_for(size).len() + size.0 as usize * size.1 as usize * 3;
        assert_eq!(got.len(), want, "file length for {size:?}");
    }
}

#[test]
fn a_zero_raster_dimension_has_no_header() {
    assert_eq!(raster_header((0, 36)), None);
    assert_eq!(raster_header((64, 0)), None);
    assert_eq!(raster_header((0, 0)), None);
    assert_eq!(raster_header((64, 36)), Some(b"P6\n64 36\n255\n".to_vec()));
}
