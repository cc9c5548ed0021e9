use bingo_board::pixel::PixelBuffer;
use bingo_board::pixel::Rgb;
use bingo_board::raster::blend_glyph;
use bingo_board::raster::GlyphMask;

fn bg() -> Rgb {
    Rgb { r: 100, g: 100, b: 100 }
}

fn ink() -> Rgb {
    Rgb { r: 200, g: 40, b: 0 }
}

#[test]
fn full_coverage_paints_the_color() {
    let mut buf = PixelBuffer::new(4, 4, bg());
    let mask = GlyphMask { min_x: 1, min_y: 2, w: 1, h: 1, coverage: vec![255] };
    blend_glyph(&mut buf, &mask, 0, 0, ink());
    assert_eq!(buf.get_pixel(1, 2), ink());
    assert_eq!(buf.get_pixel(0, 0), bg());
    assert_eq!(buf.get_pixel(2, 2), bg());
}

#[test]
fn partial_coverage_blends_exactly() {
    let mut buf = PixelBuffer::new(2, 2, bg());
    let mask = GlyphMask { min_x: 0, min_y: 0, w: 1, h: 1, coverage: vec![128] };
    blend_glyph(&mut buf, &mask, 0, 0, ink());
    // (100*127 + 200*128) / 255 = 150, (100*127 + 40*128) / 255 = 69,
    // (100*127 + 0*128) / 255 = 49, each rounded down.
    assert_eq!(buf.get_pixel(0, 0), Rgb { r: 150, g: 69, b: 49 });
}

#[test]
fn coverage_below_threshold_paints_nothing() {
    let mut buf = PixelBuffer::new(2, 2, bg());
    let mask = GlyphMask { min_x: 0, min_y: 0, w: 2, h: 1, coverage: vec![12, 13] };
    blend_glyph(&mut buf, &mask, 0, 0, ink());
    assert_eq!(buf.get_pixel(0, 0), bg());
    assert_ne!(buf.get_pixel(1, 0), bg());
}

#[test]
fn mask_partly_outside_clips_safely() {
    // Box corner at (-1, -1): only its lower-right pixel lands in the buffer.
    let mut buf = PixelBuffer::new(3, 3, bg());
    let mask = GlyphMask {
        min_x: -1,
        min_y: -1,
        w: 2,
        h: 2,
        coverage: vec![255, 255, 255, 255],
    };
    blend_glyph(&mut buf, &mask, 0, 0, ink());
    assert_eq!(buf.get_pixel(0, 0), ink());
    assert_eq!(buf.get_pixel(1, 0), bg());
    assert_eq!(buf.get_pixel(0, 1), bg());
    assert_eq!(buf.get_pixel(1, 1), bg());
}

#[test]
fn mask_fully_outside_changes_nothing() {
    let mut buf = PixelBuffer::new(3, 3, bg());
    let mask = GlyphMask { min_x: 50, min_y: 50, w: 2, h: 2, coverage: vec![255; 4] };
    blend_glyph(&mut buf, &mask, 0, 0, ink());
    for x in 0..3u32 {
        for y in 0..3u32 {
            assert_eq!(buf.get_pixel(x, y), bg());
        }
    }
    // A box hanging past the right and bottom edges is clipped the same way.
    let mask2 = GlyphMask { min_x: 2, min_y: 2, w: 3, h: 3, coverage: vec![255; 9] };
    blend_glyph(&mut buf, &mask2, 0, 0, ink());
    assert_eq!(buf.get_pixel(2, 2), ink());
    assert_eq!(buf.get_pixel(1, 1), bg());
}

#[test]
fn buffer_new_fills_background() {
    let buf = PixelBuffer::new(5, 3, bg());
    assert_eq!(buf.width(), 5);
    assert_eq!(buf.height(), 3);
    for x in 0..5u32 {
        for y in 0..3u32 {
            assert_eq!(buf.get_pixel(x, y), bg());
        }
    }
}

#[test]
fn put_pixel_changes_only_its_target() {
    let mut buf = PixelBuffer::new(3, 3, bg());
    buf.put_pixel(1, 1, ink());
    for x in 0..3u32 {
        for y in 0..3u32 {
            if x == 1 && y == 1 {
                assert_eq!(buf.get_pixel(x, y), ink());
            } else {
                assert_eq!(buf.get_pixel(x, y), bg());
            }
        }
    }
}
