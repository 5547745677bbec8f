use oxide::buffer::PixelBuffer;
use oxide::buffer::clear_buffer;
use oxide::buffer::draw_pixel_to_buffer;
use oxide::frame::should_print_diagnostics;
use oxide::raster::draw_circle;
use oxide::raster::fill_rectangle;

#[test]
fn clear_paints_visible_pixels_and_skips_padding() {
    let mut b = PixelBuffer::new(4, 3, 6);
    clear_buffer(&mut b, 0xFF112233);
    for y in 0..3u32 {
        for x in 0..4u32 {
            assert_eq!(b.pixel_at(x, y), 0xFF112233);
        }
        for pad in 4..6usize {
            assert_eq!(b.pixels[y as usize * 6 + pad], 0);
        }
    }
}

#[test]
fn clear_twice_equals_clear_once() {
    let mut b = PixelBuffer::new(5, 4, 7);
    fill_rectangle(&mut b, 0, 0, 5, 4, 0xFFAA5511);
    clear_buffer(&mut b, 0x00000000);
    let after_once = b.pixels.clone();
    clear_buffer(&mut b, 0x00000000);
    assert_eq!(b.pixels, after_once);
}

#[test]
fn opaque_pixel_write_stores_the_source_color() {
    let mut b = PixelBuffer::new(4, 4, 4);
    clear_buffer(&mut b, 0xFF000000);
    draw_pixel_to_buffer(&mut b, 1, 2, 0xFFABCDEF);
    assert_eq!(b.pixel_at(1, 2), 0xFFABCDEF);
    assert_eq!(b.pixel_at(0, 0), 0xFF000000);
}

#[test]
fn transparent_pixel_write_changes_nothing() {
    let mut b = PixelBuffer::new(4, 4, 4);
    clear_buffer(&mut b, 0xFF336699);
    draw_pixel_to_buffer(&mut b, 2, 2, 0x00FF0000);
    assert_eq!(b.pixel_at(2, 2), 0xFF336699);
}

#[test]
fn half_transparent_write_mixes_channels_and_drops_alpha() {
    let mut b = PixelBuffer::new(2, 1, 2);
    clear_buffer(&mut b, 0xFF000000);
    // alpha 0x80 = 128: red becomes (0 * 127 + 255 * 128) / 255 = 128
    draw_pixel_to_buffer(&mut b, 0, 0, 0x80FF0000);
    assert_eq!(b.pixel_at(0, 0), 0x00800000);
}

#[test]
fn fill_rectangle_clamps_to_the_buffer() {
    let mut b = PixelBuffer::new(8, 8, 8);
    clear_buffer(&mut b, 0xFF000000);
    fill_rectangle(&mut b, 2, 3, 100, 5, 0xFF00FF00);
    for y in 0..8u32 {
        for x in 0..8u32 {
            let expected = if x >= 2 && y >= 3 && y < 5 { 0xFF00FF00 } else { 0xFF000000 };
            assert_eq!(b.pixel_at(x, y), expected);
        }
    }
}

#[test]
fn fill_rectangle_blends_translucent_color() {
    let mut b = PixelBuffer::new(3, 3, 3);
    clear_buffer(&mut b, 0xFF000000);
    // alpha 0x33 = 51: each covered channel becomes (0 * 204 + 255 * 51) / 255 = 51
    fill_rectangle(&mut b, 0, 0, 2, 2, 0x3300FFFF);
    assert_eq!(b.pixel_at(0, 0), 0x00003333);
    assert_eq!(b.pixel_at(2, 2), 0xFF000000);
}

#[test]
fn circle_that_would_leave_the_buffer_is_skipped() {
    let mut b = PixelBuffer::new(16, 16, 16);
    clear_buffer(&mut b, 0xFF000000);
    let before = b.pixels.clone();
    draw_circle(&mut b, 2, 2, 5, 0xFFFF0000);
    assert_eq!(b.pixels, before);
}

#[test]
fn circle_paints_inside_and_leaves_outside() {
    let mut b = PixelBuffer::new(32, 32, 32);
    clear_buffer(&mut b, 0xFF000000);
    draw_circle(&mut b, 16, 16, 5, 0xFFFF0000);
    // distance 0 and exactly 5: painted with the requested color
    assert_eq!(b.pixel_at(16, 16), 0xFFFF0000);
    assert_eq!(b.pixel_at(16, 11), 0xFFFF0000);
    assert_eq!(b.pixel_at(13, 12), 0xFFFF0000); // 3-4-5 triangle
    // distance 7, beyond radius + 1: untouched
    assert_eq!(b.pixel_at(16, 23), 0xFF000000);
    // squared distance 32 lies in the edge band (25, 36]: the distance is
    // sqrt(32) = 5.657, so alpha = trunc((1 - 0.657) * 255) = 87 and
    // red = (0 * 168 + 255 * 87) / 255 = 87
    assert_eq!(b.pixel_at(12, 20), 0x00570000);
    // distance 6 straight down lies outside the circle's bounding square,
    // which the edge band never leaves: untouched
    assert_eq!(b.pixel_at(16, 22), 0xFF000000);
}

#[test]
fn diagnostics_are_due_once_per_second() {
    assert!(should_print_diagnostics(0, 5));
    assert!(!should_print_diagnostics(1000, 1500));
    assert!(should_print_diagnostics(1000, 2000));
}

#[test]
fn empty_buffer_is_handled() {
    let mut b = PixelBuffer::new(0, 0, 0);
    clear_buffer(&mut b, 0xFFFFFFFF);
    fill_rectangle(&mut b, 0, 0, 10, 10, 0xFF00FF00);
    assert!(b.pixels.is_empty());
}

#[test]
fn zero_radius_circle_paints_only_its_center() {
    let mut b = PixelBuffer::new(8, 8, 8);
    clear_buffer(&mut b, 0xFF000000);
    draw_circle(&mut b, 4, 4, 0, 0xFFFFFFFF);
    assert_eq!(b.pixel_at(4, 4), 0xFFFFFFFF);
    // the neighbors lie outside the one-pixel bounding square, which the
    // clipped edge band never leaves: untouched
    assert_eq!(b.pixel_at(4, 5), 0xFF000000);
    assert_eq!(b.pixel_at(3, 4), 0xFF000000);
}

#[test]
fn circle_band_alpha_follows_the_fractional_overshoot() {
    let mut b = PixelBuffer::new(16, 16, 16);
    clear_buffer(&mut b, 0xFF000000);
    draw_circle(&mut b, 8, 8, 4, 0xFF00FF00);
    // the 3-4-5 pixel sits inside the bounding square at exact integer
    // distance radius + 1: zero fractional overshoot, fully opaque band
    assert_eq!(b.pixel_at(11, 12), 0xFF00FF00);
    // squared distance 20: the distance is sqrt(20) = 4.472, so
    // alpha = trunc((1 - 0.472) * 255) = 134 and
    // green = (0 * 121 + 255 * 134) / 255 = 134
    assert_eq!(b.pixel_at(12, 10), 0x00008600);
}
