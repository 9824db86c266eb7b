use glyph_mosaic::Rgb;
use glyph_mosaic::buffer::PixelBuffer;
use glyph_mosaic::sampler::{average_brightness, average_color};

#[test]
fn average_color_of_uniform_tile_is_its_fill() {
    let c = Rgb::new(10, 20, 30);
    let buf = PixelBuffer::create(4, 3, c);
    assert_eq!(average_color(&buf, 0, 0, 4, 3), c);
    assert_eq!(average_color(&buf, 1, 1, 2, 2), c);
}

#[test]
fn average_brightness_of_uniform_tile_replicates_weighted_mean() {
    // (2 * 100 + 3 * 150 + 200) / 6 = 850 / 6 = 141, floor-divided.
    let buf = PixelBuffer::create(2, 2, Rgb::new(100, 150, 200));
    let b = average_brightness(&buf, 0, 0, 2, 2);
    assert_eq!(b, Rgb::new(141, 141, 141));
    // Pure white stays white: (2 + 3 + 1) * 255 / 6 = 255.
    let white = PixelBuffer::create(2, 2, Rgb::new(255, 255, 255));
    assert_eq!(average_brightness(&white, 0, 0, 2, 2), Rgb::new(255, 255, 255));
}

#[test]
fn average_color_truncates_the_mean() {
    let mut buf = PixelBuffer::create(2, 1, Rgb::new(0, 0, 0));
    buf.set_pixel(0, 0, Rgb::new(1, 10, 255));
    buf.set_pixel(1, 0, Rgb::new(2, 13, 0));
    // Means: 3/2 = 1, 23/2 = 11, 255/2 = 127, each truncated.
    assert_eq!(average_color(&buf, 0, 0, 2, 1), Rgb::new(1, 11, 127));
}

#[test]
fn average_color_reads_only_its_window() {
    let mut buf = PixelBuffer::create(3, 1, Rgb::new(0, 0, 0));
    buf.set_pixel(0, 0, Rgb::new(255, 255, 255));
    buf.set_pixel(1, 0, Rgb::new(40, 50, 60));
    buf.set_pixel(2, 0, Rgb::new(42, 52, 62));
    assert_eq!(average_color(&buf, 1, 0, 2, 1), Rgb::new(41, 51, 61));
}
