use glyph_mosaic::Rgb;
use glyph_mosaic::buffer::PixelBuffer;

#[test]
fn create_fills_uniformly() {
    let red = Rgb::new(200, 10, 10);
    let buf = PixelBuffer::create(3, 2, red);
    assert_eq!(buf.width, 3);
    assert_eq!(buf.height, 2);
    for y in 0..2 {
        for x in 0..3 {
            assert_eq!(buf.get_pixel(x, y), red);
        }
    }
}

#[test]
fn set_pixel_changes_one_pixel_only() {
    let white = Rgb::new(255, 255, 255);
    let blue = Rgb::new(0, 0, 255);
    let mut buf = PixelBuffer::create(3, 3, white);
    buf.set_pixel(1, 2, blue);
    for y in 0..3 {
        for x in 0..3 {
            if (x, y) == (1, 2) {
                assert_eq!(buf.get_pixel(x, y), blue);
            } else {
                assert_eq!(buf.get_pixel(x, y), white);
            }
        }
    }
}

#[test]
fn blit_copies_source_and_leaves_rest() {
    let white = Rgb::new(255, 255, 255);
    let mut dst = PixelBuffer::create(4, 4, white);
    let mut src = PixelBuffer::create(2, 2, Rgb::new(0, 0, 0));
    src.set_pixel(0, 0, Rgb::new(1, 2, 3));
    src.set_pixel(1, 1, Rgb::new(4, 5, 6));
    dst.blit(&src, 1, 2);
    assert_eq!(dst.get_pixel(1, 2), Rgb::new(1, 2, 3));
    assert_eq!(dst.get_pixel(2, 2), Rgb::new(0, 0, 0));
    assert_eq!(dst.get_pixel(1, 3), Rgb::new(0, 0, 0));
    assert_eq!(dst.get_pixel(2, 3), Rgb::new(4, 5, 6));
    assert_eq!(dst.get_pixel(0, 0), white);
    assert_eq!(dst.get_pixel(3, 3), white);
    assert_eq!(dst.get_pixel(0, 2), white);
    assert_eq!(dst.get_pixel(3, 2), white);
}

#[test]
fn crop_extracts_window() {
    let mut buf = PixelBuffer::create(4, 3, Rgb::new(0, 0, 0));
    for y in 0..3u32 {
        for x in 0..4u32 {
            buf.set_pixel(x, y, Rgb::new(x as u8, y as u8, 9));
        }
    }
    let out = buf.crop(1, 1, 2, 2);
    assert_eq!(out.width, 2);
    assert_eq!(out.height, 2);
    assert_eq!(out.get_pixel(0, 0), Rgb::new(1, 1, 9));
    assert_eq!(out.get_pixel(1, 0), Rgb::new(2, 1, 9));
    assert_eq!(out.get_pixel(0, 1), Rgb::new(1, 2, 9));
    assert_eq!(out.get_pixel(1, 1), Rgb::new(2, 2, 9));
}
