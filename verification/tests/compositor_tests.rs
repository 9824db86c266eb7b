use glyph_mosaic::Rgb;
use glyph_mosaic::buffer::PixelBuffer;
use glyph_mosaic::compositor::{render, render_sequential};
use glyph_mosaic::glyphs::{CropRegion, GlyphCache, default_alphabet};

// Byte strings that `rusttype` does not accept as a font: the renderer draws
// nothing, so every re-rendered glyph is a uniform square in the tile's
// average-brightness color. The composited output is then exactly
// predictable without any font resource.
fn no_font() -> Vec<u8> {
    vec![9, 9, 9]
}

// A cache whose tile size is 2 x 2, rendered at pixel size 8.
fn small_cache(font: &Vec<u8>) -> (GlyphCache, CropRegion) {
    let crop = CropRegion { x: 4, y: 1, w: 2, h: 2 };
    let cache = GlyphCache::build(&default_alphabet(), font, 8, Rgb::new(255, 255, 255),
        Rgb::new(127, 127, 127), crop);
    (cache, crop)
}

#[test]
fn single_tile_source_composites_one_full_canvas_blit() {
    let font = no_font();
    let (cache, crop) = small_cache(&font);
    assert_eq!(cache.tile_size(), (2, 2));
    // A tile-sized source, uniformly (100, 150, 200): its average brightness
    // is (2*100 + 3*150 + 200) / 6 = 141, so the single re-rendered glyph is
    // a uniform (141, 141, 141) square blitted at (0, 0) over the whole
    // canvas.
    let src = PixelBuffer::create(2, 2, Rgb::new(100, 150, 200));
    let gray = PixelBuffer::create(2, 2, Rgb::new(144, 144, 144));
    let canvas = render(&src, &gray, &cache, &font, 8, crop, Rgb::new(255, 255, 255));
    assert_eq!(canvas.width, 2);
    assert_eq!(canvas.height, 2);
    for y in 0..2 {
        for x in 0..2 {
            assert_eq!(canvas.get_pixel(x, y), Rgb::new(141, 141, 141));
        }
    }
}

#[test]
fn partial_edge_tiles_keep_the_background_fill() {
    let font = no_font();
    let (cache, crop) = small_cache(&font);
    // 5 x 5 source with a 2 x 2 tile: the grid covers [0, 4) x [0, 4); the
    // rightmost column and bottom row stay at the canvas fill.
    let fill = Rgb::new(1, 2, 3);
    let src = PixelBuffer::create(5, 5, Rgb::new(100, 150, 200));
    let gray = PixelBuffer::create(5, 5, Rgb::new(144, 144, 144));
    let canvas = render(&src, &gray, &cache, &font, 8, crop, fill);
    assert_eq!(canvas.width, 5);
    assert_eq!(canvas.height, 5);
    for y in 0..5 {
        for x in 0..5 {
            if x < 4 && y < 4 {
                assert_eq!(canvas.get_pixel(x, y), Rgb::new(141, 141, 141));
            } else {
                assert_eq!(canvas.get_pixel(x, y), fill);
            }
        }
    }
}

#[test]
fn parallel_and_sequential_render_agree_exactly() {
    let font = no_font();
    let (cache, crop) = small_cache(&font);
    // A varied source, so different tiles get different sampled colors.
    let mut src = PixelBuffer::create(7, 5, Rgb::new(0, 0, 0));
    let mut gray = PixelBuffer::create(7, 5, Rgb::new(0, 0, 0));
    for y in 0..5u32 {
        for x in 0..7u32 {
            let r = (x * 37 + y * 11) as u8;
            let g = (x * 5 + y * 73) as u8;
            let b = (x * 17 + y * 29) as u8;
            src.set_pixel(x, y, Rgb::new(r, g, b));
            let lum = ((2 * (r as u32) + 3 * (g as u32) + (b as u32)) / 6) as u8;
            gray.set_pixel(x, y, Rgb::new(lum, lum, lum));
        }
    }
    let fill = Rgb::new(255, 255, 255);
    let a = render(&src, &gray, &cache, &font, 8, crop, fill);
    let b = render_sequential(&src, &gray, &cache, &font, 8, crop, fill);
    assert_eq!(a.width, b.width);
    assert_eq!(a.height, b.height);
    for y in 0..5 {
        for x in 0..7 {
            assert_eq!(a.get_pixel(x, y), b.get_pixel(x, y));
        }
    }
}

#[test]
fn each_tile_takes_its_own_sampled_brightness() {
    let font = no_font();
    let (cache, crop) = small_cache(&font);
    // Left tile dark, right tile bright: the two blitted squares differ.
    let mut src = PixelBuffer::create(4, 2, Rgb::new(10, 10, 10));
    for y in 0..2 {
        for x in 2..4 {
            src.set_pixel(x, y, Rgb::new(250, 250, 250));
        }
    }
    let gray = src.crop(0, 0, 4, 2);
    let canvas = render(&src, &gray, &cache, &font, 8, crop, Rgb::new(0, 0, 0));
    assert_eq!(canvas.get_pixel(0, 0), Rgb::new(10, 10, 10));
    assert_eq!(canvas.get_pixel(1, 1), Rgb::new(10, 10, 10));
    assert_eq!(canvas.get_pixel(2, 0), Rgb::new(250, 250, 250));
    assert_eq!(canvas.get_pixel(3, 1), Rgb::new(250, 250, 250));
}
