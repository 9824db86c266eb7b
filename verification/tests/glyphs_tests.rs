use glyph_mosaic::Rgb;
use glyph_mosaic::buffer::PixelBuffer;
use glyph_mosaic::glyphs::{GlyphCache, default_alphabet, default_crop, render_glyph};

// Byte strings that `rusttype` does not accept as a font: the renderer then
// draws nothing, and every rendered pixel keeps the background color. That
// makes the whole pipeline deterministic without any font resource.
fn no_font() -> Vec<u8> {
    vec![1, 2, 3]
}

#[test]
fn default_alphabet_is_the_fixed_set() {
    let a = default_alphabet();
    assert_eq!(a.len(), 73);
    assert_eq!(a[0], 'a');
    assert_eq!(a[25], 'z');
    assert_eq!(a[26], 'A');
    assert_eq!(a[51], 'Z');
    assert_eq!(a[52], '@');
    assert_eq!(a[72], '\\');
    // Visually empty digits are excluded: no '1' anywhere.
    assert!(!a.contains(&'1'));
    assert!(a.contains(&'0'));
    assert!(a.contains(&'9'));
}

#[test]
fn default_crop_keeps_margins() {
    let crop = default_crop(16);
    assert_eq!((crop.x, crop.y, crop.w, crop.h), (4, 1, 11, 11));
}

#[test]
fn cache_tile_size_is_identical_across_all_glyphs() {
    let alphabet = default_alphabet();
    let crop = default_crop(16);
    let cache = GlyphCache::build(&alphabet, &no_font(), 16, Rgb::new(255, 255, 255), Rgb::new(
        127, 127, 127), crop);
    assert_eq!(cache.tile_size(), (11, 11));
    assert_eq!(cache.len(), 73);
    for img in &cache.images {
        assert_eq!(img.width, 11);
        assert_eq!(img.height, 11);
    }
}

#[test]
fn unusable_font_renders_the_background_only() {
    let bg = Rgb::new(7, 8, 9);
    let fg = Rgb::new(250, 1, 2);
    let out = render_glyph(&no_font(), 'a', 8, bg, fg, default_crop(8));
    assert_eq!(out.width, 3);
    assert_eq!(out.height, 3);
    for y in 0..3 {
        for x in 0..3 {
            assert_eq!(out.get_pixel(x, y), bg);
        }
    }
}

#[test]
fn from_glyphs_accepts_uniform_dimensions() {
    let imgs = vec![
        PixelBuffer::create(2, 2, Rgb::new(0, 0, 0)),
        PixelBuffer::create(2, 2, Rgb::new(255, 255, 255)),
    ];
    let cache = GlyphCache::from_glyphs(vec!['x', 'y'], imgs).unwrap();
    assert_eq!(cache.tile_size(), (2, 2));
    assert_eq!(cache.len(), 2);
}

#[test]
fn from_glyphs_rejects_bad_inputs() {
    // No glyphs at all.
    assert!(GlyphCache::from_glyphs(vec![], vec![]).is_none());
    // One bitmap per character is missing.
    let one = vec![PixelBuffer::create(2, 2, Rgb::new(0, 0, 0))];
    assert!(GlyphCache::from_glyphs(vec!['x', 'y'], one).is_none());
    // Mismatched dimensions.
    let imgs = vec![
        PixelBuffer::create(2, 2, Rgb::new(0, 0, 0)),
        PixelBuffer::create(3, 2, Rgb::new(0, 0, 0)),
    ];
    assert!(GlyphCache::from_glyphs(vec!['x', 'y'], imgs).is_none());
    // A zero-sized glyph.
    let empty = vec![PixelBuffer::create(0, 2, Rgb::new(0, 0, 0))];
    assert!(GlyphCache::from_glyphs(vec!['x'], empty).is_none());
}
