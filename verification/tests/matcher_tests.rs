use glyph_mosaic::Rgb;
use glyph_mosaic::buffer::PixelBuffer;
use glyph_mosaic::glyphs::GlyphCache;
use glyph_mosaic::matcher::{best_character, most_dissimilar_character};

fn gray(v: u8) -> Rgb {
    Rgb::new(v, v, v)
}

fn three_glyph_cache() -> GlyphCache {
    // Uniform luminances 0, 120 and 255.
    let imgs = vec![
        PixelBuffer::create(2, 2, gray(0)),
        PixelBuffer::create(2, 2, gray(120)),
        PixelBuffer::create(2, 2, gray(255)),
    ];
    GlyphCache::from_glyphs(vec!['d', 'm', 'l'], imgs).unwrap()
}

#[test]
fn best_character_minimizes_the_score() {
    let cache = three_glyph_cache();
    let bright = PixelBuffer::create(2, 2, gray(250));
    assert_eq!(best_character(&cache, &bright, 0, 0), 'l');
    let mid = PixelBuffer::create(2, 2, gray(110));
    assert_eq!(best_character(&cache, &mid, 0, 0), 'm');
    let dark = PixelBuffer::create(2, 2, gray(10));
    assert_eq!(best_character(&cache, &dark, 0, 0), 'd');
}

#[test]
fn best_character_breaks_ties_by_earliest() {
    let imgs = vec![
        PixelBuffer::create(1, 1, gray(100)),
        PixelBuffer::create(1, 1, gray(100)),
    ];
    let cache = GlyphCache::from_glyphs(vec!['p', 'q'], imgs).unwrap();
    let tile = PixelBuffer::create(1, 1, gray(40));
    assert_eq!(best_character(&cache, &tile, 0, 0), 'p');
}

#[test]
fn most_dissimilar_character_maximizes_the_score() {
    let cache = three_glyph_cache();
    let bright = PixelBuffer::create(2, 2, gray(250));
    assert_eq!(most_dissimilar_character(&cache, &bright, 0, 0), 'd');
    let dark = PixelBuffer::create(2, 2, gray(10));
    assert_eq!(most_dissimilar_character(&cache, &dark, 0, 0), 'l');
}

#[test]
fn most_dissimilar_character_breaks_ties_by_latest() {
    let imgs = vec![
        PixelBuffer::create(1, 1, gray(100)),
        PixelBuffer::create(1, 1, gray(100)),
    ];
    let cache = GlyphCache::from_glyphs(vec!['p', 'q'], imgs).unwrap();
    let tile = PixelBuffer::create(1, 1, gray(40));
    assert_eq!(most_dissimilar_character(&cache, &tile, 0, 0), 'q');
}

#[test]
fn best_character_reads_the_tile_at_its_offset() {
    let cache = three_glyph_cache();
    let mut src = PixelBuffer::create(4, 4, gray(0));
    for y in 2..4 {
        for x in 2..4 {
            src.set_pixel(x, y, gray(255));
        }
    }
    assert_eq!(best_character(&cache, &src, 0, 0), 'd');
    assert_eq!(best_character(&cache, &src, 2, 2), 'l');
}
