//! Glyph rendering and the glyph cache. A character is rasterized by an
//! outside renderer onto a square canvas, then a deterministic margin is
//! cropped away; the cropped dimensions are the tile size used everywhere
//! else. The cache holds one such glyph per character of an alphabet, built
//! once and read-only afterwards: `chars[i]` is the character of the bitmap
//! `images[i]`.

use vstd::prelude::*;
use vstd::arithmetic::mul::lemma_mul_upper_bound;
use crate::Rgb;
use crate::buffer::PixelBuffer;

verus! {

/// The pixels that the outside rasterizer produces for character `c` drawn on
/// a uniform `bg` square of side `size` in color `fg`, with the given font
/// bytes: a fixed function of those arguments alone, in row-major order.
pub uninterp spec fn glyph_pixels_of(font: Seq<u8>, c: char, size: u32, bg: Rgb, fg: Rgb) -> Seq<
    Rgb,
>;

/// Relies on `imageproc::drawing::draw_text_mut` over a `rusttype` font:
/// drawing one character at scale `size` and horizontal offset `size / 4` on
/// a `size x size` canvas mutates pixels only, and is determined by the font
/// bytes, the character, the size and the two colors alone. Font bytes that
/// `rusttype::Font::try_from_bytes` does not accept draw nothing, which is
/// equally a function of those arguments. The result is handed back
/// row-major, as `image::ImageBuffer` stores and iterates pixels.
#[verifier::external_body]
fn render_raw(font_data: &Vec<u8>, c: char, size: u32, bg: Rgb, fg: Rgb) -> (out: PixelBuffer)
    requires
        1 <= size,
        size <= u16::MAX,
        size as int * size as int * 3 <= usize::MAX as int,
    ensures
        out.wf(),
        out.width == size,
        out.height == size,
        out@ == glyph_pixels_of(font_data@, c, size, bg, fg),
{
    let mut img = image::RgbImage::from_pixel(size, size, image::Rgb([bg.r, bg.g, bg.b]));
    if let Some(font) = rusttype::Font::try_from_bytes(font_data.as_slice()) {
        let scale = rusttype::Scale::uniform((size as u16).into());
        let fgc = image::Rgb([fg.r, fg.g, fg.b]);
        imageproc::drawing::draw_text_mut(&mut img, fgc, (size / 4) as i32, 0, scale, &font,
            &c.to_string());
    }
    let data = img.pixels().map(|p| Rgb { r: p.0[0], g: p.0[1], b: p.0[2] }).collect();
    PixelBuffer { width: size, height: size, data }
}

/// The margins cropped away from a rendered square: the rectangle kept.
#[derive(Clone, Copy, PartialEq, Eq, Structural, Debug)]
pub struct CropRegion {
    pub x: u32,
    pub y: u32,
    pub w: u32,
    pub h: u32,
}

impl CropRegion {
    /// The kept rectangle fits inside a `size x size` square and is at least
    /// one pixel in either direction.
    pub open spec fn valid_for(self, size: u32) -> bool {
        &&& self.x as int + self.w as int <= size as int
        &&& self.y as int + self.h as int <= size as int
        &&& 1 <= self.w
        &&& 1 <= self.h
    }
}

/// One pixel of a rendered-then-cropped glyph: pixel `(u, v)` of the crop is
/// pixel `(crop.x + u, crop.y + v)` of the raw rendering.
pub open spec fn cropped_glyph_pixel(
    font: Seq<u8>,
    c: char,
    size: u32,
    bg: Rgb,
    fg: Rgb,
    crop: CropRegion,
    u: int,
    v: int,
) -> Rgb {
    glyph_pixels_of(font, c, size, bg, fg)[(crop.y + v) * size as int + (crop.x + u)]
}

/// Renders `c` at `size` with the given colors, then crops the fixed margin:
/// the glyph bitmap whose dimensions are the tile size.
pub fn render_glyph(
    font_data: &Vec<u8>,
    c: char,
    size: u32,
    bg: Rgb,
    fg: Rgb,
    crop: CropRegion,
) -> (out: PixelBuffer)
    requires
        1 <= size,
        size <= u16::MAX,
        size as int * size as int * 3 <= usize::MAX as int,
        crop.valid_for(size),
    ensures
        out.wf(),
        out.width == crop.w,
        out.height == crop.h,
        forall|u: int, v: int|
            0 <= u < crop.w as int && 0 <= v < crop.h as int ==> #[trigger] out.pixel(u, v)
                == cropped_glyph_pixel(font_data@, c, size, bg, fg, crop, u, v),
{
    let raw = render_raw(font_data, c, size, bg, fg);
    let out = raw.crop(crop.x, crop.y, crop.w, crop.h);
    proof {
        assert forall|u: int, v: int| 0 <= u < crop.w as int && 0 <= v < crop.h as int
            implies #[trigger] out.pixel(u, v) == cropped_glyph_pixel(
            font_data@,
            c,
            size,
            bg,
            fg,
            crop,
            u,
            v,
        ) by {
            assert(out.pixel(u, v) == raw.pixel(crop.x as int + u, crop.y as int + v));
        }
    }
    out
}

/// The glyph cache: one reference glyph per character of the alphabet, all of
/// identical dimensions, which are the tile size of the whole run. The glyph
/// of `chars[i]` is `images[i]`.
pub struct GlyphCache {
    pub chars: Vec<char>,
    pub images: Vec<PixelBuffer>,
    pub tile_w: u32,
    pub tile_h: u32,
}

impl GlyphCache {
    /// One bitmap per character; every bitmap is well-formed with exactly the
    /// cache's tile dimensions; a tile's area is small enough for exact
    /// scoring.
    pub open spec fn wf(self) -> bool {
        &&& 1 <= self.tile_w
        &&& 1 <= self.tile_h
        &&& self.tile_w as int * self.tile_h as int * 255 <= u64::MAX as int
        &&& self.chars@.len() == self.images@.len()
        &&& forall|i: int|
            0 <= i < self.images@.len() ==> (#[trigger] self.images@[i]).wf()
                && self.images@[i].width == self.tile_w && self.images@[i].height == self.tile_h
    }

    /// The number of cached glyphs.
    pub fn len(&self) -> (n: usize)
        ensures
            n == self.chars@.len(),
    {
        self.chars.len()
    }

    /// The dimensions shared by every cached glyph.
    pub fn tile_size(&self) -> (r: (u32, u32))
        ensures
            r.0 == self.tile_w,
            r.1 == self.tile_h,
    {
        (self.tile_w, self.tile_h)
    }

    /// Renders every character of `alphabet` at `pixel_size` in the fixed
    /// color pair and crops each identically: the cache maps `alphabet[i]` to
    /// its glyph, in order.
    pub fn build(
        alphabet: &Vec<char>,
        font_data: &Vec<u8>,
        pixel_size: u32,
        bg: Rgb,
        fg: Rgb,
        crop: CropRegion,
    ) -> (cache: GlyphCache)
        requires
            1 <= pixel_size,
            pixel_size <= u16::MAX,
            pixel_size as int * pixel_size as int * 3 <= usize::MAX as int,
            crop.valid_for(pixel_size),
            crop.w as int * crop.h as int * 255 <= u64::MAX as int,
        ensures
            cache.wf(),
            cache.tile_w == crop.w,
            cache.tile_h == crop.h,
            cache.chars@ == alphabet@,
            cache.images@.len() == alphabet@.len(),
            forall|i: int, u: int, v: int|
                0 <= i < alphabet@.len() && 0 <= u < crop.w as int && 0 <= v < crop.h as int
                    ==> #[trigger] cache.images@[i].pixel(u, v) == cropped_glyph_pixel(
                    font_data@,
                    alphabet@[i],
                    pixel_size,
                    bg,
                    fg,
                    crop,
                    u,
                    v,
                ),
    {
        let mut chars: Vec<char> = Vec::new();
        let mut images: Vec<PixelBuffer> = Vec::new();
        let mut i: usize = 0;
        while i < alphabet.len()
            invariant
                i <= alphabet@.len(),
                1 <= pixel_size,
                pixel_size <= u16::MAX,
                pixel_size as int * pixel_size as int * 3 <= usize::MAX as int,
                crop.valid_for(pixel_size),
                chars@ == alphabet@.take(i as int),
                images@.len() == i as int,
                forall|j: int|
                    0 <= j < i as int ==> (#[trigger] images@[j]).wf() && images@[j].width
                        == crop.w && images@[j].height == crop.h,
                forall|j: int, u: int, v: int|
                    0 <= j < i as int && 0 <= u < crop.w as int && 0 <= v < crop.h as int
                        ==> #[trigger] images@[j].pixel(u, v) == cropped_glyph_pixel(
                        font_data@,
                        alphabet@[j],
                        pixel_size,
                        bg,
                        fg,
                        crop,
                        u,
                        v,
                    ),
            decreases alphabet@.len() - i,
        {
            let c = alphabet[i];
            let image = render_glyph(font_data, c, pixel_size, bg, fg, crop);
            chars.push(c);
            images.push(image);
            proof {
                assert(chars@ =~= alphabet@.take(i as int + 1));
            }
            i = i + 1;
        }
        proof {
            assert(chars@ =~= alphabet@);
        }
        GlyphCache { chars, images, tile_w: crop.w, tile_h: crop.h }
    }

    /// Builds a cache directly from prepared glyph bitmaps, `images[i]` being
    /// the glyph of `chars[i]`. Succeeds exactly when there is one bitmap per
    /// character, at least one glyph, and all bitmaps are well-formed with
    /// equal, positive dimensions small enough for exact scoring.
    pub fn from_glyphs(chars: Vec<char>, images: Vec<PixelBuffer>) -> (r: Option<GlyphCache>)
        ensures
            r is Some <==> chars@.len() == images@.len() && images@.len() >= 1 && 1
                <= images@[0].width && 1 <= images@[0].height && images@[0].width as int
                * images@[0].height as int * 255 <= u64::MAX as int && (forall|i: int|
                0 <= i < images@.len() ==> (#[trigger] images@[i]).wf() && images@[i].width
                    == images@[0].width && images@[i].height == images@[0].height),
            r matches Some(cache) ==> cache.wf() && cache.chars@ == chars@ && cache.images@
                == images@ && cache.tile_w == images@[0].width && cache.tile_h
                == images@[0].height,
    {
        if chars.len() != images.len() || images.len() == 0 {
            return None;
        }
        let tile_w = images[0].width;
        let tile_h = images[0].height;
        if tile_w == 0 || tile_h == 0 {
            return None;
        }
        proof {
            lemma_mul_upper_bound(tile_w as int, u32::MAX as int, tile_h as int, u32::MAX as int);
        }
        if (tile_w as u128) * (tile_h as u128) * 255 > u64::MAX as u128 {
            return None;
        }
        let mut i: usize = 0;
        while i < images.len()
            invariant
                i <= images@.len(),
                images@.len() >= 1,
                tile_w == images@[0].width,
                tile_h == images@[0].height,
                forall|j: int|
                    0 <= j < i as int ==> (#[trigger] images@[j]).wf() && images@[j].width
                        == tile_w && images@[j].height == tile_h,
            decreases images@.len() - i,
        {
            let img = &images[i];
            if img.width != tile_w || img.height != tile_h {
                return None;
            }
            proof {
                lemma_mul_upper_bound(tile_w as int, u32::MAX as int, tile_h as int,
                    u32::MAX as int);
            }
            let expected: u64 = (img.width as u64) * (img.height as u64);
            if (img.data.len() as u64) != expected {
                return None;
            }
            i = i + 1;
        }
        Some(GlyphCache { chars, images, tile_w, tile_h })
    }
}

/// The dimension invariant of a cache: every cached glyph has exactly the
/// cache's tile size, so `tile_size` describes each of them.
pub proof fn lemma_cache_dimension_invariant(cache: GlyphCache, i: int)
    requires
        cache.wf(),
        0 <= i < cache.images@.len(),
    ensures
        cache.images@[i].width == cache.tile_w,
        cache.images@[i].height == cache.tile_h,
        cache.images@[i].wf(),
{
}

/// The margins used for the embedded-font rendering path: four columns off
/// the left, one row off the top, and what a `size - 5` square leaves off the
/// right and bottom, empirically tuned to the font's bounding box.
pub fn default_crop(pixel_size: u32) -> (crop: CropRegion)
    requires
        6 <= pixel_size,
    ensures
        crop == (CropRegion { x: 4, y: 1, w: (pixel_size - 5) as u32, h: (pixel_size - 5) as u32 }),
        crop.valid_for(pixel_size),
{
    CropRegion { x: 4, y: 1, w: pixel_size - 5, h: pixel_size - 5 }
}

} // verus!

verus! {

/// The fixed alphabet of the mosaic: lowercase and uppercase Latin letters
/// and a punctuation/digit subset, in matching order. Characters whose glyph
/// is visually whitespace-only are left out, so no tile can degenerate to an
/// all-background match.
pub open spec fn spec_default_alphabet() -> Seq<char> {
    seq![
        'a',
        'b',
        'c',
        'd',
        'e',
        'f',
        'g',
        'h',
        'i',
        'j',
        'k',
        'l',
        'm',
        'n',
        'o',
        'p',
        'q',
        'r',
        's',
        't',
        'u',
        'v',
        'w',
        'x',
        'y',
        'z',
        'A',
        'B',
        'C',
        'D',
        'E',
        'F',
        'G',
        'H',
        'I',
        'J',
        'K',
        'L',
        'M',
        'N',
        'O',
        'P',
        'Q',
        'R',
        'S',
        'T',
        'U',
        'V',
        'W',
        'X',
        'Y',
        'Z',
        '@',
        '#',
        '$',
        '%',
        '^',
        '&',
        '(',
        ')',
        '+',
        '=',
        '0',
        '2',
        '3',
        '4',
        '5',
        '6',
        '7',
        '8',
        '9',
        '/',
        '\\'
    ]
}

/// The fixed alphabet, as a vector: exactly `spec_default_alphabet()`.
pub fn default_alphabet() -> (v: Vec<char>)
    ensures
        v@ == spec_default_alphabet(),
        v@.len() == 73,
{
    let mut v: Vec<char> = Vec::new();
    v.push('a');
    v.push('b');
    v.push('c');
    v.push('d');
    v.push('e');
    v.push('f');
    v.push('g');
    v.push('h');
    v.push('i');
    v.push('j');
    v.push('k');
    v.push('l');
    v.push('m');
    v.push('n');
    v.push('o');
    v.push('p');
    v.push('q');
    v.push('r');
    v.push('s');
    v.push('t');
    v.push('u');
    v.push('v');
    v.push('w');
    v.push('x');
    v.push('y');
    v.push('z');
    v.push('A');
    v.push('B');
    v.push('C');
    v.push('D');
    v.push('E');
    v.push('F');
    v.push('G');
    v.push('H');
    v.push('I');
    v.push('J');
    v.push('K');
    v.push('L');
    v.push('M');
    v.push('N');
    v.push('O');
    v.push('P');
    v.push('Q');
    v.push('R');
    v.push('S');
    v.push('T');
    v.push('U');
    v.push('V');
    v.push('W');
    v.push('X');
    v.push('Y');
    v.push('Z');
    v.push('@');
    v.push('#');
    v.push('$');
    v.push('%');
    v.push('^');
    v.push('&');
    v.push('(');
    v.push(')');
    v.push('+');
    v.push('=');
    v.push('0');
    v.push('2');
    v.push('3');
    v.push('4');
    v.push('5');
    v.push('6');
    v.push('7');
    v.push('8');
    v.push('9');
    v.push('/');
    v.push('\\');
    proof {
        assert(v@ =~= spec_default_alphabet());
    }
    v
}

} // verus!
