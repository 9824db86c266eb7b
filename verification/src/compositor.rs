//! The render-and-composite pipeline. The grayscale source is partitioned
//! into a grid of non-overlapping `tile_w x tile_h` tiles (partial tiles at
//! the right and bottom edges are dropped). For each grid cell the matcher
//! picks the closest glyph from the grayscale tile; the sampler derives a
//! foreground (average color) and background (average brightness) from the
//! color tile; the glyph is re-rendered at full resolution in those colors;
//! and every result is blitted into the output canvas at the cell's offset.
//! The per-tile computations read shared immutable inputs only and produce
//! owned bitmaps, so they run in parallel; the canvas is mutated exclusively
//! by the sequential blit pass, and the output is a function of the inputs
//! alone, whatever the task schedule.

use vstd::prelude::*;
use vstd::arithmetic::div_mod::{
    lemma_fundamental_div_mod,
    lemma_fundamental_div_mod_converse,
    lemma_mod_bound,
    lemma_div_pos_is_pos,
    lemma_div_nonincreasing,
    lemma_multiply_divide_lt,
};
use vstd::arithmetic::mul::{lemma_mul_inequality, lemma_mul_upper_bound};
use rayon::iter::{IndexedParallelIterator, IntoParallelRefIterator, ParallelIterator};
use crate::Rgb;
use crate::buffer::{PixelBuffer, lemma_index_bound, lemma_index_injective};
use crate::glyphs::{CropRegion, GlyphCache, cropped_glyph_pixel, render_glyph};
use crate::matcher::{best_character, best_index};
use crate::sampler::{
    average_brightness,
    average_color,
    spec_average_brightness,
    spec_average_color,
};

verus! {

/// What every stage of the pipeline needs of its inputs: matching color and
/// grayscale views, a usable cache, and a rendering size the crop fits into,
/// with the crop dimensions being exactly the cache's tile size.
pub open spec fn render_inputs_ok(
    rgb: PixelBuffer,
    gray: PixelBuffer,
    cache: GlyphCache,
    pixel_size: u32,
    crop: CropRegion,
) -> bool {
    &&& rgb.wf()
    &&& gray.wf()
    &&& rgb.width == gray.width
    &&& rgb.height == gray.height
    &&& cache.wf()
    &&& cache.chars@.len() >= 1
    &&& 1 <= pixel_size
    &&& pixel_size <= u16::MAX
    &&& pixel_size as int * pixel_size as int * 3 <= usize::MAX as int
    &&& crop.valid_for(pixel_size)
    &&& crop.w == cache.tile_w
    &&& crop.h == cache.tile_h
}

/// Number of whole tiles across: floor division, partial columns dropped.
pub open spec fn grid_w(gray: PixelBuffer, cache: GlyphCache) -> int {
    gray.width as int / cache.tile_w as int
}

/// Number of whole tiles down: floor division, partial rows dropped.
pub open spec fn grid_h(gray: PixelBuffer, cache: GlyphCache) -> int {
    gray.height as int / cache.tile_h as int
}

/// The character matched for grid cell `(gx, gy)` from the grayscale tile.
pub open spec fn tile_char(cache: GlyphCache, gray: PixelBuffer, gx: int, gy: int) -> char {
    cache.chars@[best_index(
        cache,
        gray,
        gx * cache.tile_w as int,
        gy * cache.tile_h as int,
        cache.chars@.len(),
    )]
}

/// The foreground of cell `(gx, gy)`: the color tile's average color.
pub open spec fn tile_fg(cache: GlyphCache, rgb: PixelBuffer, gx: int, gy: int) -> Rgb {
    spec_average_color(
        rgb,
        gx * cache.tile_w as int,
        gy * cache.tile_h as int,
        cache.tile_w as nat,
        cache.tile_h as nat,
    )
}

/// The background of cell `(gx, gy)`: the color tile's average brightness.
pub open spec fn tile_bg(cache: GlyphCache, rgb: PixelBuffer, gx: int, gy: int) -> Rgb {
    spec_average_brightness(
        rgb,
        gx * cache.tile_w as int,
        gy * cache.tile_h as int,
        cache.tile_w as nat,
        cache.tile_h as nat,
    )
}

/// Pixel `(u, v)` of the glyph re-rendered for cell `(gx, gy)`: the matched
/// character drawn in the sampled colors at full resolution, then cropped.
pub open spec fn composed_tile_pixel(
    font: Seq<u8>,
    pixel_size: u32,
    crop: CropRegion,
    cache: GlyphCache,
    rgb: PixelBuffer,
    gray: PixelBuffer,
    gx: int,
    gy: int,
    u: int,
    v: int,
) -> Rgb {
    cropped_glyph_pixel(
        font,
        tile_char(cache, gray, gx, gy),
        pixel_size,
        tile_bg(cache, rgb, gx, gy),
        tile_fg(cache, rgb, gx, gy),
        crop,
        u,
        v,
    )
}

/// The finished canvas, pixel by pixel: inside the tiled region, the pixel of
/// the cell's re-rendered glyph; on the partial right and bottom edges, the
/// untouched background fill.
pub open spec fn rendered_pixel(
    font: Seq<u8>,
    pixel_size: u32,
    crop: CropRegion,
    cache: GlyphCache,
    rgb: PixelBuffer,
    gray: PixelBuffer,
    background: Rgb,
    x: int,
    y: int,
) -> Rgb {
    let tw = cache.tile_w as int;
    let th = cache.tile_h as int;
    if x < grid_w(gray, cache) * tw && y < grid_h(gray, cache) * th {
        composed_tile_pixel(
            font,
            pixel_size,
            crop,
            cache,
            rgb,
            gray,
            x / tw,
            y / th,
            x % tw,
            y % th,
        )
    } else {
        background
    }
}

/// A grid cell's tile lies whole inside a length it was floor-divided from.
proof fn lemma_tile_origin(len: int, t: int, g: int)
    requires
        1 <= t,
        0 <= g < len / t,
        0 <= len,
    ensures
        0 <= g * t,
        g * t + t <= len,
{
    lemma_fundamental_div_mod(len, t);
    lemma_mod_bound(len, t);
    lemma_mul_inequality(g + 1, len / t, t);
    assert((g + 1) * t == g * t + t) by (nonlinear_arith);
    assert((len / t) * t <= len) by (nonlinear_arith)
        requires
            len == t * (len / t) + len % t && len % t >= 0,
    ;
    assert(0 <= g * t) by (nonlinear_arith)
        requires
            0 <= g && 1 <= t,
    ;
}

/// Matches, samples and re-renders one grid cell: the composed tile bitmap.
pub fn compose_tile(
    rgb: &PixelBuffer,
    gray: &PixelBuffer,
    cache: &GlyphCache,
    font_data: &Vec<u8>,
    pixel_size: u32,
    crop: CropRegion,
    gx: u32,
    gy: u32,
) -> (out: PixelBuffer)
    requires
        render_inputs_ok(*rgb, *gray, *cache, pixel_size, crop),
        (gx as int) < grid_w(*gray, *cache),
        (gy as int) < grid_h(*gray, *cache),
    ensures
        out.wf(),
        out.width == cache.tile_w,
        out.height == cache.tile_h,
        forall|u: int, v: int|
            0 <= u < cache.tile_w as int && 0 <= v < cache.tile_h as int ==> #[trigger] out.pixel(
                u,
                v,
            ) == composed_tile_pixel(
                font_data@,
                pixel_size,
                crop,
                *cache,
                *rgb,
                *gray,
                gx as int,
                gy as int,
                u,
                v,
            ),
{
    proof {
        lemma_tile_origin(gray.width as int, cache.tile_w as int, gx as int);
        lemma_tile_origin(gray.height as int, cache.tile_h as int, gy as int);
    }
    let tx = gx * cache.tile_w;
    let ty = gy * cache.tile_h;
    let c = best_character(cache, gray, tx, ty);
    let fg = average_color(rgb, tx, ty, cache.tile_w, cache.tile_h);
    let bg = average_brightness(rgb, tx, ty, cache.tile_w, cache.tile_h);
    render_glyph(font_data, c, pixel_size, bg, fg, crop)
}

/// The grid coordinates in row-major order: entry `k` is cell
/// `(k % gw, k / gw)`.
fn grid_coords(gw: u32, gh: u32) -> (coords: Vec<(u32, u32)>)
    requires
        gw as int * gh as int <= usize::MAX as int,
    ensures
        coords@.len() == gw as int * gh as int,
        forall|k: int|
            0 <= k < coords@.len() ==> (#[trigger] coords@[k]).0 as int == k % gw as int
                && coords@[k].1 as int == k / gw as int && coords@[k].0 < gw && coords@[k].1 < gh,
{
    let mut coords: Vec<(u32, u32)> = Vec::new();
    let mut gy: u32 = 0;
    while gy < gh
        invariant
            gy <= gh,
            gw as int * gh as int <= usize::MAX as int,
            coords@.len() == gy as int * gw as int,
            forall|k: int|
                0 <= k < coords@.len() ==> (#[trigger] coords@[k]).0 as int == k % gw as int
                    && coords@[k].1 as int == k / gw as int && coords@[k].0 < gw && coords@[k].1
                    < gh,
        decreases gh - gy,
    {
        let mut gx: u32 = 0;
        while gx < gw
            invariant
                gx <= gw,
                gy < gh,
                gw as int * gh as int <= usize::MAX as int,
                coords@.len() == gy as int * gw as int + gx as int,
                forall|k: int|
                    0 <= k < coords@.len() ==> (#[trigger] coords@[k]).0 as int == k % gw as int
                        && coords@[k].1 as int == k / gw as int && coords@[k].0 < gw
                        && coords@[k].1 < gh,
            decreases gw - gx,
        {
            proof {
                lemma_index_bound(gw as int, gh as int, gx as int, gy as int);
                lemma_fundamental_div_mod_converse(
                    gy as int * gw as int + gx as int,
                    gw as int,
                    gy as int,
                    gx as int,
                );
            }
            coords.push((gx, gy));
            gx = gx + 1;
        }
        proof {
            assert((gy as int + 1) * gw as int == gy as int * gw as int + gw as int)
                by (nonlinear_arith);
        }
        gy = gy + 1;
    }
    proof {
        assert(gh as int * gw as int == gw as int * gh as int) by (nonlinear_arith);
    }
    coords
}

/// Relies on rayon's indexed parallel iterators: `par_iter().map(f).collect()`
/// over a `Vec` applies `f` to every element and collects the results in the
/// input's order. Each task here reads shared immutable inputs and returns an
/// owned bitmap, so the collected vector holds, at `k`, exactly the composed
/// tile of `coords[k]`.
#[verifier::external_body]
fn compose_tiles_parallel(
    rgb: &PixelBuffer,
    gray: &PixelBuffer,
    cache: &GlyphCache,
    font_data: &Vec<u8>,
    pixel_size: u32,
    crop: CropRegion,
    coords: &Vec<(u32, u32)>,
) -> (results: Vec<PixelBuffer>)
    requires
        render_inputs_ok(*rgb, *gray, *cache, pixel_size, crop),
        forall|k: int|
            0 <= k < coords@.len() ==> ((#[trigger] coords@[k]).0 as int) < grid_w(*gray, *cache)
                && (coords@[k].1 as int) < grid_h(*gray, *cache),
    ensures
        results@.len() == coords@.len(),
        forall|k: int|
            0 <= k < coords@.len() ==> (#[trigger] results@[k]).wf() && results@[k].width
                == cache.tile_w && results@[k].height == cache.tile_h,
        forall|k: int, u: int, v: int|
            0 <= k < coords@.len() && 0 <= u < cache.tile_w as int && 0 <= v
                < cache.tile_h as int ==> #[trigger] results@[k].pixel(u, v)
                == composed_tile_pixel(
                font_data@,
                pixel_size,
                crop,
                *cache,
                *rgb,
                *gray,
                coords@[k].0 as int,
                coords@[k].1 as int,
                u,
                v,
            ),
{
    coords.par_iter().map(
        |gc: &(u32, u32)| compose_tile(rgb, gray, cache, font_data, pixel_size, crop, gc.0, gc.1),
    ).collect()
}

/// Pixel `(x, y)` of the canvas after the first `done` grid cells (in
/// row-major order) have been blitted: a composed tile pixel where a finished
/// cell covers it, the background fill everywhere else.
pub open spec fn partly_blitted_pixel(
    font: Seq<u8>,
    pixel_size: u32,
    crop: CropRegion,
    cache: GlyphCache,
    rgb: PixelBuffer,
    gray: PixelBuffer,
    background: Rgb,
    done: int,
    x: int,
    y: int,
) -> Rgb {
    let tw = cache.tile_w as int;
    let th = cache.tile_h as int;
    if x < grid_w(gray, cache) * tw && y < grid_h(gray, cache) * th && (y / th) * grid_w(
        gray,
        cache,
    ) + x / tw < done {
        composed_tile_pixel(
            font,
            pixel_size,
            crop,
            cache,
            rgb,
            gray,
            x / tw,
            y / th,
            x % tw,
            y % th,
        )
    } else {
        background
    }
}

/// Blits the composed tiles into the canvas, one cell after another. The
/// cells write to disjoint regions, so the finished canvas is exactly the
/// rendered image, whatever the order the results were computed in.
fn blit_tiles(
    canvas: &mut PixelBuffer,
    results: &Vec<PixelBuffer>,
    coords: &Vec<(u32, u32)>,
    rgb: &PixelBuffer,
    gray: &PixelBuffer,
    cache: &GlyphCache,
    font_data: &Vec<u8>,
    pixel_size: u32,
    crop: CropRegion,
    background: Rgb,
)
    requires
        render_inputs_ok(*rgb, *gray, *cache, pixel_size, crop),
        old(canvas).wf(),
        old(canvas).width == gray.width,
        old(canvas).height == gray.height,
        old(canvas).is_uniform(background),
        coords@.len() == grid_w(*gray, *cache) * grid_h(*gray, *cache),
        forall|k: int|
            0 <= k < coords@.len() ==> (#[trigger] coords@[k]).0 as int == k % grid_w(
                *gray,
                *cache,
            ) && coords@[k].1 as int == k / grid_w(*gray, *cache),
        results@.len() == coords@.len(),
        forall|k: int|
            0 <= k < coords@.len() ==> (#[trigger] results@[k]).wf() && results@[k].width
                == cache.tile_w && results@[k].height == cache.tile_h,
        forall|k: int, u: int, v: int|
            0 <= k < coords@.len() && 0 <= u < cache.tile_w as int && 0 <= v
                < cache.tile_h as int ==> #[trigger] results@[k].pixel(u, v)
                == composed_tile_pixel(
                font_data@,
                pixel_size,
                crop,
                *cache,
                *rgb,
                *gray,
                coords@[k].0 as int,
                coords@[k].1 as int,
                u,
                v,
            ),
    ensures
        final(canvas).wf(),
        final(canvas).width == old(canvas).width,
        final(canvas).height == old(canvas).height,
        forall|x: int, y: int|
            final(canvas).in_bounds(x, y) ==> #[trigger] final(canvas).pixel(x, y)
                == rendered_pixel(
                font_data@,
                pixel_size,
                crop,
                *cache,
                *rgb,
                *gray,
                background,
                x,
                y,
            ),
{
    let ghost gw = grid_w(*gray, *cache);
    let ghost gh = grid_h(*gray, *cache);
    let tw = cache.tile_w;
    let th = cache.tile_h;
    let mut k: usize = 0;
    while k < results.len()
        invariant
            k <= results@.len(),
            render_inputs_ok(*rgb, *gray, *cache, pixel_size, crop),
            tw == cache.tile_w,
            th == cache.tile_h,
            gw == grid_w(*gray, *cache),
            gh == grid_h(*gray, *cache),
            canvas.wf(),
            canvas.width == gray.width,
            canvas.height == gray.height,
            coords@.len() == gw * gh,
            forall|j: int|
                0 <= j < coords@.len() ==> (#[trigger] coords@[j]).0 as int == j % gw
                    && coords@[j].1 as int == j / gw,
            results@.len() == coords@.len(),
            forall|j: int|
                0 <= j < coords@.len() ==> (#[trigger] results@[j]).wf() && results@[j].width
                    == cache.tile_w && results@[j].height == cache.tile_h,
            forall|j: int, u: int, v: int|
                0 <= j < coords@.len() && 0 <= u < cache.tile_w as int && 0 <= v
                    < cache.tile_h as int ==> #[trigger] results@[j].pixel(u, v)
                    == composed_tile_pixel(
                    font_data@,
                    pixel_size,
                    crop,
                    *cache,
                    *rgb,
                    *gray,
                    coords@[j].0 as int,
                    coords@[j].1 as int,
                    u,
                    v,
                ),
            forall|x: int, y: int|
                canvas.in_bounds(x, y) ==> #[trigger] canvas.pixel(x, y) == partly_blitted_pixel(
                    font_data@,
                    pixel_size,
                    crop,
                    *cache,
                    *rgb,
                    *gray,
                    background,
                    k as int,
                    x,
                    y,
                ),
        decreases results@.len() - k,
    {
        let (cgx, cgy) = coords[k];
        proof {
            assert(gw * gh > 0) by (nonlinear_arith)
                requires
                    0 <= k as int && (k as int) < gw * gh,
            ;
            assert(gw > 0 && gh > 0) by (nonlinear_arith)
                requires
                    gw * gh > 0 && gw >= 0 && gh >= 0,
            ;
            lemma_mod_bound(k as int, gw);
            lemma_div_pos_is_pos(k as int, gw);
            lemma_multiply_divide_lt(k as int, gw, gh);
            lemma_fundamental_div_mod(k as int, gw);
            assert(gw * (k as int / gw) == (k as int / gw) * gw) by (nonlinear_arith);
            assert(cgy as int * gw + cgx as int == k as int);
            lemma_tile_origin(gray.width as int, tw as int, cgx as int);
            lemma_tile_origin(gray.height as int, th as int, cgy as int);
        }
        let bx = cgx * tw;
        let by = cgy * th;
        let ghost before = *canvas;
        canvas.blit(&results[k], bx, by);
        proof {
            let font = font_data@;
            assert forall|x: int, y: int| canvas.in_bounds(x, y) implies #[trigger] canvas.pixel(
                x,
                y,
            ) == partly_blitted_pixel(
                font,
                pixel_size,
                crop,
                *cache,
                *rgb,
                *gray,
                background,
                k as int + 1,
                x,
                y,
            ) by {
                let twi = tw as int;
                let thi = th as int;
                let bxi = bx as int;
                let byi = by as int;
                if bxi <= x < bxi + twi && byi <= y < byi + thi {
                    lemma_fundamental_div_mod_converse(x, twi, cgx as int, x - bxi);
                    lemma_fundamental_div_mod_converse(y, thi, cgy as int, y - byi);
                    lemma_mul_inequality(cgx as int + 1, gw, twi);
                    lemma_mul_inequality(cgy as int + 1, gh, thi);
                    assert((cgx as int + 1) * twi == cgx as int * twi + twi) by (nonlinear_arith);
                    assert((cgy as int + 1) * thi == cgy as int * thi + thi) by (nonlinear_arith);
                    assert(canvas.pixel(x, y) == results@[k as int].pixel(x - bxi, y - byi));
                } else {
                    assert(canvas.pixel(x, y) == before.pixel(x, y));
                    if x < gw * twi && y < gh * thi && (y / thi) * gw + x / twi < k as int + 1 && !((
                    y / thi) * gw + x / twi < k as int) {
                        lemma_div_pos_is_pos(x, twi);
                        lemma_div_pos_is_pos(y, thi);
                        lemma_multiply_divide_lt(x, twi, gw);
                        lemma_multiply_divide_lt(y, thi, gh);
                        lemma_index_injective(gw, x / twi, y / thi, cgx as int, cgy as int);
                        lemma_fundamental_div_mod(x, twi);
                        lemma_mod_bound(x, twi);
                        lemma_fundamental_div_mod(y, thi);
                        lemma_mod_bound(y, thi);
                        assert(twi * (x / twi) == cgx as int * twi) by (nonlinear_arith)
                            requires
                                x / twi == cgx as int,
                        ;
                        assert(thi * (y / thi) == cgy as int * thi) by (nonlinear_arith)
                            requires
                                y / thi == cgy as int,
                        ;
                        assert(false);
                    }
                }
            }
        }
        k = k + 1;
    }
    proof {
        assert forall|x: int, y: int| canvas.in_bounds(x, y) implies #[trigger] canvas.pixel(x, y)
            == rendered_pixel(
            font_data@,
            pixel_size,
            crop,
            *cache,
            *rgb,
            *gray,
            background,
            x,
            y,
        ) by {
            let twi = cache.tile_w as int;
            let thi = cache.tile_h as int;
            if x < gw * twi && y < gh * thi {
                lemma_div_pos_is_pos(x, twi);
                lemma_div_pos_is_pos(y, thi);
                lemma_multiply_divide_lt(x, twi, gw);
                lemma_multiply_divide_lt(y, thi, gh);
                lemma_index_bound(gw, gh, x / twi, y / thi);
            }
        }
    }
}

/// Composites the whole image: parallel per-tile computation, then the
/// sequential blit pass. The output canvas has the source's dimensions; every
/// whole tile holds its cell's re-rendered glyph, and the partial right and
/// bottom edges keep the background fill.
pub fn render(
    rgb: &PixelBuffer,
    gray: &PixelBuffer,
    cache: &GlyphCache,
    font_data: &Vec<u8>,
    pixel_size: u32,
    crop: CropRegion,
    background: Rgb,
) -> (canvas: PixelBuffer)
    requires
        render_inputs_ok(*rgb, *gray, *cache, pixel_size, crop),
        gray.width as int * gray.height as int <= usize::MAX as int,
    ensures
        canvas.wf(),
        canvas.width == gray.width,
        canvas.height == gray.height,
        forall|x: int, y: int|
            canvas.in_bounds(x, y) ==> #[trigger] canvas.pixel(x, y) == rendered_pixel(
                font_data@,
                pixel_size,
                crop,
                *cache,
                *rgb,
                *gray,
                background,
                x,
                y,
            ),
{
    let gw = gray.width / cache.tile_w;
    let gh = gray.height / cache.tile_h;
    proof {
        lemma_grid_fits(gray.width as int, gray.height as int, cache.tile_w as int,
            cache.tile_h as int);
    }
    let coords = grid_coords(gw, gh);
    let results = compose_tiles_parallel(rgb, gray, cache, font_data, pixel_size, crop, &coords);
    let mut canvas = PixelBuffer::create(gray.width, gray.height, background);
    blit_tiles(&mut canvas, &results, &coords, rgb, gray, cache, font_data, pixel_size, crop,
        background);
    canvas
}

/// The same compositing, with the per-tile computation running one cell at a
/// time on the calling thread. The contract is the very same pixel function
/// as `render`'s: the two pipelines cannot disagree.
pub fn render_sequential(
    rgb: &PixelBuffer,
    gray: &PixelBuffer,
    cache: &GlyphCache,
    font_data: &Vec<u8>,
    pixel_size: u32,
    crop: CropRegion,
    background: Rgb,
) -> (canvas: PixelBuffer)
    requires
        render_inputs_ok(*rgb, *gray, *cache, pixel_size, crop),
        gray.width as int * gray.height as int <= usize::MAX as int,
    ensures
        canvas.wf(),
        canvas.width == gray.width,
        canvas.height == gray.height,
        forall|x: int, y: int|
            canvas.in_bounds(x, y) ==> #[trigger] canvas.pixel(x, y) == rendered_pixel(
                font_data@,
                pixel_size,
                crop,
                *cache,
                *rgb,
                *gray,
                background,
                x,
                y,
            ),
{
    let gw = gray.width / cache.tile_w;
    let gh = gray.height / cache.tile_h;
    proof {
        lemma_grid_fits(gray.width as int, gray.height as int, cache.tile_w as int,
            cache.tile_h as int);
    }
    let coords = grid_coords(gw, gh);
    let mut results: Vec<PixelBuffer> = Vec::new();
    let mut k: usize = 0;
    while k < coords.len()
        invariant
            k <= coords@.len(),
            render_inputs_ok(*rgb, *gray, *cache, pixel_size, crop),
            forall|j: int|
                0 <= j < coords@.len() ==> ((#[trigger] coords@[j]).0 as int) < grid_w(*gray, *cache)
                    && (coords@[j].1 as int) < grid_h(*gray, *cache),
            results@.len() == k as int,
            forall|j: int|
                0 <= j < k as int ==> (#[trigger] results@[j]).wf() && results@[j].width
                    == cache.tile_w && results@[j].height == cache.tile_h,
            forall|j: int, u: int, v: int|
                0 <= j < k as int && 0 <= u < cache.tile_w as int && 0 <= v
                    < cache.tile_h as int ==> #[trigger] results@[j].pixel(u, v)
                    == composed_tile_pixel(
                    font_data@,
                    pixel_size,
                    crop,
                    *cache,
                    *rgb,
                    *gray,
                    coords@[j].0 as int,
                    coords@[j].1 as int,
                    u,
                    v,
                ),
        decreases coords@.len() - k,
    {
        let (gx, gy) = coords[k];
        let tile = compose_tile(rgb, gray, cache, font_data, pixel_size, crop, gx, gy);
        results.push(tile);
        k = k + 1;
    }
    let mut canvas = PixelBuffer::create(gray.width, gray.height, background);
    blit_tiles(&mut canvas, &results, &coords, rgb, gray, cache, font_data, pixel_size, crop,
        background);
    canvas
}

/// The grid is never larger than the image: `(w / tw) * (h / th) <= w * h`.
proof fn lemma_grid_fits(w: int, h: int, tw: int, th: int)
    requires
        0 <= w,
        0 <= h,
        1 <= tw,
        1 <= th,
    ensures
        0 <= (w / tw) * (h / th) <= w * h,
        0 <= w / tw,
        0 <= h / th,
{
    lemma_div_pos_is_pos(w, tw);
    lemma_div_pos_is_pos(h, th);
    lemma_div_nonincreasing(w, tw);
    lemma_div_nonincreasing(h, th);
    lemma_mul_upper_bound(w / tw, w, h / th, h);
    assert(0 <= (w / tw) * (h / th)) by (nonlinear_arith)
        requires
            0 <= w / tw && 0 <= h / th,
    ;
}

/// Partial tiles are dropped: every pixel outside the whole-tile grid — the
/// trailing right column and bottom row of a source whose dimensions are not
/// exact multiples of the tile size — keeps the canvas's background fill.
pub proof fn lemma_partial_edges_keep_background(
    font: Seq<u8>,
    pixel_size: u32,
    crop: CropRegion,
    cache: GlyphCache,
    rgb: PixelBuffer,
    gray: PixelBuffer,
    background: Rgb,
    x: int,
    y: int,
)
    requires
        x >= grid_w(gray, cache) * cache.tile_w as int || y >= grid_h(gray, cache)
            * cache.tile_h as int,
    ensures
        rendered_pixel(font, pixel_size, crop, cache, rgb, gray, background, x, y) == background,
{
}

/// Determinism of compositing: any two canvases that satisfy the rendering
/// characterization over the same inputs are identical, pixel for pixel. In
/// particular the parallel and the sequential pipeline produce byte-identical
/// output on the same input, whatever order the parallel tasks ran in.
pub proof fn lemma_render_deterministic(
    a: PixelBuffer,
    b: PixelBuffer,
    rgb: PixelBuffer,
    gray: PixelBuffer,
    cache: GlyphCache,
    font: Seq<u8>,
    pixel_size: u32,
    crop: CropRegion,
    background: Rgb,
)
    requires
        a.wf(),
        b.wf(),
        a.width == gray.width,
        a.height == gray.height,
        b.width == gray.width,
        b.height == gray.height,
        forall|x: int, y: int|
            a.in_bounds(x, y) ==> #[trigger] a.pixel(x, y) == rendered_pixel(
                font,
                pixel_size,
                crop,
                cache,
                rgb,
                gray,
                background,
                x,
                y,
            ),
        forall|x: int, y: int|
            b.in_bounds(x, y) ==> #[trigger] b.pixel(x, y) == rendered_pixel(
                font,
                pixel_size,
                crop,
                cache,
                rgb,
                gray,
                background,
                x,
                y,
            ),
    ensures
        a.width == b.width,
        a.height == b.height,
        a@ == b@,
{
    let w = gray.width as int;
    let h = gray.height as int;
    assert forall|k: int| 0 <= k < a@.len() implies a@[k] == b@[k] by {
        assert(w * h > 0) by (nonlinear_arith)
            requires
                0 <= k < w * h && 0 <= w && 0 <= h,
        ;
        let x = k % w;
        let y = k / w;
        lemma_mod_bound(k, w);
        lemma_div_pos_is_pos(k, w);
        lemma_multiply_divide_lt(k, w, h);
        lemma_fundamental_div_mod(k, w);
        assert(w * (k / w) == (k / w) * w) by (nonlinear_arith);
        assert(a.pixel(x, y) == a@[k]);
        assert(b.pixel(x, y) == b@[k]);
        assert(a.in_bounds(x, y));
    }
    assert(a@ =~= b@);
}

} // verus!
