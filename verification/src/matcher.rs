//! Best-match selection: of all cached glyphs, the one whose dissimilarity
//! score against a source tile is least. All cached glyphs share the tile's
//! dimensions, so their scores share one denominator and compare by their
//! numerators. The selection direction is an explicit, documented choice:
//! `best_character` takes the minimal score (the closest visual match), with
//! ties broken by the earliest character in alphabet order;
//! `most_dissimilar_character` is the inverted policy, kept alongside it and
//! tested by name, so that the direction of comparison is intentional rather
//! than incidental.

use vstd::prelude::*;
use crate::buffer::PixelBuffer;
use crate::glyphs::GlyphCache;
use crate::metric::{diff_sum, score};

verus! {

/// The dissimilarity numerator of glyph `i` against the tile of `s` whose
/// top-left corner is `(tx, ty)`.
pub open spec fn glyph_num(cache: GlyphCache, s: PixelBuffer, tx: int, ty: int, i: int) -> int {
    diff_sum(cache.images@[i], s, tx, ty)
}

/// The index of the first glyph among `[0, n)` whose score is minimal.
pub open spec fn best_index(cache: GlyphCache, s: PixelBuffer, tx: int, ty: int, n: nat) -> int
    decreases n,
{
    if n <= 1 {
        0
    } else {
        let prev = best_index(cache, s, tx, ty, (n - 1) as nat);
        if glyph_num(cache, s, tx, ty, n - 1) < glyph_num(cache, s, tx, ty, prev) {
            n - 1
        } else {
            prev
        }
    }
}

/// The index of the last glyph among `[0, n)` whose score is maximal.
pub open spec fn worst_index(cache: GlyphCache, s: PixelBuffer, tx: int, ty: int, n: nat) -> int
    decreases n,
{
    if n <= 1 {
        0
    } else {
        let prev = worst_index(cache, s, tx, ty, (n - 1) as nat);
        if glyph_num(cache, s, tx, ty, n - 1) >= glyph_num(cache, s, tx, ty, prev) {
            n - 1
        } else {
            prev
        }
    }
}

/// `best_index` names the first minimum: no glyph scores below it, and every
/// glyph before it scores strictly above it.
pub proof fn lemma_best_index_minimal(cache: GlyphCache, s: PixelBuffer, tx: int, ty: int, n: nat)
    requires
        n >= 1,
    ensures
        0 <= best_index(cache, s, tx, ty, n) < n,
        forall|j: int|
            0 <= j < n ==> glyph_num(cache, s, tx, ty, best_index(cache, s, tx, ty, n))
                <= #[trigger] glyph_num(cache, s, tx, ty, j),
        forall|j: int|
            0 <= j < best_index(cache, s, tx, ty, n) ==> #[trigger] glyph_num(cache, s, tx, ty, j)
                > glyph_num(cache, s, tx, ty, best_index(cache, s, tx, ty, n)),
    decreases n,
{
    if n > 1 {
        lemma_best_index_minimal(cache, s, tx, ty, (n - 1) as nat);
    }
}

/// `worst_index` names the last maximum: no glyph scores above it, and every
/// glyph after it scores strictly below it.
pub proof fn lemma_worst_index_maximal(cache: GlyphCache, s: PixelBuffer, tx: int, ty: int, n: nat)
    requires
        n >= 1,
    ensures
        0 <= worst_index(cache, s, tx, ty, n) < n,
        forall|j: int|
            0 <= j < n ==> glyph_num(cache, s, tx, ty, worst_index(cache, s, tx, ty, n))
                >= #[trigger] glyph_num(cache, s, tx, ty, j),
        forall|j: int|
            worst_index(cache, s, tx, ty, n) < j < n ==> #[trigger] glyph_num(cache, s, tx, ty, j)
                < glyph_num(cache, s, tx, ty, worst_index(cache, s, tx, ty, n)),
    decreases n,
{
    if n > 1 {
        lemma_worst_index_maximal(cache, s, tx, ty, (n - 1) as nat);
    }
}

/// The character whose glyph most closely matches the tile of `s` at
/// `(tx, ty)`: the minimal dissimilarity score, earliest character on ties.
pub fn best_character(cache: &GlyphCache, s: &PixelBuffer, tx: u32, ty: u32) -> (c: char)
    requires
        cache.wf(),
        cache.chars@.len() >= 1,
        s.wf(),
        tx as int + cache.tile_w as int <= s.width as int,
        ty as int + cache.tile_h as int <= s.height as int,
    ensures
        c == cache.chars@[best_index(*cache, *s, tx as int, ty as int, cache.chars@.len())],
{
    let n = cache.chars.len();
    let first = score(&cache.images[0], s, tx, ty);
    let mut best_num: u64 = first.num;
    let mut best_i: usize = 0;
    let mut i: usize = 1;
    while i < n
        invariant
            1 <= i <= n,
            n == cache.chars@.len(),
            cache.wf(),
            s.wf(),
            tx as int + cache.tile_w as int <= s.width as int,
            ty as int + cache.tile_h as int <= s.height as int,
            0 <= best_i < i,
            best_i as int == best_index(*cache, *s, tx as int, ty as int, i as nat),
            best_num as int == glyph_num(*cache, *s, tx as int, ty as int, best_i as int),
        decreases n - i,
    {
        let sc = score(&cache.images[i], s, tx, ty);
        if sc.num < best_num {
            best_num = sc.num;
            best_i = i;
        }
        i = i + 1;
    }
    cache.chars[best_i]
}

/// The inverted selection policy: the character whose glyph is most unlike
/// the tile (the maximal score), latest character on ties.
pub fn most_dissimilar_character(cache: &GlyphCache, s: &PixelBuffer, tx: u32, ty: u32) -> (c:
    char)
    requires
        cache.wf(),
        cache.chars@.len() >= 1,
        s.wf(),
        tx as int + cache.tile_w as int <= s.width as int,
        ty as int + cache.tile_h as int <= s.height as int,
    ensures
        c == cache.chars@[worst_index(*cache, *s, tx as int, ty as int, cache.chars@.len())],
{
    let n = cache.chars.len();
    let first = score(&cache.images[0], s, tx, ty);
    let mut worst_num: u64 = first.num;
    let mut worst_i: usize = 0;
    let mut i: usize = 1;
    while i < n
        invariant
            1 <= i <= n,
            n == cache.chars@.len(),
            cache.wf(),
            s.wf(),
            tx as int + cache.tile_w as int <= s.width as int,
            ty as int + cache.tile_h as int <= s.height as int,
            0 <= worst_i < i,
            worst_i as int == worst_index(*cache, *s, tx as int, ty as int, i as nat),
            worst_num as int == glyph_num(*cache, *s, tx as int, ty as int, worst_i as int),
        decreases n - i,
    {
        let sc = score(&cache.images[i], s, tx, ty);
        if sc.num >= worst_num {
            worst_num = sc.num;
            worst_i = i;
        }
        i = i + 1;
    }
    cache.chars[worst_i]
}

} // verus!
