//! The dissimilarity metric between a glyph bitmap and an equally sized tile
//! of a source image. The score is the sum over all pixels of the absolute
//! luminance difference, as the exact rational `num / den` with
//! `den = 255 * area`, so that scores are comparable across tile sizes
//! without rounding. Luminance is the red channel: both the glyph bitmaps
//! used for matching and the desaturated source replicate luminance across
//! channels, so one channel carries it whole.

use vstd::prelude::*;
use vstd::arithmetic::mul::lemma_mul_upper_bound;
use crate::Rgb;
use crate::buffer::PixelBuffer;

verus! {

pub open spec fn abs_diff(a: int, b: int) -> int {
    if a >= b {
        a - b
    } else {
        b - a
    }
}

/// The luminance convention: the red channel of an already-desaturated pixel.
pub open spec fn lum(p: Rgb) -> int {
    p.r as int
}

/// Luminance difference summed over the first `n` pixels of row `v`: glyph
/// pixel `(u, v)` against source pixel `(tx + u, ty + v)`.
pub open spec fn row_diff_sum(g: PixelBuffer, s: PixelBuffer, tx: int, ty: int, v: int, n: nat) -> int
    decreases n,
{
    if n == 0 {
        0
    } else {
        row_diff_sum(g, s, tx, ty, v, (n - 1) as nat) + abs_diff(
            lum(g.pixel(n - 1, v)),
            lum(s.pixel(tx + (n - 1), ty + v)),
        )
    }
}

/// Luminance difference summed over the first `n` full rows.
pub open spec fn tile_diff_sum(g: PixelBuffer, s: PixelBuffer, tx: int, ty: int, n: nat) -> int
    decreases n,
{
    if n == 0 {
        0
    } else {
        tile_diff_sum(g, s, tx, ty, (n - 1) as nat) + row_diff_sum(
            g,
            s,
            tx,
            ty,
            n - 1,
            g.width as nat,
        )
    }
}

/// The full dissimilarity numerator between glyph `g` and the tile of `s`
/// whose top-left corner is `(tx, ty)`.
pub open spec fn diff_sum(g: PixelBuffer, s: PixelBuffer, tx: int, ty: int) -> int {
    tile_diff_sum(g, s, tx, ty, g.height as nat)
}

/// A dissimilarity score, the exact rational `num / den`. Zero means
/// pixel-identical luminance; it grows with per-pixel luminance divergence.
#[derive(Clone, Copy, PartialEq, Eq, Structural, Debug)]
pub struct Score {
    pub num: u64,
    pub den: u64,
}

impl Score {
    pub open spec fn wf(self) -> bool {
        0 < self.den && self.num <= self.den
    }

    pub open spec fn spec_le(self, other: Score) -> bool {
        self.num as int * other.den as int <= other.num as int * self.den as int
    }

    pub open spec fn spec_lt(self, other: Score) -> bool {
        (self.num as int * other.den as int) < (other.num as int * self.den as int)
    }

    pub fn le(&self, other: &Score) -> (r: bool)
        ensures
            r == self.spec_le(*other),
    {
        proof {
            lemma_mul_upper_bound(self.num as int, u64::MAX as int, other.den as int,
                u64::MAX as int);
            lemma_mul_upper_bound(other.num as int, u64::MAX as int, self.den as int,
                u64::MAX as int);
        }
        (self.num as u128) * (other.den as u128) <= (other.num as u128) * (self.den as u128)
    }

    pub fn lt(&self, other: &Score) -> (r: bool)
        ensures
            r == self.spec_lt(*other),
    {
        proof {
            lemma_mul_upper_bound(self.num as int, u64::MAX as int, other.den as int,
                u64::MAX as int);
            lemma_mul_upper_bound(other.num as int, u64::MAX as int, self.den as int,
                u64::MAX as int);
        }
        (self.num as u128) * (other.den as u128) < (other.num as u128) * (self.den as u128)
    }

    /// Exactly zero: the compared buffers had pixel-identical luminance.
    pub fn is_zero(&self) -> (r: bool)
        ensures
            r == (self.num == 0),
    {
        self.num == 0
    }
}

/// A row's sum lies in `[0, 255 * n]`.
proof fn lemma_row_diff_sum_bounds(g: PixelBuffer, s: PixelBuffer, tx: int, ty: int, v: int, n: nat)
    ensures
        0 <= row_diff_sum(g, s, tx, ty, v, n) <= 255 * n,
    decreases n,
{
    if n > 0 {
        lemma_row_diff_sum_bounds(g, s, tx, ty, v, (n - 1) as nat);
    }
}

/// A tile's sum lies in `[0, 255 * n * g.width]`.
proof fn lemma_tile_diff_sum_bounds(g: PixelBuffer, s: PixelBuffer, tx: int, ty: int, n: nat)
    ensures
        0 <= tile_diff_sum(g, s, tx, ty, n) <= 255 * n * g.width as int,
    decreases n,
{
    if n > 0 {
        lemma_tile_diff_sum_bounds(g, s, tx, ty, (n - 1) as nat);
        lemma_row_diff_sum_bounds(g, s, tx, ty, n - 1, g.width as nat);
        assert(255 * (n - 1) * g.width as int + 255 * g.width as int == 255 * n * g.width as int)
            by (nonlinear_arith);
    }
}

/// The dissimilarity between glyph `g` and the equally sized tile of `s` at
/// `(tx, ty)`: the summed absolute luminance difference over the tile area,
/// as an exact rational with denominator `255 * area`.
pub fn score(g: &PixelBuffer, s: &PixelBuffer, tx: u32, ty: u32) -> (sc: Score)
    requires
        g.wf(),
        s.wf(),
        1 <= g.width,
        1 <= g.height,
        g.width as int * g.height as int * 255 <= u64::MAX as int,
        tx as int + g.width as int <= s.width as int,
        ty as int + g.height as int <= s.height as int,
    ensures
        sc.num as int == diff_sum(*g, *s, tx as int, ty as int),
        sc.den as int == 255 * g.width as int * g.height as int,
        sc.wf(),
{
    let w = g.width;
    let h = g.height;
    let mut sum: u64 = 0;
    let mut v: u32 = 0;
    proof {
        assert(255 * w as int * h as int == w as int * h as int * 255) by (nonlinear_arith);
    }
    while v < h
        invariant
            v <= h,
            g.wf(),
            s.wf(),
            w == g.width,
            h == g.height,
            1 <= w,
            1 <= h,
            w as int * h as int * 255 <= u64::MAX as int,
            tx as int + w as int <= s.width as int,
            ty as int + h as int <= s.height as int,
            sum as int == tile_diff_sum(*g, *s, tx as int, ty as int, v as nat),
        decreases h - v,
    {
        let mut u: u32 = 0;
        while u < w
            invariant
                u <= w,
                v < h,
                g.wf(),
                s.wf(),
                w == g.width,
                h == g.height,
                1 <= w,
                1 <= h,
                w as int * h as int * 255 <= u64::MAX as int,
                tx as int + w as int <= s.width as int,
                ty as int + h as int <= s.height as int,
                sum as int == tile_diff_sum(*g, *s, tx as int, ty as int, v as nat) + row_diff_sum(
                    *g,
                    *s,
                    tx as int,
                    ty as int,
                    v as int,
                    u as nat,
                ),
            decreases w - u,
        {
            proof {
                lemma_tile_diff_sum_bounds(*g, *s, tx as int, ty as int, v as nat);
                lemma_row_diff_sum_bounds(*g, *s, tx as int, ty as int, v as int, u as nat);
                crate::buffer::lemma_index_bound(w as int, h as int, u as int, v as int);
                assert(255 * (v as int * w as int + u as int) + 255 <= 255 * (w as int
                    * h as int)) by (nonlinear_arith)
                    requires
                        (v as int * w as int + u as int) < (w as int * h as int),
                ;
                assert(255 * v as int * w as int + 255 * u as int == 255 * (v as int * w as int
                    + u as int)) by (nonlinear_arith);
                assert(255 * (w as int * h as int) == w as int * h as int * 255)
                    by (nonlinear_arith);
            }
            let gp = g.get_pixel(u, v);
            let sp = s.get_pixel(tx + u, ty + v);
            let d: u64 = if gp.r >= sp.r {
                (gp.r - sp.r) as u64
            } else {
                (sp.r - gp.r) as u64
            };
            sum = sum + d;
            u = u + 1;
        }
        v = v + 1;
    }
    proof {
        lemma_tile_diff_sum_bounds(*g, *s, tx as int, ty as int, h as nat);
        assert(255 * h as int * w as int == 255 * w as int * h as int) by (nonlinear_arith);
        assert((255 * (w as u64) * (h as u64)) as int == 255 * w as int * h as int)
            by (nonlinear_arith)
            requires
                w as int * h as int * 255 <= u64::MAX as int,
        ;
        assert(0 < 255 * w as int * h as int) by (nonlinear_arith)
            requires
                1 <= w as int && 1 <= h as int,
        ;
    }
    let den: u64 = 255 * (w as u64) * (h as u64);
    Score { num: sum, den }
}

proof fn lemma_row_diff_sum_self_zero(g: PixelBuffer, v: int, n: nat)
    ensures
        row_diff_sum(g, g, 0, 0, v, n) == 0,
    decreases n,
{
    if n > 0 {
        lemma_row_diff_sum_self_zero(g, v, (n - 1) as nat);
    }
}

proof fn lemma_tile_diff_sum_self_zero(g: PixelBuffer, n: nat)
    ensures
        tile_diff_sum(g, g, 0, 0, n) == 0,
    decreases n,
{
    if n > 0 {
        lemma_tile_diff_sum_self_zero(g, (n - 1) as nat);
        lemma_row_diff_sum_self_zero(g, n - 1, g.width as nat);
    }
}

/// A buffer compared against an identical tile scores exactly zero.
pub proof fn lemma_score_self_zero(g: PixelBuffer)
    ensures
        diff_sum(g, g, 0, 0) == 0,
{
    lemma_tile_diff_sum_self_zero(g, g.height as nat);
}

proof fn lemma_row_diff_sum_symmetric(a: PixelBuffer, b: PixelBuffer, v: int, n: nat)
    requires
        a.width == b.width,
        a.height == b.height,
    ensures
        row_diff_sum(a, b, 0, 0, v, n) == row_diff_sum(b, a, 0, 0, v, n),
    decreases n,
{
    if n > 0 {
        lemma_row_diff_sum_symmetric(a, b, v, (n - 1) as nat);
    }
}

proof fn lemma_tile_diff_sum_symmetric(a: PixelBuffer, b: PixelBuffer, n: nat)
    requires
        a.width == b.width,
        a.height == b.height,
    ensures
        tile_diff_sum(a, b, 0, 0, n) == tile_diff_sum(b, a, 0, 0, n),
    decreases n,
{
    if n > 0 {
        lemma_tile_diff_sum_symmetric(a, b, (n - 1) as nat);
        lemma_row_diff_sum_symmetric(a, b, n - 1, a.width as nat);
    }
}

/// The metric is symmetric in its two images: with the same luminance channel
/// read from both sides, swapping the buffers leaves the score unchanged.
/// Stated for two whole buffers of equal dimensions (a tile materialized by
/// `crop` compares like the window it came from).
pub proof fn lemma_score_symmetric(a: PixelBuffer, b: PixelBuffer)
    requires
        a.width == b.width,
        a.height == b.height,
    ensures
        diff_sum(a, b, 0, 0) == diff_sum(b, a, 0, 0),
{
    lemma_tile_diff_sum_symmetric(a, b, a.height as nat);
}

} // verus!
