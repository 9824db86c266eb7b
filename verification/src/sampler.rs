//! Per-tile color sampling: the arithmetic mean of each channel (the
//! foreground color of a re-rendered glyph), and the average perceptual
//! brightness `(2r + 3g + b) / 6`, replicated across channels (the background
//! color). All divisions are integer floor divisions.

use vstd::prelude::*;
use vstd::arithmetic::div_mod::{lemma_div_is_ordered, lemma_div_by_multiple, lemma_div_pos_is_pos};
use vstd::arithmetic::mul::{lemma_mul_upper_bound, lemma_mul_strictly_positive};
use crate::Rgb;
use crate::buffer::PixelBuffer;

verus! {

/// `f` summed over the first `n` pixels of the window row `v`: source pixels
/// `(tx + u, ty + v)` for `u < n`.
pub open spec fn row_sum(
    s: PixelBuffer,
    tx: int,
    ty: int,
    v: int,
    n: nat,
    f: spec_fn(Rgb) -> int,
) -> int
    decreases n,
{
    if n == 0 {
        0
    } else {
        row_sum(s, tx, ty, v, (n - 1) as nat, f) + f(s.pixel(tx + (n - 1), ty + v))
    }
}

/// `f` summed over the first `n` rows of the `tw`-wide window at `(tx, ty)`.
pub open spec fn tile_sum(
    s: PixelBuffer,
    tx: int,
    ty: int,
    tw: nat,
    n: nat,
    f: spec_fn(Rgb) -> int,
) -> int
    decreases n,
{
    if n == 0 {
        0
    } else {
        tile_sum(s, tx, ty, tw, (n - 1) as nat, f) + row_sum(s, tx, ty, n - 1, tw, f)
    }
}

/// The perceptual brightness of one pixel, floor-divided.
pub open spec fn brightness(p: Rgb) -> int {
    (2 * p.r as int + 3 * p.g as int + p.b as int) / 6
}

pub open spec fn chan_r_fn() -> spec_fn(Rgb) -> int {
    |p: Rgb| p.r as int
}

pub open spec fn chan_g_fn() -> spec_fn(Rgb) -> int {
    |p: Rgb| p.g as int
}

pub open spec fn chan_b_fn() -> spec_fn(Rgb) -> int {
    |p: Rgb| p.b as int
}

pub open spec fn brightness_fn() -> spec_fn(Rgb) -> int {
    |p: Rgb| brightness(p)
}

/// The average of `f` over a `tw x th` window: the sum floor-divided by the
/// pixel count.
pub open spec fn avg_over(
    s: PixelBuffer,
    tx: int,
    ty: int,
    tw: nat,
    th: nat,
    f: spec_fn(Rgb) -> int,
) -> int {
    tile_sum(s, tx, ty, tw, th, f) / (tw * th) as int
}

/// The arithmetic mean of each channel over the window, truncated.
pub open spec fn spec_average_color(s: PixelBuffer, tx: int, ty: int, tw: nat, th: nat) -> Rgb {
    Rgb {
        r: avg_over(s, tx, ty, tw, th, chan_r_fn()) as u8,
        g: avg_over(s, tx, ty, tw, th, chan_g_fn()) as u8,
        b: avg_over(s, tx, ty, tw, th, chan_b_fn()) as u8,
    }
}

/// The average brightness over the window, replicated across channels.
pub open spec fn spec_average_brightness(s: PixelBuffer, tx: int, ty: int, tw: nat, th: nat) -> Rgb {
    let v = avg_over(s, tx, ty, tw, th, brightness_fn()) as u8;
    Rgb { r: v, g: v, b: v }
}

/// Every pixel of the `tw x th` window at `(tx, ty)` holds the color `c`.
pub open spec fn window_uniform(
    s: PixelBuffer,
    tx: int,
    ty: int,
    tw: nat,
    th: nat,
    c: Rgb,
) -> bool {
    forall|x: int, y: int|
        tx <= x < tx + tw && ty <= y < ty + th ==> #[trigger] s.pixel(x, y) == c
}

proof fn lemma_brightness_range(p: Rgb)
    ensures
        0 <= brightness(p) <= 255,
{
    let x = 2 * p.r as int + 3 * p.g as int + p.b as int;
    lemma_div_pos_is_pos(x, 6);
    lemma_div_is_ordered(x, 1530, 6);
}

/// A row's sum of a function with range `[0, bound]` lies in `[0, n * bound]`.
proof fn lemma_row_sum_bounds(
    s: PixelBuffer,
    tx: int,
    ty: int,
    v: int,
    n: nat,
    f: spec_fn(Rgb) -> int,
    bound: int,
)
    requires
        forall|p: Rgb| 0 <= #[trigger] f(p) <= bound,
    ensures
        0 <= row_sum(s, tx, ty, v, n, f) <= n * bound,
    decreases n,
{
    if n > 0 {
        let m = (n - 1) as nat;
        lemma_row_sum_bounds(s, tx, ty, v, m, f, bound);
        assert(row_sum(s, tx, ty, v, n, f) == row_sum(s, tx, ty, v, m, f) + f(
            s.pixel(tx + (n - 1), ty + v),
        ));
        assert(0 <= f(s.pixel(tx + (n - 1), ty + v)) <= bound);
        assert(row_sum(s, tx, ty, v, m, f) <= m * bound);
        assert(m as int * bound + bound == n as int * bound) by (nonlinear_arith)
            requires
                m + 1 == n,
        ;
        assert(0 <= row_sum(s, tx, ty, v, n, f));
        assert(row_sum(s, tx, ty, v, n, f) <= n * bound);
    } else {
        assert(row_sum(s, tx, ty, v, n, f) == 0);
        assert(n * bound == 0) by (nonlinear_arith)
            requires
                n == 0,
        ;
    }
}

/// A window's sum of a function with range `[0, bound]` lies in
/// `[0, n * tw * bound]`.
proof fn lemma_tile_sum_bounds(
    s: PixelBuffer,
    tx: int,
    ty: int,
    tw: nat,
    n: nat,
    f: spec_fn(Rgb) -> int,
    bound: int,
)
    requires
        forall|p: Rgb| 0 <= #[trigger] f(p) <= bound,
    ensures
        0 <= tile_sum(s, tx, ty, tw, n, f) <= n * tw as int * bound,
    decreases n,
{
    if n > 0 {
        let m = (n - 1) as nat;
        lemma_tile_sum_bounds(s, tx, ty, tw, m, f, bound);
        lemma_row_sum_bounds(s, tx, ty, n - 1, tw, f, bound);
        assert(tile_sum(s, tx, ty, tw, n, f) == tile_sum(s, tx, ty, tw, m, f) + row_sum(
            s,
            tx,
            ty,
            n - 1,
            tw,
            f,
        ));
        assert(tile_sum(s, tx, ty, tw, m, f) <= m * tw as int * bound);
        assert(row_sum(s, tx, ty, n - 1, tw, f) <= tw * bound);
        assert(m as int * tw as int * bound + tw as int * bound == n as int * tw as int * bound)
            by (nonlinear_arith)
            requires
                m + 1 == n,
        ;
        assert(0 <= tile_sum(s, tx, ty, tw, n, f));
        assert(tile_sum(s, tx, ty, tw, n, f) <= n * tw as int * bound);
    } else {
        assert(tile_sum(s, tx, ty, tw, n, f) == 0);
        assert(n * tw as int * bound == 0) by (nonlinear_arith)
            requires
                n == 0,
        ;
    }
}

proof fn lemma_row_sum_uniform(
    s: PixelBuffer,
    tx: int,
    ty: int,
    v: int,
    n: nat,
    f: spec_fn(Rgb) -> int,
    c: Rgb,
)
    requires
        forall|x: int| tx <= x < tx + n ==> #[trigger] s.pixel(x, ty + v) == c,
    ensures
        row_sum(s, tx, ty, v, n, f) == n * f(c),
    decreases n,
{
    if n > 0 {
        let m = (n - 1) as nat;
        lemma_row_sum_uniform(s, tx, ty, v, m, f, c);
        assert(s.pixel(tx + (n - 1), ty + v) == c);
        assert(row_sum(s, tx, ty, v, n, f) == row_sum(s, tx, ty, v, m, f) + f(c));
        assert(row_sum(s, tx, ty, v, m, f) == m * f(c));
        assert(m as int * f(c) + f(c) == n as int * f(c)) by (nonlinear_arith)
            requires
                m + 1 == n,
        ;
        assert(row_sum(s, tx, ty, v, n, f) == n * f(c));
    } else {
        assert(row_sum(s, tx, ty, v, n, f) == 0);
        assert(n * f(c) == 0) by (nonlinear_arith)
            requires
                n == 0,
        ;
    }
}

proof fn lemma_tile_sum_uniform(
    s: PixelBuffer,
    tx: int,
    ty: int,
    tw: nat,
    th: nat,
    n: nat,
    f: spec_fn(Rgb) -> int,
    c: Rgb,
)
    requires
        window_uniform(s, tx, ty, tw, th, c),
        n <= th,
    ensures
        tile_sum(s, tx, ty, tw, n, f) == n * tw as int * f(c),
    decreases n,
{
    if n > 0 {
        let m = (n - 1) as nat;
        lemma_tile_sum_uniform(s, tx, ty, tw, th, m, f, c);
        assert forall|x: int| tx <= x < tx + tw implies #[trigger] s.pixel(x, ty + (n - 1))
            == c by {}
        lemma_row_sum_uniform(s, tx, ty, n - 1, tw, f, c);
        assert(tile_sum(s, tx, ty, tw, n, f) == tile_sum(s, tx, ty, tw, m, f) + row_sum(
            s,
            tx,
            ty,
            n - 1,
            tw,
            f,
        ));
        assert(tile_sum(s, tx, ty, tw, m, f) == m * tw as int * f(c));
        assert(row_sum(s, tx, ty, n - 1, tw, f) == tw * f(c));
        assert(m as int * tw as int * f(c) + tw as int * f(c) == n as int * tw as int * f(c))
            by (nonlinear_arith)
            requires
                m + 1 == n,
        ;
        assert(tile_sum(s, tx, ty, tw, n, f) == n * tw as int * f(c));
    } else {
        assert(tile_sum(s, tx, ty, tw, n, f) == 0);
        assert(n * tw as int * f(c) == 0) by (nonlinear_arith)
            requires
                n == 0,
        ;
    }
}

/// Over a uniform window the average of `f` is exactly `f(c)`.
proof fn lemma_avg_over_uniform(
    s: PixelBuffer,
    tx: int,
    ty: int,
    tw: nat,
    th: nat,
    f: spec_fn(Rgb) -> int,
    c: Rgb,
)
    requires
        window_uniform(s, tx, ty, tw, th, c),
        1 <= tw,
        1 <= th,
        0 <= f(c),
    ensures
        avg_over(s, tx, ty, tw, th, f) == f(c),
{
    lemma_tile_sum_uniform(s, tx, ty, tw, th, th, f, c);
    let area = (tw * th) as int;
    lemma_mul_strictly_positive(tw as int, th as int);
    assert(th as int * tw as int * f(c) == f(c) * area) by (nonlinear_arith)
        requires
            area == tw as int * th as int,
    ;
    lemma_div_by_multiple(f(c), area);
}

/// The average color of a uniformly filled window is exactly its fill color.
pub proof fn lemma_average_color_uniform(
    s: PixelBuffer,
    tx: int,
    ty: int,
    tw: nat,
    th: nat,
    c: Rgb,
)
    requires
        window_uniform(s, tx, ty, tw, th, c),
        1 <= tw,
        1 <= th,
    ensures
        spec_average_color(s, tx, ty, tw, th) == c,
{
    lemma_avg_over_uniform(s, tx, ty, tw, th, chan_r_fn(), c);
    lemma_avg_over_uniform(s, tx, ty, tw, th, chan_g_fn(), c);
    lemma_avg_over_uniform(s, tx, ty, tw, th, chan_b_fn(), c);
}

/// The average brightness of a window uniformly filled with `c` is exactly
/// the floor-divided brightness of `c`, replicated across channels.
pub proof fn lemma_average_brightness_uniform(
    s: PixelBuffer,
    tx: int,
    ty: int,
    tw: nat,
    th: nat,
    c: Rgb,
)
    requires
        window_uniform(s, tx, ty, tw, th, c),
        1 <= tw,
        1 <= th,
    ensures
        spec_average_brightness(s, tx, ty, tw, th) == (Rgb {
            r: brightness(c) as u8,
            g: brightness(c) as u8,
            b: brightness(c) as u8,
        }),
{
    lemma_brightness_range(c);
    lemma_avg_over_uniform(s, tx, ty, tw, th, brightness_fn(), c);
}

/// The arithmetic mean of each channel across all pixels of the `tw x th`
/// window of `s` at `(tx, ty)`, truncated to an integer channel value.
pub fn average_color(s: &PixelBuffer, tx: u32, ty: u32, tw: u32, th: u32) -> (c: Rgb)
    requires
        s.wf(),
        1 <= tw,
        1 <= th,
        tw as int * th as int * 255 <= u64::MAX as int,
        tx as int + tw as int <= s.width as int,
        ty as int + th as int <= s.height as int,
    ensures
        c == spec_average_color(*s, tx as int, ty as int, tw as nat, th as nat),
        c.r as int == avg_over(*s, tx as int, ty as int, tw as nat, th as nat, chan_r_fn()),
        c.g as int == avg_over(*s, tx as int, ty as int, tw as nat, th as nat, chan_g_fn()),
        c.b as int == avg_over(*s, tx as int, ty as int, tw as nat, th as nat, chan_b_fn()),
    {
    let (sr, sg, sb) = channel_sums(s, tx, ty, tw, th);
    proof {
        lemma_mul_strictly_positive(tw as int, th as int);
        lemma_mul_upper_bound(tw as int, u32::MAX as int, th as int, u32::MAX as int);
    }
    let area: u64 = (tw as u64) * (th as u64);
    proof {
        lemma_avg_in_byte_range(*s, tx as int, ty as int, tw as nat, th as nat, chan_r_fn());
        lemma_avg_in_byte_range(*s, tx as int, ty as int, tw as nat, th as nat, chan_g_fn());
        lemma_avg_in_byte_range(*s, tx as int, ty as int, tw as nat, th as nat, chan_b_fn());
    }
    Rgb { r: (sr / area) as u8, g: (sg / area) as u8, b: (sb / area) as u8 }
}

/// The average perceptual brightness over the window, as a grayscale RGB
/// triple, so it can serve directly as a background color.
pub fn average_brightness(s: &PixelBuffer, tx: u32, ty: u32, tw: u32, th: u32) -> (c: Rgb)
    requires
        s.wf(),
        1 <= tw,
        1 <= th,
        tw as int * th as int * 255 <= u64::MAX as int,
        tx as int + tw as int <= s.width as int,
        ty as int + th as int <= s.height as int,
    ensures
        c == spec_average_brightness(*s, tx as int, ty as int, tw as nat, th as nat),
        c.r == c.g && c.g == c.b,
        c.r as int == avg_over(*s, tx as int, ty as int, tw as nat, th as nat, brightness_fn()),
    {
    let sum = brightness_sum(s, tx, ty, tw, th);
    proof {
        lemma_mul_strictly_positive(tw as int, th as int);
        lemma_mul_upper_bound(tw as int, u32::MAX as int, th as int, u32::MAX as int);
    }
    let area: u64 = (tw as u64) * (th as u64);
    proof {
        lemma_avg_in_byte_range(*s, tx as int, ty as int, tw as nat, th as nat, brightness_fn());
    }
    let v = (sum / area) as u8;
    Rgb { r: v, g: v, b: v }
}

/// A channel-like function bounded by 255 averages into a byte.
proof fn lemma_avg_in_byte_range(
    s: PixelBuffer,
    tx: int,
    ty: int,
    tw: nat,
    th: nat,
    f: spec_fn(Rgb) -> int,
)
    requires
        1 <= tw,
        1 <= th,
        forall|p: Rgb| 0 <= #[trigger] f(p) <= 255,
    ensures
        0 <= avg_over(s, tx, ty, tw, th, f) <= 255,
{
    let area = (tw * th) as int;
    let sum = tile_sum(s, tx, ty, tw, th, f);
    lemma_tile_sum_bounds(s, tx, ty, tw, th, f, 255);
    lemma_mul_strictly_positive(tw as int, th as int);
    assert(th as int * tw as int * 255 == 255 * area) by (nonlinear_arith)
        requires
            area == tw as int * th as int,
    ;
    lemma_div_pos_is_pos(sum, area);
    lemma_div_is_ordered(sum, 255 * area, area);
    lemma_div_by_multiple(255, area);
}

/// The three channel sums over the window, each in `[0, 255 * area]`.
fn channel_sums(s: &PixelBuffer, tx: u32, ty: u32, tw: u32, th: u32) -> (sums: (u64, u64, u64))
    requires
        s.wf(),
        1 <= tw,
        1 <= th,
        tw as int * th as int * 255 <= u64::MAX as int,
        tx as int + tw as int <= s.width as int,
        ty as int + th as int <= s.height as int,
    ensures
        sums.0 as int == tile_sum(*s, tx as int, ty as int, tw as nat, th as nat, chan_r_fn()),
        sums.1 as int == tile_sum(*s, tx as int, ty as int, tw as nat, th as nat, chan_g_fn()),
        sums.2 as int == tile_sum(*s, tx as int, ty as int, tw as nat, th as nat, chan_b_fn()),
{
    let mut sr: u64 = 0;
    let mut sg: u64 = 0;
    let mut sb: u64 = 0;
    let mut v: u32 = 0;
    while v < th
        invariant
            v <= th,
            s.wf(),
            1 <= tw,
            1 <= th,
            tw as int * th as int * 255 <= u64::MAX as int,
            tx as int + tw as int <= s.width as int,
            ty as int + th as int <= s.height as int,
            sr as int == tile_sum(*s, tx as int, ty as int, tw as nat, v as nat, chan_r_fn()),
            sg as int == tile_sum(*s, tx as int, ty as int, tw as nat, v as nat, chan_g_fn()),
            sb as int == tile_sum(*s, tx as int, ty as int, tw as nat, v as nat, chan_b_fn()),
        decreases th - v,
    {
        let mut u: u32 = 0;
        while u < tw
            invariant
                u <= tw,
                v < th,
                s.wf(),
                1 <= tw,
                1 <= th,
                tw as int * th as int * 255 <= u64::MAX as int,
                tx as int + tw as int <= s.width as int,
                ty as int + th as int <= s.height as int,
                sr as int == tile_sum(*s, tx as int, ty as int, tw as nat, v as nat, chan_r_fn())
                    + row_sum(*s, tx as int, ty as int, v as int, u as nat, chan_r_fn()),
                sg as int == tile_sum(*s, tx as int, ty as int, tw as nat, v as nat, chan_g_fn())
                    + row_sum(*s, tx as int, ty as int, v as int, u as nat, chan_g_fn()),
                sb as int == tile_sum(*s, tx as int, ty as int, tw as nat, v as nat, chan_b_fn())
                    + row_sum(*s, tx as int, ty as int, v as int, u as nat, chan_b_fn()),
            decreases tw - u,
        {
            proof {
                lemma_sums_fit(*s, tx as int, ty as int, tw as nat, th as nat, v as int, u as nat,
                    chan_r_fn());
                lemma_sums_fit(*s, tx as int, ty as int, tw as nat, th as nat, v as int, u as nat,
                    chan_g_fn());
                lemma_sums_fit(*s, tx as int, ty as int, tw as nat, th as nat, v as int, u as nat,
                    chan_b_fn());
            }
            let p = s.get_pixel(tx + u, ty + v);
            sr = sr + (p.r as u64);
            sg = sg + (p.g as u64);
            sb = sb + (p.b as u64);
            u = u + 1;
        }
        v = v + 1;
    }
    (sr, sg, sb)
}

/// The brightness sum over the window, in `[0, 255 * area]`.
fn brightness_sum(s: &PixelBuffer, tx: u32, ty: u32, tw: u32, th: u32) -> (sum: u64)
    requires
        s.wf(),
        1 <= tw,
        1 <= th,
        tw as int * th as int * 255 <= u64::MAX as int,
        tx as int + tw as int <= s.width as int,
        ty as int + th as int <= s.height as int,
    ensures
        sum as int == tile_sum(*s, tx as int, ty as int, tw as nat, th as nat, brightness_fn()),
{
    proof {
        assert forall|p: Rgb| 0 <= #[trigger] brightness_fn()(p) <= 255 by {
            lemma_brightness_range(p);
        }
    }
    let mut sum: u64 = 0;
    let mut v: u32 = 0;
    while v < th
        invariant
            v <= th,
            s.wf(),
            1 <= tw,
            1 <= th,
            tw as int * th as int * 255 <= u64::MAX as int,
            tx as int + tw as int <= s.width as int,
            ty as int + th as int <= s.height as int,
            forall|p: Rgb| 0 <= #[trigger] brightness_fn()(p) <= 255,
            sum as int == tile_sum(*s, tx as int, ty as int, tw as nat, v as nat, brightness_fn()),
        decreases th - v,
    {
        let mut u: u32 = 0;
        while u < tw
            invariant
                u <= tw,
                v < th,
                s.wf(),
                1 <= tw,
                1 <= th,
                tw as int * th as int * 255 <= u64::MAX as int,
                tx as int + tw as int <= s.width as int,
                ty as int + th as int <= s.height as int,
                forall|p: Rgb| 0 <= #[trigger] brightness_fn()(p) <= 255,
                sum as int == tile_sum(*s, tx as int, ty as int, tw as nat, v as nat,
                    brightness_fn()) + row_sum(*s, tx as int, ty as int, v as int, u as nat,
                    brightness_fn()),
            decreases tw - u,
        {
            proof {
                lemma_sums_fit(*s, tx as int, ty as int, tw as nat, th as nat, v as int, u as nat,
                    brightness_fn());
            }
            let p = s.get_pixel(tx + u, ty + v);
            let b: u64 = (2 * (p.r as u64) + 3 * (p.g as u64) + (p.b as u64)) / 6;
            proof {
                lemma_brightness_range(p);
            }
            sum = sum + b;
            u = u + 1;
        }
        v = v + 1;
    }
    sum
}

/// Mid-accumulation, a byte-bounded sum has room for one more pixel.
proof fn lemma_sums_fit(
    s: PixelBuffer,
    tx: int,
    ty: int,
    tw: nat,
    th: nat,
    v: int,
    u: nat,
    f: spec_fn(Rgb) -> int,
)
    requires
        forall|p: Rgb| 0 <= #[trigger] f(p) <= 255,
        0 <= v < th,
        u < tw,
        tw as int * th as int * 255 <= u64::MAX as int,
    ensures
        0 <= tile_sum(s, tx, ty, tw, v as nat, f) + row_sum(s, tx, ty, v, u, f),
        tile_sum(s, tx, ty, tw, v as nat, f) + row_sum(s, tx, ty, v, u, f) + 255
            <= u64::MAX as int,
{
    lemma_tile_sum_bounds(s, tx, ty, tw, v as nat, f, 255);
    lemma_row_sum_bounds(s, tx, ty, v, u, f, 255);
    crate::buffer::lemma_index_bound(tw as int, th as int, u as int, v);
    assert(v * tw as int * 255 + u * 255 + 255 <= tw as int * th as int * 255) by (nonlinear_arith)
        requires
            (v * tw as int + u) < (tw as int * th as int),
            0 <= u,
            0 <= v,
            0 <= tw as int,
    ;
    assert(v * tw as int * 255 == 255 * v * tw as int) by (nonlinear_arith);
    assert(u * 255 == 255 * u as int) by (nonlinear_arith);
}

} // verus!

