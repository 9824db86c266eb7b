//! A mutable RGB pixel buffer with uniform fill, single-pixel access,
//! rectangle copy (blit) and rectangle extraction (crop). It is the scratch
//! surface for glyph rendering, the shape of a rendered glyph, and the final
//! output canvas.

use vstd::prelude::*;
use vstd::arithmetic::div_mod::lemma_fundamental_div_mod_converse;
use crate::Rgb;

verus! {

/// A `width x height` grid of RGB pixels, stored in row-major order:
/// the pixel at `(x, y)` sits at index `y * width + x`.
pub struct PixelBuffer {
    pub width: u32,
    pub height: u32,
    pub data: Vec<Rgb>,
}

impl View for PixelBuffer {
    type V = Seq<Rgb>;

    open spec fn view(&self) -> Seq<Rgb> {
        self.data@
    }
}

impl PixelBuffer {
    /// The buffer holds exactly one pixel per coordinate.
    pub open spec fn wf(self) -> bool {
        self.data@.len() == self.width as int * self.height as int
    }

    pub open spec fn in_bounds(self, x: int, y: int) -> bool {
        0 <= x < self.width as int && 0 <= y < self.height as int
    }

    pub open spec fn pixel(self, x: int, y: int) -> Rgb {
        self.data@[y * self.width as int + x]
    }

    /// Every in-bounds pixel holds the color `c`.
    pub open spec fn is_uniform(self, c: Rgb) -> bool {
        forall|x: int, y: int| self.in_bounds(x, y) ==> #[trigger] self.pixel(x, y) == c
    }

    /// Every pixel initialized to `fill`.
    pub fn create(width: u32, height: u32, fill: Rgb) -> (buf: PixelBuffer)
        requires
            width as int * height as int <= usize::MAX as int,
        ensures
            buf.wf(),
            buf.width == width,
            buf.height == height,
            buf.is_uniform(fill),
    {
        let n: usize = (width as usize) * (height as usize);
        let mut data: Vec<Rgb> = Vec::new();
        let mut i: usize = 0;
        while i < n
            invariant
                i <= n,
                data@.len() == i as int,
                forall|k: int| 0 <= k < i as int ==> data@[k] == fill,
            decreases n - i,
        {
            data.push(fill);
            i = i + 1;
        }
        let buf = PixelBuffer { width, height, data };
        proof {
            assert forall|x: int, y: int| buf.in_bounds(x, y) implies #[trigger] buf.pixel(x, y)
                == fill by {
                lemma_index_bound(width as int, height as int, x, y);
            }
        }
        buf
    }

    pub fn get_pixel(&self, x: u32, y: u32) -> (p: Rgb)
        requires
            self.wf(),
            self.in_bounds(x as int, y as int),
        ensures
            p == self.pixel(x as int, y as int),
    {
        proof {
            lemma_index_bound(self.width as int, self.height as int, x as int, y as int);
        }
        // The data length is a usize, so the row-major index fits in one.
        let n: usize = self.data.len();
        let i: usize = (y as usize) * (self.width as usize) + (x as usize);
        self.data[i]
    }

    pub fn set_pixel(&mut self, x: u32, y: u32, c: Rgb)
        requires
            old(self).wf(),
            old(self).in_bounds(x as int, y as int),
        ensures
            final(self).wf(),
            final(self).width == old(self).width,
            final(self).height == old(self).height,
            final(self).pixel(x as int, y as int) == c,
            forall|x2: int, y2: int|
                old(self).in_bounds(x2, y2) && !(x2 == x as int && y2 == y as int)
                    ==> #[trigger] final(self).pixel(x2, y2) == old(self).pixel(x2, y2),
    {
        proof {
            lemma_index_bound(self.width as int, self.height as int, x as int, y as int);
        }
        // The data length is a usize, so the row-major index fits in one.
        let n: usize = self.data.len();
        let i: usize = (y as usize) * (self.width as usize) + (x as usize);
        self.data.set(i, c);
        proof {
            let w = self.width as int;
            let h = self.height as int;
            assert forall|x2: int, y2: int|
                old(self).in_bounds(x2, y2) && !(x2 == x as int && y2 == y as int)
                    implies #[trigger] self.pixel(x2, y2) == old(self).pixel(x2, y2) by {
                lemma_index_bound(w, h, x2, y2);
                if y2 * w + x2 == y as int * w + x as int {
                    lemma_index_injective(w, x2, y2, x as int, y as int);
                }
            }
        }
    }

    /// Copies every pixel of `src` into `self`, starting at `(dx, dy)`.
    /// Pixels outside the target rectangle are untouched.
    pub fn blit(&mut self, src: &PixelBuffer, dx: u32, dy: u32)
        requires
            old(self).wf(),
            src.wf(),
            dx as int + src.width as int <= old(self).width as int,
            dy as int + src.height as int <= old(self).height as int,
        ensures
            final(self).wf(),
            final(self).width == old(self).width,
            final(self).height == old(self).height,
            forall|x: int, y: int|
                dx as int <= x < dx as int + src.width as int && dy as int <= y < dy as int
                    + src.height as int ==> #[trigger] final(self).pixel(x, y) == src.pixel(
                    x - dx as int,
                    y - dy as int,
                ),
            forall|x: int, y: int|
                old(self).in_bounds(x, y) && !(dx as int <= x < dx as int + src.width as int
                    && dy as int <= y < dy as int + src.height as int)
                    ==> #[trigger] final(self).pixel(x, y) == old(self).pixel(x, y),
    {
        let mut v: u32 = 0;
        while v < src.height
            invariant
                v <= src.height,
                self.wf(),
                src.wf(),
                self.width == old(self).width,
                self.height == old(self).height,
                dx as int + src.width as int <= self.width as int,
                dy as int + src.height as int <= self.height as int,
                forall|x: int, y: int|
                    dx as int <= x < dx as int + src.width as int && dy as int <= y < dy as int
                        + v as int ==> #[trigger] self.pixel(x, y) == src.pixel(
                        x - dx as int,
                        y - dy as int,
                    ),
                forall|x: int, y: int|
                    old(self).in_bounds(x, y) && !(dx as int <= x < dx as int + src.width as int
                        && dy as int <= y < dy as int + v as int) ==> #[trigger] self.pixel(x, y)
                        == old(self).pixel(x, y),
            decreases src.height - v,
        {
            let mut u: u32 = 0;
            while u < src.width
                invariant
                    u <= src.width,
                    v < src.height,
                    self.wf(),
                    src.wf(),
                    self.width == old(self).width,
                    self.height == old(self).height,
                    dx as int + src.width as int <= self.width as int,
                    dy as int + src.height as int <= self.height as int,
                    forall|x: int, y: int|
                        dx as int <= x < dx as int + src.width as int && dy as int <= y < dy as int
                            + v as int ==> #[trigger] self.pixel(x, y) == src.pixel(
                            x - dx as int,
                            y - dy as int,
                        ),
                    forall|x: int|
                        dx as int <= x < dx as int + u as int ==> #[trigger] self.pixel(
                            x,
                            dy as int + v as int,
                        ) == src.pixel(x - dx as int, v as int),
                    forall|x: int, y: int|
                        old(self).in_bounds(x, y) && !(dx as int <= x < dx as int
                            + src.width as int && dy as int <= y < dy as int + v as int) && !(
                        dx as int <= x < dx as int + u as int && y == dy as int + v as int)
                            ==> #[trigger] self.pixel(x, y) == old(self).pixel(x, y),
                decreases src.width - u,
            {
                let p = src.get_pixel(u, v);
                self.set_pixel(dx + u, dy + v, p);
                u = u + 1;
            }
            v = v + 1;
        }
    }

    /// A copy of the `cw x ch` rectangle of `self` whose top-left corner is
    /// `(cx, cy)`.
    pub fn crop(&self, cx: u32, cy: u32, cw: u32, ch: u32) -> (out: PixelBuffer)
        requires
            self.wf(),
            cx as int + cw as int <= self.width as int,
            cy as int + ch as int <= self.height as int,
        ensures
            out.wf(),
            out.width == cw,
            out.height == ch,
            forall|u: int, w: int|
                0 <= u < cw as int && 0 <= w < ch as int ==> #[trigger] out.pixel(u, w)
                    == self.pixel(cx as int + u, cy as int + w),
    {
        let mut data: Vec<Rgb> = Vec::new();
        let mut v: u32 = 0;
        while v < ch
            invariant
                v <= ch,
                self.wf(),
                cx as int + cw as int <= self.width as int,
                cy as int + ch as int <= self.height as int,
                data@.len() == v as int * cw as int,
                forall|k: int|
                    0 <= k < data@.len() ==> #[trigger] data@[k] == self.pixel(
                        cx as int + k % cw as int,
                        cy as int + k / cw as int,
                    ),
            decreases ch - v,
        {
            let mut u: u32 = 0;
            while u < cw
                invariant
                    u <= cw,
                    v < ch,
                    self.wf(),
                    cx as int + cw as int <= self.width as int,
                    cy as int + ch as int <= self.height as int,
                    data@.len() == v as int * cw as int + u as int,
                    forall|k: int|
                        0 <= k < data@.len() ==> #[trigger] data@[k] == self.pixel(
                            cx as int + k % cw as int,
                            cy as int + k / cw as int,
                        ),
                decreases cw - u,
            {
                proof {
                    lemma_index_bound(self.width as int, self.height as int, cx as int + u as int,
                        cy as int + v as int);
                    lemma_fundamental_div_mod_converse(
                        v as int * cw as int + u as int,
                        cw as int,
                        v as int,
                        u as int,
                    );
                    lemma_index_bound(cw as int, ch as int, u as int, v as int);
                }
                let p = self.get_pixel(cx + u, cy + v);
                data.push(p);
                u = u + 1;
            }
            proof {
                assert((v as int + 1) * cw as int == v as int * cw as int + cw as int)
                    by (nonlinear_arith);
            }
            v = v + 1;
        }
        proof {
            assert(ch as int * cw as int == cw as int * ch as int) by (nonlinear_arith);
        }
        let out = PixelBuffer { width: cw, height: ch, data };
        proof {
            assert forall|u: int, w: int|
                0 <= u < cw as int && 0 <= w < ch as int implies #[trigger] out.pixel(u, w)
                == self.pixel(cx as int + u, cy as int + w) by {
                lemma_index_bound(cw as int, ch as int, u, w);
                lemma_fundamental_div_mod_converse(w * cw as int + u, cw as int, w, u);
            }
        }
        out
    }
}

/// The row-major index of an in-bounds coordinate lies inside the buffer.
pub proof fn lemma_index_bound(w: int, h: int, x: int, y: int)
    by (nonlinear_arith)
    requires
        0 <= x < w,
        0 <= y < h,
    ensures
        0 <= y * w + x < w * h,
{
}

/// Distinct in-bounds coordinates give distinct row-major indices.
pub proof fn lemma_index_injective(w: int, x1: int, y1: int, x2: int, y2: int)
    by (nonlinear_arith)
    requires
        0 <= x1 < w,
        0 <= x2 < w,
        0 <= y1,
        0 <= y2,
        y1 * w + x1 == y2 * w + x2,
    ensures
        x1 == x2,
        y1 == y2,
{
}

} // verus!
