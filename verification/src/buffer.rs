//! A row-major 32-bit pixel buffer with exact contracts for every write.
use crate::color::{color_spec, vec3_to_color, Color};
use vstd::prelude::*;

verus! {

pub struct Buffer {
    pub buffer: Vec<u32>,
    pub width: usize,
    pub height: usize,
}

/// The rectangle actually painted by `draw_rect`: the requested corner is
/// pulled inside the buffer and the extent is cut at the buffer's edge.
pub open spec fn rect_x0(bw: int, x: int) -> int {
    if x < bw {
        x
    } else {
        bw - 1
    }
}

pub open spec fn rect_extent(bw: int, x: int, w: int) -> int {
    if x + w < bw {
        w
    } else {
        bw - x
    }
}

/// The pixel of a row-major sheet at column `a`, row `b`.
pub open spec fn pix(s: Seq<u32>, w: int, a: int, b: int) -> u32 {
    s[b * w + a]
}

/// Whether column `a`, row `b` lies in the clipped rectangle that `draw_rect`
/// paints for a request at `(x, y)` with extent `(w, h)` on a `bw` by `bh`
/// buffer.
pub open spec fn in_rect(bw: int, bh: int, x: int, y: int, w: int, h: int, a: int, b: int) -> bool {
    rect_x0(bw, x) <= a < rect_x0(bw, x) + rect_extent(bw, x, w) && rect_x0(bh, y) <= b < rect_x0(
        bh,
        y,
    ) + rect_extent(bh, y, h)
}

impl Buffer {
    /// The stored pixels exactly tile the claimed dimensions.
    pub open spec fn wf(&self) -> bool {
        self.buffer@.len() == self.width * self.height
    }

    /// A fresh buffer of the given size, every pixel transparent white.
    pub fn new(width: usize, height: usize) -> (r: Buffer)
        requires
            width * height <= usize::MAX,
        ensures
            r.wf(),
            r.width == width && r.height == height,
            forall|i: int| 0 <= i < r.buffer@.len() ==> r.buffer@[i] == 0x00_ffffffu32,
    {
        let n = width * height;
        let mut buffer: Vec<u32> = Vec::new();
        let mut i: usize = 0;
        while i < n
            invariant
                i <= n,
                buffer@.len() == i,
                forall|k: int| 0 <= k < i ==> buffer@[k] == 0x00_ffffffu32,
            decreases n - i,
        {
            buffer.push(0x00_ffffff);
            i = i + 1;
        }
        Buffer { buffer, width, height }
    }

    /// Fill every pixel with one color.
    pub fn clear(&mut self, color: u32) -> (r: &Buffer)
        ensures
            final(self).wf() == old(self).wf(),
            final(self).width == old(self).width && final(self).height == old(self).height,
            final(self).buffer@.len() == old(self).buffer@.len(),
            forall|i: int| 0 <= i < final(self).buffer@.len() ==> final(self).buffer@[i] == color,
    {
        let n = self.buffer.len();
        let mut i: usize = 0;
        while i < n
            invariant
                i <= n,
                self.buffer@.len() == n,
                self.width == old(self).width && self.height == old(self).height,
                forall|k: int| 0 <= k < i ==> self.buffer@[k] == color,
            decreases n - i,
        {
            self.buffer[i] = color;
            i = i + 1;
        }
        self
    }

    /// Write one pixel, given as a linear color.
    pub fn set_color(&mut self, x: usize, y: usize, color: &Color) -> (r: &Buffer)
        requires
            old(self).wf(),
            x < old(self).width,
            y < old(self).height,
        ensures
            final(self).wf(),
            final(self).width == old(self).width && final(self).height == old(self).height,
            final(self).buffer@ == old(self).buffer@.update(
                y * old(self).width + x,
                (color_spec(color@) as u32),
            ),
            final(self).buffer@[y * old(self).width + x] >= 0xff00_0000u32,
    {
        let c = vec3_to_color(color);
        proof {
            lemma_row_major_index(self.width as int, self.height as int, x as int, y as int);
        }
        self.set(x, y, c)
    }

    /// Write one pixel, given packed.
    pub fn set(&mut self, x: usize, y: usize, color: u32) -> (r: &Buffer)
        requires
            old(self).wf(),
            x < old(self).width,
            y < old(self).height,
        ensures
            final(self).wf(),
            final(self).width == old(self).width && final(self).height == old(self).height,
            final(self).buffer@ == old(self).buffer@.update(y * old(self).width + x, color),
    {
        let n = self.buffer.len();
        proof {
            lemma_row_major_index(self.width as int, self.height as int, x as int, y as int);
            assert(y * self.width + x < n);
        }
        let idx = y * self.width + x;
        self.buffer[idx] = color;
        self
    }

    /// Fill an axis-aligned rectangle, clipped to the buffer. The requested
    /// corner must not lie past the buffer's edge, and a corner on the edge
    /// asks for a nonempty buffer, as the clipping otherwise underflows.
    pub fn draw_rect(&mut self, x: usize, y: usize, width: usize, height: usize, color: u32) -> (r:
        &Buffer)
        requires
            old(self).wf(),
            old(self).width >= 1,
            old(self).height >= 1,
            x <= old(self).width,
            y <= old(self).height,
            x + width <= usize::MAX,
            y + height <= usize::MAX,
        ensures
            final(self).wf(),
            final(self).width == old(self).width && final(self).height == old(self).height,
            final(self).buffer@.len() == old(self).buffer@.len(),
            forall|i: int, j: int|
                in_rect(
                    old(self).width as int,
                    old(self).height as int,
                    x as int,
                    y as int,
                    width as int,
                    height as int,
                    i,
                    j,
                ) ==> #[trigger] pix(final(self).buffer@, old(self).width as int, i, j) == color,
            forall|i: int, j: int|
                (0 <= i < old(self).width && 0 <= j < old(self).height && !in_rect(
                    old(self).width as int,
                    old(self).height as int,
                    x as int,
                    y as int,
                    width as int,
                    height as int,
                    i,
                    j,
                )) ==> #[trigger] pix(final(self).buffer@, old(self).width as int, i, j) == pix(
                    old(self).buffer@,
                    old(self).width as int,
                    i,
                    j,
                ),
    {
        let r_x = if x < self.width {
            x
        } else {
            self.width - 1
        };
        let r_y = if y < self.height {
            y
        } else {
            self.height - 1
        };
        let r_width = if x + width < self.width {
            width
        } else {
            self.width - x
        };
        let r_height = if y + height < self.height {
            height
        } else {
            self.height - y
        };
        let ghost bw = self.width as int;
        let ghost bh = self.height as int;
        let mut i = r_x;
        while i < r_x + r_width
            invariant
                self.wf(),
                self.width == old(self).width && self.height == old(self).height,
                bw == self.width as int,
                bh == self.height as int,
                r_x == rect_x0(bw, x as int),
                r_y == rect_x0(bh, y as int),
                r_width == rect_extent(bw, x as int, width as int),
                r_height == rect_extent(bh, y as int, height as int),
                r_x <= i <= r_x + r_width,
                r_x + r_width <= self.width,
                r_y + r_height <= self.height,
                forall|a: int, b: int|
                    (r_x <= a < i && r_y <= b < r_y + r_height) ==> #[trigger] pix(
                        self.buffer@,
                        bw,
                        a,
                        b,
                    ) == color,
                forall|a: int, b: int|
                    (0 <= a < bw && 0 <= b < bh && !(r_x <= a < i && r_y <= b < r_y + r_height))
                        ==> #[trigger] pix(self.buffer@, bw, a, b) == pix(
                        old(self).buffer@,
                        bw,
                        a,
                        b,
                    ),
            decreases r_x + r_width - i,
        {
            let mut j = r_y;
            while j < r_y + r_height
                invariant
                    self.wf(),
                    self.width == old(self).width && self.height == old(self).height,
                    bw == self.width as int,
                    bh == self.height as int,
                    r_x <= i < r_x + r_width,
                    r_x + r_width <= self.width,
                    r_y <= j <= r_y + r_height,
                    r_y + r_height <= self.height,
                    forall|a: int, b: int|
                        ((r_x <= a < i && r_y <= b < r_y + r_height) || (a == i && r_y <= b < j))
                            ==> #[trigger] pix(self.buffer@, bw, a, b) == color,
                    forall|a: int, b: int|
                        (0 <= a < bw && 0 <= b < bh && !((r_x <= a < i && r_y <= b < r_y + r_height)
                            || (a == i && r_y <= b < j))) ==> #[trigger] pix(self.buffer@, bw, a, b)
                            == pix(old(self).buffer@, bw, a, b),
                decreases r_y + r_height - j,
            {
                let ghost before = self.buffer@;
                self.set(i, j, color);
                proof {
                    assert forall|a: int, b: int| (0 <= a < bw && 0 <= b < bh) implies #[trigger] pix(
                        self.buffer@,
                        bw,
                        a,
                        b,
                    ) == (if a == i && b == j {
                        color
                    } else {
                        pix(before, bw, a, b)
                    }) by {
                        lemma_row_major_index(bw, bh, a, b);
                        lemma_row_major_index(bw, bh, i as int, j as int);
                        lemma_row_major_distinct(bw, bh, i as int, j as int, a, b);
                        assert(self.buffer@ == before.update(j as int * bw + i as int, color));
                        if a == i && b == j {
                            assert(pix(self.buffer@, bw, a, b) == color);
                        } else {
                            assert(b * bw + a != j as int * bw + i as int);
                            assert(pix(self.buffer@, bw, a, b) == pix(before, bw, a, b));
                        }
                    }
                }
                j = j + 1;
            }
            i = i + 1;
        }
                self
    }

    pub fn buffer(&self) -> (r: &Vec<u32>)
        ensures
            r == self.buffer,
    {
        &self.buffer
    }

    pub fn width(&self) -> (r: usize)
        ensures
            r == self.width,
    {
        self.width
    }

    pub fn height(&self) -> (r: usize)
        ensures
            r == self.height,
    {
        self.height
    }
}

/// A pixel's row-major index lies inside the buffer.
pub proof fn lemma_row_major_index(w: int, h: int, x: int, y: int)
    requires
        0 <= x < w,
        0 <= y < h,
    ensures
        0 <= y * w + x < w * h,
{
    assert(y * w + x < w * h) by (nonlinear_arith)
        requires
            0 <= x < w,
            0 <= y < h,
    ;
    assert(y * w >= 0) by (nonlinear_arith)
        requires
            y >= 0,
            w > 0,
    ;
}

/// Distinct pixels have distinct row-major indices.
pub proof fn lemma_row_major_distinct(w: int, h: int, x: int, y: int, a: int, b: int)
    requires
        0 <= x < w,
        0 <= y < h,
        0 <= a < w,
        0 <= b < h,
    ensures
        (a != x || b != y) ==> b * w + a != y * w + x,
{
    assert((a != x || b != y) ==> b * w + a != y * w + x) by (nonlinear_arith)
        requires
            0 <= x < w,
            0 <= y < h,
            0 <= a < w,
            0 <= b < h,
    ;
}

} // verus!
