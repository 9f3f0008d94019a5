use vstd::prelude::*;

verus! {

/// A `width` by `height` grid of 0xRRGGBB pixels, row after row.
pub struct Framebuffer {
    pub width: usize,
    pub height: usize,
    pub buffer: Vec<u32>,
}

/// The column of buffer index `i` on a screen `w` pixels wide.
pub open spec fn col_of(i: int, w: int) -> int {
    i % w
}

/// The row of buffer index `i` on a screen `w` pixels wide.
pub open spec fn row_of(i: int, w: int) -> int {
    i / w
}

/// Whether the pixel `(px, py)` lies in the `rw` by `rh` rectangle whose top left
/// corner is `(x0, y0)`.
pub open spec fn in_rect(px: int, py: int, x0: int, y0: int, rw: int, rh: int) -> bool {
    x0 <= px < x0 + rw && y0 <= py < y0 + rh
}

impl Framebuffer {
    pub open spec fn wf(&self) -> bool {
        &&& 1 <= self.width <= 4096
        &&& 1 <= self.height <= 4096
        &&& self.buffer@.len() == self.width * self.height
    }

    /// The pixel in column `x`, row `y`.
    pub open spec fn pixel(&self, x: int, y: int) -> u32 {
        self.buffer@[y * self.width + x]
    }

    /// A framebuffer of the given size with every pixel 0.
    pub fn new(width: usize, height: usize) -> (r: Framebuffer)
        requires
            1 <= width <= 4096,
            1 <= height <= 4096,
        ensures
            r.wf(),
            r.width == width && r.height == height,
            forall|i: int| 0 <= i < r.buffer@.len() ==> r.buffer@[i] == 0,
    {
        assert(width * height <= 4096 * 4096) by (nonlinear_arith)
            requires
                width <= 4096,
                height <= 4096,
        ;
        let n = width * height;
        let mut buffer: Vec<u32> = Vec::new();
        while buffer.len() < n
            invariant
                buffer@.len() <= n,
                forall|i: int| 0 <= i < buffer@.len() ==> buffer@[i] == 0,
            decreases n - buffer@.len(),
        {
            buffer.push(0);
        }
        Framebuffer { width, height, buffer }
    }

    /// Sets the pixel in column `x`, row `y` to `color`; a point off the screen
    /// changes nothing.
    pub fn point(&mut self, x: usize, y: usize, color: u32)
        requires
            old(self).wf(),
        ensures
            final(self).wf(),
            final(self).width == old(self).width,
            final(self).height == old(self).height,
            forall|i: int|
                0 <= i < final(self).buffer@.len() ==> #[trigger] final(self).buffer@[i] == if col_of(
                    i,
                    old(self).width as int,
                ) == x && row_of(i, old(self).width as int) == y {
                    color
                } else {
                    old(self).buffer@[i]
                },
    {
        let ghost w = self.width as int;
        let ghost h = self.height as int;
        proof {
            assert forall|i: int| 0 <= i < w * h implies (col_of(i, w) < w && row_of(i, w) < h) by {
                vstd::arithmetic::div_mod::lemma_fundamental_div_mod(i, w);
                vstd::arithmetic::div_mod::lemma_mod_bound(i, w);
                vstd::arithmetic::div_mod::lemma_div_pos_is_pos(i, w);
                if i / w >= h {
                    assert(w * (i / w) >= w * h) by (nonlinear_arith)
                        requires
                            i / w >= h,
                            w >= 1,
                    ;
                }
            }
        }
        if x < self.width && y < self.height {
            assert(y * w + x < w * h) by (nonlinear_arith)
                requires
                    x < w,
                    y < h,
            ;
            assert(y * self.width <= 4096 * 4096) by (nonlinear_arith)
                requires
                    y < self.height <= 4096,
                    self.width <= 4096,
            ;
            let idx = y * self.width + x;
            self.buffer.set(idx, color);
            proof {
                assert forall|i: int| 0 <= i < w * h implies (col_of(i, w) == x && row_of(i, w) == y)
                    == (i == idx) by {
                    vstd::arithmetic::div_mod::lemma_fundamental_div_mod(i, w);
                    if i == idx {
                        vstd::arithmetic::div_mod::lemma_fundamental_div_mod_converse(i, w, y as int, x as int);
                    }
                    if col_of(i, w) == x && row_of(i, w) == y {
                        assert(i == w * y + x);
                    }
                }
            }
        }
    }

    /// Paints the `rw` by `rh` rectangle whose top left corner is `(x0, y0)`; the
    /// part off the screen is dropped.
    pub fn fill_rect(&mut self, x0: usize, y0: usize, rw: usize, rh: usize, color: u32)
        requires
            old(self).wf(),
            x0 + rw <= usize::MAX,
            y0 + rh <= usize::MAX,
        ensures
            final(self).wf(),
            final(self).width == old(self).width,
            final(self).height == old(self).height,
            forall|i: int|
                0 <= i < final(self).buffer@.len() ==> #[trigger] final(self).buffer@[i] == if in_rect(
                    col_of(i, old(self).width as int),
                    row_of(i, old(self).width as int),
                    x0 as int,
                    y0 as int,
                    rw as int,
                    rh as int,
                ) {
                    color
                } else {
                    old(self).buffer@[i]
                },
    {
        let ghost w = self.width as int;
        let ghost start = self.buffer@;
        let mut r: usize = 0;
        while r < rh
            invariant
                self.wf(),
                self.width == old(self).width,
                self.height == old(self).height,
                start == old(self).buffer@,
                w == self.width,
                y0 + rh <= usize::MAX,
                x0 + rw <= usize::MAX,
                r <= rh,
                forall|i: int|
                    0 <= i < self.buffer@.len() ==> #[trigger] self.buffer@[i] == if in_rect(
                        col_of(i, w),
                        row_of(i, w),
                        x0 as int,
                        y0 as int,
                        rw as int,
                        r as int,
                    ) {
                        color
                    } else {
                        start[i]
                    },
            decreases rh - r,
        {
            let mut c: usize = 0;
            while c < rw
                invariant
                    self.wf(),
                    self.width == old(self).width,
                    self.height == old(self).height,
                    start == old(self).buffer@,
                    w == self.width,
                    y0 + rh <= usize::MAX,
                    x0 + rw <= usize::MAX,
                    r < rh,
                    c <= rw,
                    forall|i: int|
                        0 <= i < self.buffer@.len() ==> #[trigger] self.buffer@[i] == if in_rect(
                            col_of(i, w),
                            row_of(i, w),
                            x0 as int,
                            y0 as int,
                            rw as int,
                            r as int,
                        ) || (row_of(i, w) == y0 + r && x0 <= col_of(i, w) < x0 + c) {
                            color
                        } else {
                            start[i]
                        },
                decreases rw - c,
            {
                self.point(x0 + c, y0 + r, color);
                c = c + 1;
            }
            r = r + 1;
        }
    }
}

} // verus!
