use vstd::prelude::*;
use vstd::arithmetic::div_mod::lemma_fundamental_div_mod_converse;

verus! {

/// One RGBA pixel: red, green, blue and alpha channel bytes.
pub type Px = (u8, u8, u8, u8);

/// The fully transparent pixel that fresh canvases are filled with.
pub open spec fn blank_px() -> Px {
    (0u8, 0u8, 0u8, 0u8)
}

/// A rectangular raster of RGBA pixels, stored row by row.
#[derive(Debug)]
pub struct PixelBuffer {
    pub width: u32,
    pub height: u32,
    pub data: Vec<Px>,
}

/// Position of cell `(x, y)` in a row-major raster of width `w` lies inside
/// the raster's storage.
pub proof fn lemma_cell_index(x: int, y: int, w: int, h: int)
    by (nonlinear_arith)
    requires
        0 <= x < w,
        0 <= y < h,
    ensures
        0 <= y * w + x < w * h,
        y * w + x < h * w,
{
}

/// Row-major positions determine their coordinates: the quotient is the row
/// and the remainder the column.
pub proof fn lemma_cell_coords(x: int, y: int, w: int)
    requires
        0 <= x < w,
        0 <= y,
    ensures
        (y * w + x) / w == y,
        (y * w + x) % w == x,
{
    lemma_fundamental_div_mod_converse(y * w + x, w, y, x);
}

/// Two sequences over the same `w x h` grid that agree on every cell are equal.
pub proof fn lemma_grid_pointwise_eq(a: Seq<Px>, b: Seq<Px>, w: int, h: int)
    requires
        0 <= w,
        0 <= h,
        a.len() == w * h,
        b.len() == w * h,
        forall|x: int, y: int|
            0 <= x < w && 0 <= y < h ==> a[y * w + x] == #[trigger] b[y * w + x],
    ensures
        a =~= b,
{
    assert forall|k: int| 0 <= k < a.len() implies a[k] == b[k] by {
        if w > 0 {
            let x = k % w;
            let y = k / w;
            vstd::arithmetic::div_mod::lemma_fundamental_div_mod(k, w);
            assert(0 <= x < w) by {
                vstd::arithmetic::div_mod::lemma_mod_bound(k, w);
            }
            assert(0 <= y < h) by (nonlinear_arith)
                requires k == y * w + x, 0 <= x < w, 0 <= k < w * h;
            assert(a[y * w + x] == b[y * w + x]);
        } else {
            assert(w * h <= 0) by (nonlinear_arith) requires w <= 0, 0 <= h;
        }
    }
}

impl PixelBuffer {
    /// The raster holds exactly one pixel per grid cell.
    pub open spec fn wf(self) -> bool {
        self.data@.len() == self.width * self.height
    }

    /// The pixel stored at column `x` of row `y`.
    pub open spec fn pix(self, x: int, y: int) -> Px {
        self.data@[y * self.width + x]
    }

    pub open spec fn in_bounds(self, x: int, y: int) -> bool {
        0 <= x < self.width && 0 <= y < self.height
    }

    /// Read the pixel at `(x, y)`.
    pub fn get_px(&self, x: u32, y: u32) -> (p: Px)
        requires
            self.wf(),
            x < self.width,
            y < self.height,
        ensures
            p == self.pix(x as int, y as int),
    {
        let n: usize = self.data.len();
        proof {
            assert(self.data@.len() == n);
            lemma_cell_index(x as int, y as int, self.width as int, self.height as int);
        }
        let idx: usize = (y as usize) * (self.width as usize) + (x as usize);
        self.data[idx]
    }

    /// Overwrite the pixel at `(x, y)`, leaving every other cell unchanged.
    pub fn set_px(&mut self, x: u32, y: u32, p: Px)
        requires
            old(self).wf(),
            x < old(self).width,
            y < old(self).height,
        ensures
            final(self).wf(),
            final(self).width == old(self).width,
            final(self).height == old(self).height,
            final(self).pix(x as int, y as int) == p,
            forall|i: int, j: int|
                old(self).in_bounds(i, j) && !(i == x && j == y)
                    ==> #[trigger] final(self).pix(i, j) == old(self).pix(i, j),
    {
        let n: usize = self.data.len();
        proof {
            assert(self.data@.len() == n);
            lemma_cell_index(x as int, y as int, self.width as int, self.height as int);
        }
        let idx: usize = (y as usize) * (self.width as usize) + (x as usize);
        self.data[idx] = p;
        proof {
            assert forall|i: int, j: int|
                old(self).in_bounds(i, j) && !(i == x && j == y)
                    implies #[trigger] self.pix(i, j) == old(self).pix(i, j) by {
                lemma_cell_index(i, j, self.width as int, self.height as int);
                if j * self.width + i == idx {
                    lemma_cell_coords(i, j, self.width as int);
                    lemma_cell_coords(x as int, y as int, self.width as int);
                }
            }
        }
    }

    /// A fresh `width x height` canvas of fully transparent pixels.
    pub fn new_canvas(width: u32, height: u32) -> (r: PixelBuffer)
        requires
            width * height <= usize::MAX,
        ensures
            r.wf(),
            r.width == width,
            r.height == height,
            forall|x: int, y: int|
                r.in_bounds(x, y) ==> #[trigger] r.pix(x, y) == blank_px(),
    {
        let n: usize = (width as usize) * (height as usize);
        let mut data: Vec<Px> = Vec::new();
        let mut i: usize = 0;
        while i < n
            invariant
                i <= n,
                n == width * height,
                data@.len() == i,
                forall|k: int| 0 <= k < i ==> data@[k] == blank_px(),
            decreases n - i,
        {
            data.push((0u8, 0u8, 0u8, 0u8));
            i = i + 1;
        }
        let r = PixelBuffer { width, height, data };
        proof {
            assert forall|x: int, y: int| r.in_bounds(x, y)
                implies #[trigger] r.pix(x, y) == blank_px() by {
                lemma_cell_index(x, y, width as int, height as int);
            }
        }
        r
    }

    /// Copy out the `w x h` rectangle whose top-left corner is `(x0, y0)`.
    pub fn crop(&self, x0: u32, y0: u32, w: u32, h: u32) -> (r: PixelBuffer)
        requires
            self.wf(),
            x0 + w <= self.width,
            y0 + h <= self.height,
        ensures
            r.wf(),
            r.width == w,
            r.height == h,
            forall|x: int, y: int|
                0 <= x < w && 0 <= y < h
                    ==> #[trigger] r.pix(x, y) == self.pix(x0 + x, y0 + y),
    {
        let n: usize = self.data.len();
        proof {
            assert(self.data@.len() == n);
            lemma_mul_le(w as int, self.width as int, h as int, self.height as int);
        }
        let mut data: Vec<Px> = Vec::new();
        let mut y: u32 = 0;
        while y < h
            invariant
                self.wf(),
                y <= h,
                x0 + w <= self.width,
                y0 + h <= self.height,
                data@.len() == y * w,
                w * h <= usize::MAX,
                forall|k: int|
                    0 <= k < data@.len()
                        ==> #[trigger] data@[k] == self.pix(x0 + k % (w as int), y0 + k / (w as int)),
            decreases h - y,
        {
            let mut x: u32 = 0;
            while x < w
                invariant
                    self.wf(),
                    y < h,
                    x <= w,
                    x0 + w <= self.width,
                    y0 + h <= self.height,
                    data@.len() == y * w + x,
                    w * h <= usize::MAX,
                    forall|k: int|
                        0 <= k < data@.len()
                            ==> #[trigger] data@[k] == self.pix(
                                x0 + k % (w as int),
                                y0 + k / (w as int),
                            ),
                decreases w - x,
            {
                proof {
                    lemma_cell_index(x as int, y as int, w as int, h as int);
                    lemma_cell_coords(x as int, y as int, w as int);
                }
                let p = self.get_px(x0 + x, y0 + y);
                data.push(p);
                x = x + 1;
            }
            proof {
                assert((y as int + 1) * (w as int) == y as int * w as int + w as int)
                    by (nonlinear_arith);
            }
            y = y + 1;
        }
        proof {
            assert(h as int * w as int == w as int * h as int) by (nonlinear_arith);
        }
        let r = PixelBuffer { width: w, height: h, data };
        proof {
            assert(r.data@.len() == w * h);
            assert forall|x: int, y: int| 0 <= x < w && 0 <= y < h
                implies #[trigger] r.pix(x, y) == self.pix(x0 + x, y0 + y) by {
                lemma_cell_index(x, y, w as int, h as int);
                lemma_cell_coords(x, y, w as int);
            }
        }
        r
    }
    /// An exact pixel-for-pixel copy of this raster.
    pub fn duplicate(&self) -> (r: PixelBuffer)
        ensures
            r.width == self.width,
            r.height == self.height,
            r.data@ == self.data@,
    {
        let n: usize = self.data.len();
        let mut data: Vec<Px> = Vec::new();
        let mut i: usize = 0;
        while i < n
            invariant
                n == self.data@.len(),
                i <= n,
                data@.len() == i,
                forall|k: int| 0 <= k < i ==> data@[k] == self.data@[k],
            decreases n - i,
        {
            data.push(self.data[i]);
            i = i + 1;
        }
        proof {
            assert(data@ =~= self.data@);
        }
        PixelBuffer { width: self.width, height: self.height, data }
    }

    /// Paste `src` onto this raster with its top-left corner at `(dx, dy)`.
    /// Later pixels fully replace earlier ones; cells outside the pasted
    /// rectangle keep their value.
    pub fn blit(&mut self, src: &PixelBuffer, dx: u32, dy: u32)
        requires
            old(self).wf(),
            src.wf(),
            dx + src.width <= old(self).width,
            dy + src.height <= old(self).height,
        ensures
            final(self).wf(),
            final(self).width == old(self).width,
            final(self).height == old(self).height,
            forall|x: int, y: int|
                final(self).in_bounds(x, y)
                    ==> #[trigger] final(self).pix(x, y)
                        == blit_expected(*old(self), *src, dx as int, dy as int, x, y),
    {
        let mut j: u32 = 0;
        while j < src.height
            invariant
                self.wf(),
                src.wf(),
                self.width == old(self).width,
                self.height == old(self).height,
                dx + src.width <= self.width,
                dy + src.height <= self.height,
                j <= src.height,
                forall|x: int, y: int|
                    self.in_bounds(x, y)
                        ==> #[trigger] self.pix(x, y)
                            == blit_partial(*old(self), *src, dx as int, dy as int, j as int, 0, x, y),
            decreases src.height - j,
        {
            let mut i: u32 = 0;
            while i < src.width
                invariant
                    self.wf(),
                    src.wf(),
                    self.width == old(self).width,
                    self.height == old(self).height,
                    dx + src.width <= self.width,
                    dy + src.height <= self.height,
                    j < src.height,
                    i <= src.width,
                    forall|x: int, y: int|
                        self.in_bounds(x, y)
                            ==> #[trigger] self.pix(x, y)
                                == blit_partial(*old(self), *src, dx as int, dy as int, j as int, i as int, x, y),
                decreases src.width - i,
            {
                let p = src.get_px(i, j);
                self.set_px(dx + i, dy + j, p);
                i = i + 1;
            }
            j = j + 1;
        }
    }

    /// Mirror or quarter-turn the raster as `o` directs.
    pub fn reorient(&self, o: Orient) -> (r: PixelBuffer)
        requires
            self.wf(),
        ensures
            r.wf(),
            r.width == orient_out_w(o, self.width as int, self.height as int),
            r.height == orient_out_h(o, self.width as int, self.height as int),
            forall|x: int, y: int|
                r.in_bounds(x, y)
                    ==> #[trigger] r.pix(x, y) == self.pix(
                        orient_src_x(o, x, y, self.width as int, self.height as int),
                        orient_src_y(o, x, y, self.width as int, self.height as int),
                    ),
    {
        let w = self.width;
        let h = self.height;
        let (w2, h2): (u32, u32) = match o {
            Orient::FlipH => (w, h),
            Orient::FlipV => (w, h),
            Orient::Rot90 => (h, w),
            Orient::Rot180 => (w, h),
            Orient::Rot270 => (h, w),
        };
        let n: usize = self.data.len();
        proof {
            assert(self.data@.len() == n);
            assert(w2 * h2 == w * h) by (nonlinear_arith)
                requires (w2 == w && h2 == h) || (w2 == h && h2 == w);
        }
        let mut data: Vec<Px> = Vec::new();
        let mut y: u32 = 0;
        while y < h2
            invariant
                self.wf(),
                self.width == w,
                self.height == h,
                y <= h2,
                orient_out_w(o, w as int, h as int) == w2,
                orient_out_h(o, w as int, h as int) == h2,
                w2 * h2 == w * h,
                data@.len() == y * w2,
                forall|k: int|
                    0 <= k < data@.len()
                        ==> #[trigger] data@[k] == self.pix(
                            orient_src_x(o, k % (w2 as int), k / (w2 as int), w as int, h as int),
                            orient_src_y(o, k % (w2 as int), k / (w2 as int), w as int, h as int),
                        ),
            decreases h2 - y,
        {
            let mut x: u32 = 0;
            while x < w2
                invariant
                    self.wf(),
                    self.width == w,
                    self.height == h,
                    y < h2,
                    x <= w2,
                    orient_out_w(o, w as int, h as int) == w2,
                    orient_out_h(o, w as int, h as int) == h2,
                    w2 * h2 == w * h,
                    data@.len() == y * w2 + x,
                    forall|k: int|
                        0 <= k < data@.len()
                            ==> #[trigger] data@[k] == self.pix(
                                orient_src_x(o, k % (w2 as int), k / (w2 as int), w as int, h as int),
                                orient_src_y(o, k % (w2 as int), k / (w2 as int), w as int, h as int),
                            ),
                decreases w2 - x,
            {
                proof {
                    lemma_cell_index(x as int, y as int, w2 as int, h2 as int);
                    lemma_cell_coords(x as int, y as int, w2 as int);
                }
                let p = match o {
                    Orient::FlipH => self.get_px(w - 1 - x, y),
                    Orient::FlipV => self.get_px(x, h - 1 - y),
                    Orient::Rot90 => self.get_px(y, h - 1 - x),
                    Orient::Rot180 => self.get_px(w - 1 - x, h - 1 - y),
                    Orient::Rot270 => self.get_px(w - 1 - y, x),
                };
                data.push(p);
                x = x + 1;
            }
            proof {
                assert((y as int + 1) * (w2 as int) == y as int * w2 as int + w2 as int)
                    by (nonlinear_arith);
            }
            y = y + 1;
        }
        let r = PixelBuffer { width: w2, height: h2, data };
        proof {
            assert(h2 as int * w2 as int == w2 as int * h2 as int) by (nonlinear_arith);
            assert forall|x: int, y: int| r.in_bounds(x, y)
                implies #[trigger] r.pix(x, y) == self.pix(
                    orient_src_x(o, x, y, w as int, h as int),
                    orient_src_y(o, x, y, w as int, h as int),
                ) by {
                lemma_cell_index(x, y, w2 as int, h2 as int);
                lemma_cell_coords(x, y, w2 as int);
            }
        }
        r
    }
}

/// A mirror axis or an exact quarter-turn.
#[derive(Clone, Copy, PartialEq, Eq, Structural, Debug)]
pub enum Orient {
    FlipH,
    FlipV,
    Rot90,
    Rot180,
    Rot270,
}

/// Destination width of a raster of `w x h` pixels after `o`.
pub open spec fn orient_out_w(o: Orient, w: int, h: int) -> int {
    match o {
        Orient::FlipH => w,
        Orient::FlipV => w,
        Orient::Rot90 => h,
        Orient::Rot180 => w,
        Orient::Rot270 => h,
    }
}

/// Destination height of a raster of `w x h` pixels after `o`.
pub open spec fn orient_out_h(o: Orient, w: int, h: int) -> int {
    match o {
        Orient::FlipH => h,
        Orient::FlipV => h,
        Orient::Rot90 => w,
        Orient::Rot180 => h,
        Orient::Rot270 => w,
    }
}

/// Source column that destination cell `(x, y)` is read from under `o`,
/// for a source raster of `w x h` pixels. Quarter-turns are clockwise.
pub open spec fn orient_src_x(o: Orient, x: int, y: int, w: int, h: int) -> int {
    match o {
        Orient::FlipH => w - 1 - x,
        Orient::FlipV => x,
        Orient::Rot90 => y,
        Orient::Rot180 => w - 1 - x,
        Orient::Rot270 => w - 1 - y,
    }
}

/// Source row that destination cell `(x, y)` is read from under `o`.
pub open spec fn orient_src_y(o: Orient, x: int, y: int, w: int, h: int) -> int {
    match o {
        Orient::FlipH => y,
        Orient::FlipV => h - 1 - y,
        Orient::Rot90 => h - 1 - x,
        Orient::Rot180 => h - 1 - y,
        Orient::Rot270 => x,
    }
}

/// Value of cell `(x, y)` after `src` has been pasted onto `dst0` at `(dx, dy)`.
pub open spec fn blit_expected(
    dst0: PixelBuffer,
    src: PixelBuffer,
    dx: int,
    dy: int,
    x: int,
    y: int,
) -> Px {
    if dx <= x < dx + src.width && dy <= y < dy + src.height {
        src.pix(x - dx, y - dy)
    } else {
        dst0.pix(x, y)
    }
}

/// Value of cell `(x, y)` after the first `j` rows, and `i` cells of row `j`,
/// of `src` have been pasted onto `dst0` at `(dx, dy)`.
pub open spec fn blit_partial(
    dst0: PixelBuffer,
    src: PixelBuffer,
    dx: int,
    dy: int,
    j: int,
    i: int,
    x: int,
    y: int,
) -> Px {
    if dx <= x < dx + src.width && dy <= y < dy + src.height
        && (y - dy < j || (y - dy == j && x - dx < i)) {
        src.pix(x - dx, y - dy)
    } else {
        dst0.pix(x, y)
    }
}

/// Products respect factor-wise bounds: a smaller rectangle has no more cells.
pub proof fn lemma_mul_le(a: int, b: int, c: int, d: int)
    by (nonlinear_arith)
    requires
        0 <= a <= b,
        0 <= c <= d,
    ensures
        a * c <= b * d,
{
}

} // verus!
