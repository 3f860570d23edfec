use vstd::prelude::*;
use crate::pixels::{PixelBuffer, Px, blank_px, lemma_cell_index, lemma_cell_coords,
    lemma_grid_pointwise_eq, lemma_mul_le};
use crate::model::{Frame, FrameModel, FrameV, GifLabError, frame_v};

verus! {

/// Width or height of one tile when `total` pixels are split into `n` strips
/// separated by `margin` pixels: the remaining span divided evenly, zero when
/// the margins already exceed the span.
pub open spec fn tile_dim(total: int, n: int, margin: int) -> int
    recommends
        n >= 1,
{
    let used = (n - 1) * margin;
    if used >= total { 0 } else { (total - used) / n }
}

/// Top-left pixel coordinate of strip `idx` when strips are `dim` wide and
/// separated by `margin` pixels.
pub open spec fn tile_origin(idx: int, dim: int, margin: int) -> int {
    idx * (dim + margin)
}

/// The tile at grid position `(r, c)` lies entirely inside a `w x h` image.
pub open spec fn tile_fits(w: int, h: int, tw: int, th: int, margin: int, r: int, c: int) -> bool {
    tile_origin(c, tw, margin) + tw <= w && tile_origin(r, th, margin) + th <= h
}

/// The grid positions among the first `k` (row-major, `cols` per row) whose
/// tiles fit inside the image, in order.
pub open spec fn kept_cells(
    w: int,
    h: int,
    tw: int,
    th: int,
    margin: int,
    cols: int,
    k: int,
) -> Seq<(int, int)>
    recommends
        cols >= 1,
    decreases k,
{
    if k <= 0 {
        Seq::empty()
    } else {
        let prev = kept_cells(w, h, tw, th, margin, cols, k - 1);
        let r = (k - 1) / cols;
        let c = (k - 1) % cols;
        if tile_fits(w, h, tw, th, margin, r, c) { prev.push((r, c)) } else { prev }
    }
}

/// Pixel `(x, y)` of a `w`-wide row-major raster given as a plain sequence.
pub open spec fn raw_pix(px: Seq<Px>, w: int, x: int, y: int) -> Px {
    px[y * w + x]
}

/// Pixels of the `tw x th` tile at grid position `(r, c)` of a `w`-wide
/// raster, row-major.
pub open spec fn tile_px_raw(
    px: Seq<Px>,
    w: int,
    r: int,
    c: int,
    tw: int,
    th: int,
    margin: int,
) -> Seq<Px> {
    Seq::new(
        (tw * th) as nat,
        |k: int| raw_pix(
            px,
            w,
            tile_origin(c, tw, margin) + k % tw,
            tile_origin(r, th, margin) + k / tw,
        ),
    )
}

/// Pixels of the `tw x th` tile at grid position `(r, c)` of `img`, row-major.
pub open spec fn tile_px(img: PixelBuffer, r: int, c: int, tw: int, th: int, margin: int) -> Seq<
    Px,
> {
    tile_px_raw(img.data@, img.width as int, r, c, tw, th, margin)
}

/// What splitting a `w x h` raster, given as a plain pixel sequence, into a
/// `rows x cols` grid yields: one frame per fitting tile, in row-major
/// order, each with the uniform delay and no offset.
pub open spec fn frames_of_grid_raw(
    px: Seq<Px>,
    w: int,
    h: int,
    rows: int,
    cols: int,
    interval_ms: u64,
    margin: int,
) -> Seq<FrameV> {
    let tw = tile_dim(w, cols, margin);
    let th = tile_dim(h, rows, margin);
    let cells = kept_cells(w, h, tw, th, margin, cols, rows * cols);
    Seq::new(
        cells.len(),
        |j: int| (
            tile_px_raw(px, w, cells[j].0, cells[j].1, tw, th, margin),
            tw as u32,
            th as u32,
            0u32,
            0u32,
            interval_ms,
        ),
    )
}

/// What splitting `img` into a `rows x cols` grid yields.
pub open spec fn frames_of_grid(
    img: PixelBuffer,
    rows: int,
    cols: int,
    interval_ms: u64,
    margin: int,
) -> Seq<FrameV> {
    frames_of_grid_raw(
        img.data@,
        img.width as int,
        img.height as int,
        rows,
        cols,
        interval_ms,
        margin,
    )
}

/// A cropped tile's raster stores exactly the tile's pixel sequence.
proof fn lemma_crop_tile(img: PixelBuffer, t: PixelBuffer, r: int, c: int, margin: int)
    requires
        img.wf(),
        t.wf(),
        t.width >= 1,
        t.height >= 1,
        forall|x: int, y: int|
            t.in_bounds(x, y) ==> #[trigger] t.pix(x, y) == img.pix(
                tile_origin(c, t.width as int, margin) + x,
                tile_origin(r, t.height as int, margin) + y,
            ),
    ensures
        t.data@ == tile_px(img, r, c, t.width as int, t.height as int, margin),
{
    let tw = t.width as int;
    let th = t.height as int;
    let target = tile_px(img, r, c, tw, th, margin);
    assert forall|x: int, y: int| 0 <= x < tw && 0 <= y < th
        implies t.data@[y * tw + x] == #[trigger] target[y * tw + x] by {
        lemma_cell_index(x, y, tw, th);
        lemma_cell_coords(x, y, tw);
        assert(t.pix(x, y) == img.pix(
            tile_origin(c, tw, margin) + x,
            tile_origin(r, th, margin) + y,
        ));
    }
    lemma_grid_pointwise_eq(t.data@, target, tw, th);
}

/// Split a composite image into a frame model along a `rows x cols` grid.
/// Tile dimensions come from the image size less the margins; a zero tile
/// dimension is a geometry error; positions whose tile would cross the image
/// boundary are skipped; producing no tile at all is an empty-result error.
/// Every kept tile becomes one frame with the uniform delay and no offset.
pub fn to_frames(
    img: &PixelBuffer,
    rows: u32,
    cols: u32,
    interval_ms: u64,
    margin: u32,
) -> (res: Result<FrameModel, GifLabError>)
    requires
        img.wf(),
        rows >= 1,
        cols >= 1,
    ensures
        res == Err::<FrameModel, GifLabError>(GifLabError::Geometry) <==> (tile_dim(
            img.width as int,
            cols as int,
            margin as int,
        ) == 0 || tile_dim(img.height as int, rows as int, margin as int) == 0),
        res matches Ok(m) ==> m.wf() && m@ =~= frames_of_grid(
            *img,
            rows as int,
            cols as int,
            interval_ms,
            margin as int,
        ) && m@.len() > 0,
        res == Err::<FrameModel, GifLabError>(GifLabError::EmptyResult) <==> (tile_dim(
            img.width as int,
            cols as int,
            margin as int,
        ) > 0 && tile_dim(img.height as int, rows as int, margin as int) > 0 && frames_of_grid(
            *img,
            rows as int,
            cols as int,
            interval_ms,
            margin as int,
        ).len() == 0),
        res is Ok || res == Err::<FrameModel, GifLabError>(GifLabError::Geometry) || res
            == Err::<FrameModel, GifLabError>(GifLabError::EmptyResult),
{
    let w = img.width;
    let h = img.height;
    proof {
        lemma_mul_le(cols as int - 1, u32::MAX as int, margin as int, u32::MAX as int);
        lemma_mul_le(rows as int - 1, u32::MAX as int, margin as int, u32::MAX as int);
    }
    let used_w: u64 = (cols as u64 - 1) * (margin as u64);
    let used_h: u64 = (rows as u64 - 1) * (margin as u64);
    let tw: u32 = if used_w >= w as u64 { 0 } else { ((w as u64 - used_w) / cols as u64) as u32 };
    let th: u32 = if used_h >= h as u64 { 0 } else { ((h as u64 - used_h) / rows as u64) as u32 };
    if tw == 0 || th == 0 {
        return Err(GifLabError::Geometry);
    }
    let ghost cells_all = kept_cells(
        w as int,
        h as int,
        tw as int,
        th as int,
        margin as int,
        cols as int,
        rows as int * cols as int,
    );
    let mut frames: Vec<Frame> = Vec::new();
    let mut r: u32 = 0;
    while r < rows
        invariant
            img.wf(),
            img.width == w,
            img.height == h,
            rows >= 1,
            cols >= 1,
            r <= rows,
            tw as int == tile_dim(w as int, cols as int, margin as int),
            th as int == tile_dim(h as int, rows as int, margin as int),
            tw >= 1,
            th >= 1,
            frames@.len() == kept_cells(
                w as int,
                h as int,
                tw as int,
                th as int,
                margin as int,
                cols as int,
                r as int * cols as int,
            ).len(),
            forall|j: int|
                0 <= j < frames@.len() ==> frame_v(#[trigger] frames@[j]) == (
                    tile_px(
                        *img,
                        kept_cells(
                            w as int,
                            h as int,
                            tw as int,
                            th as int,
                            margin as int,
                            cols as int,
                            r as int * cols as int,
                        )[j].0,
                        kept_cells(
                            w as int,
                            h as int,
                            tw as int,
                            th as int,
                            margin as int,
                            cols as int,
                            r as int * cols as int,
                        )[j].1,
                        tw as int,
                        th as int,
                        margin as int,
                    ),
                    tw,
                    th,
                    0u32,
                    0u32,
                    interval_ms,
                ) && frames@[j].wf() && frames@[j].buffer.width == tw
                    && frames@[j].buffer.height == th,
        decreases rows - r,
    {
        let mut c: u32 = 0;
        while c < cols
            invariant
                img.wf(),
                img.width == w,
                img.height == h,
                rows >= 1,
                cols >= 1,
                r < rows,
                c <= cols,
                tw as int == tile_dim(w as int, cols as int, margin as int),
                th as int == tile_dim(h as int, rows as int, margin as int),
                tw >= 1,
                th >= 1,
                frames@.len() == kept_cells(
                    w as int,
                    h as int,
                    tw as int,
                    th as int,
                    margin as int,
                    cols as int,
                    r as int * cols as int + c as int,
                ).len(),
                forall|j: int|
                    0 <= j < frames@.len() ==> frame_v(#[trigger] frames@[j]) == (
                        tile_px(
                            *img,
                            kept_cells(
                                w as int,
                                h as int,
                                tw as int,
                                th as int,
                                margin as int,
                                cols as int,
                                r as int * cols as int + c as int,
                            )[j].0,
                            kept_cells(
                                w as int,
                                h as int,
                                tw as int,
                                th as int,
                                margin as int,
                                cols as int,
                                r as int * cols as int + c as int,
                            )[j].1,
                            tw as int,
                            th as int,
                            margin as int,
                        ),
                        tw,
                        th,
                        0u32,
                        0u32,
                        interval_ms,
                    ) && frames@[j].wf() && frames@[j].buffer.width == tw
                        && frames@[j].buffer.height == th,
            decreases cols - c,
        {
            let ghost k = r as int * cols as int + c as int;
            proof {
                lemma_cell_coords(c as int, r as int, cols as int);
                lemma_mul_le(c as int, u32::MAX as int, tw as int + margin as int,
                    u32::MAX as int + u32::MAX as int);
                lemma_mul_le(r as int, u32::MAX as int, th as int + margin as int,
                    u32::MAX as int + u32::MAX as int);
            }
            let x: u128 = (c as u128) * (tw as u128 + margin as u128);
            let y: u128 = (r as u128) * (th as u128 + margin as u128);
            if x + tw as u128 <= w as u128 && y + th as u128 <= h as u128 {
                let tile = img.crop(x as u32, y as u32, tw, th);
                proof {
                    lemma_crop_tile(*img, tile, r as int, c as int, margin as int);
                }
                let f = Frame { buffer: tile, left: 0, top: 0, delay_ms: interval_ms };
                frames.push(f);
                proof {
                    assert(kept_cells(w as int, h as int, tw as int, th as int, margin as int,
                        cols as int, k + 1) == kept_cells(w as int, h as int, tw as int,
                        th as int, margin as int, cols as int, k).push((r as int, c as int)));
                }
            } else {
                proof {
                    assert(kept_cells(w as int, h as int, tw as int, th as int, margin as int,
                        cols as int, k + 1) == kept_cells(w as int, h as int, tw as int,
                        th as int, margin as int, cols as int, k));
                }
            }
            c = c + 1;
        }
        proof {
            assert((r as int + 1) * (cols as int) == r as int * cols as int + cols as int)
                by (nonlinear_arith);
        }
        r = r + 1;
    }
    if frames.len() == 0 {
        return Err(GifLabError::EmptyResult);
    }
    let m = FrameModel { frames };
    proof {
        let fog = frames_of_grid(*img, rows as int, cols as int, interval_ms, margin as int);
        assert forall|j: int| 0 <= j < m@.len() implies m@[j] == fog[j] by {
            assert(m@[j] == frame_v(m.frames@[j]));
        }
        assert(m@ =~= fog);
    }
    Ok(m)
}

/// First candidate at or above `i` whose square reaches `n`.
pub open spec fn csqrt_from(n: int, i: int) -> int
    recommends
        0 <= i,
    decreases n - i,
{
    if i * i >= n || i >= n { i } else { csqrt_from(n, i + 1) }
}

/// The least integer whose square reaches `n`.
pub open spec fn ceil_sqrt(n: int) -> int {
    csqrt_from(n, 0)
}

/// Columns of the composite grid: the override when given, else roughly the
/// square root of the frame count; at least one either way.
pub open spec fn grid_cols(count: int, cols_opt: Option<u32>) -> int {
    match cols_opt {
        Option::Some(c) => if c >= 1 { c as int } else { 1 },
        Option::None => { let s = ceil_sqrt(count); if s >= 1 { s } else { 1 } },
    }
}

/// Rows of the composite grid: frame count divided by columns, rounded up.
pub open spec fn grid_rows(count: int, cols: int) -> int
    recommends
        cols >= 1,
{
    (count + cols - 1) / cols
}

/// The composite's dimensions stay within what a raster can address.
pub open spec fn grid_ok(count: int, cols: int, rows: int, fw: int, fh: int) -> bool {
    &&& count <= u32::MAX
    &&& cols * fw <= u32::MAX
    &&& rows * fh <= u32::MAX
    &&& (cols * fw) * (rows * fh) <= usize::MAX
}

/// Pixel `(x, y)` of the composite laid out from `fs`: the matching pixel of
/// the tile's frame, blank where the trailing grid cells have no frame.
pub open spec fn grid_pix(fs: Seq<FrameV>, cols: int, fw: int, fh: int, x: int, y: int) -> Px {
    let t = (y / fh) * cols + x / fw;
    if t < fs.len() { fs[t].0[(y % fh) * fw + x % fw] } else { blank_px() }
}

/// Pixel `(x, y)` of the composite after only the first `upto` frames have
/// been placed.
pub open spec fn grid_partial_pix(
    fs: Seq<FrameV>,
    cols: int,
    fw: int,
    fh: int,
    upto: int,
    x: int,
    y: int,
) -> Px {
    let t = (y / fh) * cols + x / fw;
    if t < upto && t < fs.len() { fs[t].0[(y % fh) * fw + x % fw] } else { blank_px() }
}

/// A non-negative number below `n * d` has quotient below `n`.
pub proof fn lemma_div_below(x: int, d: int, n: int)
    requires
        0 <= x,
        0 < d,
        x < n * d,
    ensures
        0 <= x / d < n,
{
    vstd::arithmetic::div_mod::lemma_fundamental_div_mod(x, d);
    vstd::arithmetic::div_mod::lemma_mod_bound(x, d);
    let q = x / d;
    let rr = x % d;
    assert(q >= 0) by (nonlinear_arith)
        requires x == d * q + rr, 0 <= rr < d, 0 <= x, 0 < d;
    assert(q < n) by (nonlinear_arith)
        requires x == d * q + rr, 0 <= rr < d, x < n * d, 0 < d;
}

/// The least candidate square root, computed by counting up.
fn ceil_sqrt_exec(n: u32) -> (r: u32)
    ensures
        r as int == ceil_sqrt(n as int),
        r <= n,
{
    let mut i: u32 = 0;
    loop
        invariant
            i <= n,
            ceil_sqrt(n as int) == csqrt_from(n as int, i as int),
        decreases n - i,
    {
        proof {
            lemma_mul_le(i as int, u32::MAX as int, i as int, u32::MAX as int);
        }
        let sq: u64 = (i as u64) * (i as u64);
        if !(sq < n as u64 && i < n) {
            return i;
        }
        proof {
            assert(csqrt_from(n as int, i as int) == csqrt_from(n as int, i as int + 1));
        }
        i = i + 1;
    }
}

/// Lay the frames of `m` out as one composite raster, row-major, `cols_opt`
/// columns when given and a near-square grid otherwise. Tiles do not overlap;
/// grid cells past the last frame stay blank. Fails only when the composite
/// would exceed what a raster can address.
pub fn to_grid(m: &FrameModel, cols_opt: Option<u32>) -> (res: Result<PixelBuffer, GifLabError>)
    requires
        m.wf(),
    ensures
        res is Ok <==> grid_ok(
            m@.len() as int,
            grid_cols(m@.len() as int, cols_opt),
            grid_rows(m@.len() as int, grid_cols(m@.len() as int, cols_opt)),
            m.frame_w(),
            m.frame_h(),
        ),
        res matches Err(e) ==> e == GifLabError::Geometry,
        res matches Ok(g) ==> g.wf() && g.width == grid_cols(m@.len() as int, cols_opt)
            * m.frame_w() && g.height == grid_rows(
            m@.len() as int,
            grid_cols(m@.len() as int, cols_opt),
        ) * m.frame_h() && forall|x: int, y: int|
            g.in_bounds(x, y) ==> #[trigger] g.pix(x, y) == grid_pix(
                m@,
                grid_cols(m@.len() as int, cols_opt),
                m.frame_w(),
                m.frame_h(),
                x,
                y,
            ),
{
    let count_usize = m.frames.len();
    let ghost countg = m@.len() as int;
    proof {
        assert(m@.len() == m.frames@.len());
    }
    if count_usize > u32::MAX as usize {
        return Err(GifLabError::Geometry);
    }
    let count: u32 = count_usize as u32;
    let cols: u32 = match cols_opt {
        Some(c) => if c >= 1 { c } else { 1 },
        None => {
            let s = ceil_sqrt_exec(count);
            if s < 1 { 1 } else { s }
        },
    };
    let ghost colsg = grid_cols(countg, cols_opt);
    proof {
        assert(cols as int == colsg);
    }
    proof {
        lemma_div_below(count as int + cols as int - 1, cols as int, u32::MAX as int + 1);
        vstd::arithmetic::div_mod::lemma_fundamental_div_mod(
            count as int + cols as int - 1,
            cols as int,
        );
        vstd::arithmetic::div_mod::lemma_mod_bound(count as int + cols as int - 1, cols as int);
    }
    let rows: u32 = (((count as u64) + (cols as u64) - 1) / (cols as u64)) as u32;
    proof {
        assert(rows as int == (count as int + cols as int - 1) / (cols as int));
        assert(cols as int * (rows as int) >= count as int);
        assert(rows as int * (cols as int) == cols as int * (rows as int)) by (nonlinear_arith);
    }
    let fw: u32 = m.frames[0].buffer.width;
    let fh: u32 = m.frames[0].buffer.height;
    proof {
        assert(m@[0] == frame_v(m.frames@[0]));
        lemma_mul_le(cols as int, u32::MAX as int, fw as int, u32::MAX as int);
        lemma_mul_le(rows as int, u32::MAX as int, fh as int, u32::MAX as int);
    }
    let total_w64: u64 = (cols as u64) * (fw as u64);
    let total_h64: u64 = (rows as u64) * (fh as u64);
    if total_w64 > u32::MAX as u64 || total_h64 > u32::MAX as u64 {
        return Err(GifLabError::Geometry);
    }
    proof {
        lemma_mul_le(total_w64 as int, u32::MAX as int, total_h64 as int, u32::MAX as int);
    }
    let total_px: u128 = (total_w64 as u128) * (total_h64 as u128);
    if total_px > usize::MAX as u128 {
        return Err(GifLabError::Geometry);
    }
    let total_w: u32 = total_w64 as u32;
    let total_h: u32 = total_h64 as u32;
    let mut canvas = PixelBuffer::new_canvas(total_w, total_h);
    let mut i: u32 = 0;
    proof {
        assert forall|x: int, y: int| canvas.in_bounds(x, y)
            implies #[trigger] canvas.pix(x, y) == grid_partial_pix(m@, colsg, fw as int,
                fh as int, 0, x, y) by {
            lemma_div_below(x, fw as int, cols as int);
            lemma_div_below(y, fh as int, rows as int);
        }
    }
    while i < count
        invariant
            m.wf(),
            count == m.frames@.len(),
            m@.len() == m.frames@.len(),
            colsg == cols as int,
            i <= count,
            cols >= 1,
            rows as int == grid_rows(count as int, cols as int),
            fw as int == m.frame_w(),
            fh as int == m.frame_h(),
            fw >= 1,
            fh >= 1,
            count as int <= rows as int * cols as int,
            canvas.wf(),
            canvas.width == cols as int * fw as int,
            canvas.height == rows as int * fh as int,
            canvas.width == total_w,
            canvas.height == total_h,
            forall|x: int, y: int|
                canvas.in_bounds(x, y) ==> #[trigger] canvas.pix(x, y) == grid_partial_pix(
                    m@,
                    colsg,
                    fw as int,
                    fh as int,
                    i as int,
                    x,
                    y,
                ),
        decreases count - i,
    {
        let r: u32 = i / cols;
        let c: u32 = i % cols;
        proof {
            assert(i as int == (r as int) * (cols as int) + c as int) by {
                vstd::arithmetic::div_mod::lemma_fundamental_div_mod(i as int, cols as int);
            }
            vstd::arithmetic::div_mod::lemma_mod_bound(i as int, cols as int);
            lemma_div_below(i as int, cols as int, rows as int);
            lemma_mul_le(c as int + 1, cols as int, fw as int, fw as int);
            lemma_mul_le(r as int + 1, rows as int, fh as int, fh as int);
            assert((c as int + 1) * (fw as int) == c as int * fw as int + fw as int)
                by (nonlinear_arith);
            assert((r as int + 1) * (fh as int) == r as int * fh as int + fh as int)
                by (nonlinear_arith);
            lemma_mul_le(c as int, cols as int, fw as int, fw as int);
            lemma_mul_le(r as int, rows as int, fh as int, fh as int);
            assert(m@[i as int] == frame_v(m.frames@[i as int]));
        }
        let dx: u32 = c * fw;
        let dy: u32 = r * fh;
        let ghost canvas0 = canvas;
        let fb = &m.frames[i as usize].buffer;
        canvas.blit(fb, dx, dy);
        proof {
            lemma_grid_blit_step(m@, canvas0, canvas, *fb, colsg, rows as int, fw as int,
                fh as int, i as int, r as int, c as int);
        }
        i = i + 1;
    }
    proof {
        assert forall|x: int, y: int| canvas.in_bounds(x, y)
            implies #[trigger] canvas.pix(x, y) == grid_pix(m@, colsg, fw as int, fh as int,
                x, y) by {
            assert(canvas.pix(x, y) == grid_partial_pix(m@, colsg, fw as int, fh as int,
                count as int, x, y));
        }
    }
    Ok(canvas)
}

/// Placing frame `i` onto the canvas advances the partial grid picture by
/// one frame.
proof fn lemma_grid_blit_step(
    fs: Seq<FrameV>,
    before: PixelBuffer,
    after: PixelBuffer,
    fb: PixelBuffer,
    cols: int,
    rows: int,
    fw: int,
    fh: int,
    i: int,
    r: int,
    c: int,
)
    requires
        cols >= 1,
        fw >= 1,
        fh >= 1,
        0 <= i < fs.len(),
        i == r * cols + c,
        0 <= c < cols,
        0 <= r < rows,
        before.wf(),
        after.wf(),
        fb.wf(),
        fb.width == fw,
        fb.height == fh,
        fs[i] == (fb.data@, fw as u32, fh as u32, fs[i].3, fs[i].4, fs[i].5),
        before.width == cols * fw,
        before.height == rows * fh,
        after.width == before.width,
        after.height == before.height,
        forall|x: int, y: int|
            before.in_bounds(x, y) ==> #[trigger] before.pix(x, y) == grid_partial_pix(
                fs,
                cols,
                fw,
                fh,
                i,
                x,
                y,
            ),
        forall|x: int, y: int|
            after.in_bounds(x, y) ==> #[trigger] after.pix(x, y)
                == crate::pixels::blit_expected(before, fb, c * fw, r * fh, x, y),
    ensures
        forall|x: int, y: int|
            after.in_bounds(x, y) ==> #[trigger] after.pix(x, y) == grid_partial_pix(
                fs,
                cols,
                fw,
                fh,
                i + 1,
                x,
                y,
            ),
{
    assert forall|x: int, y: int| after.in_bounds(x, y)
        implies #[trigger] after.pix(x, y) == grid_partial_pix(fs, cols, fw, fh, i + 1, x, y) by {
        lemma_div_below(x, fw, cols);
        lemma_div_below(y, fh, rows);
        let tc = x / fw;
        let tr = y / fh;
        vstd::arithmetic::div_mod::lemma_fundamental_div_mod(x, fw);
        vstd::arithmetic::div_mod::lemma_fundamental_div_mod(y, fh);
        vstd::arithmetic::div_mod::lemma_mod_bound(x, fw);
        vstd::arithmetic::div_mod::lemma_mod_bound(y, fh);
        if c * fw <= x < c * fw + fw && r * fh <= y < r * fh + fh {
            lemma_cell_coords(x - c * fw, c, fw);
            lemma_cell_coords(y - r * fh, r, fh);
            assert(tc == c && tr == r);
            lemma_cell_coords(c, r, cols);
            lemma_cell_coords(tc, tr, cols);
            assert(tr * cols + tc == i);
            assert(after.pix(x, y) == fb.pix(x - c * fw, y - r * fh));
            assert(fb.pix(x - c * fw, y - r * fh) == fb.data@[(y - r * fh) * fw + (x - c * fw)]);
            assert(x % fw == x - c * fw && y % fh == y - r * fh);
        } else {
            assert(after.pix(x, y) == before.pix(x, y));
            if tr * cols + tc == i {
                lemma_cell_coords(c, r, cols);
                lemma_cell_coords(tc, tr, cols);
                assert(tc == c && tr == r);
                assert(tc * fw == fw * tc && tr * fh == fh * tr) by (nonlinear_arith);
                assert(c * fw <= x < c * fw + fw) by {
                    assert(x == fw * tc + x % fw);
                    assert(tc * fw == fw * tc) by (nonlinear_arith);
                }
                assert(r * fh <= y < r * fh + fh) by {
                    assert(y == fh * tr + y % fh);
                    assert(tr * fh == fh * tr) by (nonlinear_arith);
                }
                assert(false);
            }
        }
    }
}

/// When the image splits into tiles exactly, every grid position is kept,
/// in row-major order.
proof fn lemma_exact_cells(w: int, h: int, tw: int, th: int, rows: int, cols: int, k: int)
    requires
        1 <= tw,
        1 <= th,
        1 <= cols,
        1 <= rows,
        w == cols * tw,
        h == rows * th,
        0 <= k <= rows * cols,
    ensures
        kept_cells(w, h, tw, th, 0, cols, k).len() == k,
        forall|j: int|
            0 <= j < k ==> kept_cells(w, h, tw, th, 0, cols, k)[j] == ((j / cols, j % cols)),
    decreases k,
{
    if k > 0 {
        lemma_exact_cells(w, h, tw, th, rows, cols, k - 1);
        let r = (k - 1) / cols;
        let c = (k - 1) % cols;
        lemma_div_below(k - 1, cols, rows);
        vstd::arithmetic::div_mod::lemma_mod_bound(k - 1, cols);
        lemma_mul_le(c + 1, cols, tw, tw);
        lemma_mul_le(r + 1, rows, th, th);
        assert((c + 1) * tw == c * tw + tw && (r + 1) * th == r * th + th)
            by (nonlinear_arith);
        assert(c * (tw + 0) == c * tw && r * (th + 0) == r * th) by (nonlinear_arith);
        assert(tile_fits(w, h, tw, th, 0, r, c));
    }
}

/// Splitting a composite image into an exact grid of tiles and laying those
/// frames back out with the same column count reconstructs the composite:
/// same dimensions, and every pixel equal.
pub proof fn lemma_grid_round_trip(
    img: PixelBuffer,
    rows: u32,
    cols: u32,
    interval_ms: u64,
    tw: u32,
    th: u32,
    m: FrameModel,
    g: PixelBuffer,
)
    requires
        img.wf(),
        rows >= 1,
        cols >= 1,
        tw >= 1,
        th >= 1,
        rows as int * cols as int <= u32::MAX,
        img.width as int == cols as int * tw as int,
        img.height as int == rows as int * th as int,
        m.wf(),
        m@ =~= frames_of_grid(img, rows as int, cols as int, interval_ms, 0),
        g.wf(),
        g.width == grid_cols(m@.len() as int, Some(cols)) * m.frame_w(),
        g.height == grid_rows(m@.len() as int, grid_cols(m@.len() as int, Some(cols)))
            * m.frame_h(),
        forall|x: int, y: int|
            g.in_bounds(x, y) ==> #[trigger] g.pix(x, y) == grid_pix(
                m@,
                grid_cols(m@.len() as int, Some(cols)),
                m.frame_w(),
                m.frame_h(),
                x,
                y,
            ),
    ensures
        g.width == img.width,
        g.height == img.height,
        forall|x: int, y: int|
            img.in_bounds(x, y) ==> #[trigger] g.pix(x, y) == img.pix(x, y),
{
    let w = img.width as int;
    let h = img.height as int;
    let twi = tw as int;
    let thi = th as int;
    let rowsi = rows as int;
    let colsi = cols as int;
    vstd::arithmetic::div_mod::lemma_div_multiples_vanish(twi, colsi);
    vstd::arithmetic::div_mod::lemma_div_multiples_vanish(thi, rowsi);
    assert(tile_dim(w, colsi, 0) == twi);
    assert(tile_dim(h, rowsi, 0) == thi);
    lemma_exact_cells(w, h, twi, thi, rowsi, colsi, rowsi * colsi);
    let fog = frames_of_grid(img, rowsi, colsi, interval_ms, 0);
    let count = m@.len() as int;
    assert(count == rowsi * colsi);
    assert(m@[0] == frame_v(m.frames@[0]));
    assert(m@[0] == fog[0]);
    assert(m.frame_w() == twi && m.frame_h() == thi);
    let colsg = grid_cols(count, Some(cols));
    assert(colsg == colsi);
    vstd::arithmetic::div_mod::lemma_fundamental_div_mod_converse(
        count + colsi - 1,
        colsi,
        rowsi,
        colsi - 1,
    );
    assert(grid_rows(count, colsi) == rowsi);
    assert(g.width == colsi * twi == w);
    assert(g.height == rowsi * thi == h);
    assert forall|x: int, y: int| img.in_bounds(x, y)
        implies #[trigger] g.pix(x, y) == img.pix(x, y) by {
        lemma_div_below(x, twi, colsi);
        lemma_div_below(y, thi, rowsi);
        vstd::arithmetic::div_mod::lemma_fundamental_div_mod(x, twi);
        vstd::arithmetic::div_mod::lemma_fundamental_div_mod(y, thi);
        vstd::arithmetic::div_mod::lemma_mod_bound(x, twi);
        vstd::arithmetic::div_mod::lemma_mod_bound(y, thi);
        let tc = x / twi;
        let tr = y / thi;
        lemma_cell_index(tc, tr, colsi, rowsi);
        let t = tr * colsi + tc;
        lemma_cell_coords(tc, tr, colsi);
        assert(g.in_bounds(x, y));
        assert(g.pix(x, y) == grid_pix(m@, colsi, twi, thi, x, y));
        assert(t < count);
        assert(m@[t] == fog[t]);
        assert(kept_cells(w, h, twi, thi, 0, colsi, rowsi * colsi)[t] == ((tr, tc)));
        let k0 = (y % thi) * twi + x % twi;
        lemma_cell_index(x % twi, y % thi, twi, thi);
        lemma_cell_coords(x % twi, y % thi, twi);
        assert(fog[t].0 == tile_px(img, tr, tc, twi, thi, 0));
        assert(tile_px(img, tr, tc, twi, thi, 0)[k0] == img.pix(
            tile_origin(tc, twi, 0) + k0 % twi,
            tile_origin(tr, thi, 0) + k0 / twi,
        ));
        assert(tc * (twi + 0) == tc * twi && tr * (thi + 0) == tr * thi) by (nonlinear_arith);
        assert(tc * twi == twi * tc && tr * thi == thi * tr) by (nonlinear_arith);
        assert(tile_origin(tc, twi, 0) + x % twi == x);
        assert(tile_origin(tr, thi, 0) + y % thi == y);
    }
}

} // verus!
