use vstd::prelude::*;
use crate::pixels::{PixelBuffer, Px, Orient, orient_out_w, orient_out_h, orient_src_x,
    orient_src_y, lemma_cell_index, lemma_cell_coords, lemma_grid_pointwise_eq};
use crate::model::{Frame, FrameModel, FrameV, GifLabError, frame_v, model_eq};
use crate::imageio::{px_of_bytes, bytes_of_px, resampled, pack_pixels, unpack_pixels,
    resample_raw};

verus! {

/// One per-call change to an animation. Fractional factors are carried as a
/// numerator/denominator pair of a positive rational.
#[derive(Clone, Copy, PartialEq, Eq, Structural, Debug)]
pub enum Transform {
    /// Divide every delay by `num / den`, with a 10 ms floor.
    Speed(u32, u32),
    /// Play the frames in the opposite order.
    Reverse,
    /// Resample every frame to exactly the given width and height.
    Resize(u32, u32),
    /// Resample every frame by the factor `num / den`, measured against the
    /// first frame's dimensions.
    Scale(u32, u32),
    /// Quarter-turn by the given angle in degrees; other angles pass the
    /// pixels through unchanged.
    Rotate(i32),
    /// Mirror each frame along the vertical axis.
    FlipH,
    /// Mirror each frame along the horizontal axis.
    FlipV,
}

/// A caller-supplied parameter of `t` is outside its valid domain.
pub open spec fn invalid_op(t: Transform) -> bool {
    match t {
        Transform::Speed(num, den) => num == 0 || den == 0,
        Transform::Resize(w, h) => w == 0 || h == 0,
        Transform::Scale(_num, den) => den == 0,
        _ => false,
    }
}

/// The delay that speeding a frame up by `num / den` yields: the input delay
/// divided by the factor, floored at 10 ms and saturated at the delay type's
/// ceiling.
pub open spec fn speed_delay(d: u64, num: u32, den: u32) -> u64
    recommends
        num > 0,
{
    let q = (d as int * den as int) / num as int;
    let capped = if q > u64::MAX as int { u64::MAX as int } else { q };
    if capped < 10 { 10u64 } else { capped as u64 }
}

/// The dimension that scaling `orig` by `num / den` aims at: rounded to the
/// nearest whole pixel, at least 1, saturated at the dimension type's ceiling.
pub open spec fn scale_target(orig: int, num: int, den: int) -> int
    recommends
        den > 0,
{
    let t = (orig * num + den / 2) / den;
    let capped = if t > u32::MAX as int { u32::MAX as int } else { t };
    if capped < 1 { 1 } else { capped }
}

/// Pixels of one frame after resampling, as the boundary codec reports them.
pub open spec fn resampled_px(px: Seq<Px>, sw: u32, sh: u32, tw: u32, th: u32) -> Seq<Px> {
    px_of_bytes(resampled(bytes_of_px(px), sw, sh, tw, th))
}

/// Pixels of a `w x h` raster after the mirror or quarter-turn `o`, row-major.
pub open spec fn orient_px(px: Seq<Px>, w: int, h: int, o: Orient) -> Seq<Px> {
    let ow = orient_out_w(o, w, h);
    Seq::new(
        (ow * orient_out_h(o, w, h)) as nat,
        |k: int| px[
            orient_src_y(o, k % ow, k / ow, w, h) * w + orient_src_x(o, k % ow, k / ow, w, h)
        ],
    )
}

/// Every frame resampled to `w x h`: delays kept, offsets cleared.
pub open spec fn resize_frames(fs: Seq<FrameV>, w: u32, h: u32) -> Seq<FrameV> {
    Seq::new(
        fs.len(),
        |i: int| (resampled_px(fs[i].0, fs[i].1, fs[i].2, w, h), w, h, 0u32, 0u32, fs[i].5),
    )
}

/// Every frame mirrored or quarter-turned: delays kept, offsets cleared.
pub open spec fn orient_frames(fs: Seq<FrameV>, o: Orient) -> Seq<FrameV> {
    Seq::new(
        fs.len(),
        |i: int| (
            orient_px(fs[i].0, fs[i].1 as int, fs[i].2 as int, o),
            orient_out_w(o, fs[i].1 as int, fs[i].2 as int) as u32,
            orient_out_h(o, fs[i].1 as int, fs[i].2 as int) as u32,
            0u32,
            0u32,
            fs[i].5,
        ),
    )
}

/// What `apply` yields on a valid request: the transformed frames, in order.
pub open spec fn apply_frames(fs: Seq<FrameV>, t: Transform) -> Seq<FrameV>
    recommends
        !invalid_op(t),
        fs.len() > 0,
{
    match t {
        Transform::Speed(num, den) => Seq::new(
            fs.len(),
            |i: int| (fs[i].0, fs[i].1, fs[i].2, fs[i].3, fs[i].4, speed_delay(fs[i].5, num, den)),
        ),
        Transform::Reverse => Seq::new(fs.len(), |i: int| fs[fs.len() - 1 - i]),
        Transform::Resize(w, h) => resize_frames(fs, w, h),
        Transform::Scale(num, den) => resize_frames(
            fs,
            scale_target(fs[0].1 as int, num as int, den as int) as u32,
            scale_target(fs[0].2 as int, num as int, den as int) as u32,
        ),
        Transform::Rotate(deg) => {
            let nd = (deg as int) % 360;
            if nd == 90 {
                orient_frames(fs, Orient::Rot90)
            } else if nd == 180 {
                orient_frames(fs, Orient::Rot180)
            } else if nd == 270 {
                orient_frames(fs, Orient::Rot270)
            } else {
                Seq::new(fs.len(), |i: int| (fs[i].0, fs[i].1, fs[i].2, 0u32, 0u32, fs[i].5))
            }
        },
        Transform::FlipH => orient_frames(fs, Orient::FlipH),
        Transform::FlipV => orient_frames(fs, Orient::FlipV),
    }
}

/// A raster whose pointwise content is `src` re-read through `o` stores
/// exactly the reoriented pixel sequence.
proof fn lemma_reorient_data(src: PixelBuffer, r: PixelBuffer, o: Orient)
    requires
        src.wf(),
        r.wf(),
        r.width == orient_out_w(o, src.width as int, src.height as int),
        r.height == orient_out_h(o, src.width as int, src.height as int),
        forall|x: int, y: int|
            r.in_bounds(x, y) ==> #[trigger] r.pix(x, y) == src.pix(
                orient_src_x(o, x, y, src.width as int, src.height as int),
                orient_src_y(o, x, y, src.width as int, src.height as int),
            ),
    ensures
        r.data@ == orient_px(src.data@, src.width as int, src.height as int, o),
{
    let w = src.width as int;
    let h = src.height as int;
    let ow = orient_out_w(o, w, h);
    let oh = orient_out_h(o, w, h);
    let target = orient_px(src.data@, w, h, o);
    assert forall|x: int, y: int| 0 <= x < ow && 0 <= y < oh
        implies r.data@[y * ow + x] == #[trigger] target[y * ow + x] by {
        lemma_cell_index(x, y, ow, oh);
        lemma_cell_coords(x, y, ow);
        assert(r.pix(x, y) == src.pix(
            orient_src_x(o, x, y, w, h),
            orient_src_y(o, x, y, w, h),
        ));
    }
    lemma_grid_pointwise_eq(r.data@, target, ow, oh);
}

/// Divide `d` by the factor `num / den`, floored at 10 ms.
fn speed_delay_exec(d: u64, num: u32, den: u32) -> (r: u64)
    requires
        num > 0,
        den > 0,
    ensures
        r == speed_delay(d, num, den),
{
    proof {
        crate::pixels::lemma_mul_le(d as int, u64::MAX as int, den as int, u32::MAX as int);
    }
    let prod: u128 = (d as u128) * (den as u128);
    let q: u128 = prod / (num as u128);
    let capped: u64 = if q > (u64::MAX as u128) { u64::MAX } else { q as u64 };
    if capped < 10 { 10 } else { capped }
}

/// Scale `orig` by `num / den`, rounded, clamped to at least one pixel.
fn scale_target_exec(orig: u32, num: u32, den: u32) -> (r: u32)
    requires
        den > 0,
    ensures
        r == scale_target(orig as int, num as int, den as int),
        r > 0,
{
    proof {
        crate::pixels::lemma_mul_le(orig as int, u32::MAX as int, num as int, u32::MAX as int);
    }
    let t: u64 = (orig as u64) * (num as u64) + (den as u64) / 2;
    let q: u64 = t / (den as u64);
    let capped: u32 = if q > (u32::MAX as u64) { u32::MAX } else { q as u32 };
    if capped < 1 { 1 } else { capped }
}

/// Reduce an angle in degrees to `[0, 360)`.
fn normalize_deg(deg: i32) -> (r: u32)
    ensures
        r == (deg as int) % 360,
        r < 360,
{
    let d64: i64 = deg as i64;
    if d64 >= 0 {
        (d64 % 360) as u32
    } else {
        let rneg: i64 = (-d64) % 360;
        proof {
            vstd::arithmetic::div_mod::lemma_fundamental_div_mod(-d64 as int, 360);
            let q = (-d64 as int) / 360;
            if rneg == 0 {
                assert(d64 as int == (-q) * 360) by (nonlinear_arith)
                    requires -d64 as int == q * 360 + rneg, rneg == 0;
                vstd::arithmetic::div_mod::lemma_mod_multiples_basic(-q, 360);
            } else {
                assert(d64 as int == (-q - 1) * 360 + (360 - rneg)) by (nonlinear_arith)
                    requires -d64 as int == q * 360 + rneg;
                vstd::arithmetic::div_mod::lemma_fundamental_div_mod_converse(
                    d64 as int,
                    360,
                    -q - 1,
                    360 - rneg,
                );
            }
        }
        if rneg == 0 { 0 } else { (360 - rneg) as u32 }
    }
}

/// Every frame of `m` resampled to `tw x th`.
fn resample_all(m: &FrameModel, tw: u32, th: u32) -> (out: Vec<Frame>)
    requires
        m.wf(),
        tw > 0,
        th > 0,
    ensures
        out@.len() == m@.len(),
        forall|j: int|
            0 <= j < out@.len()
                ==> frame_v(#[trigger] out@[j]) == resize_frames(m@, tw, th)[j] && out@[j].wf(),
{
    let n = m.frames.len();
    let mut out: Vec<Frame> = Vec::new();
    let mut i: usize = 0;
    while i < n
        invariant
            m.wf(),
            n == m.frames@.len(),
            i <= n,
            tw > 0,
            th > 0,
            out@.len() == i,
            forall|j: int|
                0 <= j < i
                    ==> frame_v(#[trigger] out@[j]) == resize_frames(m@, tw, th)[j]
                        && out@[j].wf(),
        decreases n - i,
    {
        let f = &m.frames[i];
        let sw = f.buffer.width;
        let sh = f.buffer.height;
        proof {
            assert(4 * (sw as int) * (sh as int) == 4 * (sw as int * sh as int))
                by (nonlinear_arith);
            assert((tw as int * th as int) * 4 == 4 * (tw as int * th as int))
                by (nonlinear_arith);
            assert(4 * (tw as int) * (th as int) == 4 * (tw as int * th as int))
                by (nonlinear_arith);
            vstd::arithmetic::div_mod::lemma_mod_multiples_basic(tw as int * th as int, 4);
            vstd::arithmetic::div_mod::lemma_div_multiples_vanish(tw as int * th as int, 4);
        }
        let bytes = unpack_pixels(&f.buffer.data);
        let rb = resample_raw(bytes, sw, sh, tw, th);
        let data = pack_pixels(&rb);
        let nf = Frame {
            buffer: PixelBuffer { width: tw, height: th, data },
            left: 0,
            top: 0,
            delay_ms: f.delay_ms,
        };
        proof {
            assert(m@[i as int] == frame_v(m.frames@[i as int]));
        }
        out.push(nf);
        i = i + 1;
    }
    out
}

/// Every frame of `m` mirrored or quarter-turned by `o`.
fn orient_all(m: &FrameModel, o: Orient) -> (out: Vec<Frame>)
    requires
        m.wf(),
    ensures
        out@.len() == m@.len(),
        forall|j: int|
            0 <= j < out@.len()
                ==> frame_v(#[trigger] out@[j]) == orient_frames(m@, o)[j] && out@[j].wf(),
{
    let n = m.frames.len();
    let mut out: Vec<Frame> = Vec::new();
    let mut i: usize = 0;
    while i < n
        invariant
            m.wf(),
            n == m.frames@.len(),
            i <= n,
            out@.len() == i,
            forall|j: int|
                0 <= j < i
                    ==> frame_v(#[trigger] out@[j]) == orient_frames(m@, o)[j] && out@[j].wf(),
        decreases n - i,
    {
        let f = &m.frames[i];
        let buf = f.buffer.reorient(o);
        proof {
            lemma_reorient_data(f.buffer, buf, o);
            assert(m@[i as int] == frame_v(m.frames@[i as int]));
            assert(buf.width as int * buf.height as int
                == f.buffer.width as int * f.buffer.height as int) by (nonlinear_arith)
                requires (buf.width == f.buffer.width && buf.height == f.buffer.height)
                    || (buf.width == f.buffer.height && buf.height == f.buffer.width);
        }
        let nf = Frame { buffer: buf, left: 0, top: 0, delay_ms: f.delay_ms };
        out.push(nf);
        i = i + 1;
    }
    out
}

/// Apply one transform to a frame model, producing a new model built from the
/// input's pixel data. The input is never changed; frame count is always
/// preserved; a request whose parameter is out of domain fails with
/// `InvalidArgument` and nothing else fails.
pub fn apply(m: &FrameModel, t: Transform) -> (r: Result<FrameModel, GifLabError>)
    requires
        m.wf(),
    ensures
        r is Err <==> invalid_op(t),
        r matches Err(e) ==> e == GifLabError::InvalidArgument,
        r matches Ok(out) ==> out.wf() && out@ =~= apply_frames(m@, t)
            && out@.len() == m@.len(),
{
    match t {
        Transform::Speed(num, den) => {
            if num == 0 || den == 0 {
                return Err(GifLabError::InvalidArgument);
            }
            let n = m.frames.len();
            let mut frames: Vec<Frame> = Vec::new();
            let mut i: usize = 0;
            while i < n
                invariant
                    m.wf(),
                    n == m.frames@.len(),
                    i <= n,
                    num > 0,
                    den > 0,
                    frames@.len() == i,
                    forall|j: int|
                        0 <= j < i
                            ==> frame_v(#[trigger] frames@[j])
                                == apply_frames(m@, Transform::Speed(num, den))[j]
                                && frames@[j].wf(),
                decreases n - i,
            {
                let f = &m.frames[i];
                let nd = speed_delay_exec(f.delay_ms, num, den);
                let nf = Frame {
                    buffer: f.buffer.duplicate(),
                    left: f.left,
                    top: f.top,
                    delay_ms: nd,
                };
                proof {
                    assert(m@[i as int] == frame_v(m.frames@[i as int]));
                }
                frames.push(nf);
                i = i + 1;
            }
            Ok(finish_model(m, frames, t))
        }
        Transform::Reverse => {
            let n = m.frames.len();
            let mut frames: Vec<Frame> = Vec::new();
            let mut i: usize = 0;
            while i < n
                invariant
                    m.wf(),
                    n == m.frames@.len(),
                    i <= n,
                    frames@.len() == i,
                    forall|j: int|
                        0 <= j < i
                            ==> frame_v(#[trigger] frames@[j])
                                == apply_frames(m@, Transform::Reverse)[j] && frames@[j].wf(),
                decreases n - i,
            {
                let f = &m.frames[n - 1 - i];
                let nf = Frame {
                    buffer: f.buffer.duplicate(),
                    left: f.left,
                    top: f.top,
                    delay_ms: f.delay_ms,
                };
                proof {
                    assert(m@[n - 1 - i as int] == frame_v(m.frames@[n - 1 - i as int]));
                }
                frames.push(nf);
                i = i + 1;
            }
            Ok(finish_model(m, frames, t))
        }
        Transform::Resize(w, h) => {
            if w == 0 || h == 0 {
                return Err(GifLabError::InvalidArgument);
            }
            let frames = resample_all(m, w, h);
            Ok(finish_model(m, frames, t))
        }
        Transform::Scale(num, den) => {
            if den == 0 {
                return Err(GifLabError::InvalidArgument);
            }
            let tw = scale_target_exec(m.frames[0].buffer.width, num, den);
            let th = scale_target_exec(m.frames[0].buffer.height, num, den);
            proof {
                assert(m@[0] == frame_v(m.frames@[0]));
            }
            let frames = resample_all(m, tw, th);
            Ok(finish_model(m, frames, t))
        }
        Transform::Rotate(deg) => {
            let nd = normalize_deg(deg);
            if nd == 90 {
                Ok(finish_model(m, orient_all(m, Orient::Rot90), t))
            } else if nd == 180 {
                Ok(finish_model(m, orient_all(m, Orient::Rot180), t))
            } else if nd == 270 {
                Ok(finish_model(m, orient_all(m, Orient::Rot270), t))
            } else {
                let n = m.frames.len();
                let mut frames: Vec<Frame> = Vec::new();
                let mut i: usize = 0;
                while i < n
                    invariant
                        m.wf(),
                        n == m.frames@.len(),
                        i <= n,
                        (deg as int) % 360 != 90,
                        (deg as int) % 360 != 180,
                        (deg as int) % 360 != 270,
                        frames@.len() == i,
                        forall|j: int|
                            0 <= j < i
                                ==> frame_v(#[trigger] frames@[j])
                                    == apply_frames(m@, Transform::Rotate(deg))[j]
                                    && frames@[j].wf(),
                    decreases n - i,
                {
                    let f = &m.frames[i];
                    let nf = Frame {
                        buffer: f.buffer.duplicate(),
                        left: 0,
                        top: 0,
                        delay_ms: f.delay_ms,
                    };
                    proof {
                        assert(m@[i as int] == frame_v(m.frames@[i as int]));
                    }
                    frames.push(nf);
                    i = i + 1;
                }
                Ok(finish_model(m, frames, t))
            }
        }
        Transform::FlipH => Ok(finish_model(m, orient_all(m, Orient::FlipH), t)),
        Transform::FlipV => Ok(finish_model(m, orient_all(m, Orient::FlipV), t)),
    }
}

/// Wrap transformed frames back into a model and carry the well-formedness
/// and shape facts over from the per-frame ones.
fn finish_model(m: &FrameModel, frames: Vec<Frame>, t: Transform) -> (out: FrameModel)
    requires
        m.wf(),
        !invalid_op(t),
        frames@.len() == m@.len(),
        forall|j: int|
            0 <= j < frames@.len()
                ==> frame_v(#[trigger] frames@[j]) == apply_frames(m@, t)[j] && frames@[j].wf(),
    ensures
        out.wf(),
        out@ =~= apply_frames(m@, t),
        out@.len() == m@.len(),
{
    let out = FrameModel { frames };
    proof {
        let fs = apply_frames(m@, t);
        assert(fs.len() == m@.len());
        assert forall|j: int| 0 <= j < out@.len() implies out@[j] == fs[j] by {
            assert(out@[j] == frame_v(out.frames@[j]));
        }
        assert forall|j: int| 0 <= j < out.frames@.len()
            implies (#[trigger] out.frames@[j]).buffer.width == out.frames@[0].buffer.width
                && out.frames@[j].buffer.height == out.frames@[0].buffer.height by {
            assert(frame_v(out.frames@[j]) == fs[j]);
            assert(frame_v(out.frames@[0]) == fs[0]);
            lemma_apply_uniform(m@, t, j);
        }
    }
    out
}

/// All frames that `apply_frames` yields share the dimensions of its first
/// output frame.
proof fn lemma_apply_uniform(fs: Seq<FrameV>, t: Transform, j: int)
    requires
        fs.len() > 0,
        0 <= j < fs.len(),
        forall|i: int|
            0 <= i < fs.len() ==> (#[trigger] fs[i]).1 == fs[0].1 && fs[i].2 == fs[0].2,
    ensures
        apply_frames(fs, t)[j].1 == apply_frames(fs, t)[0].1,
        apply_frames(fs, t)[j].2 == apply_frames(fs, t)[0].2,
{
    assert(fs[j].1 == fs[0].1 && fs[j].2 == fs[0].2);
    match t {
        Transform::Reverse => {
            assert(fs[fs.len() - 1 - j].1 == fs[0].1 && fs[fs.len() - 1 - j].2 == fs[0].2);
            assert(fs[fs.len() - 1 - 0].1 == fs[0].1 && fs[fs.len() - 1 - 0].2 == fs[0].2);
        }
        _ => {}
    }
}

/// Reversing twice restores the input animation, frame for frame,
/// delays included.
pub proof fn lemma_reverse_idempotent(m: FrameModel, once: FrameModel, twice: FrameModel)
    requires
        m.wf(),
        once@ =~= apply_frames(m@, Transform::Reverse),
        twice@ =~= apply_frames(once@, Transform::Reverse),
    ensures
        model_eq(twice, m),
{
    assert forall|i: int| 0 <= i < twice@.len() implies twice@[i] == m@[i] by {
        assert(twice@[i] == once@[once@.len() - 1 - i]);
        assert(once@[once@.len() - 1 - i] == m@[m@.len() - 1 - (m@.len() - 1 - i)]);
    }
    assert(twice@ =~= m@);
}

/// The input delay `d` divided by the factor `num / den`, floored at 10.
pub open spec fn floored_quotient(d: int, num: int, den: int) -> int {
    let q = (d * den) / num;
    if q < 10 { 10 } else { q }
}

/// Speeding up by `num / den` sets every output delay to exactly the input
/// delay divided by the factor, floored at 10 ms, whenever that quotient
/// fits the delay type.
pub proof fn lemma_speed_floor(m: FrameModel, out: FrameModel, num: u32, den: u32)
    requires
        m.wf(),
        num > 0,
        den > 0,
        out@ =~= apply_frames(m@, Transform::Speed(num, den)),
        forall|i: int|
            0 <= i < m@.len()
                ==> ((#[trigger] m@[i]).5 as int * den as int) / num as int <= u64::MAX,
    ensures
        out@.len() == m@.len(),
        forall|i: int|
            0 <= i < m@.len() ==> (#[trigger] out@[i]).5 as int == floored_quotient(
                m@[i].5 as int,
                num as int,
                den as int,
            ),
{
}

} // verus!
