use vstd::prelude::*;
use crate::pixels::{Px, PixelBuffer, lemma_cell_coords};
use crate::model::{Frame, FrameModel, FrameV, GifLabError, frame_v};

verus! {

/// Everything one decoded frame carries, as one spec-level value: RGBA bytes,
/// width, height, horizontal offset, vertical offset, delay in milliseconds.
pub type RawV = (Seq<u8>, u32, u32, u32, u32, u64);

/// One frame as it crosses the boundary to the image codecs: RGBA bytes in
/// row-major order plus placement and timing.
#[derive(Debug)]
pub struct RawFrame {
    pub data: Vec<u8>,
    pub width: u32,
    pub height: u32,
    pub left: u32,
    pub top: u32,
    pub delay_ms: u64,
}

/// The spec-level content of one boundary frame.
pub open spec fn raw_v(f: RawFrame) -> RawV {
    (f.data@, f.width, f.height, f.left, f.top, f.delay_ms)
}

/// The spec-level content of a sequence of boundary frames.
pub open spec fn raw_views(fs: Seq<RawFrame>) -> Seq<RawV> {
    fs.map_values(|f: RawFrame| raw_v(f))
}

/// What GIF decoding yields on the given bytes: `None` when the bytes are
/// not a readable GIF stream, otherwise the decoded frames in display order,
/// delays in milliseconds. A fixed function of the bytes alone.
pub uninterp spec fn gif_frames_of(bytes: Seq<u8>) -> Option<Seq<RawV>>;

/// What GIF serialization of the given frames yields, with infinite looping
/// configured: the bytes, or nothing when the serializer reports an error.
/// A fixed function of the frames alone.
pub uninterp spec fn gif_bytes_of(frames: Seq<RawV>) -> Option<Seq<u8>>;

/// What PNG serialization of one RGBA raster yields: the bytes, or nothing
/// when the serializer reports an error. A fixed function of its arguments
/// alone.
pub uninterp spec fn png_bytes_of(raw: Seq<u8>, width: u32, height: u32) -> Option<Seq<u8>>;

/// What decoding a static image to RGBA yields: `None` when the bytes are
/// not a readable image, otherwise the pixels with their dimensions.
pub uninterp spec fn image_rgba_of(bytes: Seq<u8>) -> Option<(Seq<u8>, u32, u32)>;

/// What high-quality resampling of a `sw x sh` RGBA raster to `tw x th`
/// yields. A fixed function of its arguments alone.
pub uninterp spec fn resampled(raw: Seq<u8>, sw: u32, sh: u32, tw: u32, th: u32) -> Seq<u8>;

/// What standard base64 encoding of the given bytes yields.
pub uninterp spec fn base64_of(bytes: Seq<u8>) -> Seq<char>;

/// Relies on image's `GifDecoder` and `AnimationDecoder::into_frames`: the
/// decoded frames are a function of the bytes alone; each frame's container
/// holds exactly `4 * width * height` bytes.
#[verifier::external_body]
pub(crate) fn gif_decode_raw(bytes: &[u8]) -> (r: Option<Vec<RawFrame>>)
    ensures
        r is Some <==> gif_frames_of(bytes@) is Some,
        r matches Some(v) ==> raw_views(v@) == gif_frames_of(bytes@).unwrap(),
        r matches Some(v) ==> forall|i: int|
            0 <= i < v@.len()
                ==> (#[trigger] v@[i]).data@.len() == 4 * v@[i].width * v@[i].height,
{
    let dec = image::codecs::gif::GifDecoder::new(std::io::Cursor::new(bytes)).ok()?;
    let frames = image::AnimationDecoder::into_frames(dec).collect_frames().ok()?;
    let mut out = Vec::new();
    for f in frames {
        let (left, top) = (f.left(), f.top());
        let delay_ms = std::time::Duration::from(f.delay()).as_millis() as u64;
        let buf = f.into_buffer();
        let (width, height) = (buf.width(), buf.height());
        out.push(RawFrame { data: buf.into_raw(), width, height, left, top, delay_ms });
    }
    Some(out)
}

/// Relies on image's `GifEncoder` with `Repeat::Infinite`: whether it
/// succeeds and which bytes it writes are a function of the frames alone;
/// `None` on a serialization failure. Each pixel container must hold exactly
/// `4 * width * height` bytes: the GIF frame constructor asserts that count,
/// while `RgbaImage::from_raw` accepts any longer container.
#[verifier::external_body]
pub(crate) fn gif_encode_raw(frames: Vec<RawFrame>) -> (r: Option<Vec<u8>>)
    requires
        forall|i: int|
            0 <= i < frames@.len()
                ==> (#[trigger] frames@[i]).data@.len() == 4 * frames@[i].width
                    * frames@[i].height,
    ensures
        r is Some <==> gif_bytes_of(raw_views(frames@)) is Some,
        r matches Some(b) ==> gif_bytes_of(raw_views(frames@)) == Some(b@),
{
    let mut cur = std::io::Cursor::new(Vec::new());
    let mut enc = image::codecs::gif::GifEncoder::new(&mut cur);
    enc.set_repeat(image::codecs::gif::Repeat::Infinite).ok()?;
    for f in frames {
        let buf = image::RgbaImage::from_raw(f.width, f.height, f.data)?;
        let d = std::time::Duration::from_millis(f.delay_ms);
        let delay = image::Delay::from_saturating_duration(d);
        enc.encode_frame(image::Frame::from_parts(buf, f.left, f.top, delay)).ok()?;
    }
    drop(enc);
    Some(cur.into_inner())
}

/// Relies on `ImageBuffer::write_to` with the PNG format: whether it
/// succeeds and which bytes it writes are a function of the raster alone;
/// `None` on a serialization failure.
#[verifier::external_body]
pub(crate) fn png_encode_raw(raw: Vec<u8>, width: u32, height: u32) -> (r: Option<Vec<u8>>)
    requires
        raw@.len() == 4 * width * height,
    ensures
        r is Some <==> png_bytes_of(raw@, width, height) is Some,
        r matches Some(b) ==> png_bytes_of(raw@, width, height) == Some(b@),
{
    let img = match image::RgbaImage::from_raw(width, height, raw) {
        Some(i) => i,
        None => return None,
    };
    let mut cur = std::io::Cursor::new(Vec::new());
    match img.write_to(&mut cur, image::ImageFormat::Png) {
        Ok(()) => Some(cur.into_inner()),
        Err(_) => None,
    }
}

/// Relies on `image::load_from_memory` and `DynamicImage::into_rgba8`: the
/// pixels are a function of the bytes alone; the container holds exactly
/// `4 * width * height` bytes.
#[verifier::external_body]
pub(crate) fn load_rgba(bytes: &[u8]) -> (r: Option<(Vec<u8>, u32, u32)>)
    ensures
        r is Some <==> image_rgba_of(bytes@) is Some,
        r matches Some(t) ==> image_rgba_of(bytes@) == Some((t.0@, t.1, t.2))
            && t.0@.len() == 4 * t.1 * t.2,
{
    match image::load_from_memory(bytes) {
        Ok(img) => {
            let rgba = img.into_rgba8();
            let (w, h) = (rgba.width(), rgba.height());
            Some((rgba.into_raw(), w, h))
        }
        Err(_) => None,
    }
}

/// Relies on `DynamicImage::resize_exact` with the Lanczos3 filter: the
/// resampled pixels are a function of the arguments alone and fill a
/// `tw x th` raster exactly.
#[verifier::external_body]
pub(crate) fn resample_raw(raw: Vec<u8>, sw: u32, sh: u32, tw: u32, th: u32) -> (r: Vec<u8>)
    requires
        raw@.len() == 4 * sw * sh,
        sw > 0,
        sh > 0,
        tw > 0,
        th > 0,
    ensures
        r@ == resampled(raw@, sw, sh, tw, th),
        r@.len() == 4 * tw * th,
{
    let img = image::RgbaImage::from_raw(sw, sh, raw).unwrap();
    let out = image::DynamicImage::ImageRgba8(img)
        .resize_exact(tw, th, image::imageops::FilterType::Lanczos3);
    out.into_rgba8().into_raw()
}

/// Relies on base64's standard-alphabet engine with padding: four output
/// characters for every started group of three input bytes.
#[verifier::external_body]
pub(crate) fn b64_string(bytes: &Vec<u8>) -> (r: String)
    ensures
        r@ == base64_of(bytes@),
        r@.len() == 4 * ((bytes@.len() + 2) / 3),
{
    base64::Engine::encode(&base64::engine::general_purpose::STANDARD, bytes)
}

/// The pixels stored in a row-major RGBA byte sequence, four bytes each.
pub open spec fn px_of_bytes(b: Seq<u8>) -> Seq<Px> {
    Seq::new((b.len() / 4) as nat, |i: int| (b[4 * i], b[4 * i + 1], b[4 * i + 2], b[4 * i + 3]))
}

/// The row-major RGBA byte sequence holding the given pixels.
pub open spec fn bytes_of_px(p: Seq<Px>) -> Seq<u8> {
    Seq::new((p.len() * 4) as nat, |k: int| {
        let px = p[k / 4];
        if k % 4 == 0 { px.0 } else if k % 4 == 1 { px.1 } else if k % 4 == 2 { px.2 } else { px.3 }
    })
}

/// Group a raw RGBA byte vector into pixels.
pub fn pack_pixels(raw: &Vec<u8>) -> (r: Vec<Px>)
    requires
        raw@.len() % 4 == 0,
    ensures
        r@ == px_of_bytes(raw@),
        r@.len() == raw@.len() / 4,
{
    let len: usize = raw.len();
    let n: usize = len / 4;
    let mut out: Vec<Px> = Vec::new();
    let mut i: usize = 0;
    while i < n
        invariant
            len == raw@.len(),
            n == raw@.len() / 4,
            raw@.len() % 4 == 0,
            i <= n,
            out@.len() == i,
            forall|j: int| 0 <= j < i ==> out@[j] == px_of_bytes(raw@)[j],
        decreases n - i,
    {
        proof {
            vstd::arithmetic::div_mod::lemma_fundamental_div_mod(raw@.len() as int, 4);
            assert(raw@.len() == 4 * (raw@.len() / 4));
            assert(4 * (i as int) + 3 < raw@.len());
        }
        let p: Px = (raw[4 * i], raw[4 * i + 1], raw[4 * i + 2], raw[4 * i + 3]);
        out.push(p);
        i = i + 1;
    }
    proof {
        assert(out@ =~= px_of_bytes(raw@));
    }
    out
}

/// Flatten pixels back into a raw RGBA byte vector.
pub fn unpack_pixels(px: &Vec<Px>) -> (r: Vec<u8>)
    ensures
        r@ == bytes_of_px(px@),
        r@.len() == 4 * px@.len(),
{
    let n: usize = px.len();
    let mut out: Vec<u8> = Vec::new();
    let mut i: usize = 0;
    while i < n
        invariant
            n == px@.len(),
            i <= n,
            out@.len() == 4 * i,
            forall|k: int| 0 <= k < out@.len() ==> out@[k] == bytes_of_px(px@)[k],
        decreases n - i,
    {
        let p = px[i];
        out.push(p.0);
        out.push(p.1);
        out.push(p.2);
        out.push(p.3);
        proof {
            lemma_cell_coords(0, i as int, 4);
            lemma_cell_coords(1, i as int, 4);
            lemma_cell_coords(2, i as int, 4);
            lemma_cell_coords(3, i as int, 4);
        }
        i = i + 1;
    }
    proof {
        assert(out@ =~= bytes_of_px(px@));
    }
    out
}

/// The decoded stream is usable: at least one frame, and every frame has the
/// same positive canvas size with a fully filled pixel container.
pub open spec fn raw_ok(rs: Seq<RawV>) -> bool {
    &&& rs.len() > 0
    &&& forall|i: int|
        0 <= i < rs.len() ==> (#[trigger] rs[i]).1 > 0 && rs[i].2 > 0 && rs[i].1 == rs[0].1
            && rs[i].2 == rs[0].2 && rs[i].0.len() == 4 * rs[i].1 * rs[i].2
}

/// One boundary frame as model content: bytes grouped into pixels.
pub open spec fn frame_of_raw(r: RawV) -> FrameV {
    (px_of_bytes(r.0), r.1, r.2, r.3, r.4, r.5)
}

/// One model frame as boundary content: pixels flattened to bytes.
pub open spec fn raw_of_frame(f: FrameV) -> RawV {
    (bytes_of_px(f.0), f.1, f.2, f.3, f.4, f.5)
}

/// What `decode` yields on the given bytes: the decoded frames when the
/// stream is a usable animation, and nothing otherwise.
pub open spec fn decode_view(bytes: Seq<u8>) -> Option<Seq<FrameV>> {
    match gif_frames_of(bytes) {
        Option::None => Option::None,
        Option::Some(rs) => if raw_ok(rs) {
            Option::Some(rs.map_values(|r: RawV| frame_of_raw(r)))
        } else {
            Option::None
        },
    }
}

/// The bytes decode to a usable animation.
pub open spec fn decodable(bytes: Seq<u8>) -> bool {
    decode_view(bytes) is Some
}

/// The boundary content of a whole model.
pub open spec fn model_raws(fs: Seq<FrameV>) -> Seq<RawV> {
    fs.map_values(|f: FrameV| raw_of_frame(f))
}

/// Every frame's pixel container holds exactly one pixel per canvas cell.
pub open spec fn frames_sized(fs: Seq<FrameV>) -> bool {
    forall|i: int| 0 <= i < fs.len() ==> (#[trigger] fs[i]).0.len() == fs[i].1 * fs[i].2
}

/// A well-formed model's frames are exactly filled.
pub proof fn lemma_wf_sized(m: FrameModel)
    requires
        m.wf(),
    ensures
        frames_sized(m@),
{
    assert forall|i: int| 0 <= i < m@.len()
        implies (#[trigger] m@[i]).0.len() == m@[i].1 * m@[i].2 by {
        assert(m@[i] == frame_v(m.frames@[i]));
        assert(m.frames@[i].wf());
    }
}

/// Parse an animated-image byte buffer into a frame model. Rejects buffers
/// that are not a readable GIF stream, decode to zero frames, or whose frames
/// do not share one positive canvas size. Per-frame delays and offsets are
/// kept exactly as stored.
pub fn decode(bytes: &[u8]) -> (r: Result<FrameModel, GifLabError>)
    ensures
        r is Ok <==> decodable(bytes@),
        r matches Ok(m) ==> m.wf() && decode_view(bytes@) == Some(m@),
        r matches Err(e) ==> e == GifLabError::Decode,
{
    let raws = match gif_decode_raw(bytes) {
        Some(v) => v,
        None => {
            return Err(GifLabError::Decode);
        }
    };
    let n = raws.len();
    if n == 0 {
        return Err(GifLabError::Decode);
    }
    let w0 = raws[0].width;
    let h0 = raws[0].height;
    let mut frames: Vec<Frame> = Vec::new();
    let mut i: usize = 0;
    while i < n
        invariant
            n == raws@.len(),
            n > 0,
            i <= n,
            w0 == raws@[0].width,
            h0 == raws@[0].height,
            gif_frames_of(bytes@) == Some(raw_views(raws@)),
            forall|j: int|
                0 <= j < n ==> (#[trigger] raws@[j]).data@.len() == 4 * raws@[j].width
                    * raws@[j].height,
            forall|j: int|
                0 <= j < i ==> (#[trigger] raws@[j]).width == w0 && raws@[j].height == h0
                    && raws@[j].width > 0 && raws@[j].height > 0,
            frames@.len() == i,
            forall|j: int|
                0 <= j < i ==> frame_v(#[trigger] frames@[j]) == frame_of_raw(raw_v(raws@[j]))
                    && frames@[j].wf(),
        decreases n - i,
    {
        let rf = &raws[i];
        if rf.width == 0 || rf.height == 0 || rf.width != w0 || rf.height != h0 {
            proof {
                assert(!raw_ok(raw_views(raws@))) by {
                    assert(raw_views(raws@)[i as int] == raw_v(raws@[i as int]));
                    assert(raw_views(raws@)[0] == raw_v(raws@[0]));
                }
            }
            return Err(GifLabError::Decode);
        }
        proof {
            let wh = rf.width as int * rf.height as int;
            assert(4 * (rf.width as int) * (rf.height as int)
                == 4 * (rf.width as int * rf.height as int)) by (nonlinear_arith);
            assert((rf.width as int * rf.height as int) * 4
                == 4 * (rf.width as int * rf.height as int)) by (nonlinear_arith);
            vstd::arithmetic::div_mod::lemma_mod_multiples_basic(wh, 4);
            assert(rf.data@.len() % 4 == 0);
            vstd::arithmetic::div_mod::lemma_div_multiples_vanish(wh, 4);
            assert(rf.data@.len() / 4 == wh);
        }
        let data = pack_pixels(&rf.data);
        let f = Frame {
            buffer: PixelBuffer { width: rf.width, height: rf.height, data },
            left: rf.left,
            top: rf.top,
            delay_ms: rf.delay_ms,
        };
        frames.push(f);
        i = i + 1;
    }
    let m = FrameModel { frames };
    proof {
        let rs = raw_views(raws@);
        assert forall|j: int| 0 <= j < rs.len() implies (#[trigger] rs[j]).1 > 0 && rs[j].2 > 0
            && rs[j].1 == rs[0].1 && rs[j].2 == rs[0].2
            && rs[j].0.len() == 4 * rs[j].1 * rs[j].2 by {
            assert(rs[j] == raw_v(raws@[j]));
            assert(rs[0] == raw_v(raws@[0]));
        }
        assert(raw_ok(rs));
        assert(m@ =~= rs.map_values(|r: RawV| frame_of_raw(r)));
        assert(decode_view(bytes@) == Some(m@));
        assert forall|j: int| 0 <= j < m.frames@.len()
            implies (#[trigger] m.frames@[j]).wf()
                && m.frames@[j].buffer.width == m.frames@[0].buffer.width
                && m.frames@[j].buffer.height == m.frames@[0].buffer.height by {
            assert(frame_v(m.frames@[j]).1 == w0 && frame_v(m.frames@[j]).2 == h0);
            assert(frame_v(m.frames@[0]).1 == w0 && frame_v(m.frames@[0]).2 == h0);
        }
    }
    Ok(m)
}

/// Serialize a frame model into an animated GIF byte buffer configured for
/// infinite looping, each frame carrying its offset and delay exactly.
/// Fails when the model is empty, a frame's pixel container does not match
/// its canvas size, or the serializer reports an error; succeeds otherwise.
pub fn encode(m: &FrameModel) -> (r: Result<Vec<u8>, GifLabError>)
    ensures
        r is Ok <==> m@.len() > 0 && frames_sized(m@) && gif_bytes_of(model_raws(m@)) is Some,
        r matches Ok(b) ==> gif_bytes_of(model_raws(m@)) == Some(b@),
        r matches Err(e) ==> e == GifLabError::Encode,
{
    let n = m.frames.len();
    if n == 0 {
        return Err(GifLabError::Encode);
    }
    let mut raws: Vec<RawFrame> = Vec::new();
    let mut i: usize = 0;
    while i < n
        invariant
            n == m.frames@.len(),
            m@.len() == m.frames@.len(),
            i <= n,
            raws@.len() == i,
            forall|j: int|
                0 <= j < i ==> raw_v(#[trigger] raws@[j]) == raw_of_frame(frame_v(m.frames@[j])),
            forall|j: int|
                0 <= j < i ==> (#[trigger] raws@[j]).data@.len() == 4 * raws@[j].width
                    * raws@[j].height,
            forall|j: int|
                0 <= j < i ==> (#[trigger] m@[j]).0.len() == m@[j].1 * m@[j].2,
        decreases n - i,
    {
        let f = &m.frames[i];
        proof {
            crate::pixels::lemma_mul_le(
                f.buffer.width as int,
                u32::MAX as int,
                f.buffer.height as int,
                u32::MAX as int,
            );
            assert(m@[i as int] == frame_v(m.frames@[i as int]));
        }
        let wh: u64 = (f.buffer.width as u64) * (f.buffer.height as u64);
        if (f.buffer.data.len() as u64) != wh {
            proof {
                assert(!frames_sized(m@)) by {
                    assert((m@[i as int]).0.len() != m@[i as int].1 * m@[i as int].2);
                }
            }
            return Err(GifLabError::Encode);
        }
        proof {
            let w = f.buffer.width as int;
            let h = f.buffer.height as int;
            assert(4 * w * h == 4 * (w * h)) by (nonlinear_arith);
        }
        let data = unpack_pixels(&f.buffer.data);
        let rf = RawFrame {
            data,
            width: f.buffer.width,
            height: f.buffer.height,
            left: f.left,
            top: f.top,
            delay_ms: f.delay_ms,
        };
        raws.push(rf);
        i = i + 1;
    }
    proof {
        assert forall|j: int| 0 <= j < m@.len()
            implies raw_views(raws@)[j] == model_raws(m@)[j] by {
            assert(m@[j] == frame_v(m.frames@[j]));
        }
        assert(raw_views(raws@) =~= model_raws(m@));
        assert(frames_sized(m@));
    }
    match gif_encode_raw(raws) {
        Some(b) => Ok(b),
        None => Err(GifLabError::Encode),
    }
}

} // verus!
