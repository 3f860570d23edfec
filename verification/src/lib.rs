pub mod pixels;
pub mod model;
pub mod imageio;
pub mod transform;
pub mod grid;
pub mod inspect;
pub mod text;

use vstd::prelude::*;
use crate::pixels::PixelBuffer;
use crate::model::GifLabError;
use crate::imageio::{decode, encode, decodable, decode_view, model_raws, gif_bytes_of,
    png_bytes_of, base64_of, image_rgba_of, bytes_of_px, px_of_bytes, pack_pixels,
    unpack_pixels, load_rgba, png_encode_raw, b64_string};
use crate::transform::{Transform, apply, apply_frames, invalid_op};
use crate::grid::{to_frames, to_grid, tile_dim, frames_of_grid, frames_of_grid_raw, grid_cols,
    grid_rows, grid_ok, grid_pix};
use crate::inspect::{Summary, describe, total_delay, format_size_spec};

verus! {

/// The composite canvas of `fs`, as one row-major pixel sequence of the
/// `width x height` grid layout.
pub open spec fn grid_px_seq(
    fs: Seq<crate::model::FrameV>,
    cols: int,
    fw: int,
    fh: int,
    width: int,
    height: int,
) -> Seq<crate::pixels::Px> {
    Seq::new((width * height) as nat, |k: int| grid_pix(fs, cols, fw, fh, k % width, k / width))
}

/// Split a composite image into tiles and serialize them as an animation,
/// returned base64-encoded. Rejects bytes that are no readable image; a
/// margin too large for the image is a geometry error; producing no tile is
/// an empty-result error; otherwise the call succeeds exactly when the
/// serializer does.
pub fn grid_to_gif(
    img_bytes: &[u8],
    rows: u32,
    cols: u32,
    interval_ms: u64,
    margin: u32,
) -> (r: Result<String, GifLabError>)
    requires
        rows >= 1,
        cols >= 1,
    ensures
        r == Err::<String, GifLabError>(GifLabError::Decode) <==> image_rgba_of(img_bytes@)
            is None,
        image_rgba_of(img_bytes@) matches Some(t) ==> {
            let tw = tile_dim(t.1 as int, cols as int, margin as int);
            let th = tile_dim(t.2 as int, rows as int, margin as int);
            let fs = frames_of_grid_raw(
                px_of_bytes(t.0),
                t.1 as int,
                t.2 as int,
                rows as int,
                cols as int,
                interval_ms,
                margin as int,
            );
            &&& (r == Err::<String, GifLabError>(GifLabError::Geometry) <==> (tw == 0 || th
                == 0))
            &&& (tw > 0 && th > 0 ==> (r == Err::<String, GifLabError>(
                GifLabError::EmptyResult,
            ) <==> fs.len() == 0))
            &&& (tw > 0 && th > 0 && fs.len() > 0 ==> (r is Ok <==> gif_bytes_of(
                model_raws(fs),
            ) is Some))
            &&& (r matches Ok(s) ==> s@ == base64_of(gif_bytes_of(model_raws(fs)).unwrap()))
        },
        r matches Err(e) ==> e == GifLabError::Decode || e == GifLabError::Geometry || e
            == GifLabError::EmptyResult || e == GifLabError::Encode,
{
    let (raw, w, h) = match load_rgba(img_bytes) {
        Some(t) => t,
        None => {
            return Err(GifLabError::Decode);
        },
    };
    proof {
        let wh = w as int * h as int;
        assert(4 * (w as int) * (h as int) == 4 * (w as int * h as int)) by (nonlinear_arith);
        assert((w as int * h as int) * 4 == 4 * (w as int * h as int)) by (nonlinear_arith);
        vstd::arithmetic::div_mod::lemma_mod_multiples_basic(wh, 4);
        vstd::arithmetic::div_mod::lemma_div_multiples_vanish(wh, 4);
    }
    let data = pack_pixels(&raw);
    let img = PixelBuffer { width: w, height: h, data };
    let m = match to_frames(&img, rows, cols, interval_ms, margin) {
        Ok(m) => m,
        Err(e) => {
            return Err(e);
        },
    };
    proof {
        assert(m@ == frames_of_grid(img, rows as int, cols as int, interval_ms, margin as int));
        crate::imageio::lemma_wf_sized(m);
    }
    let bytes = match encode(&m) {
        Ok(b) => b,
        Err(e) => {
            return Err(e);
        },
    };
    let s = b64_string(&bytes);
    Ok(s)
}

/// Decode an animation and lay its frames out as one composite image,
/// serialized as a still image and returned base64-encoded. A composite too
/// large for a raster is a geometry error; otherwise the call succeeds
/// exactly when the serializer does.
pub fn gif_to_grid(img_bytes: &[u8], cols_opt: Option<u32>) -> (r: Result<String, GifLabError>)
    ensures
        r == Err::<String, GifLabError>(GifLabError::Decode) <==> !decodable(img_bytes@),
        decodable(img_bytes@) ==> {
            let fs = decode_view(img_bytes@).unwrap();
            let cols = grid_cols(fs.len() as int, cols_opt);
            let rows = grid_rows(fs.len() as int, cols);
            let png = png_bytes_of(
                bytes_of_px(
                    grid_px_seq(
                        fs,
                        cols,
                        fs[0].1 as int,
                        fs[0].2 as int,
                        cols * fs[0].1 as int,
                        rows * fs[0].2 as int,
                    ),
                ),
                (cols * fs[0].1 as int) as u32,
                (rows * fs[0].2 as int) as u32,
            );
            &&& (r == Err::<String, GifLabError>(GifLabError::Geometry) <==> !grid_ok(
                fs.len() as int,
                cols,
                rows,
                fs[0].1 as int,
                fs[0].2 as int,
            ))
            &&& (grid_ok(fs.len() as int, cols, rows, fs[0].1 as int, fs[0].2 as int)
                ==> (r is Ok <==> png is Some))
            &&& (r matches Ok(s) ==> s@ == base64_of(png.unwrap()))
        },
        r matches Err(e) ==> e == GifLabError::Decode || e == GifLabError::Geometry || e
            == GifLabError::Encode,
{
    let m = match decode(img_bytes) {
        Ok(m) => m,
        Err(_) => {
            return Err(GifLabError::Decode);
        },
    };
    let g = match to_grid(&m, cols_opt) {
        Ok(g) => g,
        Err(_) => {
            return Err(GifLabError::Geometry);
        },
    };
    proof {
        let fs = m@;
        let cols = grid_cols(fs.len() as int, cols_opt);
        let fw = m.frame_w();
        let fh = m.frame_h();
        let target = grid_px_seq(fs, cols, fw, fh, g.width as int, g.height as int);
        assert forall|x: int, y: int| 0 <= x < g.width as int && 0 <= y < g.height as int
            implies g.data@[y * g.width as int + x] == #[trigger] target[y * g.width as int
            + x] by {
            crate::pixels::lemma_cell_index(x, y, g.width as int, g.height as int);
            crate::pixels::lemma_cell_coords(x, y, g.width as int);
            assert(g.pix(x, y) == grid_pix(fs, cols, fw, fh, x, y));
        }
        crate::pixels::lemma_grid_pointwise_eq(g.data@, target, g.width as int, g.height as int);
        assert(m@[0] == crate::model::frame_v(m.frames@[0]));
    }
    let raw = unpack_pixels(&g.data);
    proof {
        let wh = g.width as int * g.height as int;
        assert((g.width as int * g.height as int) * 4 == 4 * (g.width as int * g.height as int))
            by (nonlinear_arith);
        assert(4 * (g.width as int) * (g.height as int)
            == 4 * (g.width as int * g.height as int)) by (nonlinear_arith);
    }
    let png = match png_encode_raw(raw, g.width, g.height) {
        Some(b) => b,
        None => {
            return Err(GifLabError::Encode);
        },
    };
    let s = b64_string(&png);
    Ok(s)
}

/// Decode an animation and serialize each frame on its own as a still
/// image, each returned base64-encoded, in display order. Succeeds exactly
/// when the serializer does on every frame.
pub fn gif_to_frames(img_bytes: &[u8]) -> (r: Result<Vec<String>, GifLabError>)
    ensures
        r == Err::<Vec<String>, GifLabError>(GifLabError::Decode) <==> !decodable(img_bytes@),
        decodable(img_bytes@) ==> {
            let fs = decode_view(img_bytes@).unwrap();
            r is Ok <==> forall|i: int|
                0 <= i < fs.len() ==> png_bytes_of(
                    bytes_of_px((#[trigger] fs[i]).0),
                    fs[i].1,
                    fs[i].2,
                ) is Some
        },
        r matches Ok(v) ==> {
            let fs = decode_view(img_bytes@).unwrap();
            &&& v@.len() == fs.len()
            &&& forall|i: int|
                0 <= i < fs.len() ==> (#[trigger] v@[i])@ == base64_of(
                    png_bytes_of(bytes_of_px(fs[i].0), fs[i].1, fs[i].2).unwrap(),
                )
        },
        r matches Err(e) ==> e == GifLabError::Decode || e == GifLabError::Encode,
{
    let m = match decode(img_bytes) {
        Ok(m) => m,
        Err(_) => {
            return Err(GifLabError::Decode);
        },
    };
    let n = m.frames.len();
    let mut out: Vec<String> = Vec::new();
    let mut i: usize = 0;
    while i < n
        invariant
            m.wf(),
            decodable(img_bytes@),
            decode_view(img_bytes@) == Some(m@),
            n == m.frames@.len(),
            m@.len() == m.frames@.len(),
            i <= n,
            out@.len() == i,
            forall|j: int|
                0 <= j < i ==> png_bytes_of(
                    bytes_of_px((#[trigger] m@[j]).0),
                    m@[j].1,
                    m@[j].2,
                ) is Some,
            forall|j: int|
                0 <= j < i ==> (#[trigger] out@[j])@ == base64_of(
                    png_bytes_of(bytes_of_px(m@[j].0), m@[j].1, m@[j].2).unwrap(),
                ),
        decreases n - i,
    {
        let f = &m.frames[i];
        let raw = unpack_pixels(&f.buffer.data);
        proof {
            let fw = f.buffer.width as int;
            let fh = f.buffer.height as int;
            assert((fw * fh) * 4 == 4 * (fw * fh)) by (nonlinear_arith);
            assert(4 * fw * fh == 4 * (fw * fh)) by (nonlinear_arith);
            assert(m@[i as int] == crate::model::frame_v(m.frames@[i as int]));
        }
        let png = match png_encode_raw(raw, f.buffer.width, f.buffer.height) {
            Some(b) => b,
            None => {
                proof {
                    assert(png_bytes_of(
                        bytes_of_px(m@[i as int].0),
                        m@[i as int].1,
                        m@[i as int].2,
                    ) is None);
                }
                return Err(GifLabError::Encode);
            },
        };
        let s = b64_string(&png);
        out.push(s);
        i = i + 1;
    }
    Ok(out)
}

/// Decode an animation and report its statistics: canvas size, frame count,
/// total duration, and the source's formatted byte size.
pub fn gif_info(img_bytes: &[u8]) -> (r: Result<Summary, GifLabError>)
    ensures
        r is Ok <==> decodable(img_bytes@),
        r matches Err(e) ==> e == GifLabError::Decode,
        r matches Ok(s) ==> {
            let fs = decode_view(img_bytes@).unwrap();
            &&& s.width == fs[0].1
            &&& s.height == fs[0].2
            &&& s.frame_count == fs.len()
            &&& s.total_duration_ms as int == total_delay(fs, fs.len() as int)
            &&& s.size_text@ == format_size_spec(img_bytes@.len() as int)
        },
{
    let m = match decode(img_bytes) {
        Ok(m) => m,
        Err(_) => {
            return Err(GifLabError::Decode);
        },
    };
    proof {
        assert(m@[0] == crate::model::frame_v(m.frames@[0]));
    }
    Ok(describe(&m, img_bytes.len()))
}

/// Decode an animation, apply one transform, and serialize the result,
/// returned base64-encoded. On a decodable input and a valid request, the
/// call succeeds exactly when the serializer does.
pub fn process_gif(img_bytes: &[u8], op: Transform) -> (r: Result<String, GifLabError>)
    ensures
        r == Err::<String, GifLabError>(GifLabError::Decode) <==> !decodable(img_bytes@),
        decodable(img_bytes@) ==> (r == Err::<String, GifLabError>(GifLabError::InvalidArgument)
            <==> invalid_op(op)),
        decodable(img_bytes@) && !invalid_op(op) ==> (r is Ok <==> gif_bytes_of(
            model_raws(apply_frames(decode_view(img_bytes@).unwrap(), op)),
        ) is Some),
        r matches Ok(s) ==> s@ == base64_of(
            gif_bytes_of(model_raws(apply_frames(decode_view(img_bytes@).unwrap(), op))).unwrap(),
        ),
        r matches Err(e) ==> e == GifLabError::Decode || e == GifLabError::InvalidArgument || e
            == GifLabError::Encode,
{
    let m = match decode(img_bytes) {
        Ok(m) => m,
        Err(_) => {
            return Err(GifLabError::Decode);
        },
    };
    let m2 = match apply(&m, op) {
        Ok(x) => x,
        Err(_) => {
            return Err(GifLabError::InvalidArgument);
        },
    };
    proof {
        crate::imageio::lemma_wf_sized(m2);
        assert(m2@ == apply_frames(m@, op));
    }
    let bytes = match encode(&m2) {
        Ok(b) => b,
        Err(_) => {
            return Err(GifLabError::Encode);
        },
    };
    let s = b64_string(&bytes);
    Ok(s)
}

} // verus!
