use base64::Engine as _;
use gif_lab::model::{Frame, FrameModel, GifLabError};
use gif_lab::pixels::PixelBuffer;
use gif_lab::imageio::{decode, encode};
use gif_lab::transform::Transform;
use gif_lab::{gif_info, gif_to_frames, gif_to_grid, grid_to_gif, process_gif};

fn solid_frame(width: u32, height: u32, px: (u8, u8, u8, u8), delay_ms: u64) -> Frame {
    Frame {
        buffer: PixelBuffer { width, height, data: vec![px; (width * height) as usize] },
        left: 0,
        top: 0,
        delay_ms,
    }
}

fn sample_gif() -> Vec<u8> {
    let m = FrameModel {
        frames: vec![
            solid_frame(50, 50, (255, 0, 0, 255), 50),
            solid_frame(50, 50, (0, 255, 0, 255), 150),
            solid_frame(50, 50, (0, 0, 255, 255), 100),
            solid_frame(50, 50, (255, 255, 255, 255), 100),
        ],
    };
    encode(&m).unwrap()
}

fn b64_decode(s: &str) -> Vec<u8> {
    base64::engine::general_purpose::STANDARD.decode(s).unwrap()
}

#[test]
fn grid_to_gif_splits_png_composite() {
    // A 30x30 PNG split 3x3 yields a nine-frame animation of 10x10 tiles.
    let img = image::RgbaImage::from_fn(30, 30, |x, y| {
        image::Rgba([(x * 8) as u8, (y * 8) as u8, 0, 255])
    });
    let mut png = std::io::Cursor::new(Vec::new());
    img.write_to(&mut png, image::ImageFormat::Png).unwrap();
    let s = grid_to_gif(png.get_ref(), 3, 3, 100, 0).unwrap();
    let gif = b64_decode(&s);
    assert_eq!(&gif[0..6], b"GIF89a");
    let m = decode(&gif).unwrap();
    assert_eq!(m.frames.len(), 9);
    assert_eq!(m.frames[0].buffer.width, 10);
    assert_eq!(m.frames[0].buffer.height, 10);
    assert_eq!(m.frames[0].delay_ms, 100);
}

#[test]
fn grid_to_gif_rejects_garbage() {
    assert_eq!(grid_to_gif(b"no image here", 3, 3, 100, 0).unwrap_err(), GifLabError::Decode);
}

#[test]
fn grid_to_gif_margin_too_large_is_geometry() {
    let img = image::RgbaImage::from_pixel(10, 10, image::Rgba([1, 2, 3, 255]));
    let mut png = std::io::Cursor::new(Vec::new());
    img.write_to(&mut png, image::ImageFormat::Png).unwrap();
    assert_eq!(
        grid_to_gif(png.get_ref(), 1, 2, 100, 10).unwrap_err(),
        GifLabError::Geometry
    );
}

#[test]
fn gif_to_grid_lays_out_composite_png() {
    let s = gif_to_grid(&sample_gif(), Some(2)).unwrap();
    let png = b64_decode(&s);
    assert_eq!(&png[0..4], &[137u8, b'P', b'N', b'G']);
    let composite = image::load_from_memory(&png).unwrap();
    assert_eq!(composite.width(), 100);
    assert_eq!(composite.height(), 100);
}

#[test]
fn gif_to_grid_rejects_garbage() {
    assert_eq!(gif_to_grid(b"????", None).unwrap_err(), GifLabError::Decode);
}

#[test]
fn gif_to_frames_matches_reference_png_encoding() {
    // Frame for frame, the output must be exactly the base64 of the PNG
    // serialization of the decoded pixels.
    let gif = sample_gif();
    let out = gif_to_frames(&gif).unwrap();
    assert_eq!(out.len(), 4);
    let m = decode(&gif).unwrap();
    for (s, f) in out.iter().zip(m.frames.iter()) {
        let mut raw = Vec::new();
        for &(r, g, b, a) in &f.buffer.data {
            raw.extend_from_slice(&[r, g, b, a]);
        }
        let img = image::RgbaImage::from_raw(f.buffer.width, f.buffer.height, raw).unwrap();
        let mut png = std::io::Cursor::new(Vec::new());
        img.write_to(&mut png, image::ImageFormat::Png).unwrap();
        let expected = base64::engine::general_purpose::STANDARD.encode(png.get_ref());
        assert_eq!(s, &expected);
    }
}

#[test]
fn gif_info_reports_count_and_duration() {
    let gif = sample_gif();
    let s = gif_info(&gif).unwrap();
    assert_eq!(s.frame_count, 4);
    assert_eq!(s.total_duration_ms, 400);
    assert_eq!(s.width, 50);
    assert_eq!(s.height, 50);
    assert_eq!(gif_info(b"junk").unwrap_err(), GifLabError::Decode);
}

#[test]
fn process_gif_speed_halves_delays() {
    // Delays are multiples of 20 ms so the halved values survive the GIF
    // format's 10 ms delay resolution exactly.
    let m = FrameModel {
        frames: vec![
            solid_frame(10, 10, (1, 1, 1, 255), 60),
            solid_frame(10, 10, (2, 2, 2, 255), 140),
            solid_frame(10, 10, (3, 3, 3, 255), 100),
        ],
    };
    let gif = encode(&m).unwrap();
    let s = process_gif(&gif, Transform::Speed(2, 1)).unwrap();
    let out = decode(&b64_decode(&s)).unwrap();
    assert_eq!(out.frames.len(), 3);
    assert_eq!(out.frames[0].delay_ms, 30);
    assert_eq!(out.frames[1].delay_ms, 70);
    assert_eq!(out.frames[2].delay_ms, 50);
}

#[test]
fn process_gif_resize_changes_canvas() {
    let gif = sample_gif();
    let s = process_gif(&gif, Transform::Resize(20, 30)).unwrap();
    let out = decode(&b64_decode(&s)).unwrap();
    assert_eq!(out.frames[0].buffer.width, 20);
    assert_eq!(out.frames[0].buffer.height, 30);
    assert_eq!(out.frames.len(), 4);
}

#[test]
fn process_gif_rotate_swaps_dimensions() {
    let m = FrameModel { frames: vec![solid_frame(40, 20, (9, 9, 9, 255), 100)] };
    let gif = encode(&m).unwrap();
    let s = process_gif(&gif, Transform::Rotate(90)).unwrap();
    let out = decode(&b64_decode(&s)).unwrap();
    assert_eq!(out.frames[0].buffer.width, 20);
    assert_eq!(out.frames[0].buffer.height, 40);
}

#[test]
fn process_gif_error_cases() {
    assert_eq!(
        process_gif(b"bad", Transform::Reverse).unwrap_err(),
        GifLabError::Decode
    );
    let gif = sample_gif();
    assert_eq!(
        process_gif(&gif, Transform::Speed(0, 1)).unwrap_err(),
        GifLabError::InvalidArgument
    );
}
