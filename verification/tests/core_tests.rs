use gif_lab::pixels::PixelBuffer;
use gif_lab::model::{Frame, FrameModel, GifLabError};
use gif_lab::grid::{to_frames, to_grid};
use gif_lab::transform::{apply, Transform};
use gif_lab::imageio::{decode, encode};
use gif_lab::inspect::{describe, format_size};

fn solid(width: u32, height: u32, px: (u8, u8, u8, u8)) -> PixelBuffer {
    PixelBuffer { width, height, data: vec![px; (width * height) as usize] }
}

/// A composite whose every pixel encodes its own coordinates, so tile
/// placement mistakes are visible.
fn coordinate_image(width: u32, height: u32) -> PixelBuffer {
    let mut data = Vec::new();
    for y in 0..height {
        for x in 0..width {
            data.push(((x % 251) as u8, (y % 251) as u8, ((x + y) % 251) as u8, 255u8));
        }
    }
    PixelBuffer { width, height, data }
}

fn frame_of(buffer: PixelBuffer, delay_ms: u64) -> Frame {
    Frame { buffer, left: 0, top: 0, delay_ms }
}

#[test]
fn grid_compose_scenario() {
    // A 300x300 composite split 3x3 with no margin and 100 ms interval
    // yields nine 100x100 frames, each with a 100 ms delay.
    let img = coordinate_image(300, 300);
    let m = to_frames(&img, 3, 3, 100, 0).unwrap();
    assert_eq!(m.frames.len(), 9);
    for f in &m.frames {
        assert_eq!(f.buffer.width, 100);
        assert_eq!(f.buffer.height, 100);
        assert_eq!(f.delay_ms, 100);
        assert_eq!(f.left, 0);
        assert_eq!(f.top, 0);
    }
    // Frame 4 (row 1, col 1) holds the tile at (100, 100).
    let f = &m.frames[4];
    assert_eq!(f.buffer.data[0], ((100 % 251) as u8, (100 % 251) as u8, (200 % 251) as u8, 255));
}

#[test]
fn grid_round_trip_reconstructs_composite() {
    let img = coordinate_image(120, 90);
    let m = to_frames(&img, 3, 4, 50, 0).unwrap();
    assert_eq!(m.frames.len(), 12);
    let g = to_grid(&m, Some(4)).unwrap();
    assert_eq!(g.width, img.width);
    assert_eq!(g.height, img.height);
    assert_eq!(g.data, img.data);
}

#[test]
fn split_to_grid_inverse_scenario() {
    // Four 50x50 frames laid out with two columns give a 100x100 composite
    // with frame 0 top-left, 1 top-right, 2 bottom-left, 3 bottom-right.
    let colors = [
        (255u8, 0u8, 0u8, 255u8),
        (0, 255, 0, 255),
        (0, 0, 255, 255),
        (255, 255, 0, 255),
    ];
    let frames: Vec<Frame> = colors.iter().map(|&c| frame_of(solid(50, 50, c), 100)).collect();
    let m = FrameModel { frames };
    let g = to_grid(&m, Some(2)).unwrap();
    assert_eq!(g.width, 100);
    assert_eq!(g.height, 100);
    let pick = |x: u32, y: u32| g.data[(y * 100 + x) as usize];
    assert_eq!(pick(0, 0), colors[0]);
    assert_eq!(pick(99, 0), colors[1]);
    assert_eq!(pick(0, 99), colors[2]);
    assert_eq!(pick(99, 99), colors[3]);
}

#[test]
fn to_grid_blank_remainder_cells() {
    // Three frames in two columns: the fourth grid cell stays transparent.
    let frames = vec![
        frame_of(solid(10, 10, (9, 9, 9, 255)), 40),
        frame_of(solid(10, 10, (8, 8, 8, 255)), 40),
        frame_of(solid(10, 10, (7, 7, 7, 255)), 40),
    ];
    let m = FrameModel { frames };
    let g = to_grid(&m, Some(2)).unwrap();
    assert_eq!(g.width, 20);
    assert_eq!(g.height, 20);
    assert_eq!(g.data[(15 * 20 + 15) as usize], (0, 0, 0, 0));
    assert_eq!(g.data[(5 * 20 + 5) as usize], (9, 9, 9, 255));
}

#[test]
fn to_grid_near_square_default() {
    // Ten frames without an override get ceil(sqrt(10)) = 4 columns.
    let frames: Vec<Frame> =
        (0..10).map(|i| frame_of(solid(8, 8, (i as u8, 0, 0, 255)), 30)).collect();
    let m = FrameModel { frames };
    let g = to_grid(&m, None).unwrap();
    assert_eq!(g.width, 32);
    assert_eq!(g.height, 24);
}

#[test]
fn geometry_failure_margin_too_large() {
    // 10x10 image as one row of two columns with margin 10: the tile width
    // computes to zero.
    let img = coordinate_image(10, 10);
    let err = to_frames(&img, 1, 2, 100, 10).unwrap_err();
    assert_eq!(err, GifLabError::Geometry);
}

#[test]
fn geometry_failure_degenerate_width() {
    // A zero-width image forces a zero tile width even on the 1x1 path.
    let img = PixelBuffer { width: 0, height: 10, data: Vec::new() };
    let err = to_frames(&img, 1, 1, 100, 0).unwrap_err();
    assert_eq!(err, GifLabError::Geometry);
}

#[test]
fn margins_shrink_tiles() {
    // 25x20 image, 2x3 grid, margin 6: tiles are (25-12)/3 = 4 wide and
    // (20-6)/2 = 7 tall; the tile in row 0, column 1 starts at x = 10.
    let img = coordinate_image(25, 20);
    let m = to_frames(&img, 2, 3, 10, 6).unwrap();
    assert_eq!(m.frames.len(), 6);
    assert_eq!(m.frames[0].buffer.width, 4);
    assert_eq!(m.frames[0].buffer.height, 7);
    assert_eq!(m.frames[1].buffer.data[0], (10, 0, 10, 255));
    // Row 1 starts at y = 13.
    assert_eq!(m.frames[3].buffer.data[0], (0, 13, 13, 255));
}

#[test]
fn reverse_twice_restores_model() {
    let frames = vec![
        frame_of(solid(4, 4, (1, 2, 3, 255)), 10),
        frame_of(solid(4, 4, (4, 5, 6, 255)), 20),
        frame_of(solid(4, 4, (7, 8, 9, 255)), 30),
    ];
    let m = FrameModel { frames };
    let once = apply(&m, Transform::Reverse).unwrap();
    assert_eq!(once.frames[0].delay_ms, 30);
    assert_eq!(once.frames[0].buffer.data[0], (7, 8, 9, 255));
    let twice = apply(&once, Transform::Reverse).unwrap();
    assert_eq!(twice.frames.len(), m.frames.len());
    for (a, b) in twice.frames.iter().zip(m.frames.iter()) {
        assert_eq!(a.buffer.data, b.buffer.data);
        assert_eq!(a.delay_ms, b.delay_ms);
        assert_eq!((a.left, a.top), (b.left, b.top));
    }
}

#[test]
fn speed_floor_and_exact_division() {
    let frames = vec![
        frame_of(solid(2, 2, (0, 0, 0, 255)), 100),
        frame_of(solid(2, 2, (0, 0, 0, 255)), 15),
        frame_of(solid(2, 2, (0, 0, 0, 255)), 0),
    ];
    let m = FrameModel { frames };
    // Factor 2: 100 -> 50, 15 -> 10 (floor, 7 would be below), 0 -> 10.
    let out = apply(&m, Transform::Speed(2, 1)).unwrap();
    assert_eq!(out.frames[0].delay_ms, 50);
    assert_eq!(out.frames[1].delay_ms, 10);
    assert_eq!(out.frames[2].delay_ms, 10);
    // Factor 1/2 slows down: 100 -> 200.
    let slow = apply(&m, Transform::Speed(1, 2)).unwrap();
    assert_eq!(slow.frames[0].delay_ms, 200);
}

#[test]
fn speed_rejects_zero_factor() {
    let m = FrameModel { frames: vec![frame_of(solid(2, 2, (0, 0, 0, 255)), 100)] };
    assert_eq!(apply(&m, Transform::Speed(0, 1)).unwrap_err(), GifLabError::InvalidArgument);
    assert_eq!(apply(&m, Transform::Speed(3, 0)).unwrap_err(), GifLabError::InvalidArgument);
}

#[test]
fn resize_rejects_zero_dimension() {
    let m = FrameModel { frames: vec![frame_of(solid(2, 2, (0, 0, 0, 255)), 100)] };
    assert_eq!(apply(&m, Transform::Resize(0, 5)).unwrap_err(), GifLabError::InvalidArgument);
    assert_eq!(apply(&m, Transform::Scale(1, 0)).unwrap_err(), GifLabError::InvalidArgument);
}

#[test]
fn transforms_preserve_frame_count() {
    let frames = vec![
        frame_of(coordinate_image(6, 4), 10),
        frame_of(coordinate_image(6, 4), 20),
        frame_of(coordinate_image(6, 4), 30),
    ];
    let m = FrameModel { frames };
    let ops = [
        Transform::Speed(2, 1),
        Transform::Reverse,
        Transform::Resize(3, 2),
        Transform::Scale(1, 2),
        Transform::Rotate(90),
        Transform::Rotate(45),
        Transform::FlipH,
        Transform::FlipV,
    ];
    for op in ops {
        let out = apply(&m, op).unwrap();
        assert_eq!(out.frames.len(), 3);
    }
}

#[test]
fn rotate_quarter_turns_move_pixels() {
    // 2x1 image [A B]: rotated 90 clockwise it becomes a column with A on
    // top; 180 swaps; 270 puts A at the bottom.
    let a = (1u8, 0u8, 0u8, 255u8);
    let b = (0u8, 2u8, 0u8, 255u8);
    let m = FrameModel {
        frames: vec![frame_of(
            PixelBuffer { width: 2, height: 1, data: vec![a, b] },
            10,
        )],
    };
    let r90 = apply(&m, Transform::Rotate(90)).unwrap();
    assert_eq!(r90.frames[0].buffer.width, 1);
    assert_eq!(r90.frames[0].buffer.height, 2);
    assert_eq!(r90.frames[0].buffer.data, vec![a, b]);
    let r180 = apply(&m, Transform::Rotate(180)).unwrap();
    assert_eq!(r180.frames[0].buffer.data, vec![b, a]);
    let r270 = apply(&m, Transform::Rotate(270)).unwrap();
    assert_eq!(r270.frames[0].buffer.data, vec![b, a]);
    assert_eq!(r270.frames[0].buffer.width, 1);
    // Negative angles normalize: -90 is 270.
    let rm90 = apply(&m, Transform::Rotate(-90)).unwrap();
    assert_eq!(rm90.frames[0].buffer.data, vec![b, a]);
    // A non-quarter angle passes the pixels through.
    let r45 = apply(&m, Transform::Rotate(45)).unwrap();
    assert_eq!(r45.frames[0].buffer.data, vec![a, b]);
    assert_eq!(r45.frames[0].buffer.width, 2);
}

#[test]
fn mirror_flips_pixels() {
    let a = (1u8, 0u8, 0u8, 255u8);
    let b = (0u8, 2u8, 0u8, 255u8);
    let c = (0u8, 0u8, 3u8, 255u8);
    let d = (4u8, 4u8, 4u8, 255u8);
    // 2x2 image [A B / C D].
    let m = FrameModel {
        frames: vec![frame_of(
            PixelBuffer { width: 2, height: 2, data: vec![a, b, c, d] },
            10,
        )],
    };
    let h = apply(&m, Transform::FlipH).unwrap();
    assert_eq!(h.frames[0].buffer.data, vec![b, a, d, c]);
    let v = apply(&m, Transform::FlipV).unwrap();
    assert_eq!(v.frames[0].buffer.data, vec![c, d, a, b]);
}

#[test]
fn scale_halves_first_frame_dimensions() {
    let m = FrameModel {
        frames: vec![frame_of(solid(8, 6, (5, 5, 5, 255)), 10), frame_of(solid(8, 6, (6, 6, 6, 255)), 10)],
    };
    let out = apply(&m, Transform::Scale(1, 2)).unwrap();
    for f in &out.frames {
        assert_eq!(f.buffer.width, 4);
        assert_eq!(f.buffer.height, 3);
        assert_eq!(f.buffer.data.len(), 12);
    }
    // A tiny factor still yields at least one pixel each way.
    let tiny = apply(&m, Transform::Scale(1, 1000)).unwrap();
    assert_eq!(tiny.frames[0].buffer.width, 1);
    assert_eq!(tiny.frames[0].buffer.height, 1);
}

#[test]
fn resize_changes_dimensions_and_keeps_delay() {
    let m = FrameModel { frames: vec![frame_of(solid(4, 4, (9, 1, 1, 255)), 70)] };
    let out = apply(&m, Transform::Resize(2, 3)).unwrap();
    assert_eq!(out.frames[0].buffer.width, 2);
    assert_eq!(out.frames[0].buffer.height, 3);
    assert_eq!(out.frames[0].buffer.data.len(), 6);
    assert_eq!(out.frames[0].delay_ms, 70);
}

#[test]
fn gif_round_trip_keeps_count_dimensions_delays() {
    let frames = vec![
        frame_of(solid(20, 10, (255, 0, 0, 255)), 50),
        frame_of(solid(20, 10, (0, 255, 0, 255)), 150),
    ];
    let m = FrameModel { frames };
    let bytes = encode(&m).unwrap();
    assert_eq!(&bytes[0..6], b"GIF89a");
    let back = decode(&bytes).unwrap();
    assert_eq!(back.frames.len(), 2);
    assert_eq!(back.frames[0].buffer.width, 20);
    assert_eq!(back.frames[0].buffer.height, 10);
    assert_eq!(back.frames[0].delay_ms, 50);
    assert_eq!(back.frames[1].delay_ms, 150);
}

#[test]
fn decode_rejects_garbage_and_empty() {
    assert_eq!(decode(&[]).unwrap_err(), GifLabError::Decode);
    assert_eq!(decode(b"not a gif at all").unwrap_err(), GifLabError::Decode);
}

#[test]
fn encode_rejects_empty_model() {
    let m = FrameModel { frames: Vec::new() };
    assert_eq!(encode(&m).unwrap_err(), GifLabError::Encode);
}

#[test]
fn encode_rejects_mismatched_stride() {
    // A frame whose pixel container does not match its canvas size is
    // rejected up front rather than handed to the serializer.
    let m = FrameModel {
        frames: vec![Frame {
            buffer: PixelBuffer { width: 2, height: 2, data: vec![(1, 2, 3, 255); 5] },
            left: 0,
            top: 0,
            delay_ms: 10,
        }],
    };
    assert_eq!(encode(&m).unwrap_err(), GifLabError::Encode);
    let short = FrameModel {
        frames: vec![Frame {
            buffer: PixelBuffer { width: 2, height: 2, data: vec![(1, 2, 3, 255); 3] },
            left: 0,
            top: 0,
            delay_ms: 10,
        }],
    };
    assert_eq!(encode(&short).unwrap_err(), GifLabError::Encode);
}

#[test]
fn info_scenario() {
    // A decoded two-frame animation with delays 50 and 150 reports two
    // frames and 200 ms in total.
    let frames = vec![
        frame_of(solid(20, 10, (1, 2, 3, 255)), 50),
        frame_of(solid(20, 10, (3, 2, 1, 255)), 150),
    ];
    let m = FrameModel { frames };
    let bytes = encode(&m).unwrap();
    let decoded = decode(&bytes).unwrap();
    let s = describe(&decoded, bytes.len());
    assert_eq!(s.frame_count, 2);
    assert_eq!(s.total_duration_ms, 200);
    assert_eq!(s.width, 20);
    assert_eq!(s.height, 10);
    assert_eq!(s.size_text, format_size(bytes.len()));
}

#[test]
fn format_size_exact_values() {
    assert_eq!(format_size(0), "0.00 KB");
    assert_eq!(format_size(512), "0.50 KB");
    assert_eq!(format_size(1024), "1.00 KB");
    assert_eq!(format_size(1536), "1.50 KB");
    // 128 bytes is exactly 0.125 KB: the tie rounds to the even hundredth.
    assert_eq!(format_size(128), "0.12 KB");
    assert_eq!(format_size(1048576), "1.00 MB");
    assert_eq!(format_size(1048576 + 524288), "1.50 MB");
    assert_eq!(format_size(123), "0.12 KB");
}
