use monitor::canvas::Canvas;
use monitor::compositor::{compose, LayerFrame};
use monitor::frame::Frame;

fn frame_of(width: u32, height: u32, fill: impl Fn(usize) -> u8) -> Frame {
    let n = (width * height * 4) as usize;
    Frame { data: (0..n).map(fill).collect(), width, height }
}

fn pixel(f: &Frame, x: u32, y: u32) -> [u8; 4] {
    let i = ((y * f.width + x) * 4) as usize;
    [f.data[i], f.data[i + 1], f.data[i + 2], f.data[i + 3]]
}

#[test]
fn new_black_has_four_zero_bytes_per_pixel() {
    let f = Frame::new_black(3, 2);
    assert_eq!(f.width, 3);
    assert_eq!(f.height, 2);
    assert_eq!(f.data.len(), 24);
    assert!(f.data.iter().all(|&b| b == 0));
}

#[test]
fn new_black_of_zero_size_is_empty() {
    assert!(Frame::new_black(0, 5).data.is_empty());
    assert!(Frame::new_black(7, 0).data.is_empty());
}

#[test]
fn stride_is_four_bytes_per_pixel() {
    assert_eq!(Frame::new_black(5, 1).stride(), 20);
    assert_eq!(Frame::new_black(1920, 1).stride(), 7680);
}

#[test]
fn blit_copies_source_inside_bounds() {
    let mut dst = Frame::new_black(4, 4);
    let src = frame_of(2, 2, |k| (k + 1) as u8);
    dst.blit(&src, 1, 1);
    assert_eq!(pixel(&dst, 1, 1), [1, 2, 3, 4]);
    assert_eq!(pixel(&dst, 2, 1), [5, 6, 7, 8]);
    assert_eq!(pixel(&dst, 1, 2), [9, 10, 11, 12]);
    assert_eq!(pixel(&dst, 2, 2), [13, 14, 15, 16]);
    assert_eq!(pixel(&dst, 0, 0), [0, 0, 0, 0]);
    assert_eq!(pixel(&dst, 3, 3), [0, 0, 0, 0]);
    assert_eq!(pixel(&dst, 3, 1), [0, 0, 0, 0]);
    assert_eq!(dst.data.len(), 64);
}

#[test]
fn blit_clips_at_negative_offset() {
    let mut dst = Frame::new_black(3, 3);
    let src = frame_of(2, 2, |k| (k + 1) as u8);
    dst.blit(&src, -1, -1);
    // Only the source's bottom-right pixel lands, at the canvas origin.
    assert_eq!(pixel(&dst, 0, 0), [13, 14, 15, 16]);
    let non_zero = dst.data.iter().filter(|&&b| b != 0).count();
    assert_eq!(non_zero, 4);
}

#[test]
fn blit_clips_at_right_and_bottom_edges() {
    let mut dst = Frame::new_black(3, 3);
    let src = frame_of(2, 2, |_| 9);
    dst.blit(&src, 2, 2);
    assert_eq!(pixel(&dst, 2, 2), [9, 9, 9, 9]);
    let non_zero = dst.data.iter().filter(|&&b| b != 0).count();
    assert_eq!(non_zero, 4);
}

#[test]
fn blit_without_overlap_leaves_destination() {
    let mut dst = frame_of(3, 2, |k| k as u8);
    let before = dst.data.clone();
    let src = frame_of(2, 2, |_| 200);
    dst.blit(&src, 3, 0);
    assert_eq!(dst.data, before);
    dst.blit(&src, -2, 0);
    assert_eq!(dst.data, before);
    dst.blit(&src, 0, 5);
    assert_eq!(dst.data, before);
}

#[test]
fn blit_same_size_at_origin_copies_source() {
    let mut dst = frame_of(3, 2, |_| 1);
    let src = frame_of(3, 2, |k| (k * 3) as u8);
    dst.blit(&src, 0, 0);
    assert_eq!(dst.data, src.data);
}

#[test]
fn blit_larger_source_covers_whole_destination() {
    let mut dst = Frame::new_black(2, 2);
    let src = frame_of(4, 4, |k| k as u8);
    dst.blit(&src, -1, -1);
    // Destination pixel (0,0) is source pixel (1,1).
    assert_eq!(pixel(&dst, 0, 0), [20, 21, 22, 23]);
    assert_eq!(pixel(&dst, 1, 1), [40, 41, 42, 43]);
}

#[test]
fn blit_with_empty_frames_wider_than_i32_range_changes_nothing() {
    let mut dst = frame_of(2, 2, |k| k as u8);
    let before = dst.data.clone();
    let wide = Frame { data: Vec::new(), width: 1 << 31, height: 0 };
    dst.blit(&wide, 5, 0);
    assert_eq!(dst.data, before);
    let mut huge = Frame { data: Vec::new(), width: 1 << 31, height: 0 };
    huge.blit(&frame_of(1, 1, |_| 1), 0, 0);
    assert!(huge.data.is_empty());
}

#[test]
fn canvas_blank_frame_matches_resolution() {
    let c = Canvas::new(4, 3, 30);
    assert_eq!(c.fps, 30);
    let f = c.blank_frame();
    assert_eq!((f.width, f.height, f.data.len()), (4, 3, 48));
    assert!(f.data.iter().all(|&b| b == 0));
}

#[test]
fn compose_paints_visible_layers_bottom_to_top() {
    let canvas = Canvas::new(2, 1, 30);
    let layers = vec![
        LayerFrame { x: 0, y: 0, visible: true, frame: Some(frame_of(2, 1, |_| 1)) },
        LayerFrame { x: 1, y: 0, visible: true, frame: Some(frame_of(1, 1, |_| 2)) },
    ];
    let out = compose(&canvas, &layers);
    assert_eq!(out.data, vec![1, 1, 1, 1, 2, 2, 2, 2]);
}

#[test]
fn compose_skips_hidden_layers_and_layers_without_frames() {
    let canvas = Canvas::new(2, 1, 30);
    let layers = vec![
        LayerFrame { x: 0, y: 0, visible: true, frame: Some(frame_of(2, 1, |_| 1)) },
        LayerFrame { x: 0, y: 0, visible: false, frame: Some(frame_of(2, 1, |_| 7)) },
        LayerFrame { x: 0, y: 0, visible: true, frame: None },
    ];
    let out = compose(&canvas, &layers);
    assert_eq!(out.data, vec![1; 8]);
}

#[test]
fn compose_without_layers_is_black() {
    let canvas = Canvas::new(3, 2, 60);
    let out = compose(&canvas, &Vec::new());
    assert_eq!(out.data, vec![0; 24]);
}

#[test]
fn blit_with_longer_buffers_keeps_trailing_bytes() {
    let mut dst = frame_of(2, 2, |_| 0);
    dst.data.extend_from_slice(&[9, 9, 9, 9]);
    let mut src = frame_of(1, 3, |k| 100 + k as u8);
    src.data.extend_from_slice(&[7, 7]);
    dst.blit(&src, 1, 0);
    assert_eq!(dst.data.len(), 20);
    assert_eq!(pixel(&dst, 1, 0), [100, 101, 102, 103]);
    assert_eq!(pixel(&dst, 1, 1), [104, 105, 106, 107]);
    assert_eq!(pixel(&dst, 0, 0), [0, 0, 0, 0]);
    assert_eq!(&dst.data[16..], &[9, 9, 9, 9]);
}
