use prysm::capture::{Frame, PixelFormat};
use prysm::common::color::Color;
use prysm::processor::frames::color_frame::{ColorFrame, Viewport as ColorViewport};
use prysm::processor::frames::raw_frame::RawFrame;
use prysm::processor::frames::{luma_at, ViewFrame, Viewport};

/// Build a YUYV frame with neutral chroma from a per-pixel luma function.
fn yuyv_frame_from_luma(width: u32, height: u32, luma: impl Fn(u32, u32) -> u8) -> Frame {
    let mut data = Vec::with_capacity((width * height * 2) as usize);
    for y in 0..height {
        for pair_x in (0..width).step_by(2) {
            data.push(luma(pair_x, y));
            data.push(128);
            data.push(luma((pair_x + 1).min(width - 1), y));
            data.push(128);
        }
    }
    Frame::new(data, width, height, PixelFormat::YUYV)
}

#[test]
fn luma_reads_yuyv_directly() {
    let frame = yuyv_frame_from_luma(4, 2, |x, y| (x + y * 10) as u8 * 10);
    assert_eq!(luma_at(&frame, 0, 0), 0);
    assert_eq!(luma_at(&frame, 1, 0), 10);
    assert_eq!(luma_at(&frame, 3, 1), 130);
    // Out of bounds reads as black
    assert_eq!(luma_at(&frame, 4, 0), 0);
    assert_eq!(luma_at(&frame, 0, 2), 0);
}

#[test]
fn luma_of_rgb_is_channel_mean() {
    let frame = Frame::new(vec![30, 60, 91, 255, 255, 255], 2, 1, PixelFormat::RGB24);
    assert_eq!(luma_at(&frame, 0, 0), 60);
    assert_eq!(luma_at(&frame, 1, 0), 255);
    let frame = Frame::new(vec![3, 0, 0], 1, 1, PixelFormat::BGR24);
    assert_eq!(luma_at(&frame, 0, 0), 1);
}

#[test]
fn luma_of_mjpeg_is_black() {
    let frame = Frame::new(vec![255; 16], 2, 2, PixelFormat::MJPEG);
    assert_eq!(luma_at(&frame, 0, 0), 0);
}

#[test]
fn view_frame_starts_full_frame() {
    let view = ViewFrame::new(yuyv_frame_from_luma(8, 4, |_, _| 50));
    assert_eq!(view.viewport, Viewport::full_frame(8, 4));
    assert_eq!(view.viewport_width(), 8);
    assert_eq!(view.viewport_height(), 4);
    assert_eq!(view.viewport.x, 0);
    assert_eq!(view.viewport.y, 0);
}

#[test]
fn pixel_srgb_per_format() {
    let view = ViewFrame::new(Frame::new(vec![1, 2, 3, 4, 5, 6], 2, 1, PixelFormat::RGB24));
    assert_eq!(view.pixel_srgb(1, 0), Some(Color::new(4, 5, 6)));
    assert_eq!(view.pixel_srgb(2, 0), None);

    let view = ViewFrame::new(yuyv_frame_from_luma(2, 1, |_, _| 90));
    assert_eq!(view.pixel_srgb(0, 0), Some(Color::new(90, 90, 90)));

    let view = ViewFrame::new(Frame::new(vec![1, 2, 3], 1, 1, PixelFormat::BGR24));
    assert_eq!(view.pixel_srgb(0, 0), None);
}

#[test]
fn color_frame_pixels_and_viewport() {
    let pixels = vec![
        Color::new(1, 1, 1),
        Color::new(2, 2, 2),
        Color::new(3, 3, 3),
        Color::new(4, 4, 4),
    ];
    let mut frame = ColorFrame::new(pixels, 2, 2);
    assert!(frame.viewport.is_full_frame(2, 2));
    assert_eq!(frame.viewport_width(), 2);
    assert_eq!(frame.viewport_height(), 2);
    assert_eq!(frame.get_pixel(1, 1), Some(Color::new(4, 4, 4)));
    assert_eq!(frame.get_pixel(2, 0), None);

    frame.viewport = ColorViewport { x: 1, y: 0, width: 1, height: 2 };
    assert!(!frame.viewport.is_full_frame(2, 2));
    assert_eq!(frame.get_pixel(0, 1), Some(Color::new(4, 4, 4)));
    assert_eq!(frame.get_pixel(1, 0), None);
}

#[test]
fn color_frame_short_pixel_data_reads_none() {
    let frame = ColorFrame::new(vec![Color::new(9, 9, 9)], 2, 2);
    assert_eq!(frame.get_pixel(0, 0), Some(Color::new(9, 9, 9)));
    assert_eq!(frame.get_pixel(1, 1), None);
}

#[test]
fn full_frame_viewport_law_on_values() {
    let v = ColorViewport::full_frame(1920, 1080);
    assert!(v.is_full_frame(1920, 1080));
    assert!(!v.is_full_frame(1920, 1079));
}

#[test]
fn raw_frame_from_frame_keeps_everything() {
    let frame = Frame::new(vec![9; 8], 2, 2, PixelFormat::YUYV);
    let raw = RawFrame::from(frame.clone());
    assert_eq!(raw.width, 2);
    assert_eq!(raw.height, 2);
    assert_eq!(raw.format, PixelFormat::YUYV);
    assert_eq!(raw.data.as_slice(), frame.as_slice());
}
