use prysm::processor::gate::{decide_frame, FrameDecision};
use prysm::capture::{Frame, PixelFormat};
use prysm::common::color::Color;
use prysm::processor::frames::color_frame::{ColorFrame, Viewport};
use prysm::processor::nodes::band_detector::{median_brightness, BandDetector};
use prysm::processor::nodes::change_detector::ChangeDetector;
use prysm::processor::nodes::pixel_decoder::PixelDecoder;
use prysm::processor::nodes::rank::select_rank;
use prysm::processor::pipeline::node::Node;

/// A detector with the defaults: 4th percentile, 50-pixel minimum band,
/// detection every 4 frames, every 8th pixel sampled.
fn default_band_detector() -> BandDetector {
    BandDetector::new(4, 50, 4, 8)
}

fn create_letterboxed_frame(width: u32, height: u32, top_band: u32, bottom_band: u32) -> ColorFrame {
    let mut pixels = vec![Color::black(); (width * height) as usize];
    for y in top_band..(height - bottom_band) {
        for x in 0..width {
            let idx = (y * width + x) as usize;
            pixels[idx] = Color::new(128, 128, 128);
        }
    }
    ColorFrame::new(pixels, width, height)
}

fn create_pillarboxed_frame(width: u32, height: u32, left_band: u32, right_band: u32) -> ColorFrame {
    let mut pixels = vec![Color::black(); (width * height) as usize];
    for y in 0..height {
        for x in left_band..(width - right_band) {
            let idx = (y * width + x) as usize;
            pixels[idx] = Color::new(128, 128, 128);
        }
    }
    ColorFrame::new(pixels, width, height)
}

fn create_frame_with_subtitles(width: u32, height: u32, subtitle_row: u32) -> ColorFrame {
    let mut pixels = vec![Color::black(); (width * height) as usize];
    for y in 100..(height - 100) {
        for x in 0..width {
            let idx = (y * width + x) as usize;
            pixels[idx] = Color::new(128, 128, 128);
        }
    }
    for x in (width / 4)..(3 * width / 4) {
        let idx = (subtitle_row * width + x) as usize;
        pixels[idx] = Color::new(255, 255, 255);
    }
    ColorFrame::new(pixels, width, height)
}

#[test]
fn test_median_brightness() {
    let pixels = vec![
        Color::new(0, 0, 0),
        Color::new(100, 100, 100),
        Color::new(200, 200, 200),
    ];
    assert_eq!(median_brightness(&pixels), 100);

    let pixels = vec![
        Color::new(0, 0, 0),
        Color::new(100, 100, 100),
        Color::new(200, 200, 200),
        Color::new(255, 255, 255),
    ];
    let median = median_brightness(&pixels);
    assert!(median == 100 || median == 200);

    assert_eq!(median_brightness(&[]), 0);

    let pixels = vec![Color::new(128, 128, 128)];
    assert_eq!(median_brightness(&pixels), 128);
}

#[test]
fn median_takes_upper_middle_and_channel_mean() {
    // Brightness is the integer mean of the channels: (10 + 20 + 31) / 3 = 20.
    let pixels = vec![Color::new(10, 20, 31)];
    assert_eq!(median_brightness(&pixels), 20);
    // For an even count the element at index len / 2 of the sorted values.
    let pixels = vec![
        Color::new(200, 200, 200),
        Color::new(0, 0, 0),
        Color::new(255, 255, 255),
        Color::new(100, 100, 100),
    ];
    assert_eq!(median_brightness(&pixels), 200);
}

#[test]
fn select_rank_orders_values() {
    let values = [5u8, 1, 4, 1, 3];
    assert_eq!(select_rank(&values, 0), 1);
    assert_eq!(select_rank(&values, 1), 1);
    assert_eq!(select_rank(&values, 2), 3);
    assert_eq!(select_rank(&values, 4), 5);
}

#[test]
fn test_percentile_threshold() {
    let detector = BandDetector::new(15, 50, 4, 8);

    let brightness = vec![0, 10, 20, 30, 40, 50, 60, 70, 80, 90, 100];
    let threshold = detector.calculate_percentile_threshold(&brightness);
    assert!(threshold <= 20);

    let brightness = vec![0; 100];
    assert_eq!(detector.calculate_percentile_threshold(&brightness), 0);

    let brightness = vec![255; 100];
    assert_eq!(detector.calculate_percentile_threshold(&brightness), 50);
}

#[test]
fn percentile_threshold_exact_values() {
    let detector = BandDetector::new(15, 50, 4, 8);
    // 11 * 15 / 100 = 1: the second smallest value.
    assert_eq!(detector.calculate_percentile_threshold(&[100, 0, 20, 10, 30, 40, 50, 60, 70, 80, 90]), 10);
    assert_eq!(detector.calculate_percentile_threshold(&[]), 0);
    // A percentile past 100 takes the largest value.
    let detector = BandDetector::new(200, 50, 4, 8);
    assert_eq!(detector.calculate_percentile_threshold(&[3, 9, 7]), 9);
}

#[test]
fn test_band_boundary_detection() {
    let detector = default_band_detector();

    let mut brightness = vec![0u8; 50];
    brightness.extend_from_slice(&[100, 100, 100]);
    assert_eq!(detector.find_band_from_start(&brightness, 10), 50);

    let brightness = vec![0, 0, 0, 0, 0, 100, 100, 100];
    assert_eq!(detector.find_band_from_start(&brightness, 10), 0);

    let brightness = vec![0, 0, 0, 0, 200, 0, 0, 0];
    assert_eq!(detector.find_band_from_start(&brightness, 10), 0);

    let mut brightness = vec![100u8, 100, 100];
    brightness.extend_from_slice(&[0u8; 50]);
    assert_eq!(detector.find_band_from_end(&brightness, 10), 50);
}

#[test]
fn band_runs_stop_at_threshold() {
    let detector = BandDetector::new(4, 2, 4, 8);
    // Values equal to the threshold still count as dark.
    assert_eq!(detector.find_band_from_start(&[10, 10, 11], 10), 2);
    assert_eq!(detector.find_band_from_end(&[11, 10, 9], 10), 2);
    assert_eq!(detector.find_band_from_end(&[10, 12], 10), 0);
    assert_eq!(detector.find_band_from_start(&[], 10), 0);
}

#[test]
fn test_letterbox_detection() {
    let detector = default_band_detector();
    let frame = create_letterboxed_frame(1920, 1080, 240, 240);
    let viewport = detector.detect_viewport(&frame);
    assert!(viewport.y >= 230 && viewport.y <= 250, "Top band: {}", viewport.y);
    assert!(viewport.height >= 580 && viewport.height <= 620, "Height: {}", viewport.height);
    assert_eq!(viewport.x, 0);
    assert_eq!(viewport.width, 1920);
}

#[test]
fn test_pillarbox_detection() {
    let detector = default_band_detector();
    let frame = create_pillarboxed_frame(1920, 1080, 240, 240);
    let viewport = detector.detect_viewport(&frame);
    assert!(viewport.x >= 230 && viewport.x <= 250, "Left band: {}", viewport.x);
    assert!(viewport.width >= 1420 && viewport.width <= 1460, "Width: {}", viewport.width);
    assert_eq!(viewport.y, 0);
    assert_eq!(viewport.height, 1080);
}

#[test]
fn test_subtitle_handling() {
    let detector = default_band_detector();
    let frame = create_frame_with_subtitles(1920, 1080, 1000);
    let viewport = detector.detect_viewport(&frame);
    assert!(viewport.y >= 90 && viewport.y <= 110, "Top band: {}", viewport.y);
    assert!(viewport.height > 0 && viewport.height <= 980);
}

#[test]
fn test_no_letterbox() {
    let detector = default_band_detector();
    let pixels = vec![Color::new(128, 128, 128); (1920 * 1080) as usize];
    let frame = ColorFrame::new(pixels, 1920, 1080);
    let viewport = detector.detect_viewport(&frame);
    assert_eq!(viewport.x, 0);
    assert_eq!(viewport.y, 0);
    assert_eq!(viewport.width, 1920);
    assert_eq!(viewport.height, 1080);
}

#[test]
fn test_projection_building() {
    let detector = default_band_detector();
    let frame = create_letterboxed_frame(1920, 1080, 100, 100);
    let row_projection = detector.build_row_projection(&frame);
    assert_eq!(row_projection.len(), 1080);
    for i in 0..100 {
        assert!(row_projection[i] < 20, "Row {} brightness: {}", i, row_projection[i]);
    }
    for i in 100..980 {
        assert!(row_projection[i] > 100, "Row {} brightness: {}", i, row_projection[i]);
    }
    for i in 980..1080 {
        assert!(row_projection[i] < 20, "Row {} brightness: {}", i, row_projection[i]);
    }
}

#[test]
fn column_projection_samples_strided_rows() {
    // 2 x 3 frame, stride 2: column 0 samples rows 0 and 2.
    let pixels = vec![
        Color::new(30, 30, 30),
        Color::new(0, 0, 0),
        Color::new(255, 255, 255),
        Color::new(0, 0, 0),
        Color::new(60, 60, 60),
        Color::new(90, 90, 90),
    ];
    let frame = ColorFrame::new(pixels, 2, 3);
    let detector = BandDetector::new(4, 1, 1, 2);
    assert_eq!(detector.build_col_projection(&frame), vec![60, 90]);
    assert_eq!(detector.build_row_projection(&frame), vec![30, 255, 60]);
}

#[test]
fn bright_frame_keeps_full_viewport() {
    let detector = BandDetector::new(4, 1, 1, 1);
    let frame = ColorFrame::new(vec![Color::new(51, 51, 51); 12], 4, 3);
    let viewport = detector.detect_viewport(&frame);
    assert_eq!(viewport, Viewport::full_frame(4, 3));
}

#[test]
fn band_detector_runs_every_interval() {
    let mut detector = BandDetector::new(4, 1, 2, 1);
    let frame = create_letterboxed_frame(4, 8, 2, 2);
    // First frame: not a detection frame, no previous viewport: unchanged.
    let out = detector.process(frame.clone(), |_prev, detected| detected);
    assert_eq!(out.viewport, Viewport::full_frame(4, 8));
    // Second frame: detection runs.
    let out = detector.process(frame.clone(), |_prev, detected| detected);
    assert_eq!(out.viewport, Viewport { x: 0, y: 2, width: 4, height: 4 });
    // Third frame: the last viewport is reused, even for other content.
    let bright = ColorFrame::new(vec![Color::new(200, 200, 200); 32], 4, 8);
    let out = detector.process(bright.clone(), |_prev, detected| detected);
    assert_eq!(out.viewport, Viewport { x: 0, y: 2, width: 4, height: 4 });
    // Fourth frame: detection again, smoothed against the previous one.
    let out = detector.process(bright, |prev, detected| Viewport {
        x: (prev.x + detected.x) / 2,
        y: (prev.y + detected.y) / 2,
        width: (prev.width + detected.width) / 2,
        height: (prev.height + detected.height) / 2,
    });
    assert_eq!(out.viewport, Viewport { x: 0, y: 1, width: 4, height: 6 });
}

/// Build a YUYV frame with neutral chroma from a per-pixel luma function.
fn yuyv_frame_from_luma(width: u32, height: u32, luma: impl Fn(u32, u32) -> u8) -> Frame {
    let mut data = Vec::with_capacity((width * height * 2) as usize);
    for y in 0..height {
        for pair_x in (0..width).step_by(2) {
            data.push(luma(pair_x, y));
            data.push(128);
            data.push(luma((pair_x + 1).min(width - 1), y));
            data.push(128);
        }
    }
    Frame::new(data, width, height, PixelFormat::YUYV)
}

/// A mean luma threshold on the 0-255 scale as the detector's grid-sum
/// threshold.
fn detector(threshold: f32, max_skips: u32) -> ChangeDetector {
    ChangeDetector::new((threshold * 256.0).floor() as i64, max_skips)
}

#[test]
fn static_frames_skip_after_first() {
    let mut cd = detector(1.0, 100);
    let frame = yuyv_frame_from_luma(64, 64, |_, _| 128);
    assert!(cd.has_changed(&frame), "first frame always processes");
    assert!(!cd.has_changed(&frame.clone()));
    assert!(!cd.has_changed(&frame.clone()));
}

#[test]
fn content_change_triggers_processing() {
    let mut cd = detector(1.0, 100);
    let gray = yuyv_frame_from_luma(64, 64, |_, _| 128);
    let white = yuyv_frame_from_luma(64, 64, |_, _| 255);
    assert!(cd.has_changed(&gray));
    assert!(!cd.has_changed(&gray.clone()));
    assert!(cd.has_changed(&white));
}

#[test]
fn slow_fade_accumulates_against_processed_frame() {
    let mut cd = detector(2.0, 1000);
    assert!(cd.has_changed(&yuyv_frame_from_luma(64, 64, |_, _| 100)));
    assert!(!cd.has_changed(&yuyv_frame_from_luma(64, 64, |_, _| 101)));
    assert!(!cd.has_changed(&yuyv_frame_from_luma(64, 64, |_, _| 102)));
    assert!(cd.has_changed(&yuyv_frame_from_luma(64, 64, |_, _| 103)));
}

#[test]
fn skip_cap_forces_refresh() {
    let mut cd = detector(1.0, 3);
    let frame = yuyv_frame_from_luma(64, 64, |_, _| 128);
    assert!(cd.has_changed(&frame));
    assert!(!cd.has_changed(&frame.clone()));
    assert!(!cd.has_changed(&frame.clone()));
    assert!(!cd.has_changed(&frame.clone()));
    assert!(cd.has_changed(&frame.clone()), "cap reached, must process");
}

#[test]
fn resolution_change_triggers_processing() {
    let mut cd = detector(1.0, 100);
    assert!(cd.has_changed(&yuyv_frame_from_luma(64, 64, |_, _| 128)));
    assert!(!cd.has_changed(&yuyv_frame_from_luma(32, 32, |_, _| 128)));
    assert!(cd.has_changed(&yuyv_frame_from_luma(32, 32, |_, _| 200)));
}

#[test]
fn change_threshold_is_strict() {
    // A grid-sum delta equal to the threshold does not count as a change.
    let mut cd = ChangeDetector::new(256, 100);
    assert!(cd.has_changed(&yuyv_frame_from_luma(16, 16, |_, _| 50)));
    assert!(!cd.has_changed(&yuyv_frame_from_luma(16, 16, |_, _| 51)));
    assert!(cd.has_changed(&yuyv_frame_from_luma(16, 16, |_, _| 52)));
}

#[test]
fn zero_skip_cap_processes_every_frame() {
    let mut cd = ChangeDetector::new(1000, 0);
    let frame = yuyv_frame_from_luma(16, 16, |_, _| 50);
    assert!(cd.has_changed(&frame));
    assert!(cd.has_changed(&frame));
}

#[test]
fn decoder_rgb24_and_fallbacks() {
    let mut decoder = PixelDecoder::new();
    let frame = Frame::new(vec![1, 2, 3, 4, 5, 6], 2, 1, PixelFormat::RGB24);
    let out = decoder.process(frame);
    assert_eq!(out.pixels.as_slice(), &[Color::new(1, 2, 3), Color::new(4, 5, 6)]);
    assert_eq!(out.viewport, Viewport::full_frame(2, 1));

    let frame = Frame::new(vec![9; 6], 2, 1, PixelFormat::BGR24);
    let out = decoder.process(frame);
    assert_eq!(out.pixels.as_slice(), &[Color::black(), Color::black()]);
}

#[test]
fn decoder_yuyv_converts_whole_frame() {
    let mut decoder = PixelDecoder::new();
    let frame = Frame::new(vec![255, 128, 0, 128], 2, 1, PixelFormat::YUYV);
    let out = decoder.process(frame);
    assert_eq!(out.pixels.as_slice(), &[Color::new(255, 255, 255), Color::new(0, 0, 0)]);
    assert_eq!(decoder.decode_rgb24(&[7, 8, 9], 2, 1), vec![Color::new(7, 8, 9), Color::black()]);
}

#[test]
fn median_does_not_depend_on_order() {
    let a = vec![
        Color::new(10, 10, 10),
        Color::new(200, 200, 200),
        Color::new(90, 90, 90),
        Color::new(40, 40, 40),
    ];
    let mut b = a.clone();
    b.reverse();
    let mut c = a.clone();
    c.swap(0, 2);
    assert_eq!(median_brightness(&a), median_brightness(&b));
    assert_eq!(median_brightness(&a), median_brightness(&c));
    assert_eq!(median_brightness(&a), 90);
}

#[test]
fn skips_never_exceed_the_cap_over_a_run() {
    let mut cd = ChangeDetector::new(1000, 2);
    let frame = yuyv_frame_from_luma(16, 16, |_, _| 80);
    let results: Vec<bool> = (0..9).map(|_| cd.has_changed(&frame)).collect();
    assert_eq!(results, vec![true, false, false, true, false, false, true, false, false]);
}

#[test]
fn neutral_yuyv_decodes_to_its_luma() {
    let mut decoder = PixelDecoder::new();
    let frame = yuyv_frame_from_luma(4, 2, |x, y| (x * 30 + y * 7) as u8);
    let out = decoder.process(frame);
    for y in 0..2u32 {
        for x in 0..4u32 {
            let l = (x * 30 + y * 7) as u8;
            assert_eq!(out.get_pixel(x, y), Some(Color::new(l, l, l)));
        }
    }
}

#[test]
fn frame_decisions() {
    let frame = yuyv_frame_from_luma(16, 16, |_, _| 60);
    let jpeg = Frame::new(vec![1, 2, 3], 16, 16, PixelFormat::MJPEG);
    let mut detector = Some(ChangeDetector::new(256, 30));
    assert_eq!(decide_frame(&mut detector, true, &jpeg), FrameDecision::Unsupported);
    // No previous output: processed, and the detector is not consulted.
    assert_eq!(decide_frame(&mut detector, false, &frame), FrameDecision::Process);
    // First consultation processes; the same content is then reused.
    assert_eq!(decide_frame(&mut detector, true, &frame), FrameDecision::Process);
    assert_eq!(decide_frame(&mut detector, true, &frame), FrameDecision::Reuse);
    let mut none: Option<ChangeDetector> = None;
    assert_eq!(decide_frame(&mut none, true, &frame), FrameDecision::Process);
}
