use prysm::common::color::Color;
use prysm::processor::frames::color_frame::{ColorFrame, Viewport};
use prysm::processor::nodes::band_detector::{median_brightness, BandDetector};

#[test]
fn detected_viewport_stays_inside_frame() {
    // Dark rows and columns everywhere: the bands may cover the frame, but
    // the viewport never leaves it.
    let detector = BandDetector::new(100, 1, 1, 1);
    let frame = ColorFrame::new(vec![Color::black(); 6 * 4], 6, 4);
    let v = detector.detect_viewport(&frame);
    assert!(v.x + v.width <= 6);
    assert!(v.y + v.height <= 4);
    assert_eq!(v, Viewport { x: 6, y: 4, width: 0, height: 0 });
}

#[test]
fn threshold_never_exceeds_fifty() {
    for p in [0u8, 4, 50, 99, 100, 255] {
        let detector = BandDetector::new(p, 1, 1, 1);
        assert!(detector.calculate_percentile_threshold(&[255, 200, 180, 60, 51]) <= 50);
    }
}

#[test]
fn short_runs_are_no_bands() {
    let detector = BandDetector::new(4, 3, 1, 1);
    assert_eq!(detector.find_band_from_start(&[0, 0, 99], 0), 0);
    assert_eq!(detector.find_band_from_start(&[0, 0, 0, 99], 0), 3);
}

#[test]
fn median_is_one_of_the_samples() {
    let pixels = vec![
        Color::new(9, 9, 9),
        Color::new(250, 250, 250),
        Color::new(30, 30, 30),
        Color::new(31, 31, 31),
        Color::new(7, 7, 7),
    ];
    let m = median_brightness(&pixels);
    assert_eq!(m, 30);
    let below = pixels.iter().filter(|c| c.r < m).count();
    let at_or_below = pixels.iter().filter(|c| c.r <= m).count();
    assert!(below <= pixels.len() / 2 && pixels.len() / 2 < at_or_below);
}
