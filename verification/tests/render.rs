use prysm::common::color::Color as CoreColor;
use prysm::common::config::SampleDensity;
use prysm::common::frame::Frame as BorrowedFrame;
use prysm::common::Edge as CoreEdge;
use prysm::render::{Color, ColorSpectrum, Edge, EdgeSpectrums};

#[test]
fn render_color_constructors() {
    assert_eq!(Color::new(1, 2, 3), Color { r: 1, g: 2, b: 3 });
    assert_eq!(Color::black(), Color { r: 0, g: 0, b: 0 });
}

#[test]
fn spectrum_keeps_samples() {
    let s = ColorSpectrum::new(vec![Color::new(1, 1, 1), Color::new(2, 2, 2)]);
    assert_eq!(s.len(), 2);
    assert!(!s.is_empty());
    assert_eq!(s.samples(), &[Color::new(1, 1, 1), Color::new(2, 2, 2)]);
    let t = s.clone();
    assert_eq!(t, s);
}

#[test]
fn black_spectrum() {
    let s = ColorSpectrum::black(5);
    assert_eq!(s.len(), 5);
    assert!(s.samples().iter().all(|c| *c == Color::black()));
}

#[test]
fn edge_spectrums_hold_their_edges() {
    let top = ColorSpectrum::black(3);
    let right = ColorSpectrum::new(vec![Color::new(9, 9, 9)]);
    let bottom = ColorSpectrum::black(4);
    let left = ColorSpectrum::black(1);
    let e = EdgeSpectrums::new(top.clone(), right.clone(), bottom.clone(), left.clone());
    assert_eq!(e.top, top);
    assert_eq!(e.right, right);
    assert_eq!(e.bottom, bottom);
    assert_eq!(e.left, left);
}

#[test]
fn edges_are_distinct() {
    assert_ne!(Edge::Top, Edge::Bottom);
    assert_ne!(CoreEdge::Left, CoreEdge::Right);
}

#[test]
fn core_color_saturates() {
    let a = CoreColor::new(200, 10, 128);
    let b = CoreColor::new(100, 20, 128);
    assert_eq!(a + b, CoreColor::new(255, 30, 255));
    assert_eq!(a - b, CoreColor::new(100, 0, 0));
    let mut c = a;
    c += b;
    assert_eq!(c, CoreColor::new(255, 30, 255));
    c -= CoreColor::new(255, 255, 0);
    assert_eq!(c, CoreColor::new(0, 0, 255));
    assert_eq!(CoreColor::default(), CoreColor::black());
}

#[test]
fn color_laws_on_values() {
    let a = CoreColor::new(12, 250, 77);
    let b = CoreColor::new(250, 12, 200);
    assert_eq!(a + CoreColor::black(), a);
    assert_eq!(a - CoreColor::black(), a);
    assert_eq!(a + b, b + a);
    assert_eq!(a - a, CoreColor::black());
}

#[test]
fn sample_density_value() {
    assert_eq!(SampleDensity(30).get(), 30);
}

#[test]
fn borrowed_frame_fields() {
    let bytes = [1u8, 2, 3];
    let f = BorrowedFrame { buffer: &bytes, width: 1, height: 1 };
    assert_eq!(f.buffer.len(), 3);
}

#[test]
fn core_color_text() {
    assert_eq!(CoreColor::new(255, 0, 7).to_string(), "rgb(255, 0, 7)");
    assert_eq!(CoreColor::new(10, 99, 100).to_string(), "rgb(10, 99, 100)");
}
