use prysm::processor::nodes::edge_sampler::{clamp_depth, edge_region};
use prysm::common::Edge;
use prysm::capture::{Frame, PixelFormat};
use prysm::processor::nodes::pixel_decoder::PixelDecoder;
use prysm::processor::pipeline::node::Node;
use prysm::common::color::Color;
use prysm::processor::algorithms::edge_sampling::EdgeSamplingAlgorithm;
use prysm::processor::color::{average_color_in_region_rgb, average_color_in_region_yuyv};
use prysm::processor::pixel_reader::PixelReader;
use prysm::processor::pixel_readers::rgb24::{read_rgb24, Rgb24Reader};
use prysm::processor::pixel_readers::yuyv::{colors_from_region_rgb, extract_yuyv_region, YuyvReader};

fn uniform_rgb(width: u32, height: u32, c: Color) -> Vec<u8> {
    let mut data = Vec::new();
    for _ in 0..(width * height) {
        data.push(c.r);
        data.push(c.g);
        data.push(c.b);
    }
    data
}

#[test]
fn rgb24_reader_reads_and_blacks_out() {
    let data = vec![1, 2, 3, 4, 5, 6];
    assert_eq!(Rgb24Reader.read_pixel(&data, 1, 0, 2), Color::new(4, 5, 6));
    assert_eq!(Rgb24Reader.read_pixel(&data, 0, 1, 2), Color::black());
    assert_eq!(read_rgb24(&data, 0, 0, 2), Some(Color::new(1, 2, 3)));
    assert_eq!(read_rgb24(&data[..5], 1, 0, 2), None);
}

#[test]
fn yuyv_reader_reads_pixel() {
    let data = vec![40, 128, 80, 128];
    assert_eq!(YuyvReader.read_pixel(&data, 0, 0, 2), Color::new(40, 40, 40));
    assert_eq!(YuyvReader.read_pixel(&data, 1, 0, 2), Color::new(80, 80, 80));
    assert_eq!(YuyvReader.read_pixel(&data, 0, 1, 2), Color::black());
}

#[test]
fn uniform_region_averages_to_its_colour() {
    let c = Color::new(17, 200, 99);
    let data = uniform_rgb(16, 16, c);
    assert_eq!(EdgeSamplingAlgorithm::average_color_in_region(&data, 16, 0, 0, 16, 16, &Rgb24Reader), c);
    assert_eq!(average_color_in_region_rgb(&data, 16, 3, 5, 11, 9), c);
}

#[test]
fn region_average_samples_every_fourth_pixel() {
    // 8 x 1 row: samples at x = 0 and x = 4 only.
    let mut data = uniform_rgb(8, 1, Color::new(0, 0, 0));
    data[0] = 100; // red of pixel 0
    data[12] = 51; // red of pixel 4
    data[3] = 255; // red of pixel 1, never sampled
    let avg = EdgeSamplingAlgorithm::average_color_in_region(&data, 8, 0, 0, 8, 1, &Rgb24Reader);
    assert_eq!(avg, Color::new(75, 0, 0));
}

#[test]
fn empty_region_is_black() {
    let data = uniform_rgb(4, 4, Color::new(9, 9, 9));
    assert_eq!(EdgeSamplingAlgorithm::average_color_in_region(&data, 4, 2, 0, 2, 4, &Rgb24Reader), Color::black());
    assert_eq!(average_color_in_region_rgb(&data, 4, 3, 3, 1, 1), Color::black());
}

#[test]
fn reader_average_counts_missing_pixels_as_black() {
    // Only pixel (0, 0) exists; (4, 0) reads as black through a reader but is
    // skipped by the direct RGB24 average.
    let data = vec![200, 100, 50];
    let through_reader = EdgeSamplingAlgorithm::average_color_in_region(&data, 8, 0, 0, 8, 1, &Rgb24Reader);
    assert_eq!(through_reader, Color::new(100, 50, 25));
    assert_eq!(average_color_in_region_rgb(&data, 8, 0, 0, 8, 1), Color::new(200, 100, 50));
}

#[test]
fn yuyv_region_average() {
    // 8 x 1 YUYV row, luma 60 everywhere, neutral chroma.
    let data: Vec<u8> = [60u8, 128].iter().cycle().take(16).copied().collect();
    assert_eq!(average_color_in_region_yuyv(&data, 8, 0, 0, 8, 1), Color::new(60, 60, 60));
    // Pairs past the end are skipped.
    assert_eq!(average_color_in_region_yuyv(&data[..4], 8, 0, 0, 8, 1), Color::new(60, 60, 60));
    assert_eq!(average_color_in_region_yuyv(&[], 8, 0, 0, 8, 1), Color::black());
}

#[test]
fn extract_region_rows() {
    // 4 x 2 YUYV frame, bytes numbered.
    let data: Vec<u8> = (0..16).collect();
    assert_eq!(extract_yuyv_region(&data, 4, 2, 2, 0, 2), Some(vec![4, 5, 6, 7, 12, 13, 14, 15]));
    assert_eq!(extract_yuyv_region(&data, 4, 2, 2, 1, 3), None);
}

#[test]
fn colors_from_region_picks_columns() {
    let rgb: Vec<u8> = (0..12).collect();
    // 2-pixel-wide aligned region, 1 row; the region is its second pixel.
    assert_eq!(colors_from_region_rgb(&rgb[..6], 1, 1, 2, 1), vec![Color::new(3, 4, 5)]);
    // Past the end of the RGB data reads black.
    assert_eq!(colors_from_region_rgb(&rgb[..3], 1, 1, 2, 1), vec![Color::black()]);
}

#[test]
fn yuyv_read_region_shapes() {
    let frame: Vec<u8> = [90u8, 128].iter().cycle().take(32).copied().collect(); // 8 x 2
    let colors = YuyvReader.read_region(&frame, 8, 2, 1..6, 0..2);
    assert_eq!(colors.len(), 10);
    assert!(colors.iter().all(|c| *c == Color::new(90, 90, 90)));
    assert!(YuyvReader.read_region(&frame, 8, 2, 3..3, 0..2).is_empty());
    assert!(YuyvReader.read_region(&frame, 8, 2, 0..2, 1..3).is_empty());
}

#[test]
fn edge_depth_is_clamped() {
    assert_eq!(clamp_depth(32, 640, 360), 32);
    assert_eq!(clamp_depth(0, 640, 360), 1);
    assert_eq!(clamp_depth(1000, 640, 360), 180);
    assert_eq!(clamp_depth(50, 10, 360), 5);
    // Tiny viewports still get one pixel.
    assert_eq!(clamp_depth(1, 1, 1), 1);
    assert_eq!(clamp_depth(9, 8, 8), 4);
}

#[test]
fn edge_regions_per_edge() {
    assert_eq!(edge_region(Edge::Top, 10, 20, 5, 640, 360), (10, 0, 20, 5));
    assert_eq!(edge_region(Edge::Bottom, 10, 20, 5, 640, 360), (10, 355, 20, 360));
    assert_eq!(edge_region(Edge::Left, 10, 20, 5, 640, 360), (0, 10, 5, 20));
    assert_eq!(edge_region(Edge::Right, 10, 20, 5, 640, 360), (635, 10, 640, 20));
}

#[test]
fn decoded_rgb24_agrees_with_reader() {
    let data: Vec<u8> = (0..18).collect();
    let decoded = PixelDecoder::new().process(Frame::new(data.clone(), 3, 2, PixelFormat::RGB24));
    for y in 0..2 {
        for x in 0..3 {
            assert_eq!(decoded.get_pixel(x, y), Some(Rgb24Reader.read_pixel(&data, x, y, 3)));
        }
    }
}
