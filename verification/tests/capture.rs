use prysm::capture::layout::{format_from_fourcc, strip_row_padding};
use prysm::capture::yuyv::{yuyv_pixel_to_rgb, yuyv_to_rgb};
use prysm::capture::{vec_filled, Frame, PixelFormat};

#[test]
fn test_black_pixels() {
    // Black: Y=0, U=128, V=128 (neutral chroma)
    let yuyv = vec![0, 128, 0, 128];
    let rgb = yuyv_to_rgb(&yuyv, 2, 1);
    assert_eq!(rgb, vec![0, 0, 0, 0, 0, 0]);
}

#[test]
fn test_white_pixels() {
    // White: Y=255, U=128, V=128 (neutral chroma)
    let yuyv = vec![255, 128, 255, 128];
    let rgb = yuyv_to_rgb(&yuyv, 2, 1);
    assert_eq!(rgb, vec![255, 255, 255, 255, 255, 255]);
}

#[test]
fn test_gray_pixels() {
    let yuyv = vec![128, 128, 128, 128];
    let rgb = yuyv_to_rgb(&yuyv, 2, 1);
    assert_eq!(rgb, vec![128, 128, 128, 128, 128, 128]);
}

#[test]
fn test_output_dimensions() {
    let yuyv = vec![128, 128, 128, 128, 128, 128, 128, 128];
    let rgb = yuyv_to_rgb(&yuyv, 4, 1);
    assert_eq!(rgb.len(), 12);
}

#[test]
fn test_red_tinted_pixels() {
    let yuyv = vec![128, 128, 128, 200];
    let rgb = yuyv_to_rgb(&yuyv, 2, 1);
    assert!(rgb[0] > rgb[1]);
    assert!(rgb[0] > rgb[2]);
}

#[test]
fn test_blue_tinted_pixels() {
    let yuyv = vec![128, 200, 128, 128];
    let rgb = yuyv_to_rgb(&yuyv, 2, 1);
    assert!(rgb[2] > rgb[0]);
    assert!(rgb[2] > rgb[1]);
}

#[test]
fn test_pixel_conversion_consistency() {
    let yuyv = vec![
        0, 128, 0, 128, // Black pixels
        255, 128, 255, 128, // White pixels
        128, 128, 128, 128, // Gray pixels
        128, 128, 128, 200, // Red-tinted pixels
    ];
    let full_rgb = yuyv_to_rgb(&yuyv, 8, 1);
    for x in 0..8 {
        let (r, g, b) = yuyv_pixel_to_rgb(&yuyv, x, 0, 8);
        let offset = (x * 3) as usize;
        assert!(
            (full_rgb[offset] as i16 - r as i16).abs() <= 1,
            "Red mismatch at pixel {}: full={}, pixel={}",
            x,
            full_rgb[offset],
            r
        );
        assert!(
            (full_rgb[offset + 1] as i16 - g as i16).abs() <= 1,
            "Green mismatch at pixel {}: full={}, pixel={}",
            x,
            full_rgb[offset + 1],
            g
        );
        assert!(
            (full_rgb[offset + 2] as i16 - b as i16).abs() <= 1,
            "Blue mismatch at pixel {}: full={}, pixel={}",
            x,
            full_rgb[offset + 2],
            b
        );
    }
}

#[test]
fn test_pixel_conversion_bounds() {
    let yuyv = vec![128, 128, 128, 128];
    let (r, g, b) = yuyv_pixel_to_rgb(&yuyv, 10, 0, 2);
    assert_eq!((r, g, b), (0, 0, 0));
}

#[test]
fn pixel_to_rgb_exact_bt601_values() {
    // Y=128, U=128, V=200: red = 128 + (72 * 1437) >> 10 = 229,
    // green = 128 - (72 * 731) >> 10 = 77, blue = 128.
    let yuyv = vec![128, 128, 100, 200];
    assert_eq!(yuyv_pixel_to_rgb(&yuyv, 0, 0, 2), (229, 77, 128));
    // The odd pixel of the pair takes its own luma and the shared chroma.
    assert_eq!(yuyv_pixel_to_rgb(&yuyv, 1, 0, 2), (201, 49, 100));
    // Negative chroma rounds toward negative infinity and clamps at 0.
    let yuyv = vec![10, 0, 10, 0];
    assert_eq!(yuyv_pixel_to_rgb(&yuyv, 0, 0, 2), (0, 146, 0));
}

#[test]
fn pixel_to_rgb_pair_touching_end_is_black() {
    // A pair whose last byte is the buffer's last byte is read; one byte
    // short, it is not.
    let yuyv = vec![200, 128, 200, 128];
    assert_eq!(yuyv_pixel_to_rgb(&yuyv, 1, 0, 2), (200, 200, 200));
    let short = vec![200, 128, 200];
    assert_eq!(yuyv_pixel_to_rgb(&short, 0, 0, 2), (0, 0, 0));
}

#[test]
fn bytes_per_pixel_and_expected_size() {
    assert_eq!(PixelFormat::RGB24.bytes_per_pixel(), Some(3));
    assert_eq!(PixelFormat::BGR24.bytes_per_pixel(), Some(3));
    assert_eq!(PixelFormat::YUYV.bytes_per_pixel(), Some(2));
    assert_eq!(PixelFormat::MJPEG.bytes_per_pixel(), None);
    assert_eq!(PixelFormat::RGB24.expected_size(640, 480), Some(921_600));
    assert_eq!(PixelFormat::YUYV.expected_size(640, 480), Some(614_400));
    assert_eq!(PixelFormat::MJPEG.expected_size(640, 480), None);
}

#[test]
fn format_names() {
    assert_eq!(PixelFormat::RGB24.name(), "RGB24");
    assert_eq!(PixelFormat::BGR24.name(), "BGR24");
    assert_eq!(PixelFormat::YUYV.name(), "YUYV");
    assert_eq!(PixelFormat::MJPEG.name(), "JPEG");
}

#[test]
fn frame_accessors() {
    let frame = Frame::new(vec![1, 2, 3, 4, 5, 6], 2, 1, PixelFormat::RGB24);
    assert_eq!(frame.len(), 6);
    assert!(!frame.is_empty());
    assert_eq!(frame.as_slice(), &[1, 2, 3, 4, 5, 6]);
    assert_eq!(frame.width, 2);
    assert_eq!(frame.height, 1);

    let jpeg = Frame::new(vec![], 4, 4, PixelFormat::MJPEG);
    assert!(jpeg.is_empty());
}

#[test]
fn black_frame_is_zeroed_and_sized() {
    let frame = Frame::black(4, 3, PixelFormat::YUYV);
    assert_eq!(frame.len(), 24);
    assert!(frame.as_slice().chunks(2).all(|p| p == [0, 128]));
    assert_eq!(Frame::black(2, 1, PixelFormat::YUYV).as_slice(), &[0, 128, 0, 128]);
    assert_eq!(yuyv_to_rgb(Frame::black(2, 1, PixelFormat::YUYV).as_slice(), 2, 1), vec![0; 6]);
    let frame = Frame::black(4, 3, PixelFormat::BGR24);
    assert_eq!(frame.len(), 36);
}

#[test]
fn filled_vectors() {
    assert_eq!(vec_filled(7u8, 3), vec![7, 7, 7]);
    assert!(vec_filled(0u32, 0).is_empty());
}

#[test]
fn format_display_strings() {
    assert_eq!(PixelFormat::MJPEG.to_string(), "JPEG");
    assert_eq!(PixelFormat::YUYV.to_string(), "YUYV");
}

#[test]
fn fourcc_codes() {
    assert_eq!(format_from_fourcc(b"YUYV"), Some(PixelFormat::YUYV));
    assert_eq!(format_from_fourcc(b"RGB3"), Some(PixelFormat::RGB24));
    assert_eq!(format_from_fourcc(b"BGR3"), Some(PixelFormat::BGR24));
    assert_eq!(format_from_fourcc(b"MJPG"), None);
}

#[test]
fn row_padding_is_dropped() {
    // Two rows of 3 bytes, each padded to a stride of 5.
    let buffer = [1, 2, 3, 0, 0, 4, 5, 6, 0, 0];
    assert_eq!(strip_row_padding(&buffer, 2, 3, 5), vec![1, 2, 3, 4, 5, 6]);
    // The last row need not carry its padding.
    assert_eq!(strip_row_padding(&buffer[..8], 2, 3, 5), vec![1, 2, 3, 4, 5, 6]);
    assert!(strip_row_padding(&[], 0, 3, 5).is_empty());
}

#[test]
fn frame_clone_keeps_everything() {
    let frame = Frame::new(vec![1, 2, 3, 4], 2, 1, PixelFormat::YUYV);
    let copy = frame.clone();
    assert_eq!(copy.len(), frame.len());
    assert_eq!(copy.as_slice(), frame.as_slice());
    assert_eq!((copy.width, copy.height, copy.format), (2, 1, PixelFormat::YUYV));
}

#[test]
fn whole_frame_bt601_values() {
    // Y=128, V=200: red (64*128 + 90*72 + k) >> 6 = 229, green
    // (64*128 - 46*72 + k) >> 6 = 76, blue 128, for k = 31 or 32.
    assert_eq!(yuyv_to_rgb(&[128, 128, 128, 200], 2, 1), vec![229, 76, 128, 229, 76, 128]);
    // Y=128, U=200: blue saturates at 255, green (64*128 - 22*72 + k) >> 6 = 103.
    assert_eq!(yuyv_to_rgb(&[128, 200, 128, 128], 2, 1), vec![128, 103, 255, 128, 103, 255]);
}
