use uefi_graphics2::{Color, Pixel, Point, Rectangle, Size, UefiDisplay, UefiDisplayError};

fn px(x: i32, y: i32, color: Color) -> Pixel {
    Pixel { point: Point { x, y }, color }
}

fn red() -> Color {
    Color::new(255, 0, 0)
}

#[test]
fn color_bytes_are_blue_green_red_zero() {
    assert_eq!(Color::new(0xAA, 0xBB, 0xCC).to_bytes(), [0xCC, 0xBB, 0xAA, 0]);
    assert_eq!(red().to_bytes(), [0, 0, 255, 0]);
    assert_eq!(Color::black().to_bytes(), [0, 0, 0, 0]);
}

#[test]
fn create_reports_its_size() {
    let mut frame = vec![0xFFu8; 3 * 2 * 4];
    let d = UefiDisplay::new(&mut frame, 3, 3, 2).unwrap();
    assert_eq!(d.size(), Size { width: 3, height: 2 });
}

#[test]
fn create_zero_sized_surface() {
    let mut frame: Vec<u8> = Vec::new();
    let d = UefiDisplay::new(&mut frame, 0, 0, 0).unwrap();
    assert_eq!(d.size(), Size { width: 0, height: 0 });
}

#[test]
fn create_with_overflowing_resolution_fails() {
    let mut frame: Vec<u8> = Vec::new();
    let r = UefiDisplay::new(&mut frame, u32::MAX, u32::MAX, u32::MAX);
    assert_eq!(r.err(), Some(UefiDisplayError::InvalidResolution));
}

#[test]
fn create_with_stride_wider_than_surface_fails() {
    let mut frame = vec![9u8; 8 * 4 * 4];
    let r = UefiDisplay::new(&mut frame, 8, 4, 4);
    assert_eq!(r.err(), Some(UefiDisplayError::OutOfBounds));
    assert!(frame.iter().all(|b| *b == 9));
}

#[test]
fn create_with_wide_stride_and_one_row_succeeds() {
    let mut frame = vec![9u8; 8 * 4];
    let d = UefiDisplay::new(&mut frame, 8, 4, 1).unwrap();
    assert_eq!(d.size(), Size { width: 4, height: 1 });
    assert!(frame[..16].iter().all(|b| *b == 0));
    assert!(frame[16..].iter().all(|b| *b == 9));
}

#[test]
fn create_clears_and_flushes_black() {
    let mut frame = vec![0xABu8; 4 * 4 * 4 + 8];
    let d = UefiDisplay::new(&mut frame, 4, 4, 4).unwrap();
    assert_eq!(&frame[..64], &[0u8; 64][..]);
    assert_eq!(&frame[64..], &[0xABu8; 8][..]);
    let mut again = vec![0x11u8; 64];
    d.flush(&mut again);
    assert_eq!(again, vec![0u8; 64]);
}

#[test]
fn pixel_at_origin_lands_at_offset_zero() {
    let mut frame = vec![0u8; 64];
    let mut d = UefiDisplay::new(&mut frame, 4, 4, 4).unwrap();
    let c = Color::new(1, 2, 3);
    d.draw_pixels(&[px(0, 0, c)]).unwrap();
    d.flush(&mut frame);
    assert_eq!(&frame[0..4], &[3, 2, 1, 0]);
    assert!(frame[4..].iter().all(|b| *b == 0));
}

#[test]
fn pixel_lands_at_stride_offset() {
    let mut frame = vec![0u8; 3 * 3 * 4];
    let mut d = UefiDisplay::new(&mut frame, 3, 3, 3).unwrap();
    d.draw_pixels(&[px(2, 1, Color::new(10, 20, 30))]).unwrap();
    d.flush(&mut frame);
    let idx = (1 * 3 + 2) * 4;
    assert_eq!(&frame[idx..idx + 4], &[30, 20, 10, 0]);
}

#[test]
fn off_screen_pixels_are_skipped() {
    let mut frame = vec![0u8; 64];
    let mut d = UefiDisplay::new(&mut frame, 4, 4, 4).unwrap();
    let pixels = [px(4, 0, red()), px(-1, 0, red()), px(0, -1, red()), px(0, 4, red()), px(i32::MIN, i32::MAX, red())];
    assert_eq!(d.draw_pixels(&pixels), Ok(()));
    let mut out = vec![0x55u8; 64];
    d.flush(&mut out);
    assert_eq!(out, vec![0u8; 64]);
}

#[test]
fn draw_pixels_is_all_or_nothing() {
    // A stride of 5 with a 4 by 4 surface puts the last row's slots past the buffer.
    let mut d = UefiDisplay::new_unchecked(5, 4, 4);
    let r = d.draw_pixels(&[px(0, 0, red()), px(3, 3, red())]);
    assert_eq!(r, Err(UefiDisplayError::OutOfBounds));
    let mut out = vec![0x55u8; 64];
    d.flush(&mut out);
    assert_eq!(out, vec![0u8; 64]);
}

#[test]
fn later_pixels_overwrite_earlier_ones() {
    let mut d = UefiDisplay::new_unchecked(2, 2, 2);
    let blue = Color::new(0, 0, 255);
    d.draw_pixels(&[px(1, 1, red()), px(1, 1, blue)]).unwrap();
    let mut out = vec![0u8; 16];
    d.flush(&mut out);
    assert_eq!(&out[12..16], &[255, 0, 0, 0]);
}

#[test]
fn fill_entire_paints_every_pixel() {
    let mut frame = vec![0u8; 3 * 2 * 4];
    let mut d = UefiDisplay::new(&mut frame, 3, 3, 2).unwrap();
    let cyan = Color::new(0, 255, 255);
    d.fill_entire(cyan).unwrap();
    d.flush(&mut frame);
    for slot in frame.chunks(4) {
        assert_eq!(slot, &[255, 255, 0, 0]);
    }
}

#[test]
fn fill_rect_is_clipped_to_the_surface() {
    let mut d = UefiDisplay::new_unchecked(4, 4, 4);
    let rect = Rectangle { top_left: Point { x: -2, y: 2 }, size: Size { width: 4, height: 10 } };
    d.fill_rect(&rect, red()).unwrap();
    let mut out = vec![0u8; 64];
    d.flush(&mut out);
    for y in 0..4usize {
        for x in 0..4usize {
            let idx = (y * 4 + x) * 4;
            let expected: &[u8] = if y >= 2 && x < 2 { &[0, 0, 255, 0] } else { &[0, 0, 0, 0] };
            assert_eq!(&out[idx..idx + 4], expected);
        }
    }
}

#[test]
fn fill_rect_entirely_off_screen_is_a_no_op() {
    let mut d = UefiDisplay::new_unchecked(4, 4, 4);
    let rect = Rectangle { top_left: Point { x: 10, y: -20 }, size: Size { width: 3, height: 3 } };
    assert_eq!(d.fill_rect(&rect, red()), Ok(()));
    let mut out = vec![7u8; 64];
    d.flush(&mut out);
    assert_eq!(out, vec![0u8; 64]);
}

#[test]
fn fill_rect_past_the_buffer_fails_unchanged() {
    let mut d = UefiDisplay::new_unchecked(6, 4, 4);
    let rect = Rectangle { top_left: Point { x: 0, y: 0 }, size: Size { width: 4, height: 4 } };
    assert_eq!(d.fill_rect(&rect, red()), Err(UefiDisplayError::OutOfBounds));
    let mut out = vec![7u8; 64];
    d.flush(&mut out);
    assert_eq!(out, vec![0u8; 64]);
}

#[test]
fn flush_twice_gives_the_same_frame() {
    let mut d = UefiDisplay::new_unchecked(2, 2, 2);
    d.draw_pixels(&[px(1, 0, red())]).unwrap();
    let mut frame = vec![0x42u8; 20];
    d.flush(&mut frame);
    let first = frame.clone();
    d.flush(&mut frame);
    assert_eq!(frame, first);
    assert_eq!(&frame[16..], &[0x42u8; 4][..]);
}

#[test]
fn resize_larger_flushes_blank() {
    let mut frame = vec![0u8; 2 * 2 * 4];
    let mut d = UefiDisplay::new(&mut frame, 2, 2, 2).unwrap();
    d.fill_entire(red()).unwrap();
    d.resize(4, 4).unwrap();
    assert_eq!(d.size(), Size { width: 4, height: 4 });
    let mut big = vec![0x99u8; 64];
    d.flush(&mut big);
    assert_eq!(big, vec![0u8; 64]);
}

#[test]
fn resize_with_overflow_fails_and_keeps_surface() {
    let mut d = UefiDisplay::new_unchecked(2, 2, 2);
    d.draw_pixels(&[px(0, 0, red())]).unwrap();
    assert_eq!(d.resize(u32::MAX, u32::MAX), Err(UefiDisplayError::InvalidResolution));
    assert_eq!(d.size(), Size { width: 2, height: 2 });
    let mut out = vec![0u8; 16];
    d.flush(&mut out);
    assert_eq!(&out[0..4], &[0, 0, 255, 0]);
}

#[test]
fn resize_below_stride_reports_out_of_bounds() {
    let mut d = UefiDisplay::new_unchecked(4, 4, 4);
    assert_eq!(d.resize(2, 3), Err(UefiDisplayError::OutOfBounds));
    assert_eq!(d.size(), Size { width: 2, height: 3 });
}

#[test]
fn resize_unchecked_gives_zeroed_buffer() {
    let mut d = UefiDisplay::new_unchecked(3, 3, 3);
    d.fill_entire(red()).unwrap();
    d.resize_unchecked(3, 1);
    assert_eq!(d.size(), Size { width: 3, height: 1 });
    let mut out = vec![1u8; 12];
    d.flush(&mut out);
    assert_eq!(out, vec![0u8; 12]);
}

#[test]
fn end_to_end_red_pixel() {
    let mut frame = vec![0x77u8; 64];
    let mut d = UefiDisplay::new(&mut frame, 4, 4, 4).unwrap();
    d.draw_pixels(&[px(1, 1, red())]).unwrap();
    d.flush(&mut frame);
    assert_eq!(&frame[20..24], &0x00FF0000u32.to_le_bytes());
    for (i, b) in frame.iter().enumerate() {
        if !(20..24).contains(&i) {
            assert_eq!(*b, 0, "byte {}", i);
        }
    }
}

#[test]
fn error_messages() {
    assert_eq!(UefiDisplayError::UnsupportedFormat.message(), "Unsupported Color Format");
    assert_eq!(UefiDisplayError::InvalidResolution.message(), "Invalid Resolution");
    assert_eq!(UefiDisplayError::OutOfBounds.message(), "Out of Bounds");
}

#[test]
fn fill_entire_with_narrow_stride_leaves_tail_slots() {
    // Stride 2 on a 4 by 2 surface: pixels reach slots 0..=5 of the 8 in the buffer.
    let mut d = UefiDisplay::new_unchecked(2, 4, 2);
    d.fill_entire(red()).unwrap();
    let mut out = vec![0u8; 32];
    d.flush(&mut out);
    for slot in 0..8usize {
        let expected: &[u8] = if slot < 6 { &[0, 0, 255, 0] } else { &[0, 0, 0, 0] };
        assert_eq!(&out[slot * 4..slot * 4 + 4], expected);
    }
}
