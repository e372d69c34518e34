use voxelspace::dither::{dither_bit, dither_frame, threshold, DITHER_MATRIX_256_2};
use voxelspace::framebuffer::Framebuffer;

#[test]
fn threshold_reads_cell_mod_four() {
    assert_eq!(threshold(0, 0), 0);
    assert_eq!(threshold(1, 0), 128);
    assert_eq!(threshold(3, 3), 80);
    assert_eq!(threshold(5, 6), 175);
    assert_eq!(threshold(4, 4), threshold(0, 0));
    for x in 0..8 {
        for y in 0..8 {
            assert_eq!(threshold(x, y), DITHER_MATRIX_256_2[4 * (y % 4) + x % 4]);
            assert_eq!(threshold(x, y), threshold(x, y));
        }
    }
}

#[test]
fn thresholds_are_distinct_and_span_range() {
    let mut sorted = DITHER_MATRIX_256_2.to_vec();
    sorted.sort();
    sorted.dedup();
    assert_eq!(sorted.len(), 16);
    assert_eq!(sorted[0], 0);
    assert_eq!(sorted[15], 239);
}

#[test]
fn dither_bit_compares_above_threshold() {
    assert!(!dither_bit(0, 0, 0));
    assert!(dither_bit(1, 0, 0));
    assert!(!dither_bit(128, 1, 0));
    assert!(dither_bit(129, 1, 0));
    assert!(dither_bit(255, 0, 3));
}

#[test]
fn black_frame_dithers_to_zero() {
    let mut frame = Framebuffer::new(2, 4);
    dither_frame(&vec![0u8; 16 * 4], 16, &mut frame);
    assert_eq!(frame.bytes(), &[0u8; 8][..]);
}

#[test]
fn white_frame_dithers_to_ones() {
    let mut frame = Framebuffer::new(2, 4);
    dither_frame(&[0u8; 64], 16, &mut frame);
    dither_frame(&[255u8; 64], 16, &mut frame);
    assert_eq!(frame.bytes(), &[0xFFu8; 8][..]);
}

#[test]
fn mid_grey_dithers_to_pattern() {
    let mut frame = Framebuffer::new(1, 4);
    dither_frame(&[100u8; 32], 8, &mut frame);
    // Row 0: thresholds 0 128 32 159 -> lit, dark, lit, dark.
    assert_eq!(frame.bytes()[0], 0b1010_1010);
    // Row 1: 191 64 223 96 -> dark, lit, dark, lit.
    assert_eq!(frame.bytes()[1], 0b0101_0101);
    // Row 2: 48 175 16 143 -> lit, dark, lit, dark.
    assert_eq!(frame.bytes()[2], 0b1010_1010);
    // Row 3: 239 112 207 80 -> dark, dark, dark, lit.
    assert_eq!(frame.bytes()[3], 0b0001_0001);
}

#[test]
fn dither_leaves_padding() {
    let mut frame = Framebuffer::new(1, 1);
    dither_frame(&[0u8; 4], 4, &mut frame);
    assert_eq!(frame.bytes(), &[0x0Fu8][..]);
}

#[test]
fn framebuffer_pixels() {
    let mut frame = Framebuffer::new(2, 3);
    assert_eq!(frame.stride(), 2);
    assert_eq!(frame.rows(), 3);
    frame.set_pixel(0, 0, false);
    frame.set_pixel(9, 2, false);
    assert_eq!(frame.bytes(), &[0x7F, 0xFF, 0xFF, 0xFF, 0xFF, 0xBF][..]);
    assert!(!frame.get_pixel(9, 2));
    assert!(frame.get_pixel(8, 2));
    frame.set_pixel(9, 2, true);
    assert_eq!(frame.bytes()[5], 0xFF);
    frame.clear();
    assert_eq!(frame.bytes(), &[0xFFu8; 6][..]);
}
