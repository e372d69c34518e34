use voxelspace::framebuffer::Framebuffer;
use voxelspace::render::{
    depth_schedule, draw_sample, render_column, PixelScale, Sample, VIEW_DISTANCE,
};

fn sample(row: u16, color: u8) -> Sample {
    Sample { row, color }
}

#[test]
fn draw_sample_fills_up_to_skyline() {
    let mut frame = Framebuffer::new(1, 8);
    let sky = draw_sample(&mut frame, PixelScale::Single, 2, 8, sample(5, 0));
    assert_eq!(sky, 5);
    assert_eq!(frame.bytes(), &[0xFF, 0xFF, 0xFF, 0xFF, 0xFF, 0xDF, 0xDF, 0xDF][..]);
    let sky = draw_sample(&mut frame, PixelScale::Single, 2, sky, sample(6, 0));
    assert_eq!(sky, 5);
    let sky = draw_sample(&mut frame, PixelScale::Single, 2, sky, sample(5, 0));
    assert_eq!(sky, 5);
    assert_eq!(frame.bytes(), &[0xFF, 0xFF, 0xFF, 0xFF, 0xFF, 0xDF, 0xDF, 0xDF][..]);
}

#[test]
fn draw_sample_never_redraws_covered_rows() {
    let mut frame = Framebuffer::new(1, 8);
    let sky = draw_sample(&mut frame, PixelScale::Single, 0, 8, sample(6, 0));
    let sky = draw_sample(&mut frame, PixelScale::Single, 0, sky, sample(3, 255));
    assert_eq!(sky, 3);
    // Rows 6 and 7 keep the near black sample; rows 3 to 5 take the white one.
    assert_eq!(frame.bytes(), &[0xFF, 0xFF, 0xFF, 0xFF, 0xFF, 0xFF, 0x7F, 0x7F][..]);
    assert!(frame.get_pixel(0, 4));
    assert!(!frame.get_pixel(0, 6));
}

#[test]
fn draw_sample_doubles_pixels() {
    let mut frame = Framebuffer::new(1, 4);
    let sky = draw_sample(&mut frame, PixelScale::Double, 1, 2, sample(1, 0));
    assert_eq!(sky, 1);
    assert_eq!(frame.bytes(), &[0xFF, 0xFF, 0xCF, 0xCF][..]);
}

#[test]
fn double_scale_dithers_each_subpixel() {
    let mut frame = Framebuffer::new(1, 2);
    draw_sample(&mut frame, PixelScale::Double, 0, 1, sample(0, 100));
    // Sub-pixel thresholds: (0,0)=0, (1,0)=128, (0,1)=191, (1,1)=64.
    assert_eq!(frame.bytes(), &[0xBF, 0x7F][..]);
}

#[test]
fn render_column_skyline_monotone() {
    let mut frame = Framebuffer::new(1, 8);
    let samples = [sample(7, 0), sample(9, 255), sample(4, 255), sample(5, 0), sample(2, 0)];
    render_column(&mut frame, PixelScale::Single, 7, 8, &samples);
    // Column 7 is the lowest bit: row 7 black, rows 4..6 white, rows 2..3 black.
    assert_eq!(frame.bytes(), &[0xFF, 0xFF, 0xFE, 0xFE, 0xFF, 0xFF, 0xFF, 0xFE][..]);
}

#[test]
fn render_column_without_samples() {
    let mut frame = Framebuffer::new(1, 4);
    render_column(&mut frame, PixelScale::Single, 0, 4, &[]);
    assert_eq!(frame.bytes(), &[0xFF; 4][..]);
}

#[test]
fn render_column_stays_below_bottom() {
    let mut frame = Framebuffer::new(1, 8);
    render_column(&mut frame, PixelScale::Single, 0, 4, &[sample(0, 0)]);
    assert_eq!(frame.bytes(), &[0x7F, 0x7F, 0x7F, 0x7F, 0xFF, 0xFF, 0xFF, 0xFF][..]);
}

#[test]
fn depth_schedule_accelerates() {
    assert_eq!(depth_schedule(400), vec![100, 204, 312]);
    assert_eq!(depth_schedule(100), Vec::<u32>::new());
    assert_eq!(depth_schedule(101), vec![100]);
    let all = depth_schedule(VIEW_DISTANCE);
    assert_eq!(all.len(), 119);
    assert!(*all.last().unwrap() < VIEW_DISTANCE);
    for k in 1..all.len() {
        assert_eq!(all[k] - all[k - 1], 100 + 4 * k as u32);
    }
}
