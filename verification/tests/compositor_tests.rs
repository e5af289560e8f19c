use wallst::canvas::get_background;
use wallst::color::{color_from_str, Color};
use wallst::compositor::{center_image, full_image, stretch_image, tile_image, BackgroundMode};
use wallst::error::WallError;
use wallst::pipeline::{get_image_data, BackgroundOptions};
use wallst::pixbuf::PixelBuffer;

fn pixel(buf: &PixelBuffer, x: u32, y: u32) -> (u8, u8, u8, u8) {
    let i = (4 * (y * buf.width + x)) as usize;
    (buf.data[i], buf.data[i + 1], buf.data[i + 2], buf.data[i + 3])
}

/// A buffer whose pixel (x, y) is (x, y, x + y, alpha): every pixel distinct.
fn coordinate_buffer(w: u32, h: u32, alpha: u8) -> PixelBuffer {
    let mut data = Vec::new();
    for y in 0..h {
        for x in 0..w {
            data.push(x as u8);
            data.push(y as u8);
            data.push((x + y) as u8);
            data.push(alpha);
        }
    }
    PixelBuffer { width: w, height: h, data }
}

fn options(colors: Vec<Color>, w: u32, h: u32, mode: BackgroundMode) -> BackgroundOptions {
    BackgroundOptions { colors, alpha: None, w, h, mode, vflip: false, hflip: false }
}

#[test]
fn stretch_same_size_opaque_reproduces_foreground() {
    let colors = vec![color_from_str("#123456").unwrap()];
    let mut bg = get_background(&colors, 4, 4);
    let fg = coordinate_buffer(4, 4, 255);
    stretch_image(&mut bg, &fg, 4, 4);
    assert_eq!(bg.data, fg.data);
}

#[test]
fn full_same_size_opaque_reproduces_foreground() {
    let colors = vec![color_from_str("#ABCDEF").unwrap()];
    let mut bg = get_background(&colors, 4, 4);
    let fg = coordinate_buffer(4, 4, 255);
    full_image(&mut bg, &fg, 4, 4);
    assert_eq!(bg.data, fg.data);
}

#[test]
fn full_clips_and_leaves_border() {
    let colors = vec![color_from_str("#010203").unwrap()];
    let mut bg = get_background(&colors, 4, 4);
    let fg = coordinate_buffer(2, 2, 255);
    full_image(&mut bg, &fg, 4, 4);
    assert_eq!(pixel(&bg, 0, 0), (0, 0, 0, 255));
    assert_eq!(pixel(&bg, 1, 1), (1, 1, 2, 255));
    assert_eq!(pixel(&bg, 2, 2), (1, 2, 3, 255));
    assert_eq!(pixel(&bg, 3, 3), (1, 2, 3, 255));
}

#[test]
fn tile_repeats_with_wraparound() {
    let colors = vec![color_from_str("#000000").unwrap()];
    let mut bg = get_background(&colors, 10, 10);
    let fg = coordinate_buffer(3, 3, 255);
    tile_image(&mut bg, &fg, 10, 10);
    // pixel (9, 9) comes from foreground (9 mod 3, 9 mod 3) = (0, 0)
    assert_eq!(pixel(&bg, 9, 9), (0, 0, 0, 255));
    assert_eq!(pixel(&bg, 4, 5), (1, 2, 3, 255));
    assert_eq!(pixel(&bg, 7, 2), (1, 2, 3, 255));
    for y in 0..10u32 {
        for x in 0..10u32 {
            let (fx, fy) = (x % 3, y % 3);
            assert_eq!(pixel(&bg, x, y), (fx as u8, fy as u8, (fx + fy) as u8, 255));
        }
    }
}

#[test]
fn center_crops_symmetrically_when_larger() {
    let colors = vec![color_from_str("#FF00FF").unwrap()];
    let mut bg = get_background(&colors, 4, 4);
    let fg = coordinate_buffer(6, 6, 255);
    center_image(&mut bg, &fg, 4, 4);
    // offsets are (6 - 4) / 2 = 1 on both axes; no background shows
    for y in 0..4u32 {
        for x in 0..4u32 {
            assert_eq!(
                pixel(&bg, x, y),
                ((x + 1) as u8, (y + 1) as u8, (x + y + 2) as u8, 255)
            );
        }
    }
}

#[test]
fn center_leaves_border_when_smaller() {
    let colors = vec![color_from_str("#040506").unwrap()];
    let mut bg = get_background(&colors, 4, 4);
    let fg = coordinate_buffer(2, 2, 255);
    center_image(&mut bg, &fg, 4, 4);
    // offset (4 - 2) / 2 = 1: the window [1, 3) x [1, 3) holds the foreground
    assert_eq!(pixel(&bg, 0, 0), (4, 5, 6, 255));
    assert_eq!(pixel(&bg, 3, 3), (4, 5, 6, 255));
    assert_eq!(pixel(&bg, 1, 1), (0, 0, 0, 255));
    assert_eq!(pixel(&bg, 2, 2), (1, 1, 2, 255));
}

#[test]
fn stretch_scales_up_single_pixel() {
    let colors = vec![color_from_str("#000000").unwrap()];
    let mut bg = get_background(&colors, 3, 3);
    let fg = PixelBuffer { width: 1, height: 1, data: vec![9, 8, 7, 255] };
    stretch_image(&mut bg, &fg, 3, 3);
    for y in 0..3 {
        for x in 0..3 {
            assert_eq!(pixel(&bg, x, y), (9, 8, 7, 255));
        }
    }
}

#[test]
fn blend_weights_by_foreground_alpha() {
    let colors = vec![color_from_str("#646464").unwrap()];  // (100, 100, 100)
    let mut bg = get_background(&colors, 1, 1);
    let fg = PixelBuffer { width: 1, height: 1, data: vec![200, 0, 100, 128] };
    full_image(&mut bg, &fg, 1, 1);
    // out = (fg * 128 + bg * 127) / 255, truncating
    let r = (200u32 * 128 + 100 * 127) / 255;
    let g = (0u32 * 128 + 100 * 127) / 255;
    let b = (100u32 * 128 + 100 * 127) / 255;
    let a = 128 + (255u32 * 127) / 255;
    let got = pixel(&bg, 0, 0);
    assert_eq!(got, (r as u8, g as u8, b as u8, a as u8));
}

#[test]
fn fill_covers_and_centers_overflow() {
    let colors = vec![color_from_str("#111111").unwrap()];
    let mut bg = get_background(&colors, 2, 2);
    // foreground 2x1: covering 2x2 scales to 4x2; the width overflow is
    // cropped around the center, so column x reads scaled column x + 1
    let fg = PixelBuffer { width: 2, height: 1, data: vec![10, 0, 0, 255, 20, 0, 0, 255] };
    wallst::compositor::fill_image(&mut bg, &fg, 2, 2);
    // scaled column x + 1 maps to source column (x + 1) * 2 / 4
    assert_eq!(pixel(&bg, 0, 0), (10, 0, 0, 255));
    assert_eq!(pixel(&bg, 1, 0), (20, 0, 0, 255));
    assert_eq!(pixel(&bg, 0, 1), (10, 0, 0, 255));
    assert_eq!(pixel(&bg, 1, 1), (20, 0, 0, 255));
}

#[test]
fn fill_crops_vertical_overflow() {
    let colors = vec![color_from_str("#111111").unwrap()];
    let mut bg = get_background(&colors, 2, 2);
    // foreground 1x2: covering 2x2 scales to 2x4; the height overflow is
    // cropped around the center, so row y reads scaled row y + 1, which maps
    // to source row (y + 1) * 2 / 4
    let fg = PixelBuffer { width: 1, height: 2, data: vec![10, 0, 0, 255, 20, 0, 0, 255] };
    wallst::compositor::fill_image(&mut bg, &fg, 2, 2);
    assert_eq!(pixel(&bg, 0, 0), (10, 0, 0, 255));
    assert_eq!(pixel(&bg, 1, 0), (10, 0, 0, 255));
    assert_eq!(pixel(&bg, 0, 1), (20, 0, 0, 255));
    assert_eq!(pixel(&bg, 1, 1), (20, 0, 0, 255));
}

#[test]
fn center_mixes_crop_and_border() {
    // wider but shorter foreground: columns are cropped, rows get a border
    let colors = vec![color_from_str("#040506").unwrap()];
    let mut bg = get_background(&colors, 4, 4);
    let fg = coordinate_buffer(6, 2, 255);
    center_image(&mut bg, &fg, 4, 4);
    for x in 0..4u32 {
        assert_eq!(pixel(&bg, x, 0), (4, 5, 6, 255));
        assert_eq!(pixel(&bg, x, 3), (4, 5, 6, 255));
        for y in 1..3u32 {
            let (sx, sy) = (x + 1, y - 1);
            assert_eq!(pixel(&bg, x, y), (sx as u8, sy as u8, (sx + sy) as u8, 255));
        }
    }
}

#[test]
fn pipeline_without_foreground_returns_canvas() {
    let colors = vec![color_from_str("#224466").unwrap()];
    let opts = options(colors, 3, 2, BackgroundMode::Full);
    let out = get_image_data(opts, None).unwrap();
    assert_eq!(out.width, 3);
    assert_eq!(out.height, 2);
    for y in 0..2 {
        for x in 0..3 {
            assert_eq!(pixel(&out, x, y), (0x22, 0x44, 0x66, 255));
        }
    }
}

#[test]
fn pipeline_rejects_degenerate_foreground() {
    let fg = PixelBuffer { width: 0, height: 0, data: Vec::new() };
    let opts = options(Vec::new(), 4, 4, BackgroundMode::Center);
    let r = get_image_data(opts, Some(fg));
    assert!(matches!(r, Err(WallError::DegenerateGeometry)));
}

#[test]
fn pipeline_rejects_degenerate_canvas() {
    let fg = coordinate_buffer(2, 2, 255);
    let opts = options(Vec::new(), 0, 4, BackgroundMode::Full);
    let r = get_image_data(opts, Some(fg));
    assert!(matches!(r, Err(WallError::DegenerateGeometry)));
}

#[test]
fn pipeline_composites_and_flips() {
    let colors = vec![color_from_str("#000000").unwrap()];
    let fg = coordinate_buffer(2, 2, 255);
    let opts = BackgroundOptions {
        colors,
        alpha: None,
        w: 2,
        h: 2,
        mode: BackgroundMode::Full,
        vflip: true,
        hflip: false,
    };
    let out = get_image_data(opts, Some(fg)).unwrap();
    // row order reversed: output (x, 0) is foreground (x, 1)
    assert_eq!(pixel(&out, 0, 0), (0, 1, 1, 255));
    assert_eq!(pixel(&out, 1, 0), (1, 1, 2, 255));
    assert_eq!(pixel(&out, 0, 1), (0, 0, 0, 255));
    assert_eq!(pixel(&out, 1, 1), (1, 0, 1, 255));
}
