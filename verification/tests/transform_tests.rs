use wallst::canvas::get_background;
use wallst::color::color_from_str;
use wallst::compositor::BackgroundMode;
use wallst::pipeline::{get_image_data, BackgroundOptions};
use wallst::pixbuf::PixelBuffer;
use wallst::transform::{attenuate_alpha, flip_horizontal, flip_vertical};

fn pixel(buf: &PixelBuffer, x: u32, y: u32) -> (u8, u8, u8, u8) {
    let i = (4 * (y * buf.width + x)) as usize;
    (buf.data[i], buf.data[i + 1], buf.data[i + 2], buf.data[i + 3])
}

fn coordinate_buffer(w: u32, h: u32, alpha: u8) -> PixelBuffer {
    let mut data = Vec::new();
    for y in 0..h {
        for x in 0..w {
            data.push(x as u8);
            data.push(y as u8);
            data.push((x + y) as u8);
            data.push(alpha);
        }
    }
    PixelBuffer { width: w, height: h, data }
}

#[test]
fn vertical_flip_reverses_rows() {
    let mut buf = coordinate_buffer(2, 3, 255);
    flip_vertical(&mut buf);
    for y in 0..3u32 {
        for x in 0..2u32 {
            let sy = 2 - y;
            assert_eq!(pixel(&buf, x, y), (x as u8, sy as u8, (x + sy) as u8, 255));
        }
    }
}

#[test]
fn horizontal_flip_reverses_columns() {
    let mut buf = coordinate_buffer(3, 2, 255);
    flip_horizontal(&mut buf);
    for y in 0..2u32 {
        for x in 0..3u32 {
            let sx = 2 - x;
            assert_eq!(pixel(&buf, x, y), (sx as u8, y as u8, (sx + y) as u8, 255));
        }
    }
}

#[test]
fn flips_commute() {
    let start = coordinate_buffer(5, 4, 200);

    let mut vh = PixelBuffer {
        width: start.width,
        height: start.height,
        data: start.data.clone(),
    };
    flip_vertical(&mut vh);
    flip_horizontal(&mut vh);

    let mut hv = PixelBuffer {
        width: start.width,
        height: start.height,
        data: start.data.clone(),
    };
    flip_horizontal(&mut hv);
    flip_vertical(&mut hv);

    assert_eq!(vh.data, hv.data);
}

#[test]
fn double_flip_restores_buffer() {
    let start = coordinate_buffer(4, 3, 255);
    let mut buf = PixelBuffer {
        width: start.width,
        height: start.height,
        data: start.data.clone(),
    };
    flip_vertical(&mut buf);
    flip_vertical(&mut buf);
    assert_eq!(buf.data, start.data);
}

#[test]
fn attenuation_scales_alpha_only() {
    let mut buf = PixelBuffer { width: 1, height: 2, data: vec![10, 20, 30, 255, 1, 2, 3, 100] };
    attenuate_alpha(&mut buf, 128);
    // alpha becomes a * 128 / 255, truncating; colors untouched
    assert_eq!(pixel(&buf, 0, 0), (10, 20, 30, 128));
    assert_eq!(pixel(&buf, 0, 1), (1, 2, 3, (100 * 128 / 255) as u8));
}

#[test]
fn attenuation_to_zero_makes_transparent() {
    let mut buf = PixelBuffer { width: 1, height: 1, data: vec![10, 20, 30, 255] };
    attenuate_alpha(&mut buf, 0);
    assert_eq!(pixel(&buf, 0, 0), (10, 20, 30, 0));
}

#[test]
fn attenuated_blend_over_black_is_linear() {
    // an opaque foreground attenuated to alpha 128 and composited over pure
    // black yields each channel scaled by 128 / 255
    let colors = vec![color_from_str("#000000").unwrap()];
    let fg = PixelBuffer { width: 1, height: 1, data: vec![200, 90, 255, 255] };
    let opts = BackgroundOptions {
        colors,
        alpha: Some(128),
        w: 1,
        h: 1,
        mode: BackgroundMode::Full,
        vflip: false,
        hflip: false,
    };
    let out = get_image_data(opts, Some(fg)).unwrap();
    let (r, g, b, _) = pixel(&out, 0, 0);
    assert_eq!(r as u32, 200 * 128 / 255);
    assert_eq!(g as u32, 90 * 128 / 255);
    assert_eq!(b as u32, 255 * 128 / 255);
}

#[test]
fn attenuation_happens_before_blend() {
    // over a white canvas the attenuated foreground must let the background
    // through: out = (fg * a + 255 * (255 - a)) / 255 with a = 255 * 51 / 255
    let colors = vec![color_from_str("#FFFFFF").unwrap()];
    let fg = PixelBuffer { width: 1, height: 1, data: vec![0, 0, 0, 255] };
    let opts = BackgroundOptions {
        colors,
        alpha: Some(51),
        w: 1,
        h: 1,
        mode: BackgroundMode::Stretch,
        vflip: false,
        hflip: false,
    };
    let out = get_image_data(opts, Some(fg)).unwrap();
    let (r, _, _, _) = pixel(&out, 0, 0);
    assert_eq!(r as u32, (0 * 51 + 255 * 204) / 255);
}

#[test]
fn flips_apply_to_bare_canvas() {
    let colors = vec![
        color_from_str("#000000").unwrap(),
        color_from_str("#FFFFFF").unwrap(),
    ];
    let opts = BackgroundOptions {
        colors,
        alpha: None,
        w: 4,
        h: 1,
        mode: BackgroundMode::Full,
        vflip: false,
        hflip: true,
    };
    let out = get_image_data(opts, None).unwrap();
    let unflipped = get_background(
        &vec![
            color_from_str("#000000").unwrap(),
            color_from_str("#FFFFFF").unwrap(),
        ],
        4,
        1,
    );
    for x in 0..4 {
        assert_eq!(pixel(&out, x, 0), pixel(&unflipped, 3 - x, 0));
    }
}
