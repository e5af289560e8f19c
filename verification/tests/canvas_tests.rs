use wallst::canvas::get_background;
use wallst::color::{color_from_str, Color};
use wallst::pixbuf::PixelBuffer;

fn pixel(buf: &PixelBuffer, x: u32, y: u32) -> (u8, u8, u8, u8) {
    let i = (4 * (y * buf.width + x)) as usize;
    (buf.data[i], buf.data[i + 1], buf.data[i + 2], buf.data[i + 3])
}

#[test]
fn zero_colors_yield_uniform_black() {
    let colors: Vec<Color> = Vec::new();
    let bg = get_background(&colors, 10, 10);
    assert_eq!(bg.width, 10);
    assert_eq!(bg.height, 10);
    assert_eq!(bg.data.len(), 400);
    for y in 0..10 {
        for x in 0..10 {
            assert_eq!(pixel(&bg, x, y), (0, 0, 0, 255));
        }
    }
}

#[test]
fn one_color_yields_uniform_fill() {
    let colors = vec![color_from_str("#336699").unwrap()];
    let bg = get_background(&colors, 10, 10);
    for y in 0..10 {
        for x in 0..10 {
            assert_eq!(pixel(&bg, x, y), (0x33, 0x66, 0x99, 255));
        }
    }
}

#[test]
fn two_color_gradient_runs_black_to_white() {
    let colors = vec![
        color_from_str("#000000").unwrap(),
        color_from_str("#FFFFFF").unwrap(),
    ];
    let bg = get_background(&colors, 10, 10);
    assert_eq!(pixel(&bg, 0, 0), (0, 0, 0, 255));
    assert_eq!(pixel(&bg, 9, 0), (255, 255, 255, 255));
    let mut last: i32 = -1;
    for x in 0..10 {
        let (r, g, b, a) = pixel(&bg, x, 0);
        assert_eq!(r, g);
        assert_eq!(g, b);
        assert_eq!(a, 255);
        assert!((r as i32) > last, "luminance must increase left to right");
        last = r as i32;
    }
}

#[test]
fn gradient_is_vertically_invariant() {
    let colors = vec![
        color_from_str("#FF0000").unwrap(),
        color_from_str("#00FF00").unwrap(),
        color_from_str("#0000FF").unwrap(),
    ];
    let bg = get_background(&colors, 8, 5);
    for x in 0..8 {
        let first = pixel(&bg, x, 0);
        for y in 1..5 {
            assert_eq!(pixel(&bg, x, y), first);
        }
    }
}

#[test]
fn multi_stop_gradient_hits_every_stop() {
    let colors = vec![
        color_from_str("#FF0000").unwrap(),
        color_from_str("#00FF00").unwrap(),
        color_from_str("#0000FF").unwrap(),
    ];
    // width 5: columns 0 and 4 are the end stops, column 2 the middle stop
    let bg = get_background(&colors, 5, 1);
    assert_eq!(pixel(&bg, 0, 0), (255, 0, 0, 255));
    assert_eq!(pixel(&bg, 2, 0), (0, 255, 0, 255));
    assert_eq!(pixel(&bg, 4, 0), (0, 0, 255, 255));
}

#[test]
fn single_column_canvas_shows_first_stop() {
    let colors = vec![
        color_from_str("#123456").unwrap(),
        color_from_str("#FFFFFF").unwrap(),
    ];
    let bg = get_background(&colors, 1, 3);
    for y in 0..3 {
        assert_eq!(pixel(&bg, 0, y), (0x12, 0x34, 0x56, 255));
    }
}

#[test]
fn empty_canvas_is_allowed() {
    let colors: Vec<Color> = Vec::new();
    let bg = get_background(&colors, 0, 7);
    assert_eq!(bg.data.len(), 0);
}
