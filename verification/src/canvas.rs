use vstd::prelude::*;

use crate::color::Color;
use crate::pixbuf::{lemma_rowmajor_bound, lemma_rowmajor_lt, pix_at, push_pixel, Pixel,
    PixelBuffer};

verus! {

/// The pixel a color paints.
pub open spec fn color_pixel(c: Color) -> Pixel {
    Pixel { r: c.r, g: c.g, b: c.b, a: c.a }
}

/// Truncating linear interpolation of one channel at fraction `f/d` from `c0`
/// to `c1`.
pub open spec fn lerp_chan(c0: int, c1: int, f: int, d: int) -> int {
    (c0 * (d - f) + c1 * f) / d
}

/// The gradient color at column `x` of a `w`-column canvas across the stops:
/// the columns are spread evenly over the `n - 1` segments between consecutive
/// stops, and each channel is interpolated linearly within its segment.
pub open spec fn gradient_color(colors: Seq<Color>, w: int, x: int) -> Color
    recommends
        colors.len() >= 2,
        w >= 2,
        0 <= x < w,
{
    let n = colors.len() as int;
    let d = w - 1;
    let pos = x * (n - 1);
    let seg = if pos / d <= n - 2 {
        pos / d
    } else {
        n - 2
    };
    let f = pos - seg * d;
    let c0 = colors[seg];
    let c1 = colors[seg + 1];
    Color {
        r: lerp_chan(c0.r as int, c1.r as int, f, d) as u8,
        g: lerp_chan(c0.g as int, c1.g as int, f, d) as u8,
        b: lerp_chan(c0.b as int, c1.b as int, f, d) as u8,
        a: lerp_chan(c0.a as int, c1.a as int, f, d) as u8,
    }
}

/// The canvas color at column `x`: opaque black for zero stops, a uniform fill
/// for one stop, and the horizontal gradient otherwise. A single-column canvas
/// shows the first stop.
pub open spec fn canvas_color(colors: Seq<Color>, w: int, x: int) -> Color {
    if colors.len() == 0 {
        Color { r: 0, g: 0, b: 0, a: 255 }
    } else if colors.len() == 1 || w <= 1 {
        colors[0]
    } else {
        gradient_color(colors, w, x)
    }
}

/// One interpolated channel, computed with wide intermediates.
fn lerp_exec(c0: u8, c1: u8, f: u128, d: u128) -> (r: u8)
    requires
        0 < d,
        f <= d,
        d <= 0xFFFF_FFFF,
    ensures
        r as int == lerp_chan(c0 as int, c1 as int, f as int, d as int),
{
    proof {
        assert((c0 as int) * (d as int - f as int) <= 255 * 0xFFFF_FFFF && (c1 as int) * (f as int)
            <= 255 * 0xFFFF_FFFF) by (nonlinear_arith)
            requires
                c0 <= 255,
                c1 <= 255,
                0 <= f as int <= d as int,
                d as int <= 0xFFFF_FFFF,
        {}
    }
    let num = (c0 as u128) * (d - f) + (c1 as u128) * f;
    proof {
        assert((c0 as int) * (d as int - f as int) + (c1 as int) * (f as int) <= 255 * (d as int))
            by (nonlinear_arith)
            requires
                c0 <= 255,
                c1 <= 255,
                0 <= f as int <= d as int,
        {}
        assert(255 * (d as int) / (d as int) == 255) by (nonlinear_arith)
            requires
                0 < d as int,
        {}
        vstd::arithmetic::div_mod::lemma_div_is_ordered(num as int, 255 * (d as int), d as int);
    }
    (num / d) as u8
}

/// Computes the canvas color of one column.
fn column_color(colors: &Vec<Color>, w: u32, x: u32) -> (c: Color)
    requires
        x < w,
    ensures
        c == canvas_color(colors@, w as int, x as int),
{
    let n = colors.len();
    if n == 0 {
        Color { r: 0, g: 0, b: 0, a: 255 }
    } else if n == 1 || w == 1 {
        colors[0]
    } else {
        let d: u128 = (w - 1) as u128;
        proof {
            assert((x as int) * ((n - 1) as int) <= 0xFFFF_FFFF * 0xFFFF_FFFF_FFFF_FFFF)
                by (nonlinear_arith)
                requires
                    0 <= x as int <= 0xFFFF_FFFF,
                    0 <= (n - 1) as int <= 0xFFFF_FFFF_FFFF_FFFF,
            {}
        }
        let pos: u128 = (x as u128) * ((n - 1) as u128);
        let q: u128 = pos / d;
        let seg: usize = if q <= (n - 2) as u128 {
            q as usize
        } else {
            n - 2
        };
        proof {
            let pi = pos as int;
            let di = d as int;
            let qi = q as int;
            let si = seg as int;
            vstd::arithmetic::div_mod::lemma_fundamental_div_mod(pi, di);
            vstd::arithmetic::div_mod::lemma_mod_bound(pi, di);
            assert(di * qi == qi * di) by (nonlinear_arith);
            if si < qi {
                // the clamped case: seg == n - 2 < pos / d
                assert(si * di <= (qi - 1) * di) by (nonlinear_arith)
                    requires
                        si <= qi - 1,
                        0 < di,
                {}
                assert((qi - 1) * di == qi * di - di) by (nonlinear_arith);
                assert(si * di <= pi - di);
                // pos <= (n - 1) * d, so pos - (n - 2) * d <= d
                assert((x as int) * ((n - 1) as int) <= ((w - 1) as int) * ((n - 1) as int))
                    by (nonlinear_arith)
                    requires
                        0 <= x as int <= (w - 1) as int,
                        0 <= (n - 1) as int,
                {}
                assert(((w - 1) as int) * ((n - 1) as int) == ((n - 2) as int) * ((w - 1) as int)
                    + ((w - 1) as int)) by (nonlinear_arith);
                assert(pi - si * di <= di);
            } else {
                assert(si * di == qi * di);
                assert(si * di <= pi);
                assert(pi - si * di < di);
            }
            assert(si * di <= pi);
            assert(pi - si * di <= di);
        }
        let f: u128 = pos - (seg as u128) * d;
        let c0 = colors[seg];
        let c1 = colors[seg + 1];
        Color {
            r: lerp_exec(c0.r, c1.r, f, d),
            g: lerp_exec(c0.g, c1.g, f, d),
            b: lerp_exec(c0.b, c1.b, f, d),
            a: lerp_exec(c0.a, c1.a, f, d),
        }
    }
}

/// Builds the base background canvas for the given color stops: opaque black
/// for no stops, a uniform fill for one, and a horizontal multi-stop gradient
/// for more, vertically invariant in every case.
pub fn get_background(colors: &Vec<Color>, w: u32, h: u32) -> (bg: PixelBuffer)
    requires
        4 * (w as int) * (h as int) <= usize::MAX as int,
    ensures
        bg.wf(),
        bg.width == w,
        bg.height == h,
        forall|x: int, y: int| bg.valid_xy(x, y) ==> bg.pix(x, y) == color_pixel(
            canvas_color(colors@, w as int, x),
        ),
{
    let mut data: Vec<u8> = Vec::new();
    let mut y: u32 = 0;
    while y < h
        invariant
            y <= h,
            data.len() == 4 * ((y as int) * (w as int)),
            4 * (w as int) * (h as int) <= usize::MAX as int,
            forall|i: int, j: int| 0 <= i < w && 0 <= j < y ==> pix_at(data@, w as int, i, j)
                == color_pixel(canvas_color(colors@, w as int, i)),
        decreases h - y,
    {
        let mut x: u32 = 0;
        while x < w
            invariant
                x <= w,
                y < h,
                data.len() == 4 * ((y as int) * (w as int) + (x as int)),
                4 * (w as int) * (h as int) <= usize::MAX as int,
                forall|i: int, j: int| 0 <= i < w && 0 <= j < y ==> pix_at(data@, w as int, i, j)
                    == color_pixel(canvas_color(colors@, w as int, i)),
                forall|i: int| 0 <= i < x ==> pix_at(data@, w as int, i, y as int) == color_pixel(
                    canvas_color(colors@, w as int, i),
                ),
            decreases w - x,
        {
            let ghost prev = data@;
            let c = column_color(colors, w, x);
            proof {
                lemma_rowmajor_bound(w as int, h as int, x as int, y as int);
                assert(4 * ((w as int) * (h as int)) == 4 * (w as int) * (h as int))
                    by (nonlinear_arith);
            }
            push_pixel(&mut data, Pixel { r: c.r, g: c.g, b: c.b, a: c.a });
            proof {
                let wi = w as int;
                assert forall|i: int, j: int|
                    0 <= i < w && (0 <= j < y || (j == y as int && 0 <= i < x + 1)) implies pix_at(
                    data@,
                    wi,
                    i,
                    j,
                ) == color_pixel(canvas_color(colors@, wi, i)) by {
                    if j < y || i < x {
                        lemma_rowmajor_lt(wi, i, j, x as int, y as int);
                        assert(4 * (j * wi + i) + 3 < prev.len());
                        assert(pix_at(data@, wi, i, j) == pix_at(prev, wi, i, j));
                        assert(pix_at(prev, wi, i, j) == color_pixel(canvas_color(colors@, wi, i)));
                    } else {
                        assert(pix_at(data@, wi, i, j) == color_pixel(
                            canvas_color(colors@, wi, i),
                        ));
                    }
                }
            }
            x += 1;
        }
        proof {
            assert(((y as int) + 1) * (w as int) == (y as int) * (w as int) + (w as int))
                by (nonlinear_arith);
        }
        y += 1;
    }
    proof {
        assert(4 * ((h as int) * (w as int)) == 4 * (w as int) * (h as int)) by (nonlinear_arith);
    }
    PixelBuffer { width: w, height: h, data }
}

} // verus!
