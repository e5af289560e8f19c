use vstd::prelude::*;

use vstd::arithmetic::div_mod::{lemma_div_by_multiple, lemma_div_is_ordered,
    lemma_div_pos_is_pos, lemma_mod_bound, lemma_multiply_divide_lt};

use crate::pixbuf::{lemma_rowmajor_bound, lemma_rowmajor_lt, pix_at, push_pixel, Pixel,
    PixelBuffer};

verus! {

/// How the foreground is placed on the canvas. Exactly one mode is active per
/// invocation.
#[derive(Clone, Copy, Debug, PartialEq, Eq, Structural)]
pub enum BackgroundMode {
    /// Place unscaled at the canvas center; crop symmetrically where larger.
    Center,
    /// Resize to the canvas dimensions, ignoring aspect ratio.
    Stretch,
    /// Scale preserving aspect ratio until the canvas is covered, then center.
    Fill,
    /// Place unscaled at the origin; discard what falls outside.
    Full,
    /// Repeat from the origin until the canvas is covered.
    Tile,
}

/// One channel of the `over` operator: the foreground weighted by its alpha,
/// the background by the remainder, truncating.
pub open spec fn blend_chan(fgc: u8, bgc: u8, a: u8) -> u8 {
    (((fgc as int) * (a as int) + (bgc as int) * (255 - a as int)) / 255) as u8
}

/// The alpha of the `over` operator.
pub open spec fn blend_alpha(fga: u8, bga: u8) -> u8 {
    (fga as int + (bga as int) * (255 - fga as int) / 255) as u8
}

/// The `over` operator on whole pixels, weighted by the foreground's alpha.
pub open spec fn blend_pix(fg: Pixel, bg: Pixel) -> Pixel {
    Pixel {
        r: blend_chan(fg.r, bg.r, fg.a),
        g: blend_chan(fg.g, bg.g, fg.a),
        b: blend_chan(fg.b, bg.b, fg.a),
        a: blend_alpha(fg.a, bg.a),
    }
}

/// A weighted channel average stays a channel.
pub proof fn lemma_blend_chan_bound(fgc: int, bgc: int, a: int)
    requires
        0 <= fgc <= 255,
        0 <= bgc <= 255,
        0 <= a <= 255,
    ensures
        0 <= (fgc * a + bgc * (255 - a)) / 255 <= 255,
{
    assert(0 <= fgc * a + bgc * (255 - a) <= 255 * 255) by (nonlinear_arith)
        requires
            0 <= fgc <= 255,
            0 <= bgc <= 255,
            0 <= a <= 255,
    {}
    lemma_div_is_ordered(0, fgc * a + bgc * (255 - a), 255);
    lemma_div_is_ordered(fgc * a + bgc * (255 - a), 255 * 255int, 255);
}

/// The blended alpha stays a channel.
pub proof fn lemma_blend_alpha_bound(fga: int, bga: int)
    requires
        0 <= fga <= 255,
        0 <= bga <= 255,
    ensures
        0 <= fga + bga * (255 - fga) / 255 <= 255,
{
    assert(0 <= bga * (255 - fga) <= 255 * (255 - fga)) by (nonlinear_arith)
        requires
            0 <= fga <= 255,
            0 <= bga <= 255,
    {}
    lemma_div_is_ordered(0, bga * (255 - fga), 255);
    lemma_div_is_ordered(bga * (255 - fga), 255 * (255 - fga), 255);
    assert(255 * (255 - fga) / 255 == 255 - fga) by (nonlinear_arith);
}

/// Blends a positioned foreground pixel over a background pixel.
pub fn blend_pixel(fg: Pixel, bg: Pixel) -> (r: Pixel)
    ensures
        r == blend_pix(fg, bg),
{
    proof {
        lemma_blend_chan_bound(fg.r as int, bg.r as int, fg.a as int);
        lemma_blend_chan_bound(fg.g as int, bg.g as int, fg.a as int);
        lemma_blend_chan_bound(fg.b as int, bg.b as int, fg.a as int);
        lemma_blend_alpha_bound(fg.a as int, bg.a as int);
    }
    let a = fg.a as u32;
    Pixel {
        r: (((fg.r as u32) * a + (bg.r as u32) * (255 - a)) / 255) as u8,
        g: (((fg.g as u32) * a + (bg.g as u32) * (255 - a)) / 255) as u8,
        b: (((fg.b as u32) * a + (bg.b as u32) * (255 - a)) / 255) as u8,
        a: (fg.a as u32 + (bg.a as u32) * (255 - a) / 255) as u8,
    }
}

/// Nearest-neighbor source coordinate: destination coordinate `x` out of `dw`
/// samples source coordinate `x * sw / dw` out of `sw`.
pub open spec fn scale_src(x: int, sw: int, dw: int) -> int {
    x * sw / dw
}

/// The scaled size used by Fill mode: the foreground is enlarged or shrunk
/// preserving aspect ratio to the smallest size that covers the canvas on both
/// axes; the tighter axis matches the canvas exactly, the other rounds up.
pub open spec fn fill_dims(fw: int, fh: int, cw: int, ch: int) -> (int, int)
    recommends
        fw > 0,
        fh > 0,
        cw > 0,
        ch > 0,
{
    if cw * fh >= ch * fw {
        (cw, (fh * cw + fw - 1) / fw)
    } else {
        ((fw * ch + fh - 1) / fh, ch)
    }
}

/// Center placement along one axis: the foreground coordinate shown at canvas
/// coordinate `x`, or `None` where the background border shows. A larger
/// foreground is cropped symmetrically, a smaller one is centered, offsets
/// truncating.
pub open spec fn center_axis_src(fdim: int, cdim: int, x: int) -> Option<int> {
    if fdim >= cdim {
        Some(x + (fdim - cdim) / 2)
    } else {
        let off = (cdim - fdim) / 2;
        if off <= x && x < off + fdim {
            Some(x - off)
        } else {
            None
        }
    }
}

/// The foreground coordinate that covers canvas pixel `(x, y)` under the given
/// mode, or `None` where the background shows through.
pub open spec fn mode_source(
    mode: BackgroundMode,
    fw: int,
    fh: int,
    cw: int,
    ch: int,
    x: int,
    y: int,
) -> Option<(int, int)>
    recommends
        fw > 0,
        fh > 0,
        cw > 0,
        ch > 0,
        0 <= x < cw,
        0 <= y < ch,
{
    match mode {
        BackgroundMode::Full => if x < fw && y < fh {
            Some((x, y))
        } else {
            None
        },
        BackgroundMode::Stretch => Some((scale_src(x, fw, cw), scale_src(y, fh, ch))),
        BackgroundMode::Fill => {
            let dims = fill_dims(fw, fh, cw, ch);
            let xc = (dims.0 - cw) / 2;
            let yc = (dims.1 - ch) / 2;
            Some((scale_src(x + xc, fw, dims.0), scale_src(y + yc, fh, dims.1)))
        },
        BackgroundMode::Center => {
            match (center_axis_src(fw, cw, x), center_axis_src(fh, ch, y)) {
                (Some(sx), Some(sy)) => Some((sx, sy)),
                _ => None,
            }
        },
        BackgroundMode::Tile => Some((x % fw, y % fh)),
    }
}

/// The canvas pixel after compositing the foreground over the background under
/// the given mode: blended where the placed foreground covers it, untouched
/// elsewhere.
pub open spec fn composite_pixel(
    mode: BackgroundMode,
    bg: PixelBuffer,
    fg: PixelBuffer,
    x: int,
    y: int,
) -> Pixel {
    match mode_source(
        mode,
        fg.width as int,
        fg.height as int,
        bg.width as int,
        bg.height as int,
        x,
        y,
    ) {
        Some(src) => blend_pix(fg.pix(src.0, src.1), bg.pix(x, y)),
        None => bg.pix(x, y),
    }
}

/// Center placement along one axis, executable.
fn center_axis(fdim: u32, cdim: u32, x: u32) -> (s: Option<u32>)
    requires
        fdim > 0,
        cdim > 0,
        x < cdim,
    ensures
        s is Some <==> center_axis_src(fdim as int, cdim as int, x as int) is Some,
        s matches Some(v) ==> center_axis_src(fdim as int, cdim as int, x as int) == Some(v as int)
            && v < fdim,
{
    if fdim >= cdim {
        let half = (fdim - cdim) / 2;
        assert(half <= fdim - cdim);
        Some(x + half)
    } else {
        let off = (cdim - fdim) / 2;
        assert(off <= cdim - fdim);
        if off <= x && x < off + fdim {
            Some(x - off)
        } else {
            None
        }
    }
}

/// The source coordinate of one canvas pixel under the given mode, executable.
fn source_coord(mode: BackgroundMode, fw: u32, fh: u32, cw: u32, ch: u32, x: u32, y: u32) -> (s:
    Option<(u32, u32)>)
    requires
        fw > 0,
        fh > 0,
        cw > 0,
        ch > 0,
        x < cw,
        y < ch,
    ensures
        s is Some <==> mode_source(
            mode,
            fw as int,
            fh as int,
            cw as int,
            ch as int,
            x as int,
            y as int,
        ) is Some,
        s matches Some(e) ==> mode_source(
            mode,
            fw as int,
            fh as int,
            cw as int,
            ch as int,
            x as int,
            y as int,
        ) == Some((e.0 as int, e.1 as int)) && e.0 < fw && e.1 < fh,
{
    match mode {
        BackgroundMode::Full => {
            if x < fw && y < fh {
                Some((x, y))
            } else {
                None
            }
        },
        BackgroundMode::Stretch => {
            proof {
                assert((x as int) * (fw as int) <= 0xFFFF_FFFF * 0xFFFF_FFFF && (y as int) * (
                fh as int) <= 0xFFFF_FFFF * 0xFFFF_FFFF) by (nonlinear_arith)
                    requires
                        0 <= (x as int) <= 0xFFFF_FFFF,
                        0 <= (fw as int) <= 0xFFFF_FFFF,
                        0 <= (y as int) <= 0xFFFF_FFFF,
                        0 <= (fh as int) <= 0xFFFF_FFFF,
                {}
            }
            let sx = ((x as u64) * (fw as u64)) / (cw as u64);
            let sy = ((y as u64) * (fh as u64)) / (ch as u64);
            proof {
                assert((x as int) * (fw as int) < (cw as int) * (fw as int)) by (nonlinear_arith)
                    requires
                        0 <= (x as int) < (cw as int),
                        0 < (fw as int),
                {}
                lemma_multiply_divide_lt((x as int) * (fw as int), cw as int, fw as int);
                assert((y as int) * (fh as int) < (ch as int) * (fh as int)) by (nonlinear_arith)
                    requires
                        0 <= (y as int) < (ch as int),
                        0 < (fh as int),
                {}
                lemma_multiply_divide_lt((y as int) * (fh as int), ch as int, fh as int);
            }
            Some((sx as u32, sy as u32))
        },
        BackgroundMode::Fill => {
            let fwu = fw as u64;
            let fhu = fh as u64;
            let cwu = cw as u64;
            let chu = ch as u64;
            proof {
                assert((cw as int) * (fh as int) <= 0xFFFF_FFFF * 0xFFFF_FFFF && (ch as int) * (
                fw as int) <= 0xFFFF_FFFF * 0xFFFF_FFFF && (fh as int) * (cw as int) <= 0xFFFF_FFFF
                    * 0xFFFF_FFFF && (fw as int) * (ch as int) <= 0xFFFF_FFFF * 0xFFFF_FFFF)
                    by (nonlinear_arith)
                    requires
                        0 <= (cw as int) <= 0xFFFF_FFFF,
                        0 <= (fh as int) <= 0xFFFF_FFFF,
                        0 <= (ch as int) <= 0xFFFF_FFFF,
                        0 <= (fw as int) <= 0xFFFF_FFFF,
                {}
            }
            let covers_w = cwu * fhu >= chu * fwu;
            let sw: u64 = if covers_w {
                cwu
            } else {
                (fwu * chu + fhu - 1) / fhu
            };
            let sh: u64 = if covers_w {
                (fhu * cwu + fwu - 1) / fwu
            } else {
                chu
            };
            proof {
                assert((cw as int) * (fh as int) == (fh as int) * (cw as int) && (ch as int) * (
                fw as int) == (fw as int) * (ch as int)) by (nonlinear_arith);
                if covers_w {
                    lemma_div_by_multiple(ch as int, fw as int);
                    lemma_div_is_ordered(
                        (ch as int) * (fw as int),
                        (fh as int) * (cw as int) + (fw as int) - 1,
                        fw as int,
                    );
                    assert(sh as int >= ch as int);
                } else {
                    lemma_div_by_multiple(cw as int, fh as int);
                    lemma_div_is_ordered(
                        (cw as int) * (fh as int),
                        (fw as int) * (ch as int) + (fh as int) - 1,
                        fh as int,
                    );
                    assert(sw as int >= cw as int);
                }
            }
            let xc = (sw - cwu) / 2;
            let yc = (sh - chu) / 2;
            proof {
                assert(xc as int <= sw as int - cw as int);
                assert(yc as int <= sh as int - ch as int);
                assert(((x as int) + (xc as int)) * (fw as int) <= (sw as int) * (fw as int)
                    && ((x as int) + (xc as int)) * (fw as int) < (fw as int) * (sw as int)
                    && (sw as int) * (fw as int) <= 0xFFFF_FFFF_FFFF_FFFF * 0xFFFF_FFFF)
                    by (nonlinear_arith)
                    requires
                        0 <= (x as int) + (xc as int) < sw as int,
                        0 < (fw as int),
                        (sw as int) <= 0xFFFF_FFFF_FFFF_FFFF,
                        (fw as int) <= 0xFFFF_FFFF,
                {}
                lemma_multiply_divide_lt(((x as int) + (xc as int)) * (fw as int), sw as int,
                    fw as int);
                assert(((y as int) + (yc as int)) * (fh as int) <= (sh as int) * (fh as int)
                    && ((y as int) + (yc as int)) * (fh as int) < (fh as int) * (sh as int)
                    && (sh as int) * (fh as int) <= 0xFFFF_FFFF_FFFF_FFFF * 0xFFFF_FFFF)
                    by (nonlinear_arith)
                    requires
                        0 <= (y as int) + (yc as int) < sh as int,
                        0 < (fh as int),
                        (sh as int) <= 0xFFFF_FFFF_FFFF_FFFF,
                        (fh as int) <= 0xFFFF_FFFF,
                {}
                lemma_multiply_divide_lt(((y as int) + (yc as int)) * (fh as int), sh as int,
                    fh as int);
            }
            let fx = (((x as u128) + (xc as u128)) * (fw as u128)) / (sw as u128);
            let fy = (((y as u128) + (yc as u128)) * (fh as u128)) / (sh as u128);
            Some((fx as u32, fy as u32))
        },
        BackgroundMode::Center => {
            match (center_axis(fw, cw, x), center_axis(fh, ch, y)) {
                (Some(sx), Some(sy)) => Some((sx, sy)),
                _ => None,
            }
        },
        BackgroundMode::Tile => Some((x % fw, y % fh)),
    }
}

/// Composites the foreground over the background in place under the given mode.
pub fn composite(bg: &mut PixelBuffer, fg: &PixelBuffer, mode: BackgroundMode)
    requires
        old(bg).wf(),
        fg.wf(),
        old(bg).width > 0,
        old(bg).height > 0,
        fg.width > 0,
        fg.height > 0,
    ensures
        final(bg).wf(),
        final(bg).width == old(bg).width,
        final(bg).height == old(bg).height,
        forall|x: int, y: int| final(bg).valid_xy(x, y) ==> final(bg).pix(x, y) == composite_pixel(
            mode,
            *old(bg),
            *fg,
            x,
            y,
        ),
{
    let w = bg.width;
    let h = bg.height;
    let mut data: Vec<u8> = Vec::new();
    let mut y: u32 = 0;
    while y < h
        invariant
            y <= h,
            w == bg.width,
            h == bg.height,
            bg == old(bg),
            bg.wf(),
            fg.wf(),
            fg.width > 0,
            fg.height > 0,
            w > 0,
            h > 0,
            data.len() == 4 * ((y as int) * (w as int)),
            forall|i: int, j: int| 0 <= i < w && 0 <= j < y ==> pix_at(data@, w as int, i, j)
                == composite_pixel(mode, *old(bg), *fg, i, j),
        decreases h - y,
    {
        let mut x: u32 = 0;
        while x < w
            invariant
                x <= w,
                y < h,
                w == bg.width,
                h == bg.height,
                bg == old(bg),
                bg.wf(),
                fg.wf(),
                fg.width > 0,
                fg.height > 0,
                w > 0,
                h > 0,
                data.len() == 4 * ((y as int) * (w as int) + (x as int)),
                forall|i: int, j: int| 0 <= i < w && 0 <= j < y ==> pix_at(data@, w as int, i, j)
                    == composite_pixel(mode, *old(bg), *fg, i, j),
                forall|i: int| 0 <= i < x ==> pix_at(data@, w as int, i, y as int)
                    == composite_pixel(mode, *old(bg), *fg, i, y as int),
            decreases w - x,
        {
            let ghost prev = data@;
            let bgp = bg.get_pixel(x, y);
            let p = match source_coord(mode, fg.width, fg.height, w, h, x, y) {
                Some(sc) => blend_pixel(fg.get_pixel(sc.0, sc.1), bgp),
                None => bgp,
            };
            proof {
                lemma_rowmajor_bound(w as int, h as int, x as int, y as int);
                assert(4 * ((w as int) * (h as int)) == 4 * (w as int) * (h as int))
                    by (nonlinear_arith);
            }
            push_pixel(&mut data, p);
            proof {
                let wi = w as int;
                assert(p == composite_pixel(mode, *old(bg), *fg, x as int, y as int));
                assert forall|i: int, j: int|
                    0 <= i < w && (0 <= j < y || (j == y as int && 0 <= i < x + 1)) implies pix_at(
                    data@,
                    wi,
                    i,
                    j,
                ) == composite_pixel(mode, *old(bg), *fg, i, j) by {
                    if j < y || i < x {
                        lemma_rowmajor_lt(wi, i, j, x as int, y as int);
                        assert(4 * (j * wi + i) + 3 < prev.len());
                        assert(pix_at(data@, wi, i, j) == pix_at(prev, wi, i, j));
                    } else {
                        assert(pix_at(data@, wi, i, j) == p);
                    }
                }
            }
            x += 1;
        }
        proof {
            assert(((y as int) + 1) * (w as int) == (y as int) * (w as int) + (w as int))
                by (nonlinear_arith);
        }
        y += 1;
    }
    proof {
        assert(4 * ((h as int) * (w as int)) == 4 * (w as int) * (h as int)) by (nonlinear_arith);
    }
    bg.data = data;
}

/// Center mode: the foreground unscaled at the canvas center, cropped
/// symmetrically where it is larger, surrounded by background where smaller.
pub fn center_image(bg: &mut PixelBuffer, fg: &PixelBuffer, w: u32, h: u32)
    requires
        old(bg).wf(),
        fg.wf(),
        old(bg).width == w,
        old(bg).height == h,
        w > 0,
        h > 0,
        fg.width > 0,
        fg.height > 0,
    ensures
        final(bg).wf(),
        final(bg).width == w,
        final(bg).height == h,
        forall|x: int, y: int| final(bg).valid_xy(x, y) ==> final(bg).pix(x, y) == composite_pixel(
            BackgroundMode::Center,
            *old(bg),
            *fg,
            x,
            y,
        ),
{
    composite(bg, fg, BackgroundMode::Center);
}

/// Stretch mode: the foreground resized to the full canvas, aspect ignored.
pub fn stretch_image(bg: &mut PixelBuffer, fg: &PixelBuffer, w: u32, h: u32)
    requires
        old(bg).wf(),
        fg.wf(),
        old(bg).width == w,
        old(bg).height == h,
        w > 0,
        h > 0,
        fg.width > 0,
        fg.height > 0,
    ensures
        final(bg).wf(),
        final(bg).width == w,
        final(bg).height == h,
        forall|x: int, y: int| final(bg).valid_xy(x, y) ==> final(bg).pix(x, y) == composite_pixel(
            BackgroundMode::Stretch,
            *old(bg),
            *fg,
            x,
            y,
        ),
{
    composite(bg, fg, BackgroundMode::Stretch);
}

/// Fill mode: the foreground scaled preserving aspect ratio until it covers
/// the canvas, centered, the overflow cropped.
pub fn fill_image(bg: &mut PixelBuffer, fg: &PixelBuffer, w: u32, h: u32)
    requires
        old(bg).wf(),
        fg.wf(),
        old(bg).width == w,
        old(bg).height == h,
        w > 0,
        h > 0,
        fg.width > 0,
        fg.height > 0,
    ensures
        final(bg).wf(),
        final(bg).width == w,
        final(bg).height == h,
        forall|x: int, y: int| final(bg).valid_xy(x, y) ==> final(bg).pix(x, y) == composite_pixel(
            BackgroundMode::Fill,
            *old(bg),
            *fg,
            x,
            y,
        ),
{
    composite(bg, fg, BackgroundMode::Fill);
}

/// Full mode: the foreground unscaled at the origin, the rest discarded.
pub fn full_image(bg: &mut PixelBuffer, fg: &PixelBuffer, w: u32, h: u32)
    requires
        old(bg).wf(),
        fg.wf(),
        old(bg).width == w,
        old(bg).height == h,
        w > 0,
        h > 0,
        fg.width > 0,
        fg.height > 0,
    ensures
        final(bg).wf(),
        final(bg).width == w,
        final(bg).height == h,
        forall|x: int, y: int| final(bg).valid_xy(x, y) ==> final(bg).pix(x, y) == composite_pixel(
            BackgroundMode::Full,
            *old(bg),
            *fg,
            x,
            y,
        ),
{
    composite(bg, fg, BackgroundMode::Full);
}

/// Tile mode: the foreground repeated from the origin until the canvas is
/// covered, the last row and column of tiles clipped at the boundary.
pub fn tile_image(bg: &mut PixelBuffer, fg: &PixelBuffer, w: u32, h: u32)
    requires
        old(bg).wf(),
        fg.wf(),
        old(bg).width == w,
        old(bg).height == h,
        w > 0,
        h > 0,
        fg.width > 0,
        fg.height > 0,
    ensures
        final(bg).wf(),
        final(bg).width == w,
        final(bg).height == h,
        forall|x: int, y: int| final(bg).valid_xy(x, y) ==> final(bg).pix(x, y) == composite_pixel(
            BackgroundMode::Tile,
            *old(bg),
            *fg,
            x,
            y,
        ),
{
    composite(bg, fg, BackgroundMode::Tile);
}

/// Blending a fully opaque foreground pixel replaces the background pixel.
pub proof fn lemma_opaque_blend(fg: Pixel, bg: Pixel)
    requires
        fg.a == 255,
    ensures
        blend_pix(fg, bg) == fg,
{
    lemma_div_by_multiple(fg.r as int, 255);
    lemma_div_by_multiple(fg.g as int, 255);
    lemma_div_by_multiple(fg.b as int, 255);
    assert((fg.r as int) * 255 == (fg.r as int) * (fg.a as int)) by (nonlinear_arith)
        requires
            fg.a == 255,
    {}
    assert((fg.g as int) * 255 == (fg.g as int) * (fg.a as int)) by (nonlinear_arith)
        requires
            fg.a == 255,
    {}
    assert((fg.b as int) * 255 == (fg.b as int) * (fg.a as int)) by (nonlinear_arith)
        requires
            fg.a == 255,
    {}
}

/// A nearest-neighbor source coordinate stays inside the source.
pub proof fn lemma_scale_src_range(x: int, sw: int, dw: int)
    requires
        0 <= x < dw,
        0 < sw,
    ensures
        0 <= scale_src(x, sw, dw) < sw,
{
    assert(0 <= x * sw && x * sw < dw * sw) by (nonlinear_arith)
        requires
            0 <= x < dw,
            0 < sw,
    {}
    lemma_div_pos_is_pos(x * sw, dw);
    lemma_multiply_divide_lt(x * sw, dw, sw);
}

/// Whatever the mode, the source coordinate it yields for a canvas pixel lies
/// inside the foreground.
pub proof fn lemma_mode_source_range(
    mode: BackgroundMode,
    fw: int,
    fh: int,
    cw: int,
    ch: int,
    x: int,
    y: int,
)
    requires
        fw > 0,
        fh > 0,
        cw > 0,
        ch > 0,
        0 <= x < cw,
        0 <= y < ch,
    ensures
        mode_source(mode, fw, fh, cw, ch, x, y) matches Some(s) ==> 0 <= s.0 < fw && 0 <= s.1 < fh,
{
    match mode {
        BackgroundMode::Full => {},
        BackgroundMode::Stretch => {
            lemma_scale_src_range(x, fw, cw);
            lemma_scale_src_range(y, fh, ch);
        },
        BackgroundMode::Fill => {
            let dims = fill_dims(fw, fh, cw, ch);
            let sw = dims.0;
            let sh = dims.1;
            assert(cw * fh == fh * cw && ch * fw == fw * ch) by (nonlinear_arith);
            if cw * fh >= ch * fw {
                lemma_div_by_multiple(ch, fw);
                lemma_div_is_ordered(ch * fw, fh * cw + fw - 1, fw);
                assert(sw == cw && sh >= ch);
                lemma_div_pos_is_pos(fh * cw + fw - 1, fw);
            } else {
                lemma_div_by_multiple(cw, fh);
                lemma_div_is_ordered(cw * fh, fw * ch + fh - 1, fh);
                assert(sh == ch && sw >= cw);
                lemma_div_pos_is_pos(fw * ch + fh - 1, fh);
            }
            let xc = (sw - cw) / 2;
            let yc = (sh - ch) / 2;
            assert(0 <= xc <= sw - cw);
            assert(0 <= yc <= sh - ch);
            lemma_scale_src_range(x + xc, fw, sw);
            lemma_scale_src_range(y + yc, fh, sh);
        },
        BackgroundMode::Center => {},
        BackgroundMode::Tile => {
            lemma_mod_bound(x, fw);
            lemma_mod_bound(y, fh);
        },
    }
}

/// A foreground of the canvas's own size, fully opaque, composited in Stretch
/// or Full mode reproduces the foreground exactly, pixel for pixel: the opaque
/// `over` blend ignores the background.
pub proof fn lemma_opaque_same_size_identity(
    bg: PixelBuffer,
    fg: PixelBuffer,
    mode: BackgroundMode,
)
    requires
        bg.wf(),
        fg.wf(),
        fg.width == bg.width,
        fg.height == bg.height,
        bg.width > 0,
        bg.height > 0,
        mode == BackgroundMode::Stretch || mode == BackgroundMode::Full,
        forall|x: int, y: int| fg.valid_xy(x, y) ==> fg.pix(x, y).a == 255,
    ensures
        forall|x: int, y: int| bg.valid_xy(x, y) ==> composite_pixel(mode, bg, fg, x, y) == fg.pix(
            x,
            y,
        ),
{
    let fw = fg.width as int;
    let fh = fg.height as int;
    assert forall|x: int, y: int| bg.valid_xy(x, y) implies composite_pixel(mode, bg, fg, x, y)
        == fg.pix(x, y) by {
        if mode == BackgroundMode::Stretch {
            lemma_div_by_multiple(x, fw);
            lemma_div_by_multiple(y, fh);
            assert(scale_src(x, fw, fw) == x);
            assert(scale_src(y, fh, fh) == y);
        }
        assert(mode_source(mode, fw, fh, bg.width as int, bg.height as int, x, y) == Some((x, y)));
        assert(fg.valid_xy(x, y));
        assert(fg.pix(x, y).a == 255);
        lemma_opaque_blend(fg.pix(x, y), bg.pix(x, y));
    }
}

/// Center mode with a fully opaque foreground at least as large as the canvas
/// on both axes crops symmetrically: every canvas pixel comes from the
/// foreground's centered canvas-sized window, and no background shows through.
pub proof fn lemma_center_crop_covers(bg: PixelBuffer, fg: PixelBuffer)
    requires
        bg.wf(),
        fg.wf(),
        fg.width >= bg.width,
        fg.height >= bg.height,
        bg.width > 0,
        bg.height > 0,
        forall|x: int, y: int| fg.valid_xy(x, y) ==> fg.pix(x, y).a == 255,
    ensures
        forall|x: int, y: int| bg.valid_xy(x, y) ==> composite_pixel(
            BackgroundMode::Center,
            bg,
            fg,
            x,
            y,
        ) == fg.pix(
            x + (fg.width - bg.width) as int / 2,
            y + (fg.height - bg.height) as int / 2,
        ),
{
    let fw = fg.width as int;
    let fh = fg.height as int;
    let cw = bg.width as int;
    let ch = bg.height as int;
    assert forall|x: int, y: int| bg.valid_xy(x, y) implies composite_pixel(
        BackgroundMode::Center,
        bg,
        fg,
        x,
        y,
    ) == fg.pix(x + (fw - cw) / 2, y + (fh - ch) / 2) by {
        let sx = x + (fw - cw) / 2;
        let sy = y + (fh - ch) / 2;
        assert(center_axis_src(fw, cw, x) == Some(sx));
        assert(center_axis_src(fh, ch, y) == Some(sy));
        assert(0 <= (fw - cw) / 2 <= fw - cw);
        assert(0 <= (fh - ch) / 2 <= fh - ch);
        assert(fg.valid_xy(sx, sy));
        lemma_opaque_blend(fg.pix(sx, sy), bg.pix(x, y));
    }
}

} // verus!
