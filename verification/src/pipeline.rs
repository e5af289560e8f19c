use vstd::prelude::*;

use crate::canvas::{canvas_color, color_pixel, get_background};
use crate::color::Color;
use crate::compositor::{blend_pix, center_image, fill_image, full_image, lemma_mode_source_range,
    mode_source, stretch_image, tile_image, BackgroundMode};
use crate::error::WallError;
use crate::pixbuf::{Pixel, PixelBuffer};
use crate::transform::{attenuate_alpha, attenuate_pix, flip_horizontal, flip_vertical};

verus! {

/// Everything one composition run needs besides the decoded foreground: the
/// canvas color stops and size, the placement mode, and the final transforms.
pub struct BackgroundOptions {
    pub colors: Vec<Color>,
    pub alpha: Option<u8>,
    pub w: u32,
    pub h: u32,
    pub mode: BackgroundMode,
    pub vflip: bool,
    pub hflip: bool,
}

/// A pixel after the optional alpha attenuation.
pub open spec fn spec_attenuated(p: Pixel, alpha: Option<u8>) -> Pixel {
    match alpha {
        Some(s) => attenuate_pix(p, s),
        None => p,
    }
}

/// The composited image before the flips: the canvas pixel of the column,
/// blended under the attenuated foreground wherever the mode places it.
pub open spec fn base_pixel(opts: BackgroundOptions, fgopt: Option<PixelBuffer>, x: int, y: int) -> Pixel {
    let bgp = color_pixel(canvas_color(opts.colors@, opts.w as int, x));
    match fgopt {
        None => bgp,
        Some(fg) => match mode_source(
            opts.mode,
            fg.width as int,
            fg.height as int,
            opts.w as int,
            opts.h as int,
            x,
            y,
        ) {
            Some(src) => blend_pix(spec_attenuated(fg.pix(src.0, src.1), opts.alpha), bgp),
            None => bgp,
        },
    }
}

/// The column read for output column `x` under an optional horizontal flip.
pub open spec fn flip_coord(x: int, dim: int, flip: bool) -> int {
    if flip {
        dim - 1 - x
    } else {
        x
    }
}

/// The pixel of the finished image: the composited image read with the row
/// and column order reversed as the flip flags ask.
pub open spec fn final_pixel(
    opts: BackgroundOptions,
    fgopt: Option<PixelBuffer>,
    x: int,
    y: int,
) -> Pixel {
    base_pixel(
        opts,
        fgopt,
        flip_coord(x, opts.w as int, opts.hflip),
        flip_coord(y, opts.h as int, opts.vflip),
    )
}

/// The composition pipeline: builds the canvas, attenuates and composites the
/// decoded foreground under the selected mode, and applies the flips.
///
/// Fails with `DegenerateGeometry` exactly when a foreground is to be placed
/// and either it or the canvas has a zero dimension; without a foreground the
/// canvas alone is produced, flipped.
pub fn get_image_data(opts: BackgroundOptions, foreground: Option<PixelBuffer>) -> (r: Result<
    PixelBuffer,
    WallError,
>)
    requires
        4 * (opts.w as int) * (opts.h as int) <= usize::MAX as int,
        foreground matches Some(f) ==> f.wf(),
    ensures
        r is Err <==> (foreground matches Some(f) && (opts.w == 0 || opts.h == 0 || f.width == 0
            || f.height == 0)),
        r matches Err(e) ==> e == WallError::DegenerateGeometry,
        r matches Ok(out) ==> {
            &&& out.wf()
            &&& out.width == opts.w
            &&& out.height == opts.h
            &&& forall|x: int, y: int| out.valid_xy(x, y) ==> out.pix(x, y) == final_pixel(
                opts,
                foreground,
                x,
                y,
            )
        },
{
    let ghost fg0 = foreground;
    let mut image = get_background(&opts.colors, opts.w, opts.h);
    match foreground {
        Some(mut fg) => {
            if opts.w == 0 || opts.h == 0 || fg.width == 0 || fg.height == 0 {
                return Err(WallError::DegenerateGeometry);
            }
            let ghost fg_orig = fg;
            if let Some(a) = opts.alpha {
                attenuate_alpha(&mut fg, a);
            }
            let ghost canvas = image;
            match opts.mode {
                BackgroundMode::Center => center_image(&mut image, &fg, opts.w, opts.h),
                BackgroundMode::Stretch => stretch_image(&mut image, &fg, opts.w, opts.h),
                BackgroundMode::Fill => fill_image(&mut image, &fg, opts.w, opts.h),
                BackgroundMode::Full => full_image(&mut image, &fg, opts.w, opts.h),
                BackgroundMode::Tile => tile_image(&mut image, &fg, opts.w, opts.h),
            }
            proof {
                assert forall|x: int, y: int| image.valid_xy(x, y) implies image.pix(x, y)
                    == base_pixel(opts, fg0, x, y) by {
                    lemma_mode_source_range(
                        opts.mode,
                        fg_orig.width as int,
                        fg_orig.height as int,
                        opts.w as int,
                        opts.h as int,
                        x,
                        y,
                    );
                    match mode_source(
                        opts.mode,
                        fg_orig.width as int,
                        fg_orig.height as int,
                        opts.w as int,
                        opts.h as int,
                        x,
                        y,
                    ) {
                        Some(src) => {
                            assert(fg_orig.valid_xy(src.0, src.1));
                            assert(fg.pix(src.0, src.1) == spec_attenuated(
                                fg_orig.pix(src.0, src.1),
                                opts.alpha,
                            ));
                        },
                        None => {},
                    }
                }
            }
        },
        None => {},
    }
    let ghost composed = image;
    assert(forall|x: int, y: int| composed.valid_xy(x, y) ==> composed.pix(x, y) == base_pixel(
        opts,
        fg0,
        x,
        y,
    ));
    if opts.vflip {
        flip_vertical(&mut image);
    }
    let ghost vdone = image;
    assert(forall|x: int, y: int| vdone.valid_xy(x, y) ==> vdone.pix(x, y) == base_pixel(
        opts,
        fg0,
        x,
        flip_coord(y, opts.h as int, opts.vflip),
    ));
    if opts.hflip {
        flip_horizontal(&mut image);
    }
    assert(forall|x: int, y: int| image.valid_xy(x, y) ==> image.pix(x, y) == final_pixel(
        opts,
        fg0,
        x,
        y,
    ));
    Ok(image)
}

} // verus!
