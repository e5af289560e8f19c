use vstd::prelude::*;

use vstd::arithmetic::div_mod::lemma_div_by_multiple;

use crate::compositor::{blend_chan, blend_pix, lemma_blend_chan_bound};
use crate::pixbuf::{lemma_pixelwise_eq, lemma_rowmajor_bound, lemma_rowmajor_lt, pix_at,
    push_pixel, Pixel, PixelBuffer};

verus! {

/// A pixel with its alpha attenuated by `scale / 255`, truncating; the color
/// channels are untouched.
pub open spec fn attenuate_pix(p: Pixel, scale: u8) -> Pixel {
    Pixel { r: p.r, g: p.g, b: p.b, a: ((p.a as int) * (scale as int) / 255) as u8 }
}

/// `dst` is `src` with every pixel's alpha attenuated by `scale / 255`.
pub open spec fn is_attenuated_of(dst: PixelBuffer, src: PixelBuffer, scale: u8) -> bool {
    &&& dst.wf()
    &&& src.wf()
    &&& dst.width == src.width
    &&& dst.height == src.height
    &&& forall|x: int, y: int| dst.valid_xy(x, y) ==> dst.pix(x, y) == attenuate_pix(
        src.pix(x, y),
        scale,
    )
}

/// `dst` is `src` with the row order reversed.
pub open spec fn is_vflip_of(dst: PixelBuffer, src: PixelBuffer) -> bool {
    &&& dst.wf()
    &&& src.wf()
    &&& dst.width == src.width
    &&& dst.height == src.height
    &&& forall|x: int, y: int| dst.valid_xy(x, y) ==> dst.pix(x, y) == src.pix(
        x,
        src.height as int - 1 - y,
    )
}

/// `dst` is `src` with the column order reversed within each row.
pub open spec fn is_hflip_of(dst: PixelBuffer, src: PixelBuffer) -> bool {
    &&& dst.wf()
    &&& src.wf()
    &&& dst.width == src.width
    &&& dst.height == src.height
    &&& forall|x: int, y: int| dst.valid_xy(x, y) ==> dst.pix(x, y) == src.pix(
        src.width as int - 1 - x,
        y,
    )
}

/// Multiplies every pixel's alpha channel by `scale / 255`, in place. Applied
/// to the foreground before the `over` blend, never after it.
pub fn attenuate_alpha(buf: &mut PixelBuffer, scale: u8)
    requires
        old(buf).wf(),
    ensures
        is_attenuated_of(*final(buf), *old(buf), scale),
{
    let w = buf.width;
    let h = buf.height;
    let mut data: Vec<u8> = Vec::new();
    let mut y: u32 = 0;
    while y < h
        invariant
            y <= h,
            w == buf.width,
            h == buf.height,
            buf == old(buf),
            buf.wf(),
            data.len() == 4 * ((y as int) * (w as int)),
            forall|i: int, j: int| 0 <= i < w && 0 <= j < y ==> pix_at(data@, w as int, i, j)
                == attenuate_pix(old(buf).pix(i, j), scale),
        decreases h - y,
    {
        let mut x: u32 = 0;
        while x < w
            invariant
                x <= w,
                y < h,
                w == buf.width,
                h == buf.height,
                buf == old(buf),
                buf.wf(),
                data.len() == 4 * ((y as int) * (w as int) + (x as int)),
                forall|i: int, j: int| 0 <= i < w && 0 <= j < y ==> pix_at(data@, w as int, i, j)
                    == attenuate_pix(old(buf).pix(i, j), scale),
                forall|i: int| 0 <= i < x ==> pix_at(data@, w as int, i, y as int)
                    == attenuate_pix(old(buf).pix(i, y as int), scale),
            decreases w - x,
        {
            let ghost prev = data@;
            let p = buf.get_pixel(x, y);
            proof {
                lemma_blend_chan_bound(p.a as int, 0, scale as int);
                assert((p.a as int) * (scale as int) + 0 * (255 - scale as int) == (p.a as int) * (
                scale as int));
                lemma_rowmajor_bound(w as int, h as int, x as int, y as int);
                assert(4 * ((w as int) * (h as int)) == 4 * (w as int) * (h as int))
                    by (nonlinear_arith);
            }
            let na = (((p.a as u32) * (scale as u32)) / 255) as u8;
            push_pixel(&mut data, Pixel { r: p.r, g: p.g, b: p.b, a: na });
            proof {
                let wi = w as int;
                assert forall|i: int, j: int|
                    0 <= i < w && (0 <= j < y || (j == y as int && 0 <= i < x + 1)) implies pix_at(
                    data@,
                    wi,
                    i,
                    j,
                ) == attenuate_pix(old(buf).pix(i, j), scale) by {
                    if j < y || i < x {
                        lemma_rowmajor_lt(wi, i, j, x as int, y as int);
                        assert(4 * (j * wi + i) + 3 < prev.len());
                        assert(pix_at(data@, wi, i, j) == pix_at(prev, wi, i, j));
                    } else {
                        assert(pix_at(data@, wi, i, j) == attenuate_pix(old(buf).pix(i, j), scale));
                    }
                }
            }
            x += 1;
        }
        proof {
            assert(((y as int) + 1) * (w as int) == (y as int) * (w as int) + (w as int))
                by (nonlinear_arith);
        }
        y += 1;
    }
    proof {
        assert(4 * ((h as int) * (w as int)) == 4 * (w as int) * (h as int)) by (nonlinear_arith);
    }
    buf.data = data;
}

/// Reverses the row order, in place.
pub fn flip_vertical(buf: &mut PixelBuffer)
    requires
        old(buf).wf(),
    ensures
        is_vflip_of(*final(buf), *old(buf)),
{
    let w = buf.width;
    let h = buf.height;
    let mut data: Vec<u8> = Vec::new();
    let mut y: u32 = 0;
    while y < h
        invariant
            y <= h,
            w == buf.width,
            h == buf.height,
            buf == old(buf),
            buf.wf(),
            data.len() == 4 * ((y as int) * (w as int)),
            forall|i: int, j: int| 0 <= i < w && 0 <= j < y ==> pix_at(data@, w as int, i, j)
                == old(buf).pix(i, h as int - 1 - j),
        decreases h - y,
    {
        let mut x: u32 = 0;
        while x < w
            invariant
                x <= w,
                y < h,
                w == buf.width,
                h == buf.height,
                buf == old(buf),
                buf.wf(),
                data.len() == 4 * ((y as int) * (w as int) + (x as int)),
                forall|i: int, j: int| 0 <= i < w && 0 <= j < y ==> pix_at(data@, w as int, i, j)
                    == old(buf).pix(i, h as int - 1 - j),
                forall|i: int| 0 <= i < x ==> pix_at(data@, w as int, i, y as int) == old(buf).pix(
                    i,
                    h as int - 1 - y as int,
                ),
            decreases w - x,
        {
            let ghost prev = data@;
            let p = buf.get_pixel(x, h - 1 - y);
            proof {
                lemma_rowmajor_bound(w as int, h as int, x as int, y as int);
                assert(4 * ((w as int) * (h as int)) == 4 * (w as int) * (h as int))
                    by (nonlinear_arith);
            }
            push_pixel(&mut data, p);
            proof {
                let wi = w as int;
                assert forall|i: int, j: int|
                    0 <= i < w && (0 <= j < y || (j == y as int && 0 <= i < x + 1)) implies pix_at(
                    data@,
                    wi,
                    i,
                    j,
                ) == old(buf).pix(i, h as int - 1 - j) by {
                    if j < y || i < x {
                        lemma_rowmajor_lt(wi, i, j, x as int, y as int);
                        assert(4 * (j * wi + i) + 3 < prev.len());
                        assert(pix_at(data@, wi, i, j) == pix_at(prev, wi, i, j));
                    } else {
                        assert(pix_at(data@, wi, i, j) == p);
                    }
                }
            }
            x += 1;
        }
        proof {
            assert(((y as int) + 1) * (w as int) == (y as int) * (w as int) + (w as int))
                by (nonlinear_arith);
        }
        y += 1;
    }
    proof {
        assert(4 * ((h as int) * (w as int)) == 4 * (w as int) * (h as int)) by (nonlinear_arith);
    }
    buf.data = data;
}

/// Reverses the column order within each row, in place.
pub fn flip_horizontal(buf: &mut PixelBuffer)
    requires
        old(buf).wf(),
    ensures
        is_hflip_of(*final(buf), *old(buf)),
{
    let w = buf.width;
    let h = buf.height;
    let mut data: Vec<u8> = Vec::new();
    let mut y: u32 = 0;
    while y < h
        invariant
            y <= h,
            w == buf.width,
            h == buf.height,
            buf == old(buf),
            buf.wf(),
            data.len() == 4 * ((y as int) * (w as int)),
            forall|i: int, j: int| 0 <= i < w && 0 <= j < y ==> pix_at(data@, w as int, i, j)
                == old(buf).pix(w as int - 1 - i, j),
        decreases h - y,
    {
        let mut x: u32 = 0;
        while x < w
            invariant
                x <= w,
                y < h,
                w == buf.width,
                h == buf.height,
                buf == old(buf),
                buf.wf(),
                data.len() == 4 * ((y as int) * (w as int) + (x as int)),
                forall|i: int, j: int| 0 <= i < w && 0 <= j < y ==> pix_at(data@, w as int, i, j)
                    == old(buf).pix(w as int - 1 - i, j),
                forall|i: int| 0 <= i < x ==> pix_at(data@, w as int, i, y as int) == old(buf).pix(
                    w as int - 1 - i,
                    y as int,
                ),
            decreases w - x,
        {
            let ghost prev = data@;
            let p = buf.get_pixel(w - 1 - x, y);
            proof {
                lemma_rowmajor_bound(w as int, h as int, x as int, y as int);
                assert(4 * ((w as int) * (h as int)) == 4 * (w as int) * (h as int))
                    by (nonlinear_arith);
            }
            push_pixel(&mut data, p);
            proof {
                let wi = w as int;
                assert forall|i: int, j: int|
                    0 <= i < w && (0 <= j < y || (j == y as int && 0 <= i < x + 1)) implies pix_at(
                    data@,
                    wi,
                    i,
                    j,
                ) == old(buf).pix(wi - 1 - i, j) by {
                    if j < y || i < x {
                        lemma_rowmajor_lt(wi, i, j, x as int, y as int);
                        assert(4 * (j * wi + i) + 3 < prev.len());
                        assert(pix_at(data@, wi, i, j) == pix_at(prev, wi, i, j));
                    } else {
                        assert(pix_at(data@, wi, i, j) == p);
                    }
                }
            }
            x += 1;
        }
        proof {
            assert(((y as int) + 1) * (w as int) == (y as int) * (w as int) + (w as int))
                by (nonlinear_arith);
        }
        y += 1;
    }
    proof {
        assert(4 * ((h as int) * (w as int)) == 4 * (w as int) * (h as int)) by (nonlinear_arith);
    }
    buf.data = data;
}

/// The two axis flips commute: flipping vertically then horizontally yields
/// the same buffer, byte for byte, as flipping horizontally then vertically.
pub proof fn lemma_flip_order_immaterial(
    a: PixelBuffer,
    vfirst: PixelBuffer,
    vh: PixelBuffer,
    hfirst: PixelBuffer,
    hv: PixelBuffer,
)
    requires
        is_vflip_of(vfirst, a),
        is_hflip_of(vh, vfirst),
        is_hflip_of(hfirst, a),
        is_vflip_of(hv, hfirst),
    ensures
        vh.width == hv.width,
        vh.height == hv.height,
        vh.data@ =~= hv.data@,
{
    let w = a.width as int;
    let h = a.height as int;
    assert forall|x: int, y: int| vh.valid_xy(x, y) implies vh.pix(x, y) == hv.pix(x, y) by {
        assert(vh.pix(x, y) == vfirst.pix(w - 1 - x, y));
        assert(vfirst.pix(w - 1 - x, y) == a.pix(w - 1 - x, h - 1 - y));
        assert(hv.pix(x, y) == hfirst.pix(x, h - 1 - y));
        assert(hfirst.pix(x, h - 1 - y) == a.pix(w - 1 - x, h - 1 - y));
    }
    lemma_pixelwise_eq(vh, hv);
}

/// Alpha attenuation is linear: a fully opaque pixel attenuated to alpha
/// `scale` and blended over an opaque black background yields each color
/// channel scaled to `channel * scale / 255`, truncating.
pub proof fn lemma_alpha_attenuation_linear(p: Pixel, scale: u8)
    requires
        p.a == 255,
    ensures
        ({
            let black = Pixel { r: 0, g: 0, b: 0, a: 255 };
            let out = blend_pix(attenuate_pix(p, scale), black);
            &&& out.r as int == (p.r as int) * (scale as int) / 255
            &&& out.g as int == (p.g as int) * (scale as int) / 255
            &&& out.b as int == (p.b as int) * (scale as int) / 255
        }),
{
    lemma_div_by_multiple(scale as int, 255);
    assert((scale as int) * 255 == 255 * (scale as int)) by (nonlinear_arith);
    let att = attenuate_pix(p, scale);
    assert(att.a == scale);
    assert forall|c: u8| true implies blend_chan(c, 0, scale) as int == (c as int) * (scale as int)
        / 255 by {
        lemma_blend_chan_bound(c as int, 0, scale as int);
        assert((c as int) * (scale as int) + 0 * (255 - scale as int) == (c as int) * (
        scale as int));
    }
}

} // verus!
