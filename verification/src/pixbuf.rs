use vstd::prelude::*;

verus! {

/// One RGBA pixel, 8 bits per channel.
#[derive(Clone, Copy, Debug, PartialEq, Eq, Structural)]
pub struct Pixel {
    pub r: u8,
    pub g: u8,
    pub b: u8,
    pub a: u8,
}

/// A width x height image held as row-major RGBA bytes.
///
/// The buffer flows by exclusive ownership through the pipeline: the canvas
/// builder produces one, the compositor and the transforms mutate it, and the
/// publisher packs it for transport.
pub struct PixelBuffer {
    pub width: u32,
    pub height: u32,
    pub data: Vec<u8>,
}

/// The pixel stored at column `x`, row `y` of row-major RGBA bytes of width `w`.
pub open spec fn pix_at(data: Seq<u8>, w: int, x: int, y: int) -> Pixel {
    Pixel {
        r: data[4 * (y * w + x)],
        g: data[4 * (y * w + x) + 1],
        b: data[4 * (y * w + x) + 2],
        a: data[4 * (y * w + x) + 3],
    }
}

impl PixelBuffer {
    /// The buffer invariant: the byte vector holds exactly width x height pixels.
    pub open spec fn wf(&self) -> bool {
        self.data.len() == 4 * (self.width as int) * (self.height as int)
    }

    /// `(x, y)` lies inside the buffer.
    pub open spec fn valid_xy(&self, x: int, y: int) -> bool {
        0 <= x < self.width as int && 0 <= y < self.height as int
    }

    /// The pixel at `(x, y)`.
    pub open spec fn pix(&self, x: int, y: int) -> Pixel {
        pix_at(self.data@, self.width as int, x, y)
    }

    /// Reads the pixel at `(x, y)`.
    pub fn get_pixel(&self, x: u32, y: u32) -> (p: Pixel)
        requires
            self.wf(),
            self.valid_xy(x as int, y as int),
        ensures
            p == self.pix(x as int, y as int),
    {
        let len = self.data.len();
        proof {
            let w = self.width as int;
            let h = self.height as int;
            lemma_rowmajor_bound(w, h, x as int, y as int);
            assert(4 * (w * h) == 4 * w * h) by (nonlinear_arith);
            assert((y as int) * w + (x as int) < w * h);
            assert(4 * ((y as int) * w + (x as int)) + 3 < len as int);
        }
        let i: usize = 4 * ((y as usize) * (self.width as usize) + (x as usize));
        Pixel { r: self.data[i], g: self.data[i + 1], b: self.data[i + 2], a: self.data[i + 3] }
    }
}

/// Appends one pixel's four bytes to a row-major byte vector.
pub fn push_pixel(data: &mut Vec<u8>, p: Pixel)
    ensures
        final(data)@ =~= old(data)@ + seq![p.r, p.g, p.b, p.a],
{
    data.push(p.r);
    data.push(p.g);
    data.push(p.b);
    data.push(p.a);
}

/// A valid coordinate's row-major rank lies below the pixel count.
pub proof fn lemma_rowmajor_bound(w: int, h: int, x: int, y: int)
    requires
        0 <= x < w,
        0 <= y < h,
    ensures
        0 <= y * w + x,
        y * w + x < w * h,
{
    assert(0 <= y * w + x && y * w + x < w * h) by (nonlinear_arith)
        requires
            0 <= x < w,
            0 <= y < h,
    {}
}

/// Row-major order: an earlier coordinate (above, or same row further left)
/// has a strictly smaller rank.
pub proof fn lemma_rowmajor_lt(w: int, i: int, j: int, x: int, y: int)
    requires
        0 <= i < w,
        0 <= j,
        0 <= x,
        j < y || (j == y && i < x),
    ensures
        0 <= j * w + i,
        j * w + i < y * w + x,
{
    assert(0 <= j * w + i && j * w + i < y * w + x) by (nonlinear_arith)
        requires
            0 <= i < w,
            0 <= j,
            0 <= x,
            j < y || (j == y && i < x),
    {}
}

/// Two well-formed buffers of the same dimensions whose pixels agree everywhere
/// hold identical bytes.
pub proof fn lemma_pixelwise_eq(a: PixelBuffer, b: PixelBuffer)
    requires
        a.wf(),
        b.wf(),
        a.width == b.width,
        a.height == b.height,
        forall|x: int, y: int| a.valid_xy(x, y) ==> a.pix(x, y) == b.pix(x, y),
    ensures
        a.data@ =~= b.data@,
{
    let w = a.width as int;
    let h = a.height as int;
    assert forall|k: int| 0 <= k < a.data@.len() implies a.data@[k] == b.data@[k] by {
        assert(w > 0) by (nonlinear_arith)
            requires
                0 <= k,
                k < 4 * w * h,
                0 <= w,
        {}
        let y = k / (4 * w);
        let r = k % (4 * w);
        let x = r / 4;
        let c = r % 4;
        vstd::arithmetic::div_mod::lemma_fundamental_div_mod(k, 4 * w);
        vstd::arithmetic::div_mod::lemma_mod_bound(k, 4 * w);
        vstd::arithmetic::div_mod::lemma_fundamental_div_mod(r, 4);
        vstd::arithmetic::div_mod::lemma_mod_bound(r, 4);
        assert(0 <= y && y < h) by (nonlinear_arith)
            requires
                k == 4 * w * y + r,
                0 <= r < 4 * w,
                0 <= k,
                k < 4 * w * h,
                w > 0,
        {}
        assert(0 <= x && x < w) by (nonlinear_arith)
            requires
                r == 4 * x + c,
                0 <= c < 4,
                0 <= r,
                r < 4 * w,
        {}
        assert(k == 4 * (y * w + x) + c) by (nonlinear_arith)
            requires
                k == 4 * w * y + r,
                r == 4 * x + c,
        {}
        assert(a.valid_xy(x, y));
        assert(a.pix(x, y) == b.pix(x, y));
        if c == 0 {
            assert(a.pix(x, y).r == b.pix(x, y).r);
        } else if c == 1 {
            assert(a.pix(x, y).g == b.pix(x, y).g);
        } else if c == 2 {
            assert(a.pix(x, y).b == b.pix(x, y).b);
        } else {
            assert(a.pix(x, y).a == b.pix(x, y).a);
        }
    };
}

} // verus!
