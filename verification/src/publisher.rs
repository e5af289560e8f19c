use vstd::prelude::*;

use crate::pixbuf::{lemma_rowmajor_bound, lemma_rowmajor_lt, Pixel, PixelBuffer};

verus! {

/// The 32-bit transport encoding of one pixel: red, green and blue packed into
/// the low three bytes, most significant first. Alpha is not transmitted; its
/// effect was already baked in by the compositing blend.
pub open spec fn spec_pack_rgb(r: u8, g: u8, b: u8) -> u32 {
    ((r as int) * 0x1_0000 + (g as int) * 0x100 + (b as int)) as u32
}

/// The transport encoding of a pixel.
pub open spec fn spec_pack(p: Pixel) -> u32 {
    spec_pack_rgb(p.r, p.g, p.b)
}

/// Packs one pixel's color channels into the transport word.
pub fn pack_pixel(r: u8, g: u8, b: u8) -> (p: u32)
    ensures
        p == spec_pack_rgb(r, g, b),
{
    let ru = r as u32;
    let gu = g as u32;
    let bu = b as u32;
    proof {
        assert((ru << 16) | (gu << 8) | bu == ru * 0x1_0000 + gu * 0x100 + bu) by (bit_vector)
            requires
                ru < 256,
                gu < 256,
                bu < 256,
        {}
    }
    (ru << 16) | (gu << 8) | bu
}

/// Packs a whole buffer, row-major, into transport words, one per pixel.
pub fn pack_buffer(buf: &PixelBuffer) -> (v: Vec<u32>)
    requires
        buf.wf(),
    ensures
        v@.len() == (buf.height as int) * (buf.width as int),
        forall|x: int, y: int| buf.valid_xy(x, y) ==> v@[y * (buf.width as int) + x] == spec_pack(
            buf.pix(x, y),
        ),
{
    let w = buf.width;
    let h = buf.height;
    let mut v: Vec<u32> = Vec::new();
    let mut y: u32 = 0;
    while y < h
        invariant
            y <= h,
            w == buf.width,
            h == buf.height,
            buf.wf(),
            v@.len() == (y as int) * (w as int),
            forall|i: int, j: int| 0 <= i < w && 0 <= j < y ==> v@[j * (w as int) + i] == spec_pack(
                buf.pix(i, j),
            ),
        decreases h - y,
    {
        let mut x: u32 = 0;
        while x < w
            invariant
                x <= w,
                y < h,
                w == buf.width,
                h == buf.height,
                buf.wf(),
                v@.len() == (y as int) * (w as int) + (x as int),
                forall|i: int, j: int| 0 <= i < w && 0 <= j < y ==> v@[j * (w as int) + i]
                    == spec_pack(buf.pix(i, j)),
                forall|i: int| 0 <= i < x ==> v@[(y as int) * (w as int) + i] == spec_pack(
                    buf.pix(i, y as int),
                ),
            decreases w - x,
        {
            let ghost prev = v@;
            let p = buf.get_pixel(x, y);
            v.push(pack_pixel(p.r, p.g, p.b));
            proof {
                let wi = w as int;
                assert forall|i: int, j: int|
                    0 <= i < w && (0 <= j < y || (j == y as int && 0 <= i < x + 1)) implies v@[j
                    * wi + i] == spec_pack(buf.pix(i, j)) by {
                    if j < y || i < x {
                        lemma_rowmajor_lt(wi, i, j, x as int, y as int);
                        assert(v@[j * wi + i] == prev[j * wi + i]);
                    } else {
                        assert(v@[j * wi + i] == spec_pack(buf.pix(i, j)));
                    }
                }
            }
            x += 1;
        }
        proof {
            assert(((y as int) + 1) * (w as int) == (y as int) * (w as int) + (w as int))
                by (nonlinear_arith);
        }
        y += 1;
    }
    v
}

/// The prior pixmap that may safely be destroyed, judging from the three
/// legacy atom values: one exists only when all three atoms hold the same
/// pixmap id. Reads of the atoms are a best-effort optimistic check; the
/// underlying protocol offers no locking against a concurrent publisher.
pub open spec fn spec_cleanup_target(a0: Option<u32>, a1: Option<u32>, a2: Option<u32>) -> Option<
    u32,
> {
    match (a0, a1, a2) {
        (Some(p), Some(q), Some(r)) => if q == p && r == p {
            Some(p)
        } else {
            None
        },
        _ => None,
    }
}

/// Decides which prior pixmap, if any, the cleanup step destroys.
pub fn cleanup_target(a0: Option<u32>, a1: Option<u32>, a2: Option<u32>) -> (t: Option<u32>)
    ensures
        t == spec_cleanup_target(a0, a1, a2),
{
    match (a0, a1, a2) {
        (Some(p), Some(q), Some(r)) => if q == p && r == p {
            Some(p)
        } else {
            None
        },
        _ => None,
    }
}

/// The server-side state that the publication protocol manipulates: which
/// pixmaps are alive, what the three legacy atoms hold, and which pixmap the
/// root window's background attribute points at. This state outlives the
/// publishing client; the code that speaks the real protocol mirrors each
/// step taken on this model.
pub struct RootWindowModel {
    /// Identifiers of the pixmaps currently alive on the server.
    pub live: Vec<u32>,
    /// The first legacy atom's value, if set to a pixmap id.
    pub atom0: Option<u32>,
    /// The second legacy atom's value.
    pub atom1: Option<u32>,
    /// The third legacy atom's value.
    pub atom2: Option<u32>,
    /// The pixmap bound as the root window's background, if any.
    pub background: Option<u32>,
}

/// How one publication changes the server state: the new pixmap is created;
/// the prior pixmap is destroyed when all three legacy atoms agreed on it;
/// the atoms are rewritten to the new pixmap's id; and the root background is
/// bound to it.
pub open spec fn publish_rel(pre: RootWindowModel, post: RootWindowModel, new_id: u32) -> bool {
    &&& post.atom0 == Some(new_id)
    &&& post.atom1 == Some(new_id)
    &&& post.atom2 == Some(new_id)
    &&& post.background == Some(new_id)
    &&& post.live@ == (match spec_cleanup_target(pre.atom0, pre.atom1, pre.atom2) {
        Some(p) => pre.live@.push(new_id).filter(|id: u32| id != p),
        None => pre.live@.push(new_id)
    })
}

/// Publishes a freshly created pixmap on the model, following the protocol
/// order: create, clean up the prior pixmap, rewrite the legacy atoms, bind
/// the root background.
pub fn publish_model(m: &mut RootWindowModel, new_id: u32)
    ensures
        publish_rel(*old(m), *final(m), new_id),
{
    m.live.push(new_id);
    let target = cleanup_target(m.atom0, m.atom1, m.atom2);
    if let Some(p) = target {
        let ghost pushed = m.live@;
        let mut survivors: Vec<u32> = Vec::new();
        let n = m.live.len();
        let mut i: usize = 0;
        while i < n
            invariant
                i <= n,
                n == m.live@.len(),
                m.live@ == pushed,
                survivors@ == pushed.subrange(0, i as int).filter(|id: u32| id != p),
            decreases n - i,
        {
            let id = m.live[i];
            let ghost pre_seq = pushed.subrange(0, i as int);
            let ghost post_seq = pushed.subrange(0, i + 1 as int);
            proof {
                reveal(Seq::filter);
                assert(post_seq.drop_last() =~= pre_seq);
                assert(post_seq.last() == pushed[i as int]);
            }
            if id != p {
                survivors.push(id);
            }
            i += 1;
        }
        proof {
            assert(pushed.subrange(0, n as int) =~= pushed);
        }
        m.live = survivors;
    }
    m.atom0 = Some(new_id);
    m.atom1 = Some(new_id);
    m.atom2 = Some(new_id);
    m.background = Some(new_id);
}

/// Cleanup ordering leaves exactly one live pixmap: when the three legacy
/// atoms all point at the prior pixmap and it is the only live one, one
/// publication of a fresh pixmap destroys the prior pixmap, leaves the new
/// one as the only live pixmap, and points all three atoms and the root
/// background at it — never two live pixmaps side by side.
pub proof fn lemma_publish_replaces_prior(
    pre: RootWindowModel,
    post: RootWindowModel,
    prior: u32,
    new_id: u32,
)
    requires
        pre.atom0 == Some(prior),
        pre.atom1 == Some(prior),
        pre.atom2 == Some(prior),
        pre.live@ =~= seq![prior],
        new_id != prior,
        publish_rel(pre, post, new_id),
    ensures
        post.live@ =~= seq![new_id],
        post.atom0 == Some(new_id),
        post.atom1 == Some(new_id),
        post.atom2 == Some(new_id),
        post.background == Some(new_id),
{
    reveal(Seq::filter);
    let pred = |id: u32| id != prior;
    let pushed = pre.live@.push(new_id);
    assert(pushed =~= seq![prior, new_id]);
    assert(pushed.drop_last() =~= seq![prior]);
    assert(seq![prior].drop_last() =~= Seq::<u32>::empty());
    assert(Seq::<u32>::empty().filter(pred) =~= Seq::<u32>::empty());
    assert(seq![prior].filter(pred) =~= Seq::<u32>::empty());
    assert(pushed.filter(pred) =~= seq![new_id]);
}

} // verus!
