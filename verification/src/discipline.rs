//! What the deposits of one stroke add up to.

use crate::document::stack_size;
use crate::painting::aimed;
use crate::renderer::{BrushState, Renderer};
use crate::stroke::{
    blend_agrees, law_a_stroke_shows_its_coverage, law_peak_is_the_maximum, peak, shows_coverage,
    texel, Splat,
};
use vstd::prelude::*;

verus! {

/// Every splat of `t` is one of `s`, or lies under one: the same texel, covered no more.
pub open spec fn covers(s: Seq<Splat>, t: Seq<Splat>) -> bool {
    forall|j: int| 0 <= j < t.len() ==> lies_under(s, #[trigger] t[j])
}

pub open spec fn lies_under(s: Seq<Splat>, x: Splat) -> bool {
    exists|i: int| 0 <= i < s.len() && (#[trigger] s[i]).texel == x.texel && x.cov <= s[i].cov
}

/// Every splat brings the same colour.
pub open spec fn solid(s: Seq<Splat>, color: Seq<u8>) -> bool {
    forall|i: int| 0 <= i < s.len() ==> (#[trigger] s[i]).src@ == color
}

impl BrushState {
    /// The colour that splats of one colour lay down: into a mask its level.
    pub open spec fn laid_color(self, color: Seq<u8>) -> Seq<u8> {
        if self.on_mask() {
            seq![self.mask_level(), self.mask_level(), self.mask_level()]
        } else {
            color
        }
    }
}

impl<F> Renderer<F> {
    /// Every texel of the image that is painted into shows what the running stroke made of
    /// `base`: the colour laid over it once, at the texel's coverage, or the base itself where
    /// the texel is not covered.
    pub open spec fn stroke_shows(
        &self,
        base: Seq<u8>,
        color: Seq<u8>,
        f: spec_fn(Seq<u8>, Seq<u8>, u32) -> Seq<u8>,
    ) -> bool {
        let px = self.doc@.canvas(self.brush.on_mask());
        forall|t: int|
            0 <= t < self.buffers.texels() ==> #[trigger] shows_coverage(
                self.buffers,
                px,
                base,
                color,
                f,
                t,
            )
    }

    /// The stroke covers every texel as much as the other one does.
    pub open spec fn covers_as(&self, other: &Renderer<F>) -> bool {
        &&& self.buffers.texels() == other.buffers.texels()
        &&& forall|t: int|
            0 <= t < self.buffers.texels() ==> #[trigger] self.buffers.covered(t)
                == other.buffers.covered(t)
    }
}

proof fn lemma_same_texels(a: Seq<u8>, b: Seq<u8>, n: int)
    requires
        a.len() == 4 * n,
        b.len() == 4 * n,
        forall|t: int| 0 <= t < n ==> #[trigger] texel(a, t) == texel(b, t),
    ensures
        a == b,
{
    assert forall|i: int| 0 <= i < a.len() implies a[i] == b[i] by {
        assert(texel(a, i / 4) == texel(b, i / 4));
        assert(texel(a, i / 4)[i % 4] == a[i]);
        assert(texel(b, i / 4)[i % 4] == b[i]);
    }
    assert(a =~= b);
}

/// A splat under one of the list is covered by the list's peak.
proof fn lemma_under_peak(s: Seq<Splat>, t: Seq<Splat>, c0: u32, c1: u32, x: int)
    requires
        covers(s, t),
        c1 >= peak(s, c0, x, s.len() as int),
    ensures
        peak(t, c1, x, t.len() as int) == c1,
{
    law_peak_is_the_maximum(s, c0, x, s.len() as int);
    law_peak_is_the_maximum(t, c1, x, t.len() as int);
    let p = peak(t, c1, x, t.len() as int);
    if p != c1 {
        let j = choose|j: int|
            0 <= j < t.len() && (#[trigger] t[j]).texel == x && t[j].cov == p;
        assert(lies_under(s, t[j]));
        let i = choose|i: int|
            0 <= i < s.len() && (#[trigger] s[i]).texel == t[j].texel && t[j].cov <= s[i].cov;
        assert(s[i].cov <= peak(s, c0, x, s.len() as int));
    }
}

proof fn lemma_same_peak(s: Seq<Splat>, t: Seq<Splat>, c0: u32, x: int)
    requires
        covers(s, t),
        covers(t, s),
    ensures
        peak(s, c0, x, s.len() as int) == peak(t, c0, x, t.len() as int),
{
    law_peak_is_the_maximum(s, c0, x, s.len() as int);
    law_peak_is_the_maximum(t, c0, x, t.len() as int);
    lemma_below(s, t, c0, x);
    lemma_below(t, s, c0, x);
}

proof fn lemma_below(s: Seq<Splat>, t: Seq<Splat>, c0: u32, x: int)
    requires
        covers(s, t),
    ensures
        peak(t, c0, x, t.len() as int) <= peak(s, c0, x, s.len() as int),
{
    law_peak_is_the_maximum(s, c0, x, s.len() as int);
    law_peak_is_the_maximum(t, c0, x, t.len() as int);
    let p = peak(t, c0, x, t.len() as int);
    if p != c0 {
        let j = choose|j: int|
            0 <= j < t.len() && (#[trigger] t[j]).texel == x && t[j].cov == p;
        assert(lies_under(s, t[j]));
        let i = choose|i: int|
            0 <= i < s.len() && (#[trigger] s[i]).texel == t[j].texel && t[j].cov <= s[i].cov;
        assert(s[i].cov <= peak(s, c0, x, s.len() as int));
    }
}

proof fn lemma_aimed(s: Seq<Splat>, t: Seq<Splat>, brush: BrushState, color: Seq<u8>)
    ensures
        covers(s, t) ==> covers(aimed(s, brush), aimed(t, brush)),
        solid(s, color) ==> solid(aimed(s, brush), brush.laid_color(color)),
{
    let (a, b) = (aimed(s, brush), aimed(t, brush));
    if covers(s, t) {
        assert forall|j: int| 0 <= j < b.len() implies lies_under(a, #[trigger] b[j]) by {
            assert(lies_under(s, t[j]));
            let i = choose|i: int|
                0 <= i < s.len() && (#[trigger] s[i]).texel == t[j].texel && t[j].cov <= s[i].cov;
            assert(a[i].texel == b[j].texel && b[j].cov <= a[i].cov);
        }
    }
    if solid(s, color) {
        assert forall|i: int| 0 <= i < a.len() implies (#[trigger] a[i]).src@
            == brush.laid_color(color) by {
            if brush.on_mask() {
                let v = brush.mask_level();
                assert([v, v, v]@ =~= seq![v, v, v]);
            } else {
                assert(s[i].src@ == color);
            }
        }
    }
}

proof fn lemma_laid_again<F, B: Fn([u8; 4], [u8; 3], u32) -> [u8; 4]>(
    r0: Renderer<F>,
    r1: Renderer<F>,
    r2: Renderer<F>,
    mask: bool,
    s: Seq<Splat>,
    t: Seq<Splat>,
    blend: B,
)
    requires
        r0.wf(),
        r1.laid_by(&r0, mask, s, blend),
        r2.laid_by(&r1, mask, t, blend),
        covers(s, t),
    ensures
        r2.doc@ == r1.doc@,
        r2.covers_as(&r1),
{
    let n = r0.buffers.texels();
    let (px0, px1, px2) = (r0.doc@.canvas(mask), r1.doc@.canvas(mask), r2.doc@.canvas(mask));
    assert(r0.doc@.stack.active_layer().sized(stack_size(r0.doc@.stack)));
    assert(px0.len() == 4 * n);
    assert forall|x: int| 0 <= x < n implies #[trigger] texel(px2, x) == texel(px1, x)
        && r2.buffers.covered(x) == r1.buffers.covered(x) by {
        let c0 = r0.buffers.covered(x);
        let c1 = r1.buffers.covered(x);
        assert(c1 == peak(s, c0, x, s.len() as int));
        lemma_under_peak(s, t, c0, c1, x);
        law_peak_is_the_maximum(t, c1, x, t.len() as int);
        assert(r2.buffers.covered(x) == peak(t, c1, x, t.len() as int));
    }
    assert forall|x: int| 0 <= x < n implies #[trigger] r2.buffers.covered(x)
        == r1.buffers.covered(x) by {
        assert(texel(px2, x) == texel(px1, x));
    }
    lemma_same_texels(px2, px1, n);
    assert(r2.doc@.stack.layers =~= r1.doc@.stack.layers);
}

/// Depositing the same splats again within a stroke changes no pixel and no coverage, in
/// whatever order and however often they come the second time, nor do splats that cover
/// their texels less.
pub proof fn law_depositing_again_changes_nothing<
    F,
    B: Fn([u8; 4], [u8; 3], u32) -> [u8; 4],
    C: Fn([u8; 4], [u8; 3], u32) -> [u8; 4],
>(
    r0: Renderer<F>,
    r1: Renderer<F>,
    r2: Renderer<F>,
    splats: Seq<Splat>,
    again: Seq<Splat>,
    erase: bool,
    blend: B,
    rub: C,
)
    requires
        r0.wf(),
        r1.dabbed_from(&r0, splats, erase, blend, rub),
        r2.dabbed_from(&r1, again, erase, blend, rub),
        covers(splats, again),
    ensures
        r2.doc@ == r1.doc@,
        r2.covers_as(&r1),
{
    let mask = r0.brush.on_mask();
    if erase && !mask {
        lemma_laid_again(r0, r1, r2, false, splats, again, rub);
    } else {
        lemma_aimed(splats, again, r0.brush, Seq::empty());
        lemma_laid_again(
            r0,
            r1,
            r2,
            mask,
            aimed(splats, r0.brush),
            aimed(again, r0.brush),
            blend,
        );
    }
}

/// A stroke begins from the image as it is.
pub proof fn law_a_fresh_stroke_shows_the_image<F>(
    r: Renderer<F>,
    color: Seq<u8>,
    f: spec_fn(Seq<u8>, Seq<u8>, u32) -> Seq<u8>,
)
    requires
        r.stroke_fresh(),
    ensures
        r.stroke_shows(r.doc@.canvas(r.brush.on_mask()), color, f),
{
    let px = r.doc@.canvas(r.brush.on_mask());
    assert forall|t: int| 0 <= t < r.buffers.texels() implies #[trigger] shows_coverage(
        r.buffers,
        px,
        px,
        color,
        f,
        t,
    ) by {
        assert(!r.buffers.touched(t));
    }
}

proof fn lemma_laid_shows<F, B: Fn([u8; 4], [u8; 3], u32) -> [u8; 4]>(
    r0: Renderer<F>,
    r1: Renderer<F>,
    s: Seq<Splat>,
    blend: B,
    f: spec_fn(Seq<u8>, Seq<u8>, u32) -> Seq<u8>,
    base: Seq<u8>,
    color: Seq<u8>,
)
    requires
        r1.laid_by(&r0, r0.brush.on_mask(), s, blend),
        r0.stroke_shows(base, color, f),
        blend_agrees(blend, f),
        solid(s, color),
    ensures
        r1.stroke_shows(base, color, f),
        r1.buffers.texels() == r0.buffers.texels(),
        forall|t: int|
            0 <= t < r0.buffers.texels() ==> #[trigger] r1.buffers.covered(t) == peak(
                s,
                r0.buffers.covered(t),
                t,
                s.len() as int,
            ),
{
    let mask = r0.brush.on_mask();
    let (px0, px1) = (r0.doc@.canvas(mask), r1.doc@.canvas(mask));
    assert forall|t: int| 0 <= t < r1.buffers.texels() implies #[trigger] shows_coverage(
        r1.buffers,
        px1,
        base,
        color,
        f,
        t,
    ) by {
        assert(shows_coverage(r0.buffers, px0, base, color, f, t));
        let c = r1.buffers.covered(t);
        let at = texel(px1, t);
        law_a_stroke_shows_its_coverage(
            r0.buffers,
            r1.buffers,
            px0,
            px1,
            base,
            s,
            color,
            f,
            t,
        );
    }
}

/// A stroke in one colour depends on its coverage alone: after any deposit every texel is
/// the pre-stroke value with the colour laid over it once, or rubbed once, at the largest
/// coverage the stroke brought to it, and a texel that was never covered is as before the
/// stroke.
pub proof fn law_deposits_show_the_largest_coverage<
    F,
    B: Fn([u8; 4], [u8; 3], u32) -> [u8; 4],
    C: Fn([u8; 4], [u8; 3], u32) -> [u8; 4],
>(
    r0: Renderer<F>,
    r1: Renderer<F>,
    splats: Seq<Splat>,
    erase: bool,
    blend: B,
    rub: C,
    f: spec_fn(Seq<u8>, Seq<u8>, u32) -> Seq<u8>,
    base: Seq<u8>,
    color: Seq<u8>,
)
    requires
        r1.dabbed_from(&r0, splats, erase, blend, rub),
        solid(splats, color),
        if erase && !r0.brush.on_mask() {
            blend_agrees(rub, f)
        } else {
            blend_agrees(blend, f)
        },
        r0.stroke_shows(base, r0.brush.laid_color(color), f),
    ensures
        r1.stroke_shows(base, r0.brush.laid_color(color), f),
        r1.buffers.texels() == r0.buffers.texels(),
        forall|t: int|
            0 <= t < r0.buffers.texels() ==> #[trigger] r1.buffers.covered(t) == peak(
                splats,
                r0.buffers.covered(t),
                t,
                splats.len() as int,
            ),
{
    let brush = r0.brush;
    if erase && !brush.on_mask() {
        lemma_laid_shows(r0, r1, splats, rub, f, base, color);
    } else {
        let laid = aimed(splats, brush);
        lemma_aimed(splats, splats, brush, color);
        lemma_laid_shows(r0, r1, laid, blend, f, base, brush.laid_color(color));
        assert(covers(splats, laid)) by {
            assert forall|j: int| 0 <= j < laid.len() implies lies_under(
                splats,
                #[trigger] laid[j],
            ) by {
                assert(splats[j].texel == laid[j].texel && laid[j].cov <= splats[j].cov);
            }
        }
        assert(covers(laid, splats)) by {
            assert forall|j: int| 0 <= j < splats.len() implies lies_under(
                laid,
                #[trigger] splats[j],
            ) by {
                assert(laid[j].texel == splats[j].texel && splats[j].cov <= laid[j].cov);
            }
        }
        assert forall|t: int| 0 <= t < r0.buffers.texels() implies #[trigger] r1.buffers.covered(t)
            == peak(splats, r0.buffers.covered(t), t, splats.len() as int) by {
            lemma_same_peak(laid, splats, r0.buffers.covered(t), t);
        }
    }
}

/// Within a stroke in one colour neither the order of the splats nor their repetition
/// matters: the same splats, in another order or more than once, give the same pixels.
pub proof fn law_the_order_of_splats_does_not_matter<
    F,
    B: Fn([u8; 4], [u8; 3], u32) -> [u8; 4],
    C: Fn([u8; 4], [u8; 3], u32) -> [u8; 4],
>(
    r0: Renderer<F>,
    a: Renderer<F>,
    b: Renderer<F>,
    s: Seq<Splat>,
    t: Seq<Splat>,
    erase: bool,
    blend: B,
    rub: C,
    f: spec_fn(Seq<u8>, Seq<u8>, u32) -> Seq<u8>,
    base: Seq<u8>,
    color: Seq<u8>,
)
    requires
        r0.wf(),
        a.dabbed_from(&r0, s, erase, blend, rub),
        b.dabbed_from(&r0, t, erase, blend, rub),
        covers(s, t),
        covers(t, s),
        solid(s, color),
        solid(t, color),
        if erase && !r0.brush.on_mask() {
            blend_agrees(rub, f)
        } else {
            blend_agrees(blend, f)
        },
        r0.stroke_shows(base, r0.brush.laid_color(color), f),
    ensures
        a.doc@ == b.doc@,
        a.covers_as(&b),
{
    let mask = r0.brush.on_mask();
    let c = r0.brush.laid_color(color);
    let n = r0.buffers.texels();
    let (pa, pb) = (a.doc@.canvas(mask), b.doc@.canvas(mask));
    law_deposits_show_the_largest_coverage(r0, a, s, erase, blend, rub, f, base, color);
    law_deposits_show_the_largest_coverage(r0, b, t, erase, blend, rub, f, base, color);
    assert(r0.doc@.stack.active_layer().sized(stack_size(r0.doc@.stack)));
    assert forall|x: int| 0 <= x < n implies #[trigger] a.buffers.covered(x)
        == b.buffers.covered(x) by {
        lemma_same_peak(s, t, r0.buffers.covered(x), x);
        assert(b.buffers.covered(x) == peak(t, r0.buffers.covered(x), x, t.len() as int));
    }
    assert forall|x: int| 0 <= x < n implies #[trigger] texel(pa, x) == texel(pb, x) by {
        assert(shows_coverage(a.buffers, pa, base, c, f, x));
        assert(shows_coverage(b.buffers, pb, base, c, f, x));
        assert(a.buffers.covered(x) == b.buffers.covered(x));
    }
    lemma_same_texels(pa, pb, n);
}

} // verus!
