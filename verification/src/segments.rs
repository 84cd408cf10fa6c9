//! What the dabs of a stroke segment add up to.

use crate::fill::{kept, law_locked_paint_stays_on_the_face};
use crate::painting::{
    aimed, is_segment, is_uv_segment, segment_step, uv_marked, uv_step, Ink, ScreenDab, Touch,
};
use crate::renderer::{DabPath, Display, PaintTarget, Renderer};
use crate::stroke::{is_raised, law_peak_is_the_maximum, texel, winner, Splat};
use crate::texture::{is_bounding, texel_in, TexRect};
use vstd::prelude::*;

verus! {

/// The dab brings this splat, under the cursor or mirrored.
pub open spec fn brings(d: ScreenDab, s: Splat) -> bool {
    d.hit matches Some(h) && (h.splats@.contains(s) || (d.mirror matches Some(m)
        && m.splats@.contains(s)))
}

impl<F> Renderer<F> {
    /// Dabs are laid into the images here, and not accumulated on the GPU.
    pub open spec fn paints_here(&self) -> bool {
        !self.gpu.paint || self.brush.has_tip
    }

    /// The facets of a face lock, where it is on, are fixed, and the map that tells where
    /// they lie is at hand.
    pub open spec fn lock_settled(&self) -> bool {
        self.lock.on ==> self.lock.facets is Some && self.scene.fill_map is Some && (
        self.scene.fill_map->0).texel_facet.len() == self.buffers.texels()
    }

    /// Texel `t` may be painted: no facets are locked, or it lies on one of them.
    pub open spec fn paintable(&self, t: int) -> bool {
        self.lock.on && (self.lock.facets->0)@.len() > 0 ==> (self.lock.facets->0)@.contains(
            (self.scene.fill_map->0).texel_facet@[t],
        )
    }

    /// Nothing but the document, the stroke buffers and what is to be shown differs.
    pub open spec fn painted_on(&self, before: &Renderer<F>) -> bool {
        &&& self.buffers.texels() == before.buffers.texels()
        &&& self.brush == before.brush
        &&& self.gpu == before.gpu
        &&& self.lock == before.lock
        &&& self.scene == before.scene
        &&& self.tex_size == before.tex_size
        &&& self.pending == before.pending
        &&& self.recipe == before.recipe
    }

    /// The stroke covers no texel less than before.
    pub open spec fn covers_more(&self, before: &Renderer<F>) -> bool {
        &&& self.buffers.texels() == before.buffers.texels()
        &&& forall|t: int|
            0 <= t < before.buffers.texels() ==> #[trigger] self.buffers.covered(t)
                >= before.buffers.covered(t) && (before.buffers.touched(t)
                ==> self.buffers.touched(t))
    }

    /// The stroke covers the splat's texel at least as much as the splat does.
    pub open spec fn bears(&self, s: Splat) -> bool {
        s.texel < self.buffers.texels() && s.cov > 0 ==> self.buffers.touched(s.texel as int)
            && self.buffers.covered(s.texel as int) >= s.cov
    }

    /// The stroke bears every splat of the list.
    pub open spec fn bears_all(&self, splats: Seq<Splat>) -> bool {
        forall|s: Splat| #[trigger] splats.contains(s) ==> self.bears(s)
    }

    /// The stroke bears every splat of the dab that could be painted.
    pub open spec fn bears_dab(&self, before: &Renderer<F>, d: ScreenDab) -> bool {
        forall|s: Splat| #[trigger]
            brings(d, s) && before.paintable(s.texel as int) ==> self.bears(s)
    }

    /// Texel `t` is covered as before, and the image that is painted into has the same bytes
    /// there.
    pub open spec fn left_alone(&self, before: &Renderer<F>, t: int) -> bool {
        let mask = before.brush.target == PaintTarget::Mask;
        &&& self.buffers.covered(t) == before.buffers.covered(t)
        &&& self.buffers.touched(t) == before.buffers.touched(t)
        &&& texel(self.doc@.canvas(mask), t) == texel(before.doc@.canvas(mask), t)
    }
}

proof fn lemma_laid<F, B: Fn([u8; 4], [u8; 3], u32) -> [u8; 4]>(
    r0: Renderer<F>,
    r1: Renderer<F>,
    mask: bool,
    splats: Seq<Splat>,
    blend: B,
)
    requires
        r1.laid_by(&r0, mask, splats, blend),
    ensures
        r1.painted_on(&r0),
        r1.uv_stroke == r0.uv_stroke,
        r1.covers_more(&r0),
        forall|s: Splat| #[trigger] splats.contains(s) ==> r1.bears(s),
        forall|t: int|
            0 <= t < r0.buffers.texels() && (forall|i: int|
                0 <= i < splats.len() ==> (#[trigger] splats[i]).texel != t) ==> #[trigger]
                r1.buffers.covered(t) == r0.buffers.covered(t) && r1.buffers.touched(t)
                == r0.buffers.touched(t) && texel(r1.doc@.canvas(mask), t) == texel(
                r0.doc@.canvas(mask),
                t,
            ),
{
    let n = splats.len() as int;
    assert forall|t: int| 0 <= t < r0.buffers.texels() implies #[trigger] r1.buffers.covered(t)
        >= r0.buffers.covered(t) && (r0.buffers.touched(t) ==> r1.buffers.touched(t)) by {
        law_peak_is_the_maximum(splats, r0.buffers.covered(t), t, n);
    }
    assert forall|s: Splat| #[trigger] splats.contains(s) implies r1.bears(s) by {
        let i = choose|i: int| 0 <= i < n && splats[i] == s;
        let t = s.texel as int;
        if t < r0.buffers.texels() && s.cov > 0 {
            let c0 = r0.buffers.covered(t);
            law_peak_is_the_maximum(splats, c0, t, n);
            assert(splats[i].texel == t);
            assert(r1.buffers.covered(t) >= s.cov);
            if c0 == r1.buffers.covered(t) {
                lemma_covered_is_touched(r0, t);
            }
        }
    }
    assert forall|t: int|
        0 <= t < r0.buffers.texels() && (forall|i: int|
            0 <= i < splats.len() ==> (#[trigger] splats[i]).texel != t) implies #[trigger]
        r1.buffers.covered(t) == r0.buffers.covered(t) && r1.buffers.touched(t)
        == r0.buffers.touched(t) && texel(r1.doc@.canvas(mask), t) == texel(
        r0.doc@.canvas(mask),
        t,
    ) by {
        law_peak_is_the_maximum(splats, r0.buffers.covered(t), t, n);
    }
}

proof fn lemma_covered_is_touched<F>(r: Renderer<F>, t: int)
    requires
        r.buffers.covered(t) > 0,
    ensures
        r.buffers.touched(t),
{
    r.buffers.lemma_covered_is_touched(t);
}

/// What a deposit does to the coverage of each texel.
pub proof fn law_a_deposit_covers_its_splats<
    F,
    B: Fn([u8; 4], [u8; 3], u32) -> [u8; 4],
    C: Fn([u8; 4], [u8; 3], u32) -> [u8; 4],
>(r0: Renderer<F>, r1: Renderer<F>, splats: Seq<Splat>, erase: bool, blend: B, rub: C)
    requires
        r1.dabbed_from(&r0, splats, erase, blend, rub),
    ensures
        r1.painted_on(&r0),
        r1.uv_stroke == r0.uv_stroke,
        r1.covers_more(&r0),
        forall|s: Splat| #[trigger] splats.contains(s) ==> r1.bears(s),
        forall|t: int|
            0 <= t < r0.buffers.texels() && (forall|i: int|
                0 <= i < splats.len() ==> (#[trigger] splats[i]).texel != t) ==> #[trigger]
                r1.left_alone(&r0, t),
{
    let mask = r0.brush.target == PaintTarget::Mask;
    let laid = if erase && !mask {
        splats
    } else {
        aimed(splats, r0.brush)
    };
    if erase && !mask {
        lemma_laid(r0, r1, mask, laid, rub);
    } else {
        lemma_laid(r0, r1, mask, laid, blend);
    }
    assert forall|s: Splat| #[trigger] splats.contains(s) implies r1.bears(s) by {
        let i = choose|i: int| 0 <= i < splats.len() && splats[i] == s;
        assert(laid[i].texel == s.texel && laid[i].cov == s.cov);
        assert(laid.contains(laid[i]));
        assert(r1.bears(laid[i]));
    }
    assert forall|t: int|
        0 <= t < r0.buffers.texels() && (forall|i: int|
            0 <= i < splats.len() ==> (#[trigger] splats[i]).texel != t) implies #[trigger]
    r1.left_alone(&r0, t) by {
        assert forall|i: int| 0 <= i < laid.len() implies (#[trigger] laid[i]).texel != t by {
            assert(splats[i].texel != t);
        }
        assert(r1.buffers.covered(t) == r0.buffers.covered(t));
    }
}

proof fn lemma_surface<
    F,
    B: Fn([u8; 4], [u8; 3], u32) -> [u8; 4],
    C: Fn([u8; 4], [u8; 3], u32) -> [u8; 4],
    G: Fn(usize, &Vec<u32>) -> Option<TexRect>,
>(
    r0: Renderer<F>,
    r1: Renderer<F>,
    touch: Touch,
    ink: Ink,
    blend: B,
    rub: C,
    stamp: G,
    done: bool,
)
    requires
        r1.surface_dabbed(&r0, touch, ink, blend, rub, stamp, done),
        r0.paints_here(),
        r0.lock_settled(),
    ensures
        r1.painted_on(&r0),
        r1.covers_more(&r0),
        forall|s: Splat| #[trigger]
            touch.splats@.contains(s) && r0.paintable(s.texel as int) ==> r1.bears(s),
        forall|t: int|
            0 <= t < r0.buffers.texels() && (!r0.paintable(t) || forall|i: int|
                0 <= i < touch.splats.len() ==> (#[trigger] touch.splats@[i]).texel != t)
                ==> #[trigger] r1.left_alone(&r0, t),
{
    let all = touch.splats@;
    let laid = r0.unlocked(all);
    let confined = r0.lock.confines() && r0.scene.fill_map is Some;
    let on = |s: Splat| r0.lock.texel_admitted(&(r0.scene.fill_map->0), s.texel as int);
    if confined {
        law_locked_paint_stays_on_the_face(all, on);
        assert(laid == kept(all, on));
    }
    assert forall|s: Splat| #[trigger] all.contains(s) && r0.paintable(s.texel as int) && s.texel
        < r0.buffers.texels() implies laid.contains(s) by {
        if confined {
            assert(on(s));
        }
    }
    assert forall|i: int| 0 <= i < laid.len() implies all.contains(#[trigger] laid[i])
        && r0.paintable(laid[i].texel as int) by {
        if confined {
            assert(on(kept(all, on)[i]));
        }
    }
    let mask = r0.brush.target == PaintTarget::Mask;
    if laid.len() > 0 {
        if r0.brush.target == PaintTarget::Color && r0.brush.stamps() && !ink.erase {
            lemma_laid(r0, r1, false, laid, blend);
        } else {
            law_a_deposit_covers_its_splats(r0, r1, laid, ink.erase, blend, rub);
        }
    }
    assert forall|t: int|
        0 <= t < r0.buffers.texels() && (!r0.paintable(t) || forall|i: int|
            0 <= i < touch.splats.len() ==> (#[trigger] touch.splats@[i]).texel != t)
        implies #[trigger] r1.left_alone(&r0, t) by {
        assert forall|i: int| 0 <= i < laid.len() implies (#[trigger] laid[i]).texel != t by {
            assert(all.contains(laid[i]));
            let j = choose|j: int| 0 <= j < all.len() && all[j] == laid[i];
            assert(touch.splats@[j].texel == laid[i].texel);
        }
        if laid.len() > 0 {
            if r0.brush.target == PaintTarget::Color && r0.brush.stamps() && !ink.erase {
                assert(r1.buffers.covered(t) == r0.buffers.covered(t));
            } else {
                assert(r1.left_alone(&r0, t));
            }
        }
    }
    assert forall|s: Splat| #[trigger] all.contains(s) && r0.paintable(s.texel as int) implies
        r1.bears(s) by {
        if s.texel < r0.buffers.texels() {
            assert(laid.contains(s));
        }
    }
}

/// A dab covers every texel that its splats cover, under the cursor and mirrored, as far as
/// the face lock lets it; where it brings none, and off the locked facets, it changes nothing.
pub proof fn law_a_dab_covers_its_splats<
    F,
    B: Fn([u8; 4], [u8; 3], u32) -> [u8; 4],
    C: Fn([u8; 4], [u8; 3], u32) -> [u8; 4],
    G: Fn(usize, &Vec<u32>) -> Option<TexRect>,
>(
    r0: Renderer<F>,
    r1: Renderer<F>,
    d: ScreenDab,
    ink: Ink,
    blend: B,
    rub: C,
    stamp: G,
    done: bool,
)
    requires
        r1.stamped_from(&r0, d, ink, blend, rub, stamp, done),
        r0.paints_here(),
        r0.lock_settled(),
    ensures
        r1.painted_on(&r0),
        r1.covers_more(&r0),
        forall|s: Splat| #[trigger] brings(d, s) && r0.paintable(s.texel as int) ==> r1.bears(s),
        forall|t: int|
            0 <= t < r0.buffers.texels() && (!r0.paintable(t) || forall|s: Splat| #[trigger]
                brings(d, s) ==> s.texel != t) ==> #[trigger] r1.left_alone(&r0, t),
{
    match (d.hit, d.mirror) {
        (None, _) => {},
        (Some(h), None) => {
            let locked = choose|locked: Renderer<F>| #[trigger]
                locked.locked_from(&r0, h.tri, None) && r1.surface_dabbed(
                    &locked,
                    h,
                    ink,
                    blend,
                    rub,
                    stamp,
                    done,
                );
            assert(locked.lock == r0.lock);
            assert(locked == r0);
            lemma_surface(r0, r1, h, ink, blend, rub, stamp, done);
            assert forall|t: int|
                0 <= t < r0.buffers.texels() && (!r0.paintable(t) || forall|s: Splat| #[trigger]
                    brings(d, s) ==> s.texel != t) implies #[trigger] r1.left_alone(&r0, t) by {
                assert forall|i: int| 0 <= i < h.splats.len() && r0.paintable(t) implies (
                #[trigger] h.splats@[i]).texel != t by {
                    assert(brings(d, h.splats@[i]));
                }
            }
        },
        (Some(h), Some(m)) => {
            let (locked, mid, first, second) = choose|
                locked: Renderer<F>,
                mid: Renderer<F>,
                first: bool,
                second: bool,
            |
                #![trigger
                    locked.locked_from(&r0, h.tri, Some(m.tri)),
                    mid.surface_dabbed(&locked, h, ink, blend, rub, stamp, first),
                    r1.surface_dabbed(&mid, m, ink, blend, rub, stamp, second)]
                locked.locked_from(&r0, h.tri, Some(m.tri)) && mid.surface_dabbed(
                    &locked,
                    h,
                    ink,
                    blend,
                    rub,
                    stamp,
                    first,
                ) && r1.surface_dabbed(&mid, m, ink, blend, rub, stamp, second) && done == (first
                    || second);
            assert(locked.lock == r0.lock);
            assert(locked == r0);
            lemma_surface(r0, mid, h, ink, blend, rub, stamp, first);
            lemma_surface(mid, r1, m, ink, blend, rub, stamp, second);
            lemma_covers_more(r0, mid, r1);
            assert forall|s: Splat| #[trigger] brings(d, s) && r0.paintable(
                s.texel as int,
            ) implies r1.bears(s) by {
                if h.splats@.contains(s) {
                    assert(mid.bears(s));
                    lemma_bears_on(mid, r1, s);
                } else {
                    assert(m.splats@.contains(s) && mid.paintable(s.texel as int));
                }
            }
            assert forall|t: int|
                0 <= t < r0.buffers.texels() && (!r0.paintable(t) || forall|s: Splat| #[trigger]
                    brings(d, s) ==> s.texel != t) implies #[trigger] r1.left_alone(&r0, t) by {
                assert forall|i: int| 0 <= i < h.splats.len() && r0.paintable(t) implies (
                #[trigger] h.splats@[i]).texel != t by {
                    assert(brings(d, h.splats@[i]));
                }
                assert forall|i: int| 0 <= i < m.splats.len() && r0.paintable(t) implies (
                #[trigger] m.splats@[i]).texel != t by {
                    assert(brings(d, m.splats@[i]));
                }
                assert(mid.paintable(t) == r0.paintable(t));
                assert(mid.left_alone(&r0, t));
                assert(r1.left_alone(&mid, t));
            }
        },
    }
}

proof fn lemma_covers_more<F>(a: Renderer<F>, b: Renderer<F>, c: Renderer<F>)
    requires
        b.covers_more(&a),
        c.covers_more(&b),
    ensures
        c.covers_more(&a),
{
    assert forall|t: int| 0 <= t < a.buffers.texels() implies #[trigger] c.buffers.covered(t)
        >= a.buffers.covered(t) && (a.buffers.touched(t) ==> c.buffers.touched(t)) by {
        assert(b.buffers.covered(t) >= a.buffers.covered(t));
        assert(c.buffers.covered(t) >= b.buffers.covered(t));
    }
}

proof fn lemma_bears_on<F>(a: Renderer<F>, b: Renderer<F>, s: Splat)
    requires
        b.covers_more(&a),
        a.bears(s),
    ensures
        b.bears(s),
{
    if s.texel < a.buffers.texels() {
        assert(b.buffers.covered(s.texel as int) >= a.buffers.covered(s.texel as int));
    }
}

/// From any state of a segment on the stroke covers no texel less, and nothing changes but
/// what is painted.
proof fn lemma_segment_from<
    F,
    D: Fn(u32, u32) -> ScreenDab,
    B: Fn([u8; 4], [u8; 3], u32) -> [u8; 4],
    C: Fn([u8; 4], [u8; 3], u32) -> [u8; 4],
    G: Fn(usize, &Vec<u32>) -> Option<TexRect>,
>(
    states: Seq<Renderer<F>>,
    n: u32,
    dab: D,
    ink: Ink,
    blend: B,
    rub: C,
    stamp: G,
    i: int,
    j: int,
)
    requires
        is_segment(states, n, dab, ink, blend, rub, stamp),
        0 <= i <= j < states.len(),
        states[i].paints_here(),
        states[i].lock_settled(),
    ensures
        states[j].painted_on(&states[i]),
        states[j].covers_more(&states[i]),
        forall|t: int|
            0 <= t < states[i].buffers.texels() && !states[i].paintable(t) ==> #[trigger]
                states[j].left_alone(&states[i], t),
    decreases j - i,
{
    if i < j {
        lemma_segment_from(states, n, dab, ink, blend, rub, stamp, i, j - 1);
        let (a, b) = (states[j - 1], states[j]);
        assert(segment_step(a, b, j as u32, n, dab, ink, blend, rub, stamp));
        let (d, done) = choose|d: ScreenDab, done: bool|
            #![trigger
                dab.ensures((j as u32, n), d),
                b.stamped_from(&a, d, ink, blend, rub, stamp, done)]
            dab.ensures((j as u32, n), d) && b.stamped_from(&a, d, ink, blend, rub, stamp, done);
        law_a_dab_covers_its_splats(a, b, d, ink, blend, rub, stamp, done);
        lemma_covers_more(states[i], a, b);
        assert forall|t: int|
            0 <= t < states[i].buffers.texels() && !states[i].paintable(t) implies #[trigger]
        b.left_alone(&states[i], t) by {
            assert(a.left_alone(&states[i], t));
            assert(b.left_alone(&a, t));
        }
    }
}

/// Every dab of a segment is laid: step `k` of `n` lays what the brush brings at step `k` of
/// `n`, and at the end every texel that one of its splats covers is touched by the stroke
/// and covered at least as much. Under a face lock this holds on the locked facets, and every
/// other texel is left alone.
pub proof fn law_every_dab_of_a_segment_is_laid<
    F,
    D: Fn(u32, u32) -> ScreenDab,
    B: Fn([u8; 4], [u8; 3], u32) -> [u8; 4],
    C: Fn([u8; 4], [u8; 3], u32) -> [u8; 4],
    G: Fn(usize, &Vec<u32>) -> Option<TexRect>,
>(
    states: Seq<Renderer<F>>,
    n: u32,
    dab: D,
    ink: Ink,
    blend: B,
    rub: C,
    stamp: G,
    k: u32,
)
    requires
        is_segment(states, n, dab, ink, blend, rub, stamp),
        states[0].paints_here(),
        states[0].lock_settled(),
        1 <= k <= n,
    ensures
        states.last().painted_on(&states[0]),
        states.last().covers_more(&states[0]),
        exists|d: ScreenDab| #[trigger]
            dab.ensures((k, n), d) && states.last().bears_dab(&states[0], d),
        forall|t: int|
            0 <= t < states[0].buffers.texels() && !states[0].paintable(t) ==> #[trigger]
                states.last().left_alone(&states[0], t),
{
    let last = states.len() - 1;
    lemma_segment_from(states, n, dab, ink, blend, rub, stamp, 0, last);
    lemma_segment_from(states, n, dab, ink, blend, rub, stamp, 0, k - 1);
    lemma_segment_from(states, n, dab, ink, blend, rub, stamp, 0, k as int);
    lemma_segment_from(states, n, dab, ink, blend, rub, stamp, k as int, last);
    let (a, b) = (states[k - 1], states[k as int]);
    assert(segment_step(a, b, k, n, dab, ink, blend, rub, stamp));
    let (d, done) = choose|d: ScreenDab, done: bool|
        #![trigger
            dab.ensures((k, n), d),
            b.stamped_from(&a, d, ink, blend, rub, stamp, done)]
        dab.ensures((k, n), d) && b.stamped_from(&a, d, ink, blend, rub, stamp, done);
    law_a_dab_covers_its_splats(a, b, d, ink, blend, rub, stamp, done);
    assert forall|s: Splat| #[trigger] brings(d, s) && states[0].paintable(
        s.texel as int,
    ) implies states.last().bears(s) by {
        assert(a.paintable(s.texel as int));
        assert(b.bears(s));
        lemma_bears_on(b, states.last(), s);
    }
}

/// Some dab of the segment brings a splat for texel `t`.
pub open spec fn reached_by<D: Fn(u32, u32) -> ScreenDab>(dab: D, n: u32, t: int) -> bool {
    exists|k: u32, d: ScreenDab, s: Splat|
        #![trigger dab.ensures((k, n), d), brings(d, s)]
        1 <= k <= n && dab.ensures((k, n), d) && brings(d, s) && s.texel == t
}

/// A segment paints only where one of its dabs brings a splat.
pub proof fn law_a_segment_paints_only_its_dabs<
    F,
    D: Fn(u32, u32) -> ScreenDab,
    B: Fn([u8; 4], [u8; 3], u32) -> [u8; 4],
    C: Fn([u8; 4], [u8; 3], u32) -> [u8; 4],
    G: Fn(usize, &Vec<u32>) -> Option<TexRect>,
>(
    states: Seq<Renderer<F>>,
    n: u32,
    dab: D,
    ink: Ink,
    blend: B,
    rub: C,
    stamp: G,
    t: int,
)
    requires
        is_segment(states, n, dab, ink, blend, rub, stamp),
        states[0].paints_here(),
        states[0].lock_settled(),
        0 <= t < states[0].buffers.texels(),
        !reached_by(dab, n, t),
    ensures
        states.last().left_alone(&states[0], t),
{
    lemma_unreached(states, n, dab, ink, blend, rub, stamp, t, states.len() - 1);
}

proof fn lemma_unreached<
    F,
    D: Fn(u32, u32) -> ScreenDab,
    B: Fn([u8; 4], [u8; 3], u32) -> [u8; 4],
    C: Fn([u8; 4], [u8; 3], u32) -> [u8; 4],
    G: Fn(usize, &Vec<u32>) -> Option<TexRect>,
>(
    states: Seq<Renderer<F>>,
    n: u32,
    dab: D,
    ink: Ink,
    blend: B,
    rub: C,
    stamp: G,
    t: int,
    j: int,
)
    requires
        is_segment(states, n, dab, ink, blend, rub, stamp),
        states[0].paints_here(),
        states[0].lock_settled(),
        0 <= t < states[0].buffers.texels(),
        !reached_by(dab, n, t),
        0 <= j < states.len(),
    ensures
        states[j].left_alone(&states[0], t),
    decreases j,
{
    if j > 0 {
        lemma_unreached(states, n, dab, ink, blend, rub, stamp, t, j - 1);
        lemma_segment_from(states, n, dab, ink, blend, rub, stamp, 0, j - 1);
        let (a, b) = (states[j - 1], states[j]);
        assert(segment_step(a, b, j as u32, n, dab, ink, blend, rub, stamp));
        let (d, done) = choose|d: ScreenDab, done: bool|
            #![trigger
                dab.ensures((j as u32, n), d),
                b.stamped_from(&a, d, ink, blend, rub, stamp, done)]
            dab.ensures((j as u32, n), d) && b.stamped_from(&a, d, ink, blend, rub, stamp, done);
        law_a_dab_covers_its_splats(a, b, d, ink, blend, rub, stamp, done);
        assert forall|s: Splat| #[trigger] brings(d, s) implies s.texel != t by {
            if s.texel == t {
                assert(dab.ensures((j as u32, n), d) && brings(d, s));
            }
        }
        assert(b.left_alone(&a, t));
    }
}

proof fn lemma_uv_dab<
    F,
    B: Fn([u8; 4], [u8; 3], u32) -> [u8; 4],
    C: Fn([u8; 4], [u8; 3], u32) -> [u8; 4],
>(r0: Renderer<F>, r1: Renderer<F>, splats: Seq<Splat>, erase: bool, blend: B, rub: C)
    requires
        r1.uv_dabbed(&r0, splats, erase, blend, rub),
    ensures
        r1.uv_stroke,
        r1.painted_on(&r0),
        r1.covers_more(&r0),
        forall|s: Splat| #[trigger] splats.contains(s) ==> r1.bears(s),
{
    let mid = choose|mid: Renderer<F>| #[trigger]
        uv_marked(mid, r1) && if splats.len() == 0 {
            mid == r0
        } else {
            mid.dabbed_from(&r0, splats, erase, blend, rub)
        };
    if splats.len() > 0 {
        law_a_deposit_covers_its_splats(r0, mid, splats, erase, blend, rub);
    }
    assert(r1.buffers == mid.buffers);
    assert forall|t: int| 0 <= t < r0.buffers.texels() implies #[trigger] r1.buffers.covered(t)
        >= r0.buffers.covered(t) && (r0.buffers.touched(t) ==> r1.buffers.touched(t)) by {
        assert(mid.buffers.covered(t) >= r0.buffers.covered(t));
    }
    assert forall|s: Splat| #[trigger] splats.contains(s) implies r1.bears(s) by {
        assert(mid.bears(s));
    }
}

proof fn lemma_uv_from<
    F,
    D: Fn(u32, u32) -> Vec<Splat>,
    B: Fn([u8; 4], [u8; 3], u32) -> [u8; 4],
    C: Fn([u8; 4], [u8; 3], u32) -> [u8; 4],
>(
    states: Seq<Renderer<F>>,
    n: u32,
    disc: D,
    erase: bool,
    blend: B,
    rub: C,
    i: int,
    j: int,
)
    requires
        is_uv_segment(states, n, disc, erase, blend, rub),
        0 <= i <= j < states.len(),
    ensures
        states[j].painted_on(&states[i]),
        states[j].covers_more(&states[i]),
        i < j ==> states[j].uv_stroke,
    decreases j - i,
{
    if i < j {
        lemma_uv_from(states, n, disc, erase, blend, rub, i, j - 1);
        let (a, b) = (states[j - 1], states[j]);
        assert(uv_step(a, b, j as u32, n, disc, erase, blend, rub));
        let v = choose|v: Vec<Splat>| #[trigger]
            disc.ensures((j as u32, n), v) && b.uv_dabbed(&a, v@, erase, blend, rub);
        lemma_uv_dab(a, b, v@, erase, blend, rub);
        lemma_covers_more(states[i], a, b);
    }
}

/// Every disc of a segment in the UV editor is laid: step `k` of `n` lays the disc of step `k`
/// of `n`, and at the end every texel that it covers is touched by the stroke and covered at
/// least as much.
pub proof fn law_every_disc_of_a_uv_segment_is_laid<
    F,
    D: Fn(u32, u32) -> Vec<Splat>,
    B: Fn([u8; 4], [u8; 3], u32) -> [u8; 4],
    C: Fn([u8; 4], [u8; 3], u32) -> [u8; 4],
>(states: Seq<Renderer<F>>, n: u32, disc: D, erase: bool, blend: B, rub: C, k: u32)
    requires
        is_uv_segment(states, n, disc, erase, blend, rub),
        1 <= k <= n,
    ensures
        states.last().uv_stroke,
        states.last().painted_on(&states[0]),
        states.last().covers_more(&states[0]),
        exists|v: Vec<Splat>| #[trigger]
            disc.ensures((k, n), v) && states.last().bears_all(v@),
{
    let last = states.len() - 1;
    lemma_uv_from(states, n, disc, erase, blend, rub, 0, last);
    lemma_uv_from(states, n, disc, erase, blend, rub, k as int, last);
    let (a, b) = (states[k - 1], states[k as int]);
    assert(uv_step(a, b, k, n, disc, erase, blend, rub));
    let v = choose|v: Vec<Splat>| #[trigger]
        disc.ensures((k, n), v) && b.uv_dabbed(&a, v@, erase, blend, rub);
    lemma_uv_dab(a, b, v@, erase, blend, rub);
    assert forall|s: Splat| #[trigger] v@.contains(s) implies states.last().bears(s) by {
        assert(b.bears(s));
        lemma_bears_on(b, states.last(), s);
    }
}

/// The stroke bears an answer of `dab` at step `k` of `n`.
pub open spec fn step_borne<F, D: Fn(u32, u32) -> ScreenDab>(
    before: Renderer<F>,
    after: Renderer<F>,
    dab: D,
    k: u32,
    n: u32,
) -> bool {
    exists|d: ScreenDab| #[trigger] dab.ensures((k, n), d) && after.bears_dab(&before, d)
}

/// The stroke bears an answer of `disc` at step `k` of `n`.
pub open spec fn disc_borne<F, D: Fn(u32, u32) -> Vec<Splat>>(
    after: Renderer<F>,
    disc: D,
    k: u32,
    n: u32,
) -> bool {
    exists|v: Vec<Splat>| #[trigger] disc.ensures((k, n), v) && after.bears_all(v@)
}

/// The law for all steps of a segment at once.
pub(crate) proof fn lemma_all_dabs_are_laid<
    F,
    D: Fn(u32, u32) -> ScreenDab,
    B: Fn([u8; 4], [u8; 3], u32) -> [u8; 4],
    C: Fn([u8; 4], [u8; 3], u32) -> [u8; 4],
    G: Fn(usize, &Vec<u32>) -> Option<TexRect>,
>(states: Seq<Renderer<F>>, n: u32, dab: D, ink: Ink, blend: B, rub: C, stamp: G)
    requires
        is_segment(states, n, dab, ink, blend, rub, stamp),
        states[0].paints_here(),
        states[0].lock_settled(),
    ensures
        forall|k: u32| 1 <= k <= n ==> #[trigger] step_borne(states[0], states.last(), dab, k, n),
{
    assert forall|k: u32| 1 <= k <= n implies #[trigger] step_borne(
        states[0],
        states.last(),
        dab,
        k,
        n,
    ) by {
        law_every_dab_of_a_segment_is_laid(states, n, dab, ink, blend, rub, stamp, k);
    }
}

/// The law for all steps of a UV segment at once.
pub(crate) proof fn lemma_all_discs_are_laid<
    F,
    D: Fn(u32, u32) -> Vec<Splat>,
    B: Fn([u8; 4], [u8; 3], u32) -> [u8; 4],
    C: Fn([u8; 4], [u8; 3], u32) -> [u8; 4],
>(states: Seq<Renderer<F>>, n: u32, disc: D, erase: bool, blend: B, rub: C)
    requires
        is_uv_segment(states, n, disc, erase, blend, rub),
        n > 0,
    ensures
        states.last().uv_stroke,
        forall|k: u32| 1 <= k <= n ==> #[trigger] disc_borne(states.last(), disc, k, n),
{
    law_every_disc_of_a_uv_segment_is_laid(states, n, disc, erase, blend, rub, n);
    assert forall|k: u32| 1 <= k <= n implies #[trigger] disc_borne(
        states.last(),
        disc,
        k,
        n,
    ) by {
        law_every_disc_of_a_uv_segment_is_laid(states, n, disc, erase, blend, rub, k);
    }
}

/// Rectangle `r` holds all of `prev`, where there is one.
pub open spec fn holds_all(r: Option<TexRect>, prev: Option<TexRect>) -> bool {
    forall|x: int, y: int|
        prev is Some && #[trigger] (prev->0).has(x, y) ==> r is Some && (r->0).has(x, y)
}

/// What a deposit changes is shown and read back: a texel whose bytes or coverage differ lies
/// in the region that is to be shown and in that of the stroke, and both keep what they held.
pub proof fn law_a_deposit_is_shown<F, B: Fn([u8; 4], [u8; 3], u32) -> [u8; 4]>(
    r0: Renderer<F>,
    r1: Renderer<F>,
    mask: bool,
    splats: Seq<Splat>,
    blend: B,
    x: int,
    y: int,
)
    requires
        r1.laid_by(&r0, mask, splats, blend),
        r0.buffers.texels() == r0.tex_size * r0.tex_size,
        0 <= x < r0.tex_size,
        0 <= y < r0.tex_size,
    ensures
        ({
            let t = y * r0.tex_size + x;
            texel(r1.doc@.canvas(mask), t) != texel(r0.doc@.canvas(mask), t)
                || r1.buffers.covered(t) != r0.buffers.covered(t) ==> r1.display.dirty_rect is Some
                && (r1.display.dirty_rect->0).has(x, y) && r1.stroke_rect is Some && (
            r1.stroke_rect->0).has(x, y)
        }),
        holds_all(r1.display.dirty_rect, r0.display.dirty_rect),
        holds_all(r1.stroke_rect, r0.stroke_rect),
        r1.stroke_dirty,
        r1.display == (Display { dirty_rect: r1.display.dirty_rect, ..r0.display }),
{
    let w = r0.tex_size as int;
    let t = y * w + x;
    assert(0 <= t < w * w) by (nonlinear_arith)
        requires
            t == y * w + x,
            0 <= x < w,
            0 <= y < w,
    ;
    vstd::arithmetic::div_mod::lemma_fundamental_div_mod_converse(t, w, y, x);
    let rect = choose|rect: Option<TexRect>| #[trigger]
        r1.laid_from(&r0, mask, splats, blend, rect);
    let raised = choose|raised: Seq<usize>| #[trigger]
        is_raised(r0.buffers, splats, raised) && is_bounding(raised, w, rect);
    let n = splats.len() as int;
    law_peak_is_the_maximum(splats, r0.buffers.covered(t), t, n);
    if winner(splats, r0.buffers.covered(t), t, n) is None {
        assert(texel(r1.doc@.canvas(mask), t) == texel(r0.doc@.canvas(mask), t));
    } else {
        assert(raised.contains(t as usize));
        let i = choose|i: int| 0 <= i < raised.len() && raised[i] == t as usize;
        assert(texel_in(rect->0, raised[i] as int, w));
    }
}

/// A dab on the GPU is stamped on the triangles it meets, under a face lock on those that lie
/// on a locked facet and on no other. Its footprint joins the region of the stroke, and the
/// images and the stroke buffers stay.
pub proof fn law_a_gpu_dab_stays_on_locked_facets<F, G: Fn(usize, &Vec<u32>) -> Option<TexRect>>(
    r0: Renderer<F>,
    r1: Renderer<F>,
    touch: Touch,
    ink: Ink,
    stamp: G,
    done: bool,
    f: u32,
)
    requires
        r1.gpu_dabbed(&r0, touch, ink, stamp, done),
        r0.lock.on ==> r0.lock.facets is Some && r0.scene.fill_map is Some,
    ensures
        exists|on: Vec<u32>, rect: Option<TexRect>| #[trigger]
            stamp.ensures((touch.id, &on), rect) && done == rect is Some && (
            !r0.lock.on || (r0.lock.facets->0)@.len() == 0 ==> on@ == touch.faces@) && (r0.lock.on
                && (r0.lock.facets->0)@.len() > 0 ==> (on@.contains(f) <==> touch.faces@.contains(f)
                && f < (r0.scene.fill_map->0).facet_of_tri@.len() && (
            r0.lock.facets->0)@.contains((r0.scene.fill_map->0).facet_of_tri@[f as int] as i32)))
                && holds_all(r1.stroke_rect, rect),
        holds_all(r1.stroke_rect, r0.stroke_rect),
        !done ==> r1 == r0,
        r1 == (Renderer {
            gpu: r1.gpu,
            stroke_rect: r1.stroke_rect,
            stroke_dirty: r1.stroke_dirty,
            ..r0
        }),
{
    let (on, rect) = choose|on: Vec<u32>, rect: Option<TexRect>| #[trigger]
        stamp.ensures((touch.id, &on), rect) && on@ == r0.unlocked_faces(touch.faces@) && done
            == rect is Some && r1 == r0.stamped(rect, ink.color, ink.erase, ink.clean);
    let map = r0.scene.fill_map->0;
    let p = |f: u32| r0.lock.face_admitted(&map, f);
    law_locked_paint_stays_on_the_face(touch.faces@, p);
    if on@.contains(f) && r0.lock.on && (r0.lock.facets->0)@.len() > 0 {
        let i = choose|i: int| 0 <= i < on@.len() && on@[i] == f;
        assert(on@ == kept(touch.faces@, p));
        assert(p(kept(touch.faces@, p)[i]));
    }
}

/// The footprint that `stamp` answers for a touch lies in the region of the stroke.
pub open spec fn stamped_in<F, G: Fn(usize, &Vec<u32>) -> Option<TexRect>>(
    r: Renderer<F>,
    touch: Touch,
    stamp: G,
) -> bool {
    exists|on: Vec<u32>, rect: Option<TexRect>| #[trigger]
        stamp.ensures((touch.id, &on), rect) && holds_all(r.stroke_rect, rect)
}

proof fn lemma_stamped_on<F, G: Fn(usize, &Vec<u32>) -> Option<TexRect>>(
    r0: Renderer<F>,
    r1: Renderer<F>,
    touch: Touch,
    stamp: G,
)
    requires
        stamped_in(r0, touch, stamp),
        holds_all(r1.stroke_rect, r0.stroke_rect),
    ensures
        stamped_in(r1, touch, stamp),
{
    let (on, rect) = choose|on: Vec<u32>, rect: Option<TexRect>| #[trigger]
        stamp.ensures((touch.id, &on), rect) && holds_all(r0.stroke_rect, rect);
    assert(holds_all(r1.stroke_rect, rect));
}

proof fn lemma_gpu_touch<
    F,
    B: Fn([u8; 4], [u8; 3], u32) -> [u8; 4],
    C: Fn([u8; 4], [u8; 3], u32) -> [u8; 4],
    G: Fn(usize, &Vec<u32>) -> Option<TexRect>,
>(
    a: Renderer<F>,
    b: Renderer<F>,
    h: Touch,
    ink: Ink,
    blend: B,
    rub: C,
    stamp: G,
    done: bool,
)
    requires
        b.surface_dabbed(&a, h, ink, blend, rub, stamp, done),
        a.brush.path(ink.erase, a.gpu.paint) == DabPath::Gpu,
    ensures
        b.brush == a.brush,
        b.gpu.paint == a.gpu.paint,
        b.doc == a.doc && b.buffers == a.buffers,
        holds_all(b.stroke_rect, a.stroke_rect),
        stamped_in(b, h, stamp),
{
    let (on, rect) = choose|on: Vec<u32>, rect: Option<TexRect>| #[trigger]
        stamp.ensures((h.id, &on), rect) && on@ == a.unlocked_faces(h.faces@) && done
            == rect is Some && b == a.stamped(rect, ink.color, ink.erase, ink.clean);
    assert(holds_all(b.stroke_rect, rect));
}

proof fn lemma_gpu_step<
    F,
    B: Fn([u8; 4], [u8; 3], u32) -> [u8; 4],
    C: Fn([u8; 4], [u8; 3], u32) -> [u8; 4],
    G: Fn(usize, &Vec<u32>) -> Option<TexRect>,
>(
    a: Renderer<F>,
    b: Renderer<F>,
    d: ScreenDab,
    ink: Ink,
    blend: B,
    rub: C,
    stamp: G,
    done: bool,
)
    requires
        b.stamped_from(&a, d, ink, blend, rub, stamp, done),
        a.brush.path(ink.erase, a.gpu.paint) == DabPath::Gpu,
    ensures
        b.brush == a.brush,
        b.gpu.paint == a.gpu.paint,
        b.doc == a.doc && b.buffers == a.buffers,
        holds_all(b.stroke_rect, a.stroke_rect),
        d.hit matches Some(h) ==> stamped_in(b, h, stamp) && (d.mirror matches Some(m)
            ==> stamped_in(b, m, stamp)),
{
    match (d.hit, d.mirror) {
        (None, _) => {},
        (Some(h), None) => {
            let locked = choose|locked: Renderer<F>| #[trigger]
                locked.locked_from(&a, h.tri, None) && b.surface_dabbed(
                    &locked,
                    h,
                    ink,
                    blend,
                    rub,
                    stamp,
                    done,
                );
            lemma_gpu_touch(locked, b, h, ink, blend, rub, stamp, done);
        },
        (Some(h), Some(m)) => {
            let (locked, mid, first, second) = choose|
                locked: Renderer<F>,
                mid: Renderer<F>,
                first: bool,
                second: bool,
            |
                #![trigger
                    locked.locked_from(&a, h.tri, Some(m.tri)),
                    mid.surface_dabbed(&locked, h, ink, blend, rub, stamp, first),
                    b.surface_dabbed(&mid, m, ink, blend, rub, stamp, second)]
                locked.locked_from(&a, h.tri, Some(m.tri)) && mid.surface_dabbed(
                    &locked,
                    h,
                    ink,
                    blend,
                    rub,
                    stamp,
                    first,
                ) && b.surface_dabbed(&mid, m, ink, blend, rub, stamp, second) && done == (first
                    || second);
            lemma_gpu_touch(locked, mid, h, ink, blend, rub, stamp, first);
            lemma_gpu_touch(mid, b, m, ink, blend, rub, stamp, second);
            lemma_stamped_on(mid, b, h, stamp);
        },
    }
}

proof fn lemma_gpu_segment_from<
    F,
    D: Fn(u32, u32) -> ScreenDab,
    B: Fn([u8; 4], [u8; 3], u32) -> [u8; 4],
    C: Fn([u8; 4], [u8; 3], u32) -> [u8; 4],
    G: Fn(usize, &Vec<u32>) -> Option<TexRect>,
>(
    states: Seq<Renderer<F>>,
    n: u32,
    dab: D,
    ink: Ink,
    blend: B,
    rub: C,
    stamp: G,
    i: int,
    j: int,
)
    requires
        is_segment(states, n, dab, ink, blend, rub, stamp),
        0 <= i <= j < states.len(),
        states[i].brush.path(ink.erase, states[i].gpu.paint) == DabPath::Gpu,
    ensures
        states[j].brush == states[i].brush,
        states[j].gpu.paint == states[i].gpu.paint,
        states[j].doc == states[i].doc && states[j].buffers == states[i].buffers,
        holds_all(states[j].stroke_rect, states[i].stroke_rect),
    decreases j - i,
{
    if i < j {
        lemma_gpu_segment_from(states, n, dab, ink, blend, rub, stamp, i, j - 1);
        let (a, b) = (states[j - 1], states[j]);
        assert(segment_step(a, b, j as u32, n, dab, ink, blend, rub, stamp));
        let (d, done) = choose|d: ScreenDab, done: bool|
            #![trigger
                dab.ensures((j as u32, n), d),
                b.stamped_from(&a, d, ink, blend, rub, stamp, done)]
            dab.ensures((j as u32, n), d) && b.stamped_from(&a, d, ink, blend, rub, stamp, done);
        lemma_gpu_step(a, b, d, ink, blend, rub, stamp, done);
    }
}

/// Every dab of a segment that is accumulated on the GPU is stamped: step `k` of `n` stamps
/// what the brush brings at step `k` of `n`, under the cursor and mirrored, and at the end its
/// footprint lies in the region of the stroke. The images and the stroke buffers stay.
pub proof fn law_every_dab_of_a_gpu_segment_is_stamped<
    F,
    D: Fn(u32, u32) -> ScreenDab,
    B: Fn([u8; 4], [u8; 3], u32) -> [u8; 4],
    C: Fn([u8; 4], [u8; 3], u32) -> [u8; 4],
    G: Fn(usize, &Vec<u32>) -> Option<TexRect>,
>(
    states: Seq<Renderer<F>>,
    n: u32,
    dab: D,
    ink: Ink,
    blend: B,
    rub: C,
    stamp: G,
    k: u32,
)
    requires
        is_segment(states, n, dab, ink, blend, rub, stamp),
        states[0].brush.path(ink.erase, states[0].gpu.paint) == DabPath::Gpu,
        1 <= k <= n,
    ensures
        exists|d: ScreenDab| #[trigger]
            dab.ensures((k, n), d) && (d.hit matches Some(h) ==> stamped_in(states.last(), h, stamp)
                && (d.mirror matches Some(m) ==> stamped_in(states.last(), m, stamp))),
        holds_all(states.last().stroke_rect, states[0].stroke_rect),
        states.last().doc == states[0].doc && states.last().buffers == states[0].buffers,
{
    let last = states.len() - 1;
    lemma_gpu_segment_from(states, n, dab, ink, blend, rub, stamp, 0, last);
    lemma_gpu_segment_from(states, n, dab, ink, blend, rub, stamp, 0, k - 1);
    lemma_gpu_segment_from(states, n, dab, ink, blend, rub, stamp, 0, k as int);
    lemma_gpu_segment_from(states, n, dab, ink, blend, rub, stamp, k as int, last);
    let (a, b) = (states[k - 1], states[k as int]);
    assert(segment_step(a, b, k, n, dab, ink, blend, rub, stamp));
    let (d, done) = choose|d: ScreenDab, done: bool|
        #![trigger
            dab.ensures((k, n), d),
            b.stamped_from(&a, d, ink, blend, rub, stamp, done)]
        dab.ensures((k, n), d) && b.stamped_from(&a, d, ink, blend, rub, stamp, done);
    lemma_gpu_step(a, b, d, ink, blend, rub, stamp, done);
    if d.hit is Some {
        lemma_stamped_on(b, states.last(), d.hit->0, stamp);
        if d.mirror is Some {
            lemma_stamped_on(b, states.last(), d.mirror->0, stamp);
        }
    }
}

} // verus!
