//! Accumulating one stroke: the coverage of each texel only ever rises, and every blend
//! starts from the value the texel had before the stroke.
//!
//! A coverage is an integer whose order is the order of coverages; 0 is none.

use crate::texture::{
    bounding_rect, is_bounding, is_image, lemma_in_image, lemma_texel_apart, TexRect,
};
use vstd::prelude::*;

verus! {

/// The four bytes of texel `t`.
pub open spec fn texel(px: Seq<u8>, t: int) -> Seq<u8> {
    px.subrange(4 * t, 4 * t + 4)
}

/// One covered texel of a dab, with the colour it brings.
#[derive(Clone, Copy, Debug)]
pub struct Splat {
    pub texel: usize,
    pub cov: u32,
    pub src: [u8; 3],
}

/// Per-texel stroke state. A texel counts toward the current stroke only when its stamp
/// is the stroke's number, so a new stroke starts by counting up.
#[derive(Debug)]
pub struct StrokeBuffers {
    base: Vec<u8>,
    coverage: Vec<u32>,
    stamp: Vec<u32>,
    id: u32,
}

/// The answers of `blend` all agree with the function `f` of base texel, colour and
/// coverage.
pub open spec fn blend_agrees<B: Fn([u8; 4], [u8; 3], u32) -> [u8; 4]>(
    blend: B,
    f: spec_fn(Seq<u8>, Seq<u8>, u32) -> Seq<u8>,
) -> bool {
    forall|b: [u8; 4], s: [u8; 3], a: u32, out: [u8; 4]| #[trigger]
        blend.ensures((b, s, a), out) ==> out@ == f(b@, s@, a)
}

/// The coverage of texel `t` after the first `k` splats, starting from `c0`: a splat
/// counts only when it covers more than all before it.
pub open spec fn peak(splats: Seq<Splat>, c0: u32, t: int, k: int) -> u32
    decreases k,
{
    if k <= 0 {
        c0
    } else {
        let before = peak(splats, c0, t, k - 1);
        let s = splats[k - 1];
        if s.texel == t && s.cov > before {
            s.cov
        } else {
            before
        }
    }
}

/// The last of the first `k` splats that raised the coverage of texel `t`, if any.
pub open spec fn winner(splats: Seq<Splat>, c0: u32, t: int, k: int) -> Option<int>
    decreases k,
{
    if k <= 0 {
        None
    } else {
        let s = splats[k - 1];
        if s.texel == t && s.cov > peak(splats, c0, t, k - 1) {
            Some(k - 1)
        } else {
            winner(splats, c0, t, k - 1)
        }
    }
}

impl StrokeBuffers {
    /// How many texels the buffers are for.
    pub closed spec fn texels(&self) -> int {
        self.stamp.len() as int
    }

    pub closed spec fn wf(&self) -> bool {
        &&& self.coverage.len() == self.stamp.len()
        &&& self.base.len() == 4 * self.stamp.len()
        &&& self.id > 0
        &&& forall|t: int| 0 <= t < self.stamp.len() ==> (#[trigger] self.stamp@[t]) <= self.id
    }

    /// Texel `t` was touched by the current stroke.
    pub closed spec fn touched(&self, t: int) -> bool {
        self.stamp@[t] == self.id
    }

    /// The coverage of texel `t` by the current stroke.
    pub closed spec fn covered(&self, t: int) -> u32 {
        if self.stamp@[t] == self.id {
            self.coverage@[t]
        } else {
            0
        }
    }

    /// What texel `t` held before the current stroke touched it.
    pub closed spec fn base_of(&self, t: int) -> Seq<u8> {
        texel(self.base@, t)
    }

    /// A covered texel was touched.
    pub proof fn lemma_covered_is_touched(&self, t: int)
        ensures
            self.covered(t) > 0 ==> self.touched(t),
    {
    }

    /// Buffers for `n` texels, none of them touched.
    pub fn new(n: usize) -> (s: StrokeBuffers)
        requires
            4 * n <= usize::MAX,
        ensures
            s.wf(),
            s.texels() == n,
            forall|t: int| 0 <= t < n ==> !#[trigger] s.touched(t),
            forall|t: int| 0 <= t < n ==> #[trigger] s.covered(t) == 0,
    {
        let mut s = StrokeBuffers {
            base: Vec::new(),
            coverage: Vec::new(),
            stamp: Vec::new(),
            id: 1,
        };
        s.realloc(n);
        s
    }

    /// Resizes the buffers to `n` texels and starts afresh.
    pub fn realloc(&mut self, n: usize)
        requires
            4 * n <= usize::MAX,
        ensures
            final(self).wf(),
            final(self).texels() == n,
            forall|t: int| 0 <= t < n ==> !#[trigger] final(self).touched(t),
            forall|t: int| 0 <= t < n ==> #[trigger] final(self).covered(t) == 0,
    {
        self.base.resize(4 * n, 0);
        self.coverage.resize(n, 0);
        self.stamp.clear();
        self.stamp.resize(n, 0);
        self.id = 1;
    }

    /// Starts the next stroke: no texel is touched. When the counter wraps the stamps are
    /// wiped, so an old stamp never reads as a new one.
    pub fn bump_stroke_id(&mut self)
        requires
            old(self).wf(),
        ensures
            final(self).wf(),
            final(self).texels() == old(self).texels(),
            forall|t: int| 0 <= t < old(self).texels() ==> !#[trigger] final(self).touched(t),
            forall|t: int| 0 <= t < old(self).texels() ==> #[trigger] final(self).covered(t) == 0,
    {
        self.id = self.id.wrapping_add(1);
        if self.id == 0 {
            let n: usize = self.stamp.len();
            self.stamp.clear();
            self.stamp.resize(n, 0);
            self.id = 1;
        }
    }

    /// What laying the first `k` splats onto `before` leads to: coverages at their peak,
    /// pre-stroke values kept, and each raised texel blended anew from its base.
    spec fn laid(
        &self,
        old_self: StrokeBuffers,
        before: Seq<u8>,
        px: Seq<u8>,
        splats: Seq<Splat>,
        k: int,
        f: spec_fn(Seq<u8>, Seq<u8>, u32) -> Seq<u8>,
    ) -> bool {
        forall|t: int|
            0 <= t < self.texels() ==> #[trigger] self.texel_laid(old_self, before, px, splats, k, f, t)
    }

    /// Texel `t` after the first `k` splats.
    pub open spec fn texel_laid(
        &self,
        old_self: StrokeBuffers,
        before: Seq<u8>,
        px: Seq<u8>,
        splats: Seq<Splat>,
        k: int,
        f: spec_fn(Seq<u8>, Seq<u8>, u32) -> Seq<u8>,
        t: int,
    ) -> bool {
        &&& match winner(splats, old_self.covered(t), t, k) {
            None => texel(px, t) == texel(before, t),
            Some(i) => texel(px, t) == f(self.base_of(t), splats[i].src@, splats[i].cov),
        }
    }

    /// The stroke state of texel `t` after the first `k` splats.
    pub open spec fn state_laid(
        &self,
        old_self: StrokeBuffers,
        before: Seq<u8>,
        splats: Seq<Splat>,
        k: int,
        t: int,
    ) -> bool {
        &&& self.covered(t) == peak(splats, old_self.covered(t), t, k)
        &&& self.touched(t) <==> old_self.touched(t) || winner(
            splats,
            old_self.covered(t),
            t,
            k,
        ) is Some
        &&& self.touched(t) ==> self.base_of(t) == if old_self.touched(t) {
            old_self.base_of(t)
        } else {
            texel(before, t)
        }
    }

    /// Lays one splat. Returns whether it raised the coverage of its texel.
    fn lay_one<B: Fn([u8; 4], [u8; 3], u32) -> [u8; 4]>(
        &mut self,
        px: &mut Vec<u8>,
        s: Splat,
        blend: &B,
    ) -> (raised: bool)
        requires
            old(self).wf(),
            s.texel < old(self).texels(),
            old(px).len() == 4 * old(self).texels(),
            forall|b: [u8; 4], c: [u8; 3], a: u32| #[trigger] blend.requires((b, c, a)),
        ensures
            final(self).wf(),
            final(self).texels() == old(self).texels(),
            final(px).len() == old(px).len(),
            raised == (s.cov > old(self).covered(s.texel as int)),
            forall|t: int|
                #![trigger final(self).touched(t)]
                #![trigger final(self).covered(t)]
                #![trigger final(self).base_of(t)]
                0 <= t < old(self).texels() && (t != s.texel || !raised) ==> final(self).touched(t)
                    == old(self).touched(t) && final(self).covered(t) == old(self).covered(t)
                    && final(self).base_of(t) == old(self).base_of(t),
            forall|t: int|
                0 <= t < old(self).texels() && (t != s.texel || !raised) ==> #[trigger] texel(
                    final(px)@,
                    t,
                ) == texel(old(px)@, t),
            raised ==> {
                let t = s.texel as int;
                &&& final(self).touched(t)
                &&& final(self).covered(t) == s.cov
                &&& final(self).base_of(t) == if old(self).touched(t) {
                    old(self).base_of(t)
                } else {
                    texel(old(px)@, t)
                }
                &&& forall|f: spec_fn(Seq<u8>, Seq<u8>, u32) -> Seq<u8>| #[trigger]
                    blend_agrees(*blend, f) ==> texel(final(px)@, t) == f(
                        final(self).base_of(t),
                        s.src@,
                        s.cov,
                    )
            },
    {
        let ghost start = *self;
        let ghost before = px@;
        let t: usize = s.texel;
        let first: bool = self.stamp[t] != self.id;
        let cur: u32 = if first {
            0
        } else {
            self.coverage[t]
        };
        if s.cov <= cur {
            return false;
        }
        let i: usize = 4 * t;
        if first {
            self.stamp.set(t, self.id);
            self.base.set(i, px[i]);
            self.base.set(i + 1, px[i + 1]);
            self.base.set(i + 2, px[i + 2]);
            self.base.set(i + 3, px[i + 3]);
        }
        self.coverage.set(t, s.cov);
        let b: [u8; 4] = [self.base[i], self.base[i + 1], self.base[i + 2], self.base[i + 3]];
        let out: [u8; 4] = (*blend)(b, s.src, s.cov);
        px.set(i, out[0]);
        px.set(i + 1, out[1]);
        px.set(i + 2, out[2]);
        px.set(i + 3, out[3]);
        proof {
            assert(b@ =~= self.base_of(t as int));
            assert(texel(px@, t as int) =~= out@);
            if first {
                assert(self.base_of(t as int) =~= texel(before, t as int));
            } else {
                assert(self.base_of(t as int) =~= start.base_of(t as int));
            }
            assert forall|u: int| 0 <= u < start.texels() && u != t implies #[trigger] texel(
                px@,
                u,
            ) == texel(before, u) by {
                assert(texel(px@, u) =~= texel(before, u));
            }
            assert forall|u: int| 0 <= u < start.texels() && u != t implies self.base_of(u)
                == #[trigger] start.base_of(u) by {
                assert(self.base_of(u) =~= start.base_of(u));
            }
        }
        true
    }

    /// Composites splats into `px` under the stroke: a texel's coverage is the largest of
    /// the stroke so far, and its colour is blended from its pre-stroke value, so stamps
    /// that overlap do not darken twice. Returns the box of the texels that changed.
    pub fn deposit<B: Fn([u8; 4], [u8; 3], u32) -> [u8; 4]>(
        &mut self,
        px: &mut Vec<u8>,
        splats: &Vec<Splat>,
        size: u32,
        blend: &B,
    ) -> (rect: Option<TexRect>)
        requires
            old(self).wf(),
            size > 0,
            old(self).texels() == size * size,
            old(px).len() == 4 * old(self).texels(),
            forall|i: int|
                0 <= i < splats.len() ==> (#[trigger] splats@[i]).texel < old(self).texels(),
            forall|b: [u8; 4], c: [u8; 3], a: u32| #[trigger] blend.requires((b, c, a)),
        ensures
            deposited(
                *old(self),
                *final(self),
                old(px)@,
                final(px)@,
                splats@,
                size,
                *blend,
                rect,
            ),
    {
        let ghost start = *self;
        let ghost before = px@;
        let mut raised: Vec<usize> = Vec::new();
        let mut k: usize = 0;
        while k < splats.len()
            invariant
                k <= splats.len(),
                start == *old(self),
                before == old(px)@,
                self.wf(),
                self.texels() == start.texels(),
                start.texels() == size * size,
                px.len() == 4 * start.texels(),
                before.len() == px.len(),
                forall|i: int|
                    0 <= i < splats.len() ==> (#[trigger] splats@[i]).texel < start.texels(),
                forall|b: [u8; 4], c: [u8; 3], a: u32| #[trigger] blend.requires((b, c, a)),
                forall|i: int| 0 <= i < raised.len() ==> (#[trigger] raised@[i]) < start.texels(),
                forall|t: int|
                    0 <= t < start.texels() ==> #[trigger] self.state_laid(
                        start,
                        before,
                        splats@,
                        k as int,
                        t,
                    ),
                forall|t: int|
                    0 <= t < start.texels() && winner(splats@, start.covered(t), t, k as int) is None
                        ==> #[trigger] texel(px@, t) == texel(before, t),
                forall|f: spec_fn(Seq<u8>, Seq<u8>, u32) -> Seq<u8>| #[trigger]
                    blend_agrees(*blend, f) ==> self.laid(
                        start,
                        before,
                        px@,
                        splats@,
                        k as int,
                        f,
                    ),
                forall|t: usize|
                    t < start.texels() ==> (#[trigger] raised@.contains(t) <==> winner(
                        splats@,
                        start.covered(t as int),
                        t as int,
                        k as int,
                    ) is Some),
            decreases splats.len() - k,
        {
            let s: Splat = splats[k];
            let ghost was = *self;
            let ghost px0 = px@;
            let ghost raised0 = raised@;
            let hit: bool = self.lay_one(px, s, blend);
            if hit {
                raised.push(s.texel);
            }
            proof {
                assert forall|t: int| 0 <= t < start.texels() implies #[trigger] self.state_laid(
                    start,
                    before,
                    splats@,
                    k + 1,
                    t,
                ) by {
                    assert(was.state_laid(start, before, splats@, k as int, t));
                    if t != s.texel || !hit {
                        assert(self.touched(t) == was.touched(t));
                    } else if !was.touched(t) {
                        assert(winner(splats@, start.covered(t), t, k as int) is None);
                        assert(texel(px0, t) == texel(before, t));
                    }
                }
                assert forall|t: int|
                    0 <= t < start.texels() && winner(splats@, start.covered(t), t, k
                        + 1) is None implies #[trigger] texel(px@, t) == texel(before, t) by {
                    assert(was.state_laid(start, before, splats@, k as int, t));
                    assert(texel(px0, t) == texel(before, t));
                }
                assert forall|f: spec_fn(Seq<u8>, Seq<u8>, u32) -> Seq<u8>| #[trigger]
                    blend_agrees(*blend, f) implies self.laid(start, before, px@, splats@, k + 1, f) by {
                    assert(was.laid(start, before, px0, splats@, k as int, f));
                    assert forall|t: int| 0 <= t < self.texels() implies #[trigger] self.texel_laid(
                        start,
                        before,
                        px@,
                        splats@,
                        k + 1,
                        f,
                        t,
                    ) by {
                        assert(was.texel_laid(start, before, px0, splats@, k as int, f, t));
                        assert(was.state_laid(start, before, splats@, k as int, t));
                        if t != s.texel || !hit {
                            assert(self.base_of(t) == was.base_of(t));
                            assert(texel(px@, t) == texel(px0, t));
                        }
                    }
                }
                assert forall|t: usize| t < start.texels() implies (#[trigger] raised@.contains(t)
                    <==> winner(splats@, start.covered(t as int), t as int, k + 1) is Some) by {
                    assert(was.state_laid(start, before, splats@, k as int, t as int));
                    assert(raised0.contains(t) <==> winner(
                        splats@,
                        start.covered(t as int),
                        t as int,
                        k as int,
                    ) is Some);
                    if hit {
                        lemma_push_has(raised0, s.texel, t);
                    }
                }
            }
            k += 1;
        }
        proof {
            assert(is_raised(start, splats@, raised@));
        }
        bounding_rect(&raised, size)
    }
}

proof fn lemma_push_has(s: Seq<usize>, u: usize, x: usize)
    ensures
        s.push(u).contains(x) <==> s.contains(x) || x == u,
{
    let m = s.push(u);
    if s.contains(x) {
        let i = choose|i: int| 0 <= i < s.len() && s[i] == x;
        assert(m[i] == x);
    }
    assert(m[s.len() as int] == u);
    if m.contains(x) && x != u {
        let i = choose|i: int| 0 <= i < m.len() && m[i] == x;
        assert(s[i] == x);
    }
}

/// Laying `splats` led from the first state to the second. Every texel's coverage is at its
/// peak, its pre-stroke value is kept, and where its coverage rose its colour was blended
/// anew from that value; all other texels are as they were. `rect` is the box around the
/// texels that changed.
pub open spec fn deposited<B: Fn([u8; 4], [u8; 3], u32) -> [u8; 4]>(
    before: StrokeBuffers,
    after: StrokeBuffers,
    px0: Seq<u8>,
    px: Seq<u8>,
    splats: Seq<Splat>,
    size: u32,
    blend: B,
    rect: Option<TexRect>,
) -> bool {
    &&& after.wf()
    &&& after.texels() == before.texels()
    &&& px.len() == px0.len()
    &&& forall|t: int|
        #![trigger after.covered(t)]
        #![trigger after.touched(t)]
        0 <= t < before.texels() ==> after.state_laid(before, px0, splats, splats.len() as int, t)
    &&& forall|f: spec_fn(Seq<u8>, Seq<u8>, u32) -> Seq<u8>, t: int|
        #![trigger blend_agrees(blend, f), texel(px, t)]
        blend_agrees(blend, f) && 0 <= t < before.texels() ==> after.texel_laid(
            before,
            px0,
            px,
            splats,
            splats.len() as int,
            f,
            t,
        )
    &&& forall|t: int|
        0 <= t < before.texels() && winner(
            splats,
            before.covered(t),
            t,
            splats.len() as int,
        ) is None ==> #[trigger] texel(px, t) == texel(px0, t)
    &&& exists|raised: Seq<usize>| #[trigger]
        is_raised(before, splats, raised) && is_bounding(raised, size as int, rect)
    &&& rect matches Some(r) ==> r.within(size as int, size as int)
}

/// `raised` lists the texels whose coverage the splats raise.
pub open spec fn is_raised(state: StrokeBuffers, splats: Seq<Splat>, raised: Seq<usize>) -> bool {
    &&& forall|i: int| 0 <= i < raised.len() ==> (#[trigger] raised[i]) < state.texels()
    &&& forall|t: usize|
        t < state.texels() ==> (#[trigger] raised.contains(t) <==> winner(
            splats,
            state.covered(t as int),
            t as int,
            splats.len() as int,
        ) is Some)
}

/// The peak is the largest coverage among the splats of a texel and what it had before;
/// it does not depend on their order.
pub proof fn law_peak_is_the_maximum(splats: Seq<Splat>, c0: u32, t: int, k: int)
    requires
        0 <= k <= splats.len(),
    ensures
        c0 <= peak(splats, c0, t, k),
        forall|i: int|
            0 <= i < k && (#[trigger] splats[i]).texel == t ==> splats[i].cov <= peak(
                splats,
                c0,
                t,
                k,
            ),
        peak(splats, c0, t, k) == c0 || exists|i: int|
            0 <= i < k && (#[trigger] splats[i]).texel == t && splats[i].cov == peak(
                splats,
                c0,
                t,
                k,
            ),
        winner(splats, c0, t, k) is None <==> peak(splats, c0, t, k) == c0,
        winner(splats, c0, t, k) matches Some(i) ==> 0 <= i < k && splats[i].texel == t
            && splats[i].cov == peak(splats, c0, t, k),
    decreases k,
{
    if k > 0 {
        law_peak_is_the_maximum(splats, c0, t, k - 1);
        let p = peak(splats, c0, t, k - 1);
        let s = splats[k - 1];
        if !(s.texel == t && s.cov > p) && p != c0 {
            let i = choose|i: int|
                0 <= i < k - 1 && (#[trigger] splats[i]).texel == t && splats[i].cov == p;
            assert(splats[i].texel == t);
        }
    }
}

/// Depositing the same splats again within a stroke changes nothing: every texel is
/// already covered at least as much.
pub proof fn law_deposit_is_idempotent(splats: Seq<Splat>, c0: u32, t: int)
    ensures
        peak(splats, peak(splats, c0, t, splats.len() as int), t, splats.len() as int) == peak(
            splats,
            c0,
            t,
            splats.len() as int,
        ),
        winner(splats, peak(splats, c0, t, splats.len() as int), t, splats.len() as int) is None,
{
    let n = splats.len() as int;
    law_peak_is_the_maximum(splats, c0, t, n);
    law_peak_is_the_maximum(splats, peak(splats, c0, t, n), t, n);
}

/// The answers of `blend` all agree with the function `f` of texel, base and coverage.
pub open spec fn cover_agrees<B: Fn(usize, [u8; 4], u32) -> [u8; 4]>(
    blend: B,
    f: spec_fn(usize, Seq<u8>, u32) -> Seq<u8>,
) -> bool {
    forall|t: usize, b: [u8; 4], a: u32, out: [u8; 4]| #[trigger]
        blend.ensures((t, b, a), out) ==> out@ == f(t, b@, a)
}

/// Texel `rx` of one row after a coverage row was applied: blended from its base where it
/// is covered, else as it was.
pub open spec fn row_covered(
    row0: Seq<u8>,
    row: Seq<u8>,
    base: Seq<u8>,
    cov: Seq<u32>,
    x0: int,
    first: int,
    f: spec_fn(usize, Seq<u8>, u32) -> Seq<u8>,
    rx: int,
) -> bool {
    texel(row, x0 + rx) == if cov[rx] == 0 {
        texel(row0, x0 + rx)
    } else {
        f((first + x0 + rx) as usize, texel(base, x0 + rx), cov[rx])
    }
}

/// Applies one row of a coverage map to one row of the image, against the same row of the
/// pre-stroke image. `x0` is the first covered column and `first` the texel number of the
/// row's start. Rows are independent of each other.
pub fn apply_coverage_row<B: Fn(usize, [u8; 4], u32) -> [u8; 4]>(
    row: &mut [u8],
    base: &[u8],
    cov: &[u32],
    x0: usize,
    first: usize,
    blend: &B,
)
    requires
        4 * (x0 + cov@.len()) <= old(row)@.len(),
        old(row)@.len() == base@.len(),
        first + x0 + cov@.len() <= usize::MAX,
        forall|t: usize, b: [u8; 4], a: u32| #[trigger] blend.requires((t, b, a)),
    ensures
        final(row)@.len() == old(row)@.len(),
        forall|i: int|
            0 <= i < old(row)@.len() && (i < 4 * x0 || i >= 4 * (x0 + cov@.len()))
                ==> #[trigger] final(row)@[i] == old(row)@[i],
        forall|f: spec_fn(usize, Seq<u8>, u32) -> Seq<u8>, rx: int|
            #![trigger cover_agrees(*blend, f), cov@[rx]]
            cover_agrees(*blend, f) && 0 <= rx < cov@.len() ==> row_covered(
                old(row)@,
                final(row)@,
                base@,
                cov@,
                x0 as int,
                first as int,
                f,
                rx,
            ),
{
    let n: usize = cov.len();
    let ghost before = row@;
    let len: usize = row.len();
    let mut rx: usize = 0;
    while rx < n
        invariant
            rx <= n == cov@.len(),
            len == before.len() == row@.len() == base@.len(),
            4 * (x0 + n) <= len,
            first + x0 + n <= usize::MAX,
            forall|t: usize, b: [u8; 4], a: u32| #[trigger] blend.requires((t, b, a)),
            forall|i: int|
                0 <= i < len && (i < 4 * x0 || i >= 4 * (x0 + rx)) ==> #[trigger] row@[i]
                    == before[i],
            forall|f: spec_fn(usize, Seq<u8>, u32) -> Seq<u8>, k: int|
                #![trigger cover_agrees(*blend, f), cov@[k]]
                cover_agrees(*blend, f) && 0 <= k < rx ==> row_covered(
                    before,
                    row@,
                    base@,
                    cov@,
                    x0 as int,
                    first as int,
                    f,
                    k,
                ),
        decreases n - rx,
    {
        let a: u32 = cov[rx];
        let i: usize = 4 * (x0 + rx);
        let ghost was = row@;
        if a > 0 {
            let b: [u8; 4] = [base[i], base[i + 1], base[i + 2], base[i + 3]];
            let out: [u8; 4] = (*blend)(first + x0 + rx, b, a);
            row[i] = out[0];
            row[i + 1] = out[1];
            row[i + 2] = out[2];
            row[i + 3] = out[3];
            proof {
                assert(b@ =~= texel(base@, x0 + rx));
                assert(texel(row@, x0 + rx) =~= out@);
            }
        } else {
            assert(texel(row@, x0 + rx) =~= texel(before, x0 + rx));
        }
        proof {
            assert forall|f: spec_fn(usize, Seq<u8>, u32) -> Seq<u8>, k: int|
                #![trigger cover_agrees(*blend, f), cov@[k]]
                cover_agrees(*blend, f) && 0 <= k < rx + 1 implies row_covered(
                before,
                row@,
                base@,
                cov@,
                x0 as int,
                first as int,
                f,
                k,
            ) by {
                if k < rx {
                    assert(texel(row@, x0 + k) =~= texel(was, x0 + k));
                    assert(row_covered(
                        before,
                        was,
                        base@,
                        cov@,
                        x0 as int,
                        first as int,
                        f,
                        k,
                    ));
                }
            }
        }
        rx += 1;
    }
}

/// The four bytes of the texel at `(x, y)` of an image `w` wide.
pub open spec fn texel_xy(px: Seq<u8>, w: int, x: int, y: int) -> Seq<u8> {
    texel(px, y * w + x)
}

/// The coverage of the texel at image position `(x, y)` in a map packed over `rect`.
pub open spec fn cov_at(cov: Seq<u32>, rect: TexRect, x: int, y: int) -> u32 {
    cov[(y - rect.y0) * rect.width_spec() + (x - rect.x0)]
}

/// The texel at `(x, y)` after a coverage map was applied: blended from its base where the
/// map covers it, else as it was.
pub open spec fn texel_covered(
    px0: Seq<u8>,
    px: Seq<u8>,
    base: Seq<u8>,
    cov: Seq<u32>,
    rect: TexRect,
    w: int,
    f: spec_fn(usize, Seq<u8>, u32) -> Seq<u8>,
    x: int,
    y: int,
) -> bool {
    texel_xy(px, w, x, y) == if rect.has(x, y) && cov_at(cov, rect, x, y) > 0 {
        f((y * w + x) as usize, texel_xy(base, w, x, y), cov_at(cov, rect, x, y))
    } else {
        texel_xy(px0, w, x, y)
    }
}

/// Applies a coverage map, packed over `rect`, to a square image against its pre-stroke
/// pixels. Applying the same map again gives the same image.
pub fn apply_coverage<B: Fn(usize, [u8; 4], u32) -> [u8; 4]>(
    px: &mut Vec<u8>,
    base: &Vec<u8>,
    cov: &Vec<u32>,
    rect: TexRect,
    size: u32,
    blend: &B,
)
    requires
        is_image(old(px)@, size as int, size as int),
        is_image(base@, size as int, size as int),
        rect.within(size as int, size as int),
        cov.len() == rect.width_spec() * rect.height_spec(),
        forall|t: usize, b: [u8; 4], a: u32| #[trigger] blend.requires((t, b, a)),
    ensures
        final(px).len() == old(px).len(),
        forall|x: int, y: int|
            0 <= x < size && 0 <= y < size && !(rect.has(x, y) && cov_at(cov@, rect, x, y) > 0)
                ==> #[trigger] texel_xy(final(px)@, size as int, x, y) == texel_xy(
                old(px)@,
                size as int,
                x,
                y,
            ),
        forall|f: spec_fn(usize, Seq<u8>, u32) -> Seq<u8>, x: int, y: int|
            #![trigger cover_agrees(*blend, f), texel_xy(final(px)@, size as int, x, y)]
            cover_agrees(*blend, f) && 0 <= x < size && 0 <= y < size ==> texel_covered(
                old(px)@,
                final(px)@,
                base@,
                cov@,
                rect,
                size as int,
                f,
                x,
                y,
            ),
{
    let ghost w: int = size as int;
    let ghost before = px@;
    let ghost rw: int = rect.width_spec();
    let ghost rh: int = rect.height_spec();
    let wide: usize = size as usize;
    let row: usize = rect.width() as usize;
    let mut y: u32 = rect.y0;
    while y < rect.y1
        invariant
            w == size == wide,
            rw == rect.width_spec() == row,
            rh == rect.height_spec(),
            is_image(before, w, w),
            is_image(px@, w, w),
            is_image(base@, w, w),
            rect.within(w, w),
            cov.len() == rw * rh,
            rect.y0 <= y <= rect.y1,
            forall|t: usize, b: [u8; 4], a: u32| #[trigger] blend.requires((t, b, a)),
            forall|u: int, v: int|
                0 <= u < w && 0 <= v < w && !(rect.has(u, v) && v < y && cov_at(
                    cov@,
                    rect,
                    u,
                    v,
                ) > 0) ==> #[trigger] texel_xy(px@, w, u, v) == texel_xy(before, w, u, v),
            forall|f: spec_fn(usize, Seq<u8>, u32) -> Seq<u8>, u: int, v: int|
                #![trigger cover_agrees(*blend, f), texel_xy(px@, w, u, v)]
                cover_agrees(*blend, f) && 0 <= u < w && 0 <= v < y ==> texel_covered(
                    before,
                    px@,
                    base@,
                    cov@,
                    rect,
                    w,
                    f,
                    u,
                    v,
                ),
        decreases rect.y1 - y,
    {
        let mut x: u32 = rect.x0;
        while x < rect.x1
            invariant
                w == size == wide,
                rw == rect.width_spec() == row,
                rh == rect.height_spec(),
                is_image(before, w, w),
                is_image(px@, w, w),
                is_image(base@, w, w),
                rect.within(w, w),
                cov.len() == rw * rh,
                rect.y0 <= y < rect.y1,
                rect.x0 <= x <= rect.x1,
                forall|t: usize, b: [u8; 4], a: u32| #[trigger] blend.requires((t, b, a)),
                forall|u: int, v: int|
                    0 <= u < w && 0 <= v < w && !(rect.has(u, v) && (v < y || (v == y && u < x))
                        && cov_at(cov@, rect, u, v) > 0) ==> #[trigger] texel_xy(px@, w, u, v)
                        == texel_xy(before, w, u, v),
                forall|f: spec_fn(usize, Seq<u8>, u32) -> Seq<u8>, u: int, v: int|
                    #![trigger cover_agrees(*blend, f), texel_xy(px@, w, u, v)]
                    cover_agrees(*blend, f) && 0 <= u < w && 0 <= v && (v < y || (v == y && u < x))
                        ==> texel_covered(before, px@, base@, cov@, rect, w, f, u, v),
            decreases rect.x1 - x,
        {
            proof {
                lemma_in_image(x as int, y as int, w, w);
                lemma_in_image(x - rect.x0, y - rect.y0, rw, rh);
                assert(0 <= y * w) by (nonlinear_arith)
                    requires
                        0 <= y,
                        0 <= w,
                ;
                assert(0 <= (y - rect.y0) * rw) by (nonlinear_arith)
                    requires
                        0 <= y - rect.y0,
                        0 <= rw,
                ;
                assert(y * w <= px.len());
                assert((y - rect.y0) * rw + (x - rect.x0) < cov.len());
            }
            let t: usize = y as usize * wide + x as usize;
            let a: u32 = cov[(y - rect.y0) as usize * row + (x - rect.x0) as usize];
            let ghost was = px@;
            if a > 0 {
                let i: usize = 4 * t;
                let b: [u8; 4] = [base[i], base[i + 1], base[i + 2], base[i + 3]];
                let out: [u8; 4] = (*blend)(t, b, a);
                px.set(i, out[0]);
                px.set(i + 1, out[1]);
                px.set(i + 2, out[2]);
                px.set(i + 3, out[3]);
                proof {
                    assert(b@ =~= texel_xy(base@, w, x as int, y as int));
                    assert(texel_xy(px@, w, x as int, y as int) =~= out@);
                }
            }
            proof {
                assert forall|u: int, v: int|
                    0 <= u < w && 0 <= v < w && (u, v) != (x as int, y as int) implies
                    #[trigger] texel_xy(px@, w, u, v) == texel_xy(was, w, u, v) by {
                    lemma_texel_apart(u, v, x as int, y as int, w);
                    lemma_in_image(u, v, w, w);
                    assert(texel_xy(px@, w, u, v) =~= texel_xy(was, w, u, v));
                }
                assert(a == cov_at(cov@, rect, x as int, y as int));
                assert forall|f: spec_fn(usize, Seq<u8>, u32) -> Seq<u8>, u: int, v: int|
                    #![trigger cover_agrees(*blend, f), texel_xy(px@, w, u, v)]
                    cover_agrees(*blend, f) && 0 <= u < w && 0 <= v && (v < y || (v == y && u < x
                        + 1)) implies texel_covered(
                    before,
                    px@,
                    base@,
                    cov@,
                    rect,
                    w,
                    f,
                    u,
                    v,
                ) by {
                    if (u, v) != (x as int, y as int) {
                        assert(texel_xy(px@, w, u, v) == texel_xy(was, w, u, v));
                        assert(texel_covered(before, was, base@, cov@, rect, w, f, u, v));
                    } else if a == 0 {
                        assert(texel_xy(was, w, u, v) == texel_xy(before, w, u, v));
                    }
                }
            }
            x += 1;
        }
        proof {
            assert forall|f: spec_fn(usize, Seq<u8>, u32) -> Seq<u8>, u: int, v: int|
                #![trigger cover_agrees(*blend, f), texel_xy(px@, w, u, v)]
                cover_agrees(*blend, f) && 0 <= u < w && 0 <= v < y + 1 implies texel_covered(
                before,
                px@,
                base@,
                cov@,
                rect,
                w,
                f,
                u,
                v,
            ) by {
                if v == y && u >= x {
                    assert(!rect.has(u, v));
                    assert(texel_xy(px@, w, u, v) == texel_xy(before, w, u, v));
                }
            }
        }
        y += 1;
    }
}

/// Applying a coverage map is idempotent: it always starts from the base, so a region that
/// arrives twice changes nothing the second time.
pub proof fn law_coverage_applies_once(
    px0: Seq<u8>,
    px1: Seq<u8>,
    px2: Seq<u8>,
    base: Seq<u8>,
    cov: Seq<u32>,
    rect: TexRect,
    w: int,
    f: spec_fn(usize, Seq<u8>, u32) -> Seq<u8>,
    x: int,
    y: int,
)
    requires
        texel_covered(px0, px1, base, cov, rect, w, f, x, y),
        texel_covered(px1, px2, base, cov, rect, w, f, x, y),
    ensures
        texel_xy(px2, w, x, y) == texel_xy(px1, w, x, y),
{
}

/// Texel `t` shows its coverage by a stroke in one colour: the pre-stroke value where it is
/// not covered, else the colour laid over that value.
pub open spec fn shows_coverage(
    state: StrokeBuffers,
    px: Seq<u8>,
    base: Seq<u8>,
    color: Seq<u8>,
    f: spec_fn(Seq<u8>, Seq<u8>, u32) -> Seq<u8>,
    t: int,
) -> bool {
    &&& state.touched(t) ==> state.base_of(t) == texel(base, t)
    &&& texel(px, t) == if state.covered(t) == 0 {
        texel(base, t)
    } else {
        f(texel(base, t), color, state.covered(t))
    }
}

/// A stroke in one colour depends on its coverage alone: whatever splats are laid, in
/// whatever order and however many dabs, a texel that showed its coverage shows it again.
pub proof fn law_a_stroke_shows_its_coverage(
    before: StrokeBuffers,
    after: StrokeBuffers,
    px0: Seq<u8>,
    px: Seq<u8>,
    base: Seq<u8>,
    splats: Seq<Splat>,
    color: Seq<u8>,
    f: spec_fn(Seq<u8>, Seq<u8>, u32) -> Seq<u8>,
    t: int,
)
    requires
        shows_coverage(before, px0, base, color, f, t),
        after.state_laid(before, px0, splats, splats.len() as int, t),
        after.texel_laid(before, px0, px, splats, splats.len() as int, f, t),
        forall|i: int|
            0 <= i < splats.len() && (#[trigger] splats[i]).texel == t ==> splats[i].src@ == color,
    ensures
        shows_coverage(after, px, base, color, f, t),
{
    law_peak_is_the_maximum(splats, before.covered(t), t, splats.len() as int);
}

/// Blending a coverage map that was read back gives what laying the dabs gives: where the
/// map holds the stroke's coverage, both images agree, whatever earlier readbacks of the
/// stroke have painted.
pub proof fn law_read_back_coverage_matches_laid_dabs(
    state: StrokeBuffers,
    laid: Seq<u8>,
    so_far: Seq<u8>,
    blended: Seq<u8>,
    base: Seq<u8>,
    cov: Seq<u32>,
    rect: TexRect,
    w: int,
    color: Seq<u8>,
    f: spec_fn(Seq<u8>, Seq<u8>, u32) -> Seq<u8>,
    g: spec_fn(usize, Seq<u8>, u32) -> Seq<u8>,
    x: int,
    y: int,
)
    requires
        shows_coverage(state, laid, base, color, f, y * w + x),
        texel_covered(so_far, blended, base, cov, rect, w, g, x, y),
        state.covered(y * w + x) == 0 ==> texel_xy(so_far, w, x, y) == texel_xy(base, w, x, y),
        forall|t: usize, b: Seq<u8>, a: u32| #[trigger] g(t, b, a) == f(b, color, a),
        if rect.has(x, y) {
            cov_at(cov, rect, x, y) == state.covered(y * w + x)
        } else {
            state.covered(y * w + x) == 0
        },
    ensures
        texel_xy(blended, w, x, y) == texel_xy(laid, w, x, y),
{
}

} // verus!
