//! Painting: strokes, fills, the hover ghost, and strokes accumulated on the GPU.

use crate::fill::{
    facets_of, kept, law_locked_paint_stays_on_the_face, texels_with, FillMap,
};
use crate::fills::{
    fill_texel, law_a_face_fill_colours_its_facet, law_an_island_fill_colours_its_island,
    law_an_object_fill_colours_what_is_covered, target_texel,
};
use crate::layers::LayerOp;
use crate::renderer::{
    clamp_u32, clamped, BrushState, DabPath, Display, GpuStroke, PaintTarget, Renderer,
    StrokeBackup,
};
use crate::segments::{
    disc_borne, lemma_all_dabs_are_laid, lemma_all_discs_are_laid, step_borne,
};
use crate::stroke::{deposited, Splat};
use crate::texture::{grown, grown_spec, TexRect};
use vstd::prelude::*;

verus! {

/// What is left to do when a stroke ended.
#[derive(Clone, Copy, Debug)]
pub struct StrokeEnd {
    /// What was noted of the stroke for the layer's automatic name.
    pub token: Option<LayerOp>,
    /// Refresh this rectangle of the mirror.
    pub resync: Option<TexRect>,
}

/// The splats as they are laid: into a mask, every splat brings the mask's level.
pub open spec fn aimed(splats: Seq<Splat>, brush: BrushState) -> Seq<Splat> {
    if brush.on_mask() {
        Seq::new(
            splats.len(),
            |i: int|
                Splat {
                    texel: splats[i].texel,
                    cov: splats[i].cov,
                    src: [brush.mask_level(), brush.mask_level(), brush.mask_level()],
                },
        )
    } else {
        splats
    }
}

/// A region grown by a rectangle that may be empty.
pub open spec fn grown_by(prev: Option<TexRect>, r: Option<TexRect>) -> Option<TexRect> {
    match r {
        Some(r) => Some(grown_spec(prev, r)),
        None => prev,
    }
}

impl<F> Renderer<F> {
    /// Splats were laid into the colour or the mask: the document and the stroke buffers
    /// changed as the stroke discipline says, and the box of the change is to be shown.
    pub open spec fn laid_from<B: Fn([u8; 4], [u8; 3], u32) -> [u8; 4]>(
        &self,
        before: &Renderer<F>,
        mask: bool,
        splats: Seq<Splat>,
        blend: B,
        rect: Option<TexRect>,
    ) -> bool {
        &&& self.doc@ == before.doc@.painted(mask, self.doc@.canvas(mask))
        &&& deposited(
            before.buffers,
            self.buffers,
            before.doc@.canvas(mask),
            self.doc@.canvas(mask),
            splats,
            before.tex_size,
            blend,
            rect,
        )
        &&& self.tex_size == before.tex_size
        &&& self.stroke_dirty
        &&& self.display == (Display {
            dirty_rect: grown_by(before.display.dirty_rect, rect),
            ..before.display
        })
        &&& self.stroke_rect == grown_by(before.stroke_rect, rect)
        &&& self.same_around_doc(
            &Renderer {
                stroke_dirty: self.stroke_dirty,
                display: self.display,
                stroke_rect: self.stroke_rect,
                ..*before
            },
        )
    }
}

/// Every splat is a texel of the image.
pub open spec fn splats_in(splats: Seq<Splat>, size: u32) -> bool {
    forall|i: int| 0 <= i < splats.len() ==> (#[trigger] splats[i]).texel < size * size
}

/// `blend` takes every texel, colour and coverage.
pub open spec fn blends<B: Fn([u8; 4], [u8; 3], u32) -> [u8; 4]>(blend: B) -> bool {
    forall|b: [u8; 4], c: [u8; 3], a: u32| #[trigger] blend.requires((b, c, a))
}

/// What a dab on a triangle would lay: the splats it lays when it is painted on the CPU, and
/// the triangles it is stamped on when its coverage is accumulated on the GPU. The number
/// tells it apart when it is stamped.
#[derive(Debug)]
pub struct Touch {
    pub tri: u32,
    pub id: usize,
    pub splats: Vec<Splat>,
    pub faces: Vec<u32>,
}

/// A dab at the cursor, and its mirror image.
#[derive(Debug)]
pub struct ScreenDab {
    pub hit: Option<Touch>,
    pub mirror: Option<Touch>,
}

impl ScreenDab {
    pub open spec fn fits(&self, size: u32) -> bool {
        &&& self.hit is Some ==> splats_in((self.hit->0).splats@, size)
        &&& self.mirror is Some ==> splats_in((self.mirror->0).splats@, size)
    }
}

/// What a dab is painted with. `clean` says that no effects are at work on the active layer.
#[derive(Clone, Copy, Debug)]
pub struct Ink {
    pub color: [u8; 3],
    pub erase: bool,
    pub clean: bool,
}

/// `stamp` takes every dab on every set of triangles.
pub open spec fn stamps<G: Fn(usize, &Vec<u32>) -> Option<TexRect>>(stamp: G) -> bool {
    forall|id: usize, faces: &Vec<u32>| #[trigger] stamp.requires((id, faces))
}

impl<F> Renderer<F> {
    /// The surface that is painted on is the same, and so is whether a face lock is on.
    pub open spec fn same_ground(&self, before: &Renderer<F>) -> bool {
        &&& self.tex_size == before.tex_size
        &&& self.scene == before.scene
        &&& self.lock.on == before.lock.on
    }

    /// The splats that a face lock lets through.
    pub open spec fn unlocked(&self, splats: Seq<Splat>) -> Seq<Splat> {
        if self.lock.confines() && self.scene.fill_map is Some {
            kept(
                splats,
                |s: Splat|
                    self.lock.texel_admitted(&(self.scene.fill_map->0), s.texel as int),
            )
        } else {
            splats
        }
    }

    /// The triangles that a face lock lets through.
    pub open spec fn unlocked_faces(&self, faces: Seq<u32>) -> Seq<u32> {
        if self.lock.confines() && self.scene.fill_map is Some {
            kept(faces, |f: u32| self.lock.face_admitted(&(self.scene.fill_map->0), f))
        } else {
            faces
        }
    }

    /// Coverage was stamped on the triangles that the lock lets through, with the footprint
    /// that `stamp` answered; without one nothing was stamped.
    pub open spec fn gpu_dabbed<G: Fn(usize, &Vec<u32>) -> Option<TexRect>>(
        &self,
        before: &Renderer<F>,
        touch: Touch,
        ink: Ink,
        stamp: G,
        done: bool,
    ) -> bool {
        exists|on: Vec<u32>, rect: Option<TexRect>| #[trigger]
            stamp.ensures((touch.id, &on), rect) && on@ == before.unlocked_faces(touch.faces@) && done
                == rect is Some && *self == before.stamped(rect, ink.color, ink.erase, ink.clean)
    }

    /// Splats were laid, over some box.
    pub open spec fn laid_by<B: Fn([u8; 4], [u8; 3], u32) -> [u8; 4]>(
        &self,
        before: &Renderer<F>,
        mask: bool,
        splats: Seq<Splat>,
        blend: B,
    ) -> bool {
        exists|rect: Option<TexRect>| #[trigger]
            self.laid_from(before, mask, splats, blend, rect)
    }

    /// Splats were laid into what the brush paints into; on colour the eraser rubs.
    pub open spec fn dabbed_from<
        B: Fn([u8; 4], [u8; 3], u32) -> [u8; 4],
        C: Fn([u8; 4], [u8; 3], u32) -> [u8; 4],
    >(&self, before: &Renderer<F>, splats: Seq<Splat>, erase: bool, blend: B, rub: C) -> bool {
        if erase && !before.brush.on_mask() {
            self.laid_by(before, false, splats, rub)
        } else {
            self.laid_by(
                before,
                before.brush.on_mask(),
                aimed(splats, before.brush),
                blend,
            )
        }
    }

    /// A dab was laid on the surface: what the lock lets through, on the GPU, as a stamp or
    /// as the brush paints; nothing let through, nothing laid.
    pub open spec fn surface_dabbed<
        B: Fn([u8; 4], [u8; 3], u32) -> [u8; 4],
        C: Fn([u8; 4], [u8; 3], u32) -> [u8; 4],
        G: Fn(usize, &Vec<u32>) -> Option<TexRect>,
    >(
        &self,
        before: &Renderer<F>,
        touch: Touch,
        ink: Ink,
        blend: B,
        rub: C,
        stamp: G,
        done: bool,
    ) -> bool {
        let path = before.brush.path(ink.erase, before.gpu.paint);
        let laid = before.unlocked(touch.splats@);
        if path == DabPath::Gpu {
            self.gpu_dabbed(before, touch, ink, stamp, done)
        } else {
            &&& done == (laid.len() > 0)
            &&& if !done {
                *self == *before
            } else if path == DabPath::Decal {
                self.laid_by(before, false, laid, blend)
            } else {
                self.dabbed_from(before, laid, ink.erase, blend, rub)
            }
        }
    }

    /// The lock of the running stroke was fixed by a dab, if it was on and not yet fixed.
    pub open spec fn locked_from(
        &self,
        before: &Renderer<F>,
        hit: u32,
        mirror: Option<u32>,
    ) -> bool {
        &&& self.lock.on == before.lock.on
        &&& *self == (Renderer { lock: self.lock, ..*before })
        &&& if !before.lock.on || before.lock.facets is Some {
            self.lock.facets == before.lock.facets
        } else {
            self.lock.facets is Some && (self.lock.facets->0)@ == match mirror {
                Some(m) => facets_of(&(before.scene.fill_map->0), seq![hit, m], 2),
                None => facets_of(&(before.scene.fill_map->0), seq![hit], 1),
            }
        }
    }

    /// A dab at the cursor was laid, with its mirror image.
    pub open spec fn stamped_from<
        B: Fn([u8; 4], [u8; 3], u32) -> [u8; 4],
        C: Fn([u8; 4], [u8; 3], u32) -> [u8; 4],
        G: Fn(usize, &Vec<u32>) -> Option<TexRect>,
    >(
        &self,
        before: &Renderer<F>,
        dab: ScreenDab,
        ink: Ink,
        blend: B,
        rub: C,
        stamp: G,
        done: bool,
    ) -> bool {
        match (dab.hit, dab.mirror) {
            (None, _) => *self == *before && !done,
            (Some(h), None) => exists|locked: Renderer<F>| #[trigger]
                locked.locked_from(before, h.tri, None) && self.surface_dabbed(
                    &locked,
                    h,
                    ink,
                    blend,
                    rub,
                    stamp,
                    done,
                ),
            (Some(h), Some(m)) => exists|
                locked: Renderer<F>,
                mid: Renderer<F>,
                first: bool,
                second: bool,
            |
                #![trigger
                    locked.locked_from(before, h.tri, Some(m.tri)),
                    mid.surface_dabbed(&locked, h, ink, blend, rub, stamp, first),
                    self.surface_dabbed(&mid, m, ink, blend, rub, stamp, second)]
                locked.locked_from(before, h.tri, Some(m.tri)) && mid.surface_dabbed(
                    &locked,
                    h,
                    ink,
                    blend,
                    rub,
                    stamp,
                    first,
                ) && self.surface_dabbed(&mid, m, ink, blend, rub, stamp, second) && done == (first
                    || second),
        }
    }

    /// A disc was painted in the UV editor.
    pub open spec fn uv_dabbed<
        B: Fn([u8; 4], [u8; 3], u32) -> [u8; 4],
        C: Fn([u8; 4], [u8; 3], u32) -> [u8; 4],
    >(&self, before: &Renderer<F>, splats: Seq<Splat>, erase: bool, blend: B, rub: C) -> bool {
        exists|mid: Renderer<F>| #[trigger]
            uv_marked(mid, *self) && if splats.len() == 0 {
                mid == *before
            } else {
                mid.dabbed_from(before, splats, erase, blend, rub)
            }
    }
}

/// The stroke counts as one of the UV editor, and nothing else changed.
pub open spec fn uv_marked<F>(mid: Renderer<F>, after: Renderer<F>) -> bool {
    after == (Renderer { uv_stroke: true, ..mid })
}

/// One dab of a segment.
pub open spec fn segment_step<
    F,
    D: Fn(u32, u32) -> ScreenDab,
    B: Fn([u8; 4], [u8; 3], u32) -> [u8; 4],
    C: Fn([u8; 4], [u8; 3], u32) -> [u8; 4],
    G: Fn(usize, &Vec<u32>) -> Option<TexRect>,
>(
    before: Renderer<F>,
    after: Renderer<F>,
    k: u32,
    n: u32,
    dab: D,
    ink: Ink,
    blend: B,
    rub: C,
    stamp: G,
) -> bool {
    exists|d: ScreenDab, done: bool|
        #![trigger
            dab.ensures((k, n), d),
            after.stamped_from(&before, d, ink, blend, rub, stamp, done)]
        dab.ensures((k, n), d) && after.stamped_from(&before, d, ink, blend, rub, stamp, done)
}

/// The states of a segment of `n` dabs, the first before and the last after it.
pub open spec fn is_segment<
    F,
    D: Fn(u32, u32) -> ScreenDab,
    B: Fn([u8; 4], [u8; 3], u32) -> [u8; 4],
    C: Fn([u8; 4], [u8; 3], u32) -> [u8; 4],
    G: Fn(usize, &Vec<u32>) -> Option<TexRect>,
>(
    states: Seq<Renderer<F>>,
    n: u32,
    dab: D,
    ink: Ink,
    blend: B,
    rub: C,
    stamp: G,
) -> bool {
    &&& states.len() == n + 1
    &&& forall|i: int|
        0 < i < states.len() ==> segment_step(
            states[i - 1],
            #[trigger] states[i],
            i as u32,
            n,
            dab,
            ink,
            blend,
            rub,
            stamp,
        )
}

/// One disc of a segment in the UV editor.
pub open spec fn uv_step<
    F,
    D: Fn(u32, u32) -> Vec<Splat>,
    B: Fn([u8; 4], [u8; 3], u32) -> [u8; 4],
    C: Fn([u8; 4], [u8; 3], u32) -> [u8; 4],
>(
    before: Renderer<F>,
    after: Renderer<F>,
    k: u32,
    n: u32,
    disc: D,
    erase: bool,
    blend: B,
    rub: C,
) -> bool {
    exists|v: Vec<Splat>| #[trigger]
        disc.ensures((k, n), v) && after.uv_dabbed(&before, v@, erase, blend, rub)
}

/// The states of a UV segment of `n` discs, the first before and the last after it.
pub open spec fn is_uv_segment<
    F,
    D: Fn(u32, u32) -> Vec<Splat>,
    B: Fn([u8; 4], [u8; 3], u32) -> [u8; 4],
    C: Fn([u8; 4], [u8; 3], u32) -> [u8; 4],
>(states: Seq<Renderer<F>>, n: u32, disc: D, erase: bool, blend: B, rub: C) -> bool {
    &&& states.len() == n + 1
    &&& forall|i: int|
        0 < i < states.len() ==> uv_step(
            states[i - 1],
            #[trigger] states[i],
            i as u32,
            n,
            disc,
            erase,
            blend,
            rub,
        )
}

impl<F: Copy> Renderer<F> {
    /// Begins a stroke: no texel is covered yet, the images of the active layer are kept
    /// for undo, and no facet is locked.
    pub fn begin_stroke(&mut self)
        requires
            old(self).wf(),
        ensures
            final(self).wf(),
            final(self).stroke_ok(),
            final(self).backup_ok(),
            final(self).stroke_fresh(),
            final(self).doc@ == old(self).doc@,
            final(self).tex_size == old(self).tex_size,
            final(self).pending matches Some(b) && b.active == old(self).doc@.stack.active
                && b.tex@ == old(self).doc@.stack.active_layer().tex && b.mask@
                == old(self).doc@.stack.active_layer().mask,
            !final(self).stroke_dirty,
            final(self).stroke_rect is None,
            !final(self).uv_stroke,
            final(self).lock.on == old(self).lock.on,
            final(self).lock.facets is None,
            final(self).gpu == (GpuStroke {
                rect: None,
                resolve: false,
                material: false,
                ..old(self).gpu
            }),
            final(self).same_around_doc(
                &Renderer {
                    pending: final(self).pending,
                    stroke_dirty: final(self).stroke_dirty,
                    stroke_rect: final(self).stroke_rect,
                    uv_stroke: final(self).uv_stroke,
                    lock: final(self).lock,
                    gpu: final(self).gpu,
                    display: Display { preview_key: None, ..old(self).display },
                    ..*old(self)
                },
            ),
    {
        self.buffers.bump_stroke_id();
        self.lock.facets = None;
        let (active, tex, mask) = self.doc.active_images();
        self.pending = Some(StrokeBackup { active, tex, mask });
        self.stroke_dirty = false;
        self.gpu.rect = None;
        self.gpu.resolve = false;
        self.gpu.material = false;
        self.stroke_rect = None;
        self.uv_stroke = false;
        self.display.preview_key = None;
    }

    /// Ends the stroke. One that painted becomes one undo step and marks the document
    /// changed; one that did not leaves no trace. A colour stroke names its layer. With
    /// layers composited on the GPU the mirror is refreshed over what was painted.
    pub fn end_stroke(&mut self) -> (end: StrokeEnd)
        requires
            old(self).wf(),
            old(self).backup_ok(),
        ensures
            final(self).wf(),
            final(self).pending is None,
            !final(self).stroke_dirty,
            final(self).stroke_rect is None,
            final(self).tex_size == old(self).tex_size,
            final(self).buffers == old(self).buffers,
            ({
                let committed = old(self).pending is Some && old(self).stroke_dirty;
                let b = old(self).pending->0;
                let done = old(self).doc@.stroke_committed(b.active as int, b.tex@, b.mask@);
                let op = if old(self).brush.has_image {
                    LayerOp::Stamp
                } else {
                    LayerOp::Stroke
                };
                if !committed {
                    final(self).doc@ == old(self).doc@ && end.token is None
                } else if old(self).brush.on_mask() {
                    final(self).doc@ == done && end.token is None
                } else {
                    final(self).doc@ == done.noted(op) && end.token == Some(op)
                }
            }),
            end.resync == if old(self).gpu.display {
                old(self).stroke_rect
            } else {
                None
            },
            final(self).same_around_doc(
                &Renderer {
                    pending: None,
                    stroke_dirty: false,
                    stroke_rect: None,
                    display: Display { preview_key: None, ..old(self).display },
                    ..*old(self)
                },
            ),
    {
        let mut token: Option<LayerOp> = None;
        match self.pending.take() {
            Some(b) => {
                if self.stroke_dirty {
                    self.doc.commit_stroke(b.active, b.tex, b.mask);
                    if self.brush.target == PaintTarget::Color {
                        let op: LayerOp = if self.brush.has_image {
                            LayerOp::Stamp
                        } else {
                            LayerOp::Stroke
                        };
                        self.doc.note(op);
                        token = Some(op);
                    }
                }
            },
            None => {},
        }
        self.stroke_dirty = false;
        let painted = self.stroke_rect.take();
        let resync = if self.gpu.display {
            painted
        } else {
            None
        };
        self.display.preview_key = None;
        StrokeEnd { token, resync }
    }

    fn lay<B: Fn([u8; 4], [u8; 3], u32) -> [u8; 4]>(
        &mut self,
        mask: bool,
        splats: &Vec<Splat>,
        blend: &B,
    )
        requires
            old(self).wf(),
            splats_in(splats@, old(self).tex_size),
            blends(*blend),
        ensures
            final(self).wf(),
            final(self).laid_by(old(self), mask, splats@, *blend),
    {
        let ghost before = *self;
        let rect = self.doc.deposit(&mut self.buffers, mask, splats, blend);
        match rect {
            Some(r) => {
                self.display.dirty_rect = Some(grown(self.display.dirty_rect, r));
                self.stroke_rect = Some(grown(self.stroke_rect, r));
            },
            None => {},
        }
        self.stroke_dirty = true;
        assert(self.laid_from(&before, mask, splats@, *blend, rect));
    }

    /// Composites splats into what the brush paints into: colour with `blend`, or with `rub`
    /// where it erases. Into a mask they bring white or black in place of their colour, and
    /// the eraser has no say. No splats, no change.
    pub fn deposit<
        B: Fn([u8; 4], [u8; 3], u32) -> [u8; 4],
        C: Fn([u8; 4], [u8; 3], u32) -> [u8; 4],
    >(&mut self, splats: &Vec<Splat>, erase: bool, blend: &B, rub: &C)
        requires
            old(self).wf(),
            splats_in(splats@, old(self).tex_size),
            blends(*blend),
            blends(*rub),
        ensures
            final(self).wf(),
            splats.len() == 0 ==> *final(self) == *old(self),
            splats.len() > 0 ==> final(self).dabbed_from(
                old(self),
                splats@,
                erase,
                *blend,
                *rub,
            ),
    {
        if splats.len() == 0 {
            return;
        }
        match self.brush.target {
            PaintTarget::Color => {
                if erase {
                    self.lay(false, splats, rub);
                } else {
                    self.lay(false, splats, blend);
                }
                assert(aimed(splats@, old(self).brush) == splats@);
            },
            PaintTarget::Mask => {
                let v: u8 = if self.brush.mask_reveal {
                    255
                } else {
                    0
                };
                let mut level: Vec<Splat> = Vec::new();
                let mut i: usize = 0;
                let ghost brush = self.brush;
                while i < splats.len()
                    invariant
                        i <= splats.len(),
                        level.len() == i,
                        brush.on_mask(),
                        v == brush.mask_level(),
                        forall|k: int|
                            0 <= k < i ==> #[trigger] level@[k] == aimed(splats@, brush)[k],
                    decreases splats.len() - i,
                {
                    let s: Splat = splats[i];
                    level.push(Splat { texel: s.texel, cov: s.cov, src: [v, v, v] });
                    i += 1;
                }
                assert(level@ =~= aimed(splats@, brush));
                assert forall|i: int| 0 <= i < level.len() implies (#[trigger] level@[i]).texel
                    < self.tex_size * self.tex_size by {
                    assert(level@[i].texel == splats@[i].texel);
                }
                self.lay(true, &level, blend);
            },
        }
    }

    /// Composites splats with a colour of their own into the active layer's colour: the
    /// decal path.
    pub fn deposit_rgb<B: Fn([u8; 4], [u8; 3], u32) -> [u8; 4]>(
        &mut self,
        splats: &Vec<Splat>,
        blend: &B,
    )
        requires
            old(self).wf(),
            splats_in(splats@, old(self).tex_size),
            blends(*blend),
        ensures
            final(self).wf(),
            splats.len() == 0 ==> *final(self) == *old(self),
            splats.len() > 0 ==> final(self).laid_by(old(self), false, splats@, *blend),
    {
        if splats.len() == 0 {
            return;
        }
        self.lay(false, splats, blend);
    }

    /// Lays one dab on the surface, in the way the brush asks for: on the GPU `stamp` stamps
    /// its coverage on triangles and answers the footprint, if there is one; a stamp brings
    /// its own colours; everything else goes into what the brush paints into. Under a
    /// confining face lock only locked facets are painted. Returns whether anything was laid.
    pub fn surface_dab<
        B: Fn([u8; 4], [u8; 3], u32) -> [u8; 4],
        C: Fn([u8; 4], [u8; 3], u32) -> [u8; 4],
        G: Fn(usize, &Vec<u32>) -> Option<TexRect>,
    >(&mut self, touch: Touch, ink: Ink, blend: &B, rub: &C, stamp: &G) -> (done: bool)
        requires
            old(self).wf(),
            old(self).lock.confines() ==> old(self).scene.fill_map is Some && (
            old(self).scene.fill_map->0).wf(),
            splats_in(touch.splats@, old(self).tex_size),
            blends(*blend),
            blends(*rub),
            stamps(*stamp),
        ensures
            final(self).wf(),
            final(self).same_ground(old(self)),
            final(self).surface_dabbed(old(self), touch, ink, *blend, *rub, *stamp, done),
    {
        let path = self.brush.dab_path(ink.erase, self.gpu.paint);
        if path == DabPath::Gpu {
            let mut faces = touch.faces;
            match &self.scene.fill_map {
                Some(map) => {
                    self.lock.retain_locked_faces(map, &mut faces);
                },
                None => {},
            }
            assert(faces@ == self.unlocked_faces(touch.faces@));
            let rect = (*stamp)(touch.id, &faces);
            return self.gpu_surface_dab(rect, ink.color, ink.erase, ink.clean);
        }
        let splats = touch.splats;
        let mut laid = splats;
        match &self.scene.fill_map {
            Some(map) => {
                proof {
                    law_locked_paint_stays_on_the_face(
                        splats@,
                        |s: Splat| self.lock.texel_admitted(map, s.texel as int),
                    );
                }
                self.lock.retain_locked(map, &mut laid);
            },
            None => {},
        }
        assert(laid@ == self.unlocked(splats@));
        assert forall|i: int| 0 <= i < laid.len() implies (#[trigger] laid@[i]).texel
            < self.tex_size * self.tex_size by {
            assert(splats@.contains(laid@[i]));
        }
        if laid.len() == 0 {
            return false;
        }
        match path {
            DabPath::Decal => {
                self.deposit_rgb(&laid, blend);
            },
            _ => {
                self.deposit(&laid, ink.erase, blend, rub);
            },
        }
        true
    }

    /// Lays one dab under the cursor, and its mirror image where there is one. Off the mesh
    /// nothing happens. The first dab of a stroke fixes the facets of a face lock. Returns
    /// whether anything was laid.
    pub fn stamp_screen<
        B: Fn([u8; 4], [u8; 3], u32) -> [u8; 4],
        C: Fn([u8; 4], [u8; 3], u32) -> [u8; 4],
        G: Fn(usize, &Vec<u32>) -> Option<TexRect>,
    >(&mut self, dab: ScreenDab, ink: Ink, blend: &B, rub: &C, stamp: &G) -> (done: bool)
        requires
            old(self).wf(),
            old(self).lock.on ==> old(self).scene.fill_map is Some && (
            old(self).scene.fill_map->0).wf(),
            dab.fits(old(self).tex_size),
            blends(*blend),
            blends(*rub),
            stamps(*stamp),
        ensures
            final(self).wf(),
            final(self).same_ground(old(self)),
            final(self).stamped_from(old(self), dab, ink, *blend, *rub, *stamp, done),
    {
        let hit: Touch = match dab.hit {
            Some(t) => t,
            None => {
                return false;
            },
        };
        let mirror: Option<u32> = match &dab.mirror {
            Some(m) => Some(m.tri),
            None => None,
        };
        self.lock_stroke(hit.tri, mirror);
        let ghost locked = *self;
        let first: bool = self.surface_dab(hit, ink, blend, rub, stamp);
        let ghost mid = *self;
        match dab.mirror {
            Some(m) => {
                let second: bool = self.surface_dab(m, ink, blend, rub, stamp);
                assert(self.surface_dabbed(&mid, m, ink, *blend, *rub, *stamp, second));
                first || second
            },
            None => first,
        }
    }

    /// The first dab of a stroke, under the cursor.
    pub fn paint_at<
        B: Fn([u8; 4], [u8; 3], u32) -> [u8; 4],
        C: Fn([u8; 4], [u8; 3], u32) -> [u8; 4],
        G: Fn(usize, &Vec<u32>) -> Option<TexRect>,
    >(&mut self, dab: ScreenDab, ink: Ink, blend: &B, rub: &C, stamp: &G)
        requires
            old(self).wf(),
            old(self).lock.on ==> old(self).scene.fill_map is Some && (
            old(self).scene.fill_map->0).wf(),
            dab.fits(old(self).tex_size),
            blends(*blend),
            blends(*rub),
            stamps(*stamp),
        ensures
            final(self).wf(),
            final(self).stamped_from(old(self), dab, ink, *blend, *rub, *stamp, true)
                || final(self).stamped_from(old(self), dab, ink, *blend, *rub, *stamp, false),
    {
        self.stamp_screen(dab, ink, blend, rub, stamp);
    }

    /// Paints a stroke segment: at least one dab and at most 1024, evenly spaced from its
    /// start to its end. `dab` gives the dab at step `k` of `n`. Returns how many there were.
    pub fn paint_segment<
        D: Fn(u32, u32) -> ScreenDab,
        B: Fn([u8; 4], [u8; 3], u32) -> [u8; 4],
        C: Fn([u8; 4], [u8; 3], u32) -> [u8; 4],
        G: Fn(usize, &Vec<u32>) -> Option<TexRect>,
    >(&mut self, wanted: u32, dab: &D, ink: Ink, blend: &B, rub: &C, stamp: &G) -> (n: u32)
        requires
            old(self).wf(),
            old(self).lock.on ==> old(self).scene.fill_map is Some && (
            old(self).scene.fill_map->0).wf(),
            forall|k: u32, m: u32| #[trigger] dab.requires((k, m)),
            forall|k: u32, m: u32, d: ScreenDab| #[trigger]
                dab.ensures((k, m), d) ==> d.fits(old(self).tex_size),
            blends(*blend),
            blends(*rub),
            stamps(*stamp),
        ensures
            n == clamp_u32(wanted, 1, 1024),
            1 <= n <= 1024,
            1 <= wanted <= 1024 ==> n == wanted,
            wanted > 1024 ==> n == 1024,
            final(self).wf(),
            exists|states: Seq<Renderer<F>>| #[trigger]
                is_segment(states, n, *dab, ink, *blend, *rub, *stamp) && states[0] == *old(self)
                    && states.last() == *final(self),
            old(self).paints_here() && old(self).lock_settled() ==> forall|k: u32|
                1 <= k <= n ==> #[trigger] step_borne(*old(self), *final(self), *dab, k, n),
    {
        let n: u32 = clamped(wanted, 1, 1024);
        let ghost mut states: Seq<Renderer<F>> = seq![*self];
        let mut k: u32 = 0;
        while k < n
            invariant
                k <= n,
                self.wf(),
                states.len() == k + 1,
                states[0] == *old(self),
                states.last() == *self,
                self.same_ground(old(self)),
                self.lock.on ==> self.scene.fill_map is Some && (self.scene.fill_map->0).wf(),
                forall|k: u32, m: u32| #[trigger] dab.requires((k, m)),
                forall|k: u32, m: u32, d: ScreenDab| #[trigger]
                    dab.ensures((k, m), d) ==> d.fits(old(self).tex_size),
                blends(*blend),
                blends(*rub),
                stamps(*stamp),
                forall|i: int|
                    0 < i < states.len() ==> segment_step(
                        states[i - 1],
                        #[trigger] states[i],
                        i as u32,
                        n,
                        *dab,
                        ink,
                        *blend,
                        *rub,
                        *stamp,
                    ),
            decreases n - k,
        {
            let ghost before = *self;
            k += 1;
            let d = (*dab)(k, n);
            let ghost given = d;
            let done: bool = self.stamp_screen(d, ink, blend, rub, stamp);
            proof {
                assert(dab.ensures((k, n), given));
                assert(self.stamped_from(&before, given, ink, *blend, *rub, *stamp, done));
                assert(segment_step(before, *self, k, n, *dab, ink, *blend, *rub, *stamp));
                let s2 = states.push(*self);
                assert forall|i: int| 0 < i < s2.len() implies segment_step(
                    s2[i - 1],
                    #[trigger] s2[i],
                    i as u32,
                    n,
                    *dab,
                    ink,
                    *blend,
                    *rub,
                    *stamp,
                ) by {
                    if i < states.len() {
                        assert(s2[i] == states[i] && s2[i - 1] == states[i - 1]);
                    }
                }
                states = s2;
            }
        }
        assert(is_segment(states, n, *dab, ink, *blend, *rub, *stamp));
        proof {
            if old(self).paints_here() && old(self).lock_settled() {
                lemma_all_dabs_are_laid(states, n, *dab, ink, *blend, *rub, *stamp);
            }
        }
        n
    }

    /// A dab is about to be laid on the triangle under the cursor, and on its mirror image
    /// where there is one. The first dab of a stroke fixes the facets a face lock confines
    /// the whole stroke to.
    pub fn lock_stroke(&mut self, hit: u32, mirror: Option<u32>)
        requires
            old(self).lock.on ==> old(self).scene.fill_map is Some && (
            old(self).scene.fill_map->0).wf(),
        ensures
            final(self).locked_from(old(self), hit, mirror),
    {
        if !self.lock.on {
            return;
        }
        let mut tris: Vec<u32> = Vec::new();
        tris.push(hit);
        match mirror {
            Some(m) => {
                tris.push(m);
                assert(tris@ =~= seq![hit, m]);
            },
            None => {
                assert(tris@ =~= seq![hit]);
            },
        }
        match &self.scene.fill_map {
            Some(map) => {
                self.lock.ensure_stroke_lock(map, &tris);
            },
            None => {},
        }
    }

    /// Paints one disc of the UV editor. The stroke counts as one of the editor, which
    /// keeps the mirror live, even where the disc covers nothing.
    pub fn paint_uv_at<
        B: Fn([u8; 4], [u8; 3], u32) -> [u8; 4],
        C: Fn([u8; 4], [u8; 3], u32) -> [u8; 4],
    >(&mut self, splats: &Vec<Splat>, erase: bool, blend: &B, rub: &C)
        requires
            old(self).wf(),
            splats_in(splats@, old(self).tex_size),
            blends(*blend),
            blends(*rub),
        ensures
            final(self).wf(),
            final(self).uv_dabbed(old(self), splats@, erase, *blend, *rub),
    {
        self.deposit(splats, erase, blend, rub);
        let ghost mid = *self;
        self.uv_stroke = true;
        assert(uv_marked(mid, *self));
    }

    /// Paints a segment in the UV editor: at least one disc and at most 4096, evenly spaced
    /// from its start to its end. `disc` gives the texels at step `k` of `n`. Returns how
    /// many discs there were.
    pub fn paint_uv_segment<
        D: Fn(u32, u32) -> Vec<Splat>,
        B: Fn([u8; 4], [u8; 3], u32) -> [u8; 4],
        C: Fn([u8; 4], [u8; 3], u32) -> [u8; 4],
    >(&mut self, wanted: u32, disc: &D, erase: bool, blend: &B, rub: &C) -> (n: u32)
        requires
            old(self).wf(),
            forall|k: u32, m: u32| #[trigger] disc.requires((k, m)),
            forall|k: u32, m: u32, v: Vec<Splat>| #[trigger]
                disc.ensures((k, m), v) ==> splats_in(v@, old(self).tex_size),
            blends(*blend),
            blends(*rub),
        ensures
            n == clamp_u32(wanted, 1, 4096),
            1 <= n <= 4096,
            1 <= wanted <= 4096 ==> n == wanted,
            wanted > 4096 ==> n == 4096,
            final(self).wf(),
            final(self).uv_stroke,
            exists|states: Seq<Renderer<F>>| #[trigger]
                is_uv_segment(states, n, *disc, erase, *blend, *rub) && states[0] == *old(self)
                    && states.last() == *final(self),
            forall|k: u32| 1 <= k <= n ==> #[trigger] disc_borne(*final(self), *disc, k, n),
    {
        let n: u32 = clamped(wanted, 1, 4096);
        let ghost mut states: Seq<Renderer<F>> = seq![*self];
        let mut k: u32 = 0;
        while k < n
            invariant
                k <= n,
                self.wf(),
                states.len() == k + 1,
                states[0] == *old(self),
                states.last() == *self,
                self.tex_size == old(self).tex_size,
                forall|k: u32, m: u32| #[trigger] disc.requires((k, m)),
                forall|k: u32, m: u32, v: Vec<Splat>| #[trigger]
                    disc.ensures((k, m), v) ==> splats_in(v@, old(self).tex_size),
                blends(*blend),
                blends(*rub),
                forall|i: int|
                    0 < i < states.len() ==> uv_step(
                        states[i - 1],
                        #[trigger] states[i],
                        i as u32,
                        n,
                        *disc,
                        erase,
                        *blend,
                        *rub,
                    ),
            decreases n - k,
        {
            let ghost before = *self;
            k += 1;
            let v = (*disc)(k, n);
            self.paint_uv_at(&v, erase, blend, rub);
            proof {
                assert(disc.ensures((k, n), v));
                assert(uv_step(before, *self, k, n, *disc, erase, *blend, *rub));
                let s2 = states.push(*self);
                assert forall|i: int| 0 < i < s2.len() implies uv_step(
                    s2[i - 1],
                    #[trigger] s2[i],
                    i as u32,
                    n,
                    *disc,
                    erase,
                    *blend,
                    *rub,
                ) by {
                    if i < states.len() {
                        assert(s2[i] == states[i] && s2[i - 1] == states[i - 1]);
                    }
                }
                states = s2;
            }
        }
        assert(is_uv_segment(states, n, *disc, erase, *blend, *rub));
        proof {
            lemma_all_discs_are_laid(states, n, *disc, erase, *blend, *rub);
        }
        n
    }
}

/// Which texels a fill floods.
#[derive(Clone, Copy, PartialEq, Eq, Structural, Debug)]
pub enum FillArea {
    /// Everything the mesh covers.
    Object,
    /// The UV island of the clicked triangle.
    Island,
    /// The flat facet of the clicked triangle.
    Face,
}

/// Texel `t` belongs to the area a click on triangle `tri` floods.
pub open spec fn in_area(map: &FillMap, area: FillArea, tri: u32, t: int) -> bool {
    match area {
        FillArea::Object => map.texel_island@[t] >= 0,
        FillArea::Island => map.texel_island@[t] == map.island_spec(tri)->0,
        FillArea::Face => map.texel_facet@[t] == map.facet_spec(tri)->0,
    }
}

/// A click on triangle `tri` has something to flood.
pub open spec fn area_found(map: &FillMap, area: FillArea, tri: u32) -> bool {
    match area {
        FillArea::Object => true,
        FillArea::Island => map.island_spec(tri) is Some,
        FillArea::Face => map.facet_spec(tri) is Some,
    }
}

impl<F> Renderer<F> {
    /// What a fill does: it lands when the click hits the mesh and the map knows the
    /// triangle; then it is one undo step, floods the area, and is noted where it floods
    /// colour, and else nothing changes.
    pub open spec fn fill_step(
        &self,
        before: &Renderer<F>,
        map: &FillMap,
        area: FillArea,
        hit: Option<u32>,
        color: [u8; 3],
        done: bool,
    ) -> bool {
        &&& self.wf()
        &&& done == (hit matches Some(tri) && area_found(map, area, tri))
        &&& self.tex_size == before.tex_size
        &&& self.same_around_doc(before)
        &&& !done ==> self.doc == before.doc && self.buffers == before.buffers
        &&& done ==> {
            &&& self.stroke_fresh()
            &&& self.doc@.one_step_after(before.doc@)
            &&& ({
                let mask = before.brush.on_mask();
                let painted = before.doc@.checkpointed().painted(mask, self.doc@.canvas(mask));
                self.doc@ == if mask {
                    painted
                } else {
                    painted.noted(LayerOp::Fill)
                }
            })
            &&& self.flooded(before, map, area, hit->0, color)
        }
    }
}

impl<F: Copy> Renderer<F> {
    /// Floods what the brush paints into with the fill colour over an area of the mesh.
    /// `hit` is the clicked triangle; a click beside the mesh, or on a triangle the map
    /// does not know, fills nothing. One undo step. Returns whether it filled.
    fn flood(
        &mut self,
        map: &FillMap,
        area: FillArea,
        hit: Option<u32>,
        color: [u8; 3],
    ) -> (done: bool)
        requires
            old(self).wf(),
            map.wf(),
            map.size == old(self).tex_size,
        ensures
            final(self).fill_step(old(self), map, area, hit, color, done),
    {
        let tri: u32 = match hit {
            Some(t) => t,
            None => {
                return false;
            },
        };
        let covered = map.covered();
        let keep: Vec<bool> = match area {
            FillArea::Object => map.covered(),
            FillArea::Island => match map.island_for_tri(tri) {
                Some(i) => texels_with(&map.texel_island, i as i32),
                None => {
                    return false;
                },
            },
            FillArea::Face => match map.facet_for_tri(tri) {
                Some(f) => texels_with(&map.texel_facet, f as i32),
                None => {
                    return false;
                },
            },
        };
        let rgba = self.brush.fill_rgba(color);
        let mask: bool = self.brush.target == PaintTarget::Mask;
        self.doc.fill(mask, rgba, &keep, &covered);
        if !mask {
            self.doc.note(LayerOp::Fill);
        }
        self.buffers.bump_stroke_id();
        proof {
            assert(mask == old(self).brush.on_mask());
            assert forall|t: int| 0 <= t < keep.len() implies #[trigger] keep@[t] == in_area(
                map,
                area,
                tri,
                t,
            ) by {}
            let px0 = old(self).doc@.canvas(mask);
            let px = self.doc@.canvas(mask);
            assert(px == crate::document::fill_result(
                px0,
                old(self).tex_size as int,
                rgba,
                keep@,
                covered@,
            ));
            assert(self.flooded_by(old(self), map, area, tri, color, keep@, covered@));
        }
        true
    }

    fn fill_area(&mut self, area: FillArea, hit: Option<u32>, color: [u8; 3]) -> (done: bool)
        requires
            old(self).wf(),
            old(self).scene.fill_map matches Some(map) && map.wf() && map.size
                == old(self).tex_size,
        ensures
            final(self).fill_step(
                old(self),
                &old(self).scene.fill_map->0,
                area,
                hit,
                color,
                done,
            ),
    {
        match self.scene.fill_map.take() {
            Some(map) => {
                let ghost mid = *self;
                let done: bool = self.flood(&map, area, hit, color);
                let ghost filled = *self;
                self.scene.fill_map = Some(map);
                proof {
                    if done {
                        let (keep, covered) = choose|keep: Seq<bool>, covered: Seq<bool>| #[trigger]
                            filled.flooded_by(&mid, &map, area, hit->0, color, keep, covered);
                        assert(self.flooded_by(
                            old(self),
                            &map,
                            area,
                            hit->0,
                            color,
                            keep,
                            covered,
                        ));
                    }
                }
                done
            },
            None => false,
        }
    }

    /// Object fill: a click on the mesh floods every texel the mesh covers.
    /// Returns whether it filled. One undo step.
    pub fn fill_object_at(&mut self, hit: Option<u32>, color: [u8; 3]) -> (done: bool)
        requires
            old(self).wf(),
            old(self).scene.fill_map matches Some(map) && map.wf() && map.size
                == old(self).tex_size,
        ensures
            final(self).fill_step(
                old(self),
                &old(self).scene.fill_map->0,
                FillArea::Object,
                hit,
                color,
                done,
            ),
            done <==> hit is Some,
            done ==> ({
                let map = old(self).scene.fill_map->0;
                let target = old(self).brush.target;
                forall|t: int|
                    0 <= t < map.size * map.size && map.texel_island@[t] >= 0
                        ==> #[trigger] target_texel(*final(self), target, t) == fill_texel(
                        *old(self),
                        color,
                    )
            }),
    {
        let done: bool = self.fill_area(FillArea::Object, hit, color);
        proof {
            let map = &(old(self).scene.fill_map->0);
            let target = old(self).brush.target;
            assert(map.size * map.size > 0) by (nonlinear_arith)
                requires
                    map.size > 0,
            ;
            law_an_object_fill_colours_what_is_covered(*old(self), *self, map, hit, color, done, 0);
            assert forall|t: int|
                0 <= t < map.size * map.size && done && map.texel_island@[t]
                    >= 0 implies #[trigger] target_texel(*self, target, t) == fill_texel(
                *old(self),
                color,
            ) by {
                let before = *old(self);
                law_an_object_fill_colours_what_is_covered(before, *self, map, hit, color, done, t);
            }
        }
        done
    }

    /// Island fill: a click floods the UV island of the clicked triangle.
    /// Returns whether it filled. One undo step.
    pub fn fill_island_at(&mut self, hit: Option<u32>, color: [u8; 3]) -> (done: bool)
        requires
            old(self).wf(),
            old(self).scene.fill_map matches Some(map) && map.wf() && map.size
                == old(self).tex_size,
        ensures
            final(self).fill_step(
                old(self),
                &old(self).scene.fill_map->0,
                FillArea::Island,
                hit,
                color,
                done,
            ),
            done <==> hit is Some && hit->0 < (old(self).scene.fill_map->0).island_of_tri.len(),
            done ==> ({
                let map = old(self).scene.fill_map->0;
                let target = old(self).brush.target;
                forall|t: int|
                    0 <= t < map.size * map.size && map.texel_island@[t]
                        == map.island_of_tri@[hit->0 as int] ==> #[trigger] target_texel(
                        *final(self),
                        target,
                        t,
                    ) == fill_texel(*old(self), color)
            }),
            done ==> ({
                let map = old(self).scene.fill_map->0;
                let target = old(self).brush.target;
                forall|t: int|
                    0 <= t < map.size * map.size && map.texel_island@[t] >= 0
                        && map.texel_island@[t] != map.island_of_tri@[hit->0 as int]
                        ==> #[trigger] target_texel(*final(self), target, t) == target_texel(
                        *old(self),
                        target,
                        t,
                    )
            }),
    {
        let done: bool = self.fill_area(FillArea::Island, hit, color);
        proof {
            let map = &(old(self).scene.fill_map->0);
            let target = old(self).brush.target;
            assert(map.size * map.size > 0) by (nonlinear_arith)
                requires
                    map.size > 0,
            ;
            law_an_island_fill_colours_its_island(*old(self), *self, map, hit, color, done, 0);
            assert forall|t: int| #![trigger target_texel(*self, target, t)]
                0 <= t < map.size * map.size && done implies ({
                let there = map.texel_island@[t] == map.island_of_tri@[hit->0 as int];
                let now = target_texel(*self, target, t);
                &&& there ==> now == fill_texel(*old(self), color)
                &&& map.texel_island@[t] >= 0 && !there ==> now == target_texel(
                    *old(self),
                    target,
                    t,
                )
            }) by {
                law_an_island_fill_colours_its_island(*old(self), *self, map, hit, color, done, t);
            }
        }
        done
    }

    /// Face fill: a click floods the flat facet of the clicked triangle, wherever its texels
    /// lie.
    /// Returns whether it filled. One undo step.
    pub fn fill_face_at(&mut self, hit: Option<u32>, color: [u8; 3]) -> (done: bool)
        requires
            old(self).wf(),
            old(self).scene.fill_map matches Some(map) && map.wf() && map.size
                == old(self).tex_size,
        ensures
            final(self).fill_step(
                old(self),
                &old(self).scene.fill_map->0,
                FillArea::Face,
                hit,
                color,
                done,
            ),
            done <==> hit is Some && hit->0 < (old(self).scene.fill_map->0).facet_of_tri.len(),
            done ==> ({
                let map = old(self).scene.fill_map->0;
                let target = old(self).brush.target;
                forall|t: int|
                    0 <= t < map.size * map.size && map.texel_facet@[t]
                        == map.facet_of_tri@[hit->0 as int] ==> #[trigger] target_texel(
                        *final(self),
                        target,
                        t,
                    ) == fill_texel(*old(self), color)
            }),
            done ==> ({
                let map = old(self).scene.fill_map->0;
                let target = old(self).brush.target;
                forall|t: int|
                    0 <= t < map.size * map.size && map.texel_island@[t] >= 0
                        && map.texel_facet@[t] != map.facet_of_tri@[hit->0 as int]
                        ==> #[trigger] target_texel(*final(self), target, t) == target_texel(
                        *old(self),
                        target,
                        t,
                    )
            }),
    {
        let done: bool = self.fill_area(FillArea::Face, hit, color);
        proof {
            let map = &(old(self).scene.fill_map->0);
            let target = old(self).brush.target;
            assert(map.size * map.size > 0) by (nonlinear_arith)
                requires
                    map.size > 0,
            ;
            law_a_face_fill_colours_its_facet(*old(self), *self, map, hit, color, done, 0);
            assert forall|t: int| #![trigger target_texel(*self, target, t)]
                0 <= t < map.size * map.size && done implies ({
                let there = map.texel_facet@[t] == map.facet_of_tri@[hit->0 as int];
                let now = target_texel(*self, target, t);
                &&& there ==> now == fill_texel(*old(self), color)
                &&& map.texel_island@[t] >= 0 && !there ==> now == target_texel(
                    *old(self),
                    target,
                    t,
                )
            }) by {
                law_a_face_fill_colours_its_facet(*old(self), *self, map, hit, color, done, t);
            }
        }
        done
    }
}

impl<F> Renderer<F> {
    /// The flooded image, for given masks of what to fill and what is covered.
    pub open spec fn flooded_by(
        &self,
        before: &Renderer<F>,
        map: &FillMap,
        area: FillArea,
        tri: u32,
        color: [u8; 3],
        keep: Seq<bool>,
        covered: Seq<bool>,
    ) -> bool {
        let mask = before.brush.on_mask();
        &&& keep.len() == map.texel_island.len()
        &&& covered.len() == map.texel_island.len()
        &&& forall|t: int| 0 <= t < keep.len() ==> #[trigger] keep[t] == in_area(map, area, tri, t)
        &&& forall|t: int|
            0 <= t < covered.len() ==> #[trigger] covered[t] == (map.texel_island@[t] >= 0)
        &&& self.doc@.canvas(mask).len() == before.doc@.canvas(mask).len()
        &&& forall|i: int|
            0 <= i < before.doc@.canvas(mask).len() ==> #[trigger] self.doc@.canvas(mask)[i]
                == if crate::fill::filled(keep, covered, before.tex_size as int, i / 4) {
                before.brush.fill_bytes(color)[i % 4]
            } else {
                before.doc@.canvas(mask)[i]
            }
    }

    /// The area is flooded with the fill colour, with a ring of uncovered texels around it;
    /// everything else is as it was.
    pub open spec fn flooded(
        &self,
        before: &Renderer<F>,
        map: &FillMap,
        area: FillArea,
        tri: u32,
        color: [u8; 3],
    ) -> bool {
        exists|keep: Seq<bool>, covered: Seq<bool>| #[trigger]
            self.flooded_by(before, map, area, tri, color, keep, covered)
    }
}

} // verus!
