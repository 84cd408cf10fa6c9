//! Strokes accumulated on the GPU.

use crate::document::{is_covered, is_pasted};
use crate::renderer::{BrushState, Display, GpuStroke, PaintTarget, Renderer, ResolveKind};
use crate::texture::{grown, grown_spec, is_image, TexRect};
use vstd::prelude::*;

verus! {

/// What the frame does for a stroke on the GPU.
#[derive(Clone, Copy, Debug)]
pub enum PumpPlan {
    /// Resolve the coverage of this rectangle on the GPU and composite.
    Resolve(Option<TexRect>),
    /// Read the coverage of this rectangle back, if there is one.
    Readback(Option<TexRect>),
}

/// What the end of a stroke on the GPU does, once its last dabs are stamped.
#[derive(Clone, Copy, Debug)]
pub enum FinishPlan {
    /// Read the resolved pixels of this rectangle back, if there is one, and keep them.
    Resolve(Option<TexRect>),
    /// Blend a readback under way, then read the coverage of this rectangle back, if there
    /// is one, and blend that.
    Drain(Option<TexRect>),
}

impl GpuStroke {
    /// The stroke after one more dab with the given footprint.
    pub open spec fn stamped(
        self,
        brush: BrushState,
        rect: TexRect,
        color: [u8; 3],
        erase: bool,
        active_clean: bool,
    ) -> GpuStroke {
        let resolve = self.display && !brush.on_mask() && !brush.stamps() && active_clean;
        GpuStroke {
            target: brush.target,
            color: if brush.on_mask() {
                [brush.mask_level(), brush.mask_level(), brush.mask_level()]
            } else {
                color
            },
            erase: erase && !brush.on_mask(),
            rect: Some(grown_spec(self.rect, rect)),
            resolve: resolve,
            material: resolve && brush.has_image,
            ..self
        }
    }
}

impl<F> Renderer<F> {
    /// The painter after coverage was stamped on the GPU over a footprint; without one it is
    /// unchanged.
    pub open spec fn stamped(
        self,
        rect: Option<TexRect>,
        color: [u8; 3],
        erase: bool,
        active_clean: bool,
    ) -> Renderer<F> {
        match rect {
            None => self,
            Some(r) => Renderer {
                gpu: self.gpu.stamped(self.brush, r, color, erase, active_clean),
                stroke_rect: Some(grown_spec(self.stroke_rect, r)),
                stroke_dirty: true,
                ..self
            },
        }
    }
}

impl<F: Copy> Renderer<F> {
    /// Notes a dab whose coverage was stamped on the GPU. `rect` is its footprint; without
    /// one nothing was stamped. The stroke is resolved without a readback when layers are
    /// composited on the GPU, the brush lays colour and is no stamp, and the active layer
    /// has no effects at work. Returns whether anything was stamped.
    pub fn gpu_surface_dab(
        &mut self,
        rect: Option<TexRect>,
        color: [u8; 3],
        erase: bool,
        active_clean: bool,
    ) -> (done: bool)
        ensures
            done == rect is Some,
            *final(self) == old(self).stamped(rect, color, erase, active_clean),
            done && old(self).brush.target == PaintTarget::Mask ==> final(self).gpu.color == if old(
                self,
            ).brush.mask_reveal {
                [255u8, 255u8, 255u8]
            } else {
                [0u8, 0u8, 0u8]
            },
            done && old(self).brush.target == PaintTarget::Color ==> final(self).gpu.color == color
                && final(self).gpu.erase == erase,
    {
        let r: TexRect = match rect {
            Some(r) => r,
            None => {
                return false;
            },
        };
        self.gpu.target = self.brush.target;
        match self.brush.target {
            PaintTarget::Color => {
                self.gpu.color = color;
                self.gpu.erase = erase;
            },
            PaintTarget::Mask => {
                let v: u8 = if self.brush.mask_reveal {
                    255
                } else {
                    0
                };
                self.gpu.color = [v, v, v];
                self.gpu.erase = false;
            },
        }
        self.gpu.rect = Some(grown(self.gpu.rect, r));
        self.stroke_rect = Some(grown(self.stroke_rect, r));
        self.gpu.resolve = self.gpu.display && self.brush.target == PaintTarget::Color
            && !self.brush.stamp_active() && active_clean;
        self.gpu.material = self.gpu.resolve && self.brush.has_image;
        self.stroke_dirty = true;
        true
    }

    /// What this frame does for the stroke. A readback is only issued when none is under
    /// way; until then the stamped rectangle keeps growing, so no part of it is lost.
    pub fn pump_gpu_stroke(&mut self, readback_pending: bool) -> (plan: PumpPlan)
        ensures
            plan == if old(self).gpu.resolve {
                PumpPlan::Resolve(old(self).gpu.rect)
            } else if readback_pending {
                PumpPlan::Readback(None)
            } else {
                PumpPlan::Readback(old(self).gpu.rect)
            },
            *final(self) == if !old(self).gpu.resolve && !readback_pending {
                (Renderer { gpu: GpuStroke { rect: None, ..old(self).gpu }, ..*old(self) })
            } else {
                *old(self)
            },
    {
        if self.gpu.resolve {
            return PumpPlan::Resolve(self.gpu.rect);
        }
        if readback_pending {
            return PumpPlan::Readback(None);
        }
        PumpPlan::Readback(self.gpu.rect.take())
    }

    /// What the end of the stroke does on the GPU. What was stamped since the last readback
    /// is handed out with the plan.
    pub fn finish_gpu_stroke(&mut self) -> (plan: FinishPlan)
        ensures
            plan == if old(self).gpu.resolve {
                FinishPlan::Resolve(old(self).gpu.rect)
            } else {
                FinishPlan::Drain(old(self).gpu.rect)
            },
            *final(self) == if old(self).gpu.resolve {
                *old(self)
            } else {
                (Renderer { gpu: GpuStroke { rect: None, ..old(self).gpu }, ..*old(self) })
            },
    {
        if self.gpu.resolve {
            FinishPlan::Resolve(self.gpu.rect)
        } else {
            FinishPlan::Drain(self.gpu.rect.take())
        }
    }

    /// How coverage that was read back is turned into paint: on colour it is rubbed off, or
    /// laid from the brush image where one is loaded, and else, as always on a mask, in the
    /// stroke's colour.
    pub fn coverage_kind(&self) -> (k: ResolveKind)
        ensures
            k == if self.gpu.target == PaintTarget::Color && self.gpu.erase {
                ResolveKind::Erase
            } else if self.gpu.target == PaintTarget::Color && self.brush.has_image {
                ResolveKind::Material
            } else {
                ResolveKind::Color(self.gpu.color)
            },
    {
        if self.gpu.target == PaintTarget::Color && self.gpu.erase {
            ResolveKind::Erase
        } else if self.gpu.target == PaintTarget::Color && self.brush.has_image {
            ResolveKind::Material
        } else {
            ResolveKind::Color(self.gpu.color)
        }
    }

    /// Blends a coverage map that was read back into what the stroke paints into, against
    /// the images the stroke started from. Without a running stroke nothing happens.
    pub fn apply_gpu_coverage<B: Fn(usize, [u8; 4], u32) -> [u8; 4]>(
        &mut self,
        cov: &Vec<u32>,
        rect: TexRect,
        blend: &B,
    )
        requires
            old(self).wf(),
            old(self).stroke_ok(),
            rect.within(old(self).tex_size as int, old(self).tex_size as int),
            cov.len() == rect.width_spec() * rect.height_spec(),
            forall|t: usize, b: [u8; 4], a: u32| #[trigger] blend.requires((t, b, a)),
        ensures
            final(self).wf(),
            old(self).pending is None ==> *final(self) == *old(self),
            old(self).pending is Some ==> {
                let mask = old(self).gpu.target == PaintTarget::Mask;
                let b = old(self).pending->0;
                &&& final(self).doc@ == old(self).doc@.painted(
                    mask,
                    final(self).doc@.canvas(mask),
                )
                &&& is_covered(
                    old(self).doc@.canvas(mask),
                    final(self).doc@.canvas(mask),
                    if mask {
                        b.mask.pixels@
                    } else {
                        b.tex.pixels@
                    },
                    cov@,
                    rect,
                    old(self).tex_size as int,
                    *blend,
                )
                &&& final(self).tex_size == old(self).tex_size
                &&& final(self).buffers == old(self).buffers
                &&& final(self).same_around_doc(
                    &Renderer {
                        display: Display {
                            dirty_rect: Some(grown_spec(old(self).display.dirty_rect, rect)),
                            ..old(self).display
                        },
                        stroke_rect: Some(grown_spec(old(self).stroke_rect, rect)),
                        stroke_dirty: true,
                        ..*old(self)
                    },
                )
            },
    {
        match self.pending.take() {
            Some(b) => {
                proof {
                    assert(self.doc@.stack.layers[b.active as int].sized(self.tex_size));
                }
                if self.gpu.target == PaintTarget::Mask {
                    self.doc.apply_coverage(true, &b.mask.pixels, cov, rect, blend);
                } else {
                    self.doc.apply_coverage(false, &b.tex.pixels, cov, rect, blend);
                }
                self.pending = Some(b);
                self.display.dirty_rect = Some(grown(self.display.dirty_rect, rect));
                self.stroke_rect = Some(grown(self.stroke_rect, rect));
                self.stroke_dirty = true;
            },
            None => {},
        }
    }

    /// Takes the painted rectangle of a resolved stroke, read back from the GPU, into the
    /// active layer's colour, and forgets the rectangle.
    pub fn finish_gpu_resolve_stroke(&mut self, read: Option<Vec<u8>>)
        requires
            old(self).wf(),
            old(self).gpu.rect matches Some(r) ==> r.within(
                old(self).tex_size as int,
                old(self).tex_size as int,
            ) && (read matches Some(px) ==> is_image(px@, r.width_spec(), r.height_spec())),
        ensures
            final(self).wf(),
            final(self).tex_size == old(self).tex_size,
            final(self).buffers == old(self).buffers,
            final(self).same_around_doc(
                &Renderer { gpu: GpuStroke { rect: None, ..old(self).gpu }, ..*old(self) },
            ),
            old(self).gpu.rect is None || read is None ==> final(self).doc@ == old(self).doc@,
            old(self).gpu.rect is Some && read is Some ==> final(self).doc@
                == old(self).doc@.painted(false, final(self).doc@.canvas(false)) && is_pasted(
                old(self).doc@.canvas(false),
                final(self).doc@.canvas(false),
                (read->0)@,
                old(self).tex_size as int,
                old(self).gpu.rect->0,
            ),
    {
        match self.gpu.rect {
            Some(r) => {
                match &read {
                    Some(px) => {
                        self.doc.write_rect(px, r);
                    },
                    None => {},
                }
            },
            None => {},
        }
        self.gpu.rect = None;
    }

    /// Whether the gutter mask on the GPU must be pushed again: there is one, and what the
    /// GPU holds was made for another resolution or another mesh. From then on it counts as
    /// pushed.
    pub fn claim_gpu_coverage(&mut self) -> (push: bool)
        ensures
            push == (old(self).scene.coverage is Some && old(self).gpu.coverage_gen != Some(
                (old(self).tex_size, old(self).scene.topo_version),
            )),
            *final(self) == if push {
                (Renderer {
                    gpu: GpuStroke {
                        coverage_gen: Some((old(self).tex_size, old(self).scene.topo_version)),
                        ..old(self).gpu
                    },
                    ..*old(self)
                })
            } else {
                *old(self)
            },
    {
        let stale: bool = match self.gpu.coverage_gen {
            Some(g) => g.0 != self.tex_size || g.1 != self.scene.topo_version,
            None => true,
        };
        if stale && self.scene.coverage.is_some() {
            self.gpu.coverage_gen = Some((self.tex_size, self.scene.topo_version));
            true
        } else {
            false
        }
    }

    /// Whether the brush image must be sent to the GPU before a stroke: strokes are
    /// resolved there, an image is loaded, and the GPU holds another one. From then on it
    /// counts as sent.
    pub fn claim_gpu_image(&mut self) -> (push: bool)
        ensures
            push == (old(self).gpu.paint && old(self).gpu.display && old(self).brush.has_image
                && old(self).gpu.image_gen != Some(old(self).brush.image_gen)),
            *final(self) == if push {
                (Renderer {
                    gpu: GpuStroke {
                        image_gen: Some(old(self).brush.image_gen),
                        ..old(self).gpu
                    },
                    ..*old(self)
                })
            } else {
                *old(self)
            },
    {
        let stale: bool = match self.gpu.image_gen {
            Some(g) => g != self.brush.image_gen,
            None => true,
        };
        if self.gpu.paint && self.gpu.display && self.brush.has_image && stale {
            self.gpu.image_gen = Some(self.brush.image_gen);
            true
        } else {
            false
        }
    }
}

/// No stamped texel is lost: after a dab, the rectangle that the next readback covers holds
/// every texel of the dab's footprint and every texel that was still to be read.
pub proof fn law_stamped_texels_are_read_back(
    before: GpuStroke,
    brush: BrushState,
    rect: TexRect,
    color: [u8; 3],
    erase: bool,
    active_clean: bool,
    x: int,
    y: int,
)
    requires
        rect.has(x, y) || (before.rect is Some && (before.rect->0).has(x, y)),
    ensures
        ({
            let after = before.stamped(brush, rect, color, erase, active_clean);
            after.rect is Some && (after.rect->0).has(x, y)
        }),
{
}

} // verus!
