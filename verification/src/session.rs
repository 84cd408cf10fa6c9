//! The editing session: brush settings, model and resolution changes, and reading and
//! writing whole projects.

use crate::atlas::{auto_unwrap, auto_unwrapped, geometry_ok, unwrap_ready, Shapes};
use crate::document::{next_seq, stack_ok, stack_size};
use crate::fill::{build_outline, rim_edges, FillMap};
use crate::layers::{
    answers, resample_agrees, resamples, Effect, LayerModel, LayerOp, StackModel, TexModel,
};
use crate::looks::copy_colors;
use crate::mesh::{build_uv_edges, next_slot, Mesh, SourceTransform};
use crate::project::{
    layers_from_docs, layers_to_docs, law_stored_layers_load_unchanged, loaded_stack,
    mesh_from_lists, mesh_lists, settled, stored, LayerDoc,
};
use crate::renderer::{
    clamp_u32, clamped, BrushImageMode, BrushState, PaintTarget, PaletteSettings, Redraw, Renderer,
    Scene, StampOptions, SymmetryAxis,
};
use crate::surface::{is_adjacency, neighbors_wf, Adjacency};
use crate::texture::PaintTexture;
use crate::unwrap::{is_pow2, Density, UnwrapOptions, UnwrapResult, WeldKey};
use vstd::prelude::*;

verus! {

impl<F: Copy> Renderer<F> {
    /// Switches between painting the layer's colour and its reveal mask. A change starts a
    /// fresh stroke state.
    pub fn set_paint_target(&mut self, target: PaintTarget)
        requires
            old(self).wf(),
        ensures
            final(self).wf(),
            final(self).doc == old(self).doc,
            final(self).tex_size == old(self).tex_size,
            final(self).same_around_doc(
                &Renderer { brush: BrushState { target, ..old(self).brush }, ..*old(self) },
            ),
            target == old(self).brush.target ==> *final(self) == *old(self),
            target != old(self).brush.target ==> final(self).stroke_fresh(),
    {
        if target != self.brush.target {
            self.brush.target = target;
            self.buffers.bump_stroke_id();
        }
    }

    /// Whether the brush reveals or hides when it paints into a mask.
    pub fn set_mask_reveal(&mut self, reveal: bool)
        ensures
            *final(self) == (Renderer {
                brush: BrushState { mask_reveal: reveal, ..old(self).brush },
                ..*old(self)
            }),
    {
        self.brush.mask_reveal = reveal;
    }

    /// The mirror-painting axis; `None` switches it off.
    pub fn set_symmetry(&mut self, axis: Option<SymmetryAxis>)
        ensures
            *final(self) == (Renderer {
                brush: BrushState { symmetry: axis, ..old(self).brush },
                ..*old(self)
            }),
    {
        self.brush.symmetry = axis;
    }

    /// Switches the face lock.
    pub fn set_lock_face(&mut self, on: bool)
        ensures
            final(self).lock.on == on,
            final(self).lock.facets == old(self).lock.facets,
            *final(self) == (Renderer { lock: final(self).lock, ..*old(self) }),
    {
        self.lock.on = on;
    }

    /// How a loaded brush image is applied.
    pub fn set_brush_image_mode(&mut self, mode: BrushImageMode)
        ensures
            *final(self) == (Renderer {
                brush: BrushState { image_mode: mode, ..old(self).brush },
                ..*old(self)
            }),
    {
        self.brush.image_mode = mode;
    }

    /// How often the brush image tiles.
    pub fn set_brush_tile(&mut self, tile: F)
        ensures
            *final(self) == (Renderer {
                stamp: StampOptions { tile, ..old(self).stamp },
                ..*old(self)
            }),
    {
        self.stamp.tile = tile;
    }

    /// The angle of a stamp, and whether it takes the brush colour.
    pub fn set_stamp_options(&mut self, angle: F, tint: bool)
        ensures
            *final(self) == (Renderer {
                stamp: StampOptions { angle, tint, ..old(self).stamp },
                ..*old(self)
            }),
    {
        self.stamp.angle = angle;
        self.stamp.tint = tint;
    }

    /// Whether dark instead of light pixels of the tip paint.
    pub fn set_brush_alpha_invert(&mut self, invert: bool)
        ensures
            *final(self) == (Renderer {
                stamp: StampOptions { invert, ..old(self).stamp },
                ..*old(self)
            }),
    {
        self.stamp.invert = invert;
    }

    /// A brush image was read, or could not be: only a read one is used from now on.
    pub fn load_brush_material(&mut self, read: Result<(), String>) -> (r: Result<(), String>)
        ensures
            r == read,
            *final(self) == if read is Ok {
                (Renderer {
                    brush: BrushState {
                        has_image: true,
                        image_gen: next_seq(old(self).brush.image_gen),
                        ..old(self).brush
                    },
                    ..*old(self)
                })
            } else {
                *old(self)
            },
    {
        if read.is_ok() {
            self.brush.has_image = true;
            self.brush.image_gen = self.brush.image_gen.wrapping_add(1);
        }
        read
    }

    /// Drops the brush image: the brush paints its colour again.
    pub fn clear_brush_material(&mut self)
        ensures
            *final(self) == (Renderer {
                brush: BrushState {
                    has_image: false,
                    image_gen: next_seq(old(self).brush.image_gen),
                    ..old(self).brush
                },
                ..*old(self)
            }),
    {
        self.brush.has_image = false;
        self.brush.image_gen = self.brush.image_gen.wrapping_add(1);
    }

    /// A brush tip was read, or could not be: only a read one is used from now on.
    pub fn load_brush_alpha(&mut self, read: Result<(), String>) -> (r: Result<(), String>)
        ensures
            r == read,
            *final(self) == if read is Ok {
                (Renderer { brush: BrushState { has_tip: true, ..old(self).brush }, ..*old(self) })
            } else {
                *old(self)
            },
    {
        if read.is_ok() {
            self.brush.has_tip = true;
        }
        read
    }

    /// Drops the brush tip: dabs are round again.
    pub fn clear_brush_alpha(&mut self)
        ensures
            *final(self) == (Renderer {
                brush: BrushState { has_tip: false, ..old(self).brush },
                ..*old(self)
            }),
    {
        self.brush.has_tip = false;
    }
}

impl<F> Renderer<F> {
    /// The facets the outline traces, with `hit` the triangle under the cursor: while a
    /// stroke is locked, its facets; else the facet under the cursor; none with the lock off.
    pub open spec fn outlined(&self, hit: Option<u32>) -> Seq<i32> {
        let hovered = match hit {
            Some(t) if self.scene.fill_map is Some => (self.scene.fill_map->0).facet_spec(t),
            _ => None,
        };
        if !self.lock.on {
            Seq::empty()
        } else if self.pending is Some && self.lock.confines() {
            (self.lock.facets->0)@
        } else {
            match hovered {
                Some(f) => seq![f as i32],
                None => Seq::empty(),
            }
        }
    }

    /// The maps the outline is drawn from are there and belong together.
    pub open spec fn outline_ready(&self) -> bool {
        &&& self.scene.fill_map matches Some(map)
        &&& self.scene.surface_adj matches Some(adj)
        &&& map.wf()
        &&& neighbors_wf(adj@)
        &&& map.facet_of_tri.len() == adj@.len()
    }
}

fn same_facets(a: &Vec<i32>, b: &Vec<i32>) -> (same: bool)
    ensures
        same == (a@ == b@),
{
    if a.len() != b.len() {
        return false;
    }
    let mut i: usize = 0;
    while i < a.len()
        invariant
            a.len() == b.len(),
            i <= a.len(),
            forall|k: int| 0 <= k < i ==> #[trigger] a@[k] == b@[k],
        decreases a.len() - i,
    {
        if a[i] != b[i] {
            return false;
        }
        i += 1;
    }
    assert(a@ =~= b@);
    true
}

impl<F: Copy> Renderer<F> {
    /// Brings the face outline up to date; `hit` is the triangle under the cursor. While the
    /// outlined facets stay the same there is nothing to do; else the edges to draw are
    /// returned.
    pub fn set_face_outline(&mut self, hit: Option<u32>) -> (edges: Option<Vec<(usize, usize)>>)
        requires
            old(self).lock.on ==> old(self).outline_ready(),
        ensures
            edges is None <==> old(self).outlined(hit) == old(self).outline_facets@,
            edges is None ==> *final(self) == *old(self),
            edges matches Some(e) ==> {
                &&& final(self).outline_facets@ == old(self).outlined(hit)
                &&& *final(self) == (Renderer {
                    outline_facets: final(self).outline_facets,
                    ..*old(self)
                })
                &&& e@ == if old(self).outlined(hit).len() == 0 {
                    Seq::empty()
                } else {
                    rim_edges(
                        (old(self).scene.fill_map->0).facet_of_tri@,
                        (old(self).scene.surface_adj->0)@,
                        old(self).outlined(hit),
                        3 * (old(self).scene.surface_adj->0)@.len() as int,
                    )
                }
            },
    {
        let hovered: Option<u32> = match (&self.scene.fill_map, hit) {
            (Some(map), Some(t)) if self.lock.on => map.facet_for_tri(t),
            _ => None,
        };
        let facets = self.lock.outline_target_facets(self.pending.is_some(), hovered);
        assert(facets@ == self.outlined(hit));
        if same_facets(&facets, &self.outline_facets) {
            return None;
        }
        let edges: Vec<(usize, usize)> = if facets.len() == 0 {
            Vec::new()
        } else {
            match (&self.scene.fill_map, &self.scene.surface_adj) {
                (Some(map), Some(adj)) => build_outline(map, adj, &facets),
                _ => Vec::new(),
            }
        };
        self.outline_facets = facets;
        Some(edges)
    }

    /// The side of the paint texture.
    pub fn texture_resolution(&self) -> (n: u32)
        ensures
            n == self.tex_size,
    {
        self.tex_size
    }

    /// The shown image for the UV editor: its side and its pixels.
    pub fn atlas_view(&self) -> (v: (u32, &Vec<u8>))
        ensures
            v.0 == self.tex_size,
            *v.1 == self.display.buf,
    {
        (self.tex_size, &self.display.buf)
    }

    /// Counts changes of the shown image.
    pub fn paint_version(&self) -> (n: u64)
        ensures
            n == self.display.version,
    {
        self.display.version
    }

    /// Counts changes of the mesh.
    pub fn topo_version(&self) -> (n: u64)
        ensures
            n == self.scene.topo_version,
    {
        self.scene.topo_version
    }

    /// Whether the mesh has UVs to paint on.
    pub fn mesh_has_uvs(&self) -> (b: bool)
        ensures
            b == !self.scene.mesh.needs_uvs,
    {
        !self.scene.mesh.needs_uvs
    }

    /// The UV wireframe: the three edges of every triangle.
    pub fn build_uv_edges(&self) -> (edges: Vec<[F; 4]>)
        requires
            self.scene.mesh.wf(),
        ensures
            edges.len() == 3 * self.scene.mesh.tri_count_spec(),
            forall|h: int|
                0 <= h < edges.len() ==> {
                    let a = self.scene.mesh.corner(h).uv;
                    let b = self.scene.mesh.corner(next_slot(h)).uv;
                    #[trigger] edges@[h]@ == seq![a[0], a[1], b[0], b[1]]
                },
    {
        build_uv_edges(&self.scene.mesh)
    }

    /// The active palette's colours.
    pub fn palette(&self) -> (p: &Vec<[F; 3]>)
        ensures
            *p == self.palette,
    {
        &self.palette
    }

    /// The texture folder the project records, if any.
    pub fn texture_folder(&self) -> (f: Option<&str>)
        ensures
            f is Some <==> self.texture_folder is Some,
            f matches Some(s) ==> s@ == (self.texture_folder->0)@,
    {
        match &self.texture_folder {
            Some(s) => Some(s.as_str()),
            None => None,
        }
    }

    /// Records a texture folder, or none. The document counts as changed.
    pub fn set_texture_folder(&mut self, folder: Option<String>)
        ensures
            final(self).edited_from(&Renderer { texture_folder: folder, ..*old(self) }),
            old(self).wf() ==> final(self).wf(),
    {
        self.texture_folder = folder;
        self.doc.mark_edited();
    }

    /// A palette was made from an image, or could not be: only a made one becomes active.
    pub fn generate_palette_from_image(&mut self, made: Result<(String, Vec<[F; 3]>), String>) -> (r:
        Result<Redraw, String>)
        ensures
            match made {
                Ok(p) => r == Ok::<Redraw, String>(Redraw::Full) && final(self).edited_from(
                    &Renderer { palette_name: p.0, palette: p.1, ..*old(self) },
                ),
                Err(e) => r == Err::<Redraw, String>(e) && *final(self) == *old(self),
            },
            old(self).wf() ==> final(self).wf(),
    {
        match made {
            Ok(p) => Ok(self.set_palette(p.0, p.1)),
            Err(e) => Err(e),
        }
    }
}

/// The answers of `same` all agree with the relation `f`.
pub open spec fn eq_agrees<F, E: Fn(F, F) -> bool>(same: E, f: spec_fn(F, F) -> bool) -> bool {
    forall|a: F, b: F, out: bool| #[trigger] same.ensures((a, b), out) ==> out == f(a, b)
}

impl<F: Copy> Renderer<F> {
    /// Replaces the quantization settings, and the document counts as changed. While they
    /// stay the same nothing happens.
    pub fn set_palette_settings<E: Fn(F, F) -> bool>(
        &mut self,
        settings: PaletteSettings<F>,
        same: E,
    ) -> (redraw: Redraw)
        requires
            forall|a: F, b: F| #[trigger] same.requires((a, b)),
        ensures
            forall|f: spec_fn(F, F) -> bool| #[trigger]
                eq_agrees(same, f) ==> {
                    let before = old(self).palette_settings;
                    let unchanged = settings.enabled == before.enabled && settings.dither
                        == before.dither && f(settings.dither_strength, before.dither_strength);
                    &&& redraw == if unchanged {
                        Redraw::Keep
                    } else {
                        Redraw::Full
                    }
                    &&& if unchanged {
                        *final(self) == *old(self)
                    } else {
                        final(self).edited_from(
                            &Renderer { palette_settings: settings, ..*old(self) },
                        )
                    }
                },
            redraw == Redraw::Keep ==> *final(self) == *old(self) && settings.enabled
                == old(self).palette_settings.enabled && settings.dither
                == old(self).palette_settings.dither && same.ensures(
                (settings.dither_strength, old(self).palette_settings.dither_strength),
                true,
            ),
            redraw != Redraw::Keep ==> redraw == Redraw::Full && final(self).edited_from(
                &Renderer { palette_settings: settings, ..*old(self) },
            ) && (settings.enabled != old(self).palette_settings.enabled || settings.dither
                != old(self).palette_settings.dither || same.ensures(
                (settings.dither_strength, old(self).palette_settings.dither_strength),
                false,
            )),
            old(self).wf() ==> final(self).wf(),
    {
        if settings.enabled == self.palette_settings.enabled && settings.dither
            == self.palette_settings.dither && same(
            settings.dither_strength,
            self.palette_settings.dither_strength,
        ) {
            return Redraw::Keep;
        }
        self.palette_settings = settings;
        self.doc.mark_edited();
        Redraw::Full
    }

    /// A model was read, or could not be. A read one replaces the mesh, and everything
    /// derived from the old one is gone; the painted layers stay, and the document counts as
    /// changed.
    pub fn load_model(&mut self, read: Result<Mesh<F>, String>) -> (r: Result<(), String>)
        ensures
            match read {
                Ok(mesh) => r == Ok::<(), String>(()) && final(self).scene.swapped(
                    &old(self).scene,
                    mesh,
                ) && final(self).edited_from(
                    &Renderer { scene: final(self).scene, ..*old(self) },
                ),
                Err(e) => r == Err::<(), String>(e) && *final(self) == *old(self),
            },
            old(self).wf() ==> final(self).wf(),
    {
        match read {
            Ok(mesh) => {
                self.scene.swap_mesh(mesh);
                self.doc.mark_edited();
                Ok(())
            },
            Err(e) => Err(e),
        }
    }

    /// Makes sure the edge adjacency of the mesh is known. `ticks` is the mesh with its
    /// positions on the integer grid.
    pub fn ensure_surface_adj(&mut self, ticks: &Mesh<i32>)
        requires
            ticks.wf(),
            ticks.vertices.len() <= u32::MAX,
            ticks.tri_count_spec() <= i32::MAX,
        ensures
            final(self).scene.surface_adj is Some,
            old(self).scene.surface_adj is Some ==> *final(self) == *old(self),
            old(self).scene.surface_adj is None ==> is_adjacency(
                ticks,
                (final(self).scene.surface_adj->0)@,
            ) && neighbors_wf((final(self).scene.surface_adj->0)@) && *final(self) == (Renderer {
                scene: Scene { surface_adj: final(self).scene.surface_adj, ..old(self).scene },
                ..*old(self)
            }),
    {
        if self.scene.surface_adj.is_none() {
            self.scene.surface_adj = Some(Adjacency::build(ticks));
        }
    }

    /// Makes sure the fill map is there for the current resolution; one of another
    /// resolution is made anew.
    pub fn ensure_fill_map<B: Fn(&Mesh<F>, u32) -> FillMap>(&mut self, build: &B)
        requires
            build.requires((&old(self).scene.mesh, old(self).tex_size)),
        ensures
            ({
                let fresh = old(self).scene.fill_map matches Some(m) && m.size
                    == old(self).tex_size;
                &&& fresh ==> *final(self) == *old(self)
                &&& !fresh ==> final(self).scene.fill_map is Some && build.ensures(
                    (&old(self).scene.mesh, old(self).tex_size),
                    final(self).scene.fill_map->0,
                ) && *final(self) == (Renderer {
                    scene: Scene { fill_map: final(self).scene.fill_map, ..old(self).scene },
                    ..*old(self)
                })
            }),
    {
        let stale: bool = match &self.scene.fill_map {
            Some(m) => m.size != self.tex_size,
            None => true,
        };
        if stale {
            let map = (*build)(&self.scene.mesh, self.tex_size);
            self.scene.fill_map = Some(map);
        }
    }

    /// Makes sure the coverage mask is there for the current resolution.
    pub fn ensure_coverage<B: Fn(&Mesh<F>, u32) -> Vec<bool>>(&mut self, build: &B)
        requires
            build.requires((&old(self).scene.mesh, old(self).tex_size)),
            old(self).tex_size * old(self).tex_size <= u32::MAX,
        ensures
            ({
                let fresh = old(self).scene.coverage matches Some(c) && c.len()
                    == old(self).tex_size * old(self).tex_size;
                &&& fresh ==> *final(self) == *old(self)
                &&& !fresh ==> final(self).scene.coverage is Some && build.ensures(
                    (&old(self).scene.mesh, old(self).tex_size),
                    final(self).scene.coverage->0,
                ) && *final(self) == (Renderer {
                    scene: Scene { coverage: final(self).scene.coverage, ..old(self).scene },
                    ..*old(self)
                })
            }),
    {
        let stale: bool = match &self.scene.coverage {
            Some(c) => c.len() != (self.tex_size * self.tex_size) as usize,
            None => true,
        };
        if stale {
            let cov = (*build)(&self.scene.mesh, self.tex_size);
            self.scene.coverage = Some(cov);
        }
    }

    /// Whether the mesh maps must be baked: there are none for the current resolution. From
    /// now on they count as baked, without light.
    pub fn claim_mesh_maps(&mut self) -> (bake: bool)
        ensures
            bake == (old(self).scene.maps_size != Some(old(self).tex_size)),
            *final(self) == if bake {
                (Renderer {
                    scene: Scene {
                        maps_size: Some(old(self).tex_size),
                        light_key: None,
                        ..old(self).scene
                    },
                    ..*old(self)
                })
            } else {
                *old(self)
            },
    {
        let bake: bool = match self.scene.maps_size {
            Some(n) => n != self.tex_size,
            None => true,
        };
        if bake {
            self.scene.maps_size = Some(self.tex_size);
            self.scene.light_key = None;
        }
        bake
    }

    /// Whether the light must be baked for the sun that `key` stands for: it was not, or for
    /// another sun. From now on it counts as baked.
    pub fn claim_light(&mut self, key: [u32; 4]) -> (bake: bool)
        ensures
            bake == !(old(self).scene.light_key matches Some(k) && k@ == key@),
            *final(self) == if bake {
                (Renderer {
                    scene: Scene { light_key: Some(key), ..old(self).scene },
                    ..*old(self)
                })
            } else {
                *old(self)
            },
    {
        let same: bool = match &self.scene.light_key {
            Some(k) => {
                let eq: bool = k[0] == key[0] && k[1] == key[1] && k[2] == key[2] && k[3] == key[3];
                assert(eq == (k@ =~= key@));
                eq
            },
            None => false,
        };
        if !same {
            self.scene.light_key = Some(key);
        }
        !same
    }
}

impl<F> Renderer<F> {
    /// The stack was resampled to `n` by `n` texels as one undo step, and the stroke state
    /// and the maps of the old size are gone.
    pub open spec fn resized_from<R: Fn(&PaintTexture, u32) -> PaintTexture>(
        &self,
        before: &Renderer<F>,
        n: u32,
        resample: R,
    ) -> bool {
        &&& self.doc@ == before.doc@.checkpointed().with_stack(self.doc@.stack)
        &&& forall|f: spec_fn(TexModel, u32) -> TexModel| #[trigger]
            resample_agrees(resample, f) ==> self.doc@.stack == before.doc@.stack.resized(f, n)
        &&& self.doc@.stack.layers.len() == before.doc@.stack.layers.len()
        &&& self.doc@.stack.active == before.doc@.stack.active
        &&& forall|i: int|
            0 <= i < before.doc@.stack.layers.len() ==> answers(
                resample,
                before.doc@.stack.layers[i].tex,
                n,
                (#[trigger] self.doc@.stack.layers[i]).tex,
            ) && answers(
                resample,
                before.doc@.stack.layers[i].mask,
                n,
                self.doc@.stack.layers[i].mask,
            )
        &&& forall|i: int|
            0 <= i < before.doc@.stack.layers.len() ==> (LayerModel {
                tex: before.doc@.stack.layers[i].tex,
                mask: before.doc@.stack.layers[i].mask,
                ..#[trigger] self.doc@.stack.layers[i]
            }) == before.doc@.stack.layers[i]
    }
}

proof fn lemma_resized_ok<F>(s: StackModel<F>, t: StackModel<F>, n: u32)
    requires
        stack_ok(s),
        t.layers.len() == s.layers.len(),
        t.active == s.active,
        forall|i: int| 0 <= i < t.layers.len() ==> (#[trigger] t.layers[i]).sized(n),
        0 < n,
        n * n * 4 <= u32::MAX,
    ensures
        stack_ok(t),
        stack_size(t) == n,
{
    assert(t.layers[0].sized(n));
}

impl<F: Copy> Renderer<F> {
    /// Changes the resolution, clamped to what is allowed, and resamples every layer. One
    /// undo step; the current resolution changes nothing.
    pub fn set_texture_resolution<R: Fn(&PaintTexture, u32) -> PaintTexture>(
        &mut self,
        size: u32,
        resample: &R,
    ) -> (redraw: Redraw)
        requires
            old(self).wf(),
            8 <= old(self).max_texture_dim,
            clamp_u32(size, 8, old(self).max_texture_dim) * clamp_u32(
                size,
                8,
                old(self).max_texture_dim,
            ) * 4 <= u32::MAX,
            resamples(*resample),
        ensures
            final(self).wf(),
            ({
                let n = clamp_u32(size, 8, old(self).max_texture_dim);
                &&& n == old(self).tex_size ==> redraw == Redraw::Keep && *final(self)
                    == *old(self)
                &&& n != old(self).tex_size ==> {
                    &&& redraw == Redraw::Rebuild
                    &&& final(self).tex_size == n
                    &&& final(self).stroke_fresh()
                    &&& final(self).resized_from(old(self), n, *resample)
                    &&& final(self).rebuilt_from(old(self))
                }
            }),
    {
        let n: u32 = clamped(size, 8, self.max_texture_dim);
        if n == self.tex_size {
            return Redraw::Keep;
        }
        let stack = self.doc.layers().resized(n, resample);
        proof {
            lemma_resized_ok(self.doc@.stack, stack@, n);
        }
        self.doc.replace_stack(stack);
        self.rebuild(n);
        Redraw::Rebuild
    }

    /// The settings of an unwrap at a preset density for this machine.
    pub fn unwrap_options(&self, density: Density, overlap: bool, cone: F) -> (o: UnwrapOptions<F>)
        ensures
            o == preset_options(density, overlap, cone, self.max_texture_dim),
    {
        let mut o = UnwrapOptions::with_cone(cone);
        o.density = density;
        o.max_atlas = self.max_texture_dim;
        o.overlap_identical = overlap;
        o
    }

    /// The settings of an unwrap at an exact number of texels per world unit.
    pub fn unwrap_options_at(&self, texels_per_unit: F, overlap: bool, cone: F) -> (o: UnwrapOptions<
        F,
    >)
        ensures
            o == exact_options(texels_per_unit, overlap, cone, self.max_texture_dim),
    {
        let mut o = UnwrapOptions::with_cone(cone);
        o.max_atlas = self.max_texture_dim;
        o.overlap_identical = overlap;
        o.target_density = Some(texels_per_unit);
        o
    }

    /// Takes an unwrapped mesh over: one undo step, the layers follow the atlas size, the
    /// mesh is replaced, and everything derived from the old one is gone. Returns the atlas
    /// size, whether the density was reduced, and the density.
    pub fn apply_unwrap_opts<R: Fn(&PaintTexture, u32) -> PaintTexture>(
        &mut self,
        result: UnwrapResult<F>,
        resample: &R,
    ) -> (r: (u32, bool, F))
        requires
            old(self).wf(),
            0 < result.atlas_size,
            result.atlas_size * result.atlas_size * 4 <= u32::MAX,
            resamples(*resample),
        ensures
            r == (result.atlas_size, result.clamped, result.density_d),
            final(self).wf(),
            final(self).unwrapped_from(old(self), result, *resample),
    {
        let n: u32 = result.atlas_size;
        if n != self.tex_size {
            let stack = self.doc.layers().resized(n, resample);
            proof {
                lemma_resized_ok(self.doc@.stack, stack@, n);
            }
            self.doc.replace_stack(stack);
        } else {
            self.doc.checkpoint();
        }
        self.scene.swap_mesh(result.mesh);
        self.rebuild(n);
        (n, result.clamped, result.density_d)
    }

    /// Unwraps the mesh at a preset density. The functions are those of `auto_unwrap`,
    /// `keys` are the vertex positions on the welding grid. The bytes of a texture of the
    /// atlas size must be countable in 32 bits. Returns the atlas size, whether the density was reduced, and the density.
    pub fn apply_unwrap<
        P,
        R: Copy,
        J: Fn(usize, usize) -> bool,
        H: Fn(&Vec<usize>, &Vec<Vec<usize>>) -> Shapes<P>,
        G: Fn(&P, usize, usize) -> Option<R>,
        E: Fn(&P, &Vec<usize>) -> F,
        T: Fn(F) -> bool,
        B: Fn(&P, &Vec<usize>, F) -> Vec<(u32, u32)>,
        M: Fn(F, u32, u64) -> F,
        U: Fn(&P, usize, usize, Option<(usize, R)>, (u64, u64), F, u32) -> [[F; 2]; 3],
        S: Fn(&PaintTexture, u32) -> PaintTexture,
    >(
        &mut self,
        density: Density,
        overlap: bool,
        cone: F,
        keys: &Vec<WeldKey>,
        unit: F,
        joins: J,
        shape: &H,
        register: &G,
        spacing: &E,
        counts: &T,
        boxes: &B,
        scale: &M,
        place: &U,
        resample: &S,
    ) -> (r: (u32, bool, F))
        requires
            old(self).wf(),
            unwrap_ready(&old(self).scene.mesh, keys@, old(self).max_texture_dim),
            geometry_ok(
                UNWRAP_GUTTER_PX,
                joins,
                *shape,
                *register,
                *spacing,
                *counts,
                *boxes,
                *scale,
                *place,
            ),
            old(self).max_texture_dim < 0x8000 || forall|result: UnwrapResult<F>| #[trigger]
                auto_unwrapped(
                    &old(self).scene.mesh,
                    keys@,
                    preset_options(density, overlap, cone, old(self).max_texture_dim),
                    unit,
                    joins,
                    *shape,
                    *register,
                    *spacing,
                    *counts,
                    *boxes,
                    *scale,
                    *place,
                    result,
                ) ==> result.atlas_size * result.atlas_size * 4 <= u32::MAX,
            resamples(*resample),
        ensures
            final(self).wf(),
            is_pow2(r.0 as int),
            r.0 <= old(self).max_texture_dim || r.0 == 8,
            exists|result: UnwrapResult<F>| #[trigger]
                auto_unwrapped(
                    &old(self).scene.mesh,
                    keys@,
                    preset_options(density, overlap, cone, old(self).max_texture_dim),
                    unit,
                    joins,
                    *shape,
                    *register,
                    *spacing,
                    *counts,
                    *boxes,
                    *scale,
                    *place,
                    result,
                ) && r == (result.atlas_size, result.clamped, result.density_d)
                    && final(self).unwrapped_from(old(self), result, *resample),
    {
        let o = self.unwrap_options(density, overlap, cone);
        let result = auto_unwrap(
            &self.scene.mesh,
            keys,
            &o,
            unit,
            joins,
            shape,
            register,
            spacing,
            counts,
            boxes,
            scale,
            place,
        );
        proof {
            let n = result.atlas_size;
            if n < 0x8000 {
                assert(n * n * 4 <= u32::MAX) by (nonlinear_arith)
                    requires
                        n < 0x8000,
                ;
            }
        }
        self.apply_unwrap_opts(result, resample)
    }

    /// Unwraps the mesh at an exact number of texels per world unit, as `apply_unwrap` does
    /// at a preset density.
    pub fn apply_unwrap_at_density<
        P,
        R: Copy,
        J: Fn(usize, usize) -> bool,
        H: Fn(&Vec<usize>, &Vec<Vec<usize>>) -> Shapes<P>,
        G: Fn(&P, usize, usize) -> Option<R>,
        E: Fn(&P, &Vec<usize>) -> F,
        T: Fn(F) -> bool,
        B: Fn(&P, &Vec<usize>, F) -> Vec<(u32, u32)>,
        M: Fn(F, u32, u64) -> F,
        U: Fn(&P, usize, usize, Option<(usize, R)>, (u64, u64), F, u32) -> [[F; 2]; 3],
        S: Fn(&PaintTexture, u32) -> PaintTexture,
    >(
        &mut self,
        texels_per_unit: F,
        overlap: bool,
        cone: F,
        keys: &Vec<WeldKey>,
        unit: F,
        joins: J,
        shape: &H,
        register: &G,
        spacing: &E,
        counts: &T,
        boxes: &B,
        scale: &M,
        place: &U,
        resample: &S,
    ) -> (r: (u32, bool, F))
        requires
            old(self).wf(),
            unwrap_ready(&old(self).scene.mesh, keys@, old(self).max_texture_dim),
            geometry_ok(
                UNWRAP_GUTTER_PX,
                joins,
                *shape,
                *register,
                *spacing,
                *counts,
                *boxes,
                *scale,
                *place,
            ),
            old(self).max_texture_dim < 0x8000 || forall|result: UnwrapResult<F>| #[trigger]
                auto_unwrapped(
                    &old(self).scene.mesh,
                    keys@,
                    exact_options(texels_per_unit, overlap, cone, old(self).max_texture_dim),
                    unit,
                    joins,
                    *shape,
                    *register,
                    *spacing,
                    *counts,
                    *boxes,
                    *scale,
                    *place,
                    result,
                ) ==> result.atlas_size * result.atlas_size * 4 <= u32::MAX,
            resamples(*resample),
        ensures
            final(self).wf(),
            is_pow2(r.0 as int),
            r.0 <= old(self).max_texture_dim || r.0 == 8,
            exists|result: UnwrapResult<F>| #[trigger]
                auto_unwrapped(
                    &old(self).scene.mesh,
                    keys@,
                    exact_options(texels_per_unit, overlap, cone, old(self).max_texture_dim),
                    unit,
                    joins,
                    *shape,
                    *register,
                    *spacing,
                    *counts,
                    *boxes,
                    *scale,
                    *place,
                    result,
                ) && r == (result.atlas_size, result.clamped, result.density_d)
                    && final(self).unwrapped_from(old(self), result, *resample),
    {
        let o = self.unwrap_options_at(texels_per_unit, overlap, cone);
        let result = auto_unwrap(
            &self.scene.mesh,
            keys,
            &o,
            unit,
            joins,
            shape,
            register,
            spacing,
            counts,
            boxes,
            scale,
            place,
        );
        proof {
            let n = result.atlas_size;
            if n < 0x8000 {
                assert(n * n * 4 <= u32::MAX) by (nonlinear_arith)
                    requires
                        n < 0x8000,
                ;
            }
        }
        self.apply_unwrap_opts(result, resample)
    }

    /// Whether the active layer shows its stored pixels: none of its effects does anything.
    /// `idle` tells an effect that does nothing.
    pub fn active_clean<I: Fn(&Effect<F>) -> bool>(&self, idle: &I) -> (clean: bool)
        requires
            self.wf(),
            forall|fx: &Effect<F>| #[trigger] idle.requires((fx,)),
        ensures
            forall|f: spec_fn(Effect<F>) -> bool| #[trigger]
                idle_agrees(*idle, f) ==> clean == (forall|k: int|
                    0 <= k < self.doc@.stack.active_layer().effects.len() ==> f(
                        #[trigger] self.doc@.stack.active_layer().effects[k],
                    )),
            clean ==> forall|k: int|
                0 <= k < self.doc@.stack.active_layer().effects.len() ==> idle.ensures(
                    (&#[trigger] self.doc@.stack.active_layer().effects[k],),
                    true,
                ),
            !clean ==> exists|k: int|
                0 <= k < self.doc@.stack.active_layer().effects.len() && idle.ensures(
                    (&#[trigger] self.doc@.stack.active_layer().effects[k],),
                    false,
                ),
    {
        let stack = self.doc.layers();
        let a: usize = stack.active;
        assert(self.doc@.stack.active_layer() == stack.layers@[a as int]@);
        let effects = &stack.layers[a].effects;
        let mut k: usize = 0;
        while k < effects.len()
            invariant
                k <= effects.len(),
                effects@ == self.doc@.stack.active_layer().effects,
                forall|fx: &Effect<F>| #[trigger] idle.requires((fx,)),
                forall|f: spec_fn(Effect<F>) -> bool, j: int|
                    #![trigger idle_agrees(*idle, f), effects@[j]]
                    idle_agrees(*idle, f) && 0 <= j < k ==> f(effects@[j]),
                forall|j: int|
                    0 <= j < k ==> idle.ensures((&#[trigger] effects@[j],), true),
            decreases effects.len() - k,
        {
            if !(*idle)(&effects[k]) {
                proof {
                    assert forall|f: spec_fn(Effect<F>) -> bool| #[trigger]
                        idle_agrees(*idle, f) implies !f(effects@[k as int]) by {}
                    assert(idle.ensures(
                        (&self.doc@.stack.active_layer().effects[k as int],),
                        false,
                    ));
                }
                return false;
            }
            k += 1;
        }
        true
    }
}

/// The answers of `idle` all agree with the function `f` of an effect.
pub open spec fn idle_agrees<F, I: Fn(&Effect<F>) -> bool>(
    idle: I,
    f: spec_fn(Effect<F>) -> bool,
) -> bool {
    forall|fx: &Effect<F>, out: bool| #[trigger] idle.ensures((fx,), out) ==> out == f(*fx)
}

/// The settings of an unwrap at an exact density on a machine with a texture limit.
pub open spec fn exact_options<F>(
    texels_per_unit: F,
    overlap: bool,
    cone: F,
    limit: u32,
) -> UnwrapOptions<F> {
    UnwrapOptions {
        target_density: Some(texels_per_unit),
        ..preset_options(Density::Medium, overlap, cone, limit)
    }
}

/// How many texels an unwrap keeps free around a chart.
pub const UNWRAP_GUTTER_PX: u32 = 4;

/// The settings of an unwrap at a preset density on a machine with a texture limit.
pub open spec fn preset_options<F>(
    density: Density,
    overlap: bool,
    cone: F,
    limit: u32,
) -> UnwrapOptions<F> {
    UnwrapOptions {
        density,
        angle_cone_deg: cone,
        gutter_px: UNWRAP_GUTTER_PX,
        max_atlas: limit,
        target_atlas_px: 128,
        snap_texels: true,
        overlap_identical: overlap,
        target_density: None,
    }
}

impl<F> Renderer<F> {
    /// An unwrapped mesh was taken over: one undo step, layers of the atlas size, and nothing
    /// derived from the old mesh.
    pub open spec fn unwrapped_from<R: Fn(&PaintTexture, u32) -> PaintTexture>(
        &self,
        before: &Renderer<F>,
        result: UnwrapResult<F>,
        resample: R,
    ) -> bool {
        &&& self.stroke_fresh()
        &&& self.tex_size == result.atlas_size
        &&& result.atlas_size == before.tex_size ==> self.doc@ == before.doc@.checkpointed()
        &&& result.atlas_size != before.tex_size ==> self.resized_from(
            before,
            result.atlas_size,
            resample,
        )
        &&& self.scene.swapped(&before.scene, result.mesh)
        &&& self.same_around_doc(&Renderer { scene: self.scene, ..*before })
    }
}

/// The answers of `repair` all agree with the function `f` of image and facet map.
pub open spec fn repair_agrees<C: Fn(&PaintTexture, &Vec<i32>) -> Vec<u8>>(
    repair: C,
    f: spec_fn(TexModel, Seq<i32>) -> Seq<u8>,
) -> bool {
    forall|t: &PaintTexture, m: &Vec<i32>, out: Vec<u8>| #[trigger]
        repair.ensures((t, m), out) ==> out@ == f(t@, m@)
}

/// `px` is an answer of `repair` for an image and the facet map.
pub open spec fn mended<C: Fn(&PaintTexture, &Vec<i32>) -> Vec<u8>>(
    repair: C,
    tex: TexModel,
    facets: Seq<i32>,
    px: Seq<u8>,
) -> bool {
    exists|t: PaintTexture, m: Vec<i32>, out: Vec<u8>| #[trigger]
        repair.ensures((&t, &m), out) && t@ == tex && m@ == facets && out@ == px
}

/// The stack with the colour of every layer repaired.
pub open spec fn repaired<F>(
    s: StackModel<F>,
    facets: Seq<i32>,
    f: spec_fn(TexModel, Seq<i32>) -> Seq<u8>,
) -> StackModel<F> {
    StackModel {
        layers: s.layers.map_values(
            |l: LayerModel<F>|
                LayerModel { tex: TexModel { pixels: f(l.tex, facets), ..l.tex }, ..l },
        ),
        active: s.active,
    }
}

/// `fill` gives an image of the same size as the one it is given.
pub open spec fn fills_in_place<F, W: Fn(&PaintTexture, F) -> PaintTexture>(fill: W) -> bool {
    &&& forall|t: &PaintTexture, k: F| #[trigger] fill.requires((t, k))
    &&& forall|t: &PaintTexture, k: F, out: PaintTexture| #[trigger]
        fill.ensures((t, k), out) ==> out.width == t.width && out.height == t.height
            && out.pixels.len() == t.pixels.len()
}

impl<F: Copy> Renderer<F> {
    /// Replaces the active layer's image, and notes it where there is something to note. One
    /// undo step.
    fn take_image(&mut self, tex: PaintTexture, op: Option<LayerOp>) -> (redraw: Redraw)
        requires
            old(self).wf(),
            tex.wf(),
            tex.width == old(self).tex_size,
            tex.height == tex.width,
        ensures
            redraw == Redraw::Full,
            final(self).imaged_from(old(self), tex, op),
    {
        self.doc.set_active_image(false, tex);
        match op {
            Some(op) => {
                self.doc.note(op);
            },
            None => {},
        }
        self.buffers.bump_stroke_id();
        Redraw::Full
    }

    /// An image was read, or could not be. A read one is resampled to the document's size
    /// and replaces the active layer's colour. One undo step.
    pub fn load_texture_png<R: Fn(&PaintTexture, u32) -> PaintTexture>(
        &mut self,
        read: Result<PaintTexture, String>,
        resample: &R,
    ) -> (r: Result<Redraw, String>)
        requires
            old(self).wf(),
            resamples(*resample),
        ensures
            match read {
                Ok(tex) => r == Ok::<Redraw, String>(Redraw::Full)
                    && exists|out: PaintTexture| #[trigger]
                    resample.ensures((&tex, old(self).tex_size), out) && final(self).imaged_from(
                        old(self),
                        out,
                        None,
                    ),
                Err(e) => r == Err::<Redraw, String>(e) && *final(self) == *old(self),
            },
    {
        match read {
            Ok(tex) => {
                let out = (*resample)(&tex, self.tex_size);
                Ok(self.take_image(out, None))
            },
            Err(e) => Err(e),
        }
    }

    /// A material was read, or could not be. A read one is tiled over the active layer's
    /// colour: `fill` gives the image so filled. One undo step.
    pub fn fill_active_with_material<W: Fn(&PaintTexture, F) -> PaintTexture>(
        &mut self,
        read: Result<(), String>,
        tile: F,
        fill: &W,
    ) -> (r: Result<Redraw, String>)
        requires
            old(self).wf(),
            fills_in_place(*fill),
        ensures
            match read {
                Ok(()) => r == Ok::<Redraw, String>(Redraw::Full)
                    && exists|tex: PaintTexture, out: PaintTexture| #[trigger]
                    fill.ensures((&tex, tile), out) && tex@
                        == old(self).doc@.stack.active_layer().tex && final(self).imaged_from(
                        old(self),
                        out,
                        Some(LayerOp::Material),
                    ),
                Err(e) => r == Err::<Redraw, String>(e) && *final(self) == *old(self),
            },
    {
        match read {
            Ok(()) => {
                let stack = self.doc.layers();
                assert(self.doc@.stack.active_layer().sized(self.tex_size));
                let out = (*fill)(&stack.layers[stack.active].tex, tile);
                Ok(self.take_image(out, Some(LayerOp::Material)))
            },
            Err(e) => Err(e),
        }
    }

    /// Repairs the island rims in the colour of every layer from paint of the same facet.
    /// `repair` gives the repaired pixels of one image. Masks and settings stay. One undo
    /// step.
    pub fn clean_seams<C: Fn(&PaintTexture, &Vec<i32>) -> Vec<u8>>(&mut self, repair: &C) -> (redraw:
        Redraw)
        requires
            old(self).wf(),
            old(self).scene.fill_map is Some,
            forall|t: &PaintTexture, m: &Vec<i32>| #[trigger] repair.requires((t, m)),
            forall|t: &PaintTexture, m: &Vec<i32>, out: Vec<u8>| #[trigger]
                repair.ensures((t, m), out) ==> out.len() == t.pixels.len(),
        ensures
            redraw == Redraw::Full,
            final(self).wf(),
            final(self).tex_size == old(self).tex_size,
            final(self).buffers == old(self).buffers,
            final(self).same_around_doc(old(self)),
            final(self).doc@ == old(self).doc@.checkpointed().with_stack(final(self).doc@.stack),
            forall|f: spec_fn(TexModel, Seq<i32>) -> Seq<u8>| #[trigger]
                repair_agrees(*repair, f) ==> final(self).doc@.stack == repaired(
                    old(self).doc@.stack,
                    (old(self).scene.fill_map->0).texel_facet@,
                    f,
                ),
            final(self).doc@.stack.layers.len() == old(self).doc@.stack.layers.len(),
            final(self).doc@.stack.active == old(self).doc@.stack.active,
            forall|i: int|
                0 <= i < old(self).doc@.stack.layers.len() ==> mended(
                    *repair,
                    old(self).doc@.stack.layers[i].tex,
                    (old(self).scene.fill_map->0).texel_facet@,
                    (#[trigger] final(self).doc@.stack.layers[i]).tex.pixels,
                ),
            forall|i: int|
                0 <= i < old(self).doc@.stack.layers.len() ==> (LayerModel {
                    tex: TexModel {
                        pixels: old(self).doc@.stack.layers[i].tex.pixels,
                        ..final(self).doc@.stack.layers[i].tex
                    },
                    ..#[trigger] final(self).doc@.stack.layers[i]
                }) == old(self).doc@.stack.layers[i],
    {
        let ghost s0 = self.doc@.stack;
        let ghost facets = (self.scene.fill_map->0).texel_facet@;
        match &self.scene.fill_map {
            Some(map) => {
                let mut stack = self.doc.layers().copied();
                let mut i: usize = 0;
                let n: usize = stack.layers.len();
                while i < n
                    invariant
                        i <= n,
                        n == stack.layers.len() == s0.layers.len(),
                        stack.active == s0.active,
                        map.texel_facet@ == facets,
                        forall|t: &PaintTexture, m: &Vec<i32>| #[trigger] repair.requires((t, m)),
                        forall|t: &PaintTexture, m: &Vec<i32>, out: Vec<u8>| #[trigger]
                            repair.ensures((t, m), out) ==> out.len() == t.pixels.len(),
                        forall|k: int|
                            0 <= k < n ==> crate::document::same_images(
                                (#[trigger] stack.layers@[k])@,
                                s0.layers[k],
                            ),
                        forall|k: int|
                            i <= k < n ==> (#[trigger] stack.layers@[k])@ == s0.layers[k],
                        forall|k: int|
                            0 <= k < i ==> mended(
                                *repair,
                                s0.layers[k].tex,
                                facets,
                                (#[trigger] stack.layers@[k])@.tex.pixels,
                            ),
                        forall|k: int|
                            0 <= k < n ==> (LayerModel {
                                tex: TexModel {
                                    pixels: s0.layers[k].tex.pixels,
                                    ..stack.layers@[k]@.tex
                                },
                                ..(#[trigger] stack.layers@[k])@
                            }) == s0.layers[k],
                        forall|k: int, f: spec_fn(TexModel, Seq<i32>) -> Seq<u8>|
                            0 <= k < i && #[trigger] repair_agrees(*repair, f) ==> (
                            #[trigger] stack.layers@[k])@ == repaired(s0, facets, f).layers[k],
                    decreases n - i,
                {
                    let px = (*repair)(&stack.layers[i].tex, &map.texel_facet);
                    assert(stack.layers@[i as int]@ == s0.layers[i as int]);
                    assert(repair.ensures((&stack.layers@[i as int].tex, &map.texel_facet), px));
                    stack.layers[i].tex.pixels = px;
                    i += 1;
                }
                proof {
                    assert(crate::document::same_shape(s0, stack@));
                    crate::document::lemma_shape_ok(s0, stack@);
                    assert forall|f: spec_fn(TexModel, Seq<i32>) -> Seq<u8>| #[trigger]
                        repair_agrees(*repair, f) implies stack@ == repaired(s0, facets, f) by {
                        assert(stack@.layers =~= repaired(s0, facets, f).layers);
                    }
                }
                self.doc.replace_stack(stack);
            },
            None => {},
        }
        Redraw::Full
    }
}

impl<F> Renderer<F> {
    /// The active layer's colour was replaced by an image, as one undo step.
    pub open spec fn imaged_from(
        &self,
        before: &Renderer<F>,
        tex: PaintTexture,
        op: Option<LayerOp>,
    ) -> bool {
        let painted = before.doc@.checkpointed().painted(false, tex.pixels@);
        &&& self.wf()
        &&& self.stroke_fresh()
        &&& self.tex_size == before.tex_size
        &&& self.same_around_doc(before)
        &&& self.doc@ == match op {
            Some(op) => painted.noted(op),
            None => painted,
        }
    }
}

/// A stored project.
#[derive(Debug)]
pub struct ProjectDoc<F> {
    pub tex_size: u32,
    pub active_layer: usize,
    pub palette: Vec<[F; 3]>,
    pub quantize: bool,
    pub dither: bool,
    pub dither_strength: F,
    pub positions: Vec<[F; 3]>,
    pub normals: Vec<[F; 3]>,
    pub uvs: Vec<[F; 2]>,
    pub indices: Vec<u32>,
    /// The layers, or why their pixels could not be read.
    pub layers: Result<Vec<LayerDoc<F>>, String>,
    pub texture_folder: Option<String>,
    pub source_transform: Option<SourceTransform<F>>,
}

impl<F> ProjectDoc<F> {
    /// The mesh the project stands for; missing normals, UVs and the missing transform are
    /// the given ones.
    pub open spec fn holds_mesh(
        &self,
        mesh: Mesh<F>,
        normal: [F; 3],
        uv: [F; 2],
        identity: SourceTransform<F>,
    ) -> bool {
        &&& mesh.indices@ == self.indices@
        &&& mesh.vertices.len() == self.positions.len()
        &&& forall|i: int|
            0 <= i < self.positions.len() ==> {
                let v = #[trigger] mesh.vertices@[i];
                &&& v.position == self.positions@[i]
                &&& v.normal == if i < self.normals.len() {
                    self.normals@[i]
                } else {
                    normal
                }
                &&& v.uv == if i < self.uvs.len() {
                    self.uvs@[i]
                } else {
                    uv
                }
            }
        &&& !mesh.needs_normals
        &&& !mesh.needs_uvs
        &&& mesh.source_transform == match self.source_transform {
            Some(s) => s,
            None => identity,
        }
    }
}

/// The two optional strings are equal.
pub open spec fn same_text(a: Option<String>, b: Option<String>) -> bool {
    match (a, b) {
        (Some(x), Some(y)) => x@ == y@,
        (None, None) => true,
        _ => false,
    }
}

impl<F> Renderer<F> {
    /// The project records this state.
    pub open spec fn written_to(&self, d: ProjectDoc<F>) -> bool {
        let v = self.scene.mesh.vertices@;
        &&& d.tex_size == self.tex_size
        &&& d.active_layer == self.doc@.stack.active
        &&& d.palette@ == self.palette@
        &&& d.quantize == self.palette_settings.enabled
        &&& d.dither == self.palette_settings.dither
        &&& d.dither_strength == self.palette_settings.dither_strength
        &&& d.positions.len() == v.len() && d.normals.len() == v.len() && d.uvs.len() == v.len()
        &&& forall|i: int|
            0 <= i < v.len() ==> d.positions@[i] == (#[trigger] v[i]).position && d.normals@[i]
                == v[i].normal && d.uvs@[i] == v[i].uv
        &&& d.indices@ == self.scene.mesh.indices@
        &&& d.layers is Ok
        &&& (d.layers->Ok_0).len() == self.doc@.stack.layers.len()
        &&& forall|i: int|
            0 <= i < (d.layers->Ok_0).len() ==> (#[trigger] (d.layers->Ok_0)@[i])@ == stored(
                self.doc@.stack.layers[i],
            )
        &&& same_text(d.texture_folder, self.texture_folder)
        &&& d.source_transform == Some(self.scene.mesh.source_transform)
    }

    /// The project replaced the state: its stack and mesh are there and clean, and its
    /// palette and texture folder are active. The undo steps are those from before.
    pub open spec fn loaded_from(
        &self,
        before: &Renderer<F>,
        d: ProjectDoc<F>,
        normal: [F; 3],
        uv: [F; 2],
        identity: SourceTransform<F>,
    ) -> bool {
        let stack = loaded_stack((d.layers->Ok_0)@, d.tex_size, d.active_layer as int);
        &&& self.tex_size == d.tex_size
        &&& self.doc@ == before.doc@.loaded(stack)
        &&& self.synced()
        &&& before.wf() ==> self.wf()
        &&& stack_ok(stack) && stack_size(stack) == d.tex_size
        &&& self.buffers.wf() && self.buffers.texels() == d.tex_size * d.tex_size
        &&& self.stroke_fresh()
        &&& d.holds_mesh(self.scene.mesh, normal, uv, identity)
        &&& self.scene.swapped(&before.scene, self.scene.mesh)
        &&& self.palette_name@ == "Loaded"@
        &&& self.palette@ == d.palette@
        &&& self.palette_settings == (PaletteSettings {
            enabled: d.quantize,
            dither: d.dither,
            dither_strength: d.dither_strength,
        })
        &&& self.texture_folder == d.texture_folder
        &&& self.same_around_doc(
            &Renderer {
                scene: self.scene,
                palette_name: self.palette_name,
                palette: self.palette,
                palette_settings: self.palette_settings,
                texture_folder: self.texture_folder,
                ..*before
            },
        )
    }
}

impl<F: Copy> Renderer<F> {
    /// The whole editing state as a project. What is unsaved is left as it is; see
    /// `save_project` and `autosave`.
    pub fn write_project(&self) -> (d: ProjectDoc<F>)
        ensures
            self.written_to(d),
    {
        let layers = layers_to_docs(self.doc.layers());
        let (positions, normals, uvs) = mesh_lists(&self.scene.mesh);
        let texture_folder: Option<String> = match &self.texture_folder {
            Some(s) => Some(s.clone()),
            None => None,
        };
        ProjectDoc {
            tex_size: self.tex_size,
            active_layer: self.doc.layers().active,
            palette: copy_colors(&self.palette),
            quantize: self.palette_settings.enabled,
            dither: self.palette_settings.dither,
            dither_strength: self.palette_settings.dither_strength,
            positions,
            normals,
            uvs,
            indices: copy_indices(&self.scene.mesh.indices),
            layers: Ok(layers),
            texture_folder,
            source_transform: Some(self.scene.mesh.source_transform),
        }
    }

    /// Replaces the editing state by a project that was read, or could not be. A read one
    /// replaces the mesh first, even when its layers then turn out unreadable or missing;
    /// the document then counts as changed. A loaded project starts clean, over the undo
    /// steps from before.
    pub fn load_project(
        &mut self,
        read: Result<ProjectDoc<F>, String>,
        normal: [F; 3],
        uv: [F; 2],
        identity: SourceTransform<F>,
    ) -> (r: Result<Redraw, String>)
        requires
            read matches Ok(d) ==> 0 < d.tex_size && d.tex_size * d.tex_size * 4 <= u32::MAX,
        ensures
            match read {
                Err(e) => r == Err::<Redraw, String>(e) && *final(self) == *old(self),
                Ok(d) => {
                    &&& d.holds_mesh(final(self).scene.mesh, normal, uv, identity)
                    &&& final(self).scene.swapped(&old(self).scene, final(self).scene.mesh)
                    &&& r is Err ==> final(self).edited_from(
                        &Renderer { scene: final(self).scene, ..*old(self) },
                    )
                    &&& match d.layers {
                        Err(e) => r == Err::<Redraw, String>(e),
                        Ok(docs) => if docs.len() == 0 {
                            r matches Err(e) && e@ == "project has no layers"@
                        } else {
                            &&& r == Ok::<Redraw, String>(Redraw::Rebuild)
                            &&& final(self).loaded_from(old(self), d, normal, uv, identity)
                        },
                    }
                },
            },
    {
        let d: ProjectDoc<F> = match read {
            Ok(d) => d,
            Err(e) => {
                return Err(e);
            },
        };
        let size: u32 = d.tex_size;
        let source: SourceTransform<F> = match d.source_transform {
            Some(s) => s,
            None => identity,
        };
        let mesh = mesh_from_lists(
            &d.positions,
            &d.normals,
            &d.uvs,
            d.indices,
            normal,
            uv,
            source,
        );
        self.scene.swap_mesh(mesh);
        let docs: Vec<LayerDoc<F>> = match d.layers {
            Ok(docs) => docs,
            Err(e) => {
                self.doc.mark_edited();
                return Err(e);
            },
        };
        let stack = match layers_from_docs(&docs, size, d.active_layer) {
            Ok(s) => s,
            Err(e) => {
                self.doc.mark_edited();
                return Err(e.message().to_owned());
            },
        };
        self.doc.load(stack);
        self.tex_size = size;
        self.palette_name = "Loaded".to_owned();
        self.palette = d.palette;
        self.palette_settings = PaletteSettings {
            enabled: d.quantize,
            dither: d.dither,
            dither_strength: d.dither_strength,
        };
        self.texture_folder = d.texture_folder;
        assert(size * size <= u32::MAX) by (nonlinear_arith)
            requires
                size * size * 4 <= u32::MAX,
        ;
        self.buffers.realloc((size * size) as usize);
        Ok(Redraw::Rebuild)
    }
}

/// Loading a written project gives back what was written: the layers with the active one,
/// the geometry with the transform to its source, the palette with its settings, and the
/// texture folder. How the names came about is not written. The document is clean.
pub proof fn law_project_round_trip<F>(
    written: Renderer<F>,
    d: ProjectDoc<F>,
    before: Renderer<F>,
    loaded: Renderer<F>,
    normal: [F; 3],
    uv: [F; 2],
    identity: SourceTransform<F>,
)
    requires
        written.wf(),
        written.written_to(d),
        loaded.loaded_from(&before, d, normal, uv, identity),
    ensures
        loaded.doc@.stack == settled(written.doc@.stack),
        loaded.tex_size == written.tex_size,
        loaded.scene.mesh.vertices@ == written.scene.mesh.vertices@,
        loaded.scene.mesh.indices@ == written.scene.mesh.indices@,
        loaded.scene.mesh.source_transform == written.scene.mesh.source_transform,
        loaded.palette@ == written.palette@,
        loaded.palette_settings == written.palette_settings,
        same_text(loaded.texture_folder, written.texture_folder),
        !loaded.doc@.dirty(),
        !loaded.doc@.autosave_due(),
{
    law_stored_layers_load_unchanged(written.doc@.stack, (d.layers->Ok_0)@);
    let a = loaded.scene.mesh.vertices@;
    let b = written.scene.mesh.vertices@;
    assert forall|i: int| 0 <= i < b.len() implies a[i] == #[trigger] b[i] by {
        assert(a[i].position == d.positions@[i]);
        assert(a[i].normal == d.normals@[i]);
        assert(a[i].uv == d.uvs@[i]);
    }
    assert(a =~= b);
}

fn copy_indices(v: &Vec<u32>) -> (out: Vec<u32>)
    ensures
        out@ == v@,
{
    let mut out: Vec<u32> = Vec::new();
    let mut i: usize = 0;
    while i < v.len()
        invariant
            i <= v.len(),
            out.len() == i,
            forall|k: int| 0 <= k < i ==> #[trigger] out@[k] == v@[k],
        decreases v.len() - i,
    {
        out.push(v[i]);
        i += 1;
    }
    assert(out@ =~= v@);
    out
}

} // verus!
