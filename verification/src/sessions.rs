//! What the brush, the lock, the mesh and the settings of a session decide.

use crate::document::DocModel;
use crate::fill::{facets_of, on_rim, rim_edges, FaceLock, FillMap};
use crate::layers::LayerOp;
use crate::mesh::Mesh;
use crate::renderer::{
    BrushImageMode, BrushState, DabPath, PaintTarget, Redraw, Renderer, Scene, SymmetryAxis,
    TextureFilter,
};
use crate::session::{exact_options, preset_options};
use crate::texture::PaintTexture;
use crate::unwrap::{Density, UnwrapResult};
use vstd::prelude::*;

verus! {

/// Where nothing but the document and the stroke buffers differs, every other part of the
/// painter is the same.
pub proof fn law_around_the_document_nothing_differs<F>(a: Renderer<F>, b: Renderer<F>)
    requires
        a.same_around_doc(&b),
    ensures
        a == (Renderer { doc: a.doc, tex_size: a.tex_size, buffers: a.buffers, ..b }),
        b.same_around_doc(&a),
{
}

/// A change of settings that counts as an edit leaves layers and undo steps alone and makes a
/// clean document unsaved.
pub proof fn law_settings_edits_leave_the_layers<F>(a: Renderer<F>, b: Renderer<F>)
    requires
        a.edited_from(&b),
    ensures
        a.doc@.stack == b.doc@.stack,
        a.doc@.history == b.doc@.history,
        !b.doc@.dirty() ==> a.doc@.dirty() && a.doc@.edit != a.doc@.saved,
        a.doc@.saved == b.doc@.saved && a.doc@.autosaved == b.doc@.autosaved,
        a == (Renderer { doc: a.doc, ..b }),
{
}

/// A new mesh is shown as it is, counts as a change of the mesh, and nothing that was made for
/// the old one is used for it.
pub proof fn law_a_new_mesh_drops_what_was_derived<F>(a: Scene<F>, b: Scene<F>, mesh: Mesh<F>)
    requires
        a.swapped(&b, mesh),
    ensures
        a.mesh == mesh,
        a.surface_adj is None && a.fill_map is None && a.coverage is None,
        a.maps_size is None && a.light_key is None,
        a.topo_version != b.topo_version,
        b.topo_version < u64::MAX ==> a.topo_version == b.topo_version + 1,
{
}

/// A document of a new size has no map or light of the old one; mesh and adjacency stay.
pub proof fn law_a_new_size_drops_the_old_maps<F>(a: Renderer<F>, b: Renderer<F>)
    requires
        a.rebuilt_from(&b),
    ensures
        a.scene.fill_map is None && a.scene.maps_size is None && a.scene.light_key is None,
        a.scene.mesh == b.scene.mesh,
        a.scene.topo_version == b.scene.topo_version,
        a.scene.surface_adj == b.scene.surface_adj,
        a.brush == b.brush && a.lock == b.lock && a.palette == b.palette && a.recipe == b.recipe,
{
}

/// After an exchange of the stack at the old size the whole image is drawn again; at a new
/// size the texture is rebuilt, without the maps of the old size.
pub proof fn law_an_exchanged_stack_is_drawn<F>(a: Renderer<F>, b: Renderer<F>, redraw: Redraw)
    requires
        a.after_resize(&b, redraw),
    ensures
        a.tex_size == a.doc@.stack.layers[0].tex.width,
        a.tex_size == b.tex_size <==> redraw == Redraw::Full,
        a.tex_size != b.tex_size <==> redraw == Redraw::Rebuild,
        a.tex_size != b.tex_size ==> a.scene.fill_map is None && a.scene.maps_size is None,
        a.tex_size == b.tex_size ==> a.scene == b.scene,
{
}

/// Which way a dab goes. A loaded image used as a stamp is a decal on colour, unless the brush
/// erases; else a loaded tip shapes it; else it is accumulated on the GPU where that is
/// switched on and the brush is no stamp on colour; else it is splatted here.
pub proof fn law_each_dab_has_its_path(b: BrushState, erase: bool, gpu: bool)
    ensures
        b.path(erase, gpu) == DabPath::Decal <==> b.target == PaintTarget::Color && b.image_mode
            == BrushImageMode::Stamp && b.has_image && !erase,
        b.path(erase, gpu) == DabPath::Tip <==> b.has_tip && !(b.target == PaintTarget::Color
            && b.image_mode == BrushImageMode::Stamp && b.has_image && !erase),
        b.path(erase, gpu) == DabPath::Gpu <==> gpu && !b.has_tip && (b.target
            == PaintTarget::Mask || !(b.image_mode == BrushImageMode::Stamp && b.has_image)),
        !gpu && !b.has_tip && (b.target == PaintTarget::Mask || b.image_mode
            == BrushImageMode::Tiled || !b.has_image || erase) ==> b.path(erase, gpu)
            == DabPath::Splat,
        b.gpu_ok(gpu) <==> gpu && !b.has_tip && !(b.target == PaintTarget::Color && b.image_mode
            == BrushImageMode::Stamp && b.has_image),
{
}

/// What the pickers call the texture filters and the mirror axes.
pub proof fn law_pickers_have_these_labels()
    ensures
        TextureFilter::Nearest.text() == "Nearest (crisp)"@,
        TextureFilter::Linear.text() == "Linear (smooth)"@,
        SymmetryAxis::X.text() == "X"@,
        SymmetryAxis::Y.text() == "Y"@,
        SymmetryAxis::Z.text() == "Z"@,
{
}

/// A loaded image replaces the colour of the active layer and nothing else of the document.
/// One step back gives the old layers.
pub proof fn law_an_image_replaces_the_colour<F>(
    before: Renderer<F>,
    after: Renderer<F>,
    tex: PaintTexture,
    op: Option<LayerOp>,
)
    requires
        before.wf(),
        after.imaged_from(&before, tex, op),
    ensures
        ({
            let (s, t) = (before.doc@.stack, after.doc@.stack);
            let (a, b) = (s.layers[s.active], t.layers[s.active]);
            &&& t.active == s.active && t.layers.len() == s.layers.len()
            &&& b.tex.pixels == tex.pixels@
            &&& b.mask == a.mask && b.name == a.name && b.visible == a.visible
            &&& b.opacity == a.opacity && b.blend == a.blend && b.effects == a.effects
            &&& op is None ==> b.naming == a.naming
            &&& op is Some && !a.naming.renamed ==> b.naming.ops == a.naming.ops.push(op->0)
            &&& forall|i: int|
                0 <= i < s.layers.len() && i != s.active ==> t.layers[i] == #[trigger] s.layers[i]
        }),
        after.doc@.undone().stack == before.doc@.stack,
        after == (Renderer { doc: after.doc, buffers: after.buffers, ..before }),
{
    assert(after.doc@.one_step_after(before.doc@));
    crate::document::law_undo_reverts_an_edit(before.doc@, after.doc@);
}

/// The settings of an unwrap: four texels of gutter, a usual atlas of 128 texels, charts on
/// whole texels, the cone and the overlap asked for, and never more than the machine allows.
/// At an exact density that density counts, and else the preset does.
pub proof fn law_unwraps_have_these_settings<F>(
    density: Density,
    texels_per_unit: F,
    overlap: bool,
    cone: F,
    limit: u32,
)
    ensures
        ({
            let p = preset_options(density, overlap, cone, limit);
            let e = exact_options(texels_per_unit, overlap, cone, limit);
            &&& p.density == density && p.target_density is None
            &&& e.target_density == Some(texels_per_unit)
            &&& p.angle_cone_deg == cone && e.angle_cone_deg == cone
            &&& p.overlap_identical == overlap && e.overlap_identical == overlap
            &&& p.max_atlas == limit && e.max_atlas == limit
            &&& p.gutter_px == 4 && e.gutter_px == 4
            &&& p.target_atlas_px == 128 && e.target_atlas_px == 128
            &&& p.snap_texels && e.snap_texels
        }),
{
}

/// Taking an unwrapped mesh over shows that mesh with nothing derived from the old one. At
/// the same atlas size the layers stay as they are, else each of their images is resampled
/// from itself. One step back gives the old layers.
pub proof fn law_an_unwrap_keeps_the_paint<F, R: Fn(&PaintTexture, u32) -> PaintTexture>(
    before: Renderer<F>,
    after: Renderer<F>,
    result: UnwrapResult<F>,
    resample: R,
    i: int,
)
    requires
        after.unwrapped_from(&before, result, resample),
        0 <= i < before.doc@.stack.layers.len(),
    ensures
        after.tex_size == result.atlas_size,
        after.scene.mesh == result.mesh,
        after.scene.fill_map is None && after.scene.surface_adj is None,
        after.scene.coverage is None && after.scene.maps_size is None,
        result.atlas_size == before.tex_size ==> after.doc@.stack == before.doc@.stack,
        result.atlas_size != before.tex_size ==> ({
            let (a, b) = (before.doc@.stack.layers[i], after.doc@.stack.layers[i]);
            let n = result.atlas_size;
            &&& exists|t: PaintTexture, out: PaintTexture| #[trigger]
                resample.ensures((&t, n), out) && t@ == a.tex && out@ == b.tex
            &&& exists|t: PaintTexture, out: PaintTexture| #[trigger]
                resample.ensures((&t, n), out) && t@ == a.mask && out@ == b.mask
            &&& b.name == a.name && b.visible == a.visible && b.opacity == a.opacity
            &&& b.blend == a.blend && b.effects == a.effects
        }),
        after.doc@.undone().stack == before.doc@.stack,
        after == (Renderer {
            doc: after.doc,
            tex_size: after.tex_size,
            buffers: after.buffers,
            scene: after.scene,
            ..before
        }),
{
    if result.atlas_size != before.tex_size {
        crate::stacks::law_a_new_resolution_resamples_each_image(
            before,
            after,
            result.atlas_size,
            resample,
            i,
        );
    } else {
        assert(after.doc@.one_step_after(before.doc@));
        crate::document::law_undo_reverts_an_edit(before.doc@, after.doc@);
    }
}

/// The facets of triangles are those the map has for them, in order; a triangle that the map
/// does not know has none.
pub proof fn law_locked_facets_are_those_of_the_triangles(map: &FillMap, a: u32, b: u32)
    ensures
        a < map.facet_of_tri.len() ==> facets_of(map, seq![a], 1) == seq![
            map.facet_of_tri@[a as int] as i32,
        ],
        a >= map.facet_of_tri.len() ==> facets_of(map, seq![a], 1).len() == 0,
        a < map.facet_of_tri.len() && b < map.facet_of_tri.len() ==> facets_of(map, seq![a, b], 2)
            == seq![map.facet_of_tri@[a as int] as i32, map.facet_of_tri@[b as int] as i32],
        a < map.facet_of_tri.len() && b >= map.facet_of_tri.len() ==> facets_of(
            map,
            seq![a, b],
            2,
        ) == seq![map.facet_of_tri@[a as int] as i32],
{
    reveal_with_fuel(facets_of, 3);
    assert(facets_of(map, seq![a], 0) =~= Seq::empty());
    assert(facets_of(map, seq![a, b], 0) =~= Seq::empty());
    if a < map.facet_of_tri.len() {
        assert(facets_of(map, seq![a], 1) =~= seq![map.facet_of_tri@[a as int] as i32]);
        assert(facets_of(map, seq![a, b], 1) =~= seq![map.facet_of_tri@[a as int] as i32]);
        if b < map.facet_of_tri.len() {
            assert(facets_of(map, seq![a, b], 2) =~= seq![
                map.facet_of_tri@[a as int] as i32,
                map.facet_of_tri@[b as int] as i32,
            ]);
        }
    }
}

/// The first dab of a stroke under a face lock fixes the facet under the cursor, and with a
/// mirrored dab also the one under that; later dabs, and dabs with the lock off, change
/// nothing of the lock. Nothing else of the painter changes.
pub proof fn law_the_first_dab_fixes_the_lock<F>(
    before: Renderer<F>,
    after: Renderer<F>,
    hit: u32,
    mirror: Option<u32>,
)
    requires
        after.locked_from(&before, hit, mirror),
        before.lock.on ==> before.scene.fill_map is Some,
    ensures
        after == (Renderer { lock: after.lock, ..before }),
        after.lock.on == before.lock.on,
        !before.lock.on || before.lock.facets is Some ==> after.lock == before.lock,
        before.lock.on && before.lock.facets is None ==> ({
            let map = before.scene.fill_map->0;
            &&& after.lock.facets is Some
            &&& mirror is None && hit < map.facet_of_tri.len() ==> (after.lock.facets->0)@ == seq![
                map.facet_of_tri@[hit as int] as i32,
            ]
            &&& mirror is Some && hit < map.facet_of_tri.len() && mirror->0
                < map.facet_of_tri.len() ==> (after.lock.facets->0)@ == seq![
                map.facet_of_tri@[hit as int] as i32,
                map.facet_of_tri@[mirror->0 as int] as i32,
            ]
        }),
{
    if before.lock.on && before.lock.facets is None {
        let map = before.scene.fill_map->0;
        match mirror {
            Some(m) => {
                law_locked_facets_are_those_of_the_triangles(&map, hit, m);
            },
            None => {
                law_locked_facets_are_those_of_the_triangles(&map, hit, hit);
            },
        }
    }
}

/// A lock lets paint through on its facets only, once it is on and has some.
pub proof fn law_what_a_lock_lets_through(lock: FaceLock, map: &FillMap, t: int, f: u32)
    ensures
        lock.confines() <==> lock.on && lock.facets is Some && (lock.facets->0)@.len() > 0,
        0 <= t < map.texel_facet.len() ==> (lock.texel_admitted(map, t) <==> (
        lock.facets->0)@.contains(map.texel_facet@[t])),
        f < map.facet_of_tri.len() ==> (lock.face_admitted(map, f) <==> (
        lock.facets->0)@.contains(map.facet_of_tri@[f as int] as i32)),
        f >= map.facet_of_tri.len() ==> !lock.face_admitted(map, f),
{
}

/// The outline of facets has every edge of their triangles that no triangle of the same facet
/// lies across, and no other edge.
pub proof fn law_the_outline_is_the_rim(
    facet_of: Seq<u32>,
    nb: Seq<[i32; 3]>,
    facets: Seq<i32>,
    h: int,
    t: usize,
    e: usize,
)
    requires
        0 <= h <= usize::MAX,
        e < 3,
    ensures
        rim_edges(facet_of, nb, facets, h).contains((t, e)) <==> 3 * t + e < h && facets.contains(
            facet_of[t as int] as i32,
        ) && (nb[t as int][e as int] < 0 || facet_of[nb[t as int][e as int] as int]
            != facet_of[t as int]),
    decreases h,
{
    if h > 0 {
        law_the_outline_is_the_rim(facet_of, nb, facets, h - 1, t, e);
        let before = rim_edges(facet_of, nb, facets, h - 1);
        let all = rim_edges(facet_of, nb, facets, h);
        let (tt, ee) = ((h - 1) / 3, (h - 1) % 3);
        let adds = facets.contains(facet_of[tt] as i32) && on_rim(facet_of, nb, tt, ee);
        if before.contains((t, e)) {
            let i = choose|i: int| 0 <= i < before.len() && before[i] == (t, e);
            assert(all[i] == (t, e));
        }
        if adds && tt == t && ee == e {
            assert(all[before.len() as int] == (tt as usize, ee as usize));
        }
        if all.contains((t, e)) && !before.contains((t, e)) {
            let i = choose|i: int| 0 <= i < all.len() && all[i] == (t, e);
            assert(i == before.len());
        }
    }
}

/// The outline lists its edges in the order of the triangles, and none twice.
pub proof fn law_the_outline_is_in_order(
    facet_of: Seq<u32>,
    nb: Seq<[i32; 3]>,
    facets: Seq<i32>,
    h: int,
    i: int,
    j: int,
)
    requires
        0 <= h <= usize::MAX,
        0 <= i < j < rim_edges(facet_of, nb, facets, h).len(),
    ensures
        ({
            let edges = rim_edges(facet_of, nb, facets, h);
            3 * edges[i].0 + edges[i].1 < 3 * edges[j].0 + edges[j].1 < h
        }),
    decreases h,
{
    let edges = rim_edges(facet_of, nb, facets, h);
    if h > 0 {
        let before = rim_edges(facet_of, nb, facets, h - 1);
        if j < before.len() {
            law_the_outline_is_in_order(facet_of, nb, facets, h - 1, i, j);
        } else {
            lemma_outline_below(facet_of, nb, facets, h - 1, i);
        }
    }
}

proof fn lemma_outline_below(
    facet_of: Seq<u32>,
    nb: Seq<[i32; 3]>,
    facets: Seq<i32>,
    h: int,
    i: int,
)
    requires
        0 <= h <= usize::MAX,
        0 <= i < rim_edges(facet_of, nb, facets, h).len(),
    ensures
        3 * rim_edges(facet_of, nb, facets, h)[i].0 + rim_edges(facet_of, nb, facets, h)[i].1 < h,
    decreases h,
{
    if h > 0 && i < rim_edges(facet_of, nb, facets, h - 1).len() {
        lemma_outline_below(facet_of, nb, facets, h - 1, i);
    }
}

/// A stroke from its beginning to its end is one step: whatever it painted into the active
/// layer, one step back gives every layer the images it had before, and the rest of the
/// layers is untouched by it.
pub proof fn law_undo_takes_a_whole_stroke_back<F>(
    before: DocModel<F>,
    painted: DocModel<F>,
    mask: bool,
    px: Seq<u8>,
    i: int,
)
    requires
        0 <= before.stack.active < before.stack.layers.len(),
        painted == before.painted(mask, px),
        0 <= i < before.stack.layers.len(),
    ensures
        ({
            let a = before.stack.active;
            let l = before.stack.layers[a];
            let done = painted.stroke_committed(a, l.tex, l.mask);
            &&& done.history.undo.len() > 0 && done.history.redo.len() == 0
            &&& done.stack == painted.stack
            &&& done.undone().stack.layers[i] == before.stack.layers[i]
            &&& done.undone().stack.active == a
            &&& done.undone().redone().stack.layers[i] == painted.stack.layers[i]
        }),
{
    let a = before.stack.active;
    let l = before.stack.layers[a];
    let done = painted.stroke_committed(a, l.tex, l.mask);
    crate::history::law_redo_reverts_undo(done.history, done.stack);
    assert(done.undone().stack.layers[a] == l);
}

/// The outline traces nothing while the lock is off. While a stroke is held to facets it
/// traces these, wherever the cursor is, and else the facet of the triangle under the cursor,
/// if there is one.
pub proof fn law_what_the_outline_traces<F>(r: Renderer<F>, hit: Option<u32>)
    ensures
        !r.lock.on ==> r.outlined(hit).len() == 0,
        r.lock.on && r.pending is Some && r.lock.facets is Some && (r.lock.facets->0)@.len() > 0
            ==> r.outlined(hit) == (r.lock.facets->0)@,
        r.lock.on && (r.pending is None || r.lock.facets is None || (r.lock.facets->0)@.len() == 0)
            ==> match (hit, r.scene.fill_map) {
            (Some(t), Some(map)) if t < map.facet_of_tri@.len() => r.outlined(hit) == seq![
                map.facet_of_tri@[t as int] as i32,
            ],
            _ => r.outlined(hit).len() == 0,
        },
{
}

} // verus!
