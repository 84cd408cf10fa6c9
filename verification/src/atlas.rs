//! From charts to an atlas: packing at a density that fits, and the whole unwrap.
//!
//! Densities, projected coordinates and the maps between congruent charts are the caller's;
//! they come in through functions and are only passed on.

use crate::charts::{
    chart_is_grown, chart_wf, charts_connected, charts_wf, grow_charts, join_agrees,
};
use crate::edges::is_listed;
use crate::mesh::{build_split, Mesh, SplitTri, Vertex};
use crate::numbering::numbers;
use crate::skyline::{is_packed, skyline_pack};
use crate::slots::{
    chart_slotted, group_congruent_charts, grouping_wf, opened, register_agrees, Grouping,
};
use crate::unwrap::{
    adjacency_wf, build_adjacency, count_in, edge_links, is_empty_atlas, is_max_pow2,
    is_next_pow2, is_pow2, larger, law_atlas_is_a_power_of_two_within_the_limit, weld_positions,
    welded_edges, AtlasFit, UnwrapOptions, UnwrapResult, WeldKey,
};
use vstd::prelude::*;

verus! {

/// A packed layout: the offset of each box, the atlas side, the density, and whether the
/// density had to be reduced.
#[derive(Debug)]
pub struct Packing<D> {
    pub offsets: Vec<(u64, u64)>,
    pub atlas: u32,
    pub density: D,
    pub clamped: bool,
}

/// One packing of the density search.
pub struct PackStep<D> {
    pub density: D,
    pub sizes: Seq<(u32, u32)>,
    pub offsets: Seq<(u64, u64)>,
    pub w: u64,
    pub h: u64,
}

/// `sizes` is an answer of `boxes` for a density.
pub open spec fn sized_at<D, P, B: Fn(&P, &Vec<usize>, D) -> Vec<(u32, u32)>>(
    boxes: B,
    shapes: &P,
    slots: &Vec<usize>,
    density: D,
    sizes: Seq<(u32, u32)>,
) -> bool {
    exists|v: Vec<(u32, u32)>| #[trigger] boxes.ensures((shapes, slots, density), v) && v@ == sizes
}

/// The sizes are those of the density, and the layout packs them.
pub open spec fn step_ok<D, P, B: Fn(&P, &Vec<usize>, D) -> Vec<(u32, u32)>>(
    boxes: B,
    shapes: &P,
    slots: &Vec<usize>,
    gutter_px: u32,
    s: PackStep<D>,
) -> bool {
    &&& sized_at(boxes, shapes, slots, s.density, s.sizes)
    &&& is_packed(s.sizes, gutter_px, s.offsets, s.w as int, s.h as int)
}

/// Step `b` follows step `a`: the search asks for another packing, at the density scaled to
/// the atlas.
pub open spec fn step_follows<D, M: Fn(D, u32, u64) -> D>(
    scale: M,
    a: PackStep<D>,
    fit: AtlasFit,
    b: PackStep<D>,
    next_fit: AtlasFit,
) -> bool {
    let (after, cur) = fit.after(a.w, a.h);
    &&& cur is Some
    &&& next_fit == after
    &&& scale.ensures((a.density, fit.atlas, cur->0), b.density)
}

/// A density search: each step packs, and follows the one before it.
pub open spec fn is_search<
    D,
    P,
    B: Fn(&P, &Vec<usize>, D) -> Vec<(u32, u32)>,
    M: Fn(D, u32, u64) -> D,
>(
    boxes: B,
    shapes: &P,
    slots: &Vec<usize>,
    scale: M,
    gutter_px: u32,
    steps: Seq<PackStep<D>>,
    fits: Seq<AtlasFit>,
) -> bool {
    &&& steps.len() == fits.len()
    &&& forall|k: int|
        0 <= k < steps.len() ==> step_ok(boxes, shapes, slots, gutter_px, #[trigger] steps[k])
    &&& forall|k: int|
        0 < k < steps.len() ==> step_follows(
            scale,
            steps[k - 1],
            fits[k - 1],
            #[trigger] steps[k],
            fits[k],
        )
}

/// What packing owes: the atlas is chosen for the first packing, the density is rescaled as
/// the search asks, and the layout is the first one the search accepts. No slots, no search.
pub open spec fn packed_by<
    D,
    P,
    B: Fn(&P, &Vec<usize>, D) -> Vec<(u32, u32)>,
    M: Fn(D, u32, u64) -> D,
>(
    density: D,
    boxes: B,
    shapes: &P,
    slots: &Vec<usize>,
    scale: M,
    gutter_px: u32,
    max_atlas: u32,
    fill: bool,
    p: Packing<D>,
) -> bool {
    if slots.len() == 0 {
        p.offsets@.len() == 0 && p.atlas == 8 && p.density == density && !p.clamped
    } else {
        exists|steps: Seq<PackStep<D>>, fits: Seq<AtlasFit>| #[trigger]
            is_search(boxes, shapes, slots, scale, gutter_px, steps, fits) && steps.len() > 0
                && steps[0].density == density && fits[0].chosen(
                steps[0].w as int,
                steps[0].h as int,
                max_atlas as int,
                fill,
            ) && fits.last().after(steps.last().w, steps.last().h).1 is None && p.offsets@
                == steps.last().offsets && p.density == steps.last().density && p.atlas
                == fits[0].atlas && p.clamped == fits[0].clamped
    }
}

/// The sizes `boxes` gives are those of the slots and leave room for the gutter.
pub open spec fn boxes_fit<D, P, B: Fn(&P, &Vec<usize>, D) -> Vec<(u32, u32)>>(
    boxes: B,
    gutter_px: u32,
) -> bool {
    &&& forall|p: &P, s: &Vec<usize>, d: D| #[trigger] boxes.requires((p, s, d))
    &&& forall|p: &P, s: &Vec<usize>, d: D, v: Vec<(u32, u32)>| #[trigger]
        boxes.ensures((p, s, d), v) ==> v.len() == s.len() && forall|i: int|
            0 <= i < v.len() ==> 0 < (#[trigger] v@[i]).0 + 2 * gutter_px <= u32::MAX && v@[i].1 + 2
                * gutter_px <= u32::MAX
}

/// Packs slots at a density, derives a square power-of-two atlas from the extent, and
/// rescales the density until the layout fills the atlas (unless an exact density is asked
/// for) and stays within it. `boxes` gives the sizes of the slots in whole pixels at a
/// density, from the chart shapes and the chart that opened each slot; `scale` gives the
/// density times atlas over extent.
pub fn pack_pixels<
    D: Copy,
    P,
    B: Fn(&P, &Vec<usize>, D) -> Vec<(u32, u32)>,
    M: Fn(D, u32, u64) -> D,
>(
    density: D,
    shapes: &P,
    slots: &Vec<usize>,
    boxes: &B,
    scale: &M,
    gutter_px: u32,
    max_atlas: u32,
    fill: bool,
) -> (p: Packing<D>)
    requires
        slots.len() <= u32::MAX,
        max_atlas < 0x8000_0000,
        boxes_fit::<D, P, B>(*boxes, gutter_px),
        forall|d: D, a: u32, c: u64| #[trigger] scale.requires((d, a, c)),
    ensures
        packed_by(density, *boxes, shapes, slots, *scale, gutter_px, max_atlas, fill, p),
        p.offsets.len() == slots.len(),
        0 < p.atlas <= 0x8000_0000,
        is_pow2(p.atlas as int),
        p.atlas <= max_atlas || p.atlas == 8,
{
    if slots.len() == 0 {
        proof {
            vstd::arithmetic::power2::lemma2_to64();
            assert(8 == vstd::arithmetic::power2::pow2(3));
        }
        return Packing { offsets: Vec::new(), atlas: 8, density, clamped: false };
    }
    let mut d: D = density;
    let mut sizes = (*boxes)(shapes, slots, d);
    let (mut offsets, mut w, mut h) = skyline_pack(sizes.as_slice(), gutter_px);
    let mut fit = AtlasFit::new(w, h, max_atlas, fill);
    let ghost first = fit;
    let ghost step0 = PackStep { density: d, sizes: sizes@, offsets: offsets@, w, h };
    let ghost mut steps: Seq<PackStep<D>> = seq![step0];
    let ghost mut fits: Seq<AtlasFit> = seq![fit];
    proof {
        law_atlas_is_a_power_of_two_within_the_limit(
            w as int,
            h as int,
            max_atlas as int,
            fill,
            fit,
        );
        assert(boxes.ensures((shapes, slots, d), sizes));
        assert(sized_at(*boxes, shapes, slots, d, sizes@));
        assert(step_ok(*boxes, shapes, slots, gutter_px, step0));
        assert(is_search(*boxes, shapes, slots, *scale, gutter_px, steps, fits));
    }
    loop
        invariant_except_break
            fits.last() == fit,
        invariant
            slots.len() <= u32::MAX,
            boxes_fit::<D, P, B>(*boxes, gutter_px),
            forall|d: D, a: u32, c: u64| #[trigger] scale.requires((d, a, c)),
            is_search(*boxes, shapes, slots, *scale, gutter_px, steps, fits),
            steps.len() > 0,
            steps[0].density == density,
            fits[0] == first,
            steps[0] == step0,
            steps.last().density == d,
            steps.last().offsets == offsets@,
            steps.last().w == w,
            steps.last().h == h,
            offsets.len() == slots.len(),
            fit.atlas == first.atlas,
            fit.clamped == first.clamped,
        ensures
            is_search(*boxes, shapes, slots, *scale, gutter_px, steps, fits),
            steps.len() > 0,
            steps[0] == step0,
            fits[0] == first,
            fits.last().after(steps.last().w, steps.last().h).1 is None,
            steps.last().offsets == offsets@,
            steps.last().density == d,
            offsets.len() == slots.len(),
            fit.atlas == first.atlas,
            fit.clamped == first.clamped,
        decreases fit.fills_left + fit.trims_left,
    {
        let ghost before = fit;
        match fit.next(w, h) {
            None => {
                break;
            },
            Some(cur) => {
                let ghost prev_d = d;
                d = (*scale)(d, fit.atlas, cur);
                sizes = (*boxes)(shapes, slots, d);
                let packed = skyline_pack(sizes.as_slice(), gutter_px);
                offsets = packed.0;
                w = packed.1;
                h = packed.2;
                proof {
                    let step = PackStep { density: d, sizes: sizes@, offsets: offsets@, w, h };
                    assert(boxes.ensures((shapes, slots, d), sizes));
                    assert(sized_at(*boxes, shapes, slots, d, sizes@));
                    assert(step_ok(*boxes, shapes, slots, gutter_px, step));
                    assert(step_follows(*scale, steps.last(), before, step, fit));
                    let s2 = steps.push(step);
                    let f2 = fits.push(fit);
                    assert forall|k: int| 0 < k < s2.len() implies step_follows(
                        *scale,
                        s2[k - 1],
                        f2[k - 1],
                        #[trigger] s2[k],
                        f2[k],
                    ) by {
                        if k < steps.len() {
                            assert(s2[k] == steps[k]);
                            assert(s2[k - 1] == steps[k - 1]);
                        }
                    }
                    assert(is_search(*boxes, shapes, slots, *scale, gutter_px, s2, f2));
                    steps = s2;
                    fits = f2;
                }
            },
        }
    }
    Packing { offsets, atlas: fit.atlas, density: d, clamped: fit.clamped }
}

/// An exact density is honoured exactly unless the atlas had to be clamped, and the layout
/// then lies within the atlas.
pub proof fn law_exact_density_is_kept<
    D,
    P,
    B: Fn(&P, &Vec<usize>, D) -> Vec<(u32, u32)>,
    M: Fn(D, u32, u64) -> D,
>(
    density: D,
    boxes: B,
    shapes: &P,
    slots: &Vec<usize>,
    scale: M,
    gutter_px: u32,
    max_atlas: u32,
    p: Packing<D>,
)
    requires
        packed_by(density, boxes, shapes, slots, scale, gutter_px, max_atlas, false, p),
        !p.clamped,
    ensures
        p.density == density,
        slots.len() > 0 ==> exists|s: PackStep<D>| #[trigger]
            step_ok(boxes, shapes, slots, gutter_px, s) && s.density == density && s.offsets
                == p.offsets@ && s.w <= p.atlas && s.h <= p.atlas,
{
    if slots.len() > 0 {
        let (steps, fits) = choose|steps: Seq<PackStep<D>>, fits: Seq<AtlasFit>| #[trigger]
            is_search(boxes, shapes, slots, scale, gutter_px, steps, fits) && steps.len() > 0
                && steps[0].density == density && fits[0].chosen(
                steps[0].w as int,
                steps[0].h as int,
                max_atlas as int,
                false,
            ) && fits.last().after(steps.last().w, steps.last().h).1 is None && p.offsets@
                == steps.last().offsets && p.density == steps.last().density && p.atlas
                == fits[0].atlas && p.clamped == fits[0].clamped;
        let s = steps[0];
        law_atlas_is_a_power_of_two_within_the_limit(
            s.w as int,
            s.h as int,
            max_atlas as int,
            false,
            fits[0],
        );
        assert(fits[0].after(s.w, s.h).1 is None);
        if steps.len() > 1 {
            assert(step_follows(scale, steps[0], fits[0], steps[1], fits[1]));
        }
        assert(step_ok(boxes, shapes, slots, gutter_px, s));
    }
}

impl<D> PackStep<D> {
    /// The longer side of the layout.
    pub open spec fn extent(self) -> int {
        larger(self.w as int, self.h as int)
    }
}

/// The last `n` layouts of a search all reach beyond the atlas.
pub open spec fn overflowed<D>(steps: Seq<PackStep<D>>, atlas: u32, n: int) -> bool {
    &&& n <= steps.len()
    &&& forall|k: int|
        steps.len() - n <= k < steps.len() ==> (#[trigger] steps[k]).extent() > atlas
}

/// Trims come last, and only after layouts beyond the atlas: when `j` of them were made by
/// step `k`, the `j` layouts before it were beyond the atlas.
proof fn lemma_trims<
    D,
    P,
    B: Fn(&P, &Vec<usize>, D) -> Vec<(u32, u32)>,
    M: Fn(D, u32, u64) -> D,
>(
    boxes: B,
    shapes: &P,
    slots: &Vec<usize>,
    scale: M,
    gutter_px: u32,
    steps: Seq<PackStep<D>>,
    fits: Seq<AtlasFit>,
    k: int,
)
    requires
        is_search(boxes, shapes, slots, scale, gutter_px, steps, fits),
        0 <= k < fits.len(),
        fits[0].trims_left == 6,
    ensures
        fits[k].atlas == fits[0].atlas,
        fits[k].trims_left <= 6,
        6 - fits[k].trims_left <= k,
        fits[k].trims_left < 6 ==> fits[k].fills_left == 0,
        forall|i: int|
            k - (6 - fits[k].trims_left) <= i < k ==> (#[trigger] steps[i]).extent()
                > fits[0].atlas,
    decreases k,
{
    if k > 0 {
        lemma_trims(boxes, shapes, slots, scale, gutter_px, steps, fits, k - 1);
        assert(step_follows(scale, steps[k - 1], fits[k - 1], steps[k], fits[k]));
    }
}

/// The accepted layout lies within the atlas, so that no chart reaches beyond it. The one
/// exception is a search that gave up: then all six trims were spent, and the layout before
/// each of them as well as the last one reached beyond the atlas.
pub proof fn law_layout_lies_within_the_atlas<
    D,
    P,
    B: Fn(&P, &Vec<usize>, D) -> Vec<(u32, u32)>,
    M: Fn(D, u32, u64) -> D,
>(
    density: D,
    boxes: B,
    shapes: &P,
    slots: &Vec<usize>,
    scale: M,
    gutter_px: u32,
    max_atlas: u32,
    fill: bool,
    p: Packing<D>,
)
    requires
        packed_by(density, boxes, shapes, slots, scale, gutter_px, max_atlas, fill, p),
        slots.len() > 0,
    ensures
        exists|steps: Seq<PackStep<D>>, fits: Seq<AtlasFit>| #[trigger]
            is_search(boxes, shapes, slots, scale, gutter_px, steps, fits) && steps.len() > 0
                && steps[0].density == density && steps.last().density == p.density
                && steps.last().offsets == p.offsets@ && (steps.last().extent() <= p.atlas
                || overflowed(steps, p.atlas, 7)),
{
    let (steps, fits) = choose|steps: Seq<PackStep<D>>, fits: Seq<AtlasFit>| #[trigger]
        is_search(boxes, shapes, slots, scale, gutter_px, steps, fits) && steps.len() > 0
            && steps[0].density == density && fits[0].chosen(
            steps[0].w as int,
            steps[0].h as int,
            max_atlas as int,
            fill,
        ) && fits.last().after(steps.last().w, steps.last().h).1 is None && p.offsets@
            == steps.last().offsets && p.density == steps.last().density && p.atlas
            == fits[0].atlas && p.clamped == fits[0].clamped;
    let n = steps.len() - 1;
    lemma_trims(boxes, shapes, slots, scale, gutter_px, steps, fits, n);
    if steps.last().extent() > p.atlas {
        assert(fits[n].trims_left == 0);
        assert forall|k: int| steps.len() - 7 <= k < steps.len() implies (
        #[trigger] steps[k]).extent() > p.atlas by {}
        assert(overflowed(steps, p.atlas, 7));
    }
    assert(is_search(boxes, shapes, slots, scale, gutter_px, steps, fits));
}

/// How packing settles the atlas: without charts it has the least size and nothing is
/// scaled. Else it is the next power of two for the first packing, at the density asked for,
/// or the largest one allowed, and then it counts as clamped. An exact density that was not
/// clamped is kept together with its first packing: the slack stays blank.
pub proof fn law_packing_settles_the_atlas<
    D,
    P,
    B: Fn(&P, &Vec<usize>, D) -> Vec<(u32, u32)>,
    M: Fn(D, u32, u64) -> D,
>(
    density: D,
    boxes: B,
    shapes: &P,
    slots: &Vec<usize>,
    scale: M,
    gutter_px: u32,
    max_atlas: u32,
    fill: bool,
    p: Packing<D>,
)
    requires
        packed_by(density, boxes, shapes, slots, scale, gutter_px, max_atlas, fill, p),
    ensures
        slots.len() == 0 ==> p.offsets@.len() == 0 && p.atlas == 8 && p.density == density
            && !p.clamped,
        slots.len() > 0 ==> exists|s: PackStep<D>, natural: int, limit: int|
            #![trigger is_next_pow2(s.extent(), natural), is_max_pow2(max_atlas as int, limit)]
            step_ok(boxes, shapes, slots, gutter_px, s) && s.density == density && is_next_pow2(
                s.extent(),
                natural,
            ) && is_max_pow2(max_atlas as int, limit) && p.clamped == (natural > limit) && p.atlas
                == (if natural < limit {
                natural
            } else {
                limit
            }) && (!fill && !p.clamped ==> p.density == density && p.offsets@ == s.offsets),
{
    if slots.len() > 0 {
        let (steps, fits) = choose|steps: Seq<PackStep<D>>, fits: Seq<AtlasFit>| #[trigger]
            is_search(boxes, shapes, slots, scale, gutter_px, steps, fits) && steps.len() > 0
                && steps[0].density == density && fits[0].chosen(
                steps[0].w as int,
                steps[0].h as int,
                max_atlas as int,
                fill,
            ) && fits.last().after(steps.last().w, steps.last().h).1 is None && p.offsets@
                == steps.last().offsets && p.density == steps.last().density && p.atlas
                == fits[0].atlas && p.clamped == fits[0].clamped;
        let s = steps[0];
        let (natural, limit) = choose|natural: int, limit: int|
            #![trigger is_next_pow2(
                larger(s.w as int, s.h as int),
                natural,
            ), is_max_pow2(max_atlas as int, limit)]
            is_next_pow2(larger(s.w as int, s.h as int), natural) && is_max_pow2(
                max_atlas as int,
                limit,
            ) && fits[0].clamped == (natural > limit) && fits[0].atlas == if natural > limit {
                limit
            } else {
                natural
            };
        if !fill && !p.clamped {
            assert(fits[0].after(s.w, s.h).1 is None);
            if steps.len() > 1 {
                assert(step_follows(scale, steps[0], fits[0], steps[1], fits[1]));
            }
        }
        assert(step_ok(boxes, shapes, slots, gutter_px, s));
        assert(is_next_pow2(s.extent(), natural));
    }
}

/// The shapes of charts: how many distinct vertices each has, the key by which congruent
/// charts are found, and whatever else the caller knows of them.
#[derive(Debug)]
pub struct Shapes<P> {
    pub verts: Vec<usize>,
    pub keys: Vec<Vec<i64>>,
    pub data: P,
}

/// An unwrap with all its stages.
pub struct Unwrapping<F, P, R> {
    pub weld: Vec<u32>,
    pub adj: Vec<Vec<usize>>,
    pub chart_of: Vec<usize>,
    pub charts: Vec<Vec<usize>>,
    pub shapes: Shapes<P>,
    pub grouping: Grouping<R>,
    /// The density to start from, and whether the layout is to fill the atlas.
    pub start: (F, bool),
    pub packing: Packing<F>,
    pub mesh: Mesh<F>,
}

impl<F, P, R> Unwrapping<F, P, R> {
    /// Vertices are welded by position, and triangles that share a welded edge are
    /// neighbours.
    pub open spec fn welded(&self, mesh: &Mesh<F>, keys: Seq<WeldKey>) -> bool {
        let edges = welded_edges(mesh, self.weld@);
        &&& numbers(keys, self.weld@)
        &&& adjacency_wf(self.adj@, mesh.tri_count_spec())
        &&& is_listed(edges, self.adj@)
        &&& forall|a: int, b: int|
            0 <= a < self.adj.len() && 0 <= b < self.adj.len() ==> #[trigger] count_in(
                self.adj@[a]@,
                b,
            ) == edge_links(edges, a, b, edges.len() as int)
    }

    /// The charts partition the triangles, are connected, and hold what joins their seeds.
    pub open spec fn charted<J: Fn(usize, usize) -> bool>(&self, joins: J) -> bool {
        &&& charts_wf(self.adj.len() as int, self.chart_of@, self.charts@)
        &&& charts_connected(self.adj@, self.chart_of@, self.charts@)
        &&& forall|j: spec_fn(usize, usize) -> bool, c: int|
            #![trigger join_agrees(joins, j), self.charts@[c]]
            join_agrees(joins, j) && 0 <= c < self.charts.len() ==> chart_is_grown(
                self.adj@,
                self.chart_of@,
                self.charts@,
                c,
                j,
            )
    }

    /// Each chart has its slot: its own, or with `overlap` that of the first congruent one.
    pub open spec fn grouped<G: Fn(&P, usize, usize) -> Option<R>>(
        &self,
        register: G,
        overlap: bool,
    ) -> bool {
        let n = self.charts.len() as int;
        &&& self.shapes.verts.len() == n
        &&& self.shapes.keys.len() == n
        &&& grouping_wf(n, self.grouping)
        &&& !overlap ==> forall|c: int|
            0 <= c < n ==> #[trigger] self.grouping.placed@[c] is None && self.grouping.slot_of@[c]
                == c
        &&& overlap ==> forall|f: spec_fn(usize, usize) -> Option<R>, c: int|
            #![trigger registers_as(register, &self.shapes.data, f), self.grouping.placed@[c]]
            registers_as(register, &self.shapes.data, f) && 0 <= c < n ==> chart_slotted(
                self.shapes.verts@,
                self.shapes.keys@,
                f,
                self.grouping.slot_of@,
                self.grouping.slot_reps@,
                self.grouping.placed@,
                c,
            )
    }
}

/// Triangle `t` of the new mesh has the positions and normals of the old one, and the UVs
/// the caller gives for its chart's place in the atlas.
pub open spec fn tri_placed<
    F,
    P,
    R,
    U: Fn(&P, usize, usize, Option<(usize, R)>, (u64, u64), F, u32) -> [[F; 2]; 3],
>(
    mesh: &Mesh<F>,
    place: U,
    shapes: &P,
    chart_of: Seq<usize>,
    grouping: Grouping<R>,
    packing: Packing<F>,
    out: Mesh<F>,
    t: int,
) -> bool {
    let c = chart_of[t];
    let v = out.vertices@;
    exists|uv: [[F; 2]; 3]| #[trigger]
        place.ensures(
            (
                shapes,
                t as usize,
                c,
                grouping.placed@[c as int],
                packing.offsets@[grouping.slot_of@[c as int] as int],
                packing.density,
                packing.atlas,
            ),
            uv,
        ) && corner_placed(mesh, v, uv, t, 0) && corner_placed(mesh, v, uv, t, 1)
            && corner_placed(mesh, v, uv, t, 2)
}

/// Corner `k` of triangle `t` keeps its position and normal and gets its UV.
pub open spec fn corner_placed<F>(
    mesh: &Mesh<F>,
    vertices: Seq<Vertex<F>>,
    uv: [[F; 2]; 3],
    t: int,
    k: int,
) -> bool {
    let v = vertices[3 * t + k];
    &&& v.position == mesh.corner(3 * t + k).position
    &&& v.normal == mesh.corner(3 * t + k).normal
    &&& v.uv == uv[k]
}

/// The new mesh: three vertices per triangle, in order, each triangle placed.
pub open spec fn mesh_placed<
    F,
    P,
    R,
    U: Fn(&P, usize, usize, Option<(usize, R)>, (u64, u64), F, u32) -> [[F; 2]; 3],
>(
    mesh: &Mesh<F>,
    place: U,
    shapes: &P,
    chart_of: Seq<usize>,
    grouping: Grouping<R>,
    packing: Packing<F>,
    out: Mesh<F>,
) -> bool {
    let n = mesh.tri_count_spec();
    &&& out.wf()
    &&& !out.needs_uvs && !out.needs_normals
    &&& out.source_transform == mesh.source_transform
    &&& out.vertices.len() == 3 * n
    &&& out.indices.len() == 3 * n
    &&& forall|h: int| 0 <= h < 3 * n ==> #[trigger] out.indices@[h] == h
    &&& forall|t: int|
        0 <= t < n ==> #[trigger] tri_placed(
            mesh,
            place,
            shapes,
            chart_of,
            grouping,
            packing,
            out,
            t,
        )
}

/// The answers of `register` on the given shapes all agree with the function `f`.
pub open spec fn registers_as<P, R, G: Fn(&P, usize, usize) -> Option<R>>(
    register: G,
    shapes: &P,
    f: spec_fn(usize, usize) -> Option<R>,
) -> bool {
    forall|a: usize, b: usize, v: Option<R>| #[trigger]
        register.ensures((shapes, a, b), v) ==> v == f(a, b)
}

/// The density to start from, and whether the layout is to fill the atlas. An exact density
/// that `counts` is taken as it is, and then nothing is stretched; else `density` gives one.
pub open spec fn starts_at<F, P, E: Fn(&P, &Vec<usize>) -> F, T: Fn(F) -> bool>(
    target: Option<F>,
    density: E,
    counts: T,
    shapes: &P,
    slots: &Vec<usize>,
    start: (F, bool),
) -> bool {
    ||| target is Some && counts.ensures((target->0,), true) && start == (target->0, false)
    ||| (target is Some ==> counts.ensures((target->0,), false)) && density.ensures(
        (shapes, slots),
        start.0,
    ) && start.1
}

fn start_density<F: Copy, P, E: Fn(&P, &Vec<usize>) -> F, T: Fn(F) -> bool>(
    target: Option<F>,
    density: &E,
    counts: &T,
    shapes: &P,
    slots: &Vec<usize>,
) -> (start: (F, bool))
    requires
        density.requires((shapes, slots)),
        forall|d: F| #[trigger] counts.requires((d,)),
    ensures
        starts_at(target, *density, *counts, shapes, slots, start),
{
    if let Some(td) = target {
        if (*counts)(td) {
            return (td, false);
        }
    }
    ((*density)(shapes, slots), true)
}

/// What an unwrap owes: every stage does its part on the results of the one before.
pub open spec fn unwraps<
    F,
    P,
    R,
    J: Fn(usize, usize) -> bool,
    H: Fn(&Vec<usize>, &Vec<Vec<usize>>) -> Shapes<P>,
    G: Fn(&P, usize, usize) -> Option<R>,
    E: Fn(&P, &Vec<usize>) -> F,
    T: Fn(F) -> bool,
    B: Fn(&P, &Vec<usize>, F) -> Vec<(u32, u32)>,
    M: Fn(F, u32, u64) -> F,
    U: Fn(&P, usize, usize, Option<(usize, R)>, (u64, u64), F, u32) -> [[F; 2]; 3],
>(
    u: Unwrapping<F, P, R>,
    mesh: &Mesh<F>,
    keys: Seq<WeldKey>,
    opts: UnwrapOptions<F>,
    joins: J,
    shape: H,
    register: G,
    density: E,
    counts: T,
    boxes: B,
    scale: M,
    place: U,
) -> bool {
    &&& u.welded(mesh, keys)
    &&& u.charted(joins)
    &&& shape.ensures((&u.chart_of, &u.charts), u.shapes)
    &&& u.grouped(register, opts.overlap_identical)
    &&& starts_at(
        opts.target_density,
        density,
        counts,
        &u.shapes.data,
        &u.grouping.slot_reps,
        u.start,
    )
    &&& packed_by(
        u.start.0,
        boxes,
        &u.shapes.data,
        &u.grouping.slot_reps,
        scale,
        opts.gutter_px,
        opts.max_atlas,
        u.start.1,
        u.packing,
    )
    &&& mesh_placed(mesh, place, &u.shapes.data, u.chart_of@, u.grouping, u.packing, u.mesh)
}

/// The whole unwrap of a mesh with triangles: weld, grow charts, group congruent ones, pack,
/// and place every triangle. `keys` are the vertex positions on the welding grid. The caller
/// says which triangles join a chart, what the charts look like once they are projected,
/// which are congruent, the density to start from, whether an exact density counts, the slot
/// sizes at a density, and where a corner falls.
pub fn unwrap_impl<
    F: Copy,
    P,
    R: Copy,
    J: Fn(usize, usize) -> bool,
    H: Fn(&Vec<usize>, &Vec<Vec<usize>>) -> Shapes<P>,
    G: Fn(&P, usize, usize) -> Option<R>,
    E: Fn(&P, &Vec<usize>) -> F,
    T: Fn(F) -> bool,
    B: Fn(&P, &Vec<usize>, F) -> Vec<(u32, u32)>,
    M: Fn(F, u32, u64) -> F,
    U: Fn(&P, usize, usize, Option<(usize, R)>, (u64, u64), F, u32) -> [[F; 2]; 3],
>(
    mesh: &Mesh<F>,
    keys: &Vec<WeldKey>,
    opts: &UnwrapOptions<F>,
    joins: J,
    shape: &H,
    register: &G,
    density: &E,
    counts: &T,
    boxes: &B,
    scale: &M,
    place: &U,
) -> (u: Unwrapping<F, P, R>)
    requires
        mesh.wf(),
        mesh.tri_count_spec() > 0,
        3 * mesh.tri_count_spec() <= u32::MAX,
        keys.len() == mesh.vertices.len(),
        keys.len() <= u32::MAX,
        opts.max_atlas < 0x8000_0000,
        forall|s: usize, t: usize| #[trigger] joins.requires((s, t)),
        forall|a: &Vec<usize>, b: &Vec<Vec<usize>>| #[trigger] shape.requires((a, b)),
        forall|a: &Vec<usize>, b: &Vec<Vec<usize>>, s: Shapes<P>| #[trigger]
            shape.ensures((a, b), s) ==> s.verts.len() == b.len() && s.keys.len() == b.len(),
        forall|p: &P, a: usize, b: usize| #[trigger] register.requires((p, a, b)),
        forall|p: &P, s: &Vec<usize>| #[trigger] density.requires((p, s)),
        forall|d: F| #[trigger] counts.requires((d,)),
        boxes_fit::<F, P, B>(*boxes, opts.gutter_px),
        forall|d: F, a: u32, c: u64| #[trigger] scale.requires((d, a, c)),
        forall|p: &P, t: usize, c: usize, m: Option<(usize, R)>, o: (u64, u64), d: F, a: u32|
            #[trigger] place.requires((p, t, c, m, o, d, a)),
    ensures
        unwraps(
            u,
            mesh,
            keys@,
            *opts,
            joins,
            *shape,
            *register,
            *density,
            *counts,
            *boxes,
            *scale,
            *place,
        ),
        is_pow2(u.packing.atlas as int),
        u.packing.atlas <= opts.max_atlas || u.packing.atlas == 8,
{
    let n: usize = mesh.tri_count();
    let weld = weld_positions(keys);
    let adj = build_adjacency(mesh, &weld);
    let (chart_of, charts) = grow_charts(&adj, joins);
    let shapes = (*shape)(&chart_of, &charts);
    let data = &shapes.data;
    let reg = |a: usize, b: usize| -> (o: Option<R>)
        requires
            register.requires((data, a, b)),
        ensures
            register.ensures((data, a, b), o),
        { (*register)(data, a, b) };
    let grouping = group_congruent_charts(
        &shapes.verts,
        &shapes.keys,
        reg,
        opts.overlap_identical,
    );
    proof {
        assert forall|f: spec_fn(usize, usize) -> Option<R>| #[trigger]
            registers_as(*register, data, f) implies register_agrees(reg, f) by {}
    }
    let start = start_density(opts.target_density, density, counts, &shapes.data, &grouping.slot_reps);
    proof {
        lemma_few_charts(n as int, chart_of@, charts@, charts.len() as int);
        lemma_few_slots(grouping.placed@, charts.len() as int);
    }
    let packing = pack_pixels(
        start.0,
        &shapes.data,
        &grouping.slot_reps,
        boxes,
        scale,
        opts.gutter_px,
        opts.max_atlas,
        start.1,
    );
    let out = place_tris(mesh, place, &shapes.data, &chart_of, charts.len(), &grouping, &packing);
    Unwrapping { weld, adj, chart_of, charts, shapes, grouping, start, packing, mesh: out }
}

/// The mesh and its welding keys can be unwrapped, within a limit for the atlas.
pub open spec fn unwrap_ready<F>(mesh: &Mesh<F>, keys: Seq<WeldKey>, max_atlas: u32) -> bool {
    &&& mesh.wf()
    &&& 3 * mesh.tri_count_spec() <= u32::MAX
    &&& keys.len() == mesh.vertices.len()
    &&& keys.len() <= u32::MAX
    &&& max_atlas < 0x8000_0000
}

/// The functions an unwrap is given answer whatever they are asked, a shape for every chart,
/// and boxes that fit with their gutter.
pub open spec fn geometry_ok<
    F,
    P,
    R,
    J: Fn(usize, usize) -> bool,
    H: Fn(&Vec<usize>, &Vec<Vec<usize>>) -> Shapes<P>,
    G: Fn(&P, usize, usize) -> Option<R>,
    E: Fn(&P, &Vec<usize>) -> F,
    T: Fn(F) -> bool,
    B: Fn(&P, &Vec<usize>, F) -> Vec<(u32, u32)>,
    M: Fn(F, u32, u64) -> F,
    U: Fn(&P, usize, usize, Option<(usize, R)>, (u64, u64), F, u32) -> [[F; 2]; 3],
>(
    gutter_px: u32,
    joins: J,
    shape: H,
    register: G,
    density: E,
    counts: T,
    boxes: B,
    scale: M,
    place: U,
) -> bool {
    &&& forall|s: usize, t: usize| #[trigger] joins.requires((s, t))
    &&& forall|a: &Vec<usize>, b: &Vec<Vec<usize>>| #[trigger] shape.requires((a, b))
    &&& forall|a: &Vec<usize>, b: &Vec<Vec<usize>>, s: Shapes<P>| #[trigger]
        shape.ensures((a, b), s) ==> s.verts.len() == b.len() && s.keys.len() == b.len()
    &&& forall|p: &P, a: usize, b: usize| #[trigger] register.requires((p, a, b))
    &&& forall|p: &P, s: &Vec<usize>| #[trigger] density.requires((p, s))
    &&& forall|d: F| #[trigger] counts.requires((d,))
    &&& boxes_fit::<F, P, B>(boxes, gutter_px)
    &&& forall|d: F, a: u32, c: u64| #[trigger] scale.requires((d, a, c))
    &&& forall|p: &P, t: usize, c: usize, m: Option<(usize, R)>, o: (u64, u64), d: F, a: u32|
        #[trigger] place.requires((p, t, c, m, o, d, a))
}

/// `r` is the unwrap of a mesh: an empty one gives an empty mesh and an atlas of the target
/// size, with `unit` as the density; any other is welded, charted, packed and placed. The
/// atlas is a power of two within the limit, and an exact density is kept unless clamped.
pub open spec fn auto_unwrapped<
    F,
    P,
    R,
    J: Fn(usize, usize) -> bool,
    H: Fn(&Vec<usize>, &Vec<Vec<usize>>) -> Shapes<P>,
    G: Fn(&P, usize, usize) -> Option<R>,
    E: Fn(&P, &Vec<usize>) -> F,
    T: Fn(F) -> bool,
    B: Fn(&P, &Vec<usize>, F) -> Vec<(u32, u32)>,
    M: Fn(F, u32, u64) -> F,
    U: Fn(&P, usize, usize, Option<(usize, R)>, (u64, u64), F, u32) -> [[F; 2]; 3],
>(
    mesh: &Mesh<F>,
    keys: Seq<WeldKey>,
    opts: UnwrapOptions<F>,
    unit: F,
    joins: J,
    shape: H,
    register: G,
    density: E,
    counts: T,
    boxes: B,
    scale: M,
    place: U,
    r: UnwrapResult<F>,
) -> bool {
    &&& mesh.tri_count_spec() == 0 ==> {
        &&& r.mesh.vertices.len() == 0
        &&& r.mesh.indices.len() == 0
        &&& !r.mesh.needs_uvs
        &&& !r.mesh.needs_normals
        &&& r.mesh.source_transform == mesh.source_transform
        &&& is_empty_atlas(
            opts.target_atlas_px as int,
            opts.max_atlas as int,
            r.atlas_size as int,
        )
        &&& !r.clamped
        &&& r.density_d == unit
    }
    &&& mesh.tri_count_spec() > 0 ==> exists|u: Unwrapping<F, P, R>| #[trigger]
        unwraps(
            u,
            mesh,
            keys,
            opts,
            joins,
            shape,
            register,
            density,
            counts,
            boxes,
            scale,
            place,
        ) && r.mesh == u.mesh && r.atlas_size == u.packing.atlas && r.clamped == u.packing.clamped
            && r.density_d == u.packing.density
    &&& is_pow2(r.atlas_size as int)
    &&& 8 <= r.atlas_size
    &&& r.atlas_size <= opts.max_atlas || r.atlas_size == 8
    &&& mesh.tri_count_spec() > 0 && opts.target_density is Some && !counts.ensures(
        (opts.target_density->0,),
        false,
    ) && !r.clamped ==> r.density_d == opts.target_density->0
}

/// Unwraps a mesh. One without triangles gives an empty mesh and an atlas of the target
/// size; `unit` is then the density.
pub fn auto_unwrap<
    F: Copy,
    P,
    R: Copy,
    J: Fn(usize, usize) -> bool,
    H: Fn(&Vec<usize>, &Vec<Vec<usize>>) -> Shapes<P>,
    G: Fn(&P, usize, usize) -> Option<R>,
    E: Fn(&P, &Vec<usize>) -> F,
    T: Fn(F) -> bool,
    B: Fn(&P, &Vec<usize>, F) -> Vec<(u32, u32)>,
    M: Fn(F, u32, u64) -> F,
    U: Fn(&P, usize, usize, Option<(usize, R)>, (u64, u64), F, u32) -> [[F; 2]; 3],
>(
    mesh: &Mesh<F>,
    keys: &Vec<WeldKey>,
    opts: &UnwrapOptions<F>,
    unit: F,
    joins: J,
    shape: &H,
    register: &G,
    density: &E,
    counts: &T,
    boxes: &B,
    scale: &M,
    place: &U,
) -> (r: UnwrapResult<F>)
    requires
        unwrap_ready(mesh, keys@, opts.max_atlas),
        geometry_ok(
            opts.gutter_px,
            joins,
            *shape,
            *register,
            *density,
            *counts,
            *boxes,
            *scale,
            *place,
        ),
    ensures
        auto_unwrapped(
            mesh,
            keys@,
            *opts,
            unit,
            joins,
            *shape,
            *register,
            *density,
            *counts,
            *boxes,
            *scale,
            *place,
            r,
        ),
{
    if mesh.tri_count() == 0 {
        return UnwrapResult::empty(
            opts.target_atlas_px,
            opts.max_atlas,
            unit,
            mesh.source_transform,
        );
    }
    let u = unwrap_impl(
        mesh,
        keys,
        opts,
        joins,
        shape,
        register,
        density,
        counts,
        boxes,
        scale,
        place,
    );
    proof {
        if opts.target_density is Some && !counts.ensures((opts.target_density->0,), false)
            && !u.packing.clamped {
            law_exact_density_is_kept(
                u.start.0,
                *boxes,
                &u.shapes.data,
                &u.grouping.slot_reps,
                *scale,
                opts.gutter_px,
                opts.max_atlas,
                u.packing,
            );
        }
    }
    UnwrapResult {
        mesh: u.mesh,
        atlas_size: u.packing.atlas,
        clamped: u.packing.clamped,
        density_d: u.packing.density,
    }
}

/// Builds the new mesh from the place of every triangle.
fn place_tris<
    F: Copy,
    P,
    R: Copy,
    U: Fn(&P, usize, usize, Option<(usize, R)>, (u64, u64), F, u32) -> [[F; 2]; 3],
>(
    mesh: &Mesh<F>,
    place: &U,
    shapes: &P,
    chart_of: &Vec<usize>,
    charts: usize,
    grouping: &Grouping<R>,
    packing: &Packing<F>,
) -> (out: Mesh<F>)
    requires
        mesh.wf(),
        3 * mesh.tri_count_spec() <= u32::MAX,
        chart_of.len() == mesh.tri_count_spec(),
        forall|t: int| 0 <= t < chart_of.len() ==> (#[trigger] chart_of@[t]) < charts,
        grouping_wf(charts as int, *grouping),
        packing.offsets.len() == grouping.slot_reps.len(),
        forall|p: &P, t: usize, c: usize, m: Option<(usize, R)>, o: (u64, u64), d: F, a: u32|
            #[trigger] place.requires((p, t, c, m, o, d, a)),
    ensures
        mesh_placed(mesh, *place, shapes, chart_of@, *grouping, *packing, out),
{
    let n: usize = mesh.tri_count();
    let mut tris: Vec<SplitTri<F>> = Vec::new();
    let mut t: usize = 0;
    while t < n
        invariant
            mesh.wf(),
            n == mesh.tri_count_spec() == chart_of.len(),
            forall|t: int| 0 <= t < chart_of.len() ==> (#[trigger] chart_of@[t]) < charts,
            grouping_wf(charts as int, *grouping),
            packing.offsets.len() == grouping.slot_reps.len(),
            forall|p: &P, t: usize, c: usize, m: Option<(usize, R)>, o: (u64, u64), d: F, a: u32|
                #[trigger] place.requires((p, t, c, m, o, d, a)),
            t <= n,
            tris.len() == t,
            forall|k: int|
                0 <= k < t ==> tri_ready(
                    mesh,
                    *place,
                    shapes,
                    chart_of@,
                    *grouping,
                    *packing,
                    #[trigger] tris@[k],
                    k,
                ),
        decreases n - t,
    {
        let c: usize = chart_of[t];
        let m: Option<(usize, R)> = grouping.placed[c];
        let o: (u64, u64) = packing.offsets[grouping.slot_of[c]];
        let uv = (*place)(shapes, t, c, m, o, packing.density, packing.atlas);
        let i: usize = 3 * t;
        let va = mesh.vertices[mesh.indices[i] as usize];
        let vb = mesh.vertices[mesh.indices[i + 1] as usize];
        let vc = mesh.vertices[mesh.indices[i + 2] as usize];
        let tri = SplitTri {
            positions: [va.position, vb.position, vc.position],
            normals: [va.normal, vb.normal, vc.normal],
            uvs: uv,
        };
        assert(tri_ready(
            mesh,
            *place,
            shapes,
            chart_of@,
            *grouping,
            *packing,
            tri,
            t as int,
        ));
        tris.push(tri);
        t += 1;
    }
    let out = build_split(&tris, mesh.source_transform);
    proof {
        assert forall|t: int| 0 <= t < n implies #[trigger] tri_placed(
            mesh,
            *place,
            shapes,
            chart_of@,
            *grouping,
            *packing,
            out,
            t,
        ) by {
            let tri = tris@[t];
            assert(tri_ready(mesh, *place, shapes, chart_of@, *grouping, *packing, tri, t));
            assert forall|k: int| 0 <= k < 3 implies #[trigger] corner_placed(
                mesh,
                out.vertices@,
                tri.uvs,
                t,
                k,
            ) by {
                assert((3 * t + k) / 3 == t && (3 * t + k) % 3 == k);
                let v = out.vertices@[3 * t + k];
                assert(v.position == tri.positions[k]);
            }
            assert(corner_placed(mesh, out.vertices@, tri.uvs, t, 0));
            assert(corner_placed(mesh, out.vertices@, tri.uvs, t, 1));
            assert(corner_placed(mesh, out.vertices@, tri.uvs, t, 2));
        }
    }
    out
}

/// A triangle ready to be written: the corners of triangle `t` with the UVs of its place.
spec fn tri_ready<
    F,
    P,
    R,
    U: Fn(&P, usize, usize, Option<(usize, R)>, (u64, u64), F, u32) -> [[F; 2]; 3],
>(
    mesh: &Mesh<F>,
    place: U,
    shapes: &P,
    chart_of: Seq<usize>,
    grouping: Grouping<R>,
    packing: Packing<F>,
    tri: SplitTri<F>,
    t: int,
) -> bool {
    let c = chart_of[t];
    &&& place.ensures(
        (
            shapes,
            t as usize,
            c,
            grouping.placed@[c as int],
            packing.offsets@[grouping.slot_of@[c as int] as int],
            packing.density,
            packing.atlas,
        ),
        tri.uvs,
    )
    &&& forall|k: int|
        0 <= k < 3 ==> #[trigger] tri.positions[k] == mesh.corner(3 * t + k).position
            && tri.normals[k] == mesh.corner(3 * t + k).normal
}

/// There are no more charts than triangles.
proof fn lemma_few_charts(n: int, chart_of: Seq<usize>, charts: Seq<Vec<usize>>, k: int)
    requires
        charts_wf(n, chart_of, charts),
        0 <= k <= charts.len(),
    ensures
        k <= n,
        k > 0 ==> charts[k - 1]@[0] >= k - 1,
    decreases k,
{
    if k > 0 {
        lemma_few_charts(n, chart_of, charts, k - 1);
        let c = k - 1;
        assert(chart_wf(n, chart_of, charts, c));
        let seed = charts[c]@[0];
        if c > 0 {
            assert(chart_wf(n, chart_of, charts, c - 1));
            let prev = charts[c - 1]@[0];
            assert(charts[c - 1]@.contains(prev)) by {
                assert(charts[c - 1]@[0] == prev);
            }
            assert(charts[c]@.contains(seed)) by {
                assert(charts[c]@[0] == seed);
            }
            assert(chart_of[prev as int] == c - 1);
            assert(chart_of[seed as int] == c);
            if seed <= prev {
                if seed < prev {
                    assert(chart_of[seed as int] < c - 1);
                }
            }
        }
    }
}

/// There are no more slots than charts.
proof fn lemma_few_slots<R>(placed: Seq<Option<(usize, R)>>, n: int)
    requires
        0 <= n,
    ensures
        0 <= opened(placed, n) <= n,
    decreases n,
{
    if n > 0 {
        lemma_few_slots(placed, n - 1);
    }
}

} // verus!
