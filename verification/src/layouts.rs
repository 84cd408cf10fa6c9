//! What the stages of an unwrap owe each other: charts, slots, packing and placing.

use crate::atlas::{
    auto_unwrapped, corner_placed, mesh_placed, starts_at, step_follows, tri_placed, unwraps,
    PackStep, Packing, Shapes, Unwrapping,
};
use crate::charts::{chart_is_grown, chart_path, chart_wf, charts_wf, in_reach, left_for, lists};
use crate::mesh::Mesh;
use crate::skyline::{
    box_at, column, footprints, goes_before, is_extent, is_packed, is_square_bound, lowest_left,
    no_worse, outline_edge, rests_at, tallest_first_order, total_area, widest, PixelBox,
};
use crate::slots::{chart_slotted, compared, Grouping};
use crate::unwrap::{
    fills, is_empty_atlas, is_max_pow2, is_next_pow2, is_pow2, larger, AtlasFit, Density,
    UnwrapOptions, UnwrapResult, WeldKey,
};
use vstd::prelude::*;

verus! {

/// Of two different powers of two one is at least twice the other.
proof fn lemma_powers_apart(p: int, q: int)
    requires
        is_pow2(p),
        is_pow2(q),
        p < q,
    ensures
        2 * p <= q,
{
    let i = choose|k: nat| p == #[trigger] vstd::arithmetic::power2::pow2(k);
    let j = choose|k: nat| q == #[trigger] vstd::arithmetic::power2::pow2(k);
    if j <= i {
        if j < i {
            vstd::arithmetic::power2::lemma_pow2_strictly_increases(j, i);
        }
    } else {
        vstd::arithmetic::power2::lemma_pow2_unfold(i + 1);
        if i + 1 < j {
            vstd::arithmetic::power2::lemma_pow2_strictly_increases(i + 1, j);
        }
    }
}

/// The next power of two is the least one that is large enough and at least 8; the largest
/// one within a limit is the greatest that the limit allows, but never under 8.
pub proof fn law_powers_of_two_are_the_nearest(x: int, p: int, q: int)
    requires
        is_pow2(q),
        q >= 8,
    ensures
        is_next_pow2(x, p) ==> p >= 8 && p >= x && (q >= x ==> p <= q),
        is_max_pow2(x, p) ==> p >= 8 && (q <= x ==> q <= p) && (x >= 8 ==> p <= x),
{
    if is_next_pow2(x, p) && q >= x && q < p {
        lemma_powers_apart(q, p);
    }
    if is_max_pow2(x, p) && q <= x && q > p {
        lemma_powers_apart(p, q);
    }
}

/// An empty mesh gets an atlas of the target size, as the next power of two, but never more
/// than the limit allows.
pub proof fn law_an_empty_atlas_has_the_target_size(target: int, max_atlas: int, p: int)
    requires
        is_empty_atlas(target, max_atlas, p),
    ensures
        is_pow2(p),
        p >= 8,
        max_atlas >= 8 ==> p <= max_atlas,
        p >= target || 2 * p > max_atlas,
{
    let most = choose|most: int| #[trigger]
        is_max_pow2(max_atlas, most) && if target < most {
            is_next_pow2(target, p)
        } else {
            p == most
        };
    if target < most && p > most {
        lemma_powers_apart(most, p);
    }
}

/// The labels of the density presets.
pub proof fn law_densities_have_these_labels()
    ensures
        Density::Low.label() == "Low"@,
        Density::Medium.label() == "Medium"@,
        Density::High.label() == "High"@,
{
}

/// A layout fills the atlas when its longer side is less than a hundredth of itself away from
/// the side of the atlas.
pub proof fn law_when_a_layout_fills_the_atlas(atlas: int, cur: int)
    ensures
        atlas >= cur ==> (fills(atlas, cur) <==> 100 * (atlas - cur) < cur),
        atlas < cur ==> (fills(atlas, cur) <==> 100 * (cur - atlas) < cur),
        larger(atlas, cur) >= atlas && larger(atlas, cur) >= cur,
        larger(atlas, cur) == atlas || larger(atlas, cur) == cur,
{
}

/// The search for a density. It starts with eight rounds to fill the atlas, where that is
/// wanted, and six to trim. A round is asked for while the layout does not fill the atlas and
/// filling rounds are left, or reaches beyond it and trimming rounds are left; it is asked for
/// with the longer side, and costs one round. Once it is not, none follows. The atlas stays.
pub proof fn law_the_density_search(fit: AtlasFit, w: u64, h: u64)
    ensures
        ({
            let (next, cur) = fit.after(w, h);
            let side = if w > h {
                w
            } else {
                h
            };
            let far = !fills(fit.atlas as int, if side == 0 {
                1
            } else {
                side as int
            });
            &&& next.atlas == fit.atlas && next.clamped == fit.clamped
            &&& cur is Some <==> (fit.fills_left > 0 && far) || (side > fit.atlas
                && fit.trims_left > 0)
            &&& cur is Some && side > 0 ==> cur->0 == side
            &&& cur is Some ==> next.fills_left + next.trims_left < fit.fills_left
                + fit.trims_left
            &&& cur is Some && fit.fills_left > 0 && far ==> next.fills_left == fit.fills_left - 1
                && next.trims_left == fit.trims_left
            &&& cur is Some && !(fit.fills_left > 0 && far) ==> next.fills_left == 0
                && next.trims_left == fit.trims_left - 1
            &&& cur is None ==> next.fills_left == 0 && next.trims_left == fit.trims_left
        }),
        forall|a: int, b: int, m: int, fill: bool|
            #![trigger fit.chosen(a, b, m, fill)]
            fit.chosen(a, b, m, fill) ==> fit.trims_left == 6 && fit.fills_left == (if fill {
                8u32
            } else {
                0u32
            }),
{
}

/// The charts share the triangles out: each is in the chart that it counts for and in no
/// other, no chart is empty or lists one twice, and charts begin with the first triangle that
/// no earlier chart took.
pub proof fn law_charts_share_the_triangles_out(
    n: int,
    chart_of: Seq<usize>,
    charts: Seq<Vec<usize>>,
    t: usize,
    c: int,
)
    requires
        charts_wf(n, chart_of, charts),
        t < n,
        0 <= c < charts.len(),
    ensures
        chart_of[t as int] < charts.len(),
        charts[c]@.contains(t) <==> chart_of[t as int] == c,
        charts[c]@.len() > 0 && charts[c]@.no_duplicates(),
        chart_of[charts[c]@[0] as int] == c,
        chart_of[t as int] >= c ==> charts[c]@[0] <= t,
{
    assert(chart_wf(n, chart_of, charts, c));
    assert(charts[c]@.contains(charts[c]@[0]));
}

/// A chart takes in what borders on it: a neighbour of one of its triangles that no earlier
/// chart took and that its first triangle accepts is in it. And it takes in nothing else:
/// its first triangle accepts every other one of it.
pub proof fn law_a_chart_takes_its_neighbours_in(
    adj: Seq<Vec<usize>>,
    chart_of: Seq<usize>,
    charts: Seq<Vec<usize>>,
    c: int,
    j: spec_fn(usize, usize) -> bool,
    t: usize,
    u: usize,
)
    requires
        chart_is_grown(adj, chart_of, charts, c, j),
        charts[c]@.contains(t),
        u < adj.len(),
    ensures
        lists(adj, t, u) && chart_of[u as int] >= c && j(charts[c]@[0], u)
            ==> charts[c]@.contains(u),
        t != charts[c]@[0] ==> j(charts[c]@[0], t),
        adj[t as int]@.contains(u) <==> lists(adj, t, u),
{
    let seed = charts[c]@[0];
    let allowed = left_for(chart_of, c, seed, j);
    assert(in_reach(adj, allowed, seed, t));
    let path = choose|path: Seq<usize>| #[trigger]
        chart_path(adj, allowed, seed, path) && path.last() == t;
    if t != seed {
        assert(allowed(path[path.len() - 1]));
    }
    if lists(adj, t, u) && chart_of[u as int] >= c && j(seed, u) {
        let longer = path.push(u);
        assert(allowed(u));
        assert(chart_path(adj, allowed, seed, longer)) by {
            assert forall|i: int| 0 <= i < longer.len() implies (#[trigger] longer[i])
                < adj.len() by {
                if i < path.len() {
                    assert(path[i] < adj.len());
                }
            }
            assert forall|i: int| 0 < i < longer.len() implies allowed(#[trigger] longer[i]) by {
                if i < path.len() {
                    assert(allowed(path[i]));
                }
            }
            assert forall|i: int| 0 < i < longer.len() implies lists(
                adj,
                longer[i - 1],
                #[trigger] longer[i],
            ) by {
                if i < path.len() {
                    assert(lists(adj, path[i - 1], path[i]));
                }
            }
        }
        assert(longer.last() == u);
        assert(in_reach(adj, allowed, seed, u));
    }
}

/// Congruent charts share a slot. A chart is laid over an earlier one only if that one has a
/// slot of its own and the same key, neither has more than 256 vertices, and the two register;
/// of several such the first. A chart of at most 256 vertices gets a slot of its own only if
/// it registers with no earlier one that has its key.
pub proof fn law_congruent_charts_share_a_slot<R>(
    verts: Seq<usize>,
    keys: Seq<Vec<i64>>,
    f: spec_fn(usize, usize) -> Option<R>,
    slot_of: Seq<usize>,
    slot_reps: Seq<usize>,
    placed: Seq<Option<(usize, R)>>,
    c: int,
    q: int,
)
    requires
        chart_slotted(verts, keys, f, slot_of, slot_reps, placed, c),
        0 <= q < c,
    ensures
        placed[c] matches Some((r, v)) ==> r < c && placed[r as int] is None && keys[r as int]@
            == keys[c]@ && verts[c] <= 256 && verts[r as int] <= 256 && f(r, c as usize) == Some(v)
            && slot_of[c] == slot_of[r as int] && (q < r && placed[q] is None && verts[q] <= 256
            && keys[q]@ == keys[c]@ ==> f(q as usize, c as usize) is None),
        placed[c] is None ==> slot_reps[slot_of[c] as int] == c && (verts[c] <= 256 && verts[q]
            <= 256 && placed[q] is None && keys[q]@ == keys[c]@ ==> f(q as usize, c as usize)
            is None),
{
    if placed[q] is None && verts[q] <= 256 && keys[q]@ == keys[c]@ {
        assert(compared(verts, keys, placed, q, c));
    }
}

/// Every corner keeps its position and normal, and gets the texture place that was asked for
/// with its chart, the way the chart is laid over another, the offset of its chart's slot, the
/// density and the atlas. Triangles keep their order and no longer share corners.
pub proof fn law_triangles_are_placed_with_their_chart<
    F,
    P,
    R,
    U: Fn(&P, usize, usize, Option<(usize, R)>, (u64, u64), F, u32) -> [[F; 2]; 3],
>(
    mesh: &Mesh<F>,
    place: U,
    shapes: &P,
    chart_of: Seq<usize>,
    grouping: Grouping<R>,
    packing: Packing<F>,
    out: Mesh<F>,
    t: int,
)
    requires
        mesh_placed(mesh, place, shapes, chart_of, grouping, packing, out),
        0 <= t < mesh.indices@.len() as int / 3,
    ensures
        ({
            let c = chart_of[t] as int;
            let (a, b, d) = (out.vertices@[3 * t], out.vertices@[3 * t + 1], out.vertices@[3 * t
                + 2]);
            exists|uv: [[F; 2]; 3]| #[trigger]
                place.ensures(
                    (
                        shapes,
                        t as usize,
                        chart_of[t],
                        grouping.placed@[c],
                        packing.offsets@[grouping.slot_of@[c] as int],
                        packing.density,
                        packing.atlas,
                    ),
                    uv,
                ) && a.uv == uv[0] && b.uv == uv[1] && d.uv == uv[2]
        }),
        forall|k: int|
            0 <= k < 3 ==> (#[trigger] out.vertices@[3 * t + k]).position
                == mesh.vertices@[mesh.indices@[3 * t + k] as int].position
                && out.vertices@[3 * t + k].normal == mesh.vertices@[mesh.indices@[3 * t
                + k] as int].normal && out.indices@[3 * t + k] == 3 * t + k,
        out.vertices@.len() == 3 * (mesh.indices@.len() as int / 3),
        !out.needs_uvs,
        out.source_transform == mesh.source_transform,
{
    assert(tri_placed(mesh, place, shapes, chart_of, grouping, packing, out, t));
    let c = chart_of[t];
    let v = out.vertices@;
    let uv = choose|uv: [[F; 2]; 3]| #[trigger]
        place.ensures(
            (
                shapes,
                t as usize,
                c,
                grouping.placed@[c as int],
                packing.offsets@[grouping.slot_of@[c as int] as int],
                packing.density,
                packing.atlas,
            ),
            uv,
        ) && corner_placed(mesh, v, uv, t, 0) && corner_placed(mesh, v, uv, t, 1) && corner_placed(
            mesh,
            v,
            uv,
            t,
            2,
        );
    assert forall|k: int| 0 <= k < 3 implies (#[trigger] out.vertices@[3 * t + k]).position
        == mesh.vertices@[mesh.indices@[3 * t + k] as int].position && out.vertices@[3 * t
        + k].normal == mesh.vertices@[mesh.indices@[3 * t + k] as int].normal && out.indices@[3 * t
        + k] == 3 * t + k by {
        assert(corner_placed(mesh, v, uv, t, k));
        assert(out.indices@[3 * t + k] == 3 * t + k);
    }
}

/// The next density of a search is the one that scaling gives for the last one, the atlas and
/// the longer side of its layout.
pub proof fn law_the_search_scales_the_density<D, M: Fn(D, u32, u64) -> D>(
    scale: M,
    a: PackStep<D>,
    fit: AtlasFit,
    b: PackStep<D>,
    next: AtlasFit,
)
    requires
        step_follows(scale, a, fit, b, next),
        a.w > 0 || a.h > 0,
    ensures
        scale.ensures(
            (
                a.density,
                fit.atlas,
                if a.w > a.h {
                    a.w
                } else {
                    a.h
                },
            ),
            b.density,
        ),
        next.atlas == fit.atlas,
{
}

/// An exact density that counts is where packing starts, and then nothing is stretched; else
/// packing starts from the preset's density and is to fill the atlas.
pub proof fn law_where_packing_starts<F, P, E: Fn(&P, &Vec<usize>) -> F, T: Fn(F) -> bool>(
    target: Option<F>,
    density: E,
    counts: T,
    shapes: &P,
    slots: &Vec<usize>,
    start: (F, bool),
)
    requires
        starts_at(target, density, counts, shapes, slots, start),
    ensures
        target is None ==> density.ensures((shapes, slots), start.0) && start.1,
        !start.1 ==> target == Some(start.0) && counts.ensures((start.0,), true),
        target is Some && !counts.ensures((target->0,), false) ==> start == (target->0, false),
        target is Some && !counts.ensures((target->0,), true) ==> density.ensures(
            (shapes, slots),
            start.0,
        ) && start.1,
{
}

/// Footprints have the gutter on both sides; the boxes lie at their offsets.
pub proof fn law_footprints_have_their_gutters(
    csize: Seq<(u32, u32)>,
    gutter: u32,
    offsets: Seq<(u64, u64)>,
    i: int,
)
    requires
        0 <= i < csize.len(),
        csize[i].0 + 2 * gutter <= u32::MAX,
        csize[i].1 + 2 * gutter <= u32::MAX,
    ensures
        footprints(csize, gutter).len() == csize.len(),
        footprints(csize, gutter)[i].0 == csize[i].0 + gutter + gutter,
        footprints(csize, gutter)[i].1 == csize[i].1 + gutter + gutter,
        ({
            let b = box_at(footprints(csize, gutter), offsets, i);
            &&& b.x == offsets[i].0 && b.y == offsets[i].1
            &&& b.w == csize[i].0 + 2 * gutter && b.h == csize[i].1 + 2 * gutter
        }),
{
}

/// Boxes are placed by falling height: none is placed before a taller one, and boxes of one
/// height in their order. Every box is placed once.
pub proof fn law_taller_boxes_are_placed_first(
    sizes: Seq<(u32, u32)>,
    order: Seq<usize>,
    j: int,
    k: int,
)
    requires
        tallest_first_order(sizes, order),
        0 <= j < k < order.len(),
    ensures
        sizes[order[j] as int].1 >= sizes[order[k] as int].1,
        sizes[order[j] as int].1 == sizes[order[k] as int].1 ==> order[j] < order[k],
        order.len() == sizes.len(),
        order[j] != order[k],
{
    assert(goes_before(sizes, order[j] as int, order[k] as int));
}

/// How high the boxes reach over a column is the highest top among those over it, and 0
/// where there is none.
pub proof fn law_columns_reach_the_highest_top(placed: Seq<PixelBox>, c: int)
    ensures
        column(placed, c) >= 0,
        forall|i: int|
            0 <= i < placed.len() && (#[trigger] placed[i]).x <= c < placed[i].x + placed[i].w
                ==> placed[i].y + placed[i].h <= column(placed, c),
        column(placed, c) > 0 ==> exists|i: int|
            0 <= i < placed.len() && (#[trigger] placed[i]).x <= c < placed[i].x + placed[i].w
                && placed[i].y + placed[i].h == column(placed, c),
    decreases placed.len(),
{
    if placed.len() > 0 {
        let rest = placed.drop_last();
        law_columns_reach_the_highest_top(rest, c);
        assert forall|i: int|
            0 <= i < placed.len() && (#[trigger] placed[i]).x <= c < placed[i].x
                + placed[i].w implies placed[i].y + placed[i].h <= column(placed, c) by {
            if i < rest.len() {
                assert(rest[i] == placed[i]);
            }
        }
        if column(placed, c) > 0 {
            let b = placed.last();
            if b.spans(c) && b.y + b.h > column(rest, c) {
                assert(placed[placed.len() - 1].x <= c);
            } else {
                let i = choose|i: int|
                    0 <= i < rest.len() && (#[trigger] rest[i]).x <= c < rest[i].x + rest[i].w
                        && rest[i].y + rest[i].h == column(rest, c);
                assert(placed[i] == rest[i]);
            }
        }
    }
}

/// A box stands at the lowest place that a step of the outline offers, and at the leftmost of
/// those that are as low. It lies within the bound and on top of what is below it.
pub proof fn law_boxes_stand_low_and_left(
    placed: Seq<PixelBox>,
    bound: int,
    b: PixelBox,
    x: int,
    y: int,
)
    requires
        lowest_left(placed, bound, b),
    ensures
        0 <= b.x && b.x + b.w <= bound && 0 <= b.y,
        forall|c: int| b.x <= c < b.x + b.w ==> #[trigger] column(placed, c) <= b.y,
        b.y > 0 ==> exists|c: int| b.x <= c < b.x + b.w && #[trigger] column(placed, c) == b.y,
        b.x == 0 || column(placed, b.x - 1) != column(placed, b.x),
        outline_edge(placed, bound, x) && x + b.w <= bound && rests_at(placed, x, b.w, y) ==> b.y
            <= y && (b.y == y ==> b.x <= x),
{
    if outline_edge(placed, bound, x) && x + b.w <= bound && rests_at(placed, x, b.w, y) {
        assert(no_worse(b.y, b.x, y, x));
    }
}

/// The widest box and the area of all of them.
pub proof fn law_widest_and_area(sizes: Seq<(u32, u32)>)
    ensures
        widest(sizes) >= 0 && total_area(sizes) >= 0,
        forall|i: int| 0 <= i < sizes.len() ==> (#[trigger] sizes[i]).0 <= widest(sizes),
        widest(sizes) > 0 ==> exists|i: int|
            0 <= i < sizes.len() && (#[trigger] sizes[i]).0 == widest(sizes),
        sizes.len() > 0 ==> total_area(sizes) == total_area(sizes.drop_last()) + sizes.last().0
            * sizes.last().1,
        sizes.len() == 0 ==> total_area(sizes) == 0,
    decreases sizes.len(),
{
    if sizes.len() > 0 {
        let rest = sizes.drop_last();
        law_widest_and_area(rest);
        assert(sizes.last().0 * sizes.last().1 >= 0) by (nonlinear_arith)
            requires
                sizes.last().0 >= 0,
                sizes.last().1 >= 0,
        ;
        assert forall|i: int| 0 <= i < sizes.len() implies (#[trigger] sizes[i]).0 <= widest(
            sizes,
        ) by {
            if i < rest.len() {
                assert(rest[i] == sizes[i]);
            }
        }
        if widest(sizes) > 0 {
            if sizes.last().0 > widest(rest) {
                assert(sizes[sizes.len() - 1].0 == widest(sizes));
            } else {
                let i = choose|i: int|
                    0 <= i < rest.len() && (#[trigger] rest[i]).0 == widest(rest);
                assert(sizes[i] == rest[i]);
            }
        }
    }
}

/// The bound is as wide as the widest box; one that is wider is no more than a thousandth of
/// a pixel wider than the side of a square of the boxes' area. And one pixel more would be.
pub proof fn law_the_bound_is_a_square_of_the_area(sizes: Seq<(u32, u32)>, bound: int)
    requires
        is_square_bound(sizes, bound),
    ensures
        forall|i: int| 0 <= i < sizes.len() ==> (#[trigger] sizes[i]).0 <= bound,
        bound > widest(sizes) ==> (1000 * bound - 1) * (1000 * bound - 1) <= 1000000 * total_area(
            sizes,
        ),
        1000000 * total_area(sizes) < (1000 * bound + 999) * (1000 * bound + 999),
{
    law_widest_and_area(sizes);
    assert(1000 * (bound + 1) - 1 == 1000 * bound + 999);
}

/// The extent holds every box and touches one on each side.
pub proof fn law_the_extent_is_tight(
    sizes: Seq<(u32, u32)>,
    offsets: Seq<(u64, u64)>,
    max_x: int,
    max_y: int,
)
    requires
        is_extent(sizes, offsets, max_x, max_y),
    ensures
        forall|i: int|
            0 <= i < sizes.len() ==> offsets[i].0 + (#[trigger] sizes[i]).0 <= max_x
                && offsets[i].1 + sizes[i].1 <= max_y,
        max_x > 0 ==> exists|i: int|
            0 <= i < sizes.len() && offsets[i].0 + (#[trigger] sizes[i]).0 == max_x,
        max_y > 0 ==> exists|i: int|
            0 <= i < sizes.len() && offsets[i].1 + (#[trigger] sizes[i]).1 == max_y,
{
    assert forall|i: int| 0 <= i < sizes.len() implies offsets[i].0 + (#[trigger] sizes[i]).0
        <= max_x && offsets[i].1 + sizes[i].1 <= max_y by {
        let b = box_at(sizes, offsets, i);
        assert(b.x + b.w <= max_x);
    }
    if max_x > 0 {
        let i = choose|i: int|
            0 <= i < sizes.len() && {
                let b = #[trigger] box_at(sizes, offsets, i);
                b.x + b.w == max_x
            };
        assert(offsets[i].0 + sizes[i].0 == max_x);
    }
    if max_y > 0 {
        let i = choose|i: int|
            0 <= i < sizes.len() && {
                let b = #[trigger] box_at(sizes, offsets, i);
                b.y + b.h == max_y
            };
        assert(offsets[i].1 + sizes[i].1 == max_y);
    }
}

/// No pixel of a packing lies in the footprints of two charts.
pub proof fn law_footprints_share_no_pixel(
    csize: Seq<(u32, u32)>,
    gutter: u32,
    offsets: Seq<(u64, u64)>,
    max_x: int,
    max_y: int,
    i: int,
    j: int,
    x: int,
    y: int,
)
    requires
        is_packed(csize, gutter, offsets, max_x, max_y),
        0 <= i < csize.len(),
        0 <= j < csize.len(),
        i != j,
        csize[i].0 + 2 * gutter <= u32::MAX && csize[i].1 + 2 * gutter <= u32::MAX,
        csize[j].0 + 2 * gutter <= u32::MAX && csize[j].1 + 2 * gutter <= u32::MAX,
    ensures
        !(offsets[i].0 <= x < offsets[i].0 + csize[i].0 + 2 * gutter && offsets[i].1 <= y
            < offsets[i].1 + csize[i].1 + 2 * gutter && offsets[j].0 <= x < offsets[j].0
            + csize[j].0 + 2 * gutter && offsets[j].1 <= y < offsets[j].1 + csize[j].1 + 2
            * gutter),
{
    let sizes = footprints(csize, gutter);
    let (a, b) = (box_at(sizes, offsets, i), box_at(sizes, offsets, j));
    if i < j {
        assert(a.apart(b));
    } else {
        assert(b.apart(a));
    }
}

/// An unwrap keeps every triangle of the mesh where it is, in order: its corners have their
/// positions and normals, and only the texture places are new. The atlas is a power of two
/// of at least 8, within the limit unless it is 8.
pub proof fn law_an_unwrap_keeps_every_triangle<
    F,
    P,
    R,
    J: Fn(usize, usize) -> bool,
    H: Fn(&Vec<usize>, &Vec<Vec<usize>>) -> Shapes<P>,
    G: Fn(&P, usize, usize) -> Option<R>,
    E: Fn(&P, &Vec<usize>) -> F,
    T: Fn(F) -> bool,
    B: Fn(&P, &Vec<usize>, F) -> Vec<(u32, u32)>,
    M: Fn(F, u32, u64) -> F,
    U: Fn(&P, usize, usize, Option<(usize, R)>, (u64, u64), F, u32) -> [[F; 2]; 3],
>(
    mesh: &Mesh<F>,
    keys: Seq<WeldKey>,
    opts: UnwrapOptions<F>,
    unit: F,
    joins: J,
    shape: H,
    register: G,
    density: E,
    counts: T,
    boxes: B,
    scale: M,
    place: U,
    r: UnwrapResult<F>,
)
    requires
        auto_unwrapped(
            mesh,
            keys,
            opts,
            unit,
            joins,
            shape,
            register,
            density,
            counts,
            boxes,
            scale,
            place,
            r,
        ),
    ensures
        r.mesh.vertices@.len() == 3 * (mesh.indices@.len() as int / 3),
        r.mesh.indices@.len() == r.mesh.vertices@.len(),
        forall|h: int|
            0 <= h < r.mesh.vertices@.len() ==> (#[trigger] r.mesh.vertices@[h]).position
                == mesh.vertices@[mesh.indices@[h] as int].position
                && r.mesh.vertices@[h].normal == mesh.vertices@[mesh.indices@[h] as int].normal
                && r.mesh.indices@[h] == h,
        r.mesh.source_transform == mesh.source_transform,
        !r.mesh.needs_uvs && !r.mesh.needs_normals,
        is_pow2(r.atlas_size as int) && r.atlas_size >= 8,
        r.atlas_size > 8 ==> r.atlas_size <= opts.max_atlas,
        mesh.indices@.len() < 3 ==> !r.clamped && r.density_d == unit,
{
    let n = mesh.indices@.len() as int / 3;
    if n > 0 {
        let u = choose|u: Unwrapping<F, P, R>| #[trigger]
            unwraps(
                u,
                mesh,
                keys,
                opts,
                joins,
                shape,
                register,
                density,
                counts,
                boxes,
                scale,
                place,
            ) && r.mesh == u.mesh && r.atlas_size == u.packing.atlas && r.clamped
                == u.packing.clamped && r.density_d == u.packing.density;
        assert forall|h: int| 0 <= h < 3 * n implies (#[trigger] r.mesh.vertices@[h]).position
            == mesh.vertices@[mesh.indices@[h] as int].position && r.mesh.vertices@[h].normal
            == mesh.vertices@[mesh.indices@[h] as int].normal && r.mesh.indices@[h] == h by {
            let (t, k) = (h / 3, h % 3);
            law_triangles_are_placed_with_their_chart(
                mesh,
                place,
                &u.shapes.data,
                u.chart_of@,
                u.grouping,
                u.packing,
                u.mesh,
                t,
            );
            assert(h == 3 * t + k);
            assert(r.mesh.vertices@[3 * t + k].position == mesh.vertices@[mesh.indices@[3 * t
                + k] as int].position);
        }
    }
}

} // verus!
