//! What the fill tools colour.

use crate::document::{law_undo_reverts_an_edit, stack_size};
use crate::fill::{beside, filled, FillMap};
use crate::painting::{in_area, FillArea};
use crate::renderer::{PaintTarget, Renderer};
use crate::stroke::texel;
use vstd::prelude::*;

verus! {

/// Texel `u` lies left, right, above or below texel `t` of an image `w` wide and high.
pub open spec fn next_to(w: int, t: int, u: int) -> bool {
    &&& 0 <= u < w * w
    &&& {
        ||| u == t - 1 && t % w > 0
        ||| u == t + 1 && t % w < w - 1
        ||| u == t - w
        ||| u == t + w
    }
}

/// What a fill with `color` writes into every texel: the opaque colour, or into a mask white,
/// where it reveals, and black, where it hides.
pub open spec fn fill_texel<F>(r: Renderer<F>, color: [u8; 3]) -> Seq<u8> {
    match r.brush.target {
        PaintTarget::Color => seq![color[0], color[1], color[2], 255u8],
        PaintTarget::Mask => if r.brush.mask_reveal {
            seq![255u8, 255u8, 255u8, 255u8]
        } else {
            seq![0u8, 0u8, 0u8, 255u8]
        },
    }
}

/// Texel `t` of the image that the brush paints into.
pub open spec fn target_texel<F>(r: Renderer<F>, target: PaintTarget, t: int) -> Seq<u8> {
    let l = r.doc@.stack.layers[r.doc@.stack.active];
    match target {
        PaintTarget::Color => texel(l.tex.pixels, t),
        PaintTarget::Mask => texel(l.mask.pixels, t),
    }
}

proof fn lemma_beside(keep: Seq<bool>, w: int, t: int)
    requires
        w > 0,
        keep.len() == w * w,
        0 <= t < w * w,
    ensures
        beside(keep, w, t) <==> exists|u: int| #[trigger] next_to(w, t, u) && keep[u],
{
    assert(0 <= t % w < w);
    vstd::arithmetic::div_mod::lemma_fundamental_div_mod(t, w);
    if t % w > 0 && t == 0 {
        vstd::arithmetic::div_mod::lemma_small_mod(0, w as nat);
    }
    if t % w < w - 1 && t + 1 == w * w {
        assert(w * w - 1 == (w - 1) * w + (w - 1)) by (nonlinear_arith);
        vstd::arithmetic::div_mod::lemma_fundamental_div_mod_converse(t, w, w - 1, w - 1);
    }
    if beside(keep, w, t) {
        if t % w > 0 && keep[t - 1] {
            assert(next_to(w, t, t - 1));
        } else if t % w + 1 < w && keep[t + 1] {
            assert(next_to(w, t, t + 1));
        } else if t >= w && keep[t - w] {
            assert(next_to(w, t, t - w));
        } else {
            assert(next_to(w, t, t + w));
        }
    }
}

/// A flood colours the texels of its area and the uncovered ones beside them.
proof fn lemma_flooded<F>(
    before: Renderer<F>,
    after: Renderer<F>,
    map: &FillMap,
    area: FillArea,
    tri: u32,
    color: [u8; 3],
    t: int,
)
    requires
        before.wf(),
        map.wf(),
        map.size == before.tex_size,
        after.fill_step(&before, map, area, Some(tri), color, true),
        0 <= t < map.size * map.size,
    ensures
        target_texel(after, before.brush.target, t) == if in_area(map, area, tri, t) || (
        map.texel_island@[t] < 0 && exists|u: int| #[trigger]
            next_to(map.size as int, t, u) && in_area(map, area, tri, u)) {
            fill_texel(before, color)
        } else {
            target_texel(before, before.brush.target, t)
        },
{
    let w = map.size as int;
    let (keep, covered) = choose|keep: Seq<bool>, covered: Seq<bool>| #[trigger]
        after.flooded_by(&before, map, area, tri, color, keep, covered);
    let mask = before.brush.on_mask();
    let (px0, px) = (before.doc@.canvas(mask), after.doc@.canvas(mask));
    assert(before.doc@.stack.active_layer().sized(stack_size(before.doc@.stack)));
    assert(px0.len() == 4 * (w * w));
    assert(after.doc@.stack.active == before.doc@.stack.active);
    assert(target_texel(after, before.brush.target, t) == texel(px, t));
    assert(target_texel(before, before.brush.target, t) == texel(px0, t));
    lemma_beside(keep, w, t);
    let on = in_area(map, area, tri, t) || (map.texel_island@[t] < 0 && exists|u: int| #[trigger]
        next_to(w, t, u) && in_area(map, area, tri, u));
    assert(keep[t] == in_area(map, area, tri, t));
    assert(covered[t] == (map.texel_island@[t] >= 0));
    if beside(keep, w, t) {
        let u = choose|u: int| #[trigger] next_to(w, t, u) && keep[u];
        assert(keep[u] == in_area(map, area, tri, u));
    }
    if exists|u: int| #[trigger] next_to(w, t, u) && in_area(map, area, tri, u) {
        let u = choose|u: int| #[trigger] next_to(w, t, u) && in_area(map, area, tri, u);
        assert(keep[u] == in_area(map, area, tri, u));
        assert(next_to(w, t, u) && keep[u]);
    }
    assert(on == filled(keep, covered, w, t));
    let want = if on {
        fill_texel(before, color)
    } else {
        texel(px0, t)
    };
    assert forall|c: int| 0 <= c < 4 implies #[trigger] texel(px, t)[c] == want[c] by {
        let i = 4 * t + c;
        assert(i / 4 == t && i % 4 == c);
        assert(px[i] == if filled(keep, covered, w, i / 4) {
            before.brush.fill_bytes(color)[i % 4]
        } else {
            px0[i]
        });
    }
    assert(texel(px, t) =~= want);
}

/// A face fill lands when the click meets a triangle with a facet. It colours every texel of
/// that facet, whatever island it lies in, and an uncovered texel beside one; every other
/// texel keeps its bytes.
pub proof fn law_a_face_fill_colours_its_facet<F>(
    before: Renderer<F>,
    after: Renderer<F>,
    map: &FillMap,
    hit: Option<u32>,
    color: [u8; 3],
    done: bool,
    t: int,
)
    requires
        before.wf(),
        map.wf(),
        map.size == before.tex_size,
        after.fill_step(&before, map, FillArea::Face, hit, color, done),
        0 <= t < map.size * map.size,
    ensures
        done <==> hit is Some && hit->0 < map.facet_of_tri.len(),
        !done ==> after.doc@ == before.doc@,
        done ==> ({
            let facet = map.facet_of_tri@[hit->0 as int];
            let was = target_texel(before, before.brush.target, t);
            let now = target_texel(after, before.brush.target, t);
            &&& map.texel_facet@[t] == facet ==> now == fill_texel(before, color)
            &&& map.texel_facet@[t] != facet && map.texel_island@[t] >= 0 ==> now == was
            &&& map.texel_facet@[t] != facet && map.texel_island@[t] < 0 ==> now == if exists|
                u: int,
            | #[trigger]
                next_to(map.size as int, t, u) && map.texel_facet@[u] == facet {
                fill_texel(before, color)
            } else {
                was
            }
        }),
{
    if done {
        let w = map.size as int;
        let tri = hit->0;
        lemma_flooded(before, after, map, FillArea::Face, tri, color, t);
        assert forall|u: int| #[trigger] next_to(w, t, u) implies in_area(
            map,
            FillArea::Face,
            tri,
            u,
        ) == (map.texel_facet@[u] == map.facet_of_tri@[tri as int]) by {}
    }
}

/// An island fill lands when the click meets a triangle with an island. It colours every
/// texel of that island, whatever facet it lies on, and an uncovered texel beside one; every
/// other texel keeps its bytes.
pub proof fn law_an_island_fill_colours_its_island<F>(
    before: Renderer<F>,
    after: Renderer<F>,
    map: &FillMap,
    hit: Option<u32>,
    color: [u8; 3],
    done: bool,
    t: int,
)
    requires
        before.wf(),
        map.wf(),
        map.size == before.tex_size,
        after.fill_step(&before, map, FillArea::Island, hit, color, done),
        0 <= t < map.size * map.size,
    ensures
        done <==> hit is Some && hit->0 < map.island_of_tri.len(),
        !done ==> after.doc@ == before.doc@,
        done ==> ({
            let island = map.island_of_tri@[hit->0 as int];
            let was = target_texel(before, before.brush.target, t);
            let now = target_texel(after, before.brush.target, t);
            &&& map.texel_island@[t] == island ==> now == fill_texel(before, color)
            &&& map.texel_island@[t] != island && map.texel_island@[t] >= 0 ==> now == was
            &&& map.texel_island@[t] < 0 ==> now == if exists|u: int| #[trigger]
                next_to(map.size as int, t, u) && map.texel_island@[u] == island {
                fill_texel(before, color)
            } else {
                was
            }
        }),
{
    if done {
        let w = map.size as int;
        let tri = hit->0;
        lemma_flooded(before, after, map, FillArea::Island, tri, color, t);
        assert forall|u: int| #[trigger] next_to(w, t, u) implies in_area(
            map,
            FillArea::Island,
            tri,
            u,
        ) == (map.texel_island@[u] == map.island_of_tri@[tri as int]) by {}
    }
}

/// An object fill lands when the click meets the mesh. It colours every texel that a triangle
/// covers, and an uncovered texel beside one; every other texel keeps its bytes.
pub proof fn law_an_object_fill_colours_what_is_covered<F>(
    before: Renderer<F>,
    after: Renderer<F>,
    map: &FillMap,
    hit: Option<u32>,
    color: [u8; 3],
    done: bool,
    t: int,
)
    requires
        before.wf(),
        map.wf(),
        map.size == before.tex_size,
        after.fill_step(&before, map, FillArea::Object, hit, color, done),
        0 <= t < map.size * map.size,
    ensures
        done <==> hit is Some,
        !done ==> after.doc@ == before.doc@,
        done ==> ({
            let was = target_texel(before, before.brush.target, t);
            let now = target_texel(after, before.brush.target, t);
            &&& map.texel_island@[t] >= 0 ==> now == fill_texel(before, color)
            &&& map.texel_island@[t] < 0 ==> now == if exists|u: int| #[trigger]
                next_to(map.size as int, t, u) && map.texel_island@[u] >= 0 {
                fill_texel(before, color)
            } else {
                was
            }
        }),
{
    if done {
        let w = map.size as int;
        let tri = hit->0;
        lemma_flooded(before, after, map, FillArea::Object, tri, color, t);
        assert forall|u: int| #[trigger] next_to(w, t, u) implies in_area(
            map,
            FillArea::Object,
            tri,
            u,
        ) == (map.texel_island@[u] >= 0) by {}
    }
}

/// A fill changes the image it colours and nothing else: every other layer, the other image
/// and the settings of this one, the brush and the mesh stay. One step back gives the old
/// layers. A fill that does not land changes nothing.
pub proof fn law_a_fill_leaves_the_rest<F>(
    r0: Renderer<F>,
    r1: Renderer<F>,
    map: &FillMap,
    area: FillArea,
    hit: Option<u32>,
    color: [u8; 3],
    done: bool,
)
    requires
        r0.wf(),
        r1.fill_step(&r0, map, area, hit, color, done),
    ensures
        r1 == (Renderer { doc: r1.doc, buffers: r1.buffers, ..r0 }),
        hit is None ==> !done,
        !done ==> r1 == r0,
        done ==> ({
            let (s, t) = (r0.doc@.stack, r1.doc@.stack);
            let (a, b) = (s.layers[s.active], t.layers[s.active]);
            &&& t.active == s.active && t.layers.len() == s.layers.len()
            &&& r0.brush.target == PaintTarget::Color ==> b.mask == a.mask
            &&& r0.brush.target == PaintTarget::Mask ==> b.tex == a.tex && b.naming == a.naming
            &&& b.name == a.name && b.visible == a.visible && b.opacity == a.opacity
            &&& b.blend == a.blend && b.effects == a.effects
            &&& forall|i: int|
                0 <= i < s.layers.len() && i != s.active ==> t.layers[i] == #[trigger] s.layers[i]
            &&& r1.doc@.undone().stack == s
            &&& r1.doc@.history.redo.len() == 0
            &&& r1.doc@.edit != r0.doc@.edit
        }),
{
    if done {
        assert(r1.doc@.one_step_after(r0.doc@));
        law_undo_reverts_an_edit(r0.doc@, r1.doc@);
    }
}

} // verus!
