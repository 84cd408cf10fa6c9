//! What the hover ghost shows, and what a frame draws.

use crate::fill::{kept, law_locked_paint_stays_on_the_face, FillMap};
use crate::frame::{is_ring, only_if, DrawItem};
use crate::preview::{
    all_mixed, ghost_splats, is_ghost, key_eq, mix_agrees, packed_at, splat_mixed, too_large,
};
use crate::stroke::Splat;
use crate::texture::{image_at, is_region_of, region_at, TexRect};
use vstd::prelude::*;

verus! {

/// Texels of a rectangle start at different bytes of its packed copy, four apart.
proof fn lemma_packed_apart(rect: TexRect, size: int, s: int, t: int)
    requires
        size > 0,
        s != t,
        rect.has(s % size, s / size),
        rect.has(t % size, t / size),
    ensures
        0 <= packed_at(rect, s, size),
        packed_at(rect, s, size) + 4 <= rect.width_spec() * rect.height_spec() * 4,
        packed_at(rect, s, size) % 4 == 0,
        packed_at(rect, s, size) + 4 <= packed_at(rect, t, size) || packed_at(rect, t, size) + 4
            <= packed_at(rect, s, size),
{
    let w = rect.width_spec();
    let (x, y) = (s % size - rect.x0, s / size - rect.y0);
    let (u, v) = (t % size - rect.x0, t / size - rect.y0);
    crate::texture::lemma_in_image(x, y, w, rect.height_spec());
    if (x, y) == (u, v) {
        vstd::arithmetic::div_mod::lemma_fundamental_div_mod(s, size);
        vstd::arithmetic::div_mod::lemma_fundamental_div_mod(t, size);
    }
    crate::texture::lemma_texel_apart(x, y, u, v, w);
}

/// Byte `i` of a packed buffer after the first `k` splats.
proof fn lemma_mixed_at(
    px: Seq<u8>,
    splats: Seq<Splat>,
    rect: TexRect,
    size: int,
    f: spec_fn(u8, u8, u32) -> u8,
    k: int,
    t: int,
)
    requires
        size > 0,
        0 <= k <= splats.len(),
        px.len() == rect.width_spec() * rect.height_spec() * 4,
        rect.has(t % size, t / size),
        forall|i: int|
            0 <= i < splats.len() ==> rect.has(
                (#[trigger] splats[i]).texel as int % size,
                splats[i].texel as int / size,
            ),
        forall|i: int, j: int|
            #![trigger splats[i], splats[j]]
            0 <= i < splats.len() && 0 <= j < splats.len() && splats[i].texel == t
                && splats[j].texel == t ==> i == j,
    ensures
        ({
            let out = all_mixed(px, splats, rect, size, f, k);
            let at = packed_at(rect, t, size);
            &&& out.len() == px.len()
            &&& out[at + 3] == px[at + 3]
            &&& (forall|i: int| 0 <= i < k ==> (#[trigger] splats[i]).texel != t) ==> out[at]
                == px[at] && out[at + 1] == px[at + 1] && out[at + 2] == px[at + 2]
            &&& forall|j: int|
                0 <= j < k && (#[trigger] splats[j]).texel == t ==> out[at] == f(
                    px[at],
                    splats[j].src[0],
                    splats[j].cov,
                ) && out[at + 1] == f(px[at + 1], splats[j].src[1], splats[j].cov) && out[at + 2]
                    == f(px[at + 2], splats[j].src[2], splats[j].cov)
        }),
    decreases k,
{
    if k > 0 {
        lemma_mixed_at(px, splats, rect, size, f, k - 1, t);
        let mid = all_mixed(px, splats, rect, size, f, k - 1);
        let s = splats[k - 1];
        let at = packed_at(rect, t, size);
        if s.texel != t {
            lemma_packed_apart(rect, size, t, s.texel as int);
            lemma_packed_apart(rect, size, s.texel as int, t);
            let i = packed_at(rect, s.texel as int, size);
            let out = splat_mixed(mid, s, rect, size, f);
            assert(out[at] == mid[at] && out[at + 1] == mid[at + 1]);
            assert(out[at + 2] == mid[at + 2] && out[at + 3] == mid[at + 3]);
        } else {
            crate::texture::lemma_in_image(
                t % size - rect.x0,
                t / size - rect.y0,
                rect.width_spec(),
                rect.height_spec(),
            );
            assert forall|i: int| 0 <= i < k - 1 implies (#[trigger] splats[i]).texel != t by {
                if splats[i].texel == t {
                    assert(splats[k - 1].texel == t);
                }
            }
        }
    }
}

/// The ghost of a dab shows, at the texel of each splat, the splat's colour mixed into the
/// shown image at the splat's coverage, and at every other texel of its rectangle the shown
/// image itself; alphas stay. Where no texel comes twice this is the whole of it.
pub proof fn law_the_ghost_is_the_dab_over_the_image<M: Fn(u8, u8, u32) -> u8>(
    image: Seq<u8>,
    size: int,
    splats: Seq<Splat>,
    rect: TexRect,
    out: Seq<u8>,
    mix: M,
    f: spec_fn(u8, u8, u32) -> u8,
    t: int,
)
    requires
        size > 0,
        rect.within(size, size),
        is_ghost(image, size, splats, rect, out, mix),
        mix_agrees(mix, f),
        rect.has(t % size, t / size),
        forall|i: int|
            0 <= i < splats.len() ==> rect.has(
                (#[trigger] splats[i]).texel as int % size,
                splats[i].texel as int / size,
            ),
        forall|i: int, j: int|
            #![trigger splats[i], splats[j]]
            0 <= i < splats.len() && 0 <= j < splats.len() && splats[i].texel == splats[j].texel
                ==> i == j,
    ensures
        ({
            let (x, y) = (t % size, t / size);
            let at = ((y - rect.y0) * (rect.x1 - rect.x0) + (x - rect.x0)) * 4;
            let from = (y * size + x) * 4;
            &&& out[at + 3] == image[from + 3]
            &&& (forall|i: int| 0 <= i < splats.len() ==> (#[trigger] splats[i]).texel != t)
                ==> out[at] == image[from] && out[at + 1] == image[from + 1] && out[at + 2]
                == image[from + 2]
            &&& forall|j: int|
                0 <= j < splats.len() && (#[trigger] splats[j]).texel == t ==> out[at] == f(
                    image[from],
                    splats[j].src[0],
                    splats[j].cov,
                ) && out[at + 1] == f(image[from + 1], splats[j].src[1], splats[j].cov) && out[at
                    + 2] == f(image[from + 2], splats[j].src[2], splats[j].cov)
        }),
{
    let base = choose|base: Seq<u8>| #[trigger]
        is_region_of(image, size, rect, base) && base.len() == out.len() && forall|
            f: spec_fn(u8, u8, u32) -> u8,
        |
            #[trigger] mix_agrees(mix, f) ==> out == all_mixed(
                base,
                splats,
                rect,
                size,
                f,
                splats.len() as int,
            );
    let (x, y) = (t % size, t / size);
    lemma_mixed_at(base, splats, rect, size, f, splats.len() as int, t);
    assert(region_at(base, rect, x, y, 0) == image_at(image, size, x, y, 0));
    assert(region_at(base, rect, x, y, 1) == image_at(image, size, x, y, 1));
    assert(region_at(base, rect, x, y, 2) == image_at(image, size, x, y, 2));
    assert(region_at(base, rect, x, y, 3) == image_at(image, size, x, y, 3));
}

/// Under a face lock the ghost has the splats on the facet of the hit triangle and no others;
/// with the lock off, or on a triangle without a facet, it has them all.
pub proof fn law_the_ghost_keeps_to_the_facet(
    locked: bool,
    map: Option<FillMap>,
    tri: u32,
    splats: Seq<Splat>,
    s: Splat,
)
    ensures
        !locked || map is None || tri >= (map->0).facet_of_tri.len() ==> ghost_splats(
            locked,
            map,
            tri,
            splats,
        ) == splats,
        locked && map is Some && tri < (map->0).facet_of_tri.len() ==> (ghost_splats(
            locked,
            map,
            tri,
            splats,
        ).contains(s) <==> splats.contains(s) && s.texel < (map->0).texel_facet.len() && (
        map->0).texel_facet@[s.texel as int] == (map->0).facet_of_tri@[tri as int] as i32),
{
    if locked && map is Some && tri < (map->0).facet_of_tri.len() {
        let on = |s: Splat|
            (map->0).on_facet(s.texel as int, (map->0).facet_spec(tri)->0 as i32);
        law_locked_paint_stays_on_the_face(splats, on);
        let k = kept(splats, on);
        assert(k == ghost_splats(locked, map, tri, splats));
        if k.contains(s) {
            let i = choose|i: int| 0 <= i < k.len() && k[i] == s;
            assert(on(k[i]) && splats.contains(k[i]));
        }
        if splats.contains(s) && on(s) {
            assert(k.contains(s));
        }
    }
}

/// A footprint of more than 30000 texels is too large for a ghost; a smaller one, or none, is
/// not. Keys are the same when they hold the same numbers.
pub proof fn law_when_a_ghost_is_made(
    rect: Option<TexRect>,
    a: Option<Vec<u32>>,
    b: Option<Vec<u32>>,
)
    ensures
        rect is None ==> !too_large(rect),
        rect is Some ==> (too_large(rect) <==> ((rect->0).x1 - (rect->0).x0) * ((rect->0).y1 - (
        rect->0).y0) > 30000),
        a is Some && b is Some ==> (key_eq(a, b) <==> (a->0)@ == (b->0)@),
        a is None && b is None ==> key_eq(a, b),
        a is Some != b is Some ==> !key_eq(a, b),
{
}

/// An item is drawn once where it is wanted, and else not at all.
pub proof fn law_items_are_drawn_where_wanted(on: bool, item: DrawItem)
    ensures
        on ==> only_if(on, item).len() == 1 && only_if(on, item)[0] == item,
        !on ==> only_if(on, item).len() == 0,
{
}

/// The ring of the cursor visits every point once, from point 0 on, and comes back to it.
pub proof fn law_the_ring_visits_every_point(s: Seq<(u32, u32)>, n: u32)
    requires
        is_ring(s, n),
        n > 0,
    ensures
        s.len() == n,
        s[0].0 == 0,
        s[n - 1].1 == 0,
        forall|k: int| 0 <= k < n ==> (#[trigger] s[k]).0 == k,
        forall|k: int| 0 <= k < n - 1 ==> (#[trigger] s[k]).1 == k + 1,
{
    assert(s[n - 1].1 == 0) by {
        assert(n as int % n as int == 0) by (nonlinear_arith)
            requires
                n > 0,
        ;
        assert(s[n - 1].0 == n - 1);
    }
    assert forall|k: int| 0 <= k < n - 1 implies (#[trigger] s[k]).1 == k + 1 by {
        vstd::arithmetic::div_mod::lemma_small_mod((k + 1) as nat, n as nat);
    }
}

} // verus!
