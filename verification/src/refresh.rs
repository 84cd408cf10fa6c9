//! Why recomputing part of the shown texture is enough.

use crate::layers::{LayerModel, StackModel};
use crate::texture::{image_at, is_image, is_refreshed, is_region_of, lemma_byte_position, TexRect};
use vstd::prelude::*;

verus! {

/// The texels are at most `d` apart in either direction.
pub open spec fn within_reach(x: int, y: int, u: int, v: int, d: int) -> bool {
    -d <= u - x <= d && -d <= v - y <= d
}

/// The images agree around a texel.
pub open spec fn same_around(a: Seq<u8>, b: Seq<u8>, w: int, x: int, y: int, d: int) -> bool {
    forall|u: int, v: int, c: int|
        0 <= u < w && 0 <= v < w && 0 <= c < 4 && within_reach(x, y, u, v, d)
            ==> #[trigger] image_at(a, w, u, v, c) == image_at(b, w, u, v, c)
}

/// What decides how a layer is laid over the others, apart from its images, is the same.
pub open spec fn same_settings<F>(a: LayerModel<F>, b: LayerModel<F>) -> bool {
    &&& a.visible == b.visible
    &&& a.opacity == b.opacity
    &&& a.blend == b.blend
    &&& a.effects == b.effects
}

/// The stacks agree around a texel.
pub open spec fn same_stack_around<F>(
    a: StackModel<F>,
    b: StackModel<F>,
    w: int,
    x: int,
    y: int,
    d: int,
) -> bool {
    &&& a.layers.len() == b.layers.len()
    &&& forall|i: int|
        0 <= i < a.layers.len() ==> {
            &&& same_settings(#[trigger] a.layers[i], b.layers[i])
            &&& same_around(a.layers[i].tex.pixels, b.layers[i].tex.pixels, w, x, y, d)
            &&& same_around(a.layers[i].mask.pixels, b.layers[i].mask.pixels, w, x, y, d)
        }
}

/// The images agree outside a rectangle.
pub open spec fn same_outside(a: Seq<u8>, b: Seq<u8>, w: int, rect: TexRect) -> bool {
    forall|x: int, y: int, c: int|
        0 <= x < w && 0 <= y < w && 0 <= c < 4 && !rect.has(x, y) ==> #[trigger] image_at(
            a,
            w,
            x,
            y,
            c,
        ) == image_at(b, w, x, y, c)
}

/// The stacks differ in nothing but the texels of a rectangle.
pub open spec fn painted_within<F>(
    a: StackModel<F>,
    b: StackModel<F>,
    w: int,
    rect: TexRect,
) -> bool {
    &&& a.layers.len() == b.layers.len()
    &&& forall|i: int|
        0 <= i < a.layers.len() ==> {
            &&& same_settings(#[trigger] a.layers[i], b.layers[i])
            &&& same_outside(a.layers[i].tex.pixels, b.layers[i].tex.pixels, w, rect)
            &&& same_outside(a.layers[i].mask.pixels, b.layers[i].mask.pixels, w, rect)
        }
}

/// Flattening the layers, quantized or not, gives an image in which a texel depends only on
/// what lies within the reach of the stack's effects.
pub open spec fn flattens<F>(
    flat: spec_fn(StackModel<F>) -> Seq<u8>,
    reach: spec_fn(StackModel<F>) -> int,
    w: int,
) -> bool {
    forall|s: StackModel<F>, t: StackModel<F>, x: int, y: int, c: int|
        #![trigger same_stack_around(s, t, w, x, y, reach(s)), image_at(flat(s), w, x, y, c)]
        0 <= x < w && 0 <= y < w && 0 <= c < 4 && same_stack_around(s, t, w, x, y, reach(s))
            ==> image_at(flat(s), w, x, y, c) == image_at(flat(t), w, x, y, c)
}

/// Bleeding island colours into the gutters gives an image in which a texel depends only on
/// what lies within the padding.
pub open spec fn bleeds(bleed: spec_fn(Seq<u8>) -> Seq<u8>, w: int, pad: int) -> bool {
    &&& forall|a: Seq<u8>| is_image(a, w, w) ==> is_image(#[trigger] bleed(a), w, w)
    &&& forall|a: Seq<u8>, b: Seq<u8>, x: int, y: int, c: int|
        #![trigger same_around(a, b, w, x, y, pad), image_at(bleed(a), w, x, y, c)]
        0 <= x < w && 0 <= y < w && 0 <= c < 4 && is_image(a, w, w) && is_image(b, w, w)
            && same_around(a, b, w, x, y, pad) ==> image_at(bleed(a), w, x, y, c) == image_at(
            bleed(b),
            w,
            x,
            y,
            c,
        )
}

/// Outside the rectangle grown by the effects' reach the flattened image is as before.
proof fn lemma_flat_outside<F>(
    s: StackModel<F>,
    t: StackModel<F>,
    flat: spec_fn(StackModel<F>) -> Seq<u8>,
    reach: spec_fn(StackModel<F>) -> int,
    rect: TexRect,
    size: u32,
    spread: u32,
    x: int,
    y: int,
    c: int,
)
    requires
        flattens(flat, reach, size as int),
        reach(s) <= spread,
        painted_within(s, t, size as int, rect),
        0 <= x < size && 0 <= y < size && 0 <= c < 4,
        !(rect.x0 - spread <= x < rect.x1 + spread && rect.y0 - spread <= y < rect.y1 + spread),
    ensures
        image_at(flat(s), size as int, x, y, c) == image_at(flat(t), size as int, x, y, c),
{
    let (w, d) = (size as int, reach(s));
    assert forall|i: int| 0 <= i < s.layers.len() implies {
        &&& same_settings(#[trigger] s.layers[i], t.layers[i])
        &&& same_around(s.layers[i].tex.pixels, t.layers[i].tex.pixels, w, x, y, d)
        &&& same_around(s.layers[i].mask.pixels, t.layers[i].mask.pixels, w, x, y, d)
    } by {
        assert(same_outside(s.layers[i].tex.pixels, t.layers[i].tex.pixels, w, rect));
        assert(same_outside(s.layers[i].mask.pixels, t.layers[i].mask.pixels, w, rect));
    }
    assert(same_stack_around(s, t, w, x, y, d));
}

/// A partial refresh gives the shown texture of a full one, byte for byte: when nothing but
/// texels of `rect` changed since the texture was shown, it is enough to recompute the
/// rectangle grown by the effects' reach and twice the padding, from anything that is
/// flattened right inside it, and to keep what lies one padding further in.
pub proof fn law_a_partial_refresh_is_enough<F>(
    s: StackModel<F>,
    t: StackModel<F>,
    flat: spec_fn(StackModel<F>) -> Seq<u8>,
    reach: spec_fn(StackModel<F>) -> int,
    bleed: spec_fn(Seq<u8>) -> Seq<u8>,
    rect: TexRect,
    size: u32,
    pad: u32,
    spread: u32,
    mixed: Seq<u8>,
    recomputed: Seq<u8>,
    after: Seq<u8>,
)
    requires
        0 < size,
        2 * pad + spread <= u32::MAX,
        rect.within(size as int, size as int),
        flattens(flat, reach, size as int),
        reach(s) <= spread,
        is_image(flat(s), size as int, size as int),
        is_image(flat(t), size as int, size as int),
        bleeds(bleed, size as int, pad as int),
        painted_within(s, t, size as int, rect),
        ({
            let upload = rect.expanded_spec((pad + spread) as u32, size);
            let proc = rect.expanded_spec((2 * pad + spread) as u32, size);
            &&& is_image(mixed, size as int, size as int)
            &&& forall|x: int, y: int, c: int|
                0 <= x < size && 0 <= y < size && 0 <= c < 4 && proc.has(x, y)
                    ==> #[trigger] image_at(mixed, size as int, x, y, c) == image_at(
                    flat(t),
                    size as int,
                    x,
                    y,
                    c,
                )
            &&& is_region_of(bleed(mixed), size as int, proc, recomputed)
            &&& is_image(after, size as int, size as int)
            &&& is_refreshed(bleed(flat(s)), after, size as int, upload, proc, recomputed)
        }),
    ensures
        after == bleed(flat(t)),
{
    let w = size as int;
    let upload = rect.expanded_spec((pad + spread) as u32, size);
    let proc = rect.expanded_spec((2 * pad + spread) as u32, size);
    let full = bleed(flat(t));
    assert(is_image(full, w, w));
    assert forall|x: int, y: int, c: int| 0 <= x < w && 0 <= y < w && 0 <= c < 4 implies
        #[trigger] image_at(after, w, x, y, c) == image_at(full, w, x, y, c) by {
        if upload.has(x, y) {
            assert(proc.has(x, y));
            assert(same_around(mixed, flat(t), w, x, y, pad as int)) by {
                assert forall|u: int, v: int, k: int|
                    0 <= u < w && 0 <= v < w && 0 <= k < 4 && within_reach(x, y, u, v, pad as int)
                    implies #[trigger] image_at(mixed, w, u, v, k) == image_at(flat(t), w, u, v, k) by {
                    assert(proc.has(u, v));
                }
            }
            assert(image_at(bleed(mixed), w, x, y, c) == image_at(full, w, x, y, c));
        } else {
            assert(same_around(flat(s), flat(t), w, x, y, pad as int)) by {
                assert forall|u: int, v: int, k: int|
                    0 <= u < w && 0 <= v < w && 0 <= k < 4 && within_reach(x, y, u, v, pad as int)
                    implies #[trigger] image_at(flat(s), w, u, v, k) == image_at(
                    flat(t),
                    w,
                    u,
                    v,
                    k,
                ) by {
                    lemma_flat_outside(s, t, flat, reach, rect, size, spread, u, v, k);
                }
            }
            assert(image_at(bleed(flat(s)), w, x, y, c) == image_at(full, w, x, y, c));
        }
    }
    assert forall|i: int| 0 <= i < full.len() implies after[i] == full[i] by {
        let (x, y, c) = lemma_byte_position(i, w);
        assert(y < w) by (nonlinear_arith)
            requires
                (y * w + x) * 4 + c < w * w * 4,
                0 <= x,
                0 <= c,
                0 < w,
        ;
        assert(image_at(after, w, x, y, c) == image_at(full, w, x, y, c));
    }
    assert(after =~= full);
}

} // verus!
