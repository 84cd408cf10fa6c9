//! What painting brings: into a mask white or black, into colour the brush's own colour.

use crate::document::stack_size;
use crate::fill::FillMap;
use crate::fills::target_texel;
use crate::painting::{aimed, FillArea};
use crate::renderer::{BrushImageMode, BrushState, PaintTarget, Renderer};
use crate::stroke::{blend_agrees, law_peak_is_the_maximum, texel, winner, Splat};
use crate::texture::TexRect;
use vstd::prelude::*;

verus! {

/// Texel `t` holds `color` laid once over its value from before the stroke, at the coverage
/// the stroke has reached, if the coverage rose; if it did not, the texel is as it was.
pub open spec fn laid_once<F>(
    before: Renderer<F>,
    after: Renderer<F>,
    px0: Seq<u8>,
    px: Seq<u8>,
    color: Seq<u8>,
    f: spec_fn(Seq<u8>, Seq<u8>, u32) -> Seq<u8>,
    t: int,
) -> bool {
    texel(px, t) == if after.buffers.covered(t) > before.buffers.covered(t) {
        f(
            if before.buffers.touched(t) {
                before.buffers.base_of(t)
            } else {
                texel(px0, t)
            },
            color,
            after.buffers.covered(t),
        )
    } else {
        texel(px0, t)
    }
}

proof fn lemma_laid_splat<F, B: Fn([u8; 4], [u8; 3], u32) -> [u8; 4]>(
    r0: Renderer<F>,
    r1: Renderer<F>,
    mask: bool,
    splats: Seq<Splat>,
    blend: B,
    f: spec_fn(Seq<u8>, Seq<u8>, u32) -> Seq<u8>,
    t: int,
)
    requires
        r1.laid_by(&r0, mask, splats, blend),
        blend_agrees(blend, f),
        0 <= t < r0.buffers.texels(),
    ensures
        r1.buffers.covered(t) > r0.buffers.covered(t) ==> exists|i: int|
            0 <= i < splats.len() && (#[trigger] splats[i]).texel == t && splats[i].cov
                == r1.buffers.covered(t) && laid_once(
                r0,
                r1,
                r0.doc@.canvas(mask),
                r1.doc@.canvas(mask),
                splats[i].src@,
                f,
                t,
            ),
        r1.buffers.covered(t) <= r0.buffers.covered(t) ==> texel(r1.doc@.canvas(mask), t) == texel(
            r0.doc@.canvas(mask),
            t,
        ),
        r1.buffers.covered(t) >= r0.buffers.covered(t),
{
    let n = splats.len() as int;
    let c0 = r0.buffers.covered(t);
    law_peak_is_the_maximum(splats, c0, t, n);
    assert(r1.buffers.state_laid(r0.buffers, r0.doc@.canvas(mask), splats, n, t));
    let at = texel(r1.doc@.canvas(mask), t);
    assert(r1.buffers.texel_laid(
        r0.buffers,
        r0.doc@.canvas(mask),
        r1.doc@.canvas(mask),
        splats,
        n,
        f,
        t,
    ));
    if r1.buffers.covered(t) > c0 {
        let i = winner(splats, c0, t, n)->0;
        assert(splats[i].texel == t);
    }
}

/// With the mask as target, a deposit that reveals lays white and one that hides lays black,
/// whatever colour the splats bring and whether or not the eraser is on: where the coverage
/// rises the mask holds white, or black, laid once over its value from before the stroke. The
/// colour of the layer is left alone.
pub proof fn law_mask_deposits_are_white_or_black<
    F,
    B: Fn([u8; 4], [u8; 3], u32) -> [u8; 4],
    C: Fn([u8; 4], [u8; 3], u32) -> [u8; 4],
>(
    r0: Renderer<F>,
    r1: Renderer<F>,
    splats: Seq<Splat>,
    erase: bool,
    blend: B,
    rub: C,
    f: spec_fn(Seq<u8>, Seq<u8>, u32) -> Seq<u8>,
    t: int,
)
    requires
        r0.wf(),
        r0.brush.target == PaintTarget::Mask,
        r1.dabbed_from(&r0, splats, erase, blend, rub),
        blend_agrees(blend, f),
        0 <= t < r0.buffers.texels(),
    ensures
        r0.brush.mask_reveal ==> laid_once(
            r0,
            r1,
            r0.doc@.stack.active_layer().mask.pixels,
            r1.doc@.stack.active_layer().mask.pixels,
            seq![255u8, 255u8, 255u8],
            f,
            t,
        ),
        !r0.brush.mask_reveal ==> laid_once(
            r0,
            r1,
            r0.doc@.stack.active_layer().mask.pixels,
            r1.doc@.stack.active_layer().mask.pixels,
            seq![0u8, 0u8, 0u8],
            f,
            t,
        ),
        r1.doc@.stack.active_layer().tex == r0.doc@.stack.active_layer().tex,
{
    let laid = aimed(splats, r0.brush);
    lemma_laid_splat(r0, r1, true, laid, blend, f, t);
    assert(r0.doc@.stack.active_layer().sized(stack_size(r0.doc@.stack)));
    if r1.buffers.covered(t) > r0.buffers.covered(t) {
        let i = choose|i: int|
            0 <= i < laid.len() && (#[trigger] laid[i]).texel == t && laid[i].cov
                == r1.buffers.covered(t) && laid_once(
                r0,
                r1,
                r0.doc@.canvas(true),
                r1.doc@.canvas(true),
                laid[i].src@,
                f,
                t,
            );
        let v: u8 = if r0.brush.mask_reveal {
            255
        } else {
            0
        };
        assert(laid[i].src == [v, v, v]);
        assert([v, v, v]@ =~= seq![v, v, v]);
    }
}

/// With colour as target, where the coverage rises the layer's colour holds the colour of a
/// splat that covers the texel as much as the stroke now does, laid once over the value from
/// before the stroke: by `rub` where the brush erases, and else by `blend`. The mask is left
/// alone.
pub proof fn law_colour_deposits_bring_their_colour<
    F,
    B: Fn([u8; 4], [u8; 3], u32) -> [u8; 4],
    C: Fn([u8; 4], [u8; 3], u32) -> [u8; 4],
>(
    r0: Renderer<F>,
    r1: Renderer<F>,
    splats: Seq<Splat>,
    erase: bool,
    blend: B,
    rub: C,
    f: spec_fn(Seq<u8>, Seq<u8>, u32) -> Seq<u8>,
    g: spec_fn(Seq<u8>, Seq<u8>, u32) -> Seq<u8>,
    t: int,
)
    requires
        r0.wf(),
        r0.brush.target == PaintTarget::Color,
        r1.dabbed_from(&r0, splats, erase, blend, rub),
        blend_agrees(blend, f),
        blend_agrees(rub, g),
        0 <= t < r0.buffers.texels(),
    ensures
        r1.buffers.covered(t) > r0.buffers.covered(t) ==> exists|i: int|
            0 <= i < splats.len() && (#[trigger] splats[i]).texel == t && splats[i].cov
                == r1.buffers.covered(t) && laid_once(
                r0,
                r1,
                r0.doc@.stack.active_layer().tex.pixels,
                r1.doc@.stack.active_layer().tex.pixels,
                splats[i].src@,
                if erase {
                    g
                } else {
                    f
                },
                t,
            ),
        r1.buffers.covered(t) <= r0.buffers.covered(t) ==> texel(
            r1.doc@.stack.active_layer().tex.pixels,
            t,
        ) == texel(r0.doc@.stack.active_layer().tex.pixels, t),
        r1.doc@.stack.active_layer().mask == r0.doc@.stack.active_layer().mask,
{
    assert(r0.doc@.stack.active_layer().sized(stack_size(r0.doc@.stack)));
    if erase {
        lemma_laid_splat(r0, r1, false, splats, rub, g, t);
    } else {
        lemma_laid_splat(r0, r1, false, splats, blend, f, t);
    }
}

/// Painting changes one image of the active layer: every other layer, and everything else of
/// the active one, stays as it is.
pub proof fn law_deposits_stay_in_one_image<
    F,
    B: Fn([u8; 4], [u8; 3], u32) -> [u8; 4],
    C: Fn([u8; 4], [u8; 3], u32) -> [u8; 4],
>(r0: Renderer<F>, r1: Renderer<F>, splats: Seq<Splat>, erase: bool, blend: B, rub: C)
    requires
        r0.wf(),
        r1.dabbed_from(&r0, splats, erase, blend, rub),
    ensures
        r1.doc@.stack.active == r0.doc@.stack.active,
        r1.doc@.stack.layers.len() == r0.doc@.stack.layers.len(),
        forall|i: int|
            0 <= i < r0.doc@.stack.layers.len() && i != r0.doc@.stack.active
                ==> r1.doc@.stack.layers[i] == #[trigger] r0.doc@.stack.layers[i],
        ({
            let (a, b) = (r0.doc@.stack.active_layer(), r1.doc@.stack.active_layer());
            &&& b.name == a.name && b.naming == a.naming
            &&& b.visible == a.visible && b.opacity == a.opacity
            &&& b.blend == a.blend && b.effects == a.effects
            &&& r0.brush.target == PaintTarget::Color ==> b.mask == a.mask
            &&& r0.brush.target == PaintTarget::Mask ==> b.tex == a.tex
        }),
        r1.doc@.history == r0.doc@.history,
        r1.stroke_dirty,
{
}

/// A fill into the mask writes opaque white where it reveals and opaque black where it hides;
/// a fill into the colour writes the opaque brush colour.
pub proof fn law_fills_write_these_bytes(brush: BrushState, color: [u8; 3])
    ensures
        brush.target == PaintTarget::Mask && brush.mask_reveal ==> brush.fill_bytes(color)
            == seq![255u8, 255u8, 255u8, 255u8],
        brush.target == PaintTarget::Mask && !brush.mask_reveal ==> brush.fill_bytes(color)
            == seq![0u8, 0u8, 0u8, 255u8],
        brush.target == PaintTarget::Color ==> brush.fill_bytes(color) == seq![
            color[0],
            color[1],
            color[2],
            255u8,
        ],
{
}

/// An object fill with the mask as target makes the whole object show, where it reveals, and
/// hides it, where it hides: every covered texel of the mask is white, or black.
pub proof fn law_an_object_fill_reveals_or_hides_it_all<F>(
    before: Renderer<F>,
    after: Renderer<F>,
    map: &FillMap,
    hit: Option<u32>,
    color: [u8; 3],
    done: bool,
    t: int,
)
    requires
        before.wf(),
        map.wf(),
        map.size == before.tex_size,
        before.brush.target == PaintTarget::Mask,
        after.fill_step(&before, map, FillArea::Object, hit, color, done),
        hit is Some,
        0 <= t < map.size * map.size,
        map.texel_island@[t] >= 0,
    ensures
        before.brush.mask_reveal ==> texel(after.doc@.stack.active_layer().mask.pixels, t) == seq![
            255u8,
            255u8,
            255u8,
            255u8,
        ],
        !before.brush.mask_reveal ==> texel(after.doc@.stack.active_layer().mask.pixels, t)
            == seq![0u8, 0u8, 0u8, 255u8],
        after.doc@.stack.active_layer().tex == before.doc@.stack.active_layer().tex,
{
    crate::fills::law_an_object_fill_colours_what_is_covered(
        before,
        after,
        map,
        hit,
        color,
        done,
        t,
    );
    assert(target_texel(after, PaintTarget::Mask, t) == texel(
        after.doc@.stack.active_layer().mask.pixels,
        t,
    ));
}

/// A dab that is accumulated on the GPU is noted with white where it reveals a mask, with
/// black where it hides one, and with the brush's colour on colour; only on colour does it
/// erase. The region to resolve takes in its footprint and loses nothing. Without a footprint
/// nothing is noted.
pub proof fn law_gpu_dabs_are_noted_with_their_colour<F>(
    r: Renderer<F>,
    rect: Option<TexRect>,
    color: [u8; 3],
    erase: bool,
    clean: bool,
)
    ensures
        rect is None ==> r.stamped(rect, color, erase, clean) == r,
        rect is Some ==> ({
            let s = r.stamped(rect, color, erase, clean);
            &&& r.brush.target == PaintTarget::Mask && r.brush.mask_reveal ==> s.gpu.color == [
                255u8,
                255u8,
                255u8,
            ] && !s.gpu.erase
            &&& r.brush.target == PaintTarget::Mask && !r.brush.mask_reveal ==> s.gpu.color == [
                0u8,
                0u8,
                0u8,
            ] && !s.gpu.erase
            &&& r.brush.target == PaintTarget::Color ==> s.gpu.color == color && s.gpu.erase
                == erase
            &&& s.gpu.target == r.brush.target
            &&& s.stroke_dirty
            &&& s.gpu.rect is Some && s.stroke_rect is Some
            &&& forall|x: int, y: int|
                #![trigger s.gpu.rect->0.has(x, y)]
                (rect->0).has(x, y) || (r.gpu.rect is Some && (r.gpu.rect->0).has(x, y)) ==> (
                s.gpu.rect->0).has(x, y)
            &&& forall|x: int, y: int|
                #![trigger s.stroke_rect->0.has(x, y)]
                (rect->0).has(x, y) || (r.stroke_rect is Some && (r.stroke_rect->0).has(x, y)) ==> (
                s.stroke_rect->0).has(x, y)
            &&& s.gpu.resolve <==> r.gpu.display && clean && r.brush.target == PaintTarget::Color
                && !(r.brush.image_mode == BrushImageMode::Stamp && r.brush.has_image)
            &&& s.gpu.material <==> s.gpu.resolve && r.brush.has_image
            &&& s.gpu.paint == r.gpu.paint && s.gpu.display == r.gpu.display
            &&& s.doc == r.doc && s.buffers == r.buffers && s.brush == r.brush && s.lock == r.lock
        }),
{
}

} // verus!
