//! What edits of the layer stack do to the layers.

use crate::document::{moves_to, next_seq, swap_effects, DocModel};
use crate::history::{HistoryModel, SnapModel};
use crate::layers::{
    answers, clear_image, unnamed, white_mask, widest, BlendMode, Effect, LayerModel, LayerOp,
    StackModel, TexModel,
};
use crate::renderer::Renderer;
use crate::texture::PaintTexture;
use crate::ui::EffectKind;
use vstd::prelude::*;

verus! {

/// A new layer lies on top and is the active one; the others stay where they are.
pub proof fn law_a_new_layer_lies_on_top<F>(s: StackModel<F>, l: LayerModel<F>)
    ensures
        s.pushed(l).layers.len() == s.layers.len() + 1,
        s.pushed(l).layers[s.layers.len() as int] == l,
        s.pushed(l).active == s.layers.len(),
        forall|i: int|
            0 <= i < s.layers.len() ==> s.pushed(l).layers[i] == #[trigger] s.layers[i],
{
}

/// The images of a fresh layer: every byte of the colour is 0, so nothing of it shows, and
/// every byte of the mask is 255, so that all that is painted shows.
pub proof fn law_a_fresh_layer_is_clear_and_revealed(size: u32)
    ensures
        clear_image(size).width == size && clear_image(size).height == size,
        clear_image(size).pixels.len() == size * size * 4,
        forall|i: int|
            0 <= i < size * size * 4 ==> #[trigger] clear_image(size).pixels[i] == 0,
        white_mask(size).width == size && white_mask(size).height == size,
        white_mask(size).pixels.len() == size * size * 4,
        forall|i: int|
            0 <= i < size * size * 4 ==> #[trigger] white_mask(size).pixels[i] == 255,
        unnamed().ops.len() == 0 && !unnamed().renamed,
{
    assert(0 <= size * size * 4) by (nonlinear_arith);
}

/// Removing takes the active layer out and no other: those below stay, those above come down
/// by one. The layer that takes its place is active, or the new top one.
pub proof fn law_removing_takes_the_active_layer<F>(s: StackModel<F>)
    requires
        0 <= s.active < s.layers.len(),
        s.layers.len() > 1,
    ensures
        s.removed().layers.len() == s.layers.len() - 1,
        forall|i: int| 0 <= i < s.active ==> s.removed().layers[i] == #[trigger] s.layers[i],
        forall|i: int|
            s.active < i < s.layers.len() ==> s.removed().layers[i - 1] == #[trigger] s.layers[i],
        s.active < s.layers.len() - 1 ==> s.removed().active == s.active,
        s.active == s.layers.len() - 1 ==> s.removed().active == s.active - 1,
        0 <= s.removed().active < s.removed().layers.len(),
{
}

/// Adding a layer and removing it again gives the layers back.
pub proof fn law_removing_takes_a_new_layer_back<F>(s: StackModel<F>, l: LayerModel<F>)
    requires
        s.layers.len() > 0,
    ensures
        s.pushed(l).removed().layers == s.layers,
        s.pushed(l).removed().active == s.layers.len() - 1,
{
    assert(s.pushed(l).removed().layers =~= s.layers);
}

/// Merging leaves one layer fewer: where the active layer and the one below it were there is
/// one with the merged images and with the settings of the lower one, and it is active. The
/// layers below stay, those above come down by one.
pub proof fn law_merging_joins_two_layers<F>(s: StackModel<F>, tex: TexModel, mask: TexModel)
    requires
        0 < s.active < s.layers.len(),
    ensures
        ({
            let m = s.merged(tex, mask);
            let below = s.layers[s.active - 1];
            let joint = m.layers[s.active - 1];
            &&& m.layers.len() == s.layers.len() - 1
            &&& m.active == s.active - 1
            &&& joint.tex == tex && joint.mask == mask
            &&& joint.name == below.name && joint.naming == below.naming
            &&& joint.visible == below.visible && joint.opacity == below.opacity
            &&& joint.blend == below.blend && joint.effects == below.effects
            &&& forall|i: int| 0 <= i < s.active - 1 ==> m.layers[i] == #[trigger] s.layers[i]
            &&& forall|i: int|
                s.active < i < s.layers.len() ==> m.layers[i - 1] == #[trigger] s.layers[i]
        }),
{
}

/// Moving the active layer changes places with the one above or below and no other, and it
/// stays active. At the end of the stack nothing moves.
pub proof fn law_moving_changes_places_with_a_neighbour<F>(s: StackModel<F>, up: bool)
    requires
        0 <= s.active < s.layers.len(),
    ensures
        s.moved(up).layers.len() == s.layers.len(),
        up && s.active == s.layers.len() - 1 ==> s.moved(up) == s,
        !up && s.active == 0 ==> s.moved(up) == s,
        up && s.active < s.layers.len() - 1 ==> s.moved(up).active == s.active + 1
            && s.moved(up).layers[s.active + 1] == s.layers[s.active] && s.moved(
            up,
        ).layers[s.active] == s.layers[s.active + 1],
        !up && s.active > 0 ==> s.moved(up).active == s.active - 1 && s.moved(up).layers[s.active
            - 1] == s.layers[s.active] && s.moved(up).layers[s.active] == s.layers[s.active - 1],
        forall|i: int|
            0 <= i < s.layers.len() && i != s.active && i != s.moved(up).active ==> s.moved(
                up,
            ).layers[i] == #[trigger] s.layers[i],
        s.moved(up).active_layer() == s.active_layer(),
        s.moved(up).active != s.active ==> s.moved(up).moved(!up) == s,
{
    if s.moved(up).active != s.active {
        assert(s.moved(up).moved(!up).layers =~= s.layers);
    }
}

/// An effect moves one place toward the end or the start and changes places with the one
/// there; at the ends it stays.
pub proof fn law_moving_an_effect<F>(fx: Seq<Effect<F>>, idx: usize, up: bool)
    requires
        idx < fx.len(),
    ensures
        up && idx < fx.len() - 1 ==> moves_to(fx.len(), idx, up) == Some(idx + 1),
        !up && idx > 0 ==> moves_to(fx.len(), idx, up) == Some(idx - 1),
        (up && idx == fx.len() - 1) || (!up && idx == 0) ==> moves_to(fx.len(), idx, up) is None,
        forall|to: int|
            #![trigger swap_effects(fx, idx as int, to)]
            0 <= to < fx.len() ==> {
                let g = swap_effects(fx, idx as int, to);
                &&& g.len() == fx.len()
                &&& g[to] == fx[idx as int] && g[idx as int] == fx[to]
                &&& forall|i: int|
                    0 <= i < fx.len() && i != idx && i != to ==> g[i] == #[trigger] fx[i]
            },
{
}

/// What is done to a layer is noted last in the list, unless the user named the layer; the
/// rest of it stays. An automatic name is taken unless the user named it.
pub proof fn law_noting_and_naming<F>(l: LayerModel<F>, op: LayerOp, name: Seq<char>)
    ensures
        ({
            let n = l.noted(op);
            &&& l.naming.renamed ==> n == l
            &&& !l.naming.renamed ==> n.naming.ops == l.naming.ops.push(op) && !n.naming.renamed
            &&& n.name == l.name && n.tex == l.tex && n.mask == l.mask
            &&& n.visible == l.visible && n.opacity == l.opacity
            &&& n.blend == l.blend && n.effects == l.effects
        }),
        ({
            let n = l.auto_named(name);
            &&& n.name == if l.naming.renamed {
                l.name
            } else {
                name
            }
            &&& n.naming == l.naming && n.tex == l.tex && n.mask == l.mask
            &&& n.visible == l.visible && n.opacity == l.opacity
            &&& n.blend == l.blend && n.effects == l.effects
        }),
        ({
            let n = l.renamed(name);
            &&& n.name == name && n.naming.renamed && n.naming.ops == l.naming.ops
            &&& n.tex == l.tex && n.mask == l.mask
            &&& n.visible == l.visible && n.opacity == l.opacity
            &&& n.blend == l.blend && n.effects == l.effects
        }),
{
}

/// Every effect is noted as what it is.
pub proof fn law_effects_are_noted_by_kind<F>(fx: Effect<F>)
    ensures
        fx is HueSatLight <==> fx.kind_spec() == EffectKind::HueSatLight,
        fx is BrightnessContrast <==> fx.kind_spec() == EffectKind::BrightnessContrast,
        fx is Blur <==> fx.kind_spec() == EffectKind::Blur,
        fx is Warp <==> fx.kind_spec() == EffectKind::Warp,
{
}

/// The numbers that blend modes are stored by, and that each number means its mode again.
pub proof fn law_blend_modes_keep_their_numbers(b: BlendMode)
    ensures
        BlendMode::Normal.index_spec() == 0,
        BlendMode::Multiply.index_spec() == 1,
        BlendMode::Add.index_spec() == 2,
        BlendMode::Screen.index_spec() == 3,
        BlendMode::from_index_spec(b.index_spec()) == b,
        forall|i: u8| i > 3 ==> #[trigger] BlendMode::from_index_spec(i) == BlendMode::Normal,
{
}

/// Painting means one image of the active layer: its mask or its colour. Other pixels there
/// leave everything else of the document as it was.
pub proof fn law_painting_is_in_the_active_layer<F>(m: DocModel<F>, mask: bool, px: Seq<u8>)
    requires
        0 <= m.stack.active < m.stack.layers.len(),
    ensures
        m.canvas(true) == m.stack.layers[m.stack.active].mask.pixels,
        m.canvas(false) == m.stack.layers[m.stack.active].tex.pixels,
        m.painted(mask, px).canvas(mask) == px,
        m.painted(mask, px).canvas(!mask) == m.canvas(!mask),
        m.painted(mask, px).stack.active == m.stack.active,
        m.painted(mask, px).stack.layers.len() == m.stack.layers.len(),
        forall|i: int|
            0 <= i < m.stack.layers.len() && i != m.stack.active ==> m.painted(
                mask,
                px,
            ).stack.layers[i] == #[trigger] m.stack.layers[i],
        m.painted(mask, px).history == m.history,
        ({
            let (a, b) = (
                m.stack.layers[m.stack.active],
                m.painted(mask, px).stack.layers[m.stack.active],
            );
            &&& b.name == a.name && b.naming == a.naming
            &&& b.visible == a.visible && b.opacity == a.opacity
            &&& b.blend == a.blend && b.effects == a.effects
            &&& b.tex.width == a.tex.width && b.tex.height == a.tex.height
            &&& b.mask.width == a.mask.width && b.mask.height == a.mask.height
        }),
{
}

/// Replacing a layer replaces that one and no other.
pub proof fn law_replacing_one_layer<F>(m: DocModel<F>, i: int, l: LayerModel<F>)
    requires
        0 <= i < m.stack.layers.len(),
    ensures
        m.with_layer(i, l).stack.layers[i] == l,
        m.with_layer(i, l).stack.layers.len() == m.stack.layers.len(),
        m.with_layer(i, l).stack.active == m.stack.active,
        forall|k: int|
            0 <= k < m.stack.layers.len() && k != i ==> m.with_layer(i, l).stack.layers[k]
                == #[trigger] m.stack.layers[k],
        m.with_layer(i, l).history == m.history,
        m.with_layer(i, l).edit == m.edit,
{
}

/// A change is counted by one more, from the largest number by 0, so that two changes in a
/// row never look like none.
pub proof fn law_changes_are_counted<F>(m: DocModel<F>)
    ensures
        m.edit < u64::MAX ==> m.edited().edit == m.edit + 1,
        m.edit == u64::MAX ==> m.edited().edit == 0,
        m.edited().edit != m.edit && m.edited().edited().edit != m.edit,
        m.edited().stack == m.stack && m.edited().history == m.history,
        m.edited().saved == m.saved && m.edited().autosaved == m.autosaved,
        next_seq(m.edit) == m.edited().edit,
{
}

/// A recorded step is the next to be undone. Up to 64 steps are kept: with fewer none is
/// lost, and with 64 the oldest goes. Nothing can be redone after it.
pub proof fn law_recording_a_step<F>(h: HistoryModel<F>, s: SnapModel<F>)
    ensures
        h.recorded(s).undo.len() > 0 && h.recorded(s).undo.last() == s,
        h.recorded(s).redo.len() == 0,
        h.undo.len() < 64 ==> h.recorded(s).undo.len() == h.undo.len() + 1 && h.recorded(
            s,
        ).undo.drop_last() == h.undo,
        h.undo.len() == 64 ==> h.recorded(s).undo.len() == 64 && forall|i: int|
            0 < i < 64 ==> h.recorded(s).undo[i - 1] == #[trigger] h.undo[i],
{
    if h.undo.len() < 64 {
        assert(h.recorded(s).undo.drop_last() =~= h.undo);
    }
}

/// Steps are undone from the newest on: two edits and two steps back give the first stack,
/// and the two steps forward again give the last.
pub proof fn law_two_edits_are_undone_in_turn<F>(
    m: DocModel<F>,
    first: StackModel<F>,
    second: StackModel<F>,
)
    requires
        m.history.undo.len() < 63,
    ensures
        ({
            let a = m.checkpointed().with_stack(first);
            let b = a.checkpointed().with_stack(second);
            &&& b.undone().stack == first
            &&& b.undone().undone().stack == m.stack
            &&& b.undone().undone().history.undo == m.history.undo
            &&& b.undone().undone().redone().stack == first
            &&& b.undone().undone().redone().redone().stack == second
        }),
{
    let a = m.checkpointed().with_stack(first);
    let b = a.checkpointed().with_stack(second);
    assert(a.history.undo.drop_last() =~= m.history.undo);
    assert(b.history.undo.drop_last() =~= a.history.undo);
    assert(b.undone().history.undo == a.history.undo);
    assert(b.undone().undone().history.undo =~= m.history.undo);
}

/// Resampling a stack resamples the colour of each layer from its colour and the mask from
/// its mask, and changes nothing else of it.
pub proof fn law_resizing_resamples_each_image<F>(
    s: StackModel<F>,
    f: spec_fn(TexModel, u32) -> TexModel,
    n: u32,
    i: int,
)
    requires
        0 <= i < s.layers.len(),
    ensures
        s.resized(f, n).layers.len() == s.layers.len(),
        s.resized(f, n).active == s.active,
        s.resized(f, n).layers[i].tex == f(s.layers[i].tex, n),
        s.resized(f, n).layers[i].mask == f(s.layers[i].mask, n),
        s.resized(f, n).layers[i].name == s.layers[i].name,
        s.resized(f, n).layers[i].naming == s.layers[i].naming,
        s.resized(f, n).layers[i].visible == s.layers[i].visible,
        s.resized(f, n).layers[i].opacity == s.layers[i].opacity,
        s.resized(f, n).layers[i].blend == s.layers[i].blend,
        s.resized(f, n).layers[i].effects == s.layers[i].effects,
{
}

/// After a change of resolution the colour of each layer is what resampling answered for its
/// old colour, and the mask what it answered for its old mask.
pub proof fn law_a_new_resolution_resamples_each_image<
    F,
    R: Fn(&PaintTexture, u32) -> PaintTexture,
>(before: Renderer<F>, after: Renderer<F>, n: u32, resample: R, i: int)
    requires
        after.resized_from(&before, n, resample),
        0 <= i < before.doc@.stack.layers.len(),
    ensures
        ({
            let (a, b) = (before.doc@.stack.layers[i], after.doc@.stack.layers[i]);
            &&& exists|t: PaintTexture, out: PaintTexture| #[trigger]
                resample.ensures((&t, n), out) && t@ == a.tex && out@ == b.tex
            &&& exists|t: PaintTexture, out: PaintTexture| #[trigger]
                resample.ensures((&t, n), out) && t@ == a.mask && out@ == b.mask
            &&& b.name == a.name && b.naming == a.naming
            &&& b.visible == a.visible && b.opacity == a.opacity
            &&& b.blend == a.blend && b.effects == a.effects
        }),
        after.doc@.stack.layers.len() == before.doc@.stack.layers.len(),
        after.doc@.stack.active == before.doc@.stack.active,
        after.doc@.undone().stack == before.doc@.stack,
{
    let (a, b) = (before.doc@.stack.layers[i], after.doc@.stack.layers[i]);
    assert(answers(resample, a.tex, n, b.tex) && answers(resample, a.mask, n, b.mask));
    crate::document::law_undo_reverts_an_edit(before.doc@, after.doc@);
}

/// Where resampling keeps white images white, a change of resolution leaves a mask that
/// reveals everything revealing everything.
pub proof fn law_a_new_resolution_keeps_white_masks<
    F,
    R: Fn(&PaintTexture, u32) -> PaintTexture,
>(before: Renderer<F>, after: Renderer<F>, n: u32, resample: R, i: int)
    requires
        after.resized_from(&before, n, resample),
        0 <= i < before.doc@.stack.layers.len(),
        forall|t: PaintTexture, out: PaintTexture| #[trigger]
            resample.ensures((&t, n), out) && all_white(t@) ==> all_white(out@),
        all_white(before.doc@.stack.layers[i].mask),
    ensures
        all_white(after.doc@.stack.layers[i].mask),
{
    law_a_new_resolution_resamples_each_image(before, after, n, resample, i);
}

/// Every byte of the image is 255.
pub open spec fn all_white(t: TexModel) -> bool {
    forall|k: int| 0 <= k < t.pixels.len() ==> #[trigger] t.pixels[k] == 255
}

/// A committed stroke counts as a change and leaves the layers as they are. It is the next
/// step to be undone, and nothing is left to redo.
pub proof fn law_a_committed_stroke_is_a_change<F>(
    m: DocModel<F>,
    index: int,
    tex: TexModel,
    mask: TexModel,
)
    ensures
        ({
            let n = m.stroke_committed(index, tex, mask);
            &&& n.edit != m.edit
            &&& m.edit < u64::MAX ==> n.edit == m.edit + 1
            &&& n.saved == m.saved && n.autosaved == m.autosaved
            &&& n.stack == m.stack
            &&& n.history.redo.len() == 0 && n.history.undo.len() > 0
            &&& n.history.undo.last() == SnapModel::<F>::Layer { index, tex, mask }
        }),
{
}

proof fn lemma_widest<F>(effects: Seq<Effect<F>>, g: spec_fn(Effect<F>) -> u32, k: int)
    requires
        0 <= k <= effects.len(),
    ensures
        forall|j: int| 0 <= j < k ==> g(#[trigger] effects[j]) <= widest(effects, g, k),
        widest(effects, g, k) == 0 || exists|j: int|
            0 <= j < k && g(#[trigger] effects[j]) == widest(effects, g, k),
    decreases k,
{
    if k > 0 {
        lemma_widest(effects, g, k - 1);
    }
}

/// An effect of layer `i` reaches this far.
pub open spec fn layer_reaches<F>(
    s: StackModel<F>,
    g: spec_fn(Effect<F>) -> u32,
    i: int,
    n: u32,
) -> bool {
    exists|j: int| 0 <= j < s.layers[i].effects.len() && g(#[trigger] s.layers[i].effects[j]) == n
}

/// The spread of a stack is the farthest that an effect of a shown layer reaches: no effect of
/// a visible layer with an opacity that shows reaches farther, and one of them reaches as far,
/// unless there is none. Hidden layers do not count.
pub proof fn law_the_spread_is_that_of_what_is_shown<F>(
    s: StackModel<F>,
    f: spec_fn(F) -> bool,
    g: spec_fn(Effect<F>) -> u32,
    k: int,
)
    requires
        0 <= k <= s.layers.len(),
    ensures
        forall|i: int, j: int|
            0 <= i < k && 0 <= j < s.layers[i].effects.len() && s.layers[i].visible && f(
                s.layers[i].opacity,
            ) ==> g(#[trigger] s.layers[i].effects[j]) <= s.spread(f, g, k),
        s.spread(f, g, k) == 0 || exists|i: int|
            0 <= i < k && s.layers[i].visible && f(s.layers[i].opacity) && #[trigger] layer_reaches(
                s,
                g,
                i,
                s.spread(f, g, k),
            ),
    decreases k,
{
    if k > 0 {
        law_the_spread_is_that_of_what_is_shown(s, f, g, k - 1);
        let l = s.layers[k - 1];
        let n = l.effects.len() as int;
        lemma_widest(l.effects, g, n);
        let (before, here) = (s.spread(f, g, k - 1), widest(l.effects, g, n));
        let now = s.spread(f, g, k);
        if l.visible && f(l.opacity) && here > before {
            let j = choose|j: int| 0 <= j < n && g(#[trigger] l.effects[j]) == here;
            assert(g(s.layers[k - 1].effects[j]) == now);
            assert(layer_reaches(s, g, k - 1, now));
        } else if before > 0 {
            let i = choose|i: int|
                0 <= i < k - 1 && s.layers[i].visible && f(s.layers[i].opacity) && #[trigger]
                    layer_reaches(s, g, i, before);
            assert(layer_reaches(s, g, i, now));
        }
    }
}

} // verus!
