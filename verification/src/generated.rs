//! What generated layers hold, and what presets bring.

use crate::document::DocModel;
use crate::history::SnapModel;
use crate::layers::{BlendMode, LayerModel};
use crate::looks::{
    answered, dressed, palette_named, same_name, sampled, tinted_layer, Levels, Look, MapRecipe,
    MapSource, NoiseMod, Palette, Preset, PresetLayer, RecipeModel,
};
use crate::renderer::{Redraw, Renderer};
use vstd::prelude::*;

verus! {

/// The layer is of one colour: every texel has its three bytes, and the alpha given for it.
pub open spec fn one_colour<F>(l: LayerModel<F>, color: [u8; 3], alphas: Seq<u8>) -> bool {
    &&& l.tex.pixels.len() == 4 * alphas.len()
    &&& forall|t: int|
        #![trigger alphas[t]]
        0 <= t < alphas.len() ==> l.tex.pixels[4 * t] == color[0] && l.tex.pixels[4 * t + 1]
            == color[1] && l.tex.pixels[4 * t + 2] == color[2] && l.tex.pixels[4 * t + 3]
            == alphas[t]
}

/// The layer is as fresh ones are: shown, revealed everywhere, without effects and not named
/// by the user.
pub open spec fn fresh_layer<F>(l: LayerModel<F>) -> bool {
    &&& l.visible
    &&& l.effects.len() == 0
    &&& !l.naming.renamed && l.naming.ops.len() == 0
    &&& forall|k: int| 0 <= k < l.mask.pixels.len() ==> #[trigger] l.mask.pixels[k] == 255
}

proof fn lemma_tinted<F>(size: u32, recipe: RecipeModel<F>, alphas: Seq<u8>, opacity: F)
    ensures
        ({
            let l = tinted_layer(size, recipe, alphas, opacity);
            &&& one_colour(l, recipe.color, alphas)
            &&& fresh_layer(l)
            &&& l.name == recipe.name && l.blend == recipe.blend && l.opacity == opacity
            &&& l.tex.width == size && l.tex.height == size
            &&& l.mask.width == size && l.mask.height == size
        }),
{
    let l = tinted_layer(size, recipe, alphas, opacity);
    assert forall|t: int| #![trigger alphas[t]] 0 <= t < alphas.len() implies l.tex.pixels[4 * t]
        == recipe.color[0] && l.tex.pixels[4 * t + 1] == recipe.color[1] && l.tex.pixels[4 * t + 2]
        == recipe.color[2] && l.tex.pixels[4 * t + 3] == alphas[t] by {
        assert((4 * t) % 4 == 0 && (4 * t + 1) % 4 == 1 && (4 * t + 2) % 4 == 2);
        assert((4 * t + 3) % 4 == 3 && (4 * t + 3) / 4 == t);
    }
}

/// A layer generated from a map lies on top and is active. It has the recipe's colour at
/// every texel with the map's alpha, its blend mode and its name, and is remembered for
/// presets with the recipe's channel, levels, colour, blend mode and noise. The other layers
/// stay, and one step back takes it away.
pub proof fn law_a_map_layer_is_its_recipe<F>(
    before: Renderer<F>,
    after: Renderer<F>,
    name: Seq<char>,
    alphas: Seq<u8>,
    recipe: MapRecipe<F>,
    opacity: F,
)
    requires
        after.tinted_from(&before, name, alphas, recipe, opacity),
    ensures
        ({
            let n = before.doc@.stack.layers.len() as int;
            let top = after.doc@.stack.layers[n];
            &&& after.doc@.stack.layers.len() == n + 1
            &&& after.doc@.stack.active == n
            &&& one_colour(top, recipe.color, alphas)
            &&& fresh_layer(top)
            &&& top.name == name && top.blend == recipe.blend && top.opacity == opacity
            &&& forall|i: int|
                0 <= i < n ==> after.doc@.stack.layers[i] == #[trigger] before.doc@.stack.layers[i]
        }),
        ({
            let k = before.recipe@.len() as int;
            let kept = after.recipe@[k];
            &&& after.recipe@.len() == k + 1
            &&& kept.name@ == name
            &&& kept.source == recipe.source
            &&& kept.levels == recipe.levels
            &&& kept.color == recipe.color
            &&& kept.blend == recipe.blend
            &&& kept.noise == recipe.noise
            &&& forall|i: int|
                0 <= i < k ==> after.recipe@[i]@ == (#[trigger] before.recipe@[i])@
        }),
        after.doc@.undone().stack == before.doc@.stack,
        after == (Renderer {
            doc: after.doc,
            buffers: after.buffers,
            recipe: after.recipe,
            ..before
        }),
{
    lemma_tinted(before.tex_size, recipe.named(name), alphas, opacity);
    let k = before.recipe@.len() as int;
    let (rv, bv) = (after.recipe_view(), before.recipe_view());
    assert(rv.len() == bv.len() + 1);
    assert(rv[k] == recipe.named(name));
    assert(after.recipe@[k]@ == rv[k]);
    assert forall|i: int| 0 <= i < k implies after.recipe@[i]@ == (
    #[trigger] before.recipe@[i])@ by {
        assert(rv[i] == bv[i]);
    }
    crate::document::law_undo_reverts_an_edit(before.doc@, after.doc@);
}

/// The layer on top is this one, and presets remember it so.
pub open spec fn top_is<F>(
    before: Renderer<F>,
    after: Renderer<F>,
    name: Seq<char>,
    color: [u8; 3],
    blend: BlendMode,
    source: MapSource,
    alphas: Seq<u8>,
) -> bool {
    let n = before.doc@.stack.layers.len() as int;
    let k = before.recipe@.len() as int;
    let (top, kept) = (after.doc@.stack.layers[n], after.recipe@[k]);
    &&& after.doc@.stack.layers.len() == n + 1 && after.doc@.stack.active == n
    &&& after.recipe@.len() == k + 1
    &&& one_colour(top, color, alphas) && kept.color == color
    &&& top.name == name && kept.name@ == name
    &&& top.blend == blend && kept.blend == blend
    &&& kept.source == source
}

/// The one-click looks: ambient occlusion is black, multiplied, from the cavities; highlights
/// are white from the edges; dirt is brown from the cavities; edge wear is pale from the
/// edges. Levels and noise are remembered as given.
pub proof fn law_each_look_has_its_colour<F>(
    before: Renderer<F>,
    after: Renderer<F>,
    look: Look,
    alphas: Seq<u8>,
    levels: Levels<F>,
    noise: Option<NoiseMod<F>>,
    opacity: F,
)
    requires
        after.look_from(&before, look, alphas, levels, noise, opacity),
    ensures
        look is Ao ==> top_is(
            before,
            after,
            "AO"@,
            [0, 0, 0],
            BlendMode::Multiply,
            MapSource::Cavities,
            alphas,
        ),
        look is Highlights ==> top_is(
            before,
            after,
            "Highlights"@,
            [255, 255, 255],
            BlendMode::Normal,
            MapSource::Edges,
            alphas,
        ),
        look is Dirt ==> top_is(
            before,
            after,
            "Dirt"@,
            [54, 42, 30],
            BlendMode::Normal,
            MapSource::Cavities,
            alphas,
        ),
        look is EdgeWear ==> top_is(
            before,
            after,
            "Edge wear"@,
            [205, 200, 185],
            BlendMode::Normal,
            MapSource::Edges,
            alphas,
        ),
        after.recipe@[before.recipe@.len() as int].levels == levels,
        after.recipe@[before.recipe@.len() as int].noise == noise,
        after.doc@.stack.layers.last().opacity == opacity,
        after.doc@.undone().stack == before.doc@.stack,
{
    let recipe = choose|recipe: MapRecipe<F>| #[trigger]
        after.tinted_from(&before, look.text(), alphas, recipe, opacity) && recipe.source
            == look.channel() && recipe.levels == levels && recipe.color@ == look.tint()
            && recipe.blend == look.mode() && recipe.noise == noise;
    law_a_map_layer_is_its_recipe(before, after, look.text(), alphas, recipe, opacity);
    let c = recipe.color;
    assert(c@[0] == look.tint()[0] && c@[1] == look.tint()[1] && c@[2] == look.tint()[2]);
    match look {
        Look::Ao => {
            assert(c =~= [0u8, 0u8, 0u8]);
        },
        Look::Highlights => {
            assert(c =~= [255u8, 255u8, 255u8]);
        },
        Look::Dirt => {
            assert(c =~= [54u8, 42u8, 30u8]);
        },
        Look::EdgeWear => {
            assert(c =~= [205u8, 200u8, 185u8]);
        },
    }
}

/// A preset puts its layers on top in their order, and leaves those that were there.
proof fn lemma_dressed<F>(
    doc: DocModel<F>,
    size: u32,
    recipe: Seq<RecipeModel<F>>,
    alphas: Seq<Seq<u8>>,
    opacity: F,
    k: int,
)
    requires
        0 <= k <= recipe.len(),
    ensures
        ({
            let n = doc.stack.layers.len() as int;
            let d = dressed(doc, size, recipe, alphas, opacity, k);
            &&& d.stack.layers.len() == n + k
            &&& k > 0 ==> d.stack.active == n + k - 1
            &&& forall|i: int| 0 <= i < n ==> d.stack.layers[i] == #[trigger] doc.stack.layers[i]
            &&& forall|i: int|
                #![trigger alphas[i]]
                0 <= i < k ==> d.stack.layers[n + i] == tinted_layer(
                    size,
                    recipe[i],
                    alphas[i],
                    opacity,
                )
            &&& k > 0 ==> d.undone().stack == dressed(
                doc,
                size,
                recipe,
                alphas,
                opacity,
                k - 1,
            ).stack
        }),
    decreases k,
{
    if k > 0 {
        lemma_dressed(doc, size, recipe, alphas, opacity, k - 1);
        let d0 = dressed(doc, size, recipe, alphas, opacity, k - 1);
        let d = dressed(doc, size, recipe, alphas, opacity, k);
        crate::document::law_undo_reverts_an_edit(d0, d);
        let n = doc.stack.layers.len() as int;
        assert forall|i: int| #![trigger alphas[i]] 0 <= i < k implies d.stack.layers[n + i]
            == tinted_layer(size, recipe[i], alphas[i], opacity) by {
            if i < k - 1 {
                assert(d0.stack.layers[n + i] == d.stack.layers[n + i]);
            }
        }
    }
}

/// Layer `i` of an applied preset lies on the old layers as their `i`th: of the preset
/// layer's colour, name and blend mode, with alphas that were read off the maps for it. The
/// old layers stay. Every preset layer is remembered once more.
pub proof fn law_a_preset_brings_its_layers<F, S: Fn(&PresetLayer<F>, u32) -> Vec<u8>>(
    before: Renderer<F>,
    after: Renderer<F>,
    preset: &Preset<F>,
    builtins: Seq<Palette<F>>,
    sample: S,
    opacity: F,
    i: int,
)
    requires
        after.dressed_from(&before, preset, builtins, sample, opacity),
        0 <= i < preset.layers@.len(),
    ensures
        ({
            let n = before.doc@.stack.layers.len() as int;
            let l = after.doc@.stack.layers[n + i];
            let p = preset.layers@[i];
            &&& after.doc@.stack.layers.len() == n + preset.layers@.len()
            &&& exists|v: Vec<u8>| #[trigger]
                sample.ensures((&p, before.tex_size), v) && one_colour(l, p.color, v@)
            &&& fresh_layer(l)
            &&& l.name == p.name@ && l.blend == p.blend && l.opacity == opacity
            &&& forall|j: int|
                0 <= j < n ==> after.doc@.stack.layers[j] == #[trigger] before.doc@.stack.layers[j]
        }),
        ({
            let k = before.recipe@.len() as int;
            &&& after.recipe@.len() == k + preset.layers@.len()
            &&& after.recipe@[k + i]@ == preset.layers@[i]@
            &&& forall|j: int|
                0 <= j < k ==> after.recipe@[j]@ == (#[trigger] before.recipe@[j])@
        }),
{
    let recipe = preset.layers@.map_values(|l: PresetLayer<F>| l@);
    let m = recipe.len() as int;
    let alphas = choose|alphas: Seq<Seq<u8>>| #[trigger]
        sampled(sample, preset.layers@, before.tex_size, alphas) && after.doc@ == ({
            let layered = dressed(before.doc@, before.tex_size, recipe, alphas, opacity, m);
            if preset.palette_known(builtins) {
                layered.edited()
            } else {
                layered
            }
        });
    lemma_dressed(before.doc@, before.tex_size, recipe, alphas, opacity, m);
    assert(answered(sample, &preset.layers@[i], before.tex_size, alphas[i]));
    let v = choose|v: Vec<u8>| #[trigger]
        sample.ensures((&preset.layers@[i], before.tex_size), v) && v@ == alphas[i];
    lemma_tinted(before.tex_size, recipe[i], alphas[i], opacity);
    let k = before.recipe@.len() as int;
    let (rv, bv) = (after.recipe_view(), before.recipe_view());
    assert(rv.len() == bv.len() + m);
    assert(rv[k + i] == recipe[i]);
    assert(after.recipe@[k + i]@ == rv[k + i]);
    assert forall|j: int| 0 <= j < k implies after.recipe@[j]@ == (
    #[trigger] before.recipe@[j])@ by {
        assert(rv[j] == bv[j]);
    }
}

/// The palette of an applied preset becomes active where it names a built-in one, the first
/// one of that name in whatever case; else the palette stays as it was.
pub proof fn law_a_preset_brings_its_palette<F, S: Fn(&PresetLayer<F>, u32) -> Vec<u8>>(
    before: Renderer<F>,
    after: Renderer<F>,
    preset: &Preset<F>,
    builtins: Seq<Palette<F>>,
    sample: S,
    opacity: F,
    k: int,
)
    requires
        after.dressed_from(&before, preset, builtins, sample, opacity),
    ensures
        preset.palette is Some && 0 <= k < builtins.len() && same_name(
            builtins[k].name@,
            (preset.palette->0)@,
        ) && (forall|j: int|
            0 <= j < k ==> !#[trigger] same_name(builtins[j].name@, (preset.palette->0)@))
            ==> after.palette_name@ == builtins[k].name@ && after.palette@ == builtins[k].colors@,
        preset.palette is None ==> after.palette_name@ == before.palette_name@ && after.palette@
            == before.palette@,
        after.palette_settings == before.palette_settings,
        after == (Renderer {
            doc: after.doc,
            buffers: after.buffers,
            recipe: after.recipe,
            palette_name: after.palette_name,
            palette: after.palette,
            ..before
        }),
{
    if preset.palette is Some && 0 <= k < builtins.len() && same_name(
        builtins[k].name@,
        (preset.palette->0)@,
    ) && (forall|j: int|
        0 <= j < k ==> !#[trigger] same_name(builtins[j].name@, (preset.palette->0)@)) {
        assert(palette_named(builtins, (preset.palette->0)@, k));
    }
}

/// Two names are the same when each character is, or is the same Latin letter in the other
/// case.
pub proof fn law_names_differ_in_case_only(a: Seq<char>, b: Seq<char>)
    ensures
        same_name(a, b) <==> a.len() == b.len() && forall|i: int|
            #![trigger a[i]]
            0 <= i < a.len() ==> a[i] == b[i] || ('A' <= a[i] && a[i] <= 'Z' && b[i] as int
                == a[i] as int + 32) || ('A' <= b[i] && b[i] <= 'Z' && a[i] as int == b[i] as int
                + 32),
        same_name(a, a),
        same_name(a, b) ==> same_name(b, a),
{
    if same_name(a, b) {
        assert forall|i: int| #![trigger a[i]] 0 <= i < a.len() implies a[i] == b[i] || ('A' <= a[i]
            && a[i] <= 'Z' && b[i] as int == a[i] as int + 32) || ('A' <= b[i] && b[i] <= 'Z'
            && a[i] as int == b[i] as int + 32) by {
            assert(crate::looks::lower(a[i]) == crate::looks::lower(b[i]));
        }
        assert forall|i: int| 0 <= i < b.len() implies #[trigger] crate::looks::lower(b[i])
            == crate::looks::lower(a[i]) by {
            assert(crate::looks::lower(a[i]) == crate::looks::lower(b[i]));
        }
    }
}

/// A layer generated without a recipe is put on top of the others, which stay, with the name,
/// blend mode and opacity given; it is shown and revealed everywhere. Undo takes it away.
pub proof fn law_a_generated_layer_is_put_on_top<F>(
    before: Renderer<F>,
    after: Renderer<F>,
    name: Seq<char>,
    blend: BlendMode,
    opacity: F,
)
    requires
        after.generated_from(&before, name, blend, opacity),
    ensures
        ({
            let (old, new) = (before.doc@.stack, after.doc@.stack);
            let n = old.layers.len() as int;
            let top = new.layers[n];
            &&& new.layers.len() == n + 1 && new.active == n
            &&& forall|k: int| 0 <= k < n ==> #[trigger] new.layers[k] == old.layers[k]
            &&& fresh_layer(top)
            &&& top.name == name && top.blend == blend && top.opacity == opacity
            &&& top.tex.width == before.tex_size && top.tex.height == before.tex_size
            &&& top.mask.pixels.len() == 4 * (before.tex_size * before.tex_size)
            &&& after.doc@.history.undo.last() == SnapModel::Stack(old)
            &&& after.doc@.history.redo.len() == 0
            &&& after.doc@.edit != before.doc@.edit
        }),
{
    let n = before.tex_size;
    assert(n * n * 4 == 4 * (n * n)) by (nonlinear_arith);
}

/// A preset makes the image be drawn anew when it has a layer, or names one of the palettes;
/// else nothing is drawn.
pub proof fn law_when_a_preset_redraws<F>(p: Preset<F>, builtins: Seq<Palette<F>>, j: int)
    ensures
        p.layers@.len() > 0 ==> p.redraw_spec(builtins) == Redraw::Full,
        p.palette matches Some(name) && 0 <= j < builtins.len() && builtins[j].name@ == name@
            ==> p.redraw_spec(builtins) == Redraw::Full,
        p.layers@.len() == 0 && (p.palette is None || builtins.len() == 0) ==> p.redraw_spec(
            builtins,
        ) == Redraw::Keep,
{
    if p.palette is Some && 0 <= j < builtins.len() && builtins[j].name@ == (p.palette->0)@ {
        assert(same_name(builtins[j].name@, (p.palette->0)@));
    }
}

} // verus!
