//! Looks: layers and masks generated from maps baked off the mesh, and the presets that
//! bundle them.

use crate::document::DocModel;
use crate::generated::{law_each_look_has_its_colour, top_is};
use crate::layers::{unnamed, white_mask, BlendMode, LayerModel, TexModel};
use crate::renderer::{Redraw, Renderer};
use crate::texture::{level_image, ramp_image, tint_image};
use vstd::prelude::*;

verus! {

/// A channel baked off the mesh.
#[derive(Clone, Copy, PartialEq, Eq, Structural, Debug)]
pub enum MapSource {
    /// Occluded creases.
    Cavities,
    /// Convex edges and corners.
    Edges,
    /// Directional light.
    Light,
    /// The whole surface.
    Surface,
}

/// How a map's value is read.
#[derive(Clone, Copy, Debug)]
pub struct Levels<F> {
    pub invert: bool,
    pub contrast: F,
    pub strength: F,
}

/// Procedural noise multiplied into a map.
#[derive(Clone, Copy, Debug)]
pub struct NoiseMod<F> {
    /// The number of the noise pattern.
    pub kind: u8,
    pub scale: F,
    pub contrast: F,
    pub amount: F,
}

/// One generated layer as a preset remembers it.
#[derive(Debug)]
pub struct PresetLayer<F> {
    pub name: String,
    pub source: MapSource,
    pub levels: Levels<F>,
    pub color: [u8; 3],
    pub blend: BlendMode,
    pub noise: Option<NoiseMod<F>>,
}

/// What a remembered layer holds.
pub struct RecipeModel<F> {
    pub name: Seq<char>,
    pub source: MapSource,
    pub levels: Levels<F>,
    pub color: [u8; 3],
    pub blend: BlendMode,
    pub noise: Option<NoiseMod<F>>,
}

impl<F> View for PresetLayer<F> {
    type V = RecipeModel<F>;

    open spec fn view(&self) -> RecipeModel<F> {
        RecipeModel {
            name: self.name@,
            source: self.source,
            levels: self.levels,
            color: self.color,
            blend: self.blend,
            noise: self.noise,
        }
    }
}

impl<F: Copy> PresetLayer<F> {
    /// A copy with the same contents.
    pub fn copied(&self) -> (l: PresetLayer<F>)
        ensures
            l@ == self@,
    {
        PresetLayer {
            name: self.name.clone(),
            source: self.source,
            levels: self.levels,
            color: self.color,
            blend: self.blend,
            noise: self.noise,
        }
    }
}

/// A shareable look: its generated layers, and the palette it goes with.
#[derive(Debug)]
pub struct Preset<F> {
    pub name: String,
    pub layers: Vec<PresetLayer<F>>,
    pub palette: Option<String>,
}

/// A palette by name.
#[derive(Debug)]
pub struct Palette<F> {
    pub name: String,
    pub colors: Vec<[F; 3]>,
}

/// The one-click looks.
#[derive(Clone, Copy, PartialEq, Eq, Structural, Debug)]
pub enum Look {
    /// Black multiplied into the cavities.
    Ao,
    /// White on convex edges.
    Highlights,
    /// Dark grime in the cavities.
    Dirt,
    /// Worn, lightened edges.
    EdgeWear,
}

impl Look {
    pub open spec fn text(self) -> Seq<char> {
        match self {
            Look::Ao => "AO"@,
            Look::Highlights => "Highlights"@,
            Look::Dirt => "Dirt"@,
            Look::EdgeWear => "Edge wear"@,
        }
    }

    pub open spec fn tint(self) -> Seq<u8> {
        match self {
            Look::Ao => seq![0u8, 0u8, 0u8],
            Look::Highlights => seq![255u8, 255u8, 255u8],
            Look::Dirt => seq![54u8, 42u8, 30u8],
            Look::EdgeWear => seq![205u8, 200u8, 185u8],
        }
    }

    pub open spec fn channel(self) -> MapSource {
        match self {
            Look::Ao | Look::Dirt => MapSource::Cavities,
            Look::Highlights | Look::EdgeWear => MapSource::Edges,
        }
    }

    pub open spec fn mode(self) -> BlendMode {
        if self == Look::Ao {
            BlendMode::Multiply
        } else {
            BlendMode::Normal
        }
    }

    /// The name of the layer.
    pub fn name(self) -> (s: &'static str)
        ensures
            s@ == self.text(),
    {
        match self {
            Look::Ao => "AO",
            Look::Highlights => "Highlights",
            Look::Dirt => "Dirt",
            Look::EdgeWear => "Edge wear",
        }
    }

    /// The baked channel it reads.
    pub fn source(self) -> (m: MapSource)
        ensures
            m == self.channel(),
    {
        match self {
            Look::Ao => MapSource::Cavities,
            Look::Highlights => MapSource::Edges,
            Look::Dirt => MapSource::Cavities,
            Look::EdgeWear => MapSource::Edges,
        }
    }

    /// Its colour.
    pub fn color(self) -> (c: [u8; 3])
        ensures
            c@ == self.tint(),
    {
        let c: [u8; 3] = match self {
            Look::Ao => [0, 0, 0],
            Look::Highlights => [255, 255, 255],
            Look::Dirt => [54, 42, 30],
            Look::EdgeWear => [205, 200, 185],
        };
        assert(c@ =~= self.tint());
        c
    }

    /// How it is blended.
    pub fn blend(self) -> (b: BlendMode)
        ensures
            b == self.mode(),
    {
        match self {
            Look::Ao => BlendMode::Multiply,
            _ => BlendMode::Normal,
        }
    }
}

/// An ASCII capital letter as a small one; every other character as it is.
pub open spec fn lower(c: char) -> int {
    if 'A' <= c && c <= 'Z' {
        c as int + 32
    } else {
        c as int
    }
}

/// Two names differ at most in the case of ASCII letters.
pub open spec fn same_name(a: Seq<char>, b: Seq<char>) -> bool {
    a.len() == b.len() && forall|i: int| 0 <= i < a.len() ==> #[trigger] lower(a[i]) == lower(b[i])
}

fn lowered(c: char) -> (n: u32)
    ensures
        n == lower(c),
{
    let n: u32 = c as u32;
    if 'A' <= c && c <= 'Z' {
        n + 32
    } else {
        n
    }
}

fn names_match(a: &str, b: &str) -> (same: bool)
    ensures
        same == same_name(a@, b@),
{
    let n: usize = a.unicode_len();
    if n != b.unicode_len() {
        return false;
    }
    let mut i: usize = 0;
    while i < n
        invariant
            n == a@.len() == b@.len(),
            i <= n,
            forall|k: int| 0 <= k < i ==> #[trigger] lower(a@[k]) == lower(b@[k]),
        decreases n - i,
    {
        if lowered(a.get_char(i)) != lowered(b.get_char(i)) {
            assert(lower(a@[i as int]) != lower(b@[i as int]));
            return false;
        }
        i += 1;
    }
    true
}

/// The first of the palettes with the given name, whatever its case.
pub open spec fn palette_named<F>(all: Seq<Palette<F>>, name: Seq<char>, k: int) -> bool {
    &&& 0 <= k < all.len()
    &&& same_name(all[k].name@, name)
    &&& forall|j: int| 0 <= j < k ==> !#[trigger] same_name(all[j].name@, name)
}

impl<F> Preset<F> {
    /// The preset names one of the palettes.
    pub open spec fn palette_known(&self, builtins: Seq<Palette<F>>) -> bool {
        self.palette is Some && exists|j: int|
            0 <= j < builtins.len() && #[trigger] same_name(
                builtins[j].name@,
                (self.palette->0)@,
            )
    }

    /// Applying the preset changes the image, unless it has neither layers nor a palette.
    pub open spec fn redraw_spec(&self, builtins: Seq<Palette<F>>) -> Redraw {
        if self.layers@.len() > 0 || self.palette_known(builtins) {
            Redraw::Full
        } else {
            Redraw::Keep
        }
    }
}

fn find_palette<F>(all: &Vec<Palette<F>>, name: &str) -> (r: Option<usize>)
    ensures
        r matches Some(k) ==> palette_named(all@, name@, k as int),
        r is None ==> forall|j: int|
            0 <= j < all.len() ==> !#[trigger] same_name(all@[j].name@, name@),
{
    let mut i: usize = 0;
    while i < all.len()
        invariant
            i <= all.len(),
            forall|j: int| 0 <= j < i ==> !#[trigger] same_name(all@[j].name@, name@),
        decreases all.len() - i,
    {
        if names_match(all[i].name.as_str(), name) {
            return Some(i);
        }
        i += 1;
    }
    None
}

pub(crate) fn copy_colors<F: Copy>(v: &Vec<[F; 3]>) -> (out: Vec<[F; 3]>)
    ensures
        out@ == v@,
{
    let mut out: Vec<[F; 3]> = Vec::new();
    let mut i: usize = 0;
    while i < v.len()
        invariant
            i <= v.len(),
            out.len() == i,
            forall|k: int| 0 <= k < i ==> #[trigger] out@[k] == v@[k],
        decreases v.len() - i,
    {
        out.push(v[i]);
        i += 1;
    }
    assert(out@ =~= v@);
    out
}

/// What a layer is generated from: its name, channel, levels, colour, blend mode and noise.
#[derive(Clone, Copy, Debug)]
pub struct MapRecipe<F> {
    pub source: MapSource,
    pub levels: Levels<F>,
    pub color: [u8; 3],
    pub blend: BlendMode,
    pub noise: Option<NoiseMod<F>>,
}

impl<F> MapRecipe<F> {
    /// The recipe under a name.
    pub open spec fn named(self, name: Seq<char>) -> RecipeModel<F> {
        RecipeModel {
            name: name,
            source: self.source,
            levels: self.levels,
            color: self.color,
            blend: self.blend,
            noise: self.noise,
        }
    }
}

impl<F> Renderer<F> {
    /// The layers a preset saved now would hold.
    pub open spec fn recipe_view(&self) -> Seq<RecipeModel<F>> {
        self.recipe@.map_values(|l: PresetLayer<F>| l@)
    }

    /// The colour of the top layer.
    pub open spec fn top_pixels(&self) -> Seq<u8> {
        self.doc@.stack.layers.last().tex.pixels
    }

    /// One visible layer without effects, fully revealed, was put on top and made active.
    pub open spec fn generated_from(
        &self,
        before: &Renderer<F>,
        name: Seq<char>,
        blend: BlendMode,
        opacity: F,
    ) -> bool {
        let top = self.doc@.stack.layers.last();
        &&& self.wf()
        &&& self.stroke_fresh()
        &&& self.tex_size == before.tex_size
        &&& self.doc@ == before.doc@.checkpointed().with_stack(before.doc@.stack.pushed(top))
        &&& top.name == name
        &&& top.naming == unnamed()
        &&& top.blend == blend
        &&& top.opacity == opacity
        &&& top.visible
        &&& top.effects.len() == 0
        &&& top.mask == white_mask(before.tex_size)
        &&& top.tex.width == before.tex_size
        &&& top.tex.height == before.tex_size
        &&& top.tex.pixels.len() == 4 * (before.tex_size * before.tex_size)
    }

    /// A tinted layer was generated from a map and remembered for presets.
    pub open spec fn tinted_from(
        &self,
        before: &Renderer<F>,
        name: Seq<char>,
        alphas: Seq<u8>,
        recipe: MapRecipe<F>,
        opacity: F,
    ) -> bool {
        &&& self.wf()
        &&& self.stroke_fresh()
        &&& self.tex_size == before.tex_size
        &&& self.doc@ == before.doc@.checkpointed().with_stack(
            before.doc@.stack.pushed(
                tinted_layer(before.tex_size, recipe.named(name), alphas, opacity),
            ),
        )
        &&& self.recipe_view() == before.recipe_view().push(recipe.named(name))
        &&& self.same_around_doc(&Renderer { recipe: self.recipe, ..*before })
    }
}

/// A visible, fully revealed layer of one colour whose alpha is given per texel.
pub open spec fn tinted_layer<F>(
    size: u32,
    recipe: RecipeModel<F>,
    alphas: Seq<u8>,
    opacity: F,
) -> LayerModel<F> {
    LayerModel {
        name: recipe.name,
        naming: unnamed(),
        tex: TexModel {
            width: size,
            height: size,
            pixels: Seq::new(
                4 * alphas.len(),
                |i: int|
                    if i % 4 == 3 {
                        alphas[i / 4]
                    } else {
                        recipe.color[i % 4]
                    },
            ),
        },
        mask: white_mask(size),
        visible: true,
        opacity: opacity,
        blend: recipe.blend,
        effects: Seq::empty(),
    }
}

/// The document after the first `k` generated layers of a preset, each an undo step of its
/// own.
pub open spec fn dressed<F>(
    doc: DocModel<F>,
    size: u32,
    recipe: Seq<RecipeModel<F>>,
    alphas: Seq<Seq<u8>>,
    opacity: F,
    k: int,
) -> DocModel<F>
    decreases k,
{
    if k <= 0 {
        doc
    } else {
        let d = dressed(doc, size, recipe, alphas, opacity, k - 1);
        d.checkpointed().with_stack(
            d.stack.pushed(tinted_layer(size, recipe[k - 1], alphas[k - 1], opacity)),
        )
    }
}

proof fn lemma_dressed_ext<F>(
    doc: DocModel<F>,
    size: u32,
    recipe: Seq<RecipeModel<F>>,
    a: Seq<Seq<u8>>,
    b: Seq<Seq<u8>>,
    opacity: F,
    k: int,
)
    requires
        forall|i: int| 0 <= i < k ==> #[trigger] a[i] == b[i],
    ensures
        dressed(doc, size, recipe, a, opacity, k) == dressed(doc, size, recipe, b, opacity, k),
    decreases k,
{
    if k > 0 {
        lemma_dressed_ext(doc, size, recipe, a, b, opacity, k - 1);
        assert(a[k - 1] == b[k - 1]);
    }
}

/// The alphas a map sampler gave for the layers of a preset.
pub open spec fn sampled<F, S: Fn(&PresetLayer<F>, u32) -> Vec<u8>>(
    sample: S,
    layers: Seq<PresetLayer<F>>,
    size: u32,
    alphas: Seq<Seq<u8>>,
) -> bool {
    &&& alphas.len() == layers.len()
    &&& forall|i: int|
        0 <= i < layers.len() ==> answered(sample, &layers[i], size, #[trigger] alphas[i])
}

/// `alphas` is an answer the sampler can give for a layer.
pub open spec fn answered<F, S: Fn(&PresetLayer<F>, u32) -> Vec<u8>>(
    sample: S,
    layer: &PresetLayer<F>,
    size: u32,
    alphas: Seq<u8>,
) -> bool {
    exists|v: Vec<u8>| #[trigger] sample.ensures((layer, size), v) && v@ == alphas
}

impl<F: Copy> Renderer<F> {
    /// Adds a generated layer of one colour whose alpha is read off a map, given per texel,
    /// and remembers it for presets. One undo step.
    pub fn add_map_layer(
        &mut self,
        name: &str,
        alphas: &Vec<u8>,
        recipe: MapRecipe<F>,
        opacity: F,
    ) -> (redraw: Redraw)
        requires
            old(self).wf(),
            alphas.len() == old(self).tex_size * old(self).tex_size,
        ensures
            redraw == Redraw::Full,
            final(self).tinted_from(old(self), name@, alphas@, recipe, opacity),
    {
        let tex = tint_image(self.tex_size, recipe.color, alphas);
        self.doc.push_generated(name.to_owned(), tex, recipe.blend, opacity);
        self.recipe.push(
            PresetLayer {
                name: name.to_owned(),
                source: recipe.source,
                levels: recipe.levels,
                color: recipe.color,
                blend: recipe.blend,
                noise: recipe.noise,
            },
        );
        self.buffers.bump_stroke_id();
        proof {
            let layer = tinted_layer(old(self).tex_size, recipe.named(name@), alphas@, opacity);
            assert(self.doc@.stack.active_layer().tex == tex@);
            assert(tex@.pixels =~= layer.tex.pixels);
            assert(self.doc@.stack.layers.last() == layer);
        }
        assert(self.recipe_view() =~= old(self).recipe_view().push(recipe.named(name@)));
        Redraw::Full
    }

    fn apply_look(
        &mut self,
        look: Look,
        alphas: &Vec<u8>,
        levels: Levels<F>,
        noise: Option<NoiseMod<F>>,
        opacity: F,
    ) -> (redraw: Redraw)
        requires
            old(self).wf(),
            alphas.len() == old(self).tex_size * old(self).tex_size,
        ensures
            redraw == Redraw::Full,
            final(self).look_from(old(self), look, alphas@, levels, noise, opacity),
    {
        let recipe = MapRecipe {
            source: look.source(),
            levels,
            color: look.color(),
            blend: look.blend(),
            noise,
        };
        let redraw = self.add_map_layer(look.name(), alphas, recipe, opacity);
        assert(self.tinted_from(old(self), look.text(), alphas@, recipe, opacity));
        redraw
    }

    /// Shadow in the crevices: black, multiplied, from the cavities.
    pub fn apply_ao_layer(
        &mut self,
        alphas: &Vec<u8>,
        levels: Levels<F>,
        noise: Option<NoiseMod<F>>,
        opacity: F,
    ) -> (redraw: Redraw)
        requires
            old(self).wf(),
            alphas.len() == old(self).tex_size * old(self).tex_size,
        ensures
            redraw == Redraw::Full,
            final(self).look_from(old(self), Look::Ao, alphas@, levels, noise, opacity),
            top_is(
                *old(self),
                *final(self),
                "AO"@,
                [0, 0, 0],
                BlendMode::Multiply,
                MapSource::Cavities,
                alphas@,
            ),
    {
        let redraw = self.apply_look(Look::Ao, alphas, levels, noise, opacity);
        proof {
            law_each_look_has_its_colour(
                *old(self),
                *self,
                Look::Ao,
                alphas@,
                levels,
                noise,
                opacity,
            );
        }
        redraw
    }

    /// Brightened convex edges: white, from the edges.
    pub fn apply_highlight_layer(
        &mut self,
        alphas: &Vec<u8>,
        levels: Levels<F>,
        noise: Option<NoiseMod<F>>,
        opacity: F,
    ) -> (redraw: Redraw)
        requires
            old(self).wf(),
            alphas.len() == old(self).tex_size * old(self).tex_size,
        ensures
            redraw == Redraw::Full,
            final(self).look_from(old(self), Look::Highlights, alphas@, levels, noise, opacity),
            top_is(
                *old(self),
                *final(self),
                "Highlights"@,
                [255, 255, 255],
                BlendMode::Normal,
                MapSource::Edges,
                alphas@,
            ),
    {
        let redraw = self.apply_look(Look::Highlights, alphas, levels, noise, opacity);
        proof {
            law_each_look_has_its_colour(
                *old(self),
                *self,
                Look::Highlights,
                alphas@,
                levels,
                noise,
                opacity,
            );
        }
        redraw
    }

    /// Grime settling into the cavities.
    pub fn apply_dirt_layer(
        &mut self,
        alphas: &Vec<u8>,
        levels: Levels<F>,
        noise: Option<NoiseMod<F>>,
        opacity: F,
    ) -> (redraw: Redraw)
        requires
            old(self).wf(),
            alphas.len() == old(self).tex_size * old(self).tex_size,
        ensures
            redraw == Redraw::Full,
            final(self).look_from(old(self), Look::Dirt, alphas@, levels, noise, opacity),
            top_is(
                *old(self),
                *final(self),
                "Dirt"@,
                [54, 42, 30],
                BlendMode::Normal,
                MapSource::Cavities,
                alphas@,
            ),
    {
        let redraw = self.apply_look(Look::Dirt, alphas, levels, noise, opacity);
        proof {
            law_each_look_has_its_colour(
                *old(self),
                *self,
                Look::Dirt,
                alphas@,
                levels,
                noise,
                opacity,
            );
        }
        redraw
    }

    /// Worn, lightened edges.
    pub fn apply_edge_wear_layer(
        &mut self,
        alphas: &Vec<u8>,
        levels: Levels<F>,
        noise: Option<NoiseMod<F>>,
        opacity: F,
    ) -> (redraw: Redraw)
        requires
            old(self).wf(),
            alphas.len() == old(self).tex_size * old(self).tex_size,
        ensures
            redraw == Redraw::Full,
            final(self).look_from(old(self), Look::EdgeWear, alphas@, levels, noise, opacity),
            top_is(
                *old(self),
                *final(self),
                "Edge wear"@,
                [205, 200, 185],
                BlendMode::Normal,
                MapSource::Edges,
                alphas@,
            ),
    {
        let redraw = self.apply_look(Look::EdgeWear, alphas, levels, noise, opacity);
        proof {
            law_each_look_has_its_colour(
                *old(self),
                *self,
                Look::EdgeWear,
                alphas@,
                levels,
                noise,
                opacity,
            );
        }
        redraw
    }

    /// Adds a generated layer that is opaque with its own colour where the mask holds. It is
    /// not remembered for presets. One undo step.
    pub fn add_gradient_layer(
        &mut self,
        name: String,
        mask: &Vec<bool>,
        colors: &Vec<[u8; 3]>,
        blend: BlendMode,
        opacity: F,
    ) -> (redraw: Redraw)
        requires
            old(self).wf(),
            mask.len() == old(self).tex_size * old(self).tex_size,
            colors.len() == mask.len(),
        ensures
            redraw == Redraw::Full,
            final(self).generated_from(old(self), name@, blend, opacity),
            final(self).same_around_doc(old(self)),
            forall|i: int|
                0 <= i < 4 * mask.len() ==> #[trigger] final(self).top_pixels()[i] == if !mask@[i
                    / 4] {
                    0
                } else if i % 4 == 3 {
                    255
                } else {
                    colors@[i / 4][i % 4]
                },
    {
        let tex = ramp_image(self.tex_size, mask, colors);
        self.doc.push_generated(name, tex, blend, opacity);
        self.buffers.bump_stroke_id();
        assert(self.doc@.stack.active_layer().tex == tex@);
        Redraw::Full
    }

    /// Replaces the active layer's reveal mask by the given levels. One undo step.
    pub fn fill_active_mask_from_map(&mut self, levels: &Vec<u8>) -> (redraw: Redraw)
        requires
            old(self).wf(),
            levels.len() == old(self).tex_size * old(self).tex_size,
        ensures
            redraw == Redraw::Full,
            final(self).wf(),
            final(self).stroke_fresh(),
            final(self).tex_size == old(self).tex_size,
            final(self).same_around_doc(old(self)),
            final(self).doc@ == old(self).doc@.checkpointed().painted(
                true,
                final(self).doc@.canvas(true),
            ),
            final(self).doc@.canvas(true).len() == 4 * levels.len(),
            forall|i: int|
                0 <= i < 4 * levels.len() ==> #[trigger] final(self).doc@.canvas(true)[i] == if i
                    % 4 == 3 {
                    255
                } else {
                    levels@[i / 4]
                },
    {
        let tex = level_image(self.tex_size, levels);
        self.doc.set_active_image(true, tex);
        self.buffers.bump_stroke_id();
        assert(self.doc@.canvas(true) == tex.pixels@);
        Redraw::Full
    }

    /// Applies a preset to the current mesh: every generated layer is made anew from this
    /// mesh's maps, each on top of the stack and an undo step of its own. `sample` reads the
    /// alphas of a layer off the maps. Where the preset names one of the built-in palettes,
    /// whatever its case, that palette becomes active. Without layers and such a palette
    /// there is nothing to draw.
    pub fn apply_preset<S: Fn(&PresetLayer<F>, u32) -> Vec<u8>>(
        &mut self,
        preset: &Preset<F>,
        builtins: &Vec<Palette<F>>,
        sample: &S,
        opacity: F,
    ) -> (redraw: Redraw)
        requires
            old(self).wf(),
            forall|l: &PresetLayer<F>, n: u32| #[trigger] sample.requires((l, n)),
            forall|l: &PresetLayer<F>, n: u32, v: Vec<u8>| #[trigger]
                sample.ensures((l, n), v) ==> v.len() == n * n,
        ensures
            redraw == preset.redraw_spec(builtins@),
            final(self).dressed_from(old(self), preset, builtins@, *sample, opacity),
    {
        let ghost recipe = preset.layers@.map_values(|l: PresetLayer<F>| l@);
        let ghost mut alphas: Seq<Seq<u8>> = Seq::empty();
        let mut i: usize = 0;
        let ghost before = *self;
        assert(before.recipe_view() =~= before.recipe_view() + recipe.take(0));
        while i < preset.layers.len()
            invariant
                i <= preset.layers.len(),
                recipe == preset.layers@.map_values(|l: PresetLayer<F>| l@),
                forall|l: &PresetLayer<F>, n: u32| #[trigger] sample.requires((l, n)),
                forall|l: &PresetLayer<F>, n: u32, v: Vec<u8>| #[trigger]
                    sample.ensures((l, n), v) ==> v.len() == n * n,
                self.wf(),
                self.tex_size == before.tex_size,
                self.same_around_doc(&Renderer { recipe: self.recipe, ..before }),
                alphas.len() == i,
                forall|k: int|
                    0 <= k < i ==> answered(
                        *sample,
                        &preset.layers@[k],
                        before.tex_size,
                        #[trigger] alphas[k],
                    ),
                self.doc@ == dressed(
                    before.doc@,
                    before.tex_size,
                    recipe,
                    alphas,
                    opacity,
                    i as int,
                ),
                self.recipe_view() == before.recipe_view() + recipe.take(i as int),
            decreases preset.layers.len() - i,
        {
            let l = &preset.layers[i];
            let v = (*sample)(l, self.tex_size);
            let r = MapRecipe {
                source: l.source,
                levels: l.levels,
                color: l.color,
                blend: l.blend,
                noise: l.noise,
            };
            let ghost prev = alphas;
            let ghost mid = *self;
            self.add_map_layer(l.name.as_str(), &v, r, opacity);
            proof {
                alphas = alphas.push(v@);
                lemma_dressed_ext(
                    before.doc@,
                    before.tex_size,
                    recipe,
                    prev,
                    alphas,
                    opacity,
                    i as int,
                );
                assert(recipe[i as int] == r.named(l.name@));
                assert(recipe.take(i as int).push(recipe[i as int]) =~= recipe.take(i + 1));
                assert(self.recipe_view() =~= before.recipe_view() + recipe.take(i + 1));
                assert forall|k: int| 0 <= k < i + 1 implies answered(
                    *sample,
                    &preset.layers@[k],
                    before.tex_size,
                    #[trigger] alphas[k],
                ) by {
                    if k < i {
                        assert(alphas[k] == prev[k]);
                    } else {
                        assert(sample.ensures((&preset.layers@[k], before.tex_size), v));
                    }
                }
            }
            i += 1;
        }
        assert(recipe.take(recipe.len() as int) =~= recipe);
        assert(sampled(*sample, preset.layers@, before.tex_size, alphas));
        let mut redraw: Redraw = if preset.layers.len() > 0 {
            Redraw::Full
        } else {
            Redraw::Keep
        };
        match &preset.palette {
            Some(name) => {
                match find_palette(builtins, name.as_str()) {
                    Some(k) => {
                        assert(same_name(builtins@[k as int].name@, name@));
                        redraw = self.set_palette(
                            builtins[k].name.clone(),
                            copy_colors(&builtins[k].colors),
                        );
                    },
                    None => {},
                }
            },
            None => {},
        }
        redraw
    }

    /// Applies a built-in preset: `found` is the one with the given name, if there is one.
    pub fn apply_builtin_preset<S: Fn(&PresetLayer<F>, u32) -> Vec<u8>>(
        &mut self,
        name: &str,
        found: Option<Preset<F>>,
        builtins: &Vec<Palette<F>>,
        sample: &S,
        opacity: F,
    ) -> (r: Result<Redraw, String>)
        requires
            old(self).wf(),
            forall|l: &PresetLayer<F>, n: u32| #[trigger] sample.requires((l, n)),
            forall|l: &PresetLayer<F>, n: u32, v: Vec<u8>| #[trigger]
                sample.ensures((l, n), v) ==> v.len() == n * n,
        ensures
            r is Ok <==> found is Some,
            r matches Ok(redraw) ==> redraw == (found->0).redraw_spec(builtins@)
                && final(self).dressed_from(
                old(self),
                &(found->0),
                builtins@,
                *sample,
                opacity,
            ),
            r matches Err(e) ==> e@ == "no built-in preset '"@ + name@ + "'"@ && *final(self)
                == *old(self),
    {
        match found {
            Some(preset) => Ok(self.apply_preset(&preset, builtins, sample, opacity)),
            None => {
                let mut e: String = "no built-in preset '".to_owned();
                e.append(name);
                e.append("'");
                Err(e)
            },
        }
    }

    /// Applies a preset that was read from a file; a file that could not be read changes
    /// nothing.
    pub fn load_and_apply_preset<S: Fn(&PresetLayer<F>, u32) -> Vec<u8>>(
        &mut self,
        read: Result<Preset<F>, String>,
        builtins: &Vec<Palette<F>>,
        sample: &S,
        opacity: F,
    ) -> (r: Result<Redraw, String>)
        requires
            old(self).wf(),
            forall|l: &PresetLayer<F>, n: u32| #[trigger] sample.requires((l, n)),
            forall|l: &PresetLayer<F>, n: u32, v: Vec<u8>| #[trigger]
                sample.ensures((l, n), v) ==> v.len() == n * n,
        ensures
            match read {
                Ok(preset) => r == Ok::<Redraw, String>(preset.redraw_spec(builtins@))
                    && final(self).dressed_from(
                    old(self),
                    &preset,
                    builtins@,
                    *sample,
                    opacity,
                ),
                Err(e) => r == Err::<Redraw, String>(e) && *final(self) == *old(self),
            },
    {
        match read {
            Ok(preset) => Ok(self.apply_preset(&preset, builtins, sample, opacity)),
            Err(e) => Err(e),
        }
    }

    /// The generated layers applied so far as a preset, with the palette's name where it is
    /// in use. Fails when nothing was generated yet.
    pub fn save_preset(&self, name: String) -> (r: Result<Preset<F>, String>)
        ensures
            r is Err <==> self.recipe@.len() == 0,
            r matches Err(e) ==> e@
                == "no generator layers to save — apply AO/Dirt/Edge-wear first"@,
            r matches Ok(p) ==> {
                &&& p.name == name
                &&& p.layers@.map_values(|l: PresetLayer<F>| l@) == self.recipe_view()
                &&& p.palette is Some <==> self.palette_settings.enabled
                &&& p.palette matches Some(n) ==> n@ == self.palette_name@
            },
    {
        if self.recipe.len() == 0 {
            return Err("no generator layers to save — apply AO/Dirt/Edge-wear first".to_owned());
        }
        let mut layers: Vec<PresetLayer<F>> = Vec::new();
        let mut i: usize = 0;
        while i < self.recipe.len()
            invariant
                i <= self.recipe.len(),
                layers.len() == i,
                forall|k: int| 0 <= k < i ==> (#[trigger] layers@[k])@ == self.recipe@[k]@,
            decreases self.recipe.len() - i,
        {
            layers.push(self.recipe[i].copied());
            i += 1;
        }
        assert(layers@.map_values(|l: PresetLayer<F>| l@) =~= self.recipe_view());
        let palette: Option<String> = if self.palette_settings.enabled {
            Some(self.palette_name.clone())
        } else {
            None
        };
        Ok(Preset { name, layers, palette })
    }
}

impl<F> Renderer<F> {
    /// A preset was applied: its layers lie on the stack and in the recipe, and its palette
    /// is active if it is one of the built-in ones, which counts as a change of its own.
    pub open spec fn dressed_from<S: Fn(&PresetLayer<F>, u32) -> Vec<u8>>(
        &self,
        before: &Renderer<F>,
        preset: &Preset<F>,
        builtins: Seq<Palette<F>>,
        sample: S,
        opacity: F,
    ) -> bool {
        let recipe = preset.layers@.map_values(|l: PresetLayer<F>| l@);
        &&& self.wf()
        &&& self.tex_size == before.tex_size
        &&& exists|alphas: Seq<Seq<u8>>| #[trigger]
            sampled(sample, preset.layers@, before.tex_size, alphas) && self.doc@ == ({
                let layered = dressed(
                    before.doc@,
                    before.tex_size,
                    recipe,
                    alphas,
                    opacity,
                    recipe.len() as int,
                );
                if preset.palette_known(builtins) {
                    layered.edited()
                } else {
                    layered
                }
            })
        &&& self.recipe_view() == before.recipe_view() + recipe
        &&& forall|k: int|
            preset.palette is Some && #[trigger] palette_named(builtins, (preset.palette->0)@, k)
                ==> self.palette_name@ == builtins[k].name@ && self.palette@
                == builtins[k].colors@
        &&& !preset.palette_known(builtins) ==> self.palette_name == before.palette_name
            && self.palette == before.palette
        &&& self.same_around_doc(
            &Renderer {
                recipe: self.recipe,
                palette_name: self.palette_name,
                palette: self.palette,
                ..*before
            },
        )
    }
}

impl<F> Renderer<F> {
    /// A one-click look was applied.
    pub open spec fn look_from(
        &self,
        before: &Renderer<F>,
        look: Look,
        alphas: Seq<u8>,
        levels: Levels<F>,
        noise: Option<NoiseMod<F>>,
        opacity: F,
    ) -> bool {
        exists|recipe: MapRecipe<F>| #[trigger]
            self.tinted_from(before, look.text(), alphas, recipe, opacity) && recipe.source
                == look.channel() && recipe.levels == levels && recipe.color@ == look.tint()
                && recipe.blend == look.mode() && recipe.noise == noise
    }
}

} // verus!
