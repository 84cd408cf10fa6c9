//! The layer stack: colour, reveal mask, blend mode and effects per layer, bottom first.

use crate::texture::{max_u32, PaintTexture};
use crate::ui::EffectKind;
use vstd::prelude::*;

verus! {

/// How a layer is laid over what is below it.
#[derive(Clone, Copy, PartialEq, Eq, Structural, Debug)]
pub enum BlendMode {
    Normal,
    Multiply,
    Add,
    Screen,
}

impl BlendMode {
    pub const ALL: [BlendMode; 4] = [
        BlendMode::Normal,
        BlendMode::Multiply,
        BlendMode::Add,
        BlendMode::Screen,
    ];

    pub open spec fn index_spec(self) -> u8 {
        match self {
            BlendMode::Normal => 0,
            BlendMode::Multiply => 1,
            BlendMode::Add => 2,
            BlendMode::Screen => 3,
        }
    }

    pub open spec fn from_index_spec(i: u8) -> BlendMode {
        match i {
            1 => BlendMode::Multiply,
            2 => BlendMode::Add,
            3 => BlendMode::Screen,
            _ => BlendMode::Normal,
        }
    }

    /// The mode's position in `ALL`.
    pub fn index(self) -> (i: u8)
        ensures
            i == self.index_spec(),
            BlendMode::ALL[i as int] == self,
    {
        match self {
            BlendMode::Normal => 0,
            BlendMode::Multiply => 1,
            BlendMode::Add => 2,
            BlendMode::Screen => 3,
        }
    }

    /// The mode at a position of `ALL`; `Normal` past its end.
    pub fn from_index(i: u8) -> (b: BlendMode)
        ensures
            b == BlendMode::from_index_spec(i),
            i < 4 ==> b == BlendMode::ALL[i as int],
    {
        match i {
            1 => BlendMode::Multiply,
            2 => BlendMode::Add,
            3 => BlendMode::Screen,
            _ => BlendMode::Normal,
        }
    }
}

/// A non-destructive filter on a layer.
#[derive(Clone, Copy, Debug)]
pub enum Effect<F> {
    HueSatLight { hue: F, sat: F, light: F },
    BrightnessContrast { brightness: F, contrast: F },
    Blur { radius: F },
    Warp { amount: F, scale: F },
}

/// The stored form of an effect.
#[derive(Clone, Copy, Debug)]
pub enum EffectDoc<F> {
    HueSatLight { hue: F, sat: F, light: F },
    BrightnessContrast { brightness: F, contrast: F },
    Blur { radius: F },
    Warp { amount: F, scale: F },
}

pub open spec fn effect_doc<F>(fx: Effect<F>) -> EffectDoc<F> {
    match fx {
        Effect::HueSatLight { hue, sat, light } => EffectDoc::HueSatLight { hue, sat, light },
        Effect::BrightnessContrast { brightness, contrast } => EffectDoc::BrightnessContrast {
            brightness,
            contrast,
        },
        Effect::Blur { radius } => EffectDoc::Blur { radius },
        Effect::Warp { amount, scale } => EffectDoc::Warp { amount, scale },
    }
}

pub open spec fn doc_effect<F>(doc: EffectDoc<F>) -> Effect<F> {
    match doc {
        EffectDoc::HueSatLight { hue, sat, light } => Effect::HueSatLight { hue, sat, light },
        EffectDoc::BrightnessContrast { brightness, contrast } => Effect::BrightnessContrast {
            brightness,
            contrast,
        },
        EffectDoc::Blur { radius } => Effect::Blur { radius },
        EffectDoc::Warp { amount, scale } => Effect::Warp { amount, scale },
    }
}

/// The stored form of a live effect.
pub fn effect_to_doc<F: Copy>(fx: &Effect<F>) -> (doc: EffectDoc<F>)
    ensures
        doc == effect_doc(*fx),
{
    match *fx {
        Effect::HueSatLight { hue, sat, light } => EffectDoc::HueSatLight { hue, sat, light },
        Effect::BrightnessContrast { brightness, contrast } => EffectDoc::BrightnessContrast {
            brightness,
            contrast,
        },
        Effect::Blur { radius } => EffectDoc::Blur { radius },
        Effect::Warp { amount, scale } => EffectDoc::Warp { amount, scale },
    }
}

/// The live effect of a stored one.
pub fn doc_to_effect<F: Copy>(doc: &EffectDoc<F>) -> (fx: Effect<F>)
    ensures
        fx == doc_effect(*doc),
{
    match *doc {
        EffectDoc::HueSatLight { hue, sat, light } => Effect::HueSatLight { hue, sat, light },
        EffectDoc::BrightnessContrast { brightness, contrast } => Effect::BrightnessContrast {
            brightness,
            contrast,
        },
        EffectDoc::Blur { radius } => Effect::Blur { radius },
        EffectDoc::Warp { amount, scale } => Effect::Warp { amount, scale },
    }
}

/// Storing an effect and reading it back gives the same effect, and the other way round.
pub proof fn law_effects_survive_storage<F>(fx: Effect<F>, doc: EffectDoc<F>)
    ensures
        doc_effect(effect_doc(fx)) == fx,
        effect_doc(doc_effect(doc)) == doc,
{
}

/// What an image holds.
#[verifier::ext_equal]
pub struct TexModel {
    pub width: u32,
    pub height: u32,
    pub pixels: Seq<u8>,
}

impl View for PaintTexture {
    type V = TexModel;

    open spec fn view(&self) -> TexModel {
        TexModel { width: self.width, height: self.height, pixels: self.pixels@ }
    }
}

/// Something done to a layer that its automatic name tells of.
#[derive(Clone, Copy, PartialEq, Eq, Structural, Debug)]
pub enum LayerOp {
    Stroke,
    Stamp,
    Fill,
    Material,
    Effect(EffectKind),
}

impl LayerOp {
    /// The word that the automatic name has for it. Effects bring their own.
    pub fn text(self) -> (s: Option<&'static str>)
        ensures
            self is Effect <==> s is None,
            self is Stroke ==> (s->0)@ == "Stroke"@,
            self is Stamp ==> (s->0)@ == "Stamp"@,
            self is Fill ==> (s->0)@ == "Fill"@,
            self is Material ==> (s->0)@ == "Material"@,
    {
        match self {
            LayerOp::Stroke => Some("Stroke"),
            LayerOp::Stamp => Some("Stamp"),
            LayerOp::Fill => Some("Fill"),
            LayerOp::Material => Some("Material"),
            LayerOp::Effect(_) => None,
        }
    }
}

impl<F> Effect<F> {
    pub open spec fn kind_spec(self) -> EffectKind {
        match self {
            Effect::HueSatLight { hue, sat, light } => EffectKind::HueSatLight,
            Effect::BrightnessContrast { brightness, contrast } => EffectKind::BrightnessContrast,
            Effect::Blur { radius } => EffectKind::Blur,
            Effect::Warp { amount, scale } => EffectKind::Warp,
        }
    }

    pub fn kind(&self) -> (k: EffectKind)
        ensures
            k == self.kind_spec(),
    {
        match self {
            Effect::HueSatLight { .. } => EffectKind::HueSatLight,
            Effect::BrightnessContrast { .. } => EffectKind::BrightnessContrast,
            Effect::Blur { .. } => EffectKind::Blur,
            Effect::Warp { .. } => EffectKind::Warp,
        }
    }
}

/// How a layer came by its name: what was done to it so far, and whether the user named it,
/// which ends automatic naming.
#[derive(Debug)]
pub struct Naming {
    pub ops: Vec<LayerOp>,
    pub renamed: bool,
}

/// What a naming holds.
#[verifier::ext_equal]
pub struct NamingModel {
    pub ops: Seq<LayerOp>,
    pub renamed: bool,
}

impl View for Naming {
    type V = NamingModel;

    open spec fn view(&self) -> NamingModel {
        NamingModel { ops: self.ops@, renamed: self.renamed }
    }
}

/// Nothing was done yet.
pub open spec fn unnamed() -> NamingModel {
    NamingModel { ops: Seq::empty(), renamed: false }
}

impl Naming {
    pub fn new() -> (n: Naming)
        ensures
            n@ == unnamed(),
    {
        let n = Naming { ops: Vec::new(), renamed: false };
        assert(n@.ops =~= Seq::empty());
        n
    }

    /// A copy with the same contents.
    pub fn copied(&self) -> (n: Naming)
        ensures
            n@ == self@,
    {
        let mut ops: Vec<LayerOp> = Vec::new();
        let mut i: usize = 0;
        while i < self.ops.len()
            invariant
                i <= self.ops.len(),
                ops.len() == i,
                forall|k: int| 0 <= k < i ==> #[trigger] ops@[k] == self.ops@[k],
            decreases self.ops.len() - i,
        {
            ops.push(self.ops[i]);
            i += 1;
        }
        assert(ops@ =~= self.ops@);
        Naming { ops, renamed: self.renamed }
    }
}

/// One layer of the stack.
#[derive(Debug)]
pub struct Layer<F> {
    pub name: String,
    pub naming: Naming,
    pub tex: PaintTexture,
    pub mask: PaintTexture,
    pub visible: bool,
    pub opacity: F,
    pub blend: BlendMode,
    pub effects: Vec<Effect<F>>,
}

/// What a layer holds.
#[verifier::ext_equal]
pub struct LayerModel<F> {
    pub name: Seq<char>,
    pub naming: NamingModel,
    pub tex: TexModel,
    pub mask: TexModel,
    pub visible: bool,
    pub opacity: F,
    pub blend: BlendMode,
    pub effects: Seq<Effect<F>>,
}

impl<F> View for Layer<F> {
    type V = LayerModel<F>;

    open spec fn view(&self) -> LayerModel<F> {
        LayerModel {
            name: self.name@,
            naming: self.naming@,
            tex: self.tex@,
            mask: self.mask@,
            visible: self.visible,
            opacity: self.opacity,
            blend: self.blend,
            effects: self.effects@,
        }
    }
}

impl<F> LayerModel<F> {
    /// Colour and mask are images of `size` by `size` texels.
    pub open spec fn sized(self, size: u32) -> bool {
        &&& self.tex.width == size && self.tex.height == size
        &&& self.mask.width == size && self.mask.height == size
        &&& self.tex.pixels.len() == size * size * 4
        &&& self.mask.pixels.len() == size * size * 4
    }

    /// The layer after one more thing was done to it. Under a name of the user's nothing is
    /// noted any more.
    pub open spec fn noted(self, op: LayerOp) -> LayerModel<F> {
        if self.naming.renamed {
            self
        } else {
            LayerModel {
                naming: NamingModel { ops: self.naming.ops.push(op), ..self.naming },
                ..self
            }
        }
    }

    /// The layer after an automatic name was given to it. A name of the user's stays.
    pub open spec fn auto_named(self, name: Seq<char>) -> LayerModel<F> {
        if self.naming.renamed {
            self
        } else {
            LayerModel { name: name, ..self }
        }
    }

    /// The layer with a name of the user's.
    pub open spec fn renamed(self, name: Seq<char>) -> LayerModel<F> {
        LayerModel { name: name, naming: NamingModel { renamed: true, ..self.naming }, ..self }
    }
}

impl<F: Copy> Layer<F> {
    /// A copy with the same contents.
    pub fn copied(&self) -> (l: Layer<F>)
        ensures
            l@ == self@,
    {
        let mut effects: Vec<Effect<F>> = Vec::new();
        let mut i: usize = 0;
        while i < self.effects.len()
            invariant
                i <= self.effects.len(),
                effects.len() == i,
                forall|k: int| 0 <= k < i ==> #[trigger] effects@[k] == self.effects@[k],
            decreases self.effects.len() - i,
        {
            effects.push(self.effects[i]);
            i += 1;
        }
        assert(effects@ =~= self.effects@);
        Layer {
            name: self.name.clone(),
            naming: self.naming.copied(),
            tex: self.tex.copied(),
            mask: self.mask.copied(),
            visible: self.visible,
            opacity: self.opacity,
            blend: self.blend,
            effects,
        }
    }
}

/// The layers of a document, bottom first, and which of them is painted on.
#[derive(Debug)]
pub struct Layers<F> {
    pub layers: Vec<Layer<F>>,
    pub active: usize,
}

/// What a stack holds.
#[verifier::ext_equal]
pub struct StackModel<F> {
    pub layers: Seq<LayerModel<F>>,
    pub active: int,
}

impl<F> View for Layers<F> {
    type V = StackModel<F>;

    open spec fn view(&self) -> StackModel<F> {
        StackModel {
            layers: Seq::new(self.layers@.len(), |i: int| self.layers@[i]@),
            active: self.active as int,
        }
    }
}

pub open spec fn lesser(a: int, b: int) -> int {
    if a < b {
        a
    } else {
        b
    }
}

/// An opaque white reveal mask: everything shows.
pub open spec fn white_mask(size: u32) -> TexModel {
    TexModel { width: size, height: size, pixels: Seq::new((size * size * 4) as nat, |i: int| 255u8) }
}

/// A fully transparent colour image.
pub open spec fn clear_image(size: u32) -> TexModel {
    TexModel { width: size, height: size, pixels: Seq::new((size * size * 4) as nat, |i: int| 0u8) }
}

impl<F> StackModel<F> {
    /// The stack has a layer, one of its layers is active, and all have one size.
    pub open spec fn wf(self, size: u32) -> bool {
        &&& 0 <= self.active < self.layers.len()
        &&& forall|i: int| 0 <= i < self.layers.len() ==> (#[trigger] self.layers[i]).sized(size)
    }

    pub open spec fn active_layer(self) -> LayerModel<F> {
        self.layers[self.active]
    }

    /// The stack with one more layer on top, which becomes active.
    pub open spec fn pushed(self, l: LayerModel<F>) -> StackModel<F> {
        StackModel { layers: self.layers.push(l), active: self.layers.len() as int }
    }

    /// The stack without its active layer; the one that takes its place, or the new top,
    /// becomes active.
    pub open spec fn removed(self) -> StackModel<F> {
        StackModel {
            layers: self.layers.remove(self.active),
            active: lesser(self.active, self.layers.len() - 2),
        }
    }

    /// The stack with the active layer and the one beneath it replaced by one layer that
    /// keeps the lower one's settings.
    pub open spec fn merged(self, tex: TexModel, mask: TexModel) -> StackModel<F> {
        let below = self.layers[self.active - 1];
        StackModel {
            layers: self.layers.remove(self.active).update(
                self.active - 1,
                (LayerModel {
                    name: below.name,
                    naming: below.naming,
                    tex: tex,
                    mask: mask,
                    visible: below.visible,
                    opacity: below.opacity,
                    blend: below.blend,
                    effects: below.effects,
                }),
            ),
            active: self.active - 1,
        }
    }

    /// The stack with the active layer swapped with the one above (`up`) or below it; the
    /// active layer stays active. At the end of the stack nothing moves.
    pub open spec fn moved(self, up: bool) -> StackModel<F> {
        if up && self.active + 1 < self.layers.len() {
            self.swapped(self.active + 1)
        } else if !up && self.active > 0 {
            self.swapped(self.active - 1)
        } else {
            self
        }
    }

    pub open spec fn swapped(self, to: int) -> StackModel<F> {
        StackModel {
            layers: self.layers.update(self.active, self.layers[to]).update(
                to,
                self.layers[self.active],
            ),
            active: to,
        }
    }
}

/// The answers of `resample` all agree with the function `f` of image and size.
pub open spec fn resample_agrees<R: Fn(&PaintTexture, u32) -> PaintTexture>(
    resample: R,
    f: spec_fn(TexModel, u32) -> TexModel,
) -> bool {
    forall|t: &PaintTexture, n: u32, out: PaintTexture| #[trigger]
        resample.ensures((t, n), out) ==> out@ == f(t@, n)
}

/// `resample` takes every image and gives a square one of the size asked for.
pub open spec fn resamples<R: Fn(&PaintTexture, u32) -> PaintTexture>(resample: R) -> bool {
    &&& forall|t: &PaintTexture, n: u32| #[trigger] resample.requires((t, n))
    &&& forall|t: &PaintTexture, n: u32, out: PaintTexture| #[trigger]
        resample.ensures((t, n), out) ==> out.width == n && out.height == n && out.pixels.len() == n
            * n * 4
}

/// `to` is an answer of `resample` for the image `from` and the size `n`.
pub open spec fn answers<R: Fn(&PaintTexture, u32) -> PaintTexture>(
    resample: R,
    from: TexModel,
    n: u32,
    to: TexModel,
) -> bool {
    exists|t: PaintTexture, out: PaintTexture| #[trigger]
        resample.ensures((&t, n), out) && t@ == from && out@ == to
}

impl<F> LayerModel<F> {
    /// The layer with both images resampled.
    pub open spec fn resized(self, f: spec_fn(TexModel, u32) -> TexModel, n: u32) -> LayerModel<F> {
        LayerModel { tex: f(self.tex, n), mask: f(self.mask, n), ..self }
    }
}

impl<F> StackModel<F> {
    /// The stack with every image resampled.
    pub open spec fn resized(self, f: spec_fn(TexModel, u32) -> TexModel, n: u32) -> StackModel<F> {
        StackModel {
            layers: self.layers.map_values(|l: LayerModel<F>| l.resized(f, n)),
            active: self.active,
        }
    }
}

impl<F: Copy> Layers<F> {
    /// The stack with every image resampled to `n` by `n`.
    pub fn resized<R: Fn(&PaintTexture, u32) -> PaintTexture>(&self, n: u32, resample: &R) -> (s:
        Layers<F>)
        requires
            resamples(*resample),
        ensures
            s@.layers.len() == self@.layers.len(),
            s@.active == self@.active,
            forall|i: int| 0 <= i < s@.layers.len() ==> (#[trigger] s@.layers[i]).sized(n),
            forall|f: spec_fn(TexModel, u32) -> TexModel| #[trigger]
                resample_agrees(*resample, f) ==> s@ == self@.resized(f, n),
            forall|i: int|
                0 <= i < s@.layers.len() ==> answers(
                    *resample,
                    self@.layers[i].tex,
                    n,
                    (#[trigger] s@.layers[i]).tex,
                ) && answers(*resample, self@.layers[i].mask, n, s@.layers[i].mask),
            forall|i: int|
                0 <= i < s@.layers.len() ==> (LayerModel {
                    tex: self@.layers[i].tex,
                    mask: self@.layers[i].mask,
                    ..#[trigger] s@.layers[i]
                }) == self@.layers[i],
    {
        let mut layers: Vec<Layer<F>> = Vec::new();
        let mut i: usize = 0;
        while i < self.layers.len()
            invariant
                resamples(*resample),
                i <= self.layers.len(),
                layers.len() == i,
                forall|k: int| 0 <= k < i ==> (#[trigger] layers@[k])@.sized(n),
                forall|k: int|
                    0 <= k < i ==> answers(
                        *resample,
                        self.layers@[k]@.tex,
                        n,
                        (#[trigger] layers@[k])@.tex,
                    ) && answers(*resample, self.layers@[k]@.mask, n, layers@[k]@.mask),
                forall|k: int|
                    0 <= k < i ==> (LayerModel {
                        tex: self.layers@[k]@.tex,
                        mask: self.layers@[k]@.mask,
                        ..(#[trigger] layers@[k])@
                    }) == self.layers@[k]@,
                forall|k: int, f: spec_fn(TexModel, u32) -> TexModel|
                    0 <= k < i && #[trigger] resample_agrees(*resample, f) ==> (
                    #[trigger] layers@[k])@ == self.layers@[k]@.resized(f, n),
            decreases self.layers.len() - i,
        {
            let mut l = self.layers[i].copied();
            let tex = (*resample)(&self.layers[i].tex, n);
            let mask = (*resample)(&self.layers[i].mask, n);
            assert(resample.ensures((&self.layers@[i as int].tex, n), tex));
            assert(resample.ensures((&self.layers@[i as int].mask, n), mask));
            l.tex = tex;
            l.mask = mask;
            layers.push(l);
            i += 1;
        }
        let s = Layers { layers, active: self.active };
        proof {
            assert forall|f: spec_fn(TexModel, u32) -> TexModel| #[trigger]
                resample_agrees(*resample, f) implies s@ == self@.resized(f, n) by {
                assert(s@.layers =~= self@.resized(f, n).layers);
            }
        }
        s
    }
}

impl<F: Copy> Layers<F> {
    /// A copy with the same contents.
    pub fn copied(&self) -> (s: Layers<F>)
        ensures
            s@ == self@,
            s.layers.len() == self.layers.len(),
    {
        let mut layers: Vec<Layer<F>> = Vec::new();
        let mut i: usize = 0;
        while i < self.layers.len()
            invariant
                i <= self.layers.len(),
                layers.len() == i,
                forall|k: int| 0 <= k < i ==> (#[trigger] layers@[k])@ == self.layers@[k]@,
            decreases self.layers.len() - i,
        {
            layers.push(self.layers[i].copied());
            i += 1;
        }
        let s = Layers { layers, active: self.active };
        assert(s@.layers =~= self@.layers);
        s
    }

    /// Puts an empty layer on top and makes it active: transparent colour, everything
    /// revealed, visible, blended normally, with no effects.
    pub fn add_layer(&mut self, name: String, size: u32, opacity: F)
        requires
            size * size * 4 <= u32::MAX,
        ensures
            final(self)@ == old(self)@.pushed(
                (LayerModel {
                    name: name@,
                    naming: unnamed(),
                    tex: clear_image(size),
                    mask: white_mask(size),
                    visible: true,
                    opacity: opacity,
                    blend: BlendMode::Normal,
                    effects: Seq::empty(),
                }),
            ),
    {
        let tex = PaintTexture::new(size, size, [0, 0, 0, 0]);
        self.push_generated(name, tex, BlendMode::Normal, opacity);
        assert(self@.layers.last().tex.pixels =~= clear_image(size).pixels);
        assert(self@.layers =~= old(self)@.layers.push(self@.layers.last()));
    }

    /// Puts a ready-made colour image on top as a new active layer with everything
    /// revealed.
    pub fn push_generated(&mut self, name: String, tex: PaintTexture, blend: BlendMode, opacity: F)
        requires
            tex.width == tex.height,
            tex.width * tex.width * 4 <= u32::MAX,
        ensures
            final(self)@ == old(self)@.pushed(
                (LayerModel {
                    name: name@,
                    naming: unnamed(),
                    tex: tex@,
                    mask: white_mask(tex.width),
                    visible: true,
                    opacity: opacity,
                    blend: blend,
                    effects: Seq::empty(),
                }),
            ),
    {
        let mask = PaintTexture::new(tex.width, tex.width, [255, 255, 255, 255]);
        assert(mask@.pixels =~= white_mask(tex.width).pixels);
        let effects: Vec<Effect<F>> = Vec::new();
        let ghost before = self@;
        let naming = Naming::new();
        let l = Layer { name, naming, tex, mask, visible: true, opacity, blend, effects };
        let ghost lm = l@;
        self.layers.push(l);
        self.active = self.layers.len() - 1;
        proof {
            assert(lm.effects =~= Seq::empty());
            assert(self@.layers =~= before.layers.push(lm));
        }
    }

    /// Takes the active layer out; on the last layer nothing happens.
    pub fn remove_active(&mut self)
        requires
            old(self).active < old(self).layers.len(),
        ensures
            final(self)@ == if old(self).layers.len() <= 1 {
                old(self)@
            } else {
                old(self)@.removed()
            },
    {
        let n: usize = self.layers.len();
        if n <= 1 {
            return;
        }
        let ghost before = self@;
        self.layers.remove(self.active);
        if self.active > n - 2 {
            self.active = n - 2;
        }
        assert(self@.layers =~= before.removed().layers);
    }

    /// Merges the active layer into the one beneath it, whose colour and mask become the
    /// given images; on the bottom layer nothing happens.
    pub fn merge_active_down(&mut self, tex: PaintTexture, mask: PaintTexture)
        requires
            old(self).active < old(self).layers.len(),
        ensures
            final(self)@ == if old(self).active == 0 {
                old(self)@
            } else {
                old(self)@.merged(tex@, mask@)
            },
    {
        if self.active == 0 {
            return;
        }
        let ghost before = self@;
        let a: usize = self.active;
        self.layers.remove(a);
        let below = self.layers.remove(a - 1);
        let l = Layer {
            name: below.name,
            naming: below.naming,
            tex,
            mask,
            visible: below.visible,
            opacity: below.opacity,
            blend: below.blend,
            effects: below.effects,
        };
        self.layers.insert(a - 1, l);
        self.active = a - 1;
        assert(self@.layers =~= before.merged(tex@, mask@).layers);
    }

    /// Swaps the active layer with its neighbour above or below, if it has one.
    pub fn move_active(&mut self, up: bool)
        requires
            old(self).active < old(self).layers.len(),
        ensures
            final(self)@ == old(self)@.moved(up),
    {
        let a: usize = self.active;
        if up && a + 1 < self.layers.len() {
            self.swap_with(a + 1);
        } else if !up && a > 0 {
            self.swap_with(a - 1);
        }
    }

    fn swap_with(&mut self, to: usize)
        requires
            old(self).active < old(self).layers.len(),
            to < old(self).layers.len(),
            to == old(self).active + 1 || to + 1 == old(self).active,
        ensures
            final(self)@ == old(self)@.swapped(to as int),
    {
        let ghost before = self@;
        let a: usize = self.active;
        let l = self.layers.remove(a);
        self.layers.insert(to, l);
        self.active = to;
        assert(self@.layers =~= before.swapped(to as int).layers);
    }
}

/// The answers of `shows` all agree with the function `f` of opacity.
pub open spec fn shows_agrees<F, T: Fn(F) -> bool>(shows: T, f: spec_fn(F) -> bool) -> bool {
    forall|x: F, out: bool| #[trigger] shows.ensures((x,), out) ==> out == f(x)
}

/// The answers of `spread` all agree with the function `g` of an effect.
pub open spec fn spread_agrees<F, S: Fn(&Effect<F>) -> u32>(
    spread: S,
    g: spec_fn(Effect<F>) -> u32,
) -> bool {
    forall|fx: &Effect<F>, out: u32| #[trigger] spread.ensures((fx,), out) ==> out == g(*fx)
}

/// The largest spread of the first `k` effects, zero without any.
pub open spec fn widest<F>(effects: Seq<Effect<F>>, g: spec_fn(Effect<F>) -> u32, k: int) -> u32
    decreases k,
{
    if k <= 0 {
        0
    } else {
        max_u32(widest(effects, g, k - 1), g(effects[k - 1]))
    }
}

impl<F> StackModel<F> {
    /// The largest spread in the first `k` layers: hidden and fully transparent layers do
    /// not count.
    pub open spec fn spread(
        self,
        f: spec_fn(F) -> bool,
        g: spec_fn(Effect<F>) -> u32,
        k: int,
    ) -> u32
        decreases k,
    {
        if k <= 0 {
            0
        } else {
            let l = self.layers[k - 1];
            let before = self.spread(f, g, k - 1);
            if l.visible && f(l.opacity) {
                max_u32(before, widest(l.effects, g, l.effects.len() as int))
            } else {
                before
            }
        }
    }
}

impl<F: Copy> Layers<F> {
    /// How far a change of one texel can reach through the effects of what is shown.
    /// `shows` tells an opacity that shows anything, `spread` the reach of an effect.
    pub fn effect_spread<T: Fn(F) -> bool, S: Fn(&Effect<F>) -> u32>(
        &self,
        shows: &T,
        spread: &S,
    ) -> (n: u32)
        requires
            forall|x: F| #[trigger] shows.requires((x,)),
            forall|fx: &Effect<F>| #[trigger] spread.requires((fx,)),
        ensures
            forall|f: spec_fn(F) -> bool, g: spec_fn(Effect<F>) -> u32|
                #![trigger shows_agrees(*shows, f), spread_agrees(*spread, g)]
                shows_agrees(*shows, f) && spread_agrees(*spread, g) ==> n == self@.spread(
                    f,
                    g,
                    self@.layers.len() as int,
                ),
    {
        let mut n: u32 = 0;
        let mut i: usize = 0;
        while i < self.layers.len()
            invariant
                i <= self.layers.len(),
                forall|x: F| #[trigger] shows.requires((x,)),
                forall|fx: &Effect<F>| #[trigger] spread.requires((fx,)),
                forall|f: spec_fn(F) -> bool, g: spec_fn(Effect<F>) -> u32|
                    #![trigger shows_agrees(*shows, f), spread_agrees(*spread, g)]
                    shows_agrees(*shows, f) && spread_agrees(*spread, g) ==> n == self@.spread(
                        f,
                        g,
                        i as int,
                    ),
            decreases self.layers.len() - i,
        {
            let l = &self.layers[i];
            assert(self@.layers[i as int] == l@);
            let opaque: bool = (*shows)(l.opacity);
            if l.visible && opaque {
                let m: u32 = widest_effect(&l.effects, spread);
                if m > n {
                    n = m;
                }
            }
            i += 1;
        }
        n
    }
}

fn widest_effect<F: Copy, S: Fn(&Effect<F>) -> u32>(effects: &Vec<Effect<F>>, spread: &S) -> (n: u32)
    requires
        forall|fx: &Effect<F>| #[trigger] spread.requires((fx,)),
    ensures
        forall|g: spec_fn(Effect<F>) -> u32| #[trigger]
            spread_agrees(*spread, g) ==> n == widest(effects@, g, effects.len() as int),
{
    let mut n: u32 = 0;
    let mut k: usize = 0;
    while k < effects.len()
        invariant
            k <= effects.len(),
            forall|fx: &Effect<F>| #[trigger] spread.requires((fx,)),
            forall|g: spec_fn(Effect<F>) -> u32| #[trigger]
                spread_agrees(*spread, g) ==> n == widest(effects@, g, k as int),
        decreases effects.len() - k,
    {
        let m: u32 = (*spread)(&effects[k]);
        if m > n {
            n = m;
        }
        k += 1;
    }
    n
}

} // verus!
