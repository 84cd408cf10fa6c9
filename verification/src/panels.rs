//! The sections of the control panel: what each does with the user's input.

use crate::layers::{BlendMode, Effect};
use crate::looks::{Levels, MapSource, NoiseMod};
use crate::renderer::TextureFilter;
use crate::ui::{
    BrushActions, CanvasPanel, EditActions, EffectActions, EffectKind, FileActions, LayerActions,
    LayerPanel, MeshActions, MeshPanel, PaintPanel, PaletteActions, PalettePanel, Thumb, Tool, Tune,
    UiActions, UiState, UnwrapActions, UvEvent, UvPanel, ViewPanel,
};
use crate::unwrap::Density;
use vstd::prelude::*;

verus! {

/// The File menu.
#[derive(Clone, Copy, PartialEq, Eq, Structural, Debug)]
pub enum FileItem {
    OpenModel,
    OpenImage,
    SavePng,
    ExportIndexed,
    ExportRgba,
    ExportMesh,
    SaveProject,
    SaveProjectAs,
    OpenProject,
}

/// The Edit menu.
#[derive(Clone, Copy, PartialEq, Eq, Structural, Debug)]
pub enum EditItem {
    Undo,
    Redo,
    CleanSeams,
}

/// The Mesh menu.
#[derive(Clone, Copy, Debug)]
pub enum MeshItem<F> {
    Density(Density),
    Overlap(bool),
    UnwrapPreset,
    TexelsPerM(F),
    UnwrapAtDensity,
}

/// The view controls of the menu bar.
#[derive(Clone, Copy, Debug)]
pub enum ViewItem<F> {
    Background([F; 3]),
    Grid(bool),
    Filter(TextureFilter),
}

/// A choice in the menu bar.
#[derive(Clone, Copy, Debug)]
pub enum MenuItem<F> {
    File(FileItem),
    Edit(EditItem),
    Mesh(MeshItem<F>),
    View(ViewItem<F>),
}

pub open spec fn file_chosen(a: FileActions, item: FileItem) -> FileActions {
    match item {
        FileItem::OpenModel => FileActions { open_model: true, ..a },
        FileItem::OpenImage => FileActions { open_texture: true, ..a },
        FileItem::SavePng => FileActions { save_png: true, ..a },
        FileItem::ExportIndexed => FileActions { export_png: Some(true), ..a },
        FileItem::ExportRgba => FileActions { export_png: Some(false), ..a },
        FileItem::ExportMesh => FileActions { export_obj: true, ..a },
        FileItem::SaveProject => FileActions { quicksave: true, ..a },
        FileItem::SaveProjectAs => FileActions { save_project: true, ..a },
        FileItem::OpenProject => FileActions { open_project: true, ..a },
    }
}

/// Undo and redo are only there to choose while there is something to undo or redo.
pub open spec fn edit_chosen(
    a: EditActions,
    can_undo: bool,
    can_redo: bool,
    item: EditItem,
) -> EditActions {
    match item {
        EditItem::Undo => EditActions { undo: a.undo || can_undo, ..a },
        EditItem::Redo => EditActions { redo: a.redo || can_redo, ..a },
        EditItem::CleanSeams => EditActions { clean_seams: true, ..a },
    }
}

pub open spec fn mesh_chosen<F>(
    c: CanvasPanel<F>,
    a: UnwrapActions<F>,
    item: MeshItem<F>,
) -> (CanvasPanel<F>, UnwrapActions<F>) {
    match item {
        MeshItem::Density(d) => (CanvasPanel { unwrap_density: d, ..c }, a),
        MeshItem::Overlap(on) => (CanvasPanel { unwrap_overlap: on, ..c }, a),
        MeshItem::UnwrapPreset => (c, UnwrapActions { unwrap: Some(c.unwrap_density), ..a }),
        MeshItem::TexelsPerM(n) => (CanvasPanel { unwrap_texels_per_m: n, ..c }, a),
        MeshItem::UnwrapAtDensity => (
            c,
            UnwrapActions { unwrap_at_density: Some(c.unwrap_texels_per_m), ..a },
        ),
    }
}

pub open spec fn view_chosen<F>(v: ViewPanel<F>, item: ViewItem<F>) -> ViewPanel<F> {
    match item {
        ViewItem::Background(c) => ViewPanel { bg_color: c, ..v },
        ViewItem::Grid(on) => ViewPanel { show_grid: on, ..v },
        ViewItem::Filter(f) => ViewPanel { texture_filter: f, ..v },
    }
}

impl FileActions {
    fn pick(&mut self, item: FileItem)
        ensures
            *final(self) == file_chosen(*old(self), item),
    {
        match item {
            FileItem::OpenModel => {
                self.open_model = true;
            },
            FileItem::OpenImage => {
                self.open_texture = true;
            },
            FileItem::SavePng => {
                self.save_png = true;
            },
            FileItem::ExportIndexed => {
                self.export_png = Some(true);
            },
            FileItem::ExportRgba => {
                self.export_png = Some(false);
            },
            FileItem::ExportMesh => {
                self.export_obj = true;
            },
            FileItem::SaveProject => {
                self.quicksave = true;
            },
            FileItem::SaveProjectAs => {
                self.save_project = true;
            },
            FileItem::OpenProject => {
                self.open_project = true;
            },
        }
    }
}

impl EditActions {
    fn pick(&mut self, can_undo: bool, can_redo: bool, item: EditItem)
        ensures
            *final(self) == edit_chosen(*old(self), can_undo, can_redo, item),
    {
        match item {
            EditItem::Undo => {
                if can_undo {
                    self.undo = true;
                }
            },
            EditItem::Redo => {
                if can_redo {
                    self.redo = true;
                }
            },
            EditItem::CleanSeams => {
                self.clean_seams = true;
            },
        }
    }
}

fn pick_mesh<F: Copy>(c: &mut CanvasPanel<F>, a: &mut UnwrapActions<F>, item: MeshItem<F>)
    ensures
        (*final(c), *final(a)) == mesh_chosen(*old(c), *old(a), item),
{
    match item {
        MeshItem::Density(d) => {
            c.unwrap_density = d;
        },
        MeshItem::Overlap(on) => {
            c.unwrap_overlap = on;
        },
        MeshItem::UnwrapPreset => {
            a.unwrap = Some(c.unwrap_density);
        },
        MeshItem::TexelsPerM(n) => {
            c.unwrap_texels_per_m = n;
        },
        MeshItem::UnwrapAtDensity => {
            a.unwrap_at_density = Some(c.unwrap_texels_per_m);
        },
    }
}

impl<F: Copy> ViewPanel<F> {
    fn pick(&mut self, item: ViewItem<F>)
        ensures
            *final(self) == view_chosen(*old(self), item),
    {
        match item {
            ViewItem::Background(c) => {
                self.bg_color = c;
            },
            ViewItem::Grid(on) => {
                self.show_grid = on;
            },
            ViewItem::Filter(f) => {
                self.texture_filter = f;
            },
        }
    }
}

/// The panel after a choice in the menu bar.
pub open spec fn menu_chosen<F, P>(s: UiState<F, P>, item: MenuItem<F>) -> UiState<F, P> {
    match item {
        MenuItem::File(i) => UiState {
            actions: UiActions { file: file_chosen(s.actions.file, i), ..s.actions },
            ..s
        },
        MenuItem::Edit(i) => UiState {
            actions: UiActions {
                edit: edit_chosen(s.actions.edit, s.layer.can_undo, s.layer.can_redo, i),
                ..s.actions
            },
            ..s
        },
        MenuItem::Mesh(i) => UiState {
            canvas: mesh_chosen(s.canvas, s.actions.unwrap, i).0,
            actions: UiActions {
                unwrap: mesh_chosen(s.canvas, s.actions.unwrap, i).1,
                ..s.actions
            },
            ..s
        },
        MenuItem::View(i) => UiState { view: view_chosen(s.view, i), ..s },
    }
}

impl<F: Copy, P: Copy> UiState<F, P> {
    /// A choice in the menu bar.
    pub fn menu_bar(&mut self, item: MenuItem<F>)
        ensures
            *final(self) == menu_chosen(*old(self), item),
    {
        match item {
            MenuItem::File(i) => {
                self.actions.file.pick(i);
            },
            MenuItem::Edit(i) => {
                self.actions.edit.pick(self.layer.can_undo, self.layer.can_redo, i);
            },
            MenuItem::Mesh(i) => {
                pick_mesh(&mut self.canvas, &mut self.actions.unwrap, i);
            },
            MenuItem::View(i) => {
                self.view.pick(i);
            },
        }
    }
}

/// The requests after a click on one of the buttons over the layer list.
pub open spec fn header_clicked<F>(a: LayerActions<F>, clicked: Option<usize>) -> LayerActions<F> {
    match clicked {
        Some(0) => LayerActions { add_layer: true, ..a },
        Some(1) => LayerActions { remove_layer: true, ..a },
        Some(2) => LayerActions { move_layer_up: true, ..a },
        Some(3) => LayerActions { move_layer_down: true, ..a },
        Some(4) => LayerActions { merge_layer_down: true, ..a },
        _ => a,
    }
}

impl<F: Copy> LayerActions<F> {
    /// The buttons over the layer list: add, delete, up, down, merge down.
    pub fn layers_header(&mut self, clicked: Option<usize>)
        ensures
            *final(self) == header_clicked(*old(self), clicked),
    {
        match clicked {
            Some(0) => {
                self.add_layer = true;
            },
            Some(1) => {
                self.remove_layer = true;
            },
            Some(2) => {
                self.move_layer_up = true;
            },
            Some(3) => {
                self.move_layer_down = true;
            },
            Some(4) => {
                self.merge_layer_down = true;
            },
            _ => {},
        }
    }

    /// What the user did to row `index` of the layer list: a click on its visibility box,
    /// which is then at the given value, and a click on its name.
    pub fn layers_list(&mut self, index: usize, visible: Option<bool>, clicked: bool)
        ensures
            *final(self) == (LayerActions {
                set_layer_visible: match visible {
                    Some(v) => Some((index, v)),
                    None => old(self).set_layer_visible,
                },
                select_layer: if clicked {
                    Some(index)
                } else {
                    old(self).select_layer
                },
                ..*old(self)
            }),
    {
        match visible {
            Some(v) => {
                self.set_layer_visible = Some((index, v));
            },
            None => {},
        }
        if clicked {
            self.select_layer = Some(index);
        }
    }
}

impl<F: Copy> LayerPanel<F> {
    /// The layer rows, top layer first.
    pub fn layer_rows(&self) -> (rows: Vec<usize>)
        ensures
            rows.len() == self.layers.len(),
            forall|i: int|
                0 <= i < rows.len() ==> #[trigger] rows@[i] == self.layers.len() - 1 - i,
    {
        let mut rows: Vec<usize> = Vec::new();
        let n: usize = self.layers.len();
        let mut i: usize = 0;
        while i < n
            invariant
                i <= n == self.layers.len(),
                rows.len() == i,
                forall|k: int| 0 <= k < i ==> #[trigger] rows@[k] == n - 1 - k,
            decreases n - i,
        {
            rows.push(n - 1 - i);
            i += 1;
        }
        rows
    }
}

/// A Unicode white space character.
pub open spec fn white(c: char) -> bool {
    ||| '\u{9}' <= c <= '\u{d}'
    ||| c == ' '
    ||| c == '\u{85}'
    ||| c == '\u{a0}'
    ||| c == '\u{1680}'
    ||| '\u{2000}' <= c <= '\u{200a}'
    ||| c == '\u{2028}'
    ||| c == '\u{2029}'
    ||| c == '\u{202f}'
    ||| c == '\u{205f}'
    ||| c == '\u{3000}'
}

/// `t` is `s` without the white space at its ends.
pub open spec fn is_trimmed(s: Seq<char>, t: Seq<char>) -> bool {
    exists|i: int, j: int|
        0 <= i <= j <= s.len() && t == #[trigger] s.subrange(i, j) && (forall|k: int|
            0 <= k < i ==> white(#[trigger] s[k])) && (forall|k: int|
            j <= k < s.len() ==> white(#[trigger] s[k])) && (i < j ==> !white(s[i]) && !white(
            s[j - 1],
        ))
}

/// The text without leading and trailing white space, by `str::trim`: a stretch of the text
/// that neither starts nor ends with a Unicode white space character, where everything cut
/// off is white space.
#[verifier::external_body]
fn trimmed(s: &str) -> (t: String)
    ensures
        is_trimmed(s@, t@),
{
    s.trim().to_owned()
}

/// What the user did in the options of the active layer.
#[derive(Debug)]
pub struct LayerInput<F> {
    /// What the name field holds now.
    pub typed: String,
    pub lost_focus: bool,
    pub has_focus: bool,
    pub blend: Option<BlendMode>,
    pub opacity_drag_started: bool,
    pub opacity: Option<F>,
    pub paint_mask: bool,
    pub mask_reveal: Option<bool>,
}

impl<F> LayerPanel<F> {
    /// The layer the options are for, if there is one.
    pub open spec fn has_active(&self) -> bool {
        self.active_layer < self.layers.len()
    }

    pub open spec fn active_name(&self) -> Seq<char> {
        self.layers@[self.active_layer as int].name@
    }

    /// The section after the options of the active layer were used.
    pub open spec fn edited(&self, before: &LayerPanel<F>, input: LayerInput<F>) -> bool {
        &&& self.layer_name_edit@ == if input.has_focus {
            input.typed@
        } else {
            before.active_name()
        }
        &&& *self == (LayerPanel {
            layer_name_edit: self.layer_name_edit,
            paint_mask: input.paint_mask,
            mask_reveal: if input.paint_mask && input.mask_reveal is Some {
                input.mask_reveal->0
            } else {
                before.mask_reveal
            },
            ..*before
        })
    }
}

impl<F> LayerActions<F> {
    /// The requests after the options of layer `i`, named `name`, were used.
    pub open spec fn edited(
        &self,
        before: &LayerActions<F>,
        i: usize,
        name: Seq<char>,
        input: LayerInput<F>,
    ) -> bool {
        &&& exists|t: Seq<char>| #[trigger]
            is_trimmed(input.typed@, t) && if input.lost_focus && t.len() > 0 && t != name {
                &&& self.set_layer_name is Some
                &&& (self.set_layer_name->0).0 == i
                &&& (self.set_layer_name->0).1@ == t
            } else {
                self.set_layer_name == before.set_layer_name
            }
        &&& *self == (LayerActions {
            set_layer_name: self.set_layer_name,
            set_layer_blend: match input.blend {
                Some(b) => Some((i, b)),
                None => before.set_layer_blend,
            },
            set_layer_opacity: match input.opacity {
                Some(op) => Some((i, op)),
                None => before.set_layer_opacity,
            },
            ..*before
        })
    }
}

/// The options of the active layer. Leaving the name field commits a name that is not blank
/// and not the current one; without focus the field shows the current name. The start of an
/// opacity drag asks for a checkpoint, so that the whole drag is one undo step. Reveal and
/// hide can only be chosen while painting the mask. Without an active layer there are no
/// options.
pub fn layer_options<F: Copy>(
    panel: &mut LayerPanel<F>,
    layer: &mut LayerActions<F>,
    edit: &mut EditActions,
    input: LayerInput<F>,
)
    ensures
        !old(panel).has_active() ==> *final(panel) == *old(panel) && *final(layer) == *old(layer)
            && *final(edit) == *old(edit),
        old(panel).has_active() ==> {
            &&& final(panel).edited(old(panel), input)
            &&& final(layer).edited(
                old(layer),
                old(panel).active_layer,
                old(panel).active_name(),
                input,
            )
            &&& *final(edit) == (EditActions {
                checkpoint: old(edit).checkpoint || input.opacity_drag_started,
                ..*old(edit)
            })
        },
{
    let i: usize = panel.active_layer;
    if i >= panel.layers.len() {
        return;
    }
    let new = trimmed(input.typed.as_str());
    let name = panel.layers[i].name.clone();
    if input.lost_focus && !new.as_str().is_empty() && new != name {
        layer.set_layer_name = Some((i, new));
    }
    assert(new@ == Seq::<char>::empty() || new@.len() > 0);
    panel.layer_name_edit = if input.has_focus {
        input.typed
    } else {
        name
    };
    match input.blend {
        Some(b) => {
            layer.set_layer_blend = Some((i, b));
        },
        None => {},
    }
    if input.opacity_drag_started {
        edit.checkpoint = true;
    }
    match input.opacity {
        Some(op) => {
            layer.set_layer_opacity = Some((i, op));
        },
        None => {},
    }
    panel.paint_mask = input.paint_mask;
    if input.paint_mask {
        match input.mask_reveal {
            Some(r) => {
                panel.mask_reveal = r;
            },
            None => {},
        }
    }
}

/// What the user did to one effect of the active layer: a click on up, down or remove, and
/// the effect with its sliders where one was moved.
#[derive(Clone, Copy, Debug)]
pub struct EffectInput<F> {
    pub index: usize,
    pub button: Option<usize>,
    pub drag_started: bool,
    pub changed: Option<Effect<F>>,
}

/// The requests after an effect was edited.
pub open spec fn effect_edited<F>(a: EffectActions<F>, input: EffectInput<F>) -> EffectActions<F> {
    let set = match input.changed {
        Some(fx) => Some((input.index, fx)),
        None => a.set_effect,
    };
    match input.button {
        Some(0) => EffectActions { move_effect_up: Some(input.index), set_effect: set, ..a },
        Some(1) => EffectActions { move_effect_down: Some(input.index), set_effect: set, ..a },
        Some(2) => EffectActions { remove_effect: Some(input.index), set_effect: set, ..a },
        _ => EffectActions { set_effect: set, ..a },
    }
}

impl<F: Copy> EffectActions<F> {
    /// Asks for a new effect.
    pub fn add(&mut self, kind: EffectKind)
        ensures
            *final(self) == (EffectActions { add_effect: Some(kind), ..*old(self) }),
    {
        self.add_effect = Some(kind);
    }

    /// One row of the effect stack. The start of a drag asks for a checkpoint, so that the
    /// whole drag is one undo step.
    pub fn effects_section(&mut self, edit: &mut EditActions, input: EffectInput<F>)
        ensures
            *final(self) == effect_edited(*old(self), input),
            *final(edit) == (EditActions {
                checkpoint: old(edit).checkpoint || input.drag_started,
                ..*old(edit)
            }),
    {
        match input.button {
            Some(0) => {
                self.move_effect_up = Some(input.index);
            },
            Some(1) => {
                self.move_effect_down = Some(input.index);
            },
            Some(2) => {
                self.remove_effect = Some(input.index);
            },
            _ => {},
        }
        if input.drag_started {
            edit.checkpoint = true;
        }
        match input.changed {
            Some(fx) => {
                self.set_effect = Some((input.index, fx));
            },
            None => {},
        }
    }
}

impl<F> Tune<F> {
    /// The levels the controls describe.
    pub open spec fn levels_spec(self) -> Levels<F> {
        Levels {
            invert: self.effect_invert,
            contrast: self.effect_contrast,
            strength: self.ao_strength,
        }
    }

    /// The noise the controls describe; without an amount there is none.
    pub open spec fn noise_spec(self, positive: spec_fn(F) -> bool) -> Option<NoiseMod<F>> {
        if positive(self.noise_amount) {
            Some(
                NoiseMod {
                    kind: self.noise_kind,
                    scale: self.noise_scale,
                    contrast: self.noise_contrast,
                    amount: self.noise_amount,
                },
            )
        } else {
            None
        }
    }
}

/// The answers of `positive` all agree with the test `f`.
pub open spec fn test_agrees<F, T: Fn(F) -> bool>(positive: T, f: spec_fn(F) -> bool) -> bool {
    forall|x: F, out: bool| #[trigger] positive.ensures((x,), out) ==> out == f(x)
}

/// `n` is the noise of the controls where `positive` answered that there is an amount of it,
/// and none where it answered that there is not.
pub open spec fn noise_is<F, T: Fn(F) -> bool>(
    t: Tune<F>,
    positive: T,
    n: Option<NoiseMod<F>>,
) -> bool {
    match n {
        Some(m) => positive.ensures((t.noise_amount,), true) && m.kind == t.noise_kind && m.scale
            == t.noise_scale && m.contrast == t.noise_contrast && m.amount == t.noise_amount,
        None => positive.ensures((t.noise_amount,), false),
    }
}

impl<F: Copy> Tune<F> {
    /// The levels the controls describe.
    pub fn levels(&self) -> (l: Levels<F>)
        ensures
            l == self.levels_spec(),
    {
        Levels {
            invert: self.effect_invert,
            contrast: self.effect_contrast,
            strength: self.ao_strength,
        }
    }

    /// The noise the controls describe, or none where the amount is not positive.
    pub fn noise_mod<T: Fn(F) -> bool>(&self, positive: &T) -> (n: Option<NoiseMod<F>>)
        requires
            forall|x: F| #[trigger] positive.requires((x,)),
        ensures
            forall|f: spec_fn(F) -> bool| #[trigger]
                test_agrees(*positive, f) ==> n == self.noise_spec(f),
            noise_is(*self, *positive, n),
    {
        if (*positive)(self.noise_amount) {
            Some(
                NoiseMod {
                    kind: self.noise_kind,
                    scale: self.noise_scale,
                    contrast: self.noise_contrast,
                    amount: self.noise_amount,
                },
            )
        } else {
            None
        }
    }
}

/// What the user did in the mesh effects section: clicks on the three pairs of look buttons,
/// sun controls that were moved, the tune controls as they are now, and the custom route.
#[derive(Clone, Copy, Debug)]
pub struct MeshInput<F> {
    /// Darken or highlights.
    pub shade: Option<usize>,
    /// Dirt or edge wear.
    pub wear: Option<usize>,
    /// Sunlight or top-down.
    pub light: Option<usize>,
    pub sun_elevation: Option<F>,
    pub sun_azimuth: Option<F>,
    pub sun_shadow: Option<bool>,
    pub tune: Tune<F>,
    pub source: Option<MapSource>,
    /// Tint layer or mask layer.
    pub route: Option<usize>,
    pub grad_low: Option<[F; 3]>,
    pub grad_high: Option<[F; 3]>,
    pub gradient: bool,
}

/// The requests after a click on a look button, with the levels and noise of the start of
/// the frame.
pub open spec fn look_clicked<F>(
    a: MeshActions<F>,
    input: MeshInput<F>,
    l: Levels<F>,
    n: Option<NoiseMod<F>>,
) -> MeshActions<F> {
    MeshActions {
        apply_ao: if input.shade == Some(0usize) {
            Some((l, n))
        } else {
            a.apply_ao
        },
        apply_highlight: if input.shade == Some(1usize) {
            Some((l, n))
        } else {
            a.apply_highlight
        },
        apply_dirt: if input.wear == Some(0usize) {
            Some((l, n))
        } else {
            a.apply_dirt
        },
        apply_edge_wear: if input.wear == Some(1usize) {
            Some((l, n))
        } else {
            a.apply_edge_wear
        },
        apply_sun: if input.light == Some(0usize) {
            Some((l, n))
        } else {
            a.apply_sun
        },
        apply_top_dust: if input.light == Some(1usize) {
            Some((l, n))
        } else {
            a.apply_top_dust
        },
        ..a
    }
}

/// The section after the controls moved: the top-down look aims the sun at `zenith`, and a
/// moved control then has the last word.
pub open spec fn mesh_tuned<F>(m: MeshPanel<F>, input: MeshInput<F>, zenith: F) -> MeshPanel<F> {
    MeshPanel {
        tune: input.tune,
        effect_source: match input.source {
            Some(x) => x,
            None => m.effect_source,
        },
        sun_elevation: match input.sun_elevation {
            Some(x) => x,
            None => if input.light == Some(1usize) {
                zenith
            } else {
                m.sun_elevation
            },
        },
        sun_azimuth: match input.sun_azimuth {
            Some(x) => x,
            None => m.sun_azimuth,
        },
        sun_shadow: match input.sun_shadow {
            Some(x) => x,
            None => m.sun_shadow,
        },
        grad_low: match input.grad_low {
            Some(x) => x,
            None => m.grad_low,
        },
        grad_high: match input.grad_high {
            Some(x) => x,
            None => m.grad_high,
        },
    }
}

/// The requests after a click on a custom route, with what the controls describe now.
pub open spec fn route_clicked<F>(
    a: MeshActions<F>,
    m: MeshPanel<F>,
    input: MeshInput<F>,
    color: [F; 3],
    n: Option<NoiseMod<F>>,
) -> MeshActions<F> {
    let l = m.tune.levels_spec();
    MeshActions {
        apply_tint: if input.route == Some(0usize) {
            Some((m.effect_source, l, color, n))
        } else {
            a.apply_tint
        },
        mask_from_map: if input.route == Some(1usize) {
            Some((m.effect_source, l, n))
        } else {
            a.mask_from_map
        },
        apply_gradient: if input.gradient {
            Some((m.effect_source, l, m.grad_low, m.grad_high, n))
        } else {
            a.apply_gradient
        },
        ..a
    }
}

fn click_looks<F: Copy>(
    a: &mut MeshActions<F>,
    input: &MeshInput<F>,
    l: Levels<F>,
    n: Option<NoiseMod<F>>,
)
    ensures
        *final(a) == look_clicked(*old(a), *input, l, n),
{
    match input.shade {
        Some(0) => {
            a.apply_ao = Some((l, n));
        },
        Some(1) => {
            a.apply_highlight = Some((l, n));
        },
        _ => {},
    }
    match input.wear {
        Some(0) => {
            a.apply_dirt = Some((l, n));
        },
        Some(1) => {
            a.apply_edge_wear = Some((l, n));
        },
        _ => {},
    }
    match input.light {
        Some(0) => {
            a.apply_sun = Some((l, n));
        },
        Some(1) => {
            a.apply_top_dust = Some((l, n));
        },
        _ => {},
    }
}

impl<F: Copy> MeshPanel<F> {
    fn retune(&mut self, input: &MeshInput<F>, zenith: F)
        ensures
            *final(self) == mesh_tuned(*old(self), *input, zenith),
    {
        match input.light {
            Some(1) => {
                self.sun_elevation = zenith;
            },
            _ => {},
        }
        match input.sun_elevation {
            Some(x) => {
                self.sun_elevation = x;
            },
            None => {},
        }
        match input.sun_azimuth {
            Some(x) => {
                self.sun_azimuth = x;
            },
            None => {},
        }
        match input.sun_shadow {
            Some(x) => {
                self.sun_shadow = x;
            },
            None => {},
        }
        self.tune = input.tune;
        match input.source {
            Some(x) => {
                self.effect_source = x;
            },
            None => {},
        }
        match input.grad_low {
            Some(x) => {
                self.grad_low = x;
            },
            None => {},
        }
        match input.grad_high {
            Some(x) => {
                self.grad_high = x;
            },
            None => {},
        }
    }

    fn click_route(
        &self,
        a: &mut MeshActions<F>,
        input: &MeshInput<F>,
        color: [F; 3],
        n: Option<NoiseMod<F>>,
    )
        ensures
            *final(a) == route_clicked(*old(a), *self, *input, color, n),
    {
        let l = self.tune.levels();
        match input.route {
            Some(0) => {
                a.apply_tint = Some((self.effect_source, l, color, n));
            },
            Some(1) => {
                a.mask_from_map = Some((self.effect_source, l, n));
            },
            _ => {},
        }
        if input.gradient {
            a.apply_gradient = Some((self.effect_source, l, self.grad_low, self.grad_high, n));
        }
    }

    /// The mesh effects section. The looks use the levels and noise of the start of the
    /// frame, the custom routes those after this frame's edits. `color` is the brush colour,
    /// `zenith` the sun height of the top-down look.
    pub fn mesh_effects_section<T: Fn(F) -> bool>(
        &mut self,
        a: &mut MeshActions<F>,
        input: MeshInput<F>,
        color: [F; 3],
        zenith: F,
        positive: &T,
    )
        requires
            forall|x: F| #[trigger] positive.requires((x,)),
        ensures
            *final(self) == mesh_tuned(*old(self), input, zenith),
            forall|f: spec_fn(F) -> bool| #[trigger]
                test_agrees(*positive, f) ==> *final(a) == route_clicked(
                    look_clicked(
                        *old(a),
                        input,
                        old(self).tune.levels_spec(),
                        old(self).tune.noise_spec(f),
                    ),
                    *final(self),
                    input,
                    color,
                    final(self).tune.noise_spec(f),
                ),
            exists|n: Option<NoiseMod<F>>, m: Option<NoiseMod<F>>|
                #![trigger noise_is(old(self).tune, *positive, n), noise_is(input.tune, *positive, m)]
                noise_is(old(self).tune, *positive, n) && noise_is(input.tune, *positive, m)
                    && *final(a) == route_clicked(
                    look_clicked(*old(a), input, old(self).tune.levels_spec(), n),
                    *final(self),
                    input,
                    color,
                    m,
                ),
    {
        let l = self.tune.levels();
        let n = self.tune.noise_mod(positive);
        click_looks(a, &input, l, n);
        self.retune(&input, zenith);
        let m = self.tune.noise_mod(positive);
        self.click_route(a, &input, color, m);
        assert(noise_is(old(self).tune, *positive, n) && noise_is(input.tune, *positive, m));
    }
}

/// The resolutions offered.
pub const SIZES: [u32; 9] = [32, 64, 128, 256, 512, 1024, 2048, 3072, 4096];

impl<F: Copy> CanvasPanel<F> {
    /// The canvas section: a click on one of the offered resolutions asks for it, and an
    /// export target may be chosen.
    pub fn export_section(&mut self, a: &mut UnwrapActions<F>, size: Option<usize>, target: Option<u8>)
        requires
            size matches Some(i) ==> i < 9,
        ensures
            *final(a) == (UnwrapActions {
                set_resolution: match size {
                    Some(i) => Some(SIZES@[i as int]),
                    None => old(a).set_resolution,
                },
                ..*old(a)
            }),
            *final(self) == (CanvasPanel {
                export_preset: match target {
                    Some(t) => t,
                    None => old(self).export_preset,
                },
                ..*old(self)
            }),
    {
        match size {
            Some(i) => {
                a.set_resolution = Some(SIZES[i]);
            },
            None => {},
        }
        match target {
            Some(t) => {
                self.export_preset = t;
            },
            None => {},
        }
    }

    /// The remark under the resolution.
    pub fn resolution_hint(&self) -> (s: &'static str)
        ensures
            s@ == if self.last_atlas_clamped {
                "Unwrap sets this (clamped to GPU max); override above"@
            } else {
                "Unwrap sets this; override above"@
            },
    {
        if self.last_atlas_clamped {
            "Unwrap sets this (clamped to GPU max); override above"
        } else {
            "Unwrap sets this; override above"
        }
    }
}

/// What the user did in the palette section.
#[derive(Clone, Copy, Debug)]
pub struct PaletteInput<F> {
    pub enabled: bool,
    pub dither: Option<bool>,
    pub dither_strength: Option<F>,
    pub builtin: Option<usize>,
    pub size: u32,
    pub from_image: bool,
}

impl<F: Copy> PalettePanel<F> {
    /// The palette section. Dithering can only be changed while quantizing.
    pub fn palette_section(&mut self, a: &mut PaletteActions, input: PaletteInput<F>)
        ensures
            *final(self) == (PalettePanel {
                settings: (crate::renderer::PaletteSettings {
                    enabled: input.enabled,
                    dither: if input.enabled && input.dither is Some {
                        input.dither->0
                    } else {
                        old(self).settings.dither
                    },
                    dither_strength: if input.enabled && input.dither_strength is Some {
                        input.dither_strength->0
                    } else {
                        old(self).settings.dither_strength
                    },
                }),
                size: input.size,
                ..*old(self)
            }),
            *final(a) == (PaletteActions {
                select_builtin_palette: match input.builtin {
                    Some(i) => Some(i),
                    None => old(a).select_builtin_palette,
                },
                generate_palette: if input.from_image {
                    Some(input.size as usize)
                } else {
                    old(a).generate_palette
                },
            }),
    {
        self.settings.enabled = input.enabled;
        if input.enabled {
            match input.dither {
                Some(d) => {
                    self.settings.dither = d;
                },
                None => {},
            }
            match input.dither_strength {
                Some(d) => {
                    self.settings.dither_strength = d;
                },
                None => {},
            }
        }
        match input.builtin {
            Some(i) => {
                a.select_builtin_palette = Some(i);
            },
            None => {},
        }
        self.size = input.size;
        if input.from_image {
            a.generate_palette = Some(input.size as usize);
        }
    }
}

/// What the pointer did on the UV editor this frame, with its place on the UV plane while it
/// interacts and while it hovers.
#[derive(Clone, Copy, Debug)]
pub struct UvInput<P> {
    pub drag_started: bool,
    pub dragged: bool,
    pub drag_stopped: bool,
    pub clicked: bool,
    pub pointer: Option<P>,
    pub hover: Option<P>,
}

/// Where the pointer is, or the given place where that is not known.
pub open spec fn place_or<P>(at: Option<P>, other: P) -> P {
    match at {
        Some(p) => p,
        None => other,
    }
}

/// Where a drag was last, once its start in this frame is taken into account.
pub open spec fn drag_from<P>(last: Option<P>, input: UvInput<P>, zero: P) -> Option<P> {
    if input.drag_started {
        Some(place_or(input.pointer, zero))
    } else {
        last
    }
}

/// What a frame adds to the UV strokes: the begin of a drag, one segment while dragging, its
/// end, and for a click a stroke of one point.
pub open spec fn uv_events<P>(last: Option<P>, input: UvInput<P>, zero: P) -> Seq<UvEvent<P>> {
    let from = drag_from(last, input, zero);
    let begin = if input.drag_started {
        seq![UvEvent::Begin]
    } else {
        Seq::empty()
    };
    let segment = match input.pointer {
        Some(to) if input.dragged => seq![UvEvent::Segment { from: place_or(from, to), to }],
        _ => Seq::empty(),
    };
    let end = if input.drag_stopped {
        seq![UvEvent::End]
    } else {
        Seq::empty()
    };
    let at = match input.pointer {
        Some(p) => Some(p),
        None => input.hover,
    };
    let click = match at {
        Some(p) if input.clicked => seq![
            UvEvent::Begin,
            UvEvent::Segment { from: p, to: p },
            UvEvent::End,
        ],
        _ => Seq::empty(),
    };
    begin + segment + end + click
}

/// Where the running drag was last after the frame.
pub open spec fn uv_last<P>(last: Option<P>, input: UvInput<P>, zero: P) -> Option<P> {
    if input.drag_stopped {
        None
    } else if input.dragged && input.pointer is Some {
        input.pointer
    } else {
        drag_from(last, input, zero)
    }
}

impl<F, P: Copy> UvPanel<F, P> {
    /// The UV editor: turns what the pointer did into strokes of a begin, segments and an
    /// end, each one undo step. `zero` stands in for a drag that starts nowhere.
    pub fn uv_panel(&mut self, strokes: &mut Vec<UvEvent<P>>, input: UvInput<P>, zero: P)
        ensures
            final(strokes)@ == old(strokes)@ + uv_events(old(self).uv_drag_last, input, zero),
            *final(self) == (UvPanel {
                uv_drag_last: uv_last(old(self).uv_drag_last, input, zero),
                ..*old(self)
            }),
    {
        let ghost s0 = strokes@;
        if input.drag_started {
            let uv: P = match input.pointer {
                Some(p) => p,
                None => zero,
            };
            strokes.push(UvEvent::Begin);
            self.uv_drag_last = Some(uv);
        }
        if input.dragged {
            match input.pointer {
                Some(to) => {
                    let from: P = match self.uv_drag_last {
                        Some(p) => p,
                        None => to,
                    };
                    strokes.push(UvEvent::Segment { from, to });
                    self.uv_drag_last = Some(to);
                },
                None => {},
            }
        }
        if input.drag_stopped {
            strokes.push(UvEvent::End);
            self.uv_drag_last = None;
        }
        if input.clicked {
            let at: Option<P> = match input.pointer {
                Some(p) => Some(p),
                None => input.hover,
            };
            match at {
                Some(uv) => {
                    strokes.push(UvEvent::Begin);
                    strokes.push(UvEvent::Segment { from: uv, to: uv });
                    strokes.push(UvEvent::End);
                },
                None => {},
            }
        }
        assert(strokes@ =~= s0 + uv_events(old(self).uv_drag_last, input, zero));
    }

    /// A freshly staged image of the atlas, once.
    pub fn take_image(&mut self) -> (img: Option<(u32, Vec<u8>)>)
        ensures
            img == old(self).uv_image,
            *final(self) == (UvPanel { uv_image: None, ..*old(self) }),
    {
        self.uv_image.take()
    }

    /// Whether the painter's image must be staged: the editor is open and its version moved.
    /// From now on that version counts as staged.
    pub fn claim_image(&mut self, version: u64) -> (stage: bool)
        ensures
            stage == (old(self).show_uv_panel && old(self).uv_image_version != version),
            *final(self) == if stage {
                (UvPanel { uv_image_version: version, ..*old(self) })
            } else {
                *old(self)
            },
    {
        if self.show_uv_panel && self.uv_image_version != version {
            self.uv_image_version = version;
            true
        } else {
            false
        }
    }

    /// Whether the wireframe must be staged: the editor is open and the mesh changed. From
    /// now on that mesh counts as staged.
    pub fn claim_edges(&mut self, version: u64) -> (stage: bool)
        ensures
            stage == (old(self).show_uv_panel && old(self).uv_edges_version != version),
            *final(self) == if stage {
                (UvPanel { uv_edges_version: version, ..*old(self) })
            } else {
                *old(self)
            },
    {
        if self.show_uv_panel && self.uv_edges_version != version {
            self.uv_edges_version = version;
            true
        } else {
            false
        }
    }
}

/// Replaying UV events, starting inside a stroke or not: every stroke begins, then has
/// segments, then ends. `Some` tells whether a stroke is still open; `None`, that an event
/// came out of turn.
pub open spec fn replayed<P>(open: bool, events: Seq<UvEvent<P>>) -> Option<bool>
    decreases events.len(),
{
    if events.len() == 0 {
        Some(open)
    } else {
        match replayed(open, events.drop_last()) {
            None => None,
            Some(now) => match events.last() {
                UvEvent::Begin => if now {
                    None
                } else {
                    Some(true)
                },
                UvEvent::Segment { .. } => if now {
                    Some(true)
                } else {
                    None
                },
                UvEvent::End => if now {
                    Some(false)
                } else {
                    None
                },
            },
        }
    }
}

/// What a pointer can do: a drag starts while none runs, goes on and stops while one runs,
/// and a click is no drag.
pub open spec fn pointer_ok<P>(dragging: bool, input: UvInput<P>) -> bool {
    &&& input.drag_started ==> !dragging
    &&& input.dragged ==> dragging || input.drag_started
    &&& input.drag_stopped ==> dragging || input.drag_started
    &&& input.clicked ==> !dragging && !input.drag_started
}

/// A drag runs after the frame.
pub open spec fn still_dragging<P>(dragging: bool, input: UvInput<P>) -> bool {
    (dragging || input.drag_started) && !input.drag_stopped
}

proof fn lemma_replayed_concat<P>(open: bool, a: Seq<UvEvent<P>>, b: Seq<UvEvent<P>>)
    ensures
        replayed(open, a + b) == match replayed(open, a) {
            None => None,
            Some(now) => replayed(now, b),
        },
    decreases b.len(),
{
    if b.len() == 0 {
        assert(a + b =~= a);
    } else {
        assert((a + b).drop_last() =~= a + b.drop_last());
        lemma_replayed_concat(open, a, b.drop_last());
        assert((a + b).last() == b.last());
    }
}

/// However the pointer moves, the events of the UV editor replay in turn: a frame that starts
/// inside a stroke exactly when a drag runs ends inside one exactly when a drag still runs.
pub proof fn law_uv_strokes_are_well_formed<P>(
    dragging: bool,
    last: Option<P>,
    input: UvInput<P>,
    zero: P,
)
    requires
        pointer_ok(dragging, input),
    ensures
        replayed(dragging, uv_events(last, input, zero)) == Some(still_dragging(dragging, input)),
{
    let from = drag_from(last, input, zero);
    let none = Seq::<UvEvent<P>>::empty();
    let begin = if input.drag_started {
        seq![UvEvent::Begin]
    } else {
        none
    };
    let segment = match input.pointer {
        Some(to) if input.dragged => seq![UvEvent::Segment { from: place_or(from, to), to }],
        _ => none,
    };
    let end = if input.drag_stopped {
        seq![UvEvent::End]
    } else {
        none
    };
    let at = match input.pointer {
        Some(p) => Some(p),
        None => input.hover,
    };
    let click = match at {
        Some(p) if input.clicked => seq![
            UvEvent::Begin,
            UvEvent::Segment { from: p, to: p },
            UvEvent::End,
        ],
        _ => none,
    };
    lemma_replayed_concat(dragging, begin + segment + end, click);
    lemma_replayed_concat(dragging, begin + segment, end);
    lemma_replayed_concat(dragging, begin, segment);
    reveal_with_fuel(replayed, 5);
    assert(seq![UvEvent::<P>::Begin].drop_last() =~= none);
    assert(seq![UvEvent::<P>::End].drop_last() =~= none);
    match input.pointer {
        Some(to) => {
            assert(seq![UvEvent::Segment { from: place_or(from, to), to }].drop_last() =~= none);
        },
        None => {},
    }
    match at {
        Some(p) => {
            let seg = UvEvent::Segment { from: p, to: p };
            let three = seq![UvEvent::Begin, seg, UvEvent::End];
            assert(three.drop_last() =~= seq![UvEvent::Begin, seg]);
            assert(seq![UvEvent::Begin, seg].drop_last() =~= seq![UvEvent::Begin]);
            assert(replayed(false, seq![UvEvent::<P>::Begin]) == Some(true));
            assert(replayed(false, seq![UvEvent::Begin, seg]) == Some(true));
            assert(replayed(false, three) == Some(false));
        },
        None => {},
    }
}

/// How a loaded brush image is offered.
#[derive(Clone, Copy, PartialEq, Eq, Structural, Debug)]
pub enum ImageControls {
    /// No image: only loading one is offered.
    Load,
    /// An image that tiles: its tiling is offered.
    Tile,
    /// An image that stamps: angle, scale and tint are offered.
    Stamp,
}

/// Which controls are shown. What does not apply is hidden, not greyed out.
#[derive(Clone, Copy, PartialEq, Eq, Structural, Debug)]
pub struct Controls {
    /// Brush shape, eraser, symmetry, lock, snap, image and tip.
    pub brush: bool,
    /// The symmetry axis can be picked.
    pub axis: bool,
    /// The size of the snapping grid.
    pub snap_grid: bool,
    pub image: ImageControls,
    /// A tip can be cleared, inverted and turned.
    pub tip: bool,
    /// Undo and redo can be chosen.
    pub undo: bool,
    pub redo: bool,
    /// The options of the active layer.
    pub layer: bool,
    /// Reveal and hide.
    pub mask: bool,
    pub dither: bool,
    pub uv_editor: bool,
}

impl<F, P> UiState<F, P> {
    /// The controls this state shows.
    pub open spec fn controls_spec(&self) -> Controls {
        let brush = self.tool == Tool::Brush;
        Controls {
            brush: brush,
            axis: brush && self.paint.symmetry_on,
            snap_grid: brush && self.brush.snap_to_texel,
            image: if !self.paint.brush_image_loaded {
                ImageControls::Load
            } else if self.paint.brush_stamp {
                ImageControls::Stamp
            } else {
                ImageControls::Tile
            },
            tip: brush && self.paint.alpha_loaded,
            undo: self.layer.can_undo,
            redo: self.layer.can_redo,
            layer: self.layer.has_active(),
            mask: self.layer.has_active() && self.layer.paint_mask,
            dither: self.palette.settings.enabled,
            uv_editor: self.uv.show_uv_panel,
        }
    }
}

impl<F: Copy, P: Copy> UiState<F, P> {
    /// The controls to show.
    pub fn controls(&self) -> (c: Controls)
        ensures
            c == self.controls_spec(),
    {
        let brush: bool = self.tool == Tool::Brush;
        let active: bool = self.layer.active_layer < self.layer.layers.len();
        Controls {
            brush,
            axis: brush && self.paint.symmetry_on,
            snap_grid: brush && self.brush.snap_to_texel,
            image: if !self.paint.brush_image_loaded {
                ImageControls::Load
            } else if self.paint.brush_stamp {
                ImageControls::Stamp
            } else {
                ImageControls::Tile
            },
            tip: brush && self.paint.alpha_loaded,
            undo: self.layer.can_undo,
            redo: self.layer.can_redo,
            layer: active,
            mask: active && self.layer.paint_mask,
            dither: self.palette.settings.enabled,
            uv_editor: self.uv.show_uv_panel,
        }
    }

    /// Begins a frame: the requests of the last one are gone. Returns the controls to show.
    pub fn build(&mut self) -> (c: Controls)
        ensures
            final(self).actions.idle(),
            *final(self) == (UiState { actions: final(self).actions, ..*old(self) }),
            c == old(self).controls_spec(),
    {
        self.actions = UiActions::none();
        self.controls()
    }

    /// The side of the largest brush in texels: the resolution, but at least 256.
    pub fn brush_max(&self) -> (n: u32)
        ensures
            n == if self.canvas.resolution < 256 {
                256
            } else {
                self.canvas.resolution
            },
    {
        if self.canvas.resolution < 256 {
            256
        } else {
            self.canvas.resolution
        }
    }
}

/// What the user did with brush images, tips and materials.
#[derive(Debug)]
pub struct BrushInput<F> {
    pub load_image: bool,
    pub clear_image: bool,
    pub stamp: Option<bool>,
    pub angle: Option<F>,
    pub tile: Option<F>,
    pub tint: Option<bool>,
    pub open_folder: bool,
    pub entry: Option<String>,
    pub clear_tip: bool,
    pub invert: Option<bool>,
    pub tip_angle: Option<F>,
    pub open_tips: bool,
    pub tip_entry: Option<String>,
}

/// A value that was chosen where the choice was offered, else the old one.
pub open spec fn chosen_if<T>(offered: bool, pick: Option<T>, old_value: T) -> T {
    if offered && pick is Some {
        pick->0
    } else {
        old_value
    }
}

/// The section after its controls moved. Stamp or tile can be picked once an image is loaded,
/// angle and tint of the image while it stamps, invert and angle of the tip while one is
/// loaded. The angle is shared; the tip's control comes last.
pub open spec fn brush_tuned<F>(p: PaintPanel<F>, input: BrushInput<F>) -> PaintPanel<F> {
    let image = p.brush_image_loaded;
    let stamp = chosen_if(image, input.stamp, p.brush_stamp);
    PaintPanel {
        brush_stamp: stamp,
        brush_tile: chosen_if(image, input.tile, p.brush_tile),
        stamp_tint: chosen_if(image && stamp, input.tint, p.stamp_tint),
        alpha_invert: chosen_if(p.alpha_loaded, input.invert, p.alpha_invert),
        stamp_angle_deg: chosen_if(
            p.alpha_loaded,
            input.tip_angle,
            chosen_if(image && stamp, input.angle, p.stamp_angle_deg),
        ),
        ..p
    }
}

/// The requests after the section was used.
pub open spec fn brush_requested<F>(
    a: BrushActions<F>,
    p: PaintPanel<F>,
    input: BrushInput<F>,
) -> BrushActions<F> {
    BrushActions {
        load_brush_image: a.load_brush_image || input.load_image,
        clear_brush_image: a.clear_brush_image || (p.brush_image_loaded && input.clear_image),
        open_brush_folder: a.open_brush_folder || input.open_folder,
        use_brush_entry: match input.entry {
            Some(e) => Some(e),
            None => a.use_brush_entry,
        },
        open_alpha_folder: a.open_alpha_folder || input.open_tips,
        use_alpha_entry: match input.tip_entry {
            Some(e) => Some(e),
            None => a.use_alpha_entry,
        },
        clear_alpha: a.clear_alpha || (p.alpha_loaded && input.clear_tip),
        ..a
    }
}

impl<F: Copy> PaintPanel<F> {
    fn retune(&mut self, input: &BrushInput<F>)
        ensures
            *final(self) == brush_tuned(*old(self), *input),
    {
        if self.brush_image_loaded {
            match input.stamp {
                Some(x) => {
                    self.brush_stamp = x;
                },
                None => {},
            }
            match input.tile {
                Some(x) => {
                    self.brush_tile = x;
                },
                None => {},
            }
            if self.brush_stamp {
                match input.tint {
                    Some(x) => {
                        self.stamp_tint = x;
                    },
                    None => {},
                }
                match input.angle {
                    Some(x) => {
                        self.stamp_angle_deg = x;
                    },
                    None => {},
                }
            }
        }
        if self.alpha_loaded {
            match input.invert {
                Some(x) => {
                    self.alpha_invert = x;
                },
                None => {},
            }
            match input.tip_angle {
                Some(x) => {
                    self.stamp_angle_deg = x;
                },
                None => {},
            }
        }
    }

    /// The brush image and tip controls. They are there for the brush tool only.
    pub fn brush_section(&mut self, tool: Tool, a: &mut BrushActions<F>, input: BrushInput<F>)
        ensures
            tool != Tool::Brush ==> *final(self) == *old(self) && *final(a) == *old(a),
            tool == Tool::Brush ==> *final(self) == brush_tuned(*old(self), input) && *final(a)
                == brush_requested(*old(a), *old(self), input),
    {
        if tool != Tool::Brush {
            return;
        }
        self.retune(&input);
        if input.load_image {
            a.load_brush_image = true;
        }
        if self.brush_image_loaded && input.clear_image {
            a.clear_brush_image = true;
        }
        if input.open_folder {
            a.open_brush_folder = true;
        }
        match input.entry {
            Some(e) => {
                a.use_brush_entry = Some(e);
            },
            None => {},
        }
        if self.alpha_loaded && input.clear_tip {
            a.clear_alpha = true;
        }
        if input.open_tips {
            a.open_alpha_folder = true;
        }
        match input.tip_entry {
            Some(e) => {
                a.use_alpha_entry = Some(e);
            },
            None => {},
        }
    }

    /// The material section: the tiling as it is now, and a click on fill.
    pub fn material_section(&mut self, a: &mut BrushActions<F>, tile: F, fill: bool)
        ensures
            *final(self) == (PaintPanel { material_tile: tile, ..*old(self) }),
            *final(a) == (BrushActions {
                fill_material: if fill {
                    Some(tile)
                } else {
                    old(a).fill_material
                },
                ..*old(a)
            }),
    {
        self.material_tile = tile;
        if fill {
            a.fill_material = Some(tile);
        }
    }

    /// The staged preview of a loaded brush image, once.
    pub fn take_brush_thumb(&mut self) -> (t: Option<Thumb>)
        ensures
            t == if old(self).brush_image_loaded {
                old(self).brush_thumb
            } else {
                None
            },
            *final(self) == if old(self).brush_image_loaded {
                (PaintPanel { brush_thumb: None, ..*old(self) })
            } else {
                *old(self)
            },
    {
        if self.brush_image_loaded {
            self.brush_thumb.take()
        } else {
            None
        }
    }

    /// The staged preview of a loaded tip, once.
    pub fn take_alpha_thumb(&mut self) -> (t: Option<Thumb>)
        ensures
            t == if old(self).alpha_loaded {
                old(self).alpha_thumb
            } else {
                None
            },
            *final(self) == if old(self).alpha_loaded {
                (PaintPanel { alpha_thumb: None, ..*old(self) })
            } else {
                *old(self)
            },
    {
        if self.alpha_loaded {
            self.alpha_thumb.take()
        } else {
            None
        }
    }
}

} // verus!
