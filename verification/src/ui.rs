//! The control panel's state and what its widgets do to it. Drawing the widgets is the
//! caller's; each section takes what the user did in it and raises the requests of the frame.
//!
//! `F` is the number type of sliders and colours, `P` a point of the UV plane.

use crate::layers::{BlendMode, Effect};
use crate::looks::{Levels, MapSource, NoiseMod};
use crate::renderer::{PaletteSettings, SymmetryAxis, TextureFilter};
use crate::unwrap::Density;
use vstd::prelude::*;

verus! {

/// What a click on the mesh does.
#[derive(Clone, Copy, PartialEq, Eq, Structural, Debug)]
pub enum Tool {
    /// Drag to paint a stroke.
    Brush,
    /// Fill the flat face under the cursor.
    FillFace,
    /// Fill the UV island under the cursor.
    FillIsland,
    /// Fill the whole object.
    FillObject,
}

/// One step of a stroke in the UV editor.
#[derive(Clone, Copy, Debug)]
pub enum UvEvent<P> {
    Begin,
    Segment { from: P, to: P },
    End,
}

/// A kind of layer effect.
#[derive(Clone, Copy, PartialEq, Eq, Structural, Debug)]
pub enum EffectKind {
    HueSatLight,
    BrightnessContrast,
    Blur,
    Warp,
}

impl EffectKind {
    pub const ALL: [EffectKind; 4] = [
        EffectKind::HueSatLight,
        EffectKind::BrightnessContrast,
        EffectKind::Blur,
        EffectKind::Warp,
    ];
}

/// A layer as the panel lists it.
#[derive(Debug)]
pub struct LayerInfo<F> {
    pub name: String,
    pub visible: bool,
    pub opacity: F,
    pub blend: BlendMode,
    /// The effects, in the order they apply.
    pub effects: Vec<Effect<F>>,
}

/// The brush settings the panel edits.
#[derive(Clone, Copy, Debug)]
pub struct Brush<F> {
    pub color: [F; 3],
    pub radius: F,
    pub opacity: F,
    pub hardness: F,
    pub erase: bool,
    pub snap_to_texel: bool,
    pub snap_grid: F,
}

/// Requests about files.
#[derive(Debug)]
pub struct FileActions {
    pub save_png: bool,
    pub open_texture: bool,
    pub open_model: bool,
    pub save_project: bool,
    pub quicksave: bool,
    pub open_project: bool,
    pub export_png: Option<bool>,
    pub export_obj: bool,
}

impl FileActions {
    /// Nothing is requested.
    pub open spec fn idle(&self) -> bool {
        &&& !self.save_png
        &&& !self.open_texture
        &&& !self.open_model
        &&& !self.save_project
        &&& !self.quicksave
        &&& !self.open_project
        &&& self.export_png is None
        &&& !self.export_obj
    }

    pub fn none() -> (a: Self)
        ensures
            a.idle(),
    {
        FileActions {
            save_png: false,
            open_texture: false,
            open_model: false,
            save_project: false,
            quicksave: false,
            open_project: false,
            export_png: None,
            export_obj: false,
        }
    }
}

/// Requests about the history, and the seam repair.
#[derive(Debug)]
pub struct EditActions {
    pub undo: bool,
    pub redo: bool,
    pub checkpoint: bool,
    pub clean_seams: bool,
}

impl EditActions {
    /// Nothing is requested.
    pub open spec fn idle(&self) -> bool {
        &&& !self.undo
        &&& !self.redo
        &&& !self.checkpoint
        &&& !self.clean_seams
    }

    pub fn none() -> (a: Self)
        ensures
            a.idle(),
    {
        EditActions {
            undo: false,
            redo: false,
            checkpoint: false,
            clean_seams: false,
        }
    }
}

/// Requests about the palette.
#[derive(Debug)]
pub struct PaletteActions {
    pub select_builtin_palette: Option<usize>,
    pub generate_palette: Option<usize>,
}

impl PaletteActions {
    /// Nothing is requested.
    pub open spec fn idle(&self) -> bool {
        &&& self.select_builtin_palette is None
        &&& self.generate_palette is None
    }

    pub fn none() -> (a: Self)
        ensures
            a.idle(),
    {
        PaletteActions {
            select_builtin_palette: None,
            generate_palette: None,
        }
    }
}

/// Requests about layers.
#[derive(Debug)]
pub struct LayerActions<F> {
    pub add_layer: bool,
    pub remove_layer: bool,
    pub move_layer_up: bool,
    pub move_layer_down: bool,
    pub merge_layer_down: bool,
    pub select_layer: Option<usize>,
    pub set_layer_visible: Option<(usize, bool)>,
    pub set_layer_opacity: Option<(usize, F)>,
    pub set_layer_blend: Option<(usize, BlendMode)>,
    pub set_layer_name: Option<(usize, String)>,
}

impl<F> LayerActions<F> {
    /// Nothing is requested.
    pub open spec fn idle(&self) -> bool {
        &&& !self.add_layer
        &&& !self.remove_layer
        &&& !self.move_layer_up
        &&& !self.move_layer_down
        &&& !self.merge_layer_down
        &&& self.select_layer is None
        &&& self.set_layer_visible is None
        &&& self.set_layer_opacity is None
        &&& self.set_layer_blend is None
        &&& self.set_layer_name is None
    }

    pub fn none() -> (a: Self)
        ensures
            a.idle(),
    {
        LayerActions {
            add_layer: false,
            remove_layer: false,
            move_layer_up: false,
            move_layer_down: false,
            merge_layer_down: false,
            select_layer: None,
            set_layer_visible: None,
            set_layer_opacity: None,
            set_layer_blend: None,
            set_layer_name: None,
        }
    }
}

/// Requests about the active layer's effects.
#[derive(Debug)]
pub struct EffectActions<F> {
    pub add_effect: Option<EffectKind>,
    pub remove_effect: Option<usize>,
    pub move_effect_up: Option<usize>,
    pub move_effect_down: Option<usize>,
    pub set_effect: Option<(usize, Effect<F>)>,
}

impl<F> EffectActions<F> {
    /// Nothing is requested.
    pub open spec fn idle(&self) -> bool {
        &&& self.add_effect is None
        &&& self.remove_effect is None
        &&& self.move_effect_up is None
        &&& self.move_effect_down is None
        &&& self.set_effect is None
    }

    pub fn none() -> (a: Self)
        ensures
            a.idle(),
    {
        EffectActions {
            add_effect: None,
            remove_effect: None,
            move_effect_up: None,
            move_effect_down: None,
            set_effect: None,
        }
    }
}

/// Requests for layers and masks from the mesh's maps.
#[derive(Debug)]
pub struct MeshActions<F> {
    pub apply_ao: Option<(Levels<F>, Option<NoiseMod<F>>)>,
    pub apply_highlight: Option<(Levels<F>, Option<NoiseMod<F>>)>,
    pub apply_dirt: Option<(Levels<F>, Option<NoiseMod<F>>)>,
    pub apply_edge_wear: Option<(Levels<F>, Option<NoiseMod<F>>)>,
    pub apply_sun: Option<(Levels<F>, Option<NoiseMod<F>>)>,
    pub apply_top_dust: Option<(Levels<F>, Option<NoiseMod<F>>)>,
    pub apply_tint: Option<(MapSource, Levels<F>, [F; 3], Option<NoiseMod<F>>)>,
    pub mask_from_map: Option<(MapSource, Levels<F>, Option<NoiseMod<F>>)>,
    pub apply_gradient: Option<(MapSource, Levels<F>, [F; 3], [F; 3], Option<NoiseMod<F>>)>,
}

impl<F> MeshActions<F> {
    /// Nothing is requested.
    pub open spec fn idle(&self) -> bool {
        &&& self.apply_ao is None
        &&& self.apply_highlight is None
        &&& self.apply_dirt is None
        &&& self.apply_edge_wear is None
        &&& self.apply_sun is None
        &&& self.apply_top_dust is None
        &&& self.apply_tint is None
        &&& self.mask_from_map is None
        &&& self.apply_gradient is None
    }

    pub fn none() -> (a: Self)
        ensures
            a.idle(),
    {
        MeshActions {
            apply_ao: None,
            apply_highlight: None,
            apply_dirt: None,
            apply_edge_wear: None,
            apply_sun: None,
            apply_top_dust: None,
            apply_tint: None,
            mask_from_map: None,
            apply_gradient: None,
        }
    }
}

/// Requests about brush images, tips and materials.
#[derive(Debug)]
pub struct BrushActions<F> {
    pub fill_material: Option<F>,
    pub load_brush_image: bool,
    pub clear_brush_image: bool,
    pub open_brush_folder: bool,
    pub use_brush_entry: Option<String>,
    pub open_alpha_folder: bool,
    pub use_alpha_entry: Option<String>,
    pub clear_alpha: bool,
}

impl<F> BrushActions<F> {
    /// Nothing is requested.
    pub open spec fn idle(&self) -> bool {
        &&& self.fill_material is None
        &&& !self.load_brush_image
        &&& !self.clear_brush_image
        &&& !self.open_brush_folder
        &&& self.use_brush_entry is None
        &&& !self.open_alpha_folder
        &&& self.use_alpha_entry is None
        &&& !self.clear_alpha
    }

    pub fn none() -> (a: Self)
        ensures
            a.idle(),
    {
        BrushActions {
            fill_material: None,
            load_brush_image: false,
            clear_brush_image: false,
            open_brush_folder: false,
            use_brush_entry: None,
            open_alpha_folder: false,
            use_alpha_entry: None,
            clear_alpha: false,
        }
    }
}

/// Requests about UVs and resolution.
#[derive(Debug)]
pub struct UnwrapActions<F> {
    pub unwrap: Option<Density>,
    pub set_resolution: Option<u32>,
    pub unwrap_at_density: Option<F>,
}

impl<F> UnwrapActions<F> {
    /// Nothing is requested.
    pub open spec fn idle(&self) -> bool {
        &&& self.unwrap is None
        &&& self.set_resolution is None
        &&& self.unwrap_at_density is None
    }

    pub fn none() -> (a: Self)
        ensures
            a.idle(),
    {
        UnwrapActions {
            unwrap: None,
            set_resolution: None,
            unwrap_at_density: None,
        }
    }
}

/// The requests of one frame.
#[derive(Debug)]
pub struct UiActions<F, P> {
    pub file: FileActions,
    pub edit: EditActions,
    pub palette: PaletteActions,
    pub layer: LayerActions<F>,
    pub effect: EffectActions<F>,
    pub mesh: MeshActions<F>,
    pub brush: BrushActions<F>,
    pub unwrap: UnwrapActions<F>,
    /// What was painted in the UV editor, in order.
    pub uv_strokes: Vec<UvEvent<P>>,
}

impl<F, P> UiActions<F, P> {
    /// Nothing is requested.
    pub open spec fn idle(&self) -> bool {
        &&& self.file.idle()
        &&& self.edit.idle()
        &&& self.palette.idle()
        &&& self.layer.idle()
        &&& self.effect.idle()
        &&& self.mesh.idle()
        &&& self.brush.idle()
        &&& self.unwrap.idle()
        &&& self.uv_strokes@.len() == 0
    }

    /// Actions with nothing requested.
    pub fn none() -> (a: UiActions<F, P>)
        ensures
            a.idle(),
    {
        UiActions {
            file: FileActions::none(),
            edit: EditActions::none(),
            palette: PaletteActions::none(),
            layer: LayerActions::none(),
            effect: EffectActions::none(),
            mesh: MeshActions::none(),
            brush: BrushActions::none(),
            unwrap: UnwrapActions::none(),
            uv_strokes: Vec::new(),
        }
    }
}

/// A preview image waiting to be uploaded: width, height and pixels.
pub type Thumb = (u32, u32, Vec<u8>);

/// How a brush image or tip is used, and where dabs go.
#[derive(Debug)]
pub struct PaintPanel<F> {
    pub material_tile: F,
    pub brush_tile: F,
    pub brush_image_loaded: bool,
    pub brush_thumb: Option<Thumb>,
    pub brush_stamp: bool,
    pub stamp_angle_deg: F,
    pub stamp_tint: bool,
    pub alpha_loaded: bool,
    pub alpha_invert: bool,
    pub alpha_thumb: Option<Thumb>,
    pub symmetry_on: bool,
    pub symmetry_axis: SymmetryAxis,
    pub lock_face: bool,
}

/// The palette section.
#[derive(Debug)]
pub struct PalettePanel<F> {
    pub settings: PaletteSettings<F>,
    pub swatches: Vec<[F; 3]>,
    /// How many colours a palette made from an image gets.
    pub size: u32,
}

/// The layer list and the active layer's options.
#[derive(Debug)]
pub struct LayerPanel<F> {
    pub layers: Vec<LayerInfo<F>>,
    pub active_layer: usize,
    pub paint_mask: bool,
    pub mask_reveal: bool,
    /// What the name field holds.
    pub layer_name_edit: String,
    pub can_undo: bool,
    pub can_redo: bool,
}

/// How a map is read: levels and noise.
#[derive(Clone, Copy, Debug)]
pub struct Tune<F> {
    pub ao_strength: F,
    pub effect_contrast: F,
    pub effect_invert: bool,
    /// The number of the noise pattern.
    pub noise_kind: u8,
    pub noise_scale: F,
    pub noise_contrast: F,
    pub noise_amount: F,
}

/// The mesh effects section.
#[derive(Debug)]
pub struct MeshPanel<F> {
    pub tune: Tune<F>,
    pub effect_source: MapSource,
    pub sun_elevation: F,
    pub sun_azimuth: F,
    pub sun_shadow: bool,
    pub grad_low: [F; 3],
    pub grad_high: [F; 3],
}

/// How the scene is shown.
#[derive(Debug)]
pub struct ViewPanel<F> {
    pub bg_color: [F; 3],
    pub show_grid: bool,
    pub texture_filter: TextureFilter,
    pub panel_width: F,
}

/// Resolution, unwrapping and export.
#[derive(Debug)]
pub struct CanvasPanel<F> {
    /// The number of the chosen export target.
    pub export_preset: u8,
    pub resolution: u32,
    pub unwrap_density: Density,
    pub unwrap_overlap: bool,
    pub unwrap_texels_per_m: F,
    pub last_density_d: F,
    pub last_atlas_clamped: bool,
}

/// The UV editor.
#[derive(Debug)]
pub struct UvPanel<F, P> {
    pub show_uv_panel: bool,
    pub uv_image: Option<(u32, Vec<u8>)>,
    pub uv_image_version: u64,
    pub uv_edges: Vec<[F; 4]>,
    pub uv_edges_version: u64,
    /// Where the running drag was last.
    pub uv_drag_last: Option<P>,
}

/// Everything the panel edits or shows.
#[derive(Debug)]
pub struct UiState<F, P> {
    pub brush: Brush<F>,
    pub tool: Tool,
    pub paint: PaintPanel<F>,
    pub palette: PalettePanel<F>,
    pub layer: LayerPanel<F>,
    pub mesh: MeshPanel<F>,
    pub view: ViewPanel<F>,
    pub canvas: CanvasPanel<F>,
    pub uv: UvPanel<F, P>,
    pub actions: UiActions<F, P>,
}

/// The numbers a fresh panel starts from.
#[derive(Clone, Copy, Debug)]
pub struct UiNumbers<F> {
    pub material_tile: F,
    pub brush_tile: F,
    pub stamp_angle_deg: F,
    pub ao_strength: F,
    pub effect_contrast: F,
    pub noise_scale: F,
    pub noise_contrast: F,
    pub noise_amount: F,
    pub sun_elevation: F,
    pub sun_azimuth: F,
    pub grad_low: [F; 3],
    pub grad_high: [F; 3],
    pub bg_color: [F; 3],
    pub texels_per_m: F,
    pub density_d: F,
    pub panel_width: F,
}

impl<F: Copy, P: Copy> UiState<F, P> {
    /// A fresh panel: the colour brush, no images, no symmetry, nothing requested. The image
    /// and wireframe versions differ from any the painter starts with, so both are staged
    /// at first sight.
    pub fn new(brush: Brush<F>, palette: PaletteSettings<F>, n: UiNumbers<F>) -> (s: UiState<F, P>)
        ensures
            s.brush == brush,
            s.tool == Tool::Brush,
            s.paint.material_tile == n.material_tile,
            s.paint.brush_tile == n.brush_tile,
            !s.paint.brush_image_loaded,
            s.paint.brush_thumb is None,
            !s.paint.brush_stamp,
            s.paint.stamp_angle_deg == n.stamp_angle_deg,
            !s.paint.stamp_tint,
            !s.paint.alpha_loaded,
            !s.paint.alpha_invert,
            s.paint.alpha_thumb is None,
            !s.paint.symmetry_on,
            s.paint.symmetry_axis == SymmetryAxis::X,
            !s.paint.lock_face,
            s.palette.settings == palette,
            s.palette.swatches@.len() == 0,
            s.palette.size == 16,
            s.layer.layers@.len() == 0,
            s.layer.active_layer == 0,
            !s.layer.paint_mask,
            !s.layer.mask_reveal,
            s.layer.layer_name_edit@.len() == 0,
            !s.layer.can_undo,
            !s.layer.can_redo,
            s.mesh.tune.ao_strength == n.ao_strength,
            s.mesh.tune.effect_contrast == n.effect_contrast,
            !s.mesh.tune.effect_invert,
            s.mesh.tune.noise_kind == 0,
            s.mesh.tune.noise_scale == n.noise_scale,
            s.mesh.tune.noise_contrast == n.noise_contrast,
            s.mesh.tune.noise_amount == n.noise_amount,
            s.mesh.effect_source == MapSource::Cavities,
            s.mesh.sun_elevation == n.sun_elevation,
            s.mesh.sun_azimuth == n.sun_azimuth,
            s.mesh.sun_shadow,
            s.mesh.grad_low == n.grad_low,
            s.mesh.grad_high == n.grad_high,
            s.view.bg_color == n.bg_color,
            s.view.show_grid,
            s.view.texture_filter == TextureFilter::Nearest,
            s.view.panel_width == n.panel_width,
            s.canvas.export_preset == 0,
            s.canvas.resolution == 128,
            s.canvas.unwrap_density == Density::Medium,
            !s.canvas.unwrap_overlap,
            s.canvas.unwrap_texels_per_m == n.texels_per_m,
            s.canvas.last_density_d == n.density_d,
            !s.canvas.last_atlas_clamped,
            !s.uv.show_uv_panel,
            s.uv.uv_image is None,
            s.uv.uv_image_version == u64::MAX,
            s.uv.uv_edges@.len() == 0,
            s.uv.uv_edges_version == u64::MAX,
            s.uv.uv_drag_last is None,
            s.actions.idle(),
    {
        UiState {
            brush,
            tool: Tool::Brush,
            paint: PaintPanel {
                material_tile: n.material_tile,
                brush_tile: n.brush_tile,
                brush_image_loaded: false,
                brush_thumb: None,
                brush_stamp: false,
                stamp_angle_deg: n.stamp_angle_deg,
                stamp_tint: false,
                alpha_loaded: false,
                alpha_invert: false,
                alpha_thumb: None,
                symmetry_on: false,
                symmetry_axis: SymmetryAxis::X,
                lock_face: false,
            },
            palette: PalettePanel {
                settings: palette,
                swatches: Vec::new(),
                size: 16,
            },
            layer: LayerPanel {
                layers: Vec::new(),
                active_layer: 0,
                paint_mask: false,
                mask_reveal: false,
                layer_name_edit: String::new(),
                can_undo: false,
                can_redo: false,
            },
            mesh: MeshPanel {
                tune: Tune {
                    ao_strength: n.ao_strength,
                    effect_contrast: n.effect_contrast,
                    effect_invert: false,
                    noise_kind: 0,
                    noise_scale: n.noise_scale,
                    noise_contrast: n.noise_contrast,
                    noise_amount: n.noise_amount,
                },
                effect_source: MapSource::Cavities,
                sun_elevation: n.sun_elevation,
                sun_azimuth: n.sun_azimuth,
                sun_shadow: true,
                grad_low: n.grad_low,
                grad_high: n.grad_high,
            },
            view: ViewPanel {
                bg_color: n.bg_color,
                show_grid: true,
                texture_filter: TextureFilter::Nearest,
                panel_width: n.panel_width,
            },
            canvas: CanvasPanel {
                export_preset: 0,
                resolution: 128,
                unwrap_density: Density::Medium,
                unwrap_overlap: false,
                unwrap_texels_per_m: n.texels_per_m,
                last_density_d: n.density_d,
                last_atlas_clamped: false,
            },
            uv: UvPanel {
                show_uv_panel: false,
                uv_image: None,
                uv_image_version: 0xffff_ffff_ffff_ffff,
                uv_edges: Vec::new(),
                uv_edges_version: 0xffff_ffff_ffff_ffff,
                uv_drag_last: None,
            },
            actions: UiActions::none(),
        }
    }
}

} // verus!
