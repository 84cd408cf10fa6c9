//! The panel: what its controls ask for.

use lowtex::layers::{BlendMode, Effect};
use lowtex::looks::MapSource;
use lowtex::panels::{
    layer_options, BrushInput, EditItem, EffectInput, FileItem, ImageControls, LayerInput,
    MenuItem, MeshInput, MeshItem, PaletteInput, UvInput, ViewItem, SIZES,
};
use lowtex::renderer::{PaletteSettings, TextureFilter};
use lowtex::ui::{Brush, EffectKind, LayerInfo, Tool, UiNumbers, UiState, UvEvent};
use lowtex::unwrap::Density;

fn panel() -> UiState<i32, (i32, i32)> {
    UiState::new(
        Brush {
            color: [1, 2, 3],
            radius: 6,
            opacity: 100,
            hardness: 80,
            erase: false,
            snap_to_texel: false,
            snap_grid: 1,
        },
        PaletteSettings { enabled: false, dither: false, dither_strength: 6 },
        UiNumbers {
            material_tile: 4,
            brush_tile: 4,
            stamp_angle_deg: 0,
            ao_strength: 100,
            effect_contrast: 1,
            noise_scale: 8,
            noise_contrast: 1,
            noise_amount: 0,
            sun_elevation: 45,
            sun_azimuth: 30,
            grad_low: [0; 3],
            grad_high: [9; 3],
            bg_color: [5; 3],
            texels_per_m: 64,
            density_d: 0,
            panel_width: 260,
        },
    )
}

fn with_layers() -> UiState<i32, (i32, i32)> {
    let mut s = panel();
    for name in ["Base", "Ink"] {
        s.layer.layers.push(LayerInfo {
            name: name.to_string(),
            visible: true,
            opacity: 100,
            blend: BlendMode::Normal,
            effects: Vec::new(),
        });
    }
    s.layer.active_layer = 1;
    s
}

fn typed(text: &str) -> LayerInput<i32> {
    LayerInput {
        typed: text.to_string(),
        lost_focus: true,
        has_focus: false,
        blend: None,
        opacity_drag_started: false,
        opacity: None,
        paint_mask: false,
        mask_reveal: None,
    }
}

#[test]
fn a_frame_starts_without_requests() {
    let mut s = panel();
    s.menu_bar(MenuItem::File(FileItem::OpenModel));
    assert!(s.actions.file.open_model);
    let c = s.build();
    assert!(!s.actions.file.open_model);
    assert!(c.brush && !c.axis && !c.layer && !c.undo);
    assert_eq!(c.image, ImageControls::Load);
}

#[test]
fn controls_follow_the_state() {
    let mut s = with_layers();
    s.paint.symmetry_on = true;
    s.paint.brush_image_loaded = true;
    s.paint.brush_stamp = true;
    s.layer.paint_mask = true;
    s.layer.can_undo = true;
    let c = s.controls();
    assert!(c.axis && c.layer && c.mask && c.undo && !c.redo);
    assert_eq!(c.image, ImageControls::Stamp);
    s.tool = Tool::FillFace;
    assert!(!s.controls().brush && !s.controls().axis);
    assert_eq!(s.brush_max(), 256);
    s.canvas.resolution = 1024;
    assert_eq!(s.brush_max(), 1024);
}

#[test]
fn the_menu() {
    let mut s = panel();
    s.menu_bar(MenuItem::File(FileItem::ExportIndexed));
    assert_eq!(s.actions.file.export_png, Some(true));
    s.menu_bar(MenuItem::File(FileItem::ExportRgba));
    assert_eq!(s.actions.file.export_png, Some(false));
    s.menu_bar(MenuItem::Edit(EditItem::Undo));
    assert!(!s.actions.edit.undo, "nothing to undo");
    s.layer.can_undo = true;
    s.menu_bar(MenuItem::Edit(EditItem::Undo));
    assert!(s.actions.edit.undo);
    s.menu_bar(MenuItem::Mesh(MeshItem::Density(Density::High)));
    s.menu_bar(MenuItem::Mesh(MeshItem::UnwrapPreset));
    assert_eq!(s.actions.unwrap.unwrap, Some(Density::High));
    s.menu_bar(MenuItem::Mesh(MeshItem::TexelsPerM(32)));
    s.menu_bar(MenuItem::Mesh(MeshItem::UnwrapAtDensity));
    assert_eq!(s.actions.unwrap.unwrap_at_density, Some(32));
    s.menu_bar(MenuItem::View(ViewItem::Filter(TextureFilter::Linear)));
    assert_eq!(s.view.texture_filter, TextureFilter::Linear);
    s.menu_bar(MenuItem::View(ViewItem::Grid(false)));
    assert!(!s.view.show_grid);
}

#[test]
fn a_layer_is_renamed_to_the_trimmed_text() {
    let mut s = with_layers();
    layer_options(&mut s.layer, &mut s.actions.layer, &mut s.actions.edit, typed("  Red ink\t"));
    assert_eq!(s.actions.layer.set_layer_name, Some((1, "Red ink".to_string())));
    let mut s = with_layers();
    layer_options(&mut s.layer, &mut s.actions.layer, &mut s.actions.edit, typed(" \u{a0} "));
    assert_eq!(s.actions.layer.set_layer_name, None);
    layer_options(&mut s.layer, &mut s.actions.layer, &mut s.actions.edit, typed(" Ink "));
    assert_eq!(s.actions.layer.set_layer_name, None, "the name it has");
    assert_eq!(s.layer.layer_name_edit, "Ink");
}

#[test]
fn layer_options_edit_the_active_layer() {
    let mut s = with_layers();
    let mut input = typed("typing");
    input.lost_focus = false;
    input.has_focus = true;
    input.blend = Some(BlendMode::Add);
    input.opacity_drag_started = true;
    input.opacity = Some(40);
    input.paint_mask = true;
    input.mask_reveal = Some(true);
    layer_options(&mut s.layer, &mut s.actions.layer, &mut s.actions.edit, input);
    assert_eq!(s.layer.layer_name_edit, "typing");
    assert_eq!(s.actions.layer.set_layer_blend, Some((1, BlendMode::Add)));
    assert_eq!(s.actions.layer.set_layer_opacity, Some((1, 40)));
    assert!(s.actions.edit.checkpoint && s.layer.paint_mask && s.layer.mask_reveal);
    let mut none = panel();
    layer_options(&mut none.layer, &mut none.actions.layer, &mut none.actions.edit, typed("x"));
    assert_eq!(none.actions.layer.set_layer_name, None);
}

#[test]
fn the_layer_list_shows_the_top_first() {
    let mut s = with_layers();
    assert_eq!(s.layer.layer_rows(), vec![1, 0]);
    s.actions.layer.layers_header(Some(0));
    assert!(s.actions.layer.add_layer);
    s.actions.layer.layers_list(0, Some(false), true);
    assert_eq!(s.actions.layer.set_layer_visible, Some((0, false)));
    assert_eq!(s.actions.layer.select_layer, Some(0));
}

#[test]
fn effects_are_added_and_edited() {
    let mut s = panel();
    s.actions.effect.add(EffectKind::Warp);
    assert_eq!(s.actions.effect.add_effect, Some(EffectKind::Warp));
    let input = EffectInput {
        index: 2,
        button: Some(2),
        drag_started: true,
        changed: Some(Effect::Blur { radius: 3 }),
    };
    s.actions.effect.effects_section(&mut s.actions.edit, input);
    assert_eq!(s.actions.effect.remove_effect, Some(2));
    assert!(matches!(s.actions.effect.set_effect, Some((2, Effect::Blur { radius: 3 }))));
    assert!(s.actions.edit.checkpoint);
}

fn mesh_input(s: &UiState<i32, (i32, i32)>) -> MeshInput<i32> {
    MeshInput {
        shade: None,
        wear: None,
        light: None,
        sun_elevation: None,
        sun_azimuth: None,
        sun_shadow: None,
        tune: s.mesh.tune,
        source: None,
        route: None,
        grad_low: None,
        grad_high: None,
        gradient: false,
    }
}

#[test]
fn mesh_looks_carry_levels_and_noise() {
    let mut s = panel();
    let mut input = mesh_input(&s);
    input.wear = Some(0);
    s.mesh.mesh_effects_section(&mut s.actions.mesh, input, [7; 3], 90, &|x| x > 0);
    let (levels, noise) = s.actions.mesh.apply_dirt.unwrap();
    assert_eq!((levels.invert, levels.contrast, levels.strength), (false, 1, 100));
    assert!(noise.is_none(), "no amount, no noise");
    let mut input = mesh_input(&s);
    input.tune.noise_amount = 5;
    input.light = Some(1);
    input.source = Some(MapSource::Edges);
    input.route = Some(0);
    s.mesh.mesh_effects_section(&mut s.actions.mesh, input, [7; 3], 90, &|x| x > 0);
    assert!(s.actions.mesh.apply_top_dust.is_some());
    assert_eq!(s.mesh.sun_elevation, 90, "dust falls from above");
    let (source, _, color, noise) = s.actions.mesh.apply_tint.unwrap();
    assert_eq!((source, color), (MapSource::Edges, [7; 3]));
    assert_eq!(noise.unwrap().amount, 5);
    let mut input = mesh_input(&s);
    input.gradient = true;
    input.grad_low = Some([4; 3]);
    s.mesh.mesh_effects_section(&mut s.actions.mesh, input, [7; 3], 90, &|x| x > 0);
    let (_, _, low, high, _) = s.actions.mesh.apply_gradient.unwrap();
    assert_eq!((low, high), ([4; 3], [9; 3]));
}

#[test]
fn canvas_sizes() {
    let mut s = panel();
    s.canvas.export_section(&mut s.actions.unwrap, Some(8), Some(2));
    assert_eq!(s.actions.unwrap.set_resolution, Some(4096));
    assert_eq!(SIZES[0], 32);
    assert_eq!(s.canvas.export_preset, 2);
    assert_eq!(s.canvas.resolution_hint(), "Unwrap sets this; override above");
    s.canvas.last_atlas_clamped = true;
    assert_eq!(
        s.canvas.resolution_hint(),
        "Unwrap sets this (clamped to GPU max); override above"
    );
}

#[test]
fn dithering_needs_quantizing() {
    let mut s = panel();
    let mut input = PaletteInput {
        enabled: false,
        dither: Some(true),
        dither_strength: Some(9),
        builtin: Some(3),
        size: 12,
        from_image: true,
    };
    s.palette.palette_section(&mut s.actions.palette, input);
    assert!(!s.palette.settings.dither);
    assert_eq!(s.actions.palette.select_builtin_palette, Some(3));
    assert_eq!(s.actions.palette.generate_palette, Some(12));
    input.enabled = true;
    s.palette.palette_section(&mut s.actions.palette, input);
    assert!(s.palette.settings.dither);
    assert_eq!(s.palette.settings.dither_strength, 9);
}

fn at(p: Option<(i32, i32)>) -> UvInput<(i32, i32)> {
    UvInput {
        drag_started: false,
        dragged: false,
        drag_stopped: false,
        clicked: false,
        pointer: p,
        hover: None,
    }
}

#[test]
fn uv_strokes_are_well_formed() {
    let mut s = panel();
    let mut events = Vec::new();
    let start = UvInput { drag_started: true, dragged: true, ..at(Some((1, 1))) };
    s.uv.uv_panel(&mut events, start, (0, 0));
    let go = UvInput { dragged: true, ..at(Some((2, 3))) };
    s.uv.uv_panel(&mut events, go, (0, 0));
    let stop = UvInput { drag_stopped: true, ..at(None) };
    s.uv.uv_panel(&mut events, stop, (0, 0));
    let click = UvInput { clicked: true, hover: Some((5, 5)), ..at(None) };
    s.uv.uv_panel(&mut events, click, (0, 0));
    assert_eq!(events.len(), 7);
    assert!(matches!(events[0], UvEvent::Begin));
    assert!(matches!(events[1], UvEvent::Segment { from: (1, 1), to: (1, 1) }));
    assert!(matches!(events[2], UvEvent::Segment { from: (1, 1), to: (2, 3) }));
    assert!(matches!(events[3], UvEvent::End));
    assert!(matches!(events[5], UvEvent::Segment { from: (5, 5), to: (5, 5) }));
    assert!(s.uv.uv_drag_last.is_none());
}

#[test]
fn the_uv_editor_is_staged_when_open() {
    let mut s = panel();
    assert!(!s.uv.claim_image(7));
    s.uv.show_uv_panel = true;
    assert!(s.uv.claim_image(7) && !s.uv.claim_image(7));
    assert!(s.uv.claim_edges(3) && !s.uv.claim_edges(3));
    s.uv.uv_image = Some((1, vec![1, 2, 3, 4]));
    assert_eq!(s.uv.take_image(), Some((1, vec![1, 2, 3, 4])));
    assert_eq!(s.uv.take_image(), None);
}

#[test]
fn brush_images_and_tips() {
    let idle = || BrushInput {
        load_image: false,
        clear_image: true,
        stamp: Some(true),
        angle: Some(30),
        tile: Some(9),
        tint: Some(true),
        open_folder: true,
        entry: Some("a.png".to_string()),
        clear_tip: true,
        invert: Some(true),
        tip_angle: None,
        open_tips: false,
        tip_entry: None,
    };
    let mut s = panel();
    s.paint.brush_section(Tool::Brush, &mut s.actions.brush, idle());
    assert!(!s.paint.brush_stamp && !s.actions.brush.clear_brush_image, "no image is loaded");
    assert!(s.actions.brush.open_brush_folder);
    assert_eq!(s.actions.brush.use_brush_entry, Some("a.png".to_string()));
    s.paint.brush_image_loaded = true;
    s.paint.brush_section(Tool::Brush, &mut s.actions.brush, idle());
    assert!(s.paint.brush_stamp && s.paint.stamp_tint && s.actions.brush.clear_brush_image);
    assert_eq!((s.paint.stamp_angle_deg, s.paint.brush_tile), (30, 9));
    assert!(!s.paint.alpha_invert && !s.actions.brush.clear_alpha);
    let mut s = panel();
    s.paint.brush_section(Tool::FillObject, &mut s.actions.brush, idle());
    assert!(!s.actions.brush.open_brush_folder);
    s.paint.material_section(&mut s.actions.brush, 3, true);
    assert_eq!((s.paint.material_tile, s.actions.brush.fill_material), (3, Some(3)));
}
