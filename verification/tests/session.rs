//! The painter as a whole: modes, looks, presets, files, and strokes resolved on the GPU.

use lowtex::atlas::Shapes;
use lowtex::fill::FillMap;
use lowtex::frame::{device_retry, ring_segments, DrawItem, DEVICE_ATTEMPTS};
use lowtex::gpu_stroke::{FinishPlan, PumpPlan};
use lowtex::layers::{BlendMode, Effect, LayerOp, Layers};
use lowtex::looks::{Levels, Look, MapRecipe, MapSource, NoiseMod, Palette, Preset};
use lowtex::mesh::{Mesh, SourceTransform, Vertex};
use lowtex::painting::{Ink, ScreenDab, Touch};
use lowtex::preview::preview_too_large;
use lowtex::renderer::{
    BrushImageMode, DabPath, PaintTarget, PaletteSettings, Redraw, Renderer, ResolveKind,
    SymmetryAxis, TextureFilter, TEX_SIZE,
};
use lowtex::slots::dist_key;
use lowtex::stroke::Splat;
use lowtex::texture::{PaintTexture, TexRect};
use lowtex::ui::EffectKind;
use lowtex::unwrap::{Density, UnwrapResult};

const IDENTITY: SourceTransform<i32> = SourceTransform { scale: 1, offset: [0; 3] };
const N: usize = (TEX_SIZE * TEX_SIZE) as usize;

fn triangle() -> Mesh<i32> {
    let p = |x, y| Vertex { position: [x, y, 0], normal: [0, 0, 1], uv: [x, y] };
    Mesh {
        vertices: vec![p(0, 0), p(1, 0), p(0, 1)],
        indices: vec![0, 1, 2],
        needs_normals: false,
        needs_uvs: true,
        source_transform: IDENTITY,
    }
}

/// The base colour of the bottom layer, texel by texel.
fn show(stack: &Layers<i32>) -> Vec<u8> {
    stack.layers[0].tex.pixels.clone()
}

fn painter(gpu: bool) -> Renderer<i32> {
    painter_at(gpu, 4096)
}

fn painter_at(gpu: bool, max_texture_dim: u32) -> Renderer<i32> {
    Renderer::new(
        triangle(),
        "Base".to_string(),
        100,
        "Grey".to_string(),
        vec![[0; 3], [100; 3]],
        6,
        4,
        0,
        [1, 2, 3],
        640,
        480,
        max_texture_dim,
        gpu,
        gpu,
        &show,
    )
}

fn levels() -> Levels<i32> {
    Levels { invert: false, contrast: 1, strength: 2 }
}

fn resample(_: &PaintTexture, n: u32) -> PaintTexture {
    PaintTexture::new(n, n, [1, 2, 3, 255])
}

fn over(_: [u8; 4], src: [u8; 3], _: u32) -> [u8; 4] {
    [src[0], src[1], src[2], 255]
}

fn erased(base: [u8; 4], _: [u8; 3], _: u32) -> [u8; 4] {
    [base[0], base[1], base[2], 0]
}

fn dab(texel: usize) -> ScreenDab {
    let splats = vec![Splat { texel, cov: 10, src: [9, 8, 7] }];
    ScreenDab { hit: Some(Touch { tri: 0, id: 0, splats, faces: vec![0] }), mirror: None }
}

const INK: Ink = Ink { color: [9, 8, 7], erase: false, clean: true };
const RUBBER: Ink = Ink { erase: true, ..INK };

fn no_gpu(_: usize, _: &Vec<u32>) -> Option<TexRect> {
    None
}

fn texel(r: &Renderer<i32>, t: usize) -> [u8; 4] {
    let px = &r.layers().layers[r.layers().active].tex.pixels;
    [px[4 * t], px[4 * t + 1], px[4 * t + 2], px[4 * t + 3]]
}

#[test]
fn a_stroke_paints_and_names_its_layer() {
    let mut r = painter(false);
    r.begin_stroke();
    assert!(r.stamp_screen(dab(5), INK, &over, &erased, &no_gpu));
    let miss = ScreenDab { hit: None, mirror: None };
    assert!(!r.stamp_screen(miss, INK, &over, &erased, &no_gpu));
    assert_eq!(texel(&r, 5), [9, 8, 7, 255]);
    let end = r.end_stroke();
    assert_eq!(end.token, Some(LayerOp::Stroke));
    assert_eq!(LayerOp::Stroke.text(), Some("Stroke"));
    assert!(r.can_undo() && r.is_dirty());
    r.undo();
    assert_ne!(texel(&r, 5), [9, 8, 7, 255]);
}

fn ops(r: &Renderer<i32>, layer: usize) -> Vec<LayerOp> {
    r.layers().layers[layer].naming.ops.clone()
}

#[test]
fn a_layer_remembers_what_was_done_to_it() {
    let mut r = painter(false);
    r.begin_stroke();
    r.stamp_screen(dab(5), INK, &over, &erased, &no_gpu);
    r.end_stroke();
    mapped(&mut r);
    assert!(r.fill_object_at(Some(0), [5, 5, 5]));
    r.add_effect(Effect::Blur { radius: 2 });
    let tiled = |t: &PaintTexture, _: i32| PaintTexture::new(t.width, t.height, [1, 1, 1, 255]);
    r.fill_active_with_material(Ok(()), 2, &tiled).unwrap();
    let all = [
        LayerOp::Stroke,
        LayerOp::Fill,
        LayerOp::Effect(EffectKind::Blur),
        LayerOp::Material,
    ];
    assert_eq!(ops(&r, 0), all);
    assert_eq!(LayerOp::Effect(EffectKind::Blur).text(), None);
    assert!(r.auto_name_layer("Stroke, Fill".to_string()));
    assert_eq!(r.layers().layers[0].name, "Stroke, Fill");
    r.set_paint_target(PaintTarget::Mask);
    r.fill_object_at(Some(0), [5, 5, 5]);
    assert_eq!(ops(&r, 0), all, "the mask is no part of the name");
}

#[test]
fn a_chosen_name_stays() {
    let mut r = painter(false);
    r.rename_layer(0, "Skin".to_string());
    r.begin_stroke();
    r.stamp_screen(dab(5), INK, &over, &erased, &no_gpu);
    r.end_stroke();
    assert_eq!(ops(&r, 0), [], "nothing is noted under a chosen name");
    assert!(!r.auto_name_layer("Stroke".to_string()));
    assert_eq!(r.layers().layers[0].name, "Skin");
    let mut other = painter(false);
    other.load_project(Ok(painter(false).write_project()), [0; 3], [0; 2], IDENTITY).unwrap();
    assert!(!other.auto_name_layer("Stroke".to_string()), "a stored name is kept");
    assert_eq!(other.layers().layers[0].name, "Base");
}

#[test]
fn a_new_painter_shows_its_layers_as_they_are() {
    let r = painter(false);
    assert_eq!(r.display.buf, r.layers().layers[0].tex.pixels);
    assert!(!r.quantizes() && r.palette_settings.dither && !r.palette_settings.enabled);
    assert_eq!(r.palette_settings.dither_strength, 6);
    assert!(!r.stamp.tint && !r.stamp.invert);
    assert_eq!(r.paint_version(), 1, "the layers were drawn once");
    assert!(!r.is_dirty() && !r.can_undo());
}

#[test]
fn a_change_of_the_project_is_unsaved() {
    let saved = || {
        let mut r = painter(false);
        r.add_effect(Effect::Blur { radius: 2 });
        r.save_project(Ok(())).unwrap();
        assert!(!r.is_dirty());
        r
    };
    let mut r = saved();
    r.load_model(Ok(triangle())).unwrap();
    assert!(r.is_dirty(), "a new model");
    let mut r = saved();
    assert!(r.load_model(Err("no file".to_string())).is_err());
    assert!(!r.is_dirty(), "no new model");
    let mut r = saved();
    r.set_palette("None".to_string(), vec![]);
    assert!(r.is_dirty(), "a palette");
    let mut r = saved();
    r.generate_palette_from_image(Ok(("Photo".to_string(), vec![[1, 1, 1]]))).unwrap();
    assert!(r.is_dirty(), "a generated palette");
    let mut r = saved();
    r.set_texture_folder(Some("/tex".to_string()));
    assert!(r.is_dirty(), "a texture folder");
    let mut r = saved();
    let same = r.palette_settings;
    r.set_palette_settings(same, |a, b| a == b);
    assert!(!r.is_dirty(), "the same settings");
    r.set_palette_settings(PaletteSettings { enabled: true, ..same }, |a, b| a == b);
    assert!(r.is_dirty(), "other settings");
    let mut r = saved();
    r.set_layer_opacity(0, 30);
    assert!(r.is_dirty(), "an opacity");
    let mut r = saved();
    r.set_effect(0, Effect::Blur { radius: 3 });
    assert!(r.is_dirty(), "an effect");
}

#[test]
fn a_project_of_another_size_keeps_the_undo_steps() {
    let mut small = painter(false);
    small.set_texture_resolution(16, &resample);
    let doc = small.write_project();
    let mut r = painter(false);
    r.begin_stroke();
    r.stamp_screen(dab(5), INK, &over, &erased, &no_gpu);
    r.end_stroke();
    assert!(r.can_undo());
    r.load_project(Ok(doc), [0; 3], [0; 2], IDENTITY).unwrap();
    assert_eq!(r.texture_resolution(), 16);
    assert!(r.can_undo() && !r.can_redo() && !r.is_dirty());
    r.begin_stroke();
    assert!(r.stamp_screen(dab(7), INK, &over, &erased, &no_gpu));
    r.end_stroke();
    assert_eq!(texel(&r, 7), [9, 8, 7, 255]);
    assert!(r.undo_fits());
    assert_eq!(r.undo(), Redraw::Full);
    assert_ne!(texel(&r, 7), [9, 8, 7, 255]);
    assert!(r.can_undo() && r.undo_fits(), "no other layer has another size");
    assert_eq!(r.undo(), Redraw::Rebuild);
    assert_eq!(r.texture_resolution(), TEX_SIZE);
    assert!(r.redo_fits());
    assert_eq!(r.redo(), Redraw::Rebuild);
    assert_eq!(r.texture_resolution(), 16);
}

#[test]
fn a_step_that_holds_the_stack_survives_a_load() {
    let mut small = painter(false);
    small.set_texture_resolution(16, &resample);
    small.add_layer("Two".to_string(), 100);
    let doc = small.write_project();
    let mut r = painter(false);
    r.add_layer("Ink".to_string(), 70);
    r.begin_stroke();
    r.stamp_screen(dab(5), INK, &over, &erased, &no_gpu);
    r.end_stroke();
    r.load_project(Ok(doc), [0; 3], [0; 2], IDENTITY).unwrap();
    assert!(r.can_undo() && !r.undo_fits(), "the stroke was on a larger layer");
    let mut r = painter(false);
    r.add_layer("Ink".to_string(), 70);
    r.load_project(Ok(small.write_project()), [0; 3], [0; 2], IDENTITY).unwrap();
    assert_eq!(r.layers().layers[1].name, "Two");
    assert!(r.undo_fits());
    assert_eq!(r.undo(), Redraw::Rebuild);
    assert_eq!(r.layers().layers.len(), 1);
    assert_eq!(r.texture_resolution(), TEX_SIZE);
    assert!(r.is_dirty());
}

#[test]
fn a_stroke_may_end_over_a_loaded_project() {
    let doc = painter(false).write_project();
    let mut r = painter(false);
    r.begin_stroke();
    r.stamp_screen(dab(5), INK, &over, &erased, &no_gpu);
    r.load_project(Ok(doc), [0; 3], [0; 2], IDENTITY).unwrap();
    r.end_stroke();
    assert!(r.can_undo() && r.undo_fits());
}

#[test]
fn every_layer_edit_is_undone_and_redone() {
    let edits: Vec<fn(&mut Renderer<i32>)> = vec![
        |r| {
            r.add_layer("New".to_string(), 50);
        },
        |r| {
            r.remove_active_layer();
        },
        |r| {
            r.move_active_layer(false);
        },
        |r| {
            r.set_layer_visible(0, false);
        },
        |r| {
            r.set_layer_blend(0, BlendMode::Add);
        },
        |r| r.rename_layer(0, "Skin".to_string()),
        |r| {
            r.add_effect(Effect::Warp { amount: 1, scale: 2 });
        },
        |r| {
            r.remove_effect(0);
        },
        |r| {
            r.move_effect(0, true);
        },
        |r| {
            mapped(r);
            r.fill_face_at(Some(0), [1, 2, 3]);
        },
    ];
    for edit in edits {
        let mut r = painter(false);
        r.add_layer("Ink".to_string(), 70);
        r.add_effect(Effect::Blur { radius: 2 });
        r.add_effect(Effect::Blur { radius: 3 });
        let before = format!("{:?}", r.layers());
        edit(&mut r);
        let after = format!("{:?}", r.layers());
        assert_ne!(before, after);
        r.undo();
        assert_eq!(format!("{:?}", r.layers()), before);
        assert!(r.can_redo());
        r.redo();
        assert_eq!(format!("{:?}", r.layers()), after);
    }
}

#[test]
fn deposits_of_a_stroke_overlap_without_adding_up() {
    let lay = |order: &[(usize, u32)]| {
        let mut r = painter(false);
        r.begin_stroke();
        for &(texel, cov) in order {
            let s = vec![Splat { texel, cov, src: [9, 8, 7] }];
            r.deposit(&s, false, &|b, _, a| [b[0], b[1], b[2], a as u8], &erased);
        }
        r.layers().layers[0].tex.pixels.clone()
    };
    let once = lay(&[(1, 10), (2, 30), (1, 20)]);
    assert_eq!(once[7], 20);
    assert_eq!(once, lay(&[(1, 20), (1, 10), (2, 30), (2, 30), (1, 20)]));
}

#[test]
fn a_stroke_that_missed_leaves_no_trace() {
    let mut r = painter(false);
    r.begin_stroke();
    let end = r.end_stroke();
    assert_eq!(end.token, None);
    assert!(!r.can_undo() && !r.is_dirty());
}

#[test]
fn the_eraser_takes_alpha_away() {
    let mut r = painter(false);
    r.begin_stroke();
    r.stamp_screen(dab(5), RUBBER, &over, &erased, &no_gpu);
    r.end_stroke();
    assert_eq!(texel(&r, 5)[3], 0);
}

#[test]
fn a_mask_stroke_leaves_colour_alone() {
    let mut r = painter(false);
    r.set_paint_target(PaintTarget::Mask);
    r.set_mask_reveal(false);
    let before = texel(&r, 5);
    r.begin_stroke();
    r.stamp_screen(dab(5), INK, &over, &erased, &no_gpu);
    let end = r.end_stroke();
    assert_eq!(end.token, None);
    assert_eq!(texel(&r, 5), before);
    assert_eq!(&r.layers().layers[0].mask.pixels[20..24], &[0, 0, 0, 255]);
}

#[test]
fn segments_have_bounded_steps() {
    let mut r = painter(false);
    r.begin_stroke();
    let at = |_: u32, _: u32| dab(1);
    assert_eq!(r.paint_segment(0, &at, INK, &over, &erased, &no_gpu), 1);
    assert_eq!(r.paint_segment(100_000, &at, INK, &over, &erased, &no_gpu), 1024);
    let disc = |_: u32, _: u32| vec![Splat { texel: 2, cov: 10, src: [1, 1, 1] }];
    assert_eq!(r.paint_uv_segment(100_000, &disc, false, &over, &erased), 4096);
    assert_eq!(texel(&r, 2), [1, 1, 1, 255]);
    assert!(r.uv_stroke);
}

fn mapped(r: &mut Renderer<i32>) {
    r.ensure_fill_map(&|_, size| {
        let n = (size * size) as usize;
        let texel: Vec<i32> = (0..n).map(|t| if t < n / 2 { 0 } else { -1 }).collect();
        FillMap {
            size,
            texel_island: texel.clone(),
            texel_facet: texel,
            island_of_tri: vec![0],
            facet_of_tri: vec![0],
        }
    });
}

#[test]
fn fills_cover_what_was_hit() {
    let mut r = painter(false);
    mapped(&mut r);
    assert!(!r.fill_face_at(None, [1, 2, 3]));
    assert!(!r.can_undo());
    assert!(r.fill_face_at(Some(0), [1, 2, 3]));
    assert_eq!(texel(&r, 0), [1, 2, 3, 255]);
    assert!(r.fill_island_at(Some(0), [4, 5, 6]));
    assert_eq!(texel(&r, 0), [4, 5, 6, 255]);
    assert!(r.fill_object_at(Some(0), [7, 8, 9]));
    assert_eq!(texel(&r, 0), [7, 8, 9, 255]);
    assert_ne!(texel(&r, N - 1), [7, 8, 9, 255], "no triangle covers it");
    r.undo();
    assert_eq!(texel(&r, 0), [4, 5, 6, 255]);
}

#[test]
fn the_path_of_a_dab() {
    let mut r = painter(true);
    assert_eq!(r.brush.dab_path(false, true), DabPath::Gpu);
    assert_eq!(r.brush.dab_path(false, false), DabPath::Splat);
    r.load_brush_alpha(Ok(())).unwrap();
    assert_eq!(r.brush.dab_path(false, true), DabPath::Tip);
    r.clear_brush_alpha();
    r.load_brush_material(Ok(())).unwrap();
    assert_eq!(r.brush.dab_path(false, true), DabPath::Gpu);
    r.set_brush_image_mode(BrushImageMode::Stamp);
    assert!(r.brush.stamp_active());
    assert_eq!(r.brush.dab_path(false, true), DabPath::Decal);
    r.clear_brush_material();
    assert!(!r.brush.has_image);
    assert_eq!(r.load_brush_material(Err("bad".to_string())), Err("bad".to_string()));
    assert!(!r.brush.has_image);
}

#[test]
fn axes_filters_and_modes_have_names() {
    assert_eq!(SymmetryAxis::ALL.map(|a| a.name()), ["X", "Y", "Z"]);
    assert_eq!(SymmetryAxis::ALL.map(|a| a.index()), [0, 1, 2]);
    assert_ne!(TextureFilter::Nearest.label(), TextureFilter::Linear.label());
    let mut r = painter(false);
    assert!(r.set_texture_filter(TextureFilter::Linear));
    assert!(!r.set_texture_filter(TextureFilter::Linear));
}

#[test]
fn looks_add_layers_and_make_a_preset() {
    let mut r = painter(false);
    let e = r.save_preset("Worn".to_string()).unwrap_err();
    assert_eq!(e, "no generator layers to save — apply AO/Dirt/Edge-wear first");
    let alphas = vec![60u8; N];
    assert_eq!(r.apply_ao_layer(&alphas, levels(), None, 100), Redraw::Full);
    let noise = NoiseMod { kind: 1, scale: 4, contrast: 5, amount: 6 };
    r.apply_dirt_layer(&alphas, levels(), Some(noise), 100);
    r.apply_highlight_layer(&alphas, levels(), None, 100);
    r.apply_edge_wear_layer(&alphas, levels(), None, 100);
    let names: Vec<&str> = r.layers().layers.iter().map(|l| l.name.as_str()).collect();
    assert_eq!(names, ["Base", "AO", "Dirt", "Highlights", "Edge wear"]);
    assert_eq!(r.layers().layers[1].blend, BlendMode::Multiply);
    assert_eq!(&r.layers().layers[2].tex.pixels[..4], &[54, 42, 30, 60]);
    let p = r.save_preset("Worn".to_string()).unwrap();
    assert_eq!((p.name.as_str(), p.layers.len(), p.palette), ("Worn", 4, None));
    assert_eq!(p.layers[1].source, MapSource::Cavities);
    assert_eq!(p.layers[1].color, Look::Dirt.color());
    assert_eq!(p.layers[1].noise.unwrap().kind, 1);
}

#[test]
fn presets_apply_their_layers_and_palette() {
    let mut r = painter(false);
    r.apply_ao_layer(&vec![1u8; N], levels(), None, 100);
    let mut p = r.save_preset("Mine".to_string()).unwrap();
    p.palette = Some("wARM".to_string());
    let builtins = vec![Palette { name: "Warm".to_string(), colors: vec![[9, 0, 0]] }];
    let sample = |_: &lowtex::looks::PresetLayer<i32>, n: u32| vec![7u8; (n * n) as usize];
    let mut fresh = painter(false);
    fresh.apply_preset(&p, &builtins, &sample, 100);
    assert_eq!(fresh.layers().layers.len(), 2);
    assert_eq!(fresh.layers().layers[1].tex.pixels[3], 7);
    assert_eq!(fresh.palette_name, "Warm");
    assert_eq!(fresh.palette(), &vec![[9, 0, 0]]);

    let mut r = painter(false);
    let none: Option<Preset<i32>> = None;
    let e = r.apply_builtin_preset("Rust", none, &builtins, &sample, 100).unwrap_err();
    assert_eq!(e, "no built-in preset 'Rust'");
    let e = r.load_and_apply_preset(Err("unreadable".to_string()), &builtins, &sample, 100);
    assert_eq!(e.unwrap_err(), "unreadable");
    assert_eq!(r.layers().layers.len(), 1);
    assert!(r.load_and_apply_preset(Ok(p), &builtins, &sample, 100).is_ok());
    assert_eq!(r.layers().layers.len(), 2);
}

#[test]
fn a_preset_of_a_palette_alone_is_a_change() {
    let builtins = vec![Palette { name: "Warm".to_string(), colors: vec![[9, 0, 0]] }];
    let sample = |_: &lowtex::looks::PresetLayer<i32>, n: u32| vec![7u8; (n * n) as usize];
    let named = |palette: Option<String>| Preset { name: "P".to_string(), layers: vec![], palette };
    let mut r = painter(false);
    assert_eq!(r.apply_preset(&named(None), &builtins, &sample, 100), Redraw::Keep);
    let unknown = named(Some("Cold".to_string()));
    assert_eq!(r.apply_preset(&unknown, &builtins, &sample, 100), Redraw::Keep);
    assert!(!r.is_dirty());
    let warm = named(Some("warm".to_string()));
    assert_eq!(r.apply_preset(&warm, &builtins, &sample, 100), Redraw::Full);
    assert!(r.is_dirty() && !r.can_undo());
    assert_eq!(r.palette_name, "Warm");
}

#[test]
fn map_layers_gradients_and_masks() {
    let mut r = painter(false);
    let recipe = MapRecipe {
        source: MapSource::Light,
        levels: levels(),
        color: [1, 2, 3],
        blend: BlendMode::Screen,
        noise: None,
    };
    r.add_map_layer("Sun", &vec![5u8; N], recipe, 100);
    assert_eq!(r.layers().layers[1].name, "Sun");
    assert_eq!(&r.layers().layers[1].tex.pixels[..4], &[1, 2, 3, 5]);
    r.add_gradient_layer(
        "Ramp".to_string(),
        &vec![true; N],
        &vec![[4, 5, 6]; N],
        BlendMode::Normal,
        100,
    );
    assert_eq!(&r.layers().layers[2].tex.pixels[..4], &[4, 5, 6, 255]);
    r.fill_active_mask_from_map(&vec![44u8; N]);
    assert_eq!(r.layers().layers[2].mask.pixels[0], 44);
}

#[test]
fn palettes() {
    let mut r = painter(false);
    assert!(!r.quantizes());
    let on = PaletteSettings { enabled: true, dither: false, dither_strength: 6 };
    assert_eq!(r.set_palette_settings(on, |a, b| a == b), Redraw::Full);
    assert_eq!(r.set_palette_settings(on, |a, b| a == b), Redraw::Keep);
    assert!(r.quantizes());
    assert!(r.exports_indexed(true) && !r.exports_indexed(false));
    r.set_palette("None".to_string(), vec![]);
    assert!(!r.quantizes());
    let made = r.generate_palette_from_image(Ok(("Photo".to_string(), vec![[1, 1, 1]])));
    assert!(made.is_ok());
    assert_eq!(r.palette_name, "Photo");
    assert_eq!(r.generate_palette_from_image(Err("no".to_string())).unwrap_err(), "no");
}

#[test]
fn a_project_round_trip() {
    let mut r = painter(false);
    r.add_layer("Ink".to_string(), 70);
    r.set_layer_blend(1, BlendMode::Add);
    r.begin_stroke();
    r.stamp_screen(dab(9), INK, &over, &erased, &no_gpu);
    r.end_stroke();
    r.set_texture_folder(Some("/tex".to_string()));
    r.scene.mesh.source_transform = SourceTransform { scale: 3, offset: [1, 2, 3] };
    let doc = r.write_project();
    let mut other = painter(false);
    other.load_project(Ok(doc), [0, 1, 0], [0, 0], IDENTITY).unwrap();
    assert_eq!(other.layers().layers.len(), 2);
    assert_eq!(other.layers().layers[1].name, "Ink");
    assert_eq!(other.layers().layers[1].opacity, 70);
    assert_eq!(other.layers().layers[1].blend, BlendMode::Add);
    assert_eq!(texel(&other, 9), [9, 8, 7, 255]);
    assert_eq!(other.texture_folder(), Some("/tex"));
    assert_eq!(other.scene.mesh.source_transform, r.scene.mesh.source_transform);
    let mut doc = r.write_project();
    doc.source_transform = None;
    other.load_project(Ok(doc), [0, 1, 0], [0, 0], IDENTITY).unwrap();
    assert_eq!(other.scene.mesh.source_transform, IDENTITY);
    assert!(!other.is_dirty() && !other.can_undo());
}

#[test]
fn unreadable_projects_change_nothing() {
    let mut r = painter(false);
    r.add_layer("Ink".to_string(), 70);
    let e = r.load_project(Err("gone".to_string()), [0; 3], [0; 2], IDENTITY).unwrap_err();
    assert_eq!(e, "gone");
    let mut doc = r.write_project();
    doc.layers = Ok(vec![]);
    let e = r.load_project(Ok(doc), [0; 3], [0; 2], IDENTITY).unwrap_err();
    assert_eq!(e, "project has no layers");
    let mut doc = r.write_project();
    doc.layers = Err("bad png".to_string());
    assert_eq!(r.load_project(Ok(doc), [0; 3], [0; 2], IDENTITY).unwrap_err(), "bad png");
    assert_eq!(r.layers().layers.len(), 2);
    assert!(r.is_dirty());
}

#[test]
fn a_failed_save_stays_unsaved() {
    let mut r = painter(false);
    r.checkpoint();
    assert_eq!(r.save_project(Err("disk full".to_string())), Err("disk full".to_string()));
    assert_eq!(r.autosave(Err("disk full".to_string())), Err("disk full".to_string()));
    assert!(r.is_dirty() && r.needs_autosave());
}

#[test]
fn a_new_resolution_resamples_every_layer() {
    let mut r = painter(false);
    mapped(&mut r);
    assert_eq!(r.set_texture_resolution(TEX_SIZE, &resample), Redraw::Keep);
    assert_eq!(r.set_texture_resolution(1, &resample), Redraw::Rebuild);
    assert_eq!(r.texture_resolution(), 8, "clamped to what is allowed");
    assert!(r.scene.fill_map.is_none());
    assert_eq!(r.layers().layers[0].tex.pixels[..4], [1, 2, 3, 255]);
    assert_eq!(r.undo(), Redraw::Rebuild);
    assert_eq!(r.texture_resolution(), TEX_SIZE);
}

#[test]
fn an_unwrap_replaces_the_mesh_and_sizes_the_texture() {
    let mut r = painter(false);
    let o = r.unwrap_options(Density::High, true, 40);
    assert_eq!((o.density, o.overlap_identical, o.max_atlas), (Density::High, true, 4096));
    assert_eq!(r.unwrap_options_at(64, false, 40).target_density, Some(64));
    let result = UnwrapResult { mesh: triangle(), atlas_size: 64, clamped: true, density_d: 5 };
    assert_eq!(r.apply_unwrap_opts(result, &resample), (64, true, 5));
    assert_eq!(r.texture_resolution(), 64);
    assert_eq!(r.topo_version(), 1);
    assert!(r.is_dirty());
}

/// Unwraps the triangle into one square chart, at a preset density or at an exact one.
fn unwrap(r: &mut Renderer<i32>, density: Result<Density, i32>) -> (u32, bool, i32) {
    let keys = vec![(0, 0, 0), (1, 0, 0), (0, 1, 0)];
    let joins = |_: usize, _: usize| true;
    let shape = |_: &Vec<usize>, charts: &Vec<Vec<usize>>| Shapes {
        verts: vec![3; charts.len()],
        keys: charts.iter().map(|_| dist_key(3, vec![1, 1, 2])).collect(),
        data: (),
    };
    let register = |_: &(), _: usize, _: usize| -> Option<u8> { None };
    let spacing = |_: &(), _: &Vec<usize>| 16;
    let counts = |d: i32| d > 0;
    let boxes = |_: &(), reps: &Vec<usize>, d: i32| vec![(d as u32, d as u32); reps.len()];
    let scale = |d: i32, atlas: u32, extent: u64| d * atlas as i32 / extent as i32;
    let place = |_: &(),
                 _: usize,
                 _: usize,
                 _: Option<(usize, u8)>,
                 at: (u64, u64),
                 d: i32,
                 _: u32| {
        let (x, y) = (at.0 as i32, at.1 as i32);
        [[x, y], [x + d, y], [x, y + d]]
    };
    match density {
        Ok(preset) => r.apply_unwrap(
            preset, false, 40, &keys, 1, joins, &shape, &register, &spacing, &counts, &boxes,
            &scale, &place, &resample,
        ),
        Err(exact) => r.apply_unwrap_at_density(
            exact, true, 40, &keys, 1, joins, &shape, &register, &spacing, &counts, &boxes, &scale,
            &place, &resample,
        ),
    }
}

#[test]
fn an_unwrap_uses_the_settings_asked_for() {
    let mut r = painter(false);
    let filled = unwrap(&mut r, Ok(Density::Low));
    assert_eq!(filled, (32, false, 23), "a preset fills the atlas");
    assert_eq!(r.scene.mesh.vertices[1].uv, [23, 0]);
    assert!(r.mesh_has_uvs());
    assert_eq!(r.texture_resolution(), 32);
    assert_eq!(unwrap(&mut r, Err(96)), (128, false, 96), "an exact density is kept");
    assert_eq!(r.scene.mesh.vertices[1].uv, [96, 0]);
    assert_eq!(r.texture_resolution(), 128);
    r.undo();
    assert_eq!(r.texture_resolution(), 32);
}

#[test]
fn an_unwrap_keeps_to_the_largest_power_of_two_allowed() {
    let mut r = painter_at(false, 100);
    let (atlas, clamped, density) = unwrap(&mut r, Err(96));
    assert_eq!((atlas, clamped), (64, true));
    assert!(density < 96);
    assert_eq!(r.texture_resolution(), 64);
}

#[test]
fn brush_and_background_settings() {
    let mut r = painter(false);
    r.set_brush_tile(7);
    r.set_stamp_options(30, true);
    r.set_brush_alpha_invert(true);
    r.set_bg_color([9, 9, 9]);
    assert_eq!((r.stamp.tile, r.stamp.angle, r.stamp.tint, r.stamp.invert), (7, 30, true, true));
    assert_eq!(r.bg_color, [9, 9, 9]);
    let idle = |fx: &Effect<i32>| matches!(fx, Effect::Blur { radius: 0 });
    assert!(r.active_clean(&idle));
    r.add_effect(Effect::Blur { radius: 0 });
    assert!(r.active_clean(&idle));
    r.add_effect(Effect::Blur { radius: 2 });
    assert!(!r.active_clean(&idle));
}

#[test]
fn hidden_effects_reach_nowhere() {
    let mut r = painter(false);
    r.add_effect(Effect::Blur { radius: 5 });
    let reach = |fx: &Effect<i32>| match fx {
        Effect::Blur { radius } => *radius as u32,
        _ => 0,
    };
    assert_eq!(r.layers().effect_spread(&|o| o > 0, &reach), 5);
    r.set_layer_opacity(0, 0);
    assert_eq!(r.layers().effect_spread(&|o| o > 0, &reach), 0);
    r.set_layer_opacity(0, 1);
    r.set_layer_visible(0, false);
    assert_eq!(r.layers().effect_spread(&|o| o > 0, &reach), 0);
}

#[test]
fn a_new_model_drops_what_was_derived() {
    let mut r = painter(false);
    mapped(&mut r);
    r.ensure_coverage(&|_, n| vec![true; (n * n) as usize]);
    assert!(r.claim_mesh_maps() && !r.claim_mesh_maps());
    assert!(r.claim_light([1, 2, 3, 0]) && !r.claim_light([1, 2, 3, 0]));
    assert!(r.claim_light([1, 2, 3, 1]));
    assert!(r.claim_gpu_coverage() && !r.claim_gpu_coverage());
    assert!(!r.mesh_has_uvs());
    assert_eq!(r.build_uv_edges().len(), 3);
    let mut mesh = triangle();
    mesh.needs_uvs = false;
    r.load_model(Ok(mesh)).unwrap();
    assert!(r.mesh_has_uvs());
    assert!(r.scene.fill_map.is_none() && r.scene.coverage.is_none());
    assert!(r.claim_mesh_maps() && r.claim_light([1, 2, 3, 1]));
    r.ensure_coverage(&|_, n| vec![false; (n * n) as usize]);
    assert!(r.claim_gpu_coverage(), "same resolution, another mesh");
    assert_eq!(r.load_model(Err("no file".to_string())), Err("no file".to_string()));
}

#[test]
fn images_replace_the_active_layer() {
    let mut r = painter(false);
    let small = PaintTexture::new(2, 1, [1, 1, 1, 255]);
    let grow = |t: &PaintTexture, n: u32| {
        PaintTexture::new(n, n, [t.pixels[0], t.width as u8, t.height as u8, 255])
    };
    assert!(r.load_texture_png(Ok(small), &grow).is_ok());
    assert_eq!(texel(&r, 0), [1, 2, 1, 255]);
    assert_eq!(r.load_texture_png(Err("x".to_string()), &grow).unwrap_err(), "x");
    let tiled = |t: &PaintTexture, tile: i32| {
        PaintTexture::new(t.width, t.height, [tile as u8, 2 * t.pixels[0], 2, 255])
    };
    assert_eq!(r.fill_active_with_material(Err("y".to_string()), 2, &tiled).unwrap_err(), "y");
    assert_eq!(texel(&r, 0), [1, 2, 1, 255]);
    assert!(r.fill_active_with_material(Ok(()), 2, &tiled).is_ok());
    assert_eq!(texel(&r, 0), [2, 2, 2, 255]);
    mapped(&mut r);
    r.clean_seams(&|t, _| vec![3u8; t.pixels.len()]);
    assert_eq!(texel(&r, 0), [3, 3, 3, 3]);
    r.undo();
    assert_eq!(texel(&r, 0), [2, 2, 2, 255]);
}

#[test]
fn layer_operations_say_what_to_redraw() {
    let mut r = painter(false);
    assert_eq!(r.remove_active_layer(), Redraw::Keep);
    assert_eq!(r.add_layer("A".to_string(), 100), Redraw::Full);
    assert_eq!(r.set_layer_visible(0, false), Redraw::Full);
    assert_eq!(r.set_layer_visible(7, false), Redraw::Keep);
    r.rename_layer(1, "B".to_string());
    assert_eq!(r.layers().layers[1].name, "B");
    assert_eq!(r.undo(), Redraw::Full);
    assert_eq!(r.redo(), Redraw::Full);
    assert_eq!(r.remove_active_layer(), Redraw::Full);
}

#[test]
fn strokes_resolved_on_the_gpu() {
    let mut r = painter(true);
    r.begin_stroke();
    let a = TexRect { x0: 0, y0: 0, x1: 2, y1: 1 };
    assert!(!r.gpu_surface_dab(None, [1, 2, 3], false, true));
    assert!(r.gpu_surface_dab(Some(a), [1, 2, 3], false, true));
    assert!(r.gpu.resolve);
    assert_eq!(r.gpu.resolve_kind(), ResolveKind::Color([1, 2, 3]));
    assert!(matches!(r.pump_gpu_stroke(false), PumpPlan::Resolve(Some(_))));
    assert!(matches!(r.finish_gpu_stroke(), FinishPlan::Resolve(Some(_))));
    r.finish_gpu_resolve_stroke(Some(vec![9; 8]));
    assert_eq!(texel(&r, 1), [9; 4]);
    let end = r.end_stroke();
    assert_eq!(end.resync, Some(a));
    assert!(r.can_undo());
}

#[test]
fn dabs_are_stamped_on_the_gpu() {
    let mut r = painter(true);
    r.scene.fill_map = Some(FillMap {
        size: TEX_SIZE,
        texel_island: vec![0; N],
        texel_facet: vec![0; N],
        island_of_tri: vec![0, 0, 0],
        facet_of_tri: vec![0, 1, 0],
    });
    r.set_lock_face(true);
    let before = texel(&r, 5);
    r.begin_stroke();
    let touch = |tri: u32, id: usize, faces: Vec<u32>| Touch { tri, id, splats: vec![], faces };
    let d = ScreenDab {
        hit: Some(touch(0, 7, vec![0, 1, 2])),
        mirror: Some(touch(0, 8, vec![1])),
    };
    let stamp = |id: usize, faces: &Vec<u32>| -> Option<TexRect> {
        assert_eq!(faces, &if id == 7 { vec![0, 2] } else { vec![] }, "facet 1 is not locked");
        if id == 7 { Some(TexRect { x0: 1, y0: 2, x1: 3, y1: 4 }) } else { None }
    };
    assert!(r.stamp_screen(d, INK, &over, &erased, &stamp));
    assert!(r.stroke_dirty && r.gpu.resolve);
    assert_eq!(r.gpu.rect, Some(TexRect { x0: 1, y0: 2, x1: 3, y1: 4 }));
    assert_eq!(texel(&r, 5), before, "the layer waits for the readback");
    assert_eq!(r.coverage_kind(), ResolveKind::Color([9, 8, 7]));
    r.brush.has_image = true;
    assert_eq!(r.coverage_kind(), ResolveKind::Material);
    r.gpu.erase = true;
    assert_eq!(r.coverage_kind(), ResolveKind::Erase);
}

#[test]
fn coverage_read_back_from_the_gpu() {
    let mut r = painter(true);
    r.set_paint_target(PaintTarget::Mask);
    r.set_mask_reveal(false);
    r.begin_stroke();
    let a = TexRect { x0: 0, y0: 0, x1: 2, y1: 1 };
    r.gpu_surface_dab(Some(a), [1, 2, 3], false, true);
    assert!(!r.gpu.resolve);
    assert_eq!(r.coverage_kind(), ResolveKind::Color([0; 3]));
    assert!(matches!(r.pump_gpu_stroke(true), PumpPlan::Readback(None)));
    assert!(matches!(r.pump_gpu_stroke(false), PumpPlan::Readback(Some(_))));
    r.apply_gpu_coverage(&vec![0, 5], a, &|_, b, c| [b[0] - c as u8, b[1], b[2], b[3]]);
    assert_eq!(r.layers().layers[0].mask.pixels[0], 255);
    assert_eq!(r.layers().layers[0].mask.pixels[4], 250);
    assert_eq!(r.display.dirty_rect, Some(a));
    assert!(matches!(r.finish_gpu_stroke(), FinishPlan::Drain(None)));
}

#[test]
fn stamped_texels_are_read_back() {
    let mut r = painter(true);
    r.set_paint_target(PaintTarget::Mask);
    r.begin_stroke();
    r.gpu_surface_dab(Some(TexRect { x0: 0, y0: 3, x1: 2, y1: 4 }), [0; 3], false, true);
    assert!(matches!(r.pump_gpu_stroke(true), PumpPlan::Readback(None)));
    r.gpu_surface_dab(Some(TexRect { x0: 5, y0: 1, x1: 6, y1: 2 }), [0; 3], false, true);
    let all = TexRect { x0: 0, y0: 1, x1: 6, y1: 4 };
    assert!(matches!(r.finish_gpu_stroke(), FinishPlan::Drain(Some(rect)) if rect == all));
    assert_eq!(r.gpu.rect, None);
}

#[test]
fn a_brush_image_is_sent_once() {
    let mut r = painter(true);
    assert!(!r.claim_gpu_image());
    r.load_brush_material(Ok(())).unwrap();
    assert!(r.claim_gpu_image() && !r.claim_gpu_image());
    r.load_brush_material(Ok(())).unwrap();
    assert!(r.claim_gpu_image());
}

#[test]
fn frames() {
    let mut r = painter(true);
    assert_eq!(
        r.draw_into(true, 8, true),
        vec![
            DrawItem::Mesh { indices: 3, atlas: true },
            DrawItem::Grid,
            DrawItem::Outline { vertices: 8 },
            DrawItem::Compass,
        ]
    );
    r.set_show_grid(false);
    assert_eq!(r.draw_into(false, 0, false), vec![DrawItem::Mesh { indices: 3, atlas: false }]);
    assert!(!r.resize(0, 5));
    assert!(r.resize(9000, 5));
    assert_eq!((r.width, r.height), (4096, 5));
    assert_eq!(ring_segments(3), vec![(0, 1), (1, 2), (2, 0)]);
}

#[test]
fn captures_are_unpadded() {
    let mut r = painter(false);
    r.resize(1, 2);
    let (_, layout) = r.begin_capture();
    assert_eq!((layout.row_bytes, layout.total), (256, 512));
    let mut data = vec![0u8; 512];
    data[3] = 1;
    data[259] = 2;
    let (px, w, h) = layout.capture(&data);
    assert_eq!((px, w, h), (vec![0, 0, 0, 1, 0, 0, 0, 2], 1, 2));
}

#[test]
fn a_busy_device_is_asked_again() {
    assert!(device_retry(0).again);
    assert!(!device_retry(DEVICE_ATTEMPTS - 1).again);
    assert!(device_retry(0).wait_ms <= device_retry(5).wait_ms);
}

#[test]
fn ghosts_are_not_shown_everywhere() {
    let mut r = painter(false);
    assert!(r.preview_allowed(false) && !r.preview_allowed(true));
    r.set_paint_target(PaintTarget::Mask);
    assert!(!r.preview_allowed(false));
    let r0 = TexRect { x0: 0, y0: 0, x1: 200, y1: 150 };
    assert!(!preview_too_large(Some(r0)) && !preview_too_large(None));
    assert!(preview_too_large(Some(TexRect { x1: 201, ..r0 })));
}
