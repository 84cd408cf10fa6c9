//! Layers, undo, saving and project files.

use lowtex::document::Document;
use lowtex::history::HISTORY_CAP;
use lowtex::layers::{
    doc_to_effect, effect_to_doc, BlendMode, Effect, EffectDoc, Layer, LayerOp, Layers, Naming,
};
use lowtex::mesh::SourceTransform;
use lowtex::project::{
    layer_from_doc, layer_to_doc, layers_from_docs, layers_to_docs, mesh_from_lists, mesh_lists,
    LoadError,
};
use lowtex::stroke::{Splat, StrokeBuffers};
use lowtex::texture::{PaintTexture, TexRect};

fn layer(name: &str, shade: u8) -> Layer<i32> {
    Layer {
        name: name.to_string(),
        tex: PaintTexture::new(2, 2, [shade, shade, shade, 255]),
        mask: PaintTexture::new(2, 2, [255, 255, 255, 255]),
        visible: true,
        opacity: 100,
        blend: BlendMode::Normal,
        effects: Vec::new(),
        naming: Naming::new(),
    }
}

fn document() -> Document<i32> {
    Document::new(Layers { layers: vec![layer("Base", 10)], active: 0 })
}

fn names(d: &Document<i32>) -> Vec<String> {
    d.layers().layers.iter().map(|l| l.name.clone()).collect()
}

#[test]
fn a_new_layer_is_transparent_and_active() {
    let mut d = document();
    d.add_layer("Paint".to_string(), 100);
    assert_eq!(names(&d), ["Base", "Paint"]);
    assert_eq!(d.layers().active, 1);
    assert!(d.layers().layers[1].tex.pixels.iter().all(|&b| b == 0));
    assert!(d.layers().layers[1].mask.pixels.iter().all(|&b| b == 255));
    assert_eq!(d.size(), 2);
}

#[test]
fn undo_and_redo_are_inverse() {
    let mut d = document();
    assert!(!d.can_undo() && !d.can_redo());
    assert!(!d.undo() && !d.redo());
    d.add_layer("Paint".to_string(), 100);
    d.rename_layer(1, "Red".to_string());
    assert!(d.undo());
    assert_eq!(names(&d), ["Base", "Paint"]);
    assert!(d.undo());
    assert_eq!(names(&d), ["Base"]);
    assert!(d.can_redo());
    assert!(d.redo());
    assert!(d.redo());
    assert_eq!(names(&d), ["Base", "Red"]);
    assert!(!d.can_redo());
}

#[test]
fn an_edit_forgets_what_was_undone() {
    let mut d = document();
    d.add_layer("A".to_string(), 100);
    d.undo();
    d.add_layer("B".to_string(), 100);
    assert!(!d.can_redo());
    assert_eq!(names(&d), ["Base", "B"]);
}

#[test]
fn history_is_bounded() {
    let mut d = document();
    for i in 0..HISTORY_CAP + 10 {
        d.rename_layer(0, format!("{i}"));
    }
    let mut steps = 0;
    while d.undo() {
        steps += 1;
    }
    assert_eq!(steps, HISTORY_CAP);
    assert_eq!(names(&d), ["9"]);
}

#[test]
fn saving_and_autosaving_are_apart() {
    let mut d = document();
    d.checkpoint();
    assert!(d.is_dirty() && d.needs_autosave());
    d.mark_autosaved();
    assert!(d.is_dirty() && !d.needs_autosave());
    d.mark_saved();
    assert!(!d.is_dirty());
    d.undo();
    assert!(d.is_dirty() && d.needs_autosave());
    d.load(Layers { layers: vec![layer("New", 1)], active: 0 });
    assert!(!d.is_dirty() && !d.needs_autosave());
    assert!(d.can_redo(), "the steps stay");
}

#[test]
fn the_last_layer_stays() {
    let mut d = document();
    assert!(!d.remove_active_layer());
    d.add_layer("A".to_string(), 100);
    d.add_layer("B".to_string(), 100);
    d.set_active_layer(1);
    assert!(d.remove_active_layer());
    assert_eq!(names(&d), ["Base", "B"]);
    assert!(d.layers().active < 2);
}

#[test]
fn layers_move_within_the_stack() {
    let mut d = document();
    d.add_layer("A".to_string(), 100);
    d.move_active_layer(false);
    assert_eq!(names(&d), ["A", "Base"]);
    assert_eq!(d.layers().active, 0);
    d.move_active_layer(false);
    assert_eq!(names(&d), ["A", "Base"]);
    d.move_active_layer(true);
    assert_eq!(names(&d), ["Base", "A"]);
}

#[test]
fn merging_down_replaces_two_layers() {
    let mut d = document();
    let tex = PaintTexture::new(2, 2, [7, 7, 7, 255]);
    let mask = PaintTexture::new(2, 2, [255, 255, 255, 255]);
    assert!(!d.merge_active_layer_down(tex.copied(), mask.copied()));
    d.add_layer("A".to_string(), 100);
    assert!(d.merge_active_layer_down(tex, mask));
    assert_eq!(names(&d), ["Base"]);
    assert_eq!(d.layers().layers[0].tex.pixels[0], 7);
    d.undo();
    assert_eq!(d.layers().layers[0].tex.pixels[0], 10);
}

#[test]
fn layer_settings() {
    let mut d = document();
    assert!(d.set_layer_visible(0, false));
    assert!(!d.set_layer_visible(3, false));
    assert!(d.set_layer_opacity(0, 40));
    assert!(d.set_layer_blend(0, BlendMode::Add));
    let l = &d.layers().layers[0];
    assert!(!l.visible);
    assert_eq!((l.opacity, l.blend), (40, BlendMode::Add));
}

#[test]
fn effects_are_edited_in_order() {
    let mut d = document();
    d.add_effect(Effect::Blur { radius: 1 });
    d.add_effect(Effect::Warp { amount: 2, scale: 3 });
    assert!(!d.move_effect(1, true) && !d.move_effect(0, false));
    assert!(d.move_effect(0, true));
    d.undo();
    assert!(matches!(d.layers().layers[0].effects[0], Effect::Blur { radius: 1 }));
    d.redo();
    assert!(d.set_effect(0, Effect::Warp { amount: 5, scale: 6 }));
    assert!(!d.set_effect(9, Effect::Blur { radius: 1 }));
    assert!(matches!(d.layers().layers[0].effects[0], Effect::Warp { amount: 5, scale: 6 }));
    assert!(d.remove_effect(0));
    assert!(!d.remove_effect(4));
    assert_eq!(d.layers().layers[0].effects.len(), 1);
}

#[test]
fn blend_modes_are_numbered() {
    for (i, b) in BlendMode::ALL.iter().enumerate() {
        assert_eq!(b.index() as usize, i);
        assert_eq!(BlendMode::from_index(i as u8), *b);
    }
    assert_eq!(BlendMode::from_index(200), BlendMode::Normal);
}

#[test]
fn effects_survive_storage() {
    let fx = Effect::HueSatLight { hue: 1, sat: 2, light: 3 };
    let doc = effect_to_doc(&fx);
    assert!(matches!(doc, EffectDoc::HueSatLight { hue: 1, sat: 2, light: 3 }));
    assert!(matches!(doc_to_effect(&doc), Effect::HueSatLight { hue: 1, sat: 2, light: 3 }));
}

#[test]
fn stored_layers_load_unchanged() {
    let mut l = layer("Ink", 33);
    l.visible = false;
    l.blend = BlendMode::Screen;
    l.effects.push(Effect::Blur { radius: 4 });
    let d = layer_to_doc(&l);
    assert_eq!((d.blend, d.opacity, d.color.len()), (BlendMode::Screen.index(), 100, 16));
    let back = layer_from_doc(&d, 2);
    assert_eq!((back.name.as_str(), back.visible, back.blend), ("Ink", false, BlendMode::Screen));
    assert_eq!(back.tex.pixels, l.tex.pixels);
    assert_eq!(back.mask.pixels, l.mask.pixels);
    assert!(matches!(back.effects[0], Effect::Blur { radius: 4 }));
}

#[test]
fn a_project_needs_a_layer() {
    let stack = Layers { layers: vec![layer("A", 1), layer("B", 2)], active: 1 };
    let docs = layers_to_docs(&stack);
    let back = layers_from_docs(&docs, 2, 9).unwrap();
    assert_eq!(back.layers.len(), 2);
    assert_eq!(back.active, 1, "an index past the end becomes the last layer");
    let e = layers_from_docs::<i32>(&vec![], 2, 0).unwrap_err();
    assert_eq!(e, LoadError::NoLayers);
    assert_eq!(e.message(), "project has no layers");
}

#[test]
fn a_mesh_comes_back_from_its_lists() {
    let m = mesh_from_lists(
        &vec![[1, 2, 3], [4, 5, 6]],
        &vec![[0, 0, 1]],
        &vec![[7, 8]],
        vec![0, 1],
        [9, 9, 9],
        [5, 5],
        SourceTransform { scale: 2, offset: [3; 3] },
    );
    assert_eq!(m.source_transform, SourceTransform { scale: 2, offset: [3; 3] });
    assert_eq!(m.vertices[1].normal, [9, 9, 9], "a missing normal is the given one");
    assert_eq!(m.vertices[1].uv, [5, 5]);
    let (p, n, uv) = mesh_lists(&m);
    assert_eq!(p, vec![[1, 2, 3], [4, 5, 6]]);
    assert_eq!(n, vec![[0, 0, 1], [9, 9, 9]]);
    assert_eq!(uv, vec![[7, 8], [5, 5]]);
}

#[test]
fn a_stroke_is_one_undo_step() {
    let mut d = document();
    let mut b = StrokeBuffers::new(4);
    let (index, tex, mask) = d.active_images();
    assert_eq!(index, 0);
    let splats = vec![Splat { texel: 3, cov: 9, src: [1, 2, 3] }];
    let rect = d.deposit(&mut b, false, &splats, &|_, s, a| [s[0], s[1], s[2], a as u8]);
    assert_eq!(rect, Some(TexRect { x0: 1, y0: 1, x1: 2, y1: 2 }));
    assert_eq!(&d.layers().layers[0].tex.pixels[12..], &[1, 2, 3, 9]);
    d.commit_stroke(index, tex, mask);
    assert!(d.is_dirty() && d.can_undo());
    d.undo();
    assert_eq!(&d.layers().layers[0].tex.pixels[12..], &[10, 10, 10, 255]);
    d.redo();
    assert_eq!(&d.layers().layers[0].tex.pixels[12..], &[1, 2, 3, 9]);
}

#[test]
fn automatic_names_give_way_to_chosen_ones() {
    let mut d = document();
    d.note(LayerOp::Stroke);
    d.note(LayerOp::Stamp);
    assert_eq!(d.layers().layers[0].naming.ops, [LayerOp::Stroke, LayerOp::Stamp]);
    assert!(d.auto_name("Stroke, Stamp".to_string()));
    assert_eq!(names(&d), ["Stroke, Stamp"]);
    d.rename_layer(0, "Skin".to_string());
    assert!(d.layers().layers[0].naming.renamed);
    assert!(!d.auto_name("Stroke".to_string()));
    assert_eq!(names(&d), ["Skin"]);
    d.undo();
    assert_eq!(names(&d), ["Stroke, Stamp"]);
}

#[test]
fn masks_are_painted_apart_from_colour() {
    let mut d = document();
    let keep = vec![true, false, false, false];
    let covered = vec![true; 4];
    d.fill(true, [0, 0, 0, 255], &keep, &covered);
    assert_eq!(&d.layers().layers[0].mask.pixels[..8], &[0, 0, 0, 255, 255, 255, 255, 255]);
    assert_eq!(d.layers().layers[0].tex.pixels[0], 10);
    let rect = TexRect { x0: 0, y0: 0, x1: 1, y1: 1 };
    d.apply_coverage(false, &vec![50; 16], &vec![4], rect, &|_, b, a| [b[0] + a as u8, 0, 0, 0]);
    assert_eq!(d.layers().layers[0].tex.pixels[0], 54);
    d.set_active_image(true, PaintTexture::new(2, 2, [3, 3, 3, 255]));
    assert_eq!(d.layers().layers[0].mask.pixels[4], 3);
}
