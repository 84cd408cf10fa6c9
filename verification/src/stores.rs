//! What a stored project holds of a document.

use crate::document::DocModel;
use crate::layers::{
    doc_effect, effect_doc, BlendMode, Effect, EffectDoc, LayerModel, StackModel,
};
use crate::mesh::SourceTransform;
use crate::project::{fitted, loaded, loaded_stack, settled, stored, LayerDoc, LayerDocModel};
use crate::renderer::Renderer;
use crate::session::ProjectDoc;
use vstd::prelude::*;

verus! {

/// A stored layer has the layer's name, settings and bytes, its blend mode by number, and its
/// effects one by one.
pub proof fn law_a_stored_layer_holds_the_layer<F>(l: LayerModel<F>)
    ensures
        stored(l).name == l.name,
        stored(l).visible == l.visible,
        stored(l).opacity == l.opacity,
        stored(l).color == l.tex.pixels,
        stored(l).mask == l.mask.pixels,
        l.blend == BlendMode::Normal ==> stored(l).blend == 0,
        l.blend == BlendMode::Multiply ==> stored(l).blend == 1,
        l.blend == BlendMode::Add ==> stored(l).blend == 2,
        l.blend == BlendMode::Screen ==> stored(l).blend == 3,
        stored(l).effects.len() == l.effects.len(),
        forall|i: int|
            0 <= i < l.effects.len() ==> doc_effect(stored(l).effects[i])
                == #[trigger] l.effects[i],
{
}

/// A stored effect is of the same kind with the same numbers.
pub proof fn law_a_stored_effect_holds_its_numbers<F>(fx: Effect<F>)
    ensures
        fx matches Effect::HueSatLight { hue, sat, light } ==> effect_doc(fx)
            == (EffectDoc::HueSatLight { hue, sat, light }),
        fx matches Effect::BrightnessContrast { brightness, contrast } ==> effect_doc(fx)
            == (EffectDoc::BrightnessContrast { brightness, contrast }),
        fx matches Effect::Blur { radius } ==> effect_doc(fx) == (EffectDoc::Blur { radius }),
        fx matches Effect::Warp { amount, scale } ==> effect_doc(fx) == (EffectDoc::Warp {
            amount,
            scale,
        }),
{
}

/// A layer is read back with its stored bytes as far as they go: missing colour is clear and
/// missing mask reveals. Bytes beyond the size are left out.
pub proof fn law_a_read_layer_fits_the_document<F>(d: LayerDocModel<F>, size: u32, i: int)
    requires
        0 <= i < size * size * 4,
    ensures
        ({
            let l = loaded(d, size);
            &&& l.tex.width == size && l.tex.height == size
            &&& l.mask.width == size && l.mask.height == size
            &&& l.tex.pixels.len() == size * size * 4 && l.mask.pixels.len() == size * size * 4
            &&& i < d.color.len() ==> l.tex.pixels[i] == d.color[i]
            &&& i >= d.color.len() ==> l.tex.pixels[i] == 0
            &&& i < d.mask.len() ==> l.mask.pixels[i] == d.mask[i]
            &&& i >= d.mask.len() ==> l.mask.pixels[i] == 255
            &&& l.name == d.name && l.visible == d.visible && l.opacity == d.opacity
            &&& l.naming.renamed
            &&& d.blend == 1 ==> l.blend == BlendMode::Multiply
            &&& d.blend == 2 ==> l.blend == BlendMode::Add
            &&& d.blend == 3 ==> l.blend == BlendMode::Screen
            &&& d.blend == 0 || d.blend > 3 ==> l.blend == BlendMode::Normal
            &&& l.effects.len() == d.effects.len()
            &&& forall|k: int|
                0 <= k < d.effects.len() ==> effect_doc(l.effects[k]) == #[trigger] d.effects[k]
        }),
{
}

/// The stack that is read back has the stored layers in their order; the active layer is the
/// stored one, or the top one where there is none of that number.
pub proof fn law_a_read_stack_keeps_the_order<F>(
    docs: Seq<LayerDoc<F>>,
    size: u32,
    active: int,
    i: int,
)
    requires
        0 <= active,
        0 <= i < docs.len(),
    ensures
        loaded_stack(docs, size, active).layers.len() == docs.len(),
        loaded_stack(docs, size, active).layers[i] == loaded(docs[i]@, size),
        active < docs.len() ==> loaded_stack(docs, size, active).active == active,
        active >= docs.len() ==> loaded_stack(docs, size, active).active == docs.len() - 1,
{
}

/// What a loaded stack has lost is only the record of how its names came about.
pub proof fn law_only_the_naming_is_not_stored<F>(s: StackModel<F>, i: int)
    requires
        0 <= i < s.layers.len(),
    ensures
        ({
            let (a, b) = (s.layers[i], settled(s).layers[i]);
            &&& settled(s).layers.len() == s.layers.len() && settled(s).active == s.active
            &&& b.name == a.name && b.tex == a.tex && b.mask == a.mask
            &&& b.visible == a.visible && b.opacity == a.opacity
            &&& b.blend == a.blend && b.effects == a.effects
        }),
{
}

/// Saving a project and loading it again gives every layer back as it was: its name, both of
/// its images, whether it shows, its opacity, its blend mode and its effects; and the layer
/// that was active is. The palette, its settings, the texture folder, the vertices and the
/// triangles come back too.
pub proof fn law_a_saved_project_loads_as_it_was<F>(
    written: Renderer<F>,
    d: ProjectDoc<F>,
    before: Renderer<F>,
    loaded: Renderer<F>,
    normal: [F; 3],
    uv: [F; 2],
    identity: SourceTransform<F>,
    i: int,
)
    requires
        written.wf(),
        written.written_to(d),
        loaded.loaded_from(&before, d, normal, uv, identity),
        0 <= i < written.doc@.stack.layers.len(),
    ensures
        ({
            let (a, b) = (written.doc@.stack.layers[i], loaded.doc@.stack.layers[i]);
            &&& b.name == a.name && b.tex == a.tex && b.mask == a.mask
            &&& b.visible == a.visible && b.opacity == a.opacity
            &&& b.blend == a.blend && b.effects == a.effects
        }),
        loaded.doc@.stack.layers.len() == written.doc@.stack.layers.len(),
        loaded.doc@.stack.active == written.doc@.stack.active,
        loaded.tex_size == written.tex_size,
        loaded.palette@ == written.palette@,
        loaded.palette_settings.enabled == written.palette_settings.enabled,
        loaded.palette_settings.dither == written.palette_settings.dither,
        loaded.palette_settings.dither_strength == written.palette_settings.dither_strength,
        loaded.palette_name@ == "Loaded"@,
        loaded.scene.mesh.vertices@ == written.scene.mesh.vertices@,
        loaded.scene.mesh.indices@ == written.scene.mesh.indices@,
        loaded.texture_folder is Some <==> written.texture_folder is Some,
        loaded.texture_folder is Some ==> (loaded.texture_folder->0)@ == (
        written.texture_folder->0)@,
        loaded.doc@.edit == loaded.doc@.saved,
        loaded.doc@.history == before.doc@.history,
{
    crate::session::law_project_round_trip(written, d, before, loaded, normal, uv, identity);
    law_only_the_naming_is_not_stored(written.doc@.stack, i);
}

/// Bytes are cut or filled up to a length.
pub proof fn law_bytes_are_cut_or_filled_up(px: Seq<u8>, n: nat, fill: u8, i: int)
    requires
        0 <= i < n,
    ensures
        fitted(px, n, fill).len() == n,
        i < px.len() ==> fitted(px, n, fill)[i] == px[i],
        i >= px.len() ==> fitted(px, n, fill)[i] == fill,
        px.len() == n ==> fitted(px, n, fill) == px,
{
    if px.len() == n {
        assert(fitted(px, n, fill) =~= px);
    }
}

/// Saving makes the document clean and autosaving does not; both keep layers and steps. A
/// document is unsaved exactly when its last change is not the one that was saved.
pub proof fn law_what_counts_as_unsaved<F>(m: DocModel<F>)
    ensures
        m.dirty() <==> m.edit != m.saved,
        m.autosave_due() <==> m.edit != m.autosaved,
        m.saved_now().saved == m.edit && m.saved_now().autosaved == m.edit,
        m.saved_now().edit == m.edit,
        m.autosaved_now().autosaved == m.edit && m.autosaved_now().saved == m.saved,
        m.autosaved_now().edit == m.edit,
        m.saved_now().stack == m.stack && m.saved_now().history == m.history,
        m.autosaved_now().stack == m.stack && m.autosaved_now().history == m.history,
{
}

/// A project records the texture size, the active layer, the palette with its settings, the
/// texture folder, and of every vertex its position, normal and texture place, each under its
/// own name.
pub proof fn law_what_a_project_records<F>(r: Renderer<F>, d: ProjectDoc<F>, i: int)
    requires
        r.written_to(d),
        0 <= i < r.scene.mesh.vertices@.len(),
    ensures
        d.tex_size == r.tex_size && d.active_layer == r.doc@.stack.active,
        d.palette@ == r.palette@,
        d.quantize == r.palette_settings.enabled && d.dither == r.palette_settings.dither,
        d.dither_strength == r.palette_settings.dither_strength,
        d.positions@[i] == r.scene.mesh.vertices@[i].position,
        d.normals@[i] == r.scene.mesh.vertices@[i].normal,
        d.uvs@[i] == r.scene.mesh.vertices@[i].uv,
        d.positions@.len() == r.scene.mesh.vertices@.len(),
        d.indices@ == r.scene.mesh.indices@,
        d.source_transform == Some(r.scene.mesh.source_transform),
        d.texture_folder is Some <==> r.texture_folder is Some,
        d.layers is Ok && (d.layers->Ok_0)@.len() == r.doc@.stack.layers.len(),
{
    assert(r.scene.mesh.vertices@[i].position == d.positions@[i]);
}

/// A loaded project brings its texture size, palette with settings, texture folder and mesh. A
/// vertex whose normal or texture place it does not have gets the given one. What was derived
/// from the old mesh is gone, and the brush, the view and the undo steps stay.
pub proof fn law_what_a_project_brings<F>(
    before: Renderer<F>,
    after: Renderer<F>,
    d: ProjectDoc<F>,
    normal: [F; 3],
    uv: [F; 2],
    identity: SourceTransform<F>,
    i: int,
)
    requires
        after.loaded_from(&before, d, normal, uv, identity),
        0 <= i < d.positions@.len(),
    ensures
        ({
            let (m, v) = (after.scene.mesh, after.scene.mesh.vertices@[i]);
            &&& m.vertices@.len() == d.positions@.len() && m.indices@ == d.indices@
            &&& v.position == d.positions@[i]
            &&& i < d.normals@.len() ==> v.normal == d.normals@[i]
            &&& i >= d.normals@.len() ==> v.normal == normal
            &&& i < d.uvs@.len() ==> v.uv == d.uvs@[i]
            &&& i >= d.uvs@.len() ==> v.uv == uv
            &&& !m.needs_normals && !m.needs_uvs
            &&& d.source_transform is Some ==> m.source_transform == d.source_transform->0
            &&& d.source_transform is None ==> m.source_transform == identity
        }),
        after.tex_size == d.tex_size,
        after.palette@ == d.palette@ && after.palette_name@ == "Loaded"@,
        after.palette_settings.enabled == d.quantize,
        after.palette_settings.dither == d.dither,
        after.palette_settings.dither_strength == d.dither_strength,
        after.texture_folder == d.texture_folder,
        after.scene.fill_map is None && after.scene.surface_adj is None,
        after.doc@.history == before.doc@.history,
        after.doc@.stack.layers.len() == (d.layers->Ok_0)@.len(),
        after == (Renderer {
            doc: after.doc,
            tex_size: after.tex_size,
            buffers: after.buffers,
            scene: after.scene,
            palette_name: after.palette_name,
            palette: after.palette,
            palette_settings: after.palette_settings,
            texture_folder: after.texture_folder,
            ..before
        }),
{
    assert(after.scene.mesh.vertices@[i].position == d.positions@[i]);
}

/// An effect is stored as the effect of its own kind, every amount under its own name.
pub proof fn law_effects_are_stored_under_their_names<F>(fx: Effect<F>)
    ensures
        match (fx, effect_doc(fx)) {
            (
                Effect::HueSatLight { hue: a, sat: b, light: c },
                EffectDoc::HueSatLight { hue, sat, light },
            ) => hue == a && sat == b && light == c,
            (
                Effect::BrightnessContrast { brightness: a, contrast: b },
                EffectDoc::BrightnessContrast { brightness, contrast },
            ) => brightness == a && contrast == b,
            (Effect::Blur { radius: a }, EffectDoc::Blur { radius }) => radius == a,
            (Effect::Warp { amount: a, scale: b }, EffectDoc::Warp { amount, scale }) => amount == a
                && scale == b,
            _ => false,
        },
        doc_effect(effect_doc(fx)) == fx,
{
}

} // verus!
