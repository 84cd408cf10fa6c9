//! The stored form of a document, and reading it back.

use crate::document::{stack_ok, stack_size};
use crate::layers::{
    doc_effect, doc_to_effect, effect_doc, effect_to_doc, BlendMode, Effect, EffectDoc, Layer,
    LayerModel, Layers, Naming, NamingModel, StackModel, TexModel,
};
use crate::mesh::{Mesh, SourceTransform, Vertex};
use crate::texture::{copy_bytes, PaintTexture};
use vstd::prelude::*;

verus! {

/// A stored layer. Colour and mask are raw RGBA bytes.
#[derive(Debug)]
pub struct LayerDoc<F> {
    pub name: String,
    pub blend: u8,
    pub visible: bool,
    pub opacity: F,
    pub color: Vec<u8>,
    pub mask: Vec<u8>,
    pub effects: Vec<EffectDoc<F>>,
}

/// What a stored layer holds.
#[verifier::ext_equal]
pub struct LayerDocModel<F> {
    pub name: Seq<char>,
    pub blend: u8,
    pub visible: bool,
    pub opacity: F,
    pub color: Seq<u8>,
    pub mask: Seq<u8>,
    pub effects: Seq<EffectDoc<F>>,
}

impl<F> View for LayerDoc<F> {
    type V = LayerDocModel<F>;

    open spec fn view(&self) -> LayerDocModel<F> {
        LayerDocModel {
            name: self.name@,
            blend: self.blend,
            visible: self.visible,
            opacity: self.opacity,
            color: self.color@,
            mask: self.mask@,
            effects: self.effects@,
        }
    }
}

/// The stored form of a layer.
pub open spec fn stored<F>(l: LayerModel<F>) -> LayerDocModel<F> {
    LayerDocModel {
        name: l.name,
        blend: l.blend.index_spec(),
        visible: l.visible,
        opacity: l.opacity,
        color: l.tex.pixels,
        mask: l.mask.pixels,
        effects: l.effects.map_values(|fx: Effect<F>| effect_doc(fx)),
    }
}

/// The bytes cut or filled up to length `n`.
pub open spec fn fitted(px: Seq<u8>, n: nat, fill: u8) -> Seq<u8> {
    Seq::new(
        n,
        |i: int|
            if i < px.len() {
                px[i]
            } else {
                fill
            },
    )
}

/// The layer a stored layer stands for in a document of the given size: missing colour is
/// transparent, missing mask reveals, and an unknown blend mode is normal. A stored name is
/// kept: it does not say whether the user chose it.
pub open spec fn loaded<F>(d: LayerDocModel<F>, size: u32) -> LayerModel<F> {
    LayerModel {
        name: d.name,
        naming: NamingModel { ops: Seq::empty(), renamed: true },
        tex: TexModel {
            width: size,
            height: size,
            pixels: fitted(d.color, (size * size * 4) as nat, 0),
        },
        mask: TexModel {
            width: size,
            height: size,
            pixels: fitted(d.mask, (size * size * 4) as nat, 255),
        },
        visible: d.visible,
        opacity: d.opacity,
        blend: BlendMode::from_index_spec(d.blend),
        effects: d.effects.map_values(|e: EffectDoc<F>| doc_effect(e)),
    }
}

/// Stores one layer.
pub fn layer_to_doc<F: Copy>(l: &Layer<F>) -> (d: LayerDoc<F>)
    ensures
        d@ == stored(l@),
{
    let mut effects: Vec<EffectDoc<F>> = Vec::new();
    let mut i: usize = 0;
    while i < l.effects.len()
        invariant
            i <= l.effects.len(),
            effects.len() == i,
            forall|k: int| 0 <= k < i ==> #[trigger] effects@[k] == effect_doc(l.effects@[k]),
        decreases l.effects.len() - i,
    {
        effects.push(effect_to_doc(&l.effects[i]));
        i += 1;
    }
    assert(effects@ =~= stored(l@).effects);
    LayerDoc {
        name: l.name.clone(),
        blend: l.blend.index(),
        visible: l.visible,
        opacity: l.opacity,
        color: copy_bytes(&l.tex.pixels),
        mask: copy_bytes(&l.mask.pixels),
        effects,
    }
}

/// Reads one layer back for a document of the given size.
pub fn layer_from_doc<F: Copy>(d: &LayerDoc<F>, size: u32) -> (l: Layer<F>)
    requires
        size * size * 4 <= u32::MAX,
    ensures
        l@ == loaded(d@, size),
{
    let n: usize = (size * size * 4) as usize;
    let mut color = copy_bytes(&d.color);
    color.resize(n, 0);
    let mut mask = copy_bytes(&d.mask);
    mask.resize(n, 255);
    assert(color@ =~= fitted(d.color@, n as nat, 0));
    assert(mask@ =~= fitted(d.mask@, n as nat, 255));
    let mut effects: Vec<Effect<F>> = Vec::new();
    let mut i: usize = 0;
    while i < d.effects.len()
        invariant
            i <= d.effects.len(),
            effects.len() == i,
            forall|k: int| 0 <= k < i ==> #[trigger] effects@[k] == doc_effect(d.effects@[k]),
        decreases d.effects.len() - i,
    {
        effects.push(doc_to_effect(&d.effects[i]));
        i += 1;
    }
    assert(effects@ =~= loaded(d@, size).effects);
    let naming = Naming { ops: Vec::new(), renamed: true };
    assert(naming@.ops =~= Seq::empty());
    Layer {
        name: d.name.clone(),
        naming,
        tex: PaintTexture { width: size, height: size, pixels: color },
        mask: PaintTexture { width: size, height: size, pixels: mask },
        visible: d.visible,
        opacity: d.opacity,
        blend: BlendMode::from_index(d.blend),
        effects,
    }
}

/// Why a document cannot be loaded.
#[derive(Clone, Copy, PartialEq, Eq, Structural, Debug)]
pub enum LoadError {
    /// The file holds no layer.
    NoLayers,
}

impl LoadError {
    /// The message for the user.
    pub fn message(self) -> (m: &'static str)
        ensures
            m@ == "project has no layers"@,
    {
        "project has no layers"
    }
}

/// Stores the layers of a stack, bottom first.
pub fn layers_to_docs<F: Copy>(stack: &Layers<F>) -> (docs: Vec<LayerDoc<F>>)
    ensures
        docs.len() == stack@.layers.len(),
        forall|i: int| 0 <= i < docs.len() ==> (#[trigger] docs@[i])@ == stored(stack@.layers[i]),
{
    let mut docs: Vec<LayerDoc<F>> = Vec::new();
    let mut i: usize = 0;
    while i < stack.layers.len()
        invariant
            i <= stack.layers.len(),
            docs.len() == i,
            forall|k: int| 0 <= k < i ==> (#[trigger] docs@[k])@ == stored(stack@.layers[k]),
        decreases stack.layers.len() - i,
    {
        docs.push(layer_to_doc(&stack.layers[i]));
        i += 1;
    }
    docs
}

/// The stack that stored layers stand for; an active layer past the top means the top.
pub open spec fn loaded_stack<F>(
    docs: Seq<LayerDoc<F>>,
    size: u32,
    active: int,
) -> StackModel<F> {
    StackModel {
        layers: Seq::new(docs.len(), |i: int| loaded(docs[i]@, size)),
        active: if active < docs.len() {
            active
        } else {
            docs.len() - 1
        },
    }
}

/// Reads a stack back. Fails exactly when there is no layer.
pub fn layers_from_docs<F: Copy>(docs: &Vec<LayerDoc<F>>, size: u32, active: usize) -> (r: Result<
    Layers<F>,
    LoadError,
>)
    requires
        0 < size,
        size * size * 4 <= u32::MAX,
    ensures
        r is Err <==> docs.len() == 0,
        r matches Ok(s) ==> s@ == loaded_stack(docs@, size, active as int) && stack_ok(s@)
            && stack_size(s@) == size,
{
    let mut layers: Vec<Layer<F>> = Vec::new();
    let mut i: usize = 0;
    while i < docs.len()
        invariant
            size * size * 4 <= u32::MAX,
            i <= docs.len(),
            layers.len() == i,
            forall|k: int| 0 <= k < i ==> (#[trigger] layers@[k])@ == loaded(docs@[k]@, size),
        decreases docs.len() - i,
    {
        layers.push(layer_from_doc(&docs[i], size));
        i += 1;
    }
    if layers.len() == 0 {
        return Err(LoadError::NoLayers);
    }
    let top: usize = layers.len() - 1;
    let active: usize = if active < top {
        active
    } else {
        top
    };
    let s = Layers { layers, active };
    proof {
        assert(s@.layers =~= loaded_stack(docs@, size, active as int).layers);
        assert(s@.layers[0].tex.width == size);
    }
    Ok(s)
}

/// The stack without the record of what its automatic names are made of.
pub open spec fn settled<F>(s: StackModel<F>) -> StackModel<F> {
    StackModel {
        layers: s.layers.map_values(
            |l: LayerModel<F>|
                LayerModel { naming: NamingModel { ops: Seq::empty(), renamed: true }, ..l },
        ),
        active: s.active,
    }
}

/// Loading what was stored gives the same stack: names, images, settings, effects and the
/// active layer. Only how the names came about is not stored.
pub proof fn law_stored_layers_load_unchanged<F>(s: StackModel<F>, docs: Seq<LayerDoc<F>>)
    requires
        stack_ok(s),
        docs.len() == s.layers.len(),
        forall|i: int| 0 <= i < docs.len() ==> (#[trigger] docs[i])@ == stored(s.layers[i]),
    ensures
        loaded_stack(docs, stack_size(s), s.active) == settled(s),
{
    let size = stack_size(s);
    let t = loaded_stack(docs, size, s.active);
    assert forall|i: int| 0 <= i < s.layers.len() implies #[trigger] t.layers[i]
        == settled(s).layers[i] by {
        let l = s.layers[i];
        assert(l.sized(size));
        assert(docs[i]@ == stored(l));
        let back = loaded(stored(l), size);
        assert(back.tex.pixels =~= l.tex.pixels);
        assert(back.mask.pixels =~= l.mask.pixels);
        assert(back.effects =~= l.effects);
        assert(back == settled(s).layers[i]);
    }
    assert(t.layers =~= settled(s).layers);
}

/// Builds a mesh from stored vertex lists. Where the normals or UVs are too short, the
/// given ones stand in.
pub fn mesh_from_lists<F: Copy>(
    positions: &Vec<[F; 3]>,
    normals: &Vec<[F; 3]>,
    uvs: &Vec<[F; 2]>,
    indices: Vec<u32>,
    default_normal: [F; 3],
    default_uv: [F; 2],
    source: SourceTransform<F>,
) -> (mesh: Mesh<F>)
    ensures
        mesh.indices@ == indices@,
        mesh.vertices.len() == positions.len(),
        forall|i: int|
            0 <= i < positions.len() ==> {
                let v = #[trigger] mesh.vertices@[i];
                &&& v.position == positions@[i]
                &&& v.normal == if i < normals.len() {
                    normals@[i]
                } else {
                    default_normal
                }
                &&& v.uv == if i < uvs.len() {
                    uvs@[i]
                } else {
                    default_uv
                }
            },
        !mesh.needs_normals,
        !mesh.needs_uvs,
        mesh.source_transform == source,
{
    let mut vertices: Vec<Vertex<F>> = Vec::new();
    let mut i: usize = 0;
    while i < positions.len()
        invariant
            i <= positions.len(),
            vertices.len() == i,
            forall|k: int|
                0 <= k < i ==> {
                    let v = #[trigger] vertices@[k];
                    &&& v.position == positions@[k]
                    &&& v.normal == if k < normals.len() {
                        normals@[k]
                    } else {
                        default_normal
                    }
                    &&& v.uv == if k < uvs.len() {
                        uvs@[k]
                    } else {
                        default_uv
                    }
                },
        decreases positions.len() - i,
    {
        let normal: [F; 3] = if i < normals.len() {
            normals[i]
        } else {
            default_normal
        };
        let uv: [F; 2] = if i < uvs.len() {
            uvs[i]
        } else {
            default_uv
        };
        vertices.push(Vertex { position: positions[i], normal, uv });
        i += 1;
    }
    Mesh {
        vertices,
        indices,
        needs_normals: false,
        needs_uvs: false,
        source_transform: source,
    }
}

/// The vertex lists of a mesh: positions, normals and UVs.
pub fn mesh_lists<F: Copy>(mesh: &Mesh<F>) -> (lists: (Vec<[F; 3]>, Vec<[F; 3]>, Vec<[F; 2]>))
    ensures
        lists.0.len() == mesh.vertices.len(),
        lists.1.len() == mesh.vertices.len(),
        lists.2.len() == mesh.vertices.len(),
        forall|i: int|
            0 <= i < mesh.vertices.len() ==> {
                let v = #[trigger] mesh.vertices@[i];
                &&& lists.0@[i] == v.position
                &&& lists.1@[i] == v.normal
                &&& lists.2@[i] == v.uv
            },
{
    let mut positions: Vec<[F; 3]> = Vec::new();
    let mut normals: Vec<[F; 3]> = Vec::new();
    let mut uvs: Vec<[F; 2]> = Vec::new();
    let mut i: usize = 0;
    while i < mesh.vertices.len()
        invariant
            i <= mesh.vertices.len(),
            positions.len() == i,
            normals.len() == i,
            uvs.len() == i,
            forall|k: int|
                0 <= k < i ==> {
                    let v = #[trigger] mesh.vertices@[k];
                    &&& positions@[k] == v.position
                    &&& normals@[k] == v.normal
                    &&& uvs@[k] == v.uv
                },
        decreases mesh.vertices.len() - i,
    {
        let v = mesh.vertices[i];
        positions.push(v.position);
        normals.push(v.normal);
        uvs.push(v.uv);
        i += 1;
    }
    (positions, normals, uvs)
}

} // verus!
