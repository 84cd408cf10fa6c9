//! The painter's state: the document, the running stroke, what is on display, and the
//! decisions that tie them together. Compositing, picking and drawing are the caller's; a
//! method that changes what should be shown says how much must be drawn again.

use crate::document::{
    doc_ok, images_ok, moves_to, next_seq, same_extent, sided, stack_ok, stack_size, swap_effects,
    Document,
};
use crate::fill::{FaceLock, FillMap};
use crate::layers::{
    clear_image, unnamed, white_mask, BlendMode, Effect, Layer, LayerModel, LayerOp, Layers,
    Naming, StackModel,
};
use crate::looks::PresetLayer;
use crate::mesh::Mesh;
use crate::stroke::{Splat, StrokeBuffers};
use crate::surface::Adjacency;
use crate::texture::{
    checker_shade, copy_region, image_at, is_image, is_refreshed, is_region_of, lemma_in_image,
    make_checkerboard, min_u32, paste_region, region_at, restore_margin, PaintTexture, TexRect,
};
use vstd::prelude::*;

verus! {

/// Side of a new document's images.
pub const TEX_SIZE: u32 = 128;

/// How far island colours are bled into the gutter.
pub const BLEED_PAD: u32 = 4;

/// Larger footprints get no hover ghost.
pub const PREVIEW_MAX_TEXELS: u64 = 30_000;

/// How the texture is filtered when it is sampled onto the model.
#[derive(Clone, Copy, PartialEq, Eq, Structural, Debug)]
pub enum TextureFilter {
    Nearest,
    Linear,
}

impl Default for TextureFilter {
    fn default() -> (f: TextureFilter)
        ensures
            f == TextureFilter::Nearest,
    {
        TextureFilter::Nearest
    }
}

impl TextureFilter {
    pub open spec fn text(self) -> Seq<char> {
        match self {
            TextureFilter::Nearest => "Nearest (crisp)"@,
            TextureFilter::Linear => "Linear (smooth)"@,
        }
    }

    /// Short label for the picker.
    pub fn label(self) -> (s: &'static str)
        ensures
            s@ == self.text(),
    {
        match self {
            TextureFilter::Nearest => "Nearest (crisp)",
            TextureFilter::Linear => "Linear (smooth)",
        }
    }
}

/// What the brush paints into: the active layer's colour or its reveal mask.
#[derive(Clone, Copy, PartialEq, Eq, Structural, Debug)]
pub enum PaintTarget {
    Color,
    Mask,
}

/// How a loaded brush image is applied: tiled over the texture, or as one oriented stamp.
#[derive(Clone, Copy, PartialEq, Eq, Structural, Debug)]
pub enum BrushImageMode {
    Tiled,
    Stamp,
}

impl Default for BrushImageMode {
    fn default() -> (m: BrushImageMode)
        ensures
            m == BrushImageMode::Tiled,
    {
        BrushImageMode::Tiled
    }
}

/// The axis that mirrored painting reflects.
#[derive(Clone, Copy, PartialEq, Eq, Structural, Debug)]
pub enum SymmetryAxis {
    X,
    Y,
    Z,
}

impl SymmetryAxis {
    pub const ALL: [SymmetryAxis; 3] = [SymmetryAxis::X, SymmetryAxis::Y, SymmetryAxis::Z];

    pub open spec fn text(self) -> Seq<char> {
        match self {
            SymmetryAxis::X => "X"@,
            SymmetryAxis::Y => "Y"@,
            SymmetryAxis::Z => "Z"@,
        }
    }

    pub fn name(self) -> (s: &'static str)
        ensures
            s@ == self.text(),
    {
        match self {
            SymmetryAxis::X => "X",
            SymmetryAxis::Y => "Y",
            SymmetryAxis::Z => "Z",
        }
    }

    /// The component this axis mirrors.
    pub fn index(self) -> (i: usize)
        ensures
            i < 3,
            SymmetryAxis::ALL[i as int] == self,
            i == match self {
                SymmetryAxis::X => 0int,
                SymmetryAxis::Y => 1,
                SymmetryAxis::Z => 2,
            },
    {
        match self {
            SymmetryAxis::X => 0,
            SymmetryAxis::Y => 1,
            SymmetryAxis::Z => 2,
        }
    }
}

/// Palette quantization settings.
#[derive(Clone, Copy, Debug)]
pub struct PaletteSettings<F> {
    pub enabled: bool,
    pub dither: bool,
    pub dither_strength: F,
}

impl<F> PaletteSettings<F> {
    /// The settings to begin with: not quantized, and dithered once it is.
    pub fn new(dither_strength: F) -> (s: PaletteSettings<F>)
        ensures
            !s.enabled,
            s.dither,
            s.dither_strength == dither_strength,
    {
        PaletteSettings { enabled: false, dither: true, dither_strength }
    }
}

/// How much must be drawn again after a change.
#[derive(Clone, Copy, PartialEq, Eq, Structural, Debug)]
pub enum Redraw {
    /// Nothing.
    Keep,
    /// The whole image, at its old size.
    Full,
    /// The whole image, in a texture of the new size.
    Rebuild,
}

/// Which way a surface dab is painted.
#[derive(Clone, Copy, PartialEq, Eq, Structural, Debug)]
pub enum DabPath {
    /// The brush image projected as an oriented decal.
    Decal,
    /// The brush colour in the shape of the loaded tip.
    Tip,
    /// Coverage accumulated on the GPU.
    Gpu,
    /// Coverage splatted on the CPU.
    Splat,
}

/// How accumulated GPU coverage is turned into paint.
#[derive(Clone, Copy, PartialEq, Eq, Debug)]
pub enum ResolveKind {
    Erase,
    Material,
    Color([u8; 3]),
}

/// Brush settings that decide what a dab does.
#[derive(Clone, Copy, Debug)]
pub struct BrushState {
    pub target: PaintTarget,
    pub mask_reveal: bool,
    pub image_mode: BrushImageMode,
    /// A brush image is loaded.
    pub has_image: bool,
    /// A brush tip is loaded.
    pub has_tip: bool,
    /// Counts brush image changes.
    pub image_gen: u64,
    pub symmetry: Option<SymmetryAxis>,
}

impl BrushState {
    pub open spec fn stamps(self) -> bool {
        self.image_mode == BrushImageMode::Stamp && self.has_image
    }

    pub open spec fn on_mask(self) -> bool {
        self.target == PaintTarget::Mask
    }

    /// The colour painting into the mask lays down: white reveals, black hides.
    pub open spec fn mask_level(self) -> u8 {
        if self.mask_reveal {
            255
        } else {
            0
        }
    }

    /// A brush image is loaded and used as a stamp.
    pub fn stamp_active(&self) -> (b: bool)
        ensures
            b == self.stamps(),
            b == (self.image_mode == BrushImageMode::Stamp && self.has_image),
    {
        self.image_mode == BrushImageMode::Stamp && self.has_image
    }

    /// The eraser takes effect on colour only; a mask has reveal and hide.
    pub fn erases(&self, erase: bool) -> (b: bool)
        ensures
            b == (erase && self.target == PaintTarget::Color),
    {
        erase && self.target == PaintTarget::Color
    }

    pub open spec fn path(self, erase: bool, gpu_paint: bool) -> DabPath {
        if self.target == PaintTarget::Color && self.stamps() && !erase {
            DabPath::Decal
        } else if self.has_tip {
            DabPath::Tip
        } else if self.gpu_ok(gpu_paint) {
            DabPath::Gpu
        } else {
            DabPath::Splat
        }
    }

    /// A dab can be accumulated on the GPU: the switch is on, no tip shapes it, and it is
    /// not a stamp on colour.
    pub open spec fn gpu_ok(self, gpu_paint: bool) -> bool {
        &&& gpu_paint
        &&& !self.has_tip
        &&& self.target == PaintTarget::Mask || !self.stamps()
    }

    pub fn gpu_paint_eligible(&self, gpu_paint: bool) -> (b: bool)
        ensures
            b == self.gpu_ok(gpu_paint),
    {
        gpu_paint && !self.has_tip && match self.target {
            PaintTarget::Color => !self.stamp_active(),
            PaintTarget::Mask => true,
        }
    }

    /// Which way a dab is painted.
    pub fn dab_path(&self, erase: bool, gpu_paint: bool) -> (p: DabPath)
        ensures
            p == self.path(erase, gpu_paint),
    {
        if self.target == PaintTarget::Color && self.stamp_active() && !erase {
            DabPath::Decal
        } else if self.has_tip {
            DabPath::Tip
        } else if self.gpu_paint_eligible(gpu_paint) {
            DabPath::Gpu
        } else {
            DabPath::Splat
        }
    }

    /// What a fill writes: the opaque brush colour, or white or black into the mask.
    pub open spec fn fill_bytes(self, color: [u8; 3]) -> Seq<u8> {
        if self.on_mask() {
            seq![self.mask_level(), self.mask_level(), self.mask_level(), 255u8]
        } else {
            seq![color[0], color[1], color[2], 255u8]
        }
    }

    /// What a fill writes.
    pub fn fill_rgba(&self, color: [u8; 3]) -> (rgba: [u8; 4])
        ensures
            rgba@ == self.fill_bytes(color),
            self.target == PaintTarget::Color ==> rgba == [color[0], color[1], color[2], 255u8],
            self.target == PaintTarget::Mask && self.mask_reveal ==> rgba == [
                255u8,
                255u8,
                255u8,
                255u8,
            ],
            self.target == PaintTarget::Mask && !self.mask_reveal ==> rgba == [
                0u8,
                0u8,
                0u8,
                255u8,
            ],
    {
        match self.target {
            PaintTarget::Color => {
                let r: [u8; 4] = [color[0], color[1], color[2], 255];
                assert(r@ =~= seq![color[0], color[1], color[2], 255u8]);
                r
            },
            PaintTarget::Mask => {
                let v: u8 = if self.mask_reveal {
                    255
                } else {
                    0
                };
                let r: [u8; 4] = [v, v, v, 255];
                assert(r@ =~= seq![v, v, v, 255u8]);
                r
            },
        }
    }
}

/// A stroke accumulated on the GPU.
#[derive(Clone, Copy, Debug)]
pub struct GpuStroke {
    /// Dabs are accumulated on the GPU where they can be.
    pub paint: bool,
    /// Layers are composited on the GPU.
    pub display: bool,
    /// The stroke is resolved on the GPU without reading coverage back.
    pub resolve: bool,
    /// A resolved stroke samples the brush image.
    pub material: bool,
    pub rect: Option<TexRect>,
    pub color: [u8; 3],
    pub erase: bool,
    pub target: PaintTarget,
    /// The resolution and topology the gutter mask on the GPU was made for.
    pub coverage_gen: Option<(u32, u64)>,
    /// The brush image the GPU holds.
    pub image_gen: Option<u64>,
}

impl GpuStroke {
    /// How this stroke's coverage is turned into paint.
    pub fn resolve_kind(&self) -> (k: ResolveKind)
        ensures
            k == if self.erase {
                ResolveKind::Erase
            } else if self.material {
                ResolveKind::Material
            } else {
                ResolveKind::Color(self.color)
            },
    {
        if self.erase {
            ResolveKind::Erase
        } else if self.material {
            ResolveKind::Material
        } else {
            ResolveKind::Color(self.color)
        }
    }
}

/// The images the touched layer had when the running stroke began.
#[derive(Debug)]
pub struct StrokeBackup {
    pub active: usize,
    pub tex: PaintTexture,
    pub mask: PaintTexture,
}

/// What is on display: a mirror of the shown texture, the part of it that must be shown
/// anew, and the part that shows a hover ghost.
#[derive(Debug)]
pub struct Display {
    pub buf: Vec<u8>,
    pub dirty_rect: Option<TexRect>,
    pub preview_rect: Option<TexRect>,
    /// What the shown ghost, or its absence, was made for.
    pub preview_key: Option<Vec<u32>>,
    /// How many vertices the cursor ring has; none, no ring.
    pub ring_count: u32,
    /// What the ring, or its absence, was made for.
    pub ring_key: Option<Vec<u32>>,
    pub version: u64,
}

/// The mesh and what is derived from it.
#[derive(Debug)]
pub struct Scene<F> {
    pub mesh: Mesh<F>,
    /// Counts mesh changes.
    pub topo_version: u64,
    pub surface_adj: Option<Adjacency>,
    pub fill_map: Option<FillMap>,
    pub coverage: Option<Vec<bool>>,
    /// The resolution the baked maps were made at.
    pub maps_size: Option<u32>,
    /// The sun the baked light was made for.
    pub light_key: Option<[u32; 4]>,
}

impl<F> Scene<F> {
    /// The scene shows `mesh` now, and everything derived from the old one is gone.
    pub open spec fn swapped(&self, old_scene: &Scene<F>, mesh: Mesh<F>) -> bool {
        &&& self.mesh == mesh
        &&& self.topo_version == next_seq(old_scene.topo_version)
        &&& self.surface_adj is None
        &&& self.fill_map is None
        &&& self.coverage is None
        &&& self.maps_size is None
        &&& self.light_key is None
    }

    pub(crate) fn swap_mesh(&mut self, mesh: Mesh<F>)
        ensures
            final(self).swapped(old(self), mesh),
    {
        self.mesh = mesh;
        self.topo_version = self.topo_version.wrapping_add(1);
        self.surface_adj = None;
        self.fill_map = None;
        self.coverage = None;
        self.maps_size = None;
        self.light_key = None;
    }
}

/// How a brush image or tip is laid down: how often the image tiles, and the angle, the
/// tinting and the inversion of what is stamped.
#[derive(Clone, Copy, Debug)]
pub struct StampOptions<F> {
    pub tile: F,
    pub angle: F,
    pub tint: bool,
    pub invert: bool,
}

impl<F> StampOptions<F> {
    /// The options to begin with: in the image's own colours, dark where it is dark.
    pub fn new(tile: F, angle: F) -> (s: StampOptions<F>)
        ensures
            s.tile == tile,
            s.angle == angle,
            !s.tint,
            !s.invert,
    {
        StampOptions { tile, angle, tint: false, invert: false }
    }
}

/// `show` turns every stack of layers into an image of its size.
pub open spec fn shows_stacks<F, C: Fn(&Layers<F>) -> Vec<u8>>(show: C) -> bool {
    &&& forall|l: &Layers<F>| #[trigger] show.requires((l,))
    &&& forall|l: &Layers<F>, out: Vec<u8>| #[trigger]
        show.ensures((l,), out) && stack_ok(l@) ==> is_image(
            out@,
            stack_size(l@) as int,
            stack_size(l@) as int,
        )
}

/// The image is what `show` answered for a stack.
pub open spec fn shows_stack<F, C: Fn(&Layers<F>) -> Vec<u8>>(
    show: C,
    stack: StackModel<F>,
    out: Vec<u8>,
) -> bool {
    exists|l: Layers<F>| #[trigger] show.ensures((&l,), out) && l@ == stack
}

/// The painter.
#[derive(Debug)]
pub struct Renderer<F> {
    pub doc: Document<F>,
    pub tex_size: u32,
    pub buffers: StrokeBuffers,
    pub pending: Option<StrokeBackup>,
    pub stroke_dirty: bool,
    pub stroke_rect: Option<TexRect>,
    pub uv_stroke: bool,
    pub lock: FaceLock,
    pub outline_facets: Vec<i32>,
    pub brush: BrushState,
    pub stamp: StampOptions<F>,
    pub display: Display,
    pub gpu: GpuStroke,
    pub scene: Scene<F>,
    pub palette_name: String,
    pub palette: Vec<[F; 3]>,
    pub palette_settings: PaletteSettings<F>,
    /// The generated layers applied so far.
    pub recipe: Vec<PresetLayer<F>>,
    pub texture_folder: Option<String>,
    pub texture_filter: TextureFilter,
    pub bg_color: [F; 3],
    pub show_grid: bool,
    pub width: u32,
    pub height: u32,
    pub max_texture_dim: u32,
}

pub open spec fn clamp_u32(x: u32, lo: u32, hi: u32) -> u32 {
    if x < lo {
        lo
    } else if x > hi {
        hi
    } else {
        x
    }
}

pub(crate) fn clamped(x: u32, lo: u32, hi: u32) -> (r: u32)
    requires
        lo <= hi,
    ensures
        r == clamp_u32(x, lo, hi),
{
    if x < lo {
        lo
    } else if x > hi {
        hi
    } else {
        x
    }
}

impl<F> Renderer<F> {
    /// The state is consistent: the document is valid, and the stroke buffers are for its
    /// size.
    pub open spec fn wf(&self) -> bool {
        &&& doc_ok(self.doc@)
        &&& self.synced()
    }

    /// The painter has the size of the bottom layer, and the stroke buffers are for it.
    pub open spec fn synced(&self) -> bool {
        &&& stack_size(self.doc@.stack) == self.tex_size
        &&& self.buffers.wf()
        &&& self.buffers.texels() == self.tex_size * self.tex_size
    }

    /// What a running stroke keeps for undo are images a layer can have.
    pub open spec fn backup_ok(&self) -> bool {
        self.pending matches Some(b) ==> images_ok(b.tex@, b.mask@)
    }

    /// The mirror of the shown texture has the document's size.
    pub open spec fn shown(&self) -> bool {
        is_image(self.display.buf@, self.tex_size as int, self.tex_size as int)
    }

    /// The running stroke's backup fits the layer it was taken from.
    pub open spec fn stroke_ok(&self) -> bool {
        self.pending matches Some(b) ==> {
            &&& b.active < self.doc@.stack.layers.len()
            &&& same_extent(b.tex@, self.doc@.stack.layers[b.active as int].tex)
            &&& same_extent(b.mask@, self.doc@.stack.layers[b.active as int].mask)
        }
    }

    /// No texel belongs to a running stroke.
    pub open spec fn stroke_fresh(&self) -> bool {
        forall|t: int|
            0 <= t < self.buffers.texels() ==> !#[trigger] self.buffers.touched(t)
                && self.buffers.covered(t) == 0
    }

    /// The document counts as changed once more, and nothing else differs.
    pub open spec fn edited_from(&self, other: &Renderer<F>) -> bool {
        &&& self.doc@ == other.doc@.edited()
        &&& *self == (Renderer { doc: self.doc, ..*other })
    }

    /// Nothing but the document and the stroke buffers differs.
    pub open spec fn same_around_doc(&self, other: &Renderer<F>) -> bool {
        &&& self.pending == other.pending
        &&& self.stroke_dirty == other.stroke_dirty
        &&& self.stroke_rect == other.stroke_rect
        &&& self.uv_stroke == other.uv_stroke
        &&& self.lock == other.lock
        &&& self.outline_facets == other.outline_facets
        &&& self.brush == other.brush
        &&& self.stamp == other.stamp
        &&& self.display == other.display
        &&& self.gpu == other.gpu
        &&& self.scene == other.scene
        &&& self.palette_name == other.palette_name
        &&& self.palette == other.palette
        &&& self.palette_settings == other.palette_settings
        &&& self.recipe == other.recipe
        &&& self.texture_folder == other.texture_folder
        &&& self.texture_filter == other.texture_filter
        &&& self.bg_color == other.bg_color
        &&& self.show_grid == other.show_grid
        &&& self.width == other.width
        &&& self.height == other.height
        &&& self.max_texture_dim == other.max_texture_dim
    }
}

impl<F: Copy> Renderer<F> {
    /// A fresh painter for a mesh: one checkerboard layer, which is shown as `show` gives
    /// it, nothing to undo, nothing unsaved, colour painting with a plain brush, and no
    /// quantization.
    pub fn new<C: Fn(&Layers<F>) -> Vec<u8>>(
        mesh: Mesh<F>,
        base_name: String,
        opacity: F,
        palette_name: String,
        palette: Vec<[F; 3]>,
        dither_strength: F,
        tile: F,
        angle: F,
        bg_color: [F; 3],
        width: u32,
        height: u32,
        max_texture_dim: u32,
        gpu_paint: bool,
        gpu_display: bool,
        show: &C,
    ) -> (r: Renderer<F>)
        requires
            max_texture_dim >= 1,
            shows_stacks(*show),
        ensures
            r.wf(),
            r.shown(),
            shows_stack(*show, r.doc@.stack, r.display.buf),
            r.stroke_fresh(),
            r.tex_size == TEX_SIZE,
            r.tex_size == 128,
            r.doc@.stack.layers.len() == 1,
            r.doc@.stack.active == 0,
            ({
                let base = r.doc@.stack.layers[0];
                &&& base.name == base_name@
                &&& base.naming == unnamed()
                &&& base.visible
                &&& base.opacity == opacity
                &&& base.blend == BlendMode::Normal
                &&& base.effects.len() == 0
                &&& base.mask == white_mask(TEX_SIZE)
                &&& forall|x: int, y: int, c: int|
                    0 <= x < TEX_SIZE && 0 <= y < TEX_SIZE && 0 <= c < 4 ==> #[trigger] image_at(
                        base.tex.pixels,
                        TEX_SIZE as int,
                        x,
                        y,
                        c,
                    ) == if c == 3 {
                        255
                    } else {
                        checker_shade(x, y)
                    }
            }),
            r.doc@.history.undo.len() == 0,
            r.doc@.history.redo.len() == 0,
            !r.doc@.dirty(),
            !r.doc@.autosave_due(),
            r.width == clamp_u32(width, 1, max_texture_dim),
            r.height == clamp_u32(height, 1, max_texture_dim),
            r.max_texture_dim == max_texture_dim,
            r.pending is None,
            !r.stroke_dirty && r.stroke_rect is None && !r.uv_stroke,
            r.scene == (Scene {
                mesh,
                topo_version: 0,
                surface_adj: None,
                fill_map: None,
                coverage: None,
                maps_size: None,
                light_key: None,
            }),
            r.display.dirty_rect is None,
            r.display.preview_rect is None,
            r.display.preview_key is None,
            r.display.ring_count == 0 && r.display.ring_key is None,
            r.display.version == 1,
            r.brush == (BrushState {
                target: PaintTarget::Color,
                mask_reveal: false,
                image_mode: BrushImageMode::Tiled,
                has_image: false,
                has_tip: false,
                image_gen: 0,
                symmetry: None,
            }),
            !r.lock.on && r.lock.facets is None,
            r.outline_facets@.len() == 0,
            r.gpu.paint == gpu_paint,
            r.gpu.display == gpu_display,
            !r.gpu.resolve && !r.gpu.material && !r.gpu.erase && r.gpu.rect is None,
            r.gpu.color@ == seq![0u8, 0u8, 0u8],
            r.gpu.target == PaintTarget::Color,
            r.stamp == (StampOptions { tile, angle, tint: false, invert: false }),
            r.bg_color == bg_color,
            r.gpu.coverage_gen is None && r.gpu.image_gen is None,
            r.palette_name == palette_name,
            r.palette == palette,
            r.palette_settings == (PaletteSettings {
                enabled: false,
                dither: true,
                dither_strength,
            }),
            r.recipe@.len() == 0,
            r.texture_folder is None,
            r.texture_filter == TextureFilter::Nearest,
            r.show_grid,
    {
        let base = make_checkerboard(TEX_SIZE, TEX_SIZE);
        let mask = PaintTexture::new(TEX_SIZE, TEX_SIZE, [255, 255, 255, 255]);
        let mut layers: Vec<Layer<F>> = Vec::new();
        layers.push(
            Layer {
                name: base_name,
                naming: Naming::new(),
                tex: base,
                mask,
                visible: true,
                opacity,
                blend: BlendMode::Normal,
                effects: Vec::new(),
            },
        );
        let stack = Layers { layers, active: 0 };
        proof {
            assert(stack@.layers[0].tex.width == TEX_SIZE);
            assert(stack_ok(stack@));
        }
        let buf = (*show)(&stack);
        assert(shows_stack(*show, stack@, buf));
        Renderer {
            doc: Document::new(stack),
            tex_size: TEX_SIZE,
            buffers: StrokeBuffers::new((TEX_SIZE * TEX_SIZE) as usize),
            pending: None,
            stroke_dirty: false,
            stroke_rect: None,
            uv_stroke: false,
            lock: FaceLock { on: false, facets: None },
            outline_facets: Vec::new(),
            brush: BrushState {
                target: PaintTarget::Color,
                mask_reveal: false,
                image_mode: BrushImageMode::Tiled,
                has_image: false,
                has_tip: false,
                image_gen: 0,
                symmetry: None,
            },
            stamp: StampOptions::new(tile, angle),
            display: Display {
                buf,
                dirty_rect: None,
                preview_rect: None,
                preview_key: None,
                ring_count: 0,
                ring_key: None,
                version: 1,
            },
            gpu: GpuStroke {
                paint: gpu_paint,
                display: gpu_display,
                resolve: false,
                material: false,
                rect: None,
                color: [0, 0, 0],
                erase: false,
                target: PaintTarget::Color,
                coverage_gen: None,
                image_gen: None,
            },
            scene: Scene {
                mesh,
                topo_version: 0,
                surface_adj: None,
                fill_map: None,
                coverage: None,
                maps_size: None,
                light_key: None,
            },
            palette_name,
            palette,
            palette_settings: PaletteSettings::new(dither_strength),
            recipe: Vec::new(),
            texture_folder: None,
            texture_filter: TextureFilter::Nearest,
            bg_color,
            show_grid: true,
            width: clamped(width, 1, max_texture_dim),
            height: clamped(height, 1, max_texture_dim),
            max_texture_dim,
        }
    }

    /// Takes a new window size, cut to what the GPU allows. An empty window changes
    /// nothing. Returns whether the size was taken.
    pub fn resize(&mut self, width: u32, height: u32) -> (done: bool)
        ensures
            done == (width != 0 && height != 0),
            *final(self) == if done {
                (Renderer {
                    width: min_u32(width, old(self).max_texture_dim),
                    height: min_u32(height, old(self).max_texture_dim),
                    ..*old(self)
                })
            } else {
                *old(self)
            },
    {
        if width == 0 || height == 0 {
            return false;
        }
        self.width = if width < self.max_texture_dim {
            width
        } else {
            self.max_texture_dim
        };
        self.height = if height < self.max_texture_dim {
            height
        } else {
            self.max_texture_dim
        };
        true
    }

    /// Sets the background colour.
    pub fn set_bg_color(&mut self, srgb: [F; 3])
        ensures
            *final(self) == (Renderer { bg_color: srgb, ..*old(self) }),
    {
        self.bg_color = srgb;
    }

    /// Shows or hides the ground grid.
    pub fn set_show_grid(&mut self, on: bool)
        ensures
            *final(self) == (Renderer { show_grid: on, ..*old(self) }),
    {
        self.show_grid = on;
    }

    /// The composited image changed as a whole: it becomes the mirror of what is shown,
    /// any part still to be shown is covered by it, and no ghost is left.
    pub fn refresh_display_texture(&mut self, pixels: Vec<u8>)
        requires
            is_image(pixels@, old(self).tex_size as int, old(self).tex_size as int),
        ensures
            *final(self) == (Renderer {
                display: Display {
                    buf: pixels,
                    dirty_rect: None,
                    preview_rect: None,
                    preview_key: None,
                    ring_count: old(self).display.ring_count,
                    ring_key: None,
                    version: next_seq(old(self).display.version),
                },
                ..*old(self)
            }),
            final(self).shown(),
    {
        self.display.buf = pixels;
        self.display.version = self.display.version.wrapping_add(1);
        self.display.dirty_rect = None;
        self.display.preview_rect = None;
        self.display.preview_key = None;
        self.display.ring_key = None;
    }

    /// The rectangles of a partial refresh around a changed rectangle: what can look
    /// different (bleed and effects reach beyond it), and the larger part that must be
    /// recomputed so that the bleed of the former comes out right.
    pub fn refresh_rects(&self, rect: TexRect, pad: u32, spread: u32) -> (r: (TexRect, TexRect))
        requires
            2 * pad + spread <= u32::MAX,
        ensures
            r.0 == rect.expanded_spec((pad + spread) as u32, self.tex_size),
            r.1 == rect.expanded_spec((2 * pad + spread) as u32, self.tex_size),
    {
        (
            rect.expanded(pad + spread, self.tex_size),
            rect.expanded(2 * pad + spread, self.tex_size),
        )
    }

    /// Takes the recomputed texels of `proc` into the mirror, but keeps only those of
    /// `upload`: the margin between the two goes back to what it was. Returns the texels
    /// of `upload`, packed, to be shown.
    pub fn refresh_display_region(
        &mut self,
        upload: TexRect,
        proc: TexRect,
        recomputed: &Vec<u8>,
    ) -> (packed: Vec<u8>)
        requires
            old(self).shown(),
            proc.within(old(self).tex_size as int, old(self).tex_size as int),
            upload.within(old(self).tex_size as int, old(self).tex_size as int),
            is_image(recomputed@, proc.width_spec(), proc.height_spec()),
        ensures
            final(self).shown(),
            is_refreshed(
                old(self).display.buf@,
                final(self).display.buf@,
                old(self).tex_size as int,
                upload,
                proc,
                recomputed@,
            ),
            is_region_of(
                final(self).display.buf@,
                old(self).tex_size as int,
                upload,
                packed@,
            ),
            *final(self) == (Renderer {
                display: Display {
                    buf: final(self).display.buf,
                    version: next_seq(old(self).display.version),
                    ..old(self).display
                },
                ..*old(self)
            }),
    {
        let size: u32 = self.tex_size;
        let ghost before = self.display.buf@;
        assert(is_image(before, size as int, size as int));
        let snapshot = copy_region(&self.display.buf, size, proc);
        paste_region(&mut self.display.buf, recomputed, size, proc);
        let ghost pasted = self.display.buf@;
        assert(is_image(pasted, size as int, size as int));
        restore_margin(&mut self.display.buf, &snapshot, size, proc, upload);
        proof {
            let w = size as int;
            assert forall|x: int, y: int, c: int| 0 <= x < w && 0 <= y < w && 0 <= c < 4 implies
                #[trigger] image_at(self.display.buf@, w, x, y, c) == if proc.has(x, y)
                && upload.has(x, y) {
                region_at(recomputed@, proc, x, y, c)
            } else {
                image_at(before, w, x, y, c)
            } by {
                lemma_in_image(x, y, w, w);
                assert(image_at(pasted, w, x, y, c) == if proc.has(x, y) {
                    region_at(recomputed@, proc, x, y, c)
                } else {
                    image_at(before, w, x, y, c)
                });
                if proc.has(x, y) {
                    assert(region_at(snapshot@, proc, x, y, c) == image_at(before, w, x, y, c));
                }
            }
            assert(is_image(self.display.buf@, w, w));
        }
        self.display.version = self.display.version.wrapping_add(1);
        copy_region(&self.display.buf, size, upload)
    }
}

/// What to do with the part of the image that changed since the last frame.
#[derive(Clone, Copy, Debug)]
pub struct FlushPlan {
    /// Refresh this rectangle of the mirror.
    pub cpu: Option<TexRect>,
    /// Composite the layers on the GPU.
    pub gpu: bool,
}

impl<F: Copy> Renderer<F> {
    /// Takes the changed rectangle for this frame. With layers composited on the GPU the
    /// mirror is refreshed only under a stroke in the UV editor, which shows the mirror.
    pub fn flush_paint(&mut self) -> (plan: FlushPlan)
        ensures
            plan.gpu == (old(self).display.dirty_rect is Some && old(self).gpu.display),
            plan.cpu == if !old(self).gpu.display || old(self).uv_stroke {
                old(self).display.dirty_rect
            } else {
                None
            },
            *final(self) == (Renderer {
                display: Display { dirty_rect: None, ..old(self).display },
                ..*old(self)
            }),
    {
        match self.display.dirty_rect.take() {
            Some(rect) => {
                if self.gpu.display {
                    FlushPlan {
                        cpu: if self.uv_stroke {
                            Some(rect)
                        } else {
                            None
                        },
                        gpu: true,
                    }
                } else {
                    FlushPlan { cpu: Some(rect), gpu: false }
                }
            },
            None => FlushPlan { cpu: None, gpu: false },
        }
    }

    /// Replaces the active palette. The document, which is saved with it, counts as changed.
    pub fn set_palette(&mut self, name: String, colors: Vec<[F; 3]>) -> (redraw: Redraw)
        ensures
            redraw == Redraw::Full,
            final(self).edited_from(
                &Renderer { palette_name: name, palette: colors, ..*old(self) },
            ),
            old(self).wf() ==> final(self).wf(),
    {
        self.palette_name = name;
        self.palette = colors;
        self.doc.mark_edited();
        Redraw::Full
    }

    /// Whether the shown image is quantized: it is switched on and there is a colour.
    pub fn quantizes(&self) -> (b: bool)
        ensures
            b == (self.palette_settings.enabled && self.palette.len() > 0),
    {
        self.palette_settings.enabled && self.palette.len() > 0
    }

    /// Whether an export is written with a palette: asked for, and the image is quantized.
    pub fn exports_indexed(&self, indexed: bool) -> (b: bool)
        ensures
            b == (indexed && self.palette_settings.enabled && self.palette.len() > 0),
    {
        indexed && self.quantizes()
    }

    /// Switches the texture filter. Returns whether it changed.
    pub fn set_texture_filter(&mut self, filter: TextureFilter) -> (changed: bool)
        ensures
            changed == (filter != old(self).texture_filter),
            *final(self) == (Renderer { texture_filter: filter, ..*old(self) }),
    {
        let changed: bool = filter != self.texture_filter;
        self.texture_filter = filter;
        changed
    }

    /// The layer stack.
    pub fn layers(&self) -> (l: &Layers<F>)
        ensures
            l@ == self.doc@.stack,
    {
        self.doc.layers()
    }

    pub fn can_undo(&self) -> (b: bool)
        ensures
            b == (self.doc@.history.undo.len() > 0),
    {
        self.doc.can_undo()
    }

    pub fn can_redo(&self) -> (b: bool)
        ensures
            b == (self.doc@.history.redo.len() > 0),
    {
        self.doc.can_redo()
    }

    /// Whether the document differs from the last explicit save.
    pub fn is_dirty(&self) -> (b: bool)
        ensures
            b == self.doc@.dirty(),
    {
        self.doc.is_dirty()
    }

    /// Whether the document changed since the last save or autosave.
    pub fn needs_autosave(&self) -> (b: bool)
        ensures
            b == self.doc@.autosave_due(),
    {
        self.doc.needs_autosave()
    }

    /// Makes the current stack an undo step.
    pub fn checkpoint(&mut self)
        requires
            old(self).wf(),
        ensures
            final(self).wf(),
            final(self).doc@ == old(self).doc@.checkpointed(),
            final(self).tex_size == old(self).tex_size,
            final(self).buffers == old(self).buffers,
            final(self).same_around_doc(old(self)),
    {
        self.doc.checkpoint();
    }

    /// Brings size and stroke state in line with a stack that was exchanged.
    pub(crate) fn restore_after_history(&mut self) -> (redraw: Redraw)
        requires
            sided(old(self).doc@.stack),
            old(self).buffers.wf(),
            old(self).buffers.texels() == old(self).tex_size * old(self).tex_size,
        ensures
            final(self).synced(),
            final(self).stroke_fresh(),
            final(self).doc@ == old(self).doc@,
            final(self).after_resize(old(self), redraw),
    {
        let size: u32 = self.doc.size();
        if self.tex_size != size {
            self.rebuild(size);
            Redraw::Rebuild
        } else {
            self.buffers.bump_stroke_id();
            Redraw::Full
        }
    }

    /// The document has a new size: the stroke buffers follow, and maps made for the old
    /// size are gone.
    pub(crate) fn rebuild(&mut self, size: u32)
        requires
            stack_size(old(self).doc@.stack) == size,
            sided(old(self).doc@.stack),
        ensures
            final(self).synced(),
            final(self).stroke_fresh(),
            final(self).doc@ == old(self).doc@,
            final(self).tex_size == size,
            final(self).scene.fill_map is None,
            final(self).scene.maps_size is None,
            final(self).rebuilt_from(old(self)),
    {
        self.tex_size = size;
        self.scene.maps_size = None;
        self.scene.light_key = None;
        self.scene.fill_map = None;
        assert(size * size <= u32::MAX) by (nonlinear_arith)
            requires
                size * size * 4 <= u32::MAX,
        ;
        let n: usize = (size * size) as usize;
        self.buffers.realloc(n);
    }

    /// Saves the document: `written` says how writing its file went. Only a written file
    /// makes the document clean.
    pub fn save_project(&mut self, written: Result<(), String>) -> (r: Result<(), String>)
        ensures
            r == written,
            final(self).doc@ == if written is Ok {
                old(self).doc@.saved_now()
            } else {
                old(self).doc@
            },
            final(self).tex_size == old(self).tex_size,
            final(self).buffers == old(self).buffers,
            final(self).same_around_doc(old(self)),
    {
        if written.is_ok() {
            self.doc.mark_saved();
        }
        written
    }

    /// Saves a recovery file: `written` says how writing it went. The document stays
    /// unsaved for the user.
    pub fn autosave(&mut self, written: Result<(), String>) -> (r: Result<(), String>)
        ensures
            r == written,
            final(self).doc@ == if written is Ok {
                old(self).doc@.autosaved_now()
            } else {
                old(self).doc@
            },
            final(self).tex_size == old(self).tex_size,
            final(self).buffers == old(self).buffers,
            final(self).same_around_doc(old(self)),
    {
        if written.is_ok() {
            self.doc.mark_autosaved();
        }
        written
    }

    /// Whether the step back leads to layers of one size. A stroke's step may not, once a
    /// project of another size was loaded over it.
    pub fn undo_fits(&self) -> (b: bool)
        requires
            self.wf(),
        ensures
            b == self.doc@.undo_fits(),
    {
        self.doc.undo_fits()
    }

    /// Whether the step forward leads to layers of one size.
    pub fn redo_fits(&self) -> (b: bool)
        requires
            self.wf(),
        ensures
            b == self.doc@.redo_fits(),
    {
        self.doc.redo_fits()
    }

    /// Steps back, if there is a step. The layers stay of one size where the step fits.
    pub fn undo(&mut self) -> (redraw: Redraw)
        requires
            old(self).wf(),
        ensures
            final(self).synced(),
            old(self).doc@.undo_fits() ==> final(self).wf(),
            final(self).doc@ == old(self).doc@.undone(),
            old(self).doc@.history.undo.len() == 0 ==> {
                &&& redraw == Redraw::Keep
                &&& final(self).same_around_doc(old(self))
                &&& final(self).buffers == old(self).buffers
                &&& final(self).tex_size == old(self).tex_size
            },
            old(self).doc@.history.undo.len() > 0 ==> {
                &&& final(self).stroke_fresh()
                &&& final(self).after_resize(old(self), redraw)
            },
    {
        if self.doc.undo() {
            self.restore_after_history()
        } else {
            Redraw::Keep
        }
    }

    /// Steps forward again, if there is a step. The layers stay of one size where it fits.
    pub fn redo(&mut self) -> (redraw: Redraw)
        requires
            old(self).wf(),
        ensures
            final(self).synced(),
            old(self).doc@.redo_fits() ==> final(self).wf(),
            final(self).doc@ == old(self).doc@.redone(),
            old(self).doc@.history.redo.len() == 0 ==> {
                &&& redraw == Redraw::Keep
                &&& final(self).same_around_doc(old(self))
                &&& final(self).buffers == old(self).buffers
                &&& final(self).tex_size == old(self).tex_size
            },
            old(self).doc@.history.redo.len() > 0 ==> {
                &&& final(self).stroke_fresh()
                &&& final(self).after_resize(old(self), redraw)
            },
    {
        if self.doc.redo() {
            self.restore_after_history()
        } else {
            Redraw::Keep
        }
    }

    /// Puts an empty layer on top and makes it active. One undo step.
    pub fn add_layer(&mut self, name: String, opacity: F) -> (redraw: Redraw)
        requires
            old(self).wf(),
        ensures
            final(self).wf(),
            redraw == Redraw::Full ==> final(self).doc@.one_step_after(old(self).doc@),
            final(self).tex_size == old(self).tex_size,
            final(self).same_around_doc(old(self)),
            redraw == Redraw::Full,
            final(self).doc@ == old(self).doc@.checkpointed().with_stack(
                old(self).doc@.stack.pushed(
                    (LayerModel {
                        name: name@,
                        naming: unnamed(),
                        tex: clear_image(old(self).tex_size),
                        mask: white_mask(old(self).tex_size),
                        visible: true,
                        opacity: opacity,
                        blend: BlendMode::Normal,
                        effects: Seq::empty(),
                    }),
                ),
            ),
            final(self).stroke_fresh(),
    {
        self.doc.add_layer(name, opacity);
        self.buffers.bump_stroke_id();
        Redraw::Full
    }

    /// Takes the active layer out. One undo step; the last layer stays and records nothing.
    pub fn remove_active_layer(&mut self) -> (redraw: Redraw)
        requires
            old(self).wf(),
        ensures
            final(self).wf(),
            redraw == Redraw::Full ==> final(self).doc@.one_step_after(old(self).doc@),
            final(self).tex_size == old(self).tex_size,
            final(self).same_around_doc(old(self)),
            redraw == if old(self).doc@.stack.layers.len() > 1 {
                Redraw::Full
            } else {
                Redraw::Keep
            },
            final(self).doc@ == if old(self).doc@.stack.layers.len() > 1 {
                old(self).doc@.checkpointed().with_stack(old(self).doc@.stack.removed())
            } else {
                old(self).doc@
            },
            old(self).doc@.stack.layers.len() > 1 ==> final(self).stroke_fresh(),
            !(old(self).doc@.stack.layers.len() > 1) ==> final(self).buffers == old(self).buffers,
    {
        if self.doc.remove_active_layer() {
            self.buffers.bump_stroke_id();
            Redraw::Full
        } else {
            Redraw::Keep
        }
    }

    /// Merges the active layer into the one beneath it, whose images become the given ones.
    /// One undo step; the bottom layer stays and records nothing.
    pub fn merge_active_layer_down(&mut self, tex: PaintTexture, mask: PaintTexture) -> (redraw: Redraw)
        requires
            old(self).wf(),
            tex.wf() && mask.wf(),
            tex.width == old(self).tex_size && tex.height == tex.width,
            mask.width == tex.width && mask.height == tex.width,
        ensures
            final(self).wf(),
            redraw == Redraw::Full ==> final(self).doc@.one_step_after(old(self).doc@),
            final(self).tex_size == old(self).tex_size,
            final(self).same_around_doc(old(self)),
            redraw == if old(self).doc@.stack.active > 0 {
                Redraw::Full
            } else {
                Redraw::Keep
            },
            final(self).doc@ == if old(self).doc@.stack.active > 0 {
                old(self).doc@.checkpointed().with_stack(old(self).doc@.stack.merged(tex@, mask@))
            } else {
                old(self).doc@
            },
            old(self).doc@.stack.active > 0 ==> final(self).stroke_fresh(),
            !(old(self).doc@.stack.active > 0) ==> final(self).buffers == old(self).buffers,
    {
        if self.doc.merge_active_layer_down(tex, mask) {
            self.buffers.bump_stroke_id();
            Redraw::Full
        } else {
            Redraw::Keep
        }
    }

    /// Moves the active layer one place up or down. One undo step.
    pub fn move_active_layer(&mut self, up: bool) -> (redraw: Redraw)
        requires
            old(self).wf(),
        ensures
            final(self).wf(),
            redraw == Redraw::Full ==> final(self).doc@.one_step_after(old(self).doc@),
            final(self).tex_size == old(self).tex_size,
            final(self).same_around_doc(old(self)),
            redraw == Redraw::Full,
            final(self).doc@ == old(self).doc@.checkpointed().with_stack(old(self).doc@.stack.moved(up)),
            final(self).buffers == old(self).buffers,
    {
        self.doc.move_active_layer(up);
        Redraw::Full
    }

    /// Makes layer `index` the active one, if there is such a layer.
    pub fn set_active_layer(&mut self, index: usize) -> (redraw: Redraw)
        requires
            old(self).wf(),
        ensures
            final(self).wf(),
            final(self).tex_size == old(self).tex_size,
            final(self).same_around_doc(old(self)),
            redraw == Redraw::Keep,
            final(self).doc@ == if index < old(self).doc@.stack.layers.len() {
                old(self).doc@.with_stack(
                    StackModel { layers: old(self).doc@.stack.layers, active: index as int },
                )
            } else {
                old(self).doc@
            },
            index < old(self).doc@.stack.layers.len() ==> final(self).stroke_fresh(),
            index >= old(self).doc@.stack.layers.len() ==> final(self).buffers
                == old(self).buffers,
    {
        if self.doc.set_active_layer(index) {
            self.buffers.bump_stroke_id();
            Redraw::Keep
        } else {
            Redraw::Keep
        }
    }

    /// Shows or hides a layer. One undo step; nothing happens without such a layer.
    pub fn set_layer_visible(&mut self, index: usize, visible: bool) -> (redraw: Redraw)
        requires
            old(self).wf(),
        ensures
            final(self).wf(),
            redraw == Redraw::Full ==> final(self).doc@.one_step_after(old(self).doc@),
            final(self).tex_size == old(self).tex_size,
            final(self).same_around_doc(old(self)),
            redraw == if index < old(self).doc@.stack.layers.len() {
                Redraw::Full
            } else {
                Redraw::Keep
            },
            final(self).doc@ == if index < old(self).doc@.stack.layers.len() {
                old(self).doc@.checkpointed().with_layer(
                    index as int,
                    LayerModel {
                        visible: visible,
                        ..old(self).doc@.stack.layers[index as int]
                    },
                )
            } else {
                old(self).doc@
            },
            final(self).buffers == old(self).buffers,
    {
        if self.doc.set_layer_visible(index, visible) {
            Redraw::Full
        } else {
            Redraw::Keep
        }
    }

    /// Sets a layer's opacity, without an undo step of its own.
    pub fn set_layer_opacity(&mut self, index: usize, opacity: F) -> (redraw: Redraw)
        requires
            old(self).wf(),
        ensures
            final(self).wf(),
            final(self).tex_size == old(self).tex_size,
            final(self).same_around_doc(old(self)),
            redraw == if index < old(self).doc@.stack.layers.len() {
                Redraw::Full
            } else {
                Redraw::Keep
            },
            final(self).doc@ == if index < old(self).doc@.stack.layers.len() {
                old(self).doc@.with_layer(
                    index as int,
                    LayerModel {
                        opacity: opacity,
                        ..old(self).doc@.stack.layers[index as int]
                    },
                ).edited()
            } else {
                old(self).doc@
            },
            final(self).buffers == old(self).buffers,
    {
        if self.doc.set_layer_opacity(index, opacity) {
            Redraw::Full
        } else {
            Redraw::Keep
        }
    }

    /// Sets a layer's blend mode. One undo step; nothing happens without such a layer.
    pub fn set_layer_blend(&mut self, index: usize, blend: BlendMode) -> (redraw: Redraw)
        requires
            old(self).wf(),
        ensures
            final(self).wf(),
            redraw == Redraw::Full ==> final(self).doc@.one_step_after(old(self).doc@),
            final(self).tex_size == old(self).tex_size,
            final(self).same_around_doc(old(self)),
            redraw == if index < old(self).doc@.stack.layers.len() {
                Redraw::Full
            } else {
                Redraw::Keep
            },
            final(self).doc@ == if index < old(self).doc@.stack.layers.len() {
                old(self).doc@.checkpointed().with_layer(
                    index as int,
                    LayerModel {
                        blend: blend,
                        ..old(self).doc@.stack.layers[index as int]
                    },
                )
            } else {
                old(self).doc@
            },
            final(self).buffers == old(self).buffers,
    {
        if self.doc.set_layer_blend(index, blend) {
            Redraw::Full
        } else {
            Redraw::Keep
        }
    }

    /// Renames a layer for the user, which ends its automatic naming. One undo step; the
    /// picture does not change.
    pub fn rename_layer(&mut self, index: usize, name: String)
        requires
            old(self).wf(),
        ensures
            final(self).wf(),
            index < old(self).doc@.stack.layers.len() ==> final(self).doc@.one_step_after(
                old(self).doc@,
            ),
            final(self).doc@ == if index < old(self).doc@.stack.layers.len() {
                old(self).doc@.checkpointed().with_layer(
                    index as int,
                    old(self).doc@.stack.layers[index as int].renamed(name@),
                )
            } else {
                old(self).doc@.checkpointed()
            },
            final(self).tex_size == old(self).tex_size,
            final(self).buffers == old(self).buffers,
            final(self).same_around_doc(old(self)),
    {
        self.doc.rename_layer(index, name);
    }

    /// Gives the active layer an automatic name, made of what was done to it. A name of the
    /// user's stays. Returns whether the name was taken.
    pub fn auto_name_layer(&mut self, name: String) -> (done: bool)
        requires
            old(self).wf(),
        ensures
            final(self).wf(),
            done == !old(self).doc@.stack.active_layer().naming.renamed,
            final(self).doc@ == if done {
                old(self).doc@.with_layer(
                    old(self).doc@.stack.active,
                    old(self).doc@.stack.active_layer().auto_named(name@),
                ).edited()
            } else {
                old(self).doc@
            },
            final(self).tex_size == old(self).tex_size,
            final(self).buffers == old(self).buffers,
            final(self).same_around_doc(old(self)),
    {
        self.doc.auto_name(name)
    }

    /// Adds an effect at the end of the active layer's effects. One undo step.
    pub fn add_effect(&mut self, fx: Effect<F>) -> (redraw: Redraw)
        requires
            old(self).wf(),
        ensures
            final(self).wf(),
            redraw == Redraw::Full ==> final(self).doc@.one_step_after(old(self).doc@),
            final(self).tex_size == old(self).tex_size,
            final(self).same_around_doc(old(self)),
            redraw == Redraw::Full,
            final(self).doc@ == old(self).doc@.checkpointed().with_layer(
                old(self).doc@.stack.active,
                LayerModel {
                    effects: old(self).doc@.stack.active_layer().effects.push(fx),
                    ..old(self).doc@.stack.active_layer()
                },
            ).noted(LayerOp::Effect(fx.kind_spec())),
            final(self).buffers == old(self).buffers,
    {
        self.doc.add_effect(fx);
        Redraw::Full
    }

    /// Removes effect `idx` of the active layer. One undo step; nothing happens without such an
    /// effect.
    pub fn remove_effect(&mut self, idx: usize) -> (redraw: Redraw)
        requires
            old(self).wf(),
        ensures
            final(self).wf(),
            redraw == Redraw::Full ==> final(self).doc@.one_step_after(old(self).doc@),
            final(self).tex_size == old(self).tex_size,
            final(self).same_around_doc(old(self)),
            redraw == if idx < old(self).doc@.stack.active_layer().effects.len() {
                Redraw::Full
            } else {
                Redraw::Keep
            },
            final(self).doc@ == if idx < old(self).doc@.stack.active_layer().effects.len() {
                old(self).doc@.checkpointed().with_layer(
                    old(self).doc@.stack.active,
                    LayerModel {
                        effects: old(self).doc@.stack.active_layer().effects.remove(idx as int),
                        ..old(self).doc@.stack.active_layer()
                    },
                )
            } else {
                old(self).doc@
            },
            final(self).buffers == old(self).buffers,
    {
        if self.doc.remove_effect(idx) {
            Redraw::Full
        } else {
            Redraw::Keep
        }
    }

    /// Moves effect `idx` of the active layer toward the end (`up`) or the start. One undo
    /// step.
    pub fn move_effect(&mut self, idx: usize, up: bool) -> (redraw: Redraw)
        requires
            old(self).wf(),
            !up ==> idx < old(self).doc@.stack.active_layer().effects.len() || idx == 0,
        ensures
            final(self).wf(),
            redraw == Redraw::Full ==> final(self).doc@.one_step_after(old(self).doc@),
            final(self).tex_size == old(self).tex_size,
            final(self).same_around_doc(old(self)),
            ({
                let old_fx = old(self).doc@.stack.active_layer().effects;
                match moves_to(old_fx.len(), idx, up) {
                    Some(to) => redraw == Redraw::Full && final(self).doc@
                        == old(self).doc@.checkpointed().with_layer(
                        old(self).doc@.stack.active,
                        LayerModel {
                            effects: swap_effects(old_fx, idx as int, to),
                            ..old(self).doc@.stack.active_layer()
                        },
                    ),
                    None => redraw == Redraw::Keep && final(self).doc@ == old(self).doc@,
                }
            }),
            final(self).buffers == old(self).buffers,
    {
        if self.doc.move_effect(idx, up) {
            Redraw::Full
        } else {
            Redraw::Keep
        }
    }

    /// Replaces effect `idx` of the active layer, without an undo step of its own.
    pub fn set_effect(&mut self, idx: usize, fx: Effect<F>) -> (redraw: Redraw)
        requires
            old(self).wf(),
        ensures
            final(self).wf(),
            final(self).tex_size == old(self).tex_size,
            final(self).same_around_doc(old(self)),
            redraw == if idx < old(self).doc@.stack.active_layer().effects.len() {
                Redraw::Full
            } else {
                Redraw::Keep
            },
            final(self).doc@ == if idx < old(self).doc@.stack.active_layer().effects.len() {
                old(self).doc@.with_layer(
                    old(self).doc@.stack.active,
                    LayerModel {
                        effects: old(self).doc@.stack.active_layer().effects.update(idx as int, fx),
                        ..old(self).doc@.stack.active_layer()
                    },
                ).edited()
            } else {
                old(self).doc@
            },
            final(self).buffers == old(self).buffers,
    {
        if self.doc.set_effect(idx, fx) {
            Redraw::Full
        } else {
            Redraw::Keep
        }
    }

}

impl<F> Renderer<F> {
    /// What follows an exchange of the stack: at the old size the whole image is drawn
    /// again; at a new size the texture is rebuilt and maps of the old size are gone.
    pub open spec fn after_resize(&self, before: &Renderer<F>, redraw: Redraw) -> bool {
        &&& self.tex_size == stack_size(self.doc@.stack)
        &&& self.tex_size == before.tex_size ==> redraw == Redraw::Full && self.same_around_doc(
            before,
        )
        &&& self.tex_size != before.tex_size ==> {
            &&& redraw == Redraw::Rebuild
            &&& self.scene.fill_map is None
            &&& self.scene.maps_size is None
            &&& self.rebuilt_from(before)
        }
    }

    /// Apart from the size, the stroke buffers and what was made for the old size, nothing
    /// around the document changed.
    pub open spec fn rebuilt_from(&self, before: &Renderer<F>) -> bool {
        &&& self.scene == (Scene { fill_map: None, maps_size: None, light_key: None, ..before.scene })
        &&& self.same_around_doc(&Renderer { scene: self.scene, ..*before })
    }
}

} // verus!
