//! The document: its layer stack, its history, and what of it has been saved.

use crate::history::{History, HistoryModel, SnapModel, Snapshot};
use crate::layers::{
    lesser, unnamed, BlendMode, Effect, LayerModel, LayerOp, Layers, StackModel, TexModel,
};
use crate::fill::{fill_texels, filled};
use crate::stroke::{
    apply_coverage, cov_at, cover_agrees, deposited, texel_covered, texel_xy, Splat, StrokeBuffers,
};
use crate::texture::{image_at, is_image, paste_region, region_at, PaintTexture, TexRect};
use vstd::prelude::*;

verus! {

/// A document's state.
#[verifier::ext_equal]
pub struct DocModel<F> {
    pub stack: StackModel<F>,
    pub history: HistoryModel<F>,
    pub edit: u64,
    pub saved: u64,
    pub autosaved: u64,
}

/// The number after `n`, starting over past the largest.
pub open spec fn next_seq(n: u64) -> u64 {
    if n == u64::MAX {
        0
    } else {
        (n + 1) as u64
    }
}

impl<F> DocModel<F> {
    /// The document counts as changed once more.
    pub open spec fn edited(self) -> DocModel<F> {
        DocModel { edit: next_seq(self.edit), ..self }
    }

    /// The current stack is an undo step, and the document counts as changed.
    pub open spec fn checkpointed(self) -> DocModel<F> {
        DocModel { history: self.history.recorded(SnapModel::Stack(self.stack)), ..self }.edited()
    }

    pub open spec fn with_stack(self, stack: StackModel<F>) -> DocModel<F> {
        DocModel { stack: stack, ..self }
    }

    /// Another stack was loaded: the document is clean. The undo steps stay.
    pub open spec fn loaded(self, stack: StackModel<F>) -> DocModel<F> {
        self.with_stack(stack).saved_now()
    }

    /// The document is one undo step ahead of `m`: the step leads back to the stack of `m`.
    pub open spec fn one_step_after(self, m: DocModel<F>) -> bool {
        self == m.checkpointed().with_stack(self.stack)
    }

    /// The stack with layer `i` replaced.
    pub open spec fn with_layer(self, i: int, l: LayerModel<F>) -> DocModel<F> {
        self.with_stack(
            StackModel { layers: self.stack.layers.update(i, l), active: self.stack.active },
        )
    }

    /// Something was done to the active layer that its automatic name tells of.
    pub open spec fn noted(self, op: LayerOp) -> DocModel<F> {
        self.with_layer(self.stack.active, self.stack.active_layer().noted(op))
    }

    /// The document differs from the last explicit save.
    pub open spec fn dirty(self) -> bool {
        self.edit != self.saved
    }

    /// The document changed since the last save or autosave.
    pub open spec fn autosave_due(self) -> bool {
        self.edit != self.autosaved
    }

    /// The document matches the user's file.
    pub open spec fn saved_now(self) -> DocModel<F> {
        DocModel { saved: self.edit, autosaved: self.edit, ..self }
    }

    /// The document matches its recovery file.
    pub open spec fn autosaved_now(self) -> DocModel<F> {
        DocModel { autosaved: self.edit, ..self }
    }

    /// One step back, if there is one.
    pub open spec fn undone(self) -> DocModel<F> {
        if self.history.undo.len() == 0 {
            self
        } else {
            DocModel {
                stack: self.history.undo.last().restored(self.stack),
                history: self.history.undone(self.stack),
                ..self
            }.edited()
        }
    }

    /// The step back, if there is one, leads to a valid stack. It does unless it is a stroke's
    /// on a layer whose size changed since without an undo step.
    pub open spec fn undo_fits(self) -> bool {
        self.history.undo.len() == 0 || stack_ok(self.history.undo.last().restored(self.stack))
    }

    /// The step forward, if there is one, leads to a valid stack.
    pub open spec fn redo_fits(self) -> bool {
        self.history.redo.len() == 0 || stack_ok(self.history.redo.last().restored(self.stack))
    }

    /// One step forward, if there is one.
    pub open spec fn redone(self) -> DocModel<F> {
        if self.history.redo.len() == 0 {
            self
        } else {
            DocModel {
                stack: self.history.redo.last().restored(self.stack),
                history: self.history.redone(self.stack),
                ..self
            }.edited()
        }
    }
}

/// The side of the stack's images.
pub open spec fn stack_size<F>(s: StackModel<F>) -> u32 {
    s.layers[0].tex.width
}

/// A stack a document can have: at least one layer, a valid active one, and square images
/// of one size.
pub open spec fn stack_ok<F>(s: StackModel<F>) -> bool {
    &&& 0 <= s.active < s.layers.len()
    &&& 0 < stack_size(s)
    &&& stack_size(s) * stack_size(s) * 4 <= u32::MAX
    &&& s.wf(stack_size(s))
}

/// Stepping through the snapshots from the last to the first gives a valid stack each
/// time.
pub open spec fn replay_ok<F>(s: StackModel<F>, snaps: Seq<SnapModel<F>>) -> bool
    decreases snaps.len(),
{
    snaps.len() == 0 || (stack_ok(snaps.last().restored(s)) && replay_ok(
        snaps.last().restored(s),
        snaps.drop_last(),
    ))
}

/// A step a document can have: a valid stack, or square images of one size.
pub open spec fn snap_ok<F>(s: SnapModel<F>) -> bool {
    match s {
        SnapModel::Stack(stack) => stack_ok(stack),
        SnapModel::Layer { index, tex, mask } => images_ok(tex, mask),
    }
}

/// Colour and mask are square images of one size.
pub open spec fn images_ok(tex: TexModel, mask: TexModel) -> bool {
    &&& 0 < tex.width
    &&& tex.width * tex.width * 4 <= u32::MAX
    &&& tex.height == tex.width
    &&& mask.width == tex.width && mask.height == tex.width
    &&& tex.pixels.len() == tex.width * tex.width * 4
    &&& mask.pixels.len() == tex.width * tex.width * 4
}

pub open spec fn steps_ok<F>(snaps: Seq<SnapModel<F>>) -> bool {
    forall|i: int| 0 <= i < snaps.len() ==> snap_ok(#[trigger] snaps[i])
}

/// The document is valid: its stack is, and each undo and redo step by itself.
pub open spec fn doc_ok<F>(m: DocModel<F>) -> bool {
    &&& stack_ok(m.stack)
    &&& steps_ok(m.history.undo)
    &&& steps_ok(m.history.redo)
}

/// The document stays valid however far it is undone or redone.
pub open spec fn steps_fit<F>(m: DocModel<F>) -> bool {
    &&& replay_ok(m.stack, m.history.undo)
    &&& replay_ok(m.stack, m.history.redo)
}

/// The two stacks have the same number of layers with images of the same size.
pub open spec fn same_shape<F>(s: StackModel<F>, t: StackModel<F>) -> bool {
    &&& s.layers.len() == t.layers.len()
    &&& forall|i: int|
        0 <= i < s.layers.len() ==> same_images((#[trigger] s.layers[i]), t.layers[i])
}

pub open spec fn same_images<F>(a: LayerModel<F>, b: LayerModel<F>) -> bool {
    &&& same_extent(a.tex, b.tex)
    &&& same_extent(a.mask, b.mask)
}

pub open spec fn same_extent(a: TexModel, b: TexModel) -> bool {
    a.width == b.width && a.height == b.height && a.pixels.len() == b.pixels.len()
}

pub proof fn lemma_shape_ok<F>(s: StackModel<F>, t: StackModel<F>)
    requires
        stack_ok(s),
        same_shape(s, t),
        0 <= t.active < t.layers.len(),
    ensures
        stack_ok(t),
        stack_size(t) == stack_size(s),
{
    assert(same_images(s.layers[0], t.layers[0]));
    assert forall|i: int| 0 <= i < t.layers.len() implies (#[trigger] t.layers[i]).sized(
        stack_size(s),
    ) by {
        assert(same_images(s.layers[i], t.layers[i]));
        assert(s.layers[i].sized(stack_size(s)));
    }
}

/// Whether a history can be replayed only depends on the shape of the stack.
proof fn lemma_replay_shape<F>(s: StackModel<F>, t: StackModel<F>, snaps: Seq<SnapModel<F>>)
    requires
        replay_ok(s, snaps),
        same_shape(s, t),
        0 <= t.active < t.layers.len(),
    ensures
        replay_ok(t, snaps),
    decreases snaps.len(),
{
    if snaps.len() > 0 {
        let a = snaps.last().restored(s);
        let b = snaps.last().restored(t);
        match snaps.last() {
            SnapModel::Stack(x) => {},
            SnapModel::Layer { index, tex, mask } => {
                assert forall|i: int| 0 <= i < a.layers.len() implies same_images(
                    (#[trigger] a.layers[i]),
                    b.layers[i],
                ) by {
                    assert(same_images(s.layers[i], t.layers[i]));
                }
                lemma_shape_ok(a, b);
                lemma_replay_shape(a, b, snaps.drop_last());
            },
        }
    }
}

proof fn lemma_replay_skip<F>(s: StackModel<F>, snaps: Seq<SnapModel<F>>)
    requires
        replay_ok(s, snaps),
        snaps.len() > 0,
    ensures
        replay_ok(s, snaps.skip(1)),
    decreases snaps.len(),
{
    if snaps.len() > 1 {
        let a = snaps.last().restored(s);
        lemma_replay_skip(a, snaps.drop_last());
        assert(snaps.skip(1).drop_last() =~= snaps.drop_last().skip(1));
        assert(snaps.skip(1).last() == snaps.last());
    }
}

/// Recording the stack before replacing it keeps the document valid.
pub proof fn lemma_record_stack<F>(m: DocModel<F>, t: StackModel<F>)
    requires
        doc_ok(m),
        stack_ok(t),
    ensures
        doc_ok(m.checkpointed().with_stack(t)),
{
    lemma_record_ok(m.history, SnapModel::Stack(m.stack));
}

/// A history with one more valid step is valid.
proof fn lemma_record_ok<F>(h: HistoryModel<F>, snap: SnapModel<F>)
    requires
        steps_ok(h.undo),
        snap_ok(snap),
    ensures
        steps_ok(h.recorded(snap).undo),
        steps_ok(h.recorded(snap).redo),
{
    let undo = h.recorded(snap).undo;
    assert forall|i: int| 0 <= i < undo.len() implies snap_ok(#[trigger] undo[i]) by {
        if i < undo.len() - 1 {
            if h.undo.len() >= crate::history::HISTORY_CAP {
                assert(undo[i] == h.undo[i + 1]);
            } else {
                assert(undo[i] == h.undo[i]);
            }
        }
    }
}

/// Recording a snapshot that leads from `t` back to `s` keeps the history replayable.
proof fn lemma_record<F>(
    s: StackModel<F>,
    h: HistoryModel<F>,
    snap: SnapModel<F>,
    t: StackModel<F>,
)
    requires
        stack_ok(s),
        replay_ok(s, h.undo),
        snap.restored(t) == s,
    ensures
        replay_ok(t, h.recorded(snap).undo),
        replay_ok(t, h.recorded(snap).redo),
{
    let undo = h.recorded(snap).undo;
    if h.undo.len() >= crate::history::HISTORY_CAP {
        lemma_replay_skip(s, h.undo);
        assert(undo.drop_last() =~= h.undo.skip(1));
    } else {
        assert(undo.drop_last() =~= h.undo);
    }
    assert(undo.last() == snap);
}

/// A change that keeps the shape of the stack keeps the document valid.
pub proof fn lemma_same_shape_ok<F>(m: DocModel<F>, t: StackModel<F>)
    requires
        doc_ok(m),
        same_shape(m.stack, t),
        0 <= t.active < t.layers.len(),
    ensures
        doc_ok(m.with_stack(t)),
        stack_size(t) == stack_size(m.stack),
{
    lemma_shape_ok(m.stack, t);
}

/// What leads back from a step is a valid step.
proof fn lemma_counterpart_ok<F>(s: SnapModel<F>, stack: StackModel<F>)
    requires
        snap_ok(s),
        stack_ok(stack),
    ensures
        snap_ok(s.counterpart(stack)),
{
    match s {
        SnapModel::Stack(x) => {},
        SnapModel::Layer { index, tex, mask } => {
            if 0 <= index < stack.layers.len() {
                assert(stack.layers[index].sized(stack_size(stack)));
            }
        },
    }
}

/// Stepping back and forth keeps every step valid by itself, and a step that fits gives a
/// valid document.
proof fn lemma_undo_ok<F>(m: DocModel<F>)
    requires
        doc_ok(m),
    ensures
        steps_ok(m.undone().history.undo) && steps_ok(m.undone().history.redo),
        steps_ok(m.redone().history.undo) && steps_ok(m.redone().history.redo),
        m.undo_fits() ==> doc_ok(m.undone()),
        m.redo_fits() ==> doc_ok(m.redone()),
        sided(m.undone().stack),
        sided(m.redone().stack),
{
    if m.history.undo.len() > 0 {
        let s = m.history.undo.last();
        assert(snap_ok(s));
        lemma_counterpart_ok(s, m.stack);
    }
    if m.history.redo.len() > 0 {
        let s = m.history.redo.last();
        assert(snap_ok(s));
        lemma_counterpart_ok(s, m.stack);
    }
}

/// There is a valid active layer, and the bottom layer has a size a texture can have.
pub open spec fn sided<F>(s: StackModel<F>) -> bool {
    &&& 0 <= s.active < s.layers.len()
    &&& 0 < stack_size(s)
    &&& stack_size(s) * stack_size(s) * 4 <= u32::MAX
}

proof fn lemma_back<F>(s: SnapModel<F>, stack: StackModel<F>)
    ensures
        s.counterpart(stack).restored(s.restored(stack)) == stack,
{
    match s {
        SnapModel::Stack(x) => {},
        SnapModel::Layer { index, tex, mask } => {
            if 0 <= index < stack.layers.len() {
                let back = s.counterpart(stack).restored(s.restored(stack));
                assert(back.layers =~= stack.layers);
            }
        },
    }
}

/// A painted document: layers, history and save state.
#[derive(Debug)]
pub struct Document<F> {
    layers: Layers<F>,
    history: History<F>,
    edit_seq: u64,
    saved_seq: u64,
    autosave_seq: u64,
}

impl<F> View for Document<F> {
    type V = DocModel<F>;

    closed spec fn view(&self) -> DocModel<F> {
        DocModel {
            stack: self.layers@,
            history: self.history@,
            edit: self.edit_seq,
            saved: self.saved_seq,
            autosaved: self.autosave_seq,
        }
    }
}

impl<F: Copy> Document<F> {
    /// A fresh, clean document with the given layers and no history.
    pub fn new(layers: Layers<F>) -> (d: Document<F>)
        requires
            stack_ok(layers@),
        ensures
            d@.stack == layers@,
            d@.history.undo.len() == 0,
            d@.history.redo.len() == 0,
            d@.edit == 0,
            !d@.dirty(),
            !d@.autosave_due(),
            doc_ok(d@),
    {
        Document { layers, history: History::new(), edit_seq: 0, saved_seq: 0, autosave_seq: 0 }
    }

    /// The layer stack.
    pub fn layers(&self) -> (l: &Layers<F>)
        ensures
            l@ == self@.stack,
            l.layers@.len() == self@.stack.layers.len(),
    {
        &self.layers
    }

    pub fn can_undo(&self) -> (b: bool)
        ensures
            b == (self@.history.undo.len() > 0),
    {
        self.history.can_undo()
    }

    pub fn can_redo(&self) -> (b: bool)
        ensures
            b == (self@.history.redo.len() > 0),
    {
        self.history.can_redo()
    }

    /// Whether the document differs from the last explicit save.
    pub fn is_dirty(&self) -> (b: bool)
        ensures
            b == self@.dirty(),
    {
        self.edit_seq != self.saved_seq
    }

    /// Whether the document changed since the last save or autosave.
    pub fn needs_autosave(&self) -> (b: bool)
        ensures
            b == self@.autosave_due(),
    {
        self.edit_seq != self.autosave_seq
    }

    /// Something the document is saved with changed, without an undo step.
    pub fn mark_edited(&mut self)
        ensures
            final(self)@ == old(self)@.edited(),
    {
        self.edit_seq = self.edit_seq.wrapping_add(1);
    }

    /// The document was written to the user's file.
    pub fn mark_saved(&mut self)
        ensures
            final(self)@ == old(self)@.saved_now(),
    {
        self.saved_seq = self.edit_seq;
        self.autosave_seq = self.edit_seq;
    }

    /// The document was written to a recovery file.
    pub fn mark_autosaved(&mut self)
        ensures
            final(self)@ == old(self)@.autosaved_now(),
    {
        self.autosave_seq = self.edit_seq;
    }

    /// Makes the current stack an undo step, forgetting what could be redone.
    pub fn checkpoint(&mut self)
        requires
            doc_ok(old(self)@),
        ensures
            final(self)@ == old(self)@.checkpointed(),
            doc_ok(final(self)@),
    {
        let ghost m = self@;
        self.history.record(Snapshot::Stack(self.layers.copied()));
        self.mark_edited();
        proof {
            lemma_record_stack(m, m.stack);
        }
    }

    /// Whether the step back leads to a valid stack.
    pub fn undo_fits(&self) -> (b: bool)
        requires
            doc_ok(self@),
        ensures
            b == self@.undo_fits(),
    {
        self.history.undo_fits(&self.layers)
    }

    /// Whether the step forward leads to a valid stack.
    pub fn redo_fits(&self) -> (b: bool)
        requires
            doc_ok(self@),
        ensures
            b == self@.redo_fits(),
    {
        self.history.redo_fits(&self.layers)
    }

    /// Steps back, if there is a step. Returns whether there was.
    pub fn undo(&mut self) -> (done: bool)
        requires
            doc_ok(old(self)@),
        ensures
            done == (old(self)@.history.undo.len() > 0),
            final(self)@ == old(self)@.undone(),
            old(self)@.undo_fits() ==> doc_ok(final(self)@),
            sided(final(self)@.stack),
            steps_ok(final(self)@.history.undo) && steps_ok(final(self)@.history.redo),
    {
        let ghost m = self@;
        proof {
            lemma_undo_ok(m);
        }
        let done: bool = self.history.undo(&mut self.layers);
        if done {
            self.clamp_active();
            self.mark_edited();
        }
        done
    }

    /// Steps forward again, if there is a step. Returns whether there was.
    pub fn redo(&mut self) -> (done: bool)
        requires
            doc_ok(old(self)@),
        ensures
            done == (old(self)@.history.redo.len() > 0),
            final(self)@ == old(self)@.redone(),
            old(self)@.redo_fits() ==> doc_ok(final(self)@),
            sided(final(self)@.stack),
            steps_ok(final(self)@.history.undo) && steps_ok(final(self)@.history.redo),
    {
        let ghost m = self@;
        proof {
            lemma_undo_ok(m);
        }
        let done: bool = self.history.redo(&mut self.layers);
        if done {
            self.clamp_active();
            self.mark_edited();
        }
        done
    }

    fn clamp_active(&mut self)
        requires
            old(self)@.stack.layers.len() > 0,
        ensures
            final(self)@ == old(self)@.with_stack(
                (StackModel {
                    layers: old(self)@.stack.layers,
                    active: lesser(old(self)@.stack.active, old(self)@.stack.layers.len() - 1),
                }),
            ),
    {
        let ghost m = self@;
        let n: usize = self.layers.layers.len();
        if self.layers.active > n - 1 {
            self.layers.active = n - 1;
        }
        assert(self@.stack.layers =~= m.stack.layers);
    }

    /// The side of the images, read off the bottom layer.
    pub fn size(&self) -> (s: u32)
        requires
            self@.stack.layers.len() > 0,
        ensures
            s == stack_size(self@.stack),
    {
        assert(self@.stack.layers[0] == self.layers.layers@[0]@);
        self.layers.layers[0].tex.width
    }

    /// Replaces the whole stack. A loaded document starts clean; its undo steps stay.
    pub fn load(&mut self, layers: Layers<F>)
        requires
            stack_ok(layers@),
        ensures
            final(self)@ == old(self)@.loaded(layers@),
            doc_ok(old(self)@) ==> doc_ok(final(self)@),
    {
        self.layers = layers;
        self.mark_saved();
    }

    /// Records the stack, then replaces it.
    pub fn replace_stack(&mut self, layers: Layers<F>)
        requires
            doc_ok(old(self)@),
            stack_ok(layers@),
        ensures
            final(self)@ == old(self)@.checkpointed().with_stack(layers@),
            doc_ok(final(self)@),
    {
        let ghost m = self@;
        self.checkpoint();
        self.layers = layers;
        proof {
            lemma_record_stack(m, layers@);
        }
    }

    /// Puts an empty layer on top and makes it active. One undo step.
    pub fn add_layer(&mut self, name: String, opacity: F)
        requires
            doc_ok(old(self)@),
        ensures
            final(self)@ == old(self)@.checkpointed().with_stack(
                old(self)@.stack.pushed(
                    (LayerModel {
                        name: name@,
                        naming: unnamed(),
                        tex: crate::layers::clear_image(stack_size(old(self)@.stack)),
                        mask: crate::layers::white_mask(stack_size(old(self)@.stack)),
                        visible: true,
                        opacity: opacity,
                        blend: BlendMode::Normal,
                        effects: Seq::empty(),
                    }),
                ),
            ),
            doc_ok(final(self)@),
            stack_size(final(self)@.stack) == stack_size(old(self)@.stack),
    {
        let ghost m = self@;
        let size: u32 = self.size();
        self.checkpoint();
        self.layers.add_layer(name, size, opacity);
        proof {
            lemma_pushed_ok(m.stack, self@.stack.layers.last());
            lemma_record_stack(m, self@.stack);
        }
    }

    /// Puts a generated colour image on top as a new active layer. One undo step.
    pub fn push_generated(&mut self, name: String, tex: PaintTexture, blend: BlendMode, opacity: F)
        requires
            doc_ok(old(self)@),
            tex.wf(),
            tex.width == stack_size(old(self)@.stack),
            tex.height == tex.width,
        ensures
            final(self)@ == old(self)@.checkpointed().with_stack(
                old(self)@.stack.pushed(
                    (LayerModel {
                        name: name@,
                        naming: unnamed(),
                        tex: tex@,
                        mask: crate::layers::white_mask(tex.width),
                        visible: true,
                        opacity: opacity,
                        blend: blend,
                        effects: Seq::empty(),
                    }),
                ),
            ),
            doc_ok(final(self)@),
            stack_size(final(self)@.stack) == stack_size(old(self)@.stack),
    {
        let ghost m = self@;
        self.checkpoint();
        self.layers.push_generated(name, tex, blend, opacity);
        proof {
            lemma_pushed_ok(m.stack, self@.stack.layers.last());
            lemma_record_stack(m, self@.stack);
        }
    }

    /// Takes the active layer out. On the last layer nothing happens and nothing is
    /// recorded. Returns whether it was taken out.
    pub fn remove_active_layer(&mut self) -> (done: bool)
        requires
            doc_ok(old(self)@),
        ensures
            done == (old(self)@.stack.layers.len() > 1),
            final(self)@ == if done {
                old(self)@.checkpointed().with_stack(old(self)@.stack.removed())
            } else {
                old(self)@
            },
            doc_ok(final(self)@),
            stack_size(final(self)@.stack) == stack_size(old(self)@.stack),
    {
        let ghost m = self@;
        if self.layers.layers.len() <= 1 {
            return false;
        }
        self.checkpoint();
        self.layers.remove_active();
        proof {
            let t = m.stack.removed();
            assert(t.layers[0] == if m.stack.active == 0 {
                m.stack.layers[1]
            } else {
                m.stack.layers[0]
            });
            assert(m.stack.layers[1].sized(stack_size(m.stack)));
            assert forall|i: int| 0 <= i < t.layers.len() implies (#[trigger] t.layers[i]).sized(
                stack_size(m.stack),
            ) by {
                assert(m.stack.layers[i].sized(stack_size(m.stack)));
                assert(m.stack.layers[i + 1].sized(stack_size(m.stack)));
            }
            lemma_record_stack(m, t);
        }
        true
    }

    /// Merges the active layer into the one beneath it, whose images become the given
    /// ones. On the bottom layer nothing happens and nothing is recorded. Returns whether
    /// it merged.
    pub fn merge_active_layer_down(&mut self, tex: PaintTexture, mask: PaintTexture) -> (done: bool)
        requires
            doc_ok(old(self)@),
            tex.wf() && mask.wf(),
            tex.width == stack_size(old(self)@.stack) && tex.height == tex.width,
            mask.width == tex.width && mask.height == tex.width,
        ensures
            done == (old(self)@.stack.active > 0),
            final(self)@ == if done {
                old(self)@.checkpointed().with_stack(old(self)@.stack.merged(tex@, mask@))
            } else {
                old(self)@
            },
            doc_ok(final(self)@),
            stack_size(final(self)@.stack) == stack_size(old(self)@.stack),
    {
        let ghost m = self@;
        if self.layers.active == 0 {
            return false;
        }
        self.checkpoint();
        self.layers.merge_active_down(tex, mask);
        proof {
            let t = m.stack.merged(tex@, mask@);
            assert forall|i: int| 0 <= i < t.layers.len() implies (#[trigger] t.layers[i]).sized(
                stack_size(m.stack),
            ) by {
                assert(m.stack.layers[i].sized(stack_size(m.stack)));
                assert(m.stack.layers[i + 1].sized(stack_size(m.stack)));
            }
            assert(t.layers[0].sized(stack_size(m.stack)));
            lemma_record_stack(m, t);
        }
        true
    }

    /// Moves the active layer one place up or down. One undo step, even at the end of the
    /// stack, where nothing moves.
    pub fn move_active_layer(&mut self, up: bool)
        requires
            doc_ok(old(self)@),
        ensures
            final(self)@ == old(self)@.checkpointed().with_stack(old(self)@.stack.moved(up)),
            doc_ok(final(self)@),
            stack_size(final(self)@.stack) == stack_size(old(self)@.stack),
    {
        let ghost m = self@;
        self.checkpoint();
        self.layers.move_active(up);
        proof {
            let t = m.stack.moved(up);
            assert forall|i: int| 0 <= i < t.layers.len() implies (#[trigger] t.layers[i]).sized(
                stack_size(m.stack),
            ) by {
                assert(m.stack.layers[i].sized(stack_size(m.stack)));
                assert(m.stack.layers[m.stack.active].sized(stack_size(m.stack)));
                if up && m.stack.active + 1 < m.stack.layers.len() {
                    assert(m.stack.layers[m.stack.active + 1].sized(stack_size(m.stack)));
                }
                if !up && m.stack.active > 0 {
                    assert(m.stack.layers[m.stack.active - 1].sized(stack_size(m.stack)));
                }
            }
            assert(t.layers[0].sized(stack_size(m.stack)));
            lemma_record_stack(m, t);
        }
    }

    /// Makes layer `index` the active one, if there is such a layer.
    pub fn set_active_layer(&mut self, index: usize) -> (done: bool)
        requires
            doc_ok(old(self)@),
        ensures
            done == (index < old(self)@.stack.layers.len()),
            final(self)@ == if done {
                old(self)@.with_stack(
                    StackModel { layers: old(self)@.stack.layers, active: index as int },
                )
            } else {
                old(self)@
            },
            doc_ok(final(self)@),
            stack_size(final(self)@.stack) == stack_size(old(self)@.stack),
    {
        let ghost m = self@;
        if index < self.layers.layers.len() {
            self.layers.active = index;
            proof {
                assert(self@.stack.layers =~= m.stack.layers);
                lemma_same_shape_ok(m, self@.stack);
            }
            true
        } else {
            false
        }
    }

    /// A change of layer `index` that keeps the size of its images keeps the document
    /// valid.
    proof fn lemma_put(&self, m: DocModel<F>, index: int)
        requires
            doc_ok(m),
            0 <= index < m.stack.layers.len(),
            self@ == m.with_stack(self@.stack),
            self@.stack.active == m.stack.active,
            self@.stack.layers.len() == m.stack.layers.len(),
            forall|i: int|
                0 <= i < m.stack.layers.len() && i != index ==> #[trigger] self@.stack.layers[i]
                    == m.stack.layers[i],
            same_images(m.stack.layers[index], self@.stack.layers[index]),
        ensures
            self@ == m.with_layer(index, self@.stack.layers[index]),
            doc_ok(self@),
            stack_size(self@.stack) == stack_size(m.stack),
    {
        let t = m.with_layer(index, self@.stack.layers[index]).stack;
        assert(self@.stack.layers =~= t.layers);
        assert forall|i: int| 0 <= i < t.layers.len() implies same_images(
            (#[trigger] m.stack.layers[i]),
            t.layers[i],
        ) by {}
        lemma_same_shape_ok(m, t);
    }

    /// Shows or hides a layer. One undo step; nothing happens without such a layer.
    pub fn set_layer_visible(&mut self, index: usize, visible: bool) -> (done: bool)
        requires
            doc_ok(old(self)@),
        ensures
            done == (index < old(self)@.stack.layers.len()),
            final(self)@ == if done {
                old(self)@.checkpointed().with_layer(
                    index as int,
                    LayerModel { visible: visible, ..old(self)@.stack.layers[index as int] },
                )
            } else {
                old(self)@
            },
            doc_ok(final(self)@),
            stack_size(final(self)@.stack) == stack_size(old(self)@.stack),
    {
        if index >= self.layers.layers.len() {
            return false;
        }
        self.checkpoint();
        let ghost m = self@;
        self.layers.layers[index].visible = visible;
        proof {
            self.lemma_put(m, index as int);
        }
        true
    }

    /// Sets a layer's opacity, without an undo step of its own.
    pub fn set_layer_opacity(&mut self, index: usize, opacity: F) -> (done: bool)
        requires
            doc_ok(old(self)@),
        ensures
            done == (index < old(self)@.stack.layers.len()),
            final(self)@ == if done {
                old(self)@.with_layer(
                    index as int,
                    LayerModel { opacity: opacity, ..old(self)@.stack.layers[index as int] },
                ).edited()
            } else {
                old(self)@
            },
            doc_ok(final(self)@),
            stack_size(final(self)@.stack) == stack_size(old(self)@.stack),
    {
        if index >= self.layers.layers.len() {
            return false;
        }
        let ghost m = self@;
        self.layers.layers[index].opacity = opacity;
        proof {
            self.lemma_put(m, index as int);
        }
        self.mark_edited();
        true
    }

    /// Sets a layer's blend mode. One undo step; nothing happens without such a layer.
    pub fn set_layer_blend(&mut self, index: usize, blend: BlendMode) -> (done: bool)
        requires
            doc_ok(old(self)@),
        ensures
            done == (index < old(self)@.stack.layers.len()),
            final(self)@ == if done {
                old(self)@.checkpointed().with_layer(
                    index as int,
                    LayerModel { blend: blend, ..old(self)@.stack.layers[index as int] },
                )
            } else {
                old(self)@
            },
            doc_ok(final(self)@),
            stack_size(final(self)@.stack) == stack_size(old(self)@.stack),
    {
        if index >= self.layers.layers.len() {
            return false;
        }
        self.checkpoint();
        let ghost m = self@;
        self.layers.layers[index].blend = blend;
        proof {
            self.lemma_put(m, index as int);
        }
        true
    }

    /// Renames a layer. One undo step, also where there is no such layer to rename.
    pub fn rename_layer(&mut self, index: usize, name: String)
        requires
            doc_ok(old(self)@),
        ensures
            final(self)@ == if index < old(self)@.stack.layers.len() {
                old(self)@.checkpointed().with_layer(
                    index as int,
                    old(self)@.stack.layers[index as int].renamed(name@),
                )
            } else {
                old(self)@.checkpointed()
            },
            doc_ok(final(self)@),
            stack_size(final(self)@.stack) == stack_size(old(self)@.stack),
    {
        self.checkpoint();
        if index < self.layers.layers.len() {
            let ghost m = self@;
            self.layers.layers[index].name = name;
            self.layers.layers[index].naming.renamed = true;
            proof {
                self.lemma_put(m, index as int);
            }
        }
    }

    /// Adds an effect at the end of the active layer's effects. One undo step.
    pub fn add_effect(&mut self, fx: Effect<F>)
        requires
            doc_ok(old(self)@),
        ensures
            final(self)@ == old(self)@.checkpointed().with_layer(
                old(self)@.stack.active,
                LayerModel {
                    effects: old(self)@.stack.active_layer().effects.push(fx),
                    ..old(self)@.stack.active_layer()
                },
            ).noted(LayerOp::Effect(fx.kind_spec())),
            doc_ok(final(self)@),
            stack_size(final(self)@.stack) == stack_size(old(self)@.stack),
    {
        self.checkpoint();
        let a: usize = self.layers.active;
        let ghost m = self@;
        self.layers.layers[a].effects.push(fx);
        proof {
            self.lemma_put(m, a as int);
        }
        self.note(LayerOp::Effect(fx.kind()));
    }

    /// Removes effect `idx` of the active layer. One undo step; nothing happens without
    /// such an effect.
    pub fn remove_effect(&mut self, idx: usize) -> (done: bool)
        requires
            doc_ok(old(self)@),
        ensures
            done == (idx < old(self)@.stack.active_layer().effects.len()),
            final(self)@ == if done {
                old(self)@.checkpointed().with_layer(
                    old(self)@.stack.active,
                    LayerModel {
                        effects: old(self)@.stack.active_layer().effects.remove(idx as int),
                        ..old(self)@.stack.active_layer()
                    },
                )
            } else {
                old(self)@
            },
            doc_ok(final(self)@),
            stack_size(final(self)@.stack) == stack_size(old(self)@.stack),
    {
        let a: usize = self.layers.active;
        assert(self@.stack.active_layer() == self.layers.layers@[a as int]@);
        if idx >= self.layers.layers[a].effects.len() {
            return false;
        }
        self.checkpoint();
        let ghost m = self@;
        self.layers.layers[a].effects.remove(idx);
        proof {
            self.lemma_put(m, a as int);
        }
        true
    }

    /// Moves effect `idx` of the active layer one place toward the end (`up`) or the start.
    /// One undo step; at the ends nothing happens.
    pub fn move_effect(&mut self, idx: usize, up: bool) -> (done: bool)
        requires
            doc_ok(old(self)@),
            !up ==> idx < old(self)@.stack.active_layer().effects.len() || idx == 0,
        ensures
            done == moves_to(old(self)@.stack.active_layer().effects.len(), idx, up) is Some,
            final(self)@ == match moves_to(
                old(self)@.stack.active_layer().effects.len(),
                idx,
                up,
            ) {
                Some(to) => old(self)@.checkpointed().with_layer(
                    old(self)@.stack.active,
                    LayerModel {
                        effects: swap_effects(
                            old(self)@.stack.active_layer().effects,
                            idx as int,
                            to,
                        ),
                        ..old(self)@.stack.active_layer()
                    },
                ),
                None => old(self)@,
            },
            doc_ok(final(self)@),
            stack_size(final(self)@.stack) == stack_size(old(self)@.stack),
    {
        let a: usize = self.layers.active;
        assert(self@.stack.active_layer() == self.layers.layers@[a as int]@);
        let n: usize = self.layers.layers[a].effects.len();
        let to: usize = if up && idx < n && idx + 1 < n {
            idx + 1
        } else if !up && idx > 0 {
            idx - 1
        } else {
            return false;
        };
        self.checkpoint();
        let ghost m = self@;
        let x = self.layers.layers[a].effects[idx];
        let y = self.layers.layers[a].effects[to];
        self.layers.layers[a].effects.set(idx, y);
        self.layers.layers[a].effects.set(to, x);
        proof {
            self.lemma_put(m, a as int);
        }
        true
    }

    /// Replaces effect `idx` of the active layer, without an undo step of its own.
    pub fn set_effect(&mut self, idx: usize, fx: Effect<F>) -> (done: bool)
        requires
            doc_ok(old(self)@),
        ensures
            done == (idx < old(self)@.stack.active_layer().effects.len()),
            final(self)@ == if done {
                old(self)@.with_layer(
                    old(self)@.stack.active,
                    LayerModel {
                        effects: old(self)@.stack.active_layer().effects.update(idx as int, fx),
                        ..old(self)@.stack.active_layer()
                    },
                ).edited()
            } else {
                old(self)@
            },
            doc_ok(final(self)@),
            stack_size(final(self)@.stack) == stack_size(old(self)@.stack),
    {
        let a: usize = self.layers.active;
        assert(self@.stack.active_layer() == self.layers.layers@[a as int]@);
        if idx >= self.layers.layers[a].effects.len() {
            return false;
        }
        let ghost m = self@;
        self.layers.layers[a].effects.set(idx, fx);
        proof {
            self.lemma_put(m, a as int);
        }
        self.mark_edited();
        true
    }
}

/// Where effect `idx` of `n` goes when it moves one place; nowhere at the ends.
pub open spec fn moves_to(n: nat, idx: usize, up: bool) -> Option<int> {
    if up && idx + 1 < n {
        Some(idx + 1)
    } else if !up && idx > 0 {
        Some(idx - 1)
    } else {
        None
    }
}

pub open spec fn swap_effects<F>(fx: Seq<Effect<F>>, a: int, b: int) -> Seq<Effect<F>> {
    fx.update(a, fx[b]).update(b, fx[a])
}

proof fn lemma_pushed_ok<F>(s: StackModel<F>, l: LayerModel<F>)
    requires
        stack_ok(s),
        l.sized(stack_size(s)),
    ensures
        stack_ok(s.pushed(l)),
        stack_size(s.pushed(l)) == stack_size(s),
{
    let t = s.pushed(l);
    assert(t.layers[0] == s.layers[0]);
    assert forall|i: int| 0 <= i < t.layers.len() implies (#[trigger] t.layers[i]).sized(
        stack_size(s),
    ) by {
        if i < s.layers.len() {
            assert(s.layers[i].sized(stack_size(s)));
        }
    }
}

/// Which image of a layer is meant: its reveal mask or its colour.
pub open spec fn image_of<F>(l: LayerModel<F>, mask: bool) -> TexModel {
    if mask {
        l.mask
    } else {
        l.tex
    }
}

/// The layer with other pixels in one of its images.
pub open spec fn with_pixels<F>(l: LayerModel<F>, mask: bool, px: Seq<u8>) -> LayerModel<F> {
    if mask {
        LayerModel { mask: TexModel { pixels: px, ..l.mask }, ..l }
    } else {
        LayerModel { tex: TexModel { pixels: px, ..l.tex }, ..l }
    }
}

impl<F> DocModel<F> {
    /// The pixels painting goes into.
    pub open spec fn canvas(self, mask: bool) -> Seq<u8> {
        image_of(self.stack.active_layer(), mask).pixels
    }

    /// The document with other pixels in one image of its active layer.
    pub open spec fn painted(self, mask: bool, px: Seq<u8>) -> DocModel<F> {
        self.with_layer(self.stack.active, with_pixels(self.stack.active_layer(), mask, px))
    }

    /// The stroke that started from the given images of layer `index` is an undo step.
    pub open spec fn stroke_committed(self, index: int, tex: TexModel, mask: TexModel) -> DocModel<
        F,
    > {
        DocModel {
            history: self.history.recorded(
                SnapModel::Layer { index: index, tex: tex, mask: mask },
            ),
            ..self
        }.edited()
    }
}

impl<F: Copy> Document<F> {
    /// The colour and mask of the active layer, copied.
    pub fn active_images(&self) -> (r: (usize, PaintTexture, PaintTexture))
        requires
            doc_ok(self@),
        ensures
            r.0 == self@.stack.active,
            r.1@ == self@.stack.active_layer().tex,
            r.2@ == self@.stack.active_layer().mask,
    {
        let a: usize = self.layers.active;
        assert(self@.stack.active_layer() == self.layers.layers@[a as int]@);
        (a, self.layers.layers[a].tex.copied(), self.layers.layers[a].mask.copied())
    }

    /// Composites splats into the active layer's colour or mask under the running stroke.
    pub fn deposit<B: Fn([u8; 4], [u8; 3], u32) -> [u8; 4]>(
        &mut self,
        buffers: &mut StrokeBuffers,
        mask: bool,
        splats: &Vec<Splat>,
        blend: &B,
    ) -> (rect: Option<TexRect>)
        requires
            doc_ok(old(self)@),
            old(buffers).wf(),
            old(buffers).texels() == stack_size(old(self)@.stack) * stack_size(old(self)@.stack),
            forall|i: int|
                0 <= i < splats.len() ==> (#[trigger] splats@[i]).texel < old(buffers).texels(),
            forall|b: [u8; 4], c: [u8; 3], a: u32| #[trigger] blend.requires((b, c, a)),
        ensures
            final(self)@ == old(self)@.painted(mask, final(self)@.canvas(mask)),
            deposited(
                *old(buffers),
                *final(buffers),
                old(self)@.canvas(mask),
                final(self)@.canvas(mask),
                splats@,
                stack_size(old(self)@.stack),
                *blend,
                rect,
            ),
            doc_ok(final(self)@),
            stack_size(final(self)@.stack) == stack_size(old(self)@.stack),
    {
        let ghost m = self@;
        let a: usize = self.layers.active;
        let size: u32 = self.size();
        proof {
            assert(m.stack.active_layer().sized(stack_size(m.stack)));
            assert(self.layers.layers@[a as int]@ == m.stack.layers[a as int]);
        }
        let rect = if mask {
            buffers.deposit(&mut self.layers.layers[a].mask.pixels, splats, size, blend)
        } else {
            buffers.deposit(&mut self.layers.layers[a].tex.pixels, splats, size, blend)
        };
        proof {
            self.lemma_put(m, a as int);
        }
        rect
    }

    /// Fills texels of the active layer's colour or mask. One undo step.
    pub fn fill(&mut self, mask: bool, rgba: [u8; 4], keep: &Vec<bool>, covered: &Vec<bool>)
        requires
            doc_ok(old(self)@),
            keep.len() == stack_size(old(self)@.stack) * stack_size(old(self)@.stack),
            covered.len() == keep.len(),
        ensures
            final(self)@ == old(self)@.checkpointed().painted(
                mask,
                fill_result(
                    old(self)@.canvas(mask),
                    stack_size(old(self)@.stack) as int,
                    rgba,
                    keep@,
                    covered@,
                ),
            ),
            doc_ok(final(self)@),
            stack_size(final(self)@.stack) == stack_size(old(self)@.stack),
    {
        let ghost before = self@;
        let size: u32 = self.size();
        self.checkpoint();
        let ghost m = self@;
        let a: usize = self.layers.active;
        proof {
            assert(m.stack.active_layer().sized(stack_size(m.stack)));
            assert(self.layers.layers@[a as int]@ == m.stack.layers[a as int]);
        }
        if mask {
            fill_texels(&mut self.layers.layers[a].mask.pixels, size, rgba, keep, covered);
        } else {
            fill_texels(&mut self.layers.layers[a].tex.pixels, size, rgba, keep, covered);
        }
        proof {
            assert(self@.canvas(mask) =~= fill_result(
                before.canvas(mask),
                size as int,
                rgba,
                keep@,
                covered@,
            ));
            self.lemma_put(m, a as int);
        }
    }

    /// Applies a coverage map to the active layer's colour or mask against the images the
    /// stroke started from.
    pub fn apply_coverage<B: Fn(usize, [u8; 4], u32) -> [u8; 4]>(
        &mut self,
        mask: bool,
        base: &Vec<u8>,
        cov: &Vec<u32>,
        rect: TexRect,
        blend: &B,
    )
        requires
            doc_ok(old(self)@),
            is_image(
                base@,
                stack_size(old(self)@.stack) as int,
                stack_size(old(self)@.stack) as int,
            ),
            rect.within(
                stack_size(old(self)@.stack) as int,
                stack_size(old(self)@.stack) as int,
            ),
            cov.len() == rect.width_spec() * rect.height_spec(),
            forall|t: usize, b: [u8; 4], a: u32| #[trigger] blend.requires((t, b, a)),
        ensures
            final(self)@ == old(self)@.painted(mask, final(self)@.canvas(mask)),
            is_covered(
                old(self)@.canvas(mask),
                final(self)@.canvas(mask),
                base@,
                cov@,
                rect,
                stack_size(old(self)@.stack) as int,
                *blend,
            ),
            doc_ok(final(self)@),
            stack_size(final(self)@.stack) == stack_size(old(self)@.stack),
    {
        let ghost m = self@;
        let a: usize = self.layers.active;
        let size: u32 = self.size();
        proof {
            assert(m.stack.active_layer().sized(stack_size(m.stack)));
            assert(self.layers.layers@[a as int]@ == m.stack.layers[a as int]);
        }
        if mask {
            apply_coverage(&mut self.layers.layers[a].mask.pixels, base, cov, rect, size, blend);
        } else {
            apply_coverage(&mut self.layers.layers[a].tex.pixels, base, cov, rect, size, blend);
        }
        proof {
            self.lemma_put(m, a as int);
        }
    }

    /// Writes a packed rectangle of finished texels into the active layer's colour.
    pub fn write_rect(&mut self, packed: &Vec<u8>, rect: TexRect)
        requires
            doc_ok(old(self)@),
            rect.within(
                stack_size(old(self)@.stack) as int,
                stack_size(old(self)@.stack) as int,
            ),
            is_image(packed@, rect.width_spec(), rect.height_spec()),
        ensures
            final(self)@ == old(self)@.painted(false, final(self)@.canvas(false)),
            is_pasted(
                old(self)@.canvas(false),
                final(self)@.canvas(false),
                packed@,
                stack_size(old(self)@.stack) as int,
                rect,
            ),
            doc_ok(final(self)@),
            stack_size(final(self)@.stack) == stack_size(old(self)@.stack),
    {
        let ghost m = self@;
        let a: usize = self.layers.active;
        let size: u32 = self.size();
        proof {
            assert(m.stack.active_layer().sized(stack_size(m.stack)));
            assert(self.layers.layers@[a as int]@ == m.stack.layers[a as int]);
            assert(is_image(self.layers.layers@[a as int].tex.pixels@, size as int, size as int));
        }
        paste_region(&mut self.layers.layers[a].tex.pixels, packed, size, rect);
        proof {
            self.lemma_put(m, a as int);
        }
    }

    /// Replaces the active layer's colour or mask. One undo step.
    pub fn set_active_image(&mut self, mask: bool, tex: PaintTexture)
        requires
            doc_ok(old(self)@),
            tex.wf(),
            tex.width == stack_size(old(self)@.stack),
            tex.height == tex.width,
        ensures
            final(self)@ == old(self)@.checkpointed().painted(mask, tex.pixels@),
            doc_ok(final(self)@),
            stack_size(final(self)@.stack) == stack_size(old(self)@.stack),
    {
        self.checkpoint();
        let ghost m = self@;
        let a: usize = self.layers.active;
        proof {
            assert(m.stack.active_layer().sized(stack_size(m.stack)));
            assert(self.layers.layers@[a as int]@ == m.stack.layers[a as int]);
        }
        if mask {
            self.layers.layers[a].mask.pixels = tex.pixels;
        } else {
            self.layers.layers[a].tex.pixels = tex.pixels;
        }
        proof {
            self.lemma_put(m, a as int);
        }
    }

    /// Notes what was done to the active layer, for its automatic name.
    pub fn note(&mut self, op: LayerOp)
        requires
            doc_ok(old(self)@),
        ensures
            final(self)@ == old(self)@.noted(op),
            doc_ok(final(self)@),
            stack_size(final(self)@.stack) == stack_size(old(self)@.stack),
    {
        let a: usize = self.layers.active;
        assert(self@.stack.active_layer() == self.layers.layers@[a as int]@);
        let ghost m = self@;
        if !self.layers.layers[a].naming.renamed {
            self.layers.layers[a].naming.ops.push(op);
        }
        proof {
            self.lemma_put(m, a as int);
        }
    }

    /// Gives the active layer an automatic name, without an undo step. A name of the user's
    /// stays. Returns whether the name was taken.
    pub fn auto_name(&mut self, name: String) -> (done: bool)
        requires
            doc_ok(old(self)@),
        ensures
            done == !old(self)@.stack.active_layer().naming.renamed,
            final(self)@ == if done {
                old(self)@.with_layer(
                    old(self)@.stack.active,
                    old(self)@.stack.active_layer().auto_named(name@),
                ).edited()
            } else {
                old(self)@
            },
            doc_ok(final(self)@),
            stack_size(final(self)@.stack) == stack_size(old(self)@.stack),
    {
        let a: usize = self.layers.active;
        assert(self@.stack.active_layer() == self.layers.layers@[a as int]@);
        if self.layers.layers[a].naming.renamed {
            return false;
        }
        let ghost m = self@;
        self.layers.layers[a].name = name;
        proof {
            self.lemma_put(m, a as int);
        }
        self.mark_edited();
        true
    }

    /// Makes a finished stroke one undo step, from the images the touched layer had before
    /// it.
    pub fn commit_stroke(&mut self, index: usize, tex: PaintTexture, mask: PaintTexture)
        requires
            doc_ok(old(self)@),
            images_ok(tex@, mask@),
        ensures
            final(self)@ == old(self)@.stroke_committed(index as int, tex@, mask@),
            doc_ok(final(self)@),
    {
        let ghost m = self@;
        let snap = Snapshot::Layer { index, tex, mask };
        let ghost sm = snap@;
        self.history.record(snap);
        self.mark_edited();
        proof {
            lemma_record_ok(m.history, sm);
        }
    }
}

/// The image after a fill.
pub open spec fn fill_result(
    px: Seq<u8>,
    w: int,
    rgba: [u8; 4],
    keep: Seq<bool>,
    covered: Seq<bool>,
) -> Seq<u8> {
    Seq::new(
        px.len(),
        |i: int|
            if filled(keep, covered, w, i / 4) {
                rgba[i % 4]
            } else {
                px[i]
            },
    )
}

/// A coverage map was applied: covered texels are blended from the base, all others are as
/// they were.
pub open spec fn is_covered<B: Fn(usize, [u8; 4], u32) -> [u8; 4]>(
    px0: Seq<u8>,
    px: Seq<u8>,
    base: Seq<u8>,
    cov: Seq<u32>,
    rect: TexRect,
    w: int,
    blend: B,
) -> bool {
    &&& px.len() == px0.len()
    &&& forall|x: int, y: int|
        0 <= x < w && 0 <= y < w && !(rect.has(x, y) && cov_at(cov, rect, x, y) > 0)
            ==> #[trigger] texel_xy(px, w, x, y) == texel_xy(px0, w, x, y)
    &&& forall|f: spec_fn(usize, Seq<u8>, u32) -> Seq<u8>, x: int, y: int|
        #![trigger cover_agrees(blend, f), texel_xy(px, w, x, y)]
        cover_agrees(blend, f) && 0 <= x < w && 0 <= y < w ==> texel_covered(
            px0,
            px,
            base,
            cov,
            rect,
            w,
            f,
            x,
            y,
        )
}

/// A packed rectangle was written into the image.
pub open spec fn is_pasted(
    px0: Seq<u8>,
    px: Seq<u8>,
    packed: Seq<u8>,
    w: int,
    rect: TexRect,
) -> bool {
    &&& px.len() == px0.len()
    &&& forall|x: int, y: int, c: int|
        0 <= x < w && 0 <= y && (y * w + x) * 4 + c < px0.len() && 0 <= c < 4
            ==> #[trigger] image_at(px, w, x, y, c) == if rect.has(x, y) {
            region_at(packed, rect, x, y, c)
        } else {
            image_at(px0, w, x, y, c)
        }
}

/// A clean document is unsaved after any edit, undo and redo included: the next save,
/// autosave or close knows of it.
pub proof fn law_edits_are_unsaved<F>(m: DocModel<F>)
    ensures
        !m.dirty() ==> m.edited().dirty() && m.checkpointed().dirty(),
        !m.autosave_due() ==> m.edited().autosave_due() && m.checkpointed().autosave_due(),
        !m.dirty() && m.history.undo.len() > 0 ==> m.undone().dirty(),
        !m.dirty() && m.history.redo.len() > 0 ==> m.redone().dirty(),
        !m.autosave_due() && m.history.undo.len() > 0 ==> m.undone().autosave_due(),
        !m.autosave_due() && m.history.redo.len() > 0 ==> m.redone().autosave_due(),
{
}

/// Saving makes the document clean for the user and for the autosave timer; an autosave
/// only for the timer. Neither changes what is painted or what can be undone.
pub proof fn law_saving_and_autosaving<F>(m: DocModel<F>)
    ensures
        !m.saved_now().dirty(),
        !m.saved_now().autosave_due(),
        m.autosaved_now().dirty() == m.dirty(),
        !m.autosaved_now().autosave_due(),
        m.saved_now().stack == m.stack && m.saved_now().history == m.history,
        m.autosaved_now().stack == m.stack && m.autosaved_now().history == m.history,
{
}

/// Undoing a discrete edit gives the stack before it, whatever the edit did: layer order,
/// names, pixels, masks, effects, the active layer, the resolution. It can then be redone,
/// which gives the edited stack again.
pub proof fn law_undo_reverts_an_edit<F>(m: DocModel<F>, edited: DocModel<F>)
    requires
        edited.one_step_after(m),
    ensures
        edited.history.undo.len() > 0,
        edited.undone().stack == m.stack,
        edited.undone().history.redo.len() > 0,
        edited.undone().redone().stack == edited.stack,
        edited.undone().redone().history == edited.history,
        stack_ok(m.stack) ==> edited.undo_fits(),
        stack_ok(edited.stack) ==> edited.undone().redo_fits(),
{
    crate::history::law_undo_restores_the_checkpoint(m.history, m.stack, edited.stack);
    crate::history::law_redo_reverts_undo(edited.history, edited.stack);
}

/// Whatever is done with undo steps, they stay usable: where a document can be undone and
/// redone all the way, it can after a further edit, after a change that keeps the sizes of
/// the images, and after a step back or forward.
pub proof fn law_steps_stay_usable<F>(m: DocModel<F>, edited: StackModel<F>)
    requires
        doc_ok(m),
        steps_fit(m),
    ensures
        m.undo_fits() && m.redo_fits(),
        stack_ok(edited) ==> steps_fit(m.checkpointed().with_stack(edited)),
        same_shape(m.stack, edited) && 0 <= edited.active < edited.layers.len() ==> steps_fit(
            m.with_stack(edited),
        ),
        steps_fit(m.undone()) && doc_ok(m.undone()),
        steps_fit(m.redone()) && doc_ok(m.redone()),
{
    if stack_ok(edited) {
        lemma_record(m.stack, m.history, SnapModel::Stack(m.stack), edited);
    }
    if same_shape(m.stack, edited) && 0 <= edited.active < edited.layers.len() {
        lemma_replay_shape(m.stack, edited, m.history.undo);
        lemma_replay_shape(m.stack, edited, m.history.redo);
    }
    lemma_undo_ok(m);
    if m.history.undo.len() > 0 {
        let s = m.history.undo.last();
        lemma_back(s, m.stack);
        let redo = m.history.undone(m.stack).redo;
        assert(redo.drop_last() =~= m.history.redo);
        assert(redo.last() == s.counterpart(m.stack));
    }
    if m.history.redo.len() > 0 {
        let s = m.history.redo.last();
        lemma_back(s, m.stack);
        let undo = m.history.redone(m.stack).undo;
        assert(undo.drop_last() =~= m.history.undo);
        assert(undo.last() == s.counterpart(m.stack));
    }
}

/// A finished stroke leaves a document that can be undone all the way, when it could be
/// before and the stroke's images have the size of the layer's.
pub proof fn law_a_stroke_keeps_steps_usable<F>(
    m: DocModel<F>,
    index: int,
    tex: TexModel,
    mask: TexModel,
)
    requires
        doc_ok(m),
        steps_fit(m),
        0 <= index < m.stack.layers.len(),
        same_extent(tex, m.stack.layers[index].tex),
        same_extent(mask, m.stack.layers[index].mask),
    ensures
        steps_fit(m.stroke_committed(index, tex, mask)),
{
    let snap = SnapModel::<F>::Layer { index, tex, mask };
    let s = snap.restored(m.stack);
    assert forall|i: int| 0 <= i < m.stack.layers.len() implies same_images(
        (#[trigger] m.stack.layers[i]),
        s.layers[i],
    ) by {}
    lemma_shape_ok(m.stack, s);
    lemma_replay_shape(m.stack, s, m.history.undo);
    lemma_record(s, m.history, snap, m.stack);
}

/// Loading keeps the undo steps. A step that holds a whole stack can be taken whatever was
/// loaded, and all of them where the loaded layers have the shape of the old ones.
pub proof fn law_loading_keeps_the_steps<F>(m: DocModel<F>, stack: StackModel<F>)
    requires
        doc_ok(m),
        stack_ok(stack),
    ensures
        m.loaded(stack).history == m.history,
        !m.loaded(stack).dirty() && !m.loaded(stack).autosave_due(),
        m.history.undo.len() > 0 && m.history.undo.last() is Stack ==> m.loaded(stack).undo_fits()
            && m.loaded(stack).undone().stack == m.undone().stack,
        steps_fit(m) && same_shape(m.stack, stack) ==> steps_fit(m.loaded(stack)),
{
    if m.history.undo.len() > 0 {
        assert(snap_ok(m.history.undo.last()));
    }
    if steps_fit(m) && same_shape(m.stack, stack) {
        lemma_replay_shape(m.stack, stack, m.history.undo);
        lemma_replay_shape(m.stack, stack, m.history.redo);
    }
}

/// Undoing a finished stroke gives the images the stroke began with.
pub proof fn law_undo_reverts_a_stroke<F>(m: DocModel<F>, index: int, tex: TexModel, mask: TexModel)
    requires
        0 <= index < m.stack.layers.len(),
    ensures
        m.stroke_committed(index, tex, mask).undone().stack.layers[index]
            == m.stack.layers[index].with_images(tex, mask),
        forall|i: int|
            0 <= i < m.stack.layers.len() && i != index
                ==> m.stroke_committed(index, tex, mask).undone().stack.layers[i]
                == #[trigger] m.stack.layers[i],
{
}

/// A name of the user's stays whatever is done to the layer afterwards: nothing is noted for
/// an automatic name, and none is taken.
pub proof fn law_a_chosen_name_stays<F>(
    l: LayerModel<F>,
    chosen: Seq<char>,
    op: LayerOp,
    other: Seq<char>,
)
    ensures
        l.renamed(chosen).name == chosen,
        l.renamed(chosen).noted(op) == l.renamed(chosen),
        l.renamed(chosen).auto_named(other) == l.renamed(chosen),
        l.renamed(chosen).noted(op).auto_named(other).name == chosen,
{
}

} // verus!
