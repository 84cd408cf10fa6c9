//! Undo and redo over the layer stack.

use crate::document::{snap_ok, stack_ok, stack_size, steps_ok};
use crate::layers::{Layer, LayerModel, Layers, StackModel, TexModel};
use crate::texture::PaintTexture;
use vstd::prelude::*;

verus! {

/// How many undo steps are kept.
pub const HISTORY_CAP: usize = 64;

/// A state to go back to: the whole stack, or the images of the one layer a stroke
/// touched.
#[derive(Debug)]
pub enum Snapshot<F> {
    Stack(Layers<F>),
    Layer { index: usize, tex: PaintTexture, mask: PaintTexture },
}

/// What a snapshot holds.
#[verifier::ext_equal]
pub enum SnapModel<F> {
    Stack(StackModel<F>),
    Layer { index: int, tex: TexModel, mask: TexModel },
}

impl<F> View for Snapshot<F> {
    type V = SnapModel<F>;

    open spec fn view(&self) -> SnapModel<F> {
        match self {
            Snapshot::Stack(s) => SnapModel::Stack(s@),
            Snapshot::Layer { index, tex, mask } => SnapModel::Layer {
                index: *index as int,
                tex: tex@,
                mask: mask@,
            },
        }
    }
}

impl<F> LayerModel<F> {
    /// The layer with other images.
    pub open spec fn with_images(self, tex: TexModel, mask: TexModel) -> LayerModel<F> {
        LayerModel { tex: tex, mask: mask, ..self }
    }
}

impl<F> SnapModel<F> {
    /// The stack once this snapshot is put back.
    pub open spec fn restored(self, stack: StackModel<F>) -> StackModel<F> {
        match self {
            SnapModel::Stack(s) => s,
            SnapModel::Layer { index, tex, mask } => if 0 <= index < stack.layers.len() {
                StackModel {
                    layers: stack.layers.update(index, stack.layers[index].with_images(tex, mask)),
                    active: stack.active,
                }
            } else {
                stack
            },
        }
    }

    /// The snapshot that leads back again from where this one is put back.
    pub open spec fn counterpart(self, stack: StackModel<F>) -> SnapModel<F> {
        match self {
            SnapModel::Stack(s) => SnapModel::Stack(stack),
            SnapModel::Layer { index, tex, mask } => if 0 <= index < stack.layers.len() {
                SnapModel::Layer {
                    index: index,
                    tex: stack.layers[index].tex,
                    mask: stack.layers[index].mask,
                }
            } else {
                self
            },
        }
    }
}

/// What the history holds, oldest first.
#[verifier::ext_equal]
pub struct HistoryModel<F> {
    pub undo: Seq<SnapModel<F>>,
    pub redo: Seq<SnapModel<F>>,
}

impl<F> HistoryModel<F> {
    /// The history with one more undo step: the oldest step is dropped past the cap, and
    /// what could be redone is gone.
    pub open spec fn recorded(self, s: SnapModel<F>) -> HistoryModel<F> {
        HistoryModel {
            undo: if self.undo.len() >= HISTORY_CAP {
                self.undo.skip(1).push(s)
            } else {
                self.undo.push(s)
            },
            redo: Seq::empty(),
        }
    }

    /// The history after one step back from `stack`.
    pub open spec fn undone(self, stack: StackModel<F>) -> HistoryModel<F> {
        HistoryModel {
            undo: self.undo.drop_last(),
            redo: self.redo.push(self.undo.last().counterpart(stack)),
        }
    }

    /// The history after one step forward from `stack`.
    pub open spec fn redone(self, stack: StackModel<F>) -> HistoryModel<F> {
        HistoryModel {
            undo: self.undo.push(self.redo.last().counterpart(stack)),
            redo: self.redo.drop_last(),
        }
    }
}

/// Undo and redo steps.
#[derive(Debug)]
pub struct History<F> {
    undo: Vec<Snapshot<F>>,
    redo: Vec<Snapshot<F>>,
}

impl<F> View for History<F> {
    type V = HistoryModel<F>;

    closed spec fn view(&self) -> HistoryModel<F> {
        HistoryModel {
            undo: Seq::new(self.undo@.len(), |i: int| self.undo@[i]@),
            redo: Seq::new(self.redo@.len(), |i: int| self.redo@[i]@),
        }
    }
}

/// Puts the snapshot back and turns it into the one that leads back again.
fn exchange<F>(snap: Snapshot<F>, stack: &mut Layers<F>) -> (back: Snapshot<F>)
    ensures
        final(stack)@ == snap@.restored(old(stack)@),
        back@ == snap@.counterpart(old(stack)@),
{
    let ghost before = stack@;
    let ghost sm = snap@;
    match snap {
        Snapshot::Stack(s) => {
            let mut other = s;
            std::mem::swap(&mut other, stack);
            Snapshot::Stack(other)
        },
        Snapshot::Layer { index, tex, mask } => {
            if index < stack.layers.len() {
                let l = stack.layers.remove(index);
                let put = Layer {
                    name: l.name,
                    naming: l.naming,
                    tex,
                    mask,
                    visible: l.visible,
                    opacity: l.opacity,
                    blend: l.blend,
                    effects: l.effects,
                };
                stack.layers.insert(index, put);
                let back = Snapshot::Layer { index, tex: l.tex, mask: l.mask };
                assert(stack@.layers =~= sm.restored(before).layers);
                back
            } else {
                Snapshot::Layer { index, tex, mask }
            }
        },
    }
}

/// Whether putting the snapshot back gives a valid stack: images of another size only fit
/// where no other layer is.
fn fits<F>(snap: &Snapshot<F>, stack: &Layers<F>) -> (b: bool)
    requires
        stack_ok(stack@),
        snap_ok(snap@),
    ensures
        b == stack_ok(snap@.restored(stack@)),
{
    let ghost s = stack@;
    let ghost t = snap@.restored(s);
    match snap {
        Snapshot::Stack(_) => true,
        Snapshot::Layer { index, tex, .. } => {
            let n: usize = stack.layers.len();
            assert(s.layers[0] == stack.layers@[0]@);
            let b: bool = *index >= n || n == 1 || tex.width == stack.layers[0].tex.width;
            proof {
                if b {
                    assert forall|i: int| 0 <= i < t.layers.len() implies (
                    #[trigger] t.layers[i]).sized(stack_size(t)) by {
                        assert(s.layers[i].sized(stack_size(s)));
                    }
                } else {
                    let other: int = if *index == 0 {
                        1
                    } else {
                        0
                    };
                    assert(s.layers[other].sized(stack_size(s)));
                    assert(t.layers[other] == s.layers[other]);
                    assert(t.layers[*index as int].tex.width == tex@.width);
                    if stack_ok(t) {
                        assert(t.layers[other].sized(stack_size(t)));
                        assert(t.layers[*index as int].sized(stack_size(t)));
                    }
                }
            }
            b
        },
    }
}

impl<F> History<F> {
    pub fn new() -> (h: History<F>)
        ensures
            h@.undo == Seq::<SnapModel<F>>::empty(),
            h@.redo == Seq::<SnapModel<F>>::empty(),
    {
        let h = History { undo: Vec::new(), redo: Vec::new() };
        assert(h@.undo =~= Seq::<SnapModel<F>>::empty());
        assert(h@.redo =~= Seq::<SnapModel<F>>::empty());
        h
    }

    /// Adds an undo step and forgets what could be redone.
    pub fn record(&mut self, snap: Snapshot<F>)
        ensures
            final(self)@ == old(self)@.recorded(snap@),
    {
        let ghost before = self@;
        if self.undo.len() >= HISTORY_CAP {
            self.undo.remove(0);
        }
        self.undo.push(snap);
        self.redo.clear();
        assert(self@.undo =~= before.recorded(snap@).undo);
        assert(self@.redo =~= Seq::empty());
    }

    pub fn can_undo(&self) -> (b: bool)
        ensures
            b == (self@.undo.len() > 0),
    {
        self.undo.len() > 0
    }

    pub fn can_redo(&self) -> (b: bool)
        ensures
            b == (self@.redo.len() > 0),
    {
        self.redo.len() > 0
    }

    /// Whether the step back leads to a valid stack.
    pub fn undo_fits(&self, stack: &Layers<F>) -> (b: bool)
        requires
            stack_ok(stack@),
            steps_ok(self@.undo),
        ensures
            b == (self@.undo.len() == 0 || stack_ok(self@.undo.last().restored(stack@))),
    {
        if self.undo.len() == 0 {
            return true;
        }
        assert(snap_ok(self@.undo[self.undo@.len() - 1]));
        fits(&self.undo[self.undo.len() - 1], stack)
    }

    /// Whether the step forward leads to a valid stack.
    pub fn redo_fits(&self, stack: &Layers<F>) -> (b: bool)
        requires
            stack_ok(stack@),
            steps_ok(self@.redo),
        ensures
            b == (self@.redo.len() == 0 || stack_ok(self@.redo.last().restored(stack@))),
    {
        if self.redo.len() == 0 {
            return true;
        }
        assert(snap_ok(self@.redo[self.redo@.len() - 1]));
        fits(&self.redo[self.redo.len() - 1], stack)
    }

    /// Goes one step back, if there is one.
    pub fn undo(&mut self, stack: &mut Layers<F>) -> (done: bool)
        ensures
            done == (old(self)@.undo.len() > 0),
            done ==> final(self)@ == old(self)@.undone(old(stack)@) && final(stack)@
                == old(self)@.undo.last().restored(old(stack)@),
            !done ==> final(self)@ == old(self)@ && final(stack)@ == old(stack)@,
    {
        let ghost before = self@;
        let ghost at = stack@;
        match self.undo.pop() {
            Some(snap) => {
                let back = exchange(snap, stack);
                self.redo.push(back);
                assert(self@.undo =~= before.undone(at).undo);
                assert(self@.redo =~= before.undone(at).redo);
                true
            },
            None => {
                assert(self@.undo =~= before.undo);
                false
            },
        }
    }

    /// Goes one step forward again, if there is one.
    pub fn redo(&mut self, stack: &mut Layers<F>) -> (done: bool)
        ensures
            done == (old(self)@.redo.len() > 0),
            done ==> final(self)@ == old(self)@.redone(old(stack)@) && final(stack)@
                == old(self)@.redo.last().restored(old(stack)@),
            !done ==> final(self)@ == old(self)@ && final(stack)@ == old(stack)@,
    {
        let ghost before = self@;
        let ghost at = stack@;
        match self.redo.pop() {
            Some(snap) => {
                let back = exchange(snap, stack);
                self.undo.push(back);
                assert(self@.undo =~= before.redone(at).undo);
                assert(self@.redo =~= before.redone(at).redo);
                true
            },
            None => {
                assert(self@.redo =~= before.redo);
                false
            },
        }
    }
}

/// Redo takes back what undo did: stack and history are as they were.
pub proof fn law_redo_reverts_undo<F>(h: HistoryModel<F>, stack: StackModel<F>)
    requires
        h.undo.len() > 0,
    ensures
        h.undone(stack).redo.len() > 0,
        h.undone(stack).redo.last().restored(h.undo.last().restored(stack)) == stack,
        h.undone(stack).redone(h.undo.last().restored(stack)) == h,
{
    let s = h.undo.last();
    let back = s.restored(stack);
    lemma_counterpart(s, stack);
    let u = h.undone(stack);
    assert(u.redo.last() == s.counterpart(stack));
    let r = u.redone(back);
    assert(r.undo =~= h.undo);
    assert(r.redo =~= h.redo);
}

proof fn lemma_counterpart<F>(s: SnapModel<F>, stack: StackModel<F>)
    ensures
        s.counterpart(stack).restored(s.restored(stack)) == stack,
        s.counterpart(stack).counterpart(s.restored(stack)) == s,
{
    match s {
        SnapModel::Stack(x) => {},
        SnapModel::Layer { index, tex, mask } => {
            if 0 <= index < stack.layers.len() {
                let there = s.restored(stack);
                let back = s.counterpart(stack).restored(there);
                assert(back.layers =~= stack.layers);
            }
        },
    }
}

/// Undo goes back to the recorded stack, whatever was done to the stack since.
pub proof fn law_undo_restores_the_checkpoint<F>(
    h: HistoryModel<F>,
    before: StackModel<F>,
    edited: StackModel<F>,
)
    ensures
        h.recorded(SnapModel::Stack(before)).undo.len() > 0,
        h.recorded(SnapModel::Stack(before)).undo.last().restored(edited) == before,
{
}

/// Undo takes a stroke back: putting the images of the touched layer back restores the
/// stack when nothing else of it changed.
pub proof fn law_undo_takes_a_stroke_back<F>(
    h: HistoryModel<F>,
    before: StackModel<F>,
    index: int,
    tex: TexModel,
    mask: TexModel,
)
    requires
        0 <= index < before.layers.len(),
    ensures
        ({
            let painted = StackModel {
                layers: before.layers.update(index, before.layers[index].with_images(tex, mask)),
                active: before.active,
            };
            let snap = SnapModel::Layer {
                index: index,
                tex: before.layers[index].tex,
                mask: before.layers[index].mask,
            };
            h.recorded(snap).undo.last().restored(painted) == before
        }),
{
    let painted = StackModel {
        layers: before.layers.update(index, before.layers[index].with_images(tex, mask)),
        active: before.active,
    };
    let snap = SnapModel::Layer {
        index: index,
        tex: before.layers[index].tex,
        mask: before.layers[index].mask,
    };
    assert(h.recorded(snap).undo.last() == snap);
    assert(snap.restored(painted).layers =~= before.layers);
}

/// The history never holds more than the cap.
pub proof fn law_history_is_bounded<F>(h: HistoryModel<F>, s: SnapModel<F>)
    requires
        h.undo.len() <= HISTORY_CAP,
    ensures
        h.recorded(s).undo.len() <= HISTORY_CAP,
{
}

} // verus!
