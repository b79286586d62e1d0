//! An instance of a component at run time: the values of its cells, its
//! dirty bits and its node handles, and the propagation of a mutation.
//!
//! Propagation is synchronous. A mutation marks the slot of the cell that
//! it writes. When the subscribers of a slot are notified, a cascade begins
//! with that slot: it goes through the derived cells in the order of their
//! slots and recomputes each one that subscribes to the slot, or to a
//! derived cell that the cascade recomputed to a new value, and that has
//! not been recomputed since the mutation began. A recomputation that
//! leaves the value as it was carries nothing on. A derived cell
//! subscribes only to cells declared before it, so one pass reaches every
//! cell that is due, each after all the cells that it reads. A handler
//! notifies the cells that its listener names in one cascade, which begins
//! with all of them that were written.
//!
//! The engine evaluates no expression. Where a binding holds a piece that
//! is more than the value of a cell, the host supplies the piece's text,
//! at the mount and before each mutation that changes it; the binding
//! subscribes to the cells that the piece names, so it is recomputed, with
//! the text supplied last, when one of them is written.

use vstd::prelude::*;
use crate::component::{
    cells_view, cells_wf, copy_handles, remove_roots, Cell, CellView, Component, ComponentState,
};
use crate::expr::{copy_texts, list_at, lists_view, text_at, texts_view};
use std::collections::HashSet;
use crate::memo::{below, pieces_view, Memo, Piece, PieceView, Updater, UpdaterView};
use crate::renderer::{CommandView, Renderer};
use crate::state::State;
use crate::tracking::{BitMask, DirtyTrackSet, Effect, RwTrack};
use crate::value::{display, display_debug, Value, ValueView};

verus! {

/// The slots that a mask holds.
pub open spec fn mask_set<M: BitMask>(mask: M) -> Set<nat> {
    Set::new(|slot: nat| mask.has(slot))
}

/// What a slot of an instance holds: the value of a state cell, or a
/// derived cell with its current value.
pub enum Slot<M> {
    State(Value),
    Derived(Effect<usize, Value, M>),
}

impl<M: BitMask> Slot<M> {
    /// The value of the cell.
    pub open spec fn value(self) -> ValueView {
        match self {
            Slot::State(value) => value@,
            Slot::Derived(effect) => effect.current@,
        }
    }

    /// The slots that the last computation of the cell read; none for a
    /// state cell.
    pub open spec fn captured(self) -> Set<nat> {
        match self {
            Slot::State(value) => Set::empty(),
            Slot::Derived(effect) => mask_set(effect.rx_subscriptions),
        }
    }
}

/// An instance of a component.
pub struct Instance<M> {
    pub tracking: DirtyTrackSet<M, M>,
    /// The derived cells recomputed since the last mutation began.
    pub notified: M,
    pub slots: Vec<Slot<M>>,
    /// The handle of each dynamic node, by root and by number.
    pub handles: Vec<Vec<u32>>,
    /// The handle of each root.
    pub roots: Vec<u32>,
    /// For each cell, by slot, the texts that the host supplied for the
    /// pieces of its update that the host evaluates.
    pub supplied: Vec<Vec<String>>,
}

/// What an [`Instance`] holds.
pub struct InstanceView {
    /// The value of each cell, by slot.
    pub values: Seq<ValueView>,
    /// For each cell the slots that its last computation read.
    pub captured: Seq<Set<nat>>,
    /// The slots read since the read mask was reset.
    pub read: Set<nat>,
    /// The slots written since the last mutation began.
    pub written: Set<nat>,
    /// The derived cells recomputed since the last mutation began.
    pub notified: Set<nat>,
    pub handles: Seq<Seq<u32>>,
    /// For each cell, by slot, the texts that the host supplied.
    pub supplied: Seq<Seq<Seq<char>>>,
}

impl<M: BitMask> View for Instance<M> {
    type V = InstanceView;

    open spec fn view(&self) -> InstanceView {
        InstanceView {
            values: Seq::new(self.slots@.len(), |i: int| self.slots@[i].value()),
            captured: Seq::new(self.slots@.len(), |i: int| self.slots@[i].captured()),
            read: mask_set(self.tracking.read),
            written: mask_set(self.tracking.write),
            notified: mask_set(self.notified),
            handles: Seq::new(self.handles@.len(), |i: int| self.handles@[i]@),
            supplied: lists_view(self.supplied@),
        }
    }
}

/// An instance together with what the engine did to it: the calls made to
/// the backend and the derived cells recomputed, each in order.
pub struct Run {
    pub instance: InstanceView,
    pub calls: Seq<CommandView>,
    pub runs: Seq<usize>,
}

/// The first `k` of `pieces` put together: a literal as it is; for a cell
/// the text that stands for its value, as it is displayed or as it is
/// shown for debugging; and for a piece of the host the text among `texts`
/// that has the piece's number, or nothing where the host supplied none.
pub open spec fn render(
    pieces: Seq<PieceView>,
    values: Seq<ValueView>,
    texts: Seq<Seq<char>>,
    k: int,
) -> Seq<char>
    decreases k,
{
    if k <= 0 {
        Seq::empty()
    } else {
        render(pieces, values, texts, k - 1) + match pieces[k - 1] {
            PieceView::Literal(text) => text,
            PieceView::Cell(slot) => if slot < values.len() {
                display(values[slot as int])
            } else {
                Seq::empty()
            },
            PieceView::Debug(slot) => if slot < values.len() {
                display_debug(values[slot as int])
            } else {
                Seq::empty()
            },
            PieceView::Host { index, source, format_args, reads } => text_at(
                texts,
                index as int,
            ),
        }
    }
}

/// The cells whose values the engine reads to put the first `k` of
/// `pieces` together. For a piece of the host it reads none.
pub open spec fn reads_of(pieces: Seq<PieceView>, k: int) -> Set<nat>
    decreases k,
{
    if k <= 0 {
        Set::empty()
    } else {
        match pieces[k - 1] {
            PieceView::Cell(slot) | PieceView::Debug(slot) => reads_of(pieces, k - 1).insert(
                slot as nat,
            ),
            _ => reads_of(pieces, k - 1),
        }
    }
}

/// The handle of dynamic node `node` of root `root`, if there is such a
/// node.
pub open spec fn handle_of(handles: Seq<Seq<u32>>, root: usize, node: usize) -> Option<u32> {
    if root < handles.len() && node < handles[root as int].len() {
        Some(handles[root as int][node as int])
    } else {
        None
    }
}

/// The calls by which `update` brings its dynamic node up to date with the
/// text `text`. An effect makes none; nor does an update whose node the
/// instance lacks.
pub open spec fn update_calls(update: UpdaterView, handles: Seq<Seq<u32>>, text: Seq<char>) -> Seq<
    CommandView,
> {
    match update {
        UpdaterView::Effect => Seq::empty(),
        UpdaterView::Text { root, node, pieces } => match handle_of(handles, root, node) {
            Some(id) => seq![CommandView::SetText { id, text }],
            None => Seq::empty(),
        },
        UpdaterView::Attribute { root, node, key, pieces } => match handle_of(handles, root, node) {
            Some(id) => seq![CommandView::SetAttribute { id, name: key, value: text }],
            None => Seq::empty(),
        },
    }
}

/// The value of a derived cell whose update gave the text `text`: the unit
/// value for an effect, the text otherwise.
pub open spec fn update_value(update: UpdaterView, text: Seq<char>) -> ValueView {
    match update {
        UpdaterView::Effect => ValueView::Unit,
        _ => ValueView::Str(text),
    }
}

/// The value that the derived cell with the update `update` takes where
/// the cells hold `values` and the host supplied `texts` for it.
pub open spec fn evaluate(update: UpdaterView, values: Seq<ValueView>, texts: Seq<Seq<char>>)
    -> ValueView {
    update_value(update, render(update.pieces(), values, texts, update.pieces().len() as int))
}

/// Whether one of `subscriptions` is marked in `written`.
pub open spec fn touched(subscriptions: Set<usize>, written: Set<nat>) -> bool {
    exists|slot: usize| #[trigger] subscriptions.contains(slot) && written.contains(slot as nat)
}

/// `run` after the derived cell in slot `slot` was recomputed.
///
/// The cell reads its dependencies afresh, makes its calls, and takes the
/// new value. Its slot is marked as written only if the new value differs
/// from the one it had: an update that changes nothing does not cascade.
pub open spec fn recompute_spec(cells: Seq<CellView>, run: Run, slot: int) -> Run {
    let update = cells[slot]->Memo_0.update;
    let pieces = update.pieces();
    let before = run.instance;
    let text = render(pieces, before.values, list_at(before.supplied, slot), pieces.len() as int);
    let value = update_value(update, text);
    Run {
        instance: InstanceView {
            values: before.values.update(slot, value),
            captured: before.captured.update(slot, reads_of(pieces, pieces.len() as int)),
            read: reads_of(pieces, pieces.len() as int),
            written: if value != before.values[slot] {
                before.written.insert(slot as nat)
            } else {
                before.written
            },
            notified: before.notified.insert(slot as nat),
            handles: before.handles,
            supplied: before.supplied,
        },
        calls: run.calls + update_calls(update, before.handles, text),
        runs: run.runs.push(slot as usize),
    }
}

/// A cascade under way: the run so far, and the cells whose change the
/// cascade carries on. These are the cell that the cascade began with and
/// the derived cells that it recomputed to a new value.
pub struct Pass {
    pub run: Run,
    pub changed: Set<nat>,
}

/// Whether the cell in slot `slot` is due in the cascade: it is a derived
/// cell, it was not recomputed since the mutation began, and it subscribes
/// to a cell whose change the cascade carries on.
pub open spec fn due(cells: Seq<CellView>, pass: Pass, slot: int) -> bool {
    &&& cells[slot] is Memo
    &&& !pass.run.instance.notified.contains(slot as nat)
    &&& touched(cells[slot].subscriptions(), pass.changed)
}

/// The cascade after the cell in slot `slot` had its turn: a cell that is
/// due is recomputed, and where that gave it a new value its change is
/// carried on.
pub open spec fn step_spec(cells: Seq<CellView>, pass: Pass, slot: int) -> Pass {
    if due(cells, pass, slot) {
        let after = recompute_spec(cells, pass.run, slot);
        Pass {
            run: after,
            changed: if after.instance.values[slot] != pass.run.instance.values[slot] {
                pass.changed.insert(slot as nat)
            } else {
                pass.changed
            },
        }
    } else {
        pass
    }
}

/// The cascade after every cell from slot `slot` on had its turn, in the
/// order of the slots.
pub open spec fn cascade_spec(cells: Seq<CellView>, pass: Pass, slot: int) -> Pass
    decreases cells.len() - slot,
{
    if slot < 0 || slot >= cells.len() {
        pass
    } else {
        cascade_spec(cells, step_spec(cells, pass, slot), slot + 1)
    }
}

/// `run` after the subscribers of slot `slot` were notified.
///
/// If the slot is not marked as written, nothing happens. Otherwise a
/// cascade begins with the slot: in the order of the slots, those derived
/// cells are recomputed, each once, that subscribe to the slot or to a
/// derived cell that this cascade recomputed to a new value. A cell that
/// subscribes only to other slots that are marked as written is left for
/// the notification of those.
pub open spec fn update_slot_spec(cells: Seq<CellView>, run: Run, slot: int) -> Run {
    if run.instance.written.contains(slot as nat) {
        cascade_spec(cells, Pass { run, changed: set![slot as nat] }, 0).run
    } else {
        run
    }
}

/// `run` after the derived cell in slot `slot` was brought up to date: the
/// cell is recomputed; where that gave it a new value, a cascade begins
/// with it and reaches the cells after it, and where its value stayed,
/// nothing more happens.
pub open spec fn update_memo_spec(cells: Seq<CellView>, run: Run, slot: int) -> Run {
    let after = recompute_spec(cells, run, slot);
    if after.instance.values[slot] != run.instance.values[slot] {
        cascade_spec(cells, Pass { run: after, changed: set![slot as nat] }, slot + 1).run
    } else {
        after
    }
}

/// `supplied` after the host supplied `texts` for the cell in slot `slot`:
/// the list is as long as it was, or reaches the slot.
pub open spec fn supply_spec(supplied: Seq<Seq<Seq<char>>>, slot: int, texts: Seq<Seq<char>>)
    -> Seq<Seq<Seq<char>>> {
    Seq::new(
        if slot < supplied.len() {
            supplied.len()
        } else {
            (slot + 1) as nat
        },
        |i: int|
            if i == slot {
                texts
            } else {
                list_at(supplied, i)
            },
    )
}

/// `instance` at the entry point of a mutation: nothing is marked as
/// written, and no derived cell as recomputed.
pub open spec fn begin_spec(instance: InstanceView) -> InstanceView {
    InstanceView { written: Set::empty(), notified: Set::empty(), ..instance }
}

/// `instance` after `value` was written to the state cell in slot `slot`.
pub open spec fn set_spec(instance: InstanceView, slot: int, value: ValueView) -> InstanceView {
    InstanceView {
        values: instance.values.update(slot, value),
        written: instance.written.insert(slot as nat),
        ..instance
    }
}

impl<M: BitMask> Instance<M> {
    /// The instance fits the cells `cells`: it has a slot for each cell, a
    /// state for a state cell and a derived cell that knows its slot for a
    /// derived cell, and no more slots than a mask has bits.
    pub open spec fn fits(&self, cells: Seq<CellView>) -> bool {
        &&& self.slots@.len() == cells.len()
        &&& cells.len() <= M::width()
        &&& cells.len() <= u8::MAX
        &&& forall|i: int|
            0 <= i < cells.len() ==> ((#[trigger] self.slots@[i]) is State <==> cells[i] is State)
        &&& forall|i: int|
            0 <= i < cells.len() ==> match #[trigger] self.slots@[i] {
                Slot::State(_) => true,
                Slot::Derived(effect) => effect.rx == i,
            }
    }

    /// The value of the cell in slot `slot`. Neither mask changes.
    pub fn peek(&self, slot: usize) -> (value: &Value)
        requires
            slot < self.slots@.len(),
        ensures
            value@ == self@.values[slot as int],
    {
        match &self.slots[slot] {
            Slot::State(value) => value,
            Slot::Derived(effect) => &effect.current,
        }
    }

    /// The value of the cell in slot `slot`, read through a handle that
    /// marks the slot as read.
    pub fn get(&mut self, slot: usize) -> (value: Value)
        requires
            slot < old(self).slots@.len(),
            slot < M::width(),
            slot <= u8::MAX,
        ensures
            value@ == old(self)@.values[slot as int],
            final(self)@ == (InstanceView {
                read: old(self)@.read.insert(slot as nat),
                ..old(self)@
            }),
            final(self).slots == old(self).slots,
            final(self).handles == old(self).handles,
            final(self).roots == old(self).roots,
            final(self).supplied == old(self).supplied,
            final(self).notified == old(self).notified,
    {
        self.tracking.track(slot as u8).read(&mut self.tracking);
        let value = self.peek(slot).duplicate();
        proof {
            assert(self@.read =~= old(self)@.read.insert(slot as nat));
            assert(self@.values =~= old(self)@.values);
            assert(self@.captured =~= old(self)@.captured);
            assert(self@.written =~= old(self)@.written);
            assert(self@.handles =~= old(self)@.handles);
        }
        value
    }

    /// Enters a mutation from outside: the write mask is cleared, and no
    /// derived cell counts as recomputed.
    pub fn begin(&mut self)
        ensures
            final(self)@ == begin_spec(old(self)@),
            final(self).slots == old(self).slots,
            final(self).handles == old(self).handles,
            final(self).roots == old(self).roots,
    {
        self.tracking.reset_write();
        self.notified = M::zero();
        proof {
            assert(self@.written =~= Set::<nat>::empty());
            assert(self@.notified =~= Set::<nat>::empty());
            assert(self@.values =~= old(self)@.values);
            assert(self@.captured =~= old(self)@.captured);
            assert(self@.handles =~= old(self)@.handles);
        }
    }

    /// Writes `value` to the state cell in slot `slot`, through a wrapper
    /// that marks the slot as written.
    pub fn set(&mut self, slot: usize, value: Value)
        requires
            slot < old(self).slots@.len(),
            slot < M::width(),
            slot <= u8::MAX,
            old(self).slots@[slot as int] is State,
        ensures
            final(self)@ == set_spec(old(self)@, slot as int, value@),
            final(self).slots@.len() == old(self).slots@.len(),
            final(self).slots@[slot as int] is State,
            forall|i: int|
                0 <= i < old(self).slots@.len() && i != slot ==> (#[trigger] final(self).slots@[i])
                    == old(self).slots@[i],
            final(self).handles == old(self).handles,
            final(self).roots == old(self).roots,
            final(self).notified == old(self).notified,
    {
        let handle = self.tracking.track(slot as u8);
        match &mut self.slots[slot] {
            Slot::State(cell) => {
                let mut wrapper = RwTrack { data: cell, tracking: handle };
                *wrapper.get_mut(&mut self.tracking) = value;
            },
            Slot::Derived(_) => {},
        }
        proof {
            assert(self@.values =~= old(self)@.values.update(slot as int, value@));
            assert(self@.captured =~= old(self)@.captured);
            assert(self@.written =~= old(self)@.written.insert(slot as nat));
            assert(self@.read =~= old(self)@.read);
            assert(self@.handles =~= old(self)@.handles);
        }
    }
}

/// The instance, the backend and the list of recomputed cells as one run.
pub open spec fn run_of<M: BitMask, R: Renderer>(instance: &Instance<M>, ui: &R, runs: Seq<usize>)
    -> Run {
    Run { instance: instance@, calls: ui.commands(), runs }
}

impl<M: BitMask> Instance<M> {
    /// Puts `pieces` together, reading each cell through a handle that
    /// marks its slot as read.
    fn render_pieces(&mut self, pieces: &Vec<Piece>, texts: &Vec<String>) -> (text: String)
        requires
            old(self).slots@.len() <= M::width(),
            old(self).slots@.len() <= u8::MAX,
            forall|i: int|
                0 <= i < pieces@.len() ==> match #[trigger] pieces@[i] {
                    Piece::Cell(slot) | Piece::Debug(slot) => slot < old(self).slots@.len(),
                    _ => true,
                },
            old(self)@.read == Set::<nat>::empty(),
        ensures
            text@ == render(
                pieces_view(pieces@),
                old(self)@.values,
                texts_view(texts@),
                pieces@.len() as int,
            ),
            final(self)@.read == reads_of(pieces_view(pieces@), pieces@.len() as int),
            final(self).slots == old(self).slots,
            final(self).handles == old(self).handles,
            final(self).roots == old(self).roots,
            final(self).supplied == old(self).supplied,
            final(self).notified == old(self).notified,
            final(self).tracking.write == old(self).tracking.write,
    {
        let mut text = String::new();
        let mut k: usize = 0;
        proof {
            assert(self@.read =~= reads_of(pieces_view(pieces@), 0));
        }
        while k < pieces.len()
            invariant
                k <= pieces@.len(),
                self.slots@.len() <= M::width(),
                self.slots@.len() <= u8::MAX,
                forall|i: int|
                    0 <= i < pieces@.len() ==> match #[trigger] pieces@[i] {
                        Piece::Cell(slot) | Piece::Debug(slot) => slot < self.slots@.len(),
                        _ => true,
                    },
                self.slots == old(self).slots,
                self.handles == old(self).handles,
                self.roots == old(self).roots,
                self.supplied == old(self).supplied,
                self.notified == old(self).notified,
                self.tracking.write == old(self).tracking.write,
                text@ == render(
                    pieces_view(pieces@),
                    old(self)@.values,
                    texts_view(texts@),
                    k as int,
                ),
                self@.read == reads_of(pieces_view(pieces@), k as int),
            decreases pieces@.len() - k,
        {
            proof {
                assert(pieces_view(pieces@)[k as int] == pieces@[k as int]@);
            }
            let ghost read_before = self@.read;
            match &pieces[k] {
                Piece::Literal(literal) => {
                    text.append(literal.as_str());
                },
                Piece::Cell(slot) => {
                    self.tracking.track(*slot as u8).read(&mut self.tracking);
                    self.peek(*slot).write(&mut text);
                    proof {
                        assert(self@.read =~= read_before.insert(*slot as nat));
                        assert(self@.values =~= old(self)@.values);
                    }
                },
                Piece::Debug(slot) => {
                    self.tracking.track(*slot as u8).read(&mut self.tracking);
                    self.peek(*slot).write_debug(&mut text);
                    proof {
                        assert(self@.read =~= read_before.insert(*slot as nat));
                        assert(self@.values =~= old(self)@.values);
                    }
                },
                Piece::Host { index, source, format_args, reads } => {
                    if *index < texts.len() {
                        text.append(texts[*index].as_str());
                    } else {
                        proof {
                            assert(text@ + Seq::<char>::empty() =~= text@);
                        }
                    }
                },
            }
            k = k + 1;
        }
        text
    }

    /// Carries out `update`: puts its pieces together, reading each cell
    /// through a handle that marks its slot as read and taking from `texts`
    /// what the host supplied, and brings the dynamic node up to date. The
    /// value that the cell takes is returned.
    pub fn refresh<R: Renderer>(&mut self, update: &Updater, texts: &Vec<String>, ui: &mut R) -> (value:
        Value)
        requires
            old(self).slots@.len() <= M::width(),
            old(self).slots@.len() <= u8::MAX,
            crate::component_visitor::pieces_below(
                update@.pieces(),
                old(self).slots@.len() as int,
            ),
            old(ui).wf(),
        ensures
            value@ == evaluate(update@, old(self)@.values, texts_view(texts@)),
            final(self)@.read == reads_of(update@.pieces(), update@.pieces().len() as int),
            final(self).slots == old(self).slots,
            final(self).handles == old(self).handles,
            final(self).roots == old(self).roots,
            final(self).supplied == old(self).supplied,
            final(self).notified == old(self).notified,
            final(self).tracking.write == old(self).tracking.write,
            final(ui).wf(),
            final(ui).live() == old(ui).live(),
            final(ui).spare() == old(ui).spare(),
            final(ui).commands() == old(ui).commands() + update_calls(
                update@,
                old(self)@.handles,
                render(
                    update@.pieces(),
                    old(self)@.values,
                    texts_view(texts@),
                    update@.pieces().len() as int,
                ),
            ),
    {
        let ghost before = self@;
        self.tracking.reset_read();
        proof {
            assert(self@.read =~= Set::<nat>::empty());
            assert(self@.values =~= before.values);
            assert(self@.handles =~= before.handles);
        }
        match update {
            Updater::Effect => {
                proof {
                    assert(self@.read =~= reads_of(update@.pieces(), 0));
                    assert(ui.commands() =~= old(ui).commands() + Seq::<CommandView>::empty());
                }
                Value::Unit
            },
            Updater::Text { root, node, pieces } => {
                proof {
                    Self::pieces_in_range(update@.pieces(), self.slots@.len() as int, pieces@);
                }
                let text = self.render_pieces(pieces, texts);
                if *root < self.handles.len() && *node < self.handles[*root].len() {
                    ui.set_text(self.handles[*root][*node], text.as_str());
                } else {
                    proof {
                        assert(ui.commands() =~= old(ui).commands() + Seq::<CommandView>::empty());
                    }
                }
                Value::Str(text)
            },
            Updater::Attribute { root, node, key, pieces } => {
                proof {
                    Self::pieces_in_range(update@.pieces(), self.slots@.len() as int, pieces@);
                }
                let text = self.render_pieces(pieces, texts);
                if *root < self.handles.len() && *node < self.handles[*root].len() {
                    ui.set_attribute(self.handles[*root][*node], key.as_str(), text.as_str());
                } else {
                    proof {
                        assert(ui.commands() =~= old(ui).commands() + Seq::<CommandView>::empty());
                    }
                }
                Value::Str(text)
            },
        }
    }

    /// Recomputes the derived cell in slot `slot`: it reads its
    /// dependencies afresh, brings its dynamic node up to date, and takes
    /// the new value. The slot is marked as written only if the value
    /// changed, and whether it did is returned.
    pub fn recompute<R: Renderer>(
        &mut self,
        component: &Component,
        ui: &mut R,
        runs: &mut Vec<usize>,
        slot: usize,
    ) -> (changed: bool)
        requires
            component.wf(),
            old(self).fits(cells_view(component.cells@)),
            old(ui).wf(),
            slot < component.cells@.len(),
            component.cells@[slot as int] is Memo,
        ensures
            final(self).fits(cells_view(component.cells@)),
            final(self).roots == old(self).roots,
            final(ui).wf(),
            final(ui).live() == old(ui).live(),
            final(ui).spare() == old(ui).spare(),
            run_of(final(self), final(ui), final(runs)@) == recompute_spec(
                cells_view(component.cells@),
                run_of(old(self), old(ui), old(runs)@),
                slot as int,
            ),
            changed == (final(self)@.values[slot as int] != old(self)@.values[slot as int]),
    {
        let ghost cells = cells_view(component.cells@);
        let ghost before = self@;
        let memo = match &component.cells[slot] {
            Cell::Memo(memo) => memo,
            Cell::State(_) => {
                return false;
            },
        };
        proof {
            assert(cells[slot as int] == component.cells@[slot as int]@);
            assert(cells[slot as int].wf(slot as int));
            Self::memo_reads_below(memo@, slot as int, self.slots@.len() as int);
        }
        let texts = self.supplied_to(slot);
        let value = self.refresh(&memo.update, &texts, ui);
        let changed = !value.same(self.peek(slot));
        let captured = self.tracking.get_read();
        self.slots[slot] = Slot::Derived(
            Effect { rx: slot, rx_subscriptions: captured, current: value },
        );
        if changed {
            self.tracking.track(slot as u8).write(&mut self.tracking);
        }
        self.notified = self.notified.with_bit(slot as u8);
        runs.push(slot);
        proof {
            let after = recompute_spec(cells, run_of(old(self), old(ui), old(runs)@), slot as int);
            assert(self@.values =~= after.instance.values);
            assert(self@.captured =~= after.instance.captured);
            assert(self@.read =~= after.instance.read);
            assert(self@.written =~= after.instance.written);
            assert(self@.notified =~= after.instance.notified);
            assert(self@.handles =~= after.instance.handles);
        }
        changed
    }

    /// The texts that the host supplied for the cell in slot `slot`; none
    /// where it supplied nothing.
    pub fn supplied_to(&self, slot: usize) -> (texts: Vec<String>)
        ensures
            texts_view(texts@) == list_at(self@.supplied, slot as int),
    {
        if slot < self.supplied.len() {
            copy_texts(&self.supplied[slot])
        } else {
            let texts: Vec<String> = Vec::new();
            proof {
                assert(texts_view(texts@) =~= Seq::empty());
            }
            texts
        }
    }

    /// Takes from the host the texts for the cell in slot `slot`: text
    /// number `i` is for the piece of the cell's update that the host
    /// evaluates and that has the number `i`. Nothing else changes, and
    /// nothing is recomputed: the texts are read when the cell next is.
    pub fn supply(&mut self, slot: usize, texts: Vec<String>)
        ensures
            final(self)@ == (InstanceView {
                supplied: supply_spec(old(self)@.supplied, slot as int, texts_view(texts@)),
                ..old(self)@
            }),
            final(self).slots == old(self).slots,
            final(self).handles == old(self).handles,
            final(self).roots == old(self).roots,
            final(self).notified == old(self).notified,
            final(self).tracking == old(self).tracking,
    {
        let ghost before = self@.supplied;
        while self.supplied.len() <= slot
            invariant
                self.slots == old(self).slots,
                self.handles == old(self).handles,
                self.roots == old(self).roots,
                self.notified == old(self).notified,
                self.tracking == old(self).tracking,
                self.supplied@.len() >= before.len(),
                forall|i: int| 0 <= i < self.supplied@.len() ==> texts_view(
                    #[trigger] self.supplied@[i]@,
                ) == list_at(before, i),
                self.supplied@.len() <= slot + 1 || self.supplied@.len() == before.len(),
            decreases slot + 1 - self.supplied@.len(),
        {
            let none: Vec<String> = Vec::new();
            proof {
                assert(texts_view(none@) =~= Seq::empty());
            }
            self.supplied.push(none);
        }
        self.supplied[slot] = texts;
        proof {
            assert(self@.supplied =~= supply_spec(before, slot as int, texts_view(texts@)));
            assert(self@.values =~= old(self)@.values);
            assert(self@.captured =~= old(self)@.captured);
            assert(self@.handles =~= old(self)@.handles);
        }
    }

    /// A derived cell that looks back only reads cells below any bound
    /// that its slot lies below.
    pub proof fn memo_reads_below(memo: crate::memo::MemoView, slot: int, bound: int)
        requires
            memo.wf(slot),
            slot <= bound,
        ensures
            crate::component_visitor::pieces_below(memo.update.pieces(), bound),
    {
        let pieces = memo.update.pieces();
        assert forall|i: int, j: int|
            0 <= i < pieces.len() && 0 <= j < pieces[i].reads().len() implies (
        #[trigger] pieces[i].reads()[j]) < bound by {
            let read = pieces[i].reads()[j];
            assert(memo.subscriptions.contains(read));
        }
    }

    proof fn pieces_in_range(views: Seq<PieceView>, bound: int, pieces: Seq<Piece>)
        requires
            crate::component_visitor::pieces_below(views, bound),
            views == pieces_view(pieces),
        ensures
            forall|i: int|
                0 <= i < pieces.len() ==> match #[trigger] pieces[i] {
                    Piece::Cell(read) | Piece::Debug(read) => read < bound,
                    _ => true,
                },
    {
        assert forall|i: int| 0 <= i < pieces.len() implies match #[trigger] pieces[i] {
            Piece::Cell(read) | Piece::Debug(read) => read < bound,
            _ => true,
        } by {
            assert(views[i] == pieces[i]@);
            match pieces[i] {
                Piece::Cell(read) | Piece::Debug(read) => {
                    assert(views[i].reads()[0] == read);
                },
                _ => {},
            }
        }
    }
}

/// The writes of a vector, each value by its view.
pub open spec fn writes_view(writes: Seq<(usize, Value)>) -> Seq<(usize, ValueView)> {
    Seq::new(writes.len(), |i: int| (writes[i].0, writes[i].1@))
}

/// `instance` after the first `k` of `writes`, each a slot and the value
/// written to it. A write to a slot that holds no state cell is left out.
pub open spec fn apply_writes(
    cells: Seq<CellView>,
    instance: InstanceView,
    writes: Seq<(usize, ValueView)>,
    k: int,
) -> InstanceView
    decreases k,
{
    if k <= 0 {
        instance
    } else {
        let before = apply_writes(cells, instance, writes, k - 1);
        let (slot, value) = writes[k - 1];
        if slot < cells.len() && cells[slot as int] is State {
            set_spec(before, slot as int, value)
        } else {
            before
        }
    }
}

/// The slots among the first `k` of `targets` that are marked as written
/// in `written`. A target that is no slot is left out.
pub open spec fn written_targets(
    cells: Seq<CellView>,
    written: Set<nat>,
    targets: Seq<usize>,
    k: int,
) -> Set<nat> {
    Set::new(
        |slot: nat|
            slot < cells.len() && written.contains(slot) && exists|i: int|
                0 <= i < k && #[trigger] targets[i] == slot,
    )
}

/// `run` after one invocation of a handler that makes the writes `writes`
/// and whose listener names the cells `targets`: the mutation begins, the
/// handler's body runs to its end, then the subscribers of the targets
/// are notified, and last the calls are committed.
///
/// The targets are notified in one cascade, which begins with every
/// target that is marked as written: those derived cells are recomputed,
/// each once and in the order of the slots, that subscribe to such a
/// target or to a derived cell that the cascade recomputed to a new value.
/// So a cell that reads two targets, or a target and a cell derived from
/// another, is recomputed once, after all that it reads.
pub open spec fn handle_spec(
    cells: Seq<CellView>,
    run: Run,
    targets: Seq<usize>,
    writes: Seq<(usize, ValueView)>,
) -> Run {
    let written = Run {
        instance: apply_writes(cells, begin_spec(run.instance), writes, writes.len() as int),
        ..run
    };
    let notified = cascade_spec(
        cells,
        Pass {
            run: written,
            changed: written_targets(
                cells,
                written.instance.written,
                targets,
                targets.len() as int,
            ),
        },
        0,
    ).run;
    Run { calls: notified.calls.push(CommandView::Flush), ..notified }
}

/// Whether one of `subscriptions`, which lie below `bound`, is in `mask`.
fn is_touched<M: BitMask>(subscriptions: &HashSet<usize>, mask: M, bound: usize) -> (found: bool)
    requires
        below(subscriptions@, bound as int),
        bound <= M::width(),
        bound <= u8::MAX,
    ensures
        found == touched(subscriptions@, mask_set(mask)),
{
    let mut slot: usize = 0;
    while slot < bound
        invariant
            slot <= bound,
            bound <= M::width(),
            bound <= u8::MAX,
            below(subscriptions@, bound as int),
            forall|other: usize|
                other < slot ==> !(#[trigger] subscriptions@.contains(other) && mask_set(
                    mask,
                ).contains(other as nat)),
        decreases bound - slot,
    {
        if subscriptions.contains(&slot) && mask.test_bit(slot as u8) {
            return true;
        }
        slot = slot + 1;
    }
    false
}

impl<M: BitMask> Instance<M> {
    /// Carries on a cascade from slot `from`: every derived cell from
    /// there on has its turn, in the order of the slots, and one that is
    /// due is recomputed. `changed` holds the cells whose change the
    /// cascade carries on.
    pub fn cascade<R: Renderer>(
        &mut self,
        component: &Component,
        ui: &mut R,
        runs: &mut Vec<usize>,
        changed: M,
        from: usize,
    )
        requires
            component.wf(),
            old(self).fits(cells_view(component.cells@)),
            old(ui).wf(),
        ensures
            final(self).fits(cells_view(component.cells@)),
            final(self).roots == old(self).roots,
            final(ui).wf(),
            final(ui).live() == old(ui).live(),
            final(ui).spare() == old(ui).spare(),
            run_of(final(self), final(ui), final(runs)@) == cascade_spec(
                cells_view(component.cells@),
                Pass { run: run_of(old(self), old(ui), old(runs)@), changed: mask_set(changed) },
                from as int,
            ).run,
    {
        let ghost cells = cells_view(component.cells@);
        let ghost begun = Pass {
            run: run_of(old(self), old(ui), old(runs)@),
            changed: mask_set(changed),
        };
        let mut changed = changed;
        let mut slot: usize = from;
        while slot < component.cells.len()
            invariant
                component.wf(),
                cells == cells_view(component.cells@),
                self.fits(cells),
                self.roots == old(self).roots,
                ui.wf(),
                ui.live() == old(ui).live(),
                ui.spare() == old(ui).spare(),
                cascade_spec(
                    cells,
                    Pass { run: run_of(self, ui, runs@), changed: mask_set(changed) },
                    slot as int,
                ) == cascade_spec(cells, begun, from as int),
            decreases component.cells@.len() - slot,
        {
            let ghost pass = Pass { run: run_of(self, ui, runs@), changed: mask_set(changed) };
            proof {
                assert(cells[slot as int] == component.cells@[slot as int]@);
                assert(cells[slot as int].wf(slot as int));
            }
            let is_due = match &component.cells[slot] {
                Cell::State(_) => false,
                Cell::Memo(memo) => !self.notified.test_bit(slot as u8) && is_touched(
                    &memo.subscriptions,
                    changed,
                    slot,
                ),
            };
            proof {
                assert(is_due == due(cells, pass, slot as int));
            }
            if is_due {
                if self.recompute(component, ui, runs, slot) {
                    let ghost fewer = mask_set(changed);
                    changed = changed.with_bit(slot as u8);
                    proof {
                        assert(mask_set(changed) =~= fewer.insert(slot as nat));
                    }
                }
            }
            proof {
                assert(Pass { run: run_of(self, ui, runs@), changed: mask_set(changed) }
                    == step_spec(cells, pass, slot as int));
            }
            slot = slot + 1;
        }
    }

    /// Notifies the subscribers of slot `slot`. If the slot is not marked
    /// as written, nothing happens. Otherwise those derived cells are
    /// recomputed, each once and in the order of the slots, that subscribe
    /// to the slot or to a derived cell that this call recomputed to a new
    /// value.
    pub fn update_slot<R: Renderer>(
        &mut self,
        component: &Component,
        ui: &mut R,
        runs: &mut Vec<usize>,
        slot: usize,
    )
        requires
            component.wf(),
            old(self).fits(cells_view(component.cells@)),
            old(ui).wf(),
            slot < component.cells@.len(),
        ensures
            final(self).fits(cells_view(component.cells@)),
            final(self).roots == old(self).roots,
            final(ui).wf(),
            final(ui).live() == old(ui).live(),
            final(ui).spare() == old(ui).spare(),
            run_of(final(self), final(ui), final(runs)@) == update_slot_spec(
                cells_view(component.cells@),
                run_of(old(self), old(ui), old(runs)@),
                slot as int,
            ),
    {
        if self.tracking.is_write(slot as u8) {
            let seed = M::zero().with_bit(slot as u8);
            proof {
                assert(mask_set(seed) =~= set![slot as nat]);
            }
            self.cascade(component, ui, runs, seed, 0);
        }
    }

    /// Brings the derived cell in slot `slot` up to date: the cell is
    /// recomputed, and where that gave it a new value, the derived cells
    /// that subscribe to it, or to a derived cell that this call
    /// recomputed to a new value, are recomputed after it, each once and
    /// in the order of the slots. Where its value stayed, no other cell is
    /// recomputed.
    pub fn update_memo<R: Renderer>(
        &mut self,
        component: &Component,
        ui: &mut R,
        runs: &mut Vec<usize>,
        slot: usize,
    )
        requires
            component.wf(),
            old(self).fits(cells_view(component.cells@)),
            old(ui).wf(),
            slot < component.cells@.len(),
            component.cells@[slot as int] is Memo,
        ensures
            final(self).fits(cells_view(component.cells@)),
            final(self).roots == old(self).roots,
            final(ui).wf(),
            final(ui).live() == old(ui).live(),
            final(ui).spare() == old(ui).spare(),
            run_of(final(self), final(ui), final(runs)@) == update_memo_spec(
                cells_view(component.cells@),
                run_of(old(self), old(ui), old(runs)@),
                slot as int,
            ),
    {
        if self.recompute(component, ui, runs, slot) {
            let seed = M::zero().with_bit(slot as u8);
            proof {
                assert(mask_set(seed) =~= set![slot as nat]);
            }
            self.cascade(component, ui, runs, seed, slot + 1);
        }
    }

    /// Runs one invocation of a handler: `writes` are the writes that the
    /// handler's body makes, `targets` the cells that its listener names.
    ///
    /// The mutation begins; each write goes to its state cell; when all are
    /// made, the subscribers of the targets are notified, in one cascade
    /// that begins with every target that is marked as written; last the
    /// calls are committed. The derived cells recomputed are returned in
    /// the order of their recomputation.
    pub fn handle<R: Renderer>(
        &mut self,
        component: &Component,
        ui: &mut R,
        targets: &Vec<usize>,
        writes: &Vec<(usize, Value)>,
    ) -> (runs: Vec<usize>)
        requires
            component.wf(),
            old(self).fits(cells_view(component.cells@)),
            old(ui).wf(),
        ensures
            final(self).fits(cells_view(component.cells@)),
            final(self).roots == old(self).roots,
            final(ui).wf(),
            final(ui).live() == old(ui).live(),
            final(ui).spare() == old(ui).spare(),
            run_of(final(self), final(ui), runs@) == handle_spec(
                cells_view(component.cells@),
                run_of(old(self), old(ui), Seq::empty()),
                targets@,
                writes_view(writes@),
            ),
    {
        let ghost cells = cells_view(component.cells@);
        let mut runs: Vec<usize> = Vec::new();
        self.begin();
        let ghost begun = self@;
        let mut k: usize = 0;
        while k < writes.len()
            invariant
                k <= writes@.len(),
                cells == cells_view(component.cells@),
                self.fits(cells),
                self.roots == old(self).roots,
                self@ == apply_writes(cells, begun, writes_view(writes@), k as int),
            decreases writes@.len() - k,
        {
            let slot = writes[k].0;
            proof {
                let write = writes@[k as int];
                assert(writes_view(writes@)[k as int] == (write.0, write.1@));
                if slot < cells.len() {
                    assert(cells[slot as int] == component.cells@[slot as int]@);
                }
            }
            if slot < component.cells.len() {
                let is_state = match &component.cells[slot] {
                    Cell::State(_) => true,
                    Cell::Memo(_) => false,
                };
                if is_state {
                    self.set(slot, writes[k].1.duplicate());
                }
            }
            k = k + 1;
        }
        let ghost written = run_of(self, ui, runs@);
        let mut seeds = M::zero();
        let mut k: usize = 0;
        proof {
            assert(mask_set(seeds) =~= written_targets(cells, self@.written, targets@, 0));
        }
        while k < targets.len()
            invariant
                k <= targets@.len(),
                cells == cells_view(component.cells@),
                self.fits(cells),
                mask_set(seeds) == written_targets(cells, self@.written, targets@, k as int),
            decreases targets@.len() - k,
        {
            let ghost fewer = mask_set(seeds);
            let target = targets[k];
            if target < component.cells.len() && self.tracking.is_write(target as u8) {
                seeds = seeds.with_bit(target as u8);
            }
            proof {
                let more = written_targets(cells, self@.written, targets@, k + 1);
                assert forall|slot: nat| mask_set(seeds).contains(slot) == more.contains(
                    slot,
                ) by {
                    if fewer.contains(slot) {
                        let i = choose|i: int| 0 <= i < k && #[trigger] targets@[i] == slot;
                        assert(targets@[i] == slot);
                    }
                    if more.contains(slot) {
                        let i = choose|i: int| 0 <= i < k + 1 && #[trigger] targets@[i] == slot;
                        if i < k {
                            assert(fewer.contains(slot));
                        }
                    }
                    if slot == target as nat && target < cells.len() && self@.written.contains(
                        slot,
                    ) {
                        assert(targets@[k as int] == slot);
                    }
                }
                assert(mask_set(seeds) =~= more);
            }
            k = k + 1;
        }
        self.cascade(component, ui, &mut runs, seeds, 0);
        let ghost notified = run_of(self, ui, runs@);
        ui.flush();
        proof {
            assert(written == Run {
                instance: apply_writes(
                    cells,
                    begin_spec(old(self)@),
                    writes_view(writes@),
                    writes@.len() as int,
                ),
                calls: old(ui).commands(),
                runs: Seq::empty(),
            });
            assert(writes_view(writes@).len() == writes@.len());
            assert(ui.commands() =~= notified.calls.push(CommandView::Flush));
        }
        runs
    }

    /// Writes `value` to the state cell in slot `slot` and notifies its
    /// subscribers: a mutation from outside of one cell. The derived cells
    /// recomputed are returned in the order of their recomputation.
    pub fn with_state<R: Renderer>(
        &mut self,
        component: &Component,
        ui: &mut R,
        slot: usize,
        value: Value,
    ) -> (runs: Vec<usize>)
        requires
            component.wf(),
            old(self).fits(cells_view(component.cells@)),
            old(ui).wf(),
            slot < component.cells@.len(),
            component.cells@[slot as int] is State,
        ensures
            final(self).fits(cells_view(component.cells@)),
            final(self).roots == old(self).roots,
            final(ui).wf(),
            final(ui).live() == old(ui).live(),
            final(ui).spare() == old(ui).spare(),
            run_of(final(self), final(ui), runs@) == update_slot_spec(
                cells_view(component.cells@),
                Run {
                    instance: set_spec(begin_spec(old(self)@), slot as int, value@),
                    calls: old(ui).commands(),
                    runs: Seq::empty(),
                },
                slot as int,
            ),
    {
        let mut runs: Vec<usize> = Vec::new();
        proof {
            assert(cells_view(component.cells@)[slot as int] == component.cells@[slot as int]@);
        }
        self.begin();
        self.set(slot, value);
        self.update_slot(component, ui, &mut runs, slot);
        runs
    }
}

/// Every cell recomputed in `run` is marked as recomputed, and none was
/// recomputed twice.
pub open spec fn once_each(run: Run) -> bool {
    &&& run.runs.no_duplicates()
    &&& forall|i: int| 0 <= i < run.runs.len() ==> run.instance.notified.contains(
        #[trigger] run.runs[i] as nat,
    )
}

/// Whether the two sequences of values agree in the slots of the state
/// cells.
pub open spec fn same_states(cells: Seq<CellView>, a: Seq<ValueView>, b: Seq<ValueView>) -> bool {
    &&& a.len() == b.len()
    &&& forall|i: int|
        0 <= i < a.len() && 0 <= i < cells.len() && cells[i] is State ==> a[i] == b[i]
}

proof fn step_once_each(cells: Seq<CellView>, pass: Pass, slot: int)
    requires
        once_each(pass.run),
        0 <= slot < cells.len(),
        cells.len() <= usize::MAX,
        slot < pass.run.instance.values.len(),
    ensures
        once_each(step_spec(cells, pass, slot).run),
        same_states(
            cells,
            pass.run.instance.values,
            step_spec(cells, pass, slot).run.instance.values,
        ),
        pass.run.instance.written.subset_of(step_spec(cells, pass, slot).run.instance.written),
{
    let run = pass.run;
    if due(cells, pass, slot) {
        let after = recompute_spec(cells, run, slot);
        assert forall|i: int, j: int|
            0 <= i < after.runs.len() && 0 <= j < after.runs.len() && i != j implies after.runs[i]
            != after.runs[j] by {
            if i < run.runs.len() {
                assert(run.instance.notified.contains(run.runs[i] as nat));
            }
            if j < run.runs.len() {
                assert(run.instance.notified.contains(run.runs[j] as nat));
            }
        }
        assert forall|i: int| 0 <= i < after.runs.len() implies after.instance.notified.contains(
            #[trigger] after.runs[i] as nat,
        ) by {
            if i < run.runs.len() {
                assert(run.instance.notified.contains(run.runs[i] as nat));
            }
        }
    }
}

proof fn cascade_once_each(cells: Seq<CellView>, pass: Pass, slot: int)
    requires
        once_each(pass.run),
        0 <= slot,
        cells.len() <= usize::MAX,
        pass.run.instance.values.len() == cells.len(),
    ensures
        once_each(cascade_spec(cells, pass, slot).run),
        same_states(
            cells,
            pass.run.instance.values,
            cascade_spec(cells, pass, slot).run.instance.values,
        ),
        pass.run.instance.written.subset_of(cascade_spec(cells, pass, slot).run.instance.written),
    decreases cells.len() - slot,
{
    if slot < cells.len() {
        step_once_each(cells, pass, slot);
        cascade_once_each(cells, step_spec(cells, pass, slot), slot + 1);
    }
}

proof fn writes_keep(
    cells: Seq<CellView>,
    instance: InstanceView,
    writes: Seq<(usize, ValueView)>,
    k: int,
)
    requires
        0 <= k <= writes.len(),
        instance.values.len() == cells.len(),
    ensures
        apply_writes(cells, instance, writes, k).notified == instance.notified,
        apply_writes(cells, instance, writes, k).values.len() == cells.len(),
    decreases k,
{
    if k > 0 {
        writes_keep(cells, instance, writes, k - 1);
    }
}

/// Within one invocation of a handler, whatever writes its body makes and
/// whatever cells its listener names, no derived cell is recomputed more
/// than once; and every recomputation comes after the body has run to its
/// end: the state cells hold at the end of the invocation what the body
/// left in them.
pub proof fn handler_recomputes_each_cell_once(
    cells: Seq<CellView>,
    run: Run,
    targets: Seq<usize>,
    writes: Seq<(usize, ValueView)>,
)
    requires
        cells.len() <= usize::MAX,
        run.instance.values.len() == cells.len(),
        run.runs.len() == 0,
    ensures
        handle_spec(cells, run, targets, writes).runs.no_duplicates(),
        same_states(
            cells,
            apply_writes(cells, begin_spec(run.instance), writes, writes.len() as int).values,
            handle_spec(cells, run, targets, writes).instance.values,
        ),
{
    let begun = begin_spec(run.instance);
    writes_keep(cells, begun, writes, writes.len() as int);
    let written = Run {
        instance: apply_writes(cells, begun, writes, writes.len() as int),
        ..run
    };
    cascade_once_each(
        cells,
        Pass {
            run: written,
            changed: written_targets(
                cells,
                written.instance.written,
                targets,
                targets.len() as int,
            ),
        },
        0,
    );
}

/// The cells recomputed in a cascade from slot `slot` on come after those
/// recomputed before, lie at or above `slot`, and rise.
proof fn cascade_runs_rise(cells: Seq<CellView>, pass: Pass, slot: int)
    requires
        0 <= slot,
        cells.len() <= usize::MAX,
    ensures
        pass.run.runs.len() <= cascade_spec(cells, pass, slot).run.runs.len(),
        forall|i: int|
            0 <= i < pass.run.runs.len() ==> cascade_spec(cells, pass, slot).run.runs[i]
                == pass.run.runs[i],
        forall|i: int|
            pass.run.runs.len() <= i < cascade_spec(cells, pass, slot).run.runs.len() ==> slot
                <= #[trigger] cascade_spec(cells, pass, slot).run.runs[i] < cells.len(),
        forall|i: int, j: int|
            pass.run.runs.len() <= i < j < cascade_spec(cells, pass, slot).run.runs.len()
                ==> cascade_spec(cells, pass, slot).run.runs[i] < cascade_spec(
                cells,
                pass,
                slot,
            ).run.runs[j],
    decreases cells.len() - slot,
{
    if slot < cells.len() {
        let run = pass.run;
        let next = step_spec(cells, pass, slot);
        cascade_runs_rise(cells, next, slot + 1);
        let done = cascade_spec(cells, next, slot + 1).run;
        assert forall|i: int| 0 <= i < run.runs.len() implies done.runs[i] == run.runs[i] by {
            assert(next.run.runs[i] == run.runs[i]);
        }
        assert forall|i: int| run.runs.len() <= i < done.runs.len() implies slot
            <= #[trigger] done.runs[i] < cells.len() by {
            if i < next.run.runs.len() {
                assert(done.runs[i] == next.run.runs[i]);
            }
        }
        assert forall|i: int, j: int| run.runs.len() <= i < j < done.runs.len() implies done.runs[i]
            < done.runs[j] by {
            if i < next.run.runs.len() {
                assert(done.runs[i] == next.run.runs[i]);
                assert(slot + 1 <= done.runs[j]);
            }
        }
    }
}

/// Whether `runs` rise strictly.
pub open spec fn rises(runs: Seq<usize>) -> bool {
    forall|i: int, j: int| 0 <= i < j < runs.len() ==> runs[i] < runs[j]
}

/// Whether each of `runs` is a slot, and lies above every slot that its
/// cell subscribes to.
pub open spec fn above_subscriptions(cells: Seq<CellView>, runs: Seq<usize>) -> bool {
    forall|j: int|
        0 <= j < runs.len() ==> (#[trigger] runs[j]) < cells.len() && below(
            cells[runs[j] as int].subscriptions(),
            runs[j] as int,
        )
}

/// Where the subscribers of a slot are notified, the derived cells are
/// recomputed in the order of their slots. A derived cell subscribes only
/// to cells in lower slots, so each is recomputed after every cell that it
/// subscribes to.
pub proof fn cascade_follows_subscriptions(cells: Seq<CellView>, run: Run, slot: int)
    requires
        cells_wf(cells),
        cells.len() <= usize::MAX,
        run.runs.len() == 0,
    ensures
        rises(update_slot_spec(cells, run, slot).runs),
        above_subscriptions(cells, update_slot_spec(cells, run, slot).runs),
{
    let pass = Pass { run, changed: set![slot as nat] };
    cascade_runs_rise(cells, pass, 0);
    let done = update_slot_spec(cells, run, slot);
    assert forall|j: int| 0 <= j < done.runs.len() implies (#[trigger] done.runs[j]) < cells.len()
        && below(cells[done.runs[j] as int].subscriptions(), done.runs[j] as int) by {
        let at = done.runs[j] as int;
        assert(cells[at].wf(at));
    }
}

/// The cells among `runs` from position `from` up to position `to`.
pub open spec fn recomputed(runs: Seq<usize>, from: int, to: int) -> Set<nat> {
    Set::new(|cell: nat| exists|h: int| from <= h < to && #[trigger] runs[h] == cell)
}

/// Whether each of `runs` from position `from` on is a slot whose cell
/// subscribes to one of `seeds` or to a cell that stands in `runs` between
/// `from` and itself.
pub open spec fn reached_from(
    cells: Seq<CellView>,
    seeds: Set<nat>,
    from: int,
    runs: Seq<usize>,
) -> bool {
    forall|i: int|
        from <= i < runs.len() ==> (#[trigger] runs[i]) < cells.len() && touched(
            cells[runs[i] as int].subscriptions(),
            recomputed(runs, from, i).union(seeds),
        )
}

proof fn touched_by_more(subscriptions: Set<usize>, fewer: Set<nat>, more: Set<nat>)
    requires
        touched(subscriptions, fewer),
        fewer.subset_of(more),
    ensures
        touched(subscriptions, more),
{
    let slot = choose|slot: usize|
        #[trigger] subscriptions.contains(slot) && fewer.contains(slot as nat);
    assert(more.contains(slot as nat));
}

proof fn cascade_reaches(cells: Seq<CellView>, pass: Pass, slot: int, seeds: Set<nat>, from: int)
    requires
        0 <= slot,
        0 <= from <= pass.run.runs.len(),
        cells.len() <= usize::MAX,
        reached_from(cells, seeds, from, pass.run.runs),
        pass.changed.subset_of(
            recomputed(pass.run.runs, from, pass.run.runs.len() as int).union(seeds),
        ),
    ensures
        reached_from(cells, seeds, from, cascade_spec(cells, pass, slot).run.runs),
    decreases cells.len() - slot,
{
    if slot < cells.len() {
        let next = step_spec(cells, pass, slot);
        let runs = pass.run.runs;
        let more = next.run.runs;
        let n = runs.len() as int;
        if due(cells, pass, slot) {
            assert(more =~= runs.push(slot as usize));
            assert forall|i: int| from <= i < more.len() implies (#[trigger] more[i]) < cells.len()
                && touched(
                cells[more[i] as int].subscriptions(),
                recomputed(more, from, i).union(seeds),
            ) by {
                assert forall|cell: nat| recomputed(runs, from, i).contains(cell) implies recomputed(
                    more,
                    from,
                    i,
                ).contains(cell) by {
                    let h = choose|h: int| from <= h < i && #[trigger] runs[h] == cell;
                    assert(more[h] == cell);
                }
                if i < n {
                    assert(more[i] == runs[i]);
                    touched_by_more(
                        cells[runs[i] as int].subscriptions(),
                        recomputed(runs, from, i).union(seeds),
                        recomputed(more, from, i).union(seeds),
                    );
                } else {
                    touched_by_more(
                        cells[slot].subscriptions(),
                        pass.changed,
                        recomputed(more, from, i).union(seeds),
                    );
                }
            }
            assert forall|cell: nat| next.changed.contains(cell) implies recomputed(
                more,
                from,
                more.len() as int,
            ).union(seeds).contains(cell) by {
                if cell == slot as nat {
                    assert(more[n] == cell);
                } else if !seeds.contains(cell) {
                    assert(pass.changed.contains(cell));
                    let h = choose|h: int| from <= h < n && #[trigger] runs[h] == cell;
                    assert(more[h] == cell);
                }
            }
        }
        cascade_reaches(cells, next, slot + 1, seeds, from);
    }
}

/// Where the subscribers of slot `slot` are notified, only what the slot
/// reaches is recomputed. If the slot is not marked as written, nothing
/// happens. Otherwise every derived cell that is recomputed subscribes to
/// the slot, or to a derived cell that was recomputed before it in the
/// same notification. A binding that reads neither is left alone, also
/// where it reads other cells that are marked as written.
pub proof fn update_slot_leaves_the_unrelated_alone(cells: Seq<CellView>, run: Run, slot: nat)
    requires
        cells.len() <= usize::MAX,
    ensures
        !run.instance.written.contains(slot) ==> update_slot_spec(cells, run, slot as int) == run,
        reached_from(
            cells,
            set![slot],
            run.runs.len() as int,
            update_slot_spec(cells, run, slot as int).runs,
        ),
{
    if run.instance.written.contains(slot) {
        let pass = Pass { run, changed: set![slot] };
        cascade_reaches(cells, pass, 0, set![slot], run.runs.len() as int);
    }
}

/// Where a derived cell is brought up to date and its value stays, no
/// other cell is recomputed and no further slot is marked as written.
/// Where its value changes, every cell recomputed after it subscribes to
/// it, or to a derived cell that was recomputed before in the same update.
pub proof fn update_memo_cascades_on_change(cells: Seq<CellView>, run: Run, slot: nat)
    requires
        cells.len() <= usize::MAX,
        slot < cells.len(),
        run.instance.values.len() == cells.len(),
    ensures
        recompute_spec(cells, run, slot as int).instance.values[slot as int]
            == run.instance.values[slot as int] ==> {
            &&& update_memo_spec(cells, run, slot as int).runs == run.runs.push(slot as usize)
            &&& update_memo_spec(cells, run, slot as int).instance.written
                == run.instance.written
        },
        reached_from(
            cells,
            set![slot],
            run.runs.len() as int + 1,
            update_memo_spec(cells, run, slot as int).runs,
        ),
{
    let after = recompute_spec(cells, run, slot as int);
    if after.instance.values[slot as int] != run.instance.values[slot as int] {
        let pass = Pass { run: after, changed: set![slot] };
        cascade_reaches(cells, pass, slot as int + 1, set![slot], run.runs.len() as int + 1);
    }
}

/// One invocation of a handler recomputes only what its targets reach:
/// every derived cell that it recomputes subscribes to a target that the
/// body wrote, or to a derived cell that was recomputed before it. A
/// binding that reads none of them is left alone.
pub proof fn handler_leaves_the_unrelated_alone(
    cells: Seq<CellView>,
    run: Run,
    targets: Seq<usize>,
    writes: Seq<(usize, ValueView)>,
)
    requires
        cells.len() <= usize::MAX,
        run.runs.len() == 0,
    ensures
        reached_from(
            cells,
            written_targets(
                cells,
                apply_writes(cells, begin_spec(run.instance), writes, writes.len() as int).written,
                targets,
                targets.len() as int,
            ),
            0,
            handle_spec(cells, run, targets, writes).runs,
        ),
{
    let written = Run {
        instance: apply_writes(cells, begin_spec(run.instance), writes, writes.len() as int),
        ..run
    };
    let seeds = written_targets(cells, written.instance.written, targets, targets.len() as int);
    cascade_reaches(cells, Pass { run: written, changed: seeds }, 0, seeds, 0);
}

/// A cascade that carries on no change recomputes nothing.
proof fn cascade_of_nothing(cells: Seq<CellView>, pass: Pass, slot: int)
    requires
        0 <= slot,
        pass.changed == Set::<nat>::empty(),
    ensures
        cascade_spec(cells, pass, slot) == pass,
    decreases cells.len() - slot,
{
    if slot < cells.len() {
        assert(!due(cells, pass, slot));
        cascade_of_nothing(cells, pass, slot + 1);
    }
}

/// An invocation of a handler whose listener names one cell notifies the
/// subscribers of that cell, as the notification of its slot does.
pub proof fn handler_with_one_target_notifies_it(
    cells: Seq<CellView>,
    run: Run,
    target: usize,
    writes: Seq<(usize, ValueView)>,
)
    requires
        target < cells.len(),
    ensures
        handle_spec(cells, run, seq![target], writes) == ({
            let written = Run {
                instance: apply_writes(
                    cells,
                    begin_spec(run.instance),
                    writes,
                    writes.len() as int,
                ),
                ..run
            };
            let notified = update_slot_spec(cells, written, target as int);
            Run { calls: notified.calls.push(CommandView::Flush), ..notified }
        }),
{
    let written = Run {
        instance: apply_writes(cells, begin_spec(run.instance), writes, writes.len() as int),
        ..run
    };
    let targets = seq![target];
    let seeds = written_targets(cells, written.instance.written, targets, 1);
    if written.instance.written.contains(target as nat) {
        assert(targets[0] == target);
        assert(seeds =~= set![target as nat]);
    } else {
        assert(seeds =~= Set::<nat>::empty());
        cascade_of_nothing(cells, Pass { run: written, changed: seeds }, 0);
    }
}

/// What the pieces give depends only on the cells that they read and on
/// the texts that the host supplied.
proof fn render_reads_pieces(
    pieces: Seq<PieceView>,
    a: Seq<ValueView>,
    b: Seq<ValueView>,
    texts: Seq<Seq<char>>,
    k: int,
)
    requires
        0 <= k <= pieces.len(),
        a.len() == b.len(),
        forall|i: int|
            0 <= i < k ==> match #[trigger] pieces[i] {
                PieceView::Cell(slot) | PieceView::Debug(slot) => slot < a.len() ==> a[slot as int]
                    == b[slot as int],
                _ => true,
            },
    ensures
        render(pieces, a, texts, k) == render(pieces, b, texts, k),
    decreases k,
{
    if k > 0 {
        render_reads_pieces(pieces, a, b, texts, k - 1);
    }
}

/// A derived cell that is recomputed twice, with no write to a cell in
/// between, has the same value after the second time as after the first,
/// and the second time marks nothing as written: it starts no cascade.
pub proof fn recompute_twice_is_quiet(cells: Seq<CellView>, run: Run, slot: int)
    requires
        0 <= slot < cells.len(),
        cells[slot] is Memo,
        cells[slot].wf(slot),
        slot < run.instance.values.len(),
    ensures
        recompute_spec(cells, recompute_spec(cells, run, slot), slot).instance.values
            == recompute_spec(cells, run, slot).instance.values,
        recompute_spec(cells, recompute_spec(cells, run, slot), slot).instance.written
            == recompute_spec(cells, run, slot).instance.written,
{
    let memo = cells[slot]->Memo_0;
    let pieces = memo.update.pieces();
    let once = recompute_spec(cells, run, slot);
    let before = run.instance.values;
    let after = once.instance.values;
    assert forall|i: int| 0 <= i < pieces.len() implies match #[trigger] pieces[i] {
        PieceView::Cell(read) | PieceView::Debug(read) => {
            read < before.len() ==> before[read as int] == after[read as int]
        },
        _ => true,
    } by {
        match pieces[i] {
            PieceView::Cell(read) | PieceView::Debug(read) => {
                assert(pieces[i].reads()[0] == read);
                assert(memo.subscriptions.contains(read));
            },
            _ => {},
        }
    }
    render_reads_pieces(
        pieces,
        run.instance.values,
        once.instance.values,
        list_at(run.instance.supplied, slot),
        pieces.len() as int,
    );
    let twice = recompute_spec(cells, once, slot);
    assert(twice.instance.values =~= once.instance.values);
}

impl State {
    /// Notifies the subscribers of the cell in `instance`. If the cell's
    /// slot is not marked as written, nothing happens. Otherwise those
    /// derived cells are recomputed, each once and in the order of the
    /// slots, that subscribe to the cell or to a derived cell that this
    /// call recomputed to a new value. A derived cell that subscribes only
    /// to other cells is left alone, written or not.
    pub fn update<R: Renderer, M: BitMask>(
        &self,
        instance: &mut Instance<M>,
        component: &Component,
        ui: &mut R,
        runs: &mut Vec<usize>,
    )
        requires
            component.wf(),
            old(instance).fits(cells_view(component.cells@)),
            old(ui).wf(),
            self.id < component.cells@.len(),
        ensures
            final(instance).fits(cells_view(component.cells@)),
            final(instance).roots == old(instance).roots,
            final(ui).wf(),
            final(ui).live() == old(ui).live(),
            final(ui).spare() == old(ui).spare(),
            run_of(final(instance), final(ui), final(runs)@) == update_slot_spec(
                cells_view(component.cells@),
                run_of(old(instance), old(ui), old(runs)@),
                self.id as int,
            ),
    {
        instance.update_slot(component, ui, runs, self.id);
    }
}

impl Memo {
    /// Brings the cell up to date in `instance`: it is recomputed from the
    /// cells that it reads, and its dynamic node follows. Where its value
    /// stayed, no other cell is recomputed and no slot is marked as
    /// written. Where its value changed, its slot is marked as written and
    /// every derived cell that subscribes to it, or to a derived cell that
    /// changed in turn, is recomputed after it, once and in the order of
    /// the slots.
    pub fn update<R: Renderer, M: BitMask>(
        &self,
        instance: &mut Instance<M>,
        component: &Component,
        ui: &mut R,
        runs: &mut Vec<usize>,
    )
        requires
            component.wf(),
            old(instance).fits(cells_view(component.cells@)),
            old(ui).wf(),
            self.id < component.cells@.len(),
            component.cells@[self.id as int] is Memo,
        ensures
            final(instance).fits(cells_view(component.cells@)),
            final(instance).roots == old(instance).roots,
            final(ui).wf(),
            final(ui).live() == old(ui).live(),
            final(ui).spare() == old(ui).spare(),
            run_of(final(instance), final(ui), final(runs)@) == update_memo_spec(
                cells_view(component.cells@),
                run_of(old(instance), old(ui), old(runs)@),
                self.id as int,
            ),
    {
        instance.update_memo(component, ui, runs, self.id);
    }
}

impl<R: Renderer, M: BitMask> ComponentState<R> for Instance<M> {
    open spec fn roots_spec(&self) -> Seq<u32> {
        self.roots@
    }

    fn roots(&self) -> (roots: Vec<u32>) {
        copy_handles(&self.roots)
    }

    fn remove(&self, ui: &mut R) {
        remove_roots(&self.roots, ui);
    }
}

/// Where a list cell is empty, appending an item to it and then emptying
/// it brings every text that the engine puts together from the cells back
/// to what it was before the item was appended.
pub proof fn push_then_clear_restores_text(
    pieces: Seq<PieceView>,
    values: Seq<ValueView>,
    texts: Seq<Seq<char>>,
    slot: int,
    item: i32,
)
    requires
        0 <= slot < values.len(),
        values[slot] == ValueView::List(Seq::empty()),
    ensures
        render(
            pieces,
            values.update(slot, values[slot].pushed(item).cleared()),
            texts,
            pieces.len() as int,
        ) == render(pieces, values, texts, pieces.len() as int),
{
    assert(Seq::<i32>::empty().push(item).len() == 1);
    assert(values.update(slot, values[slot].pushed(item).cleared()) =~= values);
}

/// The number of calls among `calls` that commit.
pub open spec fn commits(calls: Seq<CommandView>) -> nat
    decreases calls.len(),
{
    if calls.len() == 0 {
        0
    } else {
        commits(calls.drop_last()) + if calls.last() is Flush {
            1nat
        } else {
            0nat
        }
    }
}

/// Whether `after` has the calls of `before` and after them at most one
/// call for each cell recomputed since, none of them a commit.
pub open spec fn one_call_each(before: Run, after: Run) -> bool {
    &&& before.calls.len() <= after.calls.len()
    &&& before.runs.len() <= after.runs.len()
    &&& after.calls.len() - before.calls.len() <= after.runs.len() - before.runs.len()
    &&& commits(after.calls) == commits(before.calls)
    &&& after.instance.values.len() == before.instance.values.len()
}

proof fn commits_of_concat(a: Seq<CommandView>, b: Seq<CommandView>)
    ensures
        commits(a + b) == commits(a) + commits(b),
    decreases b.len(),
{
    if b.len() == 0 {
        assert(a + b =~= a);
    } else {
        assert((a + b).drop_last() =~= a + b.drop_last());
        commits_of_concat(a, b.drop_last());
    }
}

proof fn update_commits_nothing(update: UpdaterView, handles: Seq<Seq<u32>>, text: Seq<char>)
    ensures
        update_calls(update, handles, text).len() <= 1,
        commits(update_calls(update, handles, text)) == 0,
{
    let calls = update_calls(update, handles, text);
    if calls.len() > 0 {
        assert(calls.len() == 1);
        assert(!(calls.last() is Flush));
        assert(calls.drop_last() =~= Seq::<CommandView>::empty());
        assert(commits(calls.drop_last()) == 0);
    }
}

proof fn step_calls_once(cells: Seq<CellView>, pass: Pass, slot: int)
    requires
        0 <= slot < cells.len(),
        pass.run.instance.values.len() == cells.len(),
    ensures
        one_call_each(pass.run, step_spec(cells, pass, slot).run),
{
    let run = pass.run;
    if due(cells, pass, slot) {
        let update = cells[slot]->Memo_0.update;
        let pieces = update.pieces();
        let text = render(
            pieces,
            run.instance.values,
            list_at(run.instance.supplied, slot),
            pieces.len() as int,
        );
        update_commits_nothing(update, run.instance.handles, text);
        commits_of_concat(run.calls, update_calls(update, run.instance.handles, text));
        let after = recompute_spec(cells, run, slot);
        assert(after.calls == run.calls + update_calls(update, run.instance.handles, text));
        assert(after.runs.len() == run.runs.len() + 1);
    }
}

proof fn cascade_calls_once(cells: Seq<CellView>, pass: Pass, slot: int)
    requires
        0 <= slot,
        pass.run.instance.values.len() == cells.len(),
    ensures
        one_call_each(pass.run, cascade_spec(cells, pass, slot).run),
    decreases cells.len() - slot,
{
    if slot < cells.len() {
        step_calls_once(cells, pass, slot);
        cascade_calls_once(cells, step_spec(cells, pass, slot), slot + 1);
    }
}

/// One invocation of a handler commits once, at its end: whatever it
/// recomputes, its calls are at most one update for each cell recomputed,
/// and after them the one commit.
pub proof fn handler_commits_once(
    cells: Seq<CellView>,
    run: Run,
    targets: Seq<usize>,
    writes: Seq<(usize, ValueView)>,
)
    requires
        run.instance.values.len() == cells.len(),
        run.runs.len() == 0,
    ensures
        handle_spec(cells, run, targets, writes).calls.last() is Flush,
        commits(handle_spec(cells, run, targets, writes).calls) == commits(run.calls) + 1,
        handle_spec(cells, run, targets, writes).calls.len() <= run.calls.len() + handle_spec(
            cells,
            run,
            targets,
            writes,
        ).runs.len() + 1,
{
    let written = Run {
        instance: apply_writes(cells, begin_spec(run.instance), writes, writes.len() as int),
        ..run
    };
    writes_keep(cells, begin_spec(run.instance), writes, writes.len() as int);
    let pass = Pass {
        run: written,
        changed: written_targets(cells, written.instance.written, targets, targets.len() as int),
    };
    cascade_calls_once(cells, pass, 0);
    let notified = cascade_spec(cells, pass, 0).run;
    let done = handle_spec(cells, run, targets, writes);
    assert(done.calls.drop_last() =~= notified.calls);
}

/// Whether one of the first `k` of `writes` goes to the state cell in slot
/// `slot`.
pub open spec fn written_to(
    cells: Seq<CellView>,
    writes: Seq<(usize, ValueView)>,
    k: int,
    slot: nat,
) -> bool {
    exists|i: int|
        0 <= i < k && (#[trigger] writes[i]).0 == slot && slot < cells.len()
            && cells[slot as int] is State
}

proof fn writes_mark(
    cells: Seq<CellView>,
    instance: InstanceView,
    writes: Seq<(usize, ValueView)>,
    k: int,
    slot: nat,
)
    requires
        0 <= k <= writes.len(),
    ensures
        apply_writes(cells, instance, writes, k).written.contains(slot) <==> (
        instance.written.contains(slot) || written_to(cells, writes, k, slot)),
    decreases k,
{
    if k > 0 {
        writes_mark(cells, instance, writes, k - 1, slot);
        if written_to(cells, writes, k - 1, slot) {
            let i = choose|i: int|
                0 <= i < k - 1 && (#[trigger] writes[i]).0 == slot && slot < cells.len()
                    && cells[slot as int] is State;
            assert(writes[i].0 == slot);
        }
        if written_to(cells, writes, k, slot) && !written_to(cells, writes, k - 1, slot) {
            let i = choose|i: int|
                0 <= i < k && (#[trigger] writes[i]).0 == slot && slot < cells.len()
                    && cells[slot as int] is State;
            assert(i == k - 1);
        }
        let (target, value) = writes[k - 1];
        if target < cells.len() && cells[target as int] is State && target == slot {
            assert(writes[k - 1].0 == slot);
        }
    }
}

proof fn cascade_marks_derived_only(cells: Seq<CellView>, pass: Pass, slot: int, state: nat)
    requires
        0 <= slot,
        state < cells.len(),
        cells[state as int] is State,
    ensures
        cascade_spec(cells, pass, slot).run.instance.written.contains(state)
            == pass.run.instance.written.contains(state),
    decreases cells.len() - slot,
{
    if slot < cells.len() {
        cascade_marks_derived_only(cells, step_spec(cells, pass, slot), slot + 1, state);
    }
}

/// After an invocation of a handler the slot of a state cell is marked as
/// written if and only if the handler's body wrote the cell.
pub proof fn written_states_are_those_written(
    cells: Seq<CellView>,
    run: Run,
    targets: Seq<usize>,
    writes: Seq<(usize, ValueView)>,
    state: nat,
)
    requires
        state < cells.len(),
        cells[state as int] is State,
    ensures
        handle_spec(cells, run, targets, writes).instance.written.contains(state) == written_to(
            cells,
            writes,
            writes.len() as int,
            state,
        ),
{
    let begun = begin_spec(run.instance);
    writes_mark(cells, begun, writes, writes.len() as int, state);
    let written = Run {
        instance: apply_writes(cells, begun, writes, writes.len() as int),
        ..run
    };
    cascade_marks_derived_only(
        cells,
        Pass {
            run: written,
            changed: written_targets(
                cells,
                written.instance.written,
                targets,
                targets.len() as int,
            ),
        },
        0,
        state,
    );
}

} // verus!
