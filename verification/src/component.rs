//! A component: its cells, its markup, and the instances made of it.

use vstd::prelude::*;
use crate::memo::{memo_name, Memo, MemoView};
use crate::renderer::{CommandView, Renderer};
use crate::node::{plan_spec, PlanStep};
use crate::rsx::Elements;
use crate::state::{State, StateView};

verus! {

/// A reactive cell of a component. State cells and derived cells share one
/// numbering: the slot of a cell is its position among all the cells, in
/// the order of their declaration.
#[derive(Debug)]
pub enum Cell {
    State(State),
    Memo(Memo),
}

/// What a [`Cell`] holds.
pub enum CellView {
    State(StateView),
    Memo(MemoView),
}

impl View for Cell {
    type V = CellView;

    open spec fn view(&self) -> CellView {
        match self {
            Cell::State(state) => CellView::State(state@),
            Cell::Memo(memo) => CellView::Memo(memo@),
        }
    }
}

/// The cells of a vector, each by its view.
pub open spec fn cells_view(cells: Seq<Cell>) -> Seq<CellView> {
    Seq::new(cells.len(), |i: int| cells[i]@)
}

impl CellView {
    /// The name under which an expression refers to the cell: the name of a
    /// state cell, `memo_` and the slot for a derived cell.
    pub open spec fn name(self) -> Seq<char> {
        match self {
            CellView::State(state) => state.name,
            CellView::Memo(memo) => memo_name(memo.id),
        }
    }

    /// The slots that the cell subscribes to; none for a state cell.
    pub open spec fn subscriptions(self) -> Set<usize> {
        match self {
            CellView::State(state) => Set::empty(),
            CellView::Memo(memo) => memo.subscriptions,
        }
    }

    /// The slots of the derived cells that subscribe to the cell.
    pub open spec fn subscribers(self) -> Set<usize> {
        match self {
            CellView::State(state) => state.subscribers,
            CellView::Memo(memo) => memo.subscribers,
        }
    }

    /// The cell with `subscribers` in place of its subscribers.
    pub open spec fn with_subscribers(self, subscribers: Set<usize>) -> CellView {
        match self {
            CellView::State(state) => CellView::State(StateView { subscribers, ..state }),
            CellView::Memo(memo) => CellView::Memo(MemoView { subscribers, ..memo }),
        }
    }

    /// The cell stands in slot `slot`, and a derived cell looks back only.
    pub open spec fn wf(self, slot: int) -> bool {
        match self {
            CellView::State(state) => state.id == slot,
            CellView::Memo(memo) => memo.wf(slot),
        }
    }
}

/// The names of the cells, by slot.
pub open spec fn cell_names(cells: Seq<CellView>) -> Seq<Seq<char>> {
    Seq::new(cells.len(), |i: int| cells[i].name())
}

/// Every cell stands in its slot, and every derived cell looks back only:
/// there is no reference forward and so no cycle.
pub open spec fn cells_wf(cells: Seq<CellView>) -> bool {
    forall|slot: int| 0 <= slot < cells.len() ==> (#[trigger] cells[slot]).wf(slot)
}

/// The slots of the cells that subscribe to `slot`.
pub open spec fn subscribers_spec(cells: Seq<CellView>, slot: usize) -> Set<usize> {
    Set::new(
        |cell: usize| cell < cells.len() && cells[cell as int].subscriptions().contains(slot),
    )
}

/// `cells`, each with its subscribers: the cells that subscribe to it.
pub open spec fn resolved_cells(cells: Seq<CellView>) -> Seq<CellView> {
    Seq::new(cells.len(), |i: int| cells[i].with_subscribers(subscribers_spec(cells, i as usize)))
}

/// A component, built: its cells with their subscriptions and subscribers,
/// its template, and the plan that gives an instance its node handles.
#[derive(Debug)]
pub struct Component {
    pub name: String,
    pub cells: Vec<Cell>,
    pub rsx: Elements,
    pub plan: Vec<PlanStep>,
}

impl Component {
    /// The component is consistent: every cell stands in its slot and looks
    /// back only, the subscribers of a cell are the cells that subscribe to
    /// it, every root of the markup is well formed with its dynamic nodes
    /// in document order, and the plan is the one for the markup.
    pub open spec fn wf(&self) -> bool {
        &&& cells_wf(cells_view(self.cells@))
        &&& cells_view(self.cells@) == resolved_cells(cells_view(self.cells@))
        &&& self.rsx.inv()
        &&& forall|i: int|
            0 <= i < self.rsx.roots@.len() ==> (#[trigger] self.rsx.roots@[i]).wf()
                && self.rsx.roots@[i].ordered()
        &&& self.plan@ == plan_spec(self.rsx.roots@)
    }
}

/// The calls that take the nodes `roots` out of the tree, in their order.
pub open spec fn removal_calls(roots: Seq<u32>) -> Seq<CommandView> {
    Seq::new(roots.len(), |i: int| CommandView::Remove { id: roots[i] })
}

/// What is mounted in a backend: an instance of a component, or several.
pub trait ComponentState<R: Renderer> {
    /// The handles of the roots.
    spec fn roots_spec(&self) -> Seq<u32>;

    /// The handles of the roots, in their order.
    fn roots(&self) -> (roots: Vec<u32>)
        ensures
            roots@ == self.roots_spec(),
    ;

    /// Takes every root out of the tree.
    fn remove(&self, ui: &mut R)
        requires
            old(ui).wf(),
        ensures
            final(ui).wf(),
            final(ui).commands() == old(ui).commands() + removal_calls(self.roots_spec()),
            final(ui).live() == old(ui).live(),
            final(ui).spare() == old(ui).spare(),
    ;
}

/// Takes each of `roots` out of the tree.
pub fn remove_roots<R: Renderer>(roots: &Vec<u32>, ui: &mut R)
    requires
        old(ui).wf(),
    ensures
        final(ui).wf(),
        final(ui).commands() == old(ui).commands() + removal_calls(roots@),
        final(ui).live() == old(ui).live(),
        final(ui).spare() == old(ui).spare(),
{
    let mut i: usize = 0;
    proof {
        assert(ui.commands() =~= old(ui).commands() + removal_calls(roots@.take(0)));
    }
    while i < roots.len()
        invariant
            i <= roots@.len(),
            ui.wf(),
            ui.live() == old(ui).live(),
            ui.spare() == old(ui).spare(),
            ui.commands() == old(ui).commands() + removal_calls(roots@.take(i as int)),
        decreases roots@.len() - i,
    {
        ui.remove(roots[i]);
        proof {
            let removed = seq![CommandView::Remove { id: roots@[i as int] }];
            assert(removal_calls(roots@.take(i + 1)) =~= removal_calls(roots@.take(i as int))
                + removed);
        }
        i = i + 1;
    }
    proof {
        assert(roots@.take(roots@.len() as int) =~= roots@);
    }
}

/// A copy of a vector of handles.
pub fn copy_handles(handles: &Vec<u32>) -> (copy: Vec<u32>)
    ensures
        copy@ == handles@,
{
    let mut copy: Vec<u32> = Vec::new();
    let mut i: usize = 0;
    while i < handles.len()
        invariant
            i <= handles@.len(),
            copy@ == handles@.take(i as int),
        decreases handles@.len() - i,
    {
        copy.push(handles[i]);
        proof {
            assert(handles@.take(i + 1) =~= handles@.take(i as int).push(handles@[i as int]));
        }
        i = i + 1;
    }
    proof {
        assert(handles@.take(handles@.len() as int) =~= handles@);
    }
    copy
}

} // verus!
