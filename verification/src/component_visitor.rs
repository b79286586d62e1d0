//! The dependency collector: which cells does a reactive expression name?
//!
//! The matching is by name alone. An identifier of an expression that is
//! spelled like a cell declared before it counts as a reference to that
//! cell, whatever it means where it stands. The collector does not read
//! expressions: each comes with the list of its identifiers.

use vstd::prelude::*;
use std::collections::HashSet;
use crate::component::{
    cell_names, cells_view, cells_wf, resolved_cells, subscribers_spec, Cell, CellView, Component,
};
use crate::error::{BuildError, BuildErrorView};
use crate::expr::{texts_view, Code, CodeView};
use crate::memo::{
    below, memo_ident, rising_below, Memo, MemoView, Piece, PieceView, Updater, UpdaterView,
};
use crate::node::update_dyn_nodes;
use crate::rsx::{completed_roots, roots_spec, roots_updates, Elements, ElementsView, Node};
use crate::state::{State, StateView};
use crate::text::same_text;
use crate::tracking::BitMask;

verus! {

/// The first position in `names` that holds `name`, or their number if
/// none does.
pub open spec fn first_named(names: Seq<Seq<char>>, name: Seq<char>) -> int
    decreases names.len(),
{
    if names.len() == 0 {
        0
    } else if names[0] == name {
        0
    } else {
        1 + first_named(names.drop_first(), name)
    }
}

/// `subscribed`, and after it the slot of the first cell that is called
/// `ident`, if there is one.
pub open spec fn visit_ident_spec(names: Seq<Seq<char>>, subscribed: Seq<usize>, ident: Seq<char>)
    -> Seq<usize> {
    let slot = first_named(names, ident);
    if slot < names.len() {
        subscribed.push(slot as usize)
    } else {
        subscribed
    }
}

/// `subscribed`, and after it the slots that the first `k` of `idents`
/// name.
pub open spec fn visit_idents_spec(
    names: Seq<Seq<char>>,
    subscribed: Seq<usize>,
    idents: Seq<Seq<char>>,
    k: int,
) -> Seq<usize>
    decreases k,
{
    if k <= 0 {
        subscribed
    } else {
        visit_ident_spec(names, visit_idents_spec(names, subscribed, idents, k - 1), idents[k - 1])
    }
}

/// The slots below `n` that occur in `subscribed`, in rising order.
pub open spec fn slots_in(subscribed: Seq<usize>, n: int) -> Seq<usize>
    decreases n,
{
    if n <= 0 {
        Seq::empty()
    } else if subscribed.contains((n - 1) as usize) {
        slots_in(subscribed, n - 1).push((n - 1) as usize)
    } else {
        slots_in(subscribed, n - 1)
    }
}

/// The slots of the cells that the identifiers `idents` name, in rising
/// order, where `names` holds the name of each cell declared so far.
pub open spec fn subscriptions_spec(names: Seq<Seq<char>>, idents: Seq<Seq<char>>) -> Seq<usize> {
    slots_in(
        visit_idents_spec(names, Seq::empty(), idents, idents.len() as int),
        names.len() as int,
    )
}

/// The slot of the first cell that is called `name`, or the number of cells
/// if none is.
pub fn find_cell(names: &Vec<String>, name: &str) -> (slot: usize)
    ensures
        slot == first_named(texts_view(names@), name@),
        slot <= names@.len(),
{
    let ghost all = texts_view(names@);
    let mut slot: usize = 0;
    proof {
        assert(all.skip(0) =~= all);
    }
    while slot < names.len()
        invariant
            slot <= names@.len(),
            all == texts_view(names@),
            first_named(all, name@) == slot + first_named(all.skip(slot as int), name@),
        decreases names@.len() - slot,
    {
        proof {
            assert(all.skip(slot as int)[0] == all[slot as int]);
            assert(all.skip(slot as int).drop_first() =~= all.skip(slot + 1));
        }
        if same_text(names[slot].as_str(), name) {
            return slot;
        }
        slot = slot + 1;
    }
    proof {
        assert(all.skip(slot as int).len() == 0);
    }
    slot
}

/// Collects the cells that identifiers name.
pub struct SubscriptionVisitor<'a> {
    /// The name of each cell declared so far, by its slot.
    pub states: &'a Vec<String>,
    /// The slots found, in the order of the identifiers that named them.
    pub subscribed: Vec<usize>,
}

impl<'a> SubscriptionVisitor<'a> {
    /// Takes in one identifier: if a cell is called so, the slot of the
    /// first such cell is recorded.
    pub fn visit_ident(&mut self, i: &str)
        ensures
            final(self).states == old(self).states,
            final(self).subscribed@ == visit_ident_spec(
                texts_view(old(self).states@),
                old(self).subscribed@,
                i@,
            ),
    {
        let slot = find_cell(self.states, i);
        if slot < self.states.len() {
            self.subscribed.push(slot);
        }
    }

    /// Takes in every identifier of `idents`, in their order.
    pub fn visit_idents(&mut self, idents: &Vec<String>)
        ensures
            final(self).states == old(self).states,
            final(self).subscribed@ == visit_idents_spec(
                texts_view(old(self).states@),
                old(self).subscribed@,
                texts_view(idents@),
                idents@.len() as int,
            ),
    {
        let mut k: usize = 0;
        while k < idents.len()
            invariant
                k <= idents@.len(),
                self.states == old(self).states,
                self.subscribed@ == visit_idents_spec(
                    texts_view(old(self).states@),
                    old(self).subscribed@,
                    texts_view(idents@),
                    k as int,
                ),
            decreases idents@.len() - k,
        {
            proof {
                assert(texts_view(idents@)[k as int] == idents@[k as int]@);
            }
            self.visit_ident(idents[k].as_str());
            k = k + 1;
        }
    }

    /// The slots found, each once, in rising order.
    pub fn into_slots(self) -> (slots: Vec<usize>)
        ensures
            slots@ == slots_in(self.subscribed@, self.states@.len() as int),
    {
        let mut slots: Vec<usize> = Vec::new();
        let mut slot: usize = 0;
        while slot < self.states.len()
            invariant
                slot <= self.states@.len(),
                slots@ == slots_in(self.subscribed@, slot as int),
            decreases self.states@.len() - slot,
        {
            if contains_slot(&self.subscribed, slot) {
                slots.push(slot);
            }
            slot = slot + 1;
        }
        slots
    }
}

/// Whether `slot` is one of `slots`.
pub fn contains_slot(slots: &Vec<usize>, slot: usize) -> (found: bool)
    ensures
        found == slots@.contains(slot),
{
    let mut i: usize = 0;
    while i < slots.len()
        invariant
            i <= slots@.len(),
            forall|j: int| 0 <= j < i ==> slots@[j] != slot,
        decreases slots@.len() - i,
    {
        if slots[i] == slot {
            return true;
        }
        i = i + 1;
    }
    false
}

/// The slots of the cells that the identifiers `idents` name, in rising
/// order.
pub fn subscriptions(names: &Vec<String>, idents: &Vec<String>) -> (slots: Vec<usize>)
    ensures
        slots@ == subscriptions_spec(texts_view(names@), texts_view(idents@)),
{
    let mut visitor = SubscriptionVisitor { states: names, subscribed: Vec::new() };
    visitor.visit_idents(idents);
    visitor.into_slots()
}

/// The slots picked out of `subscribed` rise strictly, lie below `n`, and
/// are those members of `subscribed` that lie below `n`.
pub proof fn slots_in_rising(subscribed: Seq<usize>, n: int)
    requires
        n <= usize::MAX,
    ensures
        rising_below(slots_in(subscribed, n), n),
        forall|slot: usize|
            slots_in(subscribed, n).contains(slot) <==> (slot < n && subscribed.contains(slot)),
    decreases n,
{
    if n > 0 {
        slots_in_rising(subscribed, n - 1);
        let before = slots_in(subscribed, n - 1);
        let here = slots_in(subscribed, n);
        if subscribed.contains((n - 1) as usize) {
            assert(here == before.push((n - 1) as usize));
            assert forall|slot: usize| here.contains(slot) <==> (slot < n && subscribed.contains(
                slot,
            )) by {
                if before.contains(slot) {
                    let i = choose|i: int| 0 <= i < before.len() && before[i] == slot;
                    assert(here[i] == slot);
                }
                if slot == n - 1 {
                    assert(here[before.len() as int] == slot);
                }
            }
        }
    }
}

/// Gathers what a component declares: its cells in the order of their
/// declaration, and its markup.
pub struct ComponentBuilder {
    pub cells: Vec<Cell>,
    /// The name of each cell, by slot.
    pub names: Vec<String>,
    pub rsx: Option<Elements>,
    pub name: String,
    /// Whether the walk stands inside a reactive declaration.
    pub in_reactive: bool,
}

impl ComponentBuilder {
    /// Every cell stands in its slot and looks back only, and the names are
    /// those of the cells.
    pub open spec fn wf(&self) -> bool {
        &&& cells_wf(cells_view(self.cells@))
        &&& texts_view(self.names@) == cell_names(cells_view(self.cells@))
        &&& match self.rsx {
            Some(rsx) => rsx.inv() && forall|i: int|
                0 <= i < rsx.roots@.len() ==> (#[trigger] rsx.roots@[i]).wf()
                    && rsx.roots@[i].ordered(),
            None => true,
        }
    }

    /// A builder for the component called `name`, with nothing
    /// declared.
    pub fn new(name: String) -> (builder: Self)
        ensures
            builder.wf(),
            builder.cells@.len() == 0,
            builder.rsx.is_none(),
            builder.name == name,
            !builder.in_reactive,
    {
        let builder = ComponentBuilder {
            cells: Vec::new(),
            names: Vec::new(),
            rsx: None,
            name,
            in_reactive: false,
        };
        proof {
            assert(texts_view(builder.names@) =~= cell_names(cells_view(builder.cells@)));
        }
        builder
    }

    fn declare(&mut self, cell: Cell, name: String)
        requires
            old(self).wf(),
            cell@.wf(old(self).cells@.len() as int),
            name@ == cell@.name(),
        ensures
            final(self).wf(),
            cells_view(final(self).cells@) == cells_view(old(self).cells@).push(cell@),
            final(self).rsx == old(self).rsx,
            final(self).name == old(self).name,
            final(self).in_reactive == old(self).in_reactive,
    {
        self.cells.push(cell);
        self.names.push(name);
        proof {
            let before = cells_view(old(self).cells@);
            assert(cells_view(self.cells@) =~= before.push(cell@));
            assert(texts_view(old(self).names@).len() == cell_names(before).len());
            assert(old(self).names@.len() == old(self).cells@.len());
            assert forall|i: int| 0 <= i < self.names@.len() implies texts_view(self.names@)[i]
                == cell_names(cells_view(self.cells@))[i] by {
                if i < old(self).names@.len() {
                    assert(texts_view(old(self).names@)[i] == cell_names(before)[i]);
                }
            }
            assert(texts_view(self.names@) =~= cell_names(cells_view(self.cells@)));
        }
    }

    /// Declares a state cell. It takes the next slot.
    pub fn state(&mut self, name: String, ty: String, expr: String)
        requires
            old(self).wf(),
        ensures
            final(self).wf(),
            cells_view(final(self).cells@) == cells_view(old(self).cells@).push(
                CellView::State(
                    StateView {
                        id: old(self).cells@.len() as usize,
                        name: name@,
                        ty: ty@,
                        expr: expr@,
                        subscribers: Set::empty(),
                    },
                ),
            ),
            final(self).rsx == old(self).rsx,
            final(self).name == old(self).name,
            final(self).in_reactive == old(self).in_reactive,
    {
        let id = self.cells.len();
        let label = name.clone();
        self.declare(Cell::State(State { id, name, ty, expr, subscribers: HashSet::new() }), label);
    }

    /// Declares a property of the component: a state cell under the name
    /// of the property that starts with the value handed in and that the
    /// component's code does not write.
    pub fn prop(&mut self, prop: crate::prop::Prop)
        requires
            old(self).wf(),
        ensures
            final(self).wf(),
            cells_view(final(self).cells@) == cells_view(old(self).cells@).push(
                CellView::State(
                    StateView {
                        id: old(self).cells@.len() as usize,
                        name: prop.name@,
                        ty: prop.ty@,
                        expr: prop.name@,
                        subscribers: Set::empty(),
                    },
                ),
            ),
            final(self).rsx == old(self).rsx,
            final(self).name == old(self).name,
            final(self).in_reactive == old(self).in_reactive,
    {
        let crate::prop::Prop { name, ty, options: _ } = prop;
        let expr = name.clone();
        self.state(name, ty, expr);
    }

    /// Declares a derived cell that code of the component recomputes. It
    /// takes the next slot, which is returned, and subscribes to every cell
    /// declared so far that an identifier of `closure` names. Where no type
    /// is given the value is of the unit type.
    pub fn memo(
        &mut self,
        ty: Option<String>,
        closure: Code,
        capture: bool,
        raw_params: Vec<(String, String)>,
    ) -> (id: usize)
        requires
            old(self).wf(),
        ensures
            final(self).wf(),
            id == old(self).cells@.len(),
            cells_view(final(self).cells@) == cells_view(old(self).cells@).push(
                CellView::Memo(
                    MemoView {
                        id,
                        ty: match ty {
                            Some(ty) => ty@,
                            None => "()"@,
                        },
                        closure: Some(closure@),
                        capture,
                        subscriptions: subscriptions_spec(
                            cell_names(cells_view(old(self).cells@)),
                            closure@.idents,
                        ).to_set(),
                        subscribers: Set::empty(),
                        raw_params: Seq::new(
                            raw_params@.len(),
                            |i: int| (raw_params@[i].0@, raw_params@[i].1@),
                        ),
                        update: UpdaterView::Effect,
                    },
                ),
            ),
            final(self).rsx == old(self).rsx,
            final(self).name == old(self).name,
            final(self).in_reactive == old(self).in_reactive,
    {
        let ty = match ty {
            Some(ty) => ty,
            None => "()".to_owned(),
        };
        let subscribed = subscriptions(&self.names, &closure.idents);
        let id = self.cells.len();
        proof {
            let names = texts_view(self.names@);
            let idents = closure@.idents;
            slots_in_rising(
                visit_idents_spec(names, Seq::empty(), idents, idents.len() as int),
                names.len() as int,
            );
        }
        let memo = Memo {
            id,
            ty,
            closure: Some(closure),
            capture,
            subscriptions: to_set(&subscribed),
            subscribers: HashSet::new(),
            raw_params,
            update: Updater::Effect,
        };
        proof {
            assert(memo@.update.pieces() =~= Seq::empty());
        }
        self.declare(Cell::Memo(memo), memo_ident(id));
        id
    }
}

/// The slots of the cells that the first `k` of `pieces` depend on, in
/// their order.
pub open spec fn piece_slots(pieces: Seq<PieceView>, k: int) -> Seq<usize>
    decreases k,
{
    if k <= 0 {
        Seq::empty()
    } else {
        piece_slots(pieces, k - 1) + pieces[k - 1].reads()
    }
}

/// Whether every cell that one of `pieces` depends on lies below `bound`.
pub open spec fn pieces_below(pieces: Seq<PieceView>, bound: int) -> bool {
    forall|i: int, j: int|
        0 <= i < pieces.len() && 0 <= j < pieces[i].reads().len() ==> (
        #[trigger] pieces[i].reads()[j]) < bound
}

/// The derived cell in slot `id` that carries out `update`: it subscribes
/// to the cells that the pieces of the update read.
pub open spec fn binding_memo(id: usize, update: UpdaterView) -> MemoView {
    MemoView {
        id,
        ty: "String"@,
        closure: None,
        capture: true,
        subscriptions: slots_in(
            piece_slots(update.pieces(), update.pieces().len() as int),
            id as int,
        ).to_set(),
        subscribers: Set::empty(),
        raw_params: seq![("ui"@, "&mut R"@)],
        update,
    }
}

/// `cells`, and after them a derived cell for each of the first `k` of
/// `updates`.
pub open spec fn bound_cells(cells: Seq<CellView>, updates: Seq<UpdaterView>, k: int) -> Seq<
    CellView,
>
    decreases k,
{
    if k <= 0 {
        cells
    } else {
        let before = bound_cells(cells, updates, k - 1);
        before.push(CellView::Memo(binding_memo(before.len() as usize, updates[k - 1])))
    }
}

proof fn piece_slots_hold(pieces: Seq<PieceView>, k: int, at: int, j: int)
    requires
        0 <= at < k <= pieces.len(),
        0 <= j < pieces[at].reads().len(),
    ensures
        piece_slots(pieces, k).contains(pieces[at].reads()[j]),
    decreases k,
{
    let here = piece_slots(pieces, k);
    let before = piece_slots(pieces, k - 1);
    if at == k - 1 {
        assert(here[before.len() + j] == pieces[at].reads()[j]);
    } else {
        piece_slots_hold(pieces, k - 1, at, j);
        let i = choose|i: int| 0 <= i < before.len() && before[i] == pieces[at].reads()[j];
        assert(here[i] == before[i]);
    }
}

fn slots_of(pieces: &Vec<Piece>) -> (slots: Vec<usize>)
    ensures
        slots@ == piece_slots(crate::memo::pieces_view(pieces@), pieces@.len() as int),
{
    let mut slots: Vec<usize> = Vec::new();
    let mut k: usize = 0;
    while k < pieces.len()
        invariant
            k <= pieces@.len(),
            slots@ == piece_slots(crate::memo::pieces_view(pieces@), k as int),
        decreases pieces@.len() - k,
    {
        let ghost before = slots@;
        match &pieces[k] {
            Piece::Literal(_) => {},
            Piece::Cell(slot) | Piece::Debug(slot) => {
                slots.push(*slot);
            },
            Piece::Host { index, source, format_args, reads } => {
                let mut j: usize = 0;
                while j < reads.len()
                    invariant
                        j <= reads@.len(),
                        slots@ == before + reads@.take(j as int),
                    decreases reads@.len() - j,
                {
                    slots.push(reads[j]);
                    proof {
                        assert(reads@.take(j + 1) =~= reads@.take(j as int).push(reads@[j as int]));
                    }
                    j = j + 1;
                }
                proof {
                    assert(reads@.take(reads@.len() as int) =~= reads@);
                }
            },
        }
        proof {
            assert(slots@ =~= before + crate::memo::pieces_view(pieces@)[k as int].reads());
        }
        k = k + 1;
    }
    slots
}

impl ComponentBuilder {
    /// Declares the derived cell that carries out `update`. It takes the
    /// next slot, which is returned, and subscribes to the cells that the
    /// update reads.
    pub fn bind(&mut self, update: Updater) -> (id: usize)
        requires
            old(self).wf(),
            pieces_below(update@.pieces(), old(self).cells@.len() as int),
        ensures
            final(self).wf(),
            id == old(self).cells@.len(),
            cells_view(final(self).cells@) == cells_view(old(self).cells@).push(
                CellView::Memo(binding_memo(id, update@)),
            ),
            final(self).rsx == old(self).rsx,
            final(self).name == old(self).name,
            final(self).in_reactive == old(self).in_reactive,
    {
        let id = self.cells.len();
        let read = match &update {
            Updater::Effect => Vec::new(),
            Updater::Text { root, node, pieces } => slots_of(pieces),
            Updater::Attribute { root, node, key, pieces } => slots_of(pieces),
        };
        let holder = SubscriptionVisitor { states: &self.names, subscribed: read };
        proof {
            assert(self.names@.len() == texts_view(self.names@).len());
            assert(self.names@.len() == id);
            slots_in_rising(holder.subscribed@, id as int);
        }
        let subscribed = holder.into_slots();
        let mut raw_params: Vec<(String, String)> = Vec::new();
        raw_params.push(("ui".to_owned(), "&mut R".to_owned()));
        let memo = Memo {
            id,
            ty: "String".to_owned(),
            closure: None,
            capture: true,
            subscriptions: to_set(&subscribed),
            subscribers: HashSet::new(),
            raw_params,
            update,
        };
        proof {
            let pieces = update@.pieces();
            assert(memo@.raw_params =~= seq![("ui"@, "&mut R"@)]);
            assert(memo@ == binding_memo(id, update@));
            assert forall|i: int, j: int|
                0 <= i < pieces.len() && 0 <= j < pieces[i].reads().len()
                    implies memo@.subscriptions.contains(#[trigger] pieces[i].reads()[j]) by {
                piece_slots_hold(pieces, pieces.len() as int, i, j);
            }
        }
        self.declare(Cell::Memo(memo), memo_ident(id));
        id
    }
}

impl ComponentBuilder {
    /// Ends the collection: every cell gets as its subscribers the cells
    /// that subscribe to it, and the traversal of the markup is planned.
    ///
    /// The build is rejected where the component has no markup, and where
    /// it declares more cells than a mask of type `M` has bits.
    pub fn build<M: BitMask>(self) -> (r: Result<Component, BuildError>)
        requires
            self.wf(),
        ensures
            match r {
                Ok(component) => {
                    &&& self.rsx is Some
                    &&& self.cells@.len() <= M::width()
                    &&& component.wf()
                    &&& component.name == self.name
                    &&& component.rsx == self.rsx->0
                    &&& cells_view(component.cells@) == resolved_cells(cells_view(self.cells@))
                },
                Err(e) => if self.rsx is None {
                    e@ == BuildErrorView::MissingMarkup
                } else {
                    e@ == BuildErrorView::TooManySlots && self.cells@.len() > M::width()
                },
            },
    {
        let ComponentBuilder { cells, names, rsx, name, in_reactive } = self;
        let rsx = match rsx {
            Some(rsx) => rsx,
            None => {
                return Err(BuildError::MissingMarkup);
            },
        };
        if cells.len() > M::bits() as usize {
            return Err(BuildError::TooManySlots);
        }
        let ghost cells0 = cells_view(cells@);
        let mut cells = cells;
        let count = cells.len();
        let mut slot: usize = 0;
        while slot < count
            invariant
                slot <= count,
                count == cells@.len(),
                cells0.len() == count,
                cells_wf(cells0),
                forall|i: int|
                    0 <= i < slot ==> (#[trigger] cells@[i])@ == cells0[i].with_subscribers(
                        subscribers_spec(cells0, i as usize),
                    ),
                forall|i: int| slot <= i < count ==> (#[trigger] cells@[i])@ == cells0[i],
            decreases count - slot,
        {
            let mut found: HashSet<usize> = HashSet::new();
            let mut other: usize = 0;
            proof {
                assert(found@ =~= Set::<usize>::new(
                    |cell: usize| cell < 0 && cells0[cell as int].subscriptions().contains(slot),
                ));
            }
            while other < count
                invariant
                    other <= count,
                    count == cells@.len(),
                    cells0.len() == count,
                    found@ == Set::<usize>::new(
                        |cell: usize|
                            cell < other && cells0[cell as int].subscriptions().contains(slot),
                    ),
                    forall|i: int|
                        0 <= i < count ==> (#[trigger] cells@[i])@.subscriptions()
                            == cells0[i].subscriptions(),
                decreases count - other,
            {
                let subscribes = match &cells[other] {
                    Cell::State(_) => false,
                    Cell::Memo(memo) => memo.subscriptions.contains(&slot),
                };
                proof {
                    assert(cells@[other as int]@.subscriptions()
                        == cells0[other as int].subscriptions());
                }
                let ghost before = found@;
                if subscribes {
                    found.insert(other);
                }
                proof {
                    assert(found@ =~= Set::<usize>::new(
                        |cell: usize|
                            cell < other + 1 && cells0[cell as int].subscriptions().contains(
                                slot,
                            ),
                    ));
                }
                other = other + 1;
            }
            proof {
                assert(found@ =~= subscribers_spec(cells0, slot));
            }
            match &mut cells[slot] {
                Cell::State(state) => {
                    state.subscribers = found;
                },
                Cell::Memo(memo) => {
                    memo.subscribers = found;
                },
            }
            slot = slot + 1;
        }
        let plan = update_dyn_nodes(&rsx.roots);
        proof {
            let done = cells_view(cells@);
            assert(done =~= resolved_cells(cells0));
            assert forall|i: int| 0 <= i < done.len() implies (#[trigger] done[i]).wf(i) by {
                assert(cells0[i].wf(i));
            }
            assert forall|i: int| 0 <= i < done.len() implies #[trigger] subscribers_spec(
                done,
                i as usize,
            ) == subscribers_spec(cells0, i as usize) by {
                assert forall|cell: usize| cell < done.len() implies done[cell as int].subscriptions()
                    == cells0[cell as int].subscriptions() by {}
                assert(subscribers_spec(done, i as usize) =~= subscribers_spec(cells0, i as usize));
            }
            assert(done =~= resolved_cells(done));
        }
        Ok(Component { name, cells, rsx, plan })
    }
}

/// The slots of a vector as a set.
pub fn to_set(slots: &Vec<usize>) -> (set: HashSet<usize>)
    ensures
        set@ == slots@.to_set(),
{
    let mut set: HashSet<usize> = HashSet::new();
    let mut i: usize = 0;
    proof {
        assert(set@ =~= slots@.take(0).to_set());
    }
    while i < slots.len()
        invariant
            i <= slots@.len(),
            set@ == slots@.take(i as int).to_set(),
        decreases slots@.len() - i,
    {
        set.insert(slots[i]);
        proof {
            let more = slots@.take(i + 1);
            let fewer = slots@.take(i as int);
            assert(more =~= fewer.push(slots@[i as int]));
            assert forall|slot: usize| set@.contains(slot) == more.to_set().contains(slot) by {
                if fewer.contains(slot) {
                    let at = choose|at: int| 0 <= at < fewer.len() && fewer[at] == slot;
                    assert(more[at] == slot);
                }
                if more.contains(slot) {
                    let at = choose|at: int| 0 <= at < more.len() && more[at] == slot;
                    if at < i {
                        assert(fewer[at] == slot);
                    }
                }
                if slot == slots@[i as int] {
                    assert(more[i as int] == slot);
                }
            }
            assert(set@ =~= more.to_set());
        }
        i = i + 1;
    }
    proof {
        assert(slots@.take(slots@.len() as int) =~= slots@);
    }
    set
}

/// What the body of a component holds, as far as the collector looks at
/// it. `inner` is what stands inside a declaration or a block.
#[derive(Debug)]
pub enum Item {
    /// A state cell: `let name: Rx<ty> = init;`.
    Local { name: String, ty: String, init: String, inner: Vec<Item> },
    /// A reactive block: `rx(closure)`.
    Call { closure: Code, capture: bool, inner: Vec<Item> },
    /// The markup: `rsx! { ... }`.
    Macro { elements: Vec<Node> },
    /// Anything else that holds items.
    Block { inner: Vec<Item> },
}

/// What a [`ComponentBuilder`] has gathered.
pub struct BuilderView {
    pub cells: Seq<CellView>,
    pub rsx: Option<ElementsView>,
    pub in_reactive: bool,
}

impl View for ComponentBuilder {
    type V = BuilderView;

    open spec fn view(&self) -> BuilderView {
        BuilderView {
            cells: cells_view(self.cells@),
            rsx: match self.rsx {
                Some(rsx) => Some(rsx@),
                None => None,
            },
            in_reactive: self.in_reactive,
        }
    }
}

/// The state cell that a declaration makes in slot `id`.
pub open spec fn declared_state(id: usize, name: Seq<char>, ty: Seq<char>, init: Seq<char>)
    -> CellView {
    CellView::State(StateView { id, name, ty, expr: init, subscribers: Set::empty() })
}

/// The derived cell that a reactive block makes in slot `id`, where
/// `names` are the names of the cells declared before it.
pub open spec fn declared_memo(
    id: usize,
    names: Seq<Seq<char>>,
    closure: CodeView,
    capture: bool,
) -> CellView {
    CellView::Memo(
        MemoView {
            id,
            ty: "()"@,
            closure: Some(closure),
            capture,
            subscriptions: subscriptions_spec(names, closure.idents).to_set(),
            subscribers: Set::empty(),
            raw_params: Seq::empty(),
            update: UpdaterView::Effect,
        },
    )
}

/// What the builder has gathered after the markup `elements`: the markup
/// is built, its listeners are completed, and every update of a dynamic
/// node is a new derived cell.
pub open spec fn visit_macro_spec(builder: BuilderView, elements: Seq<Node>) -> Result<
    BuilderView,
    BuildErrorView,
> {
    match roots_spec(elements, elements.len() as int) {
        Err(e) => Err(e),
        Ok((roots, creation, vars)) => {
            let names = cell_names(builder.cells);
            let roots = completed_roots(roots, names);
            match roots_updates(roots, names, roots.len() as int) {
                Err(e) => Err(e),
                Ok(updates) => Ok(
                    BuilderView {
                        cells: bound_cells(builder.cells, updates, updates.len() as int),
                        rsx: Some(
                            ElementsView {
                                roots,
                                creation,
                                vars,
                                memo_ids: Seq::new(
                                    updates.len(),
                                    |i: int| (builder.cells.len() + i) as usize,
                                ),
                            },
                        ),
                        in_reactive: builder.in_reactive,
                    },
                ),
            }
        },
    }
}

/// What the builder has gathered after `item`.
///
/// A state cell or a reactive block that stands inside another is an
/// error: reactive declarations do not nest.
pub open spec fn visit_item_spec(builder: BuilderView, item: Item) -> Result<
    BuilderView,
    BuildErrorView,
>
    decreases item, 0int,
{
    match item {
        Item::Local { name, ty, init, inner } => if builder.in_reactive {
            Err(BuildErrorView::NestedReactive)
        } else {
            let declared = BuilderView {
                cells: builder.cells.push(
                    declared_state(builder.cells.len() as usize, name@, ty@, init@),
                ),
                in_reactive: true,
                ..builder
            };
            match visit_items_spec(declared, inner@, inner@.len() as int) {
                Err(e) => Err(e),
                Ok(done) => Ok(BuilderView { in_reactive: false, ..done }),
            }
        },
        Item::Call { closure, capture, inner } => if builder.in_reactive {
            Err(BuildErrorView::NestedReactive)
        } else {
            let declared = BuilderView {
                cells: builder.cells.push(
                    declared_memo(
                        builder.cells.len() as usize,
                        cell_names(builder.cells),
                        closure@,
                        capture,
                    ),
                ),
                in_reactive: true,
                ..builder
            };
            match visit_items_spec(declared, inner@, inner@.len() as int) {
                Err(e) => Err(e),
                Ok(done) => Ok(BuilderView { in_reactive: false, ..done }),
            }
        },
        Item::Macro { elements } => visit_macro_spec(builder, elements@),
        Item::Block { inner } => visit_items_spec(builder, inner@, inner@.len() as int),
    }
}

/// What the builder has gathered after the first `k` of `items`.
pub open spec fn visit_items_spec(builder: BuilderView, items: Seq<Item>, k: int) -> Result<
    BuilderView,
    BuildErrorView,
>
    decreases items, k,
{
    if k <= 0 || k > items.len() {
        Ok(builder)
    } else {
        match visit_items_spec(builder, items, k - 1) {
            Err(e) => Err(e),
            Ok(before) => visit_item_spec(before, items[k - 1]),
        }
    }
}

proof fn visit_items_fail(builder: BuilderView, items: Seq<Item>, at: int, upto: int)
    requires
        0 < at <= upto <= items.len(),
        visit_items_spec(builder, items, at) is Err,
    ensures
        visit_items_spec(builder, items, upto) == visit_items_spec(builder, items, at),
    decreases upto - at,
{
    if at < upto {
        visit_items_fail(builder, items, at, upto - 1);
    }
}

impl ComponentBuilder {
    /// Takes in the markup of the component.
    pub fn visit_macro(&mut self, elements: &Vec<Node>) -> (r: Result<(), BuildError>)
        requires
            old(self).wf(),
        ensures
            final(self).name == old(self).name,
            match r {
                Ok(()) => final(self).wf() && visit_macro_spec(old(self)@, elements@) == Ok::<
                    BuilderView,
                    BuildErrorView,
                >(final(self)@),
                Err(e) => visit_macro_spec(old(self)@, elements@) == Err::<
                    BuilderView,
                    BuildErrorView,
                >(e@),
            },
    {
        let mut rsx = match Elements::new(elements) {
            Ok(rsx) => rsx,
            Err(e) => {
                return Err(e);
            },
        };
        let ghost built = rsx@;
        let ghost roots_built = rsx.roots@;
        let ghost names = cell_names(old(self)@.cells);
        proof {
            assert(rsx.memo_ids@ =~= Seq::<usize>::empty());
            assert(names == texts_view(self.names@));
            assert(roots_spec(elements@, elements@.len() as int) == Ok::<
                (Seq<crate::rsx::RootView>, Seq<crate::rsx::CreateOpView>, nat),
                BuildErrorView,
            >((built.roots, built.creation, built.vars)));
        }
        match rsx.construct_memos(self) {
            Err(e) => {
                proof {
                    assert(rsx@.roots == completed_roots(built.roots, names));
                    assert(rsx@.roots.len() == built.roots.len());
                }
                Err(e)
            },
            Ok(()) => {
                proof {
                    assert(rsx@.roots == completed_roots(built.roots, names));
                    assert(rsx@.roots.len() == built.roots.len());
                    let updates = roots_updates(rsx@.roots, names, rsx@.roots.len() as int)->Ok_0;
                    assert(rsx.memo_ids@ =~= Seq::new(
                        updates.len(),
                        |i: int| (old(self)@.cells.len() + i) as usize,
                    ));
                    assert(rsx@.creation == built.creation);
                    assert(rsx@.vars == built.vars);
                    assert(rsx.inv());
                }
                let ghost updates = roots_updates(rsx@.roots, names, rsx@.roots.len() as int)->Ok_0;
                let ghost roots_before = built.roots;
                self.rsx = Some(rsx);
                proof {
                    assert(self.rsx->0.roots@.len() == roots_before.len());
                    assert forall|i: int| 0 <= i < self.rsx->0.roots@.len() implies (
                    #[trigger] self.rsx->0.roots@[i]).wf() && self.rsx->0.roots@[i].ordered() by {
                        assert(roots_built[i].wf());
                        assert(roots_built[i].ordered());
                    }
                }
                Ok(())
            },
        }
    }

    /// Takes in one item of the component's body.
    pub fn visit_item(&mut self, item: &Item) -> (r: Result<(), BuildError>)
        requires
            old(self).wf(),
        ensures
            final(self).name == old(self).name,
            match r {
                Ok(()) => final(self).wf() && visit_item_spec(old(self)@, *item) == Ok::<
                    BuilderView,
                    BuildErrorView,
                >(final(self)@),
                Err(e) => visit_item_spec(old(self)@, *item) == Err::<BuilderView, BuildErrorView>(
                    e@,
                ),
            },
        decreases item, 0int,
    {
        match item {
            Item::Local { name, ty, init, inner } => {
                if self.in_reactive {
                    return Err(BuildError::NestedReactive);
                }
                self.state(name.clone(), ty.clone(), init.clone());
                self.in_reactive = true;
                match self.visit_items(inner) {
                    Err(e) => Err(e),
                    Ok(()) => {
                        self.in_reactive = false;
                        Ok(())
                    },
                }
            },
            Item::Call { closure, capture, inner } => {
                if self.in_reactive {
                    return Err(BuildError::NestedReactive);
                }
                let raw_params: Vec<(String, String)> = Vec::new();
                proof {
                    assert(Seq::new(
                        raw_params@.len(),
                        |i: int| (raw_params@[i].0@, raw_params@[i].1@),
                    ) =~= Seq::<(Seq<char>, Seq<char>)>::empty());
                }
                self.memo(None, closure.duplicate(), *capture, raw_params);
                self.in_reactive = true;
                match self.visit_items(inner) {
                    Err(e) => Err(e),
                    Ok(()) => {
                        self.in_reactive = false;
                        Ok(())
                    },
                }
            },
            Item::Macro { elements } => self.visit_macro(elements),
            Item::Block { inner } => self.visit_items(inner),
        }
    }

    /// Takes in the items of a body, in their order.
    pub fn visit_items(&mut self, items: &Vec<Item>) -> (r: Result<(), BuildError>)
        requires
            old(self).wf(),
        ensures
            final(self).name == old(self).name,
            match r {
                Ok(()) => final(self).wf() && visit_items_spec(
                    old(self)@,
                    items@,
                    items@.len() as int,
                ) == Ok::<BuilderView, BuildErrorView>(final(self)@),
                Err(e) => visit_items_spec(old(self)@, items@, items@.len() as int) == Err::<
                    BuilderView,
                    BuildErrorView,
                >(e@),
            },
        decreases items, 1int,
    {
        let mut k: usize = 0;
        while k < items.len()
            invariant
                k <= items@.len(),
                self.wf(),
                self.name == old(self).name,
                visit_items_spec(old(self)@, items@, k as int) == Ok::<BuilderView, BuildErrorView>(
                    self@,
                ),
            decreases items@.len() - k,
        {
            match self.visit_item(&items[k]) {
                Ok(()) => {},
                Err(e) => {
                    proof {
                        assert(visit_items_spec(old(self)@, items@, k + 1) == Err::<
                            BuilderView,
                            BuildErrorView,
                        >(e@));
                        visit_items_fail(old(self)@, items@, k + 1, items@.len() as int);
                    }
                    return Err(e);
                },
            }
            k = k + 1;
        }
        Ok(())
    }
}

} // verus!
