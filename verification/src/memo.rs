//! Derived cells as a component declares them.

use vstd::prelude::*;
use std::collections::HashSet;
use crate::decimal::{decimal, write_unsigned};
use crate::expr::{Code, CodeView};

verus! {

/// One piece of a text that is put together anew at each update: a fixed
/// text; the value of the cell in a slot, shown as it is displayed or as it
/// is shown for debugging; or a text that the host supplies.
#[derive(Debug)]
pub enum Piece {
    Literal(String),
    Cell(usize),
    Debug(usize),
    /// The value of the expression `source`, formatted by `format_args`.
    /// The engine does not evaluate it: the host supplies its text, as the
    /// text number `index` of the update that the piece belongs to.
    /// `reads` holds the slots of the cells that the expression names, in
    /// rising order.
    Host { index: usize, source: String, format_args: String, reads: Vec<usize> },
}

/// What a [`Piece`] holds.
pub enum PieceView {
    Literal(Seq<char>),
    Cell(usize),
    Debug(usize),
    Host { index: usize, source: Seq<char>, format_args: Seq<char>, reads: Seq<usize> },
}

impl PieceView {
    /// The slots of the cells that the piece depends on.
    pub open spec fn reads(self) -> Seq<usize> {
        match self {
            PieceView::Literal(_) => Seq::empty(),
            PieceView::Cell(slot) | PieceView::Debug(slot) => seq![slot],
            PieceView::Host { index, source, format_args, reads } => reads,
        }
    }
}

impl View for Piece {
    type V = PieceView;

    open spec fn view(&self) -> PieceView {
        match self {
            Piece::Literal(text) => PieceView::Literal(text@),
            Piece::Cell(slot) => PieceView::Cell(*slot),
            Piece::Debug(slot) => PieceView::Debug(*slot),
            Piece::Host { index, source, format_args, reads } => PieceView::Host {
                index: *index,
                source: source@,
                format_args: format_args@,
                reads: reads@,
            },
        }
    }
}

/// The pieces of a vector, each by its view.
pub open spec fn pieces_view(pieces: Seq<Piece>) -> Seq<PieceView> {
    Seq::new(pieces.len(), |i: int| pieces[i]@)
}

/// How a derived cell is brought up to date.
#[derive(Debug)]
pub enum Updater {
    /// By code of the component, which the engine does not run: it reports
    /// that the cell is due. The cell's value is the unit value.
    Effect,
    /// The text of dynamic node `node` of root `root` is set to the pieces
    /// put together, which is also the cell's value.
    Text { root: usize, node: usize, pieces: Vec<Piece> },
    /// The attribute `key` of dynamic node `node` of root `root` is set to
    /// the pieces put together, which is also the cell's value.
    Attribute { root: usize, node: usize, key: String, pieces: Vec<Piece> },
}

/// What an [`Updater`] holds.
pub enum UpdaterView {
    Effect,
    Text { root: usize, node: usize, pieces: Seq<PieceView> },
    Attribute { root: usize, node: usize, key: Seq<char>, pieces: Seq<PieceView> },
}

impl View for Updater {
    type V = UpdaterView;

    open spec fn view(&self) -> UpdaterView {
        match self {
            Updater::Effect => UpdaterView::Effect,
            Updater::Text { root, node, pieces } => UpdaterView::Text {
                root: *root,
                node: *node,
                pieces: pieces_view(pieces@),
            },
            Updater::Attribute { root, node, key, pieces } => UpdaterView::Attribute {
                root: *root,
                node: *node,
                key: key@,
                pieces: pieces_view(pieces@),
            },
        }
    }
}

impl UpdaterView {
    /// The pieces that the update puts together; none for an effect.
    pub open spec fn pieces(self) -> Seq<PieceView> {
        match self {
            UpdaterView::Effect => Seq::empty(),
            UpdaterView::Text { root, node, pieces } => pieces,
            UpdaterView::Attribute { root, node, key, pieces } => pieces,
        }
    }
}

/// A derived cell of a component: a value that is recomputed when a cell it
/// subscribes to changes. The update of a dynamic node is one, too.
#[derive(Debug)]
pub struct Memo {
    /// The cell's reactive slot.
    pub id: usize,
    /// The source of the type of the value.
    pub ty: String,
    /// The source of the expression that recomputes the value; none for
    /// the update of a dynamic node, which the engine writes itself.
    pub closure: Option<Code>,
    /// Whether the closure takes what it captures by value.
    pub capture: bool,
    /// The slots of the cells that the expression names. Each is a slot
    /// declared before this one.
    pub subscriptions: HashSet<usize>,
    /// The slots of the derived cells that subscribe to this cell.
    pub subscribers: HashSet<usize>,
    /// Further parameters of the closure, each with its name and its type.
    pub raw_params: Vec<(String, String)>,
    /// How the cell is brought up to date.
    pub update: Updater,
}

/// What a [`Memo`] holds.
pub struct MemoView {
    pub id: usize,
    pub ty: Seq<char>,
    pub closure: Option<CodeView>,
    pub capture: bool,
    pub subscriptions: Set<usize>,
    pub subscribers: Set<usize>,
    pub raw_params: Seq<(Seq<char>, Seq<char>)>,
    pub update: UpdaterView,
}

impl View for Memo {
    type V = MemoView;

    open spec fn view(&self) -> MemoView {
        MemoView {
            id: self.id,
            ty: self.ty@,
            closure: match self.closure {
                Some(source) => Some(source@),
                None => None,
            },
            capture: self.capture,
            subscriptions: self.subscriptions@,
            subscribers: self.subscribers@,
            raw_params: Seq::new(
                self.raw_params@.len(),
                |i: int| (self.raw_params@[i].0@, self.raw_params@[i].1@),
            ),
            update: self.update@,
        }
    }
}

/// The name of the derived cell in slot `id`: `memo_` and the slot in
/// decimal.
pub open spec fn memo_name(id: usize) -> Seq<char> {
    "memo_"@ + decimal(id as nat)
}

/// The name of the derived cell in slot `id`.
pub fn memo_ident(id: usize) -> (name: String)
    ensures
        name@ == memo_name(id),
{
    let mut name = "memo_".to_owned();
    write_unsigned(id as u64, &mut name);
    name
}

/// Whether `slots` rise strictly and lie below `bound`.
pub open spec fn rising_below(slots: Seq<usize>, bound: int) -> bool {
    &&& forall|i: int| 0 <= i < slots.len() ==> (#[trigger] slots[i]) < bound
    &&& forall|i: int, j: int| 0 <= i < j < slots.len() ==> slots[i] < slots[j]
}

/// Whether every slot in `slots` lies below `bound`.
pub open spec fn below(slots: Set<usize>, bound: int) -> bool {
    forall|slot: usize| slots.contains(slot) ==> slot < bound
}

impl MemoView {
    /// The cell stands in slot `slot` and looks back only: the cells it
    /// subscribes to, and the cells whose values its update reads, are
    /// declared before it; and it subscribes to every cell that a piece of
    /// its update depends on.
    pub open spec fn wf(self, slot: int) -> bool {
        &&& self.id == slot
        &&& below(self.subscriptions, slot)
        &&& forall|i: int, j: int|
            0 <= i < self.update.pieces().len() && 0 <= j < self.update.pieces()[i].reads().len()
                ==> self.subscriptions.contains(#[trigger] self.update.pieces()[i].reads()[j])
    }
}

impl Memo {
    /// The name of the cell: `memo_` and its slot in decimal.
    pub fn ident(&self) -> (name: String)
        ensures
            name@ == memo_name(self.id),
    {
        memo_ident(self.id)
    }

    /// Whether the cell is computed once and never again: it subscribes to
    /// nothing.
    pub fn runs_once(&self) -> (once: bool)
        ensures
            once == (self.subscriptions@.len() == 0),
    {
        self.subscriptions.len() == 0
    }
}

} // verus!
