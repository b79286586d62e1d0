//! State cells as a component declares them.

use vstd::prelude::*;
use std::collections::HashSet;
use crate::tracking::DirtyTrack;

verus! {

/// A state cell of a component: a named value that the component's code
/// mutates directly.
#[derive(Debug)]
pub struct State {
    /// The cell's reactive slot.
    pub id: usize,
    pub name: String,
    /// The source of the cell's type.
    pub ty: String,
    /// The source of the expression that gives the first value.
    pub expr: String,
    /// The slots of the derived cells that subscribe to this cell.
    pub subscribers: HashSet<usize>,
}

/// What a [`State`] holds.
pub struct StateView {
    pub id: usize,
    pub name: Seq<char>,
    pub ty: Seq<char>,
    pub expr: Seq<char>,
    pub subscribers: Set<usize>,
}

impl View for State {
    type V = StateView;

    open spec fn view(&self) -> StateView {
        StateView {
            id: self.id,
            name: self.name@,
            ty: self.ty@,
            expr: self.expr@,
            subscribers: self.subscribers@,
        }
    }
}

impl State {
    /// The declaration of the cell's field: its name, a colon and its type.
    pub fn type_def(&self) -> (def: String)
        ensures
            def@ == self.name@ + ": "@ + self.ty@,
    {
        let mut def = self.name.clone();
        def.append(": ");
        def.append(self.ty.as_str());
        def
    }

    /// The handle on the cell's slot, where the slot fits the width of a
    /// mask.
    pub fn track(&self) -> (handle: Option<DirtyTrack>)
        ensures
            handle == if self.id <= u8::MAX {
                Some(DirtyTrack { num: self.id as u8 })
            } else {
                None
            },
    {
        if self.id <= 255 {
            Some(DirtyTrack { num: self.id as u8 })
        } else {
            None
        }
    }

    /// The type of the wrapper that gives access to the cell: `RwTrack<` the type `>`.
    pub fn tracked_type(&self) -> (ty: String)
        ensures
            ty@ == "RwTrack<"@ + self.ty@ + ">"@,
    {
        let mut ty = "RwTrack<".to_owned();
        ty.append(self.ty.as_str());
        ty.append(">");
        ty
    }

    /// The name of the procedure that updates the cell's subscribers:
    /// `update_` and the cell's name.
    pub fn update_fn(&self) -> (name: String)
        ensures
            name@ == "update_"@ + self.name@,
    {
        let mut name = "update_".to_owned();
        name.append(self.name.as_str());
        name
    }
}

} // verus!
