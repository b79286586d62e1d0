//! The properties that a component is created with.

use vstd::prelude::*;

verus! {

/// An option of a property. There is none yet: the type offers no way to
/// make a value of it, so the options of every property are empty.
#[derive(Debug)]
pub struct PropOption {
    nothing: (),
}

/// A property of a component: a value that whoever creates the component
/// hands in.
#[derive(Debug)]
pub struct Prop {
    pub name: String,
    /// The source of the property's type.
    pub ty: String,
    /// The options of the property.
    pub options: Vec<PropOption>,
}

impl Prop {
    /// The property called `name` of the type `ty`.
    pub fn new(name: String, ty: String) -> (prop: Self)
        ensures
            prop.name == name,
            prop.ty == ty,
            prop.options@.len() == 0,
    {
        Prop { name, ty, options: Vec::new() }
    }
}

} // verus!
