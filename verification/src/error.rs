//! Why a component cannot be built.

use vstd::prelude::*;
use crate::format::{FormatError, FormatErrorView};

verus! {

/// The kinds of markup node.
#[derive(Clone, Copy, Debug, PartialEq, Eq, Structural)]
pub enum NodeKind {
    Element,
    Attribute,
    Text,
    Comment,
    Doctype,
    Block,
    Fragment,
}

/// Why a component cannot be built. Each of these stops the build.
#[derive(Debug)]
pub enum BuildError {
    /// A reactive block or a state cell is declared inside a reactive block.
    NestedReactive,
    /// The component declares more reactive slots than the tracker's masks
    /// are wide.
    TooManySlots,
    /// The component has no markup.
    MissingMarkup,
    /// A markup node of a kind that cannot stand where it was found.
    Unsupported(NodeKind),
    /// Among the attributes of an element stands a node that is none.
    AttributeExpected,
    /// An attribute without a value.
    MissingValue,
    /// A listener whose value is a string literal.
    ListenerExpected,
    /// A listener for an event that does not exist; the listener's key is
    /// carried here.
    UnknownEvent(String),
    /// A text or an attribute value that is no formatted text.
    Format(FormatError),
    /// The markup has more nodes than can be numbered.
    TooManyNodes,
}

/// What a [`BuildError`] holds.
pub enum BuildErrorView {
    NestedReactive,
    TooManySlots,
    MissingMarkup,
    Unsupported(NodeKind),
    AttributeExpected,
    MissingValue,
    ListenerExpected,
    UnknownEvent(Seq<char>),
    Format(FormatErrorView),
    TooManyNodes,
}

impl View for BuildError {
    type V = BuildErrorView;

    open spec fn view(&self) -> BuildErrorView {
        match self {
            BuildError::NestedReactive => BuildErrorView::NestedReactive,
            BuildError::TooManySlots => BuildErrorView::TooManySlots,
            BuildError::MissingMarkup => BuildErrorView::MissingMarkup,
            BuildError::Unsupported(kind) => BuildErrorView::Unsupported(*kind),
            BuildError::AttributeExpected => BuildErrorView::AttributeExpected,
            BuildError::MissingValue => BuildErrorView::MissingValue,
            BuildError::ListenerExpected => BuildErrorView::ListenerExpected,
            BuildError::UnknownEvent(key) => BuildErrorView::UnknownEvent(key@),
            BuildError::Format(e) => BuildErrorView::Format(e@),
            BuildError::TooManyNodes => BuildErrorView::TooManyNodes,
        }
    }
}

} // verus!
