//! The loop of the markup: `<for pattern in {iterator}> ... </for>`.

use vstd::prelude::*;
use crate::rsx::{NameKind, Node, NodeElement};

verus! {

/// A loop read off an element: the element's name, the pattern, the word
/// `in`, the source of the iterator, and the nodes of the body.
#[derive(Debug)]
pub struct Loop {
    pub for_token: String,
    pub pat: String,
    pub in_token: String,
    pub iterator: String,
    pub children: Vec<Node>,
}

/// Whether `node` is an attribute that is a bare path: its key is written
/// as a path, and it has no value.
pub open spec fn is_bare_name(node: Node) -> bool {
    node matches Node::Attribute(attribute) && attribute.value.is_none() && attribute.kind
        == NameKind::Path
}

/// Whether `node` is an element written as a loop: it has three
/// attributes, which are a bare path, the bare path `in`, and a block.
pub open spec fn is_loop(node: Node) -> bool {
    match node {
        Node::Element(element) => {
            &&& element.attributes@.len() == 3
            &&& is_bare_name(element.attributes@[0])
            &&& is_bare_name(element.attributes@[1])
            &&& element.attributes@[1]->Attribute_0.key@ == "in"@
            &&& element.attributes@[2] is Block
        },
        _ => false,
    }
}

impl Loop {
    /// Reads a loop off `value`. This succeeds exactly on an element that
    /// is written as a loop; its body goes into the loop as it is.
    pub fn try_from(value: Node) -> (r: Result<Loop, ()>)
        ensures
            r.is_ok() == is_loop(value),
            r matches Ok(found) ==> {
                let element = value->Element_0;
                &&& found.for_token == element.name
                &&& found.pat@ == element.attributes@[0]->Attribute_0.key@
                &&& found.in_token@ == "in"@
                &&& found.iterator@ == element.attributes@[2]->Block_0@
                &&& found.children == element.children
            },
    {
        let element = match value {
            Node::Element(element) => element,
            _ => {
                return Err(());
            },
        };
        let NodeElement { name, attributes, children } = element;
        if attributes.len() != 3 {
            return Err(());
        }
        let pat = match &attributes[0] {
            Node::Attribute(attribute) => {
                if attribute.value.is_some() || attribute.kind != NameKind::Path {
                    return Err(());
                }
                attribute.key.clone()
            },
            _ => {
                return Err(());
            },
        };
        let in_token = match &attributes[1] {
            Node::Attribute(attribute) => {
                if attribute.value.is_some() || attribute.kind != NameKind::Path {
                    return Err(());
                }
                if !crate::text::same_text(attribute.key.as_str(), "in") {
                    return Err(());
                }
                attribute.key.clone()
            },
            _ => {
                return Err(());
            },
        };
        let iterator = match &attributes[2] {
            Node::Block(source) => source.clone(),
            _ => {
                return Err(());
            },
        };
        Ok(Loop { for_token: name, pat, in_token, iterator, children })
    }
}

} // verus!
