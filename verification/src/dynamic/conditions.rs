//! The condition of the markup: `<if {condition}> ... </if>`.

use vstd::prelude::*;
use crate::error::{BuildError, BuildErrorView, NodeKind};
use crate::rsx::Node;

verus! {

/// A condition read off markup: the source of the condition, the nodes that
/// stand where it holds, and the nodes that stand where it does not.
#[derive(Debug)]
pub struct Condition {
    pub if_token: String,
    pub condition: String,
    pub body: Vec<Node>,
    pub else_token: Option<String>,
    pub else_body: Option<Vec<Node>>,
}

/// Whether `nodes` begin with an element called `if` whose one attribute
/// is a block: a condition as it is written.
pub open spec fn begins_with_condition(nodes: Seq<Node>) -> bool {
    nodes.len() > 0 && match nodes[0] {
        Node::Element(element) => {
            &&& element.name@ == "if"@
            &&& element.attributes@.len() == 1
            &&& element.attributes@[0] is Block
        },
        _ => false,
    }
}

impl Condition {
    /// Reads a condition off the beginning of `nodes`. Conditions cannot be
    /// built: where the nodes begin with one the build fails, and where
    /// they do not there is none.
    pub fn parse_from(nodes: &Vec<Node>) -> (r: Result<Option<Condition>, BuildError>)
        ensures
            match r {
                Ok(found) => found.is_none() && !begins_with_condition(nodes@),
                Err(e) => e@ == BuildErrorView::Unsupported(NodeKind::Element)
                    && begins_with_condition(nodes@),
            },
    {
        if nodes.len() == 0 {
            return Ok(None);
        }
        match &nodes[0] {
            Node::Element(element) => {
                if !crate::text::same_text(element.name.as_str(), "if") {
                    return Ok(None);
                }
                if element.attributes.len() != 1 {
                    return Ok(None);
                }
                match &element.attributes[0] {
                    Node::Block(_) => Err(BuildError::Unsupported(NodeKind::Element)),
                    _ => Ok(None),
                }
            },
            _ => Ok(None),
        }
    }
}

} // verus!
