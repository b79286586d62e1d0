//! Markup, and the template that is built from it.
//!
//! The builder walks the markup once, depth first. For every node it emits
//! the steps that create it in the cached template; for every node that an
//! instance must reach again (one with a computed attribute or text, one
//! with a listener, and every root) it records a dynamic node with the path
//! that leads to it.

use vstd::prelude::*;
use slotmap::{DefaultKey, Key, SlotMap};
use crate::decimal::{decimal, write_unsigned};
use crate::error::{BuildError, BuildErrorView, NodeKind};
use crate::component::cells_view;
use crate::component_visitor::{bound_cells, ComponentBuilder};
use crate::expr::{copy_lists, copy_texts, lists_view, texts_view, Code, CodeView};
use crate::events::{find_event, known_event};
use crate::format::{
    any_formatted, checked, parse_spec, result_view, split_text, FormatError, FormatErrorView,
    FormattedSegment, FormattedText, FormattedTextView, Segment,
    SegmentView,
};
use crate::memo::{Updater, UpdaterView};
use crate::node::{
    completed, update_spec, updaters_view, updates_below, DynElement, DynText, DynamicAttribute,
    DynamicAttributeView, DynamicNode, DynamicNodeType, DynamicNodeTypeView, DynamicNodeView,
    Listener, ListenerView, TraverseOperation,
};
use crate::text::{has_prefix, starts_with, tail};

verus! {

/// A string literal of the markup, with what the reader of its expressions
/// found: for each segment of the text, by its position, whether its
/// expression parsed, and the identifiers that occur in it.
#[derive(Debug)]
pub struct Quoted {
    pub text: String,
    pub parsed: Vec<bool>,
    pub idents: Vec<Vec<String>>,
}

impl Quoted {
    /// The formatted text that the literal stands for, or the reason why
    /// it stands for none.
    pub open spec fn text_spec(&self) -> Result<FormattedTextView, FormatErrorView> {
        parse_spec(self.text@, self.parsed@, lists_view(self.idents@))
    }

    /// The literal `text`, each of whose formatted segments is checked for
    /// an expression, where `idents` holds for each segment the
    /// identifiers of its expression.
    pub fn new(text: String, idents: Vec<Vec<String>>) -> (quoted: Self)
        ensures
            quoted.text == text,
            quoted.idents == idents,
            checked(split_text(text@).0, quoted.parsed@),
    {
        let (segments, _ending) = FormattedText::split(text.as_str());
        let parsed = FormattedText::check(&segments);
        Quoted { text, parsed, idents }
    }

    /// The formatted text that the literal stands for.
    pub fn formatted(&self) -> (r: Result<FormattedText, FormatError>)
        ensures
            result_view(r) == self.text_spec(),
    {
        let (segments, ending) = FormattedText::split(self.text.as_str());
        FormattedText::assemble(segments, ending, &self.parsed, copy_lists(&self.idents))
    }
}

/// The value of an attribute or of a text node: a string literal, or any
/// other expression.
#[derive(Debug)]
pub enum NodeValue {
    Literal(Quoted),
    Expression(Code),
}

/// How a name of the markup is written: as a path (`div`, `foo::bar`), as
/// identifiers joined by punctuation (`data-foo`), or as a block of code.
#[derive(Clone, Copy, Debug, PartialEq, Eq, Structural)]
pub enum NameKind {
    Path,
    Punctuated,
    Block,
}

/// An attribute of an element: its key as it reads, how the key is
/// written, and its value.
#[derive(Debug)]
pub struct NodeAttribute {
    pub key: String,
    pub kind: NameKind,
    pub value: Option<NodeValue>,
}

/// A text node.
#[derive(Debug)]
pub struct NodeText {
    pub value: NodeValue,
}

/// An element with its attributes and children.
#[derive(Debug)]
pub struct NodeElement {
    pub name: String,
    pub attributes: Vec<Node>,
    pub children: Vec<Node>,
}

/// A node of the markup tree.
#[derive(Debug)]
pub enum Node {
    Element(NodeElement),
    Attribute(NodeAttribute),
    Text(NodeText),
    Comment(String),
    Doctype(String),
    Block(String),
    Fragment(Vec<Node>),
}

impl Node {
    /// The kind of the node.
    pub open spec fn kind_spec(&self) -> NodeKind {
        match self {
            Node::Element(_) => NodeKind::Element,
            Node::Attribute(_) => NodeKind::Attribute,
            Node::Text(_) => NodeKind::Text,
            Node::Comment(_) => NodeKind::Comment,
            Node::Doctype(_) => NodeKind::Doctype,
            Node::Block(_) => NodeKind::Block,
            Node::Fragment(_) => NodeKind::Fragment,
        }
    }

    /// The kind of the node.
    pub fn kind(&self) -> (kind: NodeKind)
        ensures
            kind == self.kind_spec(),
    {
        match self {
            Node::Element(_) => NodeKind::Element,
            Node::Attribute(_) => NodeKind::Attribute,
            Node::Text(_) => NodeKind::Text,
            Node::Comment(_) => NodeKind::Comment,
            Node::Doctype(_) => NodeKind::Doctype,
            Node::Block(_) => NodeKind::Block,
            Node::Fragment(_) => NodeKind::Fragment,
        }
    }
}

/// One step in the making of a template. A node is named by its creation
/// variable: its number in the order of creation.
#[derive(Debug)]
pub enum CreateOp {
    /// Take a fresh handle for the node.
    Node { var: usize },
    CreateElement { var: usize, tag: String },
    CreateText { var: usize, text: String },
    SetAttribute { var: usize, key: String, value: String },
    AppendChild { parent: usize, child: usize },
    /// Append the roots of the fragment that `fragment` names.
    AppendAll { parent: usize, fragment: String },
    /// Give the node's handle back; the node stays in the tree.
    ReturnNode { var: usize },
}

/// What a [`CreateOp`] holds.
pub enum CreateOpView {
    Node { var: usize },
    CreateElement { var: usize, tag: Seq<char> },
    CreateText { var: usize, text: Seq<char> },
    SetAttribute { var: usize, key: Seq<char>, value: Seq<char> },
    AppendChild { parent: usize, child: usize },
    AppendAll { parent: usize, fragment: Seq<char> },
    ReturnNode { var: usize },
}

impl View for CreateOp {
    type V = CreateOpView;

    open spec fn view(&self) -> CreateOpView {
        match self {
            CreateOp::Node { var } => CreateOpView::Node { var: *var },
            CreateOp::CreateElement { var, tag } => CreateOpView::CreateElement {
                var: *var,
                tag: tag@,
            },
            CreateOp::CreateText { var, text } => CreateOpView::CreateText {
                var: *var,
                text: text@,
            },
            CreateOp::SetAttribute { var, key, value } => CreateOpView::SetAttribute {
                var: *var,
                key: key@,
                value: value@,
            },
            CreateOp::AppendChild { parent, child } => CreateOpView::AppendChild {
                parent: *parent,
                child: *child,
            },
            CreateOp::AppendAll { parent, fragment } => CreateOpView::AppendAll {
                parent: *parent,
                fragment: fragment@,
            },
            CreateOp::ReturnNode { var } => CreateOpView::ReturnNode { var: *var },
        }
    }
}

/// The steps of a vector, each by its view.
pub open spec fn ops_view(ops: Seq<CreateOp>) -> Seq<CreateOpView> {
    Seq::new(ops.len(), |i: int| ops[i]@)
}

/// The dynamic nodes of a vector, each by its view.
pub open spec fn nodes_view(nodes: Seq<DynamicNode>) -> Seq<DynamicNodeView> {
    Seq::new(nodes.len(), |i: int| nodes[i]@)
}

/// One root of a component's markup, with the dynamic nodes under it.
#[derive(Debug)]
pub struct Root {
    /// The root's position among the roots.
    pub idx: usize,
    pub dynamic_nodes: Vec<DynamicNode>,
    /// The creation variable of the root's node, once it is built.
    pub root_name: Option<usize>,
}

/// What a [`Root`] holds.
pub struct RootView {
    pub idx: usize,
    pub dynamic_nodes: Seq<DynamicNodeView>,
    pub root_name: Option<usize>,
}

impl View for Root {
    type V = RootView;

    open spec fn view(&self) -> RootView {
        RootView {
            idx: self.idx,
            dynamic_nodes: nodes_view(self.dynamic_nodes@),
            root_name: self.root_name,
        }
    }
}

impl Root {
    /// The dynamic nodes are numbered by their position, and one of them is
    /// the root itself: its path is empty.
    pub open spec fn wf(&self) -> bool {
        &&& forall|i: int|
            0 <= i < self.dynamic_nodes@.len() ==> (#[trigger] self.dynamic_nodes@[i]).id == i
        &&& exists|i: int|
            0 <= i < self.dynamic_nodes@.len() && (#[trigger] self.dynamic_nodes@[i]).path@.len()
                == 0
    }

    /// The name of the instance's handle on the root: that of the first
    /// dynamic node whose path is empty.
    pub fn root_ident(&self) -> (name: String)
        requires
            self.wf(),
        ensures
            name@ == "__dyn_n_"@ + decimal(
                self.dynamic_nodes@[crate::node::root_node(self.dynamic_nodes@)].root_id as nat,
            ) + "_"@ + decimal(crate::node::root_node(self.dynamic_nodes@) as nat),
    {
        let at = crate::node::find_root_node(&self.dynamic_nodes);
        self.dynamic_nodes[at].ident()
    }

    /// The dynamic nodes stand in document order, the root itself first.
    pub open spec fn ordered(&self) -> bool {
        &&& self.dynamic_nodes@.len() > 0
        &&& self.dynamic_nodes@[0].path@.len() == 0
        &&& crate::traversal::in_document_order(crate::traversal::paths_of(self.dynamic_nodes@))
    }
}

/// A node that a parent appends: one that the template creates, by its
/// creation variable, or a fragment of the instance, by its name.
#[derive(Debug)]
pub enum QkNode {
    Static(usize),
    Dynamic(String),
}

impl QkNode {
    /// The steps that append the node to the node `to`.
    pub open spec fn append_children_spec(&self, to: usize) -> Seq<CreateOpView> {
        match self {
            QkNode::Static(key) => seq![
                CreateOpView::AppendChild { parent: to, child: *key },
                CreateOpView::ReturnNode { var: *key },
            ],
            QkNode::Dynamic(name) => seq![CreateOpView::AppendAll { parent: to, fragment: name@ }],
        }
    }

    /// Appends to `ops` the steps that append the node to the node `to`: a
    /// created node is appended and its handle given back, a fragment is
    /// appended whole.
    pub fn append_children(&self, to: usize, ops: &mut Vec<CreateOp>)
        ensures
            ops_view(final(ops)@) == ops_view(old(ops)@) + self.append_children_spec(to),
    {
        match self {
            QkNode::Static(key) => {
                ops.push(CreateOp::AppendChild { parent: to, child: *key });
                ops.push(CreateOp::ReturnNode { var: *key });
            },
            QkNode::Dynamic(name) => {
                ops.push(CreateOp::AppendAll { parent: to, fragment: name.clone() });
            },
        }
        proof {
            assert(ops_view(ops@) =~= ops_view(old(ops)@) + self.append_children_spec(to));
        }
    }
}

/// The slot map that numbers the nodes of a template: a
/// `slotmap::SlotMap<DefaultKey, ()>`.
#[verifier::external_body]
#[derive(Debug)]
pub struct NodeSlots {
    slots: SlotMap<DefaultKey, ()>,
}

/// The keys that a slot map holds, each as the 64-bit number that
/// `KeyData::as_ffi` gives for it.
pub uninterp spec fn slot_keys(slots: NodeSlots) -> Set<u64>;

/// The number of keys that a slot map holds.
pub uninterp spec fn slot_count(slots: NodeSlots) -> nat;

/// The most keys that a slot map takes: `insert` fails on a map that holds
/// this many.
pub const MAX_NODES: usize = 0xffff_fffe;

/// `SlotMap::new`: a slot map that holds no key.
#[verifier::external_body]
fn new_slots() -> (slots: NodeSlots)
    ensures
        slot_keys(slots) == Set::<u64>::empty(),
        slot_count(slots) == 0,
{
    NodeSlots { slots: SlotMap::new() }
}

/// `SlotMap::insert`, with the new key turned into its number by
/// `Key::data` and `KeyData::as_ffi`. The key is none of those that the map
/// held, and the map holds it afterwards beside them. A map that is full is
/// left out: `insert` would not return.
#[verifier::external_body]
fn insert_slot(slots: &mut NodeSlots) -> (key: u64)
    requires
        slot_count(*old(slots)) < MAX_NODES,
    ensures
        !slot_keys(*old(slots)).contains(key),
        slot_keys(*final(slots)) == slot_keys(*old(slots)).insert(key),
        slot_count(*final(slots)) == slot_count(*old(slots)) + 1,
{
    slots.slots.insert(()).data().as_ffi()
}

/// What the walk has built so far of one root: the creation steps of all
/// roots up to here, the dynamic nodes of this root, and the number of
/// creation variables in use.
pub struct BuildState {
    pub ops: Seq<CreateOpView>,
    pub dynamic: Seq<DynamicNodeView>,
    pub vars: nat,
}

/// What the attributes of one element have given so far: the creation
/// steps, with those that set a fixed attribute, and the element's computed
/// attributes and listeners.
pub struct AttributeState {
    pub ops: Seq<CreateOpView>,
    pub attributes: Seq<DynamicAttributeView>,
    pub listeners: Seq<ListenerView>,
}

/// The formatted text that stands for a lone expression: one formatted
/// segment without format arguments.
pub open spec fn expression_text(code: CodeView) -> FormattedTextView {
    FormattedTextView {
        source: None,
        segments: seq![SegmentView::Formatted { format_args: Seq::empty(), segment: code.source }],
        idents: seq![code.idents],
    }
}

/// `state` after one more of the element's attributes.
///
/// A key that begins with `on` makes a listener; what follows the `on` must
/// be the name of an event. The value of any other attribute is set once in
/// the template if it is a literal without formatted segments, and is a
/// computed attribute otherwise.
pub open spec fn attribute_spec(state: AttributeState, var: usize, attribute: Node) -> Result<
    AttributeState,
    BuildErrorView,
> {
    match attribute {
        Node::Attribute(a) => match a.value {
            None => Err(BuildErrorView::MissingValue),
            Some(value) => if has_prefix(a.key@, "on"@) {
                match value {
                    NodeValue::Literal(_) => Err(BuildErrorView::ListenerExpected),
                    NodeValue::Expression(source) => if known_event(a.key@.skip(2)) {
                        Ok(
                            AttributeState {
                                listeners: state.listeners.push(
                                    ListenerView {
                                        key: a.key@,
                                        value: source@,
                                        states_used: Seq::empty(),
                                    },
                                ),
                                ..state
                            },
                        )
                    } else {
                        Err(BuildErrorView::UnknownEvent(a.key@))
                    },
                }
            } else {
                match value {
                    NodeValue::Literal(literal) => match literal.text_spec() {
                        Err(e) => Err(BuildErrorView::Format(e)),
                        Ok(text) => if any_formatted(text.segments) {
                            Ok(
                                AttributeState {
                                    attributes: state.attributes.push(
                                        DynamicAttributeView { key: a.key@, value: text },
                                    ),
                                    ..state
                                },
                            )
                        } else {
                            Ok(
                                AttributeState {
                                    ops: state.ops.push(
                                        CreateOpView::SetAttribute {
                                            var,
                                            key: a.key@,
                                            value: literal.text@,
                                        },
                                    ),
                                    ..state
                                },
                            )
                        },
                    },
                    NodeValue::Expression(source) => Ok(
                        AttributeState {
                            attributes: state.attributes.push(
                                DynamicAttributeView {
                                    key: a.key@,
                                    value: expression_text(source@),
                                },
                            ),
                            ..state
                        },
                    ),
                }
            },
        },
        _ => Err(BuildErrorView::AttributeExpected),
    }
}

/// `state` after the first `k` of the element's attributes.
pub open spec fn attributes_spec(state: AttributeState, var: usize, attributes: Seq<Node>, k: int)
    -> Result<AttributeState, BuildErrorView>
    decreases k,
{
    if k <= 0 {
        Ok(state)
    } else {
        match attributes_spec(state, var, attributes, k - 1) {
            Err(e) => Err(e),
            Ok(before) => attribute_spec(before, var, attributes[k - 1]),
        }
    }
}

/// `base`, and after it `k` moves to the next sibling.
pub open spec fn sibling_path(base: Seq<TraverseOperation>, k: nat) -> Seq<TraverseOperation> {
    base + Seq::new(k, |i: int| TraverseOperation::NextSibling)
}

/// The dynamic node that is recorded next in `state`.
pub open spec fn dynamic_node(
    state: BuildState,
    root: usize,
    path: Seq<TraverseOperation>,
    node: DynamicNodeTypeView,
) -> DynamicNodeView {
    DynamicNodeView { root_id: root, id: state.dynamic.len() as usize, path, node }
}

/// `state` after a text node at `path`, and the node's creation variable.
///
/// A text with formatted segments, or one that is no literal, is dynamic:
/// the template holds a blank in its place. A fixed text is created as it
/// is; where `force_dyn` holds it is recorded as a dynamic node all the
/// same.
pub open spec fn build_text_spec(
    state: BuildState,
    root: usize,
    text: NodeText,
    path: Seq<TraverseOperation>,
    force_dyn: bool,
) -> Result<(BuildState, usize), BuildErrorView> {
    if state.vars >= MAX_NODES {
        Err(BuildErrorView::TooManyNodes)
    } else {
        let var = state.vars as usize;
        match text.value {
            NodeValue::Literal(literal) => match literal.text_spec() {
                Err(e) => Err(BuildErrorView::Format(e)),
                Ok(parsed) => {
                    let dynamic = any_formatted(parsed.segments);
                    let recorded = if dynamic || force_dyn {
                        state.dynamic.push(
                            dynamic_node(
                                state,
                                root,
                                path,
                                DynamicNodeTypeView::Text { text: parsed },
                            ),
                        )
                    } else {
                        state.dynamic
                    };
                    let content = if dynamic {
                        " "@
                    } else {
                        literal.text@
                    };
                    Ok(
                        (
                            BuildState {
                                ops: state.ops.push(CreateOpView::Node { var }).push(
                                    CreateOpView::CreateText { var, text: content },
                                ),
                                dynamic: recorded,
                                vars: state.vars + 1,
                            },
                            var,
                        ),
                    )
                },
            },
            NodeValue::Expression(source) => Ok(
                (
                    BuildState {
                        ops: state.ops.push(CreateOpView::Node { var }).push(
                            CreateOpView::CreateText { var, text: " "@ },
                        ),
                        dynamic: state.dynamic.push(
                            dynamic_node(
                                state,
                                root,
                                path,
                                DynamicNodeTypeView::Text { text: expression_text(source@) },
                            ),
                        ),
                        vars: state.vars + 1,
                    },
                    var,
                ),
            ),
        }
    }
}

/// `state` after the node `node` at `path`, and the node's creation
/// variable. Only elements and texts can be built.
pub open spec fn build_node_spec(
    state: BuildState,
    root: usize,
    node: Node,
    path: Seq<TraverseOperation>,
    force_dyn: bool,
) -> Result<(BuildState, usize), BuildErrorView>
    decreases node, 0int,
{
    match node {
        Node::Element(element) => build_element_spec(state, root, element, path, force_dyn),
        Node::Text(text) => build_text_spec(state, root, text, path, force_dyn),
        _ => Err(BuildErrorView::Unsupported(node.kind_spec())),
    }
}

/// `state` after the element `element` at `path` with all that is below it,
/// and the element's creation variable.
///
/// The element is created, then its fixed attributes are set, then its
/// children are built and appended, each at the path of the element, a move
/// to the first child, and a move to the next sibling for each child before
/// it. The element is dynamic if it has a computed attribute or a listener,
/// or where `force_dyn` holds.
pub open spec fn build_element_spec(
    state: BuildState,
    root: usize,
    element: NodeElement,
    path: Seq<TraverseOperation>,
    force_dyn: bool,
) -> Result<(BuildState, usize), BuildErrorView>
    decreases element, 0int,
{
    if state.vars >= MAX_NODES {
        Err(BuildErrorView::TooManyNodes)
    } else {
        let var = state.vars as usize;
        let created = AttributeState {
            ops: state.ops.push(CreateOpView::Node { var }).push(
                CreateOpView::CreateElement { var, tag: element.name@ },
            ),
            attributes: Seq::empty(),
            listeners: Seq::empty(),
        };
        match attributes_spec(created, var, element.attributes@, element.attributes@.len() as int) {
            Err(e) => Err(e),
            Ok(a) => {
                let recorded = if a.attributes.len() > 0 || a.listeners.len() > 0 || force_dyn {
                    state.dynamic.push(
                        dynamic_node(
                            state,
                            root,
                            path,
                            DynamicNodeTypeView::Element {
                                attributes: a.attributes,
                                listeners: a.listeners,
                            },
                        ),
                    )
                } else {
                    state.dynamic
                };
                let own = BuildState { ops: a.ops, dynamic: recorded, vars: state.vars + 1 };
                match children_spec(
                    own,
                    root,
                    element.children@,
                    element.children@.len() as int,
                    var,
                    path.push(TraverseOperation::FirstChild),
                ) {
                    Err(e) => Err(e),
                    Ok(done) => Ok((done, var)),
                }
            },
        }
    }
}

/// `state` after the first `k` of the children of the element `parent`,
/// where `first` is the path of the first child.
pub open spec fn children_spec(
    state: BuildState,
    root: usize,
    children: Seq<Node>,
    k: int,
    parent: usize,
    first: Seq<TraverseOperation>,
) -> Result<BuildState, BuildErrorView>
    decreases children, k,
{
    if k <= 0 || k > children.len() {
        Ok(state)
    } else {
        match children_spec(state, root, children, k - 1, parent, first) {
            Err(e) => Err(e),
            Ok(before) => match build_node_spec(
                before,
                root,
                children[k - 1],
                sibling_path(first, (k - 1) as nat),
                false,
            ) {
                Err(e) => Err(e),
                Ok((built, child)) => Ok(
                    BuildState {
                        ops: built.ops + QkNode::Static(child).append_children_spec(parent),
                        ..built
                    },
                ),
            },
        }
    }
}

/// The markup of a component, built: the steps that create its template and
/// the dynamic nodes of each root.
#[derive(Debug)]
pub struct Elements {
    pub slots: NodeSlots,
    /// For each creation variable the slot key that names it.
    pub keys: Vec<u64>,
    pub roots: Vec<Root>,
    pub creation: Vec<CreateOp>,
    pub current_path: Vec<TraverseOperation>,
    /// The derived cells that update the dynamic nodes.
    pub memo_ids: Vec<usize>,
}

/// What an [`Elements`] holds, but for the slot keys.
pub struct ElementsView {
    pub roots: Seq<RootView>,
    pub creation: Seq<CreateOpView>,
    /// The number of creation variables.
    pub vars: nat,
    pub memo_ids: Seq<usize>,
}

impl View for Elements {
    type V = ElementsView;

    open spec fn view(&self) -> ElementsView {
        ElementsView {
            roots: roots_view(self.roots@),
            creation: ops_view(self.creation@),
            vars: self.keys@.len(),
            memo_ids: self.memo_ids@,
        }
    }
}

/// What the walk has built when it stands in `root`.
pub open spec fn state_of(elements: Elements, root: Root) -> BuildState {
    BuildState {
        ops: ops_view(elements.creation@),
        dynamic: nodes_view(root.dynamic_nodes@),
        vars: elements.keys@.len(),
    }
}

fn copy_path(path: &Vec<TraverseOperation>) -> (copy: Vec<TraverseOperation>)
    ensures
        copy@ == path@,
{
    let mut copy: Vec<TraverseOperation> = Vec::new();
    let mut i: usize = 0;
    while i < path.len()
        invariant
            i <= path@.len(),
            copy@ == path@.take(i as int),
        decreases path@.len() - i,
    {
        copy.push(path[i]);
        proof {
            assert(path@.take(i + 1) =~= path@.take(i as int).push(path@[i as int]));
        }
        i = i + 1;
    }
    proof {
        assert(path@.take(path@.len() as int) =~= path@);
    }
    copy
}

fn expression_text_of(source: &Code) -> (text: FormattedText)
    ensures
        text@ == expression_text(source@),
{
    let mut segments: Vec<Segment> = Vec::new();
    segments.push(
        Segment::Formatted(
            FormattedSegment { format_args: String::new(), segment: source.source.clone() },
        ),
    );
    let mut idents: Vec<Vec<String>> = Vec::new();
    idents.push(copy_texts(&source.idents));
    let text = FormattedText { source: None, segments, idents };
    proof {
        assert(text@.segments =~= expression_text(source@).segments);
        assert(text@.idents =~= expression_text(source@).idents);
    }
    text
}

/// The name of the creation variable with the slot key `key`: `__n_` and
/// the key in decimal.
pub fn node_ident(key: u64) -> (name: String)
    ensures
        name@ == "__n_"@ + decimal(key as nat),
{
    let mut name = "__n_".to_owned();
    write_unsigned(key, &mut name);
    name
}

impl Elements {
    /// Every creation variable has its own slot key, and the slot map holds
    /// these keys and no others.
    pub open spec fn inv(&self) -> bool {
        &&& slot_count(self.slots) == self.keys@.len()
        &&& slot_keys(self.slots) == self.keys@.to_set()
        &&& self.keys@.no_duplicates()
    }

    /// Takes the next creation variable, with a fresh slot key for it.
    fn fresh(&mut self) -> (r: Result<usize, BuildError>)
        requires
            old(self).inv(),
        ensures
            final(self).roots == old(self).roots,
            final(self).creation == old(self).creation,
            final(self).current_path == old(self).current_path,
            final(self).memo_ids == old(self).memo_ids,
            match r {
                Ok(var) => {
                    &&& final(self).inv()
                    &&& var == old(self).keys@.len()
                    &&& var < MAX_NODES
                    &&& final(self).keys@.len() == var + 1
                },
                Err(e) => e@ == BuildErrorView::TooManyNodes && old(self).keys@.len() >= MAX_NODES,
            },
    {
        if self.keys.len() >= MAX_NODES {
            return Err(BuildError::TooManyNodes);
        }
        let key = insert_slot(&mut self.slots);
        self.keys.push(key);
        proof {
            let before = old(self).keys@;
            assert(before.push(key).to_set() =~= before.to_set().insert(key)) by {
                assert forall|k: u64| before.push(key).contains(k) == (before.contains(k) || k
                    == key) by {
                    if before.contains(k) {
                        let i = choose|i: int| 0 <= i < before.len() && before[i] == k;
                        assert(before.push(key)[i] == k);
                    }
                    if k == key {
                        assert(before.push(key)[before.len() as int] == k);
                    }
                }
            }
            assert(!before.contains(key));
        }
        Ok(self.keys.len() - 1)
    }

    /// Takes in one attribute of the element with the creation variable
    /// `var`.
    fn build_attribute(
        &mut self,
        var: usize,
        attribute: &Node,
        attributes: &mut Vec<DynamicAttribute>,
        listeners: &mut Vec<Listener>,
    ) -> (r: Result<(), BuildError>)
        ensures
            final(self).slots == old(self).slots,
            final(self).keys == old(self).keys,
            final(self).roots == old(self).roots,
            final(self).current_path == old(self).current_path,
            final(self).memo_ids == old(self).memo_ids,
            match r {
                Ok(()) => attribute_spec(
                    AttributeState {
                        ops: ops_view(old(self).creation@),
                        attributes: Seq::new(old(attributes)@.len(), |i: int| old(attributes)@[i]@),
                        listeners: Seq::new(old(listeners)@.len(), |i: int| old(listeners)@[i]@),
                    },
                    var,
                    *attribute,
                ) == Ok::<AttributeState, BuildErrorView>(
                    AttributeState {
                        ops: ops_view(final(self).creation@),
                        attributes: Seq::new(
                            final(attributes)@.len(),
                            |i: int| final(attributes)@[i]@,
                        ),
                        listeners: Seq::new(
                            final(listeners)@.len(),
                            |i: int| final(listeners)@[i]@,
                        ),
                    },
                ),
                Err(e) => attribute_spec(
                    AttributeState {
                        ops: ops_view(old(self).creation@),
                        attributes: Seq::new(old(attributes)@.len(), |i: int| old(attributes)@[i]@),
                        listeners: Seq::new(old(listeners)@.len(), |i: int| old(listeners)@[i]@),
                    },
                    var,
                    *attribute,
                ) == Err::<AttributeState, BuildErrorView>(e@),
            },
    {
        let ghost ops0 = ops_view(self.creation@);
        let ghost attributes0 = Seq::new(attributes@.len(), |i: int| attributes@[i]@);
        let ghost listeners0 = Seq::new(listeners@.len(), |i: int| listeners@[i]@);
        let a = match attribute {
            Node::Attribute(a) => a,
            _ => {
                return Err(BuildError::AttributeExpected);
            },
        };
        let value = match &a.value {
            Some(value) => value,
            None => {
                return Err(BuildError::MissingValue);
            },
        };
        if starts_with(a.key.as_str(), "on") {
            match value {
                NodeValue::Literal(_) => Err(BuildError::ListenerExpected),
                NodeValue::Expression(source) => {
                    proof {
                        reveal_strlit("on");
                    }
                    let event = tail(a.key.as_str(), 2);
                    if find_event(event.as_str()).is_none() {
                        return Err(BuildError::UnknownEvent(a.key.clone()));
                    }
                    let listener = Listener {
                        key: a.key.clone(),
                        value: source.duplicate(),
                        states_used: Vec::new(),
                    };
                    listeners.push(listener);
                    proof {
                        let added = ListenerView {
                            key: a.key@,
                            value: source@,
                            states_used: Seq::empty(),
                        };
                        assert(Seq::new(listeners@.len(), |i: int| listeners@[i]@)
                            =~= listeners0.push(added));
                        assert(ops_view(self.creation@) =~= ops0);
                        assert(Seq::new(attributes@.len(), |i: int| attributes@[i]@)
                            =~= attributes0);
                    }
                    Ok(())
                },
            }
        } else {
            match value {
                NodeValue::Literal(literal) => {
                    match literal.formatted() {
                        Err(e) => Err(BuildError::Format(e)),
                        Ok(text) => {
                            if text.is_dynamic() {
                                attributes.push(
                                    DynamicAttribute { key: a.key.clone(), value: text },
                                );
                                proof {
                                    assert(Seq::new(attributes@.len(), |i: int| attributes@[i]@)
                                        =~= attributes0.push(
                                        DynamicAttributeView { key: a.key@, value: text@ },
                                    ));
                                    assert(ops_view(self.creation@) =~= ops0);
                                    assert(Seq::new(listeners@.len(), |i: int| listeners@[i]@)
                                        =~= listeners0);
                                }
                            } else {
                                self.creation.push(
                                    CreateOp::SetAttribute {
                                        var,
                                        key: a.key.clone(),
                                        value: literal.text.clone(),
                                    },
                                );
                                proof {
                                    assert(ops_view(self.creation@) =~= ops0.push(
                                        CreateOpView::SetAttribute {
                                            var,
                                            key: a.key@,
                                            value: literal.text@,
                                        },
                                    ));
                                    assert(Seq::new(attributes@.len(), |i: int| attributes@[i]@)
                                        =~= attributes0);
                                    assert(Seq::new(listeners@.len(), |i: int| listeners@[i]@)
                                        =~= listeners0);
                                }
                            }
                            Ok(())
                        },
                    }
                },
                NodeValue::Expression(source) => {
                    attributes.push(
                        DynamicAttribute { key: a.key.clone(), value: expression_text_of(source) },
                    );
                    proof {
                        assert(Seq::new(attributes@.len(), |i: int| attributes@[i]@)
                            =~= attributes0.push(
                            DynamicAttributeView { key: a.key@, value: expression_text(source@) },
                        ));
                        assert(ops_view(self.creation@) =~= ops0);
                        assert(Seq::new(listeners@.len(), |i: int| listeners@[i]@) =~= listeners0);
                    }
                    Ok(())
                },
            }
        }
    }
}

impl Elements {
    /// Records a dynamic node of `root` at the current path.
    fn record(&self, root: &mut Root, node: DynamicNodeType)
        ensures
            final(root).idx == old(root).idx,
            final(root).root_name == old(root).root_name,
            nodes_view(final(root).dynamic_nodes@) == nodes_view(old(root).dynamic_nodes@).push(
                dynamic_node(
                    state_of(*self, *old(root)),
                    old(root).idx,
                    self.current_path@,
                    node@,
                ),
            ),
    {
        let id = root.dynamic_nodes.len();
        root.dynamic_nodes.push(
            DynamicNode { root_id: root.idx, id, path: copy_path(&self.current_path), node },
        );
        proof {
            assert(nodes_view(root.dynamic_nodes@) =~= nodes_view(old(root).dynamic_nodes@).push(
                dynamic_node(
                    state_of(*self, *old(root)),
                    old(root).idx,
                    self.current_path@,
                    node@,
                ),
            ));
        }
    }

    /// Appends the steps that create a text node.
    fn create_text(&mut self, var: usize, text: String)
        ensures
            final(self).slots == old(self).slots,
            final(self).keys == old(self).keys,
            final(self).roots == old(self).roots,
            final(self).current_path == old(self).current_path,
            final(self).memo_ids == old(self).memo_ids,
            ops_view(final(self).creation@) == ops_view(old(self).creation@).push(
                CreateOpView::Node { var },
            ).push(CreateOpView::CreateText { var, text: text@ }),
    {
        self.creation.push(CreateOp::Node { var });
        self.creation.push(CreateOp::CreateText { var, text });
        proof {
            assert(ops_view(self.creation@) =~= ops_view(old(self).creation@).push(
                CreateOpView::Node { var },
            ).push(CreateOpView::CreateText { var, text: text@ }));
        }
    }

    /// Builds a text node at the current path.
    fn build_text(&mut self, root: &mut Root, text: &NodeText, force_dyn: bool) -> (r: Result<
        usize,
        BuildError,
    >)
        requires
            old(self).inv(),
        ensures
            final(self).roots == old(self).roots,
            final(self).current_path == old(self).current_path,
            final(self).memo_ids == old(self).memo_ids,
            final(root).idx == old(root).idx,
            final(root).root_name == old(root).root_name,
            match r {
                Ok(var) => {
                    &&& final(self).inv()
                    &&& build_text_spec(
                        state_of(*old(self), *old(root)),
                        old(root).idx,
                        *text,
                        old(self).current_path@,
                        force_dyn,
                    ) == Ok::<(BuildState, usize), BuildErrorView>(
                        (state_of(*final(self), *final(root)), var),
                    )
                },
                Err(e) => build_text_spec(
                    state_of(*old(self), *old(root)),
                    old(root).idx,
                    *text,
                    old(self).current_path@,
                    force_dyn,
                ) == Err::<(BuildState, usize), BuildErrorView>(e@),
            },
    {
        let var = match self.fresh() {
            Ok(var) => var,
            Err(e) => {
                return Err(e);
            },
        };
        match &text.value {
            NodeValue::Literal(literal) => {
                match literal.formatted() {
                    Err(e) => Err(BuildError::Format(e)),
                    Ok(parsed) => {
                        if parsed.is_dynamic() {
                            self.record(root, DynamicNodeType::Text(DynText { text: parsed }));
                            self.create_text(var, " ".to_owned());
                        } else {
                            if force_dyn {
                                self.record(root, DynamicNodeType::Text(DynText { text: parsed }));
                            }
                            self.create_text(var, literal.text.clone());
                        }
                        Ok(var)
                    },
                }
            },
            NodeValue::Expression(source) => {
                self.record(
                    root,
                    DynamicNodeType::Text(DynText { text: expression_text_of(source) }),
                );
                self.create_text(var, " ".to_owned());
                Ok(var)
            },
        }
    }

    /// Builds a node at the current path. Only elements and texts can be
    /// built; any other kind of node is an error.
    fn build_node(&mut self, root: &mut Root, node: &Node, force_dyn: bool) -> (r: Result<
        QkNode,
        BuildError,
    >)
        requires
            old(self).inv(),
        ensures
            match r {
                Ok(built) => {
                    &&& final(self).roots == old(self).roots
                    &&& final(self).current_path@ == old(self).current_path@
                    &&& final(self).memo_ids == old(self).memo_ids
                    &&& final(root).idx == old(root).idx
                    &&& final(root).root_name == old(root).root_name
                    &&& final(self).inv()
                    &&& built is Static
                    &&& build_node_spec(
                        state_of(*old(self), *old(root)),
                        old(root).idx,
                        *node,
                        old(self).current_path@,
                        force_dyn,
                    ) == Ok::<(BuildState, usize), BuildErrorView>(
                        (state_of(*final(self), *final(root)), built->Static_0),
                    )
                },
                Err(e) => build_node_spec(
                    state_of(*old(self), *old(root)),
                    old(root).idx,
                    *node,
                    old(self).current_path@,
                    force_dyn,
                ) == Err::<(BuildState, usize), BuildErrorView>(e@),
            },
        decreases node,
    {
        match node {
            Node::Element(element) => match self.build_element(root, element, force_dyn) {
                Ok(var) => Ok(QkNode::Static(var)),
                Err(e) => Err(e),
            },
            Node::Text(text) => match self.build_text(root, text, force_dyn) {
                Ok(var) => Ok(QkNode::Static(var)),
                Err(e) => Err(e),
            },
            _ => Err(BuildError::Unsupported(node.kind())),
        }
    }

    /// Builds an element at the current path with all that is below it.
    fn build_element(&mut self, root: &mut Root, element: &NodeElement, force_dyn: bool) -> (r:
        Result<usize, BuildError>)
        requires
            old(self).inv(),
        ensures
            match r {
                Ok(var) => {
                    &&& final(self).roots == old(self).roots
                    &&& final(self).current_path@ == old(self).current_path@
                    &&& final(self).memo_ids == old(self).memo_ids
                    &&& final(root).idx == old(root).idx
                    &&& final(root).root_name == old(root).root_name
                    &&& final(self).inv()
                    &&& build_element_spec(
                        state_of(*old(self), *old(root)),
                        old(root).idx,
                        *element,
                        old(self).current_path@,
                        force_dyn,
                    ) == Ok::<(BuildState, usize), BuildErrorView>(
                        (state_of(*final(self), *final(root)), var),
                    )
                },
                Err(e) => build_element_spec(
                    state_of(*old(self), *old(root)),
                    old(root).idx,
                    *element,
                    old(self).current_path@,
                    force_dyn,
                ) == Err::<(BuildState, usize), BuildErrorView>(e@),
            },
        decreases element,
    {
        let ghost state0 = state_of(*self, *root);
        let ghost path0 = self.current_path@;
        let ghost root_idx = root.idx;
        let var = match self.fresh() {
            Ok(var) => var,
            Err(e) => {
                return Err(e);
            },
        };
        self.creation.push(CreateOp::Node { var });
        self.creation.push(CreateOp::CreateElement { var, tag: element.name.clone() });
        let ghost created = AttributeState {
            ops: state0.ops.push(CreateOpView::Node { var }).push(
                CreateOpView::CreateElement { var, tag: element.name@ },
            ),
            attributes: Seq::empty(),
            listeners: Seq::empty(),
        };
        let mut attributes: Vec<DynamicAttribute> = Vec::new();
        let mut listeners: Vec<Listener> = Vec::new();
        proof {
            assert(ops_view(self.creation@) =~= created.ops);
            assert(Seq::new(attributes@.len(), |i: int| attributes@[i]@) =~= created.attributes);
            assert(Seq::new(listeners@.len(), |i: int| listeners@[i]@) =~= created.listeners);
        }
        let mut i: usize = 0;
        while i < element.attributes.len()
            invariant
                i <= element.attributes@.len(),
                self.inv(),
                self.keys@.len() == var + 1,
                var == state0.vars,
                var < MAX_NODES,
                state0 == state_of(*old(self), *old(root)),
                path0 == old(self).current_path@,
                root_idx == old(root).idx,
                created == (AttributeState {
                    ops: state0.ops.push(CreateOpView::Node { var }).push(
                        CreateOpView::CreateElement { var, tag: element.name@ },
                    ),
                    attributes: Seq::empty(),
                    listeners: Seq::empty(),
                }),
                self.roots == old(self).roots,
                self.current_path == old(self).current_path,
                self.memo_ids == old(self).memo_ids,
                attributes_spec(created, var, element.attributes@, i as int) == Ok::<
                    AttributeState,
                    BuildErrorView,
                >(
                    AttributeState {
                        ops: ops_view(self.creation@),
                        attributes: Seq::new(attributes@.len(), |i: int| attributes@[i]@),
                        listeners: Seq::new(listeners@.len(), |i: int| listeners@[i]@),
                    },
                ),
            decreases element.attributes@.len() - i,
        {
            let attribute = &element.attributes[i];
            match self.build_attribute(var, attribute, &mut attributes, &mut listeners) {
                Ok(()) => {},
                Err(e) => {
                    proof {
                        assert(attributes_spec(created, var, element.attributes@, i + 1) == Err::<
                            AttributeState,
                            BuildErrorView,
                        >(e@));
                        Self::attributes_fail(
                            created,
                            var,
                            element.attributes@,
                            i + 1,
                            element.attributes@.len() as int,
                        );
                    }
                    return Err(e);
                },
            }
            i = i + 1;
        }
        let ghost a = AttributeState {
            ops: ops_view(self.creation@),
            attributes: Seq::new(attributes@.len(), |i: int| attributes@[i]@),
            listeners: Seq::new(listeners@.len(), |i: int| listeners@[i]@),
        };
        if attributes.len() > 0 || listeners.len() > 0 || force_dyn {
            let node = DynamicNodeType::Element(DynElement { attributes, listeners });
            proof {
                assert(node@ == DynamicNodeTypeView::Element {
                    attributes: a.attributes,
                    listeners: a.listeners,
                });
            }
            self.record(root, node);
        }
        let ghost own = state_of(*self, *root);
        let ghost first = path0.push(TraverseOperation::FirstChild);
        let depth = self.current_path.len();
        self.current_path.push(TraverseOperation::FirstChild);
        proof {
            assert(self.current_path@ =~= sibling_path(first, 0));
        }
        let mut k: usize = 0;
        while k < element.children.len()
            invariant
                k <= element.children@.len(),
                self.inv(),
                var == state0.vars,
                var < MAX_NODES,
                created == (AttributeState {
                    ops: state0.ops.push(CreateOpView::Node { var }).push(
                        CreateOpView::CreateElement { var, tag: element.name@ },
                    ),
                    attributes: Seq::empty(),
                    listeners: Seq::empty(),
                }),
                attributes_spec(created, var, element.attributes@, element.attributes@.len() as int)
                    == Ok::<AttributeState, BuildErrorView>(a),
                own == (BuildState {
                    ops: a.ops,
                    dynamic: if a.attributes.len() > 0 || a.listeners.len() > 0 || force_dyn {
                        state0.dynamic.push(
                            dynamic_node(
                                state0,
                                root_idx,
                                path0,
                                DynamicNodeTypeView::Element {
                                    attributes: a.attributes,
                                    listeners: a.listeners,
                                },
                            ),
                        )
                    } else {
                        state0.dynamic
                    },
                    vars: state0.vars + 1,
                }),
                self.roots == old(self).roots,
                self.memo_ids == old(self).memo_ids,
                root.idx == root_idx,
                root_idx == old(root).idx,
                path0 == old(self).current_path@,
                state0 == state_of(*old(self), *old(root)),
                root.root_name == old(root).root_name,
                depth == path0.len(),
                first == path0.push(TraverseOperation::FirstChild),
                self.current_path@ == sibling_path(first, k as nat),
                children_spec(own, root_idx, element.children@, k as int, var, first) == Ok::<
                    BuildState,
                    BuildErrorView,
                >(state_of(*self, *root)),
            decreases element.children@.len() - k,
        {
            let ghost before = state_of(*self, *root);
            match self.build_node(root, &element.children[k], false) {
                Err(e) => {
                    proof {
                        assert(children_spec(own, root_idx, element.children@, k + 1, var, first)
                            == Err::<BuildState, BuildErrorView>(e@));
                        Self::children_fail(
                            own,
                            root_idx,
                            element.children@,
                            k + 1,
                            element.children@.len() as int,
                            var,
                            first,
                        );
                    }
                    return Err(e);
                },
                Ok(child) => {
                    child.append_children(var, &mut self.creation);
                },
            }
            self.current_path.push(TraverseOperation::NextSibling);
            proof {
                assert(self.current_path@ =~= sibling_path(first, (k + 1) as nat));
            }
            k = k + 1;
        }
        self.current_path.truncate(depth);
        proof {
            assert(self.current_path@ =~= path0);
        }
        Ok(var)
    }

    proof fn attributes_fail(
        state: AttributeState,
        var: usize,
        attributes: Seq<Node>,
        at: int,
        upto: int,
    )
        requires
            0 < at <= upto,
            attributes_spec(state, var, attributes, at) is Err,
        ensures
            attributes_spec(state, var, attributes, upto) == attributes_spec(
                state,
                var,
                attributes,
                at,
            ),
        decreases upto - at,
    {
        if at < upto {
            Self::attributes_fail(state, var, attributes, at, upto - 1);
        }
    }

    proof fn children_fail(
        state: BuildState,
        root: usize,
        children: Seq<Node>,
        at: int,
        upto: int,
        parent: usize,
        first: Seq<TraverseOperation>,
    )
        requires
            0 < at <= upto <= children.len(),
            children_spec(state, root, children, at, parent, first) is Err,
        ensures
            children_spec(state, root, children, upto, parent, first) == children_spec(
                state,
                root,
                children,
                at,
                parent,
                first,
            ),
        decreases upto - at,
    {
        if at < upto {
            Self::children_fail(state, root, children, at, upto - 1, parent, first);
        }
    }
}

/// How the state `after` a node was built at `path` relates to the state
/// `before`: the dynamic nodes recorded before are kept, the new ones are
/// numbered by their position and belong to `root`, and where the node was
/// forced to be dynamic the first new one lies at `path`.
pub open spec fn extends(
    before: BuildState,
    after: BuildState,
    root: usize,
    path: Seq<TraverseOperation>,
    force_dyn: bool,
) -> bool {
    &&& before.dynamic.len() <= after.dynamic.len()
    &&& before.vars <= after.vars
    &&& after.dynamic.len() <= after.vars
    &&& forall|i: int| 0 <= i < before.dynamic.len() ==> after.dynamic[i] == before.dynamic[i]
    &&& forall|i: int|
        before.dynamic.len() <= i < after.dynamic.len() ==> (#[trigger] after.dynamic[i]).id == i
            && after.dynamic[i].root_id == root
    &&& force_dyn ==> {
        &&& before.dynamic.len() < after.dynamic.len()
        &&& after.dynamic[before.dynamic.len() as int].path == path
    }
}

/// Building a node keeps what was recorded and numbers what it records.
pub proof fn build_node_extends(
    state: BuildState,
    root: usize,
    node: Node,
    path: Seq<TraverseOperation>,
    force_dyn: bool,
)
    requires
        state.dynamic.len() <= state.vars,
        build_node_spec(state, root, node, path, force_dyn) is Ok,
    ensures
        extends(
            state,
            build_node_spec(state, root, node, path, force_dyn)->Ok_0.0,
            root,
            path,
            force_dyn,
        ),
    decreases node, 0int,
{
    match node {
        Node::Element(element) => {
            build_element_extends(state, root, element, path, force_dyn);
        },
        _ => {},
    }
}

proof fn build_element_extends(
    state: BuildState,
    root: usize,
    element: NodeElement,
    path: Seq<TraverseOperation>,
    force_dyn: bool,
)
    requires
        state.dynamic.len() <= state.vars,
        build_element_spec(state, root, element, path, force_dyn) is Ok,
    ensures
        extends(
            state,
            build_element_spec(state, root, element, path, force_dyn)->Ok_0.0,
            root,
            path,
            force_dyn,
        ),
    decreases element, 0int,
{
    let var = state.vars as usize;
    let created = AttributeState {
        ops: state.ops.push(CreateOpView::Node { var }).push(
            CreateOpView::CreateElement { var, tag: element.name@ },
        ),
        attributes: Seq::empty(),
        listeners: Seq::empty(),
    };
    let count = element.attributes@.len() as int;
    let a = attributes_spec(created, var, element.attributes@, count)->Ok_0;
    let recorded = if a.attributes.len() > 0 || a.listeners.len() > 0 || force_dyn {
        state.dynamic.push(
            dynamic_node(
                state,
                root,
                path,
                DynamicNodeTypeView::Element { attributes: a.attributes, listeners: a.listeners },
            ),
        )
    } else {
        state.dynamic
    };
    let own = BuildState { ops: a.ops, dynamic: recorded, vars: state.vars + 1 };
    children_extend(
        own,
        root,
        element.children@,
        element.children@.len() as int,
        var,
        path.push(TraverseOperation::FirstChild),
    );
}

/// Building the children of an element keeps what was recorded and
/// numbers what it records.
pub proof fn children_extend(
    state: BuildState,
    root: usize,
    children: Seq<Node>,
    k: int,
    parent: usize,
    first: Seq<TraverseOperation>,
)
    requires
        0 <= k <= children.len(),
        state.dynamic.len() <= state.vars,
        children_spec(state, root, children, k, parent, first) is Ok,
    ensures
        extends(
            state,
            children_spec(state, root, children, k, parent, first)->Ok_0,
            root,
            first,
            false,
        ),
    decreases children, k,
{
    if k > 0 {
        children_extend(state, root, children, k - 1, parent, first);
        let before = children_spec(state, root, children, k - 1, parent, first)->Ok_0;
        let here = sibling_path(first, (k - 1) as nat);
        build_node_extends(before, root, children[k - 1], here, false);
    }
}

/// The roots of a vector, each by its view.
pub open spec fn roots_view(roots: Seq<Root>) -> Seq<RootView> {
    Seq::new(roots.len(), |i: int| roots[i]@)
}

/// What the first `k` roots of a markup give: the roots with their dynamic
/// nodes, the steps that create the template, and the number of creation
/// variables in use. Each root is built at the empty path and is dynamic.
pub open spec fn roots_spec(elements: Seq<Node>, k: int) -> Result<
    (Seq<RootView>, Seq<CreateOpView>, nat),
    BuildErrorView,
>
    decreases k,
{
    if k <= 0 {
        Ok((Seq::empty(), Seq::empty(), 0))
    } else {
        match roots_spec(elements, k - 1) {
            Err(e) => Err(e),
            Ok((roots, ops, vars)) => match build_node_spec(
                BuildState { ops, dynamic: Seq::empty(), vars },
                (k - 1) as usize,
                elements[k - 1],
                Seq::empty(),
                true,
            ) {
                Err(e) => Err(e),
                Ok((built, var)) => Ok(
                    (
                        roots.push(
                            RootView {
                                idx: (k - 1) as usize,
                                dynamic_nodes: built.dynamic,
                                root_name: Some(var),
                            },
                        ),
                        built.ops,
                        built.vars,
                    ),
                ),
            },
        }
    }
}

proof fn roots_fail(elements: Seq<Node>, at: int, upto: int)
    requires
        0 < at <= upto,
        roots_spec(elements, at) is Err,
    ensures
        roots_spec(elements, upto) == roots_spec(elements, at),
    decreases upto - at,
{
    if at < upto {
        roots_fail(elements, at, upto - 1);
    }
}

impl Elements {
    /// Builds the markup `elements`, each of them a root.
    ///
    /// The result holds the steps that create the template and, for each
    /// root, its dynamic nodes; every root is well formed, so that the
    /// traversal can be planned. The build fails on a node that is neither
    /// an element nor a text, on an attribute without a value, on a text
    /// that is no formatted text, and on a markup too large to number.
    pub fn new(elements: &Vec<Node>) -> (r: Result<Elements, BuildError>)
        ensures
            match r {
                Ok(built) => {
                    &&& roots_spec(elements@, elements@.len() as int) == Ok::<
                        (Seq<RootView>, Seq<CreateOpView>, nat),
                        BuildErrorView,
                    >((roots_view(built.roots@), ops_view(built.creation@), built.keys@.len()))
                    &&& built.inv()
                    &&& built.current_path@.len() == 0
                    &&& built.memo_ids@.len() == 0
                    &&& forall|i: int|
                        0 <= i < built.roots@.len() ==> (#[trigger] built.roots@[i]).wf()
                            && built.roots@[i].ordered()
                },
                Err(e) => roots_spec(elements@, elements@.len() as int) == Err::<
                    (Seq<RootView>, Seq<CreateOpView>, nat),
                    BuildErrorView,
                >(e@),
            },
    {
        let mut myself = Elements {
            slots: new_slots(),
            keys: Vec::new(),
            roots: Vec::new(),
            creation: Vec::new(),
            current_path: Vec::new(),
            memo_ids: Vec::new(),
        };
        proof {
            assert(myself.keys@.to_set() =~= Set::<u64>::empty());
            assert(roots_view(myself.roots@) =~= Seq::empty());
            assert(ops_view(myself.creation@) =~= Seq::empty());
        }
        let mut idx: usize = 0;
        while idx < elements.len()
            invariant
                idx <= elements@.len(),
                myself.inv(),
                myself.current_path@.len() == 0,
                myself.memo_ids@.len() == 0,
                myself.roots@.len() == idx,
                roots_spec(elements@, idx as int) == Ok::<
                    (Seq<RootView>, Seq<CreateOpView>, nat),
                    BuildErrorView,
                >((roots_view(myself.roots@), ops_view(myself.creation@), myself.keys@.len())),
                forall|i: int|
                    0 <= i < myself.roots@.len() ==> (#[trigger] myself.roots@[i]).wf()
                        && myself.roots@[i].ordered(),
            decreases elements@.len() - idx,
        {
            let mut root = Root { idx, dynamic_nodes: Vec::new(), root_name: None };
            let ghost before = state_of(myself, root);
            let ghost roots_before = myself.roots@;
            proof {
                assert(before.dynamic =~= Seq::empty());
                assert(myself.current_path@ =~= Seq::empty());
            }
            match myself.build_node(&mut root, &elements[idx], true) {
                Err(e) => {
                    proof {
                        assert(roots_spec(elements@, idx + 1) == Err::<
                            (Seq<RootView>, Seq<CreateOpView>, nat),
                            BuildErrorView,
                        >(e@));
                        roots_fail(elements@, idx + 1, elements@.len() as int);
                    }
                    return Err(e);
                },
                Ok(built) => {
                    let var = match built {
                        QkNode::Static(var) => var,
                        QkNode::Dynamic(_) => 0,
                    };
                    root.root_name = Some(var);
                    proof {
                        build_node_extends(before, idx, elements@[idx as int], Seq::empty(), true);
                        let after = state_of(myself, root);
                        assert forall|i: int| 0 <= i < root.dynamic_nodes@.len() implies (
                        #[trigger] root.dynamic_nodes@[i]).id == i by {
                            assert(after.dynamic[i].id == i);
                        }
                        assert(after.dynamic[0].path == Seq::<TraverseOperation>::empty());
                        assert(root.dynamic_nodes@[0].path@.len() == 0);
                        assert(root.wf());
                        crate::traversal::build_node_ordered(
                            before,
                            idx,
                            elements@[idx as int],
                            Seq::empty(),
                            true,
                        );
                        let paths = crate::traversal::paths_of(root.dynamic_nodes@);
                        assert forall|i: int, j: int|
                            0 <= i < j < paths.len() implies crate::traversal::comes_before(
                            paths[i],
                            paths[j],
                        ) by {
                            assert(after.dynamic[i].path == paths[i]);
                            assert(after.dynamic[j].path == paths[j]);
                        }
                        assert(root.ordered());
                    }
                    myself.roots.push(root);
                    proof {
                        assert(roots_view(myself.roots@) =~= roots_view(roots_before).push(root@));
                    }
                },
            }
            idx = idx + 1;
        }
        Ok(myself)
    }
}

/// `root` with the listeners of each of its dynamic nodes completed.
pub open spec fn completed_root(root: RootView, names: Seq<Seq<char>>) -> RootView {
    RootView {
        dynamic_nodes: Seq::new(
            root.dynamic_nodes.len(),
            |i: int| completed(root.dynamic_nodes[i], names),
        ),
        ..root
    }
}

/// `roots`, each with its listeners completed.
pub open spec fn completed_roots(roots: Seq<RootView>, names: Seq<Seq<char>>) -> Seq<RootView> {
    Seq::new(roots.len(), |i: int| completed_root(roots[i], names))
}

/// The updates of the first `k` of `nodes`, in their order.
pub open spec fn nodes_updates(nodes: Seq<DynamicNodeView>, names: Seq<Seq<char>>, k: int)
    -> Result<Seq<UpdaterView>, BuildErrorView>
    decreases k,
{
    if k <= 0 {
        Ok(Seq::empty())
    } else {
        match nodes_updates(nodes, names, k - 1) {
            Err(e) => Err(e),
            Ok(before) => match update_spec(nodes[k - 1], names) {
                Err(e) => Err(e),
                Ok(updates) => Ok(before + updates),
            },
        }
    }
}

/// The updates of the dynamic nodes of the first `k` of `roots`, in their
/// order.
pub open spec fn roots_updates(roots: Seq<RootView>, names: Seq<Seq<char>>, k: int) -> Result<
    Seq<UpdaterView>,
    BuildErrorView,
>
    decreases k,
{
    if k <= 0 {
        Ok(Seq::empty())
    } else {
        match roots_updates(roots, names, k - 1) {
            Err(e) => Err(e),
            Ok(before) => match nodes_updates(
                roots[k - 1].dynamic_nodes,
                names,
                roots[k - 1].dynamic_nodes.len() as int,
            ) {
                Err(e) => Err(e),
                Ok(updates) => Ok(before + updates),
            },
        }
    }
}

proof fn nodes_updates_fail(nodes: Seq<DynamicNodeView>, names: Seq<Seq<char>>, at: int, upto: int)
    requires
        0 < at <= upto,
        nodes_updates(nodes, names, at) is Err,
    ensures
        nodes_updates(nodes, names, upto) == nodes_updates(nodes, names, at),
    decreases upto - at,
{
    if at < upto {
        nodes_updates_fail(nodes, names, at, upto - 1);
    }
}

proof fn roots_updates_fail(roots: Seq<RootView>, names: Seq<Seq<char>>, at: int, upto: int)
    requires
        0 < at <= upto,
        roots_updates(roots, names, at) is Err,
    ensures
        roots_updates(roots, names, upto) == roots_updates(roots, names, at),
    decreases upto - at,
{
    if at < upto {
        roots_updates_fail(roots, names, at, upto - 1);
    }
}

/// The items of a vector in the opposite order.
fn reversed(mut items: Vec<Updater>) -> (back: Vec<Updater>)
    ensures
        back@ == items@.reverse(),
{
    let ghost all = items@;
    let mut back: Vec<Updater> = Vec::new();
    while items.len() > 0
        invariant
            items@.len() <= all.len(),
            items@ == all.take(items@.len() as int),
            back@.len() == all.len() - items@.len(),
            forall|i: int| 0 <= i < back@.len() ==> back@[i] == all[all.len() - 1 - i],
        decreases items@.len(),
    {
        let item = items.pop().unwrap();
        back.push(item);
    }
    proof {
        assert(back@ =~= all.reverse());
    }
    back
}

impl Root {
    /// Completes the listeners of each dynamic node of the root.
    pub fn complete_listeners(&mut self, names: &Vec<String>)
        ensures
            final(self)@ == completed_root(old(self)@, texts_view(names@)),
            old(self).wf() ==> final(self).wf(),
            old(self).ordered() ==> final(self).ordered(),
    {
        let ghost before = nodes_view(self.dynamic_nodes@);
        let mut i: usize = 0;
        while i < self.dynamic_nodes.len()
            invariant
                i <= self.dynamic_nodes@.len(),
                self.dynamic_nodes@.len() == before.len(),
                self.idx == old(self).idx,
                self.root_name == old(self).root_name,
                before == nodes_view(old(self).dynamic_nodes@),
                forall|j: int|
                    0 <= j < i ==> (#[trigger] self.dynamic_nodes@[j])@ == completed(
                        before[j],
                        texts_view(names@),
                    ),
                forall|j: int|
                    i <= j < before.len() ==> (#[trigger] self.dynamic_nodes@[j])@ == before[j],
            decreases self.dynamic_nodes@.len() - i,
        {
            self.dynamic_nodes[i].complete_listeners(names);
            i = i + 1;
        }
        proof {
            assert(nodes_view(self.dynamic_nodes@) =~= completed_root(
                old(self)@,
                texts_view(names@),
            ).dynamic_nodes);
            if old(self).wf() {
                assert forall|i: int| 0 <= i < self.dynamic_nodes@.len() implies (
                #[trigger] self.dynamic_nodes@[i]).id == i by {
                    assert(self.dynamic_nodes@[i]@.id == before[i].id);
                    assert(before[i].id == old(self).dynamic_nodes@[i].id);
                }
                let nodes0 = old(self).dynamic_nodes@;
                let at = choose|i: int|
                    0 <= i < nodes0.len() && (#[trigger] nodes0[i]).path@.len() == 0;
                assert(self.dynamic_nodes@[at]@.path == before[at].path);
                assert(self.dynamic_nodes@[at].path@.len() == 0);
            }
            if old(self).ordered() {
                let paths0 = crate::traversal::paths_of(old(self).dynamic_nodes@);
                let paths = crate::traversal::paths_of(self.dynamic_nodes@);
                assert forall|i: int| 0 <= i < paths.len() implies paths[i] == paths0[i] by {
                    assert(self.dynamic_nodes@[i]@.path == before[i].path);
                    assert(before[i].path == old(self).dynamic_nodes@[i].path@);
                }
                assert(paths =~= paths0);
            }
        }
    }

    /// The updates of the dynamic nodes of the root, in their order.
    pub fn updates(&self, names: &Vec<String>) -> (r: Result<Vec<Updater>, BuildError>)
        ensures
            match r {
                Ok(updates) => nodes_updates(
                    self@.dynamic_nodes,
                    texts_view(names@),
                    self@.dynamic_nodes.len() as int,
                ) == Ok::<Seq<UpdaterView>, BuildErrorView>(updaters_view(updates@))
                    && updates_below(updaters_view(updates@), names@.len() as int),
                Err(e) => nodes_updates(
                    self@.dynamic_nodes,
                    texts_view(names@),
                    self@.dynamic_nodes.len() as int,
                ) == Err::<Seq<UpdaterView>, BuildErrorView>(e@),
            },
    {
        let mut updates: Vec<Updater> = Vec::new();
        let mut i: usize = 0;
        proof {
            assert(updaters_view(updates@) =~= Seq::empty());
        }
        while i < self.dynamic_nodes.len()
            invariant
                i <= self.dynamic_nodes@.len(),
                nodes_updates(self@.dynamic_nodes, texts_view(names@), i as int) == Ok::<
                    Seq<UpdaterView>,
                    BuildErrorView,
                >(updaters_view(updates@)),
                updates_below(updaters_view(updates@), names@.len() as int),
            decreases self.dynamic_nodes@.len() - i,
        {
            let ghost before = updaters_view(updates@);
            proof {
                assert(self@.dynamic_nodes[i as int] == self.dynamic_nodes@[i as int]@);
            }
            match self.dynamic_nodes[i].update(names) {
                Err(e) => {
                    proof {
                        let failed = nodes_updates(self@.dynamic_nodes, texts_view(names@), i + 1);
                        assert(failed == Err::<Seq<UpdaterView>, BuildErrorView>(e@));
                        nodes_updates_fail(
                            self@.dynamic_nodes,
                            texts_view(names@),
                            i + 1,
                            self@.dynamic_nodes.len() as int,
                        );
                    }
                    return Err(e);
                },
                Ok(mut more) => {
                    let ghost added = updaters_view(more@);
                    updates.append(&mut more);
                    proof {
                        assert(updaters_view(updates@) =~= before + added);
                    }
                },
            }
            i = i + 1;
        }
        Ok(updates)
    }
}

impl Elements {
    /// Makes a derived cell of every update of a dynamic node, and finds
    /// for every listener the cells that its closure names.
    ///
    /// The names of cells are those that `builder` holds on entry. The new
    /// cells take the next slots in the order of the roots, of the dynamic
    /// nodes and of their updates; their slots are recorded. The build
    /// fails where a formatted segment names no cell and on a fragment.
    pub fn construct_memos(&mut self, builder: &mut ComponentBuilder) -> (r: Result<(), BuildError>)
        requires
            old(builder).wf(),
        ensures
            final(self).slots == old(self).slots,
            final(self).keys == old(self).keys,
            final(self).creation == old(self).creation,
            final(self).current_path == old(self).current_path,
            roots_view(final(self).roots@) == completed_roots(
                roots_view(old(self).roots@),
                texts_view(old(builder).names@),
            ),
            forall|i: int|
                0 <= i < old(self).roots@.len() && (#[trigger] old(self).roots@[i]).wf()
                    ==> final(self).roots@[i].wf(),
            forall|i: int|
                0 <= i < old(self).roots@.len() && (#[trigger] old(self).roots@[i]).ordered()
                    ==> final(self).roots@[i].ordered(),
            final(builder).rsx == old(builder).rsx,
            final(builder).name == old(builder).name,
            final(builder).in_reactive == old(builder).in_reactive,
            match r {
                Ok(()) => {
                    let found = roots_updates(
                        roots_view(final(self).roots@),
                        texts_view(old(builder).names@),
                        final(self).roots@.len() as int,
                    );
                    &&& found is Ok
                    &&& final(builder).wf()
                    &&& cells_view(final(builder).cells@) == bound_cells(
                        cells_view(old(builder).cells@),
                        found->Ok_0,
                        found->Ok_0.len() as int,
                    )
                    &&& final(self).memo_ids@ == old(self).memo_ids@ + Seq::new(
                        found->Ok_0.len(),
                        |i: int| (old(builder).cells@.len() + i) as usize,
                    )
                },
                Err(e) => roots_updates(
                    roots_view(final(self).roots@),
                    texts_view(old(builder).names@),
                    final(self).roots@.len() as int,
                ) == Err::<Seq<UpdaterView>, BuildErrorView>(e@),
            },
    {
        let ghost names = texts_view(builder.names@);
        let ghost roots0 = roots_view(self.roots@);
        let mut r: usize = 0;
        while r < self.roots.len()
            invariant
                r <= self.roots@.len(),
                self.roots@.len() == roots0.len(),
                self.slots == old(self).slots,
                self.keys == old(self).keys,
                self.creation == old(self).creation,
                self.current_path == old(self).current_path,
                self.memo_ids == old(self).memo_ids,
                *builder == *old(builder),
                names == texts_view(builder.names@),
                roots0 == roots_view(old(self).roots@),
                forall|j: int|
                    0 <= j < r ==> (#[trigger] self.roots@[j])@ == completed_root(roots0[j], names),
                forall|j: int| r <= j < roots0.len() ==> (#[trigger] self.roots@[j])@ == roots0[j],
                forall|j: int|
                    0 <= j < roots0.len() && (#[trigger] old(self).roots@[j]).wf()
                        ==> self.roots@[j].wf(),
                forall|j: int|
                    0 <= j < roots0.len() && (#[trigger] old(self).roots@[j]).ordered()
                        ==> self.roots@[j].ordered(),
            decreases self.roots@.len() - r,
        {
            proof {
                assert(self.roots@[r as int]@ == roots0[r as int]);
                assert(old(self).roots@[r as int].wf() ==> self.roots@[r as int].wf());
                assert(old(self).roots@[r as int].ordered() ==> self.roots@[r as int].ordered());
            }
            self.roots[r].complete_listeners(&builder.names);
            r = r + 1;
        }
        proof {
            assert(roots_view(self.roots@) =~= completed_roots(roots0, names));
        }
        let ghost roots1 = roots_view(self.roots@);
        let mut updates: Vec<Updater> = Vec::new();
        proof {
            assert(updaters_view(updates@) =~= Seq::empty());
        }
        let mut r: usize = 0;
        while r < self.roots.len()
            invariant
                r <= self.roots@.len(),
                self.roots@.len() == old(self).roots@.len(),
                self.slots == old(self).slots,
                self.keys == old(self).keys,
                self.creation == old(self).creation,
                self.current_path == old(self).current_path,
                self.memo_ids == old(self).memo_ids,
                *builder == *old(builder),
                roots1 == completed_roots(roots_view(old(self).roots@), names),
                forall|j: int|
                    0 <= j < old(self).roots@.len() && (#[trigger] old(self).roots@[j]).wf()
                        ==> self.roots@[j].wf(),
                forall|j: int|
                    0 <= j < old(self).roots@.len() && (#[trigger] old(self).roots@[j]).ordered()
                        ==> self.roots@[j].ordered(),
                roots1 == roots_view(self.roots@),
                names == texts_view(builder.names@),
                roots_updates(roots1, names, r as int) == Ok::<Seq<UpdaterView>, BuildErrorView>(
                    updaters_view(updates@),
                ),
                updates_below(updaters_view(updates@), builder.names@.len() as int),
            decreases self.roots@.len() - r,
        {
            let ghost before = updaters_view(updates@);
            proof {
                assert(roots1[r as int] == self.roots@[r as int]@);
            }
            match self.roots[r].updates(&builder.names) {
                Err(e) => {
                    proof {
                        assert(roots_updates(roots1, names, r + 1) == Err::<
                            Seq<UpdaterView>,
                            BuildErrorView,
                        >(e@));
                        roots_updates_fail(roots1, names, r + 1, roots1.len() as int);
                    }
                    return Err(e);
                },
                Ok(mut more) => {
                    let ghost added = updaters_view(more@);
                    updates.append(&mut more);
                    proof {
                        assert(updaters_view(updates@) =~= before + added);
                    }
                },
            }
            r = r + 1;
        }
        let ghost found = updaters_view(updates@);
        let total = updates.len();
        proof {
            assert(found.len() == total);
        }
        let ghost cells0 = cells_view(builder.cells@);
        let ghost ids0 = self.memo_ids@;
        let ghost count = builder.cells@.len();
        proof {
            assert(texts_view(builder.names@).len() == crate::component::cell_names(cells0).len());
        }
        let ghost roots_final = self.roots@;
        let mut back = reversed(updates);
        let mut k: usize = 0;
        while back.len() > 0
            invariant
                k + back@.len() == found.len(),
                found.len() == total,
                self.roots@.len() == old(self).roots@.len(),
                builder.wf(),
                builder.rsx == old(builder).rsx,
                builder.name == old(builder).name,
                builder.in_reactive == old(builder).in_reactive,
                self.slots == old(self).slots,
                self.keys == old(self).keys,
                self.creation == old(self).creation,
                self.current_path == old(self).current_path,
                self.roots@ == roots_final,
                roots1 == roots_view(self.roots@),
                forall|j: int|
                    0 <= j < old(self).roots@.len() && (#[trigger] old(self).roots@[j]).wf()
                        ==> self.roots@[j].wf(),
                forall|j: int|
                    0 <= j < old(self).roots@.len() && (#[trigger] old(self).roots@[j]).ordered()
                        ==> self.roots@[j].ordered(),
                count == old(builder).cells@.len(),
                builder.cells@.len() == count + k,
                updates_below(found, count as int),
                forall|j: int|
                    0 <= j < back@.len() ==> (#[trigger] back@[j])@ == found[found.len() - 1 - j],
                cells_view(builder.cells@) == bound_cells(cells0, found, k as int),
                self.memo_ids@ == ids0 + Seq::new(k as nat, |i: int| (count + i) as usize),
            decreases back@.len(),
        {
            let update = back.pop().unwrap();
            proof {
                assert(update@ == found[k as int]);
                assert(crate::component_visitor::pieces_below(
                    found[k as int].pieces(),
                    count as int,
                ));
            }
            let id = builder.bind(update);
            self.memo_ids.push(id);
            proof {
                assert(self.memo_ids@ =~= ids0 + Seq::new(
                    (k + 1) as nat,
                    |i: int| (count + i) as usize,
                ));
            }
            k = k + 1;
        }
        Ok(())
    }
}

} // verus!
