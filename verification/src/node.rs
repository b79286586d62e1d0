//! Dynamic nodes of a template, and the plan that finds them again in a
//! clone of it.
//!
//! Each dynamic node is located by its path: the moves from the root of its
//! template, to a first child or to a next sibling. The planner merges the
//! paths of one template into a trie, so that a move that several paths begin
//! with is made once.

use vstd::prelude::*;
use crate::component_visitor::{
    find_cell, first_named, pieces_below, slots_in_rising, subscriptions, subscriptions_spec,
    visit_idents_spec,
};
use crate::error::{BuildError, BuildErrorView, NodeKind};
use crate::expr::{list_at, texts_view, Code, CodeView};
use crate::format::{FormattedText, FormattedTextView, Segment, SegmentView};
use crate::memo::{pieces_view, Piece, PieceView, Updater, UpdaterView};
use crate::rsx::Root;
use crate::text::{trim, trimmed};

verus! {

/// One step of a walk through a cloned template.
#[derive(Clone, Copy, Debug, PartialEq, Eq, Structural)]
pub enum TraverseOperation {
    /// Step down to the first child of the current node.
    FirstChild,
    /// Step across to the next sibling of the current node.
    NextSibling,
}

/// A listener on an element: the attribute's key (`onclick`), the closure,
/// and the state cells that the closure names.
#[derive(Debug)]
pub struct Listener {
    pub key: String,
    pub value: Code,
    pub states_used: Vec<usize>,
}

/// An attribute whose value is computed: its key and the text that gives
/// the value.
#[derive(Debug)]
pub struct DynamicAttribute {
    pub key: String,
    pub value: FormattedText,
}

/// What is dynamic about an element.
#[derive(Debug)]
pub struct DynElement {
    pub attributes: Vec<DynamicAttribute>,
    pub listeners: Vec<Listener>,
}

/// A text node whose content is computed.
#[derive(Debug)]
pub struct DynText {
    pub text: FormattedText,
}

/// A place where a list of child components goes; the source of the
/// expression that gives them.
#[derive(Debug)]
pub struct DynFragment {
    pub children: String,
}

/// The kind of a dynamic node.
#[derive(Debug)]
pub enum DynamicNodeType {
    Element(DynElement),
    Text(DynText),
    Fragment(DynFragment),
}

/// A node of a template that each instance needs a handle on.
#[derive(Debug)]
pub struct DynamicNode {
    /// The index of the root under which the node lies.
    pub root_id: usize,
    /// The node's number among the dynamic nodes of its root.
    pub id: usize,
    /// The moves from the root to the node.
    pub path: Vec<TraverseOperation>,
    pub node: DynamicNodeType,
}

/// What a [`Listener`] holds.
pub struct ListenerView {
    pub key: Seq<char>,
    pub value: CodeView,
    pub states_used: Seq<usize>,
}

/// What a [`DynamicAttribute`] holds.
pub struct DynamicAttributeView {
    pub key: Seq<char>,
    pub value: FormattedTextView,
}

/// What a [`DynamicNodeType`] holds.
pub enum DynamicNodeTypeView {
    Element { attributes: Seq<DynamicAttributeView>, listeners: Seq<ListenerView> },
    Text { text: FormattedTextView },
    Fragment { children: Seq<char> },
}

/// What a [`DynamicNode`] holds.
pub struct DynamicNodeView {
    pub root_id: usize,
    pub id: usize,
    pub path: Seq<TraverseOperation>,
    pub node: DynamicNodeTypeView,
}

impl View for Listener {
    type V = ListenerView;

    open spec fn view(&self) -> ListenerView {
        ListenerView { key: self.key@, value: self.value@, states_used: self.states_used@ }
    }
}

impl View for DynamicAttribute {
    type V = DynamicAttributeView;

    open spec fn view(&self) -> DynamicAttributeView {
        DynamicAttributeView { key: self.key@, value: self.value@ }
    }
}

impl View for DynamicNodeType {
    type V = DynamicNodeTypeView;

    open spec fn view(&self) -> DynamicNodeTypeView {
        match self {
            DynamicNodeType::Element(e) => DynamicNodeTypeView::Element {
                attributes: Seq::new(e.attributes@.len(), |i: int| e.attributes@[i]@),
                listeners: Seq::new(e.listeners@.len(), |i: int| e.listeners@[i]@),
            },
            DynamicNodeType::Text(t) => DynamicNodeTypeView::Text { text: t.text@ },
            DynamicNodeType::Fragment(f) => DynamicNodeTypeView::Fragment { children: f.children@ },
        }
    }
}

impl View for DynamicNode {
    type V = DynamicNodeView;

    open spec fn view(&self) -> DynamicNodeView {
        DynamicNodeView { root_id: self.root_id, id: self.id, path: self.path@, node: self.node@ }
    }
}

/// One statement of the plan that gives an instance its node handles.
#[derive(Clone, Copy, Debug, PartialEq, Eq, Structural)]
pub enum PlanStep {
    /// Take a fresh handle for dynamic node `id` of root `root`.
    Node { root: usize, id: usize },
    /// Clone the cached template of root `root` under the handle of its
    /// dynamic node `into`.
    CloneTemplate { root: usize, into: usize },
    /// Let the handle of node `to` name what the handle of node `from` names.
    Copy { root: usize, from: usize, to: usize },
    /// Move the handle of node `id` to the first child of what it names.
    FirstChild { root: usize, id: usize },
    /// Move the handle of node `id` to the next sibling of what it names.
    NextSibling { root: usize, id: usize },
}

/// A node of the trie of paths. It stands for one position in the template;
/// `id` is the dynamic node whose handle is at that position while the plan
/// passes through it: the first whose path reached it.
#[derive(Debug)]
pub struct TraverseNode {
    pub id: usize,
    pub next: Option<Box<TraverseNode>>,
    pub child: Option<Box<TraverseNode>>,
}

/// A trie node without successors.
pub open spec fn leaf(id: usize) -> TraverseNode {
    TraverseNode { id, next: None, child: None }
}

/// The trie `t` after the path `path` of dynamic node `id` was added: the
/// positions that the path passes and that `t` lacks are added under `id`.
pub open spec fn insert_spec(t: TraverseNode, id: usize, path: Seq<TraverseOperation>)
    -> TraverseNode
    decreases path.len(),
{
    if path.len() == 0 {
        t
    } else {
        match path[0] {
            TraverseOperation::FirstChild => {
                let sub = match t.child {
                    Some(c) => *c,
                    None => leaf(id),
                };
                TraverseNode {
                    id: t.id,
                    next: t.next,
                    child: Some(Box::new(insert_spec(sub, id, path.drop_first()))),
                }
            },
            TraverseOperation::NextSibling => {
                let sub = match t.next {
                    Some(n) => *n,
                    None => leaf(id),
                };
                TraverseNode {
                    id: t.id,
                    next: Some(Box::new(insert_spec(sub, id, path.drop_first()))),
                    child: t.child,
                }
            },
        }
    }
}

/// The moves that lead from the position of `t` to every position below it:
/// first those through the next sibling, then those through the first child.
/// Where the successor belongs to another dynamic node, that node's handle
/// is first made a copy of this one.
pub open spec fn emit_spec(t: TraverseNode, root: usize) -> Seq<PlanStep>
    decreases t,
{
    let next = match t.next {
        None => Seq::empty(),
        Some(n) => (if n.id != t.id {
            seq![
                PlanStep::Copy { root, from: t.id, to: n.id },
                PlanStep::NextSibling { root, id: n.id },
            ]
        } else {
            seq![PlanStep::NextSibling { root, id: t.id }]
        }) + emit_spec(*n, root),
    };
    let child = match t.child {
        None => Seq::empty(),
        Some(c) => (if c.id != t.id {
            seq![
                PlanStep::Copy { root, from: t.id, to: c.id },
                PlanStep::FirstChild { root, id: c.id },
            ]
        } else {
            seq![PlanStep::FirstChild { root, id: t.id }]
        }) + emit_spec(*c, root),
    };
    next + child
}

impl TraverseNode {
    /// Adds the rest of `path`, from position `from` on, below this node,
    /// for dynamic node `id`.
    pub fn insert(self, id: usize, path: &Vec<TraverseOperation>, from: usize) -> (r: Self)
        requires
            from <= path@.len(),
        ensures
            r == insert_spec(self, id, path@.skip(from as int)),
        decreases path@.len() - from,
    {
        if from >= path.len() {
            return self;
        }
        proof {
            assert(path@.skip(from as int).drop_first() =~= path@.skip(from + 1));
        }
        let TraverseNode { id: own, next, child } = self;
        match path[from] {
            TraverseOperation::FirstChild => {
                let sub = match child {
                    Some(c) => *c,
                    None => TraverseNode { id, next: None, child: None },
                };
                let sub = sub.insert(id, path, from + 1);
                TraverseNode { id: own, next, child: Some(Box::new(sub)) }
            },
            TraverseOperation::NextSibling => {
                let sub = match next {
                    Some(n) => *n,
                    None => TraverseNode { id, next: None, child: None },
                };
                let sub = sub.insert(id, path, from + 1);
                TraverseNode { id: own, next: Some(Box::new(sub)), child }
            },
        }
    }

    /// Appends to `out` the moves that lead from this position to every
    /// position below it.
    #[verifier::spinoff_prover]
    #[verifier::rlimit(60)]
    pub fn emit(&self, root: usize, out: &mut Vec<PlanStep>)
        ensures
            final(out)@ == old(out)@ + emit_spec(*self, root),
        decreases self,
    {
        let ghost before = out@;
        match &self.next {
            None => {},
            Some(n) => {
                if n.id != self.id {
                    out.push(PlanStep::Copy { root, from: self.id, to: n.id });
                    out.push(PlanStep::NextSibling { root, id: n.id });
                } else {
                    out.push(PlanStep::NextSibling { root, id: self.id });
                }
                n.emit(root, out);
            },
        }
        match &self.child {
            None => {},
            Some(c) => {
                if c.id != self.id {
                    out.push(PlanStep::Copy { root, from: self.id, to: c.id });
                    out.push(PlanStep::FirstChild { root, id: c.id });
                } else {
                    out.push(PlanStep::FirstChild { root, id: self.id });
                }
                c.emit(root, out);
            },
        }
        proof {
            assert(out@ =~= before + emit_spec(*self, root));
        }
    }
}


/// The first of `nodes` whose path is empty, or their number if none is.
pub open spec fn root_node(nodes: Seq<DynamicNode>) -> int
    decreases nodes.len(),
{
    if nodes.len() == 0 {
        0
    } else if nodes[0].path@.len() == 0 {
        0
    } else {
        1 + root_node(nodes.drop_first())
    }
}

/// The trie of the paths of the first `k` of `nodes`, under the root node.
pub open spec fn plan_tree(nodes: Seq<DynamicNode>, k: int) -> TraverseNode
    decreases k,
{
    if k <= 0 {
        leaf(root_node(nodes) as usize)
    } else {
        insert_spec(plan_tree(nodes, k - 1), nodes[k - 1].id, nodes[k - 1].path@)
    }
}

/// A fresh handle for each of the `count` dynamic nodes of root `root`.
pub open spec fn node_steps(root: usize, count: nat) -> Seq<PlanStep> {
    Seq::new(count, |i: int| PlanStep::Node { root, id: i as usize })
}

/// The handles of the first `k` roots.
pub open spec fn all_node_steps(roots: Seq<Root>, k: int) -> Seq<PlanStep>
    decreases k,
{
    if k <= 0 {
        Seq::empty()
    } else {
        all_node_steps(roots, k - 1) + node_steps(
            (k - 1) as usize,
            roots[k - 1].dynamic_nodes@.len(),
        )
    }
}

/// The clones of the templates of the first `k` roots.
pub open spec fn clone_steps(roots: Seq<Root>, k: int) -> Seq<PlanStep>
    decreases k,
{
    if k <= 0 {
        Seq::empty()
    } else {
        clone_steps(roots, k - 1).push(
            PlanStep::CloneTemplate {
                root: (k - 1) as usize,
                into: root_node(roots[k - 1].dynamic_nodes@) as usize,
            },
        )
    }
}

/// The moves through one root.
pub open spec fn root_moves(nodes: Seq<DynamicNode>, root: usize) -> Seq<PlanStep> {
    emit_spec(plan_tree(nodes, nodes.len() as int), root)
}

/// The moves through the first `k` roots.
pub open spec fn traverse_steps(roots: Seq<Root>, k: int) -> Seq<PlanStep>
    decreases k,
{
    if k <= 0 {
        Seq::empty()
    } else {
        traverse_steps(roots, k - 1) + root_moves(roots[k - 1].dynamic_nodes@, (k - 1) as usize)
    }
}

/// The plan for `roots`: a handle for every dynamic node, then a clone of
/// each root's template, then the moves through each root.
pub open spec fn plan_spec(roots: Seq<Root>) -> Seq<PlanStep> {
    all_node_steps(roots, roots.len() as int) + clone_steps(roots, roots.len() as int)
        + traverse_steps(roots, roots.len() as int)
}

/// The position of the root's own node among `nodes`.
pub fn find_root_node(nodes: &Vec<DynamicNode>) -> (at: usize)
    requires
        exists|i: int| 0 <= i < nodes@.len() && (#[trigger] nodes@[i]).path@.len() == 0,
    ensures
        at == root_node(nodes@),
        at < nodes@.len(),
{
    let mut i: usize = 0;
    proof {
        assert(nodes@.skip(0) =~= nodes@);
    }
    while i < nodes.len()
        invariant
            i <= nodes@.len(),
            root_node(nodes@) == i + root_node(nodes@.skip(i as int)),
            forall|j: int| 0 <= j < i ==> (#[trigger] nodes@[j]).path@.len() != 0,
        decreases nodes@.len() - i,
    {
        if nodes[i].path.len() == 0 {
            proof {
                assert(nodes@.skip(i as int)[0] == nodes@[i as int]);
            }
            return i;
        }
        proof {
            assert(nodes@.skip(i as int)[0] == nodes@[i as int]);
            assert(nodes@.skip(i as int).drop_first() =~= nodes@.skip(i + 1));
        }
        i = i + 1;
    }
    proof {
        assert(false);
    }
    i
}

/// Plans how an instance gets its node handles: a fresh handle for every
/// dynamic node, a clone of each root's template, and the moves that bring
/// each handle to its node, a move that several paths share being made once.
pub fn update_dyn_nodes(roots: &Vec<Root>) -> (plan: Vec<PlanStep>)
    requires
        forall|r: int| 0 <= r < roots@.len() ==> (#[trigger] roots@[r]).wf(),
    ensures
        plan@ == plan_spec(roots@),
{
    let mut plan: Vec<PlanStep> = Vec::new();
    let mut r: usize = 0;
    while r < roots.len()
        invariant
            r <= roots@.len(),
            plan@ == all_node_steps(roots@, r as int),
        decreases roots@.len() - r,
    {
        let count = roots[r].dynamic_nodes.len();
        let ghost before = plan@;
        let mut i: usize = 0;
        while i < count
            invariant
                i <= count,
                r < roots@.len(),
                count == roots@[r as int].dynamic_nodes@.len(),
                plan@ == before + node_steps(r, i as nat),
            decreases count - i,
        {
            plan.push(PlanStep::Node { root: r, id: i });
            proof {
                assert(plan@ =~= before + node_steps(r, (i + 1) as nat));
            }
            i = i + 1;
        }
        r = r + 1;
    }
    let ghost nodes_part = plan@;
    let mut r: usize = 0;
    while r < roots.len()
        invariant
            r <= roots@.len(),
            forall|r: int| 0 <= r < roots@.len() ==> (#[trigger] roots@[r]).wf(),
            plan@ == nodes_part + clone_steps(roots@, r as int),
        decreases roots@.len() - r,
    {
        proof {
            assert(roots@[r as int].wf());
        }
        let into = find_root_node(&roots[r].dynamic_nodes);
        plan.push(PlanStep::CloneTemplate { root: r, into });
        proof {
            assert(plan@ =~= nodes_part + clone_steps(roots@, r + 1));
        }
        r = r + 1;
    }
    let ghost clones_part = plan@;
    let mut r: usize = 0;
    while r < roots.len()
        invariant
            r <= roots@.len(),
            forall|r: int| 0 <= r < roots@.len() ==> (#[trigger] roots@[r]).wf(),
            plan@ == clones_part + traverse_steps(roots@, r as int),
        decreases roots@.len() - r,
    {
        proof {
            assert(roots@[r as int].wf());
        }
        let nodes = &roots[r].dynamic_nodes;
        let mut tree = TraverseNode { id: find_root_node(nodes), next: None, child: None };
        let mut i: usize = 0;
        while i < nodes.len()
            invariant
                i <= nodes@.len(),
                tree == plan_tree(nodes@, i as int),
            decreases nodes@.len() - i,
        {
            proof {
                assert(nodes@[i as int].path@.skip(0) =~= nodes@[i as int].path@);
            }
            tree = tree.insert(nodes[i].id, &nodes[i].path, 0);
            i = i + 1;
        }
        let ghost before = plan@;
        tree.emit(r, &mut plan);
        proof {
            assert(plan@ =~= clones_part + traverse_steps(roots@, r + 1));
        }
        r = r + 1;
    }
    plan
}


/// The number of positions in the trie `t`.
pub open spec fn size(t: TraverseNode) -> nat
    decreases t,
{
    1 + (match t.next {
        None => 0nat,
        Some(n) => size(*n),
    }) + (match t.child {
        None => 0nat,
        Some(c) => size(*c),
    })
}

/// The number of moves among `steps`.
pub open spec fn moves(steps: Seq<PlanStep>) -> nat
    decreases steps.len(),
{
    if steps.len() == 0 {
        0
    } else {
        moves(steps.drop_last()) + match steps.last() {
            PlanStep::FirstChild { .. } => 1nat,
            PlanStep::NextSibling { .. } => 1nat,
            _ => 0nat,
        }
    }
}

/// The length of the longest path that both `a` and `b` begin with.
pub open spec fn common_prefix(a: Seq<TraverseOperation>, b: Seq<TraverseOperation>) -> nat
    decreases a.len(),
{
    if a.len() == 0 || b.len() == 0 || a[0] != b[0] {
        0
    } else {
        1 + common_prefix(a.drop_first(), b.drop_first())
    }
}

/// How far `path` can be followed from `t` on positions that the trie has.
pub open spec fn walk(t: TraverseNode, path: Seq<TraverseOperation>) -> nat
    decreases path.len(),
{
    if path.len() == 0 {
        0
    } else {
        let link = match path[0] {
            TraverseOperation::FirstChild => t.child,
            TraverseOperation::NextSibling => t.next,
        };
        match link {
            None => 0,
            Some(sub) => 1 + walk(*sub, path.drop_first()),
        }
    }
}

/// The longest beginning that `path` shares with one of the first `k`
/// paths of `nodes`.
pub open spec fn shared_with_earlier(
    nodes: Seq<DynamicNode>,
    path: Seq<TraverseOperation>,
    k: int,
) -> nat
    decreases k,
{
    if k <= 0 {
        0
    } else {
        let before = shared_with_earlier(nodes, path, k - 1);
        let here = common_prefix(nodes[k - 1].path@, path);
        if here > before {
            here
        } else {
            before
        }
    }
}

/// The lengths of the first `k` paths added up, where of each path only the
/// part counts that it shares with none before it.
pub open spec fn unshared_length(nodes: Seq<DynamicNode>, k: int) -> nat
    decreases k,
{
    if k <= 0 {
        0
    } else {
        let path = nodes[k - 1].path@;
        let shared = shared_with_earlier(nodes, path, k - 1);
        (unshared_length(nodes, k - 1) + path.len() - shared) as nat
    }
}

/// The lengths of the first `k` paths added up.
pub open spec fn total_length(nodes: Seq<DynamicNode>, k: int) -> nat
    decreases k,
{
    if k <= 0 {
        0
    } else {
        total_length(nodes, k - 1) + nodes[k - 1].path@.len()
    }
}

/// The moves of two runs of steps add up.
pub proof fn moves_of_concat(a: Seq<PlanStep>, b: Seq<PlanStep>)
    ensures
        moves(a + b) == moves(a) + moves(b),
    decreases b.len(),
{
    if b.len() == 0 {
        assert(a + b =~= a);
    } else {
        assert((a + b).drop_last() =~= a + b.drop_last());
        assert((a + b).last() == b.last());
        moves_of_concat(a, b.drop_last());
    }
}

/// There is one move for each position of a trie but its root.
pub proof fn moves_of_trie(t: TraverseNode, root: usize)
    ensures
        moves(emit_spec(t, root)) + 1 == size(t),
    decreases t,
{
    let next = match t.next {
        None => Seq::empty(),
        Some(n) => (if n.id != t.id {
            seq![
                PlanStep::Copy { root, from: t.id, to: n.id },
                PlanStep::NextSibling { root, id: n.id },
            ]
        } else {
            seq![PlanStep::NextSibling { root, id: t.id }]
        }) + emit_spec(*n, root),
    };
    let child = match t.child {
        None => Seq::empty(),
        Some(c) => (if c.id != t.id {
            seq![
                PlanStep::Copy { root, from: t.id, to: c.id },
                PlanStep::FirstChild { root, id: c.id },
            ]
        } else {
            seq![PlanStep::FirstChild { root, id: t.id }]
        }) + emit_spec(*c, root),
    };
    moves_of_concat(next, child);
    match t.next {
        None => {},
        Some(n) => {
            moves_of_trie(*n, root);
            let head = if n.id != t.id {
                seq![
                    PlanStep::Copy { root, from: t.id, to: n.id },
                    PlanStep::NextSibling { root, id: n.id },
                ]
            } else {
                seq![PlanStep::NextSibling { root, id: t.id }]
            };
            moves_of_concat(head, emit_spec(*n, root));
            moves_of_head(head);
        },
    }
    match t.child {
        None => {},
        Some(c) => {
            moves_of_trie(*c, root);
            let head = if c.id != t.id {
                seq![
                    PlanStep::Copy { root, from: t.id, to: c.id },
                    PlanStep::FirstChild { root, id: c.id },
                ]
            } else {
                seq![PlanStep::FirstChild { root, id: t.id }]
            };
            moves_of_concat(head, emit_spec(*c, root));
            moves_of_head(head);
        },
    }
}

proof fn moves_of_head(head: Seq<PlanStep>)
    requires
        head.len() == 1 || (head.len() == 2 && head[0] is Copy),
        head.last() is FirstChild || head.last() is NextSibling,
    ensures
        moves(head) == 1,
{
    reveal_with_fuel(moves, 3);
    if head.len() == 2 {
        assert(head.drop_last().drop_last().len() == 0);
        assert(head.drop_last().last() == head[0]);
    } else {
        assert(head.drop_last().len() == 0);
    }
}

/// A path adds as many positions to a trie as it has moves beyond those
/// that the trie already holds.
pub proof fn size_after_insert(t: TraverseNode, id: usize, path: Seq<TraverseOperation>)
    ensures
        walk(t, path) <= path.len(),
        size(insert_spec(t, id, path)) + walk(t, path) == size(t) + path.len(),
    decreases path.len(),
{
    if path.len() > 0 {
        let rest = path.drop_first();
        match path[0] {
            TraverseOperation::FirstChild => {
                match t.child {
                    Some(c) => {
                        size_after_insert(*c, id, rest);
                    },
                    None => {
                        size_after_insert(leaf(id), id, rest);
                        walk_of_leaf(id, rest);
                    },
                }
            },
            TraverseOperation::NextSibling => {
                match t.next {
                    Some(n) => {
                        size_after_insert(*n, id, rest);
                    },
                    None => {
                        size_after_insert(leaf(id), id, rest);
                        walk_of_leaf(id, rest);
                    },
                }
            },
        }
    }
}

proof fn walk_of_leaf(id: usize, path: Seq<TraverseOperation>)
    ensures
        walk(leaf(id), path) == 0,
{
}

/// After a path was added, another can be followed as far as before, or as
/// far as it goes along with the added one, whichever is further.
pub proof fn walk_after_insert(
    t: TraverseNode,
    id: usize,
    added: Seq<TraverseOperation>,
    path: Seq<TraverseOperation>,
)
    ensures
        walk(insert_spec(t, id, added), path) == if common_prefix(added, path) > walk(t, path) {
            common_prefix(added, path)
        } else {
            walk(t, path)
        },
    decreases added.len(),
{
    if added.len() > 0 && path.len() > 0 {
        let sub = match added[0] {
            TraverseOperation::FirstChild => match t.child {
                Some(c) => *c,
                None => leaf(id),
            },
            TraverseOperation::NextSibling => match t.next {
                Some(n) => *n,
                None => leaf(id),
            },
        };
        if added[0] == path[0] {
            walk_after_insert(sub, id, added.drop_first(), path.drop_first());
            walk_of_leaf(id, path.drop_first());
        }
    }
}

proof fn walk_of_plan_tree(nodes: Seq<DynamicNode>, k: int, path: Seq<TraverseOperation>)
    requires
        0 <= k <= nodes.len(),
    ensures
        walk(plan_tree(nodes, k), path) == shared_with_earlier(nodes, path, k),
    decreases k,
{
    if k > 0 {
        walk_of_plan_tree(nodes, k - 1, path);
        walk_after_insert(plan_tree(nodes, k - 1), nodes[k - 1].id, nodes[k - 1].path@, path);
    } else {
        walk_of_leaf(root_node(nodes) as usize, path);
    }
}

proof fn size_of_plan_tree(nodes: Seq<DynamicNode>, k: int)
    requires
        0 <= k <= nodes.len(),
    ensures
        size(plan_tree(nodes, k)) == 1 + unshared_length(nodes, k),
        unshared_length(nodes, k) <= total_length(nodes, k),
    decreases k,
{
    if k > 0 {
        let path = nodes[k - 1].path@;
        size_of_plan_tree(nodes, k - 1);
        walk_of_plan_tree(nodes, k - 1, path);
        size_after_insert(plan_tree(nodes, k - 1), nodes[k - 1].id, path);
    }
}

/// The plan for one root makes as many moves as the paths of its dynamic
/// nodes are long together, where a beginning that a path shares with an
/// earlier one is counted once: never more than the lengths add up to.
pub proof fn moves_count_shared_prefixes_once(nodes: Seq<DynamicNode>, root: usize)
    ensures
        moves(root_moves(nodes, root)) == unshared_length(nodes, nodes.len() as int),
        moves(root_moves(nodes, root)) <= total_length(nodes, nodes.len() as int),
{
    size_of_plan_tree(nodes, nodes.len() as int);
    moves_of_trie(plan_tree(nodes, nodes.len() as int), root);
}

/// Whether `path` begins with `prefix`.
pub open spec fn starts(path: Seq<TraverseOperation>, prefix: Seq<TraverseOperation>) -> bool {
    prefix.len() <= path.len() && path.take(prefix.len() as int) == prefix
}

/// The beginnings of the first `k` paths of `nodes`, the empty one left
/// out: every path that is not empty and that one of them begins with.
/// Each stands for one position of the trie below its root, and so for one
/// move of the plan.
pub open spec fn beginnings(nodes: Seq<DynamicNode>, k: int) -> Set<Seq<TraverseOperation>> {
    Set::new(
        |q: Seq<TraverseOperation>|
            q.len() > 0 && exists|i: int| 0 <= i < k && starts((#[trigger] nodes[i]).path@, q),
    )
}

/// `base`, and the beginnings of `path` that are longer than `lo` and not
/// longer than `hi`.
pub open spec fn grown(
    base: Set<Seq<TraverseOperation>>,
    path: Seq<TraverseOperation>,
    lo: int,
    hi: int,
) -> Set<Seq<TraverseOperation>>
    decreases hi - lo,
{
    if hi <= lo {
        base
    } else {
        grown(base, path, lo, hi - 1).insert(path.take(hi))
    }
}

proof fn common_prefix_bound(a: Seq<TraverseOperation>, b: Seq<TraverseOperation>)
    ensures
        common_prefix(a, b) <= a.len(),
        common_prefix(a, b) <= b.len(),
    decreases a.len(),
{
    if !(a.len() == 0 || b.len() == 0 || a[0] != b[0]) {
        common_prefix_bound(a.drop_first(), b.drop_first());
    }
}

proof fn common_prefix_is_shared(a: Seq<TraverseOperation>, b: Seq<TraverseOperation>, j: int)
    requires
        0 <= j <= common_prefix(a, b),
    ensures
        j <= a.len(),
        j <= b.len(),
        a.take(j) == b.take(j),
    decreases a.len(),
{
    common_prefix_bound(a, b);
    if j > 0 {
        common_prefix_is_shared(a.drop_first(), b.drop_first(), j - 1);
        assert(a.take(j) =~= seq![a[0]] + a.drop_first().take(j - 1));
        assert(b.take(j) =~= seq![b[0]] + b.drop_first().take(j - 1));
    } else {
        assert(a.take(0) =~= b.take(0));
    }
}

proof fn common_prefix_holds_beginnings(
    a: Seq<TraverseOperation>,
    b: Seq<TraverseOperation>,
    q: Seq<TraverseOperation>,
)
    requires
        starts(a, q),
        starts(b, q),
    ensures
        common_prefix(a, b) >= q.len(),
    decreases q.len(),
{
    if q.len() > 0 {
        let n = q.len() as int;
        assert(a.take(n)[0] == q[0]);
        assert(b.take(n)[0] == q[0]);
        assert(a.drop_first().take(n - 1) =~= q.drop_first()) by {
            assert forall|i: int| 0 <= i < n - 1 implies a.drop_first().take(n - 1)[i]
                == q.drop_first()[i] by {
                assert(a.take(n)[i + 1] == q[i + 1]);
            }
        }
        assert(b.drop_first().take(n - 1) =~= q.drop_first()) by {
            assert forall|i: int| 0 <= i < n - 1 implies b.drop_first().take(n - 1)[i]
                == q.drop_first()[i] by {
                assert(b.take(n)[i + 1] == q[i + 1]);
            }
        }
        common_prefix_holds_beginnings(a.drop_first(), b.drop_first(), q.drop_first());
    }
}

proof fn shared_is_the_longest(nodes: Seq<DynamicNode>, path: Seq<TraverseOperation>, k: int)
    requires
        0 <= k <= nodes.len(),
    ensures
        shared_with_earlier(nodes, path, k) <= path.len(),
        forall|i: int|
            0 <= i < k ==> common_prefix((#[trigger] nodes[i]).path@, path) <= shared_with_earlier(
                nodes,
                path,
                k,
            ),
        shared_with_earlier(nodes, path, k) > 0 ==> exists|i: int|
            0 <= i < k && common_prefix((#[trigger] nodes[i]).path@, path) == shared_with_earlier(
                nodes,
                path,
                k,
            ),
    decreases k,
{
    if k > 0 {
        shared_is_the_longest(nodes, path, k - 1);
        common_prefix_bound(nodes[k - 1].path@, path);
        let before = shared_with_earlier(nodes, path, k - 1);
        let here = common_prefix(nodes[k - 1].path@, path);
        if here > before {
            assert(common_prefix(nodes[k - 1].path@, path) == shared_with_earlier(nodes, path, k));
        } else if before > 0 {
            let i = choose|i: int|
                0 <= i < k - 1 && common_prefix((#[trigger] nodes[i]).path@, path) == before;
            assert(common_prefix(nodes[i].path@, path) == shared_with_earlier(nodes, path, k));
        }
    }
}

proof fn grown_counts(
    base: Set<Seq<TraverseOperation>>,
    path: Seq<TraverseOperation>,
    lo: int,
    hi: int,
)
    requires
        base.finite(),
        0 <= lo <= hi <= path.len(),
        forall|j: int| lo < j <= hi ==> !base.contains(#[trigger] path.take(j)),
    ensures
        grown(base, path, lo, hi).finite(),
        grown(base, path, lo, hi).len() == base.len() + (hi - lo),
        forall|q: Seq<TraverseOperation>|
            grown(base, path, lo, hi).contains(q) <==> (base.contains(q) || (lo < q.len() <= hi
                && q == path.take(q.len() as int))),
    decreases hi - lo,
{
    if hi > lo {
        grown_counts(base, path, lo, hi - 1);
        let before = grown(base, path, lo, hi - 1);
        let last = path.take(hi);
        assert(last.len() == hi);
        assert(!before.contains(last));
        assert forall|q: Seq<TraverseOperation>|
            grown(base, path, lo, hi).contains(q) <==> (base.contains(q) || (lo < q.len() <= hi
                && q == path.take(q.len() as int))) by {
            if q == last {
                assert(q.len() == hi);
            }
        }
    }
}

proof fn beginnings_count(nodes: Seq<DynamicNode>, k: int)
    requires
        0 <= k <= nodes.len(),
    ensures
        beginnings(nodes, k).finite(),
        beginnings(nodes, k).len() == unshared_length(nodes, k),
        unshared_length(nodes, k) <= total_length(nodes, k),
    decreases k,
{
    if k <= 0 {
        assert(beginnings(nodes, k) =~= Set::<Seq<TraverseOperation>>::empty());
    } else {
        beginnings_count(nodes, k - 1);
        let path = nodes[k - 1].path@;
        let n = path.len() as int;
        let shared = shared_with_earlier(nodes, path, k - 1) as int;
        let base = beginnings(nodes, k - 1);
        shared_is_the_longest(nodes, path, k - 1);
        assert forall|j: int| shared < j <= n implies !base.contains(#[trigger] path.take(j)) by {
            let q = path.take(j);
            if base.contains(q) {
                let i = choose|i: int| 0 <= i < k - 1 && starts((#[trigger] nodes[i]).path@, q);
                assert(path.take(q.len() as int) =~= q);
                common_prefix_holds_beginnings(nodes[i].path@, path, q);
            }
        }
        grown_counts(base, path, shared, n);
        let more = grown(base, path, shared, n);
        assert forall|q: Seq<TraverseOperation>| more.contains(q) == beginnings(
            nodes,
            k,
        ).contains(q) by {
            if base.contains(q) {
                let i = choose|i: int| 0 <= i < k - 1 && starts((#[trigger] nodes[i]).path@, q);
                assert(starts(nodes[i].path@, q));
            }
            if shared < q.len() <= n && q == path.take(q.len() as int) {
                assert(starts(nodes[k - 1].path@, q));
            }
            if beginnings(nodes, k).contains(q) {
                let i = choose|i: int| 0 <= i < k && starts((#[trigger] nodes[i]).path@, q);
                if i < k - 1 {
                    assert(base.contains(q));
                } else if q.len() <= shared {
                    let e = choose|e: int|
                        0 <= e < k - 1 && common_prefix((#[trigger] nodes[e]).path@, path)
                            == shared;
                    common_prefix_is_shared(nodes[e].path@, path, q.len() as int);
                    assert(starts(nodes[e].path@, q));
                    assert(base.contains(q));
                }
            }
        }
        assert(more =~= beginnings(nodes, k));
    }
}

/// The plan for one root makes one move for each position of the trie
/// below the root, and there is one position for each beginning of a
/// path: the number of moves is the number of the distinct paths, other
/// than the empty one, that the path of a dynamic node begins with.
pub proof fn moves_are_the_distinct_beginnings(nodes: Seq<DynamicNode>, root: usize)
    ensures
        beginnings(nodes, nodes.len() as int).finite(),
        moves(root_moves(nodes, root)) == beginnings(nodes, nodes.len() as int).len(),
{
    beginnings_count(nodes, nodes.len() as int);
    moves_count_shared_prefixes_once(nodes, root);
}

proof fn shared_beginning_shortens(nodes: Seq<DynamicNode>, i: int, j: int, k: int)
    requires
        0 <= i < j < k <= nodes.len(),
        common_prefix(nodes[i].path@, nodes[j].path@) > 0,
    ensures
        unshared_length(nodes, k) < total_length(nodes, k),
    decreases k,
{
    let path = nodes[k - 1].path@;
    shared_is_the_longest(nodes, path, k - 1);
    beginnings_count(nodes, k - 1);
    if k - 1 == j {
        assert(common_prefix(nodes[i].path@, path) <= shared_with_earlier(nodes, path, k - 1));
    } else {
        shared_beginning_shortens(nodes, i, j, k - 1);
    }
}

/// Where the paths of two dynamic nodes of a root begin alike, the plan
/// makes fewer moves than the paths are long together.
pub proof fn shared_beginning_saves_moves(nodes: Seq<DynamicNode>, root: usize, i: int, j: int)
    requires
        0 <= i < j < nodes.len(),
        common_prefix(nodes[i].path@, nodes[j].path@) > 0,
    ensures
        moves(root_moves(nodes, root)) < total_length(nodes, nodes.len() as int),
{
    shared_beginning_shortens(nodes, i, j, nodes.len() as int);
    moves_count_shared_prefixes_once(nodes, root);
}

/// The numbers of the distinct beginnings of the paths of the first `k`
/// roots, added up.
pub open spec fn beginnings_of_roots(roots: Seq<Root>, k: int) -> nat
    decreases k,
{
    if k <= 0 {
        0
    } else {
        beginnings_of_roots(roots, k - 1) + beginnings(
            roots[k - 1].dynamic_nodes@,
            roots[k - 1].dynamic_nodes@.len() as int,
        ).len()
    }
}

proof fn node_steps_move_nothing(root: usize, count: nat)
    ensures
        moves(node_steps(root, count)) == 0,
    decreases count,
{
    if count > 0 {
        assert(node_steps(root, count).drop_last() =~= node_steps(root, (count - 1) as nat));
        node_steps_move_nothing(root, (count - 1) as nat);
    }
}

proof fn handles_and_clones_move_nothing(roots: Seq<Root>, k: int)
    requires
        0 <= k <= roots.len(),
    ensures
        moves(all_node_steps(roots, k)) == 0,
        moves(clone_steps(roots, k)) == 0,
    decreases k,
{
    if k > 0 {
        handles_and_clones_move_nothing(roots, k - 1);
        let steps = node_steps((k - 1) as usize, roots[k - 1].dynamic_nodes@.len());
        node_steps_move_nothing((k - 1) as usize, roots[k - 1].dynamic_nodes@.len());
        moves_of_concat(all_node_steps(roots, k - 1), steps);
        assert(clone_steps(roots, k).drop_last() =~= clone_steps(roots, k - 1));
    }
}

proof fn traverse_moves_count(roots: Seq<Root>, k: int)
    requires
        0 <= k <= roots.len(),
    ensures
        moves(traverse_steps(roots, k)) == beginnings_of_roots(roots, k),
    decreases k,
{
    if k > 0 {
        traverse_moves_count(roots, k - 1);
        let nodes = roots[k - 1].dynamic_nodes@;
        moves_are_the_distinct_beginnings(nodes, (k - 1) as usize);
        moves_of_concat(traverse_steps(roots, k - 1), root_moves(nodes, (k - 1) as usize));
    }
}

/// The plan for a markup makes, in all, one move for each distinct
/// beginning of a path in each root: a move that several paths of a root
/// begin with is made once.
pub proof fn plan_moves_are_the_distinct_beginnings(roots: Seq<Root>)
    ensures
        moves(plan_spec(roots)) == beginnings_of_roots(roots, roots.len() as int),
{
    let n = roots.len() as int;
    handles_and_clones_move_nothing(roots, n);
    traverse_moves_count(roots, n);
    moves_of_concat(all_node_steps(roots, n), clone_steps(roots, n));
    moves_of_concat(all_node_steps(roots, n) + clone_steps(roots, n), traverse_steps(roots, n));
}

/// `listener` with the cells that its closure names: the slots of the cells
/// in `names` whose name is an identifier of the closure's source.
pub open spec fn completed_listener(listener: ListenerView, names: Seq<Seq<char>>) -> ListenerView {
    ListenerView { states_used: subscriptions_spec(names, listener.value.idents), ..listener }
}

/// `node` with each of its listeners completed.
pub open spec fn completed(node: DynamicNodeView, names: Seq<Seq<char>>) -> DynamicNodeView {
    match node.node {
        DynamicNodeTypeView::Element { attributes, listeners } => DynamicNodeView {
            node: DynamicNodeTypeView::Element {
                attributes,
                listeners: Seq::new(
                    listeners.len(),
                    |i: int| completed_listener(listeners[i], names),
                ),
            },
            ..node
        },
        _ => node,
    }
}

/// The number of the pieces that the host supplies among `pieces`.
pub open spec fn host_count(pieces: Seq<PieceView>) -> nat
    decreases pieces.len(),
{
    if pieces.len() == 0 {
        0
    } else if pieces.last() is Host {
        host_count(pieces.drop_last()) + 1
    } else {
        host_count(pieces.drop_last())
    }
}

/// The pieces that stand for the first `k` segments of `text`.
///
/// A literal gives a literal. A formatted segment whose expression, without
/// the blanks around it, is the name of a cell in `names` gives the first
/// such cell: shown as it is displayed where the segment has no format
/// arguments, and as for debugging where they are `?`. Every other
/// formatted segment gives a piece that the host supplies: the engine
/// carries its source and its format arguments, numbers it among the host's
/// pieces of the text, and has it depend on the cells that the identifiers
/// of its expression name.
pub open spec fn resolve_spec(text: FormattedTextView, names: Seq<Seq<char>>, k: int) -> Seq<
    PieceView,
>
    decreases k,
{
    if k <= 0 {
        Seq::empty()
    } else {
        let before = resolve_spec(text, names, k - 1);
        match text.segments[k - 1] {
            SegmentView::Literal(literal) => before.push(PieceView::Literal(literal)),
            SegmentView::Formatted { format_args, segment } => {
                let slot = first_named(names, trimmed(segment));
                if slot < names.len() && format_args.len() == 0 {
                    before.push(PieceView::Cell(slot as usize))
                } else if slot < names.len() && format_args == "?"@ {
                    before.push(PieceView::Debug(slot as usize))
                } else {
                    before.push(
                        PieceView::Host {
                            index: host_count(before) as usize,
                            source: segment,
                            format_args,
                            reads: subscriptions_spec(names, list_at(text.idents, k - 1)),
                        },
                    )
                }
            },
        }
    }
}

/// The pieces that stand for all of a text.
pub open spec fn resolve_text(text: FormattedTextView, names: Seq<Seq<char>>) -> Seq<PieceView> {
    resolve_spec(text, names, text.segments.len() as int)
}

/// The updates of the first `k` computed attributes of a dynamic element.
pub open spec fn attribute_updates(
    root: usize,
    node: usize,
    attributes: Seq<DynamicAttributeView>,
    names: Seq<Seq<char>>,
    k: int,
) -> Seq<UpdaterView>
    decreases k,
{
    if k <= 0 {
        Seq::empty()
    } else {
        attribute_updates(root, node, attributes, names, k - 1).push(
            UpdaterView::Attribute {
                root,
                node,
                key: attributes[k - 1].key,
                pieces: resolve_text(attributes[k - 1].value, names),
            },
        )
    }
}

/// The updates of a dynamic node: one for each computed attribute of an
/// element, one for a text. A fragment has none that can be built.
pub open spec fn update_spec(node: DynamicNodeView, names: Seq<Seq<char>>) -> Result<
    Seq<UpdaterView>,
    BuildErrorView,
> {
    match node.node {
        DynamicNodeTypeView::Element { attributes, listeners } => Ok(
            attribute_updates(node.root_id, node.id, attributes, names, attributes.len() as int),
        ),
        DynamicNodeTypeView::Text { text } => Ok(
            seq![
                UpdaterView::Text {
                    root: node.root_id,
                    node: node.id,
                    pieces: resolve_text(text, names),
                },
            ],
        ),
        DynamicNodeTypeView::Fragment { children } => Err(
            BuildErrorView::Unsupported(NodeKind::Fragment),
        ),
    }
}

/// The updaters of a vector, each by its view.
pub open spec fn updaters_view(updaters: Seq<Updater>) -> Seq<UpdaterView> {
    Seq::new(updaters.len(), |i: int| updaters[i]@)
}

/// Whether each of `updates` reads only cells below `bound`.
pub open spec fn updates_below(updates: Seq<UpdaterView>, bound: int) -> bool {
    forall|i: int| 0 <= i < updates.len() ==> pieces_below((#[trigger] updates[i]).pieces(), bound)
}

/// The pieces that stand for `text`: each formatted segment that is the
/// name of a cell resolved to that cell, and every other one left to the
/// host.
pub fn resolve(text: &FormattedText, names: &Vec<String>) -> (pieces: Vec<Piece>)
    ensures
        pieces_view(pieces@) == resolve_text(text@, texts_view(names@)),
        pieces_below(pieces_view(pieces@), names@.len() as int),
{
    let mut pieces: Vec<Piece> = Vec::new();
    let mut hosts: usize = 0;
    let mut k: usize = 0;
    proof {
        assert(pieces_view(pieces@) =~= Seq::empty());
    }
    while k < text.segments.len()
        invariant
            k <= text.segments@.len(),
            pieces@.len() == k,
            hosts == host_count(pieces_view(pieces@)),
            hosts <= k,
            resolve_spec(text@, texts_view(names@), k as int) == pieces_view(pieces@),
            pieces_below(pieces_view(pieces@), names@.len() as int),
        decreases text.segments@.len() - k,
    {
        let ghost before = pieces_view(pieces@);
        proof {
            assert(text@.segments[k as int] == text.segments@[k as int]@);
        }
        match &text.segments[k] {
            Segment::Literal(literal) => {
                pieces.push(Piece::Literal(literal.clone()));
            },
            Segment::Formatted(f) => {
                let name = trim(f.segment.as_str());
                let slot = find_cell(names, name.as_str());
                if slot < names.len() && f.format_args.as_str().unicode_len() == 0 {
                    pieces.push(Piece::Cell(slot));
                } else if slot < names.len() && crate::text::same_text(
                    f.format_args.as_str(),
                    "?",
                ) {
                    pieces.push(Piece::Debug(slot));
                } else {
                    let reads = if k < text.idents.len() {
                        subscriptions(names, &text.idents[k])
                    } else {
                        let none: Vec<String> = Vec::new();
                        proof {
                            assert(texts_view(none@) =~= Seq::empty());
                        }
                        subscriptions(names, &none)
                    };
                    proof {
                        let idents = list_at(text@.idents, k as int);
                        assert(reads@ == subscriptions_spec(texts_view(names@), idents));
                        slots_in_rising(
                            visit_idents_spec(
                                texts_view(names@),
                                Seq::empty(),
                                idents,
                                idents.len() as int,
                            ),
                            names@.len() as int,
                        );
                    }
                    pieces.push(
                        Piece::Host {
                            index: hosts,
                            source: f.segment.clone(),
                            format_args: f.format_args.clone(),
                            reads,
                        },
                    );
                    hosts = hosts + 1;
                }
            },
        }
        proof {
            let after = pieces_view(pieces@);
            assert(after.drop_last() =~= before);
            assert(after =~= before.push(after.last()));
            assert(after =~= resolve_spec(text@, texts_view(names@), k + 1));
            assert forall|i: int, j: int|
                0 <= i < after.len() && 0 <= j < after[i].reads().len() implies (
            #[trigger] after[i].reads()[j]) < names@.len() by {
                if i < k {
                    assert(after[i] == before[i]);
                }
            }
        }
        k = k + 1;
    }
    pieces
}

impl DynamicNode {
    /// The name of the instance's handle on the node: `__dyn_n_`, the
    /// root, an underscore and the node's number.
    pub fn ident(&self) -> (name: String)
        ensures
            name@ == "__dyn_n_"@ + crate::decimal::decimal(self.root_id as nat) + "_"@
                + crate::decimal::decimal(self.id as nat),
    {
        let mut name = "__dyn_n_".to_owned();
        crate::decimal::write_unsigned(self.root_id as u64, &mut name);
        name.append("_");
        crate::decimal::write_unsigned(self.id as u64, &mut name);
        name
    }

    /// The declaration of the handle's field: its name, a colon and `u32`.
    pub fn type_def(&self) -> (def: String)
        ensures
            def@ == "__dyn_n_"@ + crate::decimal::decimal(self.root_id as nat) + "_"@
                + crate::decimal::decimal(self.id as nat) + ": u32"@,
    {
        let mut def = self.ident();
        def.append(": u32");
        def
    }

    /// Finds for each listener of the node the cells that its closure
    /// names, among the cells called `names`.
    pub fn complete_listeners(&mut self, names: &Vec<String>)
        ensures
            final(self)@ == completed(old(self)@, texts_view(names@)),
    {
        let ghost before = self@;
        match &mut self.node {
            DynamicNodeType::Element(element) => {
                let ghost listeners0 = Seq::new(
                    element.listeners@.len(),
                    |i: int| element.listeners@[i]@,
                );
                let ghost attributes0 = element.attributes;
                let mut i: usize = 0;
                while i < element.listeners.len()
                    invariant
                        i <= element.listeners@.len(),
                        element.listeners@.len() == listeners0.len(),
                        element.attributes == attributes0,
                        forall|j: int|
                            0 <= j < i ==> (#[trigger] element.listeners@[j])@
                                == completed_listener(listeners0[j], texts_view(names@)),
                        forall|j: int|
                            i <= j < listeners0.len() ==> (#[trigger] element.listeners@[j])@
                                == listeners0[j],
                    decreases element.listeners@.len() - i,
                {
                    let used = subscriptions(names, &element.listeners[i].value.idents);
                    element.listeners[i].states_used = used;
                    i = i + 1;
                }
                proof {
                    assert(Seq::new(element.listeners@.len(), |i: int| element.listeners@[i]@)
                        =~= Seq::new(
                        listeners0.len(),
                        |i: int| completed_listener(listeners0[i], texts_view(names@)),
                    ));
                }
            },
            _ => {},
        }
    }

    /// The updates of the node: one for each computed attribute of an
    /// element, one for a text, the formatted segments resolved against
    /// the cells called `names`.
    pub fn update(&self, names: &Vec<String>) -> (r: Result<Vec<Updater>, BuildError>)
        ensures
            match r {
                Ok(updates) => update_spec(self@, texts_view(names@)) == Ok::<
                    Seq<UpdaterView>,
                    BuildErrorView,
                >(updaters_view(updates@)) && updates_below(
                    updaters_view(updates@),
                    names@.len() as int,
                ),
                Err(e) => update_spec(self@, texts_view(names@)) == Err::<
                    Seq<UpdaterView>,
                    BuildErrorView,
                >(e@),
            },
    {
        let mut updates: Vec<Updater> = Vec::new();
        proof {
            assert(updaters_view(updates@) =~= Seq::empty());
        }
        match &self.node {
            DynamicNodeType::Element(element) => {
                let ghost attributes = Seq::new(
                    element.attributes@.len(),
                    |i: int| element.attributes@[i]@,
                );
                let mut k: usize = 0;
                while k < element.attributes.len()
                    invariant
                        k <= element.attributes@.len(),
                        self@.node is Element,
                        self@.node->attributes == attributes,
                        attributes == Seq::new(
                            element.attributes@.len(),
                            |i: int| element.attributes@[i]@,
                        ),
                        attribute_updates(
                            self.root_id,
                            self.id,
                            attributes,
                            texts_view(names@),
                            k as int,
                        ) == updaters_view(updates@),
                        updates_below(updaters_view(updates@), names@.len() as int),
                    decreases element.attributes@.len() - k,
                {
                    let ghost before = updaters_view(updates@);
                    let pieces = resolve(&element.attributes[k].value, names);
                    updates.push(
                        Updater::Attribute {
                            root: self.root_id,
                            node: self.id,
                            key: element.attributes[k].key.clone(),
                            pieces,
                        },
                    );
                    proof {
                        assert(updaters_view(updates@) =~= before.push(
                            UpdaterView::Attribute {
                                root: self.root_id,
                                node: self.id,
                                key: attributes[k as int].key,
                                pieces: pieces_view(pieces@),
                            },
                        ));
                    }
                    k = k + 1;
                }
                Ok(updates)
            },
            DynamicNodeType::Text(text) => {
                let pieces = resolve(&text.text, names);
                updates.push(Updater::Text { root: self.root_id, node: self.id, pieces });
                proof {
                    assert(updaters_view(updates@) =~= seq![
                        UpdaterView::Text {
                            root: self.root_id,
                            node: self.id,
                            pieces: pieces_view(pieces@),
                        },
                    ]);
                }
                Ok(updates)
            },
            DynamicNodeType::Fragment(_) => Err(BuildError::Unsupported(NodeKind::Fragment)),
        }
    }
}

} // verus!
