//! What the traversal plan does to the handles.
//!
//! A position in a template is the path that leads to it from the root.
//! The handles of the dynamic nodes of one root are followed through the
//! moves of the plan; where the dynamic nodes stand in document order,
//! which is the order in which the builder records them, every handle ends
//! at the position of its node.

use vstd::prelude::*;
use crate::node::{
    emit_spec, insert_spec, leaf, plan_tree, root_moves, root_node, DynamicNode,
    DynamicNodeTypeView, PlanStep, TraverseNode, TraverseOperation,
};
use crate::rsx::{
    attributes_spec, build_element_spec, build_node_spec, children_spec, dynamic_node,
    sibling_path, AttributeState, BuildState, CreateOpView, Node, NodeElement,
};

verus! {

/// Whether the path `path` begins with the path `prefix`.
pub open spec fn begins_with(path: Seq<TraverseOperation>, prefix: Seq<TraverseOperation>) -> bool {
    prefix.len() <= path.len() && path.take(prefix.len() as int) == prefix
}

/// Whether the position `a` comes before the position `b` in the document:
/// a node comes before all that is below it, and all that is below a node
/// comes before its next sibling.
pub open spec fn comes_before(a: Seq<TraverseOperation>, b: Seq<TraverseOperation>) -> bool
    decreases a.len(),
{
    if a.len() == 0 {
        b.len() > 0
    } else if b.len() == 0 {
        false
    } else if a[0] == b[0] {
        comes_before(a.drop_first(), b.drop_first())
    } else {
        a[0] == TraverseOperation::FirstChild
    }
}

/// Whether `paths` stand in document order.
pub open spec fn in_document_order(paths: Seq<Seq<TraverseOperation>>) -> bool {
    forall|i: int, j: int| 0 <= i < j < paths.len() ==> comes_before(paths[i], paths[j])
}

/// The paths of dynamic nodes.
pub open spec fn paths_of(nodes: Seq<DynamicNode>) -> Seq<Seq<TraverseOperation>> {
    Seq::new(nodes.len(), |i: int| nodes[i].path@)
}

/// Where the handles stand after `step`, if they stood at `at` before it.
/// A step that names a handle that does not exist changes nothing.
pub open spec fn moved(at: Seq<Seq<TraverseOperation>>, step: PlanStep) -> Seq<
    Seq<TraverseOperation>,
> {
    match step {
        PlanStep::Copy { root, from, to } => if from < at.len() && to < at.len() {
            at.update(to as int, at[from as int])
        } else {
            at
        },
        PlanStep::FirstChild { root, id } => if id < at.len() {
            at.update(id as int, at[id as int].push(TraverseOperation::FirstChild))
        } else {
            at
        },
        PlanStep::NextSibling { root, id } => if id < at.len() {
            at.update(id as int, at[id as int].push(TraverseOperation::NextSibling))
        } else {
            at
        },
        PlanStep::CloneTemplate { root, into } => if into < at.len() {
            at.update(into as int, Seq::empty())
        } else {
            at
        },
        PlanStep::Node { root, id } => at,
    }
}

/// Where the handles stand after `steps`, if they stood at `at` before.
pub open spec fn run_steps(steps: Seq<PlanStep>, at: Seq<Seq<TraverseOperation>>) -> Seq<
    Seq<TraverseOperation>,
>
    decreases steps.len(),
{
    if steps.len() == 0 {
        at
    } else {
        moved(run_steps(steps.drop_last(), at), steps.last())
    }
}

proof fn run_of_concat(a: Seq<PlanStep>, b: Seq<PlanStep>, at: Seq<Seq<TraverseOperation>>)
    ensures
        run_steps(a + b, at) == run_steps(b, run_steps(a, at)),
    decreases b.len(),
{
    if b.len() == 0 {
        assert(a + b =~= a);
    } else {
        assert((a + b).drop_last() =~= a + b.drop_last());
        run_of_concat(a, b.drop_last(), at);
    }
}

proof fn run_of_one(step: PlanStep, at: Seq<Seq<TraverseOperation>>)
    ensures
        run_steps(seq![step], at) == moved(at, step),
{
    let one = seq![step];
    assert(one.len() == 1);
    assert(one.last() == step);
    assert(one.drop_last() =~= Seq::<PlanStep>::empty());
    assert(run_steps(one.drop_last(), at) == at);
}

proof fn run_of_two(first: PlanStep, second: PlanStep, at: Seq<Seq<TraverseOperation>>)
    ensures
        run_steps(seq![first, second], at) == moved(moved(at, first), second),
{
    let two = seq![first, second];
    assert(two.len() == 2);
    assert(two.last() == second);
    assert(two.drop_last() =~= seq![first]);
    run_of_one(first, at);
}

/// The first of the first `k` paths that begins with `prefix`, or `k` if
/// none does.
pub open spec fn first_through(
    paths: Seq<Seq<TraverseOperation>>,
    k: int,
    prefix: Seq<TraverseOperation>,
) -> int
    decreases k,
{
    if k <= 0 {
        0
    } else {
        let before = first_through(paths, k - 1, prefix);
        if before < k - 1 {
            before
        } else if begins_with(paths[k - 1], prefix) {
            k - 1
        } else {
            k
        }
    }
}

proof fn first_through_is_first(
    paths: Seq<Seq<TraverseOperation>>,
    k: int,
    prefix: Seq<TraverseOperation>,
)
    requires
        0 <= k <= paths.len(),
    ensures
        0 <= first_through(paths, k, prefix) <= k,
        first_through(paths, k, prefix) < k ==> begins_with(
            paths[first_through(paths, k, prefix)],
            prefix,
        ),
        forall|j: int|
            0 <= j < first_through(paths, k, prefix) ==> !begins_with(#[trigger] paths[j], prefix),
    decreases k,
{
    if k > 0 {
        first_through_is_first(paths, k - 1, prefix);
    }
}

proof fn first_through_found(
    paths: Seq<Seq<TraverseOperation>>,
    k: int,
    prefix: Seq<TraverseOperation>,
    j: int,
)
    requires
        0 <= j < k <= paths.len(),
        begins_with(paths[j], prefix),
    ensures
        first_through(paths, k, prefix) <= j,
{
    first_through_is_first(paths, k, prefix);
}

/// The path `prefix` with the move `op` after it.
pub open spec fn then(prefix: Seq<TraverseOperation>, op: TraverseOperation) -> Seq<
    TraverseOperation,
> {
    prefix.push(op)
}

proof fn begins_with_shorter(
    path: Seq<TraverseOperation>,
    prefix: Seq<TraverseOperation>,
    op: TraverseOperation,
)
    requires
        begins_with(path, then(prefix, op)),
    ensures
        begins_with(path, prefix),
        path.len() > prefix.len(),
        path[prefix.len() as int] == op,
{
    let longer = then(prefix, op);
    assert(path.take(longer.len() as int)[prefix.len() as int] == longer[prefix.len() as int]);
    assert(path.take(prefix.len() as int) =~= longer.take(prefix.len() as int)) by {
        assert forall|i: int| 0 <= i < prefix.len() implies path.take(prefix.len() as int)[i]
            == longer.take(prefix.len() as int)[i] by {
            assert(path.take(longer.len() as int)[i] == longer[i]);
        }
    }
    assert(longer.take(prefix.len() as int) =~= prefix);
}

proof fn begins_with_longer(
    path: Seq<TraverseOperation>,
    prefix: Seq<TraverseOperation>,
)
    requires
        begins_with(path, prefix),
        path.len() > prefix.len(),
    ensures
        begins_with(path, then(prefix, path[prefix.len() as int])),
{
    let op = path[prefix.len() as int];
    let n = prefix.len() as int + 1;
    assert(path.take(n) =~= then(prefix, op)) by {
        assert forall|i: int| 0 <= i < n implies path.take(n)[i] == then(prefix, op)[i] by {
            if i < prefix.len() {
                assert(path.take(prefix.len() as int)[i] == prefix[i]);
            }
        }
    }
}

proof fn begins_with_itself_only(path: Seq<TraverseOperation>, prefix: Seq<TraverseOperation>)
    requires
        begins_with(path, prefix),
        path.len() == prefix.len(),
    ensures
        path == prefix,
{
    assert(path.take(prefix.len() as int) =~= path);
}

/// Whether the trie `t` at the position `at` holds what the first `k`
/// paths give: it belongs to the first of them that passes the position,
/// and it has a successor exactly where one of them passes on.
pub open spec fn matches(
    t: TraverseNode,
    at: Seq<TraverseOperation>,
    paths: Seq<Seq<TraverseOperation>>,
    k: int,
) -> bool
    decreases t,
{
    &&& first_through(paths, k, at) < k
    &&& t.id == first_through(paths, k, at)
    &&& match t.next {
        None => first_through(paths, k, then(at, TraverseOperation::NextSibling)) >= k,
        Some(n) => matches(*n, then(at, TraverseOperation::NextSibling), paths, k),
    }
    &&& match t.child {
        None => first_through(paths, k, then(at, TraverseOperation::FirstChild)) >= k,
        Some(c) => matches(*c, then(at, TraverseOperation::FirstChild), paths, k),
    }
}

/// A trie that holds what the first `j` paths give holds what the first
/// `j + 1` give if the new path does not pass its position.
proof fn matches_one_more(
    t: TraverseNode,
    at: Seq<TraverseOperation>,
    paths: Seq<Seq<TraverseOperation>>,
    j: int,
)
    requires
        0 <= j < paths.len(),
        matches(t, at, paths, j),
        !begins_with(paths[j], at),
    ensures
        matches(t, at, paths, j + 1),
    decreases t,
{
    first_through_is_first(paths, j, at);
    let next_at = then(at, TraverseOperation::NextSibling);
    let child_at = then(at, TraverseOperation::FirstChild);
    first_through_is_first(paths, j, next_at);
    first_through_is_first(paths, j, child_at);
    if begins_with(paths[j], next_at) {
        begins_with_shorter(paths[j], at, TraverseOperation::NextSibling);
    }
    if begins_with(paths[j], child_at) {
        begins_with_shorter(paths[j], at, TraverseOperation::FirstChild);
    }
    match t.next {
        None => {},
        Some(n) => {
            matches_one_more(*n, next_at, paths, j);
        },
    }
    match t.child {
        None => {},
        Some(c) => {
            matches_one_more(*c, child_at, paths, j);
        },
    }
}

proof fn nothing_through_longer(
    paths: Seq<Seq<TraverseOperation>>,
    j: int,
    at: Seq<TraverseOperation>,
    op: TraverseOperation,
)
    requires
        0 <= j <= paths.len(),
        first_through(paths, j, at) >= j,
    ensures
        first_through(paths, j, then(at, op)) >= j,
{
    first_through_is_first(paths, j, at);
    first_through_is_first(paths, j, then(at, op));
    let found = first_through(paths, j, then(at, op));
    if found < j {
        begins_with_shorter(paths[found], at, op);
    }
}

/// Adding path `j` below the position `at`, which it passes with `rest`
/// still to go, to a trie that holds what the paths before it give, or to
/// a fresh leaf where none of them passes the position, gives a trie that
/// holds what the paths up to `j` give.
proof fn insert_matches(
    t: TraverseNode,
    at: Seq<TraverseOperation>,
    rest: Seq<TraverseOperation>,
    paths: Seq<Seq<TraverseOperation>>,
    j: int,
)
    requires
        0 <= j < paths.len(),
        j <= usize::MAX,
        paths[j] == at + rest,
        matches(t, at, paths, j) || (t == leaf(j as usize) && first_through(paths, j, at) >= j),
    ensures
        matches(insert_spec(t, j as usize, rest), at, paths, j + 1),
    decreases rest.len(),
{
    let next_at = then(at, TraverseOperation::NextSibling);
    let child_at = then(at, TraverseOperation::FirstChild);
    first_through_is_first(paths, j, at);
    first_through_is_first(paths, j, next_at);
    first_through_is_first(paths, j, child_at);
    assert(begins_with(paths[j], at)) by {
        assert((at + rest).take(at.len() as int) =~= at);
    }
    if !matches(t, at, paths, j) {
        nothing_through_longer(paths, j, at, TraverseOperation::NextSibling);
        nothing_through_longer(paths, j, at, TraverseOperation::FirstChild);
    }
    if rest.len() == 0 {
        assert(paths[j] =~= at);
        assert(!begins_with(paths[j], next_at));
        assert(!begins_with(paths[j], child_at));
        match t.next {
            None => {},
            Some(n) => {
                matches_one_more(*n, next_at, paths, j);
            },
        }
        match t.child {
            None => {},
            Some(c) => {
                matches_one_more(*c, child_at, paths, j);
            },
        }
    } else {
        let op = rest[0];
        let below = then(at, op);
        assert(paths[j] =~= below + rest.drop_first());
        assert(begins_with(paths[j], below)) by {
            assert((below + rest.drop_first()).take(below.len() as int) =~= below);
        }
        match op {
            TraverseOperation::FirstChild => {
                assert(!begins_with(paths[j], next_at)) by {
                    if begins_with(paths[j], next_at) {
                        begins_with_shorter(paths[j], at, TraverseOperation::NextSibling);
                        begins_with_shorter(paths[j], at, TraverseOperation::FirstChild);
                    }
                }
                let sub = match t.child {
                    Some(c) => *c,
                    None => leaf(j as usize),
                };
                insert_matches(sub, child_at, rest.drop_first(), paths, j);
                match t.next {
                    None => {},
                    Some(n) => {
                        matches_one_more(*n, next_at, paths, j);
                    },
                }
            },
            TraverseOperation::NextSibling => {
                assert(!begins_with(paths[j], child_at)) by {
                    if begins_with(paths[j], child_at) {
                        begins_with_shorter(paths[j], at, TraverseOperation::NextSibling);
                        begins_with_shorter(paths[j], at, TraverseOperation::FirstChild);
                    }
                }
                let sub = match t.next {
                    Some(n) => *n,
                    None => leaf(j as usize),
                };
                insert_matches(sub, next_at, rest.drop_first(), paths, j);
                match t.child {
                    None => {},
                    Some(c) => {
                        matches_one_more(*c, child_at, paths, j);
                    },
                }
            },
        }
    }
}

/// The trie of the first `k` of `paths`, each under its position in the
/// sequence, below a root that belongs to the first.
pub open spec fn tree_of(paths: Seq<Seq<TraverseOperation>>, k: int) -> TraverseNode
    decreases k,
{
    if k <= 0 {
        leaf(0)
    } else {
        insert_spec(tree_of(paths, k - 1), (k - 1) as usize, paths[k - 1])
    }
}

proof fn tree_matches(paths: Seq<Seq<TraverseOperation>>, k: int)
    requires
        1 <= k <= paths.len(),
        paths.len() <= usize::MAX,
    ensures
        matches(tree_of(paths, k), Seq::empty(), paths, k),
    decreases k,
{
    let root = Seq::<TraverseOperation>::empty();
    assert(paths[k - 1] =~= root + paths[k - 1]);
    if k == 1 {
        insert_matches(leaf(0), root, paths[0], paths, 0);
    } else {
        tree_matches(paths, k - 1);
        insert_matches(tree_of(paths, k - 1), root, paths[k - 1], paths, k - 1);
    }
}

proof fn not_before_own_prefix(path: Seq<TraverseOperation>, prefix: Seq<TraverseOperation>)
    requires
        begins_with(path, prefix),
    ensures
        !comes_before(path, prefix),
    decreases prefix.len(),
{
    if prefix.len() > 0 {
        assert(path.take(prefix.len() as int)[0] == prefix[0]);
        assert(path.drop_first().take(prefix.len() - 1) =~= prefix.drop_first()) by {
            assert forall|i: int| 0 <= i < prefix.len() - 1 implies path.drop_first().take(
                prefix.len() - 1,
            )[i] == prefix.drop_first()[i] by {
                assert(path.take(prefix.len() as int)[i + 1] == prefix[i + 1]);
            }
        }
        not_before_own_prefix(path.drop_first(), prefix.drop_first());
    }
}

/// What is below a node comes before what follows the node.
proof fn child_side_comes_first(
    a: Seq<TraverseOperation>,
    b: Seq<TraverseOperation>,
    at: Seq<TraverseOperation>,
)
    requires
        begins_with(a, then(at, TraverseOperation::NextSibling)),
        begins_with(b, then(at, TraverseOperation::FirstChild)),
    ensures
        !comes_before(a, b),
    decreases at.len(),
{
    begins_with_shorter(a, at, TraverseOperation::NextSibling);
    begins_with_shorter(b, at, TraverseOperation::FirstChild);
    if at.len() > 0 {
        assert(a.take(at.len() as int)[0] == at[0]);
        assert(b.take(at.len() as int)[0] == at[0]);
        let shorter = at.drop_first();
        assert(begins_with(a.drop_first(), then(shorter, TraverseOperation::NextSibling))) by {
            let whole = then(at, TraverseOperation::NextSibling);
            let rest = then(shorter, TraverseOperation::NextSibling);
            assert(whole.drop_first() =~= rest);
            assert(a.drop_first().take(rest.len() as int) =~= rest) by {
                assert forall|i: int| 0 <= i < rest.len() implies a.drop_first().take(
                    rest.len() as int,
                )[i] == rest[i] by {
                    assert(a.take(whole.len() as int)[i + 1] == whole[i + 1]);
                }
            }
        }
        assert(begins_with(b.drop_first(), then(shorter, TraverseOperation::FirstChild))) by {
            let whole = then(at, TraverseOperation::FirstChild);
            let rest = then(shorter, TraverseOperation::FirstChild);
            assert(whole.drop_first() =~= rest);
            assert(b.drop_first().take(rest.len() as int) =~= rest) by {
                assert forall|i: int| 0 <= i < rest.len() implies b.drop_first().take(
                    rest.len() as int,
                )[i] == rest[i] by {
                    assert(b.take(whole.len() as int)[i + 1] == whole[i + 1]);
                }
            }
        }
        child_side_comes_first(a.drop_first(), b.drop_first(), shorter);
    }
}

/// The moves below a position bring every handle whose node lies at or
/// below the position to its node, and leave every other handle where it
/// is, if the handle of the trie's own node stands at the position.
proof fn emit_reaches(
    t: TraverseNode,
    at: Seq<TraverseOperation>,
    paths: Seq<Seq<TraverseOperation>>,
    handles: Seq<Seq<TraverseOperation>>,
    root: usize,
)
    requires
        paths.len() <= usize::MAX,
        matches(t, at, paths, paths.len() as int),
        in_document_order(paths),
        handles.len() == paths.len(),
        handles[t.id as int] == at,
    ensures
        run_steps(emit_spec(t, root), handles).len() == handles.len(),
        forall|j: int|
            0 <= j < paths.len() && begins_with(paths[j], at) ==> (#[trigger] run_steps(
                emit_spec(t, root),
                handles,
            )[j]) == paths[j],
        forall|j: int|
            0 <= j < paths.len() && !begins_with(paths[j], at) ==> (#[trigger] run_steps(
                emit_spec(t, root),
                handles,
            )[j]) == handles[j],
    decreases t,
{
    reveal_with_fuel(matches, 2);
    let k = paths.len() as int;
    let own = t.id as int;
    let next_at = then(at, TraverseOperation::NextSibling);
    let child_at = then(at, TraverseOperation::FirstChild);
    first_through_is_first(paths, k, at);
    first_through_is_first(paths, k, next_at);
    first_through_is_first(paths, k, child_at);
    let next_steps = match t.next {
        None => Seq::empty(),
        Some(n) => (if n.id != t.id {
            seq![
                PlanStep::Copy { root, from: t.id, to: n.id },
                PlanStep::NextSibling { root, id: n.id },
            ]
        } else {
            seq![PlanStep::NextSibling { root, id: t.id }]
        }) + emit_spec(*n, root),
    };
    let child_steps = match t.child {
        None => Seq::empty(),
        Some(c) => (if c.id != t.id {
            seq![
                PlanStep::Copy { root, from: t.id, to: c.id },
                PlanStep::FirstChild { root, id: c.id },
            ]
        } else {
            seq![PlanStep::FirstChild { root, id: t.id }]
        }) + emit_spec(*c, root),
    };
    assert(emit_spec(t, root) == next_steps + child_steps);
    run_of_concat(next_steps, child_steps, handles);
    let after_next = run_steps(next_steps, handles);
    // The next sibling and all that follows it.
    match t.next {
        None => {
            assert(after_next == handles);
        },
        Some(n) => {
            let other = n.id as int;
            let head = if n.id != t.id {
                seq![
                    PlanStep::Copy { root, from: t.id, to: n.id },
                    PlanStep::NextSibling { root, id: n.id },
                ]
            } else {
                seq![PlanStep::NextSibling { root, id: t.id }]
            };
            let moved_on = run_steps(head, handles);
            if n.id != t.id {
                run_of_two(
                    PlanStep::Copy { root, from: t.id, to: n.id },
                    PlanStep::NextSibling { root, id: n.id },
                    handles,
                );
            } else {
                run_of_one(PlanStep::NextSibling { root, id: t.id }, handles);
            }
            assert(moved_on.len() == handles.len());
            assert(moved_on[other] == next_at);
            assert(forall|j: int| 0 <= j < k && j != other ==> moved_on[j] == handles[j]);
            emit_reaches(*n, next_at, paths, moved_on, root);
            run_of_concat(head, emit_spec(*n, root), handles);
        },
    }
    assert(after_next.len() == handles.len());
    assert forall|j: int| 0 <= j < k && begins_with(paths[j], next_at) implies after_next[j]
        == paths[j] by {
        if t.next is None {
            assert(first_through(paths, k, next_at) >= k);
            first_through_found(paths, k, next_at, j);
        }
    }
    assert forall|j: int| 0 <= j < k && !begins_with(paths[j], next_at) implies after_next[j]
        == handles[j] by {
        match t.next {
            None => {},
            Some(n) => {
                assert(begins_with(paths[n.id as int], next_at));
            },
        }
    }
    // The first child and all that is below it.
    let after = run_steps(child_steps, after_next);
    match t.child {
        None => {
            assert(after == after_next);
        },
        Some(c) => {
            let other = c.id as int;
            assert(begins_with(paths[other], child_at));
            begins_with_shorter(paths[other], at, TraverseOperation::FirstChild);
            first_through_found(paths, k, at, other);
            // The own handle still stands at the position.
            assert(!begins_with(paths[own], next_at)) by {
                if begins_with(paths[own], next_at) {
                    // Then what follows the node belongs to the node's own
                    // path, which comes after what is below the node.
                    begins_with_shorter(paths[own], at, TraverseOperation::NextSibling);
                    begins_with_shorter(paths[other], at, TraverseOperation::FirstChild);
                    assert(own != other);
                    assert(own < other);
                    child_side_comes_first(paths[own], paths[other], at);
                    assert(comes_before(paths[own], paths[other]));
                }
            }
            assert(after_next[own] == at);
            let head = if c.id != t.id {
                seq![
                    PlanStep::Copy { root, from: t.id, to: c.id },
                    PlanStep::FirstChild { root, id: c.id },
                ]
            } else {
                seq![PlanStep::FirstChild { root, id: t.id }]
            };
            let moved_on = run_steps(head, after_next);
            if c.id != t.id {
                run_of_two(
                    PlanStep::Copy { root, from: t.id, to: c.id },
                    PlanStep::FirstChild { root, id: c.id },
                    after_next,
                );
            } else {
                run_of_one(PlanStep::FirstChild { root, id: t.id }, after_next);
            }
            assert(moved_on.len() == handles.len());
            assert(moved_on[other] == child_at);
            assert(forall|j: int| 0 <= j < k && j != other ==> moved_on[j] == after_next[j]);
            emit_reaches(*c, child_at, paths, moved_on, root);
            run_of_concat(head, emit_spec(*c, root), after_next);
        },
    }
    assert(after.len() == handles.len());
    assert forall|j: int| 0 <= j < k && begins_with(paths[j], at) implies after[j] == paths[j] by {
        if begins_with(paths[j], child_at) {
            if t.child is None {
                first_through_found(paths, k, child_at, j);
            }
        } else {
            // The child's part left the handle alone.
            match t.child {
                None => {},
                Some(c) => {
                    assert(begins_with(paths[c.id as int], child_at));
                },
            }
            assert(after[j] == after_next[j]);
            if !begins_with(paths[j], next_at) {
                // The node lies at the position itself, so it is the own
                // node of the trie.
                if paths[j].len() > at.len() {
                    begins_with_longer(paths[j], at);
                    let op = paths[j][at.len() as int];
                    assert(op == TraverseOperation::FirstChild || op
                        == TraverseOperation::NextSibling);
                }
                begins_with_itself_only(paths[j], at);
                first_through_found(paths, k, at, j);
                if own < j {
                    not_before_own_prefix(paths[own], at);
                }
                assert(j == own);
            }
        }
    }
    assert forall|j: int| 0 <= j < k && !begins_with(paths[j], at) implies after[j]
        == handles[j] by {
        if begins_with(paths[j], next_at) {
            begins_with_shorter(paths[j], at, TraverseOperation::NextSibling);
        }
        if begins_with(paths[j], child_at) {
            begins_with_shorter(paths[j], at, TraverseOperation::FirstChild);
        }
        match t.child {
            None => {},
            Some(c) => {
                assert(begins_with(paths[c.id as int], child_at));
            },
        }
    }
}

proof fn plan_tree_is_tree_of(nodes: Seq<DynamicNode>, k: int)
    requires
        0 <= k <= nodes.len(),
        nodes.len() >= 1,
        nodes[0].path@.len() == 0,
        forall|i: int| 0 <= i < nodes.len() ==> (#[trigger] nodes[i]).id == i,
    ensures
        plan_tree(nodes, k) == tree_of(paths_of(nodes), k),
    decreases k,
{
    if k > 0 {
        plan_tree_is_tree_of(nodes, k - 1);
    } else {
        assert(root_node(nodes) == 0);
    }
}

/// The plan brings every handle to its node.
///
/// Where the dynamic nodes of a root are numbered by their position and
/// stand in document order, the first of them being the root itself, and
/// the handle of the root stands on the root of a clone, the moves of the
/// plan leave the handle of every dynamic node at the path of that node.
pub proof fn plan_reaches_every_node(
    nodes: Seq<DynamicNode>,
    root: usize,
    handles: Seq<Seq<TraverseOperation>>,
)
    requires
        1 <= nodes.len() <= usize::MAX,
        forall|i: int| 0 <= i < nodes.len() ==> (#[trigger] nodes[i]).id == i,
        nodes[0].path@.len() == 0,
        in_document_order(paths_of(nodes)),
        handles.len() == nodes.len(),
        handles[0].len() == 0,
    ensures
        run_steps(root_moves(nodes, root), handles).len() == nodes.len(),
        forall|i: int|
            0 <= i < nodes.len() ==> (#[trigger] run_steps(root_moves(nodes, root), handles)[i])
                == nodes[i].path@,
{
    let paths = paths_of(nodes);
    let k = nodes.len() as int;
    plan_tree_is_tree_of(nodes, k);
    tree_matches(paths, k);
    let tree = tree_of(paths, k);
    let start = Seq::<TraverseOperation>::empty();
    first_through_is_first(paths, k, start);
    assert(begins_with(paths[0], start)) by {
        assert(paths[0].take(0) =~= start);
    }
    first_through_found(paths, k, start, 0);
    assert(handles[0] =~= start);
    emit_reaches(tree, start, paths, handles, root);
    assert forall|i: int| 0 <= i < nodes.len() implies (#[trigger] run_steps(
        root_moves(nodes, root),
        handles,
    )[i]) == nodes[i].path@ by {
        assert(begins_with(paths[i], start)) by {
            assert(paths[i].take(0) =~= start);
        }
    }
}

proof fn begins_with_rest(path: Seq<TraverseOperation>, prefix: Seq<TraverseOperation>)
    requires
        begins_with(path, prefix),
        prefix.len() > 0,
    ensures
        path.len() > 0,
        path[0] == prefix[0],
        begins_with(path.drop_first(), prefix.drop_first()),
{
    assert(path.take(prefix.len() as int)[0] == prefix[0]);
    assert(path.drop_first().take(prefix.len() - 1) =~= prefix.drop_first()) by {
        assert forall|i: int| 0 <= i < prefix.len() - 1 implies path.drop_first().take(
            prefix.len() - 1,
        )[i] == prefix.drop_first()[i] by {
            assert(path.take(prefix.len() as int)[i + 1] == prefix[i + 1]);
        }
    }
}

proof fn begins_with_chain(
    path: Seq<TraverseOperation>,
    middle: Seq<TraverseOperation>,
    prefix: Seq<TraverseOperation>,
)
    requires
        begins_with(path, middle),
        begins_with(middle, prefix),
    ensures
        begins_with(path, prefix),
{
    assert(path.take(prefix.len() as int) =~= prefix) by {
        assert forall|i: int| 0 <= i < prefix.len() implies path.take(prefix.len() as int)[i]
            == prefix[i] by {
            assert(path.take(middle.len() as int)[i] == middle[i]);
            assert(middle.take(prefix.len() as int)[i] == prefix[i]);
        }
    }
}

/// A node comes before all that is below it and all that follows it.
proof fn prefix_comes_first(path: Seq<TraverseOperation>, prefix: Seq<TraverseOperation>)
    requires
        begins_with(path, prefix),
        path.len() > prefix.len(),
    ensures
        comes_before(prefix, path),
    decreases prefix.len(),
{
    if prefix.len() > 0 {
        begins_with_rest(path, prefix);
        prefix_comes_first(path.drop_first(), prefix.drop_first());
    }
}

/// What is below a node comes before what follows the node.
proof fn child_side_is_before(
    a: Seq<TraverseOperation>,
    b: Seq<TraverseOperation>,
    at: Seq<TraverseOperation>,
)
    requires
        begins_with(a, then(at, TraverseOperation::FirstChild)),
        begins_with(b, then(at, TraverseOperation::NextSibling)),
    ensures
        comes_before(a, b),
    decreases at.len(),
{
    let a_at = then(at, TraverseOperation::FirstChild);
    let b_at = then(at, TraverseOperation::NextSibling);
    begins_with_rest(a, a_at);
    begins_with_rest(b, b_at);
    if at.len() > 0 {
        assert(a_at.drop_first() =~= then(at.drop_first(), TraverseOperation::FirstChild));
        assert(b_at.drop_first() =~= then(at.drop_first(), TraverseOperation::NextSibling));
        child_side_is_before(a.drop_first(), b.drop_first(), at.drop_first());
    }
}

/// Whether the position `path` is that of the node at `at` or lies below
/// that node.
pub open spec fn under(path: Seq<TraverseOperation>, at: Seq<TraverseOperation>) -> bool {
    path == at || begins_with(path, then(at, TraverseOperation::FirstChild))
}

/// Whether the position `path` is that of one of the first `k` siblings
/// from `first` on, or lies below one of them.
pub open spec fn among(path: Seq<TraverseOperation>, first: Seq<TraverseOperation>, k: int) -> bool
    decreases k,
{
    k > 0 && (under(path, sibling_path(first, (k - 1) as nat)) || among(path, first, k - 1))
}

/// Whether the dynamic nodes that `after` holds beyond those of `before`
/// stand at `at` or below it.
pub open spec fn recorded_under(
    before: BuildState,
    after: BuildState,
    at: Seq<TraverseOperation>,
) -> bool {
    forall|i: int|
        before.dynamic.len() <= i < after.dynamic.len() ==> under(
            (#[trigger] after.dynamic[i]).path,
            at,
        )
}

/// Whether the dynamic nodes that `after` holds beyond those of `before`
/// stand at one of the first `k` siblings from `first` on, or below one.
pub open spec fn recorded_among(
    before: BuildState,
    after: BuildState,
    first: Seq<TraverseOperation>,
    k: int,
) -> bool {
    forall|i: int|
        before.dynamic.len() <= i < after.dynamic.len() ==> among(
            (#[trigger] after.dynamic[i]).path,
            first,
            k,
        )
}

/// Whether the dynamic nodes that `after` holds beyond those of `before`
/// stand in document order.
pub open spec fn recorded_in_order(before: BuildState, after: BuildState) -> bool {
    forall|i: int, j: int|
        before.dynamic.len() <= i < j < after.dynamic.len() ==> comes_before(
            after.dynamic[i].path,
            after.dynamic[j].path,
        )
}

proof fn under_begins(path: Seq<TraverseOperation>, at: Seq<TraverseOperation>)
    requires
        under(path, at),
    ensures
        begins_with(path, at),
{
    if path == at {
        assert(path.take(at.len() as int) =~= at);
    } else {
        begins_with_shorter(path, at, TraverseOperation::FirstChild);
    }
}

proof fn later_sibling_begins(first: Seq<TraverseOperation>, c: int, k: int)
    requires
        0 <= c < k,
    ensures
        begins_with(
            sibling_path(first, k as nat),
            then(sibling_path(first, c as nat), TraverseOperation::NextSibling),
        ),
        begins_with(sibling_path(first, k as nat), first),
{
    let whole = sibling_path(first, k as nat);
    let part = then(sibling_path(first, c as nat), TraverseOperation::NextSibling);
    assert(whole.take(part.len() as int) =~= part);
    assert(whole.take(first.len() as int) =~= first);
}

proof fn earlier_sibling_is_before(
    a: Seq<TraverseOperation>,
    b: Seq<TraverseOperation>,
    first: Seq<TraverseOperation>,
    k: int,
    at: int,
)
    requires
        0 <= k <= at,
        among(a, first, k),
        under(b, sibling_path(first, at as nat)),
    ensures
        comes_before(a, b),
    decreases k,
{
    let here = sibling_path(first, (k - 1) as nat);
    if under(a, here) {
        let follows = then(here, TraverseOperation::NextSibling);
        later_sibling_begins(first, k - 1, at);
        under_begins(b, sibling_path(first, at as nat));
        begins_with_chain(b, sibling_path(first, at as nat), follows);
        if a == here {
            begins_with_shorter(b, here, TraverseOperation::NextSibling);
            prefix_comes_first(b, here);
        } else {
            child_side_is_before(a, b, here);
        }
    } else {
        earlier_sibling_is_before(a, b, first, k - 1, at);
    }
}

proof fn among_begins(path: Seq<TraverseOperation>, first: Seq<TraverseOperation>, k: int)
    requires
        among(path, first, k),
    ensures
        begins_with(path, first),
    decreases k,
{
    let here = sibling_path(first, (k - 1) as nat);
    if under(path, here) {
        under_begins(path, here);
        if k - 1 > 0 {
            later_sibling_begins(first, 0, k - 1);
        } else {
            assert(here =~= first);
            assert(here.take(first.len() as int) =~= first);
        }
        begins_with_chain(path, here, first);
    } else {
        among_begins(path, first, k - 1);
    }
}

proof fn among_more(path: Seq<TraverseOperation>, first: Seq<TraverseOperation>, k: int)
    requires
        among(path, first, k),
    ensures
        among(path, first, k + 1),
{
}

/// The dynamic nodes that the building of a node records stand at the
/// node or below it, in document order.
pub proof fn build_node_ordered(
    state: BuildState,
    root: usize,
    node: Node,
    path: Seq<TraverseOperation>,
    force_dyn: bool,
)
    requires
        state.dynamic.len() <= state.vars,
        build_node_spec(state, root, node, path, force_dyn) is Ok,
    ensures
        recorded_in_order(state, build_node_spec(state, root, node, path, force_dyn)->Ok_0.0),
        recorded_under(state, build_node_spec(state, root, node, path, force_dyn)->Ok_0.0, path),
    decreases node, 0int,
{
    match node {
        Node::Element(element) => {
            build_element_ordered(state, root, element, path, force_dyn);
        },
        _ => {},
    }
}

proof fn build_element_ordered(
    state: BuildState,
    root: usize,
    element: NodeElement,
    path: Seq<TraverseOperation>,
    force_dyn: bool,
)
    requires
        state.dynamic.len() <= state.vars,
        build_element_spec(state, root, element, path, force_dyn) is Ok,
    ensures
        recorded_in_order(
            state,
            build_element_spec(state, root, element, path, force_dyn)->Ok_0.0,
        ),
        recorded_under(
            state,
            build_element_spec(state, root, element, path, force_dyn)->Ok_0.0,
            path,
        ),
    decreases element, 0int,
{
    let var = state.vars as usize;
    let created = AttributeState {
        ops: state.ops.push(CreateOpView::Node { var }).push(
            CreateOpView::CreateElement { var, tag: element.name@ },
        ),
        attributes: Seq::empty(),
        listeners: Seq::empty(),
    };
    let attributes = element.attributes@;
    let a = attributes_spec(created, var, attributes, attributes.len() as int)->Ok_0;
    let recorded = if a.attributes.len() > 0 || a.listeners.len() > 0 || force_dyn {
        state.dynamic.push(
            dynamic_node(
                state,
                root,
                path,
                DynamicNodeTypeView::Element { attributes: a.attributes, listeners: a.listeners },
            ),
        )
    } else {
        state.dynamic
    };
    let own = BuildState { ops: a.ops, dynamic: recorded, vars: state.vars + 1 };
    let first = then(path, TraverseOperation::FirstChild);
    let count = element.children@.len() as int;
    children_ordered(own, root, element.children@, count, var, first);
    crate::rsx::children_extend(own, root, element.children@, count, var, first);
    let done = children_spec(own, root, element.children@, count, var, first)->Ok_0;
    assert forall|i: int| state.dynamic.len() <= i < done.dynamic.len() implies under(
        (#[trigger] done.dynamic[i]).path,
        path,
    ) by {
        if i >= own.dynamic.len() {
            among_begins(done.dynamic[i].path, first, count);
        } else {
            assert(done.dynamic[i] == own.dynamic[i]);
        }
    }
    assert forall|i: int, j: int|
        state.dynamic.len() <= i < j < done.dynamic.len() implies comes_before(
        done.dynamic[i].path,
        done.dynamic[j].path,
    ) by {
        if i < own.dynamic.len() {
            assert(done.dynamic[i] == own.dynamic[i]);
            among_begins(done.dynamic[j].path, first, count);
            begins_with_shorter(done.dynamic[j].path, path, TraverseOperation::FirstChild);
            prefix_comes_first(done.dynamic[j].path, path);
        }
    }
}

proof fn children_ordered(
    state: BuildState,
    root: usize,
    children: Seq<Node>,
    k: int,
    parent: usize,
    first: Seq<TraverseOperation>,
)
    requires
        0 <= k <= children.len(),
        state.dynamic.len() <= state.vars,
        children_spec(state, root, children, k, parent, first) is Ok,
    ensures
        recorded_in_order(state, children_spec(state, root, children, k, parent, first)->Ok_0),
        recorded_among(
            state,
            children_spec(state, root, children, k, parent, first)->Ok_0,
            first,
            k,
        ),
    decreases children, k,
{
    if k > 0 {
        children_ordered(state, root, children, k - 1, parent, first);
        crate::rsx::children_extend(state, root, children, k - 1, parent, first);
        let before = children_spec(state, root, children, k - 1, parent, first)->Ok_0;
        let here = sibling_path(first, (k - 1) as nat);
        build_node_ordered(before, root, children[k - 1], here, false);
        crate::rsx::build_node_extends(before, root, children[k - 1], here, false);
        let built = build_node_spec(before, root, children[k - 1], here, false)->Ok_0.0;
        let done = children_spec(state, root, children, k, parent, first)->Ok_0;
        assert(done.dynamic == built.dynamic);
        assert forall|i: int| state.dynamic.len() <= i < done.dynamic.len() implies among(
            (#[trigger] done.dynamic[i]).path,
            first,
            k,
        ) by {
            if i < before.dynamic.len() {
                assert(built.dynamic[i] == before.dynamic[i]);
                among_more(before.dynamic[i].path, first, k - 1);
            }
        }
        assert forall|i: int, j: int|
            state.dynamic.len() <= i < j < done.dynamic.len() implies comes_before(
            done.dynamic[i].path,
            done.dynamic[j].path,
        ) by {
            if i < before.dynamic.len() {
                assert(built.dynamic[i] == before.dynamic[i]);
                if j < before.dynamic.len() {
                    assert(built.dynamic[j] == before.dynamic[j]);
                } else {
                    earlier_sibling_is_before(
                        before.dynamic[i].path,
                        built.dynamic[j].path,
                        first,
                        k - 1,
                        k - 1,
                    );
                }
            }
        }
    }
}

/// In an instance of a component that was built, the replay of the plan
/// brings the handle of every dynamic node of every root to the path of
/// that node, once the handle of the root stands on the root of the clone.
pub proof fn built_plan_reaches_every_node(
    component: &crate::component::Component,
    root: int,
    handles: Seq<Seq<TraverseOperation>>,
)
    requires
        component.wf(),
        0 <= root < component.rsx.roots@.len(),
        handles.len() == component.rsx.roots@[root].dynamic_nodes@.len(),
        handles[0].len() == 0,
    ensures
        forall|i: int|
            0 <= i < handles.len() ==> (#[trigger] run_steps(
                root_moves(component.rsx.roots@[root].dynamic_nodes@, root as usize),
                handles,
            )[i]) == component.rsx.roots@[root].dynamic_nodes@[i].path@,
{
    let nodes = component.rsx.roots@[root].dynamic_nodes@;
    assert(component.rsx.roots@[root].wf());
    assert(component.rsx.roots@[root].ordered());
    assert(nodes.len() == component.rsx.roots@[root].dynamic_nodes.len());
    plan_reaches_every_node(nodes, root as usize, handles);
}

} // verus!
