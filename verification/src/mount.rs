//! Mounting: how an instance of a component comes to be.
//!
//! Every dynamic node gets a handle. The template of the component type is
//! made if this is the first mount of the type. The template is cloned and
//! the traversal plan is replayed, which brings each handle to its node.
//! Then the cells take their first values, each binding bringing its node
//! up to date, and the listeners are registered.

use vstd::prelude::*;
use crate::component::{cells_view, CellView, Cell, Component};
use crate::expr::{copy_lists, list_at, lists_view};
use crate::node::{
    all_node_steps, clone_steps, emit_spec, root_node, traverse_steps, DynamicNode,
    DynamicNodeType, Listener, PlanStep, TraverseNode,
};
use crate::renderer::{CommandView, Renderer};
use crate::rsx::{ops_view, Root};
use crate::runtime::{
    evaluate, handle_of, reads_of, render, update_calls, Instance, InstanceView, Slot,
};
use crate::template::{creation_calls, TemplateCache};
use crate::text::{has_prefix, starts_with, tail};
use crate::tracking::{BitMask, DirtyTrackSet, Effect};
use crate::value::{values_view, Value, ValueView};

verus! {

/// The number of dynamic nodes of the first `k` of `roots`.
pub open spec fn dynamic_count(roots: Seq<Root>, k: int) -> nat
    decreases k,
{
    if k <= 0 {
        0
    } else {
        dynamic_count(roots, k - 1) + roots[k - 1].dynamic_nodes@.len()
    }
}

/// Whether `handles` holds a handle for each dynamic node of each root.
pub open spec fn shaped(handles: Seq<Seq<u32>>, roots: Seq<Root>) -> bool {
    &&& handles.len() == roots.len()
    &&& forall|r: int|
        0 <= r < roots.len() ==> (#[trigger] handles[r]).len() == roots[r].dynamic_nodes@.len()
}

/// The call that carries out one step of the plan, where the dynamic nodes
/// have the handles `handles` and the roots of the template the handles
/// `template`. Taking a handle is no call; a step that names a node that
/// does not exist makes none.
pub open spec fn replay_call(step: PlanStep, handles: Seq<Seq<u32>>, template: Seq<u32>) -> Seq<
    CommandView,
> {
    match step {
        PlanStep::Node { root, id } => Seq::empty(),
        PlanStep::CloneTemplate { root, into } => match handle_of(handles, root, into) {
            Some(new_id) => if root < template.len() {
                seq![CommandView::CloneNode { id: template[root as int], new_id }]
            } else {
                Seq::empty()
            },
            None => Seq::empty(),
        },
        PlanStep::Copy { root, from, to } => match (
            handle_of(handles, root, from),
            handle_of(handles, root, to),
        ) {
            (Some(from), Some(to)) => seq![CommandView::Copy { from, to }],
            _ => Seq::empty(),
        },
        PlanStep::FirstChild { root, id } => match handle_of(handles, root, id) {
            Some(id) => seq![CommandView::FirstChild { id }],
            None => Seq::empty(),
        },
        PlanStep::NextSibling { root, id } => match handle_of(handles, root, id) {
            Some(id) => seq![CommandView::NextSibling { id }],
            None => Seq::empty(),
        },
    }
}

/// The calls that carry out the first `k` steps of `plan`.
pub open spec fn replay_calls(
    plan: Seq<PlanStep>,
    handles: Seq<Seq<u32>>,
    template: Seq<u32>,
    k: int,
) -> Seq<CommandView>
    decreases k,
{
    if k <= 0 {
        Seq::empty()
    } else {
        replay_calls(plan, handles, template, k - 1) + replay_call(plan[k - 1], handles, template)
    }
}

/// What a mount starts from: the first value of each state cell, by slot,
/// and for each cell, by slot, the texts that the host supplies for the
/// pieces of its update that the host evaluates.
#[derive(Debug)]
pub struct Props {
    pub values: Vec<Value>,
    pub texts: Vec<Vec<String>>,
}

/// What [`Props`] hold.
pub struct PropsView {
    pub values: Seq<ValueView>,
    pub texts: Seq<Seq<Seq<char>>>,
}

impl View for Props {
    type V = PropsView;

    open spec fn view(&self) -> PropsView {
        PropsView { values: values_view(self.values@), texts: lists_view(self.texts@) }
    }
}

impl Props {
    /// The first values `values`, and no texts.
    pub fn new(values: Vec<Value>) -> (props: Self)
        ensures
            props.values == values,
            props.texts@.len() == 0,
    {
        Props { values, texts: Vec::new() }
    }
}

/// The first values of cells, what their computations read, and the calls
/// that the computations made.
pub struct Constructed {
    pub values: Seq<ValueView>,
    pub captured: Seq<Set<nat>>,
    pub calls: Seq<CommandView>,
}

/// The first value of the state cell in slot `slot`: what `init` holds for
/// the slot, and the unit value where it holds nothing.
pub open spec fn first_value(init: Seq<ValueView>, slot: int) -> ValueView {
    if 0 <= slot < init.len() {
        init[slot]
    } else {
        ValueView::Unit
    }
}

/// The first `k` cells constructed, in the order of their slots: a state
/// cell takes its first value, a derived cell is computed from the cells
/// before it and from the texts that the host supplied for it, and brings
/// its dynamic node up to date.
pub open spec fn construct_spec(
    cells: Seq<CellView>,
    handles: Seq<Seq<u32>>,
    init: PropsView,
    k: int,
) -> Constructed
    decreases k,
{
    if k <= 0 {
        Constructed { values: Seq::empty(), captured: Seq::empty(), calls: Seq::empty() }
    } else {
        let before = construct_spec(cells, handles, init, k - 1);
        match cells[k - 1] {
            CellView::State(_) => Constructed {
                values: before.values.push(first_value(init.values, k - 1)),
                captured: before.captured.push(Set::empty()),
                calls: before.calls,
            },
            CellView::Memo(memo) => {
                let pieces = memo.update.pieces();
                Constructed {
                    values: before.values.push(
                        evaluate(memo.update, before.values, list_at(init.texts, k - 1)),
                    ),
                    captured: before.captured.push(reads_of(pieces, pieces.len() as int)),
                    calls: before.calls + update_calls(
                        memo.update,
                        handles,
                        render(
                            pieces,
                            before.values,
                            list_at(init.texts, k - 1),
                            pieces.len() as int,
                        ),
                    ),
                }
            },
        }
    }
}

/// The listeners of a dynamic node; none but for an element.
pub open spec fn node_listeners(node: DynamicNode) -> Seq<Listener> {
    match node.node {
        DynamicNodeType::Element(element) => element.listeners@,
        _ => Seq::empty(),
    }
}

/// The calls that register the first `k` of the listeners of a node with
/// the handle `id`. The event is the listener's key without its `on`; the
/// handler is the listener's number among those of the node. A key that
/// does not begin with `on` registers nothing.
pub open spec fn node_listener_calls(listeners: Seq<Listener>, id: u32, k: int) -> Seq<CommandView>
    decreases k,
{
    if k <= 0 {
        Seq::empty()
    } else {
        let before = node_listener_calls(listeners, id, k - 1);
        let key = listeners[k - 1].key@;
        if has_prefix(key, "on"@) {
            before.push(
                CommandView::AddListener { id, event: key.skip(2), handler: (k - 1) as usize },
            )
        } else {
            before
        }
    }
}

/// The calls that register the listeners of the first `k` of `nodes`,
/// whose handles are `handles`.
pub open spec fn root_listener_calls(nodes: Seq<DynamicNode>, handles: Seq<u32>, k: int) -> Seq<
    CommandView,
>
    decreases k,
{
    if k <= 0 {
        Seq::empty()
    } else {
        let listeners = node_listeners(nodes[k - 1]);
        root_listener_calls(nodes, handles, k - 1) + node_listener_calls(
            listeners,
            handles[k - 1],
            listeners.len() as int,
        )
    }
}

/// The calls that register the listeners of the first `k` of `roots`.
pub open spec fn listener_calls(roots: Seq<Root>, handles: Seq<Seq<u32>>, k: int) -> Seq<
    CommandView,
>
    decreases k,
{
    if k <= 0 {
        Seq::empty()
    } else {
        listener_calls(roots, handles, k - 1) + root_listener_calls(
            roots[k - 1].dynamic_nodes@,
            handles[k - 1],
            roots[k - 1].dynamic_nodes@.len() as int,
        )
    }
}

/// The calls of one mount after the template is there: the replay of the
/// plan, the first computation of the cells, the listeners.
pub open spec fn instance_calls(
    component: &Component,
    handles: Seq<Seq<u32>>,
    template: Seq<u32>,
    init: PropsView,
) -> Seq<CommandView> {
    replay_calls(component.plan@, handles, template, component.plan@.len() as int)
        + construct_spec(
        cells_view(component.cells@),
        handles,
        init,
        component.cells@.len() as int,
    ).calls + listener_calls(component.rsx.roots@, handles, component.rsx.roots@.len() as int)
}

/// The instance that a mount makes, with the handles that `instance` has.
pub open spec fn mounted_spec<M: BitMask>(
    component: &Component,
    instance: Instance<M>,
    init: Props,
) -> InstanceView {
    mounted(component, instance@.handles, init@)
}

/// The instance that a mount makes.
pub open spec fn mounted(component: &Component, handles: Seq<Seq<u32>>, init: PropsView)
    -> InstanceView {
    let constructed = construct_spec(
        cells_view(component.cells@),
        handles,
        init,
        component.cells@.len() as int,
    );
    InstanceView {
        values: constructed.values,
        captured: constructed.captured,
        read: Set::empty(),
        written: Set::empty(),
        notified: Set::empty(),
        handles,
        supplied: init.texts,
    }
}

/// The handles of the roots of an instance: for each root that of its own
/// dynamic node, the first whose path is empty.
pub open spec fn instance_roots(roots: Seq<Root>, handles: Seq<Seq<u32>>) -> Seq<u32> {
    Seq::new(roots.len(), |r: int| handles[r][root_node(roots[r].dynamic_nodes@)])
}

fn root_handles(roots: &Vec<Root>, handles: &Vec<Vec<u32>>) -> (found: Vec<u32>)
    requires
        shaped(rows(handles@), roots@),
        forall|r: int| 0 <= r < roots@.len() ==> (#[trigger] roots@[r]).wf(),
    ensures
        found@ == instance_roots(roots@, rows(handles@)),
{
    let mut found: Vec<u32> = Vec::new();
    let mut r: usize = 0;
    while r < roots.len()
        invariant
            r <= roots@.len(),
            shaped(rows(handles@), roots@),
            forall|r: int| 0 <= r < roots@.len() ==> (#[trigger] roots@[r]).wf(),
            found@ == instance_roots(roots@, rows(handles@)).take(r as int),
        decreases roots@.len() - r,
    {
        proof {
            assert(roots@[r as int].wf());
            assert(rows(handles@)[r as int] == handles@[r as int]@);
        }
        let at = crate::node::find_root_node(&roots[r].dynamic_nodes);
        found.push(handles[r][at]);
        proof {
            let all = instance_roots(roots@, rows(handles@));
            assert(all.take(r + 1) =~= all.take(r as int).push(all[r as int]));
        }
        r = r + 1;
    }
    proof {
        let all = instance_roots(roots@, rows(handles@));
        assert(all.take(all.len() as int) =~= all);
    }
    found
}

/// Takes a handle for each dynamic node of each root.
fn take_handles<R: Renderer>(roots: &Vec<Root>, ui: &mut R) -> (handles: Vec<Vec<u32>>)
    requires
        old(ui).wf(),
        old(ui).spare() >= dynamic_count(roots@, roots@.len() as int),
    ensures
        final(ui).wf(),
        final(ui).commands() == old(ui).commands(),
        final(ui).spare() + dynamic_count(roots@, roots@.len() as int) == old(ui).spare(),
        old(ui).live().subset_of(final(ui).live()),
        shaped(rows(handles@), roots@),
        forall|r: int, i: int|
            0 <= r < handles@.len() && 0 <= i < handles@[r]@.len() ==> final(ui).live().contains(
                #[trigger] handles@[r]@[i],
            ) && !old(ui).live().contains(handles@[r]@[i]),
{
    let mut handles: Vec<Vec<u32>> = Vec::new();
    let mut r: usize = 0;
    while r < roots.len()
        invariant
            r <= roots@.len(),
            handles@.len() == r,
            ui.wf(),
            ui.commands() == old(ui).commands(),
            ui.spare() + dynamic_count(roots@, r as int) == old(ui).spare(),
            old(ui).spare() >= dynamic_count(roots@, roots@.len() as int),
            old(ui).live().subset_of(ui.live()),
            forall|j: int|
                0 <= j < r ==> (#[trigger] handles@[j])@.len() == roots@[j].dynamic_nodes@.len(),
            forall|j: int, i: int|
                0 <= j < handles@.len() && 0 <= i < handles@[j]@.len() ==> ui.live().contains(
                    #[trigger] handles@[j]@[i],
                ) && !old(ui).live().contains(handles@[j]@[i]),
        decreases roots@.len() - r,
    {
        let count = roots[r].dynamic_nodes.len();
        let mut row: Vec<u32> = Vec::new();
        proof {
            dynamic_count_rises(roots@, r + 1, roots@.len() as int);
        }
        let ghost live_before = ui.live();
        while row.len() < count
            invariant
                row@.len() <= count,
                r < roots@.len(),
                count == roots@[r as int].dynamic_nodes@.len(),
                ui.wf(),
                ui.commands() == old(ui).commands(),
                ui.spare() + dynamic_count(roots@, r as int) + row@.len() == old(ui).spare(),
                old(ui).spare() >= dynamic_count(roots@, r + 1),
                old(ui).live().subset_of(ui.live()),
                live_before.subset_of(ui.live()),
                forall|i: int|
                    0 <= i < row@.len() ==> ui.live().contains(#[trigger] row@[i])
                        && !old(ui).live().contains(row@[i]),
            decreases count - row@.len(),
        {
            let id = ui.node();
            row.push(id);
        }
        handles.push(row);
        r = r + 1;
    }
    handles
}

/// The count of dynamic nodes does not fall as more roots are counted.
proof fn dynamic_count_rises(roots: Seq<Root>, at: int, upto: int)
    requires
        0 <= at <= upto,
    ensures
        dynamic_count(roots, at) <= dynamic_count(roots, upto),
    decreases upto - at,
{
    if at < upto {
        dynamic_count_rises(roots, at, upto - 1);
    }
}

/// The rows of a table of handles, each by its view.
pub open spec fn rows(handles: Seq<Vec<u32>>) -> Seq<Seq<u32>> {
    Seq::new(handles.len(), |i: int| handles[i]@)
}

fn lookup(handles: &Vec<Vec<u32>>, root: usize, node: usize) -> (found: Option<u32>)
    ensures
        found == handle_of(rows(handles@), root, node),
{
    if root < handles.len() && node < handles[root].len() {
        Some(handles[root][node])
    } else {
        None
    }
}

/// Carries out the steps of `plan`.
fn replay<R: Renderer>(
    plan: &Vec<PlanStep>,
    handles: &Vec<Vec<u32>>,
    template: &Vec<u32>,
    ui: &mut R,
)
    requires
        old(ui).wf(),
    ensures
        final(ui).wf(),
        final(ui).live() == old(ui).live(),
        final(ui).spare() == old(ui).spare(),
        final(ui).commands() == old(ui).commands() + replay_calls(
            plan@,
            rows(handles@),
            template@,
            plan@.len() as int,
        ),
{
    let mut k: usize = 0;
    proof {
        assert(ui.commands() =~= old(ui).commands() + replay_calls(
            plan@,
            rows(handles@),
            template@,
            0,
        ));
    }
    while k < plan.len()
        invariant
            k <= plan@.len(),
            ui.wf(),
            ui.live() == old(ui).live(),
            ui.spare() == old(ui).spare(),
            ui.commands() == old(ui).commands() + replay_calls(
                plan@,
                rows(handles@),
                template@,
                k as int,
            ),
        decreases plan@.len() - k,
    {
        let ghost before = ui.commands();
        match plan[k] {
            PlanStep::Node { root, id } => {},
            PlanStep::CloneTemplate { root, into } => {
                match lookup(handles, root, into) {
                    Some(new_id) => {
                        if root < template.len() {
                            ui.clone_node(template[root], new_id);
                        }
                    },
                    None => {},
                }
            },
            PlanStep::Copy { root, from, to } => {
                match lookup(handles, root, from) {
                    Some(from) => match lookup(handles, root, to) {
                        Some(to) => {
                            ui.copy(from, to);
                        },
                        None => {},
                    },
                    None => {},
                }
            },
            PlanStep::FirstChild { root, id } => {
                match lookup(handles, root, id) {
                    Some(id) => {
                        ui.first_child(id);
                    },
                    None => {},
                }
            },
            PlanStep::NextSibling { root, id } => {
                match lookup(handles, root, id) {
                    Some(id) => {
                        ui.next_sibling(id);
                    },
                    None => {},
                }
            },
        }
        proof {
            let step = plan@[k as int];
            assert(ui.commands() =~= before + replay_call(step, rows(handles@), template@));
        }
        k = k + 1;
    }
}

/// Registers the listeners of every dynamic node.
fn register_listeners<R: Renderer>(roots: &Vec<Root>, handles: &Vec<Vec<u32>>, ui: &mut R)
    requires
        old(ui).wf(),
        shaped(rows(handles@), roots@),
    ensures
        final(ui).wf(),
        final(ui).live() == old(ui).live(),
        final(ui).spare() == old(ui).spare(),
        final(ui).commands() == old(ui).commands() + listener_calls(
            roots@,
            rows(handles@),
            roots@.len() as int,
        ),
{
    let mut r: usize = 0;
    proof {
        assert(ui.commands() =~= old(ui).commands() + listener_calls(roots@, rows(handles@), 0));
    }
    while r < roots.len()
        invariant
            r <= roots@.len(),
            shaped(rows(handles@), roots@),
            ui.wf(),
            ui.live() == old(ui).live(),
            ui.spare() == old(ui).spare(),
            ui.commands() == old(ui).commands() + listener_calls(roots@, rows(handles@), r as int),
        decreases roots@.len() - r,
    {
        let nodes = &roots[r].dynamic_nodes;
        let ghost before_root = ui.commands();
        proof {
            assert(rows(handles@)[r as int] == handles@[r as int]@);
            assert(ui.commands() =~= before_root + root_listener_calls(
                nodes@,
                handles@[r as int]@,
                0,
            ));
        }
        let mut i: usize = 0;
        while i < nodes.len()
            invariant
                i <= nodes@.len(),
                r < roots@.len(),
                r < handles@.len(),
                nodes == &roots@[r as int].dynamic_nodes,
                handles@[r as int]@.len() == nodes@.len(),
                ui.wf(),
                ui.live() == old(ui).live(),
                ui.spare() == old(ui).spare(),
                ui.commands() == before_root + root_listener_calls(
                    nodes@,
                    handles@[r as int]@,
                    i as int,
                ),
            decreases nodes@.len() - i,
        {
            let id = handles[r][i];
            let ghost before_node = ui.commands();
            match &nodes[i].node {
                DynamicNodeType::Element(element) => {
                    let listeners = &element.listeners;
                    let mut j: usize = 0;
                    proof {
                        assert(ui.commands() =~= before_node + node_listener_calls(
                            listeners@,
                            id,
                            0,
                        ));
                    }
                    while j < listeners.len()
                        invariant
                            j <= listeners@.len(),
                            ui.wf(),
                            ui.live() == old(ui).live(),
                            ui.spare() == old(ui).spare(),
                            ui.commands() == before_node + node_listener_calls(
                                listeners@,
                                id,
                                j as int,
                            ),
                        decreases listeners@.len() - j,
                    {
                        let ghost before = ui.commands();
                        let key = listeners[j].key.as_str();
                        if starts_with(key, "on") {
                            proof {
                                reveal_strlit("on");
                            }
                            let event = tail(key, 2);
                            ui.add_listener(id, event.as_str(), j);
                            proof {
                                let event = key@.skip(2);
                                assert(ui.commands() =~= before.push(
                                    CommandView::AddListener { id, event, handler: j },
                                ));
                            }
                        }
                        j = j + 1;
                    }
                    proof {
                        assert(node_listeners(nodes@[i as int]) == listeners@);
                        assert(ui.commands() =~= before_root + root_listener_calls(
                            nodes@,
                            handles@[r as int]@,
                            i + 1,
                        ));
                    }
                },
                _ => {
                    proof {
                        assert(node_listeners(nodes@[i as int]) =~= Seq::<Listener>::empty());
                        assert(ui.commands() =~= before_root + root_listener_calls(
                            nodes@,
                            handles@[r as int]@,
                            i + 1,
                        ));
                    }
                },
            }
            i = i + 1;
        }
        proof {
            assert(ui.commands() =~= old(ui).commands() + listener_calls(
                roots@,
                rows(handles@),
                r + 1,
            ));
        }
        r = r + 1;
    }
}

/// Gives the cells their first values, in the order of their slots.
fn construct<R: Renderer, M: BitMask>(
    component: &Component,
    handles: Vec<Vec<u32>>,
    roots: Vec<u32>,
    init: &Props,
    ui: &mut R,
) -> (instance: Instance<M>)
    requires
        component.wf(),
        component.cells@.len() <= M::width(),
        old(ui).wf(),
    ensures
        final(ui).wf(),
        final(ui).live() == old(ui).live(),
        final(ui).spare() == old(ui).spare(),
        instance.fits(cells_view(component.cells@)),
        instance.handles == handles,
        instance.roots == roots,
        instance@ == mounted(component, rows(handles@), init@),
        final(ui).commands() == old(ui).commands() + construct_spec(
            cells_view(component.cells@),
            rows(handles@),
            init@,
            component.cells@.len() as int,
        ).calls,
{
    let ghost cells = cells_view(component.cells@);
    let ghost table = rows(handles@);
    let ghost firsts = init@;
    let bits = M::bits();
    let mut instance: Instance<M> = Instance {
        tracking: DirtyTrackSet::default(),
        notified: M::zero(),
        slots: Vec::new(),
        handles,
        roots,
        supplied: copy_lists(&init.texts),
    };
    proof {
        assert(instance@.values =~= construct_spec(cells, table, firsts, 0).values);
        assert(instance@.captured =~= construct_spec(cells, table, firsts, 0).captured);
        let none = construct_spec(cells, table, firsts, 0);
        assert(ui.commands() =~= old(ui).commands() + none.calls);
        assert(instance@.handles =~= table);
        assert(instance@.written =~= Set::<nat>::empty());
        assert(instance@.notified =~= Set::<nat>::empty());
    }
    let mut slot: usize = 0;
    while slot < component.cells.len()
        invariant
            slot <= component.cells@.len(),
            component.wf(),
            component.cells@.len() <= M::width(),
            M::width() <= u8::MAX,
            cells == cells_view(component.cells@),
            firsts == init@,
            instance.slots@.len() == slot,
            instance.handles == handles,
            instance.roots == roots,
            instance@.supplied == firsts.texts,
            instance@.handles == table,
            instance@.written == Set::<nat>::empty(),
            instance@.notified == Set::<nat>::empty(),
            forall|i: int|
                0 <= i < slot ==> ((#[trigger] instance.slots@[i]) is State <==> cells[i] is State),
            forall|i: int|
                0 <= i < slot ==> match #[trigger] instance.slots@[i] {
                    Slot::State(_) => true,
                    Slot::Derived(effect) => effect.rx == i,
                },
            instance@.values == construct_spec(cells, table, firsts, slot as int).values,
            instance@.captured == construct_spec(cells, table, firsts, slot as int).captured,
            ui.wf(),
            ui.live() == old(ui).live(),
            ui.spare() == old(ui).spare(),
            ui.commands() == old(ui).commands() + construct_spec(
                cells,
                table,
                firsts,
                slot as int,
            ).calls,
        decreases component.cells@.len() - slot,
    {
        let ghost before = instance@;
        let ghost calls_before = ui.commands();
        proof {
            assert(cells[slot as int] == component.cells@[slot as int]@);
            assert(cells[slot as int].wf(slot as int));
        }
        match &component.cells[slot] {
            Cell::State(_) => {
                let value = if slot < init.values.len() {
                    init.values[slot].duplicate()
                } else {
                    Value::Unit
                };
                proof {
                    if slot < init.values@.len() {
                        assert(firsts.values[slot as int] == init.values@[slot as int]@);
                    }
                }
                instance.slots.push(Slot::State(value));
                proof {
                    let first = first_value(firsts.values, slot as int);
                    assert(instance@.values =~= before.values.push(first));
                    assert(instance@.captured =~= before.captured.push(Set::empty()));
                }
            },
            Cell::Memo(memo) => {
                proof {
                    Instance::<M>::memo_reads_below(memo@, slot as int, slot as int);
                }
                let texts = instance.supplied_to(slot);
                let value = instance.refresh(&memo.update, &texts, ui);
                let captured = instance.tracking.get_read();
                instance.slots.push(
                    Slot::Derived(Effect { rx: slot, rx_subscriptions: captured, current: value }),
                );
                proof {
                    let pieces = memo@.update.pieces();
                    assert(instance@.values =~= before.values.push(
                        evaluate(memo@.update, before.values, list_at(firsts.texts, slot as int)),
                    ));
                    assert(instance@.captured =~= before.captured.push(
                        reads_of(pieces, pieces.len() as int),
                    ));
                    assert(ui.commands() =~= old(ui).commands() + construct_spec(
                        cells,
                        table,
                        firsts,
                        slot + 1,
                    ).calls);
                }
            },
        }
        proof {
            assert(instance@.handles =~= table);
            assert(instance@.written =~= Set::<nat>::empty());
            assert(instance@.notified =~= Set::<nat>::empty());
        }
        slot = slot + 1;
    }
    let ghost before = instance@;
    instance.tracking.reset_read();
    proof {
        assert(instance@.read =~= Set::<nat>::empty());
        assert(instance@.values =~= before.values);
        assert(instance@.captured =~= before.captured);
        assert(instance@.handles =~= before.handles);
        assert(instance@.written =~= before.written);
        assert(instance@.notified =~= before.notified);
    }
    instance
}

impl Component {
    /// The number of handles that a mount may take: one for each dynamic
    /// node, and, unless the template of the component type is `held`
    /// already, one for each creation variable of the template.
    pub open spec fn handles_needed(&self, held: bool) -> nat {
        if held {
            dynamic_count(self.rsx.roots@, self.rsx.roots@.len() as int)
        } else {
            dynamic_count(self.rsx.roots@, self.rsx.roots@.len() as int) + self.rsx.keys@.len()
        }
    }

    /// The number of handles that a mount may take, if it can be counted.
    pub fn count_handles(&self, held: bool) -> (count: Option<usize>)
        ensures
            match count {
                Some(count) => count == self.handles_needed(held),
                None => self.handles_needed(held) > usize::MAX,
            },
    {
        let mut count: usize = 0;
        let mut r: usize = 0;
        while r < self.rsx.roots.len()
            invariant
                r <= self.rsx.roots@.len(),
                count == dynamic_count(self.rsx.roots@, r as int),
            decreases self.rsx.roots@.len() - r,
        {
            let more = self.rsx.roots[r].dynamic_nodes.len();
            if more > usize::MAX - count {
                proof {
                    dynamic_count_rises(self.rsx.roots@, r + 1, self.rsx.roots@.len() as int);
                }
                return None;
            }
            count = count + more;
            r = r + 1;
        }
        if held {
            return Some(count);
        }
        if self.rsx.keys.len() > usize::MAX - count {
            return None;
        }
        Some(count + self.rsx.keys.len())
    }

    /// Mounts an instance of the component if the backend has the handles
    /// for it, their number can be counted, and a mask of type `M` has a
    /// bit for every cell; else nothing is done and there is no instance.
    /// The handles of the template's creation variables count only where
    /// `cache` does not hold the template yet.
    pub fn mount<R: Renderer, M: BitMask>(
        &self,
        ui: &mut R,
        cache: &mut TemplateCache,
        init: &Props,
    ) -> (mounted: Option<Instance<M>>)
        requires
            self.wf(),
            old(ui).wf(),
            old(cache).wf(),
        ensures
            final(ui).wf(),
            final(cache).wf(),
            mounted.is_some() == (self.cells@.len() <= M::width() && self.handles_needed(
                old(cache).holds(self.name@),
            ) <= usize::MAX && old(ui).spare() >= self.handles_needed(
                old(cache).holds(self.name@),
            )),
            match mounted {
                Some(instance) => {
                    &&& instance.fits(cells_view(self.cells@))
                    &&& shaped(instance@.handles, self.rsx.roots@)
                    &&& instance@ == mounted_spec(self, instance, *init)
                    &&& instance.roots@ == instance_roots(self.rsx.roots@, instance@.handles)
                    &&& final(cache).holds(self.name@)
                    &&& if old(cache).holds(self.name@) {
                        *final(cache) == *old(cache)
                    } else {
                        final(cache).entered(old(cache), self)
                    }
                    &&& final(ui).commands() == old(ui).commands() + (if old(cache).holds(
                        self.name@,
                    ) {
                        Seq::<CommandView>::empty()
                    } else {
                        creation_calls(
                            ops_view(self.rsx.creation@),
                            final(cache).templates@[final(cache).position(self.name@)].vars@,
                            self.rsx.creation@.len() as int,
                        )
                    }) + instance_calls(
                        self,
                        instance@.handles,
                        final(cache).templates@[final(cache).position(self.name@)].roots@,
                        init@,
                    )
                },
                None => {
                    &&& *final(cache) == *old(cache)
                    &&& final(ui).commands() == old(ui).commands()
                    &&& final(ui).live() == old(ui).live()
                    &&& final(ui).spare() == old(ui).spare()
                },
            },
    {
        if self.cells.len() > M::bits() as usize {
            return None;
        }
        let held = cache.has(self.name.as_str());
        let needed = match self.count_handles(held) {
            Some(needed) => needed,
            None => {
                return None;
            },
        };
        if !ui.has_spare(needed) {
            return None;
        }
        let instance = self.create::<R, M>(ui, cache, init);
        proof {
            if old(cache).holds(self.name@) {
                assert(old(ui).commands() + Seq::<CommandView>::empty() =~= old(ui).commands());
            }
        }
        Some(instance)
    }

    /// Mounts an instance of the component.
    ///
    /// Every dynamic node gets a fresh handle. If `cache` holds no template
    /// of the component type, the template is made and entered; in any
    /// case no template is made twice. Then the calls of the instance
    /// follow: the clone of the template and the moves of the plan, the
    /// first update of every binding, and the registration of the
    /// listeners. The state cells start with the values that `init` holds
    /// for their slots.
    pub fn create<R: Renderer, M: BitMask>(
        &self,
        ui: &mut R,
        cache: &mut TemplateCache,
        init: &Props,
    ) -> (instance: Instance<M>)
        requires
            self.wf(),
            self.cells@.len() <= M::width(),
            old(ui).wf(),
            old(cache).wf(),
            old(ui).spare() >= self.handles_needed(old(cache).holds(self.name@)),
        ensures
            final(ui).wf(),
            final(cache).wf(),
            instance.fits(cells_view(self.cells@)),
            shaped(instance@.handles, self.rsx.roots@),
            forall|r: int, i: int|
                0 <= r < instance@.handles.len() && 0 <= i < instance@.handles[r].len()
                    ==> final(ui).live().contains(#[trigger] instance@.handles[r][i]) && !old(
                    ui,
                ).live().contains(instance@.handles[r][i]),
            instance@ == mounted(self, instance@.handles, init@),
            instance.roots@ == instance_roots(self.rsx.roots@, instance@.handles),
            final(cache).holds(self.name@),
            old(cache).holds(self.name@) ==> {
                &&& *final(cache) == *old(cache)
                &&& final(ui).commands() == old(ui).commands() + instance_calls(
                    self,
                    instance@.handles,
                    final(cache).templates@[final(cache).position(self.name@)].roots@,
                    init@,
                )
            },
            !old(cache).holds(self.name@) ==> {
                &&& final(cache).entered(old(cache), self)
                &&& final(ui).commands() == old(ui).commands() + creation_calls(
                    ops_view(self.rsx.creation@),
                    final(cache).templates@[final(cache).position(self.name@)].vars@,
                    self.rsx.creation@.len() as int,
                ) + instance_calls(
                    self,
                    instance@.handles,
                    final(cache).templates@[final(cache).position(self.name@)].roots@,
                    init@,
                )
            },
    {
        let handles = take_handles(&self.rsx.roots, ui);
        let ghost table = rows(handles@);
        let at = cache.get_template(self, ui);
        let ghost made = ui.commands();
        replay(&self.plan, &handles, &cache.templates[at].roots, ui);
        let ghost handles_seq = handles@;
        let roots = root_handles(&self.rsx.roots, &handles);
        let instance = construct(self, handles, roots, init, ui);
        proof {
            assert(instance@.handles =~= table);
            assert(instance.handles@ == handles_seq);
        }
        register_listeners(&self.rsx.roots, &instance.handles, ui);
        proof {
            let template = cache.templates@[at as int].roots@;
            let calls = instance_calls(self, table, template, init@);
            assert(ui.commands() =~= made + calls);
        }
        instance
    }
}

/// The number of calls among `calls` that create a node.
pub open spec fn creations(calls: Seq<CommandView>) -> nat
    decreases calls.len(),
{
    if calls.len() == 0 {
        0
    } else {
        creations(calls.drop_last()) + match calls.last() {
            CommandView::CreateElement { .. } => 1nat,
            CommandView::CreateText { .. } => 1nat,
            _ => 0nat,
        }
    }
}

/// The number of calls among `calls` that clone a node.
pub open spec fn clones(calls: Seq<CommandView>) -> nat
    decreases calls.len(),
{
    if calls.len() == 0 {
        0
    } else {
        clones(calls.drop_last()) + match calls.last() {
            CommandView::CloneNode { .. } => 1nat,
            _ => 0nat,
        }
    }
}

/// What one mount of a component took from the backend and was given: the
/// handles of its dynamic nodes, the handles of the roots of the template,
/// the handles of the creation variables where it made the template, and
/// the first values of its state cells.
pub struct Mount {
    pub handles: Seq<Seq<u32>>,
    pub template: Seq<u32>,
    pub vars: Seq<u32>,
    pub init: PropsView,
}

/// The calls of the first `k` mounts of a component on a cache that held
/// no template of it: the first mount makes the template, every mount
/// makes its instance.
pub open spec fn mounts_calls(component: &Component, mounts: Seq<Mount>, k: int) -> Seq<CommandView>
    decreases k,
{
    if k <= 0 {
        Seq::empty()
    } else {
        let made = if k == 1 {
            creation_calls(
                ops_view(component.rsx.creation@),
                mounts[0].vars,
                component.rsx.creation@.len() as int,
            )
        } else {
            Seq::empty()
        };
        mounts_calls(component, mounts, k - 1) + made + instance_calls(
            component,
            mounts[k - 1].handles,
            mounts[k - 1].template,
            mounts[k - 1].init,
        )
    }
}

proof fn counts_of_concat(a: Seq<CommandView>, b: Seq<CommandView>)
    ensures
        creations(a + b) == creations(a) + creations(b),
        clones(a + b) == clones(a) + clones(b),
    decreases b.len(),
{
    if b.len() == 0 {
        assert(a + b =~= a);
    } else {
        assert((a + b).drop_last() =~= a + b.drop_last());
        counts_of_concat(a, b.drop_last());
    }
}

proof fn counts_of_one(call: CommandView)
    ensures
        creations(seq![call]) == match call {
            CommandView::CreateElement { .. } => 1nat,
            CommandView::CreateText { .. } => 1nat,
            _ => 0nat,
        },
        clones(seq![call]) == match call {
            CommandView::CloneNode { .. } => 1nat,
            _ => 0nat,
        },
{
    let one = seq![call];
    assert(one.len() == 1);
    assert(one.last() == call);
    assert(one.drop_last() =~= Seq::<CommandView>::empty());
    assert(creations(one.drop_last()) == 0);
    assert(clones(one.drop_last()) == 0);
}

proof fn counts_of_push(calls: Seq<CommandView>, call: CommandView)
    ensures
        creations(calls.push(call)) == creations(calls) + creations(seq![call]),
        clones(calls.push(call)) == clones(calls) + clones(seq![call]),
{
    assert(calls.push(call) =~= calls + seq![call]);
    counts_of_concat(calls, seq![call]);
}

proof fn replay_creates_nothing(
    plan: Seq<PlanStep>,
    handles: Seq<Seq<u32>>,
    template: Seq<u32>,
    k: int,
)
    requires
        0 <= k <= plan.len(),
    ensures
        creations(replay_calls(plan, handles, template, k)) == 0,
    decreases k,
{
    if k > 0 {
        replay_creates_nothing(plan, handles, template, k - 1);
        let call = replay_call(plan[k - 1], handles, template);
        counts_of_concat(replay_calls(plan, handles, template, k - 1), call);
        if call.len() > 0 {
            assert(call =~= seq![call[0]]);
            counts_of_one(call[0]);
        }
    }
}

proof fn construct_creates_nothing(
    cells: Seq<CellView>,
    handles: Seq<Seq<u32>>,
    init: PropsView,
    k: int,
)
    requires
        0 <= k <= cells.len(),
    ensures
        creations(construct_spec(cells, handles, init, k).calls) == 0,
        clones(construct_spec(cells, handles, init, k).calls) == 0,
    decreases k,
{
    if k > 0 {
        construct_creates_nothing(cells, handles, init, k - 1);
        let before = construct_spec(cells, handles, init, k - 1);
        match cells[k - 1] {
            CellView::State(_) => {},
            CellView::Memo(memo) => {
                let pieces = memo.update.pieces();
                let call = update_calls(
                    memo.update,
                    handles,
                    render(pieces, before.values, list_at(init.texts, k - 1), pieces.len() as int),
                );
                counts_of_concat(before.calls, call);
                if call.len() > 0 {
                    assert(call =~= seq![call[0]]);
                    counts_of_one(call[0]);
                }
            },
        }
    }
}

proof fn node_listeners_create_nothing(listeners: Seq<Listener>, id: u32, k: int)
    requires
        0 <= k <= listeners.len(),
    ensures
        creations(node_listener_calls(listeners, id, k)) == 0,
        clones(node_listener_calls(listeners, id, k)) == 0,
    decreases k,
{
    if k > 0 {
        node_listeners_create_nothing(listeners, id, k - 1);
        let key = listeners[k - 1].key@;
        if has_prefix(key, "on"@) {
            let call = CommandView::AddListener {
                id,
                event: key.skip(2),
                handler: (k - 1) as usize,
            };
            counts_of_push(node_listener_calls(listeners, id, k - 1), call);
            counts_of_one(call);
        }
    }
}

proof fn root_listeners_create_nothing(nodes: Seq<DynamicNode>, handles: Seq<u32>, k: int)
    requires
        0 <= k <= nodes.len(),
    ensures
        creations(root_listener_calls(nodes, handles, k)) == 0,
        clones(root_listener_calls(nodes, handles, k)) == 0,
    decreases k,
{
    if k > 0 {
        root_listeners_create_nothing(nodes, handles, k - 1);
        let listeners = node_listeners(nodes[k - 1]);
        node_listeners_create_nothing(listeners, handles[k - 1], listeners.len() as int);
        counts_of_concat(
            root_listener_calls(nodes, handles, k - 1),
            node_listener_calls(listeners, handles[k - 1], listeners.len() as int),
        );
    }
}

proof fn listeners_create_nothing(roots: Seq<Root>, handles: Seq<Seq<u32>>, k: int)
    requires
        0 <= k <= roots.len(),
    ensures
        creations(listener_calls(roots, handles, k)) == 0,
        clones(listener_calls(roots, handles, k)) == 0,
    decreases k,
{
    if k > 0 {
        listeners_create_nothing(roots, handles, k - 1);
        let nodes = roots[k - 1].dynamic_nodes@;
        root_listeners_create_nothing(nodes, handles[k - 1], nodes.len() as int);
        counts_of_concat(
            listener_calls(roots, handles, k - 1),
            root_listener_calls(nodes, handles[k - 1], nodes.len() as int),
        );
    }
}

/// The calls that make an instance create no node: they clone, move,
/// update and register only.
pub proof fn instance_creates_nothing(
    component: &Component,
    handles: Seq<Seq<u32>>,
    template: Seq<u32>,
    init: PropsView,
)
    ensures
        creations(instance_calls(component, handles, template, init)) == 0,
        clones(instance_calls(component, handles, template, init)) == clones(
            replay_calls(component.plan@, handles, template, component.plan@.len() as int),
        ),
{
    let replayed = replay_calls(component.plan@, handles, template, component.plan@.len() as int);
    let constructed = construct_spec(
        cells_view(component.cells@),
        handles,
        init,
        component.cells@.len() as int,
    ).calls;
    let registered = listener_calls(
        component.rsx.roots@,
        handles,
        component.rsx.roots@.len() as int,
    );
    replay_creates_nothing(component.plan@, handles, template, component.plan@.len() as int);
    construct_creates_nothing(
        cells_view(component.cells@),
        handles,
        init,
        component.cells@.len() as int,
    );
    listeners_create_nothing(component.rsx.roots@, handles, component.rsx.roots@.len() as int);
    counts_of_concat(replayed, constructed);
    counts_of_concat(replayed + constructed, registered);
}

/// However often a component is mounted, its template is made once: the
/// calls of any number of mounts, the first on a cache without the
/// template, create as many nodes as the making of the template does.
pub proof fn template_is_made_once(component: &Component, mounts: Seq<Mount>, n: int)
    requires
        1 <= n <= mounts.len(),
    ensures
        creations(mounts_calls(component, mounts, n)) == creations(
            creation_calls(
                ops_view(component.rsx.creation@),
                mounts[0].vars,
                component.rsx.creation@.len() as int,
            ),
        ),
    decreases n,
{
    let made = creation_calls(
        ops_view(component.rsx.creation@),
        mounts[0].vars,
        component.rsx.creation@.len() as int,
    );
    let instance = instance_calls(
        component,
        mounts[n - 1].handles,
        mounts[n - 1].template,
        mounts[n - 1].init,
    );
    instance_creates_nothing(
        component,
        mounts[n - 1].handles,
        mounts[n - 1].template,
        mounts[n - 1].init,
    );
    if n == 1 {
        assert(mounts_calls(component, mounts, 0) =~= Seq::<CommandView>::empty());
        assert(mounts_calls(component, mounts, 1) =~= made + instance);
        counts_of_concat(made, instance);
    } else {
        template_is_made_once(component, mounts, n - 1);
        let before = mounts_calls(component, mounts, n - 1);
        assert(mounts_calls(component, mounts, n) =~= before + instance);
        counts_of_concat(before, instance);
    }
}

proof fn replay_of_concat(
    a: Seq<PlanStep>,
    b: Seq<PlanStep>,
    handles: Seq<Seq<u32>>,
    template: Seq<u32>,
    k: int,
)
    requires
        0 <= k <= b.len(),
    ensures
        replay_calls(a + b, handles, template, a.len() + k) == replay_calls(
            a,
            handles,
            template,
            a.len() as int,
        ) + replay_calls(b, handles, template, k),
    decreases k,
{
    if k == 0 {
        replay_of_prefix(a, b, handles, template, a.len() as int);
        assert(replay_calls(a, handles, template, a.len() as int) + Seq::<CommandView>::empty()
            =~= replay_calls(a, handles, template, a.len() as int));
    } else {
        replay_of_concat(a, b, handles, template, k - 1);
        assert((a + b)[a.len() + k - 1] == b[k - 1]);
        assert(replay_calls(a + b, handles, template, a.len() + k) =~= replay_calls(
            a,
            handles,
            template,
            a.len() as int,
        ) + replay_calls(b, handles, template, k));
    }
}

proof fn replay_of_prefix(
    a: Seq<PlanStep>,
    b: Seq<PlanStep>,
    handles: Seq<Seq<u32>>,
    template: Seq<u32>,
    k: int,
)
    requires
        0 <= k <= a.len(),
    ensures
        replay_calls(a + b, handles, template, k) == replay_calls(a, handles, template, k),
    decreases k,
{
    if k > 0 {
        replay_of_prefix(a, b, handles, template, k - 1);
        assert((a + b)[k - 1] == a[k - 1]);
    }
}

proof fn root_node_exists(nodes: Seq<DynamicNode>)
    requires
        exists|i: int| 0 <= i < nodes.len() && (#[trigger] nodes[i]).path@.len() == 0,
    ensures
        0 <= root_node(nodes) < nodes.len(),
    decreases nodes.len(),
{
    let at = choose|i: int| 0 <= i < nodes.len() && (#[trigger] nodes[i]).path@.len() == 0;
    if nodes[0].path@.len() != 0 {
        assert(nodes.drop_first()[at - 1] == nodes[at]);
        root_node_exists(nodes.drop_first());
    }
}

proof fn node_steps_clone_nothing(
    roots: Seq<Root>,
    handles: Seq<Seq<u32>>,
    template: Seq<u32>,
    k: int,
)
    requires
        0 <= k <= roots.len(),
    ensures
        clones(
            replay_calls(
                all_node_steps(roots, k),
                handles,
                template,
                all_node_steps(roots, k).len() as int,
            ),
        ) == 0,
    decreases k,
{
    if k > 0 {
        node_steps_clone_nothing(roots, handles, template, k - 1);
        let before = all_node_steps(roots, k - 1);
        let here = crate::node::node_steps((k - 1) as usize, roots[k - 1].dynamic_nodes@.len());
        replay_of_concat(before, here, handles, template, here.len() as int);
        only_nodes_clone_nothing(here, handles, template, here.len() as int);
        counts_of_concat(
            replay_calls(before, handles, template, before.len() as int),
            replay_calls(here, handles, template, here.len() as int),
        );
    }
}

proof fn only_nodes_clone_nothing(
    steps: Seq<PlanStep>,
    handles: Seq<Seq<u32>>,
    template: Seq<u32>,
    k: int,
)
    requires
        0 <= k <= steps.len(),
        forall|i: int| 0 <= i < steps.len() ==> !((#[trigger] steps[i]) is CloneTemplate),
    ensures
        clones(replay_calls(steps, handles, template, k)) == 0,
    decreases k,
{
    if k > 0 {
        only_nodes_clone_nothing(steps, handles, template, k - 1);
        let call = replay_call(steps[k - 1], handles, template);
        counts_of_concat(replay_calls(steps, handles, template, k - 1), call);
        if call.len() > 0 {
            assert(call =~= seq![call[0]]);
            counts_of_one(call[0]);
        }
    }
}

proof fn emit_has_no_clone(t: TraverseNode, root: usize)
    ensures
        forall|i: int|
            0 <= i < emit_spec(t, root).len() ==> !((#[trigger] emit_spec(t, root)[i])
                is CloneTemplate),
    decreases t,
{
    match t.next {
        None => {},
        Some(n) => {
            emit_has_no_clone(*n, root);
        },
    }
    match t.child {
        None => {},
        Some(c) => {
            emit_has_no_clone(*c, root);
        },
    }
}

proof fn traverse_clones_nothing(
    roots: Seq<Root>,
    handles: Seq<Seq<u32>>,
    template: Seq<u32>,
    k: int,
)
    requires
        0 <= k <= roots.len(),
    ensures
        forall|i: int|
            0 <= i < traverse_steps(roots, k).len() ==> !((#[trigger] traverse_steps(roots, k)[i])
                is CloneTemplate),
    decreases k,
{
    if k > 0 {
        traverse_clones_nothing(roots, handles, template, k - 1);
        let nodes = roots[k - 1].dynamic_nodes@;
        emit_has_no_clone(crate::node::plan_tree(nodes, nodes.len() as int), (k - 1) as usize);
    }
}

proof fn clone_steps_clone_each(
    roots: Seq<Root>,
    handles: Seq<Seq<u32>>,
    template: Seq<u32>,
    k: int,
)
    requires
        0 <= k <= roots.len(),
        roots.len() <= usize::MAX,
        shaped(handles, roots),
        template.len() == roots.len(),
        forall|r: int| 0 <= r < roots.len() ==> (#[trigger] roots[r]).wf(),
    ensures
        clone_steps(roots, k).len() == k,
        clones(replay_calls(clone_steps(roots, k), handles, template, k)) == k,
    decreases k,
{
    if k > 0 {
        clone_steps_clone_each(roots, handles, template, k - 1);
        let before = clone_steps(roots, k - 1);
        let nodes = roots[k - 1].dynamic_nodes@;
        assert(roots[k - 1].wf());
        root_node_exists(nodes);
        let step = PlanStep::CloneTemplate {
            root: (k - 1) as usize,
            into: root_node(nodes) as usize,
        };
        assert(clone_steps(roots, k) =~= before + seq![step]);
        replay_of_concat(before, seq![step], handles, template, 1);
        let call = replay_call(step, handles, template);
        assert(handles[k - 1].len() == nodes.len());
        assert(call.len() == 1);
        assert(call =~= seq![call[0]]);
        counts_of_one(call[0]);
        assert(replay_calls(seq![step], handles, template, 0) =~= Seq::<CommandView>::empty());
        assert(replay_calls(seq![step], handles, template, 1) =~= call);
        counts_of_concat(replay_calls(before, handles, template, before.len() as int), call);
    }
}

proof fn creation_clones_nothing(ops: Seq<crate::rsx::CreateOpView>, vars: Seq<u32>, k: int)
    requires
        0 <= k <= ops.len(),
    ensures
        clones(creation_calls(ops, vars, k)) == 0,
    decreases k,
{
    if k > 0 {
        creation_clones_nothing(ops, vars, k - 1);
        let call = crate::template::creation_call(ops[k - 1], vars);
        counts_of_concat(creation_calls(ops, vars, k - 1), call);
        if call.len() > 0 {
            assert(call =~= seq![call[0]]);
            counts_of_one(call[0]);
        }
    }
}

/// A replay of the plan clones each root of the template once.
pub proof fn replay_clones_each_root(
    component: &Component,
    handles: Seq<Seq<u32>>,
    template: Seq<u32>,
)
    requires
        component.wf(),
        shaped(handles, component.rsx.roots@),
        template.len() == component.rsx.roots@.len(),
    ensures
        clones(
            replay_calls(component.plan@, handles, template, component.plan@.len() as int),
        ) == component.rsx.roots@.len(),
{
    let roots = component.rsx.roots@;
    let n = roots.len() as int;
    assert(roots.len() == component.rsx.roots.len());
    let a = all_node_steps(roots, n);
    let b = clone_steps(roots, n);
    let c = traverse_steps(roots, n);
    node_steps_clone_nothing(roots, handles, template, n);
    clone_steps_clone_each(roots, handles, template, n);
    traverse_clones_nothing(roots, handles, template, n);
    only_nodes_clone_nothing(c, handles, template, c.len() as int);
    replay_of_concat(a, b, handles, template, b.len() as int);
    replay_of_concat(a + b, c, handles, template, c.len() as int);
    counts_of_concat(
        replay_calls(a, handles, template, a.len() as int),
        replay_calls(b, handles, template, b.len() as int),
    );
    counts_of_concat(
        replay_calls(a + b, handles, template, (a + b).len() as int),
        replay_calls(c, handles, template, c.len() as int),
    );
    assert(component.plan@ == a + b + c);
}

/// Each of any number of mounts replays the plan for itself: together the
/// mounts clone every root of the template once for each mount.
pub proof fn every_mount_replays_the_plan(component: &Component, mounts: Seq<Mount>, n: int)
    requires
        component.wf(),
        0 <= n <= mounts.len(),
        forall|i: int|
            0 <= i < mounts.len() ==> shaped((#[trigger] mounts[i]).handles, component.rsx.roots@)
                && mounts[i].template.len() == component.rsx.roots@.len(),
    ensures
        clones(mounts_calls(component, mounts, n)) == n * component.rsx.roots@.len(),
    decreases n,
{
    if n > 0 {
        every_mount_replays_the_plan(component, mounts, n - 1);
        let before = mounts_calls(component, mounts, n - 1);
        let made = if n == 1 {
            creation_calls(
                ops_view(component.rsx.creation@),
                mounts[0].vars,
                component.rsx.creation@.len() as int,
            )
        } else {
            Seq::empty()
        };
        let mount = mounts[n - 1];
        let instance = instance_calls(component, mount.handles, mount.template, mount.init);
        creation_clones_nothing(
            ops_view(component.rsx.creation@),
            mounts[0].vars,
            component.rsx.creation@.len() as int,
        );
        instance_creates_nothing(component, mount.handles, mount.template, mount.init);
        replay_clones_each_root(component, mount.handles, mount.template);
        counts_of_concat(before, made);
        counts_of_concat(before + made, instance);
        assert(mounts_calls(component, mounts, n) == before + made + instance);
        let each = component.rsx.roots@.len() as int;
        assert(clones(made) == 0);
        assert(clones(instance) == each);
        assert(n * each == (n - 1) * each + each) by (nonlinear_arith);
    } else {
        assert(mounts_calls(component, mounts, 0) =~= Seq::<CommandView>::empty());
        assert(0 * component.rsx.roots@.len() == 0);
    }
}

} // verus!
