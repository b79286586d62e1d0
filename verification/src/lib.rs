//! A fine-grained reactive UI engine: state cells, derived cells and markup
//! bindings are connected ahead of time, and a mutation re-runs only the
//! updaters that depend on the cell that was written.

pub mod component;
pub mod component_visitor;
pub mod decimal;
pub mod dynamic;
pub mod error;
pub mod events;
pub mod expr;
pub mod format;
pub mod fragment;
pub mod memo;
pub mod mount;
pub mod node;
pub mod prop;
pub mod renderer;
pub mod rsx;
pub mod runtime;
pub mod slab;
pub mod state;
pub mod template;
pub mod text;
pub mod tracking;
pub mod traversal;
pub mod value;

use vstd::prelude::*;

verus! {

/// Mounts `component` in the backend `ui` and shows it: the instance is
/// made, its roots are appended to the host's container, which has the
/// handle 0, and the calls are committed. Where the instance cannot be
/// mounted nothing is done.
pub fn launch<R: renderer::Renderer, M: tracking::BitMask>(
    ui: &mut R,
    component: &component::Component,
    cache: &mut template::TemplateCache,
    init: &mount::Props,
) -> (launched: Option<runtime::Instance<M>>)
    requires
        component.wf(),
        old(ui).wf(),
        old(cache).wf(),
    ensures
        final(ui).wf(),
        final(cache).wf(),
        launched.is_some() == (component.cells@.len() <= M::width() && component.handles_needed(
            old(cache).holds(component.name@),
        ) <= usize::MAX && old(ui).spare() >= component.handles_needed(
            old(cache).holds(component.name@),
        )),
        match launched {
            Some(instance) => {
                &&& final(cache).holds(component.name@)
                &&& if old(cache).holds(component.name@) {
                    *final(cache) == *old(cache)
                } else {
                    final(cache).entered(old(cache), component)
                }
                &&& instance.fits(component::cells_view(component.cells@))
                &&& instance@ == mount::mounted_spec(component, instance, *init)
                &&& instance.roots@ == mount::instance_roots(
                    component.rsx.roots@,
                    instance@.handles,
                )
                &&& final(ui).commands() == old(ui).commands() + (if old(cache).holds(
                    component.name@,
                ) {
                    Seq::<renderer::CommandView>::empty()
                } else {
                    template::creation_calls(
                        rsx::ops_view(component.rsx.creation@),
                        final(cache).templates@[final(cache).position(component.name@)].vars@,
                        component.rsx.creation@.len() as int,
                    )
                }) + mount::instance_calls(
                    component,
                    instance@.handles,
                    final(cache).templates@[final(cache).position(component.name@)].roots@,
                    init@,
                ) + renderer::append_all_calls(0, instance.roots@).push(
                    renderer::CommandView::Flush,
                )
            },
            None => {
                &&& *final(cache) == *old(cache)
                &&& final(ui).commands() == old(ui).commands()
                &&& final(ui).live() == old(ui).live()
                &&& final(ui).spare() == old(ui).spare()
            },
        },
{
    let instance = match component.mount::<R, M>(ui, cache, init) {
        Some(instance) => instance,
        None => {
            return None;
        },
    };
    let ghost mounted = ui.commands();
    ui.append_all(0, &instance.roots);
    ui.flush();
    proof {
        assert(ui.commands() =~= mounted + renderer::append_all_calls(0, instance.roots@).push(
            renderer::CommandView::Flush,
        ));
    }
    Some(instance)
}

} // verus!
