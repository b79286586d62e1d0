//! The templates of components, each made once and cloned for every
//! instance.
//!
//! The cache is an explicit registry keyed by the name of the component
//! type. The first mount of a type makes the template and enters it; every
//! later mount finds it.

use vstd::prelude::*;
use crate::component::{copy_handles, Component};
use crate::component_visitor::{find_cell, first_named};
use crate::expr::texts_view;
use crate::renderer::{CommandView, Renderer};
use crate::rsx::{ops_view, CreateOp, CreateOpView, Elements, Root};

verus! {

/// The template of one component type in the backend.
#[derive(Debug)]
pub struct Template {
    /// The handle of each root of the template.
    pub roots: Vec<u32>,
    /// The handle that each creation variable had while the template was
    /// made.
    pub vars: Vec<u32>,
}

/// The templates made so far, by the name of the component type.
#[derive(Debug)]
pub struct TemplateCache {
    pub names: Vec<String>,
    pub templates: Vec<Template>,
}

/// The handle of the creation variable `var`, if there is such a variable.
pub open spec fn var_handle(vars: Seq<u32>, var: usize) -> Option<u32> {
    if var < vars.len() {
        Some(vars[var as int])
    } else {
        None
    }
}

/// The calls that carry out the creation step `op`, where the creation
/// variables have the handles `vars`. Taking a handle and giving it back
/// are no calls; a step that names a variable that does not exist makes
/// none, nor does the appending of a fragment.
pub open spec fn creation_call(op: CreateOpView, vars: Seq<u32>) -> Seq<CommandView> {
    match op {
        CreateOpView::Node { var } => Seq::empty(),
        CreateOpView::CreateElement { var, tag } => match var_handle(vars, var) {
            Some(id) => seq![CommandView::CreateElement { id, tag }],
            None => Seq::empty(),
        },
        CreateOpView::CreateText { var, text } => match var_handle(vars, var) {
            Some(id) => seq![CommandView::CreateText { id, text }],
            None => Seq::empty(),
        },
        CreateOpView::SetAttribute { var, key, value } => match var_handle(vars, var) {
            Some(id) => seq![CommandView::SetAttribute { id, name: key, value }],
            None => Seq::empty(),
        },
        CreateOpView::AppendChild { parent, child } => match (
            var_handle(vars, parent),
            var_handle(vars, child),
        ) {
            (Some(parent), Some(child)) => seq![CommandView::AppendChild { parent, child }],
            _ => Seq::empty(),
        },
        CreateOpView::AppendAll { parent, fragment } => Seq::empty(),
        CreateOpView::ReturnNode { var } => Seq::empty(),
    }
}

/// The calls that carry out the first `k` of the creation steps `ops`.
pub open spec fn creation_calls(ops: Seq<CreateOpView>, vars: Seq<u32>, k: int) -> Seq<CommandView>
    decreases k,
{
    if k <= 0 {
        Seq::empty()
    } else {
        creation_calls(ops, vars, k - 1) + creation_call(ops[k - 1], vars)
    }
}

/// The handles of the roots of a template: for each root that of its
/// creation variable, and 0 where it has none.
pub open spec fn template_roots(roots: Seq<Root>, vars: Seq<u32>) -> Seq<u32> {
    Seq::new(
        roots.len(),
        |i: int|
            match roots[i].root_name {
                Some(var) => match var_handle(vars, var) {
                    Some(id) => id,
                    None => 0u32,
                },
                None => 0u32,
            },
    )
}

impl Default for TemplateCache {
    fn default() -> (cache: Self)
        ensures
            cache.wf(),
            cache.names@.len() == 0,
    {
        TemplateCache { names: Vec::new(), templates: Vec::new() }
    }
}

impl TemplateCache {
    /// There is a template for every name.
    pub open spec fn wf(&self) -> bool {
        self.names@.len() == self.templates@.len()
    }

    /// The position of the template of the component type called `name`,
    /// or the number of templates if there is none.
    pub open spec fn position(&self, name: Seq<char>) -> int {
        first_named(texts_view(self.names@), name)
    }

    /// Whether there is a template of the component type called `name`.
    pub open spec fn holds(&self, name: Seq<char>) -> bool {
        self.position(name) < self.names@.len()
    }

    /// Whether this cache is the cache `before` with the template of
    /// `component` entered at its end: the templates of `before` are kept,
    /// and the new one has a handle for every creation variable and, as
    /// the handles of its roots, those of their creation variables.
    pub open spec fn entered(&self, before: &TemplateCache, component: &Component) -> bool {
        self.entered_as(before, component.name, &component.rsx)
    }

    /// Whether this cache is the cache `before` with the template of the
    /// markup `rsx` entered at its end under the name `name`.
    pub open spec fn entered_as(&self, before: &TemplateCache, name: String, rsx: &Elements)
        -> bool {
        let at = before.names@.len() as int;
        &&& self.names@ == before.names@.push(name)
        &&& self.position(name@) == at
        &&& self.templates@.len() == before.templates@.len() + 1
        &&& forall|i: int|
            0 <= i < before.templates@.len() ==> self.templates@[i] == before.templates@[i]
        &&& self.templates@[at].vars@.len() == rsx.keys@.len()
        &&& self.templates@[at].roots@ == template_roots(rsx.roots@, self.templates@[at].vars@)
    }

    /// Whether there is a template of the component type called `name`.
    pub fn has(&self, name: &str) -> (held: bool)
        ensures
            held == self.holds(name@),
    {
        find_cell(&self.names, name) < self.names.len()
    }

    /// The position of the template of `component`, which is made and
    /// entered first if the cache does not hold one.
    ///
    /// Where the template is made, every creation variable gets a fresh
    /// handle, the creation steps are carried out in their order, and the
    /// handles that the steps give back are given back. Where the cache
    /// holds the template, no call is made and no handle is taken, and
    /// the backend need not have one to spare.
    pub fn get_template<R: Renderer>(&mut self, component: &Component, ui: &mut R) -> (at: usize)
        requires
            old(self).wf(),
            old(ui).wf(),
            old(self).holds(component.name@) || old(ui).spare() >= component.rsx.keys@.len(),
        ensures
            final(self).wf(),
            final(ui).wf(),
            at == old(self).position(component.name@),
            at < final(self).names@.len(),
            final(self).position(component.name@) == at,
            old(ui).live().subset_of(final(ui).live()),
            old(self).holds(component.name@) ==> {
                &&& *final(self) == *old(self)
                &&& final(ui).commands() == old(ui).commands()
                &&& final(ui).live() == old(ui).live()
                &&& final(ui).spare() == old(ui).spare()
            },
            !old(self).holds(component.name@) ==> {
                &&& final(self).entered(old(self), component)
                &&& final(ui).commands() == old(ui).commands() + creation_calls(
                    ops_view(component.rsx.creation@),
                    final(self).templates@[at as int].vars@,
                    component.rsx.creation@.len() as int,
                )
                &&& final(ui).spare() + component.rsx.keys@.len() >= old(ui).spare()
            },
    {
        self.template_of(&component.name, &component.rsx, ui)
    }

    /// The position of the template of the markup `rsx` under the name
    /// `name`, which is made and entered first if the cache holds none
    /// under that name.
    pub fn template_of<R: Renderer>(&mut self, name: &String, rsx: &Elements, ui: &mut R) -> (at:
        usize)
        requires
            old(self).wf(),
            old(ui).wf(),
            old(self).holds(name@) || old(ui).spare() >= rsx.keys@.len(),
        ensures
            final(self).wf(),
            final(ui).wf(),
            at == old(self).position(name@),
            at < final(self).names@.len(),
            final(self).position(name@) == at,
            old(ui).live().subset_of(final(ui).live()),
            old(self).holds(name@) ==> {
                &&& *final(self) == *old(self)
                &&& final(ui).commands() == old(ui).commands()
                &&& final(ui).live() == old(ui).live()
                &&& final(ui).spare() == old(ui).spare()
            },
            !old(self).holds(name@) ==> {
                &&& final(self).entered_as(old(self), *name, rsx)
                &&& final(ui).commands() == old(ui).commands() + creation_calls(
                    ops_view(rsx.creation@),
                    final(self).templates@[at as int].vars@,
                    rsx.creation@.len() as int,
                )
                &&& final(ui).spare() + rsx.keys@.len() >= old(ui).spare()
            },
    {
        let found = find_cell(&self.names, name.as_str());
        if found < self.names.len() {
            return found;
        }
        let template = make_template(rsx, ui);
        self.names.push(name.clone());
        self.templates.push(template);
        proof {
            let before = texts_view(old(self).names@);
            let after = texts_view(self.names@);
            assert(after =~= before.push(name@));
            first_named_of_push(before, name@);
        }
        found
    }
}

/// What one call for the template of the markup `rsx` under the name
/// `name` does: `before` and `ui_before` are the cache and the backend
/// before the call, `after` and `ui_after` after it, and `roots` is what
/// the call gives.
///
/// Where the cache holds the template, the call gives the handles of its
/// roots and nothing changes. Where it does not and the backend has a
/// handle to spare for every creation variable, the template is made and
/// entered, and the call gives the handles of its roots. Where the backend
/// lacks the handles, nothing changes and the call gives nothing.
pub open spec fn template_got<R: Renderer>(
    rsx: &Elements,
    name: String,
    before: &TemplateCache,
    ui_before: &R,
    after: &TemplateCache,
    ui_after: &R,
    roots: Option<Seq<u32>>,
) -> bool {
    if before.holds(name@) {
        &&& *after == *before
        &&& ui_after.commands() == ui_before.commands()
        &&& ui_after.live() == ui_before.live()
        &&& ui_after.spare() == ui_before.spare()
        &&& roots == Some(before.templates@[before.position(name@)].roots@)
    } else if ui_before.spare() >= rsx.keys@.len() {
        &&& after.entered_as(before, name, rsx)
        &&& ui_after.commands() == ui_before.commands() + creation_calls(
            ops_view(rsx.creation@),
            after.templates@[after.position(name@)].vars@,
            rsx.creation@.len() as int,
        )
        &&& roots == Some(after.templates@[after.position(name@)].roots@)
    } else {
        &&& *after == *before
        &&& ui_after.commands() == ui_before.commands()
        &&& ui_after.live() == ui_before.live()
        &&& ui_after.spare() == ui_before.spare()
        &&& roots.is_none()
    }
}

impl Elements {
    /// The handles of the roots of the template of this markup, which is
    /// kept in `cache` under the name `name`.
    ///
    /// The first call for a name makes the template: every creation
    /// variable gets a fresh handle and the creation steps are carried
    /// out. Every later call for the name makes no call to the backend,
    /// takes no handle, leaves the cache as it is, and gives the same
    /// handles. Where the template must be made and the backend lacks the
    /// handles for it, nothing is done and there is no result.
    pub fn get_template_fn<R: Renderer>(
        &self,
        name: &String,
        cache: &mut TemplateCache,
        ui: &mut R,
    ) -> (roots: Option<Vec<u32>>)
        requires
            old(cache).wf(),
            old(ui).wf(),
        ensures
            final(cache).wf(),
            final(ui).wf(),
            template_got(
                self,
                *name,
                old(cache),
                old(ui),
                final(cache),
                final(ui),
                match roots {
                    Some(handles) => Some(handles@),
                    None => None,
                },
            ),
    {
        if !cache.has(name.as_str()) && !ui.has_spare(self.keys.len()) {
            return None;
        }
        let at = cache.template_of(name, self, ui);
        Some(copy_handles(&cache.templates[at].roots))
    }
}

/// The template of a markup is made at the first call for its name, and at
/// no later one. Of two calls in a row for one name, the second makes no
/// call to the backend, leaves the cache as it is, and gives what the
/// first gave: the handles of the same roots, or nothing where the first
/// could not make the template.
pub proof fn later_calls_make_nothing<R: Renderer>(
    rsx: &Elements,
    name: String,
    first: &TemplateCache,
    ui_first: &R,
    second: &TemplateCache,
    ui_second: &R,
    third: &TemplateCache,
    ui_third: &R,
    once: Option<Seq<u32>>,
    twice: Option<Seq<u32>>,
)
    requires
        template_got(rsx, name, first, ui_first, second, ui_second, once),
        template_got(rsx, name, second, ui_second, third, ui_third, twice),
    ensures
        ui_third.commands() == ui_second.commands(),
        ui_third.live() == ui_second.live(),
        ui_third.spare() == ui_second.spare(),
        *third == *second,
        twice == once,
{
    if !first.holds(name@) && ui_first.spare() >= rsx.keys@.len() {
        assert(second.holds(name@));
    }
}

/// A name that a sequence lacks is found at its end once it is appended.
proof fn first_named_of_push(names: Seq<Seq<char>>, name: Seq<char>)
    requires
        first_named(names, name) >= names.len(),
    ensures
        first_named(names.push(name), name) == names.len(),
    decreases names.len(),
{
    if names.len() > 0 {
        assert(names.push(name).drop_first() =~= names.drop_first().push(name));
        first_named_of_push(names.drop_first(), name);
    }
}

/// Makes the template of the markup `rsx` in the backend.
fn make_template<R: Renderer>(rsx: &Elements, ui: &mut R) -> (template: Template)
    requires
        old(ui).wf(),
        old(ui).spare() >= rsx.keys@.len(),
    ensures
        final(ui).wf(),
        old(ui).live().subset_of(final(ui).live()),
        template.vars@.len() == rsx.keys@.len(),
        template.roots@ == template_roots(rsx.roots@, template.vars@),
        final(ui).commands() == old(ui).commands() + creation_calls(
            ops_view(rsx.creation@),
            template.vars@,
            rsx.creation@.len() as int,
        ),
        final(ui).spare() + rsx.keys@.len() >= old(ui).spare(),
{
    let count = rsx.keys.len();
    let mut vars: Vec<u32> = Vec::new();
    let mut held: Vec<bool> = Vec::new();
    while vars.len() < count
        invariant
            vars@.len() <= count,
            count == rsx.keys@.len(),
            held@.len() == vars@.len(),
            ui.wf(),
            ui.commands() == old(ui).commands(),
            ui.spare() + vars@.len() == old(ui).spare(),
            old(ui).spare() >= count,
            old(ui).live().subset_of(ui.live()),
            forall|i: int| 0 <= i < vars@.len() ==> held@[i],
            forall|i: int| 0 <= i < vars@.len() ==> ui.live().contains(#[trigger] vars@[i]),
            forall|i: int| 0 <= i < vars@.len() ==> !old(ui).live().contains(#[trigger] vars@[i]),
            forall|i: int, j: int| 0 <= i < j < vars@.len() ==> vars@[i] != vars@[j],
        decreases count - vars@.len(),
    {
        let id = ui.node();
        vars.push(id);
        held.push(true);
    }
    let ghost env = vars@;
    let ops = &rsx.creation;
    let mut k: usize = 0;
    proof {
        assert(ui.commands() =~= old(ui).commands() + creation_calls(ops_view(ops@), env, 0));
    }
    while k < ops.len()
        invariant
            k <= ops@.len(),
            ops == &rsx.creation,
            vars@ == env,
            env.len() == count,
            count == rsx.keys@.len(),
            held@.len() == env.len(),
            ui.wf(),
            ui.commands() == old(ui).commands() + creation_calls(ops_view(ops@), env, k as int),
            ui.spare() + count >= old(ui).spare(),
            forall|i: int|
                0 <= i < env.len() && held@[i] ==> ui.live().contains(#[trigger] env[i]),
            forall|i: int| 0 <= i < env.len() ==> !old(ui).live().contains(#[trigger] env[i]),
            forall|i: int, j: int| 0 <= i < j < env.len() ==> env[i] != env[j],
            old(ui).live().subset_of(ui.live()),
        decreases ops@.len() - k,
    {
        let ghost before = ui.commands();
        proof {
            assert(ops_view(ops@)[k as int] == ops@[k as int]@);
        }
        match &ops[k] {
            CreateOp::Node { var } => {},
            CreateOp::CreateElement { var, tag } => {
                if *var < count {
                    ui.create_element(vars[*var], tag.as_str());
                }
            },
            CreateOp::CreateText { var, text } => {
                if *var < count {
                    ui.create_text(vars[*var], text.as_str());
                }
            },
            CreateOp::SetAttribute { var, key, value } => {
                if *var < count {
                    ui.set_attribute(vars[*var], key.as_str(), value.as_str());
                }
            },
            CreateOp::AppendChild { parent, child } => {
                if *parent < count && *child < count {
                    ui.append_child(vars[*parent], vars[*child]);
                }
            },
            CreateOp::AppendAll { parent, fragment } => {},
            CreateOp::ReturnNode { var } => {
                if *var < count && held[*var] {
                    ui.return_node(vars[*var]);
                    held[*var] = false;
                }
            },
        }
        proof {
            assert(ui.commands() =~= before + creation_call(ops@[k as int]@, env));
        }
        k = k + 1;
    }
    let mut roots: Vec<u32> = Vec::new();
    let mut r: usize = 0;
    while r < rsx.roots.len()
        invariant
            r <= rsx.roots@.len(),
            vars@ == env,
            env.len() == count,
            roots@ == template_roots(rsx.roots@, env).take(r as int),
        decreases rsx.roots@.len() - r,
    {
        let id = match rsx.roots[r].root_name {
            Some(var) => if var < count {
                vars[var]
            } else {
                0
            },
            None => 0,
        };
        roots.push(id);
        proof {
            let all = template_roots(rsx.roots@, env);
            assert(all.take(r + 1) =~= all.take(r as int).push(all[r as int]));
        }
        r = r + 1;
    }
    proof {
        let all = template_roots(rsx.roots@, env);
        assert(all.take(all.len() as int) =~= all);
    }
    Template { roots, vars }
}

} // verus!
