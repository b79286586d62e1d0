//! A list of mounted components that stands in one place of the tree.

use vstd::prelude::*;
use crate::component::{removal_calls, ComponentState};
use crate::renderer::{append_all_calls, CommandView, Renderer};

verus! {

/// The roots of the first `k` of `items`, in their order.
pub open spec fn fragment_roots<R: Renderer, C: ComponentState<R>>(items: Seq<C>, k: int) -> Seq<
    u32,
>
    decreases k,
{
    if k <= 0 {
        Seq::empty()
    } else {
        fragment_roots::<R, C>(items, k - 1) + items[k - 1].roots_spec()
    }
}

/// The calls that take the first `k` of `items` out of the tree.
pub open spec fn fragment_removals<R: Renderer, C: ComponentState<R>>(items: Seq<C>, k: int) -> Seq<
    CommandView,
>
    decreases k,
{
    if k <= 0 {
        Seq::empty()
    } else {
        fragment_removals::<R, C>(items, k - 1) + removal_calls(items[k - 1].roots_spec())
    }
}

/// The calls that append the roots of the first `k` of `items` to `parent`.
pub open spec fn fragment_appends<R: Renderer, C: ComponentState<R>>(
    items: Seq<C>,
    parent: u32,
    k: int,
) -> Seq<CommandView>
    decreases k,
{
    if k <= 0 {
        Seq::empty()
    } else {
        fragment_appends::<R, C>(items, parent, k - 1) + append_all_calls(
            parent,
            items[k - 1].roots_spec(),
        )
    }
}

/// A list of mounted components.
pub struct Fragment<C> {
    pub items: Vec<C>,
}

impl<C> Fragment<C> {
    /// The fragment of `items`.
    pub fn new(items: Vec<C>) -> (fragment: Self)
        ensures
            fragment.items == items,
    {
        Fragment { items }
    }

    /// Puts `items` in the place of the components of the fragment: the
    /// old ones are taken out of the tree, then the roots of the new ones
    /// are appended to `parent`. There is no matching of old to new.
    pub fn update<R: Renderer>(&mut self, items: Vec<C>, parent: u32, ui: &mut R) where
        C: ComponentState<R>,

        requires
            old(ui).wf(),
        ensures
            final(self).items == items,
            final(ui).wf(),
            final(ui).live() == old(ui).live(),
            final(ui).spare() == old(ui).spare(),
            final(ui).commands() == old(ui).commands() + fragment_removals::<R, C>(
                old(self).items@,
                old(self).items@.len() as int,
            ) + fragment_appends::<R, C>(items@, parent, items@.len() as int),
    {
        let mut i: usize = 0;
        proof {
            assert(ui.commands() =~= old(ui).commands() + fragment_removals::<R, C>(
                self.items@,
                0,
            ));
        }
        while i < self.items.len()
            invariant
                i <= self.items@.len(),
                self.items == old(self).items,
                ui.wf(),
                ui.live() == old(ui).live(),
                ui.spare() == old(ui).spare(),
                ui.commands() == old(ui).commands() + fragment_removals::<R, C>(
                    self.items@,
                    i as int,
                ),
            decreases self.items@.len() - i,
        {
            let ghost before = ui.commands();
            self.items[i].remove(ui);
            proof {
                assert(ui.commands() =~= old(ui).commands() + fragment_removals::<R, C>(
                    self.items@,
                    i + 1,
                ));
            }
            i = i + 1;
        }
        let ghost removed = ui.commands();
        self.items = items;
        let mut i: usize = 0;
        proof {
            assert(ui.commands() =~= removed + fragment_appends::<R, C>(self.items@, parent, 0));
        }
        while i < self.items.len()
            invariant
                i <= self.items@.len(),
                self.items == items,
                ui.wf(),
                ui.live() == old(ui).live(),
                ui.spare() == old(ui).spare(),
                ui.commands() == removed + fragment_appends::<R, C>(self.items@, parent, i as int),
            decreases self.items@.len() - i,
        {
            let roots = self.items[i].roots();
            ui.append_all(parent, &roots);
            proof {
                assert(ui.commands() =~= removed + fragment_appends::<R, C>(
                    self.items@,
                    parent,
                    i + 1,
                ));
            }
            i = i + 1;
        }
    }
}

impl<R: Renderer, C: ComponentState<R>> ComponentState<R> for Fragment<C> {
    open spec fn roots_spec(&self) -> Seq<u32> {
        fragment_roots::<R, C>(self.items@, self.items@.len() as int)
    }

    fn roots(&self) -> (roots: Vec<u32>) {
        let mut roots: Vec<u32> = Vec::new();
        let mut i: usize = 0;
        while i < self.items.len()
            invariant
                i <= self.items@.len(),
                roots@ == fragment_roots::<R, C>(self.items@, i as int),
            decreases self.items@.len() - i,
        {
            let mut more = self.items[i].roots();
            roots.append(&mut more);
            i = i + 1;
        }
        roots
    }

    fn remove(&self, ui: &mut R) {
        let roots = <Self as ComponentState<R>>::roots(self);
        crate::component::remove_roots(&roots, ui);
    }
}

} // verus!
