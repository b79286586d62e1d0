//! Numbered slots that are handed out, given back and handed out again.

use vstd::prelude::*;

verus! {

/// A store of values under small numeric identifiers. An identifier that was
/// given back is the next one to be handed out.
pub struct IdSlab<T> {
    last_node_id: u32,
    recyled_nodes: Vec<u32>,
    data: Vec<Option<T>>,
}

impl<T> Default for IdSlab<T> {
    fn default() -> (slab: Self)
        ensures
            slab.wf(),
            slab.slots() == Seq::<Option<T>>::empty(),
            slab.recycled() == Seq::<u32>::empty(),
    {
        IdSlab { last_node_id: 0, recyled_nodes: Vec::new(), data: Vec::new() }
    }
}

impl<T> IdSlab<T> {
    /// The slab is consistent: the next fresh identifier is the number of
    /// slots, and every identifier that waits to be handed out again names a
    /// slot.
    pub closed spec fn wf(self) -> bool {
        &&& self.last_node_id as nat == self.data@.len()
        &&& forall|i: int|
            0 <= i < self.recyled_nodes@.len() ==> (#[trigger] self.recyled_nodes@[i] as nat)
                < self.data@.len()
    }

    /// What each identifier handed out so far holds: a value, or nothing
    /// once it was given back.
    pub closed spec fn slots(self) -> Seq<Option<T>> {
        self.data@
    }

    /// The identifiers that were given back and not handed out again, the
    /// one given back last at the end.
    pub closed spec fn recycled(self) -> Seq<u32> {
        self.recyled_nodes@
    }

    /// How many identifiers can still be handed out: those that wait to be
    /// handed out again, and the numbers never used. A count beyond the
    /// range of the result is given as the greatest number in the range.
    pub fn spare(&self) -> (count: u64)
        requires
            self.wf(),
        ensures
            count == if self.recycled().len() + u32::MAX - self.slots().len() > u64::MAX {
                u64::MAX as int
            } else {
                self.recycled().len() + u32::MAX - self.slots().len()
            },
    {
        let waiting = self.recyled_nodes.len() as u64;
        let unused = (u32::MAX - self.last_node_id) as u64;
        if waiting > u64::MAX - unused {
            u64::MAX
        } else {
            waiting + unused
        }
    }

    /// Stores `data` and returns its identifier: the one that was given back
    /// last if there is one, else the next number never used.
    pub fn id(&mut self, data: T) -> (id: u32)
        requires
            old(self).wf(),
            old(self).recycled().len() > 0 || old(self).slots().len() < u32::MAX,
        ensures
            final(self).wf(),
            (id as nat) < final(self).slots().len(),
            final(self).slots()[id as int] == Some(data),
            old(self).recycled().len() > 0 ==> {
                &&& id == old(self).recycled().last()
                &&& (id as nat) < old(self).slots().len()
                &&& final(self).recycled() == old(self).recycled().drop_last()
                &&& final(self).slots() == old(self).slots().update(id as int, Some(data))
            },
            old(self).recycled().len() == 0 ==> {
                &&& id as nat == old(self).slots().len()
                &&& final(self).recycled() == old(self).recycled()
                &&& final(self).slots() == old(self).slots().push(Some(data))
            },
    {
        match self.recyled_nodes.pop() {
            Some(id) => {
                self.data[id as usize] = Some(data);
                id
            },
            None => {
                let current = self.last_node_id;
                self.last_node_id += 1;
                self.data.push(Some(data));
                current
            },
        }
    }

    /// Gives `id` back: its slot is emptied and `id` is the next to be
    /// handed out.
    pub fn recycle(&mut self, id: u32)
        requires
            old(self).wf(),
            (id as nat) < old(self).slots().len(),
        ensures
            final(self).wf(),
            final(self).recycled() == old(self).recycled().push(id),
            final(self).slots() == old(self).slots().update(id as int, None),
    {
        self.recyled_nodes.push(id);
        self.data[id as usize] = None;
    }

    /// The value stored under `id`, for writing, if the slot holds one.
    pub fn get_mut(&mut self, id: u32) -> (value: Option<&mut T>)
        requires
            old(self).wf(),
            (id as nat) < old(self).slots().len(),
        ensures
            final(self).wf(),
            final(self).recycled() == old(self).recycled(),
            match value {
                Some(v) => old(self).slots()[id as int] == Some(*v) && final(self).slots() == old(
                    self,
                ).slots().update(id as int, Some(*final(v))),
                None => old(self).slots()[id as int].is_none() && final(self).slots() == old(
                    self,
                ).slots(),
            },
    {
        match &mut self.data[id as usize] {
            Some(v) => Some(v),
            None => None,
        }
    }
}

} // verus!
