//! Dirty-bit tracking: which reactive slots were read or written since the
//! masks were last reset.

use vstd::prelude::*;

verus! {

/// An unsigned integer used as a set of slot numbers, one bit per slot.
///
/// The width of the integer is the number of reactive slots that a component
/// may have; a wider type lifts the ceiling without changing the cost of a
/// mark or a test.
pub trait BitMask: Copy + Sized {
    /// The number of slots that the mask can hold.
    spec fn width() -> nat;

    /// Whether slot `slot` is a member of the mask.
    spec fn has(self, slot: nat) -> bool;

    /// The number of slots that the mask can hold.
    fn bits() -> (w: u8)
        ensures
            w == Self::width(),
    ;

    /// The mask with no slot in it.
    fn zero() -> (mask: Self)
        ensures
            forall|slot: nat| !mask.has(slot),
    ;

    /// The mask with `slot` added.
    fn with_bit(self, slot: u8) -> (mask: Self)
        requires
            (slot as nat) < Self::width(),
        ensures
            forall|other: nat| mask.has(other) == (self.has(other) || other == slot as nat),
    ;

    /// Whether `slot` is in the mask.
    fn test_bit(self, slot: u8) -> (set: bool)
        requires
            (slot as nat) < Self::width(),
        ensures
            set == self.has(slot as nat),
    ;
}

impl BitMask for u8 {
    open spec fn width() -> nat {
        8
    }

    open spec fn has(self, slot: nat) -> bool {
        slot < 8 && (self & (1u8 << (slot as u8))) != 0
    }

    fn bits() -> (w: u8) {
        8
    }

    fn zero() -> (mask: Self) {
        assert(forall|s: u8| s < 8 ==> (0u8 & (1u8 << s)) == 0) by (bit_vector);
        0
    }

    fn with_bit(self, slot: u8) -> (mask: Self) {
        let mask = self | (1u8 << slot);
        assert(forall|a: u8, b: u8, m: u8|
            a < 8 && b < 8 ==> ((((m | (1u8 << a)) & (1u8 << b)) != 0) == (((m & (1u8 << b))
                != 0) || b == a))) by (bit_vector);
        assert forall|other: nat| mask.has(other) == (self.has(other) || other == slot as nat) by {
            if other < 8 {
                assert(other as u8 == other);
                assert(slot as u8 == slot);
            }
        }
        mask
    }

    fn test_bit(self, slot: u8) -> (set: bool) {
        (self & (1u8 << slot)) != 0
    }
}

impl BitMask for u16 {
    open spec fn width() -> nat {
        16
    }

    open spec fn has(self, slot: nat) -> bool {
        slot < 16 && (self & (1u16 << (slot as u16))) != 0
    }

    fn bits() -> (w: u8) {
        16
    }

    fn zero() -> (mask: Self) {
        assert(forall|s: u16| s < 16 ==> (0u16 & (1u16 << s)) == 0) by (bit_vector);
        0
    }

    fn with_bit(self, slot: u8) -> (mask: Self) {
        let mask = self | (1u16 << slot);
        assert(forall|a: u16, b: u16, m: u16|
            a < 16 && b < 16 ==> ((((m | (1u16 << a)) & (1u16 << b)) != 0) == (((m & (1u16 << b))
                != 0) || b == a))) by (bit_vector);
        assert forall|other: nat| mask.has(other) == (self.has(other) || other == slot as nat) by {
            if other < 16 {
                assert(other as u16 == other);
                assert(slot as u16 == slot);
            }
        }
        mask
    }

    fn test_bit(self, slot: u8) -> (set: bool) {
        (self & (1u16 << slot)) != 0
    }
}

impl BitMask for u32 {
    open spec fn width() -> nat {
        32
    }

    open spec fn has(self, slot: nat) -> bool {
        slot < 32 && (self & (1u32 << (slot as u32))) != 0
    }

    fn bits() -> (w: u8) {
        32
    }

    fn zero() -> (mask: Self) {
        assert(forall|s: u32| s < 32 ==> (0u32 & (1u32 << s)) == 0) by (bit_vector);
        0
    }

    fn with_bit(self, slot: u8) -> (mask: Self) {
        let mask = self | (1u32 << slot);
        assert(forall|a: u32, b: u32, m: u32|
            a < 32 && b < 32 ==> ((((m | (1u32 << a)) & (1u32 << b)) != 0) == (((m & (1u32 << b))
                != 0) || b == a))) by (bit_vector);
        assert forall|other: nat| mask.has(other) == (self.has(other) || other == slot as nat) by {
            if other < 32 {
                assert(other as u32 == other);
                assert(slot as u32 == slot);
            }
        }
        mask
    }

    fn test_bit(self, slot: u8) -> (set: bool) {
        (self & (1u32 << slot)) != 0
    }
}

impl BitMask for u64 {
    open spec fn width() -> nat {
        64
    }

    open spec fn has(self, slot: nat) -> bool {
        slot < 64 && (self & (1u64 << (slot as u64))) != 0
    }

    fn bits() -> (w: u8) {
        64
    }

    fn zero() -> (mask: Self) {
        assert(forall|s: u64| s < 64 ==> (0u64 & (1u64 << s)) == 0) by (bit_vector);
        0
    }

    fn with_bit(self, slot: u8) -> (mask: Self) {
        let mask = self | (1u64 << slot);
        assert(forall|a: u64, b: u64, m: u64|
            a < 64 && b < 64 ==> ((((m | (1u64 << a)) & (1u64 << b)) != 0) == (((m & (1u64 << b))
                != 0) || b == a))) by (bit_vector);
        assert forall|other: nat| mask.has(other) == (self.has(other) || other == slot as nat) by {
            if other < 64 {
                assert(other as u64 == other);
                assert(slot as u64 == slot);
            }
        }
        mask
    }

    fn test_bit(self, slot: u8) -> (set: bool) {
        (self & (1u64 << slot)) != 0
    }
}

/// The read mask and the write mask of one component instance.
///
/// The read mask is cleared before a derived cell is recomputed, so that
/// afterwards it holds the slots which that computation read. The write mask
/// is cleared at each entry point of an outside mutation, so that afterwards
/// it holds the slots which the mutation wrote.
pub struct DirtyTrackSet<R, W> {
    pub read: R,
    pub write: W,
}

impl<R: BitMask, W: BitMask> Default for DirtyTrackSet<R, W> {
    fn default() -> (set: Self)
        ensures
            forall|slot: nat| !set.read.has(slot),
            forall|slot: nat| !set.write.has(slot),
    {
        DirtyTrackSet { read: R::zero(), write: W::zero() }
    }
}

impl<R: BitMask, W: BitMask> DirtyTrackSet<R, W> {
    /// Whether slot `num` was read since the read mask was last reset.
    pub fn is_read(&self, num: u8) -> (read: bool)
        requires
            (num as nat) < R::width(),
        ensures
            read == self.read.has(num as nat),
    {
        self.read.test_bit(num)
    }

    /// Whether slot `num` was written since the write mask was last reset.
    pub fn is_write(&self, num: u8) -> (written: bool)
        requires
            (num as nat) < W::width(),
        ensures
            written == self.write.has(num as nat),
    {
        self.write.test_bit(num)
    }

    /// Binds a handle to slot `num`. Neither mask changes.
    pub fn track(&self, num: u8) -> (handle: DirtyTrack)
        ensures
            handle.num == num,
    {
        DirtyTrack { num }
    }

    /// The read mask.
    pub fn get_read(&self) -> (mask: R)
        ensures
            mask == self.read,
    {
        self.read
    }

    /// Empties the read mask. The write mask stays.
    pub fn reset_read(&mut self)
        ensures
            forall|slot: nat| !final(self).read.has(slot),
            final(self).write == old(self).write,
    {
        self.read = R::zero();
    }

    /// The write mask.
    pub fn get_write(&self) -> (mask: W)
        ensures
            mask == self.write,
    {
        self.write
    }

    /// Empties the write mask. The read mask stays.
    pub fn reset_write(&mut self)
        ensures
            forall|slot: nat| !final(self).write.has(slot),
            final(self).read == old(self).read,
    {
        self.write = W::zero();
    }
}

/// A handle on one slot of a [`DirtyTrackSet`]. Making one marks nothing.
#[derive(Clone, Copy)]
pub struct DirtyTrack {
    pub num: u8,
}

impl DirtyTrack {
    /// Records in `data` that the slot was read.
    pub fn read<R: BitMask, W: BitMask>(&self, data: &mut DirtyTrackSet<R, W>)
        requires
            (self.num as nat) < R::width(),
        ensures
            forall|slot: nat|
                final(data).read.has(slot) == (old(data).read.has(slot) || slot == self.num as nat),
            final(data).write == old(data).write,
    {
        data.read = data.read.with_bit(self.num);
    }

    /// Records in `data` that the slot was written.
    pub fn write<R: BitMask, W: BitMask>(&self, data: &mut DirtyTrackSet<R, W>)
        requires
            (self.num as nat) < W::width(),
        ensures
            forall|slot: nat|
                final(data).write.has(slot) == (old(data).write.has(slot) || slot
                    == self.num as nat),
            final(data).read == old(data).read,
    {
        data.write = data.write.with_bit(self.num);
    }
}

/// Exclusive access to the storage of one cell, together with the handle on
/// its slot: a read through it marks the slot read, a write marks it written.
pub struct RwTrack<'a, T> {
    pub data: &'a mut T,
    pub tracking: DirtyTrack,
}

impl<'a, T> RwTrack<'a, T> {
    /// The value that the wrapper gives access to.
    pub open spec fn value(&self) -> T {
        *self.data
    }

    /// The cell's value, for reading. Marks the slot read in `set`.
    pub fn get<R: BitMask, W: BitMask>(&self, set: &mut DirtyTrackSet<R, W>) -> (value: &T)
        requires
            (self.tracking.num as nat) < R::width(),
        ensures
            *value == self.value(),
            forall|slot: nat|
                final(set).read.has(slot) == (old(set).read.has(slot) || slot
                    == self.tracking.num as nat),
            final(set).write == old(set).write,
    {
        self.tracking.read(set);
        &*self.data
    }

    /// The cell's value, for writing. Marks the slot written in `set`.
    pub fn get_mut<R: BitMask, W: BitMask>(&mut self, set: &mut DirtyTrackSet<R, W>) -> (value:
        &mut T)
        requires
            (old(self).tracking.num as nat) < W::width(),
        ensures
            *value == old(self).value(),
            final(self).value() == *final(value),
            *final(final(self).data) == *final(old(self).data),
            final(self).tracking == old(self).tracking,
            forall|slot: nat|
                final(set).write.has(slot) == (old(set).write.has(slot) || slot
                    == old(self).tracking.num as nat),
            final(set).read == old(set).read,
    {
        self.tracking.write(set);
        &mut *self.data
    }
}

/// A derived cell at run time: how it is recomputed, the slots that the last
/// computation read, and the value it gave.
pub struct Effect<F, T, R> {
    pub rx: F,
    pub rx_subscriptions: R,
    pub current: T,
}

} // verus!
