//! The capabilities that a cell starts with.

use vstd::prelude::*;
use crate::kernel::capability::{READ, WRITE};

verus! {

/// A capability on the cell's queue pair: its handle, and the rights it was made with.
#[derive(Copy, Clone, PartialEq, Eq, Debug, Structural)]
pub struct QueueCap {
    pub handle: u64,
    pub rights: u32,
}

impl QueueCap {
    /// Whether the capability carries a right.
    pub fn allows(&self, right: u32) -> (b: bool)
        ensures
            b == (self.rights & right == right),
    {
        self.rights & right == right
    }

    /// The same capability with these rights alone; none where that would widen it.
    pub fn attenuate(&self, rights: u32) -> (c: Option<QueueCap>)
        ensures
            c == (if self.rights & rights == rights {
                Some(QueueCap { handle: self.handle, rights })
            } else {
                None
            }),
    {
        if self.allows(rights) {
            Some(QueueCap { handle: self.handle, rights })
        } else {
            None
        }
    }
}

/// Narrowing never widens: what a narrowed capability allows, the one that it was made from
/// allows too.
pub proof fn law_attenuation_never_widens(c: QueueCap, rights: u32, right: u32)
    requires
        c.rights & rights == rights,
        rights & right == right,
    ensures
        c.rights & right == right,
{
    let r = c.rights;
    assert(r & right == right) by (bit_vector)
        requires
            r & rights == rights,
            rights & right == right,
    ;
}

/// What a cell holds at the start: the capability on its queue pair.
#[derive(Copy, Clone, PartialEq, Eq, Debug, Structural)]
pub struct CapSet {
    pub queue: QueueCap,
}

impl CapSet {
    /// The number that goes into a submission: the lower half of the handle.
    pub open spec fn stamp(&self) -> int {
        (self.queue.handle % 0x1_0000_0000) as int
    }

    /// The set for the number that the kernel has reported: to read and to write.
    pub fn new(queue_cap_id: u32) -> (s: CapSet)
        ensures
            s.queue.handle == queue_cap_id,
            s.stamp() == queue_cap_id,
            s.queue.rights == READ + WRITE,
    {
        CapSet { queue: QueueCap { handle: queue_cap_id as u64, rights: READ + WRITE } }
    }

    pub fn queue(&self) -> (c: &QueueCap)
        ensures
            *c == self.queue,
    {
        &self.queue
    }

    /// The number that goes into a submission.
    pub fn queue_cap_id(&self) -> (id: u32)
        ensures
            id == self.stamp(),
    {
        let h: u64 = self.queue.handle;
        assert(h as u32 == h % 0x1_0000_0000u64) by (bit_vector);
        h as u32
    }
}

/// Install the set of a cell.
pub fn install(held: &mut Option<CapSet>, set: CapSet)
    ensures
        *final(held) == Some(set),
{
    *held = Some(set);
}

/// The set of a cell, once it has one.
pub fn cap_set(held: &Option<CapSet>) -> (s: CapSet)
    requires
        held is Some,
    ensures
        Some(s) == *held,
{
    match held {
        Some(s) => *s,
        None => CapSet::new(0),
    }
}

/// The number that goes into a submission is the handle, where that fits in 32 bits, and else
/// its lower half.
pub proof fn law_stamp_is_the_handle(s: CapSet)
    ensures
        0 <= s.stamp() <= u32::MAX,
        s.queue.handle <= u32::MAX ==> s.stamp() == s.queue.handle,
        (s.queue.handle - s.stamp()) % 0x1_0000_0000 == 0,
{
}

} // verus!
