//! Identifier allocation for groups and units.
//!
//! Ids are 64-bit, process-wide unique and issued monotonically.  After a
//! reload the allocator is re-seeded by feeding it every id found in the
//! restored store, so freshly issued ids never collide with restored ones.
//! The owning simulation thread is single-threaded by contract, so the
//! allocator is an explicit value threaded through every entry point
//! rather than hidden global state.

use vstd::prelude::*;

verus! {

/// Issues fresh group and unit ids.  `new_group_id` and `new_unit_id`
/// return values strictly greater than every id issued or observed
/// before them.
#[derive(Clone, Copy, Debug, PartialEq, Eq, Structural)]
pub struct IdAllocator {
    next_group: u64,
    next_unit: u64,
}

impl IdAllocator {
    /// The lowest group id this allocator may still issue.
    pub closed spec fn group_floor(&self) -> u64 {
        self.next_group
    }

    /// The lowest unit id this allocator may still issue.
    pub closed spec fn unit_floor(&self) -> u64 {
        self.next_unit
    }

    /// True when the allocator can still issue one group id and `n`
    /// unit ids without exhausting the 64-bit id space.
    pub open spec fn can_allocate(&self, n_units: nat) -> bool {
        self.group_floor() < u64::MAX && self.unit_floor() + n_units <= u64::MAX
    }

    pub fn new() -> (r: Self)
        ensures
            r.group_floor() == 0,
            r.unit_floor() == 0,
    {
        IdAllocator { next_group: 0, next_unit: 0 }
    }

    /// Exact exec mirror of `can_allocate`, so unverified callers can
    /// test the headroom before asking for ids.
    pub fn has_headroom(&self, n_units: usize) -> (b: bool)
        ensures
            b == self.can_allocate(n_units as nat),
    {
        self.next_group < u64::MAX && n_units as u64 <= u64::MAX - self.next_unit
    }

    /// The group id the next allocation will return.
    pub fn peek_group_id(&self) -> (id: u64)
        ensures
            id == self.group_floor(),
    {
        self.next_group
    }

    /// The unit id the next allocation will return.
    pub fn peek_unit_id(&self) -> (id: u64)
        ensures
            id == self.unit_floor(),
    {
        self.next_unit
    }

    /// Issues a fresh group id: the current floor, which then rises past it.
    pub fn new_group_id(&mut self) -> (id: u64)
        requires
            old(self).group_floor() < u64::MAX,
        ensures
            id == old(self).group_floor(),
            final(self).group_floor() == id + 1,
            final(self).unit_floor() == old(self).unit_floor(),
    {
        let id = self.next_group;
        self.next_group = self.next_group + 1;
        id
    }

    /// Issues a fresh unit id: the current floor, which then rises past it.
    pub fn new_unit_id(&mut self) -> (id: u64)
        requires
            old(self).unit_floor() < u64::MAX,
        ensures
            id == old(self).unit_floor(),
            final(self).unit_floor() == id + 1,
            final(self).group_floor() == old(self).group_floor(),
    {
        let id = self.next_unit;
        self.next_unit = self.next_unit + 1;
        id
    }

    /// Raises the group floor above `id`, so `id` can never be issued.
    /// Used while loading saved state.  Observing the largest possible id
    /// pins the floor at the top, which simply exhausts the allocator.
    pub fn observe_group(&mut self, id: u64)
        ensures
            id < u64::MAX ==> final(self).group_floor() > id,
            id == u64::MAX ==> final(self).group_floor() == u64::MAX,
            final(self).group_floor() >= old(self).group_floor(),
            final(self).unit_floor() == old(self).unit_floor(),
    {
        if id >= self.next_group {
            if id == u64::MAX {
                self.next_group = u64::MAX;
            } else {
                self.next_group = id + 1;
            }
        }
    }

    /// Raises the unit floor above `id`, so `id` can never be issued.
    pub fn observe_unit(&mut self, id: u64)
        ensures
            id < u64::MAX ==> final(self).unit_floor() > id,
            id == u64::MAX ==> final(self).unit_floor() == u64::MAX,
            final(self).unit_floor() >= old(self).unit_floor(),
            final(self).group_floor() == old(self).group_floor(),
    {
        if id >= self.next_unit {
            if id == u64::MAX {
                self.next_unit = u64::MAX;
            } else {
                self.next_unit = id + 1;
            }
        }
    }
}

} // verus!
