//! An allocator that allocates nothing and keeps track of what it was asked
//! for. It stands in for a real allocator where one is composed with others.
use crate::allocation::{Allocation, AllocationId};
use crate::allocation_requirements::AllocationRequirements;
use crate::composable_allocator::ComposableAllocator;
use crate::error::AllocatorError;
use vstd::prelude::*;

verus! {

/// The raw value of the null handle of device memory: ash's
/// `vk::DeviceMemory::null()`, read with `vk::Handle::as_raw`. It is zero.
#[verifier::external_body]
pub(crate) fn null_device_memory() -> (raw: u64)
    ensures
        raw == 0,
{
    ash::vk::Handle::as_raw(ash::vk::DeviceMemory::null())
}

/// A fake implementation of a composable memory allocator which keeps track
/// of all requested memory allocations.
pub struct FakeAllocator {
    /// An ordered collection of every allocation made with this allocator.
    pub allocations: Vec<AllocationRequirements>,
    /// The number of allocations which have yet to be freed.
    pub active_allocations: u32,
    /// The total number of allocations made with this allocator.
    pub allocation_count: u64,
    /// Where the next allocation begins: the sizes of all allocations made
    /// so far, added up.
    pub offset: u64,
}

impl FakeAllocator {
    /// The allocator has room to count one more allocation of `size` bytes.
    pub open spec fn has_room_for(&self, size: u64) -> bool {
        &&& self.active_allocations < u32::MAX
        &&& self.allocation_count < u64::MAX
        &&& self.offset + size <= u64::MAX
    }

    /// A fake allocator that has not been asked for anything yet.
    pub fn new() -> (allocator: Self)
        ensures
            allocator.allocations@ == Seq::<AllocationRequirements>::empty(),
            allocator.active_allocations == 0,
            allocator.allocation_count == 0,
            allocator.offset == 0,
    {
        Self { allocations: Vec::new(), active_allocations: 0, allocation_count: 0, offset: 0 }
    }
}

impl Default for FakeAllocator {
    fn default() -> (allocator: Self)
        ensures
            allocator.allocations@ == Seq::<AllocationRequirements>::empty(),
            allocator.active_allocations == 0,
            allocator.allocation_count == 0,
            allocator.offset == 0,
    {
        Self::new()
    }
}

impl ComposableAllocator for FakeAllocator {
    open spec fn wf(&self) -> bool {
        true
    }

    open spec fn accepts(&self, requirements: AllocationRequirements) -> bool {
        true
    }

    /// Every request is granted and recorded, as long as the counters have
    /// room: allocations lie one behind the other in null memory, and are
    /// numbered in the order they were made. The id of an allocation is the
    /// number of allocations that were made before it, and the count never
    /// begins again, so that no two allocations get the same id.
    open spec fn allocates(
        &self,
        requirements: AllocationRequirements,
        after: &Self,
        result: Result<Allocation, AllocatorError>,
    ) -> bool {
        if self.has_room_for(requirements.size_in_bytes) {
            &&& after.allocations@ == self.allocations@.push(requirements)
            &&& after.active_allocations == self.active_allocations + 1
            &&& after.allocation_count == self.allocation_count + 1
            &&& after.offset == self.offset + requirements.size_in_bytes
            &&& result matches Ok(allocation)
            &&& allocation@ == (crate::allocation::AllocationView {
                memory: 0,
                offset_in_bytes: self.offset,
                size_in_bytes: requirements.size_in_bytes,
                memory_type_index: requirements.memory_type_index,
                requirements,
                id: AllocationId(self.allocation_count),
                parent_id: None,
            })
        } else {
            &&& *after == *self
            &&& result matches Err(error)
            &&& error.is_runtime_error("The fake allocator cannot count another allocation"@)
        }
    }

    /// One allocation fewer is active, whichever allocation is returned;
    /// nothing changes when none is active.
    open spec fn frees(&self, allocation: Allocation, after: &Self) -> bool {
        &&& after.allocations@ == self.allocations@
        &&& after.allocation_count == self.allocation_count
        &&& after.offset == self.offset
        &&& after.active_allocations == if self.active_allocations > 0 {
            (self.active_allocations - 1) as u32
        } else {
            0u32
        }
    }

    fn allocate(&mut self, requirements: AllocationRequirements) -> (result: Result<
        Allocation,
        AllocatorError,
    >) {
        if self.active_allocations == u32::MAX || self.allocation_count == u64::MAX
            || requirements.size_in_bytes > u64::MAX - self.offset {
            return Err(
                AllocatorError::runtime("The fake allocator cannot count another allocation"),
            );
        }
        let allocation = Allocation::new(
            null_device_memory(),
            requirements.memory_type_index,
            self.offset,
            requirements.size_in_bytes,
            requirements,
            AllocationId(self.allocation_count),
        );
        self.active_allocations = self.active_allocations + 1;
        self.allocation_count = self.allocation_count + 1;
        self.allocations.push(requirements);
        self.offset = self.offset + requirements.size_in_bytes;
        Ok(allocation)
    }

    fn free(&mut self, allocation: Allocation) {
        if self.active_allocations > 0 {
            self.active_allocations = self.active_allocations - 1;
        }
    }
}

} // verus!
