//! The allocator at the end of every stack: each allocation is a device
//! memory object of its own.
//!
//! Asking the device is left to whoever holds it. What is decided here is
//! what the device is asked for and what is made of its answer.
use crate::allocation::{
    next_id_after, Allocation, AllocationId, AllocationIdSource, AllocationView,
};
use crate::allocation_requirements::{AllocationRequirements, DedicatedAllocationInfo};
use crate::error::AllocatorError;
use vstd::prelude::*;

verus! {

/// What the device is asked for when memory is allocated.
#[derive(Copy, Clone, PartialEq, Eq, Debug, Structural)]
pub struct MemoryAllocateInfo {
    pub allocation_size: u64,
    pub memory_type_index: u32,
    /// The resource that the memory is dedicated to, where there is one.
    pub dedicated: DedicatedAllocationInfo,
}

/// A GPU memory allocator which always allocates memory directly from the
/// device.
pub struct DeviceAllocator {
    ids: AllocationIdSource,
}

impl DeviceAllocator {
    /// The id that the next allocation gets.
    pub closed spec fn spec_next_id(&self) -> u64 {
        self.ids.spec_next()
    }

    /// Create a new device allocator.
    ///
    /// The device must not be destroyed while this allocator still exists,
    /// and all memory allocated with it must be freed before the device is
    /// destroyed.
    pub fn new() -> (allocator: Self)
        ensures
            allocator.spec_next_id() == 0,
    {
        Self { ids: AllocationIdSource::new() }
    }

    /// What to ask the device for: memory of the requested size and type,
    /// dedicated to the resource that the requirements name.
    pub fn allocate_info(requirements: &AllocationRequirements) -> (info: MemoryAllocateInfo)
        requires
            requirements.memory_type_index <= u32::MAX,
        ensures
            info.allocation_size == requirements.size_in_bytes,
            info.memory_type_index == requirements.memory_type_index,
            info.dedicated == requirements.dedicated_resource_handle.spec_dedicated_allocation_info(),
    {
        MemoryAllocateInfo {
            allocation_size: requirements.size_in_bytes,
            memory_type_index: requirements.memory_type_index as u32,
            dedicated: requirements.dedicated_resource_handle.as_dedicated_allocation_info(),
        }
    }

    /// The allocation for device memory that the device just returned for
    /// the requirements: the whole of it, from offset zero.
    pub fn allocation_for(&mut self, memory: u64, requirements: AllocationRequirements) -> (allocation:
        Allocation)
        ensures
            allocation@ == (AllocationView {
                memory,
                offset_in_bytes: 0,
                size_in_bytes: requirements.size_in_bytes,
                memory_type_index: requirements.memory_type_index,
                requirements,
                id: AllocationId(old(self).spec_next_id()),
                parent_id: None,
            }),
            allocation@.wf(),
            allocation@.grants(requirements),
            final(self).spec_next_id() == next_id_after(old(self).spec_next_id()),
    {
        let id = self.ids.draw();
        Allocation::new(
            memory,
            requirements.memory_type_index,
            0,
            requirements.size_in_bytes,
            requirements,
            id,
        )
    }

    /// Allocate memory from the device, given the device's answer to what
    /// `allocate_info` says to ask: the handle of the device memory, or why
    /// there is none.
    ///
    /// With a handle the result is the allocation of the whole device
    /// memory, from offset zero, for the requirements. Without one the
    /// request fails with the device's message, and no id is drawn.
    pub fn allocate(
        &mut self,
        requirements: AllocationRequirements,
        answer: Result<u64, String>,
    ) -> (result: Result<Allocation, AllocatorError>)
        ensures
            match answer {
                Ok(memory) => {
                    &&& result matches Ok(allocation)
                    &&& allocation@ == (AllocationView {
                        memory,
                        offset_in_bytes: 0,
                        size_in_bytes: requirements.size_in_bytes,
                        memory_type_index: requirements.memory_type_index,
                        requirements,
                        id: AllocationId(old(self).spec_next_id()),
                        parent_id: None,
                    })
                    &&& allocation@.wf()
                    &&& allocation@.grants(requirements)
                    &&& final(self).spec_next_id() == next_id_after(old(self).spec_next_id())
                },
                Err(message) => {
                    &&& result matches Err(error)
                    &&& error.is_runtime_error(message@)
                    &&& final(self).spec_next_id() == old(self).spec_next_id()
                },
            },
    {
        match answer {
            Ok(memory) => Ok(self.allocation_for(memory, requirements)),
            Err(message) => Err(AllocatorError::RuntimeError(message)),
        }
    }

    /// Free an allocation: the device memory to hand back to the device.
    /// The allocation is the sole owner of its device memory, so that
    /// nothing else has to be done.
    pub fn free(allocation: &Allocation) -> (memory: u64)
        ensures
            memory == allocation@.memory,
    {
        allocation.memory()
    }
}

} // verus!
