//! An allocator which takes no actions and simply returns null memory.
use crate::allocation::{Allocation, AllocationId, AllocationView};
use crate::allocation_requirements::AllocationRequirements;
use crate::composable_allocator::ComposableAllocator;
use crate::error::AllocatorError;
use crate::fake_allocator::null_device_memory;
use vstd::prelude::*;

verus! {

/// An allocator implementation which takes no actions and simply returns
/// null memory.
///
/// This is useful when working with allocators which defer to other
/// allocators.
pub struct NullAllocator;

impl ComposableAllocator for NullAllocator {
    open spec fn wf(&self) -> bool {
        true
    }

    open spec fn accepts(&self, requirements: AllocationRequirements) -> bool {
        true
    }

    /// Every request is granted at offset zero of null memory.
    open spec fn allocates(
        &self,
        requirements: AllocationRequirements,
        after: &Self,
        result: Result<Allocation, AllocatorError>,
    ) -> bool {
        &&& result matches Ok(allocation)
        &&& allocation@ == (AllocationView {
            memory: 0,
            offset_in_bytes: 0,
            size_in_bytes: requirements.size_in_bytes,
            memory_type_index: requirements.memory_type_index,
            requirements,
            id: AllocationId(0),
            parent_id: None,
        })
    }

    open spec fn frees(&self, allocation: Allocation, after: &Self) -> bool {
        true
    }

    fn allocate(&mut self, requirements: AllocationRequirements) -> (result: Result<
        Allocation,
        AllocatorError,
    >) {
        Ok(
            Allocation::new(
                null_device_memory(),
                requirements.memory_type_index,
                0,
                requirements.size_in_bytes,
                requirements,
                AllocationId(0),
            ),
        )
    }

    fn free(&mut self, allocation: Allocation) {
    }
}

} // verus!
