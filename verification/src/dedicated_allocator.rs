//! An allocator that gives resources which want memory of their own a
//! device allocation each.
use crate::allocation::Allocation;
use crate::allocation_requirements::AllocationRequirements;
use crate::composable_allocator::ComposableAllocator;
use crate::error::AllocatorError;
use vstd::prelude::*;

verus! {

/// An allocator which correctly handles allocations which prefer or require
/// dedicated allocations: those go to the device allocator, all others to
/// the general allocator.
pub struct DedicatedAllocator<A: ComposableAllocator, B: ComposableAllocator> {
    allocator: A,
    device_allocator: B,
}

impl<A: ComposableAllocator, B: ComposableAllocator> DedicatedAllocator<A, B> {
    /// The general allocator.
    pub closed spec fn spec_general(&self) -> A {
        self.allocator
    }

    /// The allocator that takes memory from the device itself.
    pub closed spec fn spec_device(&self) -> B {
        self.device_allocator
    }

    /// Create a new dedicated allocator which decorates another allocator
    /// implementation to properly handle dedicated resources.
    ///
    /// - `allocator`: the allocator to decorate.
    /// - `device_allocator`: an allocator which directly returns memory from
    ///   the device itself.
    pub fn new(allocator: A, device_allocator: B) -> (dedicated: Self)
        ensures
            dedicated.spec_general() == allocator,
            dedicated.spec_device() == device_allocator,
    {
        Self { allocator, device_allocator }
    }

    /// The allocator that requests without a wish for dedicated memory are
    /// sent to.
    pub fn allocator(&self) -> (general: &A)
        ensures
            *general == self.spec_general(),
    {
        &self.allocator
    }

    /// The allocator that requests for dedicated memory are sent to.
    pub fn device_allocator(&self) -> (device: &B)
        ensures
            *device == self.spec_device(),
    {
        &self.device_allocator
    }
}

impl<A: ComposableAllocator, B: ComposableAllocator> ComposableAllocator for DedicatedAllocator<
    A,
    B,
> {
    open spec fn wf(&self) -> bool {
        self.spec_general().wf() && self.spec_device().wf()
    }

    /// A request is accepted when the allocator it is routed to accepts it.
    open spec fn accepts(&self, requirements: AllocationRequirements) -> bool {
        if requirements.spec_wants_dedicated() {
            self.spec_device().accepts(requirements)
        } else {
            self.spec_general().accepts(requirements)
        }
    }

    /// A request that prefers or requires dedicated memory is allocated by
    /// the device allocator, any other by the general allocator; the
    /// allocator that is not chosen is not touched.
    open spec fn allocates(
        &self,
        requirements: AllocationRequirements,
        after: &Self,
        result: Result<Allocation, AllocatorError>,
    ) -> bool {
        if requirements.spec_wants_dedicated() {
            &&& self.spec_device().allocates(requirements, &after.spec_device(), result)
            &&& after.spec_general() == self.spec_general()
        } else {
            &&& self.spec_general().allocates(requirements, &after.spec_general(), result)
            &&& after.spec_device() == self.spec_device()
        }
    }

    /// The allocation is freed by the allocator that its requirements route
    /// to; the other one is not touched.
    open spec fn frees(&self, allocation: Allocation, after: &Self) -> bool {
        if allocation@.requirements.spec_wants_dedicated() {
            &&& self.spec_device().frees(allocation, &after.spec_device())
            &&& after.spec_general() == self.spec_general()
        } else {
            &&& self.spec_general().frees(allocation, &after.spec_general())
            &&& after.spec_device() == self.spec_device()
        }
    }

    fn allocate(&mut self, requirements: AllocationRequirements) -> (result: Result<
        Allocation,
        AllocatorError,
    >) {
        if requirements.wants_dedicated() {
            self.device_allocator.allocate(requirements)
        } else {
            self.allocator.allocate(requirements)
        }
    }

    fn free(&mut self, allocation: Allocation) {
        if allocation.allocation_requirements().wants_dedicated() {
            self.device_allocator.free(allocation)
        } else {
            self.allocator.free(allocation)
        }
    }
}

/// An allocation is freed by the allocator that made it: when `allocate`
/// returned `allocation` and `free` is later given it back, both calls went
/// to the device allocator or both to the general one, and the other
/// allocator saw neither.
pub proof fn lemma_dedicated_free_follows_allocate<A: ComposableAllocator, B: ComposableAllocator>(
    before: DedicatedAllocator<A, B>,
    requirements: AllocationRequirements,
    allocated: DedicatedAllocator<A, B>,
    allocation: Allocation,
    later: DedicatedAllocator<A, B>,
    freed: DedicatedAllocator<A, B>,
)
    requires
        before.allocates(requirements, &allocated, Ok(allocation)),
        allocation@.grants(requirements),
        later.frees(allocation, &freed),
    ensures
        requirements.spec_wants_dedicated() ==> {
            &&& before.spec_device().allocates(requirements, &allocated.spec_device(), Ok(allocation))
            &&& allocated.spec_general() == before.spec_general()
            &&& later.spec_device().frees(allocation, &freed.spec_device())
            &&& freed.spec_general() == later.spec_general()
        },
        !requirements.spec_wants_dedicated() ==> {
            &&& before.spec_general().allocates(
                requirements,
                &allocated.spec_general(),
                Ok(allocation),
            )
            &&& allocated.spec_device() == before.spec_device()
            &&& later.spec_general().frees(allocation, &freed.spec_general())
            &&& freed.spec_device() == later.spec_device()
        },
{
}

} // verus!
