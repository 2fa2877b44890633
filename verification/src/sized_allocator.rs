//! An allocator that sends small requests one way and large ones another.
use crate::allocation::Allocation;
use crate::allocation_requirements::AllocationRequirements;
use crate::composable_allocator::ComposableAllocator;
use crate::error::AllocatorError;
use vstd::prelude::*;

verus! {

/// An allocator which composes over two other allocators. When the aligned
/// size of a request is below the trigger size, the request is sent to the
/// first allocator, otherwise it is sent to the second one.
pub struct SizedAllocator<SmallAllocator: ComposableAllocator, LargeAllocator: ComposableAllocator> {
    size_trigger: u64,
    small_allocator: SmallAllocator,
    large_allocator: LargeAllocator,
}

impl<S: ComposableAllocator, L: ComposableAllocator> SizedAllocator<S, L> {
    /// The size at which requests start to go to the large allocator.
    pub closed spec fn spec_size_trigger(&self) -> u64 {
        self.size_trigger
    }

    /// The allocator for small requests.
    pub closed spec fn spec_small(&self) -> S {
        self.small_allocator
    }

    /// The allocator for large requests.
    pub closed spec fn spec_large(&self) -> L {
        self.large_allocator
    }

    /// Whether something made for `requirements` belongs to the small
    /// allocator: its aligned size is below the trigger.
    pub open spec fn routes_to_small(&self, requirements: AllocationRequirements) -> bool {
        requirements.spec_aligned_size() < self.spec_size_trigger()
    }

    /// Create a new allocator which routes requests based on the allocation
    /// size.
    pub fn new(size_trigger: u64, small_allocator: S, large_allocator: L) -> (allocator: Self)
        ensures
            allocator.spec_size_trigger() == size_trigger,
            allocator.spec_small() == small_allocator,
            allocator.spec_large() == large_allocator,
    {
        Self { size_trigger, small_allocator, large_allocator }
    }

    /// The allocator that small requests are sent to.
    pub fn small_allocator(&self) -> (small: &S)
        ensures
            *small == self.spec_small(),
    {
        &self.small_allocator
    }

    /// The allocator that large requests are sent to.
    pub fn large_allocator(&self) -> (large: &L)
        ensures
            *large == self.spec_large(),
    {
        &self.large_allocator
    }
}

impl<S: ComposableAllocator, L: ComposableAllocator> ComposableAllocator for SizedAllocator<S, L> {
    open spec fn wf(&self) -> bool {
        self.spec_small().wf() && self.spec_large().wf()
    }

    /// A request is accepted when the allocator it is routed to accepts it.
    open spec fn accepts(&self, requirements: AllocationRequirements) -> bool {
        if self.routes_to_small(requirements) {
            self.spec_small().accepts(requirements)
        } else {
            self.spec_large().accepts(requirements)
        }
    }

    /// The allocator that the request is routed to allocates; the other one
    /// is not touched.
    open spec fn allocates(
        &self,
        requirements: AllocationRequirements,
        after: &Self,
        result: Result<Allocation, AllocatorError>,
    ) -> bool {
        &&& after.spec_size_trigger() == self.spec_size_trigger()
        &&& if self.routes_to_small(requirements) {
            &&& self.spec_small().allocates(requirements, &after.spec_small(), result)
            &&& after.spec_large() == self.spec_large()
        } else {
            &&& self.spec_large().allocates(requirements, &after.spec_large(), result)
            &&& after.spec_small() == self.spec_small()
        }
    }

    /// The allocator that the allocation's requirements route to frees; the
    /// other one is not touched.
    open spec fn frees(&self, allocation: Allocation, after: &Self) -> bool {
        &&& after.spec_size_trigger() == self.spec_size_trigger()
        &&& if self.routes_to_small(allocation@.requirements) {
            &&& self.spec_small().frees(allocation, &after.spec_small())
            &&& after.spec_large() == self.spec_large()
        } else {
            &&& self.spec_large().frees(allocation, &after.spec_large())
            &&& after.spec_small() == self.spec_small()
        }
    }

    fn allocate(&mut self, requirements: AllocationRequirements) -> (result: Result<
        Allocation,
        AllocatorError,
    >) {
        if requirements.aligned_size_is_below(self.size_trigger) {
            self.small_allocator.allocate(requirements)
        } else {
            self.large_allocator.allocate(requirements)
        }
    }

    fn free(&mut self, allocation: Allocation) {
        if allocation.allocation_requirements().aligned_size_is_below(self.size_trigger) {
            self.small_allocator.free(allocation)
        } else {
            self.large_allocator.free(allocation)
        }
    }
}

/// An allocation is freed by the allocator that made it: when `allocate`
/// returned `allocation` and `free` is later given it back, both calls went
/// to the small allocator or both to the large one, and the other allocator
/// saw neither.
pub proof fn lemma_sized_free_follows_allocate<S: ComposableAllocator, L: ComposableAllocator>(
    before: SizedAllocator<S, L>,
    requirements: AllocationRequirements,
    allocated: SizedAllocator<S, L>,
    allocation: Allocation,
    later: SizedAllocator<S, L>,
    freed: SizedAllocator<S, L>,
)
    requires
        before.allocates(requirements, &allocated, Ok(allocation)),
        allocation@.grants(requirements),
        later.spec_size_trigger() == allocated.spec_size_trigger(),
        later.frees(allocation, &freed),
    ensures
        before.routes_to_small(requirements) ==> {
            &&& before.spec_small().allocates(requirements, &allocated.spec_small(), Ok(allocation))
            &&& allocated.spec_large() == before.spec_large()
            &&& later.spec_small().frees(allocation, &freed.spec_small())
            &&& freed.spec_large() == later.spec_large()
        },
        !before.routes_to_small(requirements) ==> {
            &&& before.spec_large().allocates(requirements, &allocated.spec_large(), Ok(allocation))
            &&& allocated.spec_small() == before.spec_small()
            &&& later.spec_large().frees(allocation, &freed.spec_large())
            &&& freed.spec_small() == later.spec_small()
        },
{
}

} // verus!
