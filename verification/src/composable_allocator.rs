//! The interface that every allocator of the stack offers, so that
//! allocators can be composed: a decorator wraps any allocator, a pool draws
//! its chunks from any allocator.
use crate::allocation::Allocation;
use crate::allocation_requirements::AllocationRequirements;
use crate::error::AllocatorError;
use vstd::prelude::*;

verus! {

/// An allocator of GPU memory that can be composed with others.
///
/// What an implementation does is stated by two relations, `allocates` and
/// `frees`, between the allocator before a call and after it. An allocator
/// that wraps others states its relations over theirs, so that the contract
/// of a whole stack can be read off its parts.
pub trait ComposableAllocator: Sized {
    /// The allocator's invariant. Unless an implementation says otherwise,
    /// there is none.
    open spec fn wf(&self) -> bool {
        true
    }

    /// The requests that `allocate` may be called with. What is accepted
    /// does not change over the allocator's life.
    /// Unless an implementation says otherwise, every request is accepted.
    open spec fn accepts(&self, requirements: AllocationRequirements) -> bool {
        true
    }

    /// What `allocate(requirements)` does: `after` is the allocator when the
    /// call returns `result`.
    /// Unless an implementation says otherwise, nothing is known of it.
    open spec fn allocates(
        &self,
        requirements: AllocationRequirements,
        after: &Self,
        result: Result<Allocation, AllocatorError>,
    ) -> bool {
        true
    }

    /// What `free(allocation)` does: `after` is the allocator when the call
    /// returns.
    /// Unless an implementation says otherwise, nothing is known of it.
    open spec fn frees(&self, allocation: Allocation, after: &Self) -> bool {
        true
    }

    /// Allocate GPU memory based on the given requirements.
    ///
    /// An allocation that is returned has the size and the memory type that
    /// were asked for, and carries the requirements it was made for. It must
    /// be returned to this allocator with `free`.
    fn allocate(&mut self, requirements: AllocationRequirements) -> (result: Result<
        Allocation,
        AllocatorError,
    >)
        requires
            old(self).wf(),
            old(self).accepts(requirements),
        ensures
            final(self).wf(),
            old(self).allocates(requirements, final(self), result),
            forall|other: AllocationRequirements| #[trigger]
                final(self).accepts(other) == old(self).accepts(other),
            result matches Ok(allocation) ==> allocation@.wf() && allocation@.grants(requirements),
    ;

    /// Return a GPU memory allocation to the allocator it came from.
    ///
    /// An allocation that did not come from this allocator is left alone
    /// wherever the allocator can tell.
    fn free(&mut self, allocation: Allocation)
        requires
            old(self).wf(),
        ensures
            final(self).wf(),
            old(self).frees(allocation, final(self)),
            forall|other: AllocationRequirements| #[trigger]
                final(self).accepts(other) == old(self).accepts(other),
    ;
}

} // verus!
