//! The sizes and the levels of the system allocator.
//!
//! The system allocator stacks three levels of pools. A level sends the
//! requests that are smaller than its chunks to its pools, and all others to
//! the next larger level, from which its pools also take their chunks. So a
//! request rises until it meets a level whose chunks are larger than itself,
//! and what is as large as the largest chunks goes to the device.
use crate::allocation_requirements::AllocationRequirements;
use crate::composable_allocator::ComposableAllocator;
use crate::memory_properties::MemoryProperties;
use crate::memory_type_pool_allocator::ChunkPoolView;
use crate::pool_allocator::PoolAllocator;
use crate::sized_allocator::SizedAllocator;
use vstd::prelude::*;

verus! {

/// The chunk size and the page size of one level of pools.
#[derive(Copy, Clone, PartialEq, Eq, Debug, Structural)]
pub struct PoolLevel {
    pub chunk_size: u64,
    pub page_size: u64,
}

impl PoolLevel {
    /// Chunks of this level divide evenly into pages that can be counted.
    pub open spec fn spec_is_valid(self) -> bool {
        &&& self.page_size >= 1
        &&& self.chunk_size % self.page_size == 0
        &&& self.chunk_size / self.page_size <= usize::MAX
    }

    /// Whether chunks of this level divide evenly into pages that can be
    /// counted.
    pub fn is_valid(&self) -> (valid: bool)
        ensures
            valid == self.spec_is_valid(),
    {
        self.page_size >= 1 && self.chunk_size % self.page_size == 0 && self.chunk_size
            / self.page_size <= usize::MAX as u64
    }

    /// The allocator of this level: requests whose aligned size is below the
    /// chunk size go to pools of this level, one for each memory type of
    /// the device, which take their chunks from `chunk_source`; all other
    /// requests go to `larger`.
    pub fn allocator<A: ComposableAllocator, B: ComposableAllocator>(
        self,
        memory_properties: MemoryProperties,
        chunk_source: A,
        larger: B,
    ) -> (level: SizedAllocator<PoolAllocator<A>, B>)
        requires
            self.spec_is_valid(),
        ensures
            level.spec_size_trigger() == self.chunk_size,
            level.spec_large() == larger,
            level.spec_small().spec_allocator() == chunk_source,
            level.spec_small().pools_wf(),
            level.spec_small().spec_pools().len() == memory_properties.spec_types().len(),
            forall|index: int|
                0 <= index < level.spec_small().spec_pools().len()
                    ==> #[trigger] level.spec_small().spec_pools()[index] == (ChunkPoolView {
                    memory_type_index: index as usize,
                    chunk_size: self.chunk_size,
                    page_size: self.page_size,
                    chunks: Seq::empty(),
                }),
            chunk_source.wf() && larger.wf() ==> level.wf(),
    {
        SizedAllocator::new(
            self.chunk_size,
            PoolAllocator::new(memory_properties, self.chunk_size, self.page_size, chunk_source),
            larger,
        )
    }
}

/// A level never asks its pools for more than they can give: a request
/// that a level routes to its pools is smaller than their chunks, so that
/// no pool rejects it for its size.
pub proof fn lemma_level_routes_by_chunk_size<A: ComposableAllocator, B: ComposableAllocator>(
    level: SizedAllocator<PoolAllocator<A>, B>,
    requirements: AllocationRequirements,
)
    requires
        requirements.memory_type_index < level.spec_small().spec_pools().len(),
        level.spec_small().spec_pools()[requirements.memory_type_index as int].chunk_size
            == level.spec_size_trigger(),
    ensures
        level.routes_to_small(requirements) <==> !level.spec_small().spec_pools()[requirements.memory_type_index as int].rejects_size(
            requirements,
        ),
{
}

/// The sizes of the three levels of pools of the system allocator. Each
/// level takes its chunks from the next larger one.
#[derive(Copy, Clone, PartialEq, Eq, Debug, Structural)]
pub struct SystemAllocatorLevels {
    /// Chunks of 64 KiB in pages of 1 KiB.
    pub small: PoolLevel,
    /// Chunks of 4 MiB in pages of 64 KiB.
    pub medium: PoolLevel,
    /// Chunks of 0.5 GiB in pages of 4 MiB.
    pub root: PoolLevel,
}

impl SystemAllocatorLevels {
    /// The sizes that the system allocator is built with.
    pub fn new() -> (levels: Self)
        ensures
            levels.small == (PoolLevel { chunk_size: 65536, page_size: 1024 }),
            levels.medium == (PoolLevel { chunk_size: 4194304, page_size: 65536 }),
            levels.root == (PoolLevel { chunk_size: 536870912, page_size: 4194304 }),
            levels.medium.page_size == levels.small.chunk_size,
            levels.root.page_size == levels.medium.chunk_size,
            levels.small.spec_is_valid(),
            levels.medium.spec_is_valid(),
            levels.root.spec_is_valid(),
    {
        let small_page_size: u64 = 1024;
        let small_chunk_size: u64 = small_page_size * 64;
        let medium_page_size: u64 = small_chunk_size;
        let medium_chunk_size: u64 = medium_page_size * 64;
        let root_page_size: u64 = medium_chunk_size;
        let root_chunk_size: u64 = medium_chunk_size * 128;
        SystemAllocatorLevels {
            small: PoolLevel { chunk_size: small_chunk_size, page_size: small_page_size },
            medium: PoolLevel { chunk_size: medium_chunk_size, page_size: medium_page_size },
            root: PoolLevel { chunk_size: root_chunk_size, page_size: root_page_size },
        }
    }
}

} // verus!
