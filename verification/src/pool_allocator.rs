//! A pool for every memory type of a device, all drawing their chunks from
//! one backing allocator.
use crate::allocation::{next_id_after, Allocation, AllocationIdSource};
use crate::allocation_requirements::AllocationRequirements;
use crate::composable_allocator::ComposableAllocator;
use crate::error::AllocatorError;
use crate::memory_properties::MemoryProperties;
use crate::memory_type_pool_allocator::{ChunkPool, ChunkPoolView};
use vstd::prelude::*;

verus! {

/// An allocator that keeps one pool of chunks per memory type and sends
/// each request to the pool of its memory type. The pools share a single
/// backing allocator and a single source of ids, so that no two
/// allocations of the allocator get the same id, whatever their memory
/// types are.
pub struct PoolAllocator<A: ComposableAllocator> {
    typed_pools: Vec<ChunkPool>,
    allocator: A,
    ids: AllocationIdSource,
}

impl<A: ComposableAllocator> PoolAllocator<A> {
    /// The pools, by memory type index.
    pub closed spec fn spec_pools(&self) -> Seq<ChunkPoolView> {
        Seq::new(self.typed_pools@.len(), |index: int| self.typed_pools@[index]@)
    }

    /// The backing allocator.
    pub closed spec fn spec_allocator(&self) -> A {
        self.allocator
    }

    /// The number of the id that the next suballocation gets.
    pub closed spec fn spec_next_id(&self) -> u64 {
        self.ids.spec_next()
    }

    /// The pool at each index is a well-formed pool for that memory type.
    pub open spec fn pools_wf(&self) -> bool {
        forall|index: int|
            0 <= index < self.spec_pools().len() ==> {
                &&& (#[trigger] self.spec_pools()[index]).wf()
                &&& self.spec_pools()[index].memory_type_index == index
            }
    }

    /// Create a pool for each memory type of a device.
    ///
    /// * `memory_properties`: the memory types which the device offers.
    /// * `chunk_size`: the size of each chunk of memory to be divided into
    ///   pages.
    /// * `page_size`: chunks are divided into pages with this size for
    ///   allocation.
    /// * `allocator`: the backing allocator which provides device memory.
    ///
    /// Chunks must be evenly divisible into pages.
    pub fn new(
        memory_properties: MemoryProperties,
        chunk_size: u64,
        page_size: u64,
        allocator: A,
    ) -> (pools: Self)
        requires
            page_size >= 1,
            chunk_size % page_size == 0,
            chunk_size / page_size <= usize::MAX,
        ensures
            pools.spec_allocator() == allocator,
            pools.pools_wf(),
            pools.spec_pools().len() == memory_properties.spec_types().len(),
            forall|index: int|
                0 <= index < pools.spec_pools().len() ==> #[trigger] pools.spec_pools()[index]
                    == (ChunkPoolView {
                    memory_type_index: index as usize,
                    chunk_size,
                    page_size,
                    chunks: Seq::empty(),
                }),
            pools.spec_next_id() == 0,
    {
        let type_count = memory_properties.types().len();
        let mut typed_pools: Vec<ChunkPool> = Vec::new();
        let mut memory_type_index: usize = 0;
        while memory_type_index < type_count
            invariant
                memory_type_index <= type_count,
                page_size >= 1,
                chunk_size % page_size == 0,
                chunk_size / page_size <= usize::MAX,
                typed_pools@.len() == memory_type_index,
                forall|index: int|
                    0 <= index < memory_type_index ==> (#[trigger] typed_pools@[index])@
                        == (ChunkPoolView {
                        memory_type_index: index as usize,
                        chunk_size,
                        page_size,
                        chunks: Seq::empty(),
                    }),
            decreases type_count - memory_type_index,
        {
            typed_pools.push(ChunkPool::new(memory_type_index, chunk_size, page_size));
            memory_type_index = memory_type_index + 1;
        }
        Self { typed_pools, allocator, ids: AllocationIdSource::new() }
    }

    /// The backing allocator which provides the chunks of all pools.
    pub fn allocator(&self) -> (allocator: &A)
        ensures
            *allocator == self.spec_allocator(),
    {
        &self.allocator
    }
}

impl<A: ComposableAllocator> ComposableAllocator for PoolAllocator<A> {
    open spec fn wf(&self) -> bool {
        self.pools_wf() && self.spec_allocator().wf()
    }

    /// A request is accepted when there is a pool for its memory type and
    /// that pool accepts it.
    open spec fn accepts(&self, requirements: AllocationRequirements) -> bool {
        &&& requirements.memory_type_index < self.spec_pools().len()
        &&& self.spec_pools()[requirements.memory_type_index as int].accepts(
            self.spec_allocator(),
            requirements,
        )
    }

    /// The pool of the request's memory type allocates, with the shared
    /// backing allocator and the shared source of ids; the other pools are
    /// not touched. The ids of the allocations that are granted are the
    /// numbers from zero on, one after the other.
    open spec fn allocates(
        &self,
        requirements: AllocationRequirements,
        after: &Self,
        result: Result<Allocation, AllocatorError>,
    ) -> bool {
        let index = requirements.memory_type_index as int;
        &&& index < self.spec_pools().len()
        &&& after.spec_pools().len() == self.spec_pools().len()
        &&& self.spec_pools()[index].allocates(
            self.spec_allocator(),
            self.spec_next_id(),
            requirements,
            after.spec_pools()[index],
            after.spec_allocator(),
            result,
        )
        &&& after.spec_next_id() == if result is Ok {
            next_id_after(self.spec_next_id())
        } else {
            self.spec_next_id()
        }
        &&& forall|other: int|
            0 <= other < self.spec_pools().len() && other != index
                ==> #[trigger] after.spec_pools()[other] == self.spec_pools()[other]
    }

    /// The pool of the allocation's memory type frees, with the shared
    /// backing allocator; the other pools are not touched. An allocation of
    /// a memory type that has no pool is ignored.
    open spec fn frees(&self, allocation: Allocation, after: &Self) -> bool {
        let index = allocation@.memory_type_index as int;
        &&& after.spec_pools().len() == self.spec_pools().len()
        &&& after.spec_next_id() == self.spec_next_id()
        &&& if index < self.spec_pools().len() {
            &&& self.spec_pools()[index].frees(
                self.spec_allocator(),
                allocation,
                after.spec_pools()[index],
                after.spec_allocator(),
            )
            &&& forall|other: int|
                0 <= other < self.spec_pools().len() && other != index
                    ==> #[trigger] after.spec_pools()[other] == self.spec_pools()[other]
        } else {
            &&& after.spec_pools() == self.spec_pools()
            &&& after.spec_allocator() == self.spec_allocator()
        }
    }

    fn allocate(&mut self, requirements: AllocationRequirements) -> (result: Result<
        Allocation,
        AllocatorError,
    >) {
        let index = requirements.memory_type_index;
        assert(self.spec_pools()[index as int].wf());
        let result = self.typed_pools[index].allocate_with(
            &mut self.allocator,
            &mut self.ids,
            requirements,
        );
        proof {
            lemma_one_pool_changed(*old(self), *self, index as int);
        }
        result
    }

    fn free(&mut self, allocation: Allocation) {
        let index = allocation.memory_type_index();
        if index >= self.typed_pools.len() {
            return ;
        }
        assert(self.spec_pools()[index as int].wf());
        self.typed_pools[index].free_with(&mut self.allocator, allocation);
        proof {
            lemma_one_pool_changed(*old(self), *self, index as int);
        }
    }
}

/// Where one pool has changed, and has kept its invariant and what it is a
/// pool of, and where the backing allocator accepts what it accepted
/// before, the pools keep their invariant and the allocator accepts what it
/// accepted before.
proof fn lemma_one_pool_changed<A: ComposableAllocator>(
    before: PoolAllocator<A>,
    after: PoolAllocator<A>,
    index: int,
)
    requires
        before.pools_wf(),
        0 <= index < before.spec_pools().len(),
        after.spec_pools().len() == before.spec_pools().len(),
        after.spec_pools()[index].wf(),
        after.spec_pools()[index].memory_type_index == before.spec_pools()[index].memory_type_index,
        after.spec_pools()[index].chunk_size == before.spec_pools()[index].chunk_size,
        after.spec_pools()[index].page_size == before.spec_pools()[index].page_size,
        forall|other: int|
            0 <= other < before.spec_pools().len() && other != index
                ==> #[trigger] after.spec_pools()[other] == before.spec_pools()[other],
        forall|requirements: AllocationRequirements| #[trigger]
            after.spec_allocator().accepts(requirements) == before.spec_allocator().accepts(
                requirements,
            ),
    ensures
        after.pools_wf(),
        forall|requirements: AllocationRequirements| #[trigger]
            after.accepts(requirements) == before.accepts(requirements),
{
    assert forall|other: int| 0 <= other < after.spec_pools().len() implies {
        &&& (#[trigger] after.spec_pools()[other]).wf()
        &&& after.spec_pools()[other].memory_type_index == other
    } by {
        if other != index {
            assert(after.spec_pools()[other] == before.spec_pools()[other]);
            assert(before.spec_pools()[other].wf());
        } else {
            assert(before.spec_pools()[index].wf());
        }
    }
    assert forall|requirements: AllocationRequirements| #[trigger]
        after.accepts(requirements) == before.accepts(requirements) by {
        if requirements.memory_type_index < before.spec_pools().len() {
            let at = requirements.memory_type_index as int;
            assert(before.spec_pools()[at].wf());
            if at != index {
                assert(after.spec_pools()[at] == before.spec_pools()[at]);
            }
        }
    }
}

} // verus!
