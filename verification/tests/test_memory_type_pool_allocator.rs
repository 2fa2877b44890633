//! Tests for the pool of one memory type.

use ccthw_ash_allocator::{
    Allocation, AllocationId, AllocationRequirements, AllocatorError, ComposableAllocator,
    FakeAllocator, MemoryTypePoolAllocator,
};

#[test]
pub fn test_multiple_allocations() {
    let mut allocator = MemoryTypePoolAllocator::new(0, 512, 8, FakeAllocator::default());

    let small_allocation_requirements = AllocationRequirements {
        memory_type_index: 0,
        size_in_bytes: 64,
        alignment: 2,
        ..AllocationRequirements::default()
    };
    let allocation_1 = {
        let result = allocator.allocate(small_allocation_requirements);
        assert!(result.is_ok());
        result.unwrap()
    };
    let allocation_2 = {
        let result = allocator.allocate(small_allocation_requirements);
        assert!(result.is_ok());
        result.unwrap()
    };
    let big_allocation_requirements = AllocationRequirements {
        memory_type_index: 0,
        size_in_bytes: 512 - 64 - 32,
        alignment: 32,
        ..AllocationRequirements::default()
    };
    let allocation_3 = {
        let result = allocator.allocate(big_allocation_requirements);
        assert!(result.is_ok());
        result.unwrap()
    };

    assert_eq!(allocator.allocator().active_allocations, 2);
    assert_eq!(
        allocator.allocator().allocations,
        &[
            AllocationRequirements {
                size_in_bytes: 512,
                alignment: 1,
                ..AllocationRequirements::default()
            },
            AllocationRequirements {
                size_in_bytes: 512,
                alignment: 1,
                ..AllocationRequirements::default()
            },
        ]
    );

    allocator.free(allocation_1);
    allocator.free(allocation_2);
    allocator.free(allocation_3);

    assert_eq!(allocator.allocator().active_allocations, 0);
}

#[test]
pub fn test_memory_type_pool_allocator_test_allocate_and_free() {
    let mut allocator = MemoryTypePoolAllocator::new(0, 512, 8, FakeAllocator::default());

    let allocation_requirements = AllocationRequirements {
        memory_type_index: 0,
        size_in_bytes: 64,
        alignment: 128,
        ..AllocationRequirements::default()
    };
    let allocation = {
        let result = allocator.allocate(allocation_requirements);
        assert!(result.is_ok());
        result.unwrap()
    };

    assert_eq!(
        allocator.allocator().allocations[0],
        AllocationRequirements {
            size_in_bytes: 512,
            alignment: 1,
            ..allocation_requirements
        }
    );
    assert_eq!(allocator.allocator().active_allocations, 1);

    allocator.free(allocation);

    assert_eq!(allocator.allocator().active_allocations, 0);
}

#[test]
pub fn test_allocate_with_mismatching_type_index_should_fail() {
    let mut allocator = MemoryTypePoolAllocator::new(0, 32, 1, FakeAllocator::default());

    let allocation_requirements = AllocationRequirements {
        memory_type_index: 1,
        ..AllocationRequirements::default()
    };

    let result = allocator.allocate(allocation_requirements);

    assert!(result.is_err());
    match result.err().unwrap() {
        AllocatorError::RuntimeError(error) => {
            assert_eq!(format!("{error}"), "Memory type index mismatch");
        }
        _ => panic!("Result must be an error!"),
    };
    assert_eq!(allocator.allocator().allocation_count, 0);
}

#[test]
pub fn test_allocate_with_oversized_allocation_requirements() {
    let mut allocator = MemoryTypePoolAllocator::new(0, 64, 1, FakeAllocator::default());

    let allocation_requirements = AllocationRequirements {
        memory_type_index: 0,
        size_in_bytes: 64,
        alignment: 2,
        ..AllocationRequirements::default()
    };

    let result = allocator.allocate(allocation_requirements);

    assert!(result.is_err());
    match result.err().unwrap() {
        AllocatorError::RuntimeError(error) => {
            assert_eq!(
                format!("{error}"),
                "Unable to allocate a chunk of memory with 64 bytes"
            );
        }
        _ => panic!("Result must be an error!"),
    };
    assert_eq!(allocator.allocator().allocation_count, 0);
}

#[test]
pub fn test_a_request_as_large_as_a_chunk_fails_and_one_byte_less_succeeds() {
    let mut allocator = MemoryTypePoolAllocator::new(0, 512, 8, FakeAllocator::default());

    // An aligned size of exactly 512 bytes.
    let result = allocator.allocate(AllocationRequirements {
        memory_type_index: 0,
        size_in_bytes: 505,
        alignment: 8,
        ..AllocationRequirements::default()
    });
    match result {
        Err(AllocatorError::RuntimeError(error)) => {
            assert_eq!(error, "Unable to allocate a chunk of memory with 505 bytes");
        }
        _ => panic!("Result must be an error!"),
    }
    assert_eq!(allocator.allocator().allocation_count, 0);
    assert_eq!(allocator.chunk_count(), 0);

    // An aligned size of 511 bytes.
    let allocation = allocator
        .allocate(AllocationRequirements {
            memory_type_index: 0,
            size_in_bytes: 504,
            alignment: 8,
            ..AllocationRequirements::default()
        })
        .unwrap();
    assert_eq!(allocation.size_in_bytes(), 504);
    assert_eq!(allocation.offset_in_bytes() % 8, 0);
    assert_eq!(allocator.chunk_count(), 1);

    allocator.free(allocation);
    assert_eq!(allocator.chunk_count(), 0);
    assert_eq!(allocator.allocator().active_allocations, 0);
}

#[test]
pub fn test_chunks_are_taken_when_needed_and_returned_when_empty() {
    let mut allocator = MemoryTypePoolAllocator::new(0, 512, 8, FakeAllocator::default());
    let small = AllocationRequirements {
        memory_type_index: 0,
        size_in_bytes: 64,
        alignment: 2,
        ..AllocationRequirements::default()
    };
    let big = AllocationRequirements {
        memory_type_index: 0,
        size_in_bytes: 416,
        alignment: 32,
        ..AllocationRequirements::default()
    };

    let first = allocator.allocate(small).unwrap();
    let second = allocator.allocate(small).unwrap();
    assert_eq!(allocator.chunk_count(), 1);
    assert_eq!((first.offset_in_bytes(), second.offset_in_bytes()), (0, 64));
    assert_eq!(first.parent_id(), Some(AllocationId(0)));
    assert_eq!(second.parent_id(), Some(AllocationId(0)));
    assert_ne!(first.id(), second.id());

    // 416 bytes at an alignment of 32 need 447 bytes, which are 56 pages:
    // more than the 48 that the first chunk has left.
    let third = allocator.allocate(big).unwrap();
    assert_eq!(allocator.chunk_count(), 2);
    assert_eq!(third.parent_id(), Some(AllocationId(1)));
    assert_eq!(third.offset_in_bytes(), 512);
    assert_eq!(third.offset_in_bytes() % 32, 0);
    assert_eq!(third.size_in_bytes(), 416);
    assert_eq!(*third.allocation_requirements(), big);

    // The first chunk still has room for this one.
    let fourth = allocator.allocate(small).unwrap();
    assert_eq!(allocator.chunk_count(), 2);
    assert_eq!(fourth.parent_id(), Some(AllocationId(0)));
    assert_eq!(fourth.offset_in_bytes(), 128);
    assert_eq!(allocator.allocator().active_allocations, 2);

    allocator.free(third);
    assert_eq!(allocator.chunk_count(), 1);
    assert_eq!(allocator.allocator().active_allocations, 1);

    allocator.free(first);
    allocator.free(second);
    assert_eq!(allocator.chunk_count(), 1);
    allocator.free(fourth);
    assert_eq!(allocator.chunk_count(), 0);

    assert_eq!(allocator.allocator().active_allocations, 0);
    assert_eq!(
        allocator.allocator().allocations,
        &[
            AllocationRequirements {
                size_in_bytes: 512,
                alignment: 1,
                ..AllocationRequirements::default()
            },
            AllocationRequirements {
                size_in_bytes: 512,
                alignment: 1,
                ..AllocationRequirements::default()
            },
        ]
    );
}

#[test]
pub fn test_an_empty_slot_is_used_again() {
    let mut allocator = MemoryTypePoolAllocator::new(0, 64, 8, FakeAllocator::default());
    let whole_chunk = AllocationRequirements {
        memory_type_index: 0,
        size_in_bytes: 57,
        alignment: 1,
        ..AllocationRequirements::default()
    };
    let first = allocator.allocate(whole_chunk).unwrap();
    let second = allocator.allocate(whole_chunk).unwrap();
    assert_eq!(first.parent_id(), Some(AllocationId(0)));
    assert_eq!(second.parent_id(), Some(AllocationId(1)));

    allocator.free(first);
    assert_eq!(allocator.chunk_count(), 1);
    // The third chunk of the backing allocator takes the place of the first.
    let third = allocator.allocate(whole_chunk).unwrap();
    assert_eq!(third.parent_id(), Some(AllocationId(2)));
    assert_eq!(third.offset_in_bytes(), 128);
    assert_eq!(allocator.chunk_count(), 2);
    assert_eq!(allocator.allocator().allocation_count, 3);

    allocator.free(second);
    allocator.free(third);
    assert_eq!(allocator.chunk_count(), 0);
    assert_eq!(allocator.allocator().active_allocations, 0);
}

#[test]
pub fn test_a_request_for_no_bytes_takes_a_chunk_and_gives_it_back() {
    let mut allocator = MemoryTypePoolAllocator::new(0, 64, 8, FakeAllocator::default());
    let result = allocator.allocate(AllocationRequirements {
        memory_type_index: 0,
        size_in_bytes: 0,
        alignment: 1,
        ..AllocationRequirements::default()
    });
    match result {
        Err(AllocatorError::RuntimeError(error)) => {
            assert_eq!(error, "Unable to find a contiguous chunk of the requseted size.");
        }
        _ => panic!("Result must be an error!"),
    }
    assert_eq!(allocator.chunk_count(), 0);
    assert_eq!(allocator.allocator().allocation_count, 1);
    assert_eq!(allocator.allocator().active_allocations, 0);
}

/// A backing allocator that gives every allocation the same id.
struct SameId(FakeAllocator);

impl ComposableAllocator for SameId {
    fn allocate(
        &mut self,
        requirements: AllocationRequirements,
    ) -> Result<Allocation, AllocatorError> {
        Ok(self.0.allocate(requirements)?.with_id(AllocationId(7)))
    }

    fn free(&mut self, allocation: Allocation) {
        self.0.free(allocation)
    }
}

#[test]
pub fn test_chunks_with_the_same_id_are_told_apart_by_their_memory() {
    let mut allocator = MemoryTypePoolAllocator::new(0, 64, 8, SameId(FakeAllocator::default()));
    let whole_chunk = AllocationRequirements {
        memory_type_index: 0,
        size_in_bytes: 57,
        alignment: 1,
        ..AllocationRequirements::default()
    };
    let first = allocator.allocate(whole_chunk).unwrap();
    let second = allocator.allocate(whole_chunk).unwrap();
    assert_eq!(first.parent_id(), Some(AllocationId(7)));
    assert_eq!(second.parent_id(), Some(AllocationId(7)));
    assert_eq!((first.offset_in_bytes(), second.offset_in_bytes()), (0, 64));
    assert_eq!(allocator.chunk_count(), 2);

    // The second allocation is freed in the second chunk, though the first
    // chunk has the id of its parent too.
    allocator.free(second);
    assert_eq!(allocator.chunk_count(), 1);
    assert_eq!(allocator.allocator().0.active_allocations, 1);
    // The first chunk is still full.
    let third = allocator.allocate(whole_chunk).unwrap();
    assert_eq!(third.offset_in_bytes(), 128);

    allocator.free(first);
    allocator.free(third);
    assert_eq!(allocator.chunk_count(), 0);
    assert_eq!(allocator.allocator().0.active_allocations, 0);
}

#[test]
pub fn test_an_allocation_of_another_pool_is_ignored() {
    let mut allocator = MemoryTypePoolAllocator::new(0, 64, 8, FakeAllocator::default());
    let mut other = FakeAllocator::default();
    let requirements = AllocationRequirements {
        memory_type_index: 0,
        size_in_bytes: 8,
        alignment: 1,
        ..AllocationRequirements::default()
    };
    let own = allocator.allocate(requirements).unwrap();
    let foreign = other.allocate(requirements).unwrap();
    assert_eq!(foreign.parent_id(), None);

    allocator.free(foreign);
    assert_eq!(allocator.chunk_count(), 1);
    assert_eq!(allocator.allocator().active_allocations, 1);

    allocator.free(own);
    assert_eq!(allocator.chunk_count(), 0);
}
