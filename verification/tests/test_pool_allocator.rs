//! Tests for the pool allocator.

use ccthw_ash_allocator::{
    AllocationId, AllocationRequirements, ComposableAllocator, FakeAllocator, MemoryHeap,
    MemoryProperties, MemoryType, PoolAllocator,
};

#[test]
fn test_pool_allocator_test_allocate_and_free() {
    let memory_properties = MemoryProperties::from_raw(
        &[
            MemoryType { property_flags: 0, heap_index: 0 },
            MemoryType { property_flags: 0, heap_index: 0 },
        ],
        &[MemoryHeap { size: 128_000, flags: 0 }],
    );
    let mut allocator = PoolAllocator::new(memory_properties, 64, 1, FakeAllocator::default());

    let a1 = allocator
        .allocate(AllocationRequirements {
            memory_type_index: 0,
            alignment: 1,
            size_in_bytes: 32,
            ..AllocationRequirements::default()
        })
        .unwrap();
    let a2 = allocator
        .allocate(AllocationRequirements {
            memory_type_index: 0,
            alignment: 1,
            size_in_bytes: 32,
            ..AllocationRequirements::default()
        })
        .unwrap();

    assert_eq!(a1.size_in_bytes(), 32);
    assert_eq!(a2.size_in_bytes(), 32);
    assert_eq!(allocator.allocator().active_allocations, 1);

    let a3 = allocator
        .allocate(AllocationRequirements {
            memory_type_index: 1,
            alignment: 1,
            size_in_bytes: 32,
            ..AllocationRequirements::default()
        })
        .unwrap();

    assert_eq!(a3.size_in_bytes(), 32);
    assert_eq!(a3.memory_type_index(), 1);
    assert_eq!(allocator.allocator().active_allocations, 2);

    allocator.free(a1);
    allocator.free(a2);
    allocator.free(a3);

    assert_eq!(allocator.allocator().active_allocations, 0);
}

#[test]
fn test_allocation_should_fail_when_too_big() {
    let memory_properties = MemoryProperties::from_raw(
        &[MemoryType { property_flags: 0, heap_index: 0 }],
        &[MemoryHeap { size: 1, flags: 0 }],
    );
    let chunk_size = 64;
    let mut allocator =
        PoolAllocator::new(memory_properties, chunk_size, 1, FakeAllocator::default());

    {
        // Attempt to allocate a piece of memory that's as large as one of the
        // pool's entire chunks.
        let result = allocator.allocate(AllocationRequirements {
            memory_type_index: 0,
            size_in_bytes: chunk_size,
            alignment: 1,
            ..AllocationRequirements::default()
        });
        assert!(result.is_err());
    }

    {
        // Attempt to allocate a piece of memory that's bigger than one of the
        // pool's entire chunks.
        let result = allocator.allocate(AllocationRequirements {
            memory_type_index: 0,
            size_in_bytes: chunk_size * 2,
            alignment: 1,
            ..AllocationRequirements::default()
        });
        assert!(result.is_err());
    }
    assert_eq!(allocator.allocator().allocation_count, 0);
}

#[test]
fn test_an_allocation_of_a_memory_type_without_a_pool_is_not_freed() {
    let memory_properties = MemoryProperties::from_raw(
        &[MemoryType { property_flags: 0, heap_index: 0 }],
        &[MemoryHeap { size: 1, flags: 0 }],
    );
    let mut allocator = PoolAllocator::new(memory_properties, 64, 1, FakeAllocator::default());
    let own = allocator
        .allocate(AllocationRequirements {
            memory_type_index: 0,
            size_in_bytes: 20,
            alignment: 1,
            ..AllocationRequirements::default()
        })
        .unwrap();

    let mut other = FakeAllocator::default();
    let foreign = other
        .allocate(AllocationRequirements {
            memory_type_index: 1,
            size_in_bytes: 20,
            alignment: 1,
            ..AllocationRequirements::default()
        })
        .unwrap();
    allocator.free(foreign);
    assert_eq!(allocator.allocator().active_allocations, 1);

    allocator.free(own);
    assert_eq!(allocator.allocator().active_allocations, 0);
}

#[test]
fn test_the_pools_of_all_memory_types_draw_their_ids_from_one_source() {
    let memory_properties = MemoryProperties::from_raw(
        &[
            MemoryType { property_flags: 0, heap_index: 0 },
            MemoryType { property_flags: 0, heap_index: 0 },
            MemoryType { property_flags: 0, heap_index: 0 },
        ],
        &[MemoryHeap { size: 128_000, flags: 0 }],
    );
    let mut allocator = PoolAllocator::new(memory_properties, 64, 8, FakeAllocator::default());
    let mut ids = vec![];
    let mut live = vec![];
    for memory_type_index in [0, 1, 2, 1, 0, 2, 2] {
        let allocation = allocator
            .allocate(AllocationRequirements {
                memory_type_index,
                alignment: 1,
                size_in_bytes: 8,
                ..AllocationRequirements::default()
            })
            .unwrap();
        ids.push(allocation.id());
        live.push(allocation);
    }
    // A request that is refused draws no id.
    assert!(allocator
        .allocate(AllocationRequirements {
            memory_type_index: 1,
            alignment: 1,
            size_in_bytes: 64,
            ..AllocationRequirements::default()
        })
        .is_err());
    let last = allocator
        .allocate(AllocationRequirements {
            memory_type_index: 1,
            alignment: 1,
            size_in_bytes: 8,
            ..AllocationRequirements::default()
        })
        .unwrap();
    ids.push(last.id());
    live.push(last);
    assert_eq!(ids, (0..8).map(AllocationId).collect::<Vec<_>>());

    for allocation in live {
        allocator.free(allocation);
    }
    assert_eq!(allocator.allocator().active_allocations, 0);
}
