//! Tests for the allocators that allocate nothing, and for what they hand
//! out.

use ccthw_ash_allocator::{
    Allocation, AllocationId, AllocationIdSource, AllocationRequirements, AllocatorError,
    ComposableAllocator, DedicatedAllocationInfo, DedicatedResourceHandle, DeviceAllocator,
    FakeAllocator, MemoryAllocateInfo, NullAllocator, PoolLevel, SystemAllocatorLevels,
};

#[test]
fn test_fake_allocator_keeps_track() {
    let mut allocator = FakeAllocator::default();
    let first_requirements = AllocationRequirements {
        size_in_bytes: 62,
        alignment: 8,
        memory_type_index: 3,
        ..AllocationRequirements::default()
    };
    let second_requirements =
        AllocationRequirements { size_in_bytes: 10, ..first_requirements };

    let first = allocator.allocate(first_requirements).unwrap();
    let second = allocator.allocate(second_requirements).unwrap();
    // The fake allocator hands out null memory.
    assert_eq!(first.memory(), 0);
    assert_eq!((first.offset_in_bytes(), first.size_in_bytes()), (0, 62));
    assert_eq!((second.offset_in_bytes(), second.size_in_bytes()), (62, 10));
    assert_eq!(first.memory_type_index(), 3);
    assert_eq!(*first.allocation_requirements(), first_requirements);
    assert_eq!((first.id(), second.id()), (AllocationId(0), AllocationId(1)));
    assert_eq!(first.parent_id(), None);

    assert_eq!(allocator.allocations, &[first_requirements, second_requirements]);
    assert_eq!(allocator.active_allocations, 2);
    assert_eq!(allocator.allocation_count, 2);
    assert_eq!(allocator.offset, 72);

    allocator.free(first);
    allocator.free(second);
    assert_eq!(allocator.active_allocations, 0);
    assert_eq!(allocator.allocation_count, 2);
    // A free too many is not counted.
    allocator.free(second);
    assert_eq!(allocator.active_allocations, 0);
}

#[test]
fn test_fake_allocator_fails_when_it_cannot_count_on() {
    let mut allocator = FakeAllocator::default();
    allocator
        .allocate(AllocationRequirements {
            size_in_bytes: u64::MAX - 1,
            ..AllocationRequirements::default()
        })
        .unwrap();
    let result = allocator.allocate(AllocationRequirements {
        size_in_bytes: 2,
        ..AllocationRequirements::default()
    });
    match result {
        Err(AllocatorError::RuntimeError(error)) => {
            assert_eq!(error, "The fake allocator cannot count another allocation");
        }
        _ => panic!("Result must be an error!"),
    }
    assert_eq!(allocator.active_allocations, 1);
    assert_eq!(allocator.allocation_count, 1);
    assert_eq!(allocator.allocations.len(), 1);
    assert!(allocator
        .allocate(AllocationRequirements { size_in_bytes: 1, ..AllocationRequirements::default() })
        .is_ok());

    let mut full = FakeAllocator { active_allocations: u32::MAX, ..FakeAllocator::default() };
    assert!(full.allocate(AllocationRequirements::default()).is_err());
    let mut full = FakeAllocator { allocation_count: u64::MAX, ..FakeAllocator::default() };
    assert!(full.allocate(AllocationRequirements::default()).is_err());
}

#[test]
fn test_null_allocator() {
    let mut allocator = NullAllocator;
    let requirements = AllocationRequirements {
        size_in_bytes: 48,
        alignment: 16,
        memory_type_index: 2,
        ..AllocationRequirements::default()
    };
    let allocation = allocator.allocate(requirements).unwrap();
    assert_eq!(allocation.memory(), 0);
    assert_eq!(allocation.offset_in_bytes(), 0);
    assert_eq!(allocation.size_in_bytes(), 48);
    assert_eq!(allocation.memory_type_index(), 2);
    assert_eq!(*allocation.allocation_requirements(), requirements);
    allocator.free(allocation);
}

#[test]
fn test_suballocate() {
    let requirements = AllocationRequirements {
        size_in_bytes: 100,
        alignment: 4,
        memory_type_index: 1,
        prefers_dedicated_allocation: true,
        ..AllocationRequirements::default()
    };
    let allocation = Allocation::new(9, 1, 40, 100, requirements, AllocationId(5));
    let part = Allocation::suballocate(&allocation, 16, 32, 8, AllocationId(6));
    assert_eq!(part.memory(), 9);
    assert_eq!(part.offset_in_bytes(), 56);
    assert_eq!(part.size_in_bytes(), 32);
    assert_eq!(part.memory_type_index(), 1);
    assert_eq!(part.id(), AllocationId(6));
    assert_eq!(part.parent_id(), Some(AllocationId(5)));
    assert_eq!(
        *part.allocation_requirements(),
        AllocationRequirements { size_in_bytes: 32, alignment: 8, ..requirements }
    );

    let whole = Allocation::suballocate(&allocation, 0, 100, 1, AllocationId(7));
    assert_eq!((whole.offset_in_bytes(), whole.size_in_bytes()), (40, 100));
    let renamed = whole.with_id(AllocationId(8)).with_requirements(requirements);
    assert_eq!(renamed.id(), AllocationId(8));
    assert_eq!(renamed.parent_id(), Some(AllocationId(5)));
    assert_eq!(*renamed.allocation_requirements(), requirements);
    assert_eq!((renamed.offset_in_bytes(), renamed.size_in_bytes()), (40, 100));
}

#[test]
fn test_device_allocator() {
    let requirements = AllocationRequirements {
        size_in_bytes: 4096,
        alignment: 256,
        memory_type_index: 7,
        requires_dedicated_allocation: true,
        dedicated_resource_handle: DedicatedResourceHandle::Image(0xabc),
        ..AllocationRequirements::default()
    };
    assert_eq!(
        DeviceAllocator::allocate_info(&requirements),
        MemoryAllocateInfo {
            allocation_size: 4096,
            memory_type_index: 7,
            dedicated: DedicatedAllocationInfo { buffer: 0, image: 0xabc },
        }
    );

    let mut allocator = DeviceAllocator::new();
    let first = allocator.allocation_for(0x51, requirements);
    let second = allocator.allocation_for(0x52, requirements);
    assert_eq!(first.memory(), 0x51);
    assert_eq!((first.offset_in_bytes(), first.size_in_bytes()), (0, 4096));
    assert_eq!(first.memory_type_index(), 7);
    assert_eq!(*first.allocation_requirements(), requirements);
    assert_eq!(first.parent_id(), None);
    assert_eq!((first.id(), second.id()), (AllocationId(0), AllocationId(1)));
    assert_eq!(DeviceAllocator::free(&second), 0x52);

    // The device's answer decides: a handle gives the allocation, and a
    // failure its message, without an id being drawn.
    match allocator.allocate(requirements, Err("out of device memory".to_owned())) {
        Err(AllocatorError::RuntimeError(error)) => assert_eq!(error, "out of device memory"),
        _ => panic!("Result must be an error!"),
    }
    let third = allocator.allocate(requirements, Ok(0x53)).unwrap();
    assert_eq!(third.memory(), 0x53);
    assert_eq!((third.offset_in_bytes(), third.size_in_bytes()), (0, 4096));
    assert_eq!(*third.allocation_requirements(), requirements);
    assert_eq!(third.id(), AllocationId(2));
    assert_eq!(DeviceAllocator::free(&third), 0x53);
}

#[test]
fn test_system_allocator_levels() {
    let levels = SystemAllocatorLevels::new();
    assert_eq!(levels.small, PoolLevel { chunk_size: 64 * 1024, page_size: 1024 });
    assert_eq!(levels.medium, PoolLevel { chunk_size: 4 * 1024 * 1024, page_size: 64 * 1024 });
    assert_eq!(
        levels.root,
        PoolLevel { chunk_size: 512 * 1024 * 1024, page_size: 4 * 1024 * 1024 }
    );
}

#[test]
fn test_allocation_id_source() {
    let mut ids = AllocationIdSource::new();
    assert_eq!(ids.next(), 0);
    assert_eq!(ids.draw(), AllocationId(0));
    assert_eq!(ids.draw(), AllocationId(1));
    assert_eq!(ids.draw(), AllocationId(2));
    assert_eq!(ids.next(), 3);
}
