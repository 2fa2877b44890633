//! Tests for the sized allocator.

use ccthw_ash_allocator::{
    AllocationRequirements, ComposableAllocator, FakeAllocator, SizedAllocator,
};

#[test]
fn test_small_allocation() {
    let mut allocator =
        SizedAllocator::new(64, FakeAllocator::default(), FakeAllocator::default());

    let allocation = {
        let allocation_requirements = AllocationRequirements {
            size_in_bytes: 32,
            alignment: 8,
            ..AllocationRequirements::default()
        };
        allocator.allocate(allocation_requirements).unwrap()
    };
    assert_eq!(allocation.size_in_bytes(), 32);
    assert_eq!(allocator.small_allocator().active_allocations, 1);
    assert_eq!(allocator.large_allocator().active_allocations, 0);

    allocator.free(allocation);

    assert_eq!(allocator.small_allocator().active_allocations, 0);
    assert_eq!(allocator.large_allocator().active_allocations, 0);
}

#[test]
fn test_large_allocation() {
    let mut allocator =
        SizedAllocator::new(64, FakeAllocator::default(), FakeAllocator::default());

    let allocation = {
        let allocation_requirements = AllocationRequirements {
            size_in_bytes: 62,
            alignment: 8,
            ..AllocationRequirements::default()
        };
        allocator.allocate(allocation_requirements).unwrap()
    };
    assert_eq!(allocation.size_in_bytes(), 62);
    assert_eq!(allocator.small_allocator().active_allocations, 0);
    assert_eq!(allocator.large_allocator().active_allocations, 1);

    allocator.free(allocation);

    assert_eq!(allocator.small_allocator().active_allocations, 0);
    assert_eq!(allocator.large_allocator().active_allocations, 0);
}

#[test]
fn test_small_then_larger_allocation() {
    let mut allocator =
        SizedAllocator::new(64, FakeAllocator::default(), FakeAllocator::default());

    let small = allocator
        .allocate(AllocationRequirements {
            size_in_bytes: 32,
            alignment: 8,
            ..AllocationRequirements::default()
        })
        .unwrap();
    assert_eq!(allocator.small_allocator().active_allocations, 1);
    assert_eq!(allocator.large_allocator().active_allocations, 0);

    // An aligned size of 69 bytes.
    let requirements = AllocationRequirements {
        size_in_bytes: 62,
        alignment: 8,
        ..AllocationRequirements::default()
    };
    assert_eq!(requirements.aligned_size(), 69);
    let large = allocator.allocate(requirements).unwrap();
    assert_eq!(allocator.small_allocator().active_allocations, 1);
    assert_eq!(allocator.large_allocator().active_allocations, 1);

    allocator.free(large);
    assert_eq!(allocator.small_allocator().active_allocations, 1);
    assert_eq!(allocator.large_allocator().active_allocations, 0);

    allocator.free(small);
    assert_eq!(allocator.small_allocator().active_allocations, 0);
    assert_eq!(allocator.large_allocator().active_allocations, 0);
}

#[test]
fn test_the_trigger_size_itself_is_large() {
    let mut allocator =
        SizedAllocator::new(64, FakeAllocator::default(), FakeAllocator::default());

    // An aligned size of 63 bytes is small, one of 64 bytes is large.
    let below = allocator
        .allocate(AllocationRequirements {
            size_in_bytes: 63,
            alignment: 1,
            ..AllocationRequirements::default()
        })
        .unwrap();
    assert_eq!(allocator.small_allocator().active_allocations, 1);
    let at = allocator
        .allocate(AllocationRequirements {
            size_in_bytes: 64,
            alignment: 1,
            ..AllocationRequirements::default()
        })
        .unwrap();
    assert_eq!(allocator.large_allocator().active_allocations, 1);

    // An aligned size that fits no u64 is large too.
    let huge = allocator
        .allocate(AllocationRequirements {
            size_in_bytes: 0,
            alignment: u64::MAX,
            ..AllocationRequirements::default()
        })
        .unwrap();
    let beyond = allocator
        .allocate(AllocationRequirements {
            size_in_bytes: 2,
            alignment: u64::MAX,
            ..AllocationRequirements::default()
        })
        .unwrap();
    assert_eq!(allocator.small_allocator().active_allocations, 1);
    assert_eq!(allocator.large_allocator().active_allocations, 3);

    allocator.free(beyond);
    allocator.free(huge);
    allocator.free(at);
    assert_eq!(allocator.small_allocator().active_allocations, 1);
    assert_eq!(allocator.large_allocator().active_allocations, 0);
    allocator.free(below);
    assert_eq!(allocator.small_allocator().active_allocations, 0);
}
