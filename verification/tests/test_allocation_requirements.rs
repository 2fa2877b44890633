//! Tests for allocation requirements and for picking a memory type.

use ccthw_ash_allocator::{
    AllocationRequirements, AllocatorError, DedicatedAllocationInfo, DedicatedResourceHandle,
    MemoryType, PrettyBitflag, ResourceMemoryRequirements,
};

const DEVICE_LOCAL: u32 = 0b0001;
const HOST_VISIBLE: u32 = 0b0010;
const HOST_COHERENT: u32 = 0b0100;

fn memory_types() -> Vec<MemoryType> {
    vec![
        MemoryType { property_flags: DEVICE_LOCAL, heap_index: 0 },
        MemoryType { property_flags: HOST_VISIBLE, heap_index: 1 },
        MemoryType { property_flags: HOST_VISIBLE | HOST_COHERENT, heap_index: 1 },
        MemoryType { property_flags: DEVICE_LOCAL | HOST_VISIBLE | HOST_COHERENT, heap_index: 0 },
    ]
}

#[test]
fn test_aligned_size() {
    let requirements = AllocationRequirements {
        size_in_bytes: 62,
        alignment: 8,
        ..AllocationRequirements::default()
    };
    assert_eq!(requirements.aligned_size(), 69);
    assert!(requirements.aligned_size_is_below(70));
    assert!(!requirements.aligned_size_is_below(69));

    let unaligned = AllocationRequirements {
        size_in_bytes: 62,
        alignment: 1,
        ..AllocationRequirements::default()
    };
    assert_eq!(unaligned.aligned_size(), 62);

    let largest = AllocationRequirements {
        size_in_bytes: u64::MAX,
        alignment: 1,
        ..AllocationRequirements::default()
    };
    assert_eq!(largest.aligned_size(), u64::MAX);
    assert!(!largest.aligned_size_is_below(u64::MAX));

    let too_large = AllocationRequirements {
        size_in_bytes: u64::MAX,
        alignment: 2,
        ..AllocationRequirements::default()
    };
    assert!(!too_large.aligned_size_is_below(u64::MAX));

    // Without a size and without an alignment the aligned size is -1.
    assert!(AllocationRequirements::default().aligned_size_is_below(0));
}

#[test]
fn test_default_requirements() {
    let requirements = AllocationRequirements::default();
    assert_eq!(requirements.size_in_bytes, 0);
    assert_eq!(requirements.alignment, 0);
    assert_eq!(requirements.memory_type_bits, 0);
    assert_eq!(requirements.memory_type_index, 0);
    assert_eq!(requirements.memory_properties, 0);
    assert!(!requirements.prefers_dedicated_allocation);
    assert!(!requirements.requires_dedicated_allocation);
    assert!(!requirements.wants_dedicated());
    assert_eq!(requirements.dedicated_resource_handle, DedicatedResourceHandle::NoResource);
    assert_eq!(DedicatedResourceHandle::default(), DedicatedResourceHandle::NoResource);
}

#[test]
fn test_pick_memory_type_index() {
    let types = memory_types();
    let pick = |bits: u32, flags: u32| {
        AllocationRequirements::pick_memory_type_index(&types, bits, flags)
    };
    // The first type that has the flags.
    assert_eq!(pick(0b1111, DEVICE_LOCAL).unwrap(), 0);
    assert_eq!(pick(0b1111, HOST_VISIBLE).unwrap(), 1);
    assert_eq!(pick(0b1111, HOST_VISIBLE | HOST_COHERENT).unwrap(), 2);
    assert_eq!(pick(0b1111, DEVICE_LOCAL | HOST_VISIBLE).unwrap(), 3);
    assert_eq!(pick(0b1111, 0).unwrap(), 0);
    // Only types that the bits allow.
    assert_eq!(pick(0b1000, DEVICE_LOCAL).unwrap(), 3);
    assert_eq!(pick(0b1100, HOST_VISIBLE).unwrap(), 2);
    assert_eq!(pick(0b0110, 0).unwrap(), 1);
    // Bits of types that do not exist count for nothing.
    assert!(pick(0xffff_fff0, 0).is_err());

    match pick(0b0011, HOST_COHERENT) {
        Err(AllocatorError::NoSupportedTypeForProperties(bits, flags)) => {
            assert_eq!(bits, PrettyBitflag(0b0011));
            assert_eq!(flags, HOST_COHERENT);
        }
        _ => panic!("Result must be an error!"),
    }
    assert!(pick(0, 0).is_err());
    assert!(pick(0b1111, 0b1000_0000).is_err());
    assert!(AllocationRequirements::pick_memory_type_index(&[], 0b1, 0).is_err());
}

#[test]
fn test_pick_memory_type_index_beyond_32_types() {
    let types = vec![MemoryType { property_flags: 0, heap_index: 0 }; 40];
    assert_eq!(
        AllocationRequirements::pick_memory_type_index(&types, 1 << 31, 0).unwrap(),
        31
    );
    assert!(AllocationRequirements::pick_memory_type_index(&types, 0, 0).is_err());
}

#[test]
fn test_requirements_for_buffer_and_image() {
    let types = memory_types();
    let reported = ResourceMemoryRequirements {
        size: 64_000,
        alignment: 256,
        memory_type_bits: 0b1110,
        prefers_dedicated_allocation: true,
        requires_dedicated_allocation: false,
    };
    let for_buffer =
        AllocationRequirements::for_buffer(&types, HOST_VISIBLE | HOST_COHERENT, 17, &reported)
            .unwrap();
    assert_eq!(
        for_buffer,
        AllocationRequirements {
            size_in_bytes: 64_000,
            alignment: 256,
            memory_type_bits: 0b1110,
            memory_type_index: 2,
            memory_properties: HOST_VISIBLE | HOST_COHERENT,
            prefers_dedicated_allocation: true,
            requires_dedicated_allocation: false,
            dedicated_resource_handle: DedicatedResourceHandle::Buffer(17),
        }
    );
    assert!(for_buffer.wants_dedicated());

    let for_image = AllocationRequirements::for_image(&types, DEVICE_LOCAL, 23, &reported).unwrap();
    assert_eq!(for_image.memory_type_index, 3);
    assert_eq!(for_image.dedicated_resource_handle, DedicatedResourceHandle::Image(23));
    assert_eq!(for_image.memory_properties, DEVICE_LOCAL);

    let unsupported = ResourceMemoryRequirements { memory_type_bits: 0b0001, ..reported };
    match AllocationRequirements::for_image(&types, HOST_VISIBLE, 23, &unsupported) {
        Err(AllocatorError::NoSupportedTypeForProperties(bits, flags)) => {
            assert_eq!((bits, flags), (PrettyBitflag(0b0001), HOST_VISIBLE));
        }
        _ => panic!("Result must be an error!"),
    }
    assert!(AllocationRequirements::for_buffer(&types, HOST_VISIBLE, 17, &unsupported).is_err());
}

#[test]
fn test_dedicated_allocation_info() {
    assert_eq!(
        DedicatedResourceHandle::Buffer(5).as_dedicated_allocation_info(),
        DedicatedAllocationInfo { buffer: 5, image: 0 }
    );
    assert_eq!(
        DedicatedResourceHandle::Image(9).as_dedicated_allocation_info(),
        DedicatedAllocationInfo { buffer: 0, image: 9 }
    );
    assert_eq!(
        DedicatedResourceHandle::NoResource.as_dedicated_allocation_info(),
        DedicatedAllocationInfo { buffer: 0, image: 0 }
    );
}

#[test]
fn test_bit_flags() {
    let flags = PrettyBitflag(0b1010);
    assert!(!flags.has_bit(0));
    assert!(flags.has_bit(1));
    assert!(!flags.has_bit(2));
    assert!(flags.has_bit(3));
    assert!(PrettyBitflag(1 << 31).has_bit(31));
    assert!(!PrettyBitflag(u32::MAX).has_bit(32));
    assert!(!PrettyBitflag(u32::MAX).has_bit(usize::MAX));
}

#[test]
fn test_valid_requirements() {
    let valid = AllocationRequirements {
        size_in_bytes: 64,
        alignment: 16,
        memory_type_bits: 0b0110,
        memory_type_index: 2,
        memory_properties: HOST_VISIBLE,
        prefers_dedicated_allocation: false,
        requires_dedicated_allocation: true,
        dedicated_resource_handle: DedicatedResourceHandle::Buffer(3),
    };
    assert!(valid.is_valid());
    assert!(AllocationRequirements { alignment: 1, ..valid }.is_valid());
    assert!(AllocationRequirements { alignment: 1 << 63, ..valid }.is_valid());
    assert!(AllocationRequirements { size_in_bytes: 0, ..valid }.is_valid());

    // The alignment is a power of two.
    assert!(!AllocationRequirements { alignment: 0, ..valid }.is_valid());
    assert!(!AllocationRequirements { alignment: 24, ..valid }.is_valid());
    assert!(!AllocationRequirements { alignment: u64::MAX, ..valid }.is_valid());
    // The chosen memory type is allowed.
    assert!(!AllocationRequirements { memory_type_index: 0, ..valid }.is_valid());
    assert!(!AllocationRequirements { memory_type_index: 32, ..valid }.is_valid());
    // A required dedicated allocation names its resource.
    assert!(!AllocationRequirements {
        dedicated_resource_handle: DedicatedResourceHandle::NoResource,
        ..valid
    }
    .is_valid());
    assert!(AllocationRequirements {
        requires_dedicated_allocation: false,
        dedicated_resource_handle: DedicatedResourceHandle::NoResource,
        ..valid
    }
    .is_valid());
    assert!(!AllocationRequirements::default().is_valid());

    // What the device reports for a resource is valid once a memory type
    // was picked for it.
    let reported = ResourceMemoryRequirements {
        size: 100,
        alignment: 64,
        memory_type_bits: 0b1110,
        prefers_dedicated_allocation: false,
        requires_dedicated_allocation: true,
    };
    let picked =
        AllocationRequirements::for_image(&memory_types(), HOST_COHERENT, 9, &reported).unwrap();
    assert!(picked.is_valid());
}
