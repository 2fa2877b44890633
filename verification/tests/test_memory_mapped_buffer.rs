//! Tests for mapping an allocation, writing to the mapped memory and
//! reading it back. A small stand-in plays the device: it maps a memory
//! object at a fixed address and refuses to map it twice.

use ccthw_ash_allocator::{
    Allocation, AllocationRequirements, AllocatorError, ComposableAllocator, DeviceMemory,
    FakeAllocator, MemoryProperties, TraceAllocator,
};

const BASE_ADDRESS: usize = 0x1000;

/// The device's side of one memory object.
struct TestDevice {
    bytes: Vec<u8>,
    mapped: bool,
    map_calls: u32,
    unmap_calls: u32,
}

impl TestDevice {
    fn new(size: usize) -> Self {
        Self { bytes: vec![0; size], mapped: false, map_calls: 0, unmap_calls: 0 }
    }

    fn map_memory(&mut self) -> Option<usize> {
        assert!(!self.mapped, "the memory object is mapped already");
        self.mapped = true;
        self.map_calls += 1;
        Some(BASE_ADDRESS)
    }

    fn unmap_memory(&mut self) {
        assert!(self.mapped, "the memory object is not mapped");
        self.mapped = false;
        self.unmap_calls += 1;
    }

    fn write(&mut self, address: usize, value: i32) {
        assert!(self.mapped);
        let at = address - BASE_ADDRESS;
        self.bytes[at..at + 4].copy_from_slice(&value.to_ne_bytes());
    }

    fn read(&self, address: usize) -> i32 {
        assert!(self.mapped);
        let at = address - BASE_ADDRESS;
        i32::from_ne_bytes([self.bytes[at], self.bytes[at + 1], self.bytes[at + 2], self.bytes[at + 3]])
    }
}

fn map(
    allocation: &Allocation,
    memory: &mut DeviceMemory,
    device: &mut TestDevice,
) -> Result<usize, AllocatorError> {
    let api_address = if memory.needs_mapping() { device.map_memory() } else { None };
    allocation.map(memory, api_address)
}

fn unmap(
    allocation: &Allocation,
    memory: &mut DeviceMemory,
    device: &mut TestDevice,
) -> Result<(), AllocatorError> {
    if allocation.unmap(memory)? {
        device.unmap_memory();
    }
    Ok(())
}

fn trace_allocator() -> TraceAllocator<FakeAllocator> {
    TraceAllocator::new(
        MemoryProperties::from_raw(&[], &[]),
        FakeAllocator::default(),
        "Application Allocator".to_owned(),
    )
}

fn host_visible_buffer(allocator: &mut TraceAllocator<FakeAllocator>) -> Allocation {
    // Some memory in front, so that the buffer does not begin at offset 0.
    let in_front = allocator
        .allocate(AllocationRequirements {
            size_in_bytes: 8,
            alignment: 4,
            ..AllocationRequirements::default()
        })
        .unwrap();
    allocator.free(in_front);
    allocator
        .allocate(AllocationRequirements {
            size_in_bytes: 4,
            alignment: 4,
            ..AllocationRequirements::default()
        })
        .unwrap()
}

#[test]
pub fn test_mapped_buffer() {
    let mut allocator = trace_allocator();
    let allocation = host_visible_buffer(&mut allocator);
    let mut memory = DeviceMemory::new(allocation.memory());
    let mut device = TestDevice::new(16);

    // Map the memory and write a value into it. Then unmap the memory.
    {
        let addr = map(&allocation, &mut memory, &mut device).unwrap();
        assert_eq!(addr % std::mem::align_of::<i32>(), 0);
        assert_eq!(addr, BASE_ADDRESS + 8);
        device.write(addr, 1337);
        unmap(&allocation, &mut memory, &mut device).unwrap();
    }

    // Map the memory and verify that the written value is present
    {
        let addr = map(&allocation, &mut memory, &mut device).unwrap();
        assert_eq!(addr % std::mem::align_of::<i32>(), 0);
        let value = device.read(addr);
        assert_eq!(value, 1337);
        unmap(&allocation, &mut memory, &mut device).unwrap();
    }

    assert_eq!((device.map_calls, device.unmap_calls), (2, 2));
    allocator.free(allocation);
}

#[test]
pub fn test_repeated_mapping() {
    let mut allocator = trace_allocator();
    let allocation = allocator
        .allocate(AllocationRequirements {
            size_in_bytes: 4,
            alignment: 4,
            ..AllocationRequirements::default()
        })
        .unwrap();
    let mut memory = DeviceMemory::new(allocation.memory());
    let mut device = TestDevice::new(4);
    assert_eq!((memory.map_count(), memory.host_address()), (0, 0));

    let ptr_a = map(&allocation, &mut memory, &mut device).unwrap();
    assert_eq!((memory.map_count(), memory.host_address()), (1, BASE_ADDRESS));
    let ptr_b = map(&allocation, &mut memory, &mut device).unwrap();
    assert_eq!((memory.map_count(), memory.host_address()), (2, BASE_ADDRESS));

    assert_eq!(ptr_a, ptr_b);
    assert_eq!(device.map_calls, 1);

    unmap(&allocation, &mut memory, &mut device).unwrap();
    assert_eq!((memory.map_count(), memory.host_address()), (1, BASE_ADDRESS));
    assert_eq!(device.unmap_calls, 0);
    unmap(&allocation, &mut memory, &mut device).unwrap();
    assert_eq!((memory.map_count(), memory.host_address()), (0, 0));
    assert_eq!(device.unmap_calls, 1);
    assert!(memory.needs_mapping());
    assert!(!device.mapped);

    allocator.free(allocation);
    assert_eq!(allocator.total().total_allocations, 1);
    assert_eq!(allocator.total().leaked_allocations, 0);
}

#[test]
pub fn test_unmap_without_a_mapping_fails() {
    let mut memory = DeviceMemory::new(3);
    match memory.unmap() {
        Err(AllocatorError::RuntimeError(error)) => {
            assert_eq!(error, "Attemped to unmap memory which has no mapping!");
        }
        _ => panic!("Result must be an error!"),
    }
    assert_eq!((memory.memory(), memory.map_count(), memory.host_address()), (3, 0, 0));

    assert_eq!(memory.map(Some(64)).unwrap(), 64);
    assert_eq!(memory.unmap().unwrap(), true);
    assert!(memory.unmap().is_err());
}

#[test]
pub fn test_map_fails_when_the_device_gives_no_address() {
    let mut memory = DeviceMemory::new(3);
    for api_address in [None, Some(0)] {
        match memory.map(api_address) {
            Err(AllocatorError::RuntimeError(error)) => {
                assert_eq!(error, "Unable to map a memory allocation!");
            }
            _ => panic!("Result must be an error!"),
        }
        assert_eq!((memory.map_count(), memory.host_address()), (0, 0));
        assert!(memory.needs_mapping());
    }

    // Once mapped, what the device is said to have returned is not looked at.
    assert_eq!(memory.map(Some(4096)).unwrap(), 4096);
    assert_eq!(memory.map(Some(8192)).unwrap(), 4096);
    assert_eq!(memory.map(None).unwrap(), 4096);
    assert_eq!(memory.map_count(), 3);
    assert_eq!(memory.unmap().unwrap(), false);
    assert_eq!(memory.unmap().unwrap(), false);
    assert_eq!(memory.unmap().unwrap(), true);
}
