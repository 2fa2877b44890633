//! A general purpose allocator for GPU memory: composable allocators that
//! turn many small, aligned, type-constrained requests into a few large
//! device allocations.
//!
//! The allocators, from the leaves up:
//!
//! * [`PageArena`] hands out chunks of contiguous pages by first fit, and
//!   [`PageSuballocator`] divides one allocation into such pages, placing
//!   each request at an offset that suits its alignment.
//! * [`MemoryTypePoolAllocator`] keeps a pool of chunks for one memory type,
//!   takes a new chunk from its backing allocator when no chunk has room,
//!   and returns a chunk as soon as it is empty. [`PoolAllocator`] keeps one
//!   such pool per memory type.
//! * [`SizedAllocator`] routes requests by their aligned size,
//!   [`DedicatedAllocator`] routes requests that want memory of their own,
//!   and [`TraceAllocator`] counts what passes through it.
//! * [`DeviceMemory`] counts the mappings of one device memory object, so
//!   that the device is asked to map it once for all allocations in it.
//!
//! Every allocator implements [`ComposableAllocator`]. What `allocate` and
//! `free` do to an allocator is stated as a relation between the allocator
//! before and after the call; an allocator that wraps others states its
//! relation over theirs. Allocators are verified to keep their invariants,
//! to be free of arithmetic overflow, and to do what their relations say.
//!
//! Nothing here talks to a device. The allocator at the end of a stack asks
//! the device for memory; [`DeviceAllocator`] decides what it asks for and
//! what it makes of the answer.
pub mod allocation;
pub mod allocation_requirements;
pub mod composable_allocator;
pub mod dedicated_allocator;
pub mod device_allocator;
pub mod device_memory;
pub mod error;
pub mod fake_allocator;
pub mod memory_properties;
pub mod memory_type_pool_allocator;
pub mod null_allocator;
pub mod page_arena;
pub mod page_suballocator;
pub mod pool_allocator;
pub mod pretty_wrappers;
pub mod sized_allocator;
pub mod system_allocator;
pub mod trace_allocator;

pub use allocation::{Allocation, AllocationId, AllocationIdSource, AllocationView};
pub use allocation_requirements::{
    AllocationRequirements, DedicatedAllocationInfo, DedicatedResourceHandle,
    ResourceMemoryRequirements,
};
pub use composable_allocator::ComposableAllocator;
pub use dedicated_allocator::DedicatedAllocator;
pub use device_allocator::{DeviceAllocator, MemoryAllocateInfo};
pub use device_memory::{DeviceMemory, DeviceMemoryView};
pub use error::AllocatorError;
pub use fake_allocator::FakeAllocator;
pub use memory_properties::{MemoryHeap, MemoryProperties, MemoryType};
pub use memory_type_pool_allocator::{ChunkPool, ChunkPoolView, MemoryTypePoolAllocator};
pub use null_allocator::NullAllocator;
pub use page_arena::{linear_probe, set_region, Page, PageArena};
pub use page_suballocator::{div_ceil, PageSuballocator, PageSuballocatorView};
pub use pool_allocator::PoolAllocator;
pub use pretty_wrappers::{PrettyBitflag, PrettySize};
pub use sized_allocator::SizedAllocator;
pub use system_allocator::{PoolLevel, SystemAllocatorLevels};
pub use trace_allocator::{Metrics, TraceAllocator, TraceReport, TypeMetrics, TypeReport};
