//! The memory types and heaps that a device offers.
use vstd::prelude::*;

verus! {

/// One memory type of a device: its property flags, as raw bits, and the
/// heap it allocates from.
#[derive(Copy, Clone, PartialEq, Eq, Debug, Structural)]
pub struct MemoryType {
    pub property_flags: u32,
    pub heap_index: u32,
}

/// One memory heap of a device: its size in bytes and its flags, as raw
/// bits.
#[derive(Copy, Clone, PartialEq, Eq, Debug, Structural)]
pub struct MemoryHeap {
    pub size: u64,
    pub flags: u32,
}

/// The memory types and heaps of one physical device.
#[derive(Debug)]
pub struct MemoryProperties {
    types: Vec<MemoryType>,
    heaps: Vec<MemoryHeap>,
}

impl MemoryProperties {
    /// The memory types, in the device's order.
    pub closed spec fn spec_types(&self) -> Seq<MemoryType> {
        self.types@
    }

    /// The memory heaps, in the device's order.
    pub closed spec fn spec_heaps(&self) -> Seq<MemoryHeap> {
        self.heaps@
    }

    /// Keep the memory types and heaps that a device reported.
    pub fn from_raw(types: &[MemoryType], heaps: &[MemoryHeap]) -> (properties: Self)
        ensures
            properties.spec_types() == types@,
            properties.spec_heaps() == heaps@,
    {
        let mut kept_types: Vec<MemoryType> = Vec::new();
        let mut index: usize = 0;
        while index < types.len()
            invariant
                index <= types@.len(),
                kept_types@ == types@.take(index as int),
            decreases types@.len() - index,
        {
            kept_types.push(types[index]);
            index = index + 1;
            assert(kept_types@ =~= types@.take(index as int));
        }
        assert(kept_types@ =~= types@);
        let mut kept_heaps: Vec<MemoryHeap> = Vec::new();
        let mut index: usize = 0;
        while index < heaps.len()
            invariant
                index <= heaps@.len(),
                kept_heaps@ == heaps@.take(index as int),
            decreases heaps@.len() - index,
        {
            kept_heaps.push(heaps[index]);
            index = index + 1;
            assert(kept_heaps@ =~= heaps@.take(index as int));
        }
        assert(kept_heaps@ =~= heaps@);
        Self { types: kept_types, heaps: kept_heaps }
    }

    /// All of the currently usable memory heaps on this system.
    pub fn heaps(&self) -> (heaps: &[MemoryHeap])
        ensures
            heaps@ == self.spec_heaps(),
    {
        self.heaps.as_slice()
    }

    /// All of the currently usable memory types on this system.
    pub fn types(&self) -> (types: &[MemoryType])
        ensures
            types@ == self.spec_types(),
    {
        self.types.as_slice()
    }
}

} // verus!
