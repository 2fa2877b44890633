//! A region of device memory that an allocator handed out.
use crate::allocation_requirements::AllocationRequirements;
use crate::device_memory::DeviceMemory;
use crate::error::AllocatorError;
use vstd::prelude::*;

verus! {

/// The number by which an allocation is told apart from the others that
/// were drawn from the same allocator.
#[derive(Copy, Clone, PartialEq, Eq, Debug, Structural)]
pub struct AllocationId(pub u64);

/// The number that follows `id` when ids are drawn one after the other:
/// the next number, and zero after the largest.
pub open spec fn next_id_after(id: u64) -> u64 {
    if id == u64::MAX {
        0
    } else {
        (id + 1) as u64
    }
}

/// The number that is drawn `draws` draws after `first`.
pub open spec fn id_after_draws(first: u64, draws: nat) -> u64 {
    ((first + draws) % 0x1_0000_0000_0000_0000) as u64
}

/// Drawing once goes to the number that follows.
pub proof fn lemma_next_id_is_one_draw(id: u64, draws: nat)
    ensures
        id_after_draws(id, 0) == id,
        next_id_after(id_after_draws(id, draws)) == id_after_draws(id, draws + 1),
{
    let modulus = 0x1_0000_0000_0000_0000int;
    let now = id + draws;
    vstd::arithmetic::div_mod::lemma_fundamental_div_mod(now, modulus);
    let quotient = now / modulus;
    if now % modulus == modulus - 1 {
        assert(now + 1 == modulus * (quotient + 1) + 0) by (nonlinear_arith)
            requires
                now == modulus * quotient + (modulus - 1),
        ;
        vstd::arithmetic::div_mod::lemma_fundamental_div_mod_converse(
            now + 1,
            modulus,
            quotient + 1,
            0,
        );
    } else {
        vstd::arithmetic::div_mod::lemma_fundamental_div_mod_converse(
            now + 1,
            modulus,
            quotient,
            now % modulus + 1,
        );
    }
}

/// Ids that are drawn from one source are distinct, as long as fewer draws
/// lie between them than there are numbers: the ids of two draws, of which
/// the later comes less than 2^64 draws after the earlier, differ.
pub proof fn lemma_drawn_ids_are_distinct(first: u64, earlier: nat, later: nat)
    requires
        earlier < later,
        later - earlier < 0x1_0000_0000_0000_0000,
    ensures
        id_after_draws(first, earlier) != id_after_draws(first, later),
{
    let modulus = 0x1_0000_0000_0000_0000int;
    let one = first + earlier;
    let other = first + later;
    vstd::arithmetic::div_mod::lemma_fundamental_div_mod(one, modulus);
    vstd::arithmetic::div_mod::lemma_fundamental_div_mod(other, modulus);
    if one % modulus == other % modulus {
        let between = other / modulus - one / modulus;
        assert(other - one == modulus * between) by (nonlinear_arith)
            requires
                one == modulus * (one / modulus) + one % modulus,
                other == modulus * (other / modulus) + other % modulus,
                one % modulus == other % modulus,
                between == other / modulus - one / modulus,
        ;
        assert(false) by (nonlinear_arith)
            requires
                0 < other - one < modulus,
                other - one == modulus * between,
        ;
    }
}

/// A source of ids: a counter that hands out the numbers one after the
/// other, beginning with zero, and begins again after the largest. The ids
/// that one source hands out are distinct for as long as it has not handed
/// out 2^64 of them. Allocators that draw from different sources may hand
/// out equal ids.
#[derive(Debug)]
pub struct AllocationIdSource {
    next: u64,
}

impl AllocationIdSource {
    /// The number of the id that is drawn next.
    pub closed spec fn spec_next(&self) -> u64 {
        self.next
    }

    /// A source that has handed out no id yet.
    pub fn new() -> (source: Self)
        ensures
            source.spec_next() == 0,
    {
        Self { next: 0 }
    }

    /// The number of the id that is drawn next.
    pub fn next(&self) -> (next: u64)
        ensures
            next == self.spec_next(),
    {
        self.next
    }

    /// Draw the next id.
    pub fn draw(&mut self) -> (id: AllocationId)
        ensures
            id == AllocationId(old(self).spec_next()),
            final(self).spec_next() == next_id_after(old(self).spec_next()),
    {
        let id = AllocationId(self.next);
        self.next = if self.next == u64::MAX {
            0
        } else {
            self.next + 1
        };
        id
    }
}

/// An allocation, as contracts see it.
pub struct AllocationView {
    /// The raw handle of the device memory that holds the region.
    pub memory: u64,
    pub offset_in_bytes: u64,
    pub size_in_bytes: u64,
    pub memory_type_index: usize,
    /// The requirements that the allocation was made for.
    pub requirements: AllocationRequirements,
    /// The id of the allocation: it tells the allocation apart from the
    /// others that were drawn from the same source of ids.
    pub id: AllocationId,
    /// The allocation that this one was carved out of, if any.
    pub parent_id: Option<AllocationId>,
}

impl AllocationView {
    /// The region ends at or before the last address that exists.
    pub open spec fn wf(self) -> bool {
        self.offset_in_bytes + self.size_in_bytes <= u64::MAX
    }

    /// The first byte after the region.
    pub open spec fn end(self) -> int {
        self.offset_in_bytes + self.size_in_bytes
    }

    /// The allocation answers the request: it has the size and the memory
    /// type that were asked for and remembers what was asked.
    pub open spec fn grants(self, requirements: AllocationRequirements) -> bool {
        &&& self.size_in_bytes == requirements.size_in_bytes
        &&& self.memory_type_index == requirements.memory_type_index
        &&& self.requirements == requirements
    }

    /// The region begins at a multiple of `alignment`.
    pub open spec fn is_aligned_to(self, alignment: u64) -> bool {
        alignment >= 1 && self.offset_in_bytes as int % alignment as int == 0
    }

    /// The two regions lie in the same device memory and share a byte.
    pub open spec fn overlaps(self, other: AllocationView) -> bool {
        &&& self.memory == other.memory
        &&& self.offset_in_bytes < other.end()
        &&& other.offset_in_bytes < self.end()
    }

    /// What `suballocate` makes of this allocation.
    pub open spec fn suballocation(
        self,
        offset: u64,
        size_in_bytes: u64,
        offset_alignment: u64,
        id: AllocationId,
    ) -> AllocationView {
        AllocationView {
            memory: self.memory,
            offset_in_bytes: (self.offset_in_bytes + offset) as u64,
            size_in_bytes,
            memory_type_index: self.memory_type_index,
            requirements: AllocationRequirements {
                size_in_bytes,
                alignment: offset_alignment,
                ..self.requirements
            },
            id,
            parent_id: Some(self.id),
        }
    }
}

/// A GPU memory allocation.
#[derive(Copy, Clone, Debug)]
pub struct Allocation {
    memory: u64,
    offset_in_bytes: u64,
    size_in_bytes: u64,
    memory_type_index: usize,
    allocation_requirements: AllocationRequirements,
    id: AllocationId,
    parent_id: Option<AllocationId>,
}

impl View for Allocation {
    type V = AllocationView;

    closed spec fn view(&self) -> AllocationView {
        AllocationView {
            memory: self.memory,
            offset_in_bytes: self.offset_in_bytes,
            size_in_bytes: self.size_in_bytes,
            memory_type_index: self.memory_type_index,
            requirements: self.allocation_requirements,
            id: self.id,
            parent_id: self.parent_id,
        }
    }
}

impl Allocation {
    /// Create a new memory allocation that was carved out of no other.
    pub fn new(
        memory: u64,
        memory_type_index: usize,
        offset_in_bytes: u64,
        size_in_bytes: u64,
        allocation_requirements: AllocationRequirements,
        id: AllocationId,
    ) -> (allocation: Self)
        ensures
            allocation@ == (AllocationView {
                memory,
                offset_in_bytes,
                size_in_bytes,
                memory_type_index,
                requirements: allocation_requirements,
                id,
                parent_id: None,
            }),
    {
        Self {
            memory,
            offset_in_bytes,
            size_in_bytes,
            memory_type_index,
            allocation_requirements,
            id,
            parent_id: None,
        }
    }

    /// Create an allocation which refers to the same underlying device
    /// memory.
    ///
    /// * `allocation`: the allocation which is subdivided.
    /// * `offset`: the offset relative to the offset of `allocation`.
    /// * `size_in_bytes`: the size of the suballocation.
    /// * `offset_alignment`: the alignment that the new offset has.
    /// * `id`: the id of the suballocation.
    ///
    /// The suballocation must lie within `allocation`. Nothing
    /// here prevents aliasing, and the alignment is recorded as it is given:
    /// the caller tracks which parts of `allocation` are in use and places
    /// the suballocation.
    pub fn suballocate(
        allocation: &Allocation,
        offset: u64,
        size_in_bytes: u64,
        offset_alignment: u64,
        id: AllocationId,
    ) -> (suballocation: Self)
        requires
            allocation@.wf(),
            offset + size_in_bytes <= allocation@.size_in_bytes,
        ensures
            suballocation@ == allocation@.suballocation(
                offset,
                size_in_bytes,
                offset_alignment,
                id,
            ),
            suballocation@.offset_in_bytes == allocation@.offset_in_bytes + offset,
            suballocation@.wf(),
    {
        let full_offset = allocation.offset_in_bytes + offset;
        Self {
            memory: allocation.memory,
            offset_in_bytes: full_offset,
            size_in_bytes,
            memory_type_index: allocation.memory_type_index,
            allocation_requirements: AllocationRequirements {
                size_in_bytes,
                alignment: offset_alignment,
                ..allocation.allocation_requirements
            },
            id,
            parent_id: Some(allocation.id),
        }
    }

    /// The same allocation under another id.
    pub fn with_id(self, id: AllocationId) -> (renamed: Self)
        ensures
            renamed@ == (AllocationView { id, ..self@ }),
    {
        Self { id, ..self }
    }

    /// The same allocation, made for other requirements.
    pub fn with_requirements(self, requirements: AllocationRequirements) -> (changed: Self)
        ensures
            changed@ == (AllocationView { requirements, ..self@ }),
    {
        Self { allocation_requirements: requirements, ..self }
    }

    /// The raw handle of the underlying device memory.
    ///
    /// The allocation logically owns its part of the device memory: the
    /// memory is freed by returning the allocation to its allocator and in
    /// no other way.
    pub fn memory(&self) -> (memory: u64)
        ensures
            memory == self@.memory,
    {
        self.memory
    }

    /// The offset where this allocation begins in device memory.
    ///
    /// This is needed because some allocators subdivide big regions of
    /// device memory into smaller allocations, so the device memory can be
    /// shared by many allocations.
    pub fn offset_in_bytes(&self) -> (offset: u64)
        ensures
            offset == self@.offset_in_bytes,
    {
        self.offset_in_bytes
    }

    /// The size of the allocation in bytes.
    pub fn size_in_bytes(&self) -> (size: u64)
        ensures
            size == self@.size_in_bytes,
    {
        self.size_in_bytes
    }

    /// The allocation requirements used when acquiring the device memory.
    pub fn allocation_requirements(&self) -> (requirements: &AllocationRequirements)
        ensures
            *requirements == self@.requirements,
    {
        &self.allocation_requirements
    }

    /// The index for the memory type used to allocate this memory.
    pub fn memory_type_index(&self) -> (index: usize)
        ensures
            index == self@.memory_type_index,
    {
        self.memory_type_index
    }

    /// The id of the allocation.
    pub fn id(&self) -> (id: AllocationId)
        ensures
            id == self@.id,
    {
        self.id
    }

    /// The id of the allocation that this one was carved out of, if any.
    pub fn parent_id(&self) -> (parent_id: Option<AllocationId>)
        ensures
            parent_id == self@.parent_id,
    {
        self.parent_id
    }

    /// The host address of the allocation once its device memory is mapped
    /// at `base`: the base address advanced by the allocation's offset.
    pub open spec fn spec_host_address(&self, base: usize) -> int {
        base + self@.offset_in_bytes
    }

    /// Map the allocation into application address space.
    ///
    /// `device_memory` is the device memory that holds the allocation, and
    /// `api_address` is what the device API returned for it, as for
    /// `DeviceMemory::map`. Returns the host address of the allocation's
    /// first byte. Fails, and changes nothing, exactly when mapping the
    /// device memory fails.
    pub fn map(&self, device_memory: &mut DeviceMemory, api_address: Option<usize>) -> (mapped:
        Result<usize, AllocatorError>)
        requires
            old(device_memory)@.wf(),
            old(device_memory)@.map_count < u32::MAX,
            old(device_memory)@.memory == self@.memory,
            old(device_memory)@.map_succeeds(api_address) ==> self.spec_host_address(
                old(device_memory)@.address_after_map(api_address),
            ) <= usize::MAX,
        ensures
            final(device_memory)@.wf(),
            final(device_memory)@ == old(device_memory)@.after_map(api_address),
            match mapped {
                Ok(address) => old(device_memory)@.map_succeeds(api_address) && address
                    == self.spec_host_address(
                    old(device_memory)@.address_after_map(api_address),
                ),
                Err(error) => !old(device_memory)@.map_succeeds(api_address)
                    && error.is_runtime_error("Unable to map a memory allocation!"@),
            },
    {
        match device_memory.map(api_address) {
            Ok(base) => Ok(base + self.offset_in_bytes as usize),
            Err(error) => Err(error),
        }
    }

    /// Unmap the allocation: one mapping of its device memory is given up.
    /// The result is that of `DeviceMemory::unmap`.
    pub fn unmap(&self, device_memory: &mut DeviceMemory) -> (unmapped: Result<
        bool,
        AllocatorError,
    >)
        requires
            old(device_memory)@.wf(),
            old(device_memory)@.memory == self@.memory,
        ensures
            final(device_memory)@.wf(),
            final(device_memory)@ == old(device_memory)@.after_unmap(),
            match unmapped {
                Ok(api_unmap_due) => old(device_memory)@.map_count > 0 && api_unmap_due == (old(
                    device_memory,
                )@.map_count == 1),
                Err(error) => old(device_memory)@.map_count == 0 && error.is_runtime_error(
                    "Attemped to unmap memory which has no mapping!"@,
                ),
            },
    {
        device_memory.unmap()
    }
}

} // verus!
