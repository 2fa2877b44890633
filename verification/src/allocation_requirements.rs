//! What a resource needs of the memory that is allocated for it.
use crate::error::AllocatorError;
use crate::memory_properties::MemoryType;
use crate::pretty_wrappers::PrettyBitflag;
use vstd::prelude::*;

verus! {

/// A copy of the handle of the resource that an allocation is made for, as
/// the raw handle value.
#[derive(Copy, Clone, PartialEq, Eq, Debug, Structural)]
pub enum DedicatedResourceHandle {
    Buffer(u64),
    Image(u64),
    /// The allocation is made for no particular resource.
    NoResource,
}

/// The buffer and the image that a dedicated allocation is made for. At most
/// one of them is named; zero is the null handle and means "none".
#[derive(Copy, Clone, PartialEq, Eq, Debug, Structural)]
pub struct DedicatedAllocationInfo {
    pub buffer: u64,
    pub image: u64,
}

impl DedicatedResourceHandle {
    /// The dedicated allocation info for this resource.
    pub open spec fn spec_dedicated_allocation_info(self) -> DedicatedAllocationInfo {
        match self {
            DedicatedResourceHandle::Buffer(buffer) => DedicatedAllocationInfo { buffer, image: 0 },
            DedicatedResourceHandle::Image(image) => DedicatedAllocationInfo { buffer: 0, image },
            DedicatedResourceHandle::NoResource => DedicatedAllocationInfo { buffer: 0, image: 0 },
        }
    }

    /// The dedicated allocation info for this resource. Null handles stand
    /// for missing values, so the result can always be used to allocate.
    pub fn as_dedicated_allocation_info(&self) -> (info: DedicatedAllocationInfo)
        ensures
            info == self.spec_dedicated_allocation_info(),
    {
        match self {
            DedicatedResourceHandle::Buffer(buffer) => DedicatedAllocationInfo {
                buffer: *buffer,
                image: 0,
            },
            DedicatedResourceHandle::Image(image) => DedicatedAllocationInfo {
                buffer: 0,
                image: *image,
            },
            DedicatedResourceHandle::NoResource => DedicatedAllocationInfo { buffer: 0, image: 0 },
        }
    }
}

impl Default for DedicatedResourceHandle {
    fn default() -> (handle: Self)
        ensures
            handle == DedicatedResourceHandle::NoResource,
    {
        DedicatedResourceHandle::NoResource
    }
}

/// What the device reports when asked what memory a buffer or an image
/// needs.
#[derive(Copy, Clone, PartialEq, Eq, Debug, Structural)]
pub struct ResourceMemoryRequirements {
    pub size: u64,
    pub alignment: u64,
    pub memory_type_bits: u32,
    pub prefers_dedicated_allocation: bool,
    pub requires_dedicated_allocation: bool,
}

/// All supported memory requirements of one allocation.
#[derive(Copy, Clone, PartialEq, Eq, Debug, Structural)]
pub struct AllocationRequirements {
    pub size_in_bytes: u64,
    pub alignment: u64,
    /// Bit `i` is set when memory type `i` is acceptable.
    pub memory_type_bits: u32,
    /// The memory type that was chosen among the acceptable ones.
    pub memory_type_index: usize,
    /// The property flags that the memory must have, as raw bits.
    pub memory_properties: u32,
    pub prefers_dedicated_allocation: bool,
    pub requires_dedicated_allocation: bool,
    pub dedicated_resource_handle: DedicatedResourceHandle,
}

/// Memory type `index` is acceptable to a resource with these type bits and
/// has every one of the required property flags.
pub open spec fn is_suitable_type(
    memory_types: Seq<MemoryType>,
    memory_type_bits: u32,
    required_flags: u32,
    index: int,
) -> bool {
    &&& 0 <= index < memory_types.len()
    &&& PrettyBitflag(memory_type_bits).spec_has_bit(index)
    &&& memory_types[index].property_flags & required_flags == required_flags
}

/// Whether `other` is a subset of the property flags `flags`, by ash's
/// `vk::MemoryPropertyFlags::contains` on the flags that
/// `vk::MemoryPropertyFlags::from_raw` makes of the raw bits: every bit of
/// `other` is set in `flags`.
#[verifier::external_body]
fn property_flags_contain(flags: u32, other: u32) -> (contained: bool)
    ensures
        contained == (flags & other == other),
{
    ash::vk::MemoryPropertyFlags::from_raw(flags).contains(
        ash::vk::MemoryPropertyFlags::from_raw(other),
    )
}

impl Default for AllocationRequirements {
    fn default() -> (requirements: Self)
        ensures
            requirements == (AllocationRequirements {
                size_in_bytes: 0,
                alignment: 0,
                memory_type_bits: 0,
                memory_type_index: 0,
                memory_properties: 0,
                prefers_dedicated_allocation: false,
                requires_dedicated_allocation: false,
                dedicated_resource_handle: DedicatedResourceHandle::NoResource,
            }),
    {
        AllocationRequirements {
            size_in_bytes: 0,
            alignment: 0,
            memory_type_bits: 0,
            memory_type_index: 0,
            memory_properties: 0,
            prefers_dedicated_allocation: false,
            requires_dedicated_allocation: false,
            dedicated_resource_handle: DedicatedResourceHandle::NoResource,
        }
    }
}

impl AllocationRequirements {
    /// The largest size that may have to be allocated to find an aligned
    /// offset for the memory: `size + alignment - 1`, as a number without
    /// bounds.
    pub open spec fn spec_aligned_size(&self) -> int {
        self.size_in_bytes + self.alignment - 1
    }

    /// The requirements are what a device reports and an allocator expects:
    /// the alignment is a power of two, the memory type that was chosen is
    /// one that the type bits allow, and a request that requires a dedicated
    /// allocation names the resource that the allocation is for.
    pub open spec fn spec_is_valid(&self) -> bool {
        &&& self.alignment >= 1
        &&& self.alignment & ((self.alignment - 1) as u64) == 0
        &&& PrettyBitflag(self.memory_type_bits).spec_has_bit(self.memory_type_index as int)
        &&& self.requires_dedicated_allocation ==> self.dedicated_resource_handle
            != DedicatedResourceHandle::NoResource
    }

    /// The request wants a dedicated allocation, by preference or by need.
    pub open spec fn spec_wants_dedicated(&self) -> bool {
        self.prefers_dedicated_allocation || self.requires_dedicated_allocation
    }

    /// Compute the maximum size which must be allocated to ensure an
    /// aligned offset for the resulting memory.
    pub fn aligned_size(&self) -> (size: u64)
        requires
            self.alignment >= 1,
            self.spec_aligned_size() <= u64::MAX,
        ensures
            size == self.spec_aligned_size(),
    {
        self.size_in_bytes + (self.alignment - 1)
    }

    /// Whether the aligned size is below `limit`. This is decided for every
    /// request: also for one whose aligned size fits no `u64`.
    pub fn aligned_size_is_below(&self, limit: u64) -> (below: bool)
        ensures
            below == (self.spec_aligned_size() < limit),
    {
        self.size_in_bytes <= limit && self.alignment <= limit - self.size_in_bytes
    }

    /// Whether the requirements are what a device reports and an allocator
    /// expects.
    pub fn is_valid(&self) -> (valid: bool)
        ensures
            valid == self.spec_is_valid(),
    {
        let names_resource = match self.dedicated_resource_handle {
            DedicatedResourceHandle::NoResource => false,
            _ => true,
        };
        self.alignment >= 1 && self.alignment & (self.alignment - 1) == 0 && PrettyBitflag(
            self.memory_type_bits,
        ).has_bit(self.memory_type_index) && (!self.requires_dedicated_allocation
            || names_resource)
    }

    /// Whether the request prefers or requires a dedicated allocation.
    pub fn wants_dedicated(&self) -> (dedicated: bool)
        ensures
            dedicated == self.spec_wants_dedicated(),
    {
        self.prefers_dedicated_allocation || self.requires_dedicated_allocation
    }

    /// Pick the memory type for a resource: the first type that the type
    /// bits allow and that has all of the required property flags.
    ///
    /// Fails with `NoSupportedTypeForProperties`, which carries the type
    /// bits and the required flags, exactly when no type is suitable.
    pub fn pick_memory_type_index(
        memory_types: &[MemoryType],
        memory_type_bits: u32,
        memory_property_flags: u32,
    ) -> (picked: Result<usize, AllocatorError>)
        ensures
            match picked {
                Ok(index) => {
                    &&& is_suitable_type(
                        memory_types@,
                        memory_type_bits,
                        memory_property_flags,
                        index as int,
                    )
                    &&& forall|earlier: int|
                        0 <= earlier < index ==> !is_suitable_type(
                            memory_types@,
                            memory_type_bits,
                            memory_property_flags,
                            earlier,
                        )
                },
                Err(error) => {
                    &&& error == AllocatorError::NoSupportedTypeForProperties(
                        PrettyBitflag(memory_type_bits),
                        memory_property_flags,
                    )
                    &&& forall|index: int|
                        !is_suitable_type(
                            memory_types@,
                            memory_type_bits,
                            memory_property_flags,
                            index,
                        )
                },
            },
    {
        let mut index: usize = 0;
        while index < memory_types.len()
            invariant
                index <= memory_types@.len(),
                forall|earlier: int|
                    0 <= earlier < index ==> !is_suitable_type(
                        memory_types@,
                        memory_type_bits,
                        memory_property_flags,
                        earlier,
                    ),
            decreases memory_types@.len() - index,
        {
            let is_required_type = PrettyBitflag(memory_type_bits).has_bit(index);
            let has_required_properties = property_flags_contain(
                memory_types[index].property_flags,
                memory_property_flags,
            );
            if is_required_type && has_required_properties {
                return Ok(index);
            }
            index = index + 1;
        }
        Err(
            AllocatorError::NoSupportedTypeForProperties(
                PrettyBitflag(memory_type_bits),
                memory_property_flags,
            ),
        )
    }

    /// Put together the requirements of a resource from what the device
    /// reported for it and the memory type that was picked.
    pub fn from_memory_requirements(
        reported: &ResourceMemoryRequirements,
        memory_type_index: usize,
        memory_property_flags: u32,
        dedicated_resource_handle: DedicatedResourceHandle,
    ) -> (requirements: Self)
        ensures
            requirements == (AllocationRequirements {
                size_in_bytes: reported.size,
                alignment: reported.alignment,
                memory_type_bits: reported.memory_type_bits,
                memory_type_index,
                memory_properties: memory_property_flags,
                prefers_dedicated_allocation: reported.prefers_dedicated_allocation,
                requires_dedicated_allocation: reported.requires_dedicated_allocation,
                dedicated_resource_handle,
            }),
    {
        AllocationRequirements {
            size_in_bytes: reported.size,
            alignment: reported.alignment,
            memory_type_bits: reported.memory_type_bits,
            memory_type_index,
            memory_properties: memory_property_flags,
            prefers_dedicated_allocation: reported.prefers_dedicated_allocation,
            requires_dedicated_allocation: reported.requires_dedicated_allocation,
            dedicated_resource_handle,
        }
    }

    /// The requirements that `for_buffer` and `for_image` give for a
    /// resource, when a suitable memory type exists: what the device
    /// reported, with the first suitable memory type. They are valid where
    /// the device reported a power of two as the alignment.
    pub open spec fn spec_for_resource(
        memory_types: Seq<MemoryType>,
        memory_property_flags: u32,
        reported: ResourceMemoryRequirements,
        handle: DedicatedResourceHandle,
        requirements: AllocationRequirements,
    ) -> bool {
        &&& is_suitable_type(
            memory_types,
            reported.memory_type_bits,
            memory_property_flags,
            requirements.memory_type_index as int,
        )
        &&& forall|earlier: int|
            0 <= earlier < requirements.memory_type_index ==> !is_suitable_type(
                memory_types,
                reported.memory_type_bits,
                memory_property_flags,
                earlier,
            )
        &&& requirements == (AllocationRequirements {
            size_in_bytes: reported.size,
            alignment: reported.alignment,
            memory_type_bits: reported.memory_type_bits,
            memory_type_index: requirements.memory_type_index,
            memory_properties: memory_property_flags,
            prefers_dedicated_allocation: reported.prefers_dedicated_allocation,
            requires_dedicated_allocation: reported.requires_dedicated_allocation,
            dedicated_resource_handle: handle,
        })
        &&& (reported.alignment >= 1 && reported.alignment & ((reported.alignment - 1) as u64) == 0
            && handle != DedicatedResourceHandle::NoResource) ==> requirements.spec_is_valid()
    }

    /// Get the memory requirements for a given buffer.
    ///
    /// * `memory_types` - the memory types available on the physical device
    /// * `memory_property_flags` - the properties the memory must have
    /// * `buffer` - the buffer which needs a memory allocation
    /// * `reported` - what the device reported that the buffer needs
    pub fn for_buffer(
        memory_types: &[MemoryType],
        memory_property_flags: u32,
        buffer: u64,
        reported: &ResourceMemoryRequirements,
    ) -> (result: Result<Self, AllocatorError>)
        ensures
            match result {
                Ok(requirements) => Self::spec_for_resource(
                    memory_types@,
                    memory_property_flags,
                    *reported,
                    DedicatedResourceHandle::Buffer(buffer),
                    requirements,
                ),
                Err(error) => {
                    &&& error == AllocatorError::NoSupportedTypeForProperties(
                        PrettyBitflag(reported.memory_type_bits),
                        memory_property_flags,
                    )
                    &&& forall|index: int|
                        !is_suitable_type(
                            memory_types@,
                            reported.memory_type_bits,
                            memory_property_flags,
                            index,
                        )
                },
            },
    {
        match Self::pick_memory_type_index(
            memory_types,
            reported.memory_type_bits,
            memory_property_flags,
        ) {
            Ok(memory_type_index) => Ok(
                Self::from_memory_requirements(
                    reported,
                    memory_type_index,
                    memory_property_flags,
                    DedicatedResourceHandle::Buffer(buffer),
                ),
            ),
            Err(error) => Err(error),
        }
    }

    /// Get the memory requirements for a given image.
    ///
    /// * `memory_types` - the memory types available on the physical device
    /// * `memory_property_flags` - the properties the memory must have
    /// * `image` - the image which needs a memory allocation
    /// * `reported` - what the device reported that the image needs
    pub fn for_image(
        memory_types: &[MemoryType],
        memory_property_flags: u32,
        image: u64,
        reported: &ResourceMemoryRequirements,
    ) -> (result: Result<Self, AllocatorError>)
        ensures
            match result {
                Ok(requirements) => Self::spec_for_resource(
                    memory_types@,
                    memory_property_flags,
                    *reported,
                    DedicatedResourceHandle::Image(image),
                    requirements,
                ),
                Err(error) => {
                    &&& error == AllocatorError::NoSupportedTypeForProperties(
                        PrettyBitflag(reported.memory_type_bits),
                        memory_property_flags,
                    )
                    &&& forall|index: int|
                        !is_suitable_type(
                            memory_types@,
                            reported.memory_type_bits,
                            memory_property_flags,
                            index,
                        )
                },
            },
    {
        match Self::pick_memory_type_index(
            memory_types,
            reported.memory_type_bits,
            memory_property_flags,
        ) {
            Ok(memory_type_index) => Ok(
                Self::from_memory_requirements(
                    reported,
                    memory_type_index,
                    memory_property_flags,
                    DedicatedResourceHandle::Image(image),
                ),
            ),
            Err(error) => Err(error),
        }
    }
}

} // verus!
