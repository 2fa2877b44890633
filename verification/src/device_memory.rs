//! One device memory object and the bookkeeping that lets many allocations
//! share a single host mapping of it.
//!
//! The device API maps a memory object at most once. Because one object can
//! back many allocations, mappings are counted per object: the API is asked
//! to map when the count leaves zero and to unmap when it returns to zero.
//! This type decides; whoever owns the device performs the call.
use crate::error::AllocatorError;
use vstd::prelude::*;

verus! {

/// The state of a device memory object, as contracts see it.
pub struct DeviceMemoryView {
    /// The raw handle of the device memory object.
    pub memory: u64,
    /// The host address of the mapping; zero while the memory is not mapped.
    pub host_address: usize,
    /// How many `map` calls have not been matched by an `unmap` yet.
    pub map_count: nat,
}

impl DeviceMemoryView {
    /// The invariant: the memory has a host address exactly while somebody
    /// has it mapped.
    pub open spec fn wf(self) -> bool {
        &&& self.map_count <= u32::MAX
        &&& (self.map_count == 0 <==> self.host_address == 0)
    }

    /// The device API has to be asked for a mapping before the next `map`.
    pub open spec fn needs_mapping(self) -> bool {
        self.map_count == 0
    }

    /// Whether `map` succeeds, given what the API returned (if it was
    /// asked). A first mapping succeeds when the API gave an address that is
    /// not null; any further one always does.
    pub open spec fn map_succeeds(self, api_address: Option<usize>) -> bool {
        self.map_count > 0 || (api_address matches Some(address) && address != 0)
    }

    /// The address that a successful `map` returns.
    pub open spec fn address_after_map(self, api_address: Option<usize>) -> usize {
        if self.map_count > 0 {
            self.host_address
        } else {
            api_address.unwrap()
        }
    }

    /// The state after `map`.
    pub open spec fn after_map(self, api_address: Option<usize>) -> Self {
        if self.map_succeeds(api_address) {
            DeviceMemoryView {
                memory: self.memory,
                host_address: self.address_after_map(api_address),
                map_count: self.map_count + 1,
            }
        } else {
            self
        }
    }

    /// The state after `unmap`.
    pub open spec fn after_unmap(self) -> Self {
        if self.map_count == 0 {
            self
        } else if self.map_count == 1 {
            DeviceMemoryView { memory: self.memory, host_address: 0, map_count: 0 }
        } else {
            DeviceMemoryView {
                memory: self.memory,
                host_address: self.host_address,
                map_count: (self.map_count - 1) as nat,
            }
        }
    }
}

/// Mapping keeps the invariant, and so does unmapping.
pub proof fn lemma_mapping_keeps_invariant(memory: DeviceMemoryView, api_address: Option<usize>)
    requires
        memory.wf(),
        memory.map_count < u32::MAX,
    ensures
        memory.after_map(api_address).wf(),
        memory.after_unmap().wf(),
{
}

/// Two `map` calls with no `unmap` between them return the same address:
/// once the first has succeeded, the second succeeds whatever the API is
/// said to have returned, and gives the address that the first gave.
pub proof fn lemma_repeated_map_returns_same_address(
    memory: DeviceMemoryView,
    first_api_address: Option<usize>,
    second_api_address: Option<usize>,
)
    requires
        memory.wf(),
        memory.map_succeeds(first_api_address),
    ensures
        memory.after_map(first_api_address).map_succeeds(second_api_address),
        !memory.after_map(first_api_address).needs_mapping(),
        memory.after_map(first_api_address).address_after_map(second_api_address)
            == memory.address_after_map(first_api_address),
{
}

/// As many `unmap` calls as there were `map` calls leave the memory as it
/// was before the first of them: here for one and for two mappings of
/// memory that was not mapped.
pub proof fn lemma_balanced_unmap_restores(memory: DeviceMemoryView, api_address: Option<usize>)
    requires
        memory.wf(),
        memory.map_count == 0,
        memory.map_succeeds(api_address),
    ensures
        memory.after_map(api_address).after_unmap() == memory,
        memory.after_map(api_address).after_map(None).after_unmap().after_unmap() == memory,
{
}

/// A device memory object which gracefully handles multiple requests to map
/// it.
#[derive(Debug)]
pub struct DeviceMemory {
    memory: u64,
    host_accessible_address: usize,
    map_count: u32,
}

impl View for DeviceMemory {
    type V = DeviceMemoryView;

    closed spec fn view(&self) -> DeviceMemoryView {
        DeviceMemoryView {
            memory: self.memory,
            host_address: self.host_accessible_address,
            map_count: self.map_count as nat,
        }
    }
}

impl DeviceMemory {
    /// Wrap a freshly created device memory object. It is not mapped.
    pub fn new(memory: u64) -> (device_memory: Self)
        ensures
            device_memory@ == (DeviceMemoryView { memory, host_address: 0, map_count: 0 }),
            device_memory@.wf(),
    {
        Self { memory, host_accessible_address: 0, map_count: 0 }
    }

    /// The raw handle of the underlying device memory object.
    pub fn memory(&self) -> (memory: u64)
        ensures
            memory == self@.memory,
    {
        self.memory
    }

    /// How many mappings are outstanding.
    pub fn map_count(&self) -> (count: u32)
        ensures
            count == self@.map_count,
    {
        self.map_count
    }

    /// The host address of the mapping, zero when there is none.
    pub fn host_address(&self) -> (address: usize)
        ensures
            address == self@.host_address,
    {
        self.host_accessible_address
    }

    /// Whether the device API must be asked to map the whole memory object
    /// before `map` is called. It must be asked exactly when nobody has the
    /// memory mapped.
    pub fn needs_mapping(&self) -> (needed: bool)
        ensures
            needed == self@.needs_mapping(),
    {
        self.map_count == 0
    }

    /// Get the host address of the beginning of the device memory. The
    /// entire region of memory is always mapped.
    ///
    /// `api_address` is what the device API returned when the caller asked
    /// it to map the memory, which the caller does only when `needs_mapping`
    /// says so: `None` when the API failed or was not asked. While the
    /// memory is already mapped the argument is not looked at.
    ///
    /// Fails, and changes nothing, when the memory is not mapped and the
    /// API gave no address.
    pub fn map(&mut self, api_address: Option<usize>) -> (mapped: Result<usize, AllocatorError>)
        requires
            old(self)@.wf(),
            old(self)@.map_count < u32::MAX,
        ensures
            final(self)@.wf(),
            final(self)@ == old(self)@.after_map(api_address),
            match mapped {
                Ok(address) => old(self)@.map_succeeds(api_address) && address == old(
                    self,
                )@.address_after_map(api_address),
                Err(error) => !old(self)@.map_succeeds(api_address) && error.is_runtime_error(
                    "Unable to map a memory allocation!"@,
                ),
            },
    {
        if self.map_count == 0 {
            match api_address {
                Some(address) => {
                    if address == 0 {
                        return Err(AllocatorError::runtime("Unable to map a memory allocation!"));
                    }
                    self.host_accessible_address = address;
                },
                None => {
                    return Err(AllocatorError::runtime("Unable to map a memory allocation!"));
                },
            }
        }
        self.map_count = self.map_count + 1;
        Ok(self.host_accessible_address)
    }

    /// Unmap the device memory.
    ///
    /// This can be called as often as `map` was. Returns `Ok(true)` when
    /// the last mapping went away, so that the caller now has to ask the
    /// device API to unmap the memory, and `Ok(false)` when mappings remain.
    ///
    /// Fails, and changes nothing, when the memory has no mapping.
    pub fn unmap(&mut self) -> (unmapped: Result<bool, AllocatorError>)
        requires
            old(self)@.wf(),
        ensures
            final(self)@.wf(),
            final(self)@ == old(self)@.after_unmap(),
            match unmapped {
                Ok(api_unmap_due) => old(self)@.map_count > 0 && api_unmap_due == (old(
                    self,
                )@.map_count == 1),
                Err(error) => old(self)@.map_count == 0 && error.is_runtime_error(
                    "Attemped to unmap memory which has no mapping!"@,
                ),
            },
    {
        if self.map_count == 0 {
            return Err(
                AllocatorError::runtime("Attemped to unmap memory which has no mapping!"),
            );
        }
        let api_unmap_due = self.map_count == 1;
        if api_unmap_due {
            self.host_accessible_address = 0;
        }
        self.map_count = self.map_count - 1;
        Ok(api_unmap_due)
    }
}

} // verus!
